//! The registry of indexed languages and their file extensions.

use vstd::prelude::*;

use crate::ordered::StringMap;
use crate::text;

verus! {

/// The language of a file extension.
pub open spec fn language_of(extension: Seq<char>) -> Option<Seq<char>> {
    if extension == "rs"@ {
        Some("rust"@)
    } else if extension == "go"@ {
        Some("go"@)
    } else if extension == "py"@ || extension == "pyi"@ {
        Some("python"@)
    } else if extension == "ts"@ || extension == "tsx"@ || extension == "mts"@ || extension
        == "cts"@ {
        Some("typescript"@)
    } else {
        None
    }
}

/// Some extension is filed under the language.
pub open spec fn registered(language: Seq<char>) -> bool {
    language == "rust"@ || language == "go"@ || language == "python"@ || language == "typescript"@
}

/// The language of a file extension.
pub fn language_for_extension(extension: &str) -> (r: Option<&'static str>)
    ensures
        r.deep_view() == language_of(extension@),
{
    if text::same(extension, "rs") {
        Some("rust")
    } else if text::same(extension, "go") {
        Some("go")
    } else if text::same(extension, "py") || text::same(extension, "pyi") {
        Some("python")
    } else if text::same(extension, "ts") || text::same(extension, "tsx") || text::same(
        extension,
        "mts",
    ) || text::same(extension, "cts") {
        Some("typescript")
    } else {
        None
    }
}

/// Every registered extension.
pub open spec fn extensions() -> Seq<Seq<char>> {
    seq!["rs"@, "go"@, "py"@, "pyi"@, "ts"@, "tsx"@, "mts"@, "cts"@]
}

/// Every registered language.
pub open spec fn languages() -> Seq<Seq<char>> {
    seq!["rust"@, "go"@, "python"@, "typescript"@]
}

/// Every registered language.
pub fn registered_languages() -> (r: Vec<&'static str>)
    ensures
        r.deep_view() == languages(),
{
    let r: Vec<&'static str> = vec!["rust", "go", "python", "typescript"];
    assert(r.deep_view() =~= languages());
    r
}

/// Whether some extension is filed under `language`.
pub fn is_registered(language: &str) -> (r: bool)
    ensures
        r == registered(language@),
{
    text::same(language, "rust") || text::same(language, "go") || text::same(language, "python")
        || text::same(language, "typescript")
}

/// An extension that a run over `languages` indexes: every registered one where no
/// language is named, else those of the named languages.
pub open spec fn selects(languages: Seq<Seq<char>>, extension: Seq<char>) -> bool {
    match language_of(extension) {
        Some(language) => languages.len() == 0 || languages.contains(language),
        None => false,
    }
}

/// The extensions that a run over `languages` indexes.
pub fn extensions_for_languages(languages: &Vec<String>) -> (r: StringMap<()>)
    ensures
        forall|e: Seq<char>| #[trigger]
            r@.dom().contains(e) <==> selects(languages.deep_view(), e),
{
    let all: Vec<&'static str> = vec!["rs", "go", "py", "pyi", "ts", "tsx", "mts", "cts"];
    assert(all.deep_view() =~= extensions());
    let mut r: StringMap<()> = StringMap::new();
    for i in 0..all.len()
        invariant
            all.deep_view() == extensions(),
            forall|e: Seq<char>| #[trigger]
                r@.dom().contains(e) <==> selects(languages.deep_view(), e) && extensions().take(
                    i as int,
                ).contains(e),
    {
        let ghost before = r@;
        let extension = all[i];
        assert(extension@ == all.deep_view()[i as int]);
        if let Some(language) = language_for_extension(extension) {
            if languages.len() == 0 || text::list_contains(languages, language) {
                r.insert(extension.to_owned(), ());
            }
        }
        proof {
            let done = extensions().take(i as int);
            let next = extensions().take(i + 1);
            assert(next =~= done.push(extension@));
            assert forall|e: Seq<char>| #[trigger] r@.dom().contains(e) <==> selects(
                languages.deep_view(),
                e,
            ) && next.contains(e) by {
                assert(next.contains(e) <==> done.contains(e) || e == extension@) by {
                    if done.contains(e) {
                        assert(next[done.index_of(e)] == e);
                    }
                    assert(next[i as int] == extension@);
                }
                assert(before.dom().contains(e) <==> selects(languages.deep_view(), e)
                    && done.contains(e));
            }
        }
    }
    proof {
        assert(extensions().take(8) =~= extensions());
        assert forall|e: Seq<char>| language_of(e) is Some implies extensions().contains(e) by {
            let x = extensions();
            assert(x[0] == "rs"@ && x[1] == "go"@ && x[2] == "py"@ && x[3] == "pyi"@ && x[4]
                == "ts"@ && x[5] == "tsx"@ && x[6] == "mts"@ && x[7] == "cts"@);
        }
    }
    r
}

/// Every registered extension has a registered language, and every registered
/// language has an extension.
pub proof fn law_registry_is_closed(extension: Seq<char>)
    ensures
        language_of(extension) is Some ==> registered(language_of(extension)->0),
        language_of("rs"@) == Some("rust"@),
        language_of("go"@) == Some("go"@),
        language_of("py"@) == Some("python"@),
        language_of("ts"@) == Some("typescript"@),
{
    reveal_strlit("rs");
    reveal_strlit("go");
    reveal_strlit("py");
    reveal_strlit("pyi");
    reveal_strlit("ts");
    assert("go"@[0] != "rs"@[0]);
    assert("py"@[0] != "rs"@[0] && "py"@[0] != "go"@[0]);
    assert("ts"@[0] != "rs"@[0] && "ts"@[0] != "go"@[0] && "ts"@[0] != "py"@[0]);
    assert("ts"@.len() != "pyi"@.len());
}

/// The registered extensions are told apart by their letters.
proof fn lemma_extensions_differ()
    ensures
        "rs"@ != "go"@ && "rs"@ != "py"@ && "rs"@ != "pyi"@ && "rs"@ != "ts"@ && "rs"@ != "tsx"@
            && "rs"@ != "mts"@ && "rs"@ != "cts"@,
        "go"@ != "py"@ && "go"@ != "pyi"@ && "go"@ != "ts"@ && "go"@ != "tsx"@ && "go"@ != "mts"@
            && "go"@ != "cts"@,
        "py"@ != "ts"@ && "py"@ != "tsx"@ && "py"@ != "mts"@ && "py"@ != "cts"@,
        "pyi"@ != "ts"@ && "pyi"@ != "tsx"@ && "pyi"@ != "mts"@ && "pyi"@ != "cts"@,
{
    reveal_strlit("rs");
    reveal_strlit("go");
    reveal_strlit("py");
    reveal_strlit("pyi");
    reveal_strlit("ts");
    reveal_strlit("tsx");
    reveal_strlit("mts");
    reveal_strlit("cts");
    assert("rs"@[0] == 'r' && "go"@[0] == 'g' && "py"@[0] == 'p' && "pyi"@[0] == 'p' && "ts"@[0]
        == 't' && "tsx"@[0] == 't' && "mts"@[0] == 'm' && "cts"@[0] == 'c');
}

proof fn lemma_languages_differ()
    ensures
        "rust"@ != "go"@ && "rust"@ != "python"@ && "rust"@ != "typescript"@,
        "go"@ != "python"@ && "go"@ != "typescript"@ && "python"@ != "typescript"@,
{
    reveal_strlit("rust");
    reveal_strlit("go");
    reveal_strlit("python");
    reveal_strlit("typescript");
    assert("rust"@[0] == 'r' && "go"@[0] == 'g' && "python"@[0] == 'p' && "typescript"@[0] == 't');
}

/// Which extension is filed under which language: `rs` under Rust, `go` under Go, `py` and
/// `pyi` under Python, `ts`, `tsx`, `mts` and `cts` under TypeScript, and no other extension
/// under any.
pub proof fn law_registry_is_exact(extension: Seq<char>)
    ensures
        language_of(extension) == Some("rust"@) <==> extension == "rs"@,
        language_of(extension) == Some("go"@) <==> extension == "go"@,
        language_of(extension) == Some("python"@) <==> extension == "py"@ || extension == "pyi"@,
        language_of(extension) == Some("typescript"@) <==> extension == "ts"@ || extension
            == "tsx"@ || extension == "mts"@ || extension == "cts"@,
        language_of(extension) is Some ==> language_of(extension) == Some("rust"@) || language_of(
            extension,
        ) == Some("go"@) || language_of(extension) == Some("python"@) || language_of(extension)
            == Some("typescript"@),
        forall|language: Seq<char>| #[trigger]
            registered(language) <==> languages().contains(language),
        languages() == seq!["rust"@, "go"@, "python"@, "typescript"@],
{
    lemma_extensions_differ();
    lemma_languages_differ();
    let all = languages();
    assert(all[0] == "rust"@ && all[1] == "go"@ && all[2] == "python"@ && all[3]
        == "typescript"@);
}

/// A run that names no language indexes every registered extension; one that names some
/// indexes exactly the extensions of those languages.
pub proof fn law_selection_follows_the_named_languages(
    languages: Seq<Seq<char>>,
    extension: Seq<char>,
)
    ensures
        languages.len() == 0 ==> (selects(languages, extension) <==> language_of(
            extension,
        ) is Some),
        languages.len() > 0 ==> (selects(languages, extension) <==> exists|i: int|
            0 <= i < languages.len() && language_of(extension) == Some(#[trigger] languages[i])),
{
    if languages.len() > 0 && selects(languages, extension) {
        let language = language_of(extension)->0;
        let i = languages.index_of(language);
        assert(languages[i] == language);
    }
}

} // verus!
