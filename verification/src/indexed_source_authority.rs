//! Validation of the per-file authority of an index state.
//!
//! Paths, language labels and digests that come out of a generation's database are
//! not trusted by themselves. This one validator turns them into a population keyed by
//! canonical path, for source search, comparison and freshness: no file stands under two
//! spellings.

use vstd::prelude::*;

use crate::domain::DomainError;
use crate::index_state::{FileRecord, RecordModel};
use crate::language;
use crate::language::language_for_extension;
use crate::ordered::StringMap;
use crate::path;
use crate::path::{extension, plain_relative};
use crate::text;
use crate::text::hex_digest;

verus! {

/// The language that a path's extension is filed under.
pub open spec fn language_at(path: Seq<char>) -> Option<Seq<char>> {
    match path::path_extension(path) {
        Some(extension) => language::language_of(extension),
        None => None,
    }
}

/// The language that a path's extension is filed under.
pub fn language_for_path(path: &str) -> (r: Option<&'static str>)
    ensures
        r.deep_view() == language_at(path@),
{
    match extension(path) {
        Some(extension) => language_for_extension(extension.as_str()),
        None => None,
    }
}

/// A record that may stand for the file at `path`.
pub open spec fn is_authoritative(path: Seq<char>, record: RecordModel) -> bool {
    &&& path::is_plain_relative(path)
    &&& text::is_hex_digest(record.hash)
    &&& language_at(path) == Some(record.language)
}

/// An earlier record is filed under the same path as the one at position `i`.
pub open spec fn is_repeated(records: Seq<(Seq<char>, RecordModel)>, i: int) -> bool {
    exists|j: int| 0 <= j < i && (#[trigger] records[j]).0 == records[i].0
}

/// What is wrong with the first bad record from position `i` on.
pub open spec fn authority_fault(records: Seq<(Seq<char>, RecordModel)>, i: int) -> Option<
    Seq<char>,
>
    decreases records.len() - i,
{
    if i < 0 || i >= records.len() {
        None
    } else if !is_authoritative(records[i].0, records[i].1) {
        Some(
            "indexed source authority for '"@ + records[i].0
                + "' has an invalid path, language, or BLAKE3 digest"@,
        )
    } else if is_repeated(records, i) {
        Some("indexed source authority contains duplicate path '"@ + records[i].0 + "'"@)
    } else {
        authority_fault(records, i + 1)
    }
}

/// The map holds the records, each under its path.
pub open spec fn holds(
    population: Map<Seq<char>, FileRecord>,
    records: Seq<(Seq<char>, RecordModel)>,
) -> bool {
    &&& forall|path: Seq<char>| #[trigger]
        population.dom().contains(path) <==> exists|j: int|
            0 <= j < records.len() && (#[trigger] records[j]).0 == path
    &&& forall|j: int|
        0 <= j < records.len() ==> population[(#[trigger] records[j]).0].deep_view()
            == records[j].1
}

/// The records by canonical path, if every one has a plain relative path of its own, a
/// lower-case digest and the language of its extension.
pub fn validate_indexed_source_records(records: &Vec<(String, FileRecord)>) -> (r: Result<
    StringMap<FileRecord>,
    DomainError,
>)
    ensures
        match r {
            Ok(population) => authority_fault(records.deep_view(), 0) is None && holds(
                population@,
                records.deep_view(),
            ),
            Err(DomainError::PublishedGenerationInvalid { reason }) => authority_fault(
                records.deep_view(),
                0,
            ) == Some(reason@),
        },
{
    let ghost all = records.deep_view();
    let mut population: StringMap<FileRecord> = StringMap::new();
    assert(holds(population@, all.take(0)));
    for i in 0..records.len()
        invariant
            all == records.deep_view(),
            authority_fault(all, i as int) == authority_fault(all, 0),
            holds(population@, all.take(i as int)),
    {
        let path = records[i].0.as_str();
        let record = &records[i].1;
        assert(all[i as int].0 == path@ && all[i as int].1 == record.deep_view());
        let filed = match language_for_path(path) {
            Some(language) => text::same(language, record.language.as_str()),
            None => false,
        };
        if !plain_relative(path) || !hex_digest(record.blake3_hash.as_str()) || !filed {
            let mut reason = "indexed source authority for '".to_owned();
            reason.append(path);
            reason.append("' has an invalid path, language, or BLAKE3 digest");
            return Err(DomainError::PublishedGenerationInvalid { reason });
        }
        let ghost before = population@;
        let repeated = population.insert(records[i].0.clone(), record.clone());
        proof {
            let done = all.take(i as int);
            let next = all.take(i + 1);
            assert(repeated <==> is_repeated(all, i as int)) by {
                if repeated {
                    let j = choose|j: int| 0 <= j < done.len() && (#[trigger] done[j]).0 == path@;
                    assert(all[j].0 == path@);
                }
                if is_repeated(all, i as int) {
                    let j = choose|j: int| 0 <= j < i && (#[trigger] all[j]).0 == path@;
                    assert(done[j].0 == path@);
                }
            }
            if !repeated {
                assert forall|p: Seq<char>| #[trigger] population@.dom().contains(p) <==> exists|
                    j: int,
                | 0 <= j < next.len() && (#[trigger] next[j]).0 == p by {
                    assert(next[i as int].0 == path@);
                    if before.dom().contains(p) {
                        let j = choose|j: int| 0 <= j < done.len() && (#[trigger] done[j]).0 == p;
                        assert(next[j].0 == p);
                    }
                    if exists|j: int| 0 <= j < next.len() && (#[trigger] next[j]).0 == p {
                        let j = choose|j: int| 0 <= j < next.len() && (#[trigger] next[j]).0 == p;
                        if j < i {
                            assert(done[j].0 == p);
                            assert(before.dom().contains(p));
                        }
                    }
                }
                assert forall|j: int| 0 <= j < next.len() implies population@[(
                #[trigger] next[j]).0].deep_view() == next[j].1 by {
                    if j < i {
                        assert(done[j] == next[j]);
                        assert(before.dom().contains(done[j].0));
                    }
                }
            }
        }
        if repeated {
            let mut reason = "indexed source authority contains duplicate path '".to_owned();
            reason.append(path);
            reason.append("'");
            return Err(DomainError::PublishedGenerationInvalid { reason });
        }
    }
    assert(all.take(all.len() as int) =~= all);
    Ok(population)
}

/// A population that passes holds only authoritative records, and no path twice.
pub proof fn law_validated_population_is_closed(records: Seq<(Seq<char>, RecordModel)>, i: int)
    requires
        0 <= i <= records.len(),
        authority_fault(records, i) is None,
    ensures
        forall|j: int|
            i <= j < records.len() ==> is_authoritative((#[trigger] records[j]).0, records[j].1)
                && !is_repeated(records, j),
    decreases records.len() - i,
{
    if i < records.len() {
        law_validated_population_is_closed(records, i + 1);
    }
}

/// A population that passes is canonical: two of its records never have the same path
/// components, however their paths are spelled.
pub proof fn law_validated_population_is_canonical(
    records: Seq<(Seq<char>, RecordModel)>,
    j: int,
    k: int,
)
    requires
        authority_fault(records, 0) is None,
        0 <= j < k < records.len(),
    ensures
        path::named(path::segments(records[j].0)) != path::named(path::segments(records[k].0)),
{
    law_validated_population_is_closed(records, 0);
    assert(is_authoritative(records[j].0, records[j].1));
    assert(is_authoritative(records[k].0, records[k].1));
    path::law_plain_relative_is_canonical(records[j].0, records[k].0);
    assert(!is_repeated(records, k));
}

/// The language of a source is that of its extension, wherever the source lies and whatever
/// it is called: `.rs` is Rust, `.go` is Go, `.py` and `.pyi` are Python, and `.ts`, `.tsx`,
/// `.mts` and `.cts` are TypeScript.
pub proof fn law_source_has_the_language_of_its_extension(
    directory: Seq<char>,
    stem: Seq<char>,
    extension: Seq<char>,
)
    requires
        directory.len() == 0 || directory.last() == '/',
        stem.len() > 0,
        extension.len() > 0,
        forall|i: int| 0 <= i < stem.len() ==> #[trigger] stem[i] != '/',
        forall|i: int|
            0 <= i < extension.len() ==> #[trigger] extension[i] != '/' && extension[i] != '.',
    ensures
        ({
            let found = language_at(directory + (stem + seq!['.'] + extension));
            &&& found == Some("rust"@) <==> extension == "rs"@
            &&& found == Some("go"@) <==> extension == "go"@
            &&& found == Some("python"@) <==> extension == "py"@ || extension == "pyi"@
            &&& found == Some("typescript"@) <==> extension == "ts"@ || extension == "tsx"@
                || extension == "mts"@ || extension == "cts"@
            &&& found is Some ==> language::registered(found->0)
        }),
{
    path::law_extension_follows_the_last_dot(directory, stem, extension);
    language::law_registry_is_exact(extension);
    language::law_registry_is_closed(extension);
}

/// A population passes exactly if every record has a plain relative path that no earlier
/// record has, a digest of 64 lower-case hexadecimal digits, and the language of its path's
/// extension.
pub proof fn law_validation_is_exact(records: Seq<(Seq<char>, RecordModel)>, i: int)
    requires
        0 <= i <= records.len(),
    ensures
        authority_fault(records, i) is None <==> forall|j: int|
            i <= j < records.len() ==> {
                &&& path::is_plain_relative((#[trigger] records[j]).0)
                &&& text::is_hex_digest(records[j].1.hash)
                &&& language_at(records[j].0) == Some(records[j].1.language)
                &&& forall|k: int| 0 <= k < j ==> (#[trigger] records[k]).0 != records[j].0
            },
    decreases records.len() - i,
{
    if i < records.len() {
        law_validation_is_exact(records, i + 1);
        if is_repeated(records, i) {
            let k = choose|k: int| 0 <= k < i && (#[trigger] records[k]).0 == records[i].0;
            assert(records[k].0 == records[i].0);
        }
    }
}

/// A validated population holds every record as it was given, under its own path, and nothing
/// under any other path.
pub proof fn law_population_holds_every_record(
    population: Map<Seq<char>, FileRecord>,
    records: Seq<(Seq<char>, RecordModel)>,
    j: int,
    path: Seq<char>,
)
    requires
        holds(population, records),
        0 <= j < records.len(),
        forall|k: int| 0 <= k < records.len() ==> (#[trigger] records[k]).0 != path,
    ensures
        population.dom().contains(records[j].0),
        population[records[j].0].deep_view() == records[j].1,
        !population.dom().contains(path),
{
}

} // verus!
