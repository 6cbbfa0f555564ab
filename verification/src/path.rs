//! Slash-separated paths: segments, names, extensions and repository safety.

use vstd::prelude::*;

use crate::text;

verus! {

/// The runs of characters between slashes, first to last.
pub open spec fn segments(path: Seq<char>) -> Seq<Seq<char>>
    decreases path.len(),
{
    if path.len() == 0 {
        seq![Seq::<char>::empty()]
    } else {
        let before = segments(path.drop_last());
        if path.last() == '/' {
            before.push(Seq::<char>::empty())
        } else {
            before.drop_last().push(before.last().push(path.last()))
        }
    }
}

pub open spec fn parent_dir() -> Seq<char> {
    seq!['.', '.']
}

pub open spec fn current_dir() -> Seq<char> {
    seq!['.']
}

/// Whether the path names the parent directory anywhere.
pub open spec fn names_parent(path: Seq<char>) -> bool {
    segments(path).contains(parent_dir())
}

/// Neither empty nor a name of the current or the parent directory.
pub open spec fn is_ordinary(segment: Seq<char>) -> bool {
    segment.len() > 0 && segment != current_dir() && segment != parent_dir()
}

/// Relative and made of ordinary names only. Such a path is canonical: no two of them
/// spell the same names.
pub open spec fn is_plain_relative(path: Seq<char>) -> bool {
    forall|i: int|
        0 <= i < segments(path).len() ==> is_ordinary(#[trigger] segments(path)[i])
}

/// Non-empty, without a root, and without a parent component.
pub open spec fn is_repository_relative(path: Seq<char>) -> bool {
    &&& path.len() > 0
    &&& path[0] != '/'
    &&& !names_parent(path)
}

/// The last segment that is neither empty nor a single dot.
pub open spec fn last_named(segments: Seq<Seq<char>>) -> Option<Seq<char>>
    decreases segments.len(),
{
    if segments.len() == 0 {
        None
    } else if segments.last().len() == 0 || segments.last() == current_dir() {
        last_named(segments.drop_last())
    } else {
        Some(segments.last())
    }
}

/// The final ordinary name of a path.
pub open spec fn file_name(path: Seq<char>) -> Option<Seq<char>> {
    match last_named(segments(path)) {
        Some(name) => if name == parent_dir() {
            None
        } else {
            Some(name)
        },
        None => None,
    }
}

/// What follows the last dot of a name, unless the name starts with that dot.
pub open spec fn name_extension(name: Seq<char>) -> Option<Seq<char>>
    decreases name.len(),
{
    if exists|d: int| is_last_dot(name, d) {
        let d = choose|d: int| is_last_dot(name, d);
        if d == 0 {
            None
        } else {
            Some(name.skip(d + 1))
        }
    } else {
        None
    }
}

pub open spec fn is_last_dot(name: Seq<char>, d: int) -> bool {
    &&& 0 <= d < name.len()
    &&& name[d] == '.'
    &&& forall|j: int| d < j < name.len() ==> name[j] != '.'
}

/// The extension of a path's final name.
pub open spec fn path_extension(path: Seq<char>) -> Option<Seq<char>> {
    match file_name(path) {
        Some(name) => name_extension(name),
        None => None,
    }
}

pub proof fn lemma_segments_nonempty(path: Seq<char>)
    ensures
        segments(path).len() > 0,
    decreases path.len(),
{
    if path.len() > 0 {
        lemma_segments_nonempty(path.drop_last());
    }
}

/// The segments that count as components: those that are neither empty nor a single dot.
pub open spec fn named(segments: Seq<Seq<char>>) -> Seq<Seq<char>>
    decreases segments.len(),
{
    if segments.len() == 0 {
        seq![]
    } else {
        let before = named(segments.drop_last());
        if segments.last().len() == 0 || segments.last() == current_dir() {
            before
        } else {
            before.push(segments.last())
        }
    }
}

proof fn lemma_named_ordinary(segments: Seq<Seq<char>>)
    requires
        forall|i: int| 0 <= i < segments.len() ==> is_ordinary(#[trigger] segments[i]),
    ensures
        named(segments) == segments,
    decreases segments.len(),
{
    if segments.len() > 0 {
        assert(is_ordinary(segments[segments.len() - 1]));
        assert forall|i: int| 0 <= i < segments.drop_last().len() implies is_ordinary(
            #[trigger] segments.drop_last()[i],
        ) by {
            assert(is_ordinary(segments[i]));
        }
        lemma_named_ordinary(segments.drop_last());
        assert(segments.drop_last().push(segments.last()) =~= segments);
    }
    assert(named(segments) =~= segments);
}

/// Paths with the same segments are the same.
pub proof fn lemma_segments_injective(a: Seq<char>, b: Seq<char>)
    requires
        segments(a) == segments(b),
    ensures
        a == b,
    decreases a.len() + b.len(),
{
    if a.len() == 0 && b.len() == 0 {
        assert(a =~= b);
    } else if a.len() == 0 || b.len() == 0 {
        let full = if a.len() == 0 {
            b
        } else {
            a
        };
        let before = segments(full.drop_last());
        lemma_segments_nonempty(full.drop_last());
        assert(segments(full) == seq![Seq::<char>::empty()]);
        if full.last() == '/' {
            assert(segments(full).len() == before.len() + 1);
        } else {
            assert(segments(full).last() == before.last().push(full.last()));
            assert(segments(full).last().len() > 0);
        }
        assert(false);
    } else {
        let ia = segments(a.drop_last());
        let ib = segments(b.drop_last());
        lemma_segments_nonempty(a.drop_last());
        lemma_segments_nonempty(b.drop_last());
        let s = segments(a);
        if a.last() == '/' {
            assert(s == ia.push(Seq::<char>::empty()));
            assert(s.last().len() == 0);
            if b.last() != '/' {
                assert(s == ib.drop_last().push(ib.last().push(b.last())));
                assert(s.last() == ib.last().push(b.last()));
                assert(false);
            }
            assert(s == ib.push(Seq::<char>::empty()));
            assert(ia =~= s.drop_last());
            assert(ib =~= s.drop_last());
        } else {
            assert(s == ia.drop_last().push(ia.last().push(a.last())));
            assert(s.last() == ia.last().push(a.last()));
            if b.last() == '/' {
                assert(s == ib.push(Seq::<char>::empty()));
                assert(s.last().len() == 0);
                assert(false);
            }
            assert(s == ib.drop_last().push(ib.last().push(b.last())));
            assert(s.last() == ib.last().push(b.last()));
            assert(a.last() == s.last().last());
            assert(b.last() == s.last().last());
            assert(ia.last() =~= s.last().drop_last());
            assert(ib.last() =~= s.last().drop_last());
            assert(ia.drop_last() =~= s.drop_last());
            assert(ib.drop_last() =~= s.drop_last());
            assert(ia =~= ia.drop_last().push(ia.last()));
            assert(ib =~= ib.drop_last().push(ib.last()));
        }
        lemma_segments_injective(a.drop_last(), b.drop_last());
        assert(a =~= a.drop_last().push(a.last()));
        assert(b =~= b.drop_last().push(b.last()));
    }
}

/// A plain relative path is canonical: it has no root, and two of them with the same
/// components are the same.
pub proof fn law_plain_relative_is_canonical(a: Seq<char>, b: Seq<char>)
    requires
        is_plain_relative(a),
        is_plain_relative(b),
    ensures
        is_repository_relative(a),
        named(segments(a)) == named(segments(b)) ==> a == b,
{
    lemma_named_ordinary(segments(a));
    lemma_named_ordinary(segments(b));
    if named(segments(a)) == named(segments(b)) {
        lemma_segments_injective(a, b);
    }
    lemma_segments_nonempty(a);
    assert(is_ordinary(segments(a)[0]));
    if names_parent(a) {
        let k = segments(a).index_of(parent_dir());
        assert(is_ordinary(segments(a)[k]));
    }
    if a.len() == 0 {
        assert(segments(a)[0].len() == 0);
    } else if a[0] == '/' {
        lemma_rooted(a);
    }
}

/// The first segment of a path with a root is empty.
proof fn lemma_rooted(path: Seq<char>)
    requires
        path.len() > 0,
        path[0] == '/',
    ensures
        segments(path).len() > 1,
        segments(path)[0].len() == 0,
    decreases path.len(),
{
    let before = segments(path.drop_last());
    if path.len() == 1 {
        assert(path.drop_last().len() == 0);
        assert(before == seq![Seq::<char>::empty()]);
        assert(segments(path) == before.push(Seq::<char>::empty()));
    } else {
        lemma_rooted(path.drop_last());
        assert(segments(path)[0] == before[0]);
    }
}

/// The characters of each segment.
pub open spec fn char_seqs(v: Seq<Vec<char>>) -> Seq<Seq<char>> {
    v.map_values(|s: Vec<char>| s@)
}

/// Splits a path at its slashes.
pub fn split(path: &str) -> (parts: Vec<Vec<char>>)
    ensures
        char_seqs(parts@) == segments(path@),
        parts@.len() > 0,
{
    let chars = text::chars_of(path);
    let mut parts: Vec<Vec<char>> = Vec::new();
    let mut current: Vec<char> = Vec::new();
    assert(path@.take(0) =~= Seq::<char>::empty());
    assert(segments(path@.take(0)) == seq![Seq::<char>::empty()]) by {
        assert(segments(Seq::<char>::empty()) == seq![Seq::<char>::empty()]);
    }
    assert(char_seqs(parts@).push(current@) =~= segments(path@.take(0)));
    for i in 0..chars.len()
        invariant
            chars@ == path@,
            char_seqs(parts@).push(current@) == segments(path@.take(i as int)),
    {
        let c = chars[i];
        let ghost before = path@.take(i as int);
        let ghost after = path@.take(i + 1);
        let ghost done = char_seqs(parts@);
        let ghost run = current@;
        proof {
            assert(after.drop_last() =~= before);
            assert(after.last() == c);
            assert(segments(before).drop_last() =~= done);
            assert(segments(before).last() == run);
        }
        if c == '/' {
            parts.push(current);
            current = Vec::new();
            assert(char_seqs(parts@) =~= done.push(run));
        } else {
            current.push(c);
        }
        assert(char_seqs(parts@).push(current@) =~= segments(after));
    }
    assert(path@.take(chars.len() as int) =~= path@);
    let ghost done = char_seqs(parts@);
    let ghost run = current@;
    parts.push(current);
    assert(char_seqs(parts@) =~= done.push(run));
    parts
}

fn is_current_dir(s: &Vec<char>) -> (r: bool)
    ensures
        r == (s@ == current_dir()),
{
    let r = s.len() == 1 && s[0] == '.';
    assert(r ==> s@ =~= current_dir());
    r
}

fn is_parent_dir(s: &Vec<char>) -> (r: bool)
    ensures
        r == (s@ == parent_dir()),
{
    let r = s.len() == 2 && s[0] == '.' && s[1] == '.';
    assert(r ==> s@ =~= parent_dir());
    r
}

/// Whether any component of `path` is the parent directory.
pub fn has_parent(path: &str) -> (r: bool)
    ensures
        r == names_parent(path@),
{
    let parts = split(path);
    for i in 0..parts.len()
        invariant
            char_seqs(parts@) == segments(path@),
            forall|j: int| 0 <= j < i ==> parts@[j]@ != parent_dir(),
    {
        if is_parent_dir(&parts[i]) {
            assert(segments(path@)[i as int] == parent_dir());
            return true;
        }
    }
    assert(!names_parent(path@)) by {
        if names_parent(path@) {
            let k = segments(path@).index_of(parent_dir());
            assert(segments(path@)[k] == parts@[k]@);
        }
    }
    false
}

/// Whether `path` has a root.
pub fn is_absolute(path: &str) -> (r: bool)
    ensures
        r == (path@.len() > 0 && path@[0] == '/'),
{
    path.unicode_len() > 0 && path.get_char(0) == '/'
}

/// Whether `path` is relative and made of ordinary names only.
pub fn plain_relative(path: &str) -> (r: bool)
    ensures
        r == is_plain_relative(path@),
{
    let parts = split(path);
    for i in 0..parts.len()
        invariant
            char_seqs(parts@) == segments(path@),
            forall|j: int| 0 <= j < i ==> is_ordinary((#[trigger] parts@[j])@),
    {
        assert(segments(path@)[i as int] == parts@[i as int]@);
        if parts[i].len() == 0 || is_current_dir(&parts[i]) || is_parent_dir(&parts[i]) {
            return false;
        }
    }
    assert forall|i: int| 0 <= i < segments(path@).len() implies is_ordinary(
        #[trigger] segments(path@)[i],
    ) by {
        assert(segments(path@)[i] == parts@[i]@);
    }
    true
}

/// Whether `path` is non-empty, relative and without a parent component.
pub fn repository_relative(path: &str) -> (r: bool)
    ensures
        r == is_repository_relative(path@),
{
    !path.is_empty() && !is_absolute(path) && !has_parent(path)
}

/// The extension of the final name of `path`.
pub fn extension(path: &str) -> (ext: Option<String>)
    ensures
        match ext {
            Some(e) => path_extension(path@) == Some(e@),
            None => path_extension(path@) is None,
        },
{
    let parts = split(path);
    let mut n: usize = parts.len();
    assert(segments(path@).take(n as int) =~= segments(path@));
    while n > 0 && (parts[n - 1].len() == 0 || is_current_dir(&parts[n - 1]))
        invariant
            n <= parts.len(),
            char_seqs(parts@) == segments(path@),
            last_named(segments(path@).take(n as int)) == last_named(segments(path@)),
        decreases n,
    {
        assert(segments(path@).take(n as int).last() == parts@[n - 1]@);
        assert(segments(path@).take(n as int).drop_last() =~= segments(path@).take(n - 1));
        n -= 1;
    }
    if n == 0 {
        return None;
    }
    let name = &parts[n - 1];
    assert(segments(path@).take(n as int).last() == name@);
    if is_parent_dir(name) {
        return None;
    }
    let mut d: usize = name.len();
    while d > 0 && name[d - 1] != '.'
        invariant
            d <= name.len(),
            forall|j: int| d <= j < name.len() ==> name@[j] != '.',
        decreases d,
    {
        d -= 1;
    }
    if d == 0 {
        assert(!(exists|k: int| is_last_dot(name@, k)));
        return None;
    }
    proof {
        assert(is_last_dot(name@, d - 1));
        let k = choose|k: int| is_last_dot(name@, k);
        assert(k == d - 1);
    }
    if d == 1 {
        return None;
    }
    let ext = text::string_of(vstd::slice::slice_subrange(name.as_slice(), d, name.len()));
    assert(ext@ =~= name@.skip(d as int));
    Some(ext)
}

/// The last segment of a path is what follows its last slash.
proof fn lemma_last_segment(directory: Seq<char>, name: Seq<char>)
    requires
        directory.len() == 0 || directory.last() == '/',
        forall|i: int| 0 <= i < name.len() ==> #[trigger] name[i] != '/',
    ensures
        segments(directory + name).len() > 0,
        segments(directory + name).last() == name,
    decreases name.len(),
{
    let path = directory + name;
    if name.len() == 0 {
        assert(path =~= directory);
        assert(segments(path).last() =~= name);
    } else {
        let front = name.drop_last();
        assert forall|i: int| 0 <= i < front.len() implies #[trigger] front[i] != '/' by {
            assert(front[i] == name[i]);
        }
        lemma_last_segment(directory, front);
        assert(path.drop_last() =~= directory + front);
        assert(path.last() == name[name.len() - 1]);
        assert(segments(path).last() =~= name);
    }
}

/// The extension of a file is what follows the last dot of its name, in whatever directory
/// it lies.
pub proof fn law_extension_follows_the_last_dot(
    directory: Seq<char>,
    stem: Seq<char>,
    extension: Seq<char>,
)
    requires
        directory.len() == 0 || directory.last() == '/',
        stem.len() > 0,
        extension.len() > 0,
        forall|i: int| 0 <= i < stem.len() ==> #[trigger] stem[i] != '/',
        forall|i: int|
            0 <= i < extension.len() ==> #[trigger] extension[i] != '/' && extension[i] != '.',
    ensures
        path_extension(directory + (stem + seq!['.'] + extension)) == Some(extension),
{
    let name = stem + seq!['.'] + extension;
    let path = directory + name;
    assert forall|i: int| 0 <= i < name.len() implies #[trigger] name[i] != '/' by {
        if i > stem.len() {
            assert(name[i] == extension[i - stem.len() - 1]);
        }
    }
    lemma_last_segment(directory, name);
    assert(name.len() > 2);
    assert(last_named(segments(path)) == Some(name));
    let d = stem.len() as int;
    assert forall|j: int| d < j < name.len() implies name[j] != '.' by {
        assert(name[j] == extension[j - stem.len() - 1]);
    }
    assert(is_last_dot(name, d));
    let k = choose|k: int| is_last_dot(name, k);
    assert(k == d) by {
        if k < d {
            assert(name[d] != '.');
        } else if d < k {
            assert(name[k] != '.');
        }
    }
    assert(name.skip(d + 1) =~= extension);
}

/// A file without a dot in its name, or with none but the first letter, has no extension.
pub proof fn law_name_without_extension(directory: Seq<char>, name: Seq<char>)
    requires
        directory.len() == 0 || directory.last() == '/',
        name.len() > 0,
        forall|i: int| 0 <= i < name.len() ==> #[trigger] name[i] != '/',
        forall|i: int| 0 < i < name.len() ==> #[trigger] name[i] != '.',
        name.len() > 1 || name[0] != '.',
    ensures
        path_extension(directory + name) is None,
{
    lemma_last_segment(directory, name);
    assert(name != current_dir() && name != parent_dir()) by {
        if name == parent_dir() {
            assert(name[1] == '.');
        }
        if name == current_dir() {
            assert(name[0] == '.');
        }
    }
    assert(last_named(segments(directory + name)) == Some(name));
    if exists|d: int| is_last_dot(name, d) {
        let d = choose|d: int| is_last_dot(name, d);
        assert(d == 0);
    }
}

/// The segments of a path are what stands between its slashes: none of them holds a slash,
/// and with slashes between them they spell the path.
pub proof fn law_segments_spell_the_path(path: Seq<char>)
    ensures
        segments(path).len() > 0,
        spelled(segments(path)) == path,
        forall|i: int, j: int|
            0 <= i < segments(path).len() && 0 <= j < segments(path)[i].len() ==> (
            #[trigger] segments(path)[i][j]) != '/',
    decreases path.len(),
{
    if path.len() == 0 {
        assert(spelled(segments(path)) =~= path);
    } else {
        let before = segments(path.drop_last());
        law_segments_spell_the_path(path.drop_last());
        let all = segments(path);
        if path.last() == '/' {
            assert(all.drop_last() =~= before);
            assert(spelled(all) =~= path);
        } else {
            assert(all.drop_last() =~= before.drop_last());
            assert(all.last() == before.last().push(path.last()));
            assert(path =~= path.drop_last().push(path.last()));
            if before.len() == 1 {
                assert(all[0] == all.last() && before[0] == before.last());
            } else {
                assert(spelled(all) =~= spelled(before).push(path.last()));
            }
        }
        assert forall|i: int, j: int|
            0 <= i < all.len() && 0 <= j < all[i].len() implies (#[trigger] all[i][j]) != '/' by {
            if i < before.len() {
                if j < before[i].len() {
                    assert(before[i][j] != '/');
                }
            }
        }
    }
}

/// Segments with slashes between them.
pub open spec fn spelled(segments: Seq<Seq<char>>) -> Seq<char>
    decreases segments.len(),
{
    if segments.len() == 0 {
        seq![]
    } else if segments.len() == 1 {
        segments[0]
    } else {
        spelled(segments.drop_last()) + seq!['/'] + segments.last()
    }
}

} // verus!
