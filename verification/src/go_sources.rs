//! What a Go project reads beyond its own sources.
//!
//! Evidence about Go may be reused by another process only if everything that the
//! toolchain would read lies in the repository and is known: replacement modules,
//! workspace members, embedded files and C code.

use vstd::prelude::*;

use crate::domain::{ProjectInput, ProjectInventory, ProjectInventoryCoverage};
use crate::ordered::StringMap;
use crate::path_order;
use crate::path_order::starts_with;
use crate::payload::CallsProviderPayload;
use crate::text;
use crate::text::{chars_of, ends_with, string_of};

verus! {

/// `std::str::from_utf8`: the text of some bytes, or none where they are not UTF-8.
#[verifier::external_body]
fn utf8_text(bytes: &[u8]) -> (r: Option<&str>)
    ensures
        match r {
            Some(s) => vstd::utf8::valid_utf8(bytes@) && vstd::utf8::encode_utf8(s@) == bytes@,
            None => !vstd::utf8::valid_utf8(bytes@),
        },
{
    std::str::from_utf8(bytes).ok()
}

/// White space as Unicode has it.
pub open spec fn is_space(c: char) -> bool {
    ('\t' <= c && c <= '\r') || c == ' ' || c == '\u{85}' || c == '\u{a0}' || c == '\u{1680}' || (
    '\u{2000}' <= c && c <= '\u{200a}') || c == '\u{2028}' || c == '\u{2029}' || c == '\u{202f}'
        || c == '\u{205f}' || c == '\u{3000}'
}

fn space(c: char) -> (r: bool)
    ensures
        r == is_space(c),
{
    ('\t' <= c && c <= '\r') || c == ' ' || c == '\u{85}' || c == '\u{a0}' || c == '\u{1680}' || (
    '\u{2000}' <= c && c <= '\u{200a}') || c == '\u{2028}' || c == '\u{2029}' || c == '\u{202f}'
        || c == '\u{205f}' || c == '\u{3000}'
}

/// The rows of a text, between its line feeds.
pub open spec fn rows(s: Seq<char>) -> Seq<Seq<char>>
    decreases s.len(),
{
    if s.len() == 0 {
        seq![Seq::<char>::empty()]
    } else {
        let before = rows(s.drop_last());
        if s.last() == '\n' {
            before.push(Seq::<char>::empty())
        } else {
            before.drop_last().push(before.last().push(s.last()))
        }
    }
}

pub open spec fn char_rows(v: Seq<Vec<char>>) -> Seq<Seq<char>> {
    v.map_values(|row: Vec<char>| row@)
}

fn split_rows(chars: &Vec<char>) -> (r: Vec<Vec<char>>)
    ensures
        char_rows(r@) == rows(chars@),
{
    let mut done: Vec<Vec<char>> = Vec::new();
    let mut current: Vec<char> = Vec::new();
    assert(char_rows(done@).push(current@) =~= rows(chars@.take(0)));
    for i in 0..chars.len()
        invariant
            char_rows(done@).push(current@) == rows(chars@.take(i as int)),
    {
        let ghost before = chars@.take(i as int);
        let ghost after = chars@.take(i + 1);
        let ghost finished = char_rows(done@);
        let ghost run = current@;
        proof {
            assert(after.drop_last() =~= before);
            assert(rows(before).drop_last() =~= finished);
            assert(rows(before).last() == run);
        }
        if chars[i] == '\n' {
            done.push(current);
            current = Vec::new();
            assert(char_rows(done@) =~= finished.push(run));
        } else {
            current.push(chars[i]);
        }
        assert(char_rows(done@).push(current@) =~= rows(after));
    }
    assert(chars@.take(chars@.len() as int) =~= chars@);
    let ghost finished = char_rows(done@);
    let ghost run = current@;
    done.push(current);
    assert(char_rows(done@) =~= finished.push(run));
    done
}

/// The first position from `i` on that is not white space.
pub open spec fn word_start(s: Seq<char>, i: int) -> int
    decreases s.len() - i,
{
    if i < 0 || i >= s.len() {
        s.len() as int
    } else if is_space(s[i]) {
        word_start(s, i + 1)
    } else {
        i
    }
}

/// The first position from `i` on that is white space.
pub open spec fn word_end(s: Seq<char>, i: int) -> int
    decreases s.len() - i,
{
    if i < 0 || i >= s.len() {
        s.len() as int
    } else if is_space(s[i]) {
        i
    } else {
        word_end(s, i + 1)
    }
}

/// The first word from position `i` on.
pub open spec fn word_from(s: Seq<char>, i: int) -> Option<Seq<char>> {
    let start = word_start(s, i);
    if start >= s.len() {
        None
    } else {
        Some(s.subrange(start, word_end(s, start)))
    }
}

fn find_word(s: &Vec<char>, from: usize) -> (r: Option<String>)
    requires
        from <= s@.len(),
    ensures
        r.deep_view() == word_from(s@, from as int),
{
    let mut start: usize = from;
    while start < s.len() && space(s[start])
        invariant
            from <= start <= s@.len(),
            word_start(s@, start as int) == word_start(s@, from as int),
        decreases s.len() - start,
    {
        start += 1;
    }
    if start == s.len() {
        return None;
    }
    let mut end: usize = start;
    while end < s.len() && !space(s[end])
        invariant
            start <= end <= s@.len(),
            word_end(s@, end as int) == word_end(s@, start as int),
        decreases s.len() - end,
    {
        end += 1;
    }
    assert(word_end(s@, start as int) == end);
    Some(string_of(vstd::slice::slice_subrange(s.as_slice(), start, end)))
}

/// The position behind the first arrow from position `i` on.
pub open spec fn behind_arrow(s: Seq<char>, i: int) -> Option<int>
    decreases s.len() - i,
{
    if i < 0 || i + 1 >= s.len() {
        None
    } else if s[i] == '=' && s[i + 1] == '>' {
        Some(i + 2)
    } else {
        behind_arrow(s, i + 1)
    }
}

fn find_arrow(s: &Vec<char>) -> (r: Option<usize>)
    ensures
        match r {
            Some(k) => behind_arrow(s@, 0) == Some(k as int) && k <= s@.len(),
            None => behind_arrow(s@, 0) is None,
        },
{
    let mut i: usize = 0;
    while i < s.len() && i + 1 < s.len()
        invariant
            i <= s@.len(),
            behind_arrow(s@, i as int) == behind_arrow(s@, 0),
        decreases s.len() - i,
    {
        if s[i] == '=' && s[i + 1] == '>' {
            return Some(i + 2);
        }
        i += 1;
    }
    None
}

/// A path of the file system rather than a module path.
pub open spec fn is_local(value: Seq<char>) -> bool {
    value.len() > 0 && (value[0] == '/' || value[0] == '.')
}

fn local(value: &str) -> (r: bool)
    ensures
        r == is_local(value@),
{
    value.unicode_len() > 0 && (value.get_char(0) == '/' || value.get_char(0) == '.')
}

/// What a local path leads to, both with all links resolved.
#[derive(Debug, Clone, PartialEq, Eq)]
pub struct ResolvedTarget {
    pub repository_root: String,
    pub target: String,
    pub is_directory: bool,
}

/// A declared path that leaves nothing unknown: a module path, or a directory in the
/// repository.
pub open spec fn is_repository_bound(value: Seq<char>, resolved: Option<ResolvedTarget>) -> bool {
    !is_local(value) || (resolved matches Some(found) && found.is_directory && path_order::is_under(
        found.target@,
        found.repository_root@,
    ))
}

/// Whether a declared path stays within the repository. `resolved` is none where the
/// path does not lead anywhere.
pub fn go_local_path_is_repository_bound(value: &str, resolved: &Option<ResolvedTarget>) -> (r:
    bool)
    ensures
        r == is_repository_bound(value@, *resolved),
{
    if !local(value) {
        return true;
    }
    match resolved {
        Some(found) => found.is_directory && starts_with(
            found.target.as_str(),
            found.repository_root.as_str(),
        ),
        None => false,
    }
}

/// A row of a module file: what it replaces by a local path lies in the repository.
pub open spec fn replacement_is_bound(row: Seq<char>, bound: Set<Seq<char>>) -> bool {
    match behind_arrow(row, 0) {
        None => true,
        Some(k) => match word_from(row, k) {
            None => false,
            Some(target) => !is_local(target) || bound.contains(target),
        },
    }
}

/// Every replacement of a module file stays within the repository.
pub open spec fn module_is_bound(source: Seq<char>, bound: Set<Seq<char>>) -> bool {
    forall|i: int|
        0 <= i < rows(source).len() ==> replacement_is_bound(#[trigger] rows(source)[i], bound)
}

/// Whether every replacement of a module file stays within the repository. `bound` holds
/// the local targets that were found to.
pub fn go_mod_local_replacements_are_repository_bound(bytes: &[u8], bound: &StringMap<()>) -> (r:
    bool)
    ensures
        r == (vstd::utf8::valid_utf8(bytes@) && module_is_bound(
            vstd::utf8::decode_utf8(bytes@),
            bound@.dom(),
        )),
{
    let source = match utf8_text(bytes) {
        Some(source) => source,
        None => {
            return false;
        },
    };
    proof {
        vstd::utf8::encode_utf8_decode_utf8(source@);
    }
    let chars = chars_of(source);
    let list = split_rows(&chars);
    let ghost all = rows(source@);
    for i in 0..list.len()
        invariant
            char_rows(list@) == all,
            all == rows(source@),
            source@ == vstd::utf8::decode_utf8(bytes@),
            forall|j: int| 0 <= j < i ==> replacement_is_bound(#[trigger] all[j], bound@.dom()),
    {
        let row = &list[i];
        assert(all[i as int] == row@);
        if let Some(k) = find_arrow(row) {
            let fine = match find_word(row, k) {
                Some(target) => !local(target.as_str()) || bound.contains(target.as_str()),
                None => false,
            };
            if !fine {
                assert(!replacement_is_bound(all[i as int], bound@.dom()));
                return false;
            }
        }
    }
    true
}

/// The local targets of the rows' replacements, in order.
pub open spec fn replacement_targets(rows: Seq<Seq<char>>) -> Seq<Seq<char>>
    decreases rows.len(),
{
    if rows.len() == 0 {
        seq![]
    } else {
        let before = replacement_targets(rows.drop_last());
        match behind_arrow(rows.last(), 0) {
            Some(k) => match word_from(rows.last(), k) {
                Some(target) => if is_local(target) {
                    before.push(target)
                } else {
                    before
                },
                None => before,
            },
            None => before,
        }
    }
}

/// The local targets of a module file that have to be looked up.
pub fn go_mod_local_targets(bytes: &[u8]) -> (r: Vec<String>)
    ensures
        r.deep_view() == if vstd::utf8::valid_utf8(bytes@) {
            replacement_targets(rows(vstd::utf8::decode_utf8(bytes@)))
        } else {
            seq![]
        },
{
    let mut r: Vec<String> = Vec::new();
    assert(r.deep_view() =~= seq![]);
    let source = match utf8_text(bytes) {
        Some(source) => source,
        None => {
            return r;
        },
    };
    proof {
        vstd::utf8::encode_utf8_decode_utf8(source@);
    }
    let chars = chars_of(source);
    let list = split_rows(&chars);
    let ghost all = rows(source@);
    assert(r.deep_view() =~= replacement_targets(all.take(0)));
    for i in 0..list.len()
        invariant
            char_rows(list@) == all,
            r.deep_view() == replacement_targets(all.take(i as int)),
    {
        let row = &list[i];
        assert(all[i as int] == row@);
        assert(all.take(i + 1).drop_last() =~= all.take(i as int));
        let ghost before = r.deep_view();
        if let Some(k) = find_arrow(row) {
            if let Some(target) = find_word(row, k) {
                if local(target.as_str()) {
                    let ghost name = target@;
                    r.push(target);
                    assert(r.deep_view() =~= before.push(name));
                }
            }
        }
    }
    assert(all.take(all.len() as int) =~= all);
    r
}

/// A row without white space at its ends.
pub open spec fn row_end(s: Seq<char>, n: int) -> int
    decreases n,
{
    if n <= 0 {
        0
    } else if is_space(s[n - 1]) {
        row_end(s, n - 1)
    } else {
        n
    }
}

pub open spec fn trimmed(s: Seq<char>) -> Seq<char> {
    let start = word_start(s, 0);
    let end = row_end(s, s.len() as int);
    if start < end {
        s.subrange(start, end)
    } else {
        seq![]
    }
}

fn trim(s: &Vec<char>) -> (r: String)
    ensures
        r@ == trimmed(s@),
{
    let mut start: usize = 0;
    while start < s.len() && space(s[start])
        invariant
            start <= s@.len(),
            word_start(s@, start as int) == word_start(s@, 0),
        decreases s.len() - start,
    {
        start += 1;
    }
    let mut end: usize = s.len();
    while end > 0 && space(s[end - 1])
        invariant
            end <= s@.len(),
            row_end(s@, end as int) == row_end(s@, s@.len() as int),
        decreases end,
    {
        end -= 1;
    }
    if start < end {
        string_of(vstd::slice::slice_subrange(s.as_slice(), start, end))
    } else {
        let r = String::new();
        assert(r@ =~= seq![]);
        r
    }
}

/// The text begins with the prefix.
pub open spec fn begins(s: Seq<char>, prefix: Seq<char>) -> bool {
    prefix.len() <= s.len() && s.take(prefix.len() as int) == prefix
}

/// What a workspace row means.
pub enum WorkspaceRow {
    Other,
    Open,
    Close,
    Member(Option<Seq<char>>),
}

/// The meaning of a row, inside or outside of a group of members.
pub open spec fn workspace_row(row: Seq<char>, group: bool) -> WorkspaceRow {
    let line = trimmed(row);
    if line.len() == 0 || begins(line, "//"@) {
        WorkspaceRow::Other
    } else if line == "use ("@ {
        WorkspaceRow::Open
    } else if begins(line, "use "@) {
        WorkspaceRow::Member(word_from(line, 4))
    } else if group {
        if line == ")"@ {
            WorkspaceRow::Close
        } else {
            WorkspaceRow::Member(word_from(line, 0))
        }
    } else {
        WorkspaceRow::Other
    }
}

/// Every member of a workspace file, from row `i` on, is a local path that stays within
/// the repository, and every group is closed.
pub open spec fn workspace_is_bound(
    rows: Seq<Seq<char>>,
    i: int,
    group: bool,
    bound: Set<Seq<char>>,
) -> bool
    decreases rows.len() - i,
{
    if i < 0 || i >= rows.len() {
        !group
    } else {
        match workspace_row(rows[i], group) {
            WorkspaceRow::Other => workspace_is_bound(rows, i + 1, group, bound),
            WorkspaceRow::Open => workspace_is_bound(rows, i + 1, true, bound),
            WorkspaceRow::Close => workspace_is_bound(rows, i + 1, false, bound),
            WorkspaceRow::Member(target) => target is Some && is_local(target->0) && bound.contains(
                target->0,
            ) && workspace_is_bound(rows, i + 1, group, bound),
        }
    }
}

/// The executable form of a row's meaning.
enum ParsedRow {
    Other,
    Open,
    Close,
    Member(Option<String>),
}

fn parse_workspace_row(row: &Vec<char>, group: bool) -> (r: ParsedRow)
    ensures
        match (r, workspace_row(row@, group)) {
            (ParsedRow::Other, WorkspaceRow::Other) => true,
            (ParsedRow::Open, WorkspaceRow::Open) => true,
            (ParsedRow::Close, WorkspaceRow::Close) => true,
            (ParsedRow::Member(a), WorkspaceRow::Member(b)) => a.deep_view() == b,
            _ => false,
        },
{
    let line = trim(row);
    let text = line.as_str();
    proof {
        assert(begins(text@, "//"@) <==> "//"@.is_prefix_of(text@));
        assert(begins(text@, "use "@) <==> "use "@.is_prefix_of(text@));
        reveal_strlit("use ");
    }
    if text.is_empty() || text::starts_with(text, "//") {
        return ParsedRow::Other;
    }
    if text::same(text, "use (") {
        return ParsedRow::Open;
    }
    let chars = chars_of(text);
    if text::starts_with(text, "use ") {
        return ParsedRow::Member(find_word(&chars, 4));
    }
    if group {
        if text::same(text, ")") {
            return ParsedRow::Close;
        }
        return ParsedRow::Member(find_word(&chars, 0));
    }
    ParsedRow::Other
}

/// Whether every member of a workspace file stays within the repository. `bound` holds
/// the local targets that were found to.
pub fn go_work_uses_are_repository_bound(bytes: &[u8], bound: &StringMap<()>) -> (r: bool)
    ensures
        r == (vstd::utf8::valid_utf8(bytes@) && workspace_is_bound(
            rows(vstd::utf8::decode_utf8(bytes@)),
            0,
            false,
            bound@.dom(),
        )),
{
    let source = match utf8_text(bytes) {
        Some(source) => source,
        None => {
            return false;
        },
    };
    proof {
        vstd::utf8::encode_utf8_decode_utf8(source@);
    }
    let chars = chars_of(source);
    let list = split_rows(&chars);
    let ghost all = rows(source@);
    let mut group = false;
    for i in 0..list.len()
        invariant
            char_rows(list@) == all,
            all == rows(vstd::utf8::decode_utf8(bytes@)),
            vstd::utf8::valid_utf8(bytes@),
            workspace_is_bound(all, i as int, group, bound@.dom()) == workspace_is_bound(
                all,
                0,
                false,
                bound@.dom(),
            ),
    {
        let row = &list[i];
        assert(all[i as int] == row@);
        match parse_workspace_row(row, group) {
            ParsedRow::Other => {},
            ParsedRow::Open => {
                group = true;
            },
            ParsedRow::Close => {
                group = false;
            },
            ParsedRow::Member(target) => {
                let fine = match target {
                    Some(target) => local(target.as_str()) && bound.contains(target.as_str()),
                    None => false,
                };
                if !fine {
                    return false;
                }
            },
        }
    }
    !group
}

/// The local targets of the members from row `i` on, in order.
pub open spec fn member_targets(rows: Seq<Seq<char>>, i: int, group: bool) -> Seq<Seq<char>>
    decreases rows.len() - i,
{
    if i < 0 || i >= rows.len() {
        seq![]
    } else {
        match workspace_row(rows[i], group) {
            WorkspaceRow::Other => member_targets(rows, i + 1, group),
            WorkspaceRow::Open => member_targets(rows, i + 1, true),
            WorkspaceRow::Close => member_targets(rows, i + 1, false),
            WorkspaceRow::Member(target) => {
                let rest = member_targets(rows, i + 1, group);
                match target {
                    Some(target) => if is_local(target) {
                        seq![target] + rest
                    } else {
                        rest
                    },
                    None => rest,
                }
            },
        }
    }
}

/// The local targets of a workspace file that have to be looked up.
pub fn go_work_local_targets(bytes: &[u8]) -> (r: Vec<String>)
    ensures
        r.deep_view() == if vstd::utf8::valid_utf8(bytes@) {
            member_targets(rows(vstd::utf8::decode_utf8(bytes@)), 0, false)
        } else {
            seq![]
        },
{
    let mut r: Vec<String> = Vec::new();
    assert(r.deep_view() =~= seq![]);
    let source = match utf8_text(bytes) {
        Some(source) => source,
        None => {
            return r;
        },
    };
    proof {
        vstd::utf8::encode_utf8_decode_utf8(source@);
    }
    let chars = chars_of(source);
    let list = split_rows(&chars);
    let ghost all = rows(source@);
    let mut group = false;
    for i in 0..list.len()
        invariant
            char_rows(list@) == all,
            member_targets(all, 0, false) =~= r.deep_view() + member_targets(
                all,
                i as int,
                group,
            ),
    {
        let row = &list[i];
        assert(all[i as int] == row@);
        let ghost before = r.deep_view();
        match parse_workspace_row(row, group) {
            ParsedRow::Other => {},
            ParsedRow::Open => {
                group = true;
            },
            ParsedRow::Close => {
                group = false;
            },
            ParsedRow::Member(Some(target)) => {
                if local(target.as_str()) {
                    let ghost name = target@;
                    r.push(target);
                    assert(r.deep_view() =~= before.push(name));
                }
            },
            ParsedRow::Member(None) => {},
        }
    }
    assert(r.deep_view() =~= member_targets(all, 0, false));
    r
}

/// The rows of some bytes, between their line feeds.
pub open spec fn byte_rows(bytes: Seq<u8>) -> Seq<Seq<u8>>
    decreases bytes.len(),
{
    if bytes.len() == 0 {
        seq![Seq::<u8>::empty()]
    } else {
        let before = byte_rows(bytes.drop_last());
        if bytes.last() == 10 {
            before.push(Seq::<u8>::empty())
        } else {
            before.drop_last().push(before.last().push(bytes.last()))
        }
    }
}

pub open spec fn row_bytes(v: Seq<Vec<u8>>) -> Seq<Seq<u8>> {
    v.map_values(|row: Vec<u8>| row@)
}

fn split_byte_rows(bytes: &[u8]) -> (r: Vec<Vec<u8>>)
    ensures
        row_bytes(r@) == byte_rows(bytes@),
{
    let mut done: Vec<Vec<u8>> = Vec::new();
    let mut current: Vec<u8> = Vec::new();
    assert(row_bytes(done@).push(current@) =~= byte_rows(bytes@.take(0)));
    for i in 0..bytes.len()
        invariant
            row_bytes(done@).push(current@) == byte_rows(bytes@.take(i as int)),
    {
        let ghost before = bytes@.take(i as int);
        let ghost after = bytes@.take(i + 1);
        let ghost finished = row_bytes(done@);
        let ghost run = current@;
        proof {
            assert(after.drop_last() =~= before);
            assert(byte_rows(before).drop_last() =~= finished);
            assert(byte_rows(before).last() == run);
        }
        if bytes[i] == 10 {
            done.push(current);
            current = Vec::new();
            assert(row_bytes(done@) =~= finished.push(run));
        } else {
            current.push(bytes[i]);
        }
        assert(row_bytes(done@).push(current@) =~= byte_rows(after));
    }
    assert(bytes@.take(bytes@.len() as int) =~= bytes@);
    let ghost finished = row_bytes(done@);
    let ghost run = current@;
    done.push(current);
    assert(row_bytes(done@) =~= finished.push(run));
    done
}

/// White space of ASCII: tab, line feed, form feed, carriage return and blank.
pub open spec fn is_ascii_space(b: u8) -> bool {
    b == 9 || b == 10 || b == 12 || b == 13 || b == 32
}

/// The first position from `i` on that is no ASCII white space.
pub open spec fn code_start(s: Seq<u8>, i: int) -> int
    decreases s.len() - i,
{
    if i < 0 || i >= s.len() {
        s.len() as int
    } else if is_ascii_space(s[i]) {
        code_start(s, i + 1)
    } else {
        i
    }
}

/// The bytes at position `i` begin with the text.
pub open spec fn text_at(s: Seq<u8>, i: int, text: Seq<char>) -> bool {
    let bytes = vstd::utf8::encode_utf8(text);
    0 <= i && i + bytes.len() <= s.len() && s.subrange(i, i + bytes.len()) == bytes
}

fn find_code(s: &Vec<u8>, from: usize) -> (r: usize)
    requires
        from <= s@.len(),
    ensures
        r == code_start(s@, from as int),
        from <= r <= s@.len(),
{
    let mut i: usize = from;
    while i < s.len() && (s[i] == 9 || s[i] == 10 || s[i] == 12 || s[i] == 13 || s[i] == 32)
        invariant
            from <= i <= s@.len(),
            code_start(s@, i as int) == code_start(s@, from as int),
        decreases s.len() - i,
    {
        i += 1;
    }
    i
}

fn has_text(s: &Vec<u8>, from: usize, text: &str) -> (r: bool)
    requires
        from <= s@.len(),
    ensures
        r == text_at(s@, from as int, text@),
{
    let bytes = text.as_bytes();
    let ghost wanted = vstd::utf8::encode_utf8(text@);
    let n = s.len();
    if n - from < bytes.len() {
        return false;
    }
    for i in 0..bytes.len()
        invariant
            n == s@.len(),
            bytes@ == wanted,
            from + wanted.len() <= s@.len(),
            wanted == vstd::utf8::encode_utf8(text@),
            forall|j: int| 0 <= j < i ==> s@[from + j] == wanted[j],
    {
        if s[from + i] != bytes[i] {
            assert(s@.subrange(from as int, from + wanted.len())[i as int] != wanted[i as int]);
            return false;
        }
    }
    assert(s@.subrange(from as int, from + wanted.len()) =~= wanted);
    true
}

/// What a row of Go source means for its external inputs.
pub enum SourceRow {
    /// It embeds a file or imports C.
    External,
    /// It starts an import, of a group or of one package.
    Import { group: bool },
    /// It closes a group of imports.
    Close,
    Other,
}

/// The meaning of a row, inside or outside of a group of imports.
pub open spec fn source_row(row: Seq<u8>, group: bool) -> SourceRow {
    let at = code_start(row, 0);
    let behind = code_start(row, at + 6);
    if text_at(row, at, "//go:embed"@) {
        SourceRow::External
    } else if text_at(row, at, "import"@) {
        if text_at(row, behind, "\"C\""@) {
            SourceRow::External
        } else {
            SourceRow::Import { group: text_at(row, behind, "("@) }
        }
    } else if group && text_at(row, at, ")"@) {
        SourceRow::Close
    } else if group && text_at(row, at, "\"C\""@) {
        SourceRow::External
    } else {
        SourceRow::Other
    }
}

/// No row from `i` on embeds a file or imports C.
pub open spec fn source_is_self_contained(rows: Seq<Seq<u8>>, i: int, group: bool) -> bool
    decreases rows.len() - i,
{
    if i < 0 || i >= rows.len() {
        true
    } else {
        match source_row(rows[i], group) {
            SourceRow::External => false,
            SourceRow::Import { group } => source_is_self_contained(rows, i + 1, group),
            SourceRow::Close => source_is_self_contained(rows, i + 1, false),
            SourceRow::Other => source_is_self_contained(rows, i + 1, group),
        }
    }
}

fn is_self_contained(bytes: &[u8]) -> (r: bool)
    ensures
        r == source_is_self_contained(byte_rows(bytes@), 0, false),
{
    let list = split_byte_rows(bytes);
    let ghost all = byte_rows(bytes@);
    let mut group = false;
    proof {
        reveal_strlit("import");
        assert("import"@.len() == 6);
        assert(vstd::utf8::is_ascii_chars("import"@));
        vstd::utf8::is_ascii_chars_encode_utf8("import"@);
    }
    for i in 0..list.len()
        invariant
            row_bytes(list@) == all,
            all == byte_rows(bytes@),
            vstd::utf8::encode_utf8("import"@).len() == 6,
            source_is_self_contained(all, i as int, group) == source_is_self_contained(
                all,
                0,
                false,
            ),
    {
        let row = &list[i];
        assert(all[i as int] == row@);
        let at = find_code(row, 0);
        if has_text(row, at, "//go:embed") {
            return false;
        }
        if has_text(row, at, "import") {
            assert(at + 6 <= row@.len() && row@.len() == row.len());
            let behind = find_code(row, at + 6);
            if has_text(row, behind, "\"C\"") {
                return false;
            }
            group = has_text(row, behind, "(");
        } else if group {
            if has_text(row, at, ")") {
                group = false;
            } else if has_text(row, at, "\"C\"") {
                return false;
            }
        }
    }
    true
}

/// A document's contents, or none where they cannot be read.
#[derive(Debug, Clone, PartialEq, Eq)]
pub struct DocumentContents {
    pub bytes: Option<Vec<u8>>,
}

/// The provider left the document out.
pub open spec fn is_omitted(payload: CallsProviderPayload, path: Seq<char>) -> bool {
    exists|i: int|
        0 <= i < payload.coverage_exclusions@.len() && (
        #[trigger] payload.coverage_exclusions@[i]).reason_code@ == "provider_document_omitted"@
            && payload.coverage_exclusions@[i].document_path@ == path
}

fn omitted(payload: &CallsProviderPayload, path: &str) -> (r: bool)
    ensures
        r == is_omitted(*payload, path@),
{
    let exclusions = &payload.coverage_exclusions;
    for i in 0..exclusions.len()
        invariant
            exclusions == &payload.coverage_exclusions,
            forall|j: int|
                0 <= j < i ==> !((#[trigger] exclusions@[j]).reason_code@
                    == "provider_document_omitted"@ && exclusions@[j].document_path@ == path@),
    {
        if text::same(exclusions[i].reason_code.as_str(), "provider_document_omitted")
            && text::same(exclusions[i].document_path.as_str(), path) {
            return true;
        }
    }
    false
}

/// The document reads, and it neither embeds a file nor imports C.
pub open spec fn is_bounded(contents: DocumentContents) -> bool {
    contents.bytes matches Some(bytes) && source_is_self_contained(byte_rows(bytes@), 0, false)
}

/// Whether every document that the provider covered is known to read nothing else.
/// `contents` are those of the payload's documents, in order.
pub fn go_provider_documents_have_bounded_external_inputs(
    payload: &CallsProviderPayload,
    contents: &Vec<DocumentContents>,
) -> (r: bool)
    requires
        contents@.len() == payload.documents@.len(),
    ensures
        r <==> forall|i: int|
            0 <= i < payload.documents@.len() ==> is_omitted(
                *payload,
                (#[trigger] payload.documents@[i]).document_path@,
            ) || is_bounded(contents@[i]),
{
    let documents = &payload.documents;
    for i in 0..documents.len()
        invariant
            documents == &payload.documents,
            contents@.len() == documents@.len(),
            forall|j: int|
                0 <= j < i ==> is_omitted(*payload, (#[trigger] documents@[j]).document_path@)
                    || is_bounded(contents@[j]),
    {
        if !omitted(payload, documents[i].document_path.as_str()) {
            let fine = match &contents[i].bytes {
                Some(bytes) => is_self_contained(bytes.as_slice()),
                None => false,
            };
            if !fine {
                assert(!is_bounded(contents@[i as int]));
                assert(!is_omitted(*payload, payload.documents@[i as int].document_path@));
                return false;
            }
        }
    }
    true
}

/// A project input as it was read, with those of its local targets that stay within the
/// repository.
#[derive(Debug)]
pub struct GoInputContents {
    pub bytes: Option<Vec<u8>>,
    pub bound_targets: StringMap<()>,
}

/// The input reads, and as a module or workspace file it stays within the repository.
pub open spec fn input_is_bound(input: ProjectInput, contents: GoInputContents) -> bool {
    &&& contents.bytes is Some
    &&& "go.mod"@.is_suffix_of(input.path@) ==> vstd::utf8::valid_utf8(contents.bytes->0@)
        && module_is_bound(
        vstd::utf8::decode_utf8(contents.bytes->0@),
        contents.bound_targets@.dom(),
    )
    &&& "go.work"@.is_suffix_of(input.path@) ==> vstd::utf8::valid_utf8(contents.bytes->0@)
        && workspace_is_bound(
        rows(vstd::utf8::decode_utf8(contents.bytes->0@)),
        0,
        false,
        contents.bound_targets@.dom(),
    )
}

/// Another process would read exactly what this one knows: the inventory is complete and
/// without issues, some toolchain runs, none of its roots vendors its modules, and every
/// Go input stays within the repository.
pub open spec fn reuse_is_bounded(
    inventory: ProjectInventory,
    vendored: Seq<bool>,
    contents: Seq<GoInputContents>,
) -> bool {
    &&& inventory.coverage == ProjectInventoryCoverage::IndexedSourcePopulationComplete
    &&& inventory.issues@.len() == 0
    &&& vendored.len() > 0
    &&& forall|i: int| 0 <= i < vendored.len() ==> !#[trigger] vendored[i]
    &&& forall|i: int|
        0 <= i < inventory.inputs@.len() && (#[trigger] inventory.inputs@[i]).language_id.0@
            == "go"@ ==> input_is_bound(inventory.inputs@[i], contents[i])
}

/// Whether Go evidence may be reused by another process. `vendored` says of each
/// toolchain root whether it has vendored modules; `contents` are those of the
/// inventory's inputs, in order.
pub fn go_cross_process_reuse_is_bounded(
    inventory: &ProjectInventory,
    vendored: &Vec<bool>,
    contents: &Vec<GoInputContents>,
) -> (r: bool)
    requires
        contents@.len() == inventory.inputs@.len(),
    ensures
        r == reuse_is_bounded(*inventory, vendored@, contents@),
{
    let complete = match inventory.coverage {
        ProjectInventoryCoverage::IndexedSourcePopulationComplete => true,
        _ => false,
    };
    if !complete || inventory.issues.len() > 0 || vendored.len() == 0 {
        return false;
    }
    for i in 0..vendored.len()
        invariant
            forall|j: int| 0 <= j < i ==> !#[trigger] vendored@[j],
    {
        if vendored[i] {
            return false;
        }
    }
    let inputs = &inventory.inputs;
    for i in 0..inputs.len()
        invariant
            inputs == &inventory.inputs,
            contents@.len() == inputs@.len(),
            forall|j: int|
                0 <= j < i && (#[trigger] inputs@[j]).language_id.0@ == "go"@ ==> input_is_bound(
                    inputs@[j],
                    contents@[j],
                ),
    {
        if text::same(inputs[i].language_id.0.as_str(), "go") {
            let fine = match &contents[i].bytes {
                None => false,
                Some(bytes) => {
                    let path = inputs[i].path.as_str();
                    let targets = &contents[i].bound_targets;
                    (!ends_with(path, "go.mod") || go_mod_local_replacements_are_repository_bound(
                        bytes.as_slice(),
                        targets,
                    )) && (!ends_with(path, "go.work") || go_work_uses_are_repository_bound(
                        bytes.as_slice(),
                        targets,
                    ))
                },
            };
            if !fine {
                assert(!input_is_bound(inventory.inputs@[i as int], contents@[i as int]));
                return false;
            }
        }
    }
    true
}

/// A local target that was not found in the repository refuses the module file that
/// replaces a module by it.
pub proof fn law_foreign_replacement_is_refused(
    source: Seq<char>,
    bound: Set<Seq<char>>,
    i: int,
    target: Seq<char>,
)
    requires
        0 <= i < rows(source).len(),
        behind_arrow(rows(source)[i], 0) is Some,
        word_from(rows(source)[i], behind_arrow(rows(source)[i], 0)->0) == Some(target),
        is_local(target),
        !bound.contains(target),
    ensures
        !module_is_bound(source, bound),
{
    assert(!replacement_is_bound(rows(source)[i], bound));
}

/// A text without line feeds is one row, and a line feed parts a text into the rows before it
/// and the rows behind it.
pub proof fn law_line_feeds_part_the_rows(before: Seq<char>, behind: Seq<char>)
    ensures
        !before.contains('\n') ==> rows(before) == seq![before],
        rows(before.push('\n') + behind) == rows(before) + rows(behind),
    decreases before.len() + behind.len(),
{
    if !before.contains('\n') {
        if before.len() > 0 {
            let front = before.drop_last();
            assert forall|c: char| front.contains(c) implies before.contains(c) by {
                let i = front.index_of(c);
                assert(before[i] == c);
            }
            law_line_feeds_part_the_rows(front, Seq::empty());
            assert(before.last() == before[before.len() - 1]);
            assert(front.push(before.last()) =~= before);
            assert(rows(before) =~= seq![before]);
        } else {
            assert(before =~= Seq::empty());
        }
    }
    let whole = before.push('\n') + behind;
    if behind.len() == 0 {
        assert(whole =~= before.push('\n'));
        assert(whole.drop_last() =~= before);
        assert(rows(whole) =~= rows(before) + rows(behind));
    } else {
        law_line_feeds_part_the_rows(before, behind.drop_last());
        assert(whole.drop_last() =~= before.push('\n') + behind.drop_last());
        assert(whole.last() == behind.last());
        lemma_rows_nonempty(behind.drop_last());
        assert(rows(whole) =~= rows(before) + rows(behind));
    }
}

proof fn lemma_rows_nonempty(s: Seq<char>)
    ensures
        rows(s).len() > 0,
    decreases s.len(),
{
    if s.len() > 0 {
        lemma_rows_nonempty(s.drop_last());
    }
}

proof fn lemma_word_start(s: Seq<char>, i: int, start: int)
    requires
        0 <= i <= start <= s.len(),
        forall|k: int| i <= k < start ==> is_space(#[trigger] s[k]),
        start == s.len() || !is_space(s[start]),
    ensures
        word_start(s, i) == start,
    decreases start - i,
{
    if i < start {
        assert(is_space(s[i]));
        lemma_word_start(s, i + 1, start);
    }
}

proof fn lemma_word_end(s: Seq<char>, i: int, end: int)
    requires
        0 <= i <= end <= s.len(),
        forall|k: int| i <= k < end ==> !is_space(#[trigger] s[k]),
        end == s.len() || is_space(s[end]),
    ensures
        word_end(s, i) == end,
    decreases end - i,
{
    if i < end {
        assert(!is_space(s[i]));
        lemma_word_end(s, i + 1, end);
    }
}

/// The first word stands behind white space alone, has none in it, and ends at white space or
/// with the text. Where only white space is left there is no word.
pub proof fn law_first_word_is_exact(s: Seq<char>, i: int, start: int, end: int)
    requires
        0 <= i <= start <= end <= s.len(),
        forall|k: int| i <= k < start ==> is_space(#[trigger] s[k]),
        forall|k: int| start <= k < end ==> !is_space(#[trigger] s[k]),
        end == s.len() || is_space(s[end]),
        start == end ==> start == s.len(),
    ensures
        start < end ==> word_from(s, i) == Some(s.subrange(start, end)),
        start == end ==> word_from(s, i) is None,
{
    if start < end {
        assert(!is_space(s[start]));
    }
    lemma_word_start(s, i, start);
    lemma_word_end(s, start, end);
}

/// There is an arrow at the position.
pub open spec fn arrow_stands_at(s: Seq<char>, k: int) -> bool {
    0 <= k && k + 1 < s.len() && s[k] == '=' && s[k + 1] == '>'
}

proof fn lemma_behind_arrow(s: Seq<char>, i: int, k: int)
    requires
        0 <= i <= k,
        arrow_stands_at(s, k),
        forall|j: int| i <= j < k ==> !arrow_stands_at(s, j),
    ensures
        behind_arrow(s, i) == Some(k + 2),
    decreases k - i,
{
    if i < k {
        assert(!arrow_stands_at(s, i));
        lemma_behind_arrow(s, i + 1, k);
    }
}

proof fn lemma_no_arrow(s: Seq<char>, i: int)
    requires
        0 <= i,
        forall|j: int| i <= j ==> !arrow_stands_at(s, j),
    ensures
        behind_arrow(s, i) is None,
    decreases s.len() - i,
{
    if i + 1 < s.len() {
        assert(!arrow_stands_at(s, i));
        lemma_no_arrow(s, i + 1);
    }
}

/// A row without an arrow replaces nothing and is no reason to refuse its file.
pub proof fn law_row_without_arrow_is_bound(row: Seq<char>, bound: Set<Seq<char>>)
    requires
        forall|j: int| 0 <= j ==> !arrow_stands_at(row, j),
    ensures
        replacement_is_bound(row, bound),
        replacement_targets(seq![row]) == Seq::<Seq<char>>::empty(),
{
    lemma_no_arrow(row, 0);
    assert(seq![row].drop_last() =~= Seq::empty());
    assert(seq![row].last() == row);
    assert(replacement_targets(Seq::empty()) =~= Seq::empty());
    assert(replacement_targets(seq![row]) =~= Seq::<Seq<char>>::empty());
}

/// A replacement is read from behind the row's first arrow: the first word there. It is bound
/// exactly if that word is a module path, or a local path that was found in the repository, and
/// exactly the local paths are looked up. A replacement by nothing is refused.
pub proof fn law_replacement_is_read_behind_the_first_arrow(
    row: Seq<char>,
    k: int,
    start: int,
    end: int,
    bound: Set<Seq<char>>,
)
    requires
        arrow_stands_at(row, k),
        forall|j: int| 0 <= j < k ==> !arrow_stands_at(row, j),
        k + 2 <= start <= end <= row.len(),
        forall|j: int| k + 2 <= j < start ==> is_space(#[trigger] row[j]),
        forall|j: int| start <= j < end ==> !is_space(#[trigger] row[j]),
        end == row.len() || is_space(row[end]),
        start == end ==> start == row.len(),
    ensures
        start == end ==> !replacement_is_bound(row, bound) && replacement_targets(seq![row])
            == Seq::<Seq<char>>::empty(),
        start < end ==> (replacement_is_bound(row, bound) <==> (row[start] != '/' && row[start]
            != '.') || bound.contains(row.subrange(start, end))),
        start < end && (row[start] == '/' || row[start] == '.') ==> replacement_targets(seq![row])
            == seq![row.subrange(start, end)],
        start < end && row[start] != '/' && row[start] != '.' ==> replacement_targets(seq![row])
            == Seq::<Seq<char>>::empty(),
{
    lemma_behind_arrow(row, 0, k);
    law_first_word_is_exact(row, k + 2, start, end);
    assert(seq![row].drop_last() =~= Seq::empty());
    assert(seq![row].last() == row);
    assert(replacement_targets(Seq::empty()) =~= Seq::empty());
    if start < end {
        let word = row.subrange(start, end);
        assert(word[0] == row[start]);
        if is_local(word) {
            assert(replacement_targets(seq![row]) =~= seq![word]);
        }
    }
}

/// The targets of some rows are those of the first and then those of the rest.
pub proof fn law_targets_follow_the_rows(front: Seq<Seq<char>>, rest: Seq<Seq<char>>)
    ensures
        replacement_targets(front + rest) == replacement_targets(front) + replacement_targets(rest),
    decreases rest.len(),
{
    if rest.len() == 0 {
        assert(front + rest =~= front);
        assert(replacement_targets(front) + replacement_targets(rest) =~= replacement_targets(
            front,
        ));
    } else {
        law_targets_follow_the_rows(front, rest.drop_last());
        assert((front + rest).drop_last() =~= front + rest.drop_last());
        assert((front + rest).last() == rest.last());
        assert(replacement_targets(front + rest) =~= replacement_targets(front)
            + replacement_targets(rest));
    }
}

/// A module file is bound exactly if each of its rows is: a line feed parts it into two files
/// that are each bound or not.
pub proof fn law_module_is_bound_row_by_row(
    before: Seq<char>,
    behind: Seq<char>,
    bound: Set<Seq<char>>,
)
    ensures
        module_is_bound(before.push('\n') + behind, bound) <==> module_is_bound(before, bound)
            && module_is_bound(behind, bound),
        !before.contains('\n') ==> (module_is_bound(before, bound) <==> replacement_is_bound(
            before,
            bound,
        )),
{
    law_line_feeds_part_the_rows(before, behind);
    let whole = rows(before.push('\n') + behind);
    if module_is_bound(before.push('\n') + behind, bound) {
        assert forall|i: int| 0 <= i < rows(before).len() implies replacement_is_bound(
            #[trigger] rows(before)[i],
            bound,
        ) by {
            assert(whole[i] == rows(before)[i]);
        }
        assert forall|i: int| 0 <= i < rows(behind).len() implies replacement_is_bound(
            #[trigger] rows(behind)[i],
            bound,
        ) by {
            assert(whole[i + rows(before).len()] == rows(behind)[i]);
        }
    }
    if !before.contains('\n') {
        assert(rows(before)[0] == before);
    }
}

proof fn lemma_row_end(s: Seq<char>, n: int, end: int)
    requires
        0 <= end <= n <= s.len(),
        forall|k: int| end <= k < n ==> is_space(#[trigger] s[k]),
        end == 0 || !is_space(s[end - 1]),
    ensures
        row_end(s, n) == end,
    decreases n,
{
    if end < n {
        assert(is_space(s[n - 1]));
        lemma_row_end(s, n - 1, end);
    }
}

/// Trimming takes the white space at both ends and nothing else.
pub proof fn law_trimming_takes_the_ends(left: Seq<char>, line: Seq<char>, right: Seq<char>)
    requires
        forall|k: int| 0 <= k < left.len() ==> is_space(#[trigger] left[k]),
        forall|k: int| 0 <= k < right.len() ==> is_space(#[trigger] right[k]),
        line.len() > 0 ==> !is_space(line[0]) && !is_space(line[line.len() - 1]),
    ensures
        trimmed(left + line + right) == line,
{
    let s = left + line + right;
    let end = (left.len() + line.len()) as int;
    assert forall|k: int| 0 <= k < left.len() implies is_space(#[trigger] s[k]) by {
        assert(s[k] == left[k]);
    }
    assert forall|k: int| end <= k < s.len() implies is_space(#[trigger] s[k]) by {
        assert(s[k] == right[k - end]);
    }
    if line.len() > 0 {
        assert(s[left.len() as int] == line[0]);
        assert(s[end - 1] == line[line.len() - 1]);
        lemma_word_start(s, 0, left.len() as int);
        lemma_row_end(s, s.len() as int, end);
        assert(s.subrange(left.len() as int, end) =~= line);
    } else {
        assert forall|k: int| 0 <= k < s.len() implies is_space(#[trigger] s[k]) by {
            if k >= left.len() {
                assert(s[k] == right[k - end]);
            }
        }
        lemma_word_start(s, 0, s.len() as int);
        lemma_row_end(s, s.len() as int, 0);
        assert(trimmed(s) =~= line);
    }
}

/// How a workspace row is read, white space at its ends aside: a blank row or a comment says
/// nothing; `use (` opens a group and, in a group, `)` closes it; `use` and a word name a
/// member, and so does every other row of a group. Outside of a group every other row says
/// nothing.
pub proof fn law_workspace_rows_are_read_exactly(
    left: Seq<char>,
    line: Seq<char>,
    right: Seq<char>,
    group: bool,
)
    requires
        forall|k: int| 0 <= k < left.len() ==> is_space(#[trigger] left[k]),
        forall|k: int| 0 <= k < right.len() ==> is_space(#[trigger] right[k]),
        line.len() > 0 ==> !is_space(line[0]) && !is_space(line[line.len() - 1]),
    ensures
        ({
            let row = workspace_row(left + line + right, group);
            let comment = "//"@.is_prefix_of(line);
            let used = "use "@.is_prefix_of(line);
            &&& line.len() == 0 || comment ==> row is Other
            &&& row is Open <==> line == "use ("@
            &&& row is Close <==> group && line == ")"@
            &&& used && line != "use ("@ ==> row == WorkspaceRow::Member(word_from(line, 4))
            &&& group && line.len() > 0 && !comment && !used && line != ")"@ ==> row
                == WorkspaceRow::Member(word_from(line, 0))
            &&& !group && !used ==> row is Other
        }),
{
    law_trimming_takes_the_ends(left, line, right);
    reveal_strlit("//");
    reveal_strlit("use ");
    reveal_strlit("use (");
    reveal_strlit(")");
    assert("use ("@.take(4) =~= "use "@);
    assert("use ("@[0] == 'u');
    assert("//"@[0] == '/');
    assert("use "@[0] == 'u');
    assert(")"@[0] == ')');
    if "//"@.is_prefix_of(line) {
        assert(line.take(2) =~= "//"@);
        assert(line[0] == line.take(2)[0]);
    }
    if begins(line, "//"@) {
        assert(line.take(2)[0] == line[0]);
    }
    if "use "@.is_prefix_of(line) {
        assert(line.take(4) =~= "use "@);
        assert(line[0] == line.take(4)[0]);
    }
    if begins(line, "use "@) {
        assert(line.take(4)[0] == line[0]);
    }
}

/// The rows are read one behind the other: `groups` holds, of each row, whether it stands in a
/// group, and at its end whether a group was left open.
pub open spec fn groups_follow(rows: Seq<Seq<char>>, groups: Seq<bool>) -> bool {
    &&& groups.len() == rows.len() + 1
    &&& forall|i: int|
        0 <= i < rows.len() ==> groups[i + 1] == (if workspace_row(
            #[trigger] rows[i],
            groups[i],
        ) is Open {
            true
        } else if workspace_row(rows[i], groups[i]) is Close {
            false
        } else {
            groups[i]
        })
}

/// The row names no member, or a local one that was found in the repository.
pub open spec fn member_is_bound(row: WorkspaceRow, bound: Set<Seq<char>>) -> bool {
    row matches WorkspaceRow::Member(target) ==> target is Some && target->0.len() > 0 && (
    target->0[0] == '/' || target->0[0] == '.') && bound.contains(target->0)
}

proof fn lemma_workspace(
    rows: Seq<Seq<char>>,
    groups: Seq<bool>,
    i: int,
    bound: Set<Seq<char>>,
)
    requires
        groups_follow(rows, groups),
        0 <= i <= rows.len(),
    ensures
        workspace_is_bound(rows, i, groups[i], bound) <==> !groups[rows.len() as int] && (forall|
            j: int,
        |
            i <= j < rows.len() ==> member_is_bound(
                workspace_row(#[trigger] rows[j], groups[j]),
                bound,
            )),
    decreases rows.len() - i,
{
    if i < rows.len() {
        lemma_workspace(rows, groups, i + 1, bound);
        let row = workspace_row(rows[i], groups[i]);
        assert(groups[i + 1] == if row is Open {
            true
        } else if row is Close {
            false
        } else {
            groups[i]
        });
        assert(workspace_is_bound(rows, i, groups[i], bound) <==> member_is_bound(row, bound)
            && workspace_is_bound(rows, i + 1, groups[i + 1], bound));
    }
}

/// A workspace file is bound exactly if no group is left open and every member that its rows
/// name is a local path that was found in the repository. One group left open, one member
/// without a name, one module path and one path outside the repository each refuse it.
pub proof fn law_workspace_is_bound_exactly(
    rows: Seq<Seq<char>>,
    groups: Seq<bool>,
    bound: Set<Seq<char>>,
)
    requires
        groups_follow(rows, groups),
        !groups[0],
    ensures
        workspace_is_bound(rows, 0, false, bound) <==> !groups[rows.len() as int] && (forall|
            j: int,
        |
            0 <= j < rows.len() ==> member_is_bound(
                workspace_row(#[trigger] rows[j], groups[j]),
                bound,
            )),
{
    lemma_workspace(rows, groups, 0, bound);
}

proof fn lemma_member_targets(
    rows: Seq<Seq<char>>,
    groups: Seq<bool>,
    i: int,
    target: Seq<char>,
)
    requires
        groups_follow(rows, groups),
        0 <= i <= rows.len(),
    ensures
        member_targets(rows, i, groups[i]).contains(target) <==> is_local(target) && exists|j: int|
            i <= j < rows.len() && workspace_row(#[trigger] rows[j], groups[j])
                == WorkspaceRow::Member(Some(target)),
    decreases rows.len() - i,
{
    let listed = member_targets(rows, i, groups[i]);
    if i < rows.len() {
        lemma_member_targets(rows, groups, i + 1, target);
        let row = workspace_row(rows[i], groups[i]);
        let rest = member_targets(rows, i + 1, groups[i + 1]);
        assert(groups[i + 1] == if row is Open {
            true
        } else if row is Close {
            false
        } else {
            groups[i]
        });
        match row {
            WorkspaceRow::Member(Some(found)) => {
                if is_local(found) {
                    assert(listed == seq![found] + rest);
                    assert(listed[0] == found);
                    if rest.contains(target) {
                        let k = rest.index_of(target);
                        assert(listed[k + 1] == target);
                    }
                    if listed.contains(target) && found != target {
                        let k = listed.index_of(target);
                        assert(rest[k - 1] == target);
                    }
                }
            },
            _ => {},
        }
    } else {
        assert(listed.len() == 0);
    }
}

/// Exactly the local members that the rows name are looked up, so that where all of them lie in
/// the repository nothing that was not looked up refuses the file.
pub proof fn law_every_member_is_looked_up(
    rows: Seq<Seq<char>>,
    groups: Seq<bool>,
    target: Seq<char>,
)
    requires
        groups_follow(rows, groups),
        !groups[0],
    ensures
        member_targets(rows, 0, false).contains(target) <==> target.len() > 0 && (target[0] == '/'
            || target[0] == '.') && exists|j: int|
            0 <= j < rows.len() && workspace_row(#[trigger] rows[j], groups[j])
                == WorkspaceRow::Member(Some(target)),
{
    lemma_member_targets(rows, groups, 0, target);
}

/// Bytes without a line feed are one row, and a line feed parts bytes into the rows before it
/// and the rows behind it.
pub proof fn law_line_feeds_part_the_bytes(before: Seq<u8>, behind: Seq<u8>)
    ensures
        !before.contains(10u8) ==> byte_rows(before) == seq![before],
        byte_rows(before.push(10u8) + behind) == byte_rows(before) + byte_rows(behind),
    decreases before.len() + behind.len(),
{
    if !before.contains(10u8) {
        if before.len() > 0 {
            let front = before.drop_last();
            assert forall|c: u8| front.contains(c) implies before.contains(c) by {
                let i = front.index_of(c);
                assert(before[i] == c);
            }
            law_line_feeds_part_the_bytes(front, Seq::empty());
            assert(before.last() == before[before.len() - 1]);
            assert(front.push(before.last()) =~= before);
            assert(byte_rows(before) =~= seq![before]);
        } else {
            assert(before =~= Seq::empty());
        }
    }
    let whole = before.push(10u8) + behind;
    if behind.len() == 0 {
        assert(whole =~= before.push(10u8));
        assert(whole.drop_last() =~= before);
        assert(byte_rows(whole) =~= byte_rows(before) + byte_rows(behind));
    } else {
        law_line_feeds_part_the_bytes(before, behind.drop_last());
        assert(whole.drop_last() =~= before.push(10u8) + behind.drop_last());
        assert(whole.last() == behind.last());
        lemma_byte_rows_nonempty(behind.drop_last());
        assert(byte_rows(whole) =~= byte_rows(before) + byte_rows(behind));
    }
}

proof fn lemma_byte_rows_nonempty(s: Seq<u8>)
    ensures
        byte_rows(s).len() > 0,
    decreases s.len(),
{
    if s.len() > 0 {
        lemma_byte_rows_nonempty(s.drop_last());
    }
}

proof fn lemma_code_start(s: Seq<u8>, i: int, start: int)
    requires
        0 <= i <= start <= s.len(),
        forall|k: int| i <= k < start ==> is_ascii_space(#[trigger] s[k]),
        start == s.len() || !is_ascii_space(s[start]),
    ensures
        code_start(s, i) == start,
    decreases start - i,
{
    if i < start {
        assert(is_ascii_space(s[i]));
        lemma_code_start(s, i + 1, start);
    }
}

/// The code begins with the text.
pub open spec fn code_begins(code: Seq<u8>, text: Seq<char>) -> bool {
    vstd::utf8::encode_utf8(text).is_prefix_of(code)
}

proof fn lemma_text_at(left: Seq<u8>, code: Seq<u8>, text: Seq<char>)
    ensures
        text_at(left + code, left.len() as int, text) <==> code_begins(code, text),
{
    let s = left + code;
    let bytes = vstd::utf8::encode_utf8(text);
    let at = left.len() as int;
    if bytes.len() <= code.len() {
        assert(s.subrange(at, at + bytes.len()) =~= code.take(bytes.len() as int));
        if code_begins(code, text) {
            assert(code.take(bytes.len() as int) =~= bytes);
        }
        if text_at(s, at, text) {
            assert(code.subrange(0, bytes.len() as int) =~= bytes);
        }
    }
}

/// How a row of Go source that is no import is read, white space before it aside: an embedding
/// is external wherever it stands; in a group of imports C is external and a closing bracket
/// closes the group; outside of a group no such row says anything.
pub proof fn law_source_rows_are_read_exactly(left: Seq<u8>, code: Seq<u8>, group: bool)
    requires
        forall|k: int| 0 <= k < left.len() ==> is_ascii_space(#[trigger] left[k]),
        code.len() > 0 ==> !is_ascii_space(code[0]),
        !code_begins(code, "import"@),
    ensures
        ({
            let row = source_row(left + code, group);
            let embeds = code_begins(code, "//go:embed"@);
            let closes = code_begins(code, ")"@);
            &&& row is External <==> embeds || (group && !closes && code_begins(code, "\"C\""@))
            &&& row is Close <==> group && closes && !embeds
            &&& !(row is Import)
        }),
{
    lemma_code_at(left, code);
    lemma_text_at(left, code, "//go:embed"@);
    lemma_text_at(left, code, "import"@);
    lemma_text_at(left, code, ")"@);
    lemma_text_at(left, code, "\"C\""@);
}

proof fn lemma_code_at(left: Seq<u8>, code: Seq<u8>)
    requires
        forall|k: int| 0 <= k < left.len() ==> is_ascii_space(#[trigger] left[k]),
        code.len() > 0 ==> !is_ascii_space(code[0]),
    ensures
        code_start(left + code, 0) == left.len(),
{
    let s = left + code;
    assert forall|k: int| 0 <= k < left.len() implies is_ascii_space(#[trigger] s[k]) by {
        assert(s[k] == left[k]);
    }
    if code.len() > 0 {
        assert(s[left.len() as int] == code[0]);
    }
    lemma_code_start(s, 0, left.len() as int);
}

proof fn lemma_import_is_no_embedding()
    ensures
        vstd::utf8::encode_utf8("import"@).len() == 6,
        vstd::utf8::encode_utf8("//go:embed"@).len() == 10,
        vstd::utf8::encode_utf8("import"@)[0] == 105u8,
        vstd::utf8::encode_utf8("//go:embed"@)[0] == 47u8,
{
    reveal_strlit("import");
    reveal_strlit("//go:embed");
    assert(vstd::utf8::is_ascii_chars("import"@));
    vstd::utf8::is_ascii_chars_encode_utf8("import"@);
    assert(vstd::utf8::is_ascii_chars("//go:embed"@));
    vstd::utf8::is_ascii_chars_encode_utf8("//go:embed"@);
    assert("import"@[0] == 'i' && "//go:embed"@[0] == '/');
}

/// How an import is read: an import of C is external, one that opens a bracket starts a group,
/// and every other one ends the group that it stands in.
pub proof fn law_imports_are_read_exactly(
    left: Seq<u8>,
    word: Seq<u8>,
    gap: Seq<u8>,
    code: Seq<u8>,
    group: bool,
)
    requires
        forall|k: int| 0 <= k < left.len() ==> is_ascii_space(#[trigger] left[k]),
        word == vstd::utf8::encode_utf8("import"@),
        forall|k: int| 0 <= k < gap.len() ==> is_ascii_space(#[trigger] gap[k]),
        code.len() > 0 ==> !is_ascii_space(code[0]),
    ensures
        source_row(left + (word + gap + code), group) == if code_begins(code, "\"C\""@) {
            SourceRow::External
        } else {
            SourceRow::Import { group: code_begins(code, "("@) }
        },
{
    let tail = word + gap + code;
    let s = left + tail;
    lemma_import_is_no_embedding();
    let embedding = vstd::utf8::encode_utf8("//go:embed"@);
    if code_begins(tail, "//go:embed"@) {
        assert(tail.subrange(0, embedding.len() as int)[0] == tail[0]);
    }
    lemma_code_at(left, tail);
    assert(tail[0] == word[0]);
    lemma_text_at(left, tail, "//go:embed"@);
    lemma_text_at(left, tail, "import"@);
    let front = left + word + gap;
    let behind = front.len() as int;
    assert(s =~= front + code);
    assert forall|k: int| left.len() + 6 <= k < behind implies is_ascii_space(#[trigger] s[k]) by {
        assert(s[k] == gap[k - left.len() - 6]);
    }
    if code.len() > 0 {
        assert(s[behind] == code[0]);
    }
    lemma_code_start(s, left.len() + 6int, behind);
    lemma_text_at(front, code, "\"C\""@);
    lemma_text_at(front, code, "("@);
}

/// The rows of Go source are read one behind the other: `groups` holds, of each row, whether it
/// stands in a group of imports.
pub open spec fn imports_follow(rows: Seq<Seq<u8>>, groups: Seq<bool>) -> bool {
    &&& groups.len() == rows.len() + 1
    &&& forall|i: int|
        0 <= i < rows.len() ==> groups[i + 1] == (match source_row(#[trigger] rows[i], groups[i]) {
            SourceRow::Import { group } => group,
            SourceRow::Close => false,
            _ => groups[i],
        })
}

proof fn lemma_self_contained(rows: Seq<Seq<u8>>, groups: Seq<bool>, i: int)
    requires
        imports_follow(rows, groups),
        0 <= i <= rows.len(),
    ensures
        source_is_self_contained(rows, i, groups[i]) <==> (forall|j: int|
            i <= j < rows.len() ==> !(source_row(#[trigger] rows[j], groups[j]) is External)),
    decreases rows.len() - i,
{
    if i < rows.len() {
        lemma_self_contained(rows, groups, i + 1);
        assert(groups[i + 1] == (match source_row(rows[i], groups[i]) {
            SourceRow::Import { group } => group,
            SourceRow::Close => false,
            _ => groups[i],
        }));
    }
}

/// A source is self-contained exactly if none of its rows is external: one such row anywhere is
/// enough to refuse it.
pub proof fn law_one_external_row_refuses_the_source(rows: Seq<Seq<u8>>, groups: Seq<bool>)
    requires
        imports_follow(rows, groups),
        !groups[0],
    ensures
        source_is_self_contained(rows, 0, false) <==> (forall|j: int|
            0 <= j < rows.len() ==> !(source_row(#[trigger] rows[j], groups[j]) is External)),
{
    lemma_self_contained(rows, groups, 0);
}

/// Reuse by another process is owed exactly if the whole population was found without issues,
/// there is a toolchain root, none is vendored, and every Go input was read, is bound as a
/// module file where its name says so, and as a workspace file where its name says so. The
/// inputs of other languages play no part.
pub proof fn law_reuse_is_bounded_exactly(
    inventory: ProjectInventory,
    vendored: Seq<bool>,
    contents: Seq<GoInputContents>,
)
    ensures
        reuse_is_bounded(inventory, vendored, contents) <==> {
            &&& inventory.coverage is IndexedSourcePopulationComplete
            &&& inventory.issues@.len() == 0
            &&& vendored.len() > 0 && !vendored.contains(true)
            &&& forall|i: int|
                0 <= i < inventory.inputs@.len() && (#[trigger] inventory.inputs@[i]).language_id.0@
                    == "go"@ ==> {
                    let path = inventory.inputs@[i].path@;
                    let read = contents[i].bytes;
                    let text = vstd::utf8::decode_utf8(read->0@);
                    let bound = contents[i].bound_targets@.dom();
                    &&& read is Some
                    &&& "go.mod"@.is_suffix_of(path) || "go.work"@.is_suffix_of(path)
                        ==> vstd::utf8::valid_utf8(read->0@)
                    &&& "go.mod"@.is_suffix_of(path) ==> module_is_bound(text, bound)
                    &&& "go.work"@.is_suffix_of(path) ==> workspace_is_bound(
                        rows(text),
                        0,
                        false,
                        bound,
                    )
                }
        },
{
    if vendored.contains(true) {
        let i = vendored.index_of(true);
        assert(vendored[i]);
    } else {
        assert forall|i: int| 0 <= i < vendored.len() implies !#[trigger] vendored[i] by {
            if vendored[i] {
                assert(vendored.contains(true));
            }
        }
    }
}

/// White space is that of Unicode: among the characters of ASCII the five controls from the tab
/// to the carriage return and the blank; beyond them the spaces from U+2000 to U+200A and nine
/// single code points. The white space of Go source is the ASCII part of it without the vertical
/// tab.
pub proof fn law_white_space_is_that_of_unicode(c: char, b: u8)
    ensures
        is_space(c) <==> {
            let code = c as u32;
            ||| 0x9 <= code <= 0xd
            ||| code == 0x20
            ||| code == 0x85
            ||| code == 0xa0
            ||| code == 0x1680
            ||| 0x2000 <= code <= 0x200a
            ||| code == 0x2028
            ||| code == 0x2029
            ||| code == 0x202f
            ||| code == 0x205f
            ||| code == 0x3000
        },
        b < 128 ==> (is_ascii_space(b) <==> is_space(b as char) && b != 11),
        b >= 128 ==> !is_ascii_space(b),
{
}

} // verus!
