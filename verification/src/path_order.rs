//! Paths as lists of components: containment and order.

use vstd::prelude::*;

use crate::path;
use crate::path::{is_absolute, split};
use crate::text;

verus! {

/// The segments that count as components: those that are not empty, and a single dot
/// only in first place.
pub open spec fn counted(segments: Seq<Seq<char>>) -> Seq<Seq<char>>
    decreases segments.len(),
{
    if segments.len() == 0 {
        seq![]
    } else {
        let before = counted(segments.drop_last());
        let last = segments.last();
        if last.len() == 0 || (last == path::current_dir() && segments.len() > 1) {
            before
        } else {
            before.push(last)
        }
    }
}

/// The components of a path. A root counts as one.
pub open spec fn components(path: Seq<char>) -> Seq<Seq<char>> {
    if path.len() > 0 && path[0] == '/' {
        seq![seq!['/']] + counted(path::segments(path))
    } else {
        counted(path::segments(path))
    }
}

/// The components of a path.
fn components_of(path: &str) -> (r: Vec<Vec<char>>)
    ensures
        path::char_seqs(r@) == components(path@),
{
    let parts = split(path);
    let ghost segments = path::segments(path@);
    let mut r: Vec<Vec<char>> = Vec::new();
    let ghost root: Seq<Seq<char>> = if path@.len() > 0 && path@[0] == '/' {
        seq![seq!['/']]
    } else {
        seq![]
    };
    if is_absolute(path) {
        let mut slash: Vec<char> = Vec::new();
        slash.push('/');
        assert(slash@ =~= seq!['/']);
        r.push(slash);
    }
    assert(path::char_seqs(r@) =~= root + counted(segments.take(0)));
    for i in 0..parts.len()
        invariant
            path::char_seqs(parts@) == segments,
            path::char_seqs(r@) == root + counted(segments.take(i as int)),
    {
        let ghost next = segments.take(i + 1);
        assert(next.drop_last() =~= segments.take(i as int));
        assert(next.last() == parts@[i as int]@);
        let part = &parts[i];
        let dot = part.len() == 1 && part[0] == '.';
        assert(dot <==> part@ =~= path::current_dir());
        let ghost before = path::char_seqs(r@);
        if !(part.len() == 0 || (dot && i > 0)) {
            let mut copy: Vec<char> = Vec::new();
            for j in 0..part.len()
                invariant
                    copy@ == part@.take(j as int),
            {
                copy.push(part[j]);
                assert(part@.take(j + 1) =~= part@.take(j as int).push(part@[j as int]));
            }
            assert(part@.take(part@.len() as int) =~= part@);
            r.push(copy);
            assert(path::char_seqs(r@) =~= before.push(part@));
        }
        assert(path::char_seqs(r@) =~= root + counted(next));
    }
    assert(segments.take(segments.len() as int) =~= segments);
    assert(root + counted(segments) =~= components(path@));
    r
}

/// How many components a path has.
pub fn component_count(path: &str) -> (r: usize)
    ensures
        r == components(path@).len(),
{
    let parts = components_of(path);
    assert(path::char_seqs(parts@).len() == parts@.len());
    parts.len()
}

/// Whether the components of `prefix` begin those of `path`.
pub open spec fn is_under(path: Seq<char>, prefix: Seq<char>) -> bool {
    components(prefix).is_prefix_of(components(path))
}

fn same_component(a: &Vec<char>, b: &Vec<char>) -> (r: bool)
    ensures
        r == (a@ == b@),
{
    if a.len() != b.len() {
        return false;
    }
    for i in 0..a.len()
        invariant
            a@.len() == b@.len(),
            forall|j: int| 0 <= j < i ==> a@[j] == b@[j],
    {
        if a[i] != b[i] {
            return false;
        }
    }
    assert(a@ =~= b@);
    true
}

/// Whether `path` is `prefix` or lies below it.
pub fn starts_with(path: &str, prefix: &str) -> (r: bool)
    ensures
        r == is_under(path@, prefix@),
{
    let whole = components_of(path);
    let front = components_of(prefix);
    let ghost a = components(path@);
    let ghost b = components(prefix@);
    if front.len() > whole.len() {
        return false;
    }
    for i in 0..front.len()
        invariant
            a == components(path@),
            b == components(prefix@),
            path::char_seqs(whole@) == a,
            path::char_seqs(front@) == b,
            b.len() <= a.len(),
            forall|j: int| 0 <= j < i ==> a[j] == b[j],
    {
        assert(a[i as int] == whole@[i as int]@);
        assert(b[i as int] == front@[i as int]@);
        if !same_component(&whole[i], &front[i]) {
            assert(b[i as int] != a.subrange(0, b.len() as int)[i as int]);
            return false;
        }
    }
    assert(b =~= a.subrange(0, b.len() as int));
    true
}

/// The place of a component's kind in the order: root, current directory, parent
/// directory, name.
pub open spec fn rank(component: Seq<char>) -> nat {
    if component == seq!['/'] {
        1
    } else if component == path::current_dir() {
        2
    } else if component == path::parent_dir() {
        3
    } else {
        4
    }
}

/// A component as numbers: its rank, its characters, and an end that is smaller than
/// any character.
pub open spec fn component_key(component: Seq<char>) -> Seq<nat> {
    seq![rank(component)] + component.map_values(|c: char| (c as u32) as nat + 1) + seq![0nat]
}

pub open spec fn components_key(components: Seq<Seq<char>>) -> Seq<nat>
    decreases components.len(),
{
    if components.len() == 0 {
        seq![]
    } else {
        components_key(components.drop_last()) + component_key(components.last())
    }
}

/// A path as numbers. Comparing them compares the paths component by component.
pub open spec fn path_key(path: Seq<char>) -> Seq<nat> {
    components_key(components(path))
}

/// Lexicographic order of numbers.
pub open spec fn key_lt(a: Seq<nat>, b: Seq<nat>) -> bool {
    exists|k: int| key_lt_at(a, b, k)
}

pub open spec fn key_lt_at(a: Seq<nat>, b: Seq<nat>, k: int) -> bool {
    &&& 0 <= k <= a.len()
    &&& k < b.len()
    &&& a.take(k) == b.take(k)
    &&& k < a.len() ==> a[k] < b[k]
}

/// Paths in component order.
pub open spec fn path_lt(a: Seq<char>, b: Seq<char>) -> bool {
    key_lt(path_key(a), path_key(b))
}

pub open spec fn numbers(key: Seq<u32>) -> Seq<nat> {
    key.map_values(|n: u32| n as nat)
}

fn key_of(path: &str) -> (r: Vec<u32>)
    ensures
        numbers(r@) == path_key(path@),
{
    let parts = components_of(path);
    let ghost all = components(path@);
    let mut key: Vec<u32> = Vec::new();
    assert(numbers(key@) =~= components_key(all.take(0)));
    for i in 0..parts.len()
        invariant
            path::char_seqs(parts@) == all,
            numbers(key@) == components_key(all.take(i as int)),
    {
        let part = &parts[i];
        let ghost next = all.take(i + 1);
        assert(next.drop_last() =~= all.take(i as int));
        assert(next.last() == part@);
        let slash = part.len() == 1 && part[0] == '/';
        let dot = part.len() == 1 && part[0] == '.';
        let dots = part.len() == 2 && part[0] == '.' && part[1] == '.';
        assert(slash <==> part@ =~= seq!['/']);
        assert(dot <==> part@ =~= path::current_dir());
        assert(dots <==> part@ =~= path::parent_dir());
        let place: u32 = if slash {
            1
        } else if dot {
            2
        } else if dots {
            3
        } else {
            4
        };
        assert(place as nat == rank(part@));
        let ghost before = numbers(key@);
        key.push(place);
        assert(numbers(key@) =~= before + seq![rank(part@)]);
        let ghost f = |c: char| (c as u32) as nat + 1;
        for j in 0..part.len()
            invariant
                f == (|c: char| (c as u32) as nat + 1),
                numbers(key@) =~= before + seq![rank(part@)] + part@.map_values(f).take(j as int),
        {
            let ghost old_key = key@;
            let c: char = part[j];
            let code: u32 = c as u32;
            proof {
                vstd::utf8::char_is_scalar(c);
            }
            key.push(code + 1);
            assert(numbers(key@) =~= numbers(old_key).push(part@.map_values(f)[j as int]));
        }
        assert(part@.map_values(f).take(part@.len() as int) =~= part@.map_values(f));
        let ghost body = numbers(key@);
        key.push(0);
        assert(numbers(key@) =~= body + seq![0nat]);
        assert(numbers(key@) =~= components_key(next));
    }
    assert(all.take(all.len() as int) =~= all);
    key
}

/// Whether `a` comes before `b` in component order.
pub fn path_before(a: &str, b: &str) -> (r: bool)
    ensures
        r == path_lt(a@, b@),
{
    let x = key_of(a);
    let y = key_of(b);
    let ghost p = path_key(a@);
    let ghost q = path_key(b@);
    let mut k: usize = 0;
    while k < x.len() && k < y.len() && x[k] == y[k]
        invariant
            numbers(x@) == p,
            numbers(y@) == q,
            k <= x.len(),
            k <= y.len(),
            forall|j: int| 0 <= j < k ==> p[j] == q[j],
        decreases x.len() - k,
    {
        assert(p[k as int] == x@[k as int] as nat);
        assert(q[k as int] == y@[k as int] as nat);
        k += 1;
    }
    let r = k < y.len() && (k == x.len() || x[k] < y[k]);
    proof {
        assert(p.take(k as int) =~= q.take(k as int));
        if k < x.len() {
            assert(p[k as int] == x@[k as int] as nat);
        }
        if k < y.len() {
            assert(q[k as int] == y@[k as int] as nat);
        }
        if r {
            assert(key_lt_at(p, q, k as int));
        } else if key_lt(p, q) {
            let m = choose|m: int| key_lt_at(p, q, m);
            if m < k {
                assert(p[m] == q[m]);
            } else if m > k {
                assert(p.take(m)[k as int] == q.take(m)[k as int]);
            }
        }
    }
    r
}

pub proof fn lemma_key_transitive(a: Seq<nat>, b: Seq<nat>, c: Seq<nat>)
    requires
        key_lt(a, b),
        key_lt(b, c),
    ensures
        key_lt(a, c),
{
    let i = choose|k: int| key_lt_at(a, b, k);
    let j = choose|k: int| key_lt_at(b, c, k);
    let k = if i <= j {
        i
    } else {
        j
    };
    assert(a.take(i).take(k) =~= a.take(k));
    assert(b.take(i).take(k) =~= b.take(k));
    assert(b.take(j).take(k) =~= b.take(k));
    assert(c.take(j).take(k) =~= c.take(k));
    if k < i {
        assert(a.take(i)[k] == b.take(i)[k]);
    }
    if k < j {
        assert(b.take(j)[k] == c.take(j)[k]);
    }
    assert(key_lt_at(a, c, k));
}

pub proof fn lemma_key_total(a: Seq<nat>, b: Seq<nat>)
    ensures
        key_lt(a, b) || key_lt(b, a) || a == b,
    decreases a.len(),
{
    if a.len() == 0 {
        if b.len() > 0 {
            assert(a.take(0) =~= b.take(0));
            assert(key_lt_at(a, b, 0));
        } else {
            assert(a =~= b);
        }
    } else if b.len() == 0 {
        assert(a.take(0) =~= b.take(0));
        assert(key_lt_at(b, a, 0));
    } else if a[0] != b[0] {
        assert(a.take(0) =~= b.take(0));
        if a[0] < b[0] {
            assert(key_lt_at(a, b, 0));
        } else {
            assert(key_lt_at(b, a, 0));
        }
    } else {
        let x = a.skip(1);
        let y = b.skip(1);
        lemma_key_total(x, y);
        assert(a =~= seq![a[0]] + x);
        assert(b =~= seq![a[0]] + y);
        if key_lt(x, y) {
            let k = choose|k: int| key_lt_at(x, y, k);
            assert(a.take(k + 1) =~= seq![a[0]] + x.take(k));
            assert(b.take(k + 1) =~= seq![a[0]] + y.take(k));
            assert(key_lt_at(a, b, k + 1));
        } else if key_lt(y, x) {
            let k = choose|k: int| key_lt_at(y, x, k);
            assert(a.take(k + 1) =~= seq![a[0]] + x.take(k));
            assert(b.take(k + 1) =~= seq![a[0]] + y.take(k));
            assert(key_lt_at(b, a, k + 1));
        }
    }
}

proof fn lemma_segments_of_child(directory: Seq<char>, name: Seq<char>)
    requires
        !name.contains('/'),
    ensures
        path::segments(directory.push('/') + name) == path::segments(directory).push(name),
        path::segments(name) == seq![name],
    decreases name.len(),
{
    let whole = directory.push('/') + name;
    if name.len() == 0 {
        assert(whole =~= directory.push('/'));
        assert(whole.drop_last() =~= directory);
        assert(name =~= Seq::empty());
        assert(path::segments(whole) =~= path::segments(directory).push(name));
    } else {
        let front = name.drop_last();
        assert(name.last() == name[name.len() - 1]);
        assert forall|c: char| front.contains(c) implies name.contains(c) by {
            let i = front.index_of(c);
            assert(name[i] == c);
        }
        lemma_segments_of_child(directory, front);
        assert(name.contains(name.last()));
        assert(whole.drop_last() =~= directory.push('/') + front);
        assert(whole.last() == name.last());
        assert(front.push(name.last()) =~= name);
        assert(path::segments(whole) =~= path::segments(directory).push(name));
        assert(path::segments(name) =~= seq![name]);
    }
}

/// The components of a path, from its first on: a name is one component, a leading slash is
/// one, and each name behind a slash adds itself at the end, but for the empty name and the
/// dot, which add nothing.
pub proof fn law_components_follow_the_names(directory: Seq<char>, name: Seq<char>)
    requires
        !name.contains('/'),
    ensures
        name.len() > 0 ==> components(name) == seq![name],
        components(Seq::<char>::empty()) == Seq::<Seq<char>>::empty(),
        components(seq!['/']) == seq![seq!['/']],
        directory.len() > 0 && name.len() > 0 && name != seq!['.'] ==> components(
            directory.push('/') + name,
        ) == components(directory).push(name),
        directory.len() > 0 && (name.len() == 0 || name == seq!['.']) ==> components(
            directory.push('/') + name,
        ) == components(directory),
        directory.len() == 0 && name.len() > 0 && name != seq!['.'] ==> components(
            directory.push('/') + name,
        ) == seq![seq!['/'], name],
        directory.len() == 0 && (name.len() == 0 || name == seq!['.']) ==> components(
            directory.push('/') + name,
        ) == seq![seq!['/']],
{
    lemma_segments_of_child(directory, name);
    let none = Seq::<char>::empty();
    lemma_segments_of_child(none, none);
    path::lemma_segments_nonempty(directory);
    assert(counted(Seq::empty()) =~= Seq::empty());
    let alone = seq![name];
    assert(alone.drop_last() =~= Seq::empty());
    assert(alone.last() == name);
    let blank = seq![none];
    assert(blank.drop_last() =~= Seq::empty());
    assert(blank.last() == none);
    assert(counted(blank) =~= Seq::empty());
    let root = seq![none, none];
    assert(root =~= seq![none].push(none));
    assert(root.drop_last() =~= blank);
    assert(counted(root) =~= Seq::empty());
    assert(none.push('/') + none =~= seq!['/']);
    assert(path::segments(seq!['/']) =~= root);
    assert(components(seq!['/']) =~= seq![seq!['/']]);
    if name.len() > 0 {
        assert(name.contains(name[0]));
        assert(counted(alone) =~= seq![name]);
    }
    let before = path::segments(directory);
    let after = before.push(name);
    let whole = directory.push('/') + name;
    assert(after.drop_last() =~= before);
    assert(after.last() == name);
    if directory.len() > 0 {
        assert(whole[0] == directory[0]);
        if name.len() > 0 && name != seq!['.'] {
            assert(components(whole) =~= components(directory).push(name));
        }
    } else {
        assert(directory =~= none);
        assert(whole[0] == '/');
        if name.len() > 0 && name != seq!['.'] {
            assert(counted(after) =~= seq![name]);
            assert(components(whole) =~= seq![seq!['/'], name]);
        } else {
            assert(components(whole) =~= seq![seq!['/']]);
        }
    }
}

/// A path lies under itself and under everything that a path above it lies under, and what lies
/// in a directory lies under it. Two paths under each other have the same components.
pub proof fn law_containment_follows_the_names(
    directory: Seq<char>,
    name: Seq<char>,
    above: Seq<char>,
)
    requires
        directory.len() > 0,
        !name.contains('/'),
    ensures
        is_under(directory, directory),
        is_under(directory.push('/') + name, directory),
        is_under(directory, above) ==> is_under(directory.push('/') + name, above),
        is_under(directory, above) && is_under(above, directory) ==> components(directory)
            == components(above),
        name.len() > 0 && name != seq!['.'] ==> !is_under(directory, directory.push('/') + name),
{
    law_components_follow_the_names(directory, name);
    let child = components(directory.push('/') + name);
    let own = components(directory);
    let upper = components(above);
    assert(own.is_prefix_of(own));
    if name.len() > 0 && name != seq!['.'] {
        assert(child =~= own.push(name));
        assert(own.is_prefix_of(child));
        if upper.is_prefix_of(own) {
            assert(child.subrange(0, upper.len() as int) =~= own.subrange(0, upper.len() as int));
        }
    }
    if upper.is_prefix_of(own) && own.is_prefix_of(upper) {
        assert(own =~= upper);
    }
}

proof fn lemma_key_prefix(a: Seq<Seq<char>>, k: int)
    requires
        0 <= k <= a.len(),
    ensures
        components_key(a) == components_key(a.take(k)) + components_key(a.skip(k)),
    decreases a.len(),
{
    if k == a.len() {
        assert(a.take(k) =~= a);
        assert(a.skip(k) =~= Seq::empty());
        assert(components_key(a) =~= components_key(a.take(k)) + components_key(a.skip(k)));
    } else {
        let front = a.drop_last();
        lemma_key_prefix(front, k);
        assert(front.take(k) =~= a.take(k));
        assert(a.skip(k).drop_last() =~= front.skip(k));
        assert(a.skip(k).last() == a.last());
        assert(components_key(a) =~= components_key(a.take(k)) + components_key(a.skip(k)));
    }
}

proof fn lemma_key_of_first(a: Seq<Seq<char>>)
    requires
        a.len() > 0,
    ensures
        components_key(a) == component_key(a[0]) + components_key(a.skip(1)),
{
    lemma_key_prefix(a, 1);
    let first = a.take(1);
    assert(first.drop_last() =~= Seq::empty());
    assert(first.last() == a[0]);
    assert(components_key(Seq::empty()) =~= Seq::empty());
    assert(components_key(first) =~= component_key(a[0]));
}

proof fn lemma_common_front(front: Seq<nat>, a: Seq<nat>, b: Seq<nat>)
    requires
        key_lt(a, b),
    ensures
        key_lt(front + a, front + b),
{
    let k = choose|k: int| key_lt_at(a, b, k);
    let n = front.len() as int;
    assert((front + a).take(n + k) =~= front + a.take(k));
    assert((front + b).take(n + k) =~= front + b.take(k));
    assert(key_lt_at(front + a, front + b, n + k));
}

proof fn lemma_code_points(a: char, b: char)
    requires
        a < b,
    ensures
        ((a as u32) as nat) < ((b as u32) as nat),
{
}

/// The number at which two components first differ, with what stands there.
proof fn lemma_component_keys(a: Seq<char>, b: Seq<char>, x: Seq<nat>, y: Seq<nat>)
    requires
        rank(a) < rank(b) || (rank(a) == rank(b) && text::seq_lt(a, b)),
    ensures
        key_lt(component_key(a) + x, component_key(b) + y),
{
    let p = component_key(a) + x;
    let q = component_key(b) + y;
    assert(p[0] == rank(a));
    assert(q[0] == rank(b));
    if rank(a) < rank(b) {
        assert(p.take(0) =~= q.take(0));
        assert(key_lt_at(p, q, 0));
    } else {
        let k = choose|k: int| text::lt_at(a, b, k);
        assert forall|i: int| 0 <= i < k implies a[i] == b[i] by {
            assert(a.take(k)[i] == b.take(k)[i]);
        }
        assert forall|i: int| 0 <= i < a.len() implies p[i + 1] == (#[trigger] a[i] as u32) as nat
            + 1 by {}
        assert forall|i: int| 0 <= i < b.len() implies q[i + 1] == (#[trigger] b[i] as u32) as nat
            + 1 by {}
        assert(p.take(k + 1) =~= q.take(k + 1)) by {
            assert forall|i: int| 0 <= i < k + 1 implies p[i] == q[i] by {
                if i > 0 {
                    assert(a[i - 1] == b[i - 1]);
                    assert(p[i] == (a[i - 1] as u32) as nat + 1);
                    assert(q[i] == (b[i - 1] as u32) as nat + 1);
                }
            }
        }
        assert(q[k + 1] == (b[k] as u32) as nat + 1);
        if k < a.len() {
            assert(p[k + 1] == (a[k] as u32) as nat + 1);
            assert(text::lt_at(a, b, k));
            assert(a[k] < b[k]);
            lemma_code_points(a[k], b[k]);
            assert(p[k + 1] < q[k + 1]);
        } else {
            assert(component_key(a).len() == a.len() + 2);
            assert(component_key(a)[k + 1] == 0);
            assert(p[k + 1] == component_key(a)[k + 1]);
        }
        assert(0 <= k + 1 < p.len() && k + 1 < q.len());
        assert(key_lt_at(p, q, k + 1));
    }
}

/// Paths are ordered by the first component in which they differ: a root comes before the
/// current directory, that before the parent directory, that before a name, and two names come
/// in the order of their text. A path comes before everything that lies under it.
pub proof fn law_first_differing_component_decides(a: Seq<char>, b: Seq<char>, k: int)
    requires
        0 <= k < components(b).len(),
        k <= components(a).len(),
        components(a).take(k) == components(b).take(k),
        k < components(a).len() ==> {
            let x = components(a)[k];
            let y = components(b)[k];
            rank(x) < rank(y) || (rank(x) == rank(y) && text::seq_lt(x, y))
        },
    ensures
        path_lt(a, b),
        !path_lt(b, a),
{
    let x = components(a);
    let y = components(b);
    lemma_key_prefix(x, k);
    lemma_key_prefix(y, k);
    let front = components_key(x.take(k));
    lemma_key_of_first(y.skip(k));
    assert(y.skip(k)[0] == y[k]);
    if k < x.len() {
        lemma_key_of_first(x.skip(k));
        assert(x.skip(k)[0] == x[k]);
        lemma_component_keys(
            x[k],
            y[k],
            components_key(x.skip(k).skip(1)),
            components_key(y.skip(k).skip(1)),
        );
    } else {
        assert(x.skip(k) =~= Seq::empty());
        let p = components_key(x.skip(k));
        let q = components_key(y.skip(k));
        assert(p.len() == 0);
        assert(q.len() > 0);
        assert(p.take(0) =~= q.take(0));
        assert(key_lt_at(p, q, 0));
    }
    lemma_common_front(front, components_key(x.skip(k)), components_key(y.skip(k)));
    if path_lt(b, a) {
        lemma_key_transitive(path_key(a), path_key(b), path_key(a));
        let m = choose|m: int| key_lt_at(path_key(a), path_key(a), m);
        assert(false);
    }
}

/// The kinds of components, from first to last in the order.
pub proof fn law_kinds_of_components_are_ordered(name: Seq<char>)
    requires
        name != seq!['/'] && name != seq!['.'] && name != seq!['.', '.'],
    ensures
        rank(seq!['/']) < rank(seq!['.']),
        rank(seq!['.']) < rank(seq!['.', '.']),
        rank(seq!['.', '.']) < rank(name),
{
    assert(seq!['/'][0] == '/' && seq!['.'][0] == '.');
    assert(seq!['.', '.'].len() == 2 && seq!['.'].len() == 1);
}

} // verus!
