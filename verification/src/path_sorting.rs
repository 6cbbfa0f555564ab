//! Sorting paths component by component.

use vstd::prelude::*;

use crate::path_order;
use crate::path_order::path_before;

verus! {

proof fn lemma_irreflexive(a: Seq<char>)
    ensures
        !path_order::path_lt(a, a),
{
}

proof fn lemma_transitive(a: Seq<char>, b: Seq<char>, c: Seq<char>)
    requires
        path_order::path_lt(a, b),
        path_order::path_lt(b, c),
    ensures
        path_order::path_lt(a, c),
{
    path_order::lemma_key_transitive(
        path_order::path_key(a),
        path_order::path_key(b),
        path_order::path_key(c),
    );
}

proof fn lemma_total(a: Seq<char>, b: Seq<char>)
    ensures
        path_order::path_lt(a, b) || path_order::path_lt(b, a) || path_order::path_key(a)
            == path_order::path_key(b),
{
    path_order::lemma_key_total(path_order::path_key(a), path_order::path_key(b));
}

/// How many of the ordered positions stay before position `k`: those up to the last
/// whose key is not greater.
pub open spec fn path_place(order: Seq<usize>, paths: Seq<Seq<char>>, k: int) -> int
    decreases order.len(),
{
    if order.len() == 0 || !path_order::path_lt(paths[k], paths[order.last() as int]) {
        order.len() as int
    } else {
        path_place(order.drop_last(), paths, k)
    }
}

/// The positions of the first `n` paths in the order of the paths; equal paths keep their
/// order.
pub open spec fn path_sorted(paths: Seq<Seq<char>>, n: nat) -> Seq<usize>
    decreases n,
{
    if n == 0 {
        seq![]
    } else {
        let before = path_sorted(paths, (n - 1) as nat);
        before.insert(path_place(before, paths, n - 1), (n - 1) as usize)
    }
}

/// The positions of the paths in order.
pub fn positions_by_path(paths: &Vec<String>) -> (r: Vec<usize>)
    ensures
        r@ == path_sorted(paths.deep_view(), paths@.len()),
        r@.len() == paths@.len(),
        forall|i: int| 0 <= i < r@.len() ==> #[trigger] r@[i] < paths@.len(),
{
    let ghost all = paths.deep_view();
    let mut order: Vec<usize> = Vec::new();
    for i in 0..paths.len()
        invariant
            all == paths.deep_view(),
            order@ == path_sorted(all, i as nat),
            order@.len() == i,
            forall|j: int| 0 <= j < order@.len() ==> #[trigger] order@[j] < i,
    {
        let ghost before = order@;
        let mut at: usize = order.len();
        assert(before.take(at as int) =~= before);
        while at > 0 && path_before(paths[i].as_str(), paths[order[at - 1]].as_str())
            invariant
                at <= order@.len(),
                i < paths@.len(),
                all == paths.deep_view(),
                before == order@,
                forall|j: int| 0 <= j < order@.len() ==> #[trigger] order@[j] < i,
                path_place(before.take(at as int), all, i as int) == path_place(
                    before,
                    all,
                    i as int,
                ),
            decreases at,
        {
            assert(before.take(at as int).last() == order@[at - 1]);
            assert(before.take(at as int).drop_last() =~= before.take(at - 1));
            assert(all[i as int] == paths@[i as int]@);
            assert(all[order@[at - 1] as int] == paths@[order@[at - 1] as int]@);
            at -= 1;
        }
        proof {
            if at > 0 {
                assert(before.take(at as int).last() == order@[at - 1]);
                assert(all[i as int] == paths@[i as int]@);
                assert(all[order@[at - 1] as int] == paths@[order@[at - 1] as int]@);
            }
            assert(path_place(before, all, i as int) == at);
        }
        order.insert(at, i);
        assert forall|j: int| 0 <= j < order@.len() implies #[trigger] order@[j] < i + 1 by {
            if j < at {
                assert(order@[j] == before[j]);
            } else if j > at {
                assert(order@[j] == before[j - 1]);
            }
        }
    }
    order
}

/// The positions are in order: no key stands before a smaller one.
pub open spec fn in_path_order(order: Seq<usize>, paths: Seq<Seq<char>>) -> bool {
    forall|i: int, j: int|
        0 <= i < j < order.len() ==> !path_order::path_lt(
            paths[#[trigger] order[j] as int],
            paths[#[trigger] order[i] as int],
        )
}

proof fn lemma_not_before(a: Seq<char>, b: Seq<char>, c: Seq<char>)
    requires
        !path_order::path_lt(b, a),
        !path_order::path_lt(c, b),
    ensures
        !path_order::path_lt(c, a),
{
    lemma_total(a, b);
    lemma_total(b, c);
    if path_order::path_lt(c, a) {
        if path_order::path_lt(a, b) {
            lemma_transitive(c, a, b);
        }
    }
}

proof fn lemma_path_place(order: Seq<usize>, paths: Seq<Seq<char>>, k: int)
    requires
        in_path_order(order, paths),
    ensures
        0 <= path_place(order, paths, k) <= order.len(),
        forall|i: int|
            0 <= i < path_place(order, paths, k) ==> !path_order::path_lt(
                paths[k],
                paths[#[trigger] order[i] as int],
            ),
        forall|i: int|
            path_place(order, paths, k) <= i < order.len() ==> path_order::path_lt(
                paths[k],
                paths[#[trigger] order[i] as int],
            ),
    decreases order.len(),
{
    if order.len() > 0 {
        let front = order.drop_last();
        if path_order::path_lt(paths[k], paths[order.last() as int]) {
            assert(in_path_order(front, paths)) by {
                assert forall|i: int, j: int| 0 <= i < j < front.len() implies !path_order::path_lt(
                    paths[#[trigger] front[j] as int],
                    paths[#[trigger] front[i] as int],
                ) by {
                    assert(!path_order::path_lt(paths[order[j] as int], paths[order[i] as int]));
                }
            }
            lemma_path_place(front, paths, k);
            assert forall|i: int| 0 <= i < path_place(order, paths, k) implies !path_order::path_lt(
                paths[k],
                paths[#[trigger] order[i] as int],
            ) by {
                assert(front[i] == order[i]);
            }
            assert forall|i: int|
                path_place(order, paths, k) <= i < order.len() implies path_order::path_lt(
                paths[k],
                paths[#[trigger] order[i] as int],
            ) by {
                if i < front.len() {
                    assert(front[i] == order[i]);
                }
            }
        } else {
            let n = order.len() - 1;
            assert forall|i: int| 0 <= i < order.len() implies !path_order::path_lt(
                paths[k],
                paths[#[trigger] order[i] as int],
            ) by {
                if i < n {
                    assert(!path_order::path_lt(paths[order[n] as int], paths[order[i] as int]));
                    lemma_not_before(
                        paths[order[i] as int],
                        paths[order[n] as int],
                        paths[k],
                    );
                }
            }
        }
    }
}

/// Sorting sorts, and it loses and repeats no position.
pub proof fn law_path_sorting_sorts(paths: Seq<Seq<char>>, n: nat)
    requires
        n <= paths.len(),
        n <= usize::MAX,
    ensures
        in_path_order(path_sorted(paths, n), paths),
        path_sorted(paths, n).len() == n,
        forall|k: usize| #[trigger] path_sorted(paths, n).contains(k) <==> k < n,
    decreases n,
{
    if n > 0 {
        let m = (n - 1) as nat;
        law_path_sorting_sorts(paths, m);
        let before = path_sorted(paths, m);
        lemma_path_place(before, paths, m as int);
        let at = path_place(before, paths, m as int);
        let after = path_sorted(paths, n);
        assert(after == before.insert(at, m as usize));
        assert forall|i: int, j: int| 0 <= i < j < after.len() implies !path_order::path_lt(
            paths[#[trigger] after[j] as int],
            paths[#[trigger] after[i] as int],
        ) by {
            if j == at {
                assert(after[i] == before[i]);
            } else if i == at {
                assert(after[j] == before[j - 1]);
                if path_order::path_lt(paths[after[j] as int], paths[m as int]) {
                    lemma_transitive(
                        paths[m as int],
                        paths[before[j - 1] as int],
                        paths[m as int],
                    );
                    lemma_irreflexive(paths[m as int]);
                }
            } else {
                let x = if i < at {
                    i
                } else {
                    i - 1
                };
                let y = if j < at {
                    j
                } else {
                    j - 1
                };
                assert(after[i] == before[x] && after[j] == before[y]);
            }
        }
        assert forall|k: usize| #[trigger] after.contains(k) <==> k < n by {
            assert(after[at] == m as usize);
            if k < m {
                assert(before.contains(k));
                let p = before.index_of(k);
                if p < at {
                    assert(after[p] == k);
                } else {
                    assert(after[p + 1] == k);
                }
            }
            if after.contains(k) {
                let p = after.index_of(k);
                if p < at {
                    assert(before[p] == k);
                    assert(before.contains(k));
                } else if p > at {
                    assert(before[p - 1] == k);
                    assert(before.contains(k));
                }
            }
        }
    }
}

/// The paths in component order.
pub open spec fn sorted_paths(paths: Seq<Seq<char>>) -> Seq<Seq<char>> {
    path_sorted(paths, paths.len()).map_values(|k: usize| paths[k as int])
}

/// Sorts paths.
pub fn sort_paths(paths: &Vec<String>) -> (r: Vec<String>)
    ensures
        r.deep_view() == sorted_paths(paths.deep_view()),
{
    let order = positions_by_path(paths);
    let mut r: Vec<String> = Vec::new();
    for i in 0..order.len()
        invariant
            forall|j: int| 0 <= j < order@.len() ==> #[trigger] order@[j] < paths@.len(),
            r@.len() == i,
            forall|j: int| 0 <= j < i ==> (#[trigger] r@[j])@ == paths@[order@[j] as int]@,
    {
        r.push(paths[order[i]].clone());
    }
    assert(r.deep_view() =~= sorted_paths(paths.deep_view()));
    r
}

/// Sorted paths are the paths that were there, as many as there were, and no path stands
/// before one that comes before it.
pub proof fn law_sorted_paths_are_the_paths(paths: Seq<Seq<char>>, path: Seq<char>)
    requires
        paths.len() <= usize::MAX,
    ensures
        sorted_paths(paths).contains(path) <==> paths.contains(path),
        sorted_paths(paths).len() == paths.len(),
        forall|i: int, j: int|
            0 <= i < j < paths.len() ==> !path_order::path_lt(
                #[trigger] sorted_paths(paths)[j],
                #[trigger] sorted_paths(paths)[i],
            ),
{
    law_path_sorting_sorts(paths, paths.len());
    let order = path_sorted(paths, paths.len());
    let sorted = sorted_paths(paths);
    if sorted.contains(path) {
        let k = sorted.index_of(path);
        assert(order.contains(order[k]));
        assert(paths[order[k] as int] == path);
    }
    if paths.contains(path) {
        let p = paths.index_of(path);
        assert(order.contains(p as usize));
        let k = order.index_of(p as usize);
        assert(sorted[k] == path);
    }
    assert forall|i: int, j: int| 0 <= i < j < paths.len() implies !path_order::path_lt(
        #[trigger] sorted[j],
        #[trigger] sorted[i],
    ) by {
        assert(sorted[i] == paths[order[i] as int] && sorted[j] == paths[order[j] as int]);
    }
}

} // verus!
