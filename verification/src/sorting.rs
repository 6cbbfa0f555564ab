//! Stable sorting by text.

use vstd::prelude::*;

use crate::ordered;
use crate::text;

verus! {

/// How many of the ordered positions stay before position `k`: those up to the last
/// whose key is not greater.
pub open spec fn order_place(order: Seq<usize>, keys: Seq<Seq<char>>, k: int) -> int
    decreases order.len(),
{
    if order.len() == 0 || !text::seq_lt(keys[k], keys[order.last() as int]) {
        order.len() as int
    } else {
        order_place(order.drop_last(), keys, k)
    }
}

/// The positions of the first `n` keys in the order of the keys; equal keys keep their
/// order.
pub open spec fn stable_order(keys: Seq<Seq<char>>, n: nat) -> Seq<usize>
    decreases n,
{
    if n == 0 {
        seq![]
    } else {
        let before = stable_order(keys, (n - 1) as nat);
        before.insert(order_place(before, keys, n - 1), (n - 1) as usize)
    }
}

/// The positions of the keys in order.
pub fn sorted_positions(keys: &Vec<String>) -> (r: Vec<usize>)
    ensures
        r@ == stable_order(keys.deep_view(), keys@.len()),
        r@.len() == keys@.len(),
        forall|i: int| 0 <= i < r@.len() ==> #[trigger] r@[i] < keys@.len(),
{
    let ghost all = keys.deep_view();
    let mut order: Vec<usize> = Vec::new();
    for i in 0..keys.len()
        invariant
            all == keys.deep_view(),
            order@ == stable_order(all, i as nat),
            order@.len() == i,
            forall|j: int| 0 <= j < order@.len() ==> #[trigger] order@[j] < i,
    {
        let ghost before = order@;
        let mut at: usize = order.len();
        assert(before.take(at as int) =~= before);
        while at > 0 && text::lt(keys[i].as_str(), keys[order[at - 1]].as_str())
            invariant
                at <= order@.len(),
                i < keys@.len(),
                all == keys.deep_view(),
                before == order@,
                forall|j: int| 0 <= j < order@.len() ==> #[trigger] order@[j] < i,
                order_place(before.take(at as int), all, i as int) == order_place(
                    before,
                    all,
                    i as int,
                ),
            decreases at,
        {
            assert(before.take(at as int).last() == order@[at - 1]);
            assert(before.take(at as int).drop_last() =~= before.take(at - 1));
            assert(all[i as int] == keys@[i as int]@);
            assert(all[order@[at - 1] as int] == keys@[order@[at - 1] as int]@);
            at -= 1;
        }
        proof {
            if at > 0 {
                assert(before.take(at as int).last() == order@[at - 1]);
                assert(all[i as int] == keys@[i as int]@);
                assert(all[order@[at - 1] as int] == keys@[order@[at - 1] as int]@);
            }
            assert(order_place(before, all, i as int) == at);
        }
        order.insert(at, i);
        assert forall|j: int| 0 <= j < order@.len() implies #[trigger] order@[j] < i + 1 by {
            if j < at {
                assert(order@[j] == before[j]);
            } else if j > at {
                assert(order@[j] == before[j - 1]);
            }
        }
    }
    order
}

/// The positions are in order: no key stands before a smaller one.
pub open spec fn in_order(order: Seq<usize>, keys: Seq<Seq<char>>) -> bool {
    forall|i: int, j: int|
        0 <= i < j < order.len() ==> !text::seq_lt(
            keys[#[trigger] order[j] as int],
            keys[#[trigger] order[i] as int],
        )
}

proof fn lemma_not_lt_transitive(a: Seq<char>, b: Seq<char>, c: Seq<char>)
    requires
        !text::seq_lt(b, a),
        !text::seq_lt(c, b),
    ensures
        !text::seq_lt(c, a),
{
    text::lemma_lt_total(a, b);
    text::lemma_lt_total(b, c);
    if text::seq_lt(c, a) {
        if text::seq_lt(a, b) {
            text::lemma_lt_transitive(c, a, b);
        }
    }
}

proof fn lemma_order_place(order: Seq<usize>, keys: Seq<Seq<char>>, k: int)
    requires
        in_order(order, keys),
    ensures
        0 <= order_place(order, keys, k) <= order.len(),
        forall|i: int|
            0 <= i < order_place(order, keys, k) ==> !text::seq_lt(
                keys[k],
                keys[#[trigger] order[i] as int],
            ),
        forall|i: int|
            order_place(order, keys, k) <= i < order.len() ==> text::seq_lt(
                keys[k],
                keys[#[trigger] order[i] as int],
            ),
    decreases order.len(),
{
    if order.len() > 0 {
        let front = order.drop_last();
        if text::seq_lt(keys[k], keys[order.last() as int]) {
            assert(in_order(front, keys)) by {
                assert forall|i: int, j: int| 0 <= i < j < front.len() implies !text::seq_lt(
                    keys[#[trigger] front[j] as int],
                    keys[#[trigger] front[i] as int],
                ) by {
                    assert(!text::seq_lt(keys[order[j] as int], keys[order[i] as int]));
                }
            }
            lemma_order_place(front, keys, k);
            assert forall|i: int| 0 <= i < order_place(order, keys, k) implies !text::seq_lt(
                keys[k],
                keys[#[trigger] order[i] as int],
            ) by {
                assert(front[i] == order[i]);
            }
            assert forall|i: int|
                order_place(order, keys, k) <= i < order.len() implies text::seq_lt(
                keys[k],
                keys[#[trigger] order[i] as int],
            ) by {
                if i < front.len() {
                    assert(front[i] == order[i]);
                }
            }
        } else {
            let n = order.len() - 1;
            assert forall|i: int| 0 <= i < order.len() implies !text::seq_lt(
                keys[k],
                keys[#[trigger] order[i] as int],
            ) by {
                if i < n {
                    assert(!text::seq_lt(keys[order[n] as int], keys[order[i] as int]));
                    lemma_not_lt_transitive(
                        keys[order[i] as int],
                        keys[order[n] as int],
                        keys[k],
                    );
                }
            }
        }
    }
}

proof fn lemma_order_place_fits(order: Seq<usize>, keys: Seq<Seq<char>>, k: int)
    ensures
        0 <= order_place(order, keys, k) <= order.len(),
    decreases order.len(),
{
    if order.len() > 0 {
        lemma_order_place_fits(order.drop_last(), keys, k);
    }
}

/// Sorting keeps the number of positions.
pub proof fn lemma_stable_order_len(keys: Seq<Seq<char>>, n: nat)
    ensures
        stable_order(keys, n).len() == n,
    decreases n,
{
    if n > 0 {
        lemma_stable_order_len(keys, (n - 1) as nat);
        lemma_order_place_fits(stable_order(keys, (n - 1) as nat), keys, n - 1);
    }
}

/// Sorting sorts, and it loses and repeats no position.
pub proof fn law_stable_order_sorts(keys: Seq<Seq<char>>, n: nat)
    requires
        n <= keys.len(),
        n <= usize::MAX,
    ensures
        in_order(stable_order(keys, n), keys),
        stable_order(keys, n).len() == n,
        forall|k: usize| #[trigger] stable_order(keys, n).contains(k) <==> k < n,
    decreases n,
{
    if n > 0 {
        let m = (n - 1) as nat;
        law_stable_order_sorts(keys, m);
        let before = stable_order(keys, m);
        lemma_order_place(before, keys, m as int);
        let at = order_place(before, keys, m as int);
        let after = stable_order(keys, n);
        assert(after == before.insert(at, m as usize));
        assert forall|i: int, j: int| 0 <= i < j < after.len() implies !text::seq_lt(
            keys[#[trigger] after[j] as int],
            keys[#[trigger] after[i] as int],
        ) by {
            if j == at {
                assert(after[i] == before[i]);
            } else if i == at {
                assert(after[j] == before[j - 1]);
                if text::seq_lt(keys[after[j] as int], keys[m as int]) {
                    text::lemma_lt_transitive(
                        keys[m as int],
                        keys[before[j - 1] as int],
                        keys[m as int],
                    );
                    text::lemma_lt_irreflexive(keys[m as int]);
                }
            } else {
                let x = if i < at {
                    i
                } else {
                    i - 1
                };
                let y = if j < at {
                    j
                } else {
                    j - 1
                };
                assert(after[i] == before[x] && after[j] == before[y]);
            }
        }
        assert forall|k: usize| #[trigger] after.contains(k) <==> k < n by {
            assert(after[at] == m as usize);
            if k < m {
                assert(before.contains(k));
                let p = before.index_of(k);
                if p < at {
                    assert(after[p] == k);
                } else {
                    assert(after[p + 1] == k);
                }
            }
            if after.contains(k) {
                let p = after.index_of(k);
                if p < at {
                    assert(before[p] == k);
                    assert(before.contains(k));
                } else if p > at {
                    assert(before[p - 1] == k);
                    assert(before.contains(k));
                }
            }
        }
    }
}

/// The members of a finite set of texts, in ascending order.
pub open spec fn listed(set: Set<Seq<char>>) -> Seq<Seq<char>> {
    choose|list: Seq<Seq<char>>|
        ordered::ascending(list) && forall|text: Seq<char>| #[trigger]
            list.contains(text) <==> set.contains(text)
}

/// The keys of a map are its domain, listed.
pub proof fn lemma_listed<V>(listing: Seq<(String, V)>)
    requires
        ordered::ascending(ordered::keys_of(listing)),
    ensures
        ordered::keys_of(listing) == listed(ordered::map_of(listing).dom()),
{
    let keys = ordered::keys_of(listing);
    let set = ordered::map_of(listing).dom();
    assert(ordered::ascending(keys) && forall|text: Seq<char>| #[trigger]
        keys.contains(text) <==> set.contains(text));
    let list = listed(set);
    assert(ordered::ascending(list) && forall|text: Seq<char>| #[trigger]
        list.contains(text) <==> set.contains(text));
    ordered::lemma_ascending_unique(keys, list);
}

/// Where a text belongs in an ascending list.
spec fn text_place(list: Seq<Seq<char>>, a: Seq<char>) -> int
    decreases list.len(),
{
    if list.len() == 0 || text::seq_lt(list.last(), a) {
        list.len() as int
    } else {
        text_place(list.drop_last(), a)
    }
}

proof fn lemma_text_place(list: Seq<Seq<char>>, a: Seq<char>)
    requires
        ordered::ascending(list),
        !list.contains(a),
    ensures
        0 <= text_place(list, a) <= list.len(),
        forall|i: int|
            0 <= i < text_place(list, a) ==> text::seq_lt(#[trigger] list[i], a),
        forall|i: int|
            text_place(list, a) <= i < list.len() ==> text::seq_lt(a, #[trigger] list[i]),
    decreases list.len(),
{
    if list.len() > 0 {
        let n = list.len() - 1;
        let front = list.drop_last();
        if text::seq_lt(list.last(), a) {
            assert forall|i: int| 0 <= i < list.len() implies text::seq_lt(#[trigger] list[i], a) by {
                if i < n {
                    assert(text::seq_lt(list[i], list[n]));
                    text::lemma_lt_transitive(list[i], list[n], a);
                }
            }
        } else {
            assert(list[n] != a) by {
                assert(list.contains(list[n]));
            }
            text::lemma_lt_total(list[n], a);
            assert(ordered::ascending(front)) by {
                assert forall|i: int, j: int| 0 <= i < j < front.len() implies #[trigger]
                    text::seq_lt(front[i], front[j]) by {
                    assert(text::seq_lt(list[i], list[j]));
                }
            }
            assert(!front.contains(a)) by {
                if front.contains(a) {
                    assert(list[front.index_of(a)] == a);
                }
            }
            lemma_text_place(front, a);
            assert forall|i: int| 0 <= i < text_place(list, a) implies text::seq_lt(
                #[trigger] list[i],
                a,
            ) by {
                assert(front[i] == list[i]);
            }
            assert forall|i: int| text_place(list, a) <= i < list.len() implies text::seq_lt(
                a,
                #[trigger] list[i],
            ) by {
                if i < n {
                    assert(front[i] == list[i]);
                }
            }
        }
    }
}

/// Every finite set of texts can be listed.
pub proof fn lemma_listed_set(set: Set<Seq<char>>)
    requires
        set.finite(),
    ensures
        ordered::ascending(listed(set)),
        forall|text: Seq<char>| #[trigger] listed(set).contains(text) <==> set.contains(text),
    decreases set.len(),
{
    if set.is_empty() {
        let none: Seq<Seq<char>> = seq![];
        assert(ordered::ascending(none) && forall|text: Seq<char>| #[trigger]
            none.contains(text) <==> set.contains(text));
    } else {
        let a = set.choose();
        let rest = set.remove(a);
        lemma_listed_set(rest);
        let list = listed(rest);
        assert(!list.contains(a));
        lemma_text_place(list, a);
        let at = text_place(list, a);
        let whole = list.insert(at, a);
        assert forall|i: int, j: int| 0 <= i < j < whole.len() implies #[trigger] text::seq_lt(
            whole[i],
            whole[j],
        ) by {
            let x = if i < at {
                i
            } else {
                i - 1
            };
            let y = if j < at {
                j
            } else {
                j - 1
            };
            if i == at {
                assert(whole[j] == list[y]);
            } else if j == at {
                assert(whole[i] == list[x]);
            } else {
                assert(whole[i] == list[x] && whole[j] == list[y]);
                assert(text::seq_lt(list[x], list[y]));
            }
        }
        assert forall|text: Seq<char>| #[trigger] whole.contains(text) <==> set.contains(text) by {
            assert(whole[at] == a);
            if list.contains(text) {
                let p = list.index_of(text);
                if p < at {
                    assert(whole[p] == text);
                } else {
                    assert(whole[p + 1] == text);
                }
            }
            if whole.contains(text) {
                let p = whole.index_of(text);
                if p < at {
                    assert(list[p] == text);
                    assert(list.contains(text));
                } else if p > at {
                    assert(list[p - 1] == text);
                    assert(list.contains(text));
                }
            }
            assert(rest.contains(text) <==> set.contains(text) && text != a);
        }
        assert(ordered::ascending(whole) && forall|text: Seq<char>| #[trigger]
            whole.contains(text) <==> set.contains(text));
    }
}

/// The texts in order.
pub open spec fn sorted_texts(texts: Seq<Seq<char>>) -> Seq<Seq<char>> {
    stable_order(texts, texts.len()).map_values(|k: usize| texts[k as int])
}

/// Sorts texts.
pub fn sort_texts(texts: &Vec<String>) -> (r: Vec<String>)
    ensures
        r.deep_view() == sorted_texts(texts.deep_view()),
{
    let order = sorted_positions(texts);
    let mut r: Vec<String> = Vec::new();
    for i in 0..order.len()
        invariant
            forall|j: int| 0 <= j < order@.len() ==> #[trigger] order@[j] < texts@.len(),
            r@.len() == i,
            forall|j: int| 0 <= j < i ==> (#[trigger] r@[j])@ == texts@[order@[j] as int]@,
    {
        r.push(texts[order[i]].clone());
    }
    assert(r.deep_view() =~= sorted_texts(texts.deep_view()));
    r
}

/// How many of the ordered positions stay before position `k`: those up to the last
/// with no smaller number.
pub open spec fn rank_place(order: Seq<usize>, numbers: Seq<usize>, k: int) -> int
    decreases order.len(),
{
    if order.len() == 0 || !(numbers[k] > numbers[order.last() as int]) {
        order.len() as int
    } else {
        rank_place(order.drop_last(), numbers, k)
    }
}

/// The positions of the first `n` numbers from the greatest to the smallest; equal
/// numbers keep their order.
pub open spec fn descending_order(numbers: Seq<usize>, n: nat) -> Seq<usize>
    decreases n,
{
    if n == 0 {
        seq![]
    } else {
        let before = descending_order(numbers, (n - 1) as nat);
        before.insert(rank_place(before, numbers, n - 1), (n - 1) as usize)
    }
}

/// The positions of the numbers from the greatest to the smallest.
pub fn descending_positions(numbers: &Vec<usize>) -> (r: Vec<usize>)
    ensures
        r@ == descending_order(numbers@, numbers@.len()),
        r@.len() == numbers@.len(),
        forall|i: int| 0 <= i < r@.len() ==> #[trigger] r@[i] < numbers@.len(),
{
    let mut order: Vec<usize> = Vec::new();
    for i in 0..numbers.len()
        invariant
            order@ == descending_order(numbers@, i as nat),
            order@.len() == i,
            forall|j: int| 0 <= j < order@.len() ==> #[trigger] order@[j] < i,
    {
        let ghost before = order@;
        let mut at: usize = order.len();
        assert(before.take(at as int) =~= before);
        while at > 0 && numbers[i] > numbers[order[at - 1]]
            invariant
                at <= order@.len(),
                i < numbers@.len(),
                before == order@,
                forall|j: int| 0 <= j < order@.len() ==> #[trigger] order@[j] < i,
                rank_place(before.take(at as int), numbers@, i as int) == rank_place(
                    before,
                    numbers@,
                    i as int,
                ),
            decreases at,
        {
            assert(before.take(at as int).last() == order@[at - 1]);
            assert(before.take(at as int).drop_last() =~= before.take(at - 1));
            at -= 1;
        }
        proof {
            if at > 0 {
                assert(before.take(at as int).last() == order@[at - 1]);
            }
            assert(rank_place(before, numbers@, i as int) == at);
        }
        order.insert(at, i);
        assert forall|j: int| 0 <= j < order@.len() implies #[trigger] order@[j] < i + 1 by {
            if j < at {
                assert(order@[j] == before[j]);
            } else if j > at {
                assert(order@[j] == before[j - 1]);
            }
        }
    }
    order
}

/// Texts, one after the other, with a separator between them.
pub open spec fn joined(texts: Seq<Seq<char>>, separator: Seq<char>) -> Seq<char>
    decreases texts.len(),
{
    if texts.len() == 0 {
        seq![]
    } else if texts.len() == 1 {
        texts[0]
    } else {
        joined(texts.drop_last(), separator) + separator + texts.last()
    }
}

/// Joins texts with a separator.
pub fn join(texts: &Vec<String>, separator: &str) -> (r: String)
    ensures
        r@ == joined(texts.deep_view(), separator@),
{
    let ghost all = texts.deep_view();
    let mut r = String::new();
    assert(r@ =~= joined(all.take(0), separator@));
    for i in 0..texts.len()
        invariant
            all == texts.deep_view(),
            r@ == joined(all.take(i as int), separator@),
    {
        let ghost next = all.take(i + 1);
        assert(next.drop_last() =~= all.take(i as int));
        assert(next.last() == texts@[i as int]@);
        if i > 0 {
            r.append(separator);
        }
        r.append(texts[i].as_str());
        assert(r@ =~= joined(next, separator@));
    }
    assert(all.take(all.len() as int) =~= all);
    r
}

/// Sorting is stable: every position stands once, and of two equal keys the earlier one
/// stands first.
pub proof fn law_stable_order_is_stable(keys: Seq<Seq<char>>, n: nat)
    requires
        n <= keys.len(),
        n <= usize::MAX,
    ensures
        stable_order(keys, n).no_duplicates(),
        forall|i: int, j: int|
            0 <= i < j < n && keys[#[trigger] stable_order(keys, n)[i] as int]
                == keys[#[trigger] stable_order(keys, n)[j] as int] ==> stable_order(keys, n)[i]
                < stable_order(keys, n)[j],
    decreases n,
{
    law_stable_order_sorts(keys, n);
    if n > 0 {
        let m = (n - 1) as nat;
        law_stable_order_is_stable(keys, m);
        law_stable_order_sorts(keys, m);
        let before = stable_order(keys, m);
        lemma_order_place(before, keys, m as int);
        let at = order_place(before, keys, m as int);
        let after = stable_order(keys, n);
        assert(after == before.insert(at, m as usize));
        assert forall|p: int| 0 <= p < before.len() implies (#[trigger] before[p]) < m by {
            assert(before.contains(before[p]));
        }
        assert forall|i: int, j: int| 0 <= i < j < after.len() implies after[i] != after[j] && (
        keys[#[trigger] after[i] as int] == keys[#[trigger] after[j] as int] ==> after[i]
            < after[j]) by {
            if j == at {
                assert(after[i] == before[i]);
            } else if i == at {
                assert(after[j] == before[j - 1]);
                assert(text::seq_lt(keys[m as int], keys[before[j - 1] as int]));
                text::lemma_lt_irreflexive(keys[m as int]);
            } else {
                let x = if i < at {
                    i
                } else {
                    i - 1
                };
                let y = if j < at {
                    j
                } else {
                    j - 1
                };
                assert(after[i] == before[x] && after[j] == before[y]);
                assert(before[x] != before[y]);
            }
        }
        assert forall|i: int, j: int| 0 <= i < after.len() && 0 <= j < after.len() && i
            != j implies after[i] != after[j] by {
            if i < j {
                assert(after[i] != after[j]);
            } else {
                assert(after[j] != after[i]);
            }
        }
    }
}

proof fn lemma_rank_place(order: Seq<usize>, numbers: Seq<usize>, k: int)
    requires
        forall|i: int, j: int|
            0 <= i < j < order.len() ==> numbers[#[trigger] order[i] as int]
                >= numbers[#[trigger] order[j] as int],
    ensures
        0 <= rank_place(order, numbers, k) <= order.len(),
        forall|i: int|
            0 <= i < rank_place(order, numbers, k) ==> numbers[#[trigger] order[i] as int]
                >= numbers[k],
        forall|i: int|
            rank_place(order, numbers, k) <= i < order.len() ==> numbers[#[trigger] order[i] as int]
                < numbers[k],
    decreases order.len(),
{
    if order.len() > 0 {
        let n = order.len() - 1;
        let front = order.drop_last();
        if numbers[k] > numbers[order.last() as int] {
            assert forall|i: int, j: int| 0 <= i < j < front.len() implies numbers[
            #[trigger] front[i] as int] >= numbers[#[trigger] front[j] as int] by {
                assert(numbers[order[i] as int] >= numbers[order[j] as int]);
            }
            lemma_rank_place(front, numbers, k);
            assert forall|i: int| 0 <= i < rank_place(order, numbers, k) implies numbers[
            #[trigger] order[i] as int] >= numbers[k] by {
                assert(front[i] == order[i]);
            }
            assert forall|i: int| rank_place(order, numbers, k) <= i < order.len() implies numbers[
            #[trigger] order[i] as int] < numbers[k] by {
                if i < n {
                    assert(front[i] == order[i]);
                }
            }
        } else {
            assert forall|i: int| 0 <= i < order.len() implies numbers[#[trigger] order[i] as int]
                >= numbers[k] by {
                if i < n {
                    assert(numbers[order[i] as int] >= numbers[order[n] as int]);
                }
            }
        }
    }
}

/// Ranking ranks: the numbers come from the greatest to the smallest, equal ones in their
/// order, and every position stands once.
pub proof fn law_descending_order_ranks(numbers: Seq<usize>, n: nat)
    requires
        n <= numbers.len(),
        n <= usize::MAX,
    ensures
        descending_order(numbers, n).len() == n,
        forall|k: usize| #[trigger] descending_order(numbers, n).contains(k) <==> k < n,
        forall|i: int, j: int|
            0 <= i < j < n ==> numbers[#[trigger] descending_order(numbers, n)[i] as int]
                >= numbers[#[trigger] descending_order(numbers, n)[j] as int] && (
            numbers[descending_order(numbers, n)[i] as int]
                == numbers[descending_order(numbers, n)[j] as int] ==> descending_order(
                numbers,
                n,
            )[i] < descending_order(numbers, n)[j]),
    decreases n,
{
    if n > 0 {
        let m = (n - 1) as nat;
        law_descending_order_ranks(numbers, m);
        let before = descending_order(numbers, m);
        lemma_rank_place(before, numbers, m as int);
        let at = rank_place(before, numbers, m as int);
        let after = descending_order(numbers, n);
        assert(after == before.insert(at, m as usize));
        assert forall|p: int| 0 <= p < before.len() implies (#[trigger] before[p]) < m by {
            assert(before.contains(before[p]));
        }
        assert forall|i: int, j: int| 0 <= i < j < after.len() implies numbers[
        #[trigger] after[i] as int] >= numbers[#[trigger] after[j] as int] && (
        numbers[after[i] as int] == numbers[after[j] as int] ==> after[i] < after[j]) by {
            if j == at {
                assert(after[i] == before[i]);
            } else if i == at {
                assert(after[j] == before[j - 1]);
            } else {
                let x = if i < at {
                    i
                } else {
                    i - 1
                };
                let y = if j < at {
                    j
                } else {
                    j - 1
                };
                assert(after[i] == before[x] && after[j] == before[y]);
                assert(numbers[before[x] as int] >= numbers[before[y] as int]);
            }
        }
        assert forall|k: usize| #[trigger] after.contains(k) <==> k < n by {
            assert(after[at] == m as usize);
            if k < m {
                assert(before.contains(k));
                let p = before.index_of(k);
                if p < at {
                    assert(after[p] == k);
                } else {
                    assert(after[p + 1] == k);
                }
            }
            if after.contains(k) {
                let p = after.index_of(k);
                if p < at {
                    assert(before[p] == k);
                    assert(before.contains(k));
                } else if p > at {
                    assert(before[p - 1] == k);
                    assert(before.contains(k));
                }
            }
        }
    }
}

/// Sorted texts are the texts that were there, as many as there were, in order.
pub proof fn law_sorted_texts_are_the_texts(texts: Seq<Seq<char>>, text: Seq<char>)
    requires
        texts.len() <= usize::MAX,
    ensures
        sorted_texts(texts).contains(text) <==> texts.contains(text),
        sorted_texts(texts).len() == texts.len(),
        forall|i: int, j: int|
            0 <= i < j < texts.len() ==> !text::seq_lt(
                #[trigger] sorted_texts(texts)[j],
                #[trigger] sorted_texts(texts)[i],
            ),
{
    law_stable_order_sorts(texts, texts.len());
    let order = stable_order(texts, texts.len());
    let sorted = sorted_texts(texts);
    if sorted.contains(text) {
        let k = sorted.index_of(text);
        assert(order.contains(order[k]));
        assert(texts[order[k] as int] == text);
    }
    if texts.contains(text) {
        let p = texts.index_of(text);
        assert(order.contains(p as usize));
        let k = order.index_of(p as usize);
        assert(sorted[k] == text);
    }
    assert forall|i: int, j: int| 0 <= i < j < texts.len() implies !text::seq_lt(
        #[trigger] sorted[j],
        #[trigger] sorted[i],
    ) by {
        assert(sorted[i] == texts[order[i] as int] && sorted[j] == texts[order[j] as int]);
    }
}

/// One text is joined to itself, and each further one stands behind the earlier ones and one
/// separator: there is none at either end.
pub proof fn law_separators_stand_between_texts(
    texts: Seq<Seq<char>>,
    text: Seq<char>,
    separator: Seq<char>,
)
    ensures
        joined(Seq::empty(), separator) == Seq::<char>::empty(),
        joined(seq![text], separator) == text,
        texts.len() > 0 ==> joined(texts.push(text), separator) == joined(texts, separator)
            + separator + text,
{
    assert(seq![text][0] == text);
    assert(texts.push(text).drop_last() =~= texts);
    assert(texts.push(text).last() == text);
}

} // verus!
