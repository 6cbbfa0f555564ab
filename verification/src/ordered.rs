//! A map keyed by strings, listed in ascending key order.

use vstd::prelude::*;

use crate::text;

verus! {

/// The keys of a listing, in order.
pub open spec fn keys_of<V>(listing: Seq<(String, V)>) -> Seq<Seq<char>> {
    listing.map_values(|entry: (String, V)| entry.0@)
}

/// Each key is smaller than every later key.
pub open spec fn ascending(keys: Seq<Seq<char>>) -> bool {
    forall|i: int, j: int| 0 <= i < j < keys.len() ==> #[trigger] text::seq_lt(keys[i], keys[j])
}

/// The map that a listing stands for.
pub open spec fn map_of<V>(listing: Seq<(String, V)>) -> Map<Seq<char>, V> {
    Map::new(
        |k: Seq<char>| keys_of(listing).contains(k),
        |k: Seq<char>| listing[keys_of(listing).index_of(k)].1,
    )
}

pub proof fn lemma_ascending_distinct(keys: Seq<Seq<char>>, i: int, j: int)
    requires
        ascending(keys),
        0 <= i < keys.len(),
        0 <= j < keys.len(),
        keys[i] == keys[j],
    ensures
        i == j,
{
    if i < j {
        assert(text::seq_lt(keys[i], keys[j]));
        text::lemma_lt_irreflexive(keys[i]);
    } else if j < i {
        assert(text::seq_lt(keys[j], keys[i]));
        text::lemma_lt_irreflexive(keys[i]);
    }
}

/// The entry at position `i` is what the map holds under its key.
pub proof fn lemma_entry<V>(listing: Seq<(String, V)>, i: int)
    requires
        ascending(keys_of(listing)),
        0 <= i < listing.len(),
    ensures
        map_of(listing).dom().contains(listing[i].0@),
        map_of(listing)[listing[i].0@] == listing[i].1,
{
    let keys = keys_of(listing);
    assert(keys[i] == listing[i].0@);
    assert(keys.contains(keys[i]));
    lemma_ascending_distinct(keys, i, keys.index_of(keys[i]));
}

/// An ascending listing has as many entries as its map has keys.
pub proof fn lemma_len<V>(listing: Seq<(String, V)>)
    requires
        ascending(keys_of(listing)),
    ensures
        map_of(listing).dom().finite(),
        map_of(listing).dom().len() == listing.len(),
{
    let keys = keys_of(listing);
    assert(keys.no_duplicates()) by {
        assert forall|i: int, j: int| 0 <= i < keys.len() && 0 <= j < keys.len() && i != j implies keys[i]
            != keys[j] by {
            if keys[i] == keys[j] {
                lemma_ascending_distinct(keys, i, j);
            }
        }
    }
    keys.unique_seq_to_set();
    assert(keys.to_set() =~= map_of(listing).dom());
    vstd::seq_lib::seq_to_set_is_finite(keys);
}

/// Two ascending key sequences with the same members are equal.
pub proof fn lemma_ascending_unique(a: Seq<Seq<char>>, b: Seq<Seq<char>>)
    requires
        ascending(a),
        ascending(b),
        forall|k: Seq<char>| a.contains(k) <==> b.contains(k),
    ensures
        a == b,
    decreases a.len(),
{
    if a.len() == 0 {
        if b.len() > 0 {
            assert(b.contains(b[0]));
            assert(a.contains(b[0]));
        }
        assert(a =~= b);
    } else {
        assert(a.contains(a[0]));
        assert(b.contains(a[0]));
        let j = b.index_of(a[0]);
        assert(b.contains(b[0]));
        assert(a.contains(b[0]));
        let i = a.index_of(b[0]);
        if j > 0 {
            assert(text::seq_lt(b[0], b[j]));
            if i > 0 {
                assert(text::seq_lt(a[0], a[i]));
                text::lemma_lt_transitive(a[0], a[i], a[0]);
                text::lemma_lt_irreflexive(a[0]);
            } else {
                text::lemma_lt_irreflexive(a[0]);
            }
        }
        let x = a.skip(1);
        let y = b.skip(1);
        assert(ascending(x)) by {
            assert forall|p: int, q: int| 0 <= p < q < x.len() implies #[trigger] text::seq_lt(
                x[p],
                x[q],
            ) by {
                assert(text::seq_lt(a[p + 1], a[q + 1]));
            }
        }
        assert(ascending(y)) by {
            assert forall|p: int, q: int| 0 <= p < q < y.len() implies #[trigger] text::seq_lt(
                y[p],
                y[q],
            ) by {
                assert(text::seq_lt(b[p + 1], b[q + 1]));
            }
        }
        assert forall|k: Seq<char>| x.contains(k) <==> y.contains(k) by {
            if x.contains(k) {
                let p = x.index_of(k);
                assert(a[p + 1] == k);
                assert(a.contains(k));
                assert(b.contains(k));
                let q = b.index_of(k);
                if q == 0 {
                    lemma_ascending_distinct(a, 0, p + 1);
                }
                assert(y[q - 1] == k);
            }
            if y.contains(k) {
                let q = y.index_of(k);
                assert(b[q + 1] == k);
                assert(b.contains(k));
                assert(a.contains(k));
                let p = a.index_of(k);
                if p == 0 {
                    lemma_ascending_distinct(b, 0, q + 1);
                }
                assert(x[p - 1] == k);
            }
        }
        lemma_ascending_unique(x, y);
        assert(a =~= seq![a[0]] + x);
        assert(b =~= seq![b[0]] + y);
    }
}

/// A map from strings to values, listed in ascending key order.
#[derive(Debug)]
pub struct StringMap<V> {
    entries: Vec<(String, V)>,
}

impl<V> View for StringMap<V> {
    type V = Map<Seq<char>, V>;

    open spec fn view(&self) -> Map<Seq<char>, V> {
        map_of(self.listing())
    }
}

impl<V> StringMap<V> {
    /// The entries, in ascending key order.
    pub closed spec fn listing(&self) -> Seq<(String, V)> {
        self.entries@
    }

    #[verifier::type_invariant]
    spec fn keys_ascend(&self) -> bool {
        ascending(keys_of(self.entries@))
    }

    pub fn new() -> (map: Self)
        ensures
            map@ == Map::<Seq<char>, V>::empty(),
            map.listing() == Seq::<(String, V)>::empty(),
    {
        let map = StringMap { entries: Vec::new() };
        assert(map@ =~= Map::<Seq<char>, V>::empty());
        map
    }

    pub fn len(&self) -> (n: usize)
        ensures
            n == self.listing().len(),
    {
        self.entries.len()
    }

    /// The entries, in ascending key order.
    pub fn entries(&self) -> (entries: &Vec<(String, V)>)
        ensures
            entries@ == self.listing(),
            ascending(keys_of(entries@)),
    {
        proof {
            use_type_invariant(self);
        }
        &self.entries
    }

    /// The entries, in ascending key order.
    pub fn into_entries(self) -> (entries: Vec<(String, V)>)
        ensures
            entries@ == self.listing(),
            ascending(keys_of(entries@)),
    {
        proof {
            use_type_invariant(&self);
        }
        self.entries
    }

    /// The first position whose key is not smaller than `key`.
    fn position(&self, key: &str) -> (i: usize)
        ensures
            i <= self.entries@.len(),
            forall|j: int| 0 <= j < i ==> text::seq_lt(#[trigger] self.entries@[j].0@, key@),
            i < self.entries@.len() ==> !text::seq_lt(self.entries@[i as int].0@, key@),
    {
        proof {
            use_type_invariant(self);
        }
        let ghost keys = keys_of(self.entries@);
        let mut low: usize = 0;
        let mut high: usize = self.entries.len();
        while low < high
            invariant
                low <= high <= self.entries@.len(),
                keys == keys_of(self.entries@),
                ascending(keys),
                forall|j: int| 0 <= j < low ==> text::seq_lt(#[trigger] keys[j], key@),
                high < keys.len() ==> !text::seq_lt(keys[high as int], key@),
            decreases high - low,
        {
            let middle: usize = low + (high - low) / 2;
            assert(keys[middle as int] == self.entries@[middle as int].0@);
            if text::lt(self.entries[middle].0.as_str(), key) {
                assert forall|j: int| 0 <= j < middle + 1 implies text::seq_lt(
                    #[trigger] keys[j],
                    key@,
                ) by {
                    if j < middle {
                        assert(text::seq_lt(keys[j], keys[middle as int]));
                        text::lemma_lt_transitive(keys[j], keys[middle as int], key@);
                    }
                }
                low = middle + 1;
            } else {
                high = middle;
            }
        }
        assert forall|j: int| 0 <= j < low implies text::seq_lt(
            #[trigger] self.entries@[j].0@,
            key@,
        ) by {
            assert(text::seq_lt(keys[j], key@));
        }
        low
    }

    proof fn lemma_position(&self, key: Seq<char>, i: int)
        requires
            ascending(keys_of(self.entries@)),
            0 <= i <= self.entries@.len(),
            forall|j: int| 0 <= j < i ==> text::seq_lt(#[trigger] self.entries@[j].0@, key),
            i < self.entries@.len() ==> !text::seq_lt(self.entries@[i].0@, key),
        ensures
            self@.dom().contains(key) <==> i < self.entries@.len() && self.entries@[i].0@ == key,
            self@.dom().contains(key) ==> self@[key] == self.entries@[i].1,
            i < self.entries@.len() && self.entries@[i].0@ != key ==> text::seq_lt(
                key,
                self.entries@[i].0@,
            ),
    {
        let keys = keys_of(self.entries@);
        if i < keys.len() {
            text::lemma_lt_total(self.entries@[i].0@, key);
        }
        if keys.contains(key) {
            let m = keys.index_of(key);
            assert(keys[m] == self.entries@[m].0@);
            if m < i {
                text::lemma_lt_irreflexive(key);
            } else if m > i {
                assert(text::seq_lt(keys[i], keys[m]));
            }
        }
        if i < keys.len() && self.entries@[i].0@ == key {
            assert(keys[i] == key);
            lemma_entry(self.entries@, i);
        }
    }

    /// The value held under `key`.
    pub fn get(&self, key: &str) -> (value: Option<&V>)
        ensures
            match value {
                Some(v) => self@.dom().contains(key@) && *v == self@[key@],
                None => !self@.dom().contains(key@),
            },
    {
        proof {
            use_type_invariant(self);
        }
        let i = self.position(key);
        proof {
            self.lemma_position(key@, i as int);
        }
        if i < self.entries.len() && text::same(self.entries[i].0.as_str(), key) {
            Some(&self.entries[i].1)
        } else {
            None
        }
    }

    pub fn contains(&self, key: &str) -> (r: bool)
        ensures
            r == self@.dom().contains(key@),
    {
        self.get(key).is_some()
    }

    /// Puts `value` under `key`. The result says whether the key was already held.
    pub fn insert(&mut self, key: String, value: V) -> (replaced: bool)
        ensures
            final(self)@ == old(self)@.insert(key@, value),
            replaced == old(self)@.dom().contains(key@),
    {
        proof {
            use_type_invariant(&*self);
        }
        let i = self.position(key.as_str());
        proof {
            self.lemma_position(key@, i as int);
        }
        let mut entries: Vec<(String, V)> = Vec::new();
        std::mem::swap(&mut entries, &mut self.entries);
        let ghost before = entries@;
        let ghost keys = keys_of(before);
        let ghost k = key@;
        let replaced = i < entries.len() && text::same(entries[i].0.as_str(), key.as_str());
        if replaced {
            entries.remove(i);
        }
        entries.insert(i, (key, value));
        proof {
            let after = entries@;
            let nk = keys_of(after);
            let off: int = if replaced { 1 } else { 0 };
            assert(after.len() == before.len() + 1 - off);
            assert forall|p: int| 0 <= p < after.len() implies #[trigger] nk[p] == (if p < i {
                keys[p]
            } else if p == i {
                k
            } else {
                keys[p - 1 + off]
            }) by {}
            assert(ascending(nk)) by {
                assert forall|p: int, q: int| 0 <= p < q < nk.len() implies #[trigger] text::seq_lt(
                    nk[p],
                    nk[q],
                ) by {
                    let kp = if p < i { p } else { p - 1 + off };
                    let kq = if q < i { q } else { q - 1 + off };
                    if p == i {
                        // key, then a later old key
                        assert(keys[kq] == before[kq].0@);
                        if kq > i {
                            assert(text::seq_lt(keys[i as int], keys[kq]));
                            assert(keys[i as int] == before[i as int].0@);
                            if !replaced {
                                text::lemma_lt_transitive(k, keys[i as int], keys[kq]);
                            }
                        }
                    } else if q == i {
                        assert(keys[kp] == before[kp].0@);
                    } else {
                        assert(text::seq_lt(keys[kp], keys[kq]));
                    }
                }
            }
            assert(map_of(after) =~= map_of(before).insert(k, value)) by {
                assert forall|x: Seq<char>| map_of(after).dom().contains(x) <==> map_of(
                    before,
                ).insert(k, value).dom().contains(x) by {
                    if nk.contains(x) {
                        let p = nk.index_of(x);
                        if p != i {
                            let kp = if p < i { p } else { p - 1 + off };
                            assert(keys[kp] == x);
                        }
                    }
                    assert(nk[i as int] == k);
                    if keys.contains(x) && x != k {
                        let p = keys.index_of(x);
                        if p < i {
                            assert(nk[p] == x);
                        } else {
                            assert(keys[p] == before[p].0@);
                            assert(nk[p + 1 - off] == x);
                        }
                    }
                }
                assert forall|x: Seq<char>| map_of(after).dom().contains(x) implies map_of(after)[x]
                    == map_of(before).insert(k, value)[x] by {
                    let p = nk.index_of(x);
                    assert(after[p].0@ == nk[p]);
                    lemma_entry(after, p);
                    if p != i {
                        let kp = if p < i { p } else { p - 1 + off };
                        assert(keys[kp] == x);
                        lemma_entry(before, kp);
                        assert(after[p].1 == before[kp].1);
                        if x == k {
                            lemma_ascending_distinct(nk, p, i as int);
                        }
                    }
                }
            }
        }
        self.entries = entries;
        replaced
    }

    /// Drops the entry under `key`, if there is one.
    pub fn remove(&mut self, key: &str) -> (removed: bool)
        ensures
            final(self)@ == old(self)@.remove(key@),
            removed == old(self)@.dom().contains(key@),
    {
        self.take(key).is_some()
    }

    /// Takes out the value under `key`, if there is one.
    pub fn take(&mut self, key: &str) -> (taken: Option<V>)
        ensures
            final(self)@ == old(self)@.remove(key@),
            taken == if old(self)@.dom().contains(key@) {
                Some(old(self)@[key@])
            } else {
                None
            },
    {
        proof {
            use_type_invariant(&*self);
        }
        let i = self.position(key);
        proof {
            self.lemma_position(key@, i as int);
        }
        let mut entries: Vec<(String, V)> = Vec::new();
        std::mem::swap(&mut entries, &mut self.entries);
        let ghost before = entries@;
        let ghost keys = keys_of(before);
        let removed = i < entries.len() && text::same(entries[i].0.as_str(), key);
        let taken = if removed {
            Some(entries.remove(i).1)
        } else {
            None
        };
        proof {
            let after = entries@;
            let nk = keys_of(after);
            if removed {
                assert forall|p: int| 0 <= p < after.len() implies #[trigger] nk[p] == (if p < i {
                    keys[p]
                } else {
                    keys[p + 1]
                }) by {}
                assert(ascending(nk)) by {
                    assert forall|p: int, q: int| 0 <= p < q < nk.len() implies #[trigger] text::seq_lt(
                        nk[p],
                        nk[q],
                    ) by {
                        let kp = if p < i { p } else { p + 1 };
                        let kq = if q < i { q } else { q + 1 };
                        assert(text::seq_lt(keys[kp], keys[kq]));
                    }
                }
                assert(keys[i as int] == key@);
                assert(map_of(after) =~= map_of(before).remove(key@)) by {
                    assert forall|x: Seq<char>| map_of(after).dom().contains(x) <==> map_of(
                        before,
                    ).remove(key@).dom().contains(x) by {
                        if nk.contains(x) {
                            let p = nk.index_of(x);
                            let kp = if p < i { p } else { p + 1 };
                            assert(keys[kp] == x);
                            if x == key@ {
                                lemma_ascending_distinct(keys, kp, i as int);
                            }
                        }
                        if keys.contains(x) && x != key@ {
                            let p = keys.index_of(x);
                            if p < i {
                                assert(nk[p] == x);
                            } else {
                                assert(nk[p - 1] == x);
                            }
                        }
                    }
                    assert forall|x: Seq<char>| map_of(after).dom().contains(x) implies map_of(
                        after,
                    )[x] == map_of(before).remove(key@)[x] by {
                        let p = nk.index_of(x);
                        assert(after[p].0@ == nk[p]);
                        lemma_entry(after, p);
                        let kp = if p < i { p } else { p + 1 };
                        assert(keys[kp] == x);
                        lemma_entry(before, kp);
                        assert(after[p].1 == before[kp].1);
                    }
                }
            } else {
                assert(map_of(before) =~= map_of(before).remove(key@));
            }
        }
        self.entries = entries;
        taken
    }
}

/// A listing has finitely many keys.
pub proof fn lemma_finite<V>(listing: Seq<(String, V)>)
    ensures
        map_of(listing).dom().finite(),
{
    let keys = keys_of(listing);
    vstd::seq_lib::seq_to_set_is_finite(keys);
    assert(keys.to_set() =~= map_of(listing).dom());
}

} // verus!
