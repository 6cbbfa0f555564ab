//! The budget of the semantic providers' caches.
//!
//! No published evidence depends on a cache entry. Partitions that a current operation
//! uses are never evicted; of the others, the longest unmodified go first, and only
//! until the budget is met.

use vstd::prelude::*;

use crate::path_order;
use crate::path_order::{path_before, starts_with};
use crate::path_sorting;
use crate::path_sorting::sort_paths;
use crate::text;

verus! {

/// The nominal budget in bytes.
pub const PROVIDER_CACHE_MAX_BYTES: u64 = 17_179_869_184;

/// Bytes and time of last change of a cache entry.
#[derive(Debug, Clone, Copy, PartialEq, Eq, Structural)]
pub struct CacheEntryStats {
    pub apparent_bytes: u64,
    /// Nanoseconds since the epoch.
    pub modified: i128,
}

/// The bytes of some entries together, as far as 64 bits go.
pub open spec fn total_bytes(children: Seq<CacheEntryStats>) -> int
    decreases children.len(),
{
    if children.len() == 0 {
        0
    } else {
        let sum = total_bytes(children.drop_last()) + children.last().apparent_bytes;
        if sum <= u64::MAX {
            sum
        } else {
            u64::MAX as int
        }
    }
}

/// The latest change of a directory and its entries.
pub open spec fn latest(own: i128, children: Seq<CacheEntryStats>) -> i128
    decreases children.len(),
{
    if children.len() == 0 {
        own
    } else {
        let before = latest(own, children.drop_last());
        if before < children.last().modified {
            children.last().modified
        } else {
            before
        }
    }
}

/// The stats of a directory, from its own time and those of its entries.
pub fn directory_stats(modified: i128, children: &Vec<CacheEntryStats>) -> (r: CacheEntryStats)
    ensures
        r.apparent_bytes == total_bytes(children@),
        r.modified == latest(modified, children@),
{
    let mut bytes: u64 = 0;
    let mut changed: i128 = modified;
    assert(children@.take(0) =~= Seq::empty());
    for i in 0..children.len()
        invariant
            bytes == total_bytes(children@.take(i as int)),
            changed == latest(modified, children@.take(i as int)),
    {
        assert(children@.take(i + 1).drop_last() =~= children@.take(i as int));
        bytes = bytes.saturating_add(children[i].apparent_bytes);
        if changed < children[i].modified {
            changed = children[i].modified;
        }
    }
    assert(children@.take(children@.len() as int) =~= children@);
    CacheEntryStats { apparent_bytes: bytes, modified: changed }
}

/// A partition of the cache.
#[derive(Debug, Clone, PartialEq, Eq)]
pub struct ProviderCacheEntry {
    pub path: String,
    pub apparent_bytes: u64,
    /// Nanoseconds since the epoch.
    pub modified: i128,
}

/// A partition as plain text.
pub struct EntryModel {
    pub path: Seq<char>,
    pub bytes: u64,
    pub modified: i128,
}

impl DeepView for ProviderCacheEntry {
    type V = EntryModel;

    open spec fn deep_view(&self) -> EntryModel {
        EntryModel { path: self.path@, bytes: self.apparent_bytes, modified: self.modified }
    }
}

/// `a` goes before `b`: it was changed earlier, or at the same time and comes first in
/// path order.
pub open spec fn older(a: EntryModel, b: EntryModel) -> bool {
    a.modified < b.modified || (a.modified == b.modified && path_order::path_lt(a.path, b.path))
}

/// How many of the entries come before `entry` in place: those up to the last one that
/// is not younger.
pub open spec fn place(entries: Seq<EntryModel>, entry: EntryModel) -> int
    decreases entries.len(),
{
    if entries.len() == 0 || !older(entry, entries.last()) {
        entries.len() as int
    } else {
        place(entries.drop_last(), entry)
    }
}

/// The entries from the oldest to the youngest; equal ones stay in their order.
pub open spec fn by_age(entries: Seq<EntryModel>) -> Seq<EntryModel>
    decreases entries.len(),
{
    if entries.len() == 0 {
        entries
    } else {
        let before = by_age(entries.drop_last());
        before.insert(place(before, entries.last()), entries.last())
    }
}

/// Every entry is at its place.
pub open spec fn aged(entries: Seq<EntryModel>) -> bool {
    forall|i: int, j: int|
        0 <= i < j < entries.len() ==> !older(#[trigger] entries[j], #[trigger] entries[i])
}

proof fn lemma_older_transitive(a: EntryModel, b: EntryModel, c: EntryModel)
    requires
        !older(b, a),
        !older(c, b),
    ensures
        !older(c, a),
{
    if older(c, a) && a.modified == b.modified && b.modified == c.modified {
        let x = path_order::path_key(a.path);
        let y = path_order::path_key(b.path);
        let z = path_order::path_key(c.path);
        path_order::lemma_key_total(x, y);
        path_order::lemma_key_total(y, z);
        if path_order::key_lt(x, y) {
            path_order::lemma_key_transitive(z, x, y);
        }
    }
}

proof fn lemma_older_asymmetric(a: EntryModel, b: EntryModel)
    requires
        older(a, b),
    ensures
        !older(b, a),
{
    if older(b, a) {
        let x = path_order::path_key(a.path);
        let y = path_order::path_key(b.path);
        path_order::lemma_key_transitive(x, y, x);
    }
}

proof fn lemma_place(entries: Seq<EntryModel>, entry: EntryModel)
    requires
        aged(entries),
    ensures
        0 <= place(entries, entry) <= entries.len(),
        forall|i: int|
            0 <= i < place(entries, entry) ==> !older(entry, #[trigger] entries[i]),
        forall|i: int|
            place(entries, entry) <= i < entries.len() ==> older(entry, #[trigger] entries[i]),
    decreases entries.len(),
{
    if entries.len() > 0 {
        let front = entries.drop_last();
        if older(entry, entries.last()) {
            assert(aged(front)) by {
                assert forall|i: int, j: int| 0 <= i < j < front.len() implies !older(
                    #[trigger] front[j],
                    #[trigger] front[i],
                ) by {
                    assert(!older(entries[j], entries[i]));
                }
            }
            lemma_place(front, entry);
            assert forall|i: int| 0 <= i < place(entries, entry) implies !older(
                entry,
                #[trigger] entries[i],
            ) by {
                assert(front[i] == entries[i]);
            }
            assert forall|i: int| place(entries, entry) <= i < entries.len() implies older(
                entry,
                #[trigger] entries[i],
            ) by {
                if i < front.len() {
                    assert(front[i] == entries[i]);
                }
            }
        } else {
            assert forall|i: int| 0 <= i < entries.len() implies !older(
                entry,
                #[trigger] entries[i],
            ) by {
                if i < entries.len() - 1 {
                    assert(!older(entries[entries.len() - 1], entries[i]));
                    lemma_older_transitive(entries[i], entries.last(), entry);
                }
            }
        }
    }
}

/// The age order is an order: nobody stands behind a younger entry, and the entries are
/// the same.
pub proof fn law_by_age_sorts(entries: Seq<EntryModel>)
    ensures
        aged(by_age(entries)),
        by_age(entries).to_multiset() == entries.to_multiset(),
        by_age(entries).len() == entries.len(),
    decreases entries.len(),
{
    if entries.len() > 0 {
        let front = entries.drop_last();
        law_by_age_sorts(front);
        let before = by_age(front);
        let entry = entries.last();
        lemma_place(before, entry);
        let k = place(before, entry);
        let after = before.insert(k, entry);
        assert forall|i: int, j: int| 0 <= i < j < after.len() implies !older(
            #[trigger] after[j],
            #[trigger] after[i],
        ) by {
            if j == k {
                assert(after[i] == before[i]);
            } else if i == k {
                assert(after[j] == before[j - 1]);
                lemma_older_asymmetric(entry, before[j - 1]);
            } else {
                let x = if i < k {
                    i
                } else {
                    i - 1
                };
                let y = if j < k {
                    j
                } else {
                    j - 1
                };
                assert(after[i] == before[x] && after[j] == before[y]);
                assert(!older(before[y], before[x]));
            }
        }
        before.insert_ensures(k, entry);
        vstd::seq_lib::to_multiset_insert(before, k, entry);
        assert(entries =~= front.push(entry));
        vstd::seq_lib::to_multiset_build(front, entry);
    }
}


fn is_older(a: &ProviderCacheEntry, b: &ProviderCacheEntry) -> (r: bool)
    ensures
        r == older(a.deep_view(), b.deep_view()),
{
    a.modified < b.modified || (a.modified == b.modified && path_before(
        a.path.as_str(),
        b.path.as_str(),
    ))
}

/// Sorts partitions from the oldest to the youngest.
pub fn sort_by_age(entries: Vec<ProviderCacheEntry>) -> (r: Vec<ProviderCacheEntry>)
    ensures
        r.deep_view() == by_age(entries.deep_view()),
{
    let ghost all = entries.deep_view();
    let mut rest = entries;
    let mut reversed: Vec<ProviderCacheEntry> = Vec::new();
    while rest.len() > 0
        invariant
            rest.deep_view() == all.take(rest@.len() as int),
            rest@.len() + reversed@.len() == all.len(),
            forall|j: int|
                0 <= j < reversed@.len() ==> (#[trigger] reversed@[j]).deep_view()
                    == all[all.len() - 1 - j],
        decreases rest.len(),
    {
        let ghost n = rest@.len();
        let ghost before = rest.deep_view();
        if let Some(entry) = rest.pop() {
            assert(entry.deep_view() == before[n - 1]);
            reversed.push(entry);
            assert(rest.deep_view() =~= all.take(n - 1));
        }
    }
    let mut sorted: Vec<ProviderCacheEntry> = Vec::new();
    assert(sorted.deep_view() =~= by_age(all.take(0)));
    while reversed.len() > 0
        invariant
            reversed@.len() <= all.len(),
            forall|j: int|
                0 <= j < reversed@.len() ==> (#[trigger] reversed@[j]).deep_view()
                    == all[all.len() - 1 - j],
            sorted.deep_view() == by_age(all.take(all.len() - reversed@.len())),
        decreases reversed.len(),
    {
        let ghost k = all.len() - reversed@.len();
        let ghost before = sorted.deep_view();
        if let Some(entry) = reversed.pop() {
            assert(entry.deep_view() == all[k]);
            assert(all.take(k + 1).drop_last() =~= all.take(k));
            let mut at: usize = sorted.len();
            assert(before.take(at as int) =~= before);
            while at > 0 && is_older(&entry, &sorted[at - 1])
                invariant
                    at <= sorted@.len(),
                    before == sorted.deep_view(),
                    place(before.take(at as int), entry.deep_view()) == place(
                        before,
                        entry.deep_view(),
                    ),
                decreases at,
            {
                assert(before.take(at as int).last() == sorted@[at - 1].deep_view());
                assert(before.take(at as int).drop_last() =~= before.take(at - 1));
                at -= 1;
            }
            proof {
                if at > 0 {
                    assert(before.take(at as int).last() == sorted@[at - 1].deep_view());
                }
                assert(place(before, entry.deep_view()) == at);
            }
            sorted.insert(at, entry);
            assert(sorted.deep_view() =~= before.insert(at as int, entry.deep_view()));
        }
    }
    assert(all.take(all.len() as int) =~= all);
    sorted
}

/// One path lies at or below the other.
pub open spec fn overlap(a: Seq<char>, b: Seq<char>) -> bool {
    path_order::is_under(a, b) || path_order::is_under(b, a)
}

/// Whether one path lies at or below the other.
pub fn cache_paths_overlap(left: &str, right: &str) -> (r: bool)
    ensures
        r == overlap(left@, right@),
{
    starts_with(left, right) || starts_with(right, left)
}

/// A current operation uses the partition.
pub open spec fn is_protected(path: Seq<char>, protected: Seq<Seq<char>>) -> bool {
    exists|i: int| 0 <= i < protected.len() && overlap(path, #[trigger] protected[i])
}

fn in_use(path: &str, protected: &Vec<String>) -> (r: bool)
    ensures
        r == is_protected(path@, protected.deep_view()),
{
    let ghost all = protected.deep_view();
    for i in 0..protected.len()
        invariant
            all == protected.deep_view(),
            forall|j: int| 0 <= j < i ==> !overlap(path@, #[trigger] all[j]),
    {
        assert(all[i as int] == protected@[i as int]@);
        if cache_paths_overlap(path, protected[i].as_str()) {
            return true;
        }
    }
    false
}

/// The bytes that are left when `bytes` of `current` go.
pub open spec fn without(current: u64, bytes: u64) -> u64 {
    if bytes <= current {
        (current - bytes) as u64
    } else {
        0
    }
}

/// The partitions that go, from position `i` on: while the budget is exceeded, the next
/// one that is not in use.
pub open spec fn evictions(
    sorted: Seq<EntryModel>,
    i: int,
    current: u64,
    budget: u64,
    protected: Seq<Seq<char>>,
) -> Seq<Seq<char>>
    decreases sorted.len() - i,
{
    if i < 0 || i >= sorted.len() || current <= budget {
        seq![]
    } else if is_protected(sorted[i].path, protected) {
        evictions(sorted, i + 1, current, budget, protected)
    } else {
        seq![sorted[i].path] + evictions(
            sorted,
            i + 1,
            without(current, sorted[i].bytes),
            budget,
            protected,
        )
    }
}

/// The bytes that are left when these partitions are gone.
pub open spec fn remainder(
    sorted: Seq<EntryModel>,
    i: int,
    current: u64,
    budget: u64,
    protected: Seq<Seq<char>>,
) -> u64
    decreases sorted.len() - i,
{
    if i < 0 || i >= sorted.len() || current <= budget {
        current
    } else if is_protected(sorted[i].path, protected) {
        remainder(sorted, i + 1, current, budget, protected)
    } else {
        remainder(sorted, i + 1, without(current, sorted[i].bytes), budget, protected)
    }
}

/// What has to be removed, in order, and what then is left.
#[derive(Debug, Clone, PartialEq, Eq)]
pub struct EvictionPlan {
    pub evicted: Vec<String>,
    pub remaining_bytes: u64,
}

/// Plans how a cache of `current_bytes` comes down to its budget.
pub fn trim_provider_cache_to_budget(
    entries: Vec<ProviderCacheEntry>,
    current_bytes: u64,
    max_bytes: u64,
    protected: &Vec<String>,
) -> (r: EvictionPlan)
    ensures
        r.evicted.deep_view() == evictions(
            by_age(entries.deep_view()),
            0,
            current_bytes,
            max_bytes,
            protected.deep_view(),
        ),
        r.remaining_bytes == remainder(
            by_age(entries.deep_view()),
            0,
            current_bytes,
            max_bytes,
            protected.deep_view(),
        ),
{
    let entries = sort_by_age(entries);
    let ghost sorted = entries.deep_view();
    let ghost kept = protected.deep_view();
    let mut current: u64 = current_bytes;
    let mut evicted: Vec<String> = Vec::new();
    let ghost planned = evictions(sorted, 0, current_bytes, max_bytes, kept);
    assert(evicted.deep_view() =~= seq![]);
    let mut i: usize = 0;
    while i < entries.len() && current > max_bytes
        invariant
            i <= entries@.len(),
            sorted == entries.deep_view(),
            kept == protected.deep_view(),
            planned =~= evicted.deep_view() + evictions(sorted, i as int, current, max_bytes, kept),
            remainder(sorted, i as int, current, max_bytes, kept) == remainder(
                sorted,
                0,
                current_bytes,
                max_bytes,
                kept,
            ),
        decreases entries.len() - i,
    {
        assert(sorted[i as int] == entries@[i as int].deep_view());
        let ghost before = evicted.deep_view();
        if !in_use(entries[i].path.as_str(), protected) {
            evicted.push(entries[i].path.clone());
            assert(evicted.deep_view() =~= before.push(sorted[i as int].path));
            current = current.saturating_sub(entries[i].apparent_bytes);
        }
        i += 1;
    }
    assert(evictions(sorted, i as int, current, max_bytes, kept) =~= seq![]);
    EvictionPlan { evicted, remaining_bytes: current }
}

/// Nothing in use is ever evicted.
pub proof fn law_protected_partitions_stay(
    sorted: Seq<EntryModel>,
    i: int,
    current: u64,
    budget: u64,
    protected: Seq<Seq<char>>,
)
    requires
        0 <= i <= sorted.len(),
    ensures
        forall|j: int|
            0 <= j < evictions(sorted, i, current, budget, protected).len() ==> !is_protected(
                #[trigger] evictions(sorted, i, current, budget, protected)[j],
                protected,
            ),
    decreases sorted.len() - i,
{
    if i < sorted.len() && current > budget {
        if is_protected(sorted[i].path, protected) {
            law_protected_partitions_stay(sorted, i + 1, current, budget, protected);
            assert(evictions(sorted, i, current, budget, protected) == evictions(
                sorted,
                i + 1,
                current,
                budget,
                protected,
            ));
        } else {
            let rest = without(current, sorted[i].bytes);
            law_protected_partitions_stay(sorted, i + 1, rest, budget, protected);
            let tail = evictions(sorted, i + 1, rest, budget, protected);
            let whole = evictions(sorted, i, current, budget, protected);
            assert forall|j: int| 0 <= j < whole.len() implies !is_protected(
                #[trigger] whole[j],
                protected,
            ) by {
                if j > 0 {
                    assert(whole[j] == tail[j - 1]);
                }
            }
        }
    }
}

/// A cache within its budget is left alone.
pub proof fn law_budget_met_evicts_nothing(
    sorted: Seq<EntryModel>,
    current: u64,
    budget: u64,
    protected: Seq<Seq<char>>,
)
    requires
        current <= budget,
    ensures
        evictions(sorted, 0, current, budget, protected).len() == 0,
        remainder(sorted, 0, current, budget, protected) == current,
{
}

/// A plan that misses the budget has evicted everything that is not in use.
pub proof fn law_over_budget_only_with_partitions_in_use(
    sorted: Seq<EntryModel>,
    i: int,
    current: u64,
    budget: u64,
    protected: Seq<Seq<char>>,
)
    requires
        0 <= i <= sorted.len(),
        remainder(sorted, i, current, budget, protected) > budget,
    ensures
        forall|j: int|
            i <= j < sorted.len() && !is_protected((#[trigger] sorted[j]).path, protected)
                ==> evictions(sorted, i, current, budget, protected).contains(sorted[j].path),
    decreases sorted.len() - i,
{
    if i < sorted.len() && current > budget {
        let whole = evictions(sorted, i, current, budget, protected);
        if is_protected(sorted[i].path, protected) {
            law_over_budget_only_with_partitions_in_use(sorted, i + 1, current, budget, protected);
        } else {
            let rest = without(current, sorted[i].bytes);
            law_over_budget_only_with_partitions_in_use(sorted, i + 1, rest, budget, protected);
            let tail = evictions(sorted, i + 1, rest, budget, protected);
            assert forall|j: int|
                i <= j < sorted.len() && !is_protected(
                    (#[trigger] sorted[j]).path,
                    protected,
                ) implies whole.contains(sorted[j].path) by {
                if j == i {
                    assert(whole[0] == sorted[i].path);
                } else {
                    assert(tail.contains(sorted[j].path));
                    let k = tail.index_of(sorted[j].path);
                    assert(whole[k + 1] == sorted[j].path);
                }
            }
        }
    }
}

/// Sorts the children of a cache directory.
pub fn sorted_cache_children(children: Vec<String>) -> (r: Vec<String>)
    ensures
        r.deep_view() == path_sorting::sorted_paths(children.deep_view()),
{
    sort_paths(&children)
}

/// A toolchain's directory in the cache of a language.
#[derive(Debug, Clone, PartialEq, Eq)]
pub struct ToolchainCache {
    pub path: String,
    /// It is a directory and no link.
    pub is_plain_directory: bool,
    /// The workspaces below it, in order, if it has a plain directory of them.
    pub workspaces: Option<Vec<String>>,
    /// What else lies in it, in order.
    pub others: Vec<String>,
}

/// An entry of the cache root.
#[derive(Debug, Clone, PartialEq, Eq)]
pub struct LanguageCache {
    pub path: String,
    pub name: Option<String>,
    /// It is a directory and no link.
    pub is_plain_directory: bool,
    pub toolchains: Vec<ToolchainCache>,
}

/// The partitions of a toolchain's directory: its workspaces and what lies beside them,
/// or the directory as a whole.
pub open spec fn toolchain_partitions(toolchain: ToolchainCache) -> Seq<Seq<char>> {
    match toolchain.workspaces {
        Some(workspaces) => if toolchain.is_plain_directory {
            workspaces.deep_view() + toolchain.others.deep_view()
        } else {
            seq![toolchain.path@]
        },
        None => seq![toolchain.path@],
    }
}

pub open spec fn all_toolchain_partitions(toolchains: Seq<ToolchainCache>) -> Seq<Seq<char>>
    decreases toolchains.len(),
{
    if toolchains.len() == 0 {
        seq![]
    } else {
        all_toolchain_partitions(toolchains.drop_last()) + toolchain_partitions(toolchains.last())
    }
}

/// The cache of a language that is partitioned by toolchain.
pub open spec fn is_partitioned(language: LanguageCache) -> bool {
    language.is_plain_directory && (language.name matches Some(name) && (name@ == "rust"@ || name@
        == "go"@))
}

/// The partitions of an entry of the cache root. What is not known is one partition.
pub open spec fn language_partitions(language: LanguageCache) -> Seq<Seq<char>> {
    if is_partitioned(language) {
        all_toolchain_partitions(language.toolchains@)
    } else {
        seq![language.path@]
    }
}

/// The partitions that can be disposed of one by one.
pub open spec fn partitions(languages: Seq<LanguageCache>) -> Seq<Seq<char>>
    decreases languages.len(),
{
    if languages.len() == 0 {
        seq![]
    } else {
        partitions(languages.drop_last()) + language_partitions(languages.last())
    }
}

fn push_text(list: &mut Vec<String>, text: &String)
    ensures
        final(list).deep_view() == old(list).deep_view().push(text@),
{
    let ghost before = list.deep_view();
    list.push(text.clone());
    assert(list.deep_view() =~= before.push(text@));
}

fn push_texts(list: &mut Vec<String>, texts: &Vec<String>)
    ensures
        final(list).deep_view() == old(list).deep_view() + texts.deep_view(),
{
    let ghost before = list.deep_view();
    for i in 0..texts.len()
        invariant
            list.deep_view() =~= before + texts.deep_view().take(i as int),
    {
        push_text(list, &texts[i]);
        assert(texts.deep_view()[i as int] == texts@[i as int]@);
    }
    assert(list.deep_view() =~= before + texts.deep_view());
}

/// Lists the partitions of the cache. Rust and Go caches are partitioned by toolchain
/// and workspace; everything else only as a whole.
pub fn provider_cache_partitions(languages: &Vec<LanguageCache>) -> (r: Vec<String>)
    ensures
        r.deep_view() == partitions(languages@),
{
    let mut r: Vec<String> = Vec::new();
    assert(r.deep_view() =~= partitions(languages@.take(0)));
    for i in 0..languages.len()
        invariant
            r.deep_view() == partitions(languages@.take(i as int)),
    {
        let language = &languages[i];
        assert(languages@.take(i + 1).drop_last() =~= languages@.take(i as int));
        let ghost before = r.deep_view();
        let known = match &language.name {
            Some(name) => text::same(name.as_str(), "rust") || text::same(name.as_str(), "go"),
            None => false,
        };
        if !known || !language.is_plain_directory {
            push_text(&mut r, &language.path);
            assert(r.deep_view() =~= before + language_partitions(*language));
        } else {
            let toolchains = &language.toolchains;
            assert(r.deep_view() =~= before + all_toolchain_partitions(toolchains@.take(0)));
            for j in 0..toolchains.len()
                invariant
                    r.deep_view() == before + all_toolchain_partitions(toolchains@.take(j as int)),
            {
                let toolchain = &toolchains[j];
                let ghost done = all_toolchain_partitions(toolchains@.take(j as int));
                assert(toolchains@.take(j + 1).drop_last() =~= toolchains@.take(j as int));
                match &toolchain.workspaces {
                    Some(workspaces) => {
                        if toolchain.is_plain_directory {
                            push_texts(&mut r, workspaces);
                            push_texts(&mut r, &toolchain.others);
                        } else {
                            push_text(&mut r, &toolchain.path);
                        }
                    },
                    None => {
                        push_text(&mut r, &toolchain.path);
                    },
                }
                assert(r.deep_view() =~= before + (done + toolchain_partitions(*toolchain)));
            }
            assert(toolchains@.take(toolchains@.len() as int) =~= toolchains@);
        }
    }
    assert(languages@.take(languages@.len() as int) =~= languages@);
    r
}

/// No current operation uses the partition.
pub open spec fn unused(protected: Seq<Seq<char>>) -> spec_fn(EntryModel) -> bool {
    |entry: EntryModel| !is_protected(entry.path, protected)
}

/// Where a partition lies.
pub open spec fn lies_at() -> spec_fn(EntryModel) -> Seq<char> {
    |entry: EntryModel| entry.path
}

/// The bytes of some partitions together.
pub open spec fn bytes_of(entries: Seq<EntryModel>) -> int
    decreases entries.len(),
{
    if entries.len() == 0 {
        0
    } else {
        bytes_of(entries.drop_last()) + entries.last().bytes
    }
}

/// The bytes that are left of a cache when these partitions are gone.
pub open spec fn left_without(current: u64, gone: Seq<EntryModel>) -> int {
    if bytes_of(gone) <= current {
        current - bytes_of(gone)
    } else {
        0
    }
}

proof fn lemma_bytes_of_sum(a: Seq<EntryModel>, b: Seq<EntryModel>)
    ensures
        bytes_of(a + b) == bytes_of(a) + bytes_of(b),
        bytes_of(b) >= 0,
    decreases b.len(),
{
    if b.len() == 0 {
        assert(a + b =~= a);
    } else {
        lemma_bytes_of_sum(a, b.drop_last());
        assert((a + b).drop_last() =~= a + b.drop_last());
        assert((a + b).last() == b.last());
    }
}

/// Eviction goes from the oldest partition on and stops as soon as the budget is met. There is
/// a point in the age order such that exactly the unused partitions before it go; before each
/// step up to it the budget was exceeded; at it the budget is met or the partitions are
/// exhausted; and what remains is the cache without what went.
pub proof fn law_eviction_is_oldest_first_and_minimal(
    sorted: Seq<EntryModel>,
    i: int,
    current: u64,
    budget: u64,
    protected: Seq<Seq<char>>,
) -> (n: int)
    requires
        0 <= i <= sorted.len(),
    ensures
        i <= n <= sorted.len(),
        evictions(sorted, i, current, budget, protected) == sorted.subrange(i, n).filter(
            unused(protected),
        ).map_values(lies_at()),
        remainder(sorted, i, current, budget, protected) == left_without(
            current,
            sorted.subrange(i, n).filter(unused(protected)),
        ),
        n < sorted.len() ==> remainder(sorted, i, current, budget, protected) <= budget,
        forall|m: int|
            i <= m < n ==> left_without(
                current,
                (#[trigger] sorted.subrange(i, m)).filter(unused(protected)),
            ) > budget,
    decreases sorted.len() - i,
{
    let pred = unused(protected);
    reveal(Seq::filter);
    if i >= sorted.len() || current <= budget {
        assert(sorted.subrange(i, i).filter(pred) =~= seq![]);
        assert(evictions(sorted, i, current, budget, protected) =~= sorted.subrange(i, i).filter(
            pred,
        ).map_values(lies_at()));
        i
    } else if is_protected(sorted[i].path, protected) {
        let n = law_eviction_is_oldest_first_and_minimal(
            sorted,
            i + 1,
            current,
            budget,
            protected,
        );
        assert forall|m: int| i + 1 <= m <= sorted.len() implies (#[trigger] sorted.subrange(
            i,
            m,
        )).filter(pred) == sorted.subrange(i + 1, m).filter(pred) by {
            lemma_filter_first(sorted, i, m, protected);
        }
        assert forall|m: int| i <= m < n implies left_without(
            current,
            (#[trigger] sorted.subrange(i, m)).filter(pred),
        ) > budget by {
            if m == i {
                assert(sorted.subrange(i, i).filter(pred) =~= seq![]);
            } else {
                assert(sorted.subrange(i, m).filter(pred) == sorted.subrange(i + 1, m).filter(
                    pred,
                ));
            }
        }
        n
    } else {
        let rest = without(current, sorted[i].bytes);
        let n = law_eviction_is_oldest_first_and_minimal(sorted, i + 1, rest, budget, protected);
        assert forall|m: int| i + 1 <= m <= sorted.len() implies (#[trigger] sorted.subrange(
            i,
            m,
        )).filter(pred) == seq![sorted[i]] + sorted.subrange(i + 1, m).filter(pred)
            && left_without(current, sorted.subrange(i, m).filter(pred)) == left_without(
            rest,
            sorted.subrange(i + 1, m).filter(pred),
        ) by {
            lemma_filter_first(sorted, i, m, protected);
            let tail = sorted.subrange(i + 1, m).filter(pred);
            lemma_bytes_of_sum(seq![sorted[i]], tail);
            let one = seq![sorted[i]];
            let none: Seq<EntryModel> = seq![];
            assert(one.drop_last() =~= none);
            assert(one.last() == sorted[i]);
            assert(bytes_of(none) == 0);
            assert(bytes_of(one) == bytes_of(one.drop_last()) + one.last().bytes);
        }
        assert(evictions(sorted, i, current, budget, protected) =~= sorted.subrange(i, n).filter(
            pred,
        ).map_values(lies_at()));
        assert forall|m: int| i <= m < n implies left_without(
            current,
            (#[trigger] sorted.subrange(i, m)).filter(pred),
        ) > budget by {
            if m == i {
                assert(sorted.subrange(i, i).filter(pred) =~= seq![]);
            } else {
                assert(left_without(rest, sorted.subrange(i + 1, m).filter(pred)) > budget);
            }
        }
        n
    }
}

proof fn lemma_filter_first(
    sorted: Seq<EntryModel>,
    i: int,
    m: int,
    protected: Seq<Seq<char>>,
)
    requires
        0 <= i < m <= sorted.len(),
    ensures
        is_protected(sorted[i].path, protected) ==> sorted.subrange(i, m).filter(
            unused(protected),
        ) == sorted.subrange(i + 1, m).filter(unused(protected)),
        !is_protected(sorted[i].path, protected) ==> sorted.subrange(i, m).filter(
            unused(protected),
        ) == seq![sorted[i]] + sorted.subrange(i + 1, m).filter(unused(protected)),
    decreases m - i,
{
    let pred = unused(protected);
    reveal(Seq::filter);
    let whole = sorted.subrange(i, m);
    let tail = sorted.subrange(i + 1, m);
    if m == i + 1 {
        assert(tail =~= seq![]);
        assert(whole.drop_last() =~= seq![]);
        assert(whole.last() == sorted[i]);
        assert(whole.drop_last().filter(pred) =~= seq![]);
        assert(tail.filter(pred) =~= seq![]);
        assert(seq![sorted[i]] + tail.filter(pred) =~= seq![sorted[i]]);
    } else {
        lemma_filter_first(sorted, i, m - 1, protected);
        assert(whole.drop_last() =~= sorted.subrange(i, m - 1));
        assert(tail.drop_last() =~= sorted.subrange(i + 1, m - 1));
        assert(whole.last() == sorted[m - 1] && tail.last() == sorted[m - 1]);
        if !is_protected(sorted[i].path, protected) {
            assert(whole.filter(pred) =~= seq![sorted[i]] + tail.filter(pred));
        }
    }
}

/// In the age order no partition stands before one that was changed earlier.
pub proof fn law_age_order_is_by_time(entries: Seq<EntryModel>, i: int, j: int)
    requires
        0 <= i < j < by_age(entries).len(),
    ensures
        by_age(entries)[i].modified <= by_age(entries)[j].modified,
        by_age(entries)[i].modified == by_age(entries)[j].modified ==> !path_order::path_lt(
            by_age(entries)[j].path,
            by_age(entries)[i].path,
        ),
{
    law_by_age_sorts(entries);
    assert(!older(by_age(entries)[j], by_age(entries)[i]));
}

/// The bytes of a directory are those of its entries together, as far as they fit; and its time
/// is the latest of its own and theirs.
pub proof fn law_directory_sums_its_entries(
    own: i128,
    children: Seq<CacheEntryStats>,
    added: CacheEntryStats,
)
    ensures
        total_bytes(seq![]) == 0,
        total_bytes(children) + added.apparent_bytes <= u64::MAX ==> total_bytes(
            children.push(added),
        ) == total_bytes(children) + added.apparent_bytes,
        total_bytes(children) + added.apparent_bytes > u64::MAX ==> total_bytes(
            children.push(added),
        ) == u64::MAX,
        latest(own, children) >= own,
        forall|i: int|
            0 <= i < children.len() ==> latest(own, children) >= (#[trigger] children[i]).modified,
        latest(own, children) == own || exists|i: int|
            0 <= i < children.len() && (#[trigger] children[i]).modified == latest(own, children),
    decreases children.len(),
{
    assert(children.push(added).drop_last() =~= children);
    if children.len() > 0 {
        let n = children.len() - 1;
        let front = children.drop_last();
        law_directory_sums_its_entries(own, front, added);
        assert(children[n] == children.last());
        assert forall|i: int| 0 <= i < children.len() implies latest(own, children) >= (
        #[trigger] children[i]).modified by {
            if i < n {
                assert(front[i] == children[i]);
            }
        }
        if latest(own, children) != own && latest(own, children) != children[n].modified {
            let i = choose|i: int|
                0 <= i < front.len() && (#[trigger] front[i]).modified == latest(own, front);
            assert(children[i] == front[i]);
        }
    }
}

/// The partitions of the cache: of a plain Rust or Go cache, every workspace of a plain
/// toolchain directory and everything beside the workspaces, and every other toolchain
/// directory as a whole; and every other entry of the cache root as a whole.
pub proof fn law_partitions_are_exact(languages: Seq<LanguageCache>, path: Seq<char>)
    ensures
        partitions(languages).contains(path) <==> exists|l: int|
            0 <= l < languages.len() && is_partition_of(#[trigger] languages[l], path),
    decreases languages.len(),
{
    if languages.len() > 0 {
        let n = languages.len() - 1;
        let front = languages.drop_last();
        law_partitions_are_exact(front, path);
        let before = partitions(front);
        let own = language_partitions(languages[n]);
        let all = partitions(languages);
        assert(languages[n] == languages.last());
        assert(all == before + own);
        lemma_language_partitions(languages[n], path);
        if before.contains(path) {
            assert(all[before.index_of(path)] == path);
            let l = choose|l: int|
                0 <= l < front.len() && is_partition_of(#[trigger] front[l], path);
            assert(languages[l] == front[l]);
        }
        if own.contains(path) {
            assert(all[before.len() + own.index_of(path)] == path);
        }
        if all.contains(path) {
            let k = all.index_of(path);
            if k < before.len() {
                assert(before[k] == path);
            } else {
                assert(own[k - before.len()] == path);
            }
        }
        if exists|l: int| 0 <= l < languages.len() && is_partition_of(#[trigger] languages[l], path) {
            let l = choose|l: int|
                0 <= l < languages.len() && is_partition_of(#[trigger] languages[l], path);
            if l < n {
                assert(front[l] == languages[l]);
            }
        }
    }
}

/// The path is a partition of this entry of the cache root.
pub open spec fn is_partition_of(language: LanguageCache, path: Seq<char>) -> bool {
    if language.is_plain_directory && language.name is Some && (language.name->0@ == "rust"@
        || language.name->0@ == "go"@) {
        exists|t: int|
            0 <= t < language.toolchains@.len() && is_partition_in(
                #[trigger] language.toolchains@[t],
                path,
            )
    } else {
        path == language.path@
    }
}

/// The path is a partition of this toolchain's directory.
pub open spec fn is_partition_in(toolchain: ToolchainCache, path: Seq<char>) -> bool {
    if toolchain.is_plain_directory && toolchain.workspaces is Some {
        ||| exists|w: int|
            0 <= w < toolchain.workspaces->0@.len() && (
            #[trigger] toolchain.workspaces->0@[w])@ == path
        ||| exists|o: int|
            0 <= o < toolchain.others@.len() && (#[trigger] toolchain.others@[o])@ == path
    } else {
        path == toolchain.path@
    }
}

proof fn lemma_toolchain_partitions(toolchain: ToolchainCache, path: Seq<char>)
    ensures
        toolchain_partitions(toolchain).contains(path) <==> is_partition_in(toolchain, path),
{
    let all = toolchain_partitions(toolchain);
    if toolchain.is_plain_directory && toolchain.workspaces is Some {
        let spaces = toolchain.workspaces->0.deep_view();
        let others = toolchain.others.deep_view();
        assert(all == spaces + others);
        if all.contains(path) {
            let k = all.index_of(path);
            if k < spaces.len() {
                assert(toolchain.workspaces->0@[k]@ == path);
            } else {
                assert(toolchain.others@[k - spaces.len()]@ == path);
            }
        }
        if exists|w: int|
            0 <= w < toolchain.workspaces->0@.len() && (
            #[trigger] toolchain.workspaces->0@[w])@ == path {
            let w = choose|w: int|
                0 <= w < toolchain.workspaces->0@.len() && (
                #[trigger] toolchain.workspaces->0@[w])@ == path;
            assert(all[w] == path);
        }
        if exists|o: int|
            0 <= o < toolchain.others@.len() && (#[trigger] toolchain.others@[o])@ == path {
            let o = choose|o: int|
                0 <= o < toolchain.others@.len() && (#[trigger] toolchain.others@[o])@ == path;
            assert(all[spaces.len() + o] == path);
        }
    } else {
        assert(all[0] == toolchain.path@);
    }
}

proof fn lemma_all_toolchain_partitions(toolchains: Seq<ToolchainCache>, path: Seq<char>)
    ensures
        all_toolchain_partitions(toolchains).contains(path) <==> exists|t: int|
            0 <= t < toolchains.len() && is_partition_in(#[trigger] toolchains[t], path),
    decreases toolchains.len(),
{
    if toolchains.len() > 0 {
        let n = toolchains.len() - 1;
        let front = toolchains.drop_last();
        lemma_all_toolchain_partitions(front, path);
        let before = all_toolchain_partitions(front);
        let own = toolchain_partitions(toolchains[n]);
        let all = all_toolchain_partitions(toolchains);
        assert(toolchains[n] == toolchains.last());
        assert(all == before + own);
        lemma_toolchain_partitions(toolchains[n], path);
        if before.contains(path) {
            assert(all[before.index_of(path)] == path);
            let t = choose|t: int|
                0 <= t < front.len() && is_partition_in(#[trigger] front[t], path);
            assert(toolchains[t] == front[t]);
        }
        if own.contains(path) {
            assert(all[before.len() + own.index_of(path)] == path);
        }
        if all.contains(path) {
            let k = all.index_of(path);
            if k < before.len() {
                assert(before[k] == path);
            } else {
                assert(own[k - before.len()] == path);
            }
        }
        if exists|t: int|
            0 <= t < toolchains.len() && is_partition_in(#[trigger] toolchains[t], path) {
            let t = choose|t: int|
                0 <= t < toolchains.len() && is_partition_in(#[trigger] toolchains[t], path);
            if t < n {
                assert(front[t] == toolchains[t]);
            }
        }
    }
}

proof fn lemma_language_partitions(language: LanguageCache, path: Seq<char>)
    ensures
        language_partitions(language).contains(path) <==> is_partition_of(language, path),
{
    if is_partitioned(language) {
        lemma_all_toolchain_partitions(language.toolchains@, path);
    } else {
        assert(language_partitions(language)[0] == language.path@);
    }
}

/// A partition is in use exactly if it lies at, above or below a path that a current operation
/// uses. Which of two paths lies above the other makes no difference.
pub proof fn law_partitions_in_use_are_protected(
    path: Seq<char>,
    other: Seq<char>,
    protected: Seq<Seq<char>>,
    i: int,
)
    ensures
        overlap(path, other) == overlap(other, path),
        overlap(path, path),
        path_order::is_under(path, other) ==> overlap(path, other),
        !path_order::is_under(path, other) && !path_order::is_under(other, path) ==> !overlap(
            path,
            other,
        ),
        0 <= i < protected.len() && (path_order::is_under(path, protected[i])
            || path_order::is_under(protected[i], path)) ==> is_protected(path, protected),
        (forall|j: int|
            0 <= j < protected.len() ==> !path_order::is_under(path, #[trigger] protected[j])
                && !path_order::is_under(protected[j], path)) ==> !is_protected(path, protected),
{
    let own = path_order::components(path);
    assert(own.subrange(0, own.len() as int) =~= own);
    if 0 <= i < protected.len() && overlap(path, protected[i]) {
        assert(is_protected(path, protected));
    }
}

} // verus!
