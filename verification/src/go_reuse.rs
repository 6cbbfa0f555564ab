//! Which part of a retained Go basis may be reused.
//!
//! A basis is reused as a whole, or for all execution roots but the affected ones, or
//! not at all. Whatever cannot be shown to be unchanged counts as changed.

use vstd::prelude::*;

use crate::domain::CapabilityStatus;
use crate::index_state::FileRecord;
use crate::indexed_source_authority;
use crate::indexed_source_authority::language_for_path;
use crate::ordered;
use crate::ordered::StringMap;
use crate::path_order;
use crate::path_order::starts_with;
use crate::path_sorting;
use crate::path_sorting::sort_paths;
use crate::payload::{
    AuthorityModel, BoundRootModel, CallsProviderPayload, ProviderExecutionAuthority,
    ProviderPayload, ProviderSemanticInputs, SemanticInputsModel, SemanticPathInput,
    ToolchainBoundRoot,
};
use crate::semantic_basis::CanonicalSemanticBasis;
use crate::sorting;
use crate::source_freshness::DiscoveredFile;
use crate::text;
use crate::values::Value;

verus! {

/// What is reused of a retained basis, which is named by its position.
#[derive(Debug)]
pub enum GoSemanticReusePlan {
    /// The basis as it is.
    Exact { basis: usize },
    /// The basis without these roots, which run again.
    AffectedRoots { basis: usize, roots: StringMap<()> },
}

impl GoSemanticReusePlan {
    /// The roots that run again.
    pub open spec fn affected(&self) -> Set<Seq<char>> {
        match *self {
            GoSemanticReusePlan::Exact { .. } => Set::empty(),
            GoSemanticReusePlan::AffectedRoots { roots, .. } => roots@.dom(),
        }
    }

    /// The roots that run again and have a toolchain, in path order.
    pub open spec fn executable(&self, toolchains: Set<Seq<char>>) -> Seq<Seq<char>> {
        match *self {
            GoSemanticReusePlan::Exact { .. } => seq![],
            GoSemanticReusePlan::AffectedRoots { roots, .. } => known(
                path_sorting::sorted_paths(ordered::keys_of(roots.listing())),
                toolchains,
            ),
        }
    }

    /// The roots to execute.
    pub fn roots_to_execute<T>(&self, toolchains: &StringMap<T>) -> (r: Vec<String>)
        ensures
            r.deep_view() == self.executable(toolchains@.dom()),
    {
        let mut r: Vec<String> = Vec::new();
        match self {
            GoSemanticReusePlan::Exact { .. } => {
                assert(r.deep_view() =~= seq![]);
            },
            GoSemanticReusePlan::AffectedRoots { roots, .. } => {
                let keys = sort_paths(&key_texts(roots));
                let ghost all = keys.deep_view();
                assert(r.deep_view() =~= known(all.take(0), toolchains@.dom()));
                for i in 0..keys.len()
                    invariant
                        all == keys.deep_view(),
                        r.deep_view() == known(all.take(i as int), toolchains@.dom()),
                {
                    assert(all[i as int] == keys@[i as int]@);
                    assert(all.take(i + 1).drop_last() =~= all.take(i as int));
                    let ghost before = r.deep_view();
                    if toolchains.contains(keys[i].as_str()) {
                        r.push(keys[i].clone());
                        assert(r.deep_view() =~= before.push(all[i as int]));
                    }
                }
                assert(all.take(all.len() as int) =~= all);
            },
        }
        r
    }

    /// How often the provider has to run.
    pub fn expected_provider_executions(&self) -> (r: usize)
        ensures
            r == self.affected().len(),
    {
        match self {
            GoSemanticReusePlan::Exact { .. } => 0,
            GoSemanticReusePlan::AffectedRoots { roots, .. } => {
                let entries = roots.entries();
                proof {
                    ordered::lemma_len(entries@);
                }
                roots.len()
            },
        }
    }
}

/// The keys of a map.
pub fn key_texts<T>(map: &StringMap<T>) -> (r: Vec<String>)
    ensures
        r.deep_view() == ordered::keys_of(map.listing()),
{
    let entries = map.entries();
    let mut r: Vec<String> = Vec::new();
    for i in 0..entries.len()
        invariant
            entries@ == map.listing(),
            r@.len() == i,
            forall|j: int| 0 <= j < i ==> (#[trigger] r@[j])@ == entries@[j].0@,
    {
        r.push(entries[i].0.clone());
    }
    assert(r.deep_view() =~= ordered::keys_of(map.listing()));
    r
}

/// Those of the names that are known, in order.
pub open spec fn known(names: Seq<Seq<char>>, set: Set<Seq<char>>) -> Seq<Seq<char>>
    decreases names.len(),
{
    if names.len() == 0 {
        seq![]
    } else {
        let before = known(names.drop_last(), set);
        if set.contains(names.last()) {
            before.push(names.last())
        } else {
            before
        }
    }
}

/// The digest of each path, later ones in place of earlier ones.
pub open spec fn path_digests(paths: Seq<(Seq<char>, Seq<char>)>) -> Map<Seq<char>, Seq<char>>
    decreases paths.len(),
{
    if paths.len() == 0 {
        Map::empty()
    } else {
        path_digests(paths.drop_last()).insert(paths.last().0, paths.last().1)
    }
}

/// The strings of a map, as text.
pub open spec fn texts(m: Map<Seq<char>, String>) -> Map<Seq<char>, Seq<char>> {
    m.map_values(|s: String| s@)
}

fn digest_paths(paths: &Vec<SemanticPathInput>) -> (r: StringMap<String>)
    ensures
        texts(r@) == path_digests(paths.deep_view()),
{
    let ghost all = paths.deep_view();
    let mut r: StringMap<String> = StringMap::new();
    assert(texts(r@) =~= path_digests(all.take(0)));
    for i in 0..paths.len()
        invariant
            all == paths.deep_view(),
            texts(r@) == path_digests(all.take(i as int)),
    {
        let ghost before = r@;
        assert(all.take(i + 1).drop_last() =~= all.take(i as int));
        assert(all[i as int] == (paths@[i as int].path@, paths@[i as int].digest@));
        r.insert(paths[i].path.clone(), paths[i].digest.clone());
        assert(texts(r@) =~= texts(before).insert(all[i as int].0, all[i as int].1));
    }
    assert(all.take(all.len() as int) =~= all);
    r
}

/// The entry of a map, if there is one.
pub open spec fn entry<V>(m: Map<Seq<char>, V>, key: Seq<char>) -> Option<V> {
    if m.dom().contains(key) {
        Some(m[key])
    } else {
        None
    }
}

/// A root owns the input, before or now.
pub open spec fn owns(
    prior: Map<Seq<char>, StringMap<()>>,
    current: Map<Seq<char>, StringMap<()>>,
    path: Seq<char>,
    root: Seq<char>,
) -> bool {
    (prior.dom().contains(path) && prior[path]@.dom().contains(root)) || (current.dom().contains(
        path,
    ) && current[path]@.dom().contains(root))
}

/// No retained root owns the input.
pub open spec fn is_released(
    prior: Map<Seq<char>, StringMap<()>>,
    current: Map<Seq<char>, StringMap<()>>,
    path: Seq<char>,
    retained: Set<Seq<char>>,
) -> bool {
    forall|root: Seq<char>| #[trigger] owns(prior, current, path, root) ==> !retained.contains(root)
}

/// The inputs that the basis was made from are complete, and those of the retained roots
/// are what they were.
pub open spec fn inputs_are_current(
    prior: SemanticInputsModel,
    prior_roots: Option<Map<Seq<char>, StringMap<()>>>,
    current_roots: Option<Map<Seq<char>, StringMap<()>>>,
    current: Option<Seq<(Seq<char>, Seq<char>)>>,
    retained: Set<Seq<char>>,
) -> bool {
    &&& prior.complete
    &&& prior.environment.len() == 0
    &&& prior.issues.len() == 0
    &&& prior_roots is Some
    &&& current_roots is Some
    &&& path_digests(prior.paths).dom() == prior_roots->0.dom()
    &&& current is Some
    &&& forall|path: Seq<char>|
        (prior_roots->0.dom().contains(path) || current_roots->0.dom().contains(path))
            ==> #[trigger] is_released(prior_roots->0, current_roots->0, path, retained) || entry(
            path_digests(prior.paths),
            path,
        ) == entry(path_digests(current->0), path)
}

pub open spec fn map_of_option(m: Option<StringMap<StringMap<()>>>) -> Option<
    Map<Seq<char>, StringMap<()>>,
> {
    match m {
        Some(m) => Some(m@),
        None => None,
    }
}

fn touches(roots: &StringMap<StringMap<()>>, path: &str, retained: &StringMap<()>) -> (r: bool)
    ensures
        r <==> roots@.dom().contains(path@) && exists|root: Seq<char>| #[trigger]
            roots@[path@]@.dom().contains(root) && retained@.dom().contains(root),
{
    match roots.get(path) {
        None => false,
        Some(owners) => {
            let entries = owners.entries();
            let ghost keys = ordered::keys_of(owners.listing());
            for i in 0..entries.len()
                invariant
                    roots@.dom().contains(path@),
                    roots@[path@] == *owners,
                    entries@ == owners.listing(),
                    keys == ordered::keys_of(owners.listing()),
                    forall|j: int| 0 <= j < i ==> !retained@.dom().contains(#[trigger] keys[j]),
            {
                assert(keys[i as int] == entries@[i as int].0@);
                if retained.contains(entries[i].0.as_str()) {
                    assert(keys.contains(keys[i as int]));
                    assert(owners@.dom().contains(keys[i as int]));
                    return true;
                }
            }
            assert forall|root: Seq<char>| #[trigger] owners@.dom().contains(
                root,
            ) implies !retained@.dom().contains(root) by {
                assert(keys.contains(root));
                let j = keys.index_of(root);
                assert(keys[j] == root);
            }
            false
        },
    }
}

fn same_entry(a: &StringMap<String>, b: &StringMap<String>, key: &str) -> (r: bool)
    ensures
        r == (entry(texts(a@), key@) == entry(texts(b@), key@)),
{
    match (a.get(key), b.get(key)) {
        (Some(x), Some(y)) => text::same(x.as_str(), y.as_str()),
        (None, None) => true,
        _ => false,
    }
}

fn same_keys<A, B>(a: &StringMap<A>, b: &StringMap<B>) -> (r: bool)
    ensures
        r == (a@.dom() == b@.dom()),
{
    let x = a.entries();
    let y = b.entries();
    let ghost p = ordered::keys_of(a.listing());
    let ghost q = ordered::keys_of(b.listing());
    proof {
        if a@.dom() == b@.dom() {
            assert forall|k: Seq<char>| p.contains(k) <==> q.contains(k) by {
                assert(a@.dom().contains(k) <==> p.contains(k));
                assert(b@.dom().contains(k) <==> q.contains(k));
            }
            ordered::lemma_ascending_unique(p, q);
        }
    }
    if x.len() != y.len() {
        return false;
    }
    for i in 0..x.len()
        invariant
            x@ == a.listing(),
            y@ == b.listing(),
            x@.len() == y@.len(),
            p == ordered::keys_of(a.listing()),
            q == ordered::keys_of(b.listing()),
            a@.dom() == b@.dom() ==> p == q,
            forall|j: int| 0 <= j < i ==> (#[trigger] p[j]) == q[j],
    {
        assert(p[i as int] == x@[i as int].0@);
        assert(q[i as int] == y@[i as int].0@);
        if !text::same(x[i].0.as_str(), y[i].0.as_str()) {
            return false;
        }
    }
    proof {
        assert(p =~= q);
        assert forall|k: Seq<char>| a@.dom().contains(k) <==> b@.dom().contains(k) by {
            assert(a@.dom().contains(k) <==> p.contains(k));
            assert(b@.dom().contains(k) <==> q.contains(k));
        }
        assert(a@.dom() =~= b@.dom());
    }
    true
}

/// Whether the inputs of the retained roots are what they were.
pub fn go_retained_semantic_inputs_are_current(
    prior_inputs: &ProviderSemanticInputs,
    prior_input_roots: &Option<StringMap<StringMap<()>>>,
    current_input_roots: &Option<StringMap<StringMap<()>>>,
    current_inputs: &Option<Vec<SemanticPathInput>>,
    retained_roots: &StringMap<()>,
) -> (r: bool)
    ensures
        r == inputs_are_current(
            prior_inputs.deep_view(),
            map_of_option(*prior_input_roots),
            map_of_option(*current_input_roots),
            current_inputs.deep_view(),
            retained_roots@.dom(),
        ),
{
    if !prior_inputs.complete || prior_inputs.environment.len() > 0 || prior_inputs.issues.len()
        > 0 {
        return false;
    }
    let (prior_roots, current_roots, current) = match (
        prior_input_roots,
        current_input_roots,
        current_inputs,
    ) {
        (Some(a), Some(b), Some(c)) => (a, b, c),
        _ => {
            return false;
        },
    };
    let prior_paths = digest_paths(&prior_inputs.paths);
    let ghost before = path_digests(prior_inputs.deep_view().paths);
    assert(before.dom() =~= prior_paths@.dom());
    if !same_keys(&prior_paths, prior_roots) {
        return false;
    }
    let current_paths = digest_paths(current);
    let ghost retained = retained_roots@.dom();
    for round in 0..2usize
        invariant
            texts(prior_paths@) == before,
            texts(current_paths@) == path_digests(current.deep_view()),
            prior_input_roots == Some(*prior_roots),
            current_input_roots == Some(*current_roots),
            current_inputs == Some(*current),
            before == path_digests(prior_inputs.deep_view().paths),
            retained == retained_roots@.dom(),
            round > 0 ==> forall|path: Seq<char>|
                prior_roots@.dom().contains(path) ==> #[trigger] is_released(
                    prior_roots@,
                    current_roots@,
                    path,
                    retained,
                ) || entry(before, path) == entry(texts(current_paths@), path),
            round > 1 ==> forall|path: Seq<char>|
                current_roots@.dom().contains(path) ==> #[trigger] is_released(
                    prior_roots@,
                    current_roots@,
                    path,
                    retained,
                ) || entry(before, path) == entry(texts(current_paths@), path),
    {
        let side = if round == 0 {
            prior_roots
        } else {
            current_roots
        };
        let entries = side.entries();
        let ghost keys = ordered::keys_of(side.listing());
        for i in 0..entries.len()
            invariant
                entries@ == side.listing(),
                keys == ordered::keys_of(side.listing()),
                side@.dom().subset_of(prior_roots@.dom().union(current_roots@.dom())),
                texts(prior_paths@) == before,
                texts(current_paths@) == path_digests(current.deep_view()),
                prior_input_roots == Some(*prior_roots),
                current_input_roots == Some(*current_roots),
                current_inputs == Some(*current),
                before == path_digests(prior_inputs.deep_view().paths),
                retained == retained_roots@.dom(),
                forall|j: int|
                    #![trigger keys[j]]
                    0 <= j < i ==> is_released(prior_roots@, current_roots@, keys[j], retained)
                        || entry(before, keys[j]) == entry(texts(current_paths@), keys[j]),
        {
            let path = entries[i].0.as_str();
            assert(keys[i as int] == path@);
            let held = touches(prior_roots, path, retained_roots) || touches(
                current_roots,
                path,
                retained_roots,
            );
            proof {
                assert(held <==> !is_released(prior_roots@, current_roots@, path@, retained)) by {
                    if held {
                        if exists|root: Seq<char>| #[trigger]
                            prior_roots@[path@]@.dom().contains(root) && retained.contains(root)
                            && prior_roots@.dom().contains(path@) {
                            let root = choose|root: Seq<char>| #[trigger]
                                prior_roots@[path@]@.dom().contains(root) && retained.contains(root)
                                    && prior_roots@.dom().contains(path@);
                            assert(owns(prior_roots@, current_roots@, path@, root));
                        } else {
                            let root = choose|root: Seq<char>| #[trigger]
                                current_roots@[path@]@.dom().contains(root) && retained.contains(
                                    root,
                                );
                            assert(owns(prior_roots@, current_roots@, path@, root));
                        }
                    } else {
                        assert forall|root: Seq<char>| #[trigger]
                            owns(
                            prior_roots@,
                            current_roots@,
                            path@,
                            root,
                        ) implies !retained.contains(root) by {
                            if prior_roots@.dom().contains(path@)
                                && prior_roots@[path@]@.dom().contains(root) {
                            }
                        }
                    }
                }
            }
            if held && !same_entry(&prior_paths, &current_paths, path) {
                proof {
                    assert(keys.contains(path@));
                    assert(side@.dom().contains(path@));
                    assert(prior_roots@.dom().union(current_roots@.dom()).contains(path@));
                    assert(map_of_option(*prior_input_roots) == Some(prior_roots@));
                    assert(map_of_option(*current_input_roots) == Some(current_roots@));
                    assert(current_inputs.deep_view() == Some(current.deep_view()));
                    assert(!is_released(prior_roots@, current_roots@, path@, retained));
                    assert(entry(before, path@) != entry(
                        path_digests(current.deep_view()),
                        path@,
                    ));
                    let p = map_of_option(*prior_input_roots);
                    let q = map_of_option(*current_input_roots);
                    let now = current_inputs.deep_view();
                    assert(!is_released(p->0, q->0, path@, retained));
                    assert(!inputs_are_current(prior_inputs.deep_view(), p, q, now, retained));
                }
                return false;
            }
        }
        assert forall|path: Seq<char>|
            side@.dom().contains(path) implies #[trigger] is_released(
            prior_roots@,
            current_roots@,
            path,
            retained,
        ) || entry(before, path) == entry(texts(current_paths@), path) by {
            assert(keys.contains(path));
            let j = keys.index_of(path);
            assert(keys[j] == path);
        }
    }
    true
}

/// What is known of a project's Go inventory.
#[derive(Debug)]
pub struct GoInventoryFacts {
    /// The fingerprint of the whole, if it can be taken.
    pub fingerprint: Option<String>,
    /// The fingerprint of each execution root's part, if the whole can be divided.
    pub by_root: Option<StringMap<String>>,
    /// The roots that own each project input, if they are known.
    pub input_roots: Option<StringMap<StringMap<()>>>,
    /// The execution root of each document.
    pub document_roots: StringMap<String>,
}

/// The toolchains of a run.
#[derive(Debug)]
pub struct GoToolchains {
    /// Where each relative execution root leads, all links resolved.
    pub resolved_roots: StringMap<String>,
    /// The provider configuration that each resolved root with a toolchain calls for.
    pub configurations: StringMap<String>,
}

impl GoToolchains {
    /// The resolved root, if it has a toolchain.
    pub open spec fn resolved(self, relative: Seq<char>) -> Option<Seq<char>> {
        if self.resolved_roots@.dom().contains(relative) && self.configurations@.dom().contains(
            self.resolved_roots@[relative]@,
        ) {
            Some(self.resolved_roots@[relative]@)
        } else {
            None
        }
    }

    fn resolve(&self, relative: &str) -> (r: Option<&String>)
        ensures
            r.deep_view() == self.resolved(relative@),
    {
        match self.resolved_roots.get(relative) {
            Some(root) => if self.configurations.contains(root.as_str()) {
                Some(root)
            } else {
                None
            },
            None => None,
        }
    }
}

/// Everything that decides on the reuse of a Go basis.
pub struct GoReuseInputs<'a> {
    pub prior: &'a Vec<CanonicalSemanticBasis>,
    pub current_authority: Option<&'a ProviderExecutionAuthority>,
    pub toolchains: &'a GoToolchains,
    pub prior_inventory: Option<&'a GoInventoryFacts>,
    pub inventory: &'a GoInventoryFacts,
    pub changed_paths: &'a Vec<DiscoveredFile>,
    pub deleted_paths: &'a Vec<String>,
    pub existing_files: &'a StringMap<FileRecord>,
    /// The current project inputs as they were captured, if they were.
    pub current_inputs: &'a Option<Vec<SemanticPathInput>>,
}

/// A retained basis of the Go provider.
pub open spec fn is_go_basis(basis: CanonicalSemanticBasis) -> bool {
    basis.evidence.language_id.0@ == "go"@ && basis.snapshot.provider_id@ == "scip-go"@
}

/// The first Go basis from position `i` on.
pub open spec fn first_go_basis(prior: Seq<CanonicalSemanticBasis>, i: int) -> Option<int>
    decreases prior.len() - i,
{
    if i < 0 || i >= prior.len() {
        None
    } else if is_go_basis(prior[i]) {
        Some(i)
    } else {
        first_go_basis(prior, i + 1)
    }
}

fn find_go_basis(prior: &Vec<CanonicalSemanticBasis>, from: usize) -> (r: Option<usize>)
    requires
        from <= prior@.len(),
    ensures
        match r {
            Some(k) => first_go_basis(prior@, from as int) == Some(k as int) && from <= k
                < prior@.len(),
            None => first_go_basis(prior@, from as int) is None,
        },
{
    let mut i: usize = from;
    while i < prior.len()
        invariant
            from <= i <= prior@.len(),
            first_go_basis(prior@, i as int) == first_go_basis(prior@, from as int),
        decreases prior.len() - i,
    {
        if text::same(prior[i].evidence.language_id.0.as_str(), "go") && text::same(
            prior[i].snapshot.provider_id.as_str(),
            "scip-go",
        ) {
            return Some(i);
        }
        i += 1;
    }
    None
}

/// The roots of an authority by label, later ones in place of earlier ones.
pub open spec fn root_map(roots: Seq<BoundRootModel>) -> Map<Seq<char>, BoundRootModel>
    decreases roots.len(),
{
    if roots.len() == 0 {
        Map::empty()
    } else {
        root_map(roots.drop_last()).insert(roots.last().execution_root, roots.last())
    }
}

/// The positions stand for the roots.
pub open spec fn indexes(
    map: Map<Seq<char>, usize>,
    list: Seq<ToolchainBoundRoot>,
    roots: Map<Seq<char>, BoundRootModel>,
) -> bool {
    &&& map.dom() == roots.dom()
    &&& forall|label: Seq<char>| #[trigger]
        map.dom().contains(label) ==> map[label] < list.len() && list[map[label] as int].deep_view()
            == roots[label]
}

fn index_roots(roots: &Vec<ToolchainBoundRoot>) -> (r: StringMap<usize>)
    ensures
        indexes(r@, roots@, root_map(roots.deep_view())),
{
    let ghost all = roots.deep_view();
    let mut r: StringMap<usize> = StringMap::new();
    assert(r@.dom() =~= root_map(all.take(0)).dom());
    for i in 0..roots.len()
        invariant
            all == roots.deep_view(),
            indexes(r@, roots@, root_map(all.take(i as int))),
    {
        let ghost before = r@;
        assert(all.take(i + 1).drop_last() =~= all.take(i as int));
        assert(all[i as int] == roots@[i as int].deep_view());
        r.insert(roots[i].execution_root.clone(), i);
        proof {
            let next = root_map(all.take(i + 1));
            assert(r@.dom() =~= next.dom());
            assert forall|label: Seq<char>| #[trigger]
                r@.dom().contains(label) implies r@[label] < roots@.len()
                && roots@[r@[label] as int].deep_view() == next[label] by {
                if label != all[i as int].execution_root {
                    assert(before.dom().contains(label));
                }
            }
        }
    }
    assert(all.take(all.len() as int) =~= all);
    r
}

/// The candidate's calls payload agrees with its receipt and snapshot, and only inventory
/// and roots of its toolchain-bound authority may differ from the current one.
pub open spec fn is_comparable(
    basis: CanonicalSemanticBasis,
    payload: CallsProviderPayload,
    current: AuthorityModel,
) -> bool {
    let receipt = basis.evidence.receipt.deep_view();
    let prior = payload.execution_authority.deep_view();
    &&& receipt.status == CapabilityStatus::Complete
    &&& receipt.provider == "scip-go"@
    &&& payload.receipt.deep_view() == receipt
    &&& receipt.version == Some(basis.snapshot.executed_provider_version@)
    &&& prior is ToolchainBound
    &&& current is ToolchainBound
    &&& prior->policy == current->policy
    &&& prior->ecosystem == current->ecosystem
    &&& prior->contract == current->contract
    &&& prior->implementation == current->implementation
}

/// The two inventories are the ones that the two authorities were made for, and the
/// execution roots are the same, each with a toolchain.
pub open spec fn is_localizable(
    prior: AuthorityModel,
    current: AuthorityModel,
    prior_inventory: GoInventoryFacts,
    inventory: GoInventoryFacts,
    toolchains: GoToolchains,
) -> bool {
    &&& prior_inventory.fingerprint.deep_view() == Some(prior->inventory)
    &&& inventory.fingerprint.deep_view() == Some(current->inventory)
    &&& root_map(prior->roots).dom() == root_map(current->roots).dom()
    &&& root_map(current->roots).dom().len() == toolchains.configurations@.dom().len()
    &&& prior_inventory.by_root is Some
    &&& inventory.by_root is Some
}

/// The texts of an optional map.
pub open spec fn texts_of(m: Option<StringMap<String>>) -> Map<Seq<char>, Seq<char>> {
    texts(m->0@)
}

/// Something about an execution root is not what it was: its authority, its part of the
/// inventory, or the configuration that the snapshot was made under.
pub open spec fn has_drifted(
    basis: CanonicalSemanticBasis,
    prior: AuthorityModel,
    current: AuthorityModel,
    prior_inventory: GoInventoryFacts,
    inventory: GoInventoryFacts,
    toolchains: GoToolchains,
    label: Seq<char>,
) -> bool {
    let root = toolchains.resolved(label)->0;
    ||| entry(root_map(prior->roots), label) != entry(root_map(current->roots), label)
    ||| entry(texts_of(prior_inventory.by_root), label) != entry(
        texts_of(inventory.by_root),
        label,
    )
    ||| entry(texts(basis.snapshot.configurations@), root) != Some(
        toolchains.configurations@[root]@,
    )
}

/// A text with slashes for backslashes.
pub open spec fn slashed(s: Seq<char>) -> Seq<char> {
    s.map_values(
        |c: char|
            if c == '\\' {
                '/'
            } else {
                c
            },
    )
}

fn with_slashes(s: &str) -> (r: String)
    ensures
        r@ == slashed(s@),
{
    let chars = text::chars_of(s);
    let mut out: Vec<char> = Vec::new();
    for i in 0..chars.len()
        invariant
            chars@ == s@,
            out@.len() == i,
            forall|j: int| 0 <= j < i ==> #[trigger] out@[j] == slashed(s@)[j],
    {
        if chars[i] == '\\' {
            out.push('/');
        } else {
            out.push(chars[i]);
        }
    }
    assert(out@ =~= slashed(s@));
    text::string_of(out.as_slice())
}

/// A changed file of Go source.
pub open spec fn is_go_change(file: DiscoveredFile) -> bool {
    indexed_source_authority::language_at(file.path@) == Some("go"@)
}

/// The resolved execution root of a changed file, if there is one.
pub open spec fn changed_root(
    file: DiscoveredFile,
    inventory: GoInventoryFacts,
    toolchains: GoToolchains,
) -> Option<Seq<char>> {
    match file.relative {
        Some(relative) => if inventory.document_roots@.dom().contains(slashed(relative@)) {
            toolchains.resolved(inventory.document_roots@[slashed(relative@)]@)
        } else {
            None
        },
        None => None,
    }
}

/// A deleted file that was Go source.
pub open spec fn is_go_deletion(path: Seq<char>, existing: Map<Seq<char>, FileRecord>) -> bool {
    existing.dom().contains(path) && existing[path].language@ == "go"@
}

/// The label covers the document.
pub open spec fn covers(label: Seq<char>, path: Seq<char>) -> bool {
    label.len() == 0 || path_order::is_under(path, label)
}

/// The deepest of the labels that cover the document; of equally deep ones, the last.
pub open spec fn deepest(labels: Seq<Seq<char>>, path: Seq<char>) -> Option<Seq<char>>
    decreases labels.len(),
{
    if labels.len() == 0 {
        None
    } else {
        let before = deepest(labels.drop_last(), path);
        let last = labels.last();
        if covers(last, path) && (before matches Some(best) ==> path_order::components(best).len()
            <= path_order::components(last).len()) {
            Some(last)
        } else {
            before
        }
    }
}

/// The labels of an authority's roots, in order.
pub open spec fn root_labels(roots: Seq<BoundRootModel>) -> Seq<Seq<char>> {
    sorting::listed(root_map(roots).dom())
}

/// The resolved execution root that a deleted file belonged to, if there is one.
pub open spec fn deleted_root(
    path: Seq<char>,
    prior: AuthorityModel,
    toolchains: GoToolchains,
) -> Option<Seq<char>> {
    match deepest(root_labels(prior->roots), path) {
        Some(label) => toolchains.resolved(label),
        None => None,
    }
}

/// The labels of the roots that the changes of a run are attributed to are all known.
pub open spec fn all_resolved(
    inputs: GoReuseInputs<'_>,
    prior: AuthorityModel,
    current: AuthorityModel,
) -> bool {
    &&& forall|label: Seq<char>| #[trigger]
        root_map(current->roots).dom().contains(label) ==> inputs.toolchains.resolved(
            label,
        ) is Some
    &&& forall|i: int|
        0 <= i < inputs.changed_paths@.len() && is_go_change(#[trigger] inputs.changed_paths@[i])
            ==> changed_root(
            inputs.changed_paths@[i],
            *inputs.inventory,
            *inputs.toolchains,
        ) is Some
    &&& forall|i: int|
        0 <= i < inputs.deleted_paths@.len() && is_go_deletion(
            (#[trigger] inputs.deleted_paths@[i])@,
            inputs.existing_files@,
        ) ==> deleted_root(inputs.deleted_paths@[i]@, prior, *inputs.toolchains) is Some
}

/// A root that drifted.
pub open spec fn drifted_root(
    inputs: GoReuseInputs<'_>,
    basis: CanonicalSemanticBasis,
    prior: AuthorityModel,
    current: AuthorityModel,
    root: Seq<char>,
) -> bool {
    exists|label: Seq<char>| #[trigger]
        root_map(current->roots).dom().contains(label) && inputs.toolchains.resolved(label) == Some(
            root,
        ) && has_drifted(
            basis,
            prior,
            current,
            *inputs.prior_inventory->0,
            *inputs.inventory,
            *inputs.toolchains,
            label,
        )
}

/// A root with a changed Go file.
pub open spec fn touched_root(inputs: GoReuseInputs<'_>, root: Seq<char>) -> bool {
    exists|i: int|
        0 <= i < inputs.changed_paths@.len() && is_go_change(#[trigger] inputs.changed_paths@[i])
            && changed_root(inputs.changed_paths@[i], *inputs.inventory, *inputs.toolchains)
            == Some(root)
}

/// A root that lost a Go file.
pub open spec fn bereft_root(
    inputs: GoReuseInputs<'_>,
    prior: AuthorityModel,
    root: Seq<char>,
) -> bool {
    exists|i: int|
        0 <= i < inputs.deleted_paths@.len() && is_go_deletion(
            (#[trigger] inputs.deleted_paths@[i])@,
            inputs.existing_files@,
        ) && deleted_root(inputs.deleted_paths@[i]@, prior, *inputs.toolchains) == Some(root)
}

/// The roots that have to run again: those that drifted, and those with a changed or a
/// deleted Go file.
pub open spec fn affected_roots(
    inputs: GoReuseInputs<'_>,
    basis: CanonicalSemanticBasis,
    prior: AuthorityModel,
    current: AuthorityModel,
) -> Set<Seq<char>> {
    Set::new(
        |root: Seq<char>|
            drifted_root(inputs, basis, prior, current, root) || touched_root(inputs, root)
                || bereft_root(inputs, prior, root),
    )
}

/// The labels of the roots that are kept.
pub open spec fn retained_labels(
    inputs: GoReuseInputs<'_>,
    current: AuthorityModel,
    affected: Set<Seq<char>>,
) -> Set<Seq<char>> {
    Set::new(
        |label: Seq<char>|
            root_map(current->roots).dom().contains(label) && inputs.toolchains.resolved(
                label,
            ) is Some && !affected.contains(inputs.toolchains.resolved(label)->0),
    )
}

/// The calls payload of a basis.
pub open spec fn calls_payload(basis: CanonicalSemanticBasis) -> Option<CallsProviderPayload> {
    match basis.evidence.payload {
        Some(ProviderPayload::Calls(payload)) => Some(payload),
        _ => None,
    }
}

/// What can be reused of one comparable basis: nothing, or all but the affected roots.
pub open spec fn reusable_part(
    inputs: GoReuseInputs<'_>,
    basis: CanonicalSemanticBasis,
    payload: CallsProviderPayload,
    current: AuthorityModel,
) -> Option<Set<Seq<char>>> {
    let prior = payload.execution_authority.deep_view();
    let prior_inventory = *inputs.prior_inventory->0;
    let affected = affected_roots(inputs, basis, prior, current);
    if !is_comparable(basis, payload, current) || inputs.prior_inventory is None || !is_localizable(
        prior,
        current,
        prior_inventory,
        *inputs.inventory,
        *inputs.toolchains,
    ) || !all_resolved(inputs, prior, current) || !inputs_are_current(
        payload.semantic_inputs.deep_view(),
        map_of_option(prior_inventory.input_roots),
        map_of_option(inputs.inventory.input_roots),
        inputs.current_inputs.deep_view(),
        retained_labels(inputs, current, affected),
    ) {
        None
    } else if affected.len() == 0 {
        if prior == current {
            Some(affected)
        } else {
            None
        }
    } else if affected.len() < inputs.toolchains.configurations@.dom().len() {
        Some(affected)
    } else {
        None
    }
}

/// What can be reused: the position of the one Go basis, and the roots that run again.
pub open spec fn reuse_of(inputs: GoReuseInputs<'_>) -> Option<(int, Set<Seq<char>>)> {
    match first_go_basis(inputs.prior@, 0) {
        Some(k) => if first_go_basis(inputs.prior@, k + 1) is Some || inputs.current_authority is None
            || calls_payload(inputs.prior@[k]) is None {
            None
        } else {
            match reusable_part(
                inputs,
                inputs.prior@[k],
                calls_payload(inputs.prior@[k])->0,
                inputs.current_authority->0.deep_view(),
            ) {
                Some(affected) => Some((k, affected)),
                None => None,
            }
        },
        None => None,
    }
}

fn label_list(map: &StringMap<usize>) -> (r: Vec<String>)
    ensures
        r.deep_view() == sorting::listed(map@.dom()),
{
    let entries = map.entries();
    let mut r: Vec<String> = Vec::new();
    for i in 0..entries.len()
        invariant
            entries@ == map.listing(),
            r@.len() == i,
            forall|j: int| 0 <= j < i ==> (#[trigger] r@[j])@ == entries@[j].0@,
    {
        r.push(entries[i].0.clone());
    }
    proof {
        sorting::lemma_listed(map.listing());
        assert(r.deep_view() =~= ordered::keys_of(map.listing()));
    }
    r
}

/// The execution root that a document of the retained basis belonged to.
fn execution_root_for_prior_document<'a>(labels: &'a Vec<String>, path: &str) -> (r: Option<
    &'a String,
>)
    ensures
        r.deep_view() == deepest(labels.deep_view(), path@),
{
    let ghost all = labels.deep_view();
    let mut best: Option<&'a String> = None;
    assert(all.take(0) =~= seq![]);
    for i in 0..labels.len()
        invariant
            all == labels.deep_view(),
            best.deep_view() == deepest(all.take(i as int), path@),
    {
        let label = &labels[i];
        assert(all[i as int] == label@);
        assert(all.take(i + 1).drop_last() =~= all.take(i as int));
        if label.as_str().is_empty() || starts_with(path, label.as_str()) {
            let deeper = match best {
                Some(found) => path_order::component_count(found.as_str())
                    <= path_order::component_count(label.as_str()),
                None => true,
            };
            if deeper {
                best = Some(label);
            }
        }
    }
    assert(all.take(all.len() as int) =~= all);
    best
}

/// Every label of the current roots resolves.
pub open spec fn labels_resolve(toolchains: GoToolchains, current: AuthorityModel) -> bool {
    forall|label: Seq<char>| #[trigger]
        root_map(current->roots).dom().contains(label) ==> toolchains.resolved(label) is Some
}

fn collect_drifted(
    inputs: &GoReuseInputs<'_>,
    prior_inventory: &GoInventoryFacts,
    basis: &CanonicalSemanticBasis,
    prior_roots: &Vec<ToolchainBoundRoot>,
    current_roots: &Vec<ToolchainBoundRoot>,
    Ghost(prior): Ghost<AuthorityModel>,
    Ghost(current): Ghost<AuthorityModel>,
) -> (r: Option<StringMap<()>>)
    requires
        prior is ToolchainBound,
        current is ToolchainBound,
        prior->roots == prior_roots.deep_view(),
        current->roots == current_roots.deep_view(),
        inputs.prior_inventory == Some(prior_inventory),
        prior_inventory.by_root is Some,
        inputs.inventory.by_root is Some,
        root_map(prior->roots).dom() == root_map(current->roots).dom(),
    ensures
        match r {
            Some(affected) => labels_resolve(*inputs.toolchains, current) && forall|
                root: Seq<char>,
            | #[trigger]
                affected@.dom().contains(root) <==> drifted_root(
                    *inputs,
                    *basis,
                    prior,
                    current,
                    root,
                ),
            None => !labels_resolve(*inputs.toolchains, current),
        },
{
    let before = index_roots(prior_roots);
    let now = index_roots(current_roots);
    let entries = now.entries();
    let ghost labels = ordered::keys_of(now.listing());
    let mut affected: StringMap<()> = StringMap::new();
    for i in 0..entries.len()
        invariant
            entries@ == now.listing(),
            labels == ordered::keys_of(now.listing()),
            prior is ToolchainBound,
            current is ToolchainBound,
            prior->roots == prior_roots.deep_view(),
            current->roots == current_roots.deep_view(),
            indexes(before@, prior_roots@, root_map(prior->roots)),
            indexes(now@, current_roots@, root_map(current->roots)),
            inputs.prior_inventory == Some(prior_inventory),
            prior_inventory.by_root is Some,
            inputs.inventory.by_root is Some,
            root_map(prior->roots).dom() == root_map(current->roots).dom(),
            forall|j: int|
                0 <= j < i ==> inputs.toolchains.resolved(#[trigger] labels[j]) is Some,
            forall|root: Seq<char>| #[trigger]
                affected@.dom().contains(root) <==> exists|j: int|
                    0 <= j < i && inputs.toolchains.resolved(#[trigger] labels[j]) == Some(root)
                        && has_drifted(
                        *basis,
                        prior,
                        current,
                        *prior_inventory,
                        *inputs.inventory,
                        *inputs.toolchains,
                        labels[j],
                    ),
    {
        let label = entries[i].0.as_str();
        proof {
            assert(labels[i as int] == label@);
            assert(labels.contains(label@));
            assert(now@.dom().contains(label@));
            assert(before@.dom().contains(label@));
        }
        let root = match inputs.toolchains.resolve(label) {
            Some(root) => root,
            None => {
                return None;
            },
        };
        let same_root = match (before.get(label), now.get(label)) {
            (Some(a), Some(b)) => prior_roots[*a].same(&current_roots[*b]),
            _ => false,
        };
        let same_inventory = match (&prior_inventory.by_root, &inputs.inventory.by_root) {
            (Some(a), Some(b)) => same_entry(a, b, label),
            _ => false,
        };
        let same_configuration = match (
            basis.snapshot.configurations.get(root.as_str()),
            inputs.toolchains.configurations.get(root.as_str()),
        ) {
            (Some(a), Some(b)) => text::same(a.as_str(), b.as_str()),
            _ => false,
        };
        let ghost drifted = has_drifted(
            *basis,
            prior,
            current,
            *prior_inventory,
            *inputs.inventory,
            *inputs.toolchains,
            label@,
        );
        assert(drifted == !(same_root && same_inventory && same_configuration));
        let ghost earlier = affected@.dom();
        if !(same_root && same_inventory && same_configuration) {
            affected.insert(root.clone(), ());
        }
        proof {
            assert forall|r: Seq<char>| #[trigger] affected@.dom().contains(r) <==> exists|j: int|
                0 <= j < i + 1 && inputs.toolchains.resolved(#[trigger] labels[j]) == Some(r)
                    && has_drifted(
                    *basis,
                    prior,
                    current,
                    *prior_inventory,
                    *inputs.inventory,
                    *inputs.toolchains,
                    labels[j],
                ) by {
                assert(labels[i as int] == label@);
                if earlier.contains(r) {
                    let j = choose|j: int|
                        0 <= j < i && inputs.toolchains.resolved(#[trigger] labels[j]) == Some(r)
                            && has_drifted(
                            *basis,
                            prior,
                            current,
                            *prior_inventory,
                            *inputs.inventory,
                            *inputs.toolchains,
                            labels[j],
                        );
                    assert(0 <= j < i + 1);
                    assert(inputs.toolchains.resolved(labels[j]) == Some(r));
                }
            }
        }
    }
    proof {
        assert forall|label: Seq<char>| #[trigger]
            root_map(current->roots).dom().contains(label) implies inputs.toolchains.resolved(
            label,
        ) is Some by {
            assert(now@.dom().contains(label));
            assert(labels.contains(label));
            let j = labels.index_of(label);
            assert(labels[j] == label);
        }
        assert forall|root: Seq<char>| #[trigger]
            affected@.dom().contains(root) <==> drifted_root(
            *inputs,
            *basis,
            prior,
            current,
            root,
        ) by {
            if affected@.dom().contains(root) {
                let j = choose|j: int|
                    0 <= j < labels.len() && inputs.toolchains.resolved(#[trigger] labels[j])
                        == Some(root) && has_drifted(
                        *basis,
                        prior,
                        current,
                        *prior_inventory,
                        *inputs.inventory,
                        *inputs.toolchains,
                        labels[j],
                    );
                assert(labels.contains(labels[j]));
                assert(now@.dom().contains(labels[j]));
                assert(root_map(current->roots).dom().contains(labels[j]));
            }
            if drifted_root(*inputs, *basis, prior, current, root) {
                let label = choose|label: Seq<char>| #[trigger]
                    root_map(current->roots).dom().contains(label) && inputs.toolchains.resolved(
                        label,
                    ) == Some(root) && has_drifted(
                        *basis,
                        prior,
                        current,
                        *inputs.prior_inventory->0,
                        *inputs.inventory,
                        *inputs.toolchains,
                        label,
                    );
                assert(now@.dom().contains(label));
                assert(labels.contains(label));
                let j = labels.index_of(label);
                assert(labels[j] == label);
            }
        }
    }
    Some(affected)
}

/// Every changed Go file has a resolved root.
pub open spec fn changes_resolve(inputs: GoReuseInputs<'_>) -> bool {
    forall|i: int|
        0 <= i < inputs.changed_paths@.len() && is_go_change(#[trigger] inputs.changed_paths@[i])
            ==> changed_root(
            inputs.changed_paths@[i],
            *inputs.inventory,
            *inputs.toolchains,
        ) is Some
}

fn add_changed(inputs: &GoReuseInputs<'_>, affected: &mut StringMap<()>) -> (r: bool)
    ensures
        r == changes_resolve(*inputs),
        r ==> forall|root: Seq<char>| #[trigger]
            final(affected)@.dom().contains(root) <==> old(affected)@.dom().contains(root)
                || touched_root(*inputs, root),
{
    let ghost before = affected@.dom();
    let changed = inputs.changed_paths;
    for i in 0..changed.len()
        invariant
            changed == inputs.changed_paths,
            forall|j: int|
                0 <= j < i && is_go_change(#[trigger] changed@[j]) ==> changed_root(
                    changed@[j],
                    *inputs.inventory,
                    *inputs.toolchains,
                ) is Some,
            forall|root: Seq<char>| #[trigger]
                affected@.dom().contains(root) <==> before.contains(root) || exists|j: int|
                    0 <= j < i && is_go_change(#[trigger] changed@[j]) && changed_root(
                        changed@[j],
                        *inputs.inventory,
                        *inputs.toolchains,
                    ) == Some(root),
    {
        let file = &changed[i];
        let is_go = match language_for_path(file.path.as_str()) {
            Some(language) => text::same(language, "go"),
            None => false,
        };
        assert(is_go == is_go_change(changed@[i as int]));
        let ghost earlier = affected@.dom();
        if is_go {
            let root = match &file.relative {
                Some(relative) => match inputs.inventory.document_roots.get(
                    with_slashes(relative.as_str()).as_str(),
                ) {
                    Some(label) => inputs.toolchains.resolve(label.as_str()),
                    None => None,
                },
                None => None,
            };
            assert(root.deep_view() == changed_root(
                changed@[i as int],
                *inputs.inventory,
                *inputs.toolchains,
            ));
            match root {
                Some(root) => {
                    affected.insert(root.clone(), ());
                },
                None => {
                    assert(is_go_change(inputs.changed_paths@[i as int]));
                    return false;
                },
            }
        }
        proof {
            assert forall|root: Seq<char>| #[trigger]
                affected@.dom().contains(root) <==> before.contains(root) || exists|j: int|
                0 <= j < i + 1 && is_go_change(#[trigger] changed@[j]) && changed_root(
                    changed@[j],
                    *inputs.inventory,
                    *inputs.toolchains,
                ) == Some(root) by {
                assert(earlier.contains(root) <==> before.contains(root) || exists|j: int|
                    0 <= j < i && is_go_change(#[trigger] changed@[j]) && changed_root(
                        changed@[j],
                        *inputs.inventory,
                        *inputs.toolchains,
                    ) == Some(root));
                if is_go {
                    assert(is_go_change(changed@[i as int]));
                }
            }
        }
    }
    true
}

/// Every deleted Go file has a resolved root.
pub open spec fn deletions_resolve(inputs: GoReuseInputs<'_>, prior: AuthorityModel) -> bool {
    forall|i: int|
        0 <= i < inputs.deleted_paths@.len() && is_go_deletion(
            (#[trigger] inputs.deleted_paths@[i])@,
            inputs.existing_files@,
        ) ==> deleted_root(inputs.deleted_paths@[i]@, prior, *inputs.toolchains) is Some
}

fn add_deleted(
    inputs: &GoReuseInputs<'_>,
    prior_roots: &Vec<ToolchainBoundRoot>,
    affected: &mut StringMap<()>,
    Ghost(prior): Ghost<AuthorityModel>,
) -> (r: bool)
    requires
        prior is ToolchainBound,
        prior->roots == prior_roots.deep_view(),
    ensures
        r == deletions_resolve(*inputs, prior),
        r ==> forall|root: Seq<char>| #[trigger]
            final(affected)@.dom().contains(root) <==> old(affected)@.dom().contains(root)
                || bereft_root(*inputs, prior, root),
{
    let ghost before = affected@.dom();
    let indexed = index_roots(prior_roots);
    let labels = label_list(&indexed);
    assert(labels.deep_view() == root_labels(prior->roots));
    let deleted = inputs.deleted_paths;
    for i in 0..deleted.len()
        invariant
            deleted == inputs.deleted_paths,
            labels.deep_view() == root_labels(prior->roots),
            forall|j: int|
                0 <= j < i && is_go_deletion((#[trigger] deleted@[j])@, inputs.existing_files@)
                    ==> deleted_root(deleted@[j]@, prior, *inputs.toolchains) is Some,
            forall|root: Seq<char>| #[trigger]
                affected@.dom().contains(root) <==> before.contains(root) || exists|j: int|
                    0 <= j < i && is_go_deletion((#[trigger] deleted@[j])@, inputs.existing_files@)
                        && deleted_root(deleted@[j]@, prior, *inputs.toolchains) == Some(root),
    {
        let path = deleted[i].as_str();
        let is_go = match inputs.existing_files.get(path) {
            Some(record) => text::same(record.language.as_str(), "go"),
            None => false,
        };
        assert(is_go == is_go_deletion(deleted@[i as int]@, inputs.existing_files@));
        let ghost earlier = affected@.dom();
        if is_go {
            let root = match execution_root_for_prior_document(&labels, path) {
                Some(label) => inputs.toolchains.resolve(label.as_str()),
                None => None,
            };
            assert(root.deep_view() == deleted_root(deleted@[i as int]@, prior, *inputs.toolchains));
            match root {
                Some(root) => {
                    affected.insert(root.clone(), ());
                },
                None => {
                    assert(is_go_deletion(
                        inputs.deleted_paths@[i as int]@,
                        inputs.existing_files@,
                    ));
                    return false;
                },
            }
        }
        proof {
            assert forall|root: Seq<char>| #[trigger]
                affected@.dom().contains(root) <==> before.contains(root) || exists|j: int|
                0 <= j < i + 1 && is_go_deletion((#[trigger] deleted@[j])@, inputs.existing_files@)
                    && deleted_root(deleted@[j]@, prior, *inputs.toolchains) == Some(root) by {
                assert(earlier.contains(root) <==> before.contains(root) || exists|j: int|
                    0 <= j < i && is_go_deletion((#[trigger] deleted@[j])@, inputs.existing_files@)
                        && deleted_root(deleted@[j]@, prior, *inputs.toolchains) == Some(root));
                assert(deleted@[i as int]@ == path@);
            }
        }
    }
    true
}

fn collect_retained(
    inputs: &GoReuseInputs<'_>,
    current_roots: &Vec<ToolchainBoundRoot>,
    affected: &StringMap<()>,
    Ghost(current): Ghost<AuthorityModel>,
) -> (r: StringMap<()>)
    requires
        current is ToolchainBound,
        current->roots == current_roots.deep_view(),
    ensures
        r@.dom() == retained_labels(*inputs, current, affected@.dom()),
{
    let now = index_roots(current_roots);
    let entries = now.entries();
    let ghost labels = ordered::keys_of(now.listing());
    let mut r: StringMap<()> = StringMap::new();
    for i in 0..entries.len()
        invariant
            entries@ == now.listing(),
            labels == ordered::keys_of(now.listing()),
            forall|label: Seq<char>| #[trigger]
                r@.dom().contains(label) <==> exists|j: int|
                    0 <= j < i && #[trigger] labels[j] == label && inputs.toolchains.resolved(
                        label,
                    ) is Some && !affected@.dom().contains(inputs.toolchains.resolved(label)->0),
    {
        let label = entries[i].0.as_str();
        assert(labels[i as int] == label@);
        let ghost earlier = r@.dom();
        let kept = match inputs.toolchains.resolve(label) {
            Some(root) => !affected.contains(root.as_str()),
            None => false,
        };
        if kept {
            r.insert(label.to_owned(), ());
        }
        proof {
            assert forall|l: Seq<char>| #[trigger] r@.dom().contains(l) <==> exists|j: int|
                0 <= j < i + 1 && #[trigger] labels[j] == l && inputs.toolchains.resolved(
                    l,
                ) is Some && !affected@.dom().contains(inputs.toolchains.resolved(l)->0) by {
                if earlier.contains(l) {
                    let j = choose|j: int|
                        0 <= j < i && #[trigger] labels[j] == l && inputs.toolchains.resolved(
                            l,
                        ) is Some && !affected@.dom().contains(inputs.toolchains.resolved(l)->0);
                    assert(labels[j] == l);
                }
            }
        }
    }
    proof {
        let wanted = retained_labels(*inputs, current, affected@.dom());
        assert forall|label: Seq<char>| r@.dom().contains(label) <==> wanted.contains(label) by {
            if r@.dom().contains(label) {
                assert(labels.contains(label));
                assert(now@.dom().contains(label));
            }
            if wanted.contains(label) {
                assert(now@.dom().contains(label));
                assert(labels.contains(label));
                let j = labels.index_of(label);
                assert(labels[j] == label);
            }
        }
        assert(r@.dom() =~= wanted);
    }
    r
}

/// The plan is what can be reused.
pub open spec fn is_plan(plan: Option<GoSemanticReusePlan>, reuse: Option<(int, Set<Seq<char>>)>) -> bool {
    match (plan, reuse) {
        (None, None) => true,
        (Some(GoSemanticReusePlan::Exact { basis }), Some((k, affected))) => basis == k
            && affected.len() == 0,
        (Some(GoSemanticReusePlan::AffectedRoots { basis, roots }), Some((k, affected))) => basis
            == k && affected.len() > 0 && roots@.dom() == affected,
        _ => false,
    }
}

/// Decides which part of a retained Go basis may be reused.
pub fn go_semantic_reuse_plan(inputs: &GoReuseInputs<'_>) -> (r: Option<GoSemanticReusePlan>)
    ensures
        is_plan(r, reuse_of(*inputs)),
{
    let n = inputs.prior.len();
    let k = match find_go_basis(inputs.prior, 0) {
        Some(k) => k,
        None => {
            return None;
        },
    };
    if find_go_basis(inputs.prior, k + 1).is_some() {
        return None;
    }
    let basis = &inputs.prior[k];
    let payload = match &basis.evidence.payload {
        Some(ProviderPayload::Calls(payload)) => payload,
        _ => {
            return None;
        },
    };
    let authority = match inputs.current_authority {
        Some(authority) => authority,
        None => {
            return None;
        },
    };
    let ghost prior = payload.execution_authority.deep_view();
    let ghost current = authority.deep_view();
    let receipt = &basis.evidence.receipt;
    if receipt.status != CapabilityStatus::Complete || !text::same(
        receipt.provider_id.0.as_str(),
        "scip-go",
    ) || !payload.receipt.same(receipt) || !text::option_is(
        &receipt.provider_version,
        basis.snapshot.executed_provider_version.as_str(),
    ) {
        return None;
    }
    let (prior_inventory_sha256, prior_roots, current_inventory_sha256, current_roots) = match (
        &payload.execution_authority,
        authority,
    ) {
        (
            ProviderExecutionAuthority::ToolchainBound {
                resolver_policy_id: prior_policy,
                ecosystem_id: prior_ecosystem,
                reuse_contract_id: prior_contract,
                provider_implementation_sha256: prior_implementation,
                provider_inventory_sha256: prior_inventory,
                roots: prior_roots,
            },
            ProviderExecutionAuthority::ToolchainBound {
                resolver_policy_id: policy,
                ecosystem_id: ecosystem,
                reuse_contract_id: contract,
                provider_implementation_sha256: implementation,
                provider_inventory_sha256: inventory,
                roots,
            },
        ) => {
            if !prior_policy.same(policy) || !prior_ecosystem.same(ecosystem)
                || !prior_contract.same(contract) || !prior_implementation.same(implementation) {
                return None;
            }
            (prior_inventory, prior_roots, inventory, roots)
        },
        _ => {
            return None;
        },
    };
    assert(is_comparable(*basis, *payload, current));
    let prior_inventory = match inputs.prior_inventory {
        Some(facts) => facts,
        None => {
            return None;
        },
    };
    if !text::option_is(&prior_inventory.fingerprint, prior_inventory_sha256.as_str())
        || !text::option_is(&inputs.inventory.fingerprint, current_inventory_sha256.as_str()) {
        return None;
    }
    let before = index_roots(prior_roots);
    let now = index_roots(current_roots);
    let now_entries = now.entries();
    let toolchain_entries = inputs.toolchains.configurations.entries();
    proof {
        ordered::lemma_len(now_entries@);
        ordered::lemma_len(toolchain_entries@);
    }
    if !same_keys(&before, &now) || now.len() != inputs.toolchains.configurations.len() {
        return None;
    }
    if prior_inventory.by_root.is_none() || inputs.inventory.by_root.is_none() {
        return None;
    }
    assert(is_localizable(
        prior,
        current,
        *prior_inventory,
        *inputs.inventory,
        *inputs.toolchains,
    ));
    let mut affected = match collect_drifted(
        inputs,
        prior_inventory,
        basis,
        prior_roots,
        current_roots,
        Ghost(prior),
        Ghost(current),
    ) {
        Some(affected) => affected,
        None => {
            assert(!all_resolved(*inputs, prior, current));
            return None;
        },
    };
    if !add_changed(inputs, &mut affected) {
        assert(!all_resolved(*inputs, prior, current));
        return None;
    }
    if !add_deleted(inputs, prior_roots, &mut affected, Ghost(prior)) {
        assert(!all_resolved(*inputs, prior, current));
        return None;
    }
    assert(all_resolved(*inputs, prior, current));
    let ghost wanted = affected_roots(*inputs, *basis, prior, current);
    assert(affected@.dom() =~= wanted);
    let retained = collect_retained(inputs, current_roots, &affected, Ghost(current));
    if !go_retained_semantic_inputs_are_current(
        &payload.semantic_inputs,
        &prior_inventory.input_roots,
        &inputs.inventory.input_roots,
        inputs.current_inputs,
        &retained,
    ) {
        return None;
    }
    let affected_entries = affected.entries();
    proof {
        ordered::lemma_len(affected_entries@);
    }
    if affected.len() == 0 {
        if !payload.execution_authority.same(authority) {
            return None;
        }
        return Some(GoSemanticReusePlan::Exact { basis: k });
    }
    if affected.len() < inputs.toolchains.configurations.len() {
        Some(GoSemanticReusePlan::AffectedRoots { basis: k, roots: affected })
    } else {
        None
    }
}

/// A plan never keeps a root that drifted, changed or lost a file, and it never runs
/// every root again: that would not be a reuse.
pub proof fn law_plan_keeps_only_unaffected_roots(
    inputs: GoReuseInputs<'_>,
    plan: GoSemanticReusePlan,
    root: Seq<char>,
)
    requires
        is_plan(Some(plan), reuse_of(inputs)),
    ensures
        ({
            let found = reuse_of(inputs)->0;
            let k = found.0;
            let basis = inputs.prior@[k];
            let prior = calls_payload(basis)->0.execution_authority.deep_view();
            let current = inputs.current_authority->0.deep_view();
            &&& affected_roots(inputs, basis, prior, current).len() > 0 ==> (
            plan.affected().contains(root) <==> drifted_root(inputs, basis, prior, current, root)
                || touched_root(inputs, root) || bereft_root(inputs, prior, root))
            &&& affected_roots(inputs, basis, prior, current).len() == 0 ==> plan is Exact && prior
                == current
            &&& plan.affected().len() == 0 || plan.affected().len()
                < inputs.toolchains.configurations@.dom().len()
        }),
{
}

/// Without a current authority, or with more or less than one retained Go basis, nothing
/// is reused.
pub proof fn law_ambiguous_or_unbound_basis_is_refused(inputs: GoReuseInputs<'_>)
    ensures
        inputs.current_authority is None ==> reuse_of(inputs) is None,
        first_go_basis(inputs.prior@, 0) is None ==> reuse_of(inputs) is None,
        first_go_basis(inputs.prior@, 0) matches Some(k) && first_go_basis(
            inputs.prior@,
            k + 1,
        ) is Some ==> reuse_of(inputs) is None,
{
}

/// The authority under which Go evidence may be reused, if everything that it rests on
/// is there: a bounded project, a resolver policy, the provider's implementation and
/// configurations, and the authority that they make.
pub fn go_toolchain_bound_authority(
    bounded: bool,
    resolver_policy_id: Option<String>,
    provider_implementation: Result<String, String>,
    provider_configurations: Result<StringMap<String>, String>,
    authority: Result<ProviderExecutionAuthority, String>,
) -> (r: Option<ProviderExecutionAuthority>)
    ensures
        r == if bounded && resolver_policy_id is Some && provider_implementation is Ok
            && provider_configurations is Ok && authority is Ok {
            Some(authority->Ok_0)
        } else {
            None
        },
{
    if !bounded || resolver_policy_id.is_none() || provider_implementation.is_err()
        || provider_configurations.is_err() {
        return None;
    }
    match authority {
        Ok(authority) => Some(authority),
        Err(_) => None,
    }
}

impl GoSemanticReusePlan {
    /// The position of the basis that is reused.
    pub open spec fn basis(&self) -> int {
        match *self {
            GoSemanticReusePlan::Exact { basis } => basis as int,
            GoSemanticReusePlan::AffectedRoots { basis, .. } => basis as int,
        }
    }
}

/// The root that a label leads to has a toolchain.
pub open spec fn leads_to(toolchains: GoToolchains, label: Seq<char>, root: Seq<char>) -> bool {
    &&& toolchains.resolved_roots@.dom().contains(label)
    &&& toolchains.resolved_roots@[label]@ == root
    &&& toolchains.configurations@.dom().contains(root)
}

/// The root at position `j` is the last one with its label.
pub open spec fn is_last_root(roots: Seq<BoundRootModel>, j: int, label: Seq<char>) -> bool {
    &&& 0 <= j < roots.len()
    &&& roots[j].execution_root == label
    &&& forall|l: int| j < l < roots.len() ==> (#[trigger] roots[l]).execution_root != label
}

proof fn lemma_root_map(roots: Seq<BoundRootModel>, label: Seq<char>)
    ensures
        root_map(roots).dom().finite(),
        root_map(roots).dom().contains(label) <==> exists|j: int|
            0 <= j < roots.len() && (#[trigger] roots[j]).execution_root == label,
        root_map(roots).dom().contains(label) ==> exists|j: int| #[trigger]
            is_last_root(roots, j, label) && root_map(roots)[label] == roots[j],
    decreases roots.len(),
{
    if roots.len() > 0 {
        let n = roots.len() - 1;
        let front = roots.drop_last();
        lemma_root_map(front, label);
        assert(roots.last() == roots[n]);
        if roots[n].execution_root == label {
            assert(is_last_root(roots, n, label));
        } else if root_map(front).dom().contains(label) {
            let j = choose|j: int| #[trigger]
                is_last_root(front, j, label) && root_map(front)[label] == front[j];
            assert(roots[j] == front[j]);
            assert forall|l: int| j < l < roots.len() implies (#[trigger] roots[l]).execution_root
                != label by {
                if l < n {
                    assert(front[l] == roots[l]);
                }
            }
            assert(is_last_root(roots, j, label));
        }
        if exists|j: int| 0 <= j < roots.len() && (#[trigger] roots[j]).execution_root == label {
            let j = choose|j: int|
                0 <= j < roots.len() && (#[trigger] roots[j]).execution_root == label;
            if j < n {
                assert(front[j] == roots[j]);
            }
        }
    }
}

proof fn lemma_last_root(roots: Seq<BoundRootModel>, j: int, label: Seq<char>)
    requires
        is_last_root(roots, j, label),
    ensures
        root_map(roots).dom().contains(label),
        root_map(roots)[label] == roots[j],
{
    assert(roots[j].execution_root == label);
    lemma_root_map(roots, label);
    let k = choose|k: int| #[trigger]
        is_last_root(roots, k, label) && root_map(roots)[label] == roots[k];
    if j < k {
        assert(roots[k].execution_root != label);
    } else if k < j {
        assert(roots[j].execution_root != label);
    }
}

proof fn lemma_affected_finite(
    inputs: GoReuseInputs<'_>,
    basis: CanonicalSemanticBasis,
    prior: AuthorityModel,
    current: AuthorityModel,
)
    ensures
        affected_roots(inputs, basis, prior, current).finite(),
        affected_roots(inputs, basis, prior, current).subset_of(
            inputs.toolchains.configurations@.dom(),
        ),
        affected_roots(inputs, basis, prior, current).len()
            <= inputs.toolchains.configurations@.dom().len(),
{
    let all = inputs.toolchains.configurations@.dom();
    ordered::lemma_finite(inputs.toolchains.configurations.listing());
    let affected = affected_roots(inputs, basis, prior, current);
    assert forall|root: Seq<char>| affected.contains(root) implies all.contains(root) by {
        if drifted_root(inputs, basis, prior, current, root) {
            let label = choose|label: Seq<char>| #[trigger]
                root_map(current->roots).dom().contains(label) && inputs.toolchains.resolved(label)
                    == Some(root) && has_drifted(
                    basis,
                    prior,
                    current,
                    *inputs.prior_inventory->0,
                    *inputs.inventory,
                    *inputs.toolchains,
                    label,
                );
            assert(inputs.toolchains.resolved(label) == Some(root));
        }
    }
    vstd::set_lib::lemma_len_subset(affected, all);
}

proof fn lemma_plan(inputs: GoReuseInputs<'_>, plan: GoSemanticReusePlan)
    requires
        is_plan(Some(plan), reuse_of(inputs)),
    ensures
        ({
            let k = plan.basis();
            let basis = inputs.prior@[k];
            let payload = calls_payload(basis)->0;
            let prior = payload.execution_authority.deep_view();
            let current = inputs.current_authority->0.deep_view();
            &&& first_go_basis(inputs.prior@, 0) == Some(k)
            &&& first_go_basis(inputs.prior@, k + 1) is None
            &&& inputs.current_authority is Some
            &&& calls_payload(basis) is Some
            &&& inputs.prior_inventory is Some
            &&& is_comparable(basis, payload, current)
            &&& is_localizable(
                prior,
                current,
                *inputs.prior_inventory->0,
                *inputs.inventory,
                *inputs.toolchains,
            )
            &&& all_resolved(inputs, prior, current)
            &&& plan.affected() == affected_roots(inputs, basis, prior, current)
            &&& inputs_are_current(
                payload.semantic_inputs.deep_view(),
                map_of_option(inputs.prior_inventory->0.input_roots),
                map_of_option(inputs.inventory.input_roots),
                inputs.current_inputs.deep_view(),
                retained_labels(inputs, current, plan.affected()),
            )
            &&& plan is Exact ==> prior == current
            &&& plan is Exact <==> plan.affected().len() == 0
            &&& plan is AffectedRoots ==> plan.affected().len()
                < inputs.toolchains.configurations@.dom().len()
        }),
{
    let k = plan.basis();
    let basis = inputs.prior@[k];
    let payload = calls_payload(basis)->0;
    let prior = payload.execution_authority.deep_view();
    let current = inputs.current_authority->0.deep_view();
    let affected = affected_roots(inputs, basis, prior, current);
    lemma_affected_finite(inputs, basis, prior, current);
    if affected.len() == 0 {
        assert(affected =~= Set::empty());
    }
}

/// An edited Go source, wherever it lies below the root, makes its module run again: a plan
/// exists only if the module is known and has a toolchain, and then the module is among the
/// roots that run again. So nothing is reused exactly after a Go source was edited.
pub proof fn law_edited_source_runs_again(
    inputs: GoReuseInputs<'_>,
    plan: GoSemanticReusePlan,
    i: int,
)
    requires
        is_plan(Some(plan), reuse_of(inputs)),
        0 <= i < inputs.changed_paths@.len(),
        indexed_source_authority::language_at(inputs.changed_paths@[i].path@) == Some("go"@),
    ensures
        ({
            let file = inputs.changed_paths@[i];
            let document = file.relative->0@.map_values(
                |c: char|
                    if c == '\\' {
                        '/'
                    } else {
                        c
                    },
            );
            let label = inputs.inventory.document_roots@[document]@;
            let root = inputs.toolchains.resolved_roots@[label]@;
            &&& file.relative is Some
            &&& inputs.inventory.document_roots@.dom().contains(document)
            &&& leads_to(*inputs.toolchains, label, root)
            &&& plan.affected().contains(root)
            &&& plan is AffectedRoots
        }),
{
    lemma_plan(inputs, plan);
    let file = inputs.changed_paths@[i];
    assert(is_go_change(file));
    let document = file.relative->0@.map_values(
        |c: char|
            if c == '\\' {
                '/'
            } else {
                c
            },
    );
    assert(document =~= slashed(file.relative->0@));
    let basis = inputs.prior@[plan.basis()];
    let prior = calls_payload(basis)->0.execution_authority.deep_view();
    let current = inputs.current_authority->0.deep_view();
    let root = changed_root(file, *inputs.inventory, *inputs.toolchains)->0;
    assert(touched_root(inputs, root));
    assert(affected_roots(inputs, basis, prior, current).contains(root));
}

proof fn lemma_deepest(labels: Seq<Seq<char>>, path: Seq<char>)
    ensures
        match deepest(labels, path) {
            Some(best) => labels.contains(best) && covers(best, path) && forall|j: int|
                0 <= j < labels.len() && covers(#[trigger] labels[j], path)
                    ==> path_order::components(labels[j]).len() <= path_order::components(
                    best,
                ).len(),
            None => forall|j: int| 0 <= j < labels.len() ==> !covers(#[trigger] labels[j], path),
        },
    decreases labels.len(),
{
    if labels.len() > 0 {
        let n = labels.len() - 1;
        let front = labels.drop_last();
        lemma_deepest(front, path);
        assert(labels[n] == labels.last());
        match deepest(labels, path) {
            Some(best) => {
                if best != labels.last() || !covers(labels.last(), path) {
                    assert(labels[front.index_of(best)] == best);
                }
                assert forall|j: int| 0 <= j < labels.len() && covers(
                    #[trigger] labels[j],
                    path,
                ) implies path_order::components(labels[j]).len() <= path_order::components(
                    best,
                ).len() by {
                    if j < n {
                        assert(front[j] == labels[j]);
                    }
                }
            },
            None => {
                assert forall|j: int| 0 <= j < labels.len() implies !covers(
                    #[trigger] labels[j],
                    path,
                ) by {
                    if j < n {
                        assert(front[j] == labels[j]);
                    }
                }
            },
        }
    }
}

/// A deleted Go source makes the module that it belonged to run again: the deepest of the
/// earlier execution roots above it. A plan exists only if there is one and it still has a
/// toolchain.
pub proof fn law_deleted_source_runs_again(
    inputs: GoReuseInputs<'_>,
    plan: GoSemanticReusePlan,
    i: int,
)
    requires
        is_plan(Some(plan), reuse_of(inputs)),
        0 <= i < inputs.deleted_paths@.len(),
        inputs.existing_files@.dom().contains(inputs.deleted_paths@[i]@),
        inputs.existing_files@[inputs.deleted_paths@[i]@].language@ == "go"@,
    ensures
        ({
            let path = inputs.deleted_paths@[i]@;
            let roots = calls_payload(
                inputs.prior@[plan.basis()],
            )->0.execution_authority.deep_view()->roots;
            exists|j: int, root: Seq<char>|
                0 <= j < roots.len() && #[trigger] leads_to(
                    *inputs.toolchains,
                    roots[j].execution_root,
                    root,
                ) && plan.affected().contains(root) && (roots[j].execution_root.len() == 0
                    || path_order::is_under(path, roots[j].execution_root)) && forall|l: int|
                    0 <= l < roots.len() && ((#[trigger] roots[l]).execution_root.len() == 0
                        || path_order::is_under(path, roots[l].execution_root))
                        ==> path_order::components(roots[l].execution_root).len()
                        <= path_order::components(roots[j].execution_root).len()
        }),
        plan is AffectedRoots,
{
    lemma_plan(inputs, plan);
    let path = inputs.deleted_paths@[i]@;
    let basis = inputs.prior@[plan.basis()];
    let prior = calls_payload(basis)->0.execution_authority.deep_view();
    let current = inputs.current_authority->0.deep_view();
    let roots = prior->roots;
    assert(is_go_deletion(inputs.deleted_paths@[i]@, inputs.existing_files@));
    let root = deleted_root(path, prior, *inputs.toolchains)->0;
    assert(bereft_root(inputs, prior, root));
    assert(affected_roots(inputs, basis, prior, current).contains(root));
    let labels = root_labels(roots);
    lemma_root_map(roots, path);
    sorting::lemma_listed_set(root_map(roots).dom());
    lemma_deepest(labels, path);
    let label = deepest(labels, path)->0;
    lemma_root_map(roots, label);
    let j = choose|j: int| 0 <= j < roots.len() && (#[trigger] roots[j]).execution_root == label;
    assert(leads_to(*inputs.toolchains, roots[j].execution_root, root));
    assert forall|l: int|
        0 <= l < roots.len() && ((#[trigger] roots[l]).execution_root.len() == 0
            || path_order::is_under(path, roots[l].execution_root)) implies path_order::components(
        roots[l].execution_root,
    ).len() <= path_order::components(roots[j].execution_root).len() by {
        lemma_root_map(roots, roots[l].execution_root);
        assert(labels.contains(roots[l].execution_root));
        let m = labels.index_of(roots[l].execution_root);
        assert(covers(labels[m], path));
    }
}

/// A root that is kept is what it was. Every current execution root leads to a toolchain; and
/// unless it runs again, its toolchain and configuration, its part of the inventory, and the
/// configuration that the snapshot was made under are the current ones.
pub proof fn law_kept_root_is_unchanged(
    inputs: GoReuseInputs<'_>,
    plan: GoSemanticReusePlan,
    q: int,
)
    requires
        is_plan(Some(plan), reuse_of(inputs)),
        inputs.current_authority is Some,
        is_last_root(
            inputs.current_authority->0.deep_view()->roots,
            q,
            inputs.current_authority->0.deep_view()->roots[q].execution_root,
        ),
    ensures
        ({
            let basis = inputs.prior@[plan.basis()];
            let before = calls_payload(basis)->0.execution_authority.deep_view()->roots;
            let now = inputs.current_authority->0.deep_view()->roots;
            let label = now[q].execution_root;
            let root = inputs.toolchains.resolved_roots@[label]@;
            let parts_before = inputs.prior_inventory->0.by_root->0@;
            let parts = inputs.inventory.by_root->0@;
            let snapshot = basis.snapshot.configurations@;
            &&& leads_to(*inputs.toolchains, label, root)
            &&& !plan.affected().contains(root) ==> {
                &&& forall|p: int| #[trigger] is_last_root(before, p, label) ==> before[p] == now[q]
                &&& exists|p: int| #[trigger] is_last_root(before, p, label)
                &&& parts_before.dom().contains(label) <==> parts.dom().contains(label)
                &&& parts.dom().contains(label) ==> parts_before[label]@ == parts[label]@
                &&& snapshot.dom().contains(root)
                &&& snapshot[root]@ == inputs.toolchains.configurations@[root]@
            }
        }),
{
    lemma_plan(inputs, plan);
    let basis = inputs.prior@[plan.basis()];
    let prior = calls_payload(basis)->0.execution_authority.deep_view();
    let current = inputs.current_authority->0.deep_view();
    let before = prior->roots;
    let now = current->roots;
    let label = now[q].execution_root;
    lemma_last_root(now, q, label);
    assert(root_map(now).dom().contains(label));
    assert(inputs.toolchains.resolved(label) is Some);
    let root = inputs.toolchains.resolved(label)->0;
    if !plan.affected().contains(root) {
        assert(!drifted_root(inputs, basis, prior, current, root));
        assert(!has_drifted(
            basis,
            prior,
            current,
            *inputs.prior_inventory->0,
            *inputs.inventory,
            *inputs.toolchains,
            label,
        ));
        lemma_root_map(before, label);
        assert forall|p: int| #[trigger] is_last_root(before, p, label) implies before[p]
            == now[q] by {
            lemma_last_root(before, p, label);
        }
        let parts_before = inputs.prior_inventory->0.by_root->0@;
        let parts = inputs.inventory.by_root->0@;
        assert(entry(texts(parts_before), label) == entry(texts(parts), label));
        assert(entry(texts(basis.snapshot.configurations@), root) is Some);
    }
}

/// A root runs again only for a reason: a Go source of it was edited or deleted, or its
/// toolchain, its part of the inventory or its configuration changed.
pub proof fn law_no_root_runs_again_without_reason(
    inputs: GoReuseInputs<'_>,
    plan: GoSemanticReusePlan,
    root: Seq<char>,
)
    requires
        is_plan(Some(plan), reuse_of(inputs)),
        plan.affected().contains(root),
    ensures
        ({
            let basis = inputs.prior@[plan.basis()];
            let before = root_map(calls_payload(basis)->0.execution_authority.deep_view()->roots);
            let now = root_map(inputs.current_authority->0.deep_view()->roots);
            let parts_before = inputs.prior_inventory->0.by_root->0@;
            let parts = inputs.inventory.by_root->0@;
            let snapshot = basis.snapshot.configurations@;
            ||| exists|i: int|
                0 <= i < inputs.changed_paths@.len() && indexed_source_authority::language_at(
                    (#[trigger] inputs.changed_paths@[i]).path@,
                ) == Some("go"@)
            ||| exists|i: int|
                0 <= i < inputs.deleted_paths@.len() && inputs.existing_files@.dom().contains(
                    (#[trigger] inputs.deleted_paths@[i])@,
                ) && inputs.existing_files@[inputs.deleted_paths@[i]@].language@ == "go"@
            ||| exists|label: Seq<char>| #[trigger]
                leads_to(*inputs.toolchains, label, root) && now.dom().contains(label) && !({
                    &&& before.dom().contains(label)
                    &&& before[label] == now[label]
                    &&& parts_before.dom().contains(label) <==> parts.dom().contains(label)
                    &&& parts.dom().contains(label) ==> parts_before[label]@ == parts[label]@
                    &&& snapshot.dom().contains(root)
                    &&& snapshot[root]@ == inputs.toolchains.configurations@[root]@
                })
        }),
{
    lemma_plan(inputs, plan);
    let basis = inputs.prior@[plan.basis()];
    let prior = calls_payload(basis)->0.execution_authority.deep_view();
    let current = inputs.current_authority->0.deep_view();
    if touched_root(inputs, root) {
        let i = choose|i: int|
            0 <= i < inputs.changed_paths@.len() && is_go_change(
                #[trigger] inputs.changed_paths@[i],
            ) && changed_root(inputs.changed_paths@[i], *inputs.inventory, *inputs.toolchains)
                == Some(root);
        assert(indexed_source_authority::language_at(inputs.changed_paths@[i].path@) == Some(
            "go"@,
        ));
    } else if bereft_root(inputs, prior, root) {
        let i = choose|i: int|
            0 <= i < inputs.deleted_paths@.len() && is_go_deletion(
                (#[trigger] inputs.deleted_paths@[i])@,
                inputs.existing_files@,
            ) && deleted_root(inputs.deleted_paths@[i]@, prior, *inputs.toolchains) == Some(root);
        assert(inputs.existing_files@.dom().contains(inputs.deleted_paths@[i]@));
    } else {
        assert(drifted_root(inputs, basis, prior, current, root));
        let label = choose|label: Seq<char>| #[trigger]
            root_map(current->roots).dom().contains(label) && inputs.toolchains.resolved(label)
                == Some(root) && has_drifted(
                basis,
                prior,
                current,
                *inputs.prior_inventory->0,
                *inputs.inventory,
                *inputs.toolchains,
                label,
            );
        assert(leads_to(*inputs.toolchains, label, root));
        let parts_before = inputs.prior_inventory->0.by_root->0@;
        let parts = inputs.inventory.by_root->0@;
        if parts.dom().contains(label) && parts_before.dom().contains(label)
            && parts_before[label]@ == parts[label]@ {
            assert(entry(texts(parts_before), label) == entry(texts(parts), label));
        }
    }
}

/// What is reused is sound: the one retained Go basis, complete, of the Go provider in the
/// version that it was executed in, with a payload that embeds its very receipt, bound to a
/// toolchain under the current resolver policy, ecosystem, reuse contract and provider
/// implementation; made for the earlier inventory, while the current authority is for the
/// current one; and the roots are the same. An exact reuse needs the very same authority.
/// And some root is always kept.
pub proof fn law_reused_basis_is_sound(inputs: GoReuseInputs<'_>, plan: GoSemanticReusePlan)
    requires
        is_plan(Some(plan), reuse_of(inputs)),
    ensures
        ({
            let k = plan.basis();
            let basis = inputs.prior@[k];
            let receipt = basis.evidence.receipt.deep_view();
            let payload = calls_payload(basis)->0;
            let prior = payload.execution_authority.deep_view();
            let current = inputs.current_authority->0.deep_view();
            &&& 0 <= k < inputs.prior@.len()
            &&& forall|j: int|
                0 <= j < inputs.prior@.len() ==> ((
                #[trigger] inputs.prior@[j]).evidence.language_id.0@ == "go"@
                    && inputs.prior@[j].snapshot.provider_id@ == "scip-go"@ <==> j == k)
            &&& receipt.status == CapabilityStatus::Complete
            &&& receipt.provider == "scip-go"@
            &&& receipt.version == Some(basis.snapshot.executed_provider_version@)
            &&& basis.evidence.payload == Some(ProviderPayload::Calls(payload))
            &&& payload.receipt.deep_view() == receipt
            &&& inputs.current_authority is Some
            &&& prior is ToolchainBound && current is ToolchainBound
            &&& prior->policy == current->policy
            &&& prior->ecosystem == current->ecosystem
            &&& prior->contract == current->contract
            &&& prior->implementation == current->implementation
            &&& inputs.prior_inventory is Some
            &&& inputs.prior_inventory->0.fingerprint is Some
            &&& inputs.prior_inventory->0.fingerprint->0@ == prior->inventory
            &&& inputs.inventory.fingerprint is Some
            &&& inputs.inventory.fingerprint->0@ == current->inventory
            &&& root_map(prior->roots).dom() == root_map(current->roots).dom()
            &&& plan is Exact ==> prior == current
            &&& plan is AffectedRoots ==> plan.affected().len()
                < inputs.toolchains.configurations@.dom().len()
        }),
{
    lemma_plan(inputs, plan);
    lemma_only_basis(inputs.prior@, 0);
    lemma_only_basis(inputs.prior@, plan.basis() + 1);
}

proof fn lemma_only_basis(prior: Seq<CanonicalSemanticBasis>, from: int)
    requires
        0 <= from <= prior.len(),
    ensures
        match first_go_basis(prior, from) {
            Some(k) => from <= k < prior.len() && is_go_basis(prior[k]) && forall|j: int|
                from <= j < k ==> !is_go_basis(#[trigger] prior[j]),
            None => forall|j: int| from <= j < prior.len() ==> !is_go_basis(#[trigger] prior[j]),
        },
    decreases prior.len() - from,
{
    if from < prior.len() {
        lemma_only_basis(prior, from + 1);
    }
}

/// The digest that the last entry about a path gives it.
pub open spec fn last_digest(
    paths: Seq<(Seq<char>, Seq<char>)>,
    path: Seq<char>,
    digest: Seq<char>,
) -> bool {
    exists|j: int|
        0 <= j < paths.len() && #[trigger] paths[j] == (path, digest) && forall|l: int|
            j < l < paths.len() ==> (#[trigger] paths[l]).0 != path
}

proof fn lemma_path_digests(paths: Seq<(Seq<char>, Seq<char>)>, path: Seq<char>)
    ensures
        path_digests(paths).dom().contains(path) <==> exists|j: int|
            0 <= j < paths.len() && (#[trigger] paths[j]).0 == path,
        path_digests(paths).dom().contains(path) ==> last_digest(
            paths,
            path,
            path_digests(paths)[path],
        ),
    decreases paths.len(),
{
    if paths.len() > 0 {
        let n = paths.len() - 1;
        let front = paths.drop_last();
        lemma_path_digests(front, path);
        assert(paths[n] == paths.last());
        if paths[n].0 == path {
            assert(paths[n] == (path, path_digests(paths)[path]));
        } else if path_digests(front).dom().contains(path) {
            let digest = path_digests(front)[path];
            let j = choose|j: int|
                0 <= j < front.len() && #[trigger] front[j] == (path, digest) && forall|l: int|
                    j < l < front.len() ==> (#[trigger] front[l]).0 != path;
            assert(paths[j] == (path, digest));
            assert forall|l: int| j < l < paths.len() implies (#[trigger] paths[l]).0 != path by {
                if l < n {
                    assert(front[l] == paths[l]);
                }
            }
        }
        if exists|j: int| 0 <= j < paths.len() && (#[trigger] paths[j]).0 == path {
            let j = choose|j: int| 0 <= j < paths.len() && (#[trigger] paths[j]).0 == path;
            if j < n {
                assert(front[j] == paths[j]);
            }
        }
    }
}

/// A plan rests on known inputs: they were captured completely, without environment and
/// without issues; and an input that a kept root owned, or owns now, has the digest that it
/// had.
pub proof fn law_inputs_of_kept_roots_are_unchanged(
    inputs: GoReuseInputs<'_>,
    plan: GoSemanticReusePlan,
    path: Seq<char>,
    label: Seq<char>,
    before: Seq<char>,
)
    requires
        is_plan(Some(plan), reuse_of(inputs)),
        inputs.prior_inventory is Some && inputs.prior_inventory->0.input_roots is Some,
        inputs.inventory.input_roots is Some,
        root_map(inputs.current_authority->0.deep_view()->roots).dom().contains(label),
        !plan.affected().contains(inputs.toolchains.resolved_roots@[label]@),
        ({
            let owners_before = inputs.prior_inventory->0.input_roots->0@;
            let owners = inputs.inventory.input_roots->0@;
            ||| owners_before.dom().contains(path) && owners_before[path]@.dom().contains(label)
            ||| owners.dom().contains(path) && owners[path]@.dom().contains(label)
        }),
    ensures
        ({
            let captured = calls_payload(
                inputs.prior@[plan.basis()],
            )->0.semantic_inputs.deep_view();
            &&& captured.complete
            &&& captured.environment.len() == 0
            &&& captured.issues.len() == 0
            &&& inputs.current_inputs is Some
            &&& last_digest(captured.paths, path, before) ==> last_digest(
                inputs.current_inputs->0.deep_view(),
                path,
                before,
            )
            &&& (forall|j: int| 0 <= j < captured.paths.len() ==> (#[trigger] captured.paths[j]).0
                != path) ==> (forall|j: int|
                0 <= j < inputs.current_inputs->0.deep_view().len() ==> (
                #[trigger] inputs.current_inputs->0.deep_view()[j]).0 != path)
        }),
{
    lemma_plan(inputs, plan);
    let basis = inputs.prior@[plan.basis()];
    let current = inputs.current_authority->0.deep_view();
    let captured = calls_payload(basis)->0.semantic_inputs.deep_view();
    let now = inputs.current_inputs->0.deep_view();
    let owners_before = inputs.prior_inventory->0.input_roots->0@;
    let owners = inputs.inventory.input_roots->0@;
    let retained = retained_labels(inputs, current, plan.affected());
    assert(inputs.toolchains.resolved(label) is Some);
    assert(retained.contains(label));
    assert(owns(owners_before, owners, path, label));
    assert(!is_released(owners_before, owners, path, retained));
    assert(inputs.current_inputs.deep_view() == Some(now));
    let p = map_of_option(inputs.prior_inventory->0.input_roots);
    let q = map_of_option(inputs.inventory.input_roots);
    assert(p == Some(owners_before) && q == Some(owners));
    assert(inputs_are_current(captured, p, q, inputs.current_inputs.deep_view(), retained));
    assert(!is_released(p->0, q->0, path, retained));
    assert(entry(path_digests(captured.paths), path) == entry(path_digests(now), path));
    lemma_path_digests(captured.paths, path);
    lemma_path_digests(now, path);
    if last_digest(captured.paths, path, before) {
        let j = choose|j: int|
            0 <= j < captured.paths.len() && #[trigger] captured.paths[j] == (path, before)
                && forall|l: int|
                j < l < captured.paths.len() ==> (#[trigger] captured.paths[l]).0 != path;
        let digest = path_digests(captured.paths)[path];
        let k = choose|k: int|
            0 <= k < captured.paths.len() && #[trigger] captured.paths[k] == (path, digest)
                && forall|l: int|
                k < l < captured.paths.len() ==> (#[trigger] captured.paths[l]).0 != path;
        if j < k {
            assert(captured.paths[k].0 != path);
        } else if k < j {
            assert(captured.paths[j].0 != path);
        }
    }
}

/// The module of an edited Go source is known and leads to the root.
pub open spec fn edit_leads_to(inputs: GoReuseInputs<'_>, i: int, root: Seq<char>) -> bool {
    let file = inputs.changed_paths@[i];
    let document = file.relative->0@.map_values(
        |c: char|
            if c == '\\' {
                '/'
            } else {
                c
            },
    );
    &&& 0 <= i < inputs.changed_paths@.len()
    &&& indexed_source_authority::language_at(file.path@) == Some("go"@)
    &&& file.relative is Some
    &&& inputs.inventory.document_roots@.dom().contains(document)
    &&& leads_to(*inputs.toolchains, inputs.inventory.document_roots@[document]@, root)
}

/// Nothing but sources changed since the basis at position `k` was made: it is the one Go
/// basis and sound, the authority, the inventory, the configurations and the captured inputs
/// are what they were, and every root has a toolchain.
pub open spec fn only_sources_changed(inputs: GoReuseInputs<'_>, k: int) -> bool {
    let basis = inputs.prior@[k];
    let receipt = basis.evidence.receipt.deep_view();
    let payload = basis.evidence.payload->0->Calls_0;
    let authority = payload.execution_authority.deep_view();
    let captured = payload.semantic_inputs.deep_view();
    let roots = authority->roots;
    &&& 0 <= k < inputs.prior@.len()
    &&& forall|j: int|
        0 <= j < inputs.prior@.len() ==> ((
        #[trigger] inputs.prior@[j]).evidence.language_id.0@ == "go"@
            && inputs.prior@[j].snapshot.provider_id@ == "scip-go"@ <==> j == k)
    &&& basis.evidence.payload is Some && basis.evidence.payload->0 is Calls
    &&& receipt.status == CapabilityStatus::Complete
    &&& receipt.provider == "scip-go"@
    &&& receipt.version == Some(basis.snapshot.executed_provider_version@)
    &&& payload.receipt.deep_view() == receipt
    &&& authority is ToolchainBound
    &&& inputs.current_authority is Some
    &&& inputs.current_authority->0.deep_view() == authority
    &&& inputs.prior_inventory is Some
    &&& inputs.prior_inventory->0.fingerprint is Some
    &&& inputs.prior_inventory->0.fingerprint->0@ == authority->inventory
    &&& inputs.inventory.fingerprint is Some
    &&& inputs.inventory.fingerprint->0@ == authority->inventory
    &&& inputs.prior_inventory->0.by_root is Some
    &&& inputs.inventory.by_root is Some
    &&& texts(inputs.prior_inventory->0.by_root->0@) == texts(inputs.inventory.by_root->0@)
    &&& root_map(roots).dom().len() == inputs.toolchains.configurations@.dom().len()
    &&& forall|j: int|
        0 <= j < roots.len() ==> {
            let root = inputs.toolchains.resolved_roots@[(
            #[trigger] roots[j]).execution_root]@;
            &&& leads_to(*inputs.toolchains, roots[j].execution_root, root)
            &&& basis.snapshot.configurations@.dom().contains(root)
            &&& basis.snapshot.configurations@[root]@ == inputs.toolchains.configurations@[root]@
        }
    &&& captured.complete
    &&& captured.environment.len() == 0
    &&& captured.issues.len() == 0
    &&& inputs.prior_inventory->0.input_roots is Some
    &&& inputs.inventory.input_roots is Some
    &&& inputs.current_inputs is Some
    &&& inputs.current_inputs->0.deep_view() == captured.paths
    &&& forall|path: Seq<char>| #[trigger]
        inputs.prior_inventory->0.input_roots->0@.dom().contains(path) <==> exists|j: int|
            0 <= j < captured.paths.len() && (#[trigger] captured.paths[j]).0 == path
}

/// Reuse is owed. Where only sources changed, none of them deleted, the module of every edited
/// Go source is known, and some root has no edited Go source, the basis is reused: exactly
/// the roots with an edited Go source run again, and none if there is no such source.
pub proof fn law_untouched_roots_are_reused(
    inputs: GoReuseInputs<'_>,
    plan: Option<GoSemanticReusePlan>,
    k: int,
    kept: Seq<char>,
)
    requires
        is_plan(plan, reuse_of(inputs)),
        only_sources_changed(inputs, k),
        forall|i: int|
            0 <= i < inputs.changed_paths@.len() && indexed_source_authority::language_at(
                (#[trigger] inputs.changed_paths@[i]).path@,
            ) == Some("go"@) ==> exists|root: Seq<char>| #[trigger] edit_leads_to(inputs, i, root),
        forall|i: int|
            0 <= i < inputs.deleted_paths@.len() ==> !inputs.existing_files@.dom().contains(
                (#[trigger] inputs.deleted_paths@[i])@,
            ) || inputs.existing_files@[inputs.deleted_paths@[i]@].language@ != "go"@,
        inputs.toolchains.configurations@.dom().contains(kept),
        forall|i: int| !#[trigger] edit_leads_to(inputs, i, kept),
    ensures
        plan is Some,
        plan->0.basis() == k,
        forall|root: Seq<char>| #[trigger]
            plan->0.affected().contains(root) <==> exists|i: int| #[trigger]
                edit_leads_to(inputs, i, root),
        plan->0 is Exact <==> forall|i: int|
            0 <= i < inputs.changed_paths@.len() ==> indexed_source_authority::language_at(
                (#[trigger] inputs.changed_paths@[i]).path@,
            ) != Some("go"@),
{
    let basis = inputs.prior@[k];
    let payload = basis.evidence.payload->0->Calls_0;
    let prior = payload.execution_authority.deep_view();
    let captured = payload.semantic_inputs.deep_view();
    let roots = prior->roots;
    lemma_only_basis(inputs.prior@, 0);
    lemma_only_basis(inputs.prior@, k + 1);
    assert(is_go_basis(inputs.prior@[k]));
    assert(first_go_basis(inputs.prior@, 0) == Some(k));
    if first_go_basis(inputs.prior@, k + 1) is Some {
        let j = first_go_basis(inputs.prior@, k + 1)->0;
        assert(is_go_basis(inputs.prior@[j]));
    }
    assert(is_comparable(basis, payload, prior));
    assert(is_localizable(
        prior,
        prior,
        *inputs.prior_inventory->0,
        *inputs.inventory,
        *inputs.toolchains,
    ));
    assert forall|label: Seq<char>| #[trigger]
        root_map(roots).dom().contains(label) implies inputs.toolchains.resolved(label) is Some
        && !has_drifted(
        basis,
        prior,
        prior,
        *inputs.prior_inventory->0,
        *inputs.inventory,
        *inputs.toolchains,
        label,
    ) by {
        lemma_root_map(roots, label);
        let j = choose|j: int| 0 <= j < roots.len() && (#[trigger] roots[j]).execution_root == label;
        let root = inputs.toolchains.resolved_roots@[roots[j].execution_root]@;
        assert(leads_to(*inputs.toolchains, roots[j].execution_root, root));
    }
    assert forall|i: int|
        0 <= i < inputs.changed_paths@.len() && is_go_change(
            #[trigger] inputs.changed_paths@[i],
        ) implies changed_root(
        inputs.changed_paths@[i],
        *inputs.inventory,
        *inputs.toolchains,
    ) is Some by {
        let root = choose|root: Seq<char>| #[trigger] edit_leads_to(inputs, i, root);
        lemma_edit(inputs, i, root);
    }
    assert forall|i: int|
        0 <= i < inputs.deleted_paths@.len() implies !is_go_deletion(
        (#[trigger] inputs.deleted_paths@[i])@,
        inputs.existing_files@,
    ) by {}
    assert(all_resolved(inputs, prior, prior));
    let affected = affected_roots(inputs, basis, prior, prior);
    assert forall|root: Seq<char>| #[trigger] affected.contains(root) <==> exists|i: int| #[trigger]
        edit_leads_to(inputs, i, root) by {
        if drifted_root(inputs, basis, prior, prior, root) {
            let label = choose|label: Seq<char>| #[trigger]
                root_map(roots).dom().contains(label) && inputs.toolchains.resolved(label) == Some(
                    root,
                ) && has_drifted(
                    basis,
                    prior,
                    prior,
                    *inputs.prior_inventory->0,
                    *inputs.inventory,
                    *inputs.toolchains,
                    label,
                );
            assert(root_map(roots).dom().contains(label));
        }
        if touched_root(inputs, root) {
            let i = choose|i: int|
                0 <= i < inputs.changed_paths@.len() && is_go_change(
                    #[trigger] inputs.changed_paths@[i],
                ) && changed_root(inputs.changed_paths@[i], *inputs.inventory, *inputs.toolchains)
                    == Some(root);
            lemma_edit(inputs, i, root);
        }
        if exists|i: int| #[trigger] edit_leads_to(inputs, i, root) {
            let i = choose|i: int| #[trigger] edit_leads_to(inputs, i, root);
            lemma_edit(inputs, i, root);
            assert(is_go_change(inputs.changed_paths@[i]));
            assert(touched_root(inputs, root));
        }
    }
    let p = map_of_option(inputs.prior_inventory->0.input_roots);
    let q = map_of_option(inputs.inventory.input_roots);
    let now = inputs.current_inputs.deep_view();
    assert(now == Some(captured.paths));
    assert(path_digests(captured.paths).dom() =~= p->0.dom()) by {
        assert forall|path: Seq<char>| path_digests(captured.paths).dom().contains(path)
            <==> p->0.dom().contains(path) by {
            lemma_path_digests(captured.paths, path);
        }
    }
    assert(inputs_are_current(
        captured,
        p,
        q,
        now,
        retained_labels(inputs, prior, affected),
    ));
    lemma_affected_finite(inputs, basis, prior, prior);
    let all = inputs.toolchains.configurations@.dom();
    ordered::lemma_finite(inputs.toolchains.configurations.listing());
    assert(!affected.contains(kept));
    assert(affected.subset_of(all.remove(kept)));
    vstd::set_lib::lemma_len_subset(affected, all.remove(kept));
    assert(affected.len() < all.len());
    assert(calls_payload(basis) == Some(payload));
    assert(reuse_of(inputs) == Some((k, affected)));
    if affected.len() == 0 {
        assert(affected =~= Set::empty());
        assert(plan->0.affected() =~= affected);
        assert forall|i: int| 0 <= i < inputs.changed_paths@.len() implies
            indexed_source_authority::language_at((#[trigger] inputs.changed_paths@[i]).path@)
            != Some("go"@) by {
            if indexed_source_authority::language_at(inputs.changed_paths@[i].path@) == Some(
                "go"@,
            ) {
                let root = choose|root: Seq<char>| #[trigger] edit_leads_to(inputs, i, root);
                assert(affected.contains(root));
            }
        }
    } else {
        let root = choose|root: Seq<char>| affected.contains(root);
        if forall|root: Seq<char>| !affected.contains(root) {
            assert(affected =~= Set::empty());
        }
        let i = choose|i: int| #[trigger] edit_leads_to(inputs, i, root);
        assert(indexed_source_authority::language_at(inputs.changed_paths@[i].path@) == Some(
            "go"@,
        ));
    }
}

proof fn lemma_edit(inputs: GoReuseInputs<'_>, i: int, root: Seq<char>)
    requires
        0 <= i < inputs.changed_paths@.len(),
    ensures
        edit_leads_to(inputs, i, root) <==> is_go_change(inputs.changed_paths@[i]) && changed_root(
            inputs.changed_paths@[i],
            *inputs.inventory,
            *inputs.toolchains,
        ) == Some(root),
{
    let file = inputs.changed_paths@[i];
    let document = file.relative->0@.map_values(
        |c: char|
            if c == '\\' {
                '/'
            } else {
                c
            },
    );
    assert(document =~= slashed(file.relative->0@));
}

/// The roots to execute are the roots that run again and have a toolchain, each of them once.
pub proof fn law_executed_roots_are_the_affected_ones(
    plan: GoSemanticReusePlan,
    toolchains: Set<Seq<char>>,
    root: Seq<char>,
)
    requires
        plan matches GoSemanticReusePlan::AffectedRoots { roots, .. } ==> roots.listing().len()
            <= usize::MAX,
    ensures
        plan.executable(toolchains).contains(root) <==> plan.affected().contains(root)
            && toolchains.contains(root),
{
    match plan {
        GoSemanticReusePlan::Exact { .. } => {},
        GoSemanticReusePlan::AffectedRoots { roots, .. } => {
            let keys = ordered::keys_of(roots.listing());
            let sorted = path_sorting::sorted_paths(keys);
            lemma_known(sorted, toolchains, root);
            path_sorting::law_sorted_paths_are_the_paths(keys, root);
        },
    }
}

proof fn lemma_known(names: Seq<Seq<char>>, set: Set<Seq<char>>, name: Seq<char>)
    ensures
        known(names, set).contains(name) <==> names.contains(name) && set.contains(name),
    decreases names.len(),
{
    if names.len() > 0 {
        let n = names.len() - 1;
        let front = names.drop_last();
        lemma_known(front, set, name);
        let before = known(front, set);
        let all = known(names, set);
        assert(names[n] == names.last());
        assert(names.contains(name) <==> front.contains(name) || name == names.last()) by {
            if front.contains(name) {
                assert(names[front.index_of(name)] == name);
            }
            if names.contains(name) {
                let k = names.index_of(name);
                if k < n {
                    assert(front[k] == name);
                }
            }
        }
        if before.contains(name) {
            assert(all[before.index_of(name)] == name);
        }
        if all.len() > before.len() {
            assert(all[before.len() as int] == names.last());
        }
        if all.contains(name) {
            let k = all.index_of(name);
            if k < before.len() {
                assert(before[k] == name);
            }
        }
    }
}

/// Inputs that are not known are never current: what the basis was made from must be complete,
/// free of issues and of anything from the environment, the owners of the inputs known before and
/// now, the present digests read, and the inputs of the basis exactly those that had an owner.
pub proof fn law_unknown_inputs_are_never_current(
    prior: SemanticInputsModel,
    prior_roots: Option<Map<Seq<char>, StringMap<()>>>,
    current_roots: Option<Map<Seq<char>, StringMap<()>>>,
    current: Option<Seq<(Seq<char>, Seq<char>)>>,
    retained: Set<Seq<char>>,
    path: Seq<char>,
    root: Seq<char>,
)
    requires
        inputs_are_current(prior, prior_roots, current_roots, current, retained),
    ensures
        prior.complete && prior.environment.len() == 0 && prior.issues.len() == 0,
        prior_roots is Some && current_roots is Some && current is Some,
        path_digests(prior.paths).dom().contains(path) <==> prior_roots->0.dom().contains(path),
        retained.contains(root) && prior_roots->0.dom().contains(path)
            && prior_roots->0[path]@.dom().contains(root) ==> entry(
            path_digests(prior.paths),
            path,
        ) == entry(path_digests(current->0), path),
        retained.contains(root) && current_roots->0.dom().contains(path)
            && current_roots->0[path]@.dom().contains(root) ==> entry(
            path_digests(prior.paths),
            path,
        ) == entry(path_digests(current->0), path),
{
    if retained.contains(root) && owns(prior_roots->0, current_roots->0, path, root) {
        assert(!is_released(prior_roots->0, current_roots->0, path, retained));
    }
}

} // verus!
