//! Statistics of a graph, and what may be concluded from its call edges.

use vstd::prelude::*;
use std::collections::HashSet;

use crate::domain::{CapabilityCoverage, CapabilityCoverageStatus};
use crate::graph::{EdgeKind, EdgeSource, GraphEdge, GraphNode, KnowledgeGraph, ReachabilityClass};
use crate::indexed_source_authority;
use crate::indexed_source_authority::language_for_path;
use crate::ordered;
use crate::ordered::StringMap;
use crate::text;
use crate::text::decimal;

verus! {

/// Node and edge counts, and how the edges divide into kinds.
#[derive(Debug)]
pub struct GraphStats {
    pub node_count: usize,
    pub edge_count: usize,
    /// Edges by the name of their kind.
    pub edge_kinds: StringMap<usize>,
}

/// How many edges have a kind of this name.
pub open spec fn kind_population(edges: Seq<(u128, u128, GraphEdge)>, name: Seq<char>) -> nat {
    edges.filter(|edge: (u128, u128, GraphEdge)| edge.2.kind.as_str_spec() == name).len()
}

proof fn lemma_filter_step<T>(s: Seq<T>, pred: spec_fn(T) -> bool, i: int)
    requires
        0 <= i < s.len(),
    ensures
        s.take(i + 1).filter(pred).len() == s.take(i).filter(pred).len() + if pred(s[i]) {
            1nat
        } else {
            0
        },
        s.take(i).filter(pred).len() <= i,
{
    s.lemma_filter_take_len(pred, i);
    assert(s.take(i + 1) =~= s.take(i).push(s[i]));
    s.take(i).lemma_filter_push(s[i], pred);
    s.take(i).lemma_filter_len(pred);
}

/// Counts nodes and edges, and the edges of each kind.
pub fn compute_graph_stats(graph: &KnowledgeGraph) -> (r: GraphStats)
    ensures
        r.node_count == graph.nodes().len(),
        r.edge_count == graph.edges().len(),
        forall|name: Seq<char>| #[trigger]
            r.edge_kinds@.dom().contains(name) <==> kind_population(graph.edges(), name) > 0,
        forall|name: Seq<char>| #[trigger]
            r.edge_kinds@.dom().contains(name) ==> r.edge_kinds@[name] == kind_population(
                graph.edges(),
                name,
            ),
{
    let edges = graph.all_edges();
    let ghost all = graph.edges();
    let mut edge_kinds: StringMap<usize> = StringMap::new();
    assert forall|name: Seq<char>| kind_population(all.take(0), name) == 0 by {
        let pred = |edge: (u128, u128, GraphEdge)| edge.2.kind.as_str_spec() == name;
        all.take(0).lemma_filter_len(pred);
    }
    for i in 0..edges.len()
        invariant
            edges@ == all,
            forall|name: Seq<char>| #[trigger]
                edge_kinds@.dom().contains(name) <==> kind_population(all.take(i as int), name) > 0,
            forall|name: Seq<char>| #[trigger]
                edge_kinds@.dom().contains(name) ==> edge_kinds@[name] == kind_population(
                    all.take(i as int),
                    name,
                ),
    {
        let kind = edges[i].2.kind.as_str();
        let ghost before = edge_kinds@;
        proof {
            assert forall|name: Seq<char>| kind_population(all.take(i + 1), name)
                == kind_population(all.take(i as int), name) + if name == kind@ {
                1nat
            } else {
                0
            } && kind_population(all.take(i as int), name) <= i by {
                let pred = |edge: (u128, u128, GraphEdge)| edge.2.kind.as_str_spec() == name;
                lemma_filter_step(all, pred, i as int);
            }
            assert(before.dom().contains(kind@) <==> kind_population(all.take(i as int), kind@)
                > 0);
        }
        let count: usize = match edge_kinds.get(kind) {
            Some(count) => *count,
            None => 0,
        };
        assert(count == kind_population(all.take(i as int), kind@));
        edge_kinds.insert(kind.to_owned(), count + 1);
        proof {
            assert forall|name: Seq<char>| #[trigger]
                edge_kinds@.dom().contains(name) <==> kind_population(all.take(i + 1), name)
                > 0 by {
                assert(before.dom().contains(name) <==> kind_population(all.take(i as int), name)
                    > 0);
            }
            assert forall|name: Seq<char>| #[trigger]
                edge_kinds@.dom().contains(name) implies edge_kinds@[name] == kind_population(
                all.take(i + 1),
                name,
            ) by {
                if name != kind@ {
                    assert(before.dom().contains(name));
                }
            }
        }
    }
    assert(all.take(all.len() as int) =~= all);
    GraphStats { node_count: graph.node_count(), edge_count: graph.edge_count(), edge_kinds }
}

/// How many nodes fall into each reachability class.
#[derive(Debug, Clone, Copy, PartialEq, Eq, Structural)]
pub struct ReachabilitySummary {
    pub wired: usize,
    pub public_api: usize,
    pub structural: usize,
    pub test_only: usize,
    pub dead: usize,
    pub orphan: usize,
    pub unclassified: usize,
    /// Not reached by directed calls; never a reason to delete.
    pub suspected: usize,
    /// Outside the production census.
    pub excluded: usize,
}

impl Default for ReachabilitySummary {
    fn default() -> (r: Self)
        ensures
            r.total() == 0,
    {
        ReachabilitySummary {
            wired: 0,
            public_api: 0,
            structural: 0,
            test_only: 0,
            dead: 0,
            orphan: 0,
            unclassified: 0,
            suspected: 0,
            excluded: 0,
        }
    }
}

impl ReachabilitySummary {
    /// All nodes that were counted.
    pub open spec fn total(self) -> int {
        self.wired + self.public_api + self.structural + self.test_only + self.dead + self.orphan
            + self.unclassified + self.suspected + self.excluded
    }
}

/// How many nodes have this class.
pub open spec fn class_population(nodes: Seq<GraphNode>, class: ReachabilityClass) -> nat {
    nodes.filter(|node: GraphNode| node.reachability_class == class).len()
}

/// The summary counts each class of these nodes.
pub open spec fn summarizes(summary: ReachabilitySummary, nodes: Seq<GraphNode>) -> bool {
    &&& summary.wired == class_population(nodes, ReachabilityClass::Wired)
    &&& summary.public_api == class_population(nodes, ReachabilityClass::PublicApi)
    &&& summary.structural == class_population(nodes, ReachabilityClass::StructuralOnly)
    &&& summary.test_only == class_population(nodes, ReachabilityClass::TestOnly)
    &&& summary.dead == class_population(nodes, ReachabilityClass::Dead)
    &&& summary.orphan == class_population(nodes, ReachabilityClass::Orphan)
    &&& summary.unclassified == class_population(nodes, ReachabilityClass::Unclassified)
    &&& summary.suspected == class_population(nodes, ReachabilityClass::Suspected)
    &&& summary.excluded == class_population(nodes, ReachabilityClass::Excluded)
}

proof fn lemma_class_step(nodes: Seq<GraphNode>, class: ReachabilityClass, i: int)
    requires
        0 <= i < nodes.len(),
    ensures
        class_population(nodes.take(i + 1), class) == class_population(nodes.take(i), class)
            + if nodes[i].reachability_class == class {
            1nat
        } else {
            0
        },
        class_population(nodes.take(i), class) <= i,
{
    lemma_filter_step(nodes, |node: GraphNode| node.reachability_class == class, i);
}

/// Counts the nodes of each reachability class.
pub fn compute_reachability_summary(graph: &KnowledgeGraph) -> (r: ReachabilitySummary)
    ensures
        summarizes(r, graph.nodes()),
        r.total() == graph.nodes().len(),
{
    let nodes = graph.all_nodes();
    let ghost all = graph.nodes();
    let mut summary = ReachabilitySummary::default();
    proof {
        assert forall|class: ReachabilityClass| class_population(all.take(0), class) == 0 by {
            all.take(0).lemma_filter_len(|node: GraphNode| node.reachability_class == class);
        }
    }
    for i in 0..nodes.len()
        invariant
            nodes@ == all,
            summarizes(summary, all.take(i as int)),
            summary.total() == i,
    {
        proof {
            assert forall|class: ReachabilityClass| class_population(all.take(i + 1), class)
                == class_population(all.take(i as int), class) + if all[i as int].reachability_class
                == class {
                1nat
            } else {
                0
            } && class_population(all.take(i as int), class) <= i by {
                lemma_class_step(all, class, i as int);
            }
        }
        match nodes[i].reachability_class {
            ReachabilityClass::Wired => summary.wired += 1,
            ReachabilityClass::PublicApi => summary.public_api += 1,
            ReachabilityClass::StructuralOnly => summary.structural += 1,
            ReachabilityClass::TestOnly => summary.test_only += 1,
            ReachabilityClass::Dead => summary.dead += 1,
            ReachabilityClass::Orphan => summary.orphan += 1,
            ReachabilityClass::Unclassified => summary.unclassified += 1,
            ReachabilityClass::Suspected => summary.suspected += 1,
            ReachabilityClass::Excluded => summary.excluded += 1,
        }
    }
    assert(all.take(all.len() as int) =~= all);
    summary
}

/// What to do where authoritative call evidence is missing.
pub const CALLS_ACTIONABLE_GAP_GUIDANCE: &'static str = "resolve the reported per-language capability gaps, then run `h00ligan index --scip`; use `--require-complete-calls` when incomplete Calls must refuse publication";

/// What holds where semantic indexing already did all it could.
pub const CALLS_BEST_EFFORT_LIMIT_GUIDANCE: &'static str = "whole-project dead-code totals remain unavailable because source without a provider execution root has no Calls authority; this best-effort generation already covers every available project unit";

pub const CALLS_QUALIFIED_GUIDANCE: &'static str = "Calls results are exact within provider-covered source, but explicit source regions remain excluded; inspect the reported qualifications before relying on negative results";

/// Why an aggregate is unavailable, and whether anything can be done about it.
#[derive(Debug, Clone, PartialEq, Eq)]
pub struct CapabilityCoverageGuidance {
    pub action_needed: bool,
    pub message: String,
}

/// Guidance as plain text.
pub struct GuidanceModel {
    pub action_needed: bool,
    pub message: Seq<char>,
}

impl DeepView for CapabilityCoverageGuidance {
    type V = GuidanceModel;

    open spec fn deep_view(&self) -> GuidanceModel {
        GuidanceModel { action_needed: self.action_needed, message: self.message@ }
    }
}

/// Guidance on nodes without a classification.
pub open spec fn unclassified_guidance(nodes: nat) -> Option<GuidanceModel> {
    if nodes > 0 {
        Some(
            GuidanceModel {
                action_needed: true,
                message: "this indexed generation has "@ + text::dec(nodes)
                    + " unclassified graph node(s); resolve their project ownership or capability evidence, then publish a new semantic generation. Re-running the same unchanged indexing request cannot improve this state"@,
            },
        )
    } else {
        None
    }
}

/// Explains a population that has structural facts but no classification.
pub fn unclassified_population_guidance(unclassified_node_count: usize) -> (r: Option<
    CapabilityCoverageGuidance,
>)
    ensures
        r.deep_view() == unclassified_guidance(unclassified_node_count as nat),
{
    if unclassified_node_count == 0 {
        return None;
    }
    let mut message = "this indexed generation has ".to_owned();
    message.append(decimal(unclassified_node_count as u64).as_str());
    message.append(
        " unclassified graph node(s); resolve their project ownership or capability evidence, then publish a new semantic generation. Re-running the same unchanged indexing request cannot improve this state",
    );
    Some(CapabilityCoverageGuidance { action_needed: true, message })
}

/// A status with something missing.
pub open spec fn has_gap(status: CapabilityCoverageStatus) -> bool {
    status == CapabilityCoverageStatus::Qualified || status == CapabilityCoverageStatus::Partial
        || status == CapabilityCoverageStatus::Unavailable
}

/// Guidance on a coverage with something missing.
pub open spec fn calls_guidance(
    status: CapabilityCoverageStatus,
    best_effort_satisfied: bool,
) -> Option<GuidanceModel> {
    if !has_gap(status) {
        None
    } else {
        Some(
            GuidanceModel {
                action_needed: !best_effort_satisfied,
                message: if status == CapabilityCoverageStatus::Qualified {
                    CALLS_QUALIFIED_GUIDANCE@
                } else if !best_effort_satisfied {
                    CALLS_ACTIONABLE_GAP_GUIDANCE@
                } else {
                    CALLS_BEST_EFFORT_LIMIT_GUIDANCE@
                },
            },
        )
    }
}

/// Tells a gap that can be repaired from a stable limitation of loose source.
pub fn calls_coverage_guidance(coverage: &CapabilityCoverage) -> (r: Option<
    CapabilityCoverageGuidance,
>)
    ensures
        r.deep_view() == calls_guidance(coverage.status, coverage.best_effort_satisfied),
{
    match coverage.status {
        CapabilityCoverageStatus::NotApplicable | CapabilityCoverageStatus::Complete => {
            return None;
        },
        _ => {},
    }
    let action_needed = !coverage.satisfies_best_effort_provider_intent();
    let message = if coverage.status == CapabilityCoverageStatus::Qualified {
        CALLS_QUALIFIED_GUIDANCE
    } else if action_needed {
        CALLS_ACTIONABLE_GAP_GUIDANCE
    } else {
        CALLS_BEST_EFFORT_LIMIT_GUIDANCE
    };
    Some(CapabilityCoverageGuidance { action_needed, message: message.to_owned() })
}

/// Guidance on an unavailable dead-code total.
pub open spec fn dead_code_guidance(
    status: CapabilityCoverageStatus,
    best_effort_satisfied: bool,
    classified: bool,
    nonempty: bool,
) -> GuidanceModel {
    if !nonempty {
        GuidanceModel { action_needed: true, message: "publish a non-empty immutable generation"@ }
    } else if !classified {
        GuidanceModel {
            action_needed: true,
            message: "publish a freshly classified immutable generation"@,
        }
    } else {
        match calls_guidance(status, best_effort_satisfied) {
            Some(guidance) => guidance,
            None => GuidanceModel {
                action_needed: true,
                message: "the published call graph cannot authorize a whole-project dead-code total; publish a fresh semantic generation"@,
            },
        }
    }
}

/// Explains why a dead-code total is unavailable. Population, classification and call
/// coverage stay distinct reasons.
pub fn dead_code_unknown_guidance(
    coverage: &CapabilityCoverage,
    graph_is_classified: bool,
    graph_is_nonempty: bool,
) -> (r: CapabilityCoverageGuidance)
    ensures
        r.deep_view() == dead_code_guidance(
            coverage.status,
            coverage.best_effort_satisfied,
            graph_is_classified,
            graph_is_nonempty,
        ),
{
    if !graph_is_nonempty {
        return CapabilityCoverageGuidance {
            action_needed: true,
            message: "publish a non-empty immutable generation".to_owned(),
        };
    }
    if !graph_is_classified {
        return CapabilityCoverageGuidance {
            action_needed: true,
            message: "publish a freshly classified immutable generation".to_owned(),
        };
    }
    match calls_coverage_guidance(coverage) {
        Some(guidance) => guidance,
        None => CapabilityCoverageGuidance {
            action_needed: true,
            message: "the published call graph cannot authorize a whole-project dead-code total; publish a fresh semantic generation".to_owned(),
        },
    }
}

/// A fraction of two counts.
#[derive(Debug, Clone, Copy, PartialEq, Eq, Structural)]
pub struct Ratio {
    pub numerator: usize,
    pub denominator: usize,
}

/// Counts that describe the call edges of a graph. They never show that a provider ran.
#[derive(Debug, Clone, Copy, PartialEq, Eq, Structural)]
pub struct CallEdgeCoverage {
    /// The query scope has a complete, validated call receipt. Given by the caller.
    pub calls_authority_available: bool,
    /// All nodes, of every kind.
    pub total_nodes: usize,
    /// All callable nodes.
    pub total_fn_nodes: usize,
    /// Callable nodes that are neither dead nor orphaned.
    pub live_fn_nodes: usize,
    /// Live callable nodes at an end of some call edge.
    pub fn_with_calls_live: usize,
    /// Call edges that a semantic provider asserted.
    pub scip_calls_edges: usize,
    /// `fn_with_calls_live` over `live_fn_nodes`, unless there is no live callable node.
    pub ratio_live: Option<Ratio>,
}

/// Some call edge starts or ends at the node.
pub open spec fn touches_call(edges: Seq<(u128, u128, GraphEdge)>, id: u128) -> bool {
    exists|i: int|
        0 <= i < edges.len() && (#[trigger] edges[i]).2.kind == EdgeKind::Calls && (edges[i].0 == id
            || edges[i].1 == id)
}

/// A callable node that is neither dead nor orphaned.
pub open spec fn is_live(node: GraphNode) -> bool {
    node.is_callable && node.reachability_class != ReachabilityClass::Dead
        && node.reachability_class != ReachabilityClass::Orphan
}

/// A call edge that a semantic provider asserted.
pub open spec fn is_provider_call(edge: (u128, u128, GraphEdge)) -> bool {
    edge.2.kind == EdgeKind::Calls && (edge.2.source == EdgeSource::Scip || edge.2.source
        == EdgeSource::Both)
}

/// The counts describe these nodes and edges.
pub open spec fn covers(
    coverage: CallEdgeCoverage,
    nodes: Seq<GraphNode>,
    edges: Seq<(u128, u128, GraphEdge)>,
) -> bool {
    &&& coverage.total_nodes == nodes.len()
    &&& coverage.total_fn_nodes == nodes.filter(|node: GraphNode| node.is_callable).len()
    &&& coverage.live_fn_nodes == nodes.filter(|node: GraphNode| is_live(node)).len()
    &&& coverage.fn_with_calls_live == nodes.filter(
        |node: GraphNode| is_live(node) && touches_call(edges, node.memory_id),
    ).len()
    &&& coverage.scip_calls_edges == edges.filter(
        |edge: (u128, u128, GraphEdge)| is_provider_call(edge),
    ).len()
    &&& coverage.ratio_live == if coverage.live_fn_nodes == 0 {
        None::<Ratio>
    } else {
        Some(
            Ratio {
                numerator: coverage.fn_with_calls_live,
                denominator: coverage.live_fn_nodes,
            },
        )
    }
}

/// Counts what the graph holds of calls, and attaches the caller's decision about
/// authority.
pub fn call_edge_coverage(graph: &KnowledgeGraph, calls_authority_available: bool) -> (r:
    CallEdgeCoverage)
    ensures
        r.calls_authority_available == calls_authority_available,
        covers(r, graph.nodes(), graph.edges()),
{
    broadcast use vstd::std_specs::hash::group_hash_axioms;

    let nodes = graph.all_nodes();
    let edges = graph.all_edges();
    let ghost all_nodes = graph.nodes();
    let ghost all_edges = graph.edges();
    let ghost provider = |edge: (u128, u128, GraphEdge)| is_provider_call(edge);
    let mut scip_calls_edges: usize = 0;
    let mut touching: HashSet<u128> = HashSet::new();
    proof {
        all_edges.take(0).lemma_filter_len(provider);
    }
    for i in 0..edges.len()
        invariant
            edges@ == all_edges,
            provider == (|edge: (u128, u128, GraphEdge)| is_provider_call(edge)),
            scip_calls_edges <= i,
            scip_calls_edges == all_edges.take(i as int).filter(provider).len(),
            forall|id: u128| #[trigger]
                touching@.contains(id) <==> touches_call(all_edges.take(i as int), id),
    {
        proof {
            lemma_filter_step(all_edges, provider, i as int);
        }
        let ghost before = touching@;
        let edge = &edges[i].2;
        if edge.kind == EdgeKind::Calls {
            if edge.source == EdgeSource::Scip || edge.source == EdgeSource::Both {
                scip_calls_edges += 1;
            }
            touching.insert(edges[i].0);
            touching.insert(edges[i].1);
        }
        proof {
            let done = all_edges.take(i as int);
            let next = all_edges.take(i + 1);
            assert forall|id: u128| #[trigger] touching@.contains(id) <==> touches_call(
                next,
                id,
            ) by {
                assert(before.contains(id) <==> touches_call(done, id));
                assert(next[i as int] == all_edges[i as int]);
                if touches_call(done, id) {
                    let j = choose|j: int|
                        0 <= j < done.len() && (#[trigger] done[j]).2.kind == EdgeKind::Calls && (
                        done[j].0 == id || done[j].1 == id);
                    assert(next[j] == done[j]);
                }
                if touches_call(next, id) {
                    let j = choose|j: int|
                        0 <= j < next.len() && (#[trigger] next[j]).2.kind == EdgeKind::Calls && (
                        next[j].0 == id || next[j].1 == id);
                    if j < i {
                        assert(done[j] == next[j]);
                    }
                }
            }
        }
    }
    assert(all_edges.take(all_edges.len() as int) =~= all_edges);
    let ghost callable = |node: GraphNode| node.is_callable;
    let ghost live = |node: GraphNode| is_live(node);
    let ghost called = |node: GraphNode| is_live(node) && touches_call(all_edges, node.memory_id);
    let mut total_fn_nodes: usize = 0;
    let mut live_fn_nodes: usize = 0;
    let mut fn_with_calls_live: usize = 0;
    proof {
        all_nodes.take(0).lemma_filter_len(callable);
        all_nodes.take(0).lemma_filter_len(live);
        all_nodes.take(0).lemma_filter_len(called);
    }
    for i in 0..nodes.len()
        invariant
            nodes@ == all_nodes,
            callable == (|node: GraphNode| node.is_callable),
            live == (|node: GraphNode| is_live(node)),
            called == (|node: GraphNode| is_live(node) && touches_call(all_edges, node.memory_id)),
            forall|id: u128| #[trigger] touching@.contains(id) <==> touches_call(all_edges, id),
            total_fn_nodes == all_nodes.take(i as int).filter(callable).len(),
            live_fn_nodes == all_nodes.take(i as int).filter(live).len(),
            fn_with_calls_live == all_nodes.take(i as int).filter(called).len(),
            total_fn_nodes <= i,
            live_fn_nodes <= i,
            fn_with_calls_live <= i,
    {
        proof {
            lemma_filter_step(all_nodes, callable, i as int);
            lemma_filter_step(all_nodes, live, i as int);
            lemma_filter_step(all_nodes, called, i as int);
        }
        let node = &nodes[i];
        if node.is_callable {
            total_fn_nodes += 1;
            if node.reachability_class != ReachabilityClass::Dead && node.reachability_class
                != ReachabilityClass::Orphan {
                live_fn_nodes += 1;
                if touching.contains(&node.memory_id) {
                    fn_with_calls_live += 1;
                }
            }
        }
    }
    assert(all_nodes.take(all_nodes.len() as int) =~= all_nodes);
    let ratio_live = if live_fn_nodes == 0 {
        None
    } else {
        Some(Ratio { numerator: fn_with_calls_live, denominator: live_fn_nodes })
    };
    CallEdgeCoverage {
        calls_authority_available,
        total_nodes: nodes.len(),
        total_fn_nodes,
        live_fn_nodes,
        fn_with_calls_live,
        scip_calls_edges,
        ratio_live,
    }
}

/// What call coverage allows to be said.
#[derive(Debug, Clone, Copy, PartialEq, Eq, Structural)]
pub enum CoverageTier {
    /// Nodes, but none callable: the question does not apply.
    NotApplicable,
    /// No node at all: extraction failed, nothing may be concluded.
    Degenerate,
    /// Callable nodes without a complete receipt: unknown.
    Unavailable,
    /// Some callable language has complete authority.
    Sufficient,
}

impl CoverageTier {
    pub open spec fn label_spec(self) -> Seq<char> {
        match self {
            CoverageTier::NotApplicable => "NotApplicable"@,
            CoverageTier::Degenerate => "Degenerate"@,
            CoverageTier::Unavailable => "Unavailable"@,
            CoverageTier::Sufficient => "Sufficient"@,
        }
    }

    /// The stable machine label.
    pub fn label(self) -> (r: &'static str)
        ensures
            r@ == self.label_spec(),
    {
        match self {
            CoverageTier::NotApplicable => "NotApplicable",
            CoverageTier::Degenerate => "Degenerate",
            CoverageTier::Unavailable => "Unavailable",
            CoverageTier::Sufficient => "Sufficient",
        }
    }
}

/// The tier of a coverage.
pub open spec fn tier_of(cov: CallEdgeCoverage) -> CoverageTier {
    if cov.total_fn_nodes == 0 && cov.total_nodes == 0 {
        CoverageTier::Degenerate
    } else if cov.total_fn_nodes == 0 {
        CoverageTier::NotApplicable
    } else if !cov.calls_authority_available {
        CoverageTier::Unavailable
    } else {
        CoverageTier::Sufficient
    }
}

/// The tier of a coverage.
pub fn coverage_tier(cov: &CallEdgeCoverage) -> (r: CoverageTier)
    ensures
        r == tier_of(*cov),
{
    if cov.total_fn_nodes == 0 {
        if cov.total_nodes == 0 {
            return CoverageTier::Degenerate;
        }
        return CoverageTier::NotApplicable;
    }
    if !cov.calls_authority_available {
        return CoverageTier::Unavailable;
    }
    CoverageTier::Sufficient
}

/// Edge counts and ratios are diagnostics: with the same nodes and the same authority
/// the tier is the same.
pub proof fn law_counts_are_not_authority(a: CallEdgeCoverage, b: CallEdgeCoverage)
    requires
        a.calls_authority_available == b.calls_authority_available,
        a.total_nodes == b.total_nodes,
        a.total_fn_nodes == b.total_fn_nodes,
    ensures
        tier_of(a) == tier_of(b),
{
}

/// Without authority a scope with callable nodes is never sufficient, and a graph
/// without nodes never is, whatever the authority.
pub proof fn law_tier_fails_closed(cov: CallEdgeCoverage)
    ensures
        tier_of(cov) == CoverageTier::Sufficient ==> cov.calls_authority_available
            && cov.total_fn_nodes > 0,
        cov.total_nodes == 0 && cov.total_fn_nodes == 0 ==> tier_of(cov)
            == CoverageTier::Degenerate,
{
}

/// What is said in place of a total where nothing is callable.
pub const NOT_APPLICABLE_NOTE: &'static str = "not applicable — no callable functions in scope";

/// The machine-readable coverage block. A ratio without a value is null, a note without
/// one is absent.
#[derive(Debug, Clone, Copy, PartialEq, Eq)]
pub struct CoverageBlock {
    pub tier: &'static str,
    pub calls_authority_available: bool,
    pub scip_calls_edges: usize,
    pub fn_with_calls_live: usize,
    pub live_fn_nodes: usize,
    pub total_nodes: usize,
    pub total_fn_nodes: usize,
    pub ratio_live: Option<Ratio>,
    pub note: Option<&'static str>,
}

/// The block shows this coverage and tier.
pub open spec fn shows(block: CoverageBlock, cov: CallEdgeCoverage, tier: CoverageTier) -> bool {
    &&& block.tier@ == tier.label_spec()
    &&& block.calls_authority_available == cov.calls_authority_available
    &&& block.scip_calls_edges == cov.scip_calls_edges
    &&& block.fn_with_calls_live == cov.fn_with_calls_live
    &&& block.live_fn_nodes == cov.live_fn_nodes
    &&& block.total_nodes == cov.total_nodes
    &&& block.total_fn_nodes == cov.total_fn_nodes
    &&& block.ratio_live == cov.ratio_live
    &&& block.note.deep_view() == if tier == CoverageTier::NotApplicable {
        Some(NOT_APPLICABLE_NOTE@)
    } else {
        None
    }
}

/// The coverage block of a coverage and its tier.
pub fn coverage_block_json(cov: &CallEdgeCoverage, tier: CoverageTier) -> (r: CoverageBlock)
    ensures
        shows(r, *cov, tier),
{
    CoverageBlock {
        tier: tier.label(),
        calls_authority_available: cov.calls_authority_available,
        scip_calls_edges: cov.scip_calls_edges,
        fn_with_calls_live: cov.fn_with_calls_live,
        live_fn_nodes: cov.live_fn_nodes,
        total_nodes: cov.total_nodes,
        total_fn_nodes: cov.total_fn_nodes,
        ratio_live: cov.ratio_live,
        note: if tier == CoverageTier::NotApplicable {
            Some(NOT_APPLICABLE_NOTE)
        } else {
            None
        },
    }
}

/// A coverage block with the capability evidence that justifies its tier.
#[derive(Debug)]
pub struct AuthorizedCoverageBlock<'a> {
    pub block: CoverageBlock,
    pub authority: &'a CapabilityCoverage,
}

/// The coverage block, with the evidence attached.
pub fn coverage_block_json_with_authority<'a>(
    cov: &CallEdgeCoverage,
    tier: CoverageTier,
    authority: &'a CapabilityCoverage,
) -> (r: AuthorizedCoverageBlock<'a>)
    ensures
        shows(r.block, *cov, tier),
        *r.authority == *authority,
{
    AuthorizedCoverageBlock { block: coverage_block_json(cov, tier), authority }
}

/// The language of a node, by the extension of its file.
pub fn node_language(node: &GraphNode) -> (r: Option<&'static str>)
    ensures
        r.deep_view() == indexed_source_authority::language_at(node.file_path@),
{
    language_for_path(node.file_path.as_str())
}

/// Some callable node belongs to the language.
pub open spec fn has_callable(nodes: Seq<GraphNode>, language: Seq<char>) -> bool {
    exists|i: int|
        0 <= i < nodes.len() && (#[trigger] nodes[i]).is_callable
            && indexed_source_authority::language_at(nodes[i].file_path@) == Some(language)
}

/// The predicate can give this answer on the text.
pub open spec fn answers<F: Fn(&str) -> bool>(predicate: F, text: Seq<char>, answer: bool) -> bool {
    exists|s: &str| s@ == text && #[trigger] call_ensures(predicate, (s,), answer)
}

/// The languages with callable nodes whose precise resolver did not run. Their nodes are
/// unknown; the other languages keep their verdicts.
pub fn coverage_suppressed_languages<F: Fn(&str) -> bool>(
    graph: &KnowledgeGraph,
    precise_resolver_ran: F,
) -> (r: StringMap<()>)
    requires
        forall|language: &str| call_requires(precise_resolver_ran, (language,)),
    ensures
        forall|language: Seq<char>| #[trigger]
            r@.dom().contains(language) ==> has_callable(graph.nodes(), language) && answers(
                precise_resolver_ran,
                language,
                false,
            ),
        forall|language: Seq<char>| #[trigger]
            has_callable(graph.nodes(), language) ==> r@.dom().contains(language) || answers(
                precise_resolver_ran,
                language,
                true,
            ),
{
    let nodes = graph.all_nodes();
    let ghost all = graph.nodes();
    let mut present: StringMap<()> = StringMap::new();
    for i in 0..nodes.len()
        invariant
            nodes@ == all,
            forall|language: Seq<char>| #[trigger]
                present@.dom().contains(language) <==> has_callable(all.take(i as int), language),
    {
        let ghost before = present@;
        let ghost mut added: Option<Seq<char>> = None;
        if nodes[i].is_callable {
            if let Some(language) = node_language(&nodes[i]) {
                present.insert(language.to_owned(), ());
                proof {
                    added = Some(language@);
                }
            }
        }
        proof {
            let done = all.take(i as int);
            let next = all.take(i + 1);
            assert forall|language: Seq<char>| #[trigger]
                present@.dom().contains(language) <==> has_callable(next, language) by {
                assert(before.dom().contains(language) <==> has_callable(done, language));
                assert(next[i as int] == all[i as int]);
                if has_callable(done, language) {
                    let j = choose|j: int|
                        0 <= j < done.len() && (#[trigger] done[j]).is_callable
                            && indexed_source_authority::language_at(done[j].file_path@) == Some(
                            language,
                        );
                    assert(next[j] == done[j]);
                }
                if has_callable(next, language) {
                    let j = choose|j: int|
                        0 <= j < next.len() && (#[trigger] next[j]).is_callable
                            && indexed_source_authority::language_at(next[j].file_path@) == Some(
                            language,
                        );
                    if j < i {
                        assert(done[j] == next[j]);
                    } else {
                        assert(added == Some(language));
                    }
                }
            }
        }
    }
    assert(all.take(all.len() as int) =~= all);
    let entries = present.entries();
    let mut suppressed: StringMap<()> = StringMap::new();
    let ghost keys = ordered::keys_of(present.listing());
    for i in 0..entries.len()
        invariant
            entries@ == present.listing(),
            keys == ordered::keys_of(present.listing()),
            forall|language: &str| call_requires(precise_resolver_ran, (language,)),
            forall|language: Seq<char>| #[trigger]
                suppressed@.dom().contains(language) ==> keys.contains(language) && answers(
                    precise_resolver_ran,
                    language,
                    false,
                ),
            forall|j: int|
                0 <= j < i ==> suppressed@.dom().contains(#[trigger] keys[j]) || answers(
                    precise_resolver_ran,
                    keys[j],
                    true,
                ),
    {
        let language = entries[i].0.as_str();
        assert(keys[i as int] == language@);
        let ran = precise_resolver_ran(language);
        if !ran {
            suppressed.insert(language.to_owned(), ());
        }
        proof {
            assert(keys.contains(language@));
            assert(answers(precise_resolver_ran, language@, ran));
        }
    }
    proof {
        assert forall|language: Seq<char>| #[trigger]
            has_callable(all, language) implies suppressed@.dom().contains(language) || answers(
            precise_resolver_ran,
            language,
            true,
        ) by {
            assert(present@.dom().contains(language));
            let j = keys.index_of(language);
            assert(keys.contains(language));
            assert(keys[j] == language);
        }
        assert forall|language: Seq<char>| #[trigger]
            suppressed@.dom().contains(language) implies has_callable(all, language) by {
            assert(present@.dom().contains(language));
        }
    }
    suppressed
}

/// The standard clock's reading of a moment.
#[verifier::external_type_specification]
#[verifier::external_body]
pub struct ExSystemTime(std::time::SystemTime);

/// `std::time::SystemTime::elapsed`: whole seconds from a moment until now, or none
/// where the moment lies in the future. Nothing is claimed of the number, which the
/// clock decides.
#[verifier::external_body]
fn seconds_since(moment: std::time::SystemTime) -> (r: Option<u64>) {
    moment.elapsed().ok().map(|elapsed| elapsed.as_secs())
}

/// The clock gave this as the time from the moment until now.
pub closed spec fn is_clock_age(moment: std::time::SystemTime, elapsed: Option<u64>) -> bool {
    call_ensures(seconds_since, (moment,), elapsed)
}

/// A count of some unit, in words.
pub open spec fn ago(count: nat, unit: Seq<char>) -> Seq<char> {
    text::dec(count) + unit + (if count == 1 {
        " ago"@
    } else {
        "s ago"@
    })
}

/// An age in words.
pub open spec fn age_text(elapsed: Option<u64>) -> Seq<char> {
    match elapsed {
        None => "unknown"@,
        Some(seconds) => if seconds < 60 {
            "just now"@
        } else if seconds < 3600 {
            ago((seconds / 60) as nat, " minute"@)
        } else if seconds < 86400 {
            ago((seconds / 3600) as nat, " hour"@)
        } else {
            ago((seconds / 86400) as nat, " day"@)
        },
    }
}

fn count_ago(count: u64, unit: &str) -> (r: String)
    ensures
        r@ == ago(count as nat, unit@),
{
    let mut words = decimal(count);
    words.append(unit);
    if count == 1 {
        words.append(" ago");
    } else {
        words.append("s ago");
    }
    words
}

/// An age of some seconds in words, and of none as unknown.
pub fn format_elapsed(elapsed: Option<u64>) -> (r: String)
    ensures
        r@ == age_text(elapsed),
{
    match elapsed {
        None => "unknown".to_owned(),
        Some(seconds) => if seconds < 60 {
            "just now".to_owned()
        } else if seconds < 3600 {
            count_ago(seconds / 60, " minute")
        } else if seconds < 86400 {
            count_ago(seconds / 3600, " hour")
        } else {
            count_ago(seconds / 86400, " day")
        },
    }
}

/// How long ago a moment was, in words: the text of the age that the clock gives for it.
pub fn format_age(mtime: std::time::SystemTime) -> (r: String)
    ensures
        exists|elapsed: Option<u64>| #[trigger]
            is_clock_age(mtime, elapsed) && r@ == age_text(elapsed),
{
    let elapsed = seconds_since(mtime);
    assert(is_clock_age(mtime, elapsed));
    let r = format_elapsed(elapsed);
    assert(r@ == age_text(elapsed));
    r
}

/// What a coverage allows to be said, case by case: nothing of a graph without nodes; nothing of
/// calls where no node is callable; with callable nodes, what the authority says, and nothing
/// else.
pub proof fn law_tier_is_exact(cov: CallEdgeCoverage)
    requires
        cov.total_fn_nodes <= cov.total_nodes,
    ensures
        tier_of(cov) == CoverageTier::Degenerate <==> cov.total_nodes == 0,
        tier_of(cov) == CoverageTier::NotApplicable <==> cov.total_nodes > 0 && cov.total_fn_nodes
            == 0,
        tier_of(cov) == CoverageTier::Unavailable <==> cov.total_fn_nodes > 0
            && !cov.calls_authority_available,
        tier_of(cov) == CoverageTier::Sufficient <==> cov.total_fn_nodes > 0
            && cov.calls_authority_available,
{
}

proof fn lemma_filter_push<T>(items: Seq<T>, item: T, pred: spec_fn(T) -> bool)
    ensures
        items.push(item).filter(pred).len() == items.filter(pred).len() + if pred(item) {
            1int
        } else {
            0
        },
{
    reveal(Seq::filter);
    assert(items.push(item).drop_last() =~= items);
}

/// One node more is counted once: in its own class, and in no other.
pub proof fn law_node_is_counted_in_its_class(
    nodes: Seq<GraphNode>,
    node: GraphNode,
    class: ReachabilityClass,
)
    ensures
        class_population(nodes.push(node), class) == class_population(nodes, class) + if class
            == node.reachability_class {
            1int
        } else {
            0
        },
        class_population(seq![], class) == 0,
{
    let pred = |node: GraphNode| node.reachability_class == class;
    lemma_filter_push(nodes, node, pred);
    reveal(Seq::filter);
}

/// One relationship more is counted once: under the name of its kind, and under no other.
pub proof fn law_edge_is_counted_in_its_kind(
    edges: Seq<(u128, u128, GraphEdge)>,
    edge: (u128, u128, GraphEdge),
    name: Seq<char>,
)
    ensures
        kind_population(edges.push(edge), name) == kind_population(edges, name) + if name
            == edge.2.kind.as_str_spec() {
            1int
        } else {
            0
        },
        kind_population(seq![], name) == 0,
{
    let pred = |edge: (u128, u128, GraphEdge)| edge.2.kind.as_str_spec() == name;
    lemma_filter_push(edges, edge, pred);
    reveal(Seq::filter);
}

/// What one node more does to the counts of calls. It is a node; it is a callable one if its
/// kind can be invoked; it is live if it is callable and neither dead nor an orphan; and it is
/// a live one with calls if some call relationship starts or ends at it.
pub proof fn law_node_is_counted_for_calls(
    nodes: Seq<GraphNode>,
    node: GraphNode,
    edges: Seq<(u128, u128, GraphEdge)>,
    before: CallEdgeCoverage,
    after: CallEdgeCoverage,
)
    requires
        covers(before, nodes, edges),
        covers(after, nodes.push(node), edges),
    ensures
        ({
            let live = node.is_callable && node.reachability_class != ReachabilityClass::Dead
                && node.reachability_class != ReachabilityClass::Orphan;
            let calls = exists|i: int|
                0 <= i < edges.len() && (#[trigger] edges[i]).2.kind == EdgeKind::Calls && (
                edges[i].0 == node.memory_id || edges[i].1 == node.memory_id);
            &&& after.total_nodes == before.total_nodes + 1
            &&& after.total_fn_nodes == before.total_fn_nodes + if node.is_callable {
                1int
            } else {
                0
            }
            &&& after.live_fn_nodes == before.live_fn_nodes + if live {
                1int
            } else {
                0
            }
            &&& after.fn_with_calls_live == before.fn_with_calls_live + if live && calls {
                1int
            } else {
                0
            }
            &&& after.scip_calls_edges == before.scip_calls_edges
            &&& after.ratio_live is None <==> after.live_fn_nodes == 0
            &&& after.ratio_live is Some ==> after.ratio_live->0.numerator
                == after.fn_with_calls_live && after.ratio_live->0.denominator
                == after.live_fn_nodes
        }),
{
    lemma_filter_push(nodes, node, |node: GraphNode| node.is_callable);
    lemma_filter_push(nodes, node, |node: GraphNode| is_live(node));
    lemma_filter_push(
        nodes,
        node,
        |node: GraphNode| is_live(node) && touches_call(edges, node.memory_id),
    );
}

/// What one relationship more does to them: it is a provider's call exactly if it is a call that
/// a provider asserted, alone or with the syntax. What lives does not depend on it.
pub proof fn law_provider_call_is_counted(
    nodes: Seq<GraphNode>,
    edges: Seq<(u128, u128, GraphEdge)>,
    edge: (u128, u128, GraphEdge),
    before: CallEdgeCoverage,
    after: CallEdgeCoverage,
)
    requires
        covers(before, nodes, edges),
        covers(after, nodes, edges.push(edge)),
    ensures
        after.scip_calls_edges == before.scip_calls_edges + if edge.2.kind == EdgeKind::Calls
            && edge.2.source != EdgeSource::Syntax {
            1int
        } else {
            0
        },
        after.total_nodes == before.total_nodes,
        after.total_fn_nodes == before.total_fn_nodes,
        after.live_fn_nodes == before.live_fn_nodes,
{
    lemma_filter_push(edges, edge, |edge: (u128, u128, GraphEdge)| is_provider_call(edge));
}

/// Guidance on call coverage is given exactly where something is missing, and calls for action
/// exactly where more can be done.
pub proof fn law_calls_guidance_is_exact(
    status: CapabilityCoverageStatus,
    best_effort_satisfied: bool,
)
    ensures
        calls_guidance(status, best_effort_satisfied) is None <==> status
            == CapabilityCoverageStatus::Complete || status
            == CapabilityCoverageStatus::NotApplicable,
        calls_guidance(status, best_effort_satisfied) is Some ==> {
            let guidance = calls_guidance(status, best_effort_satisfied)->0;
            &&& guidance.action_needed <==> !best_effort_satisfied
            &&& status == CapabilityCoverageStatus::Qualified ==> guidance.message
                == CALLS_QUALIFIED_GUIDANCE@
            &&& status != CapabilityCoverageStatus::Qualified && !best_effort_satisfied
                ==> guidance.message == CALLS_ACTIONABLE_GAP_GUIDANCE@
            &&& status != CapabilityCoverageStatus::Qualified && best_effort_satisfied
                ==> guidance.message == CALLS_BEST_EFFORT_LIMIT_GUIDANCE@
        },
{
}

/// A missing dead-code total is explained by what is missing first: a population, then a
/// classification, then call coverage. It calls for action unless a gap in call coverage is all
/// that is missing and nothing more can be done about it.
pub proof fn law_dead_code_guidance_is_exact(
    status: CapabilityCoverageStatus,
    best_effort_satisfied: bool,
    classified: bool,
    nonempty: bool,
)
    ensures
        ({
            let guidance = dead_code_guidance(
                status,
                best_effort_satisfied,
                classified,
                nonempty,
            );
            let gap = status == CapabilityCoverageStatus::Qualified || status
                == CapabilityCoverageStatus::Partial || status
                == CapabilityCoverageStatus::Unavailable;
            &&& !nonempty ==> guidance.message == "publish a non-empty immutable generation"@
            &&& nonempty && !classified ==> guidance.message
                == "publish a freshly classified immutable generation"@
            &&& nonempty && classified && gap ==> Some(guidance) == calls_guidance(
                status,
                best_effort_satisfied,
            )
            &&& guidance.action_needed <==> !(nonempty && classified && gap
                && best_effort_satisfied)
        }),
{
}

/// Unclassified nodes are reported exactly if there are any, and they call for action.
pub proof fn law_unclassified_nodes_are_reported(nodes: nat)
    ensures
        unclassified_guidance(nodes) is Some <==> nodes > 0,
        unclassified_guidance(nodes) is Some ==> unclassified_guidance(nodes)->0.action_needed,
{
}

/// An age is told in the largest whole unit that it fills: under a minute it is now, then
/// minutes under an hour, hours under a day, and days.
pub proof fn law_age_is_told_in_the_largest_unit(seconds: u64)
    ensures
        age_text(None) == "unknown"@,
        seconds < 60 ==> age_text(Some(seconds)) == "just now"@,
        60 <= seconds < 120 ==> age_text(Some(seconds)) == text::dec(1) + " minute"@ + " ago"@,
        120 <= seconds < 3_600 ==> age_text(Some(seconds)) == text::dec((seconds / 60) as nat)
            + " minute"@ + "s ago"@,
        3_600 <= seconds < 7_200 ==> age_text(Some(seconds)) == text::dec(1) + " hour"@ + " ago"@,
        7_200 <= seconds < 86_400 ==> age_text(Some(seconds)) == text::dec(
            (seconds / 3_600) as nat,
        ) + " hour"@ + "s ago"@,
        86_400 <= seconds < 172_800 ==> age_text(Some(seconds)) == text::dec(1) + " day"@
            + " ago"@,
        172_800 <= seconds ==> age_text(Some(seconds)) == text::dec((seconds / 86_400) as nat)
            + " day"@ + "s ago"@,
{
}

/// One node more changes the summary in the number of its own class alone, by one; the summary
/// of no node holds nothing.
pub proof fn law_summary_counts_each_class(
    before: ReachabilitySummary,
    after: ReachabilitySummary,
    nodes: Seq<GraphNode>,
    node: GraphNode,
)
    requires
        summarizes(before, nodes),
        summarizes(after, nodes.push(node)),
    ensures
        after.wired - before.wired == (if node.reachability_class is Wired { 1int } else { 0 }),
        after.public_api - before.public_api == (if node.reachability_class is PublicApi { 1int } else { 0 }),
        after.structural - before.structural == (if node.reachability_class is StructuralOnly { 1int } else { 0 }),
        after.test_only - before.test_only == (if node.reachability_class is TestOnly { 1int } else { 0 }),
        after.dead - before.dead == (if node.reachability_class is Dead { 1int } else { 0 }),
        after.orphan - before.orphan == (if node.reachability_class is Orphan { 1int } else { 0 }),
        after.unclassified - before.unclassified == (if node.reachability_class is Unclassified { 1int } else { 0 }),
        after.suspected - before.suspected == (if node.reachability_class is Suspected { 1int } else { 0 }),
        after.excluded - before.excluded == (if node.reachability_class is Excluded { 1int } else { 0 }),
        nodes.len() == 0 ==> before.wired == 0 && before.public_api == 0 && before.structural == 0
            && before.test_only == 0 && before.dead == 0 && before.orphan == 0
            && before.unclassified == 0 && before.suspected == 0 && before.excluded == 0,
{
    if nodes.len() == 0 {
        assert(nodes =~= seq![]);
    }
    law_node_is_counted_in_its_class(nodes, node, ReachabilityClass::Wired);
    law_node_is_counted_in_its_class(nodes, node, ReachabilityClass::PublicApi);
    law_node_is_counted_in_its_class(nodes, node, ReachabilityClass::StructuralOnly);
    law_node_is_counted_in_its_class(nodes, node, ReachabilityClass::TestOnly);
    law_node_is_counted_in_its_class(nodes, node, ReachabilityClass::Dead);
    law_node_is_counted_in_its_class(nodes, node, ReachabilityClass::Orphan);
    law_node_is_counted_in_its_class(nodes, node, ReachabilityClass::Unclassified);
    law_node_is_counted_in_its_class(nodes, node, ReachabilityClass::Suspected);
    law_node_is_counted_in_its_class(nodes, node, ReachabilityClass::Excluded);
}

/// A language has callables exactly from the first callable node whose file has that language's
/// extension on: one such node is enough, and no other node counts.
pub proof fn law_one_callable_is_enough(
    nodes: Seq<GraphNode>,
    node: GraphNode,
    language: Seq<char>,
)
    ensures
        !has_callable(Seq::empty(), language),
        has_callable(nodes.push(node), language) <==> has_callable(nodes, language) || (
        node.is_callable && indexed_source_authority::language_at(node.file_path@) == Some(
            language,
        )),
{
    let more = nodes.push(node);
    assert(more[nodes.len() as int] == node);
    if has_callable(nodes, language) {
        let i = choose|i: int|
            0 <= i < nodes.len() && (#[trigger] nodes[i]).is_callable
                && indexed_source_authority::language_at(nodes[i].file_path@) == Some(language);
        assert(more[i] == nodes[i]);
    }
    if has_callable(more, language) {
        let i = choose|i: int|
            0 <= i < more.len() && (#[trigger] more[i]).is_callable
                && indexed_source_authority::language_at(more[i].file_path@) == Some(language);
        if i < nodes.len() {
            assert(nodes[i] == more[i]);
        }
    }
}

} // verus!
