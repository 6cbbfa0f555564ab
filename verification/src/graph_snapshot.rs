//! The whole-graph snapshot, and how a decoded one becomes a graph again.

use vstd::prelude::*;

use crate::graph;
use crate::graph::{EdgeKind, GraphEdge, GraphError, GraphNode, KnowledgeGraph, SourceSpan};
use crate::text;

verus! {

/// Everything that a graph holds, as lists.
#[derive(Debug, Clone)]
pub struct GraphSnapshot {
    pub nodes: Vec<GraphNode>,
    pub edges: Vec<(u128, u128, GraphEdge)>,
    pub source_spans: Vec<(u128, SourceSpan)>,
}

/// The first symbol from position `i` on whose identity an earlier symbol carries.
pub open spec fn repeated_node(nodes: Seq<GraphNode>, i: int) -> Option<u128>
    decreases nodes.len() - i,
{
    if i < 0 || i >= nodes.len() {
        None
    } else if graph::has_node(nodes.take(i), nodes[i].memory_id) {
        Some(nodes[i].memory_id)
    } else {
        repeated_node(nodes, i + 1)
    }
}

/// What is wrong with the first bad span from position `i` on: it repeats an earlier
/// one, or its symbol is missing.
pub open spec fn span_fault(
    nodes: Seq<GraphNode>,
    spans: Seq<(u128, SourceSpan)>,
    i: int,
) -> Option<Seq<char>>
    decreases spans.len() - i,
{
    if i < 0 || i >= spans.len() {
        None
    } else if graph::has_span(spans.take(i), spans[i].0) {
        Some("duplicate persisted source span for node "@ + graph::id_text(spans[i].0))
    } else if !graph::has_node(nodes, spans[i].0) {
        Some("invalid persisted source span: "@ + GraphError::NodeNotFound(spans[i].0).text())
    } else {
        span_fault(nodes, spans, i + 1)
    }
}

/// A relationship of the same kind between the same two symbols is in `edges`.
pub open spec fn has_edge(
    edges: Seq<(u128, u128, GraphEdge)>,
    source: u128,
    target: u128,
    kind: EdgeKind,
) -> bool {
    exists|i: int|
        0 <= i < edges.len() && (#[trigger] edges[i]).0 == source && edges[i].1 == target
            && edges[i].2.kind == kind
}

/// What is wrong with the first bad relationship from position `i` on: it repeats an
/// earlier one, or one of its ends is missing.
pub open spec fn edge_fault(
    nodes: Seq<GraphNode>,
    edges: Seq<(u128, u128, GraphEdge)>,
    i: int,
) -> Option<Seq<char>>
    decreases edges.len() - i,
{
    if i < 0 || i >= edges.len() {
        None
    } else if has_edge(edges.take(i), edges[i].0, edges[i].1, edges[i].2.kind) {
        Some(
            "duplicate persisted "@ + edges[i].2.kind.as_str_spec() + " edge from "@ + graph::id_text(
                edges[i].0,
            ) + " to "@ + graph::id_text(edges[i].1),
        )
    } else if !graph::has_node(nodes, edges[i].0) {
        Some("invalid persisted edge: "@ + GraphError::NodeNotFound(edges[i].0).text())
    } else if !graph::has_node(nodes, edges[i].1) {
        Some("invalid persisted edge: "@ + GraphError::NodeNotFound(edges[i].1).text())
    } else {
        edge_fault(nodes, edges, i + 1)
    }
}

/// The first thing wrong with a snapshot: symbols first, then spans, then
/// relationships.
pub open spec fn snapshot_fault(
    nodes: Seq<GraphNode>,
    edges: Seq<(u128, u128, GraphEdge)>,
    spans: Seq<(u128, SourceSpan)>,
) -> Option<Seq<char>> {
    match repeated_node(nodes, 0) {
        Some(id) => Some("invalid persisted node: "@ + GraphError::DuplicateNode(id).text()),
        None => match span_fault(nodes, spans, 0) {
            Some(fault) => Some(fault),
            None => edge_fault(nodes, edges, 0),
        },
    }
}

/// What decoding `bytes` bytes gave leads to this fault, if any. `decoded` is the
/// decoder's snapshot with the number of bytes it consumed, or its complaint.
pub open spec fn decode_fault(
    bytes: nat,
    decoded: Result<(GraphSnapshot, usize), String>,
) -> Option<Seq<char>> {
    match decoded {
        Err(complaint) => Some(complaint@),
        Ok((snapshot, consumed)) => if consumed != bytes {
            Some(
                "snapshot decoder consumed "@ + text::dec(consumed as nat) + " of "@ + text::dec(
                    bytes,
                ) + " bytes"@,
            )
        } else {
            snapshot_fault(snapshot.nodes@, snapshot.edges@, snapshot.source_spans@)
        },
    }
}

/// The symbols carry distinct identities, every span and relationship belongs to
/// symbols of the snapshot, and none of them is there twice.
pub open spec fn consistent(
    nodes: Seq<GraphNode>,
    edges: Seq<(u128, u128, GraphEdge)>,
    spans: Seq<(u128, SourceSpan)>,
) -> bool {
    &&& forall|i: int, j: int|
        0 <= i < j < nodes.len() ==> (#[trigger] nodes[i]).memory_id != (
        #[trigger] nodes[j]).memory_id
    &&& forall|i: int| 0 <= i < spans.len() ==> graph::has_node(nodes, (#[trigger] spans[i]).0)
    &&& forall|i: int, j: int|
        0 <= i < j < spans.len() ==> (#[trigger] spans[i]).0 != (#[trigger] spans[j]).0
    &&& forall|i: int|
        0 <= i < edges.len() ==> graph::has_node(nodes, (#[trigger] edges[i]).0)
            && graph::has_node(nodes, edges[i].1)
    &&& forall|i: int, j: int|
        0 <= i < j < edges.len() ==> {
            ||| (#[trigger] edges[i]).0 != (#[trigger] edges[j]).0
            ||| edges[i].1 != edges[j].1
            ||| edges[i].2.kind != edges[j].2.kind
        }
}

proof fn lemma_repeated_node(nodes: Seq<GraphNode>, i: int)
    requires
        0 <= i <= nodes.len(),
    ensures
        repeated_node(nodes, i) is None <==> forall|k: int|
            i <= k < nodes.len() ==> !graph::has_node(
                nodes.take(k),
                (#[trigger] nodes[k]).memory_id,
            ),
    decreases nodes.len() - i,
{
    if i < nodes.len() {
        lemma_repeated_node(nodes, i + 1);
    }
}

proof fn lemma_span_fault(nodes: Seq<GraphNode>, spans: Seq<(u128, SourceSpan)>, i: int)
    requires
        0 <= i <= spans.len(),
    ensures
        span_fault(nodes, spans, i) is None <==> forall|k: int|
            i <= k < spans.len() ==> !graph::has_span(spans.take(k), (#[trigger] spans[k]).0)
                && graph::has_node(nodes, spans[k].0),
    decreases spans.len() - i,
{
    if i < spans.len() {
        lemma_span_fault(nodes, spans, i + 1);
    }
}

proof fn lemma_edge_fault(nodes: Seq<GraphNode>, edges: Seq<(u128, u128, GraphEdge)>, i: int)
    requires
        0 <= i <= edges.len(),
    ensures
        edge_fault(nodes, edges, i) is None <==> forall|k: int|
            i <= k < edges.len() ==> !has_edge(
                edges.take(k),
                (#[trigger] edges[k]).0,
                edges[k].1,
                edges[k].2.kind,
            ) && graph::has_node(nodes, edges[k].0) && graph::has_node(nodes, edges[k].1),
    decreases edges.len() - i,
{
    if i < edges.len() {
        lemma_edge_fault(nodes, edges, i + 1);
    }
}

/// A snapshot has no fault exactly when it is consistent.
pub proof fn law_faultless_iff_consistent(
    nodes: Seq<GraphNode>,
    edges: Seq<(u128, u128, GraphEdge)>,
    spans: Seq<(u128, SourceSpan)>,
)
    ensures
        snapshot_fault(nodes, edges, spans) is None <==> consistent(nodes, edges, spans),
{
    lemma_repeated_node(nodes, 0);
    lemma_span_fault(nodes, spans, 0);
    lemma_edge_fault(nodes, edges, 0);
    assert((forall|k: int|
        0 <= k < nodes.len() ==> !graph::has_node(nodes.take(k), (#[trigger] nodes[k]).memory_id))
        <==> (forall|i: int, j: int|
        0 <= i < j < nodes.len() ==> (#[trigger] nodes[i]).memory_id != (
        #[trigger] nodes[j]).memory_id)) by {
        if forall|k: int|
            0 <= k < nodes.len() ==> !graph::has_node(
                nodes.take(k),
                (#[trigger] nodes[k]).memory_id,
            ) {
            assert forall|i: int, j: int| 0 <= i < j < nodes.len() implies (
            #[trigger] nodes[i]).memory_id != (#[trigger] nodes[j]).memory_id by {
                assert(nodes.take(j)[i] == nodes[i]);
            }
        }
    }
    assert((forall|k: int|
        0 <= k < spans.len() ==> !graph::has_span(spans.take(k), (#[trigger] spans[k]).0)) <==> (
    forall|i: int, j: int|
        0 <= i < j < spans.len() ==> (#[trigger] spans[i]).0 != (#[trigger] spans[j]).0)) by {
        if forall|k: int|
            0 <= k < spans.len() ==> !graph::has_span(spans.take(k), (#[trigger] spans[k]).0) {
            assert forall|i: int, j: int| 0 <= i < j < spans.len() implies (#[trigger] spans[i]).0
                != (#[trigger] spans[j]).0 by {
                assert(spans.take(j)[i] == spans[i]);
            }
        }
    }
    assert((forall|k: int|
        0 <= k < edges.len() ==> !has_edge(
            edges.take(k),
            (#[trigger] edges[k]).0,
            edges[k].1,
            edges[k].2.kind,
        )) <==> (forall|i: int, j: int|
        0 <= i < j < edges.len() ==> {
            ||| (#[trigger] edges[i]).0 != (#[trigger] edges[j]).0
            ||| edges[i].1 != edges[j].1
            ||| edges[i].2.kind != edges[j].2.kind
        })) by {
        if forall|k: int|
            0 <= k < edges.len() ==> !has_edge(
                edges.take(k),
                (#[trigger] edges[k]).0,
                edges[k].1,
                edges[k].2.kind,
            ) {
            assert forall|i: int, j: int| 0 <= i < j < edges.len() implies {
                ||| (#[trigger] edges[i]).0 != (#[trigger] edges[j]).0
                ||| edges[i].1 != edges[j].1
                ||| edges[i].2.kind != edges[j].2.kind
            } by {
                assert(edges.take(j)[i] == edges[i]);
            }
        }
    }
}

fn edge_is_repeated(edges: &Vec<(u128, u128, GraphEdge)>, i: usize) -> (r: bool)
    requires
        i < edges@.len(),
    ensures
        r == has_edge(
            edges@.take(i as int),
            edges@[i as int].0,
            edges@[i as int].1,
            edges@[i as int].2.kind,
        ),
{
    for j in 0..i
        invariant
            i < edges@.len(),
            forall|k: int|
                0 <= k < j ==> {
                    ||| (#[trigger] edges@[k]).0 != edges@[i as int].0
                    ||| edges@[k].1 != edges@[i as int].1
                    ||| edges@[k].2.kind != edges@[i as int].2.kind
                },
    {
        if edges[j].0 == edges[i].0 && edges[j].1 == edges[i].1 && edges[j].2.kind
            == edges[i].2.kind {
            assert(edges@.take(i as int)[j as int] == edges@[j as int]);
            return true;
        }
    }
    assert forall|k: int| 0 <= k < edges@.take(i as int).len() implies {
        ||| (#[trigger] edges@.take(i as int)[k]).0 != edges@[i as int].0
        ||| edges@.take(i as int)[k].1 != edges@[i as int].1
        ||| edges@.take(i as int)[k].2.kind != edges@[i as int].2.kind
    } by {
        assert(edges@.take(i as int)[k] == edges@[k]);
    }
    false
}

fn span_is_repeated(spans: &Vec<(u128, SourceSpan)>, i: usize) -> (r: bool)
    requires
        i < spans@.len(),
    ensures
        r == graph::has_span(spans@.take(i as int), spans@[i as int].0),
{
    for j in 0..i
        invariant
            i < spans@.len(),
            forall|k: int| 0 <= k < j ==> (#[trigger] spans@[k]).0 != spans@[i as int].0,
    {
        if spans[j].0 == spans[i].0 {
            assert(spans@.take(i as int)[j as int] == spans@[j as int]);
            return true;
        }
    }
    assert forall|k: int| 0 <= k < spans@.take(i as int).len() implies (
    #[trigger] spans@.take(i as int)[k]).0 != spans@[i as int].0 by {
        assert(spans@.take(i as int)[k] == spans@[k]);
    }
    false
}

/// Lists everything that a graph holds.
pub fn materialize_snapshot(graph: &KnowledgeGraph) -> (snapshot: GraphSnapshot)
    ensures
        snapshot.edges@ == graph.edges(),
        snapshot.source_spans@ == graph.spans(),
        snapshot.nodes@ == graph.nodes(),
{
    let mut nodes: Vec<GraphNode> = Vec::new();
    let all = graph.all_nodes();
    for i in 0..all.len()
        invariant
            all@ == graph.nodes(),
            nodes@ == all@.take(i as int),
    {
        nodes.push(copy_node(&all[i]));
        assert(nodes@ =~= all@.take(i + 1));
    }
    assert(all@.take(all@.len() as int) =~= all@);
    let mut edges: Vec<(u128, u128, GraphEdge)> = Vec::new();
    let all_edges = graph.all_edges();
    for i in 0..all_edges.len()
        invariant
            all_edges@ == graph.edges(),
            edges@ == all_edges@.take(i as int),
    {
        edges.push((all_edges[i].0, all_edges[i].1, all_edges[i].2));
        assert(edges@ =~= all_edges@.take(i + 1));
    }
    assert(all_edges@.take(all_edges@.len() as int) =~= all_edges@);
    let mut source_spans: Vec<(u128, SourceSpan)> = Vec::new();
    let all_spans = graph.all_source_spans();
    for i in 0..all_spans.len()
        invariant
            all_spans@ == graph.spans(),
            source_spans@ == all_spans@.take(i as int),
    {
        source_spans.push((all_spans[i].0, all_spans[i].1));
        assert(source_spans@ =~= all_spans@.take(i + 1));
    }
    assert(all_spans@.take(all_spans@.len() as int) =~= all_spans@);
    GraphSnapshot { nodes, edges, source_spans }
}

fn copy_node(node: &GraphNode) -> (r: GraphNode)
    ensures
        r == *node,
{
    GraphNode {
        memory_id: node.memory_id,
        symbol_name: node.symbol_name.clone(),
        kind: node.kind.clone(),
        is_callable: node.is_callable,
        file_path: node.file_path.clone(),
        content_hash: node.content_hash.clone(),
        signature: node.signature.clone(),
        reachability_class: node.reachability_class,
        line_start: node.line_start,
        line_end: node.line_end,
        has_body: node.has_body,
        visibility: node.visibility.clone(),
        is_test_only: node.is_test_only,
        is_test_root: node.is_test_root,
        has_platform_cfg: node.has_platform_cfg,
        rustc_flagged_dead: node.rustc_flagged_dead,
        entry_retain: node.entry_retain,
        has_uncaptured_items: node.has_uncaptured_items,
        oracle_receipt: match &node.oracle_receipt {
            Some(receipt) => Some(
                graph::OracleReceipt {
                    code: receipt.code.clone(),
                    line: receipt.line,
                    subject: receipt.subject.clone(),
                },
            ),
            None => None,
        },
    }
}

/// Rebuilds the graph that a decoded snapshot stands for, or says what is wrong with
/// it. `bytes` is how long the encoded snapshot was.
pub fn rebuild_graph(
    bytes: usize,
    decoded: Result<(GraphSnapshot, usize), String>,
) -> (r: Result<KnowledgeGraph, String>)
    ensures
        match r {
            Ok(graph) => {
                &&& decode_fault(bytes as nat, decoded) is None
                &&& decoded is Ok
                &&& graph.wf()
                &&& graph.nodes() == decoded->Ok_0.0.nodes@
                &&& graph.edges() == decoded->Ok_0.0.edges@
                &&& graph.spans() == decoded->Ok_0.0.source_spans@
            },
            Err(fault) => decode_fault(bytes as nat, decoded) == Some(fault@),
        },
{
    let (snapshot, consumed) = match decoded {
        Ok(pair) => pair,
        Err(complaint) => {
            return Err(complaint);
        },
    };
    if consumed != bytes {
        let mut fault = "snapshot decoder consumed ".to_owned();
        fault.append(text::decimal(consumed as u64).as_str());
        fault.append(" of ");
        fault.append(text::decimal(bytes as u64).as_str());
        fault.append(" bytes");
        return Err(fault);
    }
    let ghost nodes = snapshot.nodes@;
    let ghost edges = snapshot.edges@;
    let ghost spans = snapshot.source_spans@;
    let mut graph = KnowledgeGraph::new();
    let n = snapshot.nodes.len();
    for i in 0..n
        invariant
            nodes == snapshot.nodes@,
            edges == snapshot.edges@,
            spans == snapshot.source_spans@,
            n == nodes.len(),
            graph.wf(),
            graph.nodes() == nodes.take(i as int),
            graph.edges().len() == 0,
            graph.spans().len() == 0,
            repeated_node(nodes, i as int) == repeated_node(nodes, 0),
            decode_fault(bytes as nat, decoded) == snapshot_fault(nodes, edges, spans),
    {
        match graph.add_node(copy_node(&snapshot.nodes[i])) {
            Ok(()) => {
                assert(nodes.take(i + 1) =~= nodes.take(i as int).push(nodes[i as int]));
            },
            Err(error) => {
                let mut fault = "invalid persisted node: ".to_owned();
                fault.append(error.describe().as_str());
                return Err(fault);
            },
        }
    }
    assert(nodes.take(n as int) =~= nodes);
    let m = snapshot.source_spans.len();
    for i in 0..m
        invariant
            nodes == snapshot.nodes@,
            edges == snapshot.edges@,
            spans == snapshot.source_spans@,
            m == spans.len(),
            graph.wf(),
            graph.nodes() == nodes,
            graph.edges().len() == 0,
            graph.spans() == spans.take(i as int),
            repeated_node(nodes, 0) is None,
            span_fault(nodes, spans, i as int) == span_fault(nodes, spans, 0),
            decode_fault(bytes as nat, decoded) == snapshot_fault(nodes, edges, spans),
    {
        let id = snapshot.source_spans[i].0;
        if span_is_repeated(&snapshot.source_spans, i) {
            let mut fault = "duplicate persisted source span for node ".to_owned();
            fault.append(graph::id_string(id).as_str());
            return Err(fault);
        }
        match graph.set_source_span(id, snapshot.source_spans[i].1) {
            Ok(()) => {
                assert(spans.take(i + 1) =~= spans.take(i as int).push(spans[i as int]));
            },
            Err(error) => {
                let mut fault = "invalid persisted source span: ".to_owned();
                fault.append(error.describe().as_str());
                return Err(fault);
            },
        }
    }
    assert(spans.take(m as int) =~= spans);
    let e = snapshot.edges.len();
    for i in 0..e
        invariant
            nodes == snapshot.nodes@,
            edges == snapshot.edges@,
            spans == snapshot.source_spans@,
            e == edges.len(),
            graph.wf(),
            graph.nodes() == nodes,
            graph.spans() == spans,
            graph.edges() == edges.take(i as int),
            repeated_node(nodes, 0) is None,
            span_fault(nodes, spans, 0) is None,
            edge_fault(nodes, edges, i as int) == edge_fault(nodes, edges, 0),
            decode_fault(bytes as nat, decoded) == snapshot_fault(nodes, edges, spans),
    {
        let source = snapshot.edges[i].0;
        let target = snapshot.edges[i].1;
        let edge = snapshot.edges[i].2;
        if edge_is_repeated(&snapshot.edges, i) {
            let mut fault = "duplicate persisted ".to_owned();
            fault.append(edge.kind.as_str());
            fault.append(" edge from ");
            fault.append(graph::id_string(source).as_str());
            fault.append(" to ");
            fault.append(graph::id_string(target).as_str());
            return Err(fault);
        }
        match graph.add_edge(source, target, edge) {
            Ok(()) => {
                assert(edges.take(i + 1) =~= edges.take(i as int).push(edges[i as int]));
            },
            Err(error) => {
                let mut fault = "invalid persisted edge: ".to_owned();
                fault.append(error.describe().as_str());
                return Err(fault);
            },
        }
    }
    assert(edges.take(e as int) =~= edges);
    Ok(graph)
}

/// What a graph is listed as is rebuilt to the same graph, when the decoder gives the
/// listing back and the graph holds no relationship twice.
pub proof fn law_materialized_snapshot_rebuilds(
    graph: KnowledgeGraph,
    snapshot: GraphSnapshot,
    bytes: usize,
)
    requires
        graph.wf(),
        snapshot.nodes@ == graph.nodes(),
        snapshot.edges@ == graph.edges(),
        snapshot.source_spans@ == graph.spans(),
        forall|i: int, j: int|
            0 <= i < j < graph.edges().len() ==> {
                ||| (#[trigger] graph.edges()[i]).0 != (#[trigger] graph.edges()[j]).0
                ||| graph.edges()[i].1 != graph.edges()[j].1
                ||| graph.edges()[i].2.kind != graph.edges()[j].2.kind
            },
    ensures
        decode_fault(bytes as nat, Ok((snapshot, bytes))) is None,
{
    law_faultless_iff_consistent(graph.nodes(), graph.edges(), graph.spans());
}

/// A snapshot is refused exactly if it is not read to its end, or two symbols share an
/// identity, or a span has no symbol or a symbol two spans, or a relationship has no symbol at
/// one end, or two relationships of one kind lead from one symbol to the same other.
pub proof fn law_decoding_refuses_every_fault(
    bytes: nat,
    decoded: Result<(GraphSnapshot, usize), String>,
)
    ensures
        decoded is Err ==> decode_fault(bytes, decoded) == Some(decoded->Err_0@),
        decoded is Ok ==> (decode_fault(bytes, decoded) is None <==> {
            let nodes = decoded->Ok_0.0.nodes@;
            let edges = decoded->Ok_0.0.edges@;
            let spans = decoded->Ok_0.0.source_spans@;
            &&& decoded->Ok_0.1 == bytes
            &&& forall|i: int, j: int|
                0 <= i < j < nodes.len() ==> (#[trigger] nodes[i]).memory_id != (
                #[trigger] nodes[j]).memory_id
            &&& forall|i: int|
                0 <= i < spans.len() ==> graph::has_node(nodes, (#[trigger] spans[i]).0)
            &&& forall|i: int, j: int|
                0 <= i < j < spans.len() ==> (#[trigger] spans[i]).0 != (#[trigger] spans[j]).0
            &&& forall|i: int|
                0 <= i < edges.len() ==> graph::has_node(nodes, (#[trigger] edges[i]).0)
                    && graph::has_node(nodes, edges[i].1)
            &&& forall|i: int, j: int|
                0 <= i < j < edges.len() ==> (#[trigger] edges[i]).0 != (#[trigger] edges[j]).0
                    || edges[i].1 != edges[j].1 || edges[i].2.kind != edges[j].2.kind
        }),
{
    if decoded is Ok {
        let nodes = decoded->Ok_0.0.nodes@;
        let edges = decoded->Ok_0.0.edges@;
        let spans = decoded->Ok_0.0.source_spans@;
        law_faultless_iff_consistent(nodes, edges, spans);
    }
}

} // verus!
