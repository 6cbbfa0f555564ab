//! The knowledge graph: symbols, the relationships between them, and their spans.

use vstd::prelude::*;

use crate::digest;
use crate::text;

verus! {

/// How a symbol is reached.
#[derive(Debug, Clone, Copy, PartialEq, Eq, Structural)]
pub enum ReachabilityClass {
    Wired,
    PublicApi,
    StructuralOnly,
    TestOnly,
    Dead,
    Orphan,
    Unclassified,
    Suspected,
    Excluded,
}

/// What a relationship says.
#[derive(Debug, Clone, Copy, PartialEq, Eq, Structural)]
pub enum EdgeKind {
    Calls,
    Implements,
    HasImpl,
    References,
    TypeOf,
    DependsOn,
}

impl EdgeKind {
    pub open spec fn as_str_spec(self) -> Seq<char> {
        match self {
            EdgeKind::Calls => "Calls"@,
            EdgeKind::Implements => "Implements"@,
            EdgeKind::HasImpl => "HasImpl"@,
            EdgeKind::References => "References"@,
            EdgeKind::TypeOf => "TypeOf"@,
            EdgeKind::DependsOn => "DependsOn"@,
        }
    }

    /// The kind's name.
    pub fn as_str(self) -> (r: &'static str)
        ensures
            r@ == self.as_str_spec(),
    {
        match self {
            EdgeKind::Calls => "Calls",
            EdgeKind::Implements => "Implements",
            EdgeKind::HasImpl => "HasImpl",
            EdgeKind::References => "References",
            EdgeKind::TypeOf => "TypeOf",
            EdgeKind::DependsOn => "DependsOn",
        }
    }
}

/// Who asserted a relationship.
#[derive(Debug, Clone, Copy, PartialEq, Eq, Structural)]
pub enum EdgeSource {
    Syntax,
    Scip,
    Both,
}

/// A byte range in a source file.
#[derive(Debug, Clone, Copy, PartialEq, Eq, Structural)]
pub struct SourceSpan {
    pub start_byte: u64,
    pub end_byte: u64,
}

/// A compiler finding about a symbol.
#[derive(Debug, Clone, PartialEq, Eq)]
pub struct OracleReceipt {
    pub code: String,
    pub line: u64,
    pub subject: String,
}

/// A symbol.
#[derive(Debug, Clone, PartialEq, Eq)]
pub struct GraphNode {
    pub memory_id: u128,
    pub symbol_name: String,
    pub kind: String,
    /// The symbol's kind can be invoked.
    pub is_callable: bool,
    pub file_path: String,
    pub content_hash: String,
    pub signature: String,
    pub reachability_class: ReachabilityClass,
    pub line_start: Option<u64>,
    pub line_end: Option<u64>,
    pub has_body: Option<bool>,
    pub visibility: String,
    pub is_test_only: Option<bool>,
    pub is_test_root: bool,
    pub has_platform_cfg: bool,
    pub rustc_flagged_dead: bool,
    /// Retention attributes, one bit each.
    pub entry_retain: u8,
    pub has_uncaptured_items: bool,
    pub oracle_receipt: Option<OracleReceipt>,
}

/// A relationship.
#[derive(Debug, Clone, Copy, PartialEq, Eq, Structural)]
pub struct GraphEdge {
    pub kind: EdgeKind,
    pub source: EdgeSource,
    /// The learned weight, as the bits of a single-precision number.
    pub weight_bits: u32,
    pub access_count: u32,
}

/// Why the graph refused a change.
#[derive(Debug, Clone, Copy, PartialEq, Eq, Structural)]
pub enum GraphError {
    DuplicateNode(u128),
    NodeNotFound(u128),
}

/// The last `len` hexadecimal digits of `n`.
pub open spec fn hex_tail(n: nat, len: nat) -> Seq<char>
    decreases len,
{
    if len == 0 {
        Seq::empty()
    } else {
        hex_tail(n / 16, (len - 1) as nat).push(digest::hex_char(n % 16))
    }
}

/// The hyphenated text of a node identity.
pub open spec fn id_text(id: u128) -> Seq<char> {
    let hex = hex_tail(id as nat, 32);
    hex.subrange(0, 8) + "-"@ + hex.subrange(8, 12) + "-"@ + hex.subrange(12, 16) + "-"@
        + hex.subrange(16, 20) + "-"@ + hex.subrange(20, 32)
}

pub proof fn lemma_hex_tail_len(n: nat, len: nat)
    ensures
        hex_tail(n, len).len() == len,
    decreases len,
{
    if len > 0 {
        lemma_hex_tail_len(n / 16, (len - 1) as nat);
    }
}

fn hex_digits(n: u128, len: u32) -> (r: Vec<char>)
    ensures
        r@ == hex_tail(n as nat, len as nat),
    decreases len,
{
    if len == 0 {
        Vec::new()
    } else {
        let mut r = hex_digits(n / 16, len - 1);
        let d: u8 = (n % 16) as u8;
        let c = if d < 10 {
            (48 + d) as char
        } else {
            (87 + d) as char
        };
        r.push(c);
        r
    }
}

/// The hyphenated text of a node identity.
pub fn id_string(id: u128) -> (r: String)
    ensures
        r@ == id_text(id),
{
    let hex = hex_digits(id, 32);
    proof {
        lemma_hex_tail_len(id as nat, 32);
    }
    let mut r = text::string_of(vstd::slice::slice_subrange(hex.as_slice(), 0, 8));
    r.append("-");
    r.append(text::string_of(vstd::slice::slice_subrange(hex.as_slice(), 8, 12)).as_str());
    r.append("-");
    r.append(text::string_of(vstd::slice::slice_subrange(hex.as_slice(), 12, 16)).as_str());
    r.append("-");
    r.append(text::string_of(vstd::slice::slice_subrange(hex.as_slice(), 16, 20)).as_str());
    r.append("-");
    r.append(text::string_of(vstd::slice::slice_subrange(hex.as_slice(), 20, 32)).as_str());
    r
}

impl GraphError {
    pub open spec fn text(self) -> Seq<char> {
        match self {
            GraphError::DuplicateNode(id) => "duplicate node: "@ + id_text(id),
            GraphError::NodeNotFound(id) => "node not found: "@ + id_text(id),
        }
    }

    /// The error in words.
    pub fn describe(self) -> (r: String)
        ensures
            r@ == self.text(),
    {
        match self {
            GraphError::DuplicateNode(id) => {
                let mut r = "duplicate node: ".to_owned();
                r.append(id_string(id).as_str());
                r
            },
            GraphError::NodeNotFound(id) => {
                let mut r = "node not found: ".to_owned();
                r.append(id_string(id).as_str());
                r
            },
        }
    }
}

/// Some node carries `id`.
pub open spec fn has_node(nodes: Seq<GraphNode>, id: u128) -> bool {
    exists|i: int| 0 <= i < nodes.len() && (#[trigger] nodes[i]).memory_id == id
}

/// Some span is filed under `id`.
pub open spec fn has_span(spans: Seq<(u128, SourceSpan)>, id: u128) -> bool {
    exists|i: int| 0 <= i < spans.len() && (#[trigger] spans[i]).0 == id
}

proof fn lemma_edges_kept(before: KnowledgeGraph, after: KnowledgeGraph)
    requires
        before.wf(),
        after.nodes() == before.nodes(),
        after.edges() == before.edges(),
    ensures
        forall|i: int, j: int|
            0 <= i < j < after.nodes().len() ==> (#[trigger] after.nodes()[i]).memory_id != (
            #[trigger] after.nodes()[j]).memory_id,
        forall|i: int|
            0 <= i < after.edges().len() ==> has_node(after.nodes(), (#[trigger] after.edges()[i]).0)
                && has_node(after.nodes(), after.edges()[i].1),
{
}

proof fn lemma_spans_kept(before: KnowledgeGraph, after: KnowledgeGraph)
    requires
        before.wf(),
        after.nodes() == before.nodes(),
        after.spans() == before.spans(),
    ensures
        forall|i: int, j: int|
            0 <= i < j < after.nodes().len() ==> (#[trigger] after.nodes()[i]).memory_id != (
            #[trigger] after.nodes()[j]).memory_id,
        forall|i: int|
            0 <= i < after.spans().len() ==> has_node(after.nodes(), (#[trigger] after.spans()[i]).0),
        forall|i: int, j: int|
            0 <= i < j < after.spans().len() ==> (#[trigger] after.spans()[i]).0 != (
            #[trigger] after.spans()[j]).0,
{
}

proof fn lemma_nodes_grow(before: KnowledgeGraph, after: KnowledgeGraph, node: GraphNode)
    requires
        before.wf(),
        !has_node(before.nodes(), node.memory_id),
        after.nodes() == before.nodes().push(node),
        after.edges() == before.edges(),
        after.spans() == before.spans(),
    ensures
        after.wf(),
{
    assert forall|id: u128| #[trigger] has_node(before.nodes(), id) implies has_node(
        after.nodes(),
        id,
    ) by {
        let i = choose|i: int|
            0 <= i < before.nodes().len() && (#[trigger] before.nodes()[i]).memory_id == id;
        assert(after.nodes()[i].memory_id == id);
    }
    assert forall|i: int, j: int| 0 <= i < j < after.nodes().len() implies (
    #[trigger] after.nodes()[i]).memory_id != (#[trigger] after.nodes()[j]).memory_id by {
        assert(after.nodes()[i] == before.nodes()[i]);
        if j < before.nodes().len() {
            assert(before.nodes()[i].memory_id != before.nodes()[j].memory_id);
        }
    }
    assert forall|i: int| 0 <= i < after.edges().len() implies has_node(
        after.nodes(),
        (#[trigger] after.edges()[i]).0,
    ) && has_node(after.nodes(), after.edges()[i].1) by {
        assert(has_node(before.nodes(), before.edges()[i].0));
        assert(has_node(before.nodes(), before.edges()[i].1));
    }
    assert forall|i: int| 0 <= i < after.spans().len() implies has_node(
        after.nodes(),
        (#[trigger] after.spans()[i]).0,
    ) by {
        assert(has_node(before.nodes(), before.spans()[i].0));
    }
}

/// Symbols, relationships and spans. Identities are unique, and every relationship
/// and span belongs to symbols of the graph.
#[derive(Debug, Clone)]
pub struct KnowledgeGraph {
    nodes: Vec<GraphNode>,
    edges: Vec<(u128, u128, GraphEdge)>,
    spans: Vec<(u128, SourceSpan)>,
}

impl KnowledgeGraph {
    /// The symbols, in the order in which they were added.
    pub closed spec fn nodes(&self) -> Seq<GraphNode> {
        self.nodes@
    }

    /// The relationships, in the order in which they were added.
    pub closed spec fn edges(&self) -> Seq<(u128, u128, GraphEdge)> {
        self.edges@
    }

    /// The spans, in the order in which their symbols first got one.
    pub closed spec fn spans(&self) -> Seq<(u128, SourceSpan)> {
        self.spans@
    }

    pub open spec fn wf(&self) -> bool {
        &&& forall|i: int, j: int|
            0 <= i < j < self.nodes().len() ==> (#[trigger] self.nodes()[i]).memory_id != (
            #[trigger] self.nodes()[j]).memory_id
        &&& forall|i: int|
            0 <= i < self.edges().len() ==> has_node(self.nodes(), (#[trigger] self.edges()[i]).0)
                && has_node(self.nodes(), self.edges()[i].1)
        &&& forall|i: int|
            0 <= i < self.spans().len() ==> has_node(self.nodes(), (#[trigger] self.spans()[i]).0)
        &&& forall|i: int, j: int|
            0 <= i < j < self.spans().len() ==> (#[trigger] self.spans()[i]).0 != (
            #[trigger] self.spans()[j]).0
    }

    pub fn new() -> (graph: Self)
        ensures
            graph.wf(),
            graph.nodes().len() == 0,
            graph.edges().len() == 0,
            graph.spans().len() == 0,
    {
        KnowledgeGraph { nodes: Vec::new(), edges: Vec::new(), spans: Vec::new() }
    }

    /// Whether a symbol carries `id`.
    pub fn contains(&self, id: u128) -> (r: bool)
        ensures
            r == has_node(self.nodes(), id),
    {
        for i in 0..self.nodes.len()
            invariant
                forall|j: int| 0 <= j < i ==> (#[trigger] self.nodes@[j]).memory_id != id,
        {
            if self.nodes[i].memory_id == id {
                return true;
            }
        }
        false
    }

    /// Adds a symbol, unless its identity is taken.
    pub fn add_node(&mut self, node: GraphNode) -> (r: Result<(), GraphError>)
        requires
            old(self).wf(),
        ensures
            final(self).wf(),
            final(self).edges() == old(self).edges(),
            final(self).spans() == old(self).spans(),
            match r {
                Ok(()) => !has_node(old(self).nodes(), node.memory_id) && final(self).nodes()
                    == old(self).nodes().push(node),
                Err(e) => has_node(old(self).nodes(), node.memory_id)
                    && e == GraphError::DuplicateNode(node.memory_id) && final(self).nodes()
                    == old(self).nodes(),
            },
    {
        if self.contains(node.memory_id) {
            return Err(GraphError::DuplicateNode(node.memory_id));
        }
        let ghost before = *self;
        self.nodes.push(node);
        proof {
            lemma_nodes_grow(before, *self, node);
        }
        Ok(())
    }

    /// Files `span` for the symbol `id`.
    pub fn set_source_span(&mut self, id: u128, span: SourceSpan) -> (r: Result<(), GraphError>)
        requires
            old(self).wf(),
        ensures
            final(self).wf(),
            final(self).nodes() == old(self).nodes(),
            final(self).edges() == old(self).edges(),
            match r {
                Ok(()) => {
                    &&& has_node(old(self).nodes(), id)
                    &&& !has_span(old(self).spans(), id) ==> final(self).spans() == old(
                        self,
                    ).spans().push((id, span))
                    &&& has_span(old(self).spans(), id) ==> exists|i: int|
                        0 <= i < old(self).spans().len() && (#[trigger] old(self).spans()[i]).0
                            == id && final(self).spans() == old(self).spans().update(i, (id, span))
                },
                Err(e) => !has_node(old(self).nodes(), id) && e == GraphError::NodeNotFound(id)
                    && final(self).spans() == old(self).spans(),
            },
    {
        if !self.contains(id) {
            return Err(GraphError::NodeNotFound(id));
        }
        let ghost before = *self;
        let n = self.spans.len();
        let mut i: usize = 0;
        while i < n && self.spans[i].0 != id
            invariant
                *self == before,
                n == before.spans@.len(),
                i <= n,
                forall|j: int| 0 <= j < i ==> (#[trigger] before.spans@[j]).0 != id,
            decreases n - i,
        {
            i += 1;
        }
        if i < n {
            self.spans.set(i, (id, span));
            proof {
                assert(before.spans()[i as int].0 == id);
                assert forall|k: int| 0 <= k < self.spans().len() implies has_node(
                    self.nodes(),
                    (#[trigger] self.spans()[k]).0,
                ) by {
                    assert(has_node(before.nodes(), before.spans()[k].0));
                }
                assert forall|p: int, q: int| 0 <= p < q < self.spans().len() implies (
                #[trigger] self.spans()[p]).0 != (#[trigger] self.spans()[q]).0 by {
                    assert(before.spans()[p].0 != before.spans()[q].0);
                }
                lemma_edges_kept(before, *self);
            }
        } else {
            self.spans.push((id, span));
            proof {
                assert forall|k: int| 0 <= k < self.spans().len() implies has_node(
                    self.nodes(),
                    (#[trigger] self.spans()[k]).0,
                ) by {
                    if k < before.spans().len() {
                        assert(has_node(before.nodes(), before.spans()[k].0));
                    }
                }
                assert forall|p: int, q: int| 0 <= p < q < self.spans().len() implies (
                #[trigger] self.spans()[p]).0 != (#[trigger] self.spans()[q]).0 by {
                    assert(self.spans()[p] == before.spans()[p]);
                    if q < before.spans().len() {
                        assert(before.spans()[p].0 != before.spans()[q].0);
                    }
                }
                lemma_edges_kept(before, *self);
            }
        }
        Ok(())
    }

    /// Adds a relationship between two symbols of the graph.
    pub fn add_edge(&mut self, source: u128, target: u128, edge: GraphEdge) -> (r: Result<
        (),
        GraphError,
    >)
        requires
            old(self).wf(),
        ensures
            final(self).wf(),
            final(self).nodes() == old(self).nodes(),
            final(self).spans() == old(self).spans(),
            match r {
                Ok(()) => has_node(old(self).nodes(), source) && has_node(old(self).nodes(), target)
                    && final(self).edges() == old(self).edges().push((source, target, edge)),
                Err(e) => final(self).edges() == old(self).edges() && if !has_node(
                    old(self).nodes(),
                    source,
                ) {
                    e == GraphError::NodeNotFound(source)
                } else {
                    !has_node(old(self).nodes(), target) && e == GraphError::NodeNotFound(target)
                },
            },
    {
        if !self.contains(source) {
            return Err(GraphError::NodeNotFound(source));
        }
        if !self.contains(target) {
            return Err(GraphError::NodeNotFound(target));
        }
        let ghost before = *self;
        self.edges.push((source, target, edge));
        proof {
            assert forall|k: int| 0 <= k < self.edges().len() implies has_node(
                self.nodes(),
                (#[trigger] self.edges()[k]).0,
            ) && has_node(self.nodes(), self.edges()[k].1) by {
                if k < before.edges().len() {
                    assert(has_node(before.nodes(), before.edges()[k].0));
                }
            }
            lemma_spans_kept(before, *self);
        }
        Ok(())
    }

    pub fn node_count(&self) -> (r: usize)
        ensures
            r == self.nodes().len(),
    {
        self.nodes.len()
    }

    pub fn edge_count(&self) -> (r: usize)
        ensures
            r == self.edges().len(),
    {
        self.edges.len()
    }

    pub fn all_nodes(&self) -> (r: &Vec<GraphNode>)
        ensures
            r@ == self.nodes(),
    {
        &self.nodes
    }

    pub fn all_edges(&self) -> (r: &Vec<(u128, u128, GraphEdge)>)
        ensures
            r@ == self.edges(),
    {
        &self.edges
    }

    pub fn all_source_spans(&self) -> (r: &Vec<(u128, SourceSpan)>)
        ensures
            r@ == self.spans(),
    {
        &self.spans
    }

    /// The span filed for the symbol `id`.
    pub fn source_span(&self, id: u128) -> (r: Option<SourceSpan>)
        requires
            self.wf(),
        ensures
            match r {
                Some(span) => self.spans().contains((id, span)),
                None => !has_span(self.spans(), id),
            },
    {
        for i in 0..self.spans.len()
            invariant
                forall|j: int| 0 <= j < i ==> (#[trigger] self.spans@[j]).0 != id,
        {
            if self.spans[i].0 == id {
                assert(self.spans@[i as int] == (id, self.spans@[i as int].1));
                return Some(self.spans[i].1);
            }
        }
        None
    }

    /// The symbol that carries `id`.
    pub fn node(&self, id: u128) -> (r: Option<&GraphNode>)
        requires
            self.wf(),
        ensures
            match r {
                Some(node) => self.nodes().contains(*node) && node.memory_id == id,
                None => !has_node(self.nodes(), id),
            },
    {
        for i in 0..self.nodes.len()
            invariant
                forall|j: int| 0 <= j < i ==> (#[trigger] self.nodes@[j]).memory_id != id,
        {
            if self.nodes[i].memory_id == id {
                return Some(&self.nodes[i]);
            }
        }
        None
    }

    /// How many symbols of `path` the graph holds.
    pub open spec fn file_population(&self, path: Seq<char>) -> nat {
        self.nodes().filter(|node: GraphNode| node.file_path@ == path).len()
    }

    /// How many symbols of `path` the graph holds.
    pub fn count_for_file(&self, path: &str) -> (r: usize)
        ensures
            r == self.file_population(path@),
    {
        let ghost pred = |node: GraphNode| node.file_path@ == path@;
        let mut count: usize = 0;
        for i in 0..self.nodes.len()
            invariant
                count <= i,
                pred == (|node: GraphNode| node.file_path@ == path@),
                count == self.nodes@.take(i as int).filter(pred).len(),
        {
            proof {
                self.nodes@.lemma_filter_take_len(pred, i as int);
                assert(self.nodes@.take(i + 1) =~= self.nodes@.take(i as int).push(
                    self.nodes@[i as int],
                ));
                self.nodes@.take(i as int).lemma_filter_push(self.nodes@[i as int], pred);
            }
            if text::same(self.nodes[i].file_path.as_str(), path) {
                count += 1;
            }
        }
        assert(self.nodes@.take(self.nodes@.len() as int) =~= self.nodes@);
        count
    }
}

/// The weights of the relationships from one symbol to another, in order.
pub open spec fn weights_between(
    edges: Seq<(u128, u128, GraphEdge)>,
    source: u128,
    target: u128,
) -> Seq<u32>
    decreases edges.len(),
{
    if edges.len() == 0 {
        seq![]
    } else {
        let before = weights_between(edges.drop_last(), source, target);
        if edges.last().0 == source && edges.last().1 == target {
            before.push(edges.last().2.weight_bits)
        } else {
            before
        }
    }
}

/// A relationship with the weight that an earlier graph had learned of it. Only its weight
/// may change. Where the earlier graph holds no relationship between the two symbols, the
/// weight stays; where it holds one, that one's weight is taken. Where it holds several,
/// it is open which of them is meant: the weight stays or is one of theirs.
pub open spec fn is_weighted(
    prior: Seq<(u128, u128, GraphEdge)>,
    built: (u128, u128, GraphEdge),
    restored: (u128, u128, GraphEdge),
) -> bool {
    let learned = weights_between(prior, built.0, built.1);
    &&& restored == (
        built.0,
        built.1,
        GraphEdge { weight_bits: restored.2.weight_bits, ..built.2 },
    )
    &&& learned.len() == 0 ==> restored == built
    &&& learned.len() == 1 ==> restored.2.weight_bits == learned[0]
    &&& learned.len() > 1 ==> restored == built || learned.contains(restored.2.weight_bits)
}

/// The built graph with the learned weights of an earlier one.
pub open spec fn restores_weights(
    prior: KnowledgeGraph,
    built: KnowledgeGraph,
    restored: KnowledgeGraph,
) -> bool {
    &&& restored.nodes() == built.nodes()
    &&& restored.spans() == built.spans()
    &&& restored.edges().len() == built.edges().len()
    &&& forall|i: int|
        0 <= i < built.edges().len() ==> is_weighted(
            prior.edges(),
            #[trigger] built.edges()[i],
            restored.edges()[i],
        )
}

impl KnowledgeGraph {
    /// The weight of the only relationship from one symbol to another, if there is exactly
    /// one.
    pub fn only_weight_between(&self, source: u128, target: u128) -> (r: Option<u32>)
        ensures
            match r {
                Some(weight) => weights_between(self.edges(), source, target) == seq![weight],
                None => weights_between(self.edges(), source, target).len() != 1,
            },
    {
        let mut first: Option<u32> = None;
        let mut several = false;
        for i in 0..self.edges.len()
            invariant
                ({
                    let found = weights_between(self.edges@.take(i as int), source, target);
                    &&& several <==> found.len() > 1
                    &&& first is Some <==> found.len() > 0
                    &&& first is Some ==> found[0] == first->0
                }),
        {
            proof {
                assert(self.edges@.take(i + 1).drop_last() =~= self.edges@.take(i as int));
            }
            if self.edges[i].0 == source && self.edges[i].1 == target {
                if first.is_some() {
                    several = true;
                } else {
                    first = Some(self.edges[i].2.weight_bits);
                }
            }
        }
        assert(self.edges@.take(self.edges@.len() as int) =~= self.edges@);
        if several {
            return None;
        }
        match first {
            Some(weight) => {
                assert(weights_between(self.edges(), source, target) =~= seq![weight]);
                Some(weight)
            },
            None => None,
        }
    }
}

/// Gives the relationships of a newly built graph the weights that an earlier graph had
/// learned of them.
pub fn restore_learned_weights(prior: &KnowledgeGraph, built: KnowledgeGraph) -> (r: KnowledgeGraph)
    ensures
        restores_weights(*prior, built, r),
        built.wf() ==> r.wf(),
{
    let ghost before = built;
    let mut edges: Vec<(u128, u128, GraphEdge)> = Vec::new();
    for i in 0..built.edges.len()
        invariant
            before == built,
            edges@.len() == i,
            forall|j: int|
                0 <= j < i ==> is_weighted(
                    prior.edges(),
                    #[trigger] before.edges()[j],
                    edges@[j],
                ),
    {
        let (source, target, edge) = built.edges[i];
        let weight_bits = match prior.only_weight_between(source, target) {
            Some(weight) => weight,
            None => edge.weight_bits,
        };
        edges.push(
            (
                source,
                target,
                GraphEdge {
                    kind: edge.kind,
                    source: edge.source,
                    weight_bits,
                    access_count: edge.access_count,
                },
            ),
        );
    }
    let r = KnowledgeGraph { nodes: built.nodes, edges, spans: built.spans };
    proof {
        assert forall|i: int| 0 <= i < before.edges().len() implies is_weighted(
            prior.edges(),
            #[trigger] before.edges()[i],
            r.edges()[i],
        ) by {}
        if before.wf() {
            assert forall|i: int| 0 <= i < r.edges().len() implies has_node(
                r.nodes(),
                (#[trigger] r.edges()[i]).0,
            ) && has_node(r.nodes(), r.edges()[i].1) by {
                assert(is_weighted(prior.edges(), before.edges()[i], r.edges()[i]));
                assert(has_node(before.nodes(), before.edges()[i].0));
            }
            lemma_spans_kept(before, r);
        }
    }
    r
}

/// A relationship that is built again keeps what was learned of it, and one that the
/// earlier graph does not hold is not touched: no learned weight reaches another
/// relationship.
pub proof fn law_learned_weights_survive_a_rebuild(
    prior: KnowledgeGraph,
    built: KnowledgeGraph,
    restored: KnowledgeGraph,
    i: int,
)
    requires
        restores_weights(prior, built, restored),
        0 <= i < built.edges().len(),
    ensures
        ({
            let edge = built.edges()[i];
            let learned = weights_between(prior.edges(), edge.0, edge.1);
            &&& learned.len() == 1 ==> restored.edges()[i].2.weight_bits == learned[0]
            &&& learned.len() == 0 ==> restored.edges()[i] == edge
            &&& restored.edges()[i].0 == edge.0
            &&& restored.edges()[i].1 == edge.1
            &&& restored.edges()[i].2.kind == edge.2.kind
            &&& restored.edges()[i].2.source == edge.2.source
            &&& restored.edges()[i].2.access_count == edge.2.access_count
        }),
{
    assert(is_weighted(prior.edges(), built.edges()[i], restored.edges()[i]));
}

/// A relationship leads from one symbol to another.
pub open spec fn leads(source: u128, target: u128) -> spec_fn((u128, u128, GraphEdge)) -> bool {
    |edge: (u128, u128, GraphEdge)| edge.0 == source && edge.1 == target
}

/// The weight of a relationship.
pub open spec fn weight_of() -> spec_fn((u128, u128, GraphEdge)) -> u32 {
    |edge: (u128, u128, GraphEdge)| edge.2.weight_bits
}

/// The weights between two symbols are those of all relationships that lead from the one to the
/// other, of whatever kind, and of no other.
pub proof fn law_weights_are_those_between(
    edges: Seq<(u128, u128, GraphEdge)>,
    source: u128,
    target: u128,
)
    ensures
        weights_between(edges, source, target) == edges.filter(leads(source, target)).map_values(
            weight_of(),
        ),
    decreases edges.len(),
{
    let pred = leads(source, target);
    reveal(Seq::filter);
    if edges.len() > 0 {
        let front = edges.drop_last();
        law_weights_are_those_between(front, source, target);
        assert(edges =~= front.push(edges.last()));
        assert(edges.filter(pred) == if pred(edges.last()) {
            front.filter(pred).push(edges.last())
        } else {
            front.filter(pred)
        });
        assert(weights_between(edges, source, target) =~= edges.filter(pred).map_values(
            weight_of(),
        ));
    } else {
        assert(weights_between(edges, source, target) =~= edges.filter(pred).map_values(
            weight_of(),
        ));
    }
}

/// The value of a hexadecimal numeral, digit by digit.
pub open spec fn hex_value(s: Seq<char>) -> int
    decreases s.len(),
{
    if s.len() == 0 {
        0
    } else {
        16 * hex_value(s.drop_last()) + digest::nibble(s.last())
    }
}

/// How many numerals of `len` hexadecimal digits there are.
pub open spec fn hex_range(len: nat) -> int
    decreases len,
{
    if len == 0 {
        1
    } else {
        16 * hex_range((len - 1) as nat)
    }
}

proof fn lemma_hex_tail_value(n: nat, len: nat)
    requires
        n < hex_range(len),
    ensures
        hex_value(hex_tail(n, len)) == n,
    decreases len,
{
    if len > 0 {
        let rest = n / 16;
        assert(rest < hex_range((len - 1) as nat));
        lemma_hex_tail_value(rest, (len - 1) as nat);
        let s = hex_tail(n, len);
        assert(s.drop_last() =~= hex_tail(rest, (len - 1) as nat));
        assert(s.last() == digest::hex_char(n % 16));
        assert(digest::nibble(digest::hex_char(n % 16)) == n % 16);
    }
}

proof fn lemma_hex_range()
    ensures
        hex_range(32) == u128::MAX + 1,
{
    reveal_with_fuel(hex_range, 33);
    assert(hex_range(8) == 4294967296);
    assert(hex_range(16) == 18446744073709551616);
    assert(hex_range(24) == 79228162514264337593543950336);
    assert(hex_range(32) == 340282366920938463463374607431768211456);
}

/// The text of an identity is its 32 hexadecimal digits in groups of 8, 4, 4, 4 and 12 with
/// hyphens between them, and spells the identity: different nodes have different texts.
pub proof fn law_identity_text_spells_the_identity(id: u128, other: u128)
    ensures
        ({
            let text = id_text(id);
            &&& text.len() == 36
            &&& text[8] == '-' && text[13] == '-' && text[18] == '-' && text[23] == '-'
            &&& hex_value(
                text.subrange(0, 8) + text.subrange(9, 13) + text.subrange(14, 18)
                    + text.subrange(19, 23) + text.subrange(24, 36),
            ) == id
        }),
        id_text(id) == id_text(other) ==> id == other,
{
    lemma_identity_text(id);
    lemma_identity_text(other);
}

proof fn lemma_identity_text(id: u128)
    ensures
        ({
            let text = id_text(id);
            &&& text.len() == 36
            &&& text[8] == '-' && text[13] == '-' && text[18] == '-' && text[23] == '-'
            &&& hex_value(
                text.subrange(0, 8) + text.subrange(9, 13) + text.subrange(14, 18)
                    + text.subrange(19, 23) + text.subrange(24, 36),
            ) == id
        }),
{
    let hex = hex_tail(id as nat, 32);
    let text = id_text(id);
    reveal_strlit("-");
    lemma_hex_tail_len(id as nat, 32);
    lemma_hex_range();
    lemma_hex_tail_value(id as nat, 32);
    assert("-"@.len() == 1 && "-"@[0] == '-');
    assert(text.len() == 36);
    assert(text.subrange(0, 8) + text.subrange(9, 13) + text.subrange(14, 18) + text.subrange(
        19,
        23,
    ) + text.subrange(24, 36) =~= hex);
}

/// A node or a span is known from when it was added, by its own identity, and adding it makes no
/// other one known.
pub proof fn law_what_was_added_is_known(
    nodes: Seq<GraphNode>,
    node: GraphNode,
    spans: Seq<(u128, SourceSpan)>,
    span: SourceSpan,
    id: u128,
    other: u128,
)
    ensures
        has_node(nodes.push(node), other) <==> has_node(nodes, other) || node.memory_id == other,
        has_span(spans.push((id, span)), other) <==> has_span(spans, other) || id == other,
        !has_node(Seq::empty(), other),
        !has_span(Seq::empty(), other),
{
    let more = nodes.push(node);
    assert(more[nodes.len() as int] == node);
    if has_node(nodes, other) {
        let i = choose|i: int| 0 <= i < nodes.len() && (#[trigger] nodes[i]).memory_id == other;
        assert(more[i].memory_id == other);
    }
    if has_node(more, other) && node.memory_id != other {
        let i = choose|i: int| 0 <= i < more.len() && (#[trigger] more[i]).memory_id == other;
        assert(nodes[i].memory_id == other);
    }
    let wide = spans.push((id, span));
    assert(wide[spans.len() as int] == (id, span));
    if has_span(spans, other) {
        let i = choose|i: int| 0 <= i < spans.len() && (#[trigger] spans[i]).0 == other;
        assert(wide[i].0 == other);
    }
    if has_span(wide, other) && id != other {
        let i = choose|i: int| 0 <= i < wide.len() && (#[trigger] wide[i]).0 == other;
        assert(spans[i].0 == other);
    }
}

/// In a valid graph no two nodes share an identity, and every relationship and every span
/// belongs to nodes that are there.
pub proof fn law_valid_graph_is_closed(graph: KnowledgeGraph, i: int, j: int)
    requires
        graph.wf(),
    ensures
        0 <= i < j < graph.nodes().len() ==> graph.nodes()[i].memory_id
            != graph.nodes()[j].memory_id,
        0 <= i < graph.edges().len() ==> exists|n: int|
            0 <= n < graph.nodes().len() && (#[trigger] graph.nodes()[n]).memory_id
                == graph.edges()[i].0,
        0 <= i < graph.edges().len() ==> exists|n: int|
            0 <= n < graph.nodes().len() && (#[trigger] graph.nodes()[n]).memory_id
                == graph.edges()[i].1,
        0 <= i < graph.spans().len() ==> exists|n: int|
            0 <= n < graph.nodes().len() && (#[trigger] graph.nodes()[n]).memory_id
                == graph.spans()[i].0,
{
    if 0 <= i < graph.edges().len() {
        assert(has_node(graph.nodes(), graph.edges()[i].0));
        assert(has_node(graph.nodes(), graph.edges()[i].1));
    }
    if 0 <= i < graph.spans().len() {
        assert(has_node(graph.nodes(), graph.spans()[i].0));
    }
}

} // verus!
