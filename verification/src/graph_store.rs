//! The persisted graph of one generation: its tables, and what may be read from and
//! written to them.

use vstd::prelude::*;

use crate::classification;
use crate::classification::{
    is_exact_indexer_identity, ClassifiedBy, GraphGenerationMetadata, StampModel,
};
use crate::digest;
use crate::duration::Duration;
use crate::graph::KnowledgeGraph;
use crate::graph_snapshot;
use crate::graph_snapshot::GraphSnapshot;
use crate::text;
use crate::values::Value;

verus! {

/// Version of the snapshot layout and of what the graph's identities mean. A
/// persisted graph of another version is rebuilt from source, never interpreted.
pub const SCHEMA_VERSION: u64 = 12;

/// What stands for an origin that was never stamped.
pub const NO_ORIGIN: &'static str = "<no origin stamped>";

/// Errors of graph persistence.
#[derive(Debug, Clone, PartialEq, Eq)]
pub enum GraphStoreError {
    Redb(String),
    Serialization(String),
    InvalidSnapshot(String),
    ReachabilityEvidence(String),
    Join(String),
    ReadOnly,
    /// The graph was indexed from another workspace than the one that asks.
    OriginMismatch { stored: String, query: String },
    /// Indexing would clear the graph of another workspace, and may not.
    OriginAdoptRequired { stored: String, query: String },
    /// The workspace origin could not be recorded or compared.
    Origin(String),
    MissingGenerationMetadata { field: &'static str },
    InvalidGenerationMetadata { field: &'static str, reason: String },
}

/// An error as plain text.
pub enum StoreFailure {
    Redb(Seq<char>),
    Serialization(Seq<char>),
    InvalidSnapshot(Seq<char>),
    ReachabilityEvidence(Seq<char>),
    Join(Seq<char>),
    ReadOnly,
    OriginMismatch { stored: Seq<char>, query: Seq<char> },
    OriginAdoptRequired { stored: Seq<char>, query: Seq<char> },
    Origin(Seq<char>),
    MissingGenerationMetadata { field: Seq<char> },
    InvalidGenerationMetadata { field: Seq<char>, reason: Seq<char> },
}

impl DeepView for GraphStoreError {
    type V = StoreFailure;

    open spec fn deep_view(&self) -> StoreFailure {
        match self {
            GraphStoreError::Redb(e) => StoreFailure::Redb(e@),
            GraphStoreError::Serialization(e) => StoreFailure::Serialization(e@),
            GraphStoreError::InvalidSnapshot(e) => StoreFailure::InvalidSnapshot(e@),
            GraphStoreError::ReachabilityEvidence(e) => StoreFailure::ReachabilityEvidence(e@),
            GraphStoreError::Join(e) => StoreFailure::Join(e@),
            GraphStoreError::ReadOnly => StoreFailure::ReadOnly,
            GraphStoreError::OriginMismatch { stored, query } => StoreFailure::OriginMismatch {
                stored: stored@,
                query: query@,
            },
            GraphStoreError::OriginAdoptRequired { stored, query } =>
            StoreFailure::OriginAdoptRequired { stored: stored@, query: query@ },
            GraphStoreError::Origin(e) => StoreFailure::Origin(e@),
            GraphStoreError::MissingGenerationMetadata { field } =>
            StoreFailure::MissingGenerationMetadata { field: field@ },
            GraphStoreError::InvalidGenerationMetadata { field, reason } =>
            StoreFailure::InvalidGenerationMetadata { field: field@, reason: reason@ },
        }
    }
}

impl StoreFailure {
    pub open spec fn words(self) -> Seq<char> {
        match self {
            StoreFailure::Redb(e) => "redb error: "@ + e,
            StoreFailure::Serialization(e) => "serialization error: "@ + e,
            StoreFailure::InvalidSnapshot(e) => "invalid graph snapshot: "@ + e,
            StoreFailure::ReachabilityEvidence(e) => "reachability evidence error: "@ + e,
            StoreFailure::Join(e) => "task join error: "@ + e,
            StoreFailure::ReadOnly => "graph store was opened read-only"@,
            StoreFailure::OriginMismatch { stored, query } =>
                "code-intel graph store belongs to a different workspace: it was indexed from `"@
                    + stored + "`, but you are querying from `"@ + query
                    + "` — run `h00ligan index` in this workspace to (re)build its graph"@,
            StoreFailure::OriginAdoptRequired { stored, query } =>
                "code-intel graph store belongs to a different workspace: it was indexed from `"@
                    + stored + "`, but you are indexing from `"@ + query
                    + "` — continuing would CLEAR and rebuild that workspace's graph, destroying it. Use a separate `--data-dir` per workspace, or pass `--adopt-foreign-origin` to authorise the clear"@,
            StoreFailure::Origin(e) => "graph origin stamp error: "@ + e,
            StoreFailure::MissingGenerationMetadata { field } =>
                "generation metadata is incomplete: missing `"@ + field + "`"@,
            StoreFailure::InvalidGenerationMetadata { field, reason } => "generation metadata `"@
                + field + "` is invalid: "@ + reason,
        }
    }
}

impl GraphStoreError {
    /// The error in words.
    pub fn message(&self) -> (r: String)
        ensures
            r@ == self.deep_view().words(),
    {
        match self {
            GraphStoreError::Redb(e) => prefixed("redb error: ", e.as_str()),
            GraphStoreError::Serialization(e) => prefixed("serialization error: ", e.as_str()),
            GraphStoreError::InvalidSnapshot(e) => prefixed("invalid graph snapshot: ", e.as_str()),
            GraphStoreError::ReachabilityEvidence(e) => prefixed(
                "reachability evidence error: ",
                e.as_str(),
            ),
            GraphStoreError::Join(e) => prefixed("task join error: ", e.as_str()),
            GraphStoreError::ReadOnly => "graph store was opened read-only".to_owned(),
            GraphStoreError::OriginMismatch { stored, query } => {
                let mut r = prefixed(
                    "code-intel graph store belongs to a different workspace: it was indexed from `",
                    stored.as_str(),
                );
                r.append("`, but you are querying from `");
                r.append(query.as_str());
                r.append("` — run `h00ligan index` in this workspace to (re)build its graph");
                r
            },
            GraphStoreError::OriginAdoptRequired { stored, query } => {
                let mut r = prefixed(
                    "code-intel graph store belongs to a different workspace: it was indexed from `",
                    stored.as_str(),
                );
                r.append("`, but you are indexing from `");
                r.append(query.as_str());
                r.append(
                    "` — continuing would CLEAR and rebuild that workspace's graph, destroying it. Use a separate `--data-dir` per workspace, or pass `--adopt-foreign-origin` to authorise the clear",
                );
                r
            },
            GraphStoreError::Origin(e) => prefixed("graph origin stamp error: ", e.as_str()),
            GraphStoreError::MissingGenerationMetadata { field } => {
                let mut r = prefixed("generation metadata is incomplete: missing `", field);
                r.append("`");
                r
            },
            GraphStoreError::InvalidGenerationMetadata { field, reason } => {
                let mut r = prefixed("generation metadata `", field);
                r.append("` is invalid: ");
                r.append(reason.as_str());
                r
            },
        }
    }
}

fn prefixed(prefix: &str, rest: &str) -> (r: String)
    ensures
        r@ == prefix@ + rest@,
{
    let mut r = prefix.to_owned();
    r.append(rest);
    r
}

/// A workspace root: as it was given, and resolved to its canonical path or not.
#[derive(Debug)]
pub struct WorkspaceRoot {
    pub display: String,
    /// The canonical path, or why there is none.
    pub canonical: Result<String, String>,
}

impl WorkspaceRoot {
    /// The canonical path, if there is one.
    pub open spec fn path(&self) -> Option<Seq<char>> {
        match self.canonical {
            Ok(path) => Some(path@),
            Err(_) => None,
        }
    }

    /// The canonical path where there is one, else the root as it was given.
    pub open spec fn label(&self) -> Seq<char> {
        match self.canonical {
            Ok(path) => path@,
            Err(_) => self.display@,
        }
    }

    /// The complaint about a publication root without a canonical path.
    pub open spec fn publication_complaint(&self) -> Option<Seq<char>> {
        match self.canonical {
            Ok(_) => None,
            Err(error) => Some(
                "cannot canonicalize publication root `"@ + self.display@ + "`: "@ + error@,
            ),
        }
    }

    fn label_string(&self) -> (r: String)
        ensures
            r@ == self.label(),
    {
        match &self.canonical {
            Ok(path) => path.clone(),
            Err(_) => self.display.clone(),
        }
    }

    /// The canonical path of a publication root.
    fn publication_path(&self) -> (r: Result<String, GraphStoreError>)
        ensures
            match r {
                Ok(path) => self.path() == Some(path@),
                Err(e) => self.publication_complaint() is Some && e.deep_view()
                    == StoreFailure::Origin(self.publication_complaint()->0),
            },
    {
        match &self.canonical {
            Ok(path) => Ok(path.clone()),
            Err(error) => {
                let mut text = prefixed(
                    "cannot canonicalize publication root `",
                    self.display.as_str(),
                );
                text.append("`: ");
                text.append(error.as_str());
                Err(GraphStoreError::Origin(text))
            },
        }
    }
}

/// Whether a stamp may be recorded, and how it is refused.
pub fn validate_classified_by(stamp: &ClassifiedBy) -> (r: Result<(), GraphStoreError>)
    ensures
        r is Ok <==> stamp.deep_view().complete(),
        r is Err ==> r->Err_0.deep_view() == incomplete_stamp(),
{
    if stamp.build_identity.as_str().is_empty() || stamp.prover_config.as_str().is_empty()
        || stamp.timestamp.as_str().is_empty() || !is_exact_indexer_identity(
        stamp.indexer_identity.as_str(),
    ) {
        return Err(
            GraphStoreError::InvalidGenerationMetadata {
                field: "classified_by",
                reason:
                    "build_identity, exact sha256 indexer_identity, prover_config, and timestamp are required".to_owned(),
            },
        );
    }
    Ok(())
}

pub open spec fn incomplete_stamp() -> StoreFailure {
    StoreFailure::InvalidGenerationMetadata {
        field: "classified_by"@,
        reason:
            "build_identity, exact sha256 indexer_identity, prover_config, and timestamp are required"@,
    }
}

/// The tables of one generation database. A missing table and a missing key are both
/// `None`; of the snapshot table, it is known which of the two it is.
#[derive(Debug, Clone, PartialEq, Eq)]
pub struct GraphTables {
    /// The encoded snapshot.
    pub snapshot: Option<Vec<u8>>,
    /// What the database says on opening the snapshot table, where it has none.
    pub missing_snapshot_table: Option<String>,
    /// The encoded reachability evidence of exactly that snapshot.
    pub evidence: Option<Vec<u8>>,
    pub schema_version: Option<u64>,
    pub oracle_ran_ok: Option<u64>,
    /// The canonical workspace root that the graph was indexed from.
    pub origin: Option<String>,
    pub build_identity: Option<String>,
    pub indexer_identity: Option<String>,
    pub prover_config: Option<String>,
    pub timestamp: Option<String>,
}

/// The tables as plain values.
pub struct TablesModel {
    pub snapshot: Option<Seq<u8>>,
    pub missing_snapshot_table: Option<Seq<char>>,
    pub evidence: Option<Seq<u8>>,
    pub schema_version: Option<u64>,
    pub oracle_ran_ok: Option<u64>,
    pub origin: Option<Seq<char>>,
    pub build: Option<Seq<char>>,
    pub indexer: Option<Seq<char>>,
    pub prover: Option<Seq<char>>,
    pub timestamp: Option<Seq<char>>,
}

impl DeepView for GraphTables {
    type V = TablesModel;

    open spec fn deep_view(&self) -> TablesModel {
        TablesModel {
            snapshot: self.snapshot.deep_view(),
            missing_snapshot_table: self.missing_snapshot_table.deep_view(),
            evidence: self.evidence.deep_view(),
            schema_version: self.schema_version,
            oracle_ran_ok: self.oracle_ran_ok,
            origin: self.origin.deep_view(),
            build: self.build_identity.deep_view(),
            indexer: self.indexer_identity.deep_view(),
            prover: self.prover_config.deep_view(),
            timestamp: self.timestamp.deep_view(),
        }
    }
}

/// The stamp that the tables hold: none, a complete one, or a fault.
pub enum StampReading {
    Absent,
    Present(StampModel),
    Fault(StoreFailure),
}

impl TablesModel {
    /// A snapshot is there, but not under the current schema.
    pub open spec fn stale(self) -> bool {
        self.snapshot is Some && self.schema_version != Some(SCHEMA_VERSION)
    }

    /// The tables after a snapshot was written with the evidence derived from it.
    pub open spec fn with_snapshot(self, graph: Seq<u8>, evidence: Option<Seq<u8>>) -> TablesModel {
        TablesModel {
            snapshot: Some(graph),
            missing_snapshot_table: None,
            evidence,
            schema_version: Some(SCHEMA_VERSION),
            ..self
        }
    }

    /// The tables after the derived graph was cleared for a rebuild.
    pub open spec fn cleared(self) -> TablesModel {
        TablesModel {
            snapshot: None,
            missing_snapshot_table: None,
            evidence: None,
            schema_version: Some(SCHEMA_VERSION),
            ..self
        }
    }

    pub open spec fn with_origin(self, origin: Seq<char>) -> TablesModel {
        TablesModel { origin: Some(origin), ..self }
    }

    pub open spec fn with_stamp(self, stamp: StampModel) -> TablesModel {
        TablesModel {
            build: Some(stamp.build),
            indexer: Some(stamp.indexer),
            prover: Some(stamp.prover),
            timestamp: Some(stamp.timestamp),
            ..self
        }
    }

    pub open spec fn with_metadata(self, metadata: (StampModel, bool)) -> TablesModel {
        TablesModel {
            oracle_ran_ok: Some(
                if metadata.1 {
                    1
                } else {
                    0
                },
            ),
            ..self.with_stamp(metadata.0)
        }
    }

    pub open spec fn stamp(self) -> StampReading {
        match (self.build, self.indexer, self.prover, self.timestamp) {
            (None, None, None, None) => StampReading::Absent,
            (Some(build), Some(indexer), Some(prover), Some(timestamp)) => {
                let stamp = StampModel { build, indexer, prover, timestamp };
                if stamp.complete() {
                    StampReading::Present(stamp)
                } else {
                    StampReading::Fault(incomplete_stamp())
                }
            },
            _ => StampReading::Fault(
                StoreFailure::InvalidGenerationMetadata {
                    field: "classified_by"@,
                    reason: "record is only partially populated"@,
                },
            ),
        }
    }

    /// The oracle's outcome: none, or one of the two canonical encodings, or a fault.
    pub open spec fn oracle(self) -> Result<Option<bool>, StoreFailure> {
        match self.oracle_ran_ok {
            None => Ok(None),
            Some(value) => if value == 0 {
                Ok(Some(false))
            } else if value == 1 {
                Ok(Some(true))
            } else {
                Err(
                    StoreFailure::InvalidGenerationMetadata {
                        field: "oracle_ran_ok"@,
                        reason: "expected 0 or 1, found "@ + text::dec(value as nat),
                    },
                )
            },
        }
    }

    /// The complete metadata record, or what keeps it from being complete.
    pub open spec fn metadata(self) -> Result<(StampModel, bool), StoreFailure> {
        match self.stamp() {
            StampReading::Fault(fault) => Err(fault),
            StampReading::Absent => Err(
                StoreFailure::MissingGenerationMetadata { field: "classified_by"@ },
            ),
            StampReading::Present(stamp) => match self.oracle() {
                Err(fault) => Err(fault),
                Ok(None) => Err(
                    StoreFailure::MissingGenerationMetadata { field: "oracle_ran_ok"@ },
                ),
                Ok(Some(ok)) => Ok((stamp, ok)),
            },
        }
    }

    /// The origin to name in a refusal.
    pub open spec fn origin_label(self) -> Seq<char> {
        match self.origin {
            Some(origin) => origin,
            None => NO_ORIGIN@,
        }
    }
}

/// What an index-intent load decides before it looks inside the snapshot.
pub enum LoadDecision {
    /// Nothing is persisted.
    Empty,
    /// The persisted graph is cleared, and everything is re-extracted.
    Clear,
    /// The graph belongs to another workspace and may not be cleared.
    Refuse,
    /// The snapshot is decoded.
    Decode,
}

/// Version first, then presence, then origin.
pub open spec fn load_decision(
    tables: TablesModel,
    root: Option<Seq<char>>,
    adopt_foreign_origin: bool,
) -> LoadDecision {
    if tables.stale() {
        LoadDecision::Clear
    } else if tables.snapshot is None {
        LoadDecision::Empty
    } else if tables.origin is None || root is None || tables.origin != root {
        if adopt_foreign_origin {
            LoadDecision::Clear
        } else {
            LoadDecision::Refuse
        }
    } else {
        LoadDecision::Decode
    }
}

/// Loading for indexing clears the graph: it is stale, or foreign and may be cleared, or
/// it cannot be decoded.
pub open spec fn clears_on_load(
    tables: TablesModel,
    root: Option<Seq<char>>,
    adopt_foreign_origin: bool,
    decoded: Result<(GraphSnapshot, usize), String>,
) -> bool {
    match load_decision(tables, root, adopt_foreign_origin) {
        LoadDecision::Clear => true,
        LoadDecision::Decode => graph_snapshot::decode_fault(tables.snapshot->0.len(), decoded)
            is Some,
        _ => false,
    }
}

/// The graph is what the decoded snapshot lists.
pub open spec fn holds_snapshot(
    graph: KnowledgeGraph,
    decoded: Result<(GraphSnapshot, usize), String>,
) -> bool {
    &&& decoded is Ok
    &&& graph.wf()
    &&& graph.nodes() == decoded->Ok_0.0.nodes@
    &&& graph.edges() == decoded->Ok_0.0.edges@
    &&& graph.spans() == decoded->Ok_0.0.source_spans@
}

/// Proof that one exact graph/evidence pair was validated and encoded.
#[derive(Debug, Clone, PartialEq, Eq)]
pub struct GraphPublicationProof {
    pub schema_version: u64,
    pub graph_blake3: [u8; 32],
    pub evidence_blake3: Option<[u8; 32]>,
    pub graph_bytes: usize,
    pub evidence_bytes: usize,
    pub origin: String,
    pub generation_metadata: GraphGenerationMetadata,
}

/// A proof as plain values.
pub struct ProofModel {
    pub schema_version: u64,
    pub graph: Seq<u8>,
    pub evidence: Option<Seq<u8>>,
    pub graph_bytes: nat,
    pub evidence_bytes: nat,
    pub origin: Seq<char>,
    pub metadata: (StampModel, bool),
}

pub open spec fn digest_view(digest: Option<[u8; 32]>) -> Option<Seq<u8>> {
    match digest {
        Some(bytes) => Some(bytes@),
        None => None,
    }
}

impl DeepView for GraphPublicationProof {
    type V = ProofModel;

    open spec fn deep_view(&self) -> ProofModel {
        ProofModel {
            schema_version: self.schema_version,
            graph: self.graph_blake3@,
            evidence: digest_view(self.evidence_blake3),
            graph_bytes: self.graph_bytes as nat,
            evidence_bytes: self.evidence_bytes as nat,
            origin: self.origin@,
            metadata: self.generation_metadata.deep_view(),
        }
    }
}

/// The digest of optional bytes.
pub open spec fn optional_digest(bytes: Option<Seq<u8>>) -> Option<Seq<u8>> {
    match bytes {
        Some(b) => Some(digest::blake3_of(b)),
        None => None,
    }
}

pub open spec fn optional_len(bytes: Option<Seq<u8>>) -> nat {
    match bytes {
        Some(b) => b.len(),
        None => 0,
    }
}

/// The proof of a graph/evidence pair, bound to its origin and metadata.
pub open spec fn proof_of(
    graph: Seq<u8>,
    evidence: Option<Seq<u8>>,
    origin: Seq<char>,
    metadata: (StampModel, bool),
) -> ProofModel {
    ProofModel {
        schema_version: SCHEMA_VERSION,
        graph: digest::blake3_of(graph),
        evidence: optional_digest(evidence),
        graph_bytes: graph.len(),
        evidence_bytes: optional_len(evidence),
        origin,
        metadata,
    }
}

fn optional_hash(bytes: &Option<Vec<u8>>) -> (r: Option<[u8; 32]>)
    ensures
        digest_view(r) == optional_digest(bytes.deep_view()),
{
    match bytes {
        Some(b) => {
            let r = digest::blake3_hash(b.as_slice());
            assert(b.deep_view() =~= b@);
            Some(r)
        },
        None => None,
    }
}

fn optional_size(bytes: &Option<Vec<u8>>) -> (r: usize)
    ensures
        r == optional_len(bytes.deep_view()),
{
    match bytes {
        Some(b) => b.len(),
        None => 0,
    }
}

fn same_optional_digest(a: &Option<[u8; 32]>, b: &Option<[u8; 32]>) -> (r: bool)
    ensures
        r == (digest_view(*a) == digest_view(*b)),
{
    match (a, b) {
        (Some(x), Some(y)) => digest::same_digest(x, y),
        (None, None) => true,
        _ => false,
    }
}

fn copy_bytes(bytes: &Vec<u8>) -> (r: Vec<u8>)
    ensures
        r@ == bytes@,
{
    let mut r: Vec<u8> = Vec::new();
    digest::extend(&mut r, bytes.as_slice());
    assert(r@ =~= bytes@);
    r
}

fn copy_optional_bytes(bytes: &Option<Vec<u8>>) -> (r: Option<Vec<u8>>)
    ensures
        r.deep_view() == bytes.deep_view(),
{
    match bytes {
        Some(b) => {
            let c = copy_bytes(b);
            assert(c.deep_view() =~= b.deep_view());
            Some(c)
        },
        None => None,
    }
}

impl GraphPublicationProof {
    /// A proof of an empty graph without evidence.
    pub fn test_fixture() -> (r: Self)
        ensures
            r.schema_version == SCHEMA_VERSION,
            r.graph_blake3@ == Seq::new(32, |i: int| 0u8),
            r.evidence_blake3 is None,
            r.graph_bytes == 0,
            r.evidence_bytes == 0,
            r.origin@ == "test-fixture"@,
            !r.generation_metadata.oracle_ran_ok,
            r.generation_metadata.classified_by.deep_view().complete(),
    {
        let zeros: [u8; 32] = [0u8; 32];
        assert(zeros@ =~= Seq::new(32, |i: int| 0u8));
        GraphPublicationProof {
            schema_version: SCHEMA_VERSION,
            graph_blake3: zeros,
            evidence_blake3: None,
            graph_bytes: 0,
            evidence_bytes: 0,
            origin: "test-fixture".to_owned(),
            generation_metadata: GraphGenerationMetadata::now(false),
        }
    }

    /// How many bytes the proof covers, as far as the count goes.
    pub fn verified_bytes(&self) -> (r: u64)
        ensures
            r == if self.graph_bytes + self.evidence_bytes <= usize::MAX {
                self.graph_bytes + self.evidence_bytes
            } else {
                usize::MAX as int
            },
    {
        self.graph_bytes.saturating_add(self.evidence_bytes) as u64
    }

    /// Whether the proof is about the current schema and this workspace.
    pub fn validate_candidate_identity(&self, root: &WorkspaceRoot) -> (r: Result<
        (),
        GraphStoreError,
    >)
        ensures
            r is Ok <==> self.schema_version == SCHEMA_VERSION && root.path() == Some(self.origin@),
            r is Err ==> r->Err_0.deep_view() == if self.schema_version != SCHEMA_VERSION {
                StoreFailure::Origin(foreign_schema_text(self.schema_version))
            } else {
                match root.publication_complaint() {
                    Some(complaint) => StoreFailure::Origin(complaint),
                    None => StoreFailure::OriginMismatch {
                        stored: self.origin@,
                        query: root.label(),
                    },
                }
            },
    {
        if self.schema_version != SCHEMA_VERSION {
            return Err(foreign_schema(self.schema_version));
        }
        let canonical_root = match root.publication_path() {
            Ok(path) => path,
            Err(e) => {
                return Err(e);
            },
        };
        if !self.origin.same(&canonical_root) {
            return Err(
                GraphStoreError::OriginMismatch {
                    stored: self.origin.clone(),
                    query: canonical_root,
                },
            );
        }
        Ok(())
    }
}

pub open spec fn foreign_schema_text(version: u64) -> Seq<char> {
    "publication graph proof uses schema "@ + text::dec(version as nat) + ", expected "@
        + text::dec(SCHEMA_VERSION as nat)
}

fn foreign_schema(version: u64) -> (r: GraphStoreError)
    ensures
        r.deep_view() == StoreFailure::Origin(foreign_schema_text(version)),
{
    let mut r = "publication graph proof uses schema ".to_owned();
    r.append(text::decimal(version).as_str());
    r.append(", expected ");
    r.append(text::decimal(SCHEMA_VERSION).as_str());
    GraphStoreError::Origin(r)
}

/// Work performed by a combined graph/evidence save.
#[derive(Debug, Clone, Copy)]
pub struct GraphSnapshotWriteTelemetry {
    pub evidence_validation: Duration,
    pub snapshot_materialization: Duration,
    pub snapshot_encoding: Duration,
    pub evidence_encoding: Duration,
    pub proof_hashing: Duration,
    pub database_write: Duration,
    pub graph_bytes: usize,
    pub evidence_bytes: usize,
    pub graph_blake3: [u8; 32],
    pub evidence_blake3: Option<[u8; 32]>,
}

/// The measured spans of a save.
#[derive(Debug, Clone, Copy)]
pub struct SaveTimings {
    pub evidence_validation: Duration,
    pub snapshot_materialization: Duration,
    pub snapshot_encoding: Duration,
    pub evidence_encoding: Duration,
    pub proof_hashing: Duration,
    pub database_write: Duration,
}

impl GraphSnapshotWriteTelemetry {
    /// What was written is this pair.
    pub open spec fn covers(&self, graph: Seq<u8>, evidence: Option<Seq<u8>>) -> bool {
        &&& self.graph_blake3@ == digest::blake3_of(graph)
        &&& digest_view(self.evidence_blake3) == optional_digest(evidence)
        &&& self.graph_bytes == graph.len()
        &&& self.evidence_bytes == optional_len(evidence)
    }

    /// The proof of the written pair, bound to a workspace and its metadata.
    pub fn publication_proof(
        &self,
        root: &WorkspaceRoot,
        generation_metadata: GraphGenerationMetadata,
    ) -> (r: Result<GraphPublicationProof, GraphStoreError>)
        ensures
            match r {
                Ok(p) => root.path() == Some(p.origin@) && p.deep_view() == (ProofModel {
                    schema_version: SCHEMA_VERSION,
                    graph: self.graph_blake3@,
                    evidence: digest_view(self.evidence_blake3),
                    graph_bytes: self.graph_bytes as nat,
                    evidence_bytes: self.evidence_bytes as nat,
                    origin: root.label(),
                    metadata: generation_metadata.deep_view(),
                }),
                Err(e) => root.publication_complaint() is Some && e.deep_view()
                    == StoreFailure::Origin(root.publication_complaint()->0),
            },
    {
        let origin = match root.publication_path() {
            Ok(path) => path,
            Err(e) => {
                return Err(e);
            },
        };
        Ok(
            GraphPublicationProof {
                schema_version: SCHEMA_VERSION,
                graph_blake3: self.graph_blake3,
                evidence_blake3: self.evidence_blake3,
                graph_bytes: self.graph_bytes,
                evidence_bytes: self.evidence_bytes,
                origin,
                generation_metadata,
            },
        )
    }
}

/// The raw values of one publication, with the proof that they give.
#[derive(Debug)]
pub struct RawGraphPublicationContent {
    pub snapshot: Vec<u8>,
    pub evidence: Option<Vec<u8>>,
    pub origin: String,
    pub generation_metadata: GraphGenerationMetadata,
    pub proof: GraphPublicationProof,
}

/// Why a publication is refused, if it is, in the order in which it is examined:
/// root, expected schema, stored schema, origin, expected origin, metadata, expected
/// metadata, snapshot, graph bytes, evidence bytes.
pub open spec fn publication_fault(
    tables: TablesModel,
    root: WorkspaceRoot,
    expected: Option<ProofModel>,
) -> Option<StoreFailure> {
    if root.publication_complaint() is Some {
        Some(StoreFailure::Origin(root.publication_complaint()->0))
    } else if expected is Some && expected->0.schema_version != SCHEMA_VERSION {
        Some(StoreFailure::Origin(foreign_schema_text(expected->0.schema_version)))
    } else if tables.stale() {
        Some(StoreFailure::Origin("publication graph snapshot uses an incompatible schema"@))
    } else if tables.origin != root.path() {
        Some(
            StoreFailure::OriginMismatch { stored: tables.origin_label(), query: root.label() },
        )
    } else if expected is Some && expected->0.origin != root.label() {
        Some(StoreFailure::OriginMismatch { stored: expected->0.origin, query: root.label() })
    } else {
        match tables.metadata() {
            Err(fault) => Some(fault),
            Ok(metadata) => if expected is Some && expected->0.metadata != metadata {
                Some(
                    StoreFailure::InvalidGenerationMetadata {
                        field: "publication_proof"@,
                        reason:
                            "persisted generation metadata differs from the immutable manifest"@,
                    },
                )
            } else if tables.snapshot is None {
                Some(
                    match tables.missing_snapshot_table {
                        Some(complaint) => StoreFailure::Redb(complaint),
                        None => StoreFailure::InvalidSnapshot(
                            "publication database has no graph snapshot"@,
                        ),
                    },
                )
            } else {
                let actual = proof_of(
                    tables.snapshot->0,
                    tables.evidence,
                    root.label(),
                    metadata,
                );
                if expected is Some && (actual.graph != expected->0.graph || actual.graph_bytes
                    != expected->0.graph_bytes) {
                    Some(
                        StoreFailure::InvalidSnapshot(
                            "opened graph bytes differ from the immutable manifest content proof"@,
                        ),
                    )
                } else if expected is Some && (actual.evidence != expected->0.evidence
                    || actual.evidence_bytes != expected->0.evidence_bytes) {
                    Some(
                        StoreFailure::ReachabilityEvidence(
                            "opened reachability bytes differ from the immutable manifest content proof"@,
                        ),
                    )
                } else {
                    None
                }
            },
        }
    }
}

/// What the persisted evidence bytes gave: parsed, canonical or not, and joined to
/// the graph or not.
pub enum EvidenceReading<E> {
    /// The bytes do not parse.
    Malformed(String),
    /// The parsed document cannot be encoded again.
    Unencodable(String),
    /// The document parses; its canonical encoding, and what joining it to the graph
    /// gave.
    Parsed { canonical: Vec<u8>, joined: Result<E, String> },
}

/// The persisted evidence, as far as it may be used.
pub open spec fn evidence_fault<E>(
    bytes: Seq<u8>,
    reading: EvidenceReading<E>,
) -> Option<StoreFailure> {
    match reading {
        EvidenceReading::Malformed(error) => Some(StoreFailure::Serialization(error@)),
        EvidenceReading::Unencodable(error) => Some(StoreFailure::Serialization(error@)),
        EvidenceReading::Parsed { canonical, joined } => if canonical@ != bytes {
            Some(
                StoreFailure::ReachabilityEvidence(
                    "persisted document is not in canonical encoding"@,
                ),
            )
        } else {
            match joined {
                Ok(_) => None,
                Err(error) => Some(StoreFailure::ReachabilityEvidence(error@)),
            }
        },
    }
}

fn same_bytes(a: &Vec<u8>, b: &Vec<u8>) -> (r: bool)
    ensures
        r == (a@ == b@),
{
    if a.len() != b.len() {
        return false;
    }
    for i in 0..a.len()
        invariant
            a.len() == b.len(),
            forall|j: int| 0 <= j < i ==> a@[j] == b@[j],
    {
        if a[i] != b[i] {
            return false;
        }
    }
    assert(a@ =~= b@);
    true
}

/// Accepts persisted evidence, or says why it is refused.
pub fn admit_evidence<E>(bytes: &Vec<u8>, reading: EvidenceReading<E>) -> (r: Result<
    E,
    GraphStoreError,
>)
    ensures
        match r {
            Ok(evidence) => evidence_fault(bytes@, reading) is None && (reading matches
                EvidenceReading::Parsed { joined, .. } && joined == Ok::<E, String>(evidence)),
            Err(e) => evidence_fault(bytes@, reading) == Some(e.deep_view()),
        },
{
    match reading {
        EvidenceReading::Malformed(error) => Err(GraphStoreError::Serialization(error)),
        EvidenceReading::Unencodable(error) => Err(GraphStoreError::Serialization(error)),
        EvidenceReading::Parsed { canonical, joined } => {
            if !same_bytes(&canonical, bytes) {
                return Err(
                    GraphStoreError::ReachabilityEvidence(
                        "persisted document is not in canonical encoding".to_owned(),
                    ),
                );
            }
            match joined {
                Ok(evidence) => Ok(evidence),
                Err(error) => Err(GraphStoreError::ReachabilityEvidence(error)),
            }
        },
    }
}

/// A graph that a publication vouches for, with its evidence if that may be used.
pub struct ValidatedGraphContent<E> {
    pub graph: KnowledgeGraph,
    pub reachability_evidence: Result<Option<E>, GraphStoreError>,
    pub origin: String,
    pub generation_metadata: GraphGenerationMetadata,
}

/// The persisted graph of one generation.
#[derive(Debug, Clone)]
pub struct GraphStore {
    pub tables: GraphTables,
    /// The database was opened for reading only.
    pub read_only: bool,
}

impl GraphStore {
    /// A store over a writable database.
    pub fn new(tables: GraphTables) -> (r: Self)
        ensures
            r.tables == tables,
            !r.read_only,
    {
        GraphStore { tables, read_only: false }
    }

    /// A store over a database that was opened for reading only.
    pub fn new_read_only(tables: GraphTables) -> (r: Self)
        ensures
            r.tables == tables,
            r.read_only,
    {
        GraphStore { tables, read_only: true }
    }

    /// Rebuilds the graph of an encoded snapshot, `bytes` long. `decoded` is what the
    /// decoder gave.
    pub fn decode_snapshot(
        bytes: usize,
        decoded: Result<(GraphSnapshot, usize), String>,
    ) -> (r: Result<KnowledgeGraph, GraphStoreError>)
        ensures
            match r {
                Ok(graph) => graph_snapshot::decode_fault(bytes as nat, decoded) is None
                    && holds_snapshot(graph, decoded),
                Err(e) => graph_snapshot::decode_fault(bytes as nat, decoded) is Some
                    && e.deep_view() == StoreFailure::InvalidSnapshot(
                    graph_snapshot::decode_fault(bytes as nat, decoded)->0,
                ),
            },
    {
        match graph_snapshot::rebuild_graph(bytes, decoded) {
            Ok(graph) => Ok(graph),
            Err(fault) => Err(GraphStoreError::InvalidSnapshot(fault)),
        }
    }

    /// Writes a snapshot and its evidence in one transaction. Without evidence, any
    /// earlier evidence goes.
    pub fn write_snapshot_bytes(
        &mut self,
        graph_bytes: Vec<u8>,
        reachability_bytes: Option<Vec<u8>>,
    ) -> (r: Result<(), GraphStoreError>)
        ensures
            final(self).read_only == old(self).read_only,
            match r {
                Ok(()) => !old(self).read_only && final(self).tables.deep_view() == old(
                    self,
                ).tables.deep_view().with_snapshot(graph_bytes@, reachability_bytes.deep_view()),
                Err(e) => old(self).read_only && e.deep_view() == StoreFailure::ReadOnly
                    && *final(self) == *old(self),
            },
    {
        if self.read_only {
            return Err(GraphStoreError::ReadOnly);
        }
        assert(graph_bytes.deep_view() =~= graph_bytes@);
        self.tables.snapshot = Some(graph_bytes);
        self.tables.missing_snapshot_table = None;
        self.tables.evidence = reachability_bytes;
        self.tables.schema_version = Some(SCHEMA_VERSION);
        Ok(())
    }

    /// Saves a graph without evidence. `encoded` is what encoding the graph gave.
    pub fn save_snapshot(&mut self, encoded: Result<Vec<u8>, String>) -> (r: Result<
        (),
        GraphStoreError,
    >)
        ensures
            final(self).read_only == old(self).read_only,
            r is Ok <==> encoded is Ok && !old(self).read_only,
            r is Ok ==> final(self).tables.deep_view() == old(
                self,
            ).tables.deep_view().with_snapshot(encoded->Ok_0@, None),
            r is Err ==> *final(self) == *old(self) && r->Err_0.deep_view() == match encoded {
                Err(error) => StoreFailure::Serialization(error@),
                Ok(_) => StoreFailure::ReadOnly,
            },
    {
        match encoded {
            Ok(bytes) => self.write_snapshot_bytes(bytes, None),
            Err(error) => Err(GraphStoreError::Serialization(error)),
        }
    }

    /// Saves a graph without evidence.
    pub fn save_snapshot_sync(&mut self, encoded: Result<Vec<u8>, String>) -> (r: Result<
        (),
        GraphStoreError,
    >)
        ensures
            final(self).read_only == old(self).read_only,
            r is Ok <==> encoded is Ok && !old(self).read_only,
            r is Ok ==> final(self).tables.deep_view() == old(
                self,
            ).tables.deep_view().with_snapshot(encoded->Ok_0@, None),
            r is Err ==> *final(self) == *old(self) && r->Err_0.deep_view() == match encoded {
                Err(error) => StoreFailure::Serialization(error@),
                Ok(_) => StoreFailure::ReadOnly,
            },
    {
        self.save_snapshot(encoded)
    }

    /// Saves a graph with the evidence derived from exactly that graph.
    pub fn save_snapshot_with_reachability_evidence(
        &mut self,
        validation: Result<(), String>,
        encoded: Result<Vec<u8>, String>,
        evidence: Result<Vec<u8>, String>,
        timings: SaveTimings,
    ) -> (r: Result<(), GraphStoreError>)
        ensures
            final(self).read_only == old(self).read_only,
            r is Ok <==> save_fault(
                old(self).read_only,
                Some((validation, evidence)),
                encoded,
            ) is None,
            r is Ok ==> final(self).tables.deep_view() == old(
                self,
            ).tables.deep_view().with_snapshot(encoded->Ok_0@, Some(evidence->Ok_0@)),
            r is Err ==> *final(self) == *old(self) && save_fault(
                old(self).read_only,
                Some((validation, evidence)),
                encoded,
            ) == Some(r->Err_0.deep_view()),
    {
        match self.save_snapshot_with_optional_reachability_profiled(
            Some((validation, evidence)),
            encoded,
            timings,
        ) {
            Ok(_) => Ok(()),
            Err(e) => Err(e),
        }
    }

    /// Saves one graph and, where it has one, its independently authorized
    /// reachability projection, and retains what a proof of the pair needs.
    ///
    /// `evidence` holds what validating the evidence against the graph gave and what
    /// encoding it gave; `encoded` is what encoding the graph gave.
    pub fn save_snapshot_with_optional_reachability_profiled(
        &mut self,
        evidence: Option<(Result<(), String>, Result<Vec<u8>, String>)>,
        encoded: Result<Vec<u8>, String>,
        timings: SaveTimings,
    ) -> (r: Result<GraphSnapshotWriteTelemetry, GraphStoreError>)
        ensures
            final(self).read_only == old(self).read_only,
            match r {
                Ok(telemetry) => {
                    &&& save_fault(old(self).read_only, evidence, encoded) is None
                    &&& final(self).tables.deep_view() == old(
                        self,
                    ).tables.deep_view().with_snapshot(encoded->Ok_0@, encoded_evidence(evidence))
                    &&& telemetry.covers(encoded->Ok_0@, encoded_evidence(evidence))
                    &&& telemetry.evidence_validation == timings.evidence_validation
                    &&& telemetry.snapshot_materialization == timings.snapshot_materialization
                    &&& telemetry.snapshot_encoding == timings.snapshot_encoding
                    &&& telemetry.evidence_encoding == timings.evidence_encoding
                    &&& telemetry.proof_hashing == timings.proof_hashing
                    &&& telemetry.database_write == timings.database_write
                },
                Err(e) => {
                    &&& save_fault(old(self).read_only, evidence, encoded) == Some(e.deep_view())
                    &&& *final(self) == *old(self)
                },
            },
    {
        let mut reachability: Option<Result<Vec<u8>, String>> = None;
        match evidence {
            None => {},
            Some((validation, encoding)) => {
                match validation {
                    Ok(()) => {
                        reachability = Some(encoding);
                    },
                    Err(error) => {
                        return Err(GraphStoreError::ReachabilityEvidence(error));
                    },
                }
            },
        }
        let graph_bytes = match encoded {
            Ok(bytes) => bytes,
            Err(error) => {
                return Err(GraphStoreError::Serialization(error));
            },
        };
        let evidence_bytes: Option<Vec<u8>> = match reachability {
            None => None,
            Some(Ok(bytes)) => Some(bytes),
            Some(Err(error)) => {
                return Err(GraphStoreError::Serialization(error));
            },
        };
        let graph_blake3 = digest::blake3_hash(graph_bytes.as_slice());
        let evidence_blake3 = optional_hash(&evidence_bytes);
        let graph_len = graph_bytes.len();
        let evidence_len = optional_size(&evidence_bytes);
        assert(evidence_bytes.deep_view() == encoded_evidence(evidence)) by {
            match evidence_bytes {
                Some(b) => {
                    assert(b.deep_view() =~= b@);
                },
                None => {},
            }
        }
        match self.write_snapshot_bytes(graph_bytes, evidence_bytes) {
            Ok(()) => {},
            Err(e) => {
                return Err(e);
            },
        }
        Ok(
            GraphSnapshotWriteTelemetry {
                evidence_validation: timings.evidence_validation,
                snapshot_materialization: timings.snapshot_materialization,
                snapshot_encoding: timings.snapshot_encoding,
                evidence_encoding: timings.evidence_encoding,
                proof_hashing: timings.proof_hashing,
                database_write: timings.database_write,
                graph_bytes: graph_len,
                evidence_bytes: evidence_len,
                graph_blake3,
                evidence_blake3,
            },
        )
    }

    /// Whether a whole-graph snapshot is persisted.
    pub fn persisted_graph_data_sync(&self) -> (r: bool)
        ensures
            r == (self.tables.deep_view().snapshot is Some),
    {
        self.tables.snapshot.is_some()
    }

    /// Whether the persisted graph is schema-stale, with the version it carries.
    pub fn version_mismatch_sync(&self) -> (r: (bool, Option<u64>))
        ensures
            r.0 == self.tables.deep_view().stale(),
            r.1 == self.tables.schema_version,
    {
        let current = match self.tables.schema_version {
            Some(version) => version == SCHEMA_VERSION,
            None => false,
        };
        (self.persisted_graph_data_sync() && !current, self.tables.schema_version)
    }

    /// The persisted reachability evidence, checked against a graph. None may be
    /// persisted; what is persisted and may not be used is an error, never an absence.
    /// `reading` is what reading the persisted bytes gave.
    pub fn load_reachability_evidence<E>(&self, reading: Option<EvidenceReading<E>>) -> (r: Result<
        Option<E>,
        GraphStoreError,
    >)
        requires
            self.tables.deep_view().evidence is Some <==> reading is Some,
        ensures
            match r {
                Ok(None) => self.tables.deep_view().evidence is None,
                Ok(Some(evidence)) => {
                    &&& self.tables.deep_view().evidence is Some
                    &&& evidence_fault(self.tables.deep_view().evidence->0, reading->0) is None
                    &&& reading->0 matches EvidenceReading::Parsed { joined, .. } && joined == Ok::<
                        E,
                        String,
                    >(evidence)
                },
                Err(e) => self.tables.deep_view().evidence is Some && evidence_fault(
                    self.tables.deep_view().evidence->0,
                    reading->0,
                ) == Some(e.deep_view()),
            },
    {
        match (&self.tables.evidence, reading) {
            (Some(bytes), Some(reading)) => {
                assert(bytes.deep_view() =~= bytes@);
                match admit_evidence(bytes, reading) {
                    Ok(evidence) => Ok(Some(evidence)),
                    Err(e) => Err(e),
                }
            },
            _ => Ok(None),
        }
    }

    /// Reads the graph and never changes the store. There is none when no usable
    /// snapshot of the current schema is persisted.
    pub fn load_snapshot(&self, decoded: Result<(GraphSnapshot, usize), String>) -> (r: Option<
        KnowledgeGraph,
    >)
        ensures
            match r {
                Some(graph) => {
                    &&& servable(self.tables.deep_view(), decoded)
                    &&& holds_snapshot(graph, decoded)
                },
                None => !servable(self.tables.deep_view(), decoded),
            },
    {
        if self.version_mismatch_sync().0 {
            return None;
        }
        match &self.tables.snapshot {
            None => None,
            Some(bytes) => {
                assert(bytes.deep_view() =~= bytes@);
                match Self::decode_snapshot(bytes.len(), decoded) {
                    Ok(graph) => Some(graph),
                    Err(_) => None,
                }
            },
        }
    }

    /// Reads the graph for the workspace `root` and never changes the store. The
    /// schema is examined first, then the origin.
    pub fn load_snapshot_checked(
        &self,
        root: &WorkspaceRoot,
        decoded: Result<(GraphSnapshot, usize), String>,
    ) -> (r: Result<Option<KnowledgeGraph>, GraphStoreError>)
        ensures
            match r {
                Ok(Some(graph)) => {
                    &&& self.tables.deep_view().origin is Some
                    &&& self.tables.deep_view().origin == root.path()
                    &&& servable(self.tables.deep_view(), decoded)
                    &&& holds_snapshot(graph, decoded)
                },
                Ok(None) => {
                    ||| self.tables.deep_view().stale()
                    ||| self.tables.deep_view().origin is Some
                        && self.tables.deep_view().origin == root.path() && !servable(
                        self.tables.deep_view(),
                        decoded,
                    )
                },
                Err(e) => {
                    &&& !self.tables.deep_view().stale()
                    &&& self.tables.deep_view().origin is None || self.tables.deep_view().origin
                        != root.path()
                    &&& e.deep_view() == (StoreFailure::OriginMismatch {
                        stored: self.tables.deep_view().origin_label(),
                        query: root.label(),
                    })
                },
            },
    {
        if self.version_mismatch_sync().0 {
            return Ok(None);
        }
        if self.origin_matches(root) {
            return Ok(self.load_snapshot(decoded));
        }
        Err(
            GraphStoreError::OriginMismatch {
                stored: self.origin_label(),
                query: root.label_string(),
            },
        )
    }

    /// Whether the stamped origin is the canonical path of `root`.
    fn origin_matches(&self, root: &WorkspaceRoot) -> (r: bool)
        ensures
            r == (self.tables.deep_view().origin is Some && self.tables.deep_view().origin
                == root.path()),
    {
        match (&self.tables.origin, &root.canonical) {
            (Some(stored), Ok(query)) => stored.same(query),
            _ => false,
        }
    }

    fn origin_label(&self) -> (r: String)
        ensures
            r@ == self.tables.deep_view().origin_label(),
    {
        match &self.tables.origin {
            Some(origin) => origin.clone(),
            None => NO_ORIGIN.to_owned(),
        }
    }

    /// What loading the graph for indexing would give, and whether it would clear the
    /// graph. It changes nothing: a dry run compares sources on it.
    pub fn preview_index_load(
        &self,
        root: &WorkspaceRoot,
        adopt_foreign_origin: bool,
        decoded: Result<(GraphSnapshot, usize), String>,
    ) -> (r: Result<(Option<KnowledgeGraph>, bool), GraphStoreError>)
        ensures
            ({
                let tables = self.tables.deep_view();
                let decision = load_decision(tables, root.path(), adopt_foreign_origin);
                match r {
                    Ok((graph, clears)) => {
                        &&& !(decision is Refuse)
                        &&& clears == clears_on_load(
                            tables,
                            root.path(),
                            adopt_foreign_origin,
                            decoded,
                        )
                        &&& graph is Some <==> decision is Decode && !clears
                        &&& graph is Some ==> holds_snapshot(graph->0, decoded)
                    },
                    Err(e) => decision is Refuse && e.deep_view() == (
                    StoreFailure::OriginAdoptRequired {
                        stored: tables.origin_label(),
                        query: root.label(),
                    }),
                }
            }),
    {
        if self.version_mismatch_sync().0 {
            return Ok((None, true));
        }
        let size: usize = match &self.tables.snapshot {
            None => {
                return Ok((None, false));
            },
            Some(bytes) => {
                assert(bytes.deep_view() =~= bytes@);
                bytes.len()
            },
        };
        if !self.origin_matches(root) {
            if !adopt_foreign_origin {
                return Err(
                    GraphStoreError::OriginAdoptRequired {
                        stored: self.origin_label(),
                        query: root.label_string(),
                    },
                );
            }
            return Ok((None, true));
        }
        match Self::decode_snapshot(size, decoded) {
            Ok(graph) => Ok((Some(graph), false)),
            Err(_) => Ok((None, true)),
        }
    }

    /// Loads the graph for indexing. A graph that cannot be used is cleared, and the
    /// result says so; the caller must then re-extract everything. A graph of another
    /// workspace is cleared only where that is allowed.
    pub fn load_snapshot_or_clear(
        &mut self,
        root: &WorkspaceRoot,
        adopt_foreign_origin: bool,
        decoded: Result<(GraphSnapshot, usize), String>,
    ) -> (r: Result<(Option<KnowledgeGraph>, bool), GraphStoreError>)
        ensures
            final(self).read_only == old(self).read_only,
            ({
                let before = old(self).tables.deep_view();
                let decision = load_decision(before, root.path(), adopt_foreign_origin);
                let clears = clears_on_load(before, root.path(), adopt_foreign_origin, decoded);
                match r {
                    Ok((graph, cleared)) => {
                        &&& !(decision is Refuse)
                        &&& cleared == clears
                        &&& graph is Some <==> decision is Decode && !clears
                        &&& graph is Some ==> holds_snapshot(graph->0, decoded)
                        &&& clears ==> !old(self).read_only && final(self).tables.deep_view()
                            == before.cleared()
                        &&& !clears ==> *final(self) == *old(self)
                    },
                    Err(e) => {
                        &&& *final(self) == *old(self)
                        &&& if decision is Refuse {
                            e.deep_view() == (StoreFailure::OriginAdoptRequired {
                                stored: before.origin_label(),
                                query: root.label(),
                            })
                        } else {
                            clears && old(self).read_only && e.deep_view()
                                == StoreFailure::ReadOnly
                        }
                    },
                }
            }),
    {
        match self.preview_index_load(root, adopt_foreign_origin, decoded) {
            Ok((graph, clears)) => {
                if clears {
                    match self.clear_graph_tables() {
                        Ok(()) => {},
                        Err(e) => {
                            return Err(e);
                        },
                    }
                }
                Ok((graph, clears))
            },
            Err(e) => Err(e),
        }
    }

    /// Clears the snapshot and its evidence, and stamps the current schema.
    pub fn clear_graph_tables(&mut self) -> (r: Result<(), GraphStoreError>)
        ensures
            final(self).read_only == old(self).read_only,
            match r {
                Ok(()) => !old(self).read_only && final(self).tables.deep_view() == old(
                    self,
                ).tables.deep_view().cleared(),
                Err(e) => old(self).read_only && e.deep_view() == StoreFailure::ReadOnly
                    && *final(self) == *old(self),
            },
    {
        if self.read_only {
            return Err(GraphStoreError::ReadOnly);
        }
        self.tables.snapshot = None;
        self.tables.missing_snapshot_table = None;
        self.tables.evidence = None;
        self.tables.schema_version = Some(SCHEMA_VERSION);
        Ok(())
    }

    /// Stamps the canonical path of `root` as the graph's origin.
    pub fn set_origin(&mut self, root: &WorkspaceRoot) -> (r: Result<(), GraphStoreError>)
        ensures
            final(self).read_only == old(self).read_only,
            r is Ok <==> root.canonical is Ok && !old(self).read_only,
            r is Ok ==> final(self).tables.deep_view() == old(self).tables.deep_view().with_origin(
                root.label(),
            ),
            r is Err ==> *final(self) == *old(self) && r->Err_0.deep_view() == match root.canonical {
                Err(error) => StoreFailure::Origin(
                    "cannot canonicalize workspace root `"@ + root.display@
                        + "` for origin stamp: "@ + error@,
                ),
                Ok(_) => StoreFailure::ReadOnly,
            },
    {
        match &root.canonical {
            Err(error) => {
                let mut text = prefixed(
                    "cannot canonicalize workspace root `",
                    root.display.as_str(),
                );
                text.append("` for origin stamp: ");
                text.append(error.as_str());
                Err(GraphStoreError::Origin(text))
            },
            Ok(path) => {
                if self.read_only {
                    return Err(GraphStoreError::ReadOnly);
                }
                self.tables.origin = Some(path.clone());
                Ok(())
            },
        }
    }

    /// Stamps the canonical path of `root` as the graph's origin.
    pub fn set_origin_sync(&mut self, root: &WorkspaceRoot) -> (r: Result<(), GraphStoreError>)
        ensures
            final(self).read_only == old(self).read_only,
            r is Ok <==> root.canonical is Ok && !old(self).read_only,
            r is Ok ==> final(self).tables.deep_view() == old(self).tables.deep_view().with_origin(
                root.label(),
            ),
            r is Err ==> *final(self) == *old(self) && r->Err_0.deep_view() == match root.canonical {
                Err(error) => StoreFailure::Origin(
                    "cannot canonicalize workspace root `"@ + root.display@
                        + "` for origin stamp: "@ + error@,
                ),
                Ok(_) => StoreFailure::ReadOnly,
            },
    {
        self.set_origin(root)
    }

    /// The stamped origin, if there is one.
    pub fn get_origin(&self) -> (r: Option<String>)
        ensures
            r.deep_view() == self.tables.deep_view().origin,
    {
        self.tables.origin.copy()
    }

    /// The stamp, if there is one. A partial or incomplete record is a fault.
    pub fn classified_by_stamp(&self) -> (r: Result<Option<ClassifiedBy>, GraphStoreError>)
        ensures
            match (r, self.tables.deep_view().stamp()) {
                (Ok(None), StampReading::Absent) => true,
                (Ok(Some(stamp)), StampReading::Present(model)) => stamp.deep_view() == model,
                (Err(e), StampReading::Fault(fault)) => e.deep_view() == fault,
                _ => false,
            },
    {
        match (
            &self.tables.build_identity,
            &self.tables.indexer_identity,
            &self.tables.prover_config,
            &self.tables.timestamp,
        ) {
            (None, None, None, None) => Ok(None),
            (Some(build), Some(indexer), Some(prover), Some(timestamp)) => {
                let stamp = ClassifiedBy {
                    build_identity: build.clone(),
                    indexer_identity: indexer.clone(),
                    prover_config: prover.clone(),
                    timestamp: timestamp.clone(),
                };
                match validate_classified_by(&stamp) {
                    Ok(()) => Ok(Some(stamp)),
                    Err(e) => Err(e),
                }
            },
            _ => Err(
                GraphStoreError::InvalidGenerationMetadata {
                    field: "classified_by",
                    reason: "record is only partially populated".to_owned(),
                },
            ),
        }
    }

    /// Writes an explicit stamp. It touches nothing but the stamp.
    pub fn set_classified_by_stamp(&mut self, stamp: &ClassifiedBy) -> (r: Result<
        (),
        GraphStoreError,
    >)
        ensures
            final(self).read_only == old(self).read_only,
            r is Ok <==> stamp.deep_view().complete() && !old(self).read_only,
            r is Ok ==> final(self).tables.deep_view() == old(self).tables.deep_view().with_stamp(
                stamp.deep_view(),
            ),
            r is Err ==> *final(self) == *old(self) && r->Err_0.deep_view()
                == if !stamp.deep_view().complete() {
                incomplete_stamp()
            } else {
                StoreFailure::ReadOnly
            },
    {
        match validate_classified_by(stamp) {
            Ok(()) => {},
            Err(e) => {
                return Err(e);
            },
        }
        if self.read_only {
            return Err(GraphStoreError::ReadOnly);
        }
        self.tables.build_identity = Some(stamp.build_identity.clone());
        self.tables.indexer_identity = Some(stamp.indexer_identity.clone());
        self.tables.prover_config = Some(stamp.prover_config.clone());
        self.tables.timestamp = Some(stamp.timestamp.clone());
        Ok(())
    }

    /// Stamps this build and the present time. The stamp depends on the clock only in
    /// its time.
    pub fn set_classified_by(&mut self) -> (r: Result<(), GraphStoreError>)
        ensures
            final(self).read_only == old(self).read_only,
            r is Ok <==> !old(self).read_only,
            r is Ok ==> exists|stamp: StampModel| #[trigger]
                classification::own_stamp(stamp) && final(self).tables.deep_view() == old(
                    self,
                ).tables.deep_view().with_stamp(stamp),
            r is Err ==> *final(self) == *old(self) && r->Err_0.deep_view()
                == StoreFailure::ReadOnly,
    {
        let stamp = ClassifiedBy::now();
        assert(classification::own_stamp(stamp.deep_view()));
        self.set_classified_by_stamp(&stamp)
    }

    /// Stamps this build and the present time.
    pub fn set_classified_by_sync(&mut self) -> (r: Result<(), GraphStoreError>)
        ensures
            final(self).read_only == old(self).read_only,
            r is Ok <==> !old(self).read_only,
            r is Ok ==> exists|stamp: StampModel| #[trigger]
                classification::own_stamp(stamp) && final(self).tables.deep_view() == old(
                    self,
                ).tables.deep_view().with_stamp(stamp),
            r is Err ==> *final(self) == *old(self) && r->Err_0.deep_view()
                == StoreFailure::ReadOnly,
    {
        self.set_classified_by()
    }

    /// The oracle's outcome, if it is recorded. Only 0 and 1 are canonical.
    pub fn oracle_ran_ok(&self) -> (r: Result<Option<bool>, GraphStoreError>)
        ensures
            match (r, self.tables.deep_view().oracle()) {
                (Ok(a), Ok(b)) => a == b,
                (Err(e), Err(fault)) => e.deep_view() == fault,
                _ => false,
            },
    {
        match self.tables.oracle_ran_ok {
            None => Ok(None),
            Some(value) => if value == 0 {
                Ok(Some(false))
            } else if value == 1 {
                Ok(Some(true))
            } else {
                let numeral = text::decimal(value);
                Err(
                    GraphStoreError::InvalidGenerationMetadata {
                        field: "oracle_ran_ok",
                        reason: prefixed("expected 0 or 1, found ", numeral.as_str()),
                    },
                )
            },
        }
    }

    /// Stamps every required interpretation input in one transaction.
    pub fn set_generation_metadata(&mut self, metadata: &GraphGenerationMetadata) -> (r: Result<
        (),
        GraphStoreError,
    >)
        ensures
            final(self).read_only == old(self).read_only,
            r is Ok <==> metadata.classified_by.deep_view().complete() && !old(self).read_only,
            r is Ok ==> final(self).tables.deep_view() == old(
                self,
            ).tables.deep_view().with_metadata(metadata.deep_view()),
            r is Err ==> *final(self) == *old(self) && r->Err_0.deep_view()
                == if !metadata.classified_by.deep_view().complete() {
                incomplete_stamp()
            } else {
                StoreFailure::ReadOnly
            },
    {
        match self.set_classified_by_stamp(&metadata.classified_by) {
            Ok(()) => {},
            Err(e) => {
                return Err(e);
            },
        }
        self.tables.oracle_ran_ok = Some(
            if metadata.oracle_ran_ok {
                1
            } else {
                0
            },
        );
        Ok(())
    }

    /// Stamps every required interpretation input in one transaction.
    pub fn set_generation_metadata_sync(
        &mut self,
        metadata: &GraphGenerationMetadata,
    ) -> (r: Result<(), GraphStoreError>)
        ensures
            final(self).read_only == old(self).read_only,
            r is Ok <==> metadata.classified_by.deep_view().complete() && !old(self).read_only,
            r is Ok ==> final(self).tables.deep_view() == old(
                self,
            ).tables.deep_view().with_metadata(metadata.deep_view()),
            r is Err ==> *final(self) == *old(self) && r->Err_0.deep_view()
                == if !metadata.classified_by.deep_view().complete() {
                incomplete_stamp()
            } else {
                StoreFailure::ReadOnly
            },
    {
        self.set_generation_metadata(metadata)
    }

    /// The complete metadata record, or what keeps it from being complete.
    pub fn generation_metadata(&self) -> (r: Result<GraphGenerationMetadata, GraphStoreError>)
        ensures
            match (r, self.tables.deep_view().metadata()) {
                (Ok(metadata), Ok(model)) => metadata.deep_view() == model,
                (Err(e), Err(fault)) => e.deep_view() == fault,
                _ => false,
            },
    {
        let classified_by = match self.classified_by_stamp() {
            Err(e) => {
                return Err(e);
            },
            Ok(None) => {
                return Err(
                    GraphStoreError::MissingGenerationMetadata { field: "classified_by" },
                );
            },
            Ok(Some(stamp)) => stamp,
        };
        let oracle_ran_ok = match self.oracle_ran_ok() {
            Err(e) => {
                return Err(e);
            },
            Ok(None) => {
                return Err(
                    GraphStoreError::MissingGenerationMetadata { field: "oracle_ran_ok" },
                );
            },
            Ok(Some(ok)) => ok,
        };
        Ok(GraphGenerationMetadata { classified_by, oracle_ran_ok })
    }

    /// Reads the raw values of a publication and proves what they are. With an
    /// expected proof, only the generation that it was made for is accepted.
    pub fn read_raw_publication_content_sync(
        &self,
        root: &WorkspaceRoot,
        expected: Option<&GraphPublicationProof>,
    ) -> (r: Result<RawGraphPublicationContent, GraphStoreError>)
        ensures
            match r {
                Ok(raw) => {
                    let tables = self.tables.deep_view();
                    &&& publication_fault(tables, *root, expected.deep_view()) is None
                    &&& tables.snapshot == Some(raw.snapshot@)
                    &&& raw.evidence.deep_view() == tables.evidence
                    &&& raw.origin@ == root.label()
                    &&& tables.metadata() == Ok::<(StampModel, bool), StoreFailure>(
                        raw.generation_metadata.deep_view(),
                    )
                    &&& raw.proof.deep_view() == proof_of(
                        raw.snapshot@,
                        tables.evidence,
                        root.label(),
                        raw.generation_metadata.deep_view(),
                    )
                },
                Err(e) => publication_fault(
                    self.tables.deep_view(),
                    *root,
                    expected.deep_view(),
                ) == Some(e.deep_view()),
            },
    {
        let canonical = match root.publication_path() {
            Ok(path) => path,
            Err(e) => {
                return Err(e);
            },
        };
        if let Some(proof) = expected {
            if proof.schema_version != SCHEMA_VERSION {
                return Err(foreign_schema(proof.schema_version));
            }
        }
        if self.version_mismatch_sync().0 {
            return Err(
                GraphStoreError::Origin(
                    "publication graph snapshot uses an incompatible schema".to_owned(),
                ),
            );
        }
        if !self.origin_matches(root) {
            return Err(
                GraphStoreError::OriginMismatch { stored: self.origin_label(), query: canonical },
            );
        }
        if let Some(proof) = expected {
            if !proof.origin.same(&canonical) {
                return Err(
                    GraphStoreError::OriginMismatch {
                        stored: proof.origin.clone(),
                        query: canonical,
                    },
                );
            }
        }
        let generation_metadata = match self.generation_metadata() {
            Ok(metadata) => metadata,
            Err(e) => {
                return Err(e);
            },
        };
        if let Some(proof) = expected {
            if !proof.generation_metadata.same(&generation_metadata) {
                return Err(
                    GraphStoreError::InvalidGenerationMetadata {
                        field: "publication_proof",
                        reason:
                            "persisted generation metadata differs from the immutable manifest".to_owned(),
                    },
                );
            }
        }
        let snapshot = match &self.tables.snapshot {
            None => {
                return Err(
                    match &self.tables.missing_snapshot_table {
                        Some(complaint) => GraphStoreError::Redb(complaint.clone()),
                        None => GraphStoreError::InvalidSnapshot(
                            "publication database has no graph snapshot".to_owned(),
                        ),
                    },
                );
            },
            Some(bytes) => {
                assert(bytes.deep_view() =~= bytes@);
                copy_bytes(bytes)
            },
        };
        let graph_blake3 = digest::blake3_hash(snapshot.as_slice());
        let graph_bytes = snapshot.len();
        let evidence = copy_optional_bytes(&self.tables.evidence);
        let evidence_blake3 = optional_hash(&evidence);
        let evidence_bytes = optional_size(&evidence);
        if let Some(proof) = expected {
            if !digest::same_digest(&graph_blake3, &proof.graph_blake3) || graph_bytes
                != proof.graph_bytes {
                return Err(
                    GraphStoreError::InvalidSnapshot(
                        "opened graph bytes differ from the immutable manifest content proof".to_owned(),
                    ),
                );
            }
            if !same_optional_digest(&evidence_blake3, &proof.evidence_blake3) || evidence_bytes
                != proof.evidence_bytes {
                return Err(
                    GraphStoreError::ReachabilityEvidence(
                        "opened reachability bytes differ from the immutable manifest content proof".to_owned(),
                    ),
                );
            }
        }
        let proof = GraphPublicationProof {
            schema_version: SCHEMA_VERSION,
            graph_blake3,
            evidence_blake3,
            graph_bytes,
            evidence_bytes,
            origin: canonical.clone(),
            generation_metadata: generation_metadata.copy(),
        };
        Ok(
            RawGraphPublicationContent {
                snapshot,
                evidence,
                origin: canonical,
                generation_metadata,
                proof,
            },
        )
    }

    /// Whether the store holds exactly the generation that the proof was made for.
    pub fn validate_publication_proof_sync(
        &self,
        root: &WorkspaceRoot,
        proof: &GraphPublicationProof,
    ) -> (r: Result<(), GraphStoreError>)
        ensures
            match r {
                Ok(()) => publication_fault(
                    self.tables.deep_view(),
                    *root,
                    Some(proof.deep_view()),
                ) is None,
                Err(e) => publication_fault(
                    self.tables.deep_view(),
                    *root,
                    Some(proof.deep_view()),
                ) == Some(e.deep_view()),
            },
    {
        match self.read_raw_publication_content_sync(root, Some(proof)) {
            Ok(_) => Ok(()),
            Err(e) => Err(e),
        }
    }

    /// The proof of what the store holds.
    pub fn capture_publication_proof_sync(&self, root: &WorkspaceRoot) -> (r: Result<
        GraphPublicationProof,
        GraphStoreError,
    >)
        ensures
            match r {
                Ok(proof) => {
                    let tables = self.tables.deep_view();
                    &&& publication_fault(tables, *root, None) is None
                    &&& proof.deep_view() == proof_of(
                        tables.snapshot->0,
                        tables.evidence,
                        root.label(),
                        tables.metadata()->Ok_0,
                    )
                },
                Err(e) => publication_fault(self.tables.deep_view(), *root, None) == Some(
                    e.deep_view(),
                ),
            },
    {
        match self.read_raw_publication_content_sync(root, None) {
            Ok(raw) => Ok(raw.proof),
            Err(e) => Err(e),
        }
    }

    /// Decodes a publication. The graph must rebuild; evidence that may not be used is
    /// reported beside the graph and does not take the graph away.
    pub fn decode_publication_content<E>(
        raw: RawGraphPublicationContent,
        decoded: Result<(GraphSnapshot, usize), String>,
        reading: Option<EvidenceReading<E>>,
    ) -> (r: Result<ValidatedGraphContent<E>, GraphStoreError>)
        requires
            raw.evidence is Some <==> reading is Some,
        ensures
            match r {
                Ok(content) => {
                    &&& graph_snapshot::decode_fault(raw.snapshot@.len(), decoded) is None
                    &&& holds_snapshot(content.graph, decoded)
                    &&& content.origin == raw.origin
                    &&& content.generation_metadata == raw.generation_metadata
                    &&& match content.reachability_evidence {
                        Ok(None) => raw.evidence is None,
                        Ok(Some(evidence)) => raw.evidence is Some && evidence_fault(
                            raw.evidence->0@,
                            reading->0,
                        ) is None && (reading->0 matches EvidenceReading::Parsed { joined, .. }
                            && joined == Ok::<E, String>(evidence)),
                        Err(e) => raw.evidence is Some && evidence_fault(
                            raw.evidence->0@,
                            reading->0,
                        ) == Some(e.deep_view()),
                    }
                },
                Err(e) => graph_snapshot::decode_fault(raw.snapshot@.len(), decoded) is Some
                    && e.deep_view() == StoreFailure::InvalidSnapshot(
                    graph_snapshot::decode_fault(raw.snapshot@.len(), decoded)->0,
                ),
            },
    {
        let graph = match Self::decode_snapshot(raw.snapshot.len(), decoded) {
            Ok(graph) => graph,
            Err(e) => {
                return Err(e);
            },
        };
        let reachability_evidence: Result<Option<E>, GraphStoreError> = match (
            &raw.evidence,
            reading,
        ) {
            (Some(bytes), Some(reading)) => match admit_evidence(bytes, reading) {
                Ok(evidence) => Ok(Some(evidence)),
                Err(e) => Err(e),
            },
            _ => Ok(None),
        };
        Ok(
            ValidatedGraphContent {
                graph,
                reachability_evidence,
                origin: raw.origin,
                generation_metadata: raw.generation_metadata,
            },
        )
    }

    /// The graph that the store publishes for `root`, fully decoded.
    pub fn validate_publication_snapshot_sync(
        &self,
        root: &WorkspaceRoot,
        decoded: Result<(GraphSnapshot, usize), String>,
    ) -> (r: Result<KnowledgeGraph, GraphStoreError>)
        ensures
            ({
                let tables = self.tables.deep_view();
                let fault = publication_fault(tables, *root, None);
                match r {
                    Ok(graph) => {
                        &&& fault is None
                        &&& graph_snapshot::decode_fault(tables.snapshot->0.len(), decoded) is None
                        &&& holds_snapshot(graph, decoded)
                    },
                    Err(e) => if fault is Some {
                        fault == Some(e.deep_view())
                    } else {
                        graph_snapshot::decode_fault(tables.snapshot->0.len(), decoded) is Some
                            && e.deep_view() == StoreFailure::InvalidSnapshot(
                            graph_snapshot::decode_fault(tables.snapshot->0.len(), decoded)->0,
                        )
                    },
                }
            }),
    {
        match self.read_raw_publication_content_sync(root, None) {
            Ok(raw) => Self::decode_snapshot(raw.snapshot.len(), decoded),
            Err(e) => Err(e),
        }
    }
}

/// A read can serve the persisted graph: it is of the current schema and decodes.
pub open spec fn servable(
    tables: TablesModel,
    decoded: Result<(GraphSnapshot, usize), String>,
) -> bool {
    &&& !tables.stale()
    &&& tables.snapshot is Some
    &&& graph_snapshot::decode_fault(tables.snapshot->0.len(), decoded) is None
}

/// The encoded evidence of a save that got as far as encoding it.
pub open spec fn encoded_evidence(
    evidence: Option<(Result<(), String>, Result<Vec<u8>, String>)>,
) -> Option<Seq<u8>> {
    match evidence {
        Some((_, Ok(bytes))) => Some(bytes@),
        _ => None,
    }
}

/// Why a save is refused, if it is: evidence that does not match the graph, an
/// encoding that failed, or a database that may not be written.
pub open spec fn save_fault(
    read_only: bool,
    evidence: Option<(Result<(), String>, Result<Vec<u8>, String>)>,
    encoded: Result<Vec<u8>, String>,
) -> Option<StoreFailure> {
    match (evidence, encoded) {
        (Some((Err(error), _)), _) => Some(StoreFailure::ReachabilityEvidence(error@)),
        (_, Err(error)) => Some(StoreFailure::Serialization(error@)),
        (Some((Ok(_), Err(error))), Ok(_)) => Some(StoreFailure::Serialization(error@)),
        _ => if read_only {
            Some(StoreFailure::ReadOnly)
        } else {
            None
        },
    }
}

/// Saving a graph without evidence drops the evidence of any earlier graph, and
/// leaves the origin, the stamp and the oracle's outcome as they were.
pub proof fn law_graph_only_save_drops_evidence(tables: TablesModel, graph: Seq<u8>)
    ensures
        tables.with_snapshot(graph, None).evidence is None,
        tables.with_snapshot(graph, None).origin == tables.origin,
        tables.with_snapshot(graph, None).stamp() == tables.stamp(),
        tables.with_snapshot(graph, None).oracle() == tables.oracle(),
        !tables.with_snapshot(graph, None).stale(),
{
}

/// Clearing takes the snapshot and its evidence only. A cleared store is empty, not
/// stale, whatever workspace asks.
pub proof fn law_clear_is_confined_to_the_graph(
    tables: TablesModel,
    root: Option<Seq<char>>,
    adopt: bool,
)
    ensures
        tables.cleared().origin == tables.origin,
        tables.cleared().stamp() == tables.stamp(),
        tables.cleared().oracle() == tables.oracle(),
        load_decision(tables.cleared(), root, adopt) is Empty,
{
}

/// A schema-stale graph is cleared for a rebuild before anyone asks whose it is.
pub proof fn law_schema_precedes_origin(
    tables: TablesModel,
    root: Option<Seq<char>>,
    adopt: bool,
)
    requires
        tables.stale(),
    ensures
        load_decision(tables, root, adopt) is Clear,
{
}

/// A present graph of another workspace is never cleared without leave.
pub proof fn law_foreign_graph_is_kept_without_leave(
    tables: TablesModel,
    root: Option<Seq<char>>,
)
    requires
        !tables.stale(),
        tables.snapshot is Some,
        tables.origin is None || tables.origin != root,
    ensures
        load_decision(tables, root, false) is Refuse,
        load_decision(tables, root, true) is Clear,
{
}

/// An empty store is never refused and never cleared.
pub proof fn law_empty_store_loads_nothing(
    tables: TablesModel,
    root: Option<Seq<char>>,
    adopt: bool,
)
    requires
        tables.snapshot is None,
    ensures
        load_decision(tables, root, adopt) is Empty,
{
}

/// A graph that was saved and stamped with a workspace is decoded for that workspace.
pub proof fn law_saved_graph_is_served_to_its_workspace(
    tables: TablesModel,
    graph: Seq<u8>,
    evidence: Option<Seq<u8>>,
    origin: Seq<char>,
    adopt: bool,
)
    ensures
        load_decision(
            tables.with_snapshot(graph, evidence).with_origin(origin),
            Some(origin),
            adopt,
        ) is Decode,
{
}

/// A stale graph serves no reader, the next indexing run clears it, the cleared store
/// loads nothing, and what that run saves and stamps is decoded for its workspace.
pub proof fn law_stale_graph_recovers(
    tables: TablesModel,
    decoded: Result<(GraphSnapshot, usize), String>,
    root: Option<Seq<char>>,
    adopt: bool,
    graph: Seq<u8>,
    evidence: Option<Seq<u8>>,
    origin: Seq<char>,
)
    requires
        tables.stale(),
    ensures
        !servable(tables, decoded),
        load_decision(tables, root, adopt) is Clear,
        load_decision(tables.cleared(), root, adopt) is Empty,
        load_decision(
            tables.cleared().with_snapshot(graph, evidence).with_origin(origin),
            Some(origin),
            adopt,
        ) is Decode,
{
}

/// What was stamped is read back.
pub proof fn law_stamp_reads_back(tables: TablesModel, stamp: StampModel)
    requires
        stamp.complete(),
    ensures
        tables.with_stamp(stamp).stamp() == StampReading::Present(stamp),
        tables.with_stamp(stamp).snapshot == tables.snapshot,
        tables.with_stamp(stamp).evidence == tables.evidence,
        tables.with_stamp(stamp).origin == tables.origin,
        tables.with_stamp(stamp).schema_version == tables.schema_version,
{
}

/// The metadata that was recorded is read back.
pub proof fn law_metadata_reads_back(tables: TablesModel, metadata: (StampModel, bool))
    requires
        metadata.0.complete(),
    ensures
        tables.with_metadata(metadata).metadata() == Ok::<(StampModel, bool), StoreFailure>(
            metadata,
        ),
{
}

/// The tables of a generation that was saved, stamped with its workspace and given
/// its metadata.
pub open spec fn published(
    tables: TablesModel,
    graph: Seq<u8>,
    evidence: Option<Seq<u8>>,
    origin: Seq<char>,
    metadata: (StampModel, bool),
) -> TablesModel {
    tables.with_snapshot(graph, evidence).with_origin(origin).with_metadata(metadata)
}

/// The proof of a generation accepts exactly that generation, opened from its own
/// workspace.
pub proof fn law_proof_accepts_its_generation(
    tables: TablesModel,
    graph: Seq<u8>,
    evidence: Option<Seq<u8>>,
    metadata: (StampModel, bool),
    root: WorkspaceRoot,
)
    requires
        metadata.0.complete(),
        root.canonical is Ok,
    ensures
        publication_fault(
            published(tables, graph, evidence, root.label(), metadata),
            root,
            Some(proof_of(graph, evidence, root.label(), metadata)),
        ) is None,
{
    law_metadata_reads_back(
        tables.with_snapshot(graph, evidence).with_origin(root.label()),
        metadata,
    );
}

/// Whatever a proof accepts has the proved digests and lengths, origin, metadata and
/// schema.
pub proof fn law_proof_accepts_nothing_else(
    tables: TablesModel,
    root: WorkspaceRoot,
    expected: ProofModel,
)
    requires
        publication_fault(tables, root, Some(expected)) is None,
    ensures
        tables.snapshot is Some,
        digest::blake3_of(tables.snapshot->0) == expected.graph,
        tables.snapshot->0.len() == expected.graph_bytes,
        optional_digest(tables.evidence) == expected.evidence,
        optional_len(tables.evidence) == expected.evidence_bytes,
        tables.origin == Some(expected.origin),
        tables.metadata() == Ok::<(StampModel, bool), StoreFailure>(expected.metadata),
        tables.schema_version == Some(SCHEMA_VERSION),
        expected.schema_version == SCHEMA_VERSION,
        proof_of(tables.snapshot->0, tables.evidence, root.label(), expected.metadata) == expected,
{
}

/// What loading for indexing does, case by case. Where nothing is persisted there is nothing to
/// do. A graph of another schema is cleared. A graph of this schema is decoded exactly if its
/// stamped origin is the asking workspace; else it is cleared where that is allowed, and
/// refused where not.
pub proof fn law_load_decision_is_exact(
    tables: TablesModel,
    root: Option<Seq<char>>,
    adopt_foreign_origin: bool,
)
    ensures
        ({
            let decision = load_decision(tables, root, adopt_foreign_origin);
            let present = tables.snapshot is Some;
            let current = tables.schema_version == Some(12u64);
            let own = tables.origin is Some && root is Some && tables.origin->0 == root->0;
            &&& decision is Empty <==> !present
            &&& decision is Clear <==> present && (!current || (!own && adopt_foreign_origin))
            &&& decision is Refuse <==> present && current && !own && !adopt_foreign_origin
            &&& decision is Decode <==> present && current && own
        }),
{
}

/// Loading for indexing clears exactly a graph that is there and of another schema, or of
/// another workspace where that is allowed, or of this workspace and does not decode.
pub proof fn law_clearing_is_exact(
    tables: TablesModel,
    root: Option<Seq<char>>,
    adopt_foreign_origin: bool,
    decoded: Result<(GraphSnapshot, usize), String>,
)
    ensures
        clears_on_load(tables, root, adopt_foreign_origin, decoded) <==> tables.snapshot is Some && {
            let current = tables.schema_version == Some(12u64);
            let own = tables.origin is Some && root is Some && tables.origin->0 == root->0;
            ||| !current
            ||| !own && adopt_foreign_origin
            ||| own && graph_snapshot::decode_fault(tables.snapshot->0.len(), decoded) is Some
        },
{
}

/// A read serves exactly a graph that is there, of this schema, and decodes.
pub proof fn law_served_graph_is_current(
    tables: TablesModel,
    decoded: Result<(GraphSnapshot, usize), String>,
)
    ensures
        servable(tables, decoded) <==> tables.snapshot is Some && tables.schema_version == Some(
            12u64,
        ) && graph_snapshot::decode_fault(tables.snapshot->0.len(), decoded) is None,
{
}

/// Every write touches what it is for, and nothing else. A snapshot is stored with its evidence
/// under the current schema; an origin, a stamp and the metadata are each stored as they are.
pub proof fn law_writes_are_confined(
    tables: TablesModel,
    graph: Seq<u8>,
    evidence: Option<Seq<u8>>,
    origin: Seq<char>,
    stamp: StampModel,
    oracle: bool,
)
    ensures
        ({
            let saved = tables.with_snapshot(graph, evidence);
            &&& saved.snapshot == Some(graph) && saved.evidence == evidence && saved.schema_version
                == Some(12u64) && saved.missing_snapshot_table is None
            &&& saved.origin == tables.origin && saved.oracle_ran_ok == tables.oracle_ran_ok
                && saved.build == tables.build && saved.indexer == tables.indexer && saved.prover
                == tables.prover && saved.timestamp == tables.timestamp
        }),
        ({
            let cleared = tables.cleared();
            &&& cleared.snapshot is None && cleared.evidence is None && cleared.schema_version
                == Some(12u64)
            &&& cleared.origin == tables.origin && cleared.oracle_ran_ok == tables.oracle_ran_ok
                && cleared.build == tables.build && cleared.indexer == tables.indexer
                && cleared.prover == tables.prover && cleared.timestamp == tables.timestamp
        }),
        tables.with_origin(origin) == (TablesModel { origin: Some(origin), ..tables }),
        tables.with_stamp(stamp) == (TablesModel {
            build: Some(stamp.build),
            indexer: Some(stamp.indexer),
            prover: Some(stamp.prover),
            timestamp: Some(stamp.timestamp),
            ..tables
        }),
        tables.with_metadata((stamp, oracle)) == (TablesModel {
            oracle_ran_ok: Some(
                if oracle {
                    1u64
                } else {
                    0u64
                },
            ),
            ..tables.with_stamp(stamp)
        }),
{
}

/// A stamp reads as absent only where no part of it is stored, and as present only where all of
/// it is stored and complete; everything between is a fault. The oracle's outcome is one of two
/// numbers, and every other number is a fault. Metadata needs both.
pub proof fn law_stored_metadata_is_whole_or_refused(tables: TablesModel)
    ensures
        ({
            let none = tables.build is None && tables.indexer is None && tables.prover is None
                && tables.timestamp is None;
            let all = tables.build is Some && tables.indexer is Some && tables.prover is Some
                && tables.timestamp is Some;
            let stamp = StampModel {
                build: tables.build->0,
                indexer: tables.indexer->0,
                prover: tables.prover->0,
                timestamp: tables.timestamp->0,
            };
            &&& tables.stamp() is Absent <==> none
            &&& tables.stamp() is Present <==> all && stamp.complete()
            &&& tables.stamp() is Present ==> tables.stamp()->Present_0 == stamp
            &&& tables.oracle() == Ok::<Option<bool>, StoreFailure>(None)
                <==> tables.oracle_ran_ok is None
            &&& tables.oracle() == Ok::<Option<bool>, StoreFailure>(Some(false))
                <==> tables.oracle_ran_ok == Some(0u64)
            &&& tables.oracle() == Ok::<Option<bool>, StoreFailure>(Some(true))
                <==> tables.oracle_ran_ok == Some(1u64)
            &&& tables.metadata() is Ok <==> all && stamp.complete() && (tables.oracle_ran_ok
                == Some(0u64) || tables.oracle_ran_ok == Some(1u64))
            &&& tables.metadata() is Ok ==> tables.metadata()->Ok_0 == (
                stamp,
                tables.oracle_ran_ok == Some(1u64),
            )
        }),
{
}

/// A publication is accepted exactly if its root has a canonical path that is the stamped
/// origin, its snapshot is there and of this schema, its metadata is whole, and, where a proof
/// is expected, the proof is of this schema and names this origin, this metadata, and the
/// digests and lengths of exactly these bytes.
pub proof fn law_publication_is_accepted_exactly(
    tables: TablesModel,
    root: WorkspaceRoot,
    expected: Option<ProofModel>,
)
    ensures
        publication_fault(tables, root, expected) is None <==> {
            &&& root.canonical is Ok
            &&& tables.origin is Some && tables.origin->0 == root.canonical->Ok_0@
            &&& tables.snapshot is Some
            &&& tables.schema_version == Some(12u64)
            &&& tables.metadata() is Ok
            &&& expected is Some ==> {
                let proof = expected->0;
                &&& proof.schema_version == 12
                &&& proof.origin == root.canonical->Ok_0@
                &&& proof.metadata == tables.metadata()->Ok_0
                &&& proof.graph == digest::blake3_of(tables.snapshot->0)
                &&& proof.graph_bytes == tables.snapshot->0.len()
                &&& tables.evidence is None ==> proof.evidence is None && proof.evidence_bytes == 0
                &&& tables.evidence is Some ==> proof.evidence == Some(
                    digest::blake3_of(tables.evidence->0),
                ) && proof.evidence_bytes == tables.evidence->0.len()
            }
        },
{
}

/// Stored evidence may be used exactly if it parses, is encoded canonically, and joins the
/// graph.
pub proof fn law_evidence_is_used_exactly<E>(bytes: Seq<u8>, reading: EvidenceReading<E>)
    ensures
        evidence_fault(bytes, reading) is None <==> reading is Parsed && reading->canonical@ == bytes
            && reading->joined is Ok,
{
}

/// A save goes through exactly if the store may be written, the graph was encoded, and its
/// evidence, where it has some, was validated and encoded.
pub proof fn law_save_goes_through_exactly(
    read_only: bool,
    validated: Result<(), String>,
    stored: Result<Vec<u8>, String>,
    encoded: Result<Vec<u8>, String>,
)
    ensures
        save_fault(read_only, None, encoded) is None <==> !read_only && encoded is Ok,
        save_fault(read_only, Some((validated, stored)), encoded) is None <==> !read_only
            && encoded is Ok && validated is Ok && stored is Ok,
        encoded_evidence(None) is None,
        validated is Ok && stored is Ok ==> encoded_evidence(Some((validated, stored))) == Some(
            stored->Ok_0@,
        ),
        !read_only && validated is Err ==> save_fault(
            read_only,
            Some((validated, stored)),
            encoded,
        ) == Some(StoreFailure::ReachabilityEvidence(validated->Err_0@)),
{
}

/// What a save reports of the pair that it wrote is what the pair's publication is held to: with
/// those digests and lengths in the proof, the store accepts the publication.
pub proof fn law_saved_pair_is_accepted(
    tables: TablesModel,
    written: GraphSnapshotWriteTelemetry,
    graph: Seq<u8>,
    evidence: Option<Seq<u8>>,
    root: WorkspaceRoot,
)
    requires
        written.covers(graph, evidence),
        root.canonical is Ok,
        tables.origin == Some(root.canonical->Ok_0@),
        tables.metadata() is Ok,
    ensures
        publication_fault(
            tables.with_snapshot(graph, evidence),
            root,
            Some(
                ProofModel {
                    schema_version: 12,
                    graph: written.graph_blake3@,
                    evidence: digest_view(written.evidence_blake3),
                    graph_bytes: written.graph_bytes as nat,
                    evidence_bytes: written.evidence_bytes as nat,
                    origin: root.canonical->Ok_0@,
                    metadata: tables.metadata()->Ok_0,
                },
            ),
        ) is None,
{
}

} // verus!
