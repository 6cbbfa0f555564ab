//! What a run says of itself: the notes of its profile and its progress events.

use vstd::prelude::*;

use crate::duration;
use crate::duration::Duration;
use crate::graph_store::GraphSnapshotWriteTelemetry;
use crate::index_timing;
use crate::index_timing::{
    EventModel, IndexProgressEvent, IndexProgressPhase, IndexProgressState, PhaseModel,
    ProfileCollector,
};
use crate::text;
use crate::text::decimal;
use crate::values;

verus! {

/// A finished step of a run, with its counts.
#[derive(Debug, Clone, Copy, PartialEq, Eq, Structural)]
pub enum PhaseNote {
    /// The sources were found.
    Discovery { files: u64 },
    /// The sources were measured.
    ChangeDetect { checked: u64, changed: u64 },
    /// The changed sources were extracted.
    Extraction { symbols: u64, files: u64 },
    /// The graph was built.
    GraphBuild { nodes: u64, edges: u64, skipped: u64, external: u64, traits: u64 },
    /// The project was inventoried.
    ProjectInventory { sources: u64, units: u64, inputs: u64 },
    /// The semantic providers are done.
    SemanticProviders { steps: u64 },
    /// The source state was replaced.
    StateUpdate { files: u64, facts: u64 },
    /// The dependency edges were added.
    DependencyEdges { edges: u64 },
    /// Every node was classified.
    Classified { nodes: u64 },
    /// No one owns reachability here.
    Unclassified { nodes: u64 },
    EnrichmentEnabled,
    EnrichmentDisabled,
    /// The metadata was stored.
    Metadata { files: u64, symbols: u64, edges: u64 },
    EvidenceValidated,
    NoEvidenceValidated,
    /// The snapshot was made.
    GraphMaterialize { nodes: u64, edges: u64 },
    /// The snapshot was encoded.
    GraphEncode { graph_bytes: u64, evidence_bytes: u64 },
    /// The snapshot was hashed.
    GraphProof { bytes: u64 },
    GraphDatabaseWrite,
    GraphMetadataWrites,
    GraphNotPersisted,
    /// The evidence was built.
    Evidence { receipts: u64, payloads: u64 },
}

impl PhaseNote {
    pub open spec fn name_spec(self) -> Seq<char> {
        match self {
            PhaseNote::Discovery { .. } => "discovery"@,
            PhaseNote::ChangeDetect { .. } => "change detect"@,
            PhaseNote::Extraction { .. } => "extraction"@,
            PhaseNote::GraphBuild { .. } => "graph build"@,
            PhaseNote::ProjectInventory { .. } => "project inventory"@,
            PhaseNote::SemanticProviders { .. } => "semantic providers"@,
            PhaseNote::StateUpdate { .. } => "state update"@,
            PhaseNote::DependencyEdges { .. } => "dependency edges"@,
            PhaseNote::Classified { .. } => "reachability"@,
            PhaseNote::Unclassified { .. } => "reachability"@,
            PhaseNote::EnrichmentEnabled => "enrichment"@,
            PhaseNote::EnrichmentDisabled => "enrichment"@,
            PhaseNote::Metadata { .. } => "metadata"@,
            PhaseNote::EvidenceValidated => "graph validation"@,
            PhaseNote::NoEvidenceValidated => "graph validation"@,
            PhaseNote::GraphMaterialize { .. } => "graph materialize"@,
            PhaseNote::GraphEncode { .. } => "graph encode"@,
            PhaseNote::GraphProof { .. } => "graph proof"@,
            PhaseNote::GraphDatabaseWrite => "graph database write"@,
            PhaseNote::GraphMetadataWrites => "graph metadata writes"@,
            PhaseNote::GraphNotPersisted => "graph persist"@,
            PhaseNote::Evidence { .. } => "evidence"@,
        }
    }

    /// The name of the step.
    pub fn name(self) -> (r: &'static str)
        ensures
            r@ == self.name_spec(),
    {
        match self {
            PhaseNote::Discovery { .. } => "discovery",
            PhaseNote::ChangeDetect { .. } => "change detect",
            PhaseNote::Extraction { .. } => "extraction",
            PhaseNote::GraphBuild { .. } => "graph build",
            PhaseNote::ProjectInventory { .. } => "project inventory",
            PhaseNote::SemanticProviders { .. } => "semantic providers",
            PhaseNote::StateUpdate { .. } => "state update",
            PhaseNote::DependencyEdges { .. } => "dependency edges",
            PhaseNote::Classified { .. } => "reachability",
            PhaseNote::Unclassified { .. } => "reachability",
            PhaseNote::EnrichmentEnabled => "enrichment",
            PhaseNote::EnrichmentDisabled => "enrichment",
            PhaseNote::Metadata { .. } => "metadata",
            PhaseNote::EvidenceValidated => "graph validation",
            PhaseNote::NoEvidenceValidated => "graph validation",
            PhaseNote::GraphMaterialize { .. } => "graph materialize",
            PhaseNote::GraphEncode { .. } => "graph encode",
            PhaseNote::GraphProof { .. } => "graph proof",
            PhaseNote::GraphDatabaseWrite => "graph database write",
            PhaseNote::GraphMetadataWrites => "graph metadata writes",
            PhaseNote::GraphNotPersisted => "graph persist",
            PhaseNote::Evidence { .. } => "evidence",
        }
    }

    pub open spec fn number_spec(self) -> u8 {
        match self {
            PhaseNote::Discovery { .. } => 1,
            PhaseNote::ChangeDetect { .. } => 2,
            PhaseNote::Extraction { .. } => 3,
            PhaseNote::GraphBuild { .. } => 4,
            PhaseNote::ProjectInventory { .. } => 7,
            PhaseNote::SemanticProviders { .. } => 7,
            _ => 8,
        }
    }

    /// The number of the phase that the step belongs to.
    pub fn number(self) -> (r: u8)
        ensures
            r == self.number_spec(),
    {
        match self {
            PhaseNote::Discovery { .. } => 1,
            PhaseNote::ChangeDetect { .. } => 2,
            PhaseNote::Extraction { .. } => 3,
            PhaseNote::GraphBuild { .. } => 4,
            PhaseNote::ProjectInventory { .. } => 7,
            PhaseNote::SemanticProviders { .. } => 7,
            _ => 8,
        }
    }

    pub open spec fn detail_spec(self) -> Seq<char> {
        match self {
            PhaseNote::Discovery { files } => text::dec(files as nat) + " files"@,
            PhaseNote::ChangeDetect { checked, changed } => text::dec(checked as nat) + " checked, "@ + text::dec(changed as nat) + " changed"@,
            PhaseNote::Extraction { symbols, files } => text::dec(symbols as nat) + " symbols from "@ + text::dec(files as nat) + " files"@,
            PhaseNote::GraphBuild { nodes, edges, skipped, external, traits } => text::dec(nodes as nat) + " nodes, "@ + text::dec(edges as nat) + " edges, "@ + text::dec(skipped as nat) + " skipped (external relation: "@ + text::dec(external as nat) + "), "@ + text::dec(traits as nat) + " ext-traits synth"@,
            PhaseNote::ProjectInventory { sources, units, inputs } => text::dec(sources as nat) + " sources, "@ + text::dec(units as nat) + " units, "@ + text::dec(inputs as nat) + " inputs"@,
            PhaseNote::SemanticProviders { steps } => text::dec(steps as nat) + " provider/normalization steps"@,
            PhaseNote::StateUpdate { files, facts } => text::dec(files as nat) + " files, "@ + text::dec(facts as nat) + " document fact sets"@,
            PhaseNote::DependencyEdges { edges } => text::dec(edges as nat) + " graph edges after dependency resolution"@,
            PhaseNote::Classified { nodes } => text::dec(nodes as nat) + " nodes classified"@,
            PhaseNote::Unclassified { nodes } => text::dec(nodes as nat) + " nodes structurally indexed; no reachability owner"@,
            PhaseNote::EnrichmentEnabled => "enabled"@,
            PhaseNote::EnrichmentDisabled => "disabled"@,
            PhaseNote::Metadata { files, symbols, edges } => text::dec(files as nat) + " files, "@ + text::dec(symbols as nat) + " symbols, "@ + text::dec(edges as nat) + " edges"@,
            PhaseNote::EvidenceValidated => "reachability evidence"@,
            PhaseNote::NoEvidenceValidated => "no reachability evidence"@,
            PhaseNote::GraphMaterialize { nodes, edges } => text::dec(nodes as nat) + " nodes, "@ + text::dec(edges as nat) + " edges"@,
            PhaseNote::GraphEncode { graph_bytes, evidence_bytes } => text::dec(graph_bytes as nat) + " graph bytes, "@ + text::dec(evidence_bytes as nat) + " evidence bytes"@,
            PhaseNote::GraphProof { bytes } => text::dec(bytes as nat) + " graph/evidence bytes"@,
            PhaseNote::GraphDatabaseWrite => "snapshot, optional evidence, and schema transaction"@,
            PhaseNote::GraphMetadataWrites => "origin and generation metadata"@,
            PhaseNote::GraphNotPersisted => "disabled"@,
            PhaseNote::Evidence { receipts, payloads } => text::dec(receipts as nat) + " receipts, "@ + text::dec(payloads as nat) + " provider payloads"@,
        }
    }

    /// What the step did, in words.
    pub fn detail(self) -> (r: String)
        ensures
            r@ == self.detail_spec(),
    {
        match self {
            PhaseNote::Discovery { files } => {
                let mut words = decimal(files);
                words.append(" files");
                words
            },
            PhaseNote::ChangeDetect { checked, changed } => {
                let mut words = decimal(checked);
                words.append(" checked, ");
                words.append(decimal(changed).as_str());
                words.append(" changed");
                words
            },
            PhaseNote::Extraction { symbols, files } => {
                let mut words = decimal(symbols);
                words.append(" symbols from ");
                words.append(decimal(files).as_str());
                words.append(" files");
                words
            },
            PhaseNote::GraphBuild { nodes, edges, skipped, external, traits } => {
                let mut words = decimal(nodes);
                words.append(" nodes, ");
                words.append(decimal(edges).as_str());
                words.append(" edges, ");
                words.append(decimal(skipped).as_str());
                words.append(" skipped (external relation: ");
                words.append(decimal(external).as_str());
                words.append("), ");
                words.append(decimal(traits).as_str());
                words.append(" ext-traits synth");
                words
            },
            PhaseNote::ProjectInventory { sources, units, inputs } => {
                let mut words = decimal(sources);
                words.append(" sources, ");
                words.append(decimal(units).as_str());
                words.append(" units, ");
                words.append(decimal(inputs).as_str());
                words.append(" inputs");
                words
            },
            PhaseNote::SemanticProviders { steps } => {
                let mut words = decimal(steps);
                words.append(" provider/normalization steps");
                words
            },
            PhaseNote::StateUpdate { files, facts } => {
                let mut words = decimal(files);
                words.append(" files, ");
                words.append(decimal(facts).as_str());
                words.append(" document fact sets");
                words
            },
            PhaseNote::DependencyEdges { edges } => {
                let mut words = decimal(edges);
                words.append(" graph edges after dependency resolution");
                words
            },
            PhaseNote::Classified { nodes } => {
                let mut words = decimal(nodes);
                words.append(" nodes classified");
                words
            },
            PhaseNote::Unclassified { nodes } => {
                let mut words = decimal(nodes);
                words.append(" nodes structurally indexed; no reachability owner");
                words
            },
            PhaseNote::EnrichmentEnabled => "enabled".to_owned(),
            PhaseNote::EnrichmentDisabled => "disabled".to_owned(),
            PhaseNote::Metadata { files, symbols, edges } => {
                let mut words = decimal(files);
                words.append(" files, ");
                words.append(decimal(symbols).as_str());
                words.append(" symbols, ");
                words.append(decimal(edges).as_str());
                words.append(" edges");
                words
            },
            PhaseNote::EvidenceValidated => "reachability evidence".to_owned(),
            PhaseNote::NoEvidenceValidated => "no reachability evidence".to_owned(),
            PhaseNote::GraphMaterialize { nodes, edges } => {
                let mut words = decimal(nodes);
                words.append(" nodes, ");
                words.append(decimal(edges).as_str());
                words.append(" edges");
                words
            },
            PhaseNote::GraphEncode { graph_bytes, evidence_bytes } => {
                let mut words = decimal(graph_bytes);
                words.append(" graph bytes, ");
                words.append(decimal(evidence_bytes).as_str());
                words.append(" evidence bytes");
                words
            },
            PhaseNote::GraphProof { bytes } => {
                let mut words = decimal(bytes);
                words.append(" graph/evidence bytes");
                words
            },
            PhaseNote::GraphDatabaseWrite => "snapshot, optional evidence, and schema transaction".to_owned(),
            PhaseNote::GraphMetadataWrites => "origin and generation metadata".to_owned(),
            PhaseNote::GraphNotPersisted => "disabled".to_owned(),
            PhaseNote::Evidence { receipts, payloads } => {
                let mut words = decimal(receipts);
                words.append(" receipts, ");
                words.append(decimal(payloads).as_str());
                words.append(" provider payloads");
                words
            },
        }
    }

    /// The entry of the profile.
    pub open spec fn entry(self, duration: Duration) -> PhaseModel {
        PhaseModel {
            name: self.name_spec(),
            phase_num: self.number_spec(),
            duration,
            detail: self.detail_spec(),
        }
    }
}

/// The profile with one more entry, if a profile is collected.
pub open spec fn noted(
    profile: Seq<PhaseModel>,
    enabled: bool,
    note: PhaseNote,
    duration: Duration,
) -> Seq<PhaseModel> {
    if enabled {
        profile.push(note.entry(duration))
    } else {
        profile
    }
}

/// Enters a step into the profile.
pub fn record_note(profiler: &mut ProfileCollector, note: PhaseNote, duration: Duration)
    ensures
        final(profiler).phase_timings.deep_view() == noted(
            old(profiler).phase_timings.deep_view(),
            old(profiler).enabled,
            note,
            duration,
        ),
        final(profiler).enabled == old(profiler).enabled,
        final(profiler).graph_build_steps == old(profiler).graph_build_steps,
        final(profiler).extraction_files == old(profiler).extraction_files,
{
    let ghost before = profiler.phase_timings;
    let enabled = profiler.enabled;
    profiler.record_phase(note.name(), note.number(), duration, note.detail());
    proof {
        if enabled {
            values::lemma_push(before, profiler.phase_timings, profiler.phase_timings@.last());
        }
    }
}

/// The steps of persisting a graph, with their spans: those that were measured, and what
/// they leave of the whole.
pub open spec fn persistence_notes(
    write: GraphSnapshotWriteTelemetry,
    evidence: bool,
    nodes: u64,
    edges: u64,
    elapsed: Duration,
) -> Seq<(PhaseNote, Duration)> {
    let encoding = Duration {
        nanos: duration::capped(
            write.snapshot_encoding.nanos + write.evidence_encoding.nanos,
        ) as u128,
    };
    let bytes = if write.graph_bytes + write.evidence_bytes <= usize::MAX {
        write.graph_bytes + write.evidence_bytes
    } else {
        usize::MAX as int
    };
    seq![
        (
            if evidence {
                PhaseNote::EvidenceValidated
            } else {
                PhaseNote::NoEvidenceValidated
            },
            write.evidence_validation,
        ),
        (PhaseNote::GraphMaterialize { nodes, edges }, write.snapshot_materialization),
        (
            PhaseNote::GraphEncode {
                graph_bytes: write.graph_bytes as u64,
                evidence_bytes: write.evidence_bytes as u64,
            },
            encoding,
        ),
        (PhaseNote::GraphProof { bytes: bytes as u64 }, write.proof_hashing),
        (PhaseNote::GraphDatabaseWrite, write.database_write),
        (
            PhaseNote::GraphMetadataWrites,
            index_timing::less(
                elapsed,
                duration::capped(
                    write.evidence_validation.nanos + write.snapshot_materialization.nanos
                        + write.snapshot_encoding.nanos + write.evidence_encoding.nanos
                        + write.proof_hashing.nanos + write.database_write.nanos,
                ),
            ),
        ),
    ]
}

/// Splits the persistence of a graph into its steps.
pub fn graph_persistence_notes(
    write: &GraphSnapshotWriteTelemetry,
    evidence: bool,
    nodes: usize,
    edges: usize,
    elapsed: Duration,
) -> (r: Vec<(PhaseNote, Duration)>)
    ensures
        r@ == persistence_notes(*write, evidence, nodes as u64, edges as u64, elapsed),
{
    let measured = write.evidence_validation.saturating_add(
        write.snapshot_materialization,
    ).saturating_add(write.snapshot_encoding).saturating_add(
        write.evidence_encoding,
    ).saturating_add(write.proof_hashing).saturating_add(write.database_write);
    let mut r: Vec<(PhaseNote, Duration)> = Vec::new();
    r.push(
        (
            if evidence {
                PhaseNote::EvidenceValidated
            } else {
                PhaseNote::NoEvidenceValidated
            },
            write.evidence_validation,
        ),
    );
    r.push(
        (
            PhaseNote::GraphMaterialize { nodes: nodes as u64, edges: edges as u64 },
            write.snapshot_materialization,
        ),
    );
    r.push(
        (
            PhaseNote::GraphEncode {
                graph_bytes: write.graph_bytes as u64,
                evidence_bytes: write.evidence_bytes as u64,
            },
            write.snapshot_encoding.saturating_add(write.evidence_encoding),
        ),
    );
    r.push(
        (
            PhaseNote::GraphProof {
                bytes: write.graph_bytes.saturating_add(write.evidence_bytes) as u64,
            },
            write.proof_hashing,
        ),
    );
    r.push((PhaseNote::GraphDatabaseWrite, write.database_write));
    r.push((PhaseNote::GraphMetadataWrites, elapsed.saturating_sub(measured)));
    assert(r@ =~= persistence_notes(*write, evidence, nodes as u64, edges as u64, elapsed));
    r
}

/// A turn of a run that is shown.
#[derive(Debug, Clone, PartialEq, Eq)]
pub enum RunProgress {
    ScanStarted,
    ScanFailed { error: String, elapsed: Duration },
    ScanCompleted {
        discovered: u64,
        changed: u64,
        deleted: u64,
        nodes_added: u64,
        edges_added: u64,
        nodes: u64,
        edges: u64,
        elapsed: Duration,
    },
    EvidenceStarted,
    EvidenceCompleted { artifacts: u64, elapsed: Duration },
    FinalizeStarted,
    FinalizeFailed { error: String, elapsed: Duration },
    FinalizeCompleted { elapsed: Duration },
}

impl RunProgress {
    /// The event of the turn.
    pub open spec fn event_spec(self) -> EventModel {
        match self {
            RunProgress::ScanStarted => EventModel {
                phase: IndexProgressPhase::StructuralScan,
                state: IndexProgressState::Started,
                label: "structural scan"@,
                detail: "discovering, hashing, extracting, and building the structural graph"@,
                elapsed: None,
            },
            RunProgress::ScanFailed { error, elapsed } => EventModel {
                phase: IndexProgressPhase::StructuralScan,
                state: IndexProgressState::Failed,
                label: "structural scan"@,
                detail: error@,
                elapsed: Some(elapsed),
            },
            RunProgress::ScanCompleted {
                discovered,
                changed,
                deleted,
                nodes_added,
                edges_added,
                nodes,
                edges,
                elapsed,
            } => EventModel {
                phase: IndexProgressPhase::StructuralScan,
                state: IndexProgressState::Completed,
                label: "structural scan"@,
                detail: text::dec(discovered as nat) + " files discovered; "@ + text::dec(
                    changed as nat,
                ) + " changed; "@ + text::dec(deleted as nat) + " deleted; build work: "@
                    + text::dec(nodes_added as nat) + " nodes, "@ + text::dec(edges_added as nat)
                    + " edges; candidate total: "@ + text::dec(nodes as nat) + " nodes, "@
                    + text::dec(edges as nat) + " edges"@,
                elapsed: Some(elapsed),
            },
            RunProgress::EvidenceStarted => EventModel {
                phase: IndexProgressPhase::SemanticProvider,
                state: IndexProgressState::Started,
                label: "semantic evidence processing"@,
                detail: "normalizing provider evidence and projecting admitted relationships"@,
                elapsed: None,
            },
            RunProgress::EvidenceCompleted { artifacts, elapsed } => EventModel {
                phase: IndexProgressPhase::SemanticProvider,
                state: IndexProgressState::Completed,
                label: "semantic evidence processing"@,
                detail: text::dec(artifacts as nat) + " trusted provider artifact(s)"@,
                elapsed: Some(elapsed),
            },
            RunProgress::FinalizeStarted => EventModel {
                phase: IndexProgressPhase::Finalize,
                state: IndexProgressState::Started,
                label: "finalizing generation"@,
                detail:
                    "persisting state, classifying reachability, and validating capability evidence"@,
                elapsed: None,
            },
            RunProgress::FinalizeFailed { error, elapsed } => EventModel {
                phase: IndexProgressPhase::Finalize,
                state: IndexProgressState::Failed,
                label: "finalizing generation"@,
                detail: error@,
                elapsed: Some(elapsed),
            },
            RunProgress::FinalizeCompleted { elapsed } => EventModel {
                phase: IndexProgressPhase::Finalize,
                state: IndexProgressState::Completed,
                label: "finalizing generation"@,
                detail: "candidate graph and capability evidence validated"@,
                elapsed: Some(elapsed),
            },
        }
    }

    /// Makes the event of the turn.
    pub fn event(&self) -> (r: IndexProgressEvent)
        ensures
            r.deep_view() == self.event_spec(),
    {
        let (phase, state, label, detail, elapsed) = match self {
            RunProgress::ScanStarted => (
                IndexProgressPhase::StructuralScan,
                IndexProgressState::Started,
                "structural scan",
                "discovering, hashing, extracting, and building the structural graph".to_owned(),
                None,
            ),
            RunProgress::ScanFailed { error, elapsed } => (
                IndexProgressPhase::StructuralScan,
                IndexProgressState::Failed,
                "structural scan",
                error.clone(),
                Some(*elapsed),
            ),
            RunProgress::ScanCompleted {
                discovered,
                changed,
                deleted,
                nodes_added,
                edges_added,
                nodes,
                edges,
                elapsed,
            } => {
                let mut words = decimal(*discovered);
                words.append(" files discovered; ");
                words.append(decimal(*changed).as_str());
                words.append(" changed; ");
                words.append(decimal(*deleted).as_str());
                words.append(" deleted; build work: ");
                words.append(decimal(*nodes_added).as_str());
                words.append(" nodes, ");
                words.append(decimal(*edges_added).as_str());
                words.append(" edges; candidate total: ");
                words.append(decimal(*nodes).as_str());
                words.append(" nodes, ");
                words.append(decimal(*edges).as_str());
                words.append(" edges");
                (
                    IndexProgressPhase::StructuralScan,
                    IndexProgressState::Completed,
                    "structural scan",
                    words,
                    Some(*elapsed),
                )
            },
            RunProgress::EvidenceStarted => (
                IndexProgressPhase::SemanticProvider,
                IndexProgressState::Started,
                "semantic evidence processing",
                "normalizing provider evidence and projecting admitted relationships".to_owned(),
                None,
            ),
            RunProgress::EvidenceCompleted { artifacts, elapsed } => {
                let mut words = decimal(*artifacts);
                words.append(" trusted provider artifact(s)");
                (
                    IndexProgressPhase::SemanticProvider,
                    IndexProgressState::Completed,
                    "semantic evidence processing",
                    words,
                    Some(*elapsed),
                )
            },
            RunProgress::FinalizeStarted => (
                IndexProgressPhase::Finalize,
                IndexProgressState::Started,
                "finalizing generation",
                "persisting state, classifying reachability, and validating capability evidence".to_owned(),
                None,
            ),
            RunProgress::FinalizeFailed { error, elapsed } => (
                IndexProgressPhase::Finalize,
                IndexProgressState::Failed,
                "finalizing generation",
                error.clone(),
                Some(*elapsed),
            ),
            RunProgress::FinalizeCompleted { elapsed } => (
                IndexProgressPhase::Finalize,
                IndexProgressState::Completed,
                "finalizing generation",
                "candidate graph and capability evidence validated".to_owned(),
                Some(*elapsed),
            ),
        };
        IndexProgressEvent { phase, state, label: label.to_owned(), detail, elapsed }
    }
}

/// The steps of persisting a graph share out its time: where the measured ones do not exceed
/// the whole, all of them together are the whole. Each has its own span, and encoding the
/// snapshot and encoding its evidence are one step.
pub proof fn law_persistence_notes_share_out_the_time(
    write: GraphSnapshotWriteTelemetry,
    evidence: bool,
    nodes: u64,
    edges: u64,
    elapsed: Duration,
)
    requires
        elapsed.nanos <= duration::MAX_NANOS,
    ensures
        ({
            let notes = persistence_notes(write, evidence, nodes, edges, elapsed);
            let measured = write.evidence_validation.nanos + write.snapshot_materialization.nanos
                + write.snapshot_encoding.nanos + write.evidence_encoding.nanos
                + write.proof_hashing.nanos + write.database_write.nanos;
            &&& notes.len() == 6
            &&& notes[0].0 is EvidenceValidated <==> evidence
            &&& notes[0].0 is NoEvidenceValidated <==> !evidence
            &&& notes[0].1 == write.evidence_validation
            &&& notes[1].1 == write.snapshot_materialization
            &&& notes[3].1 == write.proof_hashing
            &&& notes[4].1 == write.database_write
            &&& measured <= elapsed.nanos ==> notes[2].1.nanos == write.snapshot_encoding.nanos
                + write.evidence_encoding.nanos
            &&& measured <= elapsed.nanos ==> notes[0].1.nanos + notes[1].1.nanos
                + notes[2].1.nanos + notes[3].1.nanos + notes[4].1.nanos + notes[5].1.nanos
                == elapsed.nanos
            &&& measured > elapsed.nanos ==> notes[5].1.nanos == 0
        }),
{
}

/// The counts of persisting a graph are those of the graph and of what was written.
pub proof fn law_persistence_notes_count_what_was_written(
    write: GraphSnapshotWriteTelemetry,
    evidence: bool,
    nodes: u64,
    edges: u64,
    elapsed: Duration,
)
    requires
        write.graph_bytes + write.evidence_bytes <= usize::MAX,
    ensures
        ({
            let notes = persistence_notes(write, evidence, nodes, edges, elapsed);
            &&& notes[1].0 is GraphMaterialize && notes[1].0->GraphMaterialize_nodes == nodes
                && notes[1].0->GraphMaterialize_edges == edges
            &&& notes[2].0 is GraphEncode && notes[2].0->graph_bytes == write.graph_bytes
                && notes[2].0->evidence_bytes == write.evidence_bytes
            &&& notes[3].0 is GraphProof && notes[3].0->bytes == notes[2].0->graph_bytes
                + notes[2].0->evidence_bytes
        }),
{
}

/// The steps of the scan are numbered as structural phases, those of the providers as neither,
/// and every later step as a part of the finalization.
pub proof fn law_notes_are_numbered_by_phase(note: PhaseNote)
    ensures
        ({
            let scanning = note is Discovery || note is ChangeDetect || note is Extraction
                || note is GraphBuild;
            let semantic = note is ProjectInventory || note is SemanticProviders;
            let phase = index_timing::machine_phase(note.number_spec());
            &&& phase == Some(IndexProgressPhase::StructuralScan) <==> scanning
            &&& phase is None <==> semantic
            &&& phase == Some(IndexProgressPhase::Finalize) <==> !scanning && !semantic
        }),
        note.number_spec() == 1 <==> note is Discovery,
        note.number_spec() == 2 <==> note is ChangeDetect,
        note.number_spec() == 3 <==> note is Extraction,
        note.number_spec() == 4 <==> note is GraphBuild,
{
}

/// A note is entered behind the earlier ones with its own span where a profile is collected, and
/// nowhere else.
pub proof fn law_note_is_entered_once(
    profile: Seq<PhaseModel>,
    note: PhaseNote,
    span: Duration,
)
    ensures
        noted(profile, false, note, span) == profile,
        noted(profile, true, note, span).len() == profile.len() + 1,
        noted(profile, true, note, span).drop_last() == profile,
        noted(profile, true, note, span).last().duration == span,
        noted(profile, true, note, span).last().phase_num == note.number_spec(),
{
    assert(noted(profile, true, note, span).drop_last() =~= profile);
}

/// What a turn of a run shows: a start has no span yet, every end has its own, a failure is told
/// in the words of its error, and the label of a phase stays the same from its start to its end.
pub proof fn law_events_show_the_turn(turn: RunProgress)
    ensures
        ({
            let event = turn.event_spec();
            let started = turn is ScanStarted || turn is EvidenceStarted || turn is FinalizeStarted;
            let failed = turn is ScanFailed || turn is FinalizeFailed;
            let scanning = turn is ScanStarted || turn is ScanFailed || turn is ScanCompleted;
            let semantic = turn is EvidenceStarted || turn is EvidenceCompleted;
            &&& event.state is Started <==> started
            &&& event.state is Failed <==> failed
            &&& event.state is Completed <==> !started && !failed
            &&& event.elapsed is None <==> started
            &&& event.phase is StructuralScan <==> scanning
            &&& event.phase is SemanticProvider <==> semantic
            &&& event.phase is Finalize <==> !scanning && !semantic
            &&& scanning ==> event.label == RunProgress::ScanStarted.event_spec().label
            &&& semantic ==> event.label == RunProgress::EvidenceStarted.event_spec().label
            &&& !scanning && !semantic ==> event.label
                == RunProgress::FinalizeStarted.event_spec().label
            &&& turn matches RunProgress::ScanFailed { error, elapsed } ==> event.detail == error@
                && event.elapsed == Some(elapsed)
            &&& turn matches RunProgress::FinalizeFailed { error, elapsed } ==> event.detail
                == error@ && event.elapsed == Some(elapsed)
            &&& turn matches RunProgress::ScanCompleted { elapsed, .. } ==> event.elapsed == Some(
                elapsed,
            )
            &&& turn matches RunProgress::EvidenceCompleted { elapsed, .. } ==> event.elapsed
                == Some(elapsed)
            &&& turn matches RunProgress::FinalizeCompleted { elapsed } ==> event.elapsed == Some(
                elapsed,
            )
        }),
{
}

} // verus!
