//! The later stages of an indexing run: from the built graph to the candidate.

use vstd::prelude::*;

use crate::calls_evidence::ProviderPayloadCanonicalizationTimings;
use crate::domain::{CapabilityCoverage, ProjectInventory};
use crate::duration::Duration;
use crate::graph;
use crate::graph::{restore_learned_weights, GraphError, KnowledgeGraph};
use crate::graph_stats;
use crate::graph_stats::compute_reachability_summary;
use crate::graph_store::GraphPublicationProof;
use crate::index_config::IndexConfig;
use crate::index_evidence;
use crate::index_evidence::{build_index_evidence, ExtractionFindings, IndexEvidence};
use crate::index_pipeline::{
    BlockingPhaseResult, CompletedStructuralBasis, ExtractedSources, GraphBuildStats, IndexReport,
    IndexRunOutcome, PreparedIndexRun, ScannedSources,
};
use crate::index_state::{ExtractorOutput, FileRecord, IndexStatePublicationProof};
use crate::index_tables::IncrementalIndexBasis;
use crate::index_timing;
use crate::index_timing::{
    exclusive, push_row, GraphBuildStepTiming, IndexPhaseTiming, IndexProgressPhase,
    IndexTimingAggregation, ProfileCollector, TimingModel,
};
use crate::ordered::StringMap;
use crate::payload::PublicationReadySemanticEvidence;
use crate::pipeline_error::IndexPipelineError;
use crate::semantic_basis;
use crate::semantic_basis::{
    admitted_canonical_semantic_bases, CanonicalScipSnapshot, CanonicalSourceSyntaxCache,
};
use crate::semantic_plan;
use crate::semantic_plan::require_requested_semantic_authority;
use crate::source_diff;
use crate::source_diff::MeasuredSource;
use crate::structural_inputs::SourceInput;

verus! {

fn take_inputs(sources: Vec<MeasuredSource>) -> (r: Vec<SourceInput>)
    ensures
        r.deep_view() == source_diff::inputs_of(sources@),
{
    let ghost all = sources@;
    let mut r: Vec<SourceInput> = Vec::new();
    for source in it: sources.into_iter()
        invariant
            it.seq() == all,
            r@.len() == it.index(),
            forall|j: int| 0 <= j < r@.len() ==> (#[trigger] r@[j]) == all[j].input,
    {
        r.push(source.input);
    }
    assert(r.deep_view() =~= source_diff::inputs_of(all));
    r
}

/// The structural phases left this, on an earlier graph.
pub open spec fn is_structural_result(
    result: BlockingPhaseResult,
    extracted: ExtractedSources,
    prior: KnowledgeGraph,
    inventory: ProjectInventory,
    built: KnowledgeGraph,
    stats: GraphBuildStats,
) -> bool {
    &&& result.files_discovered == extracted.sources@.len()
    &&& result.changed == extracted.diff.changed
    &&& result.unchanged_count == extracted.diff.unchanged_count
    &&& result.deleted_paths == extracted.diff.deleted_paths
    &&& result.outputs == extracted.outputs
    &&& result.document_facts == extracted.document_facts
    &&& result.extraction_errors == extracted.extraction_errors
    &&& result.source_inputs.deep_view() == source_diff::inputs_of(extracted.sources@)
    &&& result.project_inventory == inventory
    &&& graph::restores_weights(prior, built, result.graph)
    &&& built.wf() ==> result.graph.wf()
    &&& result.build_stats == stats
}

impl ExtractedSources {
    /// Takes in the graph that was built from the facts. Relationships that are built
    /// again keep the weights that the earlier graph had learned of them.
    pub fn materialize(
        self,
        prior: &KnowledgeGraph,
        inventory: ProjectInventory,
        built: Result<(KnowledgeGraph, GraphBuildStats), GraphError>,
        cancelled: bool,
    ) -> (r: Result<BlockingPhaseResult, IndexPipelineError>)
        ensures
            match built {
                Ok((graph, stats)) => match r {
                    Ok(result) => !cancelled && is_structural_result(
                        result,
                        self,
                        *prior,
                        inventory,
                        graph,
                        stats,
                    ),
                    Err(error) => cancelled && error == IndexPipelineError::Cancelled,
                },
                Err(error) => r == Err::<BlockingPhaseResult, IndexPipelineError>(
                    IndexPipelineError::Graph(error),
                ),
            },
    {
        let (graph, build_stats) = match built {
            Ok(built) => built,
            Err(error) => {
                return Err(IndexPipelineError::Graph(error));
            },
        };
        if cancelled {
            return Err(IndexPipelineError::Cancelled);
        }
        let files_discovered = self.sources.len();
        let graph = restore_learned_weights(prior, graph);
        Ok(
            BlockingPhaseResult {
                files_discovered,
                changed: self.diff.changed,
                unchanged_count: self.diff.unchanged_count,
                deleted_paths: self.diff.deleted_paths,
                outputs: self.outputs,
                document_facts: self.document_facts,
                extraction_errors: self.extraction_errors,
                source_inputs: take_inputs(self.sources),
                project_inventory: inventory,
                graph,
                build_stats,
            },
        )
    }
}

/// The symbols of the outputs together.
pub open spec fn symbols_of(outputs: Seq<ExtractorOutput>) -> int
    decreases outputs.len(),
{
    if outputs.len() == 0 {
        0
    } else {
        symbols_of(outputs.drop_last()) + outputs.last().symbols@.len()
    }
}

proof fn lemma_symbols_grow(outputs: Seq<ExtractorOutput>, i: int)
    requires
        0 <= i <= outputs.len(),
    ensures
        0 <= symbols_of(outputs.take(i)) <= symbols_of(outputs),
    decreases outputs.len() - i,
{
    if i == outputs.len() {
        assert(outputs.take(i) =~= outputs);
        lemma_symbols_nonnegative(outputs);
    } else {
        lemma_symbols_grow(outputs, i + 1);
        assert(outputs.take(i + 1).drop_last() =~= outputs.take(i));
        lemma_symbols_nonnegative(outputs.take(i));
    }
}

proof fn lemma_symbols_nonnegative(outputs: Seq<ExtractorOutput>)
    ensures
        0 <= symbols_of(outputs),
    decreases outputs.len(),
{
    if outputs.len() > 0 {
        lemma_symbols_nonnegative(outputs.drop_last());
    }
}

fn count_symbols(outputs: &Vec<ExtractorOutput>) -> (r: usize)
    requires
        symbols_of(outputs@) <= usize::MAX,
    ensures
        r == symbols_of(outputs@),
{
    let mut n: usize = 0;
    for i in 0..outputs.len()
        invariant
            symbols_of(outputs@) <= usize::MAX,
            n == symbols_of(outputs@.take(i as int)),
    {
        proof {
            lemma_symbols_grow(outputs@, i + 1);
            assert(outputs@.take(i + 1).drop_last() =~= outputs@.take(i as int));
        }
        n = n + outputs[i].symbols.len();
    }
    assert(outputs@.take(outputs@.len() as int) =~= outputs@);
    n
}

/// How many recorded files are gone from disk: those that discovery did not find and that
/// are not there either. A file that a run was not to look at is not gone.
pub open spec fn gone(deleted: Seq<Seq<char>>, on_disk: Set<Seq<char>>) -> nat
    decreases deleted.len(),
{
    if deleted.len() == 0 {
        0
    } else {
        gone(deleted.drop_last(), on_disk) + if on_disk.contains(deleted.last()) {
            0nat
        } else {
            1
        }
    }
}

fn count_gone(deleted: &Vec<String>, on_disk: &StringMap<()>) -> (r: usize)
    ensures
        r == gone(deleted.deep_view(), on_disk@.dom()),
{
    let ghost all = deleted.deep_view();
    let mut n: usize = 0;
    for i in 0..deleted.len()
        invariant
            all == deleted.deep_view(),
            n <= i,
            n == gone(all.take(i as int), on_disk@.dom()),
    {
        assert(all.take(i + 1).drop_last() =~= all.take(i as int));
        assert(all[i as int] == deleted@[i as int]@);
        if !on_disk.contains(deleted[i].as_str()) {
            n += 1;
        }
    }
    assert(all.take(all.len() as int) =~= all);
    n
}

/// The report counts the sources, and times the scan.
pub open spec fn reports_scan(
    report: IndexReport,
    discovered: int,
    changed: int,
    unchanged: int,
    deleted: nat,
    scan_elapsed: Duration,
) -> bool {
    &&& report.files_discovered == discovered
    &&& report.files_changed == changed
    &&& report.files_unchanged == unchanged
    &&& report.files_deleted == deleted
    &&& report.phase_timings.deep_view() == seq![
        index_timing::exclusive_row(
            IndexProgressPhase::StructuralScan,
            "structural scan"@,
            scan_elapsed,
        ),
    ]
    &&& !report.reused_generation
    &&& report.reusable_file_records == 0
    &&& report.reusable_document_fact_sets == 0
    &&& report.preindex_basis_rows_persisted == 0
    &&& !report.live_structural_basis_reused
    &&& report.nodes_total == 0
    &&& report.edges_total == 0
    &&& report.reachability is None
    &&& report.semantic_provider_refreshes@.len() == 0
}

/// The report says that nothing was extracted or built.
pub open spec fn reports_no_build(report: IndexReport) -> bool {
    &&& report.symbols_extracted == 0
    &&& report.nodes_added == 0
    &&& report.edges_added == 0
    &&& report.edges_skipped_external_relation == 0
    &&& report.edges_skipped_other == 0
    &&& report.external_traits_synthesized == 0
}

fn report_scan(
    discovered: usize,
    changed: usize,
    unchanged: usize,
    deleted: usize,
    scan_elapsed: Duration,
) -> (r: IndexReport)
    ensures
        reports_scan(
            r,
            discovered as int,
            changed as int,
            unchanged as int,
            deleted as nat,
            scan_elapsed,
        ),
        reports_no_build(r),
        r.duration.nanos == 0,
{
    let mut report = IndexReport::default();
    report.files_discovered = discovered;
    report.files_changed = changed;
    report.files_unchanged = unchanged;
    report.files_deleted = deleted;
    push_row(
        &mut report.phase_timings,
        exclusive(IndexProgressPhase::StructuralScan, "structural scan", scan_elapsed),
    );
    assert(report.phase_timings.deep_view() =~= seq![
        index_timing::exclusive_row(
            IndexProgressPhase::StructuralScan,
            "structural scan"@,
            scan_elapsed,
        ),
    ]);
    report
}

/// Ends a dry run on the comparison of its sources: nothing is extracted, and it has no
/// evidence, no proof and no basis. Any other run goes on. `on_disk` holds those of the
/// paths that discovery did not find which are still on disk.
pub fn end_dry_run(
    config: &IndexConfig,
    scan: &ScannedSources,
    on_disk: &StringMap<()>,
    scan_elapsed: Duration,
    total_elapsed: Duration,
) -> (r: Option<PreparedIndexRun>)
    ensures
        match r {
            Some(run) => {
                &&& config.dry_run
                &&& run.structural_basis is None
                &&& run.outcome is DryRun
                &&& reports_scan(
                    run.outcome.telemetry_spec(),
                    scan.sources@.len() as int,
                    scan.diff.changed@.len() as int,
                    scan.diff.unchanged_count as int,
                    gone(scan.diff.deleted_paths.deep_view(), on_disk@.dom()),
                    scan_elapsed,
                )
                &&& reports_no_build(run.outcome.telemetry_spec())
                &&& run.outcome.telemetry_spec().duration == total_elapsed
            },
            None => !config.dry_run,
        },
{
    if !config.dry_run {
        return None;
    }
    let mut report = report_scan(
        scan.sources.len(),
        scan.diff.changed.len(),
        scan.diff.unchanged_count,
        count_gone(&scan.diff.deleted_paths, on_disk),
        scan_elapsed,
    );
    report.duration = total_elapsed;
    Some(
        PreparedIndexRun {
            outcome: IndexRunOutcome::DryRun { telemetry: report },
            structural_basis: None,
        },
    )
}

/// The report counts what was extracted and built.
pub open spec fn reports_build(report: IndexReport, result: BlockingPhaseResult) -> bool {
    &&& report.symbols_extracted == symbols_of(result.outputs@)
    &&& report.nodes_added == result.build_stats.nodes_added
    &&& report.edges_added == result.build_stats.edges_added
    &&& report.edges_skipped_external_relation
        == result.build_stats.edges_skipped_external_relation
    &&& report.edges_skipped_other == result.build_stats.edges_skipped_other
    &&& report.external_traits_synthesized == result.build_stats.external_traits_synthesized
}

/// Opens the report of a run with what its structural phases found and built. `on_disk`
/// holds those of the paths that discovery did not find which are still on disk.
pub fn complete_scan(
    result: &BlockingPhaseResult,
    on_disk: &StringMap<()>,
    scan_elapsed: Duration,
) -> (report: IndexReport)
    requires
        symbols_of(result.outputs@) <= usize::MAX,
    ensures
        reports_scan(
            report,
            result.files_discovered as int,
            result.changed@.len() as int,
            result.unchanged_count as int,
            gone(result.deleted_paths.deep_view(), on_disk@.dom()),
            scan_elapsed,
        ),
        reports_build(report, *result),
        report.duration.nanos == 0,
{
    let mut report = report_scan(
        result.files_discovered,
        result.changed.len(),
        result.unchanged_count,
        count_gone(&result.deleted_paths, on_disk),
        scan_elapsed,
    );
    report.symbols_extracted = count_symbols(&result.outputs);
    report.nodes_added = result.build_stats.nodes_added;
    report.edges_added = result.build_stats.edges_added;
    report.edges_skipped_external_relation = result.build_stats.edges_skipped_external_relation;
    report.edges_skipped_other = result.build_stats.edges_skipped_other;
    report.external_traits_synthesized = result.build_stats.external_traits_synthesized;
    report
}

/// Counts edges that a later phase added.
pub fn add_edges(report: &mut IndexReport, novel_edges: usize)
    requires
        old(report).edges_added + novel_edges <= usize::MAX,
    ensures
        *final(report) == (IndexReport {
            edges_added: (old(report).edges_added + novel_edges) as usize,
            ..*old(report)
        }),
{
    report.edges_added = report.edges_added + novel_edges;
}

/// Whether a workspace of several packages has no dependency between any of them, which
/// is more likely a fault than the truth.
pub fn lacks_dependency_edges(dependency_edges: usize, cargo_packages: usize) -> (r: bool)
    ensures
        r == (dependency_edges == 0 && cargo_packages > 1),
{
    dependency_edges == 0 && cargo_packages > 1
}

/// The report has the totals of the final graph. Reachability is reported only where some
/// evidence of it exists.
pub open spec fn reports_totals(
    report: IndexReport,
    before: IndexReport,
    graph: KnowledgeGraph,
    has_evidence: bool,
) -> bool {
    &&& report.nodes_total == graph.nodes().len()
    &&& report.edges_total == graph.edges().len()
    &&& match report.reachability {
        Some(summary) => has_evidence && graph_stats::summarizes(summary, graph.nodes()),
        None => !has_evidence,
    }
    &&& report == (IndexReport {
        nodes_total: report.nodes_total,
        edges_total: report.edges_total,
        reachability: report.reachability,
        ..before
    })
}

/// Enters the totals of the final graph.
pub fn record_totals(report: &mut IndexReport, graph: &KnowledgeGraph, has_evidence: bool)
    ensures
        reports_totals(*final(report), *old(report), *graph, has_evidence),
{
    report.nodes_total = graph.node_count();
    report.edges_total = graph.edge_count();
    report.reachability = if has_evidence {
        Some(compute_reachability_summary(graph))
    } else {
        None
    };
}

/// A candidate with its evidence, not yet accepted.
#[derive(Debug)]
pub struct CandidateRun {
    pub report: IndexReport,
    pub findings: ExtractionFindings,
    pub indexed_files: Vec<(String, FileRecord)>,
    pub evidence: IndexEvidence,
    pub snapshots: Vec<(CanonicalScipSnapshot, Option<CanonicalSourceSyntaxCache>)>,
    pub publication_proof: Option<GraphPublicationProof>,
    pub index_state_publication_proof: IndexStatePublicationProof,
}

/// What is known of a run when its state and graph are stored.
#[derive(Debug)]
pub struct StoredRun {
    pub report: IndexReport,
    pub findings: ExtractionFindings,
    pub indexed_files: Vec<(String, FileRecord)>,
    pub project_inventory: ProjectInventory,
    pub semantic_evidence: Vec<PublicationReadySemanticEvidence>,
    pub configured_calls_languages: StringMap<()>,
    pub snapshots: Vec<(CanonicalScipSnapshot, Option<CanonicalSourceSyntaxCache>)>,
    pub canonicalization: ProviderPayloadCanonicalizationTimings,
    pub publication_proof: Option<GraphPublicationProof>,
    pub index_state_publication_proof: IndexStatePublicationProof,
}

/// The rows of binding provider payloads, where there are any. They overlap other rows.
pub open spec fn payload_rows(payloads: nat, t: ProviderPayloadCanonicalizationTimings) -> Seq<
    TimingModel,
> {
    if payloads > 0 {
        seq![
            TimingModel {
                phase: IndexProgressPhase::Finalize,
                label: "canonical provider payload serialization"@,
                duration: t.serialization,
                aggregation: IndexTimingAggregation::ConcurrentSpan,
            },
            TimingModel {
                phase: IndexProgressPhase::Finalize,
                label: "canonical provider payload descriptor binding"@,
                duration: t.descriptor,
                aggregation: IndexTimingAggregation::ConcurrentSpan,
            },
        ]
    } else {
        seq![]
    }
}

/// The evidence is what the run's findings and its providers' evidence make.
pub open spec fn is_evidence_of(evidence: IndexEvidence, config: IndexConfig, run: StoredRun) -> bool {
    index_evidence::is_evidence_from(
        evidence,
        config,
        run.findings,
        run.indexed_files.deep_view(),
        run.project_inventory,
        run.semantic_evidence@,
        run.configured_calls_languages@.dom(),
    )
}

impl StoredRun {
    /// Builds the evidence of the run.
    pub fn with_evidence(self, config: &IndexConfig, cancelled: bool) -> (r: Result<
        CandidateRun,
        IndexPipelineError,
    >)
        ensures
            match r {
                Ok(candidate) => {
                    &&& !cancelled
                    &&& is_evidence_of(candidate.evidence, *config, self)
                    &&& candidate.report.phase_timings.deep_view()
                        == self.report.phase_timings.deep_view() + payload_rows(
                        candidate.evidence.provider_payloads@.len(),
                        self.canonicalization,
                    )
                    &&& candidate.report == (IndexReport {
                        phase_timings: candidate.report.phase_timings,
                        ..self.report
                    })
                    &&& candidate.findings == self.findings
                    &&& candidate.indexed_files == self.indexed_files
                    &&& candidate.snapshots == self.snapshots
                    &&& candidate.publication_proof == self.publication_proof
                    &&& candidate.index_state_publication_proof
                        == self.index_state_publication_proof
                },
                Err(error) => cancelled && error == IndexPipelineError::Cancelled,
            },
    {
        if cancelled {
            return Err(IndexPipelineError::Cancelled);
        }
        let ghost run = self;
        let findings = self.findings;
        let indexed_files = self.indexed_files;
        let evidence = build_index_evidence(
            config,
            &findings,
            &indexed_files,
            self.project_inventory,
            self.semantic_evidence,
            &self.configured_calls_languages,
        );
        let mut report = self.report;
        let ghost before = report.phase_timings.deep_view();
        if evidence.provider_payloads.len() > 0 {
            push_row(
                &mut report.phase_timings,
                IndexPhaseTiming {
                    phase: IndexProgressPhase::Finalize,
                    label: "canonical provider payload serialization".to_owned(),
                    duration: self.canonicalization.serialization,
                    aggregation: IndexTimingAggregation::ConcurrentSpan,
                },
            );
            push_row(
                &mut report.phase_timings,
                IndexPhaseTiming {
                    phase: IndexProgressPhase::Finalize,
                    label: "canonical provider payload descriptor binding".to_owned(),
                    duration: self.canonicalization.descriptor,
                    aggregation: IndexTimingAggregation::ConcurrentSpan,
                },
            );
        }
        assert(report.phase_timings.deep_view() =~= before + payload_rows(
            evidence.provider_payloads@.len(),
            run.canonicalization,
        ));
        Ok(
            CandidateRun {
                report,
                findings,
                indexed_files,
                evidence,
                snapshots: self.snapshots,
                publication_proof: self.publication_proof,
                index_state_publication_proof: self.index_state_publication_proof,
            },
        )
    }
}

/// The profile's rows, where a profile is collected.
pub open spec fn profile_rows(profiler: ProfileCollector) -> Seq<TimingModel> {
    if profiler.enabled {
        index_timing::phase_rows(profiler.phase_timings@) + profiler.graph_build_steps@.map_values(
            |step: GraphBuildStepTiming| index_timing::step_row(step),
        )
    } else {
        seq![]
    }
}

/// The accepted candidate: what may be published, and what a later run may build on.
pub open spec fn is_prepared(
    run: PreparedIndexRun,
    candidate: CandidateRun,
    finalize_elapsed: Duration,
    total_elapsed: Duration,
    profiler: ProfileCollector,
) -> bool {
    let positions = semantic_basis::admitted_positions(
        candidate.snapshots@,
        candidate.evidence.provider_payloads@,
    );
    &&& match run.outcome {
        IndexRunOutcome::DryRun { .. } => false,
        IndexRunOutcome::Completed {
            telemetry,
            evidence,
            publication_proof,
            index_state_publication_proof,
        } => {
            &&& evidence == candidate.evidence
            &&& publication_proof == candidate.publication_proof
            &&& index_state_publication_proof == candidate.index_state_publication_proof
            &&& telemetry.duration == total_elapsed
            &&& telemetry.phase_timings.deep_view()
                == candidate.report.phase_timings.deep_view().push(
                index_timing::exclusive_row(
                    IndexProgressPhase::Finalize,
                    "finalizing generation"@,
                    finalize_elapsed,
                ),
            ) + profile_rows(profiler)
            &&& telemetry == (IndexReport {
                duration: telemetry.duration,
                phase_timings: telemetry.phase_timings,
                ..candidate.report
            })
        },
    }
    &&& run.structural_basis matches Some(basis) && {
        &&& basis.source.files == candidate.indexed_files
        &&& basis.source.document_facts == candidate.findings.document_facts
        &&& basis.graph == candidate.findings.graph
        &&& basis.semantic_bases@.len() == positions.len()
        &&& forall|j: int|
            0 <= j < positions.len() ==> semantic_basis::is_basis_of(
                #[trigger] basis.semantic_bases@[j],
                candidate.snapshots@[positions[j]].0,
                candidate.snapshots@[positions[j]].1,
                candidate.evidence.provider_payloads@,
            )
    }
}

impl CandidateRun {
    /// Accepts or refuses the candidate. `coverage` is the assessment of its evidence. A
    /// candidate without the authority that its configuration demands is refused: nothing
    /// of it may be published.
    pub fn finish(
        self,
        config: &IndexConfig,
        coverage: &CapabilityCoverage,
        finalize_elapsed: Duration,
        total_elapsed: Duration,
        profiler: &ProfileCollector,
    ) -> (r: Result<PreparedIndexRun, IndexPipelineError>)
        ensures
            match r {
                Ok(run) => {
                    &&& !config.require_complete_calls || coverage.all_callable_complete
                    &&& is_prepared(run, self, finalize_elapsed, total_elapsed, *profiler)
                },
                Err(IndexPipelineError::SemanticProvidersUnsatisfied { evidence }) =>
                    config.require_complete_calls && !coverage.all_callable_complete && evidence@
                        == semantic_plan::unsatisfied_text(coverage.languages@),
                Err(_) => false,
            },
    {
        match require_requested_semantic_authority(config, coverage) {
            Ok(()) => {},
            Err(error) => {
                return Err(error);
            },
        }
        let ghost candidate = self;
        let semantic_bases = admitted_canonical_semantic_bases(
            self.snapshots,
            &self.evidence.provider_payloads,
        );
        let mut report = self.report;
        push_row(
            &mut report.phase_timings,
            exclusive(IndexProgressPhase::Finalize, "finalizing generation", finalize_elapsed),
        );
        let ghost rows = report.phase_timings.deep_view();
        profiler.append_machine_timings(&mut report.phase_timings);
        assert(report.phase_timings.deep_view() =~= rows + profile_rows(*profiler));
        report.duration = total_elapsed;
        Ok(
            PreparedIndexRun {
                outcome: IndexRunOutcome::Completed {
                    telemetry: report,
                    evidence: self.evidence,
                    publication_proof: self.publication_proof,
                    index_state_publication_proof: self.index_state_publication_proof,
                },
                structural_basis: Some(
                    CompletedStructuralBasis {
                        source: IncrementalIndexBasis {
                            files: self.indexed_files,
                            document_facts: self.findings.document_facts,
                        },
                        graph: self.findings.graph,
                        semantic_bases,
                    },
                ),
            },
        )
    }
}

/// A path is not on disk.
pub open spec fn missing(on_disk: Set<Seq<char>>) -> spec_fn(Seq<char>) -> bool {
    |path: Seq<char>| !on_disk.contains(path)
}

/// The deleted files are the recorded ones that are gone from disk, every one of them.
pub proof fn law_deleted_files_are_gone_from_disk(deleted: Seq<Seq<char>>, on_disk: Set<Seq<char>>)
    ensures
        gone(deleted, on_disk) == deleted.filter(missing(on_disk)).len(),
    decreases deleted.len(),
{
    let pred = missing(on_disk);
    reveal(Seq::filter);
    if deleted.len() > 0 {
        let front = deleted.drop_last();
        law_deleted_files_are_gone_from_disk(front, on_disk);
        assert(deleted =~= front.push(deleted.last()));
        assert(deleted.filter(pred) == if pred(deleted.last()) {
            front.filter(pred).push(deleted.last())
        } else {
            front.filter(pred)
        });
    }
}

/// The symbols that were extracted: one output more adds its own.
pub proof fn law_extracted_symbols_add_up(outputs: Seq<ExtractorOutput>, added: ExtractorOutput)
    ensures
        symbols_of(outputs.push(added)) == symbols_of(outputs) + added.symbols@.len(),
        symbols_of(seq![]) == 0,
{
    assert(outputs.push(added).drop_last() =~= outputs);
}

/// An accepted candidate is handed on whole: what is published is its evidence with its
/// proofs, and the next run may build on its records, its facts, its graph, and every snapshot
/// that one complete calls payload of the published evidence backs.
pub proof fn law_accepted_candidate_is_handed_on(
    run: PreparedIndexRun,
    candidate: CandidateRun,
    finalize_elapsed: Duration,
    total_elapsed: Duration,
    profiler: ProfileCollector,
    p: int,
)
    requires
        is_prepared(run, candidate, finalize_elapsed, total_elapsed, profiler),
        0 <= p < candidate.snapshots@.len(),
    ensures
        ({
            let snapshot = candidate.snapshots@[p].0;
            let payloads = candidate.evidence.provider_payloads@;
            let basis = run.structural_basis->0;
            &&& run.outcome is Completed
            &&& run.outcome->evidence == candidate.evidence
            &&& run.outcome->publication_proof == candidate.publication_proof
            &&& run.outcome->index_state_publication_proof
                == candidate.index_state_publication_proof
            &&& run.structural_basis is Some
            &&& basis.source.files == candidate.indexed_files
            &&& basis.source.document_facts == candidate.findings.document_facts
            &&& basis.graph == candidate.findings.graph
            &&& (exists|k: int| #[trigger]
                semantic_basis::is_complete_calls(
                    payloads,
                    k,
                    snapshot.provider_id@,
                    snapshot.executed_provider_version@,
                ) && payloads[k].payload.deep_view().receipt().scope.language() is Some && forall|
                    j: int,
                | #[trigger]
                    semantic_basis::is_complete_calls(
                        payloads,
                        j,
                        snapshot.provider_id@,
                        snapshot.executed_provider_version@,
                    ) ==> j == k) ==> exists|b: int|
                0 <= b < basis.semantic_bases@.len() && (
                #[trigger] basis.semantic_bases@[b]).snapshot == snapshot
        }),
{
    let payloads = candidate.evidence.provider_payloads@;
    let positions = semantic_basis::admitted_positions(candidate.snapshots@, payloads);
    semantic_basis::law_admitted_snapshots_are_the_backed_ones(candidate.snapshots@, payloads, p);
    if positions.contains(p) {
        let b = positions.index_of(p);
        assert(run.structural_basis->0.semantic_bases@[b].snapshot == candidate.snapshots@[p].0);
    }
}

/// From the extraction to the report nothing is lost or mixed up: the report of a run counts
/// the sources that were found, those that changed and those that did not, the recorded files
/// that are gone from disk, the symbols of the outputs, and what building the graph counted.
pub proof fn law_run_reports_what_was_found_and_built(
    report: IndexReport,
    result: BlockingPhaseResult,
    extracted: ExtractedSources,
    prior: KnowledgeGraph,
    inventory: ProjectInventory,
    built: KnowledgeGraph,
    stats: GraphBuildStats,
    on_disk: Set<Seq<char>>,
    scan_elapsed: Duration,
)
    requires
        is_structural_result(result, extracted, prior, inventory, built, stats),
        reports_scan(
            report,
            result.files_discovered as int,
            result.changed@.len() as int,
            result.unchanged_count as int,
            gone(result.deleted_paths.deep_view(), on_disk),
            scan_elapsed,
        ),
        reports_build(report, result),
    ensures
        report.files_discovered == extracted.sources@.len(),
        report.files_changed == extracted.diff.changed@.len(),
        report.files_unchanged == extracted.diff.unchanged_count,
        report.files_deleted == extracted.diff.deleted_paths.deep_view().filter(
            missing(on_disk),
        ).len(),
        report.symbols_extracted == symbols_of(extracted.outputs@),
        report.nodes_added == stats.nodes_added,
        report.edges_added == stats.edges_added,
        report.edges_skipped_external_relation == stats.edges_skipped_external_relation,
        report.edges_skipped_other == stats.edges_skipped_other,
        report.external_traits_synthesized == stats.external_traits_synthesized,
        report.phase_timings@.len() == 1,
        report.phase_timings@[0].phase is StructuralScan,
        report.phase_timings@[0].duration == scan_elapsed,
        report.phase_timings@[0].aggregation is Exclusive,
{
    law_deleted_files_are_gone_from_disk(extracted.diff.deleted_paths.deep_view(), on_disk);
    let rows = report.phase_timings.deep_view();
    assert(rows.len() == report.phase_timings@.len());
    assert(rows[0] == report.phase_timings@[0].deep_view());
}

/// What the extraction left is handed on as it is: what changed and what is gone, every output,
/// the facts of every source, every failure, and the inputs of the sources in their order. What
/// was built is a valid graph if it came as one.
pub proof fn law_extraction_is_handed_on(
    result: BlockingPhaseResult,
    extracted: ExtractedSources,
    prior: KnowledgeGraph,
    inventory: ProjectInventory,
    built: KnowledgeGraph,
    stats: GraphBuildStats,
    i: int,
)
    requires
        is_structural_result(result, extracted, prior, inventory, built, stats),
        0 <= i < extracted.sources@.len(),
    ensures
        result.changed == extracted.diff.changed,
        result.deleted_paths == extracted.diff.deleted_paths,
        result.outputs == extracted.outputs,
        result.document_facts == extracted.document_facts,
        result.extraction_errors == extracted.extraction_errors,
        result.project_inventory == inventory,
        result.source_inputs.deep_view().len() == extracted.sources@.len(),
        result.source_inputs.deep_view()[i] == source_diff::inputs_of(extracted.sources@)[i],
        built.wf() ==> result.graph.wf(),
{
}

/// A run that has only been scanned claims nothing beyond it: no earlier generation, no totals,
/// no reachability and no provider; and one that built nothing counts nothing built.
pub proof fn law_scan_claims_nothing_more(
    report: IndexReport,
    discovered: int,
    changed: int,
    unchanged: int,
    deleted: nat,
    scan_elapsed: Duration,
)
    requires
        reports_scan(report, discovered, changed, unchanged, deleted, scan_elapsed),
        reports_no_build(report),
    ensures
        report.files_discovered == discovered,
        report.files_changed == changed,
        report.files_unchanged == unchanged,
        report.files_deleted == deleted,
        !report.reused_generation && !report.live_structural_basis_reused,
        report.reusable_file_records == 0 && report.reusable_document_fact_sets == 0,
        report.preindex_basis_rows_persisted == 0,
        report.nodes_total == 0 && report.edges_total == 0,
        report.reachability is None && report.semantic_provider_refreshes@.len() == 0,
        report.symbols_extracted == 0 && report.nodes_added == 0 && report.edges_added == 0,
        report.edges_skipped_external_relation == 0 && report.edges_skipped_other == 0,
        report.external_traits_synthesized == 0,
{
}

/// The totals of a run are the sizes of its final graph, and everything that was reported before
/// stays. Reachability is reported exactly where some evidence of it exists.
pub proof fn law_totals_are_those_of_the_final_graph(
    report: IndexReport,
    before: IndexReport,
    graph: KnowledgeGraph,
    has_evidence: bool,
)
    requires
        reports_totals(report, before, graph, has_evidence),
    ensures
        report.nodes_total == graph.nodes().len(),
        report.edges_total == graph.edges().len(),
        report.reachability is Some <==> has_evidence,
        report.reachability is Some ==> graph_stats::summarizes(
            report.reachability->0,
            graph.nodes(),
        ),
        report.files_discovered == before.files_discovered,
        report.files_changed == before.files_changed,
        report.files_unchanged == before.files_unchanged,
        report.files_deleted == before.files_deleted,
        report.symbols_extracted == before.symbols_extracted,
        report.nodes_added == before.nodes_added,
        report.edges_added == before.edges_added,
        report.phase_timings == before.phase_timings,
        report.duration == before.duration,
{
}

/// The rows of binding payloads show where there is a payload, each with its own span, and take
/// no part in a sum. The profile's rows show where a profile is collected, a row for each step
/// of building the graph behind those of the phases.
pub proof fn law_overlapping_rows_are_shown_where_they_exist(
    payloads: nat,
    t: ProviderPayloadCanonicalizationTimings,
    profiler: ProfileCollector,
)
    ensures
        payloads == 0 ==> payload_rows(payloads, t).len() == 0,
        payloads > 0 ==> payload_rows(payloads, t).len() == 2 && payload_rows(
            payloads,
            t,
        )[0].duration == t.serialization && payload_rows(payloads, t)[1].duration == t.descriptor,
        index_timing::exclusive_nanos(payload_rows(payloads, t)) == 0,
        !profiler.enabled ==> profile_rows(profiler).len() == 0,
        profiler.enabled ==> profile_rows(profiler).len() == index_timing::phase_rows(
            profiler.phase_timings@,
        ).len() + profiler.graph_build_steps@.len(),
{
    let rows = payload_rows(payloads, t);
    reveal_with_fuel(index_timing::exclusive_nanos, 3);
    if payloads > 0 {
        assert(rows.drop_last().len() == 1);
        assert(rows.drop_last()[0] == rows[0]);
        assert(rows.drop_last().drop_last() =~= Seq::empty());
    }
}

/// The report of an accepted candidate is the candidate's own, with its whole time and the rows
/// of its finalization and its profile behind the earlier ones.
pub proof fn law_accepted_report_is_the_candidates_own(
    run: PreparedIndexRun,
    candidate: CandidateRun,
    finalize_elapsed: Duration,
    total_elapsed: Duration,
    profiler: ProfileCollector,
)
    requires
        is_prepared(run, candidate, finalize_elapsed, total_elapsed, profiler),
    ensures
        ({
            let told = run.outcome->Completed_telemetry;
            let before = candidate.report.phase_timings.deep_view();
            let rows = told.phase_timings.deep_view();
            &&& told.duration == total_elapsed
            &&& rows.take(before.len() as int) == before
            &&& rows.len() == before.len() + 1 + profile_rows(profiler).len()
            &&& rows[before.len() as int].phase is Finalize
            &&& rows[before.len() as int].duration == finalize_elapsed
            &&& rows[before.len() as int].aggregation is Exclusive
            &&& told.nodes_total == candidate.report.nodes_total
            &&& told.edges_total == candidate.report.edges_total
            &&& told.files_discovered == candidate.report.files_discovered
            &&& told.symbols_extracted == candidate.report.symbols_extracted
            &&& told.reachability == candidate.report.reachability
        }),
{
    let told = run.outcome->Completed_telemetry;
    let before = candidate.report.phase_timings.deep_view();
    assert(told.phase_timings.deep_view().take(before.len() as int) =~= before);
}

} // verus!
