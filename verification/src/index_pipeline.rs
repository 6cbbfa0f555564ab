//! The indexing pipeline: from the sources of a project to a candidate generation.
//!
//! A run goes through stages. Each stage takes what the outside world answered, and
//! hands on what the next one may build on. A cancelled run ends at the next stage.

use vstd::prelude::*;

use crate::digest;
use crate::domain::ProjectInventory;
use crate::duration::Duration;
use crate::graph::KnowledgeGraph;
use crate::graph_stats::ReachabilitySummary;
use crate::graph_store::{GraphPublicationProof, GraphStoreError};
use crate::index_config::IndexConfig;
use crate::index_evidence;
use crate::index_evidence::IndexEvidence;
use crate::index_state::{
    ExtractorOutput, FactsModel, FileRecord, IndexStatePublicationProof, RecordModel, StateFailure,
};
use crate::index_tables;
use crate::indexed_source_authority;
use crate::index_tables::{IncrementalIndexBasis, IndexState};
use crate::index_timing::{GraphBuildStepTiming, IndexPhaseTiming};
use crate::language;
use crate::language::{extensions_for_languages, language_for_extension};
use crate::ordered;
use crate::ordered::StringMap;
use crate::pipeline_error::IndexPipelineError;
use crate::provider_activity::SemanticProviderActivityTelemetry;
use crate::run_records;
use crate::semantic_basis::CanonicalSemanticBasis;
use crate::semantic_plan;
use crate::semantic_plan::configured_calls_languages;
use crate::sorting;
use crate::source_diff;
use crate::source_diff::{
    assemble_document_facts, diff_sources, measure_source, partition_results, paths_to_invalidate,
    MeasuredSource, SourceDiff,
};
use crate::source_freshness::DiscoveredFile;
use crate::structural_inputs::{InputModel, SourceInput};

verus! {

/// The language of a file extension.
pub fn extension_to_language(ext: &str) -> (r: Option<&'static str>)
    ensures
        match r {
            Some(language) => language::language_of(ext@) == Some(language@),
            None => language::language_of(ext@) is None,
        },
{
    language_for_extension(ext)
}

/// The extensions that a run looks for: every registered one, or those of the configured
/// languages.
pub fn supported_extensions(config: &IndexConfig) -> (r: StringMap<()>)
    ensures
        forall|extension: Seq<char>| #[trigger]
            r@.dom().contains(extension) <==> language::selects(
                config.languages.deep_view(),
                extension,
            ),
{
    extensions_for_languages(&config.languages)
}

/// What a run found and did.
#[derive(Debug)]
pub struct IndexReport {
    /// The current generation was verified and kept.
    pub reused_generation: bool,
    pub files_discovered: usize,
    pub files_changed: usize,
    pub files_unchanged: usize,
    /// Files that are recorded but no longer on disk.
    pub files_deleted: usize,
    pub reusable_file_records: usize,
    pub reusable_document_fact_sets: usize,
    pub preindex_basis_rows_persisted: usize,
    pub live_structural_basis_reused: bool,
    pub symbols_extracted: usize,
    pub nodes_added: usize,
    pub edges_added: usize,
    pub nodes_total: usize,
    pub edges_total: usize,
    pub reachability: Option<ReachabilitySummary>,
    pub edges_skipped_external_relation: usize,
    pub edges_skipped_other: usize,
    pub external_traits_synthesized: usize,
    pub duration: Duration,
    pub phase_timings: Vec<IndexPhaseTiming>,
    pub semantic_provider_refreshes: Vec<SemanticProviderActivityTelemetry>,
}

impl IndexReport {
    /// Nothing was found or done.
    pub open spec fn is_blank(self) -> bool {
        &&& !self.reused_generation
        &&& self.files_discovered == 0
        &&& self.files_changed == 0
        &&& self.files_unchanged == 0
        &&& self.files_deleted == 0
        &&& self.reusable_file_records == 0
        &&& self.reusable_document_fact_sets == 0
        &&& self.preindex_basis_rows_persisted == 0
        &&& !self.live_structural_basis_reused
        &&& self.symbols_extracted == 0
        &&& self.nodes_added == 0
        &&& self.edges_added == 0
        &&& self.nodes_total == 0
        &&& self.edges_total == 0
        &&& self.reachability is None
        &&& self.edges_skipped_external_relation == 0
        &&& self.edges_skipped_other == 0
        &&& self.external_traits_synthesized == 0
        &&& self.duration.nanos == 0
        &&& self.phase_timings@.len() == 0
        &&& self.semantic_provider_refreshes@.len() == 0
    }
}

impl Default for IndexReport {
    fn default() -> (r: Self)
        ensures
            r.is_blank(),
    {
        IndexReport {
            reused_generation: false,
            files_discovered: 0,
            files_changed: 0,
            files_unchanged: 0,
            files_deleted: 0,
            reusable_file_records: 0,
            reusable_document_fact_sets: 0,
            preindex_basis_rows_persisted: 0,
            live_structural_basis_reused: false,
            symbols_extracted: 0,
            nodes_added: 0,
            edges_added: 0,
            nodes_total: 0,
            edges_total: 0,
            reachability: None,
            edges_skipped_external_relation: 0,
            edges_skipped_other: 0,
            external_traits_synthesized: 0,
            duration: Duration::zero(),
            phase_timings: Vec::new(),
            semantic_provider_refreshes: Vec::new(),
        }
    }
}

/// How a run ended. Only a completed one has evidence that may be published.
#[derive(Debug)]
pub enum IndexRunOutcome {
    DryRun { telemetry: IndexReport },
    Completed {
        telemetry: IndexReport,
        evidence: IndexEvidence,
        publication_proof: Option<GraphPublicationProof>,
        index_state_publication_proof: IndexStatePublicationProof,
    },
}

impl IndexRunOutcome {
    pub open spec fn telemetry_spec(self) -> IndexReport {
        match self {
            IndexRunOutcome::DryRun { telemetry } => telemetry,
            IndexRunOutcome::Completed { telemetry, .. } => telemetry,
        }
    }

    pub fn telemetry(&self) -> (r: &IndexReport)
        ensures
            *r == self.telemetry_spec(),
    {
        match self {
            IndexRunOutcome::DryRun { telemetry } => telemetry,
            IndexRunOutcome::Completed { telemetry, .. } => telemetry,
        }
    }

    pub fn evidence(&self) -> (r: Option<&IndexEvidence>)
        ensures
            match r {
                Some(evidence) => self is Completed && *evidence == self->evidence,
                None => self is DryRun,
            },
    {
        match self {
            IndexRunOutcome::DryRun { .. } => None,
            IndexRunOutcome::Completed { evidence, .. } => Some(evidence),
        }
    }
}

/// What a later run may build on, once the candidate is published.
#[derive(Debug)]
pub struct CompletedStructuralBasis {
    pub source: IncrementalIndexBasis,
    pub graph: KnowledgeGraph,
    pub semantic_bases: Vec<CanonicalSemanticBasis>,
}

/// A validated basis from a preceding generation.
#[derive(Debug)]
pub struct IncrementalPipelineBasis {
    pub source: IncrementalIndexBasis,
    pub graph: Option<KnowledgeGraph>,
    pub semantic_bases: Vec<CanonicalSemanticBasis>,
    pub project_inventory: ProjectInventory,
}

/// A run that ended, with what the next one may build on.
#[derive(Debug)]
pub struct PreparedIndexRun {
    pub outcome: IndexRunOutcome,
    pub structural_basis: Option<CompletedStructuralBasis>,
}

/// The pipeline.
#[derive(Debug, Clone, Copy, PartialEq, Eq, Structural)]
pub struct IndexPipeline;

/// A run whose source basis is chosen.
#[derive(Debug)]
pub struct OpenedRun {
    pub existing_files: StringMap<FileRecord>,
    pub existing_facts: StringMap<ExtractorOutput>,
    pub graph: Option<KnowledgeGraph>,
    pub semantic_bases: Vec<CanonicalSemanticBasis>,
    pub prior_inventory: Option<ProjectInventory>,
    /// The basis was handed in, not read from the state.
    pub external_basis: bool,
    pub configured_calls_languages: StringMap<()>,
}

/// The records by path, later ones in place of earlier ones.
pub open spec fn records_by_path(files: Seq<(Seq<char>, RecordModel)>) -> Map<
    Seq<char>,
    RecordModel,
>
    decreases files.len(),
{
    if files.len() == 0 {
        Map::empty()
    } else {
        records_by_path(files.drop_last()).insert(files.last().0, files.last().1)
    }
}

/// The facts by path, later ones in place of earlier ones.
pub open spec fn facts_by_path(facts: Seq<FactsModel>) -> Map<Seq<char>, FactsModel>
    decreases facts.len(),
{
    if facts.len() == 0 {
        Map::empty()
    } else {
        facts_by_path(facts.drop_last()).insert(facts.last().path, facts.last())
    }
}

/// The facts of a map, as plain text.
pub open spec fn fact_models(m: Map<Seq<char>, ExtractorOutput>) -> Map<Seq<char>, FactsModel> {
    m.map_values(|facts: ExtractorOutput| facts.deep_view())
}

fn index_records(files: Vec<(String, FileRecord)>) -> (r: StringMap<FileRecord>)
    ensures
        run_records::models(r@) == records_by_path(files.deep_view()),
{
    let ghost all = files.deep_view();
    let ghost whole = files@;
    let mut r: StringMap<FileRecord> = StringMap::new();
    assert(run_records::models(r@) =~= records_by_path(all.take(0)));
    for item in it: files.into_iter()
        invariant
            it.seq() == whole,
            all.len() == whole.len(),
            forall|j: int| 0 <= j < all.len() ==> (#[trigger] all[j]) == (
                whole[j].0@,
                whole[j].1.deep_view(),
            ),
            run_records::models(r@) == records_by_path(all.take(it.index() as int)),
    {
        let ghost i = it.index() as int;
        let ghost before = r@;
        assert(all.take(i + 1).drop_last() =~= all.take(i));
        assert(whole[i] == item);
        assert(all[i] == (item.0@, item.1.deep_view()));
        let (path, record) = item;
        r.insert(path, record);
        assert(run_records::models(r@) =~= run_records::models(before).insert(
            all[i].0,
            all[i].1,
        ));
    }
    assert(all.take(all.len() as int) =~= all);
    r
}

fn index_facts(facts: Vec<ExtractorOutput>) -> (r: StringMap<ExtractorOutput>)
    ensures
        fact_models(r@) == facts_by_path(facts.deep_view()),
{
    let ghost all = facts.deep_view();
    let ghost whole = facts@;
    let mut r: StringMap<ExtractorOutput> = StringMap::new();
    assert(fact_models(r@) =~= facts_by_path(all.take(0)));
    for item in it: facts.into_iter()
        invariant
            it.seq() == whole,
            all.len() == whole.len(),
            forall|j: int| 0 <= j < all.len() ==> (#[trigger] all[j]) == whole[j].deep_view(),
            fact_models(r@) == facts_by_path(all.take(it.index() as int)),
    {
        let ghost i = it.index() as int;
        let ghost before = r@;
        assert(all.take(i + 1).drop_last() =~= all.take(i));
        assert(whole[i] == item);
        assert(all[i] == item.deep_view());
        let path = item.file_path.clone();
        r.insert(path, item);
        assert(fact_models(r@) =~= fact_models(before).insert(all[i].path, all[i]));
    }
    assert(all.take(all.len() as int) =~= all);
    r
}

/// The run is opened on these records and facts.
pub open spec fn opens_on(
    run: OpenedRun,
    files: Seq<(Seq<char>, RecordModel)>,
    facts: Seq<FactsModel>,
) -> bool {
    &&& run_records::models(run.existing_files@) == records_by_path(files)
    &&& fact_models(run.existing_facts@) == facts_by_path(facts)
}

/// What a graph store answered.
#[derive(Debug)]
pub enum GraphBasisLoad {
    /// There is no store.
    NoStore,
    /// The snapshot, if there is a usable one, and whether tables were cleared.
    Loaded { graph: Option<KnowledgeGraph>, cleared: bool },
    Failed(GraphStoreError),
}

/// A run with its graph basis.
#[derive(Debug)]
pub struct StructuralRun {
    pub existing_files: StringMap<FileRecord>,
    pub existing_facts: StringMap<ExtractorOutput>,
    pub graph: KnowledgeGraph,
    /// Every source is extracted, whatever is known of it.
    pub full: bool,
    pub semantic_bases: Vec<CanonicalSemanticBasis>,
    pub prior_inventory: Option<ProjectInventory>,
    pub configured_calls_languages: StringMap<()>,
}

/// Records without a graph that they belong to: nothing unchanged can be relied on.
pub open spec fn graph_basis_missing(
    graph: Option<KnowledgeGraph>,
    records: nat,
    external_basis: bool,
) -> bool {
    graph is None && records > 0 && !external_basis
}

/// The run has to extract every source.
pub open spec fn requires_full(run: OpenedRun, load: GraphBasisLoad, requested: bool) -> bool {
    requested || (run.graph is None && match load {
        GraphBasisLoad::Loaded { graph, cleared } => cleared || graph_basis_missing(
            graph,
            run.existing_files.listing().len(),
            run.external_basis,
        ),
        _ => false,
    })
}

/// A graph without nodes, edges or spans.
pub open spec fn is_empty_graph(graph: KnowledgeGraph) -> bool {
    graph.nodes().len() == 0 && graph.edges().len() == 0 && graph.spans().len() == 0
}

/// The graph is the one that was handed in, or the one that was loaded, or empty.
pub open spec fn is_graph_basis(graph: KnowledgeGraph, run: OpenedRun, load: GraphBasisLoad) -> bool {
    match run.graph {
        Some(given) => graph == given,
        None => match load {
            GraphBasisLoad::Loaded { graph: Some(loaded), .. } => graph == loaded,
            _ => is_empty_graph(graph),
        },
    }
}

impl IndexPipeline {
    /// Opens a run on a given basis, or on what the state holds.
    pub fn open(
        state: &IndexState,
        basis: Option<IncrementalPipelineBasis>,
        provider_languages: &Vec<String>,
        cancelled: bool,
    ) -> (r: Result<OpenedRun, IndexPipelineError>)
        ensures
            cancelled ==> r == Err::<OpenedRun, IndexPipelineError>(IndexPipelineError::Cancelled),
            !cancelled ==> match basis {
                Some(basis) => r matches Ok(run) && {
                    &&& opens_on(
                        run,
                        basis.source.files.deep_view(),
                        basis.source.document_facts.deep_view(),
                    )
                    &&& run.graph == basis.graph
                    &&& run.semantic_bases == basis.semantic_bases
                    &&& run.prior_inventory == Some(basis.project_inventory)
                    &&& run.external_basis
                },
                None => match r {
                    Ok(run) => {
                        &&& index_tables::row_fault(state.files.listing(), 0) is None
                        &&& index_tables::fact_fault(state.document_facts.listing(), 0) is None
                        &&& opens_on(
                            run,
                            index_tables::decoded(state.files.listing()),
                            index_tables::decoded_facts(state.document_facts.listing()),
                        )
                        &&& run.graph is None
                        &&& run.semantic_bases@.len() == 0
                        &&& run.prior_inventory is None
                        &&& !run.external_basis
                    },
                    Err(IndexPipelineError::State(e)) => {
                        let fault = match index_tables::row_fault(state.files.listing(), 0) {
                            Some(fault) => Some(fault),
                            None => index_tables::fact_fault(state.document_facts.listing(), 0),
                        };
                        fault is Some && e.deep_view() == StateFailure::Serialization(fault->0)
                    },
                    Err(_) => false,
                },
            },
            r matches Ok(run) ==> forall|language: Seq<char>| #[trigger]
                run.configured_calls_languages@.dom().contains(language)
                    <==> semantic_plan::is_configured(provider_languages.deep_view(), language),
    {
        let configured = configured_calls_languages(provider_languages);
        if cancelled {
            return Err(IndexPipelineError::Cancelled);
        }
        match basis {
            Some(basis) => Ok(
                OpenedRun {
                    existing_files: index_records(basis.source.files),
                    existing_facts: index_facts(basis.source.document_facts),
                    graph: basis.graph,
                    semantic_bases: basis.semantic_bases,
                    prior_inventory: Some(basis.project_inventory),
                    external_basis: true,
                    configured_calls_languages: configured,
                },
            ),
            None => {
                let files = match state.all_files() {
                    Ok(files) => files,
                    Err(e) => {
                        return Err(IndexPipelineError::State(e));
                    },
                };
                let facts = match state.all_document_facts() {
                    Ok(facts) => facts,
                    Err(e) => {
                        return Err(IndexPipelineError::State(e));
                    },
                };
                Ok(
                    OpenedRun {
                        existing_files: index_records(files),
                        existing_facts: index_facts(facts),
                        graph: None,
                        semantic_bases: Vec::new(),
                        prior_inventory: None,
                        external_basis: false,
                        configured_calls_languages: configured,
                    },
                )
            },
        }
    }

    /// The sources that discovery found. `found` is what walking the tree gave.
    pub fn discover(found: Result<Vec<DiscoveredFile>, String>) -> (r: Result<
        Vec<DiscoveredFile>,
        IndexPipelineError,
    >)
        ensures
            match found {
                Ok(files) => r == Ok::<Vec<DiscoveredFile>, IndexPipelineError>(files),
                Err(error) => r == Err::<Vec<DiscoveredFile>, IndexPipelineError>(
                    IndexPipelineError::SourceDiscovery(error),
                ),
            },
    {
        match found {
            Ok(files) => Ok(files),
            Err(error) => Err(IndexPipelineError::SourceDiscovery(error)),
        }
    }

    /// Measures one source. `read` is what reading it gave.
    pub fn measure(file: &DiscoveredFile, read: Result<Vec<u8>, String>, cancelled: bool) -> (r:
        Result<MeasuredSource, IndexPipelineError>)
        ensures
            cancelled ==> r == Err::<MeasuredSource, IndexPipelineError>(
                IndexPipelineError::Cancelled,
            ),
            !cancelled ==> match read {
                Ok(contents) => r matches Ok(source) && source.path@ == file.path@
                    && source.input.deep_view() == measured_input(*file, contents@),
                Err(error) => r == Err::<MeasuredSource, IndexPipelineError>(
                    IndexPipelineError::Io(error),
                ),
            },
    {
        if cancelled {
            return Err(IndexPipelineError::Cancelled);
        }
        match read {
            Ok(contents) => {
                let relative = match &file.relative {
                    Some(relative) => relative.as_str(),
                    None => file.path.as_str(),
                };
                Ok(measure_source(file.path.as_str(), relative, contents.as_slice()))
            },
            Err(error) => Err(IndexPipelineError::Io(error)),
        }
    }
}

/// A source as it was read: its path below the root, its language and its digest.
pub open spec fn measured_input(file: DiscoveredFile, contents: Seq<u8>) -> InputModel {
    InputModel {
        path: match file.relative {
            Some(relative) => relative@,
            None => file.path@,
        },
        language: index_evidence::filed_language(file.path@),
        hash: digest::content_digest(contents),
    }
}

/// How the graph that a run builds on is looked for.
#[derive(Debug, Clone, Copy, PartialEq, Eq, Structural)]
pub enum GraphLoad {
    /// Not at all: one was handed in, or there is no store.
    Nothing,
    /// The store is read and not changed.
    Preview,
    /// The store is read, and a graph that cannot be used is cleared.
    LoadOrClear,
}

impl OpenedRun {
    /// How the run looks for its graph. A dry run never changes the store.
    pub fn graph_load(&self, config: &IndexConfig, has_store: bool) -> (r: GraphLoad)
        ensures
            r == (if self.graph is Some || !has_store {
                GraphLoad::Nothing
            } else if config.dry_run {
                GraphLoad::Preview
            } else {
                GraphLoad::LoadOrClear
            }),
    {
        if self.graph.is_some() || !has_store {
            GraphLoad::Nothing
        } else if config.dry_run {
            GraphLoad::Preview
        } else {
            GraphLoad::LoadOrClear
        }
    }

    /// Chooses the graph that the run builds on, and whether known sources can be relied
    /// on at all.
    pub fn choose_graph(self, load: GraphBasisLoad, requested_full: bool, cancelled: bool) -> (r:
        Result<StructuralRun, IndexPipelineError>)
        ensures
            match r {
                Ok(run) => {
                    &&& !cancelled
                    &&& self.graph is Some || !(load is Failed)
                    &&& is_graph_basis(run.graph, self, load)
                    &&& run.full == requires_full(self, load, requested_full)
                    &&& run.existing_files == self.existing_files
                    &&& run.existing_facts == self.existing_facts
                    &&& run.semantic_bases == self.semantic_bases
                    &&& run.prior_inventory == self.prior_inventory
                    &&& run.configured_calls_languages == self.configured_calls_languages
                },
                Err(error) => if self.graph is None && load is Failed {
                    error == IndexPipelineError::GraphStore(load->Failed_0)
                } else {
                    cancelled && error == IndexPipelineError::Cancelled
                },
            },
    {
        let known = self.existing_files.len();
        let (graph, rebuild) = match self.graph {
            Some(graph) => (graph, false),
            None => match load {
                GraphBasisLoad::NoStore => (KnowledgeGraph::new(), false),
                GraphBasisLoad::Loaded { graph, cleared } => {
                    let missing = graph.is_none() && known > 0 && !self.external_basis;
                    let graph = match graph {
                        Some(graph) => graph,
                        None => KnowledgeGraph::new(),
                    };
                    (graph, cleared || missing)
                },
                GraphBasisLoad::Failed(error) => {
                    return Err(IndexPipelineError::GraphStore(error));
                },
            },
        };
        if cancelled {
            return Err(IndexPipelineError::Cancelled);
        }
        Ok(
            StructuralRun {
                existing_files: self.existing_files,
                existing_facts: self.existing_facts,
                graph,
                full: requested_full || rebuild,
                semantic_bases: self.semantic_bases,
                prior_inventory: self.prior_inventory,
                configured_calls_languages: self.configured_calls_languages,
            },
        )
    }
}

/// A cleared graph, or records without a graph, always lead to a full extraction.
pub proof fn law_unusable_graph_forces_full_extraction(
    run: OpenedRun,
    graph: Option<KnowledgeGraph>,
    cleared: bool,
    requested: bool,
)
    requires
        run.graph is None,
        cleared || (graph is None && run.existing_files.listing().len() > 0
            && !run.external_basis),
    ensures
        requires_full(run, GraphBasisLoad::Loaded { graph, cleared }, requested),
{
}

/// The sources of a run, measured and compared with what is known.
#[derive(Debug)]
pub struct ScannedSources {
    pub sources: Vec<MeasuredSource>,
    pub diff: SourceDiff,
}

/// The sources of a run with what extraction made of them.
#[derive(Debug)]
pub struct ExtractedSources {
    pub sources: Vec<MeasuredSource>,
    pub diff: SourceDiff,
    pub outputs: Vec<ExtractorOutput>,
    /// Path and message of each failed extraction.
    pub extraction_errors: Vec<(String, String)>,
    pub document_facts: Vec<ExtractorOutput>,
    /// The files whose nodes leave the graph before it is built on.
    pub invalidated: Vec<String>,
}

/// What building the graph did.
#[derive(Debug)]
pub struct GraphBuildStats {
    pub nodes_added: usize,
    pub edges_added: usize,
    pub edges_skipped_external_relation: usize,
    pub edges_skipped_other: usize,
    pub external_traits_synthesized: usize,
    pub profile_timings: Vec<GraphBuildStepTiming>,
}

/// What the structural phases of a run left.
#[derive(Debug)]
pub struct BlockingPhaseResult {
    pub files_discovered: usize,
    /// The positions of the changed sources.
    pub changed: Vec<usize>,
    pub unchanged_count: usize,
    pub deleted_paths: Vec<String>,
    pub outputs: Vec<ExtractorOutput>,
    pub document_facts: Vec<ExtractorOutput>,
    pub extraction_errors: Vec<(String, String)>,
    pub source_inputs: Vec<SourceInput>,
    pub project_inventory: ProjectInventory,
    pub graph: KnowledgeGraph,
    pub build_stats: GraphBuildStats,
}

/// The positions are those of sources.
pub open spec fn positions_fit(diff: SourceDiff, sources: Seq<MeasuredSource>) -> bool {
    forall|i: int| 0 <= i < diff.changed@.len() ==> #[trigger] diff.changed@[i] < sources.len()
}

/// The scan compares these sources with what the run knows.
pub open spec fn is_scan_of(scan: ScannedSources, run: StructuralRun, sources: Seq<MeasuredSource>) -> bool {
    let inputs = source_diff::inputs_of(sources);
    &&& scan.sources@ == sources
    &&& positions_fit(scan.diff, sources)
    &&& scan.diff.changed@ == source_diff::changed_positions(
        run.full,
        inputs,
        run.existing_files@,
        run.existing_facts@,
    )
    &&& scan.diff.unchanged_count + scan.diff.changed@.len() == sources.len()
    &&& scan.diff.deleted_paths.deep_view() == sorting::listed(
        run.existing_files@.dom().difference(source_diff::source_paths(inputs)),
    )
}

/// The paths of the changed sources, as they are found on disk.
pub open spec fn changed_files(scan: ScannedSources) -> Seq<Seq<char>> {
    scan.diff.changed@.map_values(|k: usize| scan.sources@[k as int].path@)
}

impl ScannedSources {
    /// The files to extract, in order.
    pub fn extraction_paths(&self) -> (r: Vec<String>)
        requires
            positions_fit(self.diff, self.sources@),
        ensures
            r.deep_view() == changed_files(*self),
    {
        let mut r: Vec<String> = Vec::new();
        for i in 0..self.diff.changed.len()
            invariant
                positions_fit(self.diff, self.sources@),
                r@.len() == i,
                forall|j: int|
                    0 <= j < i ==> (#[trigger] r@[j])@ == self.sources@[self.diff.changed@[j] as int].path@,
        {
            r.push(self.sources[self.diff.changed[i]].path.clone());
        }
        assert(r.deep_view() =~= changed_files(*self));
        r
    }
}

/// The paths of the changed sources below the root.
pub open spec fn changed_paths(scan: ScannedSources) -> Seq<Seq<char>> {
    scan.diff.changed@.map_values(|k: usize| scan.sources@[k as int].input.relative_path@)
}

/// The failed extractions, by path below the root.
pub open spec fn failures_of(paths: Seq<Seq<char>>, results: Seq<Result<ExtractorOutput, String>>) -> Seq<
    (Seq<char>, Seq<char>),
>
    decreases results.len(),
{
    if results.len() == 0 {
        seq![]
    } else {
        let before = failures_of(paths, results.drop_last());
        match results.last() {
            Ok(_) => before,
            Err(message) => before.push((paths[results.len() - 1], message@)),
        }
    }
}

/// Extraction of the scan gave these results.
pub open spec fn is_extraction_of(
    extracted: ExtractedSources,
    run: StructuralRun,
    scan: ScannedSources,
    results: Seq<Result<ExtractorOutput, String>>,
) -> bool {
    let inputs = source_diff::inputs_of(scan.sources@);
    &&& extracted.sources == scan.sources
    &&& extracted.diff == scan.diff
    &&& extracted.outputs@ == source_diff::extracted(results)
    &&& extracted.extraction_errors.deep_view() == failures_of(changed_paths(scan), results)
    &&& extracted.document_facts.deep_view() == source_diff::assembled_facts(
        run.full,
        inputs,
        extracted.outputs@,
        run.existing_files@,
        run.existing_facts@,
    )
    &&& extracted.invalidated.deep_view() == if run.graph.nodes().len() > 0 {
        changed_paths(scan) + scan.diff.deleted_paths.deep_view()
    } else {
        seq![]
    }
}

impl StructuralRun {
    /// Compares the measured sources with what is known.
    pub fn scan(&self, sources: Vec<MeasuredSource>, cancelled: bool) -> (r: Result<
        ScannedSources,
        IndexPipelineError,
    >)
        ensures
            match r {
                Ok(scan) => !cancelled && is_scan_of(scan, *self, sources@),
                Err(error) => cancelled && error == IndexPipelineError::Cancelled,
            },
    {
        let diff = diff_sources(self.full, &sources, &self.existing_files, &self.existing_facts);
        if cancelled {
            return Err(IndexPipelineError::Cancelled);
        }
        Ok(ScannedSources { sources, diff })
    }

    /// Takes in the results of extraction, one for each changed source, in order.
    pub fn absorb(
        &self,
        scan: ScannedSources,
        results: Vec<Result<ExtractorOutput, String>>,
        cancelled: bool,
    ) -> (r: Result<ExtractedSources, IndexPipelineError>)
        requires
            positions_fit(scan.diff, scan.sources@),
            results@.len() == scan.diff.changed@.len(),
        ensures
            match r {
                Ok(extracted) => !cancelled && is_extraction_of(extracted, *self, scan, results@),
                Err(error) => cancelled && error == IndexPipelineError::Cancelled,
            },
    {
        if cancelled {
            return Err(IndexPipelineError::Cancelled);
        }
        let mut paths: Vec<String> = Vec::new();
        for i in 0..scan.diff.changed.len()
            invariant
                positions_fit(scan.diff, scan.sources@),
                paths@.len() == i,
                forall|j: int|
                    0 <= j < i ==> (#[trigger] paths@[j])@
                        == scan.sources@[scan.diff.changed@[j] as int].input.relative_path@,
        {
            paths.push(scan.sources[scan.diff.changed[i]].input.relative_path.clone());
        }
        assert(paths.deep_view() =~= changed_paths(scan));
        let ghost given = results@;
        let (outputs, extraction_errors) = partition_results(&paths, results);
        proof {
            lemma_failures(paths@, changed_paths(scan), given);
        }
        let document_facts = assemble_document_facts(
            self.full,
            &scan.sources,
            &outputs,
            &self.existing_files,
            &self.existing_facts,
        );
        let invalidated = if self.graph.node_count() > 0 {
            paths_to_invalidate(&scan.sources, &scan.diff)
        } else {
            let none: Vec<String> = Vec::new();
            assert(none.deep_view() =~= seq![]);
            none
        };
        Ok(
            ExtractedSources {
                sources: scan.sources,
                diff: scan.diff,
                outputs,
                extraction_errors,
                document_facts,
                invalidated,
            },
        )
    }
}

proof fn lemma_failures(
    paths: Seq<String>,
    texts: Seq<Seq<char>>,
    results: Seq<Result<ExtractorOutput, String>>,
)
    requires
        results.len() <= paths.len(),
        texts.len() == paths.len(),
        forall|i: int| 0 <= i < paths.len() ==> (#[trigger] paths[i])@ == texts[i],
    ensures
        source_diff::failed(paths, results) == failures_of(texts, results),
    decreases results.len(),
{
    if results.len() > 0 {
        lemma_failures(paths, texts, results.drop_last());
    }
}

proof fn lemma_facts_by_path(list: Seq<FactsModel>, path: Seq<char>)
    ensures
        facts_by_path(list).dom().contains(path) <==> exists|k: int|
            0 <= k < list.len() && (#[trigger] list[k]).path == path,
        facts_by_path(list).dom().contains(path) ==> exists|k: int|
            0 <= k < list.len() && (#[trigger] list[k]).path == path && facts_by_path(list)[path]
                == list[k],
    decreases list.len(),
{
    if list.len() > 0 {
        let front = list.drop_last();
        let n = list.len() - 1;
        lemma_facts_by_path(front, path);
        if list[n].path != path && facts_by_path(list).dom().contains(path) {
            let k = choose|k: int|
                0 <= k < front.len() && (#[trigger] front[k]).path == path && facts_by_path(
                    front,
                )[path] == front[k];
            assert(list[k] == front[k]);
        }
        assert forall|k: int| 0 <= k < list.len() && (#[trigger] list[k]).path == path implies
            facts_by_path(list).dom().contains(path) by {
            if k < n {
                assert(front[k] == list[k]);
            }
        }
    }
}

/// A later incremental run over the same bytes, opened on what a run stored, extracts a
/// source exactly if the run ended without facts about it: what was covered is left alone,
/// and what failed is tried again. Extraction was of the bytes that were measured.
pub proof fn law_next_run_extracts_only_what_lacks_facts(
    run: StructuralRun,
    inputs: Seq<InputModel>,
    outputs: Seq<ExtractorOutput>,
    errors: Seq<(String, String)>,
    now: i64,
    next: OpenedRun,
    list: Seq<(Seq<char>, RecordModel)>,
    i: int,
)
    requires
        run_records::distinct_sources(inputs),
        run_records::failures_are_bare(
            run.full,
            run.existing_files@,
            run.existing_facts@,
            inputs,
            outputs,
            errors,
        ),
        0 <= i < inputs.len(),
        source_diff::fresh_facts(outputs, inputs[i].path) matches Some(output) ==> output.file_hash@
            == inputs[i].hash,
        run_records::lists(
            list,
            run_records::final_records(run.existing_files@, inputs, outputs, errors, now),
        ),
        opens_on(
            next,
            list,
            source_diff::assembled_facts(
                run.full,
                inputs,
                outputs,
                run.existing_files@,
                run.existing_facts@,
            ),
        ),
    ensures
        source_diff::needs_extraction(
            false,
            inputs[i],
            next.existing_files@,
            next.existing_facts@,
        ) <==> source_diff::current_facts(
            inputs[i],
            outputs,
            source_diff::needs_extraction(
                run.full,
                inputs[i],
                run.existing_files@,
                run.existing_facts@,
            ),
            run.existing_facts@,
        ) is None,
{
    let files = run.existing_files@;
    let facts = run.existing_facts@;
    let path = inputs[i].path;
    let extracting = source_diff::needs_extraction(run.full, inputs[i], files, facts);
    let own = source_diff::current_facts(inputs[i], outputs, extracting, facts);
    let assembled = source_diff::assembled_facts(run.full, inputs, outputs, files, facts);
    let records = run_records::final_records(files, inputs, outputs, errors, now);
    assert(fact_models(next.existing_facts@).dom() =~= next.existing_facts@.dom());
    assert(run_records::models(next.existing_files@).dom() =~= next.existing_files@.dom());
    lemma_facts_by_path(assembled, path);
    lemma_records_by_path(list, path);
    if facts_by_path(assembled).dom().contains(path) {
        let k = choose|k: int|
            0 <= k < assembled.len() && (#[trigger] assembled[k]).path == path && facts_by_path(
                assembled,
            )[path] == assembled[k];
        let source = run_records::lemma_assembled_source(
            run.full,
            inputs,
            outputs,
            files,
            facts,
            k,
        );
        assert(inputs[source].path == inputs[i].path);
        assert(source == i);
        assert(own == Some(assembled[k]));
        source_diff::lemma_fresh_path(outputs, path);
        run_records::law_records_back_the_facts(
            run.full,
            files,
            facts,
            inputs,
            outputs,
            errors,
            now,
            i,
        );
        assert(records.dom().contains(path));
        assert(run_records::paths_of(list).contains(path));
        let p = run_records::paths_of(list).index_of(path);
        assert(list[p].0 == path);
        let q = choose|q: int|
            0 <= q < list.len() && (#[trigger] list[q]).0 == path && records_by_path(list)[path]
                == list[q].1;
        assert(records[list[q].0] == list[q].1);
        assert(fact_models(next.existing_facts@)[path]
            == next.existing_facts@[path].deep_view());
        assert(run_records::models(next.existing_files@)[path]
            == next.existing_files@[path].deep_view());
    } else if own is Some {
        let k = run_records::lemma_assembled_holds(
            run.full,
            inputs,
            outputs,
            files,
            facts,
            i,
        );
        assert(assembled[k].path == path);
    }
}

proof fn lemma_records_by_path(list: Seq<(Seq<char>, RecordModel)>, path: Seq<char>)
    ensures
        records_by_path(list).dom().contains(path) <==> exists|k: int|
            0 <= k < list.len() && (#[trigger] list[k]).0 == path,
        records_by_path(list).dom().contains(path) ==> exists|k: int|
            0 <= k < list.len() && (#[trigger] list[k]).0 == path && records_by_path(list)[path]
                == list[k].1,
    decreases list.len(),
{
    if list.len() > 0 {
        let front = list.drop_last();
        let n = list.len() - 1;
        lemma_records_by_path(front, path);
        if list[n].0 != path && records_by_path(list).dom().contains(path) {
            let k = choose|k: int|
                0 <= k < front.len() && (#[trigger] front[k]).0 == path && records_by_path(
                    front,
                )[path] == front[k].1;
            assert(list[k] == front[k]);
        }
        assert forall|k: int| 0 <= k < list.len() && (#[trigger] list[k]).0 == path implies
            records_by_path(list).dom().contains(path) by {
            if k < n {
                assert(front[k] == list[k]);
            }
        }
    }
}

/// A run extracts every source exactly if it was asked to, or if it was handed no graph and
/// the store cleared what it had, or had none for the records that the state holds.
pub proof fn law_full_extraction_is_exact(run: OpenedRun, load: GraphBasisLoad, requested: bool)
    ensures
        requires_full(run, load, requested) <==> {
            ||| requested
            ||| run.graph is None && load is Loaded && load->cleared
            ||| run.graph is None && load is Loaded && load->graph is None
                && run.existing_files.listing().len() > 0 && !run.external_basis
        },
{
}

/// A run builds on the graph that it was handed; else on the one that the store holds; else on
/// an empty one.
pub proof fn law_handed_graph_outranks_the_store(
    graph: KnowledgeGraph,
    run: OpenedRun,
    load: GraphBasisLoad,
)
    requires
        is_graph_basis(graph, run, load),
    ensures
        run.graph is Some ==> graph == run.graph->0,
        run.graph is None && load is Loaded && load->graph is Some ==> graph == load->graph->0,
        run.graph is None && !(load is Loaded && load->graph is Some) ==> graph.nodes().len() == 0
            && graph.edges().len() == 0 && graph.spans().len() == 0,
{
}

/// A run knows the last record of every path, and of no other path.
pub proof fn law_last_record_is_known(
    files: Seq<(Seq<char>, RecordModel)>,
    path: Seq<char>,
    j: int,
)
    ensures
        0 <= j < files.len() && files[j].0 == path && (forall|l: int|
            j < l < files.len() ==> (#[trigger] files[l]).0 != path) ==> records_by_path(
            files,
        ).dom().contains(path) && records_by_path(files)[path] == files[j].1,
        (forall|l: int| 0 <= l < files.len() ==> (#[trigger] files[l]).0 != path)
            ==> !records_by_path(files).dom().contains(path),
    decreases files.len(),
{
    if files.len() > 0 {
        let n = files.len() - 1;
        let front = files.drop_last();
        law_last_record_is_known(front, path, j);
        assert(files[n] == files.last());
        assert(forall|l: int| 0 <= l < front.len() ==> #[trigger] front[l] == files[l]);
        if 0 <= j < n && files[j].0 == path && (forall|l: int|
            j < l < files.len() ==> (#[trigger] files[l]).0 != path) {
            assert(files[n].0 != path);
            assert(front[j] == files[j]);
        }
        if forall|l: int| 0 <= l < files.len() ==> (#[trigger] files[l]).0 != path {
            assert(files[n].0 != path);
        }
    }
}

/// A run knows the last facts about every path, and about no other path.
pub proof fn law_last_facts_are_known(facts: Seq<FactsModel>, path: Seq<char>, j: int)
    ensures
        0 <= j < facts.len() && facts[j].path == path && (forall|l: int|
            j < l < facts.len() ==> (#[trigger] facts[l]).path != path) ==> facts_by_path(
            facts,
        ).dom().contains(path) && facts_by_path(facts)[path] == facts[j],
        (forall|l: int| 0 <= l < facts.len() ==> (#[trigger] facts[l]).path != path)
            ==> !facts_by_path(facts).dom().contains(path),
    decreases facts.len(),
{
    if facts.len() > 0 {
        let n = facts.len() - 1;
        let front = facts.drop_last();
        law_last_facts_are_known(front, path, j);
        assert(facts[n] == facts.last());
        assert(forall|l: int| 0 <= l < front.len() ==> #[trigger] front[l] == facts[l]);
        if 0 <= j < n && facts[j].path == path && (forall|l: int|
            j < l < facts.len() ==> (#[trigger] facts[l]).path != path) {
            assert(facts[n].path != path);
            assert(front[j] == facts[j]);
        }
        if forall|l: int| 0 <= l < facts.len() ==> (#[trigger] facts[l]).path != path {
            assert(facts[n].path != path);
        }
    }
}

/// A source is measured as it was read: under its path below the root, or under its own where
/// it has none, in the language of its name, with the digest of its bytes.
pub proof fn law_measured_source_is_what_was_read(file: DiscoveredFile, contents: Seq<u8>)
    ensures
        ({
            let input = measured_input(file, contents);
            let found = indexed_source_authority::language_at(file.path@);
            &&& file.relative is Some ==> input.path == file.relative->0@
            &&& file.relative is None ==> input.path == file.path@
            &&& found is Some ==> input.language == found->0
            &&& found is None ==> input.language == "unknown"@
            &&& input.hash == digest::content_digest(contents)
        }),
{
}

/// Every failed extraction is kept with the path of its source and its own words, and no
/// result is lost.
pub proof fn law_failed_extractions_are_kept(
    paths: Seq<Seq<char>>,
    results: Seq<Result<ExtractorOutput, String>>,
)
    ensures
        failures_of(paths, results).len() + source_diff::extracted(results).len() == results.len(),
        forall|i: int|
            0 <= i < results.len() && (#[trigger] results[i]) is Err ==> failures_of(
                paths,
                results,
            ).contains((paths[i], results[i]->Err_0@)),
    decreases results.len(),
{
    if results.len() > 0 {
        let n = results.len() - 1;
        let front = results.drop_last();
        law_failed_extractions_are_kept(paths, front);
        let before = failures_of(paths, front);
        let all = failures_of(paths, results);
        assert forall|i: int| 0 <= i < results.len() && (#[trigger] results[i]) is Err implies
            all.contains((paths[i], results[i]->Err_0@)) by {
            if i < n {
                assert(front[i] == results[i]);
                let k = before.index_of((paths[i], results[i]->Err_0@));
                assert(all[k] == (paths[i], results[i]->Err_0@));
            } else {
                assert(all[all.len() - 1] == (paths[i], results[i]->Err_0@));
            }
        }
    }
}

/// What an incremental run extracts: exactly the sources of which its basis does not hold both
/// a record and facts with their path and digest. The paths that leave a graph that is built on
/// are those of the extracted and of the deleted sources.
pub proof fn law_scan_finds_every_change(
    scan: ScannedSources,
    run: StructuralRun,
    sources: Seq<MeasuredSource>,
    i: int,
)
    requires
        is_scan_of(scan, run, sources),
        0 <= i < sources.len() <= usize::MAX,
    ensures
        ({
            let path = sources[i].input.relative_path@;
            let hash = sources[i].input.content_hash@;
            &&& scan.diff.changed@.contains(i as usize) <==> {
                ||| run.full
                ||| !run.existing_files@.dom().contains(path)
                ||| run.existing_files@[path].blake3_hash@ != hash
                ||| !run.existing_facts@.dom().contains(path)
                ||| run.existing_facts@[path].file_path@ != path
                ||| run.existing_facts@[path].file_hash@ != hash
            }
            &&& !scan.diff.deleted_paths.deep_view().contains(path)
            &&& scan.diff.unchanged_count == sources.len() - scan.diff.changed@.len()
        }),
        forall|path: Seq<char>|
            run.existing_files@.dom().contains(path) && (forall|k: int|
                0 <= k < sources.len() ==> (#[trigger] sources[k]).input.relative_path@ != path)
                ==> #[trigger] scan.diff.deleted_paths.deep_view().contains(path),
{
    let inputs = source_diff::inputs_of(sources);
    assert(inputs[i] == sources[i].input.deep_view());
    source_diff::law_extraction_is_exact(
        run.full,
        inputs,
        run.existing_files@,
        run.existing_facts@,
        i,
    );
    ordered::lemma_finite(run.existing_files.listing());
    source_diff::law_deletion_is_exact(inputs, run.existing_files@);
    assert forall|path: Seq<char>|
        run.existing_files@.dom().contains(path) && (forall|k: int|
            0 <= k < sources.len() ==> (#[trigger] sources[k]).input.relative_path@
                != path) implies #[trigger] scan.diff.deleted_paths.deep_view().contains(path) by {
        assert forall|k: int| 0 <= k < inputs.len() implies (#[trigger] inputs[k]).path != path by {
            assert(inputs[k] == sources[k].input.deep_view());
        }
    }
}

/// A report in which nothing was found or done holds no count, no claim of reuse, no time and no
/// provider.
pub proof fn law_blank_report_claims_nothing(report: IndexReport)
    requires
        report.is_blank(),
    ensures
        !report.reused_generation && !report.live_structural_basis_reused,
        report.files_discovered == 0 && report.files_changed == 0 && report.files_unchanged == 0
            && report.files_deleted == 0,
        report.reusable_file_records == 0 && report.reusable_document_fact_sets == 0
            && report.preindex_basis_rows_persisted == 0,
        report.symbols_extracted == 0 && report.nodes_added == 0 && report.edges_added == 0
            && report.nodes_total == 0 && report.edges_total == 0,
        report.edges_skipped_external_relation == 0 && report.edges_skipped_other == 0
            && report.external_traits_synthesized == 0,
        report.reachability is None && report.duration.nanos == 0,
        report.phase_timings@.len() == 0 && report.semantic_provider_refreshes@.len() == 0,
{
}

/// Extraction keeps the scan that it came from, sources and comparison. The outputs are the
/// results that succeeded, in their order, and what the earlier graph knew of a changed or
/// deleted source is taken out of it: every such path, and nothing where there was no graph.
pub proof fn law_extraction_keeps_its_scan(
    extracted: ExtractedSources,
    run: StructuralRun,
    scan: ScannedSources,
    results: Seq<Result<ExtractorOutput, String>>,
    path: Seq<char>,
)
    requires
        is_extraction_of(extracted, run, scan, results),
    ensures
        extracted.sources == scan.sources,
        extracted.diff == scan.diff,
        run.graph.nodes().len() == 0 ==> extracted.invalidated@.len() == 0,
        run.graph.nodes().len() > 0 ==> (extracted.invalidated.deep_view().contains(path) <==> (
        changed_paths(scan).contains(path) || scan.diff.deleted_paths.deep_view().contains(path))),
{
    let a = changed_paths(scan);
    let b = scan.diff.deleted_paths.deep_view();
    let all = extracted.invalidated.deep_view();
    assert(all.len() == extracted.invalidated@.len());
    if run.graph.nodes().len() > 0 {
        if a.contains(path) {
            let i = a.index_of(path);
            assert(all[i] == path);
        }
        if b.contains(path) {
            let i = b.index_of(path);
            assert(all[i + a.len()] == path);
        }
        if all.contains(path) {
            let i = all.index_of(path);
            if i < a.len() {
                assert(a[i] == path);
            } else {
                assert(b[i - a.len()] == path);
            }
        }
    }
}

/// A scan keeps the sources that were measured, every one of them as changed or unchanged, and
/// its changed positions are positions of sources.
pub proof fn law_scan_keeps_its_sources(
    scan: ScannedSources,
    run: StructuralRun,
    sources: Seq<MeasuredSource>,
    i: int,
)
    requires
        is_scan_of(scan, run, sources),
        0 <= i < scan.diff.changed@.len(),
    ensures
        scan.sources@ == sources,
        scan.diff.changed@[i] < sources.len(),
        scan.diff.unchanged_count + scan.diff.changed@.len() == sources.len(),
{
}

} // verus!
