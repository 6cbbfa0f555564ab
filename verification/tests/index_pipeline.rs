//! The indexing run: configuration, scanning, timings, provider caches and evidence.

use h00ligan_engine::classification::INDEXER_IDENTITY;
use h00ligan_engine::domain::{
    CapabilityCoverage, CapabilityCoverageStatus, CapabilityReceipt, CapabilityScope,
    CapabilityStatus, ConfigurationId, LanguageId, ProjectInventory, ProjectInventoryCoverage, ProjectTopology, ProjectUnit,
    ProjectUnitKind,
};
use h00ligan_engine::duration::Duration;
use h00ligan_engine::go_sources::{
    go_local_path_is_repository_bound, go_mod_local_replacements_are_repository_bound,
    go_mod_local_targets, go_work_local_targets, go_work_uses_are_repository_bound,
    ResolvedTarget,
};
use h00ligan_engine::graph::{GraphNode, KnowledgeGraph, ReachabilityClass};
use h00ligan_engine::graph_store::{GraphStore, GraphStoreError, GraphTables, WorkspaceRoot};
use h00ligan_engine::index_completion::{complete_scan, end_dry_run, StoredRun};
use h00ligan_engine::index_config::{IndexConfig, ScipMode};
use h00ligan_engine::calls_evidence::ProviderPayloadCanonicalizationTimings;
use h00ligan_engine::index_evidence::{
    build_index_evidence, cargo_package_count, ExtractionFindings, IndexEvidence,
};
use h00ligan_engine::index_pipeline::{
    extension_to_language, supported_extensions, BlockingPhaseResult, GraphBasisLoad,
    GraphBuildStats, GraphLoad, IndexPipeline, IndexReport, IndexRunOutcome, OpenedRun, ScannedSources, StructuralRun,
};
use h00ligan_engine::index_state::{
    CaptureGap, ExtractedSymbol, ExtractorOutput, FileRecord, IndexStatePublicationProof,
};
use h00ligan_engine::index_tables::{EncodedFacts, EncodedFile, IndexState};
use h00ligan_engine::index_timing::{
    provider_root_parallelism_for, record_semantic_provider_execution_timings,
    semantic_normalizer_components, FileExtractTiming, IndexProgressPhase,
    IndexTimingAggregation, ProfileCollector, ScipNormalizationTimings,
    SemanticProviderRefreshTiming,
};
use h00ligan_engine::ordered::StringMap;
use h00ligan_engine::pipeline_error::IndexPipelineError;
use h00ligan_engine::provider_activity::{
    record_semantic_provider_activity, ProviderOperation, SemanticProviderActivity,
    SemanticProviderActivityRecord, SemanticProviderActivityTelemetry,
    SemanticProviderAdmittedRefreshKind, SemanticProviderRefreshLane,
};
use h00ligan_engine::provider_cache::{
    cache_paths_overlap, directory_stats, provider_cache_partitions,
    trim_provider_cache_to_budget, CacheEntryStats, LanguageCache, ProviderCacheEntry,
    ToolchainCache,
};
use h00ligan_engine::run_records::final_file_records;
use h00ligan_engine::source_freshness::DiscoveredFile;
use h00ligan_engine::structural_inputs::{
    invocation_provider_configuration_sha256, structural_input_fingerprint,
    structural_receipts_match_records, SourceInput,
};
use sha2::Digest;

/// A writable state over a database without index tables.
fn open_temp() -> IndexState {
    IndexState::new(None, None, None)
}

fn ms(millis: u64) -> Duration {
    Duration::from_millis(millis)
}

fn sum(durations: impl Iterator<Item = Duration>) -> Duration {
    durations.fold(Duration::zero(), |total, duration| total.saturating_add(duration))
}

#[test]
fn semantic_normalizer_timings_are_an_exact_component_partition() {
    let timings = ScipNormalizationTimings {
        total: ms(72),
        setup: ms(1),
        source_validation: ms(2),
        coverage_exclusion_setup: ms(3),
        occurrence_indexing: ms(4),
        definition_collection: ms(5),
        definition_canonicalization: ms(6),
        binding_and_lookup_indexing: ms(7),
        call_resolution: ms(8),
        coverage_validation: ms(9),
        payload_finalization: ms(10),
        source_documents: 3,
        syntax_cache_hits: 2,
        provider_documents: 3,
        provider_document_cache_hits: 2,
        definition_document_cache_hits: 2,
        definition_groups: 3,
        definition_group_reuse_hits: 2,
        call_documents: 3,
        call_document_reuse_hits: 2,
    };

    let components = semantic_normalizer_components("rust", timings);
    assert_eq!(components.len(), 11, "positive component population");
    for label in [
        "rust source validation and syntax census (2/3 cache hits)",
        "rust occurrence indexing (2/3 document cache hits)",
        "rust definition collection (2/3 document cache hits)",
        "rust definition canonicalization (2/3 group reuse hits)",
        "rust call resolution (2/3 document reuse hits)",
    ] {
        assert!(components.iter().any(|timing| timing.label == label), "{label}");
    }
    assert!(components.iter().all(|timing| {
        !timing.label.contains("global semantic resolution")
            && timing.label != "rust definition indexing"
    }));
    assert_eq!(
        sum(components.iter().map(|timing| timing.duration)),
        timings.total,
        "the machine-readable components must sum to the direct normalizer wall clock"
    );
    assert_eq!(
        components
            .iter()
            .find(|timing| timing.label == "rust normalizer orchestration")
            .expect("explicit unmeasured interval")
            .duration,
        ms(17),
    );
}

fn activity(activity: SemanticProviderActivity) -> Option<SemanticProviderActivityRecord> {
    Some(SemanticProviderActivityRecord { activity, timings: Vec::new() })
}

#[test]
fn semantic_provider_activity_telemetry_preserves_success_reuse_and_failure() {
    let mut refreshes = Vec::new();
    let timings = record_semantic_provider_activity(
        &mut refreshes,
        "rust",
        activity(SemanticProviderActivity::Admitted {
            refresh: SemanticProviderAdmittedRefreshKind::Full,
            operation: ProviderOperation::CertifyFull,
            session_open: None,
        }),
    );
    assert!(timings.is_empty());
    assert_eq!(refreshes.len(), 1, "positive telemetry population");
    assert!(matches!(
        &refreshes[0],
        SemanticProviderActivityTelemetry::Admitted {
            lane: SemanticProviderRefreshLane::Full,
            operation: ProviderOperation::CertifyFull,
            ..
        }
    ));

    refreshes.clear();
    record_semantic_provider_activity(
        &mut refreshes,
        "rust",
        activity(SemanticProviderActivity::Reused { session_open: None }),
    );
    assert_eq!(refreshes.len(), 1, "reused positive control");
    assert!(matches!(&refreshes[0], SemanticProviderActivityTelemetry::Reused { .. }));

    refreshes.clear();
    record_semantic_provider_activity(
        &mut refreshes,
        "rust",
        activity(SemanticProviderActivity::Failed {
            attempted_operations: vec![
                ProviderOperation::OpenSession,
                ProviderOperation::CertifyFull,
            ],
            session_open: None,
        }),
    );
    assert!(matches!(
        &refreshes[0],
        SemanticProviderActivityTelemetry::Failed { attempted_operations, .. }
            if attempted_operations == &vec![
                ProviderOperation::OpenSession,
                ProviderOperation::CertifyFull,
            ]
    ));
    assert_eq!(
        refreshes[0].json_value().lane,
        "failed",
        "failed provider work must remain typed at the product boundary"
    );
}

#[test]
fn semantic_provider_execution_timings_partition_the_old_aggregate() {
    let mut phase_timings = Vec::new();
    record_semantic_provider_execution_timings(
        &mut phase_timings,
        "go",
        "persistent gopls execution and cache work",
        ms(100),
        ms(20),
        vec![
            SemanticProviderRefreshTiming { label: "apply source epoch", duration: ms(30) },
            SemanticProviderRefreshTiming {
                label: "export affected documents",
                duration: ms(10),
            },
        ],
    );

    assert_eq!(phase_timings.len(), 4, "non-empty timing population");
    let summary = phase_timings
        .iter()
        .find(|timing| timing.label == "persistent gopls execution and cache work")
        .expect("nested provider summary");
    assert_eq!(summary.duration, ms(80));
    assert_eq!(summary.aggregation, IndexTimingAggregation::ConcurrentSpan);
    assert_eq!(
        sum(phase_timings
            .iter()
            .filter(|timing| timing.aggregation == IndexTimingAggregation::Exclusive)
            .map(|timing| timing.duration)),
        summary.duration,
        "exclusive stages plus the explicit remainder must exactly partition provider work"
    );
    assert!(phase_timings.iter().any(|timing| {
        timing.label == "go semantic provider coordination remainder"
            && timing.duration == ms(40)
    }));
}

#[test]
fn provider_root_parallelism_is_bounded_by_roots_cpus_and_jobs() {
    assert_eq!(provider_root_parallelism_for(0, None, 32), 0);
    assert_eq!(provider_root_parallelism_for(9, None, 32), 4);
    assert_eq!(provider_root_parallelism_for(9, None, 8), 2);
    assert_eq!(provider_root_parallelism_for(9, None, 4), 1);
    assert_eq!(provider_root_parallelism_for(2, Some(2), 2), 2);
    assert_eq!(provider_root_parallelism_for(9, Some(1), 32), 1);
    assert_eq!(provider_root_parallelism_for(9, Some(0), 32), 1);
    assert_eq!(provider_root_parallelism_for(2, Some(4), 32), 2);
}

/// The directories of the fixture repository `/w/repo`, and one outside of it.
fn bound_targets(targets: Vec<String>, base: &str) -> StringMap<()> {
    let directories = ["/w/repo/core/third_party/x-vt", "/w/repo/tools/helper", "/w/repo/core"];
    let mut bound = StringMap::new();
    for target in targets {
        let full = match target.strip_prefix("./") {
            Some(rest) => format!("{base}/{rest}"),
            None => target.clone(),
        };
        let exists = directories.contains(&full.as_str()) || full == "/w/outside";
        let resolved = if exists {
            Some(ResolvedTarget {
                repository_root: "/w/repo".into(),
                target: full,
                is_directory: true,
            })
        } else {
            None
        };
        if go_local_path_is_repository_bound(&target, &resolved) {
            bound.insert(target, ());
        }
    }
    bound
}

#[test]
fn go_local_module_controls_admit_only_repository_owned_paths() {
    let module = |bytes: &[u8]| {
        let bound = bound_targets(go_mod_local_targets(bytes), "/w/repo/core");
        go_mod_local_replacements_are_repository_bound(bytes, &bound)
    };
    let workspace = |bytes: &[u8]| {
        let bound = bound_targets(go_work_local_targets(bytes), "/w/repo");
        go_work_uses_are_repository_bound(bytes, &bound)
    };
    assert!(module(
        b"module example.test/core\nreplace example.test/vt => ./third_party/x-vt\n"
    ));
    assert!(module(
        b"module example.test/core\nreplace example.test/vt => example.test/fork v1.2.3\n"
    ));
    assert!(!module(
        b"module example.test/core\nreplace example.test/vt => /w/outside\n"
    ));
    assert!(workspace(b"go 1.26\nuse (\n ./core\n ./tools/helper\n)\n"));
    assert!(!workspace(b"go 1.26\nuse /w/outside\n"));
}

#[test]
fn go_controls_that_are_not_text_are_refused() {
    let none = StringMap::new();
    assert!(!go_mod_local_replacements_are_repository_bound(&[0xff, 0xfe], &none));
    assert!(!go_work_uses_are_repository_bound(&[0xff, 0xfe], &none));
    assert!(go_mod_local_targets(&[0xff, 0xfe]).is_empty());
    assert_eq!(
        go_mod_local_targets("replace a => ./\u{e9}t\u{e9}\n".as_bytes()),
        vec!["./\u{e9}t\u{e9}".to_string()]
    );
}

fn partition(path: &str, bytes: u64, modified: i128) -> ProviderCacheEntry {
    ProviderCacheEntry { path: path.into(), apparent_bytes: bytes, modified }
}

#[test]
fn provider_cache_under_budget_survives_intact() {
    let plan = trim_provider_cache_to_budget(
        vec![partition("/c/rust/sentinel", 10, 1)],
        10,
        10,
        &Vec::new(),
    );
    assert!(plan.evicted.is_empty(), "an at-budget cache must remain reusable");
    assert_eq!(plan.remaining_bytes, 10);
}

#[test]
fn provider_cache_over_budget_evicts_an_inactive_partition() {
    let plan = trim_provider_cache_to_budget(
        vec![partition("/c/go/oversized", 9, 1)],
        9,
        8,
        &Vec::new(),
    );
    assert_eq!(
        plan.evicted,
        ["/c/go/oversized"],
        "the inactive over-budget partition must be evicted"
    );
    assert_eq!(
        plan.remaining_bytes, 0,
        "empty provider namespace directories do not consume the byte budget"
    );
}

fn workspaces(language: &str) -> Vec<LanguageCache> {
    vec![LanguageCache {
        path: format!("/c/{language}"),
        name: Some(language.into()),
        is_plain_directory: true,
        toolchains: vec![ToolchainCache {
            path: format!("/c/{language}/toolchain"),
            is_plain_directory: true,
            workspaces: Some(vec![
                format!("/c/{language}/toolchain/workspaces/active"),
                format!("/c/{language}/toolchain/workspaces/stale"),
            ]),
            others: Vec::new(),
        }],
    }]
}

#[test]
fn provider_cache_budget_never_self_evicts_the_active_working_set() {
    let paths = provider_cache_partitions(&workspaces("rust"));
    assert_eq!(
        paths,
        ["/c/rust/toolchain/workspaces/active", "/c/rust/toolchain/workspaces/stale"]
    );
    let entries = vec![partition(&paths[0], 12, 1), partition(&paths[1], 11, 2)];
    let plan = trim_provider_cache_to_budget(entries, 23, 8, &vec![paths[0].clone()]);
    assert_eq!(
        plan.evicted,
        [paths[1].clone()],
        "inactive partition must be removed before an active partition"
    );
    assert!(
        plan.remaining_bytes > 8,
        "the active working set may honestly exceed the nominal budget"
    );
}

#[test]
fn provider_cache_budget_partitions_go_workspaces_around_the_active_session() {
    let paths = provider_cache_partitions(&workspaces("go"));
    let entries = vec![partition(&paths[0], 12, 1), partition(&paths[1], 11, 2)];
    let plan = trim_provider_cache_to_budget(entries, 23, 12, &vec![paths[0].clone()]);
    assert_eq!(
        plan.evicted,
        [paths[1].clone()],
        "the inactive Go workspace must be independently evictable"
    );
    assert_eq!(plan.remaining_bytes, 12);
}

#[test]
fn the_oldest_partition_goes_first_and_only_as_many_as_needed() {
    let entries = vec![
        partition("/c/new", 4, 9),
        partition("/c/old", 4, 1),
        partition("/c/mid", 4, 5),
    ];
    let plan = trim_provider_cache_to_budget(entries, 12, 8, &Vec::new());
    assert_eq!(plan.evicted, ["/c/old"]);
    assert_eq!(plan.remaining_bytes, 8);
    assert!(cache_paths_overlap("/c/a/b", "/c/a"));
    assert!(!cache_paths_overlap("/c/ab", "/c/a"));
}

#[test]
fn directory_stats_add_bytes_and_take_the_latest_change() {
    let children = vec![
        CacheEntryStats { apparent_bytes: 3, modified: 10 },
        CacheEntryStats { apparent_bytes: u64::MAX, modified: 4 },
    ];
    let stats = directory_stats(7, &children);
    assert_eq!(stats.apparent_bytes, u64::MAX);
    assert_eq!(stats.modified, 10);
}

fn inventory(units: Vec<ProjectUnit>) -> ProjectInventory {
    ProjectInventory {
        coverage: ProjectInventoryCoverage::IndexedSourcePopulationComplete,
        issues: Vec::new(),
        inputs: Vec::new(),
        project_topology: ProjectTopology { units, memberships: Vec::new() },
        execution_roots: Vec::new(),
    }
}

#[test]
fn mixed_rust_go_root_is_one_cargo_package_not_a_multi_crate_workspace() {
    let inventory = inventory(vec![
        ProjectUnit { kind: ProjectUnitKind::Package, ecosystem_id: "cargo".into() },
        ProjectUnit { kind: ProjectUnitKind::Module, ecosystem_id: "go".into() },
    ]);
    assert_eq!(
        cargo_package_count(&inventory),
        1,
        "a Go module beside one Cargo package must not trigger the multi-crate warning"
    );
}

#[test]
fn extension_to_language_mapping_is_registry_complete() {
    for (extension, language) in [
        ("rs", "rust"),
        ("go", "go"),
        ("py", "python"),
        ("pyi", "python"),
        ("ts", "typescript"),
        ("tsx", "typescript"),
        ("mts", "typescript"),
        ("cts", "typescript"),
    ] {
        assert_eq!(extension_to_language(extension), Some(language));
    }
    assert_eq!(extension_to_language("txt"), None);
    assert_eq!(extension_to_language(""), None);
}

#[test]
fn supported_extensions_default_includes_every_registered_language() {
    let config = IndexConfig::default();
    let exts = supported_extensions(&config);
    for extension in ["rs", "go", "py", "pyi", "ts", "tsx", "mts", "cts"] {
        assert!(exts.contains(extension), "missing .{extension}");
    }
    assert!(!exts.contains("txt"), "negative extension control");
}

#[test]
fn default_index_config_does_not_authorise_external_providers() {
    let config = IndexConfig::default();
    assert_eq!(config.scip, ScipMode::Disabled);
}

#[test]
fn scip_generation_is_explicit() {
    assert!(!ScipMode::Disabled.generates_artifacts());
    assert!(ScipMode::Refresh.generates_artifacts());
}

#[test]
fn supported_extensions_filter_by_language() {
    let config = IndexConfig { languages: vec!["rust".to_string()], ..Default::default() };
    let exts = supported_extensions(&config);
    assert!(exts.contains("rs"));
    assert_eq!(exts.len(), 1);
}

const MAIN: &str = "fn main() { println!(\"hello\"); }\n";
const LIB: &str = "pub fn add(a: i32, b: i32) -> i32 { a + b }\n";

fn project() -> Vec<(&'static str, Vec<u8>)> {
    vec![
        ("src/lib.rs", LIB.as_bytes().to_vec()),
        ("src/main.rs", MAIN.as_bytes().to_vec()),
    ]
}

fn extract(path: &str, bytes: &[u8]) -> Result<ExtractorOutput, String> {
    let source = std::str::from_utf8(bytes).map_err(|error| error.to_string())?;
    let mut capture_gaps = Vec::new();
    if source.contains("...base") {
        capture_gaps.push(CaptureGap { kind: "unrepresented_object_spread".into() });
    }
    if source.contains("generate!(") {
        capture_gaps.push(CaptureGap { kind: "unexpanded_rust_item_macro".into() });
    }
    Ok(ExtractorOutput {
        file_path: path.into(),
        file_hash: blake3::hash(bytes).to_hex().to_string(),
        cross_document_surface_sha256: "0".repeat(64),
        symbols: vec![ExtractedSymbol { name: path.into(), kind: "function".into() }],
        uncaptured_items: !capture_gaps.is_empty(),
        capture_gaps,
    })
}

fn node(id: u128, path: &str) -> GraphNode {
    GraphNode {
        memory_id: id,
        symbol_name: path.into(),
        kind: "function".into(),
        is_callable: true,
        file_path: path.into(),
        content_hash: String::new(),
        signature: String::new(),
        reachability_class: ReachabilityClass::Wired,
        line_start: None,
        line_end: None,
        has_body: None,
        visibility: String::new(),
        is_test_only: None,
        is_test_root: false,
        has_platform_cfg: false,
        rustc_flagged_dead: false,
        entry_retain: 0,
        has_uncaptured_items: false,
        oracle_receipt: None,
    }
}

fn build(facts: &[ExtractorOutput]) -> (KnowledgeGraph, GraphBuildStats) {
    let mut graph = KnowledgeGraph::new();
    for (i, facts) in facts.iter().enumerate() {
        graph.add_node(node(i as u128, &facts.file_path)).expect("node");
    }
    let nodes_added = graph.node_count();
    (
        graph,
        GraphBuildStats {
            nodes_added,
            edges_added: 0,
            edges_skipped_external_relation: 0,
            edges_skipped_other: 0,
            external_traits_synthesized: 0,
            profile_timings: Vec::new(),
        },
    )
}

fn open(state: &IndexState) -> OpenedRun {
    IndexPipeline::open(state, None, &Vec::new(), false).expect("open")
}

fn structural(state: &IndexState, full: bool) -> StructuralRun {
    open(state)
        .choose_graph(GraphBasisLoad::NoStore, full, false)
        .expect("graph basis")
}

fn scan(run: &StructuralRun, files: &[(&str, Vec<u8>)]) -> ScannedSources {
    let found = files
        .iter()
        .map(|(path, _)| DiscoveredFile {
            path: format!("/repo/{path}"),
            relative: Some(path.to_string()),
        })
        .collect();
    let discovered = IndexPipeline::discover(Ok(found)).expect("discover");
    let sources = discovered
        .iter()
        .zip(files)
        .map(|(file, (_, bytes))| {
            IndexPipeline::measure(file, Ok(bytes.clone()), false).expect("measure")
        })
        .collect();
    run.scan(sources, false).expect("scan")
}

fn blocking_phase(run: &StructuralRun, files: &[(&str, Vec<u8>)]) -> BlockingPhaseResult {
    let scan = scan(run, files);
    let results = scan
        .extraction_paths()
        .iter()
        .map(|path| {
            let relative = path.strip_prefix("/repo/").expect("below the root");
            let (_, bytes) = files.iter().find(|(own, _)| *own == relative).expect("source");
            extract(relative, bytes)
        })
        .collect();
    let extracted = run.absorb(scan, results, false).expect("absorb");
    let built = build(&extracted.document_facts);
    extracted
        .materialize(&run.graph, inventory(Vec::new()), Ok(built), false)
        .expect("materialize")
}

fn persist(state: &mut IndexState, result: &BlockingPhaseResult) {
    let known = open(state).existing_files;
    let records = final_file_records(
        &known,
        &result.source_inputs,
        &result.outputs,
        &result.extraction_errors,
        7,
    );
    let files = records
        .into_iter()
        .map(|(path, record)| EncodedFile { path, record, encoded: Ok(b"record".to_vec()) })
        .collect();
    let facts = result
        .document_facts
        .iter()
        .map(|facts| EncodedFacts { facts: facts.clone(), encoded: Ok(b"facts".to_vec()) })
        .collect();
    state.replace_source_state(files, facts).expect("store");
}

#[test]
fn blocking_phase_discovers_and_extracts() {
    let run = structural(&open_temp(), true);
    let result = blocking_phase(&run, &project());
    assert_eq!(result.files_discovered, 2);
    assert_eq!(result.changed.len(), 2);
    assert_eq!(result.unchanged_count, 0);
    assert!(!result.outputs.is_empty());
    assert!(result.build_stats.nodes_added > 0);
    assert_eq!(
        result.source_inputs[0].content_hash,
        blake3::hash(LIB.as_bytes()).to_hex().to_string()
    );
    assert_eq!(result.source_inputs[0].language, "rust");
}

#[test]
fn diff_detects_unchanged_files() {
    let mut state = open_temp();
    let first = blocking_phase(&structural(&state, true), &project());
    assert_eq!(first.changed.len(), 2);
    persist(&mut state, &first);
    let second = blocking_phase(&structural(&state, false), &project());
    assert_eq!(second.unchanged_count, 2);
    assert_eq!(second.changed.len(), 0);
    assert_eq!(second.document_facts, first.document_facts);
}

#[test]
fn incremental_diff_reextracts_files_whose_document_facts_are_missing() {
    let mut state = open_temp();
    let first = blocking_phase(&structural(&state, true), &project());
    persist(&mut state, &first);
    state.replace_document_facts(Vec::new()).expect("drop facts");
    let repaired = blocking_phase(&structural(&state, false), &project());
    assert_eq!(repaired.changed.len(), 2);
    assert_eq!(repaired.unchanged_count, 0);
    assert_eq!(repaired.document_facts.len(), 2);
}

#[test]
fn a_changed_and_a_deleted_source_are_told_apart() {
    let mut state = open_temp();
    let first = blocking_phase(&structural(&state, true), &project());
    persist(&mut state, &first);
    let after = vec![("src/main.rs", b"fn main() {}\n".to_vec())];
    let result = blocking_phase(&structural(&state, false), &after);
    assert_eq!(result.changed, [0]);
    assert_eq!(result.deleted_paths, ["src/lib.rs"]);
    persist(&mut state, &result);
    assert!(state.get_file("src/lib.rs").expect("get").is_none());
}

fn evidence_for(result: &BlockingPhaseResult, files: &[(String, FileRecord)]) -> IndexEvidence {
    build_index_evidence(
        &IndexConfig { full: true, ..Default::default() },
        &findings(result),
        &files.to_vec(),
        inventory(Vec::new()),
        Vec::new(),
        &StringMap::new(),
    )
}

fn findings(result: &BlockingPhaseResult) -> ExtractionFindings {
    ExtractionFindings {
        source_inputs: result.source_inputs.clone(),
        extraction_errors: result.extraction_errors.clone(),
        document_facts: result.document_facts.clone(),
        graph: build(&result.document_facts).0,
    }
}

fn structural_receipt<'a>(evidence: &'a IndexEvidence, language: &str) -> &'a CapabilityReceipt {
    evidence
        .capability_receipts
        .iter()
        .find(|receipt| {
            receipt.capability_id == "structural_graph"
                && matches!(
                    &receipt.scope,
                    CapabilityScope::Language { language_id, .. } if language_id.0 == language
                )
        })
        .unwrap_or_else(|| panic!("missing structural receipt for {language}"))
}

#[test]
fn extraction_failure_downgrades_only_the_affected_language_receipt() {
    let mut state = open_temp();
    let mut files = project();
    files.insert(0, ("broken.go", vec![0xff, 0xfe, 0xfd]));
    files.insert(1, ("main.go", b"package main\nfunc validGo() int { return 1 }\n".to_vec()));
    let result = blocking_phase(&structural(&state, true), &files);
    persist(&mut state, &result);
    let evidence = evidence_for(&result, &state.all_files().expect("files"));
    assert_eq!(structural_receipt(&evidence, "rust").status, CapabilityStatus::Complete);
    assert_eq!(structural_receipt(&evidence, "go").status, CapabilityStatus::Partial);
    assert_eq!(
        structural_receipt(&evidence, "go").reason_code.as_deref(),
        Some("source_extraction_failed")
    );

    let failed_record = state
        .get_file("broken.go")
        .expect("read failed source record")
        .expect("failed source remains in the measured population");
    assert_eq!(failed_record.symbol_count, 0);
    assert_eq!(
        failed_record.blake3_hash,
        blake3::hash(&[0xff, 0xfe, 0xfd]).to_hex().to_string()
    );
    assert!(
        state
            .all_document_facts()
            .expect("read document facts")
            .iter()
            .all(|facts| facts.file_path != "broken.go"),
        "failed extraction must not retain stale document facts"
    );

    let retry = blocking_phase(&structural(&state, false), &files);
    assert_eq!(
        retry.changed.len(),
        1,
        "missing facts must retry the failed document without reparsing covered files"
    );
}

const SPREAD: &[u8] = b"const base = { value: 1 };\nexport const extended = { ...base };\n";

#[test]
fn capture_gap_downgrades_only_the_affected_language_receipt() {
    let mut state = open_temp();
    let mut files = project();
    files.insert(0, ("contracts.ts", SPREAD.to_vec()));
    let result = blocking_phase(&structural(&state, true), &files);
    persist(&mut state, &result);
    let evidence = evidence_for(&result, &state.all_files().expect("files"));
    assert_eq!(structural_receipt(&evidence, "rust").status, CapabilityStatus::Complete);
    let typescript = structural_receipt(&evidence, "typescript");
    assert_eq!(typescript.status, CapabilityStatus::Partial);
    assert_eq!(
        typescript.reason_code.as_deref(),
        Some("structural_capture_incomplete")
    );
    assert!(
        typescript.reason.as_deref().is_some_and(|detail| {
            detail.contains("unrepresented_object_spread=1 [contracts.ts]")
        }),
        "bounded receipt detail must bind each reported gap kind to a real affected file"
    );

    let inventory = evidence
        .source_inventory
        .iter()
        .find(|inventory| inventory.language_id.0 == "typescript")
        .expect("TypeScript source inventory");
    assert_eq!(inventory.files_discovered, 1);
    assert_eq!(inventory.files_covered, 0);
    assert_eq!(inventory.extraction_failures, 0);
}

#[test]
fn rust_item_macro_receipt_names_missing_expansion_authority() {
    let mut state = open_temp();
    let mut files = project();
    files.insert(
        0,
        (
            "src/generated.rs",
            b"macro_rules! generate { ($name:ident) => { pub struct $name; } }\n\
              generate!(Generated);\n"
                .to_vec(),
        ),
    );
    let result = blocking_phase(&structural(&state, true), &files);
    persist(&mut state, &result);
    let evidence = evidence_for(&result, &state.all_files().expect("files"));
    let rust = structural_receipt(&evidence, "rust");
    assert_eq!(rust.status, CapabilityStatus::Partial);
    assert_eq!(
        rust.reason_code.as_deref(),
        Some("structural_capture_incomplete")
    );
    assert!(rust.reason.as_deref().is_some_and(|detail| {
        detail.contains("unexpanded_rust_item_macro=1 [src/generated.rs]")
    }));
    let inventory = evidence
        .source_inventory
        .iter()
        .find(|inventory| inventory.language_id.0 == "rust")
        .expect("Rust source inventory");
    assert_eq!(inventory.files_discovered, 3, "positive source population");
    assert_eq!(inventory.files_covered, 2);
    assert_eq!(inventory.extraction_failures, 0);
}

#[test]
fn partial_structural_receipt_is_exact_reuse_evidence_for_unchanged_records() {
    let mut state = open_temp();
    let mut files = project();
    files.insert(0, ("contracts.ts", SPREAD.to_vec()));
    let result = blocking_phase(&structural(&state, true), &files);
    persist(&mut state, &result);
    let indexed_files = state.all_files().expect("indexed file population");
    let receipts = evidence_for(&result, &indexed_files).capability_receipts;
    let exclude = Vec::new();
    assert_eq!(indexed_files.len(), 3, "positive indexed population");
    let partial = |receipts: &Vec<CapabilityReceipt>| {
        receipts
            .iter()
            .position(|receipt| {
                receipt.capability_id == "structural_graph"
                    && receipt.status == CapabilityStatus::Partial
            })
            .expect("partial sabotage target")
    };
    assert!(
        structural_receipts_match_records(&receipts, &indexed_files, &exclude),
        "an exact Partial receipt must authorize reuse without claiming Complete coverage"
    );

    let mut wrong_fingerprint = receipts.clone();
    let at = partial(&wrong_fingerprint);
    wrong_fingerprint[at].input_fingerprint = Some("0".repeat(64));
    assert!(
        !structural_receipts_match_records(&wrong_fingerprint, &indexed_files, &exclude),
        "a Partial label must not override a changed source fingerprint"
    );

    let mut unavailable = receipts.clone();
    let at = partial(&unavailable);
    unavailable[at].status = CapabilityStatus::Unavailable;
    assert!(
        !structural_receipts_match_records(&unavailable, &indexed_files, &exclude),
        "Unavailable structural evidence must remain inadmissible"
    );

    let mut foreign_extractor = receipts;
    let at = partial(&foreign_extractor);
    foreign_extractor[at].provider_version = Some("foreign-extractor".into());
    assert!(
        !structural_receipts_match_records(&foreign_extractor, &indexed_files, &exclude),
        "Partial evidence from another extractor identity must remain inadmissible"
    );
}

#[test]
fn the_structural_fingerprint_is_a_digest_of_the_framed_inputs() {
    let inputs = vec![SourceInput {
        relative_path: "src/lib.rs".into(),
        language: "rust".into(),
        content_hash: "ab".repeat(32),
    }];
    let one = structural_input_fingerprint("rust", &inputs, &Vec::new());
    assert_eq!(one.len(), 64);
    assert!(one.chars().all(|c| c.is_ascii_hexdigit()));
    assert_ne!(one, structural_input_fingerprint("go", &inputs, &Vec::new()));
    assert_ne!(
        one,
        structural_input_fingerprint("rust", &inputs, &vec!["target".to_string()])
    );
}

#[test]
fn an_invocation_configuration_is_the_sha256_of_its_framed_fields() {
    let mut hasher = sha2::Sha256::new();
    let fields: [&[u8]; 4] =
        [b"h00/invocation-bound-scip-provider/v1\0", b"go", b"scip-go", b"1.2.3"];
    for field in fields {
        hasher.update((field.len() as u64).to_be_bytes());
        hasher.update(field);
    }
    let expected: String = hasher.finalize().iter().map(|byte| format!("{byte:02x}")).collect();
    assert_eq!(
        invocation_provider_configuration_sha256("go", "scip-go", "1.2.3"),
        expected
    );
}

#[test]
fn dry_run_does_not_extract() {
    let compared = scan(&structural(&open_temp(), true), &project());
    let config = IndexConfig { full: true, dry_run: true, ..Default::default() };
    let run = end_dry_run(&config, &compared, &StringMap::new(), ms(3), ms(5))
        .expect("a dry run ends after its sources were compared");
    let report = run.outcome.telemetry();
    assert_eq!(report.files_discovered, 2);
    assert_eq!(report.files_changed, 2);
    assert_eq!(report.symbols_extracted, 0);
    assert_eq!(report.edges_skipped_external_relation, 0);
    assert_eq!(report.edges_skipped_other, 0);
    assert_eq!(report.external_traits_synthesized, 0);
    assert_eq!(report.duration, ms(5));
    assert!(
        run.outcome.evidence().is_none(),
        "a diff-only dry run must never expose publishable capability evidence"
    );
    assert!(run.structural_basis.is_none());

    let wet = IndexConfig { full: true, ..Default::default() };
    assert!(end_dry_run(&wet, &compared, &StringMap::new(), ms(3), ms(5)).is_none());
}

#[test]
fn a_file_that_a_run_does_not_look_at_is_not_counted_as_deleted() {
    let mut state = open_temp();
    let mut files = project();
    files.insert(0, ("main.go", b"package main\nfunc main() {}\n".to_vec()));
    let first = blocking_phase(&structural(&state, true), &files);
    persist(&mut state, &first);
    let only_main = vec![("src/main.rs", b"fn main() {}\n".to_vec())];
    let result = blocking_phase(&structural(&state, false), &only_main);
    assert_eq!(result.deleted_paths, ["main.go", "src/lib.rs"]);
    let mut on_disk = StringMap::new();
    on_disk.insert("main.go".to_string(), ());
    assert_eq!(complete_scan(&result, &on_disk, ms(1)).files_deleted, 1);
    assert_eq!(complete_scan(&result, &StringMap::new(), ms(1)).files_deleted, 2);
}

fn stored(result: &BlockingPhaseResult, report: IndexReport) -> StoredRun {
    StoredRun {
        report,
        findings: findings(result),
        indexed_files: Vec::new(),
        project_inventory: inventory(Vec::new()),
        semantic_evidence: Vec::new(),
        configured_calls_languages: StringMap::new(),
        snapshots: Vec::new(),
        canonicalization: ProviderPayloadCanonicalizationTimings::none(),
        publication_proof: None,
        index_state_publication_proof: IndexStatePublicationProof::test_fixture(),
    }
}

fn coverage(all_callable_complete: bool) -> CapabilityCoverage {
    CapabilityCoverage {
        status: CapabilityCoverageStatus::Partial,
        languages: Vec::new(),
        best_effort_satisfied: false,
        all_callable_complete,
    }
}

#[test]
fn full_pipeline_run() {
    let result = blocking_phase(&structural(&open_temp(), true), &project());
    let config = IndexConfig { full: true, ..Default::default() };
    let report = complete_scan(&result, &StringMap::new(), ms(3));
    let run = stored(&result, report)
        .with_evidence(&config, false)
        .expect("evidence")
        .finish(&config, &coverage(false), ms(2), ms(9), &ProfileCollector::new(false))
        .expect("accepted");
    let report = run.outcome.telemetry();
    assert_eq!(report.files_discovered, 2);
    assert_eq!(report.files_changed, 2);
    assert!(report.symbols_extracted > 0);
    assert!(report.nodes_added > 0);
    assert_eq!(report.duration, ms(9));
    assert!(report.phase_timings.iter().any(|timing| {
        timing.phase == IndexProgressPhase::StructuralScan && timing.duration == ms(3)
    }));
    assert!(report.phase_timings.iter().any(|timing| {
        timing.phase == IndexProgressPhase::Finalize && timing.duration == ms(2)
    }));
    assert!(run.outcome.evidence().is_some());
    assert!(matches!(run.outcome, IndexRunOutcome::Completed { .. }));
    assert_eq!(run.structural_basis.expect("basis").source.document_facts.len(), 2);
}

#[test]
fn a_candidate_without_the_demanded_authority_is_refused() {
    let result = blocking_phase(&structural(&open_temp(), true), &project());
    let config =
        IndexConfig { full: true, require_complete_calls: true, ..Default::default() };
    let candidate = |result: &BlockingPhaseResult| {
        stored(result, IndexReport::default())
            .with_evidence(&config, false)
            .expect("evidence")
    };
    let profiler = ProfileCollector::new(false);
    assert!(matches!(
        candidate(&result).finish(&config, &coverage(false), ms(1), ms(1), &profiler),
        Err(IndexPipelineError::SemanticProvidersUnsatisfied { .. })
    ));
    assert!(candidate(&result)
        .finish(&config, &coverage(true), ms(1), ms(1), &profiler)
        .is_ok());
}

#[test]
fn cancellation_stops_every_stage() {
    let state = open_temp();
    assert!(matches!(
        IndexPipeline::open(&state, None, &Vec::new(), true),
        Err(IndexPipelineError::Cancelled)
    ));
    assert!(matches!(
        open(&state).choose_graph(GraphBasisLoad::NoStore, true, true),
        Err(IndexPipelineError::Cancelled)
    ));
    assert!(matches!(
        structural(&state, true).scan(Vec::new(), true),
        Err(IndexPipelineError::Cancelled)
    ));
    let result = blocking_phase(&structural(&state, true), &project());
    assert!(matches!(
        stored(&result, IndexReport::default()).with_evidence(&IndexConfig::default(), true),
        Err(IndexPipelineError::Cancelled)
    ));
}

#[test]
fn pipeline_errors_say_what_failed() {
    let error = IndexPipeline::discover(Err("refused source symlink src/linked.rs".into()))
        .expect_err("discovery fails closed");
    assert!(error.message().contains("symlink"));
    let file = DiscoveredFile { path: "/repo/a.rs".into(), relative: Some("a.rs".into()) };
    let unreadable = IndexPipeline::measure(&file, Err("permission denied".into()), false)
        .expect_err("an unreadable source stops the run");
    assert!(unreadable.message().contains("permission denied"));
    let refused = open(&open_temp())
        .choose_graph(GraphBasisLoad::Failed(GraphStoreError::ReadOnly), false, false)
        .expect_err("a store failure stops the run");
    assert!(matches!(refused, IndexPipelineError::GraphStore(GraphStoreError::ReadOnly)));
}

#[test]
fn incremental_run_rebuilds_when_file_state_survives_but_graph_basis_is_missing() {
    let mut state = open_temp();
    let first = blocking_phase(&structural(&state, true), &project());
    persist(&mut state, &first);
    let run = open(&state)
        .choose_graph(GraphBasisLoad::Loaded { graph: None, cleared: false }, false, false)
        .expect("rebuild");
    assert!(run.full);
    assert_eq!(blocking_phase(&run, &project()).changed.len(), 2);
}

#[test]
fn schema_bump_forces_full_rebuild_not_empty_graph() {
    let mut state = open_temp();
    let first = blocking_phase(&structural(&state, true), &project());
    persist(&mut state, &first);
    let mut store = GraphStore::new(GraphTables {
        snapshot: Some(b"snapshot of an older schema".to_vec()),
        missing_snapshot_table: None,
        evidence: None,
        schema_version: Some(4),
        oracle_ran_ok: None,
        origin: Some("/repo".into()),
        build_identity: None,
        indexer_identity: None,
        prover_config: None,
        timestamp: None,
    });
    let root = WorkspaceRoot { display: "/repo".into(), canonical: Ok("/repo".into()) };
    let (graph, cleared) = store
        .load_snapshot_or_clear(&root, false, Err("older schema".into()))
        .expect("clear");
    assert!(cleared);
    let run = open(&state)
        .choose_graph(GraphBasisLoad::Loaded { graph, cleared }, false, false)
        .expect("rebuild");
    assert!(run.full, "a cleared graph must force a full extraction");
    let rebuilt = blocking_phase(&run, &project());
    assert!(rebuilt.graph.node_count() > 0);
}

#[test]
fn profile_summary_names_the_longest_phase_and_the_slowest_file() {
    let mut profiler = ProfileCollector::new(true);
    profiler.record_phase("scan", 1, ms(5), String::new());
    profiler.record_phase("extract", 3, ms(9), String::new());
    profiler.merge_extraction_files(vec![
        FileExtractTiming { file_path: "a.rs".into(), wall_time: ms(2), symbols_extracted: 3 },
        FileExtractTiming { file_path: "b.rs".into(), wall_time: ms(7), symbols_extracted: 4 },
    ]);
    let summary = profiler.finish(ms(20)).expect("enabled");
    assert_eq!(summary.total_elapsed, ms(20));
    assert_eq!(summary.dead_time, ms(6));
    assert_eq!(summary.bottleneck, Some(1));
    let extraction = summary.extraction.expect("files");
    assert_eq!((extraction.symbols, extraction.wall, extraction.slowest), (7, ms(9), 1));
    assert!(ProfileCollector::new(false).finish(ms(20)).is_none());
}

#[test]
fn structural_receipts_carry_this_indexers_identity() {
    let result = blocking_phase(&structural(&open_temp(), true), &project());
    let evidence = evidence_for(&result, &[]);
    let receipt = structural_receipt(&evidence, "rust");
    assert_eq!(receipt.provider_version.as_deref(), Some(INDEXER_IDENTITY));
    let foreign = CapabilityScope::Language {
        language_id: LanguageId::new("rust"),
        configuration_id: ConfigurationId::new("other"),
    };
    assert_ne!(receipt.scope, foreign);
}

#[test]
fn failures_and_gaps_stay_with_their_language() {
    let records = |result: &BlockingPhaseResult| {
        final_file_records(
            &StringMap::new(),
            &result.source_inputs,
            &result.outputs,
            &result.extraction_errors,
            7,
        )
    };
    let mut files = project();
    files.insert(0, ("contracts.ts", SPREAD.to_vec()));
    let result = blocking_phase(&structural(&open_temp(), true), &files);
    let gapped = evidence_for(&result, &records(&result));
    let mut whole = blocking_phase(&structural(&open_temp(), true), &files);
    for facts in &mut whole.document_facts {
        facts.capture_gaps = Vec::new();
    }
    let clean = evidence_for(&whole, &records(&whole));
    assert_ne!(structural_receipt(&gapped, "typescript"), structural_receipt(&clean, "typescript"));
    assert_eq!(structural_receipt(&gapped, "rust"), structural_receipt(&clean, "rust"));
    let own = |evidence: &IndexEvidence| {
        evidence
            .source_inventory
            .iter()
            .find(|inventory| inventory.language_id.0 == "rust")
            .expect("rust inventory")
            .clone()
    };
    assert_eq!(own(&gapped), own(&clean));
}

#[test]
fn a_dry_run_looks_for_its_graph_without_changing_the_store() {
    let mut opened = open(&open_temp());
    let dry = IndexConfig { dry_run: true, ..Default::default() };
    let wet = IndexConfig::default();
    assert_eq!(opened.graph_load(&dry, true), GraphLoad::Preview);
    assert_eq!(opened.graph_load(&wet, true), GraphLoad::LoadOrClear);
    assert_eq!(opened.graph_load(&wet, false), GraphLoad::Nothing);
    opened.graph = Some(KnowledgeGraph::new());
    assert_eq!(opened.graph_load(&wet, true), GraphLoad::Nothing);
}
