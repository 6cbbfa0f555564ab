//! One-shot providers, persistent lanes and the merge of their evidence.

use h00ligan_engine::calls_evidence::{
    default_calls_provider, CallsGraphProjectionStats, ProviderPayloadCanonicalizationTimings,
};
use h00ligan_engine::domain::{
    CapabilityCoverage, CapabilityCoverageStatus, CapabilityGap, CapabilityReceipt,
    CapabilityScope, CapabilityStatus, LanguageCoverage, LanguageId, ProjectInput,
    ProjectInventory, ProjectInventoryCoverage, ProjectTopology, ProviderExecutionRoot,
    ProviderId, SourceMembership, CALLS_CONFIGURATION_ID,
};
use h00ligan_engine::duration::Duration;
use h00ligan_engine::go_reuse::GoSemanticReusePlan;
use h00ligan_engine::graph::{GraphNode, KnowledgeGraph, ReachabilityClass};
use h00ligan_engine::graph_store::GraphSnapshotWriteTelemetry;
use h00ligan_engine::index_config::{IndexConfig, ScipMode};
use h00ligan_engine::index_timing::{
    exclusive, IndexProgressPhase, IndexProgressState, IndexTimingAggregation, ProfileCollector,
};
use h00ligan_engine::ordered::StringMap;
use h00ligan_engine::payload::{
    CallsProviderPayload, CanonicalProviderPayload, ProviderExecutionAuthority, ProviderPayload,
    ProviderSemanticInputs, ScipArtifactEvidence,
};
use h00ligan_engine::pipeline_error::IndexPipelineError;
use h00ligan_engine::provider_activity::{
    lane_started, next_lane_step, run_persistent_semantic_provider_lane, semantic_provider_execution_roots,
    LaneCancelled, LaneEvent, LaneProvider, LaneStep, ProviderOperation, SemanticProviderActivity,
    SemanticProviderActivityRecord, SemanticProviderAdmittedRefreshKind,
    SemanticProviderRefreshLane,
};
use h00ligan_engine::provider_run::{
    discard_go, generated_go_count, go_roots_to_execute, provider_ended, provider_started,
    root_label, settle_go_population, GeneratedScipArtifact, GoDiscardReason,
    GoProviderExecution, GoSettlement, OneShotRun, ProviderExecution, ProviderRunError,
    ScipProviderSpec,
};
use h00ligan_engine::run_notes::{graph_persistence_notes, record_note, PhaseNote, RunProgress};
use h00ligan_engine::semantic_basis::{CanonicalScipSnapshot, CanonicalSemanticBasis};
use h00ligan_engine::semantic_merge::{
    affected_go_artifacts, bind_go_authority, composition_timing, label_normalization,
    merge_lane_outcomes, provider_artifacts, record_semantic_orchestration, reused_normalization,
    seal_failures, semantic_input_paths, semantic_step_count, NormalizationOrigin, ScipStats,
    SemanticMerge, MISSING_SNAPSHOT,
};
use h00ligan_engine::semantic_plan::{
    configured_calls_languages, order_provider_timings, plan_semantic_providers,
    protected_partitions, require_requested_semantic_authority, settle_go_resolution,
    settle_one_shot, EvidenceCounts, OneShotEnd, ProviderSpans, ToolchainResolutionFailure,
};
use h00ligan_engine::structural_inputs::invocation_provider_configuration_sha256;

fn ms(millis: u64) -> Duration {
    Duration::from_millis(millis)
}

fn execution(
    root: &str,
    result: Result<GeneratedScipArtifact, ProviderRunError>,
) -> ProviderExecution {
    ProviderExecution {
        execution_root: format!("/r/{root}"),
        relative_root: Some(root.into()),
        duration: ms(5),
        result,
    }
}

fn artifact(name: &str) -> GeneratedScipArtifact {
    GeneratedScipArtifact { path: format!("/tmp/{name}.scip"), provider_version: "1.0".into() }
}

fn go_execution(root: &str, result: Result<GeneratedScipArtifact, ProviderRunError>) -> GoProviderExecution {
    GoProviderExecution {
        execution: execution(root, result),
        provider_configuration_sha256: format!("configuration-{root}"),
    }
}

#[test]
fn a_rust_artifact_is_bound_to_its_invocation() {
    let mut run = OneShotRun::new(None);
    run.settle_rust(execution("core", Ok(artifact("rust-0")))).expect("settled");
    assert_eq!(run.generated.len(), 1);
    assert_eq!(
        run.generated[0].provider_configuration_sha256,
        invocation_provider_configuration_sha256("rust", "rust-analyzer-scip", "1.0")
    );
    assert_eq!(run.timings[0].label, "rust-analyzer SCIP (core)");
    assert!(run.warnings.is_empty());
}

#[test]
fn every_root_leaves_an_artifact_or_a_warning() {
    let mut run = OneShotRun::new(Some("unresolved".into()));
    run.settle_go(
        vec![
            go_execution("a", Ok(artifact("go-0"))),
            go_execution("b", Err(ProviderRunError::Other("exit 1".into()))),
        ],
        2,
        ms(9),
    )
    .expect("settled");
    assert_eq!(run.generated.len(), 1);
    assert_eq!(run.generated[0].provider_configuration_sha256, "configuration-a");
    assert_eq!(
        run.warnings,
        ["unresolved", "scip-go generation failed for /r/b: exit 1"]
    );
    assert_eq!(run.timings[0].label, "scip-go provider pool (2 workers)");
    assert_eq!(run.timings[0].aggregation, IndexTimingAggregation::Exclusive);
    assert_eq!(run.timings[1].label, "scip-go (a)");
    assert_eq!(run.timings[1].aggregation, IndexTimingAggregation::ConcurrentSpan);
}

#[test]
fn a_corrupt_artifact_or_a_cancellation_ends_the_run() {
    let corrupt = ProviderRunError::GeneratedArtifact("not protobuf".into());
    let mut run = OneShotRun::new(None);
    assert_eq!(
        run.settle_rust(execution("core", Err(corrupt.clone()))),
        Err(corrupt.clone())
    );
    let mut run = OneShotRun::new(None);
    assert_eq!(
        run.settle_go(vec![go_execution("a", Err(ProviderRunError::Cancelled))], 1, ms(1)),
        Err(ProviderRunError::Cancelled)
    );
    assert!(matches!(
        settle_one_shot(OneShotEnd::Failed(ProviderRunError::Cancelled)),
        Err(IndexPipelineError::Cancelled)
    ));
    let error = settle_one_shot(OneShotEnd::Failed(corrupt)).expect_err("fatal");
    assert_eq!(error.message(), "SCIP loader error: not protobuf");
    assert!(settle_one_shot(OneShotEnd::Panicked).expect("costs evidence only").generated.is_empty());
}

#[test]
fn progress_of_a_provider_names_its_unit() {
    let started = provider_started(ScipProviderSpec::ScipGo, &Some(String::new()));
    assert_eq!((started.label.as_str(), started.detail.as_str()), ("scip-go", "project unit ."));
    assert_eq!(started.state, IndexProgressState::Started);
    assert_eq!(root_label(&None), ".");
    let ended = provider_ended(
        ScipProviderSpec::RustAnalyzer,
        &execution("core", Err(ProviderRunError::Other("exit 1".into()))),
    )
    .expect("shown");
    assert_eq!((ended.state, ended.detail.as_str()), (IndexProgressState::Failed, "exit 1"));
    assert!(provider_ended(
        ScipProviderSpec::RustAnalyzer,
        &execution("core", Err(ProviderRunError::Cancelled))
    )
    .is_none());
}

#[test]
fn loose_sources_are_reported_as_skipped() {
    let mut run = OneShotRun::new(None);
    let event = run
        .note_loose_sources(ScipProviderSpec::RustAnalyzer, false, 2)
        .expect("skipped");
    assert_eq!(
        event.detail,
        "2 Rust source file(s) are loose sources; no Cargo.toml owner or workspace"
    );
    assert_eq!(event.state, IndexProgressState::Skipped);
    assert_eq!(run.timings[0].label, "rust-analyzer SCIP (skipped)");
    assert!(run.note_loose_sources(ScipProviderSpec::ScipGo, true, 2).is_none());
    assert!(run.note_loose_sources(ScipProviderSpec::ScipGo, false, 0).is_none());
}

#[test]
fn the_go_population_is_whole_or_absent() {
    assert_eq!(settle_go_population(0, &None, 2, true), GoSettlement::Absent);
    assert_eq!(settle_go_population(2, &None, 2, true), GoSettlement::Fresh);
    assert_eq!(
        settle_go_population(1, &None, 2, true),
        GoSettlement::Discarded(GoDiscardReason::MissingArtifact)
    );
    assert_eq!(
        settle_go_population(2, &None, 2, false),
        GoSettlement::Discarded(GoDiscardReason::ToolchainChanged)
    );
    let exact = Some(GoSemanticReusePlan::Exact { basis: 3 });
    assert_eq!(settle_go_population(0, &exact, 2, true), GoSettlement::Exact { basis: 3 });
    let mut roots = StringMap::new();
    roots.insert("/r/a".to_string(), ());
    let affected = Some(GoSemanticReusePlan::AffectedRoots { basis: 1, roots });
    assert_eq!(
        settle_go_population(1, &affected, 2, true),
        GoSettlement::AffectedRoots { basis: 1 }
    );
    let mut toolchains = StringMap::new();
    toolchains.insert("/r/a".to_string(), 1u8);
    toolchains.insert("/r/b".to_string(), 2u8);
    assert_eq!(go_roots_to_execute(&affected, &toolchains), ["/r/a"]);
    assert_eq!(go_roots_to_execute(&None, &toolchains), ["/r/a", "/r/b"]);
    assert!(GoDiscardReason::MissingArtifact.detail().contains("not every Go execution root"));
}

#[test]
fn artifacts_are_divided_by_provider() {
    let mut run = OneShotRun::new(None);
    run.settle_rust(execution("core", Ok(artifact("rust-0")))).expect("rust");
    run.settle_go(
        vec![go_execution("b", Ok(artifact("go-0"))), go_execution("a", Ok(artifact("go-1")))],
        1,
        ms(0),
    )
    .expect("go");
    assert_eq!(generated_go_count(&run.generated), 2);
    let roots: Vec<String> = affected_go_artifacts(&run.generated)
        .into_iter()
        .map(|own| own.execution_root)
        .collect();
    assert_eq!(roots, ["/r/a", "/r/b"]);
    assert_eq!(provider_artifacts(&run.generated, ScipProviderSpec::RustAnalyzer).len(), 1);
    assert_eq!(discard_go(run.generated).len(), 1);
}

fn inventory() -> ProjectInventory {
    let root = |language: &str, ecosystem: &str, path: &str| ProviderExecutionRoot {
        language_id: language.into(),
        ecosystem_id: ecosystem.into(),
        path: path.into(),
    };
    let member = |language: &str, owner: bool| SourceMembership {
        language_id: LanguageId::new(language),
        semantic_source_owner: owner,
    };
    ProjectInventory {
        coverage: ProjectInventoryCoverage::IndexedSourcePopulationComplete,
        issues: Vec::new(),
        inputs: vec![
            ProjectInput { language_id: LanguageId::new("go"), path: "b/go.mod".into() },
            ProjectInput { language_id: LanguageId::new("rust"), path: "Cargo.toml".into() },
            ProjectInput { language_id: LanguageId::new("go"), path: "a/go.mod".into() },
        ],
        project_topology: ProjectTopology {
            units: Vec::new(),
            memberships: vec![member("rust", true), member("go", true), member("go", false)],
        },
        execution_roots: vec![root("rust", "cargo", ""), root("go", "go", "svc")],
    }
}

#[test]
fn a_plan_follows_the_mode_and_the_persistent_providers() {
    let refresh = IndexConfig { scip: ScipMode::Refresh, ..Default::default() };
    let plan = plan_semantic_providers(&refresh, &inventory(), false, false);
    assert!(plan.generates && plan.resolves_go);
    assert_eq!(plan.rust_roots, [""]);
    assert_eq!(plan.one_shot_rust_roots, [""]);
    assert_eq!(plan.go_roots, ["svc"]);
    assert_eq!((plan.rust_sources, plan.go_sources), (1, 1));
    let plan = plan_semantic_providers(&refresh, &inventory(), true, true);
    assert!(plan.one_shot_rust_roots.is_empty() && !plan.resolves_go);
    let plan = plan_semantic_providers(&IndexConfig::default(), &inventory(), false, false);
    assert!(!plan.generates && !plan.resolves_go);
    assert_eq!(
        semantic_provider_execution_roots(&inventory().execution_roots, "go", "go"),
        ["svc"]
    );
    let paths = semantic_input_paths(&inventory().inputs, "go");
    assert_eq!(paths.len(), 2);
    assert!(paths.contains("a/go.mod") && paths.contains("b/go.mod"));
}

#[test]
fn native_languages_are_always_configured() {
    let languages = configured_calls_languages(&vec!["python".to_string()]);
    assert!(["go", "python", "rust"].iter().all(|language| languages.contains(language)));
    assert_eq!(languages.len(), 3);
}

#[test]
fn an_unresolved_toolchain_leaves_a_warning_and_no_authority() {
    let failed: Result<StringMap<u8>, _> =
        Err(ToolchainResolutionFailure::Other("go not found".into()));
    let (toolchains, warning) = settle_go_resolution(failed).expect("not fatal");
    assert_eq!(toolchains.len(), 0);
    assert_eq!(
        warning.as_deref(),
        Some("Go semantic toolchain resolution failed; scip-go was not executed: go not found")
    );
    let cancelled: Result<StringMap<u8>, _> = Err(ToolchainResolutionFailure::Cancelled);
    assert!(matches!(settle_go_resolution(cancelled), Err(IndexPipelineError::Cancelled)));
}

#[test]
fn provider_rows_are_published_in_order() {
    let own = vec![exclusive(IndexProgressPhase::SemanticProvider, "scip-go (a)", ms(3))];
    let spans = ProviderSpans {
        cache_preparation: Some(ms(1)),
        cache_maintenance: Some(ms(2)),
        go_revalidation: Some(ms(4)),
        go_reuse_validation: Some(ms(5)),
    };
    let rows = order_provider_timings(own, spans, GoSettlement::AffectedRoots { basis: 0 });
    let labels: Vec<&str> = rows.iter().map(|row| row.label.as_str()).collect();
    assert_eq!(
        labels,
        [
            "semantic provider cache preparation",
            "scip-go (a)",
            "semantic provider cache maintenance",
            "go toolchain authority revalidation",
            "go affected-root basis validation",
        ]
    );
    assert_eq!(
        protected_partitions(vec!["/c/rust/x".into()], "/c/go".into(), 1),
        ["/c/rust/x", "/c/go"]
    );
    assert_eq!(protected_partitions(Vec::new(), "/c/go".into(), 0).len(), 0);
    let counts = EvidenceCounts { generated: 0, persistent: 0, reused: 1 };
    assert!(counts.any() && counts.total() == 1);
    assert!(counts.lacks_precise_index(false) && !counts.lacks_precise_index(true));
}

fn lane() -> LaneProvider {
    LaneProvider {
        language: "python".into(),
        provider_id: "h00-pyrefly".into(),
        operation_label: "persistent pyrefly".into(),
    }
}

#[test]
fn a_lane_keeps_a_refreshed_normalization() {
    let activity = Some(SemanticProviderActivityRecord {
        activity: SemanticProviderActivity::Admitted {
            refresh: SemanticProviderAdmittedRefreshKind::AffectedRoots { roots: 1 },
            operation: ProviderOperation::Named("certify_roots".into()),
            session_open: None,
        },
        timings: Vec::new(),
    });
    let event = LaneEvent::Refreshed {
        normalization: 7u8,
        normalization_total: ms(1),
        elapsed: ms(4),
        activity,
    };
    let outcome = run_persistent_semantic_provider_lane(&lane(), 2, event).expect("lane");
    assert_eq!(outcome.normalization, Some(7));
    assert!(!outcome.reused && outcome.failure.is_none());
    assert_eq!(
        outcome.phase_timings[0].label,
        "persistent pyrefly execution and cache work"
    );
    let progress = outcome.progress.expect("shown");
    assert_eq!(progress.detail, "2 exact project root(s)");
    assert_eq!(outcome.refreshes[0].json_value().lane, SemanticProviderRefreshLane::AffectedRoots.label());
    assert_eq!(lane_started(&lane(), 2).state, IndexProgressState::Started);
}

#[test]
fn a_failed_lane_leaves_no_weaker_authority() {
    let failed = |cancelled: bool| LaneEvent::<u8>::Failed {
        error: "handshake".into(),
        cancelled,
        elapsed: ms(4),
        activity: None,
    };
    let outcome = run_persistent_semantic_provider_lane(&lane(), 1, failed(false)).expect("lane");
    assert!(outcome.normalization.is_none());
    let failure = outcome.failure.as_ref().expect("evidence of the failure");
    assert_eq!(failure.receipt.status, CapabilityStatus::Unavailable);
    assert_eq!(failure.receipt.provider_id.0, "h00-pyrefly");
    assert_eq!(
        outcome.progress.as_ref().expect("shown").detail,
        "handshake; Calls authority for python is unavailable"
    );
    assert!(matches!(
        run_persistent_semantic_provider_lane(&lane(), 1, failed(true)),
        Err(LaneCancelled)
    ));
    let idle =
        run_persistent_semantic_provider_lane(&lane(), 0, LaneEvent::<u8>::NoExecutionRoot)
            .expect("lane");
    assert!(idle.normalization.is_none() && idle.failure.is_none());

    let reused = run_persistent_semantic_provider_lane(
        &lane(),
        1,
        LaneEvent::Reused {
            normalization: 9u8,
            normalization_total: ms(0),
            elapsed: ms(1),
            activity: None,
        },
    );
    let merged = merge_lane_outcomes(vec![Ok(outcome), reused]).expect("merged");
    assert_eq!((merged.persistent.len(), merged.reused.clone()), (0, vec![9]));
    assert_eq!(merged.failures.len(), 1);
    let sealed = seal_failures(merged.failures);
    assert_eq!(
        sealed[0].receipt.reason_code.as_deref(),
        Some("provider_failed_or_unavailable")
    );
    assert!(merge_lane_outcomes::<u8>(vec![Err(LaneCancelled)]).is_err());
}

fn calls_evidence(language: &str) -> ScipArtifactEvidence {
    let receipt = CapabilityReceipt::complete(
        "calls",
        default_calls_provider(language),
        "1.0.0",
        CapabilityScope::of_language(language, CALLS_CONFIGURATION_ID),
        &"a".repeat(64),
    );
    ScipArtifactEvidence {
        language_id: LanguageId::new(language),
        payload: Some(ProviderPayload::Calls(CallsProviderPayload::new(receipt.clone()))),
        receipt,
    }
}

fn snapshot(language: &str) -> CanonicalScipSnapshot {
    CanonicalScipSnapshot {
        handle: 4,
        provider_id: default_calls_provider(language).into(),
        executed_provider_version: "1.0.0".into(),
        configurations: StringMap::new(),
    }
}

fn sealed(
    evidence: &ScipArtifactEvidence,
) -> Result<(CanonicalProviderPayload, ProviderPayloadCanonicalizationTimings), String> {
    let timings = ProviderPayloadCanonicalizationTimings {
        normalization: ms(0),
        serialization: ms(2),
        descriptor: ms(3),
    };
    let payload = evidence.payload.clone().expect("payload");
    Ok((CanonicalProviderPayload { payload, bytes: b"bytes".to_vec() }, timings))
}

fn graph_with(name: &str) -> KnowledgeGraph {
    let mut graph = KnowledgeGraph::new();
    graph
        .add_node(GraphNode {
            memory_id: 1,
            symbol_name: name.into(),
            kind: "function".into(),
            is_callable: true,
            file_path: "src/lib.rs".into(),
            content_hash: String::new(),
            signature: String::new(),
            reachability_class: ReachabilityClass::Wired,
            line_start: None,
            line_end: None,
            has_body: None,
            visibility: String::new(),
            is_test_only: None,
            is_test_root: false,
            has_platform_cfg: false,
            rustc_flagged_dead: false,
            entry_retain: 0,
            has_uncaptured_items: false,
            oracle_receipt: None,
        })
        .expect("node");
    graph
}

#[test]
fn trusted_evidence_brings_its_snapshot_into_the_graph() {
    let mut merge = SemanticMerge::new(graph_with("before"));
    let evidence = calls_evidence("rust");
    let result = sealed(&evidence);
    let ready = merge.seal(evidence, result);
    assert_eq!(merge.canonicalization.descriptor, ms(3));
    let projection =
        Ok((graph_with("projected"), CallsGraphProjectionStats { novel_edges: 2 }));
    let trusted = merge.project_calls("rust", ready, projection, ms(1)).expect("trusted");
    assert_eq!(merge.stats.novel_edges, 2);
    merge.merge_residual(
        trusted,
        Some(snapshot("rust")),
        None,
        (graph_with("merged"), Ok(ScipStats { novel_edges: 1, merged_with_existing: 4 })),
        ms(1),
    );
    assert_eq!(merge.stats, ScipStats { novel_edges: 3, merged_with_existing: 4 });
    assert_eq!(merge.graph.all_nodes()[0].symbol_name, "merged");
    assert!(merge.any_loaded && merge.last_error.is_none());
    assert_eq!(merge.snapshots.len(), 1);
    let labels: Vec<&str> = merge.timings.iter().map(|row| row.label.as_str()).collect();
    assert_eq!(
        labels,
        ["rust normalized Calls projection", "rust residual SCIP projection"]
    );
}

#[test]
fn unsealed_evidence_is_not_trusted() {
    let mut merge = SemanticMerge::new(graph_with("before"));
    let ready = merge.seal(calls_evidence("rust"), Err("codec".into()));
    let projection =
        Ok((graph_with("projected"), CallsGraphProjectionStats { novel_edges: 2 }));
    assert!(merge.project_calls("rust", ready, projection, ms(1)).is_none());
    assert_eq!(merge.stats.novel_edges, 0);
    assert_eq!(merge.graph.all_nodes()[0].symbol_name, "before");
    assert_eq!(merge.evidence.len(), 1);
}

#[test]
fn a_missing_snapshot_is_an_error_that_leaves_the_graph() {
    let mut merge = SemanticMerge::new(graph_with("before"));
    let evidence = calls_evidence("rust");
    let result = sealed(&evidence);
    let ready = merge.seal(evidence, result);
    let projection =
        Ok((graph_with("projected"), CallsGraphProjectionStats { novel_edges: 0 }));
    let trusted = merge.project_calls("rust", ready, projection, ms(1)).expect("trusted");
    let stats = ScipStats { novel_edges: 0, merged_with_existing: 0 };
    merge.merge_residual(trusted, None, None, (graph_with("merged"), Ok(stats)), ms(1));
    assert_eq!(merge.last_error.as_deref(), Some(MISSING_SNAPSHOT));
    assert_eq!(merge.graph.all_nodes()[0].symbol_name, "projected");
}

#[test]
fn go_authority_is_bound_only_within_the_repository() {
    let inputs = Some(ProviderSemanticInputs {
        complete: true,
        environment: Vec::new(),
        issues: Vec::new(),
        paths: Vec::new(),
    });
    let authority = Some(ProviderExecutionAuthority::ToolchainBound {
        resolver_policy_id: "policy".into(),
        ecosystem_id: "go".into(),
        reuse_contract_id: "contract".into(),
        provider_implementation_sha256: "implementation".into(),
        provider_inventory_sha256: "inventory".into(),
        roots: Vec::new(),
    });
    let bound = |bounded: bool| {
        let evidence =
            bind_go_authority(calls_evidence("go"), &inputs, &authority, bounded, Ok(()))
                .expect("bound");
        match evidence.payload {
            Some(ProviderPayload::Calls(calls)) => calls.execution_authority,
            _ => panic!("calls payload"),
        }
    };
    assert_eq!(Some(bound(true)), authority);
    assert_eq!(bound(false), ProviderExecutionAuthority::InvocationBound);
    assert_eq!(
        bind_go_authority(calls_evidence("go"), &inputs, &authority, true, Err("digest".into())),
        Err("normalized Go execution authority is invalid: digest".to_string())
    );
    let untouched =
        bind_go_authority(calls_evidence("go"), &None, &authority, true, Err("digest".into()));
    assert_eq!(untouched, Ok(calls_evidence("go")));
}

#[test]
fn a_retained_basis_is_normalized_as_it_is() {
    let normalization = reused_normalization(CanonicalSemanticBasis {
        snapshot: snapshot("go"),
        evidence: calls_evidence("go"),
        supplemental_evidence: Vec::new(),
        source_syntax_cache: None,
    });
    assert_eq!(normalization.evidence, calls_evidence("go"));
    assert_eq!(normalization.canonical_snapshot.expect("kept").handle, 4);
    assert_eq!(normalization.timings.total, Duration::zero());
    assert_eq!(
        label_normalization("go", NormalizationOrigin::RetainedExact),
        "go retained exact"
    );
    let row = composition_timing("go", NormalizationOrigin::AffectedRoots, ms(9), ms(4));
    assert_eq!(row.label, "go affected-root composition and authority binding");
    assert_eq!(row.duration, ms(5));
}

#[test]
fn semantic_rows_sum_to_the_phase() {
    let mut rows = vec![
        exclusive(IndexProgressPhase::StructuralScan, "structural scan", ms(100)),
        exclusive(IndexProgressPhase::SemanticProvider, "scip-go (a)", ms(30)),
    ];
    record_semantic_orchestration(&mut rows, ms(50));
    assert_eq!(rows.len(), 3);
    assert_eq!((rows[2].label.as_str(), rows[2].duration), ("semantic orchestration", ms(20)));
    assert_eq!(semantic_step_count(&rows), 2);
    let mut idle = Vec::new();
    record_semantic_orchestration(&mut idle, ms(50));
    assert!(idle.is_empty());
}

#[test]
fn demanded_calls_authority_names_its_gaps() {
    let coverage = CapabilityCoverage {
        status: CapabilityCoverageStatus::Partial,
        languages: vec![LanguageCoverage {
            language_id: "go".into(),
            status: CapabilityCoverageStatus::Unavailable,
            qualifications: Vec::new(),
            gaps: vec![CapabilityGap {
                provider_id: Some(ProviderId("scip-go".into())),
                reason_code: "provider_failed_or_unavailable".into(),
                reason: "exit 1".into(),
            }],
        }],
        best_effort_satisfied: false,
        all_callable_complete: false,
    };
    let demanding = IndexConfig { require_complete_calls: true, ..Default::default() };
    let error = require_requested_semantic_authority(&demanding, &coverage).expect_err("refused");
    assert!(error
        .message()
        .contains("go:scip-go:provider_failed_or_unavailable: exit 1"));
    assert!(require_requested_semantic_authority(&IndexConfig::default(), &coverage).is_ok());
}

#[test]
fn notes_and_progress_read_as_they_are_printed() {
    let mut profiler = ProfileCollector::new(true);
    record_note(&mut profiler, PhaseNote::ChangeDetect { checked: 12, changed: 3 }, ms(2));
    assert_eq!(profiler.phase_timings[0].name, "change detect");
    assert_eq!(profiler.phase_timings[0].phase_num, 2);
    assert_eq!(profiler.phase_timings[0].detail, "12 checked, 3 changed");
    let event = RunProgress::ScanCompleted {
        discovered: 2,
        changed: 1,
        deleted: 0,
        nodes_added: 4,
        edges_added: 5,
        nodes: 6,
        edges: 7,
        elapsed: ms(8),
    }
    .event();
    assert_eq!(
        event.detail,
        "2 files discovered; 1 changed; 0 deleted; build work: 4 nodes, 5 edges; candidate total: 6 nodes, 7 edges"
    );
    let write = GraphSnapshotWriteTelemetry {
        evidence_validation: ms(1),
        snapshot_materialization: ms(1),
        snapshot_encoding: ms(1),
        evidence_encoding: ms(1),
        proof_hashing: ms(1),
        database_write: ms(1),
        graph_bytes: 10,
        evidence_bytes: 5,
        graph_blake3: [0; 32],
        evidence_blake3: None,
    };
    let notes = graph_persistence_notes(&write, false, 2, 1, ms(10));
    assert_eq!(notes.len(), 6);
    assert_eq!(notes[2].0.detail(), "10 graph bytes, 5 evidence bytes");
    assert_eq!(notes[2].1, ms(2));
    assert_eq!(notes[3].0.detail(), "15 graph/evidence bytes");
    assert_eq!((notes[5].0.name(), notes[5].1), ("graph metadata writes", ms(4)));
}

#[test]
fn a_lane_tries_reuse_before_it_runs_its_provider() {
    assert_eq!(next_lane_step(0, None), LaneStep::End);
    assert_eq!(next_lane_step(0, Some(false)), LaneStep::End);
    assert_eq!(next_lane_step(2, None), LaneStep::TryReuse);
    assert_eq!(next_lane_step(2, Some(true)), LaneStep::End);
    assert_eq!(next_lane_step(2, Some(false)), LaneStep::Refresh);
    let failed = LaneEvent::<u8>::Failed {
        error: "handshake".into(),
        cancelled: true,
        elapsed: ms(1),
        activity: None,
    };
    let idle = run_persistent_semantic_provider_lane(&lane(), 0, failed).expect("nothing ran");
    assert!(idle.failure.is_none() && idle.progress.is_none());
}
