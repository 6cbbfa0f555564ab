//! Provider evidence: sealing, projection, routing and the choice of receipts.

use h00ligan_engine::calls_evidence::{
    bounded_structural_join_reason, default_calls_provider,
    enforce_and_project_calls_structural_join, enforce_callable_liveness_structural_join,
    seal_scip_artifact_evidence, select_calls_evidence, wants_calls_projection,
    CallsGraphProjectionStats, ProviderPayloadCanonicalizationTimings, DETAIL_LIMIT,
    H00_GO_PROVIDER_ID, H00_PYREFLY_PROVIDER_ID, H00_RUST_ANALYZER_PROVIDER_ID,
    H00_TYPESCRIPT_PROVIDER_ID,
};
use h00ligan_engine::domain::{
    CapabilityReceipt, CapabilityScope, CapabilityStatus, ConfigurationId, LanguageId,
    CALLABLE_LIVENESS_CONFIGURATION_ID, CALLS_CONFIGURATION_ID,
};
use h00ligan_engine::duration::Duration;
use h00ligan_engine::graph::{
    EdgeKind, EdgeSource, GraphEdge, GraphNode, KnowledgeGraph, ReachabilityClass, SourceSpan,
};
use h00ligan_engine::index_config::ScipMode;
use h00ligan_engine::index_evidence::route_semantic_evidence;
use h00ligan_engine::payload::{
    CallableLivenessProviderPayload, CallsProviderPayload, CanonicalProviderPayload,
    ProviderDocument, ProviderPayload, PublicationReadySemanticEvidence, ScipArtifactEvidence,
};
use h00ligan_engine::semantic_basis::{
    admitted_canonical_semantic_bases, CanonicalScipSnapshot, CanonicalSourceSyntaxCache,
};
use h00ligan_engine::ordered::StringMap;

fn calls_scope(language: &str) -> CapabilityScope {
    CapabilityScope::Language {
        language_id: LanguageId::new(language),
        configuration_id: ConfigurationId::new(CALLS_CONFIGURATION_ID),
    }
}

fn normalized_calls_payload(receipt: CapabilityReceipt) -> ProviderPayload {
    ProviderPayload::Calls(CallsProviderPayload::new(receipt))
}

/// What sealing a payload gives when it succeeds.
fn sealed(
    evidence: &ScipArtifactEvidence,
) -> Result<(CanonicalProviderPayload, ProviderPayloadCanonicalizationTimings), String> {
    match &evidence.payload {
        Some(payload) => Ok((
            CanonicalProviderPayload { payload: payload.clone(), bytes: b"sealed".to_vec() },
            ProviderPayloadCanonicalizationTimings::none(),
        )),
        None => Err("nothing to seal".into()),
    }
}

fn seal(evidence: ScipArtifactEvidence) -> PublicationReadySemanticEvidence {
    let result = sealed(&evidence);
    seal_scip_artifact_evidence(evidence, result).0
}

fn select_calls_evidence_for_test(
    scip_mode: ScipMode,
    language: &str,
    execution_root_available: bool,
    evidence: Vec<ScipArtifactEvidence>,
    provider_payloads: &mut Vec<CanonicalProviderPayload>,
) -> CapabilityReceipt {
    let mut normalization = Duration::zero();
    let evidence = evidence
        .into_iter()
        .map(|evidence| {
            let result = sealed(&evidence);
            let (evidence, timings) = seal_scip_artifact_evidence(evidence, result);
            normalization = normalization.saturating_add(timings.normalization);
            evidence
        })
        .collect();
    let receipt = select_calls_evidence(
        scip_mode,
        language,
        execution_root_available,
        true,
        evidence,
        provider_payloads,
    );
    assert_eq!(
        normalization,
        Duration::zero(),
        "typed semantic evidence must not be normalized again during selection"
    );
    receipt
}

fn evidence_of(language: &str, receipt: CapabilityReceipt) -> ScipArtifactEvidence {
    ScipArtifactEvidence {
        language_id: LanguageId::new(language),
        payload: Some(normalized_calls_payload(receipt.clone())),
        receipt,
    }
}

fn complete_calls_evidence(language: &str) -> ScipArtifactEvidence {
    let receipt = CapabilityReceipt::complete(
        "calls",
        default_calls_provider(language),
        "fixture-provider-1.0.0",
        calls_scope(language),
        &"a".repeat(64),
    );
    evidence_of(language, receipt)
}

fn complete_callable_liveness_evidence(language: &str) -> ScipArtifactEvidence {
    let receipt = CapabilityReceipt::complete(
        "callable_liveness",
        H00_GO_PROVIDER_ID,
        "fixture-provider-1.0.0",
        CapabilityScope::Language {
            language_id: LanguageId::new(language),
            configuration_id: ConfigurationId::new(CALLABLE_LIVENESS_CONFIGURATION_ID),
        },
        &"d".repeat(64),
    );
    let mut payload = CallableLivenessProviderPayload::new(receipt.clone());
    payload.documents.push(ProviderDocument {
        document_path: "main.go".into(),
        language_id: LanguageId::new(language),
        content_sha256: "e".repeat(64),
        cross_document_surface_sha256: "f".repeat(64),
        byte_length: 16,
    });
    ScipArtifactEvidence {
        language_id: LanguageId::new(language),
        receipt,
        payload: Some(ProviderPayload::CallableLiveness(payload)),
    }
}

#[test]
fn typed_analysis_evidence_is_not_a_second_calls_candidate() {
    let calls = seal(complete_calls_evidence("go"));
    let liveness = seal(complete_callable_liveness_evidence("go"));
    let routed = route_semantic_evidence(vec![liveness, calls]);

    assert_eq!(
        routed.calls_by_language.get("go").map(Vec::len),
        Some(1),
        "positive control: the canonical SCIP payload remains one Calls candidate"
    );
    assert_eq!(routed.additional_receipts.len(), 1);
    assert_eq!(routed.additional_receipts[0].capability_id, "callable_liveness");
    assert_eq!(routed.additional_payloads.len(), 1);
    assert!(matches!(
        routed.additional_payloads[0].payload(),
        ProviderPayload::CallableLiveness(_)
    ));
}

fn node(id: u128, name: &str, line: u64) -> GraphNode {
    GraphNode {
        memory_id: id,
        symbol_name: name.into(),
        kind: "function".into(),
        is_callable: true,
        file_path: "src/lib.rs".into(),
        content_hash: format!("hash-{name}"),
        signature: format!("fn {name}()"),
        reachability_class: ReachabilityClass::Wired,
        line_start: Some(line),
        line_end: Some(line),
        has_body: Some(true),
        visibility: "pub".into(),
        is_test_only: Some(false),
        is_test_root: false,
        has_platform_cfg: false,
        rustc_flagged_dead: false,
        entry_retain: 0,
        has_uncaptured_items: false,
        oracle_receipt: None,
    }
}

fn caller_and_target() -> KnowledgeGraph {
    let mut graph = KnowledgeGraph::new();
    graph.add_node(node(1, "caller", 0)).expect("caller node");
    graph
        .set_source_span(1, SourceSpan { start_byte: 0, end_byte: 80 })
        .expect("caller span");
    graph.add_node(node(2, "target", 9)).expect("target node");
    graph
        .set_source_span(2, SourceSpan { start_byte: 900, end_byte: 980 })
        .expect("target span");
    graph
}

/// The projection of a payload that calls from the one node to the other.
fn projected() -> Result<(KnowledgeGraph, CallsGraphProjectionStats), String> {
    let mut graph = caller_and_target();
    let edge = GraphEdge {
        kind: EdgeKind::Calls,
        source: EdgeSource::Scip,
        weight_bits: 1.0f32.to_bits(),
        access_count: 0,
    };
    graph.add_edge(1, 2, edge).expect("projected call");
    Ok((graph, CallsGraphProjectionStats { novel_edges: 1 }))
}

#[test]
fn provider_payload_seal_failure_cannot_leave_projected_calls_edges() {
    let receipt = CapabilityReceipt::complete(
        "calls",
        "rust-analyzer-scip",
        "fixture-provider-1.0.0",
        calls_scope("rust"),
        &"a".repeat(64),
    );
    let mut calls = CallsProviderPayload::new(receipt.clone());
    calls.documents.push(ProviderDocument {
        document_path: "src/lib.rs".into(),
        language_id: LanguageId::new("rust"),
        content_sha256: "b".repeat(64),
        cross_document_surface_sha256: "c".repeat(64),
        byte_length: 1_024,
    });
    let evidence = ScipArtifactEvidence {
        language_id: LanguageId::new("rust"),
        receipt,
        payload: Some(ProviderPayload::Calls(calls)),
    };

    let mut graph = caller_and_target();
    let (mut evidence, _) =
        seal_scip_artifact_evidence(evidence, Err("injected seal failure".into()));
    assert_eq!(
        evidence.receipt.reason_code.as_deref(),
        Some("provider_payload_seal_failed"),
        "the injected fault must reach the intended seal boundary"
    );
    assert!(!wants_calls_projection(&evidence));
    let projected =
        enforce_and_project_calls_structural_join(&mut graph, &mut evidence, projected());
    assert_eq!(
        projected.novel_edges, 0,
        "an unsealed payload cannot reach projection"
    );
    let mut payloads = Vec::new();
    let selected = select_calls_evidence(
        ScipMode::Refresh,
        "rust",
        true,
        true,
        vec![evidence],
        &mut payloads,
    );
    assert_eq!(
        selected.reason_code.as_deref(),
        Some("provider_payload_seal_failed"),
        "the injected fault must reach the intended seal boundary"
    );
    assert!(payloads.is_empty(), "an unsealed payload is not authority");
    assert!(
        graph.all_edges().iter().all(|(_, _, edge)| {
            edge.kind != EdgeKind::Calls || edge.source != EdgeSource::Scip
        }),
        "a rejected seal must leave no provider-backed Calls relation"
    );
}

#[test]
fn sealed_calls_evidence_reaches_the_graph() {
    let mut graph = caller_and_target();
    let mut evidence = seal(complete_calls_evidence("rust"));
    let before = evidence.clone();
    let stats =
        enforce_and_project_calls_structural_join(&mut graph, &mut evidence, projected());
    assert_eq!(stats.novel_edges, 1);
    assert_eq!(graph.edge_count(), 1);
    assert_eq!(evidence, before);
}

#[test]
fn an_incomplete_join_withdraws_the_evidence_and_keeps_the_graph() {
    let mut graph = caller_and_target();
    let mut evidence = seal(complete_calls_evidence("rust"));
    let stats = enforce_and_project_calls_structural_join(
        &mut graph,
        &mut evidence,
        Err("symbol without a node".into()),
    );
    assert_eq!(stats.novel_edges, 0);
    assert_eq!(graph.edge_count(), 0);
    assert!(evidence.payload.is_none());
    assert_eq!(evidence.receipt.status, CapabilityStatus::Partial);
    assert_eq!(
        evidence.receipt.reason_code.as_deref(),
        Some("provider_structural_join_incomplete")
    );
    assert!(evidence.receipt.reason.as_deref().is_some_and(|r| r.contains("symbol without a node")));
}

#[test]
fn an_incomplete_liveness_join_withdraws_the_evidence() {
    let mut evidence = seal(complete_callable_liveness_evidence("go"));
    enforce_callable_liveness_structural_join(&mut evidence, Err("unknown symbol".into()));
    assert!(evidence.payload.is_none());
    assert_eq!(evidence.receipt.status, CapabilityStatus::Partial);
    let mut kept = seal(complete_callable_liveness_evidence("go"));
    let before = kept.clone();
    enforce_callable_liveness_structural_join(&mut kept, Ok(()));
    assert_eq!(kept, before);
}

#[test]
fn a_join_reason_is_bounded() {
    let long = "x".repeat(DETAIL_LIMIT * 2);
    let reason = bounded_structural_join_reason("Calls", &long);
    let head = "normalized Calls evidence could not join the co-published structural graph: ";
    assert_eq!(reason, format!("{head}{}…", "x".repeat(384)));
    assert_eq!(
        bounded_structural_join_reason("Calls", "short"),
        format!("{head}short")
    );
}

#[test]
fn duplicate_scip_artifacts_are_ambiguous_and_order_independent() {
    let first = complete_calls_evidence("rust");
    let second = first.clone();
    let mut payloads = Vec::new();
    let forward = select_calls_evidence_for_test(
        ScipMode::Refresh,
        "rust",
        true,
        vec![first.clone(), second.clone()],
        &mut payloads,
    );
    assert_eq!(forward.status, CapabilityStatus::Partial);
    assert_eq!(
        forward.reason_code.as_deref(),
        Some("provider_artifact_ambiguous")
    );
    assert!(payloads.is_empty());

    let reverse = select_calls_evidence_for_test(
        ScipMode::Refresh,
        "rust",
        true,
        vec![second, first],
        &mut payloads,
    );
    assert_eq!(reverse, forward);
    assert!(payloads.is_empty());
}

#[test]
fn missing_provider_root_is_not_reported_as_an_execution_failure() {
    let mut payloads = Vec::new();
    let missing_go_root =
        select_calls_evidence_for_test(ScipMode::Refresh, "go", false, Vec::new(), &mut payloads);
    assert_eq!(
        missing_go_root.reason_code.as_deref(),
        Some("provider_execution_root_unavailable")
    );
    assert!(missing_go_root
        .reason
        .as_deref()
        .is_some_and(|reason| reason.contains("go.mod") && reason.contains("go.work")));

    let failed_provider =
        select_calls_evidence_for_test(ScipMode::Refresh, "go", true, Vec::new(), &mut payloads);
    assert_eq!(
        failed_provider.reason_code.as_deref(),
        Some("provider_failed_or_unavailable"),
        "positive control: an available execution root takes the provider-failure branch"
    );

    let absent_python_provider = select_calls_evidence(
        ScipMode::Refresh,
        "python",
        true,
        false,
        Vec::new(),
        &mut payloads,
    );
    assert_eq!(
        absent_python_provider.reason_code.as_deref(),
        Some("provider_not_configured"),
        "an eligible project does not prove that this product configured its provider"
    );
    assert!(payloads.is_empty());
}

#[test]
fn calls_evidence_selection_requires_matching_complete_receipt_and_payload() {
    let complete = complete_calls_evidence("go");
    let expected_receipt = complete.receipt.clone();
    let mut payloads = Vec::new();
    let selected = select_calls_evidence_for_test(
        ScipMode::Refresh,
        "go",
        true,
        vec![complete],
        &mut payloads,
    );
    assert_eq!(selected, expected_receipt);
    assert_eq!(payloads.len(), 1);

    payloads.clear();
    let missing_payload = ScipArtifactEvidence {
        language_id: LanguageId::new("go"),
        receipt: expected_receipt,
        payload: None,
    };
    let inconsistent = select_calls_evidence_for_test(
        ScipMode::Refresh,
        "go",
        true,
        vec![missing_payload],
        &mut payloads,
    );
    assert_eq!(inconsistent.status, CapabilityStatus::Unavailable);
    assert_eq!(
        inconsistent.reason_code.as_deref(),
        Some("provider_evidence_inconsistent")
    );
    assert!(payloads.is_empty());

    let foreign_scope = complete_calls_evidence("rust");
    let foreign = select_calls_evidence_for_test(
        ScipMode::Refresh,
        "go",
        true,
        vec![foreign_scope],
        &mut payloads,
    );
    assert_eq!(foreign.status, CapabilityStatus::Unavailable);
    assert_eq!(
        foreign.reason_code.as_deref(),
        Some("provider_evidence_inconsistent")
    );
    assert!(payloads.is_empty());
}

#[test]
fn calls_evidence_selection_retains_the_distinct_persistent_rust_provider_lineage() {
    let receipt = CapabilityReceipt::complete(
        "calls",
        H00_RUST_ANALYZER_PROVIDER_ID,
        "fixture-provider-1.0.0",
        calls_scope("rust"),
        &"b".repeat(64),
    );
    let evidence = evidence_of("rust", receipt.clone());
    let mut payloads = Vec::new();
    let selected = select_calls_evidence_for_test(
        ScipMode::Refresh,
        "rust",
        true,
        vec![evidence],
        &mut payloads,
    );
    assert_eq!(selected, receipt);
    assert_eq!(payloads.len(), 1);

    let unavailable_receipt = CapabilityReceipt::unavailable(
        "calls",
        H00_RUST_ANALYZER_PROVIDER_ID,
        None,
        calls_scope("rust"),
        None,
        "provider_failed_or_unavailable",
        "persistent provider fixture failed",
    );
    let unavailable = ScipArtifactEvidence {
        language_id: LanguageId::new("rust"),
        receipt: unavailable_receipt.clone(),
        payload: None,
    };
    payloads.clear();
    let selected = select_calls_evidence_for_test(
        ScipMode::Refresh,
        "rust",
        true,
        vec![unavailable],
        &mut payloads,
    );
    assert_eq!(selected, unavailable_receipt);
    assert_eq!(
        selected.provider_id.0, H00_RUST_ANALYZER_PROVIDER_ID,
        "a persistent-provider failure must not be relabeled as the legacy one-shot provider"
    );
    assert!(payloads.is_empty());

    let foreign_receipt = CapabilityReceipt::complete(
        "calls",
        "foreign-rust-provider",
        "fixture-provider-1.0.0",
        calls_scope("rust"),
        &"c".repeat(64),
    );
    payloads.clear();
    let refused = select_calls_evidence_for_test(
        ScipMode::Refresh,
        "rust",
        true,
        vec![evidence_of("rust", foreign_receipt)],
        &mut payloads,
    );
    assert_eq!(refused.status, CapabilityStatus::Unavailable);
    assert_eq!(
        refused.reason_code.as_deref(),
        Some("provider_evidence_inconsistent")
    );
    assert!(payloads.is_empty());
}

#[test]
fn calls_evidence_selection_retains_the_distinct_persistent_go_provider_lineage() {
    let receipt = CapabilityReceipt::complete(
        "calls",
        H00_GO_PROVIDER_ID,
        "fixture-provider-1.0.0",
        calls_scope("go"),
        &"d".repeat(64),
    );
    let evidence = evidence_of("go", receipt.clone());
    let mut payloads = Vec::new();
    let selected = select_calls_evidence_for_test(
        ScipMode::Refresh,
        "go",
        true,
        vec![evidence],
        &mut payloads,
    );
    assert_eq!(selected, receipt);
    assert_eq!(payloads.len(), 1);

    let unavailable_receipt = CapabilityReceipt::unavailable(
        "calls",
        H00_GO_PROVIDER_ID,
        None,
        calls_scope("go"),
        None,
        "provider_document_omitted",
        "persistent Go provider fixture omitted a document",
    );
    let unavailable = ScipArtifactEvidence {
        language_id: LanguageId::new("go"),
        receipt: unavailable_receipt.clone(),
        payload: None,
    };
    payloads.clear();
    let selected = select_calls_evidence_for_test(
        ScipMode::Refresh,
        "go",
        true,
        vec![unavailable],
        &mut payloads,
    );
    assert_eq!(selected, unavailable_receipt);
    assert_eq!(
        selected.provider_id.0, H00_GO_PROVIDER_ID,
        "a persistent-provider failure must retain its real provider lineage"
    );
    assert!(payloads.is_empty());
}

#[test]
fn product_native_python_and_typescript_evidence_crosses_final_admission() {
    for (language, expected_provider) in [
        ("python", H00_PYREFLY_PROVIDER_ID),
        ("typescript", H00_TYPESCRIPT_PROVIDER_ID),
    ] {
        let evidence = complete_calls_evidence(language);
        let expected_receipt = evidence.receipt.clone();
        let mut payloads = Vec::new();
        let selected = select_calls_evidence_for_test(
            ScipMode::Refresh,
            language,
            true,
            vec![evidence],
            &mut payloads,
        );
        assert_eq!(selected, expected_receipt);
        assert_eq!(selected.provider_id.0, expected_provider);
        assert_eq!(payloads.len(), 1, "{language} payload was not admitted");
    }

    let foreign_receipt = CapabilityReceipt::complete(
        "calls",
        "foreign-typescript-provider",
        "fixture-provider-1.0.0",
        calls_scope("typescript"),
        &"e".repeat(64),
    );
    let mut payloads = Vec::new();
    let refused = select_calls_evidence_for_test(
        ScipMode::Refresh,
        "typescript",
        true,
        vec![evidence_of("typescript", foreign_receipt)],
        &mut payloads,
    );
    assert_eq!(refused.status, CapabilityStatus::Unavailable);
    assert_eq!(
        refused.reason_code.as_deref(),
        Some("provider_evidence_inconsistent")
    );
    assert!(payloads.is_empty());
}

#[test]
fn a_disabled_run_admits_no_evidence() {
    let mut payloads = Vec::new();
    let receipt = select_calls_evidence_for_test(
        ScipMode::Disabled,
        "rust",
        true,
        vec![complete_calls_evidence("rust")],
        &mut payloads,
    );
    assert_eq!(receipt.status, CapabilityStatus::Unavailable);
    assert!(payloads.is_empty());
}

#[test]
fn a_snapshot_needs_exactly_one_backing_payload() {
    let snapshot = |handle: u64| CanonicalScipSnapshot {
        handle,
        provider_id: default_calls_provider("go").to_string(),
        executed_provider_version: "fixture-provider-1.0.0".into(),
        configurations: StringMap::new(),
    };
    let cache = Some(CanonicalSourceSyntaxCache { handle: 5 });
    let payload = seal(complete_calls_evidence("go")).payload.expect("sealed");
    let bases =
        admitted_canonical_semantic_bases(vec![(snapshot(7), cache)], &vec![payload.clone()]);
    assert_eq!(bases.len(), 1);
    assert_eq!(bases[0].snapshot.handle, 7);
    assert_eq!(bases[0].source_syntax_cache, cache);
    assert_eq!(bases[0].evidence.receipt.capability_id, "calls");
    assert!(bases[0].supplemental_evidence.is_empty());

    let twice = vec![payload.clone(), payload];
    assert!(admitted_canonical_semantic_bases(vec![(snapshot(7), None)], &twice).is_empty());
    assert!(admitted_canonical_semantic_bases(vec![(snapshot(7), None)], &Vec::new()).is_empty());
}
