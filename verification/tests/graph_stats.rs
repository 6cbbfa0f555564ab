//! Freshness, coverage and statistics of a graph.

use std::time::{Duration, SystemTime};

use h00ligan_engine::domain::{CapabilityCoverage, CapabilityCoverageStatus};
use h00ligan_engine::graph::{
    EdgeKind, EdgeSource, GraphEdge, GraphNode, KnowledgeGraph, ReachabilityClass,
};
use h00ligan_engine::graph_stats::{
    call_edge_coverage, calls_coverage_guidance, compute_graph_stats, compute_reachability_summary,
    coverage_block_json, coverage_suppressed_languages, coverage_tier, dead_code_unknown_guidance,
    format_age, format_elapsed, node_language, unclassified_population_guidance, CallEdgeCoverage,
    CoverageTier, Ratio, CALLS_ACTIONABLE_GAP_GUIDANCE, NOT_APPLICABLE_NOTE,
};
use h00ligan_engine::index_state::{FileRecord, IndexMetadata};
use h00ligan_engine::index_tables::IndexState;
use h00ligan_engine::source_freshness::{
    check_indexed_source_freshness, compare_source_population, plan_source_freshness,
    read_index_baseline_from_state, read_source_digest, DiscoveredFile, FreshnessPlan,
    IndexedSourceFreshnessError, PopulationOutcome, SourceObservation, StalenessReason,
    StalenessVerdict, MAX_STALENESS_FILES,
};

/// A writable state over a database without index tables.
fn open_temp() -> IndexState {
    IndexState::new(None, None, None)
}

#[test]
fn format_age_just_now() {
    let now = SystemTime::now();
    let result = format_age(now);
    assert_eq!(result, "just now");
}

#[test]
fn format_age_minutes() {
    let five_min_ago = SystemTime::now() - Duration::from_secs(300);
    let result = format_age(five_min_ago);
    assert_eq!(result, "5 minutes ago");
}

#[test]
fn format_age_hours() {
    let two_hours_ago = SystemTime::now() - Duration::from_secs(7200);
    let result = format_age(two_hours_ago);
    assert_eq!(result, "2 hours ago");
}

#[test]
fn format_age_days() {
    let three_days_ago = SystemTime::now() - Duration::from_secs(259200);
    let result = format_age(three_days_ago);
    assert_eq!(result, "3 days ago");
}

#[test]
fn format_age_singular() {
    let one_min_ago = SystemTime::now() - Duration::from_secs(60);
    assert_eq!(format_age(one_min_ago), "1 minute ago");

    let one_hour_ago = SystemTime::now() - Duration::from_secs(3600);
    assert_eq!(format_age(one_hour_ago), "1 hour ago");

    let one_day_ago = SystemTime::now() - Duration::from_secs(86400);
    assert_eq!(format_age(one_day_ago), "1 day ago");
}

#[test]
fn format_age_future_returns_unknown() {
    let future = SystemTime::now() + Duration::from_secs(3600);
    assert_eq!(format_age(future), "unknown");
}

#[test]
fn elapsed_seconds_are_told_in_the_largest_whole_unit() {
    assert_eq!(format_elapsed(Some(59)), "just now");
    assert_eq!(format_elapsed(Some(60)), "1 minute ago");
    assert_eq!(format_elapsed(Some(3599)), "59 minutes ago");
    assert_eq!(format_elapsed(Some(86399)), "23 hours ago");
    assert_eq!(format_elapsed(None), "unknown");
}

fn record(bytes: &[u8], language: &str) -> FileRecord {
    FileRecord {
        blake3_hash: blake3::hash(bytes).to_hex().to_string(),
        last_indexed: 1,
        symbol_count: 1,
        language: language.into(),
    }
}

fn observation(relative: &str, bytes: &[u8]) -> SourceObservation {
    SourceObservation {
        file: DiscoveredFile {
            path: format!("/repo/{relative}"),
            relative: Some(relative.into()),
        },
        read: Ok(bytes.to_vec()),
    }
}

#[test]
fn indexed_source_freshness_detects_byte_drift_with_restored_mtime() {
    let original = b"pub fn answer() -> u32 { 42 }\n";
    let indexed_files = vec![("src/lib.rs".to_string(), record(original, "rust"))];

    assert_eq!(
        check_indexed_source_freshness(
            &indexed_files,
            Ok(vec![observation("src/lib.rs", original)])
        )
        .unwrap(),
        StalenessVerdict::Fresh,
        "positive control: byte-identical indexed source must be fresh"
    );
    assert_eq!(
        check_indexed_source_freshness(
            &indexed_files,
            Ok(vec![observation("src/lib.rs", b"pub fn answer() -> u32 { 43 }\n")])
        )
        .unwrap(),
        StalenessVerdict::Stale,
        "source content, not mtime, must decide freshness"
    );
}

#[test]
fn indexed_source_freshness_detects_first_file_of_another_registered_language() {
    let rust_bytes = b"pub fn answer() -> u32 { 42 }\n";
    let indexed_files = vec![("src/lib.rs".to_string(), record(rust_bytes, "rust"))];

    assert_eq!(
        check_indexed_source_freshness(
            &indexed_files,
            Ok(vec![observation("src/lib.rs", rust_bytes)])
        )
        .unwrap(),
        StalenessVerdict::Fresh,
        "positive control: the indexed Rust-only population begins fresh"
    );
    assert_eq!(
        check_indexed_source_freshness(
            &indexed_files,
            Ok(vec![
                observation("src/lib.rs", rust_bytes),
                observation("main.go", b"package main\nfunc main() {}\n"),
            ])
        )
        .unwrap(),
        StalenessVerdict::Stale,
        "adding the first file of another registered language must invalidate the generation"
    );
}

#[test]
fn indexed_source_freshness_fails_closed_for_missing_or_oversized_evidence() {
    assert_eq!(
        check_indexed_source_freshness(&Vec::new(), Ok(Vec::new())).unwrap(),
        StalenessVerdict::Unknown {
            reason: StalenessReason::NoSourceFound,
            files_checked: 0,
        }
    );

    let record = FileRecord {
        blake3_hash: "0".repeat(64),
        last_indexed: 1,
        symbol_count: 1,
        language: "rust".into(),
    };
    let oversized = (0..=MAX_STALENESS_FILES)
        .map(|index| (format!("src/f{index}.rs"), record.clone()))
        .collect::<Vec<_>>();
    assert_eq!(
        check_indexed_source_freshness(&oversized, Ok(Vec::new())).unwrap(),
        StalenessVerdict::Unknown {
            reason: StalenessReason::Truncated,
            files_checked: MAX_STALENESS_FILES,
        }
    );
}

#[test]
fn freshness_errors_name_the_first_obstacle() {
    let bytes = b"fn a() {}";
    let good = vec![("a.rs".to_string(), record(bytes, "rust"))];

    let bad_language = vec![("a.rs".to_string(), record(bytes, "cobol"))];
    let error = check_indexed_source_freshness(&bad_language, Ok(Vec::new())).unwrap_err();
    assert_eq!(
        error.message(),
        "indexed source record is invalid for a.rs: unregistered language cobol"
    );

    let mut short = record(bytes, "rust");
    short.blake3_hash = "ABC".into();
    let error = check_indexed_source_freshness(&vec![("a.rs".to_string(), short)], Ok(Vec::new()))
        .unwrap_err();
    assert_eq!(
        error.message(),
        "indexed source record is invalid for a.rs: BLAKE3 digest must be 64 lowercase hexadecimal characters"
    );

    let escaping = vec![("../a.rs".to_string(), record(bytes, "rust"))];
    assert!(matches!(
        check_indexed_source_freshness(&escaping, Ok(Vec::new())),
        Err(IndexedSourceFreshnessError::InvalidRecord { .. })
    ));

    let twice = vec![
        ("a.rs".to_string(), record(bytes, "rust")),
        ("a.rs".to_string(), record(bytes, "rust")),
    ];
    let error = check_indexed_source_freshness(&twice, Ok(Vec::new())).unwrap_err();
    assert_eq!(
        error.message(),
        "indexed source record is invalid for a.rs: duplicate indexed path"
    );

    let error = check_indexed_source_freshness(&good, Err("walk failed".into())).unwrap_err();
    assert_eq!(error.message(), "source discovery failed: walk failed");

    let outside = SourceObservation {
        file: DiscoveredFile {
            path: "/elsewhere/a.rs".into(),
            relative: None,
        },
        read: Ok(bytes.to_vec()),
    };
    let error = check_indexed_source_freshness(&good, Ok(vec![outside])).unwrap_err();
    assert_eq!(
        error.message(),
        "indexed source path escaped the repository root: /elsewhere/a.rs"
    );

    let unreadable = SourceObservation {
        file: DiscoveredFile {
            path: "/repo/a.rs".into(),
            relative: Some("a.rs".into()),
        },
        read: Err("permission denied".into()),
    };
    let error = check_indexed_source_freshness(&good, Ok(vec![unreadable])).unwrap_err();
    assert_eq!(
        error.message(),
        "read source file /repo/a.rs: permission denied"
    );
}

#[test]
fn staged_comparison_hashes_in_path_order_and_the_first_difference_decides() {
    let indexed = vec![
        ("b.rs".to_string(), record(b"b", "rust")),
        ("a.rs".to_string(), record(b"a", "rust")),
    ];
    let expected = match plan_source_freshness(&indexed).unwrap() {
        FreshnessPlan::Compare(expected) => expected,
        FreshnessPlan::Settled(_) => panic!("settled early"),
    };
    let found = vec![
        DiscoveredFile { path: "/r/b.rs".into(), relative: Some("b.rs".into()) },
        DiscoveredFile { path: "/r/a.rs".into(), relative: Some("a.rs".into()) },
    ];
    let pending = match compare_source_population(expected, Ok(found)).unwrap() {
        PopulationOutcome::Hash(pending) => pending,
        PopulationOutcome::Settled(_) => panic!("settled early"),
    };
    let order: Vec<&str> = pending.to_hash().iter().map(|(relative, _)| relative.as_str()).collect();
    assert_eq!(order, vec!["a.rs", "b.rs"]);
    let same = vec![
        read_source_digest(Ok(b"a".to_vec())),
        read_source_digest(Ok(b"b".to_vec())),
    ];
    assert_eq!(pending.judge(&same).unwrap(), StalenessVerdict::Fresh);
    let drifted = vec![
        read_source_digest(Ok(b"changed".to_vec())),
        read_source_digest(Err("gone".into())),
    ];
    assert_eq!(pending.judge(&drifted).unwrap(), StalenessVerdict::Stale);
}

#[test]
fn source_digest_is_the_blake3_of_the_bytes() {
    assert_eq!(
        read_source_digest(Ok(Vec::new())).unwrap(),
        "af1349b9f5f9a1a6a0404dea36dcc9499bcb25c9adc112b7cc9a93cae41f3262"
    );
}

#[test]
fn read_index_timing_from_open_state_reads_last_update_and_drift() {
    let mut state = open_temp();
    state
        .set_metadata(
            IndexMetadata {
                repo_root: "/x".to_string(),
                last_full_scan: Some(1_710_000_000_000),
                last_update: Some(1_710_000_001_000),
                git_head: None,
                total_files: 1,
                total_symbols: 1,
                total_edges: 0,
            },
            Ok(vec![1]),
        )
        .expect("set metadata");
    let ib = read_index_baseline_from_state(&state);
    assert_eq!(
        ib.baseline,
        Some(1_710_000_001_000),
        "display age must use last_update"
    );
    assert!(
        ib.incremental_drift,
        "last_update > last_full_scan must register as incremental drift"
    );
}

fn cov(
    calls_authority_available: bool,
    scip_calls_edges: usize,
    ratio: Option<Ratio>,
) -> CallEdgeCoverage {
    CallEdgeCoverage {
        calls_authority_available,
        total_nodes: 20,
        total_fn_nodes: 10,
        live_fn_nodes: 10,
        fn_with_calls_live: 5,
        scip_calls_edges,
        ratio_live: ratio,
    }
}

fn tenths(numerator: usize) -> Option<Ratio> {
    Some(Ratio { numerator, denominator: 10 })
}

#[test]
fn coverage_tier_unavailable_without_receipt_authority() {
    assert_eq!(coverage_tier(&cov(false, 0, tenths(0))), CoverageTier::Unavailable);
    assert_eq!(coverage_tier(&cov(false, 3, tenths(3))), CoverageTier::Unavailable);
}

#[test]
fn coverage_tier_leaf_with_receipt_authority_is_sufficient() {
    assert_eq!(coverage_tier(&cov(true, 0, tenths(0))), CoverageTier::Sufficient);
}

#[test]
fn coverage_ratio_is_diagnostic_not_authority() {
    let partial = cov(true, 5, tenths(5));
    assert_eq!(coverage_tier(&partial), CoverageTier::Sufficient);
    assert_eq!(coverage_tier(&cov(true, 20, tenths(9))), CoverageTier::Sufficient);
}

#[test]
fn coverage_tier_not_applicable_on_no_functions() {
    let empty = CallEdgeCoverage {
        calls_authority_available: false,
        total_nodes: 5,
        total_fn_nodes: 0,
        live_fn_nodes: 0,
        fn_with_calls_live: 0,
        scip_calls_edges: 0,
        ratio_live: None,
    };
    assert_eq!(coverage_tier(&empty), CoverageTier::NotApplicable);
}

#[test]
fn coverage_tier_degenerate_on_total_extraction_failure() {
    let degenerate = CallEdgeCoverage {
        calls_authority_available: true,
        total_nodes: 0,
        total_fn_nodes: 0,
        live_fn_nodes: 0,
        fn_with_calls_live: 0,
        scip_calls_edges: 0,
        ratio_live: None,
    };
    assert_eq!(
        coverage_tier(&degenerate),
        CoverageTier::Degenerate,
        "total_nodes==0 must route to the suppressing Degenerate tier, not NotApplicable"
    );
    let block = coverage_block_json(&degenerate, CoverageTier::Degenerate);
    assert_eq!(block.tier, "Degenerate");
    assert_eq!(block.total_nodes, 0);
}

#[test]
fn coverage_block_not_applicable_note() {
    let empty = CallEdgeCoverage {
        calls_authority_available: false,
        total_nodes: 5,
        total_fn_nodes: 0,
        live_fn_nodes: 0,
        fn_with_calls_live: 0,
        scip_calls_edges: 0,
        ratio_live: None,
    };
    let block = coverage_block_json(&empty, CoverageTier::NotApplicable);
    assert_eq!(block.note, Some(NOT_APPLICABLE_NOTE));
    let normal = coverage_block_json(&cov(true, 5, tenths(9)), CoverageTier::Sufficient);
    assert!(normal.note.is_none());
}

fn node(id: u128, file: &str, callable: bool, class: ReachabilityClass) -> GraphNode {
    GraphNode {
        memory_id: id,
        symbol_name: format!("symbol_{id}"),
        kind: "function".into(),
        is_callable: callable,
        file_path: file.into(),
        content_hash: String::new(),
        signature: String::new(),
        reachability_class: class,
        line_start: None,
        line_end: None,
        has_body: None,
        visibility: "pub".into(),
        is_test_only: None,
        is_test_root: false,
        has_platform_cfg: false,
        rustc_flagged_dead: false,
        entry_retain: 0,
        has_uncaptured_items: false,
        oracle_receipt: None,
    }
}

fn edge(kind: EdgeKind, source: EdgeSource) -> GraphEdge {
    GraphEdge { kind, source, weight_bits: 0, access_count: 0 }
}

fn sample_graph() -> KnowledgeGraph {
    let mut graph = KnowledgeGraph::new();
    graph.add_node(node(1, "src/a.rs", true, ReachabilityClass::Wired)).unwrap();
    graph.add_node(node(2, "src/b.rs", true, ReachabilityClass::Dead)).unwrap();
    graph.add_node(node(3, "main.go", true, ReachabilityClass::Wired)).unwrap();
    graph.add_node(node(4, "src/a.rs", false, ReachabilityClass::PublicApi)).unwrap();
    graph.add_edge(1, 2, edge(EdgeKind::Calls, EdgeSource::Scip)).unwrap();
    graph.add_edge(1, 4, edge(EdgeKind::References, EdgeSource::Syntax)).unwrap();
    graph
}

#[test]
fn call_edge_coverage_counts_only_live_callables() {
    let coverage = call_edge_coverage(&sample_graph(), true);
    assert_eq!(coverage.total_nodes, 4);
    assert_eq!(coverage.total_fn_nodes, 3);
    assert_eq!(coverage.live_fn_nodes, 2);
    assert_eq!(coverage.fn_with_calls_live, 1);
    assert_eq!(coverage.scip_calls_edges, 1);
    assert_eq!(coverage.ratio_live, Some(Ratio { numerator: 1, denominator: 2 }));
    assert!(coverage.calls_authority_available);
}

#[test]
fn graph_stats_and_reachability_count_every_population() {
    let graph = sample_graph();
    let stats = compute_graph_stats(&graph);
    assert_eq!(stats.node_count, 4);
    assert_eq!(stats.edge_count, 2);
    assert_eq!(stats.edge_kinds.get("Calls").copied(), Some(1));
    assert_eq!(stats.edge_kinds.get("References").copied(), Some(1));
    assert!(stats.edge_kinds.get("Implements").is_none());
    let summary = compute_reachability_summary(&graph);
    assert_eq!(summary.wired, 2);
    assert_eq!(summary.dead, 1);
    assert_eq!(summary.public_api, 1);
    assert_eq!(summary.unclassified, 0);
}

#[test]
fn languages_without_a_configured_provider_are_suppressed() {
    let graph = sample_graph();
    assert_eq!(node_language(&graph.all_nodes()[2]), Some("go"));
    let suppressed = coverage_suppressed_languages(&graph, |language: &str| language == "rust");
    assert!(suppressed.contains("go"));
    assert!(!suppressed.contains("rust"));
}

fn coverage(status: CapabilityCoverageStatus, best_effort: bool) -> CapabilityCoverage {
    CapabilityCoverage {
        status,
        languages: Vec::new(),
        best_effort_satisfied: best_effort,
        all_callable_complete: status == CapabilityCoverageStatus::Complete,
    }
}

#[test]
fn guidance_is_given_only_where_something_is_missing() {
    assert!(calls_coverage_guidance(&coverage(CapabilityCoverageStatus::Complete, true)).is_none());
    let gap = calls_coverage_guidance(&coverage(CapabilityCoverageStatus::Partial, false))
        .expect("a gap asks for guidance");
    assert_eq!(gap.message, CALLS_ACTIONABLE_GAP_GUIDANCE);
    assert!(unclassified_population_guidance(0).is_none());
    assert!(unclassified_population_guidance(3).is_some());
    let unclassified =
        dead_code_unknown_guidance(&coverage(CapabilityCoverageStatus::Complete, true), false, true);
    assert!(unclassified.action_needed);
}
