//! The status that a generation is given.

use h00ligan_engine::classification::ClassifiedBy;
use h00ligan_engine::domain::CapabilityCoverageStatus;
use h00ligan_engine::graph_status::{
    classification_currency_status, status_verdict, status_verdict_with_calls_actionability,
    ClassificationProvenance,
};
use h00ligan_engine::source_freshness::{StalenessReason, StalenessVerdict};

const FRESH: StalenessVerdict = StalenessVerdict::Fresh;
const STALE: StalenessVerdict = StalenessVerdict::Stale;
const TRUNCATED: StalenessVerdict = StalenessVerdict::Unknown {
    reason: StalenessReason::Truncated,
    files_checked: 50_000,
};

#[test]
fn fresh_complete_stays_ready_no_cry_wolf() {
    let v = status_verdict(true, false, false, FRESH, CapabilityCoverageStatus::Complete);
    assert_eq!(v.availability_label, "available");
    assert_eq!(v.freshness_label, "fresh");
    assert!(!v.action_needed);
    assert_eq!(v.freshness_reason, None);
}

#[test]
fn fresh_not_applicable_stays_fresh() {
    let v = status_verdict(true, false, false, FRESH, CapabilityCoverageStatus::NotApplicable);
    assert_eq!(v.availability_label, "available");
    assert_eq!(v.freshness_label, "fresh");
    assert!(!v.action_needed);
}

#[test]
fn load_failed_outranks_everything_below() {
    let v = status_verdict(true, true, true, TRUNCATED, CapabilityCoverageStatus::Unavailable);
    assert_eq!(v.availability_label, "load-failed");
    assert_eq!(v.freshness_label, "not-evaluated");
    assert!(v.action_needed);
    assert!(v.recommendation.contains("strict indexing will refuse"));
    assert!(v.recommendation.contains("--recover-publication"));
    assert!(v.recommendation.contains("recover_publication=true"));
}

#[test]
fn origin_mismatch_prevents_freshness_evaluation() {
    let v = status_verdict(true, false, true, TRUNCATED, CapabilityCoverageStatus::Unavailable);
    assert_eq!(v.availability_label, "origin-mismatch");
    assert_eq!(v.freshness_label, "not-evaluated");
    assert!(v.action_needed);
    assert!(v.recommendation.contains("different workspace"));
    assert!(v.recommendation.contains("--recover-publication"));
    assert!(v.recommendation.contains("recover_publication=true"));
}

#[test]
fn unindexed_when_graph_absent() {
    let v = status_verdict(false, false, false, FRESH, CapabilityCoverageStatus::Complete);
    assert_eq!(v.availability_label, "unindexed");
    assert_eq!(v.freshness_label, "not-evaluated");
    assert!(v.action_needed);
}

#[test]
fn freshness_unknown_truncated_needs_action() {
    let v = status_verdict(true, false, false, TRUNCATED, CapabilityCoverageStatus::Complete);
    assert_eq!(v.availability_label, "available");
    assert_eq!(v.freshness_label, "unknown");
    assert!(v.action_needed);
    assert_eq!(v.freshness_reason, Some("truncated"));
    assert!(v.recommendation.contains("50000"));
    assert!(!v.recommendation.contains("h00ligan index"));
}

#[test]
fn calls_unavailable_needs_action() {
    let v = status_verdict(true, false, false, FRESH, CapabilityCoverageStatus::Unavailable);
    assert_eq!(v.availability_label, "available");
    assert_eq!(v.freshness_label, "fresh");
    assert!(v.action_needed);
    assert!(v.recommendation.contains("Calls coverage is unavailable"));
}

#[test]
fn calls_gap_does_not_relabel_verified_source_freshness() {
    let v = status_verdict(true, false, false, FRESH, CapabilityCoverageStatus::Partial);
    assert_eq!(
        v.freshness_label, "fresh",
        "Calls capability health is independent from exact source freshness"
    );
    assert!(
        v.action_needed,
        "the independent capability gap can still require action"
    );
}

#[test]
fn simultaneous_unknown_freshness_and_calls_gap_joint_remediation() {
    let v = status_verdict(true, false, false, TRUNCATED, CapabilityCoverageStatus::Unavailable);
    assert_eq!(v.freshness_label, "unknown");
    assert!(v.action_needed);
    assert!(!v.recommendation.contains("install rust-analyzer"));
    assert!(!v.recommendation.contains("--full"));
    assert!(v.recommendation.contains("reported per-language scope"));
    assert!(v.recommendation.contains("--require-complete-calls"));
    assert_eq!(v.freshness_reason, Some("truncated"));
}

#[test]
fn stale_reports_stale() {
    let v = status_verdict(true, false, false, STALE, CapabilityCoverageStatus::Complete);
    assert_eq!(v.availability_label, "available");
    assert_eq!(v.freshness_label, "stale");
    assert!(v.action_needed);
    assert!(v.recommendation.contains("refresh"));
}

#[test]
fn stale_with_calls_gap_recommends_one_combined_refresh() {
    let v = status_verdict(true, false, false, STALE, CapabilityCoverageStatus::Partial);
    assert_eq!(v.freshness_label, "stale");
    assert!(v.recommendation.contains("refresh both"));
    assert!(v.recommendation.contains("reported per-language scope"));
    assert!(v.recommendation.contains("--require-complete-calls"));
    assert_eq!(v.recommendation.matches("h00ligan index").count(), 1);
}

#[test]
fn capability_improvement_does_not_change_freshness() {
    let partial = status_verdict(true, false, false, FRESH, CapabilityCoverageStatus::Partial);
    let complete = status_verdict(true, false, false, FRESH, CapabilityCoverageStatus::Complete);
    assert_eq!(partial.freshness_label, "fresh");
    assert!(partial.action_needed);
    assert_eq!(complete.freshness_label, "fresh");
    assert!(!complete.action_needed);
}

#[test]
fn a_gap_that_no_one_can_close_asks_for_no_action() {
    let v = status_verdict_with_calls_actionability(
        true,
        false,
        false,
        FRESH,
        CapabilityCoverageStatus::Partial,
        false,
    );
    assert_eq!(v.freshness_label, "fresh");
    assert!(!v.action_needed);
}

#[test]
fn classification_currency_distinguishes_unindexed_from_unloaded() {
    let unindexed = classification_currency_status(false, false, FRESH, false, None);
    assert_eq!(unindexed.current, None);
    assert_eq!(
        unindexed.not_evaluated_reason,
        Some("no graph in this data dir")
    );
    assert!(unindexed.failures.is_empty());

    let unloaded = classification_currency_status(true, false, FRESH, false, None);
    assert_eq!(unloaded.current, None);
    assert_eq!(
        unloaded.not_evaluated_reason,
        Some("graph present but did not load")
    );
    assert!(unloaded.failures.is_empty());
}

#[test]
fn loaded_unstamped_classification_is_evaluated_and_not_current() {
    let status = classification_currency_status(true, true, FRESH, true, None);
    assert_eq!(status.current, Some(false));
    assert_eq!(status.not_evaluated_reason, None);
    assert!(status
        .failures
        .iter()
        .any(|failure| failure.contains("provenance stamp ABSENT")));
}

#[test]
fn classification_provenance_is_a_lossless_status_projection() {
    let stamp = ClassifiedBy {
        build_identity: "0.1.0+h00ligan-test+dirty".into(),
        indexer_identity: format!("sha256:{}", "a".repeat(64)),
        prover_config: "code-intel=1".into(),
        timestamp: "2026-08-16T00:00:00Z".into(),
    };
    let projected = ClassificationProvenance::from(&stamp);
    assert_eq!(projected.build_identity, stamp.build_identity);
    assert_eq!(projected.indexer_identity, stamp.indexer_identity);
    assert_eq!(projected.prover_config, stamp.prover_config);
    assert_eq!(projected.timestamp, stamp.timestamp);
    assert!(projected.build_provenance_approximate);
}
