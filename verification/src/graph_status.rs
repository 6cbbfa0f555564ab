//! The health verdict of a published generation.
//!
//! Availability, source freshness and capability coverage are independent: a gap in
//! call coverage may call for action, but it never relabels verified freshness.

use vstd::prelude::*;

use crate::classification;
use crate::classification::{
    evaluate_classification_currency, ClassifiedBy, CurrencyInputs, StampModel, BUILD_IDENTITY,
    INDEXER_IDENTITY,
};
use crate::domain::CapabilityCoverageStatus;
use crate::graph_stats;
use crate::source_freshness::{StalenessReason, StalenessVerdict, MAX_STALENESS_FILES};
use crate::text;
use crate::text::decimal;

verus! {

/// The stable status projection of a classification stamp.
#[derive(Debug, Clone, PartialEq, Eq)]
pub struct ClassificationProvenance {
    pub build_identity: String,
    pub indexer_identity: String,
    pub prover_config: String,
    pub timestamp: String,
    pub build_provenance_approximate: bool,
}

impl From<&ClassifiedBy> for ClassificationProvenance {
    fn from(stamp: &ClassifiedBy) -> (r: Self) {
        ClassificationProvenance {
            build_identity: stamp.build_identity.clone(),
            indexer_identity: stamp.indexer_identity.clone(),
            prover_config: stamp.prover_config.clone(),
            timestamp: stamp.timestamp.clone(),
            build_provenance_approximate: stamp.approximation().is_some(),
        }
    }
}

impl vstd::std_specs::convert::FromSpecImpl<&ClassifiedBy> for ClassificationProvenance {
    open spec fn obeys_from_spec() -> bool {
        true
    }

    open spec fn from_spec(stamp: &ClassifiedBy) -> Self {
        ClassificationProvenance {
            build_identity: stamp.build_identity,
            indexer_identity: stamp.indexer_identity,
            prover_config: stamp.prover_config,
            timestamp: stamp.timestamp,
            build_provenance_approximate: stamp.deep_view().approximation() is Some,
        }
    }
}

/// The result of evaluating a classification's provenance. `current` is `None` where
/// nothing was evaluated, so that this is never mistaken for a clean result.
#[derive(Debug, Clone, PartialEq, Eq)]
pub struct ClassificationCurrencyStatus {
    pub current: Option<bool>,
    pub not_evaluated_reason: Option<&'static str>,
    pub failures: Vec<String>,
}

/// A currency status as plain text.
pub struct CurrencyStatusModel {
    pub current: Option<bool>,
    pub not_evaluated_reason: Option<Seq<char>>,
    pub failures: Seq<Seq<char>>,
}

impl DeepView for ClassificationCurrencyStatus {
    type V = CurrencyStatusModel;

    open spec fn deep_view(&self) -> CurrencyStatusModel {
        CurrencyStatusModel {
            current: self.current,
            not_evaluated_reason: self.not_evaluated_reason.deep_view(),
            failures: self.failures.deep_view(),
        }
    }
}

/// Whether the index is known to be stale.
pub open spec fn known_staleness(staleness: StalenessVerdict) -> Option<bool> {
    match staleness {
        StalenessVerdict::Fresh => Some(false),
        StalenessVerdict::Stale => Some(true),
        StalenessVerdict::Unknown { .. } => None,
    }
}

/// The status of a classification as seen by the build with this stamp.
pub open spec fn currency_status(
    graph_exists: bool,
    graph_loaded: bool,
    staleness: StalenessVerdict,
    authority: bool,
    stamp: Option<StampModel>,
    current: StampModel,
) -> CurrencyStatusModel {
    if !graph_exists {
        CurrencyStatusModel {
            current: None,
            not_evaluated_reason: Some("no graph in this data dir"@),
            failures: seq![],
        }
    } else if !graph_loaded {
        CurrencyStatusModel {
            current: None,
            not_evaluated_reason: Some("graph present but did not load"@),
            failures: seq![],
        }
    } else {
        let failures = classification::currency_failures(
            stamp,
            current,
            authority,
            known_staleness(staleness),
        );
        CurrencyStatusModel {
            current: Some(failures.len() == 0),
            not_evaluated_reason: None,
            failures: failures.map_values(|f: classification::FailureModel| f.words()),
        }
    }
}

/// The stamp of this build, at a time that does not matter.
pub open spec fn own_stamp() -> StampModel {
    StampModel {
        build: BUILD_IDENTITY@,
        indexer: INDEXER_IDENTITY@,
        prover: "code-intel=1"@,
        timestamp: Seq::empty(),
    }
}

/// The status of a classification as seen by the build that stamps `current`.
pub fn classification_currency_status_at(
    graph_exists: bool,
    graph_loaded: bool,
    staleness: StalenessVerdict,
    classification_authority_available: bool,
    stamp: Option<&ClassifiedBy>,
    current: &ClassifiedBy,
) -> (r: ClassificationCurrencyStatus)
    ensures
        r.deep_view() == currency_status(
            graph_exists,
            graph_loaded,
            staleness,
            classification_authority_available,
            stamp.deep_view(),
            current.deep_view(),
        ),
{
    if !graph_exists {
        let r = ClassificationCurrencyStatus {
            current: None,
            not_evaluated_reason: Some("no graph in this data dir"),
            failures: Vec::new(),
        };
        assert(r.failures.deep_view() =~= seq![]);
        return r;
    }
    if !graph_loaded {
        let r = ClassificationCurrencyStatus {
            current: None,
            not_evaluated_reason: Some("graph present but did not load"),
            failures: Vec::new(),
        };
        assert(r.failures.deep_view() =~= seq![]);
        return r;
    }
    let index_stale = match staleness {
        StalenessVerdict::Fresh => Some(false),
        StalenessVerdict::Stale => Some(true),
        StalenessVerdict::Unknown { .. } => None,
    };
    let found = evaluate_classification_currency(
        CurrencyInputs { stamp, current, classification_authority_available, index_stale },
    );
    let ghost models = found.deep_view();
    let mut failures: Vec<String> = Vec::new();
    for i in 0..found.len()
        invariant
            found.deep_view() == models,
            failures@.len() == i,
            forall|j: int| 0 <= j < i ==> (#[trigger] failures@[j])@ == models[j].words(),
    {
        assert(models[i as int] == found@[i as int].deep_view());
        failures.push(found[i].describe());
    }
    assert(failures.deep_view() =~= models.map_values(
        |f: classification::FailureModel| f.words(),
    ));
    ClassificationCurrencyStatus {
        current: Some(failures.len() == 0),
        not_evaluated_reason: None,
        failures,
    }
}

/// The status of a classification as seen by this build.
pub fn classification_currency_status(
    graph_exists: bool,
    graph_loaded: bool,
    staleness: StalenessVerdict,
    classification_authority_available: bool,
    stamp: Option<&ClassifiedBy>,
) -> (r: ClassificationCurrencyStatus)
    ensures
        r.deep_view() == currency_status(
            graph_exists,
            graph_loaded,
            staleness,
            classification_authority_available,
            stamp.deep_view(),
            own_stamp(),
        ),
{
    let current = ClassifiedBy::now();
    let r = classification_currency_status_at(
        graph_exists,
        graph_loaded,
        staleness,
        classification_authority_available,
        stamp,
        &current,
    );
    assert(classification::currency_failures(
        stamp.deep_view(),
        current.deep_view(),
        classification_authority_available,
        known_staleness(staleness),
    ) == classification::currency_failures(
        stamp.deep_view(),
        own_stamp(),
        classification_authority_available,
        known_staleness(staleness),
    ));
    r
}

/// The health of a generation.
#[derive(Debug, Clone, PartialEq, Eq)]
pub struct StatusVerdict {
    /// `unindexed`, `load-failed`, `origin-mismatch` or `available`.
    pub availability_label: &'static str,
    /// `not-evaluated`, `unknown`, `stale` or `fresh`.
    pub freshness_label: &'static str,
    /// Some measured axis needs attention.
    pub action_needed: bool,
    pub recommendation: String,
    /// Why freshness is unknown.
    pub freshness_reason: Option<&'static str>,
}

/// A verdict as plain text.
pub struct VerdictModel {
    pub availability: Seq<char>,
    pub freshness: Seq<char>,
    pub action_needed: bool,
    pub recommendation: Seq<char>,
    pub reason: Option<Seq<char>>,
}

impl DeepView for StatusVerdict {
    type V = VerdictModel;

    open spec fn deep_view(&self) -> VerdictModel {
        VerdictModel {
            availability: self.availability_label@,
            freshness: self.freshness_label@,
            action_needed: self.action_needed,
            recommendation: self.recommendation@,
            reason: self.freshness_reason.deep_view(),
        }
    }
}

/// The word for a gap in coverage.
pub open spec fn gap_word(status: CapabilityCoverageStatus) -> Option<Seq<char>> {
    match status {
        CapabilityCoverageStatus::Partial => Some("partial"@),
        CapabilityCoverageStatus::Qualified => Some("qualified"@),
        CapabilityCoverageStatus::Unavailable => Some("unavailable"@),
        _ => None,
    }
}

fn calls_gap_label(calls_status: CapabilityCoverageStatus) -> (r: Option<&'static str>)
    ensures
        r.deep_view() == gap_word(calls_status),
{
    match calls_status {
        CapabilityCoverageStatus::Partial => Some("partial"),
        CapabilityCoverageStatus::Qualified => Some("qualified"),
        CapabilityCoverageStatus::Unavailable => Some("unavailable"),
        CapabilityCoverageStatus::NotApplicable | CapabilityCoverageStatus::Complete => None,
    }
}

/// A recommendation, with what to do about a gap in call coverage.
pub open spec fn with_calls_guidance(
    recommendation: Seq<char>,
    status: CapabilityCoverageStatus,
) -> Seq<char> {
    match gap_word(status) {
        Some(word) => recommendation + " Calls coverage is "@ + word
            + "; inspect the reported per-language scope before changing provider or project configuration. Use `h00ligan index --scip --require-complete-calls` when incomplete Calls must refuse publication."@,
        None => recommendation,
    }
}

fn append_calls_guidance(recommendation: String, calls_status: CapabilityCoverageStatus) -> (r:
    String)
    ensures
        r@ == with_calls_guidance(recommendation@, calls_status),
{
    let mut recommendation = recommendation;
    if let Some(gap) = calls_gap_label(calls_status) {
        recommendation.append(" Calls coverage is ");
        recommendation.append(gap);
        recommendation.append(
            "; inspect the reported per-language scope before changing provider or project configuration. Use `h00ligan index --scip --require-complete-calls` when incomplete Calls must refuse publication.",
        );
    }
    recommendation
}

/// What is said of a gap that nobody can repair.
pub open spec fn informational_guidance(status: CapabilityCoverageStatus) -> Seq<char> {
    if status == CapabilityCoverageStatus::Qualified {
        "Source inputs are fresh. Calls authority is qualified: provider results are exact within covered source, while the reported source regions remain explicitly excluded. Inspect those qualifications before relying on negative results."@
    } else {
        "Source inputs are fresh. Calls coverage is "@ + (match gap_word(status) {
            Some(word) => word,
            None => "limited"@,
        })
            + "; the reported per-language scope includes source without a provider execution root, and this best-effort generation already covers every available project unit."@
    }
}

fn informational_calls_guidance(calls_status: CapabilityCoverageStatus) -> (r: String)
    ensures
        r@ == informational_guidance(calls_status),
{
    if calls_status == CapabilityCoverageStatus::Qualified {
        return "Source inputs are fresh. Calls authority is qualified: provider results are exact within covered source, while the reported source regions remain explicitly excluded. Inspect those qualifications before relying on negative results.".to_owned();
    }
    let gap = match calls_gap_label(calls_status) {
        Some(gap) => gap,
        None => "limited",
    };
    let mut guidance = "Source inputs are fresh. Calls coverage is ".to_owned();
    guidance.append(gap);
    guidance.append(
        "; the reported per-language scope includes source without a provider execution root, and this best-effort generation already covers every available project unit.",
    );
    guidance
}

/// What is recommended where freshness is unknown.
pub open spec fn unknown_recommendation(reason: StalenessReason, files_checked: nat) -> Seq<char> {
    match reason {
        StalenessReason::Truncated => "Freshness verification is bounded to "@ + text::dec(
            MAX_STALENESS_FILES as nat,
        ) + " files and stopped at "@ + text::dec(files_checked)
            + "; this repository exceeds that bound, so this build cannot assert freshness."@,
        StalenessReason::NoSourceFound => "No source files found to verify freshness — run `h00ligan index` (check the workspace root)."@,
        StalenessReason::IndexedSourceSnapshotUnavailable => "The published generation has no readable indexed-source snapshot — run `h00ligan index` to publish content-verifiable authority."@,
        StalenessReason::SourceVerificationFailed => "Source discovery or content hashing failed — freshness is unknown; resolve the filesystem error and retry `h00ligan status`."@,
        StalenessReason::ProviderSemanticInputsUnverifiable => "A semantic provider could not publish a fully reproducible non-source input population — freshness is unknown; add explicit build-input declarations or run provider-backed indexing again."@,
    }
}

fn recommend_for_unknown(reason: StalenessReason, files_checked: usize) -> (r: String)
    ensures
        r@ == unknown_recommendation(reason, files_checked as nat),
{
    match reason {
        StalenessReason::Truncated => {
            let mut words = "Freshness verification is bounded to ".to_owned();
            words.append(decimal(MAX_STALENESS_FILES as u64).as_str());
            words.append(" files and stopped at ");
            words.append(decimal(files_checked as u64).as_str());
            words.append(
                "; this repository exceeds that bound, so this build cannot assert freshness.",
            );
            words
        },
        StalenessReason::NoSourceFound => "No source files found to verify freshness — run `h00ligan index` (check the workspace root).".to_owned(),
        StalenessReason::IndexedSourceSnapshotUnavailable => "The published generation has no readable indexed-source snapshot — run `h00ligan index` to publish content-verifiable authority.".to_owned(),
        StalenessReason::SourceVerificationFailed => "Source discovery or content hashing failed — freshness is unknown; resolve the filesystem error and retry `h00ligan status`.".to_owned(),
        StalenessReason::ProviderSemanticInputsUnverifiable => "A semantic provider could not publish a fully reproducible non-source input population — freshness is unknown; add explicit build-input declarations or run provider-backed indexing again.".to_owned(),
    }
}

/// The machine label of a reason.
pub open spec fn reason_label(reason: StalenessReason) -> Seq<char> {
    match reason {
        StalenessReason::Truncated => "truncated"@,
        StalenessReason::NoSourceFound => "no_source"@,
        StalenessReason::IndexedSourceSnapshotUnavailable => "indexed_source_snapshot_unavailable"@,
        StalenessReason::SourceVerificationFailed => "source_verification_failed"@,
        StalenessReason::ProviderSemanticInputsUnverifiable => "provider_semantic_inputs_unverifiable"@,
    }
}

fn reason_str(reason: StalenessReason) -> (r: &'static str)
    ensures
        r@ == reason_label(reason),
{
    match reason {
        StalenessReason::Truncated => "truncated",
        StalenessReason::NoSourceFound => "no_source",
        StalenessReason::IndexedSourceSnapshotUnavailable => "indexed_source_snapshot_unavailable",
        StalenessReason::SourceVerificationFailed => "source_verification_failed",
        StalenessReason::ProviderSemanticInputsUnverifiable => "provider_semantic_inputs_unverifiable",
    }
}

/// What is recommended for a stale generation.
pub open spec fn stale_recommendation(status: CapabilityCoverageStatus) -> Seq<char> {
    match gap_word(status) {
        None => "Run `h00ligan index` to refresh the stale generation."@,
        Some(word) => "Source inputs are stale and Calls coverage is "@ + word
            + "; run `h00ligan index --scip` once to refresh both source and available provider evidence, then inspect the reported per-language scope. Use `--require-complete-calls` when incomplete Calls must refuse publication."@,
    }
}

fn recommend_for_stale(calls_status: CapabilityCoverageStatus) -> (r: String)
    ensures
        r@ == stale_recommendation(calls_status),
{
    match calls_gap_label(calls_status) {
        None => "Run `h00ligan index` to refresh the stale generation.".to_owned(),
        Some(gap) => {
            let mut words = "Source inputs are stale and Calls coverage is ".to_owned();
            words.append(gap);
            words.append(
                "; run `h00ligan index --scip` once to refresh both source and available provider evidence, then inspect the reported per-language scope. Use `--require-complete-calls` when incomplete Calls must refuse publication.",
            );
            words
        },
    }
}

/// A verdict that calls for action.
pub open spec fn action(
    availability: Seq<char>,
    freshness: Seq<char>,
    recommendation: Seq<char>,
    reason: Option<Seq<char>>,
) -> VerdictModel {
    VerdictModel { availability, freshness, action_needed: true, recommendation, reason }
}

fn action_verdict(
    availability_label: &'static str,
    freshness_label: &'static str,
    recommendation: String,
    freshness_reason: Option<&'static str>,
) -> (r: StatusVerdict)
    ensures
        r.deep_view() == action(
            availability_label@,
            freshness_label@,
            recommendation@,
            freshness_reason.deep_view(),
        ),
{
    StatusVerdict {
        availability_label,
        freshness_label,
        action_needed: true,
        recommendation,
        freshness_reason,
    }
}

/// The verdict on a generation that can be queried.
pub open spec fn available_verdict(
    freshness: StalenessVerdict,
    status: CapabilityCoverageStatus,
    actionable: bool,
) -> VerdictModel {
    match freshness {
        StalenessVerdict::Unknown { reason, files_checked } => action(
            "available"@,
            "unknown"@,
            with_calls_guidance(unknown_recommendation(reason, files_checked as nat), status),
            Some(reason_label(reason)),
        ),
        StalenessVerdict::Stale => action(
            "available"@,
            "stale"@,
            stale_recommendation(status),
            None,
        ),
        StalenessVerdict::Fresh => if graph_stats::has_gap(status) && actionable {
            action(
                "available"@,
                "fresh"@,
                with_calls_guidance("Source inputs are fresh."@, status),
                None,
            )
        } else {
            VerdictModel {
                availability: "available"@,
                freshness: "fresh"@,
                action_needed: false,
                recommendation: if graph_stats::has_gap(status) {
                    informational_guidance(status)
                } else {
                    "Source inputs are fresh and measured capabilities are ready."@
                },
                reason: None,
            }
        },
    }
}

/// The verdict on a generation. What is absent, unreadable or foreign outranks
/// everything that would be measured on it.
pub open spec fn verdict(
    graph_exists: bool,
    load_failed: bool,
    origin_mismatch: bool,
    freshness: StalenessVerdict,
    status: CapabilityCoverageStatus,
    actionable: bool,
) -> VerdictModel {
    if !graph_exists {
        action(
            "unindexed"@,
            "not-evaluated"@,
            "Run `h00ligan index` to publish the first generation."@,
            None,
        )
    } else if load_failed {
        action(
            "load-failed"@,
            "not-evaluated"@,
            "The publication is invalid and strict indexing will refuse it. Run `h00ligan index --recover-publication`, or call MCP `reindex` with `recover_publication=true`, to authorize a complete fresh replacement."@,
            None,
        )
    } else if origin_mismatch {
        action(
            "origin-mismatch"@,
            "not-evaluated"@,
            "The publication belongs to a different workspace. Verify the bound root, then run `h00ligan index --recover-publication`, or call MCP `reindex` with `recover_publication=true`, only if this data directory should be rebound to the current workspace."@,
            None,
        )
    } else {
        available_verdict(freshness, status, actionable)
    }
}

/// The verdict on a generation, where every gap in call coverage calls for action.
pub fn status_verdict(
    graph_exists: bool,
    load_failed: bool,
    origin_mismatch: bool,
    freshness: StalenessVerdict,
    calls_status: CapabilityCoverageStatus,
) -> (r: StatusVerdict)
    ensures
        r.deep_view() == verdict(
            graph_exists,
            load_failed,
            origin_mismatch,
            freshness,
            calls_status,
            true,
        ),
{
    status_verdict_with_calls_actionability(
        graph_exists,
        load_failed,
        origin_mismatch,
        freshness,
        calls_status,
        true,
    )
}

/// The verdict on a generation. A gap that an operator can repair calls for action; one
/// that already satisfies a best-effort request is only reported.
pub fn status_verdict_with_calls_actionability(
    graph_exists: bool,
    load_failed: bool,
    origin_mismatch: bool,
    freshness: StalenessVerdict,
    calls_status: CapabilityCoverageStatus,
    calls_gap_is_actionable: bool,
) -> (r: StatusVerdict)
    ensures
        r.deep_view() == verdict(
            graph_exists,
            load_failed,
            origin_mismatch,
            freshness,
            calls_status,
            calls_gap_is_actionable,
        ),
{
    let calls_have_gap = match calls_status {
        CapabilityCoverageStatus::Qualified | CapabilityCoverageStatus::Partial
        | CapabilityCoverageStatus::Unavailable => true,
        _ => false,
    };
    if !graph_exists {
        return action_verdict(
            "unindexed",
            "not-evaluated",
            "Run `h00ligan index` to publish the first generation.".to_owned(),
            None,
        );
    }
    if load_failed {
        return action_verdict(
            "load-failed",
            "not-evaluated",
            "The publication is invalid and strict indexing will refuse it. Run `h00ligan index --recover-publication`, or call MCP `reindex` with `recover_publication=true`, to authorize a complete fresh replacement.".to_owned(),
            None,
        );
    }
    if origin_mismatch {
        return action_verdict(
            "origin-mismatch",
            "not-evaluated",
            "The publication belongs to a different workspace. Verify the bound root, then run `h00ligan index --recover-publication`, or call MCP `reindex` with `recover_publication=true`, only if this data directory should be rebound to the current workspace.".to_owned(),
            None,
        );
    }
    match freshness {
        StalenessVerdict::Unknown { reason, files_checked } => {
            return action_verdict(
                "available",
                "unknown",
                append_calls_guidance(recommend_for_unknown(reason, files_checked), calls_status),
                Some(reason_str(reason)),
            );
        },
        StalenessVerdict::Stale => {
            return action_verdict("available", "stale", recommend_for_stale(calls_status), None);
        },
        StalenessVerdict::Fresh => {},
    }
    if calls_have_gap && calls_gap_is_actionable {
        return action_verdict(
            "available",
            "fresh",
            append_calls_guidance("Source inputs are fresh.".to_owned(), calls_status),
            None,
        );
    }
    let recommendation = if calls_have_gap {
        informational_calls_guidance(calls_status)
    } else {
        "Source inputs are fresh and measured capabilities are ready.".to_owned()
    };
    StatusVerdict {
        availability_label: "available",
        freshness_label: "fresh",
        action_needed: false,
        recommendation,
        freshness_reason: None,
    }
}

/// Call coverage never touches availability, freshness or its reason: with everything
/// else equal they are the same for any coverage.
pub proof fn law_coverage_never_relabels_freshness(
    graph_exists: bool,
    load_failed: bool,
    origin_mismatch: bool,
    freshness: StalenessVerdict,
    a: CapabilityCoverageStatus,
    b: CapabilityCoverageStatus,
    actionable_a: bool,
    actionable_b: bool,
)
    ensures
        ({
            let x = verdict(graph_exists, load_failed, origin_mismatch, freshness, a, actionable_a);
            let y = verdict(graph_exists, load_failed, origin_mismatch, freshness, b, actionable_b);
            x.availability == y.availability && x.freshness == y.freshness && x.reason == y.reason
        }),
{
}

/// A generation that is absent, unreadable or foreign is judged alike whatever its
/// sources and coverage are, and always calls for action.
pub proof fn law_availability_outranks_measurements(
    graph_exists: bool,
    load_failed: bool,
    origin_mismatch: bool,
    f: StalenessVerdict,
    g: StalenessVerdict,
    a: CapabilityCoverageStatus,
    b: CapabilityCoverageStatus,
    actionable_a: bool,
    actionable_b: bool,
)
    requires
        !graph_exists || load_failed || origin_mismatch,
    ensures
        verdict(graph_exists, load_failed, origin_mismatch, f, a, actionable_a) == verdict(
            graph_exists,
            load_failed,
            origin_mismatch,
            g,
            b,
            actionable_b,
        ),
        verdict(graph_exists, load_failed, origin_mismatch, f, a, actionable_a).action_needed,
        verdict(graph_exists, load_failed, origin_mismatch, f, a, actionable_a).freshness
            == "not-evaluated"@,
{
}

/// No action is needed exactly for a generation that is available and fresh, and whose
/// coverage has no gap that can be repaired.
pub proof fn law_quiet_iff_ready(
    graph_exists: bool,
    load_failed: bool,
    origin_mismatch: bool,
    freshness: StalenessVerdict,
    status: CapabilityCoverageStatus,
    actionable: bool,
)
    ensures
        !verdict(
            graph_exists,
            load_failed,
            origin_mismatch,
            freshness,
            status,
            actionable,
        ).action_needed <==> graph_exists && !load_failed && !origin_mismatch && freshness
            == StalenessVerdict::Fresh && !(graph_stats::has_gap(status) && actionable),
{
}

/// The labels of a verdict, case by case. What is absent comes before what does not load, that
/// before what belongs elsewhere, and that before what is available; and only of what is
/// available is freshness told, with a reason exactly where it is unknown.
pub proof fn law_labels_are_exact(
    graph_exists: bool,
    load_failed: bool,
    origin_mismatch: bool,
    freshness: StalenessVerdict,
    status: CapabilityCoverageStatus,
    actionable: bool,
)
    ensures
        ({
            let r = verdict(
                graph_exists,
                load_failed,
                origin_mismatch,
                freshness,
                status,
                actionable,
            );
            let available = graph_exists && !load_failed && !origin_mismatch;
            &&& r.availability == if !graph_exists {
                "unindexed"@
            } else if load_failed {
                "load-failed"@
            } else if origin_mismatch {
                "origin-mismatch"@
            } else {
                "available"@
            }
            &&& !available ==> r.freshness == "not-evaluated"@ && r.reason is None
            &&& available && freshness is Fresh ==> r.freshness == "fresh"@ && r.reason is None
            &&& available && freshness is Stale ==> r.freshness == "stale"@ && r.reason is None
                && r.action_needed
            &&& available && freshness is Unknown ==> r.freshness == "unknown"@ && r.action_needed
                && r.reason == Some(reason_label(freshness->reason))
            &&& available && freshness is Fresh ==> (r.action_needed <==> actionable && (status
                == CapabilityCoverageStatus::Qualified || status
                == CapabilityCoverageStatus::Partial || status
                == CapabilityCoverageStatus::Unavailable))
        }),
        reason_label(StalenessReason::Truncated) == "truncated"@,
        reason_label(StalenessReason::NoSourceFound) == "no_source"@,
        reason_label(StalenessReason::IndexedSourceSnapshotUnavailable)
            == "indexed_source_snapshot_unavailable"@,
        reason_label(StalenessReason::SourceVerificationFailed) == "source_verification_failed"@,
        reason_label(StalenessReason::ProviderSemanticInputsUnverifiable)
            == "provider_semantic_inputs_unverifiable"@,
{
}

/// A classification is evaluated exactly if its graph is there and loaded. It is then current
/// exactly if it has authority, its stamp names exactly this classifier under this
/// configuration, and the index is not known to be stale; unknown freshness does not count
/// against it. Else the status says which is missing and never that it is current.
pub proof fn law_currency_is_exact(
    graph_exists: bool,
    graph_loaded: bool,
    staleness: StalenessVerdict,
    authority: bool,
    stamp: Option<StampModel>,
    current: StampModel,
)
    ensures
        ({
            let r = currency_status(
                graph_exists,
                graph_loaded,
                staleness,
                authority,
                stamp,
                current,
            );
            &&& r.current is None <==> !(graph_exists && graph_loaded)
            &&& !graph_exists ==> r.not_evaluated_reason == Some("no graph in this data dir"@)
            &&& graph_exists && !graph_loaded ==> r.not_evaluated_reason == Some(
                "graph present but did not load"@,
            )
            &&& graph_exists && graph_loaded ==> r.not_evaluated_reason is None
            &&& r.current is None ==> r.failures.len() == 0
            &&& graph_exists && graph_loaded ==> (r.current == Some(true) <==> authority
                && !(staleness is Stale) && stamp is Some && classification::exact_identity(
                current.indexer,
            ) && stamp->0.indexer == current.indexer && stamp->0.prover == current.prover)
            &&& r.current == Some(true) ==> r.failures.len() == 0
            &&& r.current == Some(false) ==> r.failures.len() > 0
        }),
{
    classification::law_certifiable_iff_no_failure(
        stamp,
        current,
        authority,
        known_staleness(staleness),
    );
}

} // verus!
