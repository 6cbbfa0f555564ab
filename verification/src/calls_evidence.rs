//! Sealing, joining and selecting the Calls evidence of semantic providers.

use vstd::prelude::*;

use crate::domain;
use crate::domain::{
    CapabilityReceipt, CapabilityScope, CapabilityStatus, ReceiptModel, ScopeModel,
    CALLS_CONFIGURATION_ID,
};
use crate::duration::Duration;
use crate::graph::KnowledgeGraph;
use crate::index_config::ScipMode;
use crate::payload::{
    CanonicalProviderPayload, PublicationReadySemanticEvidence, ScipArtifactEvidence,
};
use crate::text;
use crate::values::Value;

verus! {

/// Identity of the long-lived Rust provider.
pub const H00_RUST_ANALYZER_PROVIDER_ID: &'static str = "h00-rust-analyzer";

/// Identity of the long-lived Go provider.
pub const H00_GO_PROVIDER_ID: &'static str = "h00-go";

/// Identity of the long-lived Python provider.
pub const H00_PYREFLY_PROVIDER_ID: &'static str = "h00-pyrefly";

/// Identity of the long-lived TypeScript provider.
pub const H00_TYPESCRIPT_PROVIDER_ID: &'static str = "h00-typescript";

/// Which providers may speak for a language's Calls, and where they can run.
#[derive(Debug)]
pub struct CallsProviderPolicy {
    pub ecosystem: &'static str,
    pub default_provider_id: &'static str,
    pub admitted_provider_ids: Vec<&'static str>,
    pub missing_execution_root_reason: &'static str,
}

/// A policy as plain text.
pub struct PolicyModel {
    pub ecosystem: Seq<char>,
    pub default_provider: Seq<char>,
    pub admitted: Seq<Seq<char>>,
    pub missing_root_reason: Seq<char>,
}

/// The policy table.
pub open spec fn policy_of(language: Seq<char>) -> Option<PolicyModel> {
    if language == "rust"@ {
        Some(
            PolicyModel {
                ecosystem: "cargo"@,
                default_provider: "rust-analyzer-scip"@,
                admitted: seq!["rust-analyzer-scip"@, H00_RUST_ANALYZER_PROVIDER_ID@],
                missing_root_reason:
                    "Rust Calls requires an indexed Cargo.toml source owner or workspace"@,
            },
        )
    } else if language == "go"@ {
        Some(
            PolicyModel {
                ecosystem: "go"@,
                default_provider: "scip-go"@,
                admitted: seq!["scip-go"@, H00_GO_PROVIDER_ID@],
                missing_root_reason:
                    "Go Calls requires an indexed go.mod module or go.work workspace"@,
            },
        )
    } else if language == "python"@ {
        Some(
            PolicyModel {
                ecosystem: "python"@,
                default_provider: H00_PYREFLY_PROVIDER_ID@,
                admitted: seq![H00_PYREFLY_PROVIDER_ID@],
                missing_root_reason:
                    "Python Calls requires an indexed Python package or module source owner"@,
            },
        )
    } else if language == "typescript"@ {
        Some(
            PolicyModel {
                ecosystem: "node"@,
                default_provider: H00_TYPESCRIPT_PROVIDER_ID@,
                admitted: seq![H00_TYPESCRIPT_PROVIDER_ID@],
                missing_root_reason:
                    "TypeScript Calls requires an indexed Node package source owner"@,
            },
        )
    } else {
        None
    }
}

/// The policy for `language`, if the product knows one.
pub fn calls_provider_policy(language: &str) -> (r: Option<CallsProviderPolicy>)
    ensures
        match (r, policy_of(language@)) {
            (Some(p), Some(m)) => {
                &&& p.ecosystem@ == m.ecosystem
                &&& p.default_provider_id@ == m.default_provider
                &&& p.admitted_provider_ids.deep_view() == m.admitted
                &&& p.missing_execution_root_reason@ == m.missing_root_reason
            },
            (None, None) => true,
            _ => false,
        },
{
    if text::same(language, "rust") {
        let admitted: Vec<&'static str> = vec!["rust-analyzer-scip", H00_RUST_ANALYZER_PROVIDER_ID];
        assert(admitted.deep_view() =~= policy_of(language@).unwrap().admitted);
        Some(
            CallsProviderPolicy {
                ecosystem: "cargo",
                default_provider_id: "rust-analyzer-scip",
                admitted_provider_ids: admitted,
                missing_execution_root_reason:
                    "Rust Calls requires an indexed Cargo.toml source owner or workspace",
            },
        )
    } else if text::same(language, "go") {
        let admitted: Vec<&'static str> = vec!["scip-go", H00_GO_PROVIDER_ID];
        assert(admitted.deep_view() =~= policy_of(language@).unwrap().admitted);
        Some(
            CallsProviderPolicy {
                ecosystem: "go",
                default_provider_id: "scip-go",
                admitted_provider_ids: admitted,
                missing_execution_root_reason:
                    "Go Calls requires an indexed go.mod module or go.work workspace",
            },
        )
    } else if text::same(language, "python") {
        let admitted: Vec<&'static str> = vec![H00_PYREFLY_PROVIDER_ID];
        assert(admitted.deep_view() =~= policy_of(language@).unwrap().admitted);
        Some(
            CallsProviderPolicy {
                ecosystem: "python",
                default_provider_id: H00_PYREFLY_PROVIDER_ID,
                admitted_provider_ids: admitted,
                missing_execution_root_reason:
                    "Python Calls requires an indexed Python package or module source owner",
            },
        )
    } else if text::same(language, "typescript") {
        let admitted: Vec<&'static str> = vec![H00_TYPESCRIPT_PROVIDER_ID];
        assert(admitted.deep_view() =~= policy_of(language@).unwrap().admitted);
        Some(
            CallsProviderPolicy {
                ecosystem: "node",
                default_provider_id: H00_TYPESCRIPT_PROVIDER_ID,
                admitted_provider_ids: admitted,
                missing_execution_root_reason:
                    "TypeScript Calls requires an indexed Node package source owner",
            },
        )
    } else {
        None
    }
}

/// The provider that a language's Calls are attributed to when none spoke.
pub open spec fn default_provider_of(language: Seq<char>) -> Seq<char> {
    match policy_of(language) {
        Some(p) => p.default_provider,
        None => "unassigned-semantic-provider"@,
    }
}

pub fn default_calls_provider(language: &str) -> (r: &'static str)
    ensures
        r@ == default_provider_of(language@),
{
    match calls_provider_policy(language) {
        Some(policy) => policy.default_provider_id,
        None => "unassigned-semantic-provider",
    }
}

/// The scope is about `language`'s Calls.
pub open spec fn is_calls_scope(scope: ScopeModel, language: Seq<char>) -> bool {
    scope.language() == Some(language) && scope.configuration() == CALLS_CONFIGURATION_ID@
}

/// Evidence speaks for `language`'s Calls: its language, capability, provider, scope
/// and embedded receipt all agree.
pub open spec fn identity_matches(
    language: Seq<char>,
    evidence: PublicationReadySemanticEvidence,
) -> bool {
    let receipt = evidence.receipt.deep_view();
    &&& evidence.language_id.0@ == language
    &&& receipt.capability == "calls"@
    &&& match policy_of(language) {
        Some(p) => p.admitted.contains(receipt.provider),
        None => false,
    }
    &&& is_calls_scope(receipt.scope, language)
    &&& match evidence.payload {
        Some(p) => p.payload.deep_view().receipt() == receipt,
        None => true,
    }
}

fn provider_is_admitted(language: &str, provider: &str) -> (r: bool)
    ensures
        r == match policy_of(language@) {
            Some(p) => p.admitted.contains(provider@),
            None => false,
        },
{
    match calls_provider_policy(language) {
        None => false,
        Some(policy) => {
            let ids = policy.admitted_provider_ids;
            for i in 0..ids.len()
                invariant
                    policy_of(language@) is Some,
                    ids.deep_view() == policy_of(language@)->0.admitted,
                    forall|j: int| 0 <= j < i ==> ids@[j]@ != provider@,
            {
                if text::same(ids[i], provider) {
                    assert(ids.deep_view()[i as int] == provider@);
                    return true;
                }
            }
            assert(!ids.deep_view().contains(provider@)) by {
                if ids.deep_view().contains(provider@) {
                    let k = ids.deep_view().index_of(provider@);
                    assert(ids.deep_view()[k] == ids@[k]@);
                }
            }
            false
        },
    }
}

pub fn calls_evidence_identity_matches(
    language: &str,
    evidence: &PublicationReadySemanticEvidence,
) -> (r: bool)
    ensures
        r == identity_matches(language@, *evidence),
{
    let scope_matches = match &evidence.receipt.scope {
        CapabilityScope::Language { language_id, configuration_id } => text::same(
            language_id.0.as_str(),
            language,
        ) && text::same(configuration_id.0.as_str(), CALLS_CONFIGURATION_ID),
        CapabilityScope::ProjectUnit { language_id, configuration_id, .. } => text::same(
            language_id.0.as_str(),
            language,
        ) && text::same(configuration_id.0.as_str(), CALLS_CONFIGURATION_ID),
        CapabilityScope::ProjectUnits { language_id, configuration_id, .. } => text::same(
            language_id.0.as_str(),
            language,
        ) && text::same(configuration_id.0.as_str(), CALLS_CONFIGURATION_ID),
        CapabilityScope::Repository { .. } => false,
    };
    let payload_agrees = match &evidence.payload {
        Some(payload) => payload.payload().receipt().same(&evidence.receipt),
        None => true,
    };
    text::same(evidence.language_id.0.as_str(), language) && text::same(
        evidence.receipt.capability_id.as_str(),
        "calls",
    ) && provider_is_admitted(language, evidence.receipt.provider_id.0.as_str()) && scope_matches
        && payload_agrees
}

/// What is published of evidence that speaks for something else.
pub open spec fn inconsistent_receipt(language: Seq<char>) -> ReceiptModel {
    domain::bare_language_receipt(
        "calls"@,
        default_provider_of(language),
        language,
        CALLS_CONFIGURATION_ID@,
        CapabilityStatus::Unavailable,
        "provider_evidence_inconsistent"@,
        "SCIP normalization returned evidence for a different capability, provider, or scope"@,
    )
}

pub fn inconsistent_calls_evidence_receipt(language: &str) -> (r: CapabilityReceipt)
    ensures
        r.deep_view() == inconsistent_receipt(language@),
{
    CapabilityReceipt::unavailable(
        "calls",
        default_calls_provider(language),
        None,
        CapabilityScope::of_language(language, CALLS_CONFIGURATION_ID),
        None,
        "provider_evidence_inconsistent",
        "SCIP normalization returned evidence for a different capability, provider, or scope",
    )
}

/// Time spent turning a payload into its published form.
#[derive(Debug, Clone, Copy, PartialEq, Eq, Structural)]
pub struct ProviderPayloadCanonicalizationTimings {
    pub normalization: Duration,
    pub serialization: Duration,
    pub descriptor: Duration,
}

pub open spec fn no_timings() -> ProviderPayloadCanonicalizationTimings {
    ProviderPayloadCanonicalizationTimings {
        normalization: Duration { nanos: 0 },
        serialization: Duration { nanos: 0 },
        descriptor: Duration { nanos: 0 },
    }
}

impl ProviderPayloadCanonicalizationTimings {
    pub fn none() -> (r: Self)
        ensures
            r == no_timings(),
    {
        ProviderPayloadCanonicalizationTimings {
            normalization: Duration::zero(),
            serialization: Duration::zero(),
            descriptor: Duration::zero(),
        }
    }
}

/// The payload's embedded receipt is the receipt it came with, both are complete:
/// the pair may be sealed.
pub open spec fn may_seal(evidence: ScipArtifactEvidence) -> bool {
    &&& evidence.receipt.status == CapabilityStatus::Complete
    &&& evidence.payload is Some
    &&& evidence.payload->0.deep_view().receipt() == evidence.receipt.deep_view()
}

/// Whether [`seal_scip_artifact_evidence`] will look at a sealed payload.
pub fn wants_seal(evidence: &ScipArtifactEvidence) -> (r: bool)
    ensures
        r == may_seal(*evidence),
{
    match (&evidence.receipt.status, &evidence.payload) {
        (CapabilityStatus::Complete, Some(payload)) => payload.receipt().same(&evidence.receipt),
        _ => false,
    }
}

/// The receipt of evidence once its payload has crossed, or failed to cross, the
/// last fallible boundary before publication.
pub open spec fn sealed_receipt(
    evidence: ScipArtifactEvidence,
    sealed: Result<(CanonicalProviderPayload, ProviderPayloadCanonicalizationTimings), String>,
) -> ReceiptModel {
    let receipt = evidence.receipt.deep_view();
    if may_seal(evidence) {
        match sealed {
            Ok(_) => receipt,
            Err(error) => receipt.withdrawn(
                CapabilityStatus::Unavailable,
                "provider_payload_seal_failed"@,
                "normalized provider payload could not be sealed: "@ + error@,
            ),
        }
    } else if receipt.status == CapabilityStatus::Complete && evidence.payload is Some {
        receipt.withdrawn(
            CapabilityStatus::Unavailable,
            "provider_evidence_inconsistent"@,
            "normalized provider payload embeds a different capability receipt"@,
        )
    } else if receipt.status != CapabilityStatus::Complete && evidence.payload is None {
        receipt
    } else {
        receipt.withdrawn(
            CapabilityStatus::Unavailable,
            "provider_evidence_inconsistent"@,
            "semantic normalization returned an inconsistent receipt and payload pair"@,
        )
    }
}

/// The evidence with its payload sealed, or withdrawn.
pub open spec fn is_sealed(
    evidence: ScipArtifactEvidence,
    sealed: Result<(CanonicalProviderPayload, ProviderPayloadCanonicalizationTimings), String>,
    ready: PublicationReadySemanticEvidence,
) -> bool {
    &&& ready.language_id == evidence.language_id
    &&& ready.receipt.deep_view() == sealed_receipt(evidence, sealed)
    &&& match sealed {
        Ok((payload, _)) if may_seal(evidence) => ready.payload == Some(payload),
        _ => ready.payload is None,
    }
}

/// The time that sealing took, if the payload was sealed.
pub open spec fn sealing_timings(
    evidence: ScipArtifactEvidence,
    sealed: Result<(CanonicalProviderPayload, ProviderPayloadCanonicalizationTimings), String>,
) -> ProviderPayloadCanonicalizationTimings {
    match sealed {
        Ok((_, timings)) if may_seal(evidence) => timings,
        _ => no_timings(),
    }
}

/// Crosses the last fallible payload boundary before evidence can touch the graph.
/// `sealed` is what sealing the evidence's payload gave.
pub fn seal_scip_artifact_evidence(
    evidence: ScipArtifactEvidence,
    sealed: Result<(CanonicalProviderPayload, ProviderPayloadCanonicalizationTimings), String>,
) -> (r: (PublicationReadySemanticEvidence, ProviderPayloadCanonicalizationTimings))
    ensures
        is_sealed(evidence, sealed, r.0),
        r.1 == sealing_timings(evidence, sealed),
{
    let wants = wants_seal(&evidence);
    let language_id = evidence.language_id;
    let receipt = evidence.receipt;
    match (receipt.status, evidence.payload) {
        (CapabilityStatus::Complete, Some(_)) => {
            if !wants {
                return (
                    PublicationReadySemanticEvidence {
                        language_id,
                        receipt: receipt.withdraw(
                            CapabilityStatus::Unavailable,
                            "provider_evidence_inconsistent",
                            "normalized provider payload embeds a different capability receipt",
                        ),
                        payload: None,
                    },
                    ProviderPayloadCanonicalizationTimings::none(),
                );
            }
            match sealed {
                Ok((payload, timings)) => (
                    PublicationReadySemanticEvidence {
                        language_id,
                        receipt,
                        payload: Some(payload),
                    },
                    timings,
                ),
                Err(error) => {
                    let mut reason =
                        "normalized provider payload could not be sealed: ".to_owned();
                    reason.append(error.as_str());
                    (
                        PublicationReadySemanticEvidence {
                            language_id,
                            receipt: receipt.withdraw(
                                CapabilityStatus::Unavailable,
                                "provider_payload_seal_failed",
                                reason.as_str(),
                            ),
                            payload: None,
                        },
                        ProviderPayloadCanonicalizationTimings::none(),
                    )
                },
            }
        },
        (CapabilityStatus::Partial, None) | (CapabilityStatus::Unavailable, None) => (
            PublicationReadySemanticEvidence { language_id, receipt, payload: None },
            ProviderPayloadCanonicalizationTimings::none(),
        ),
        _ => (
            PublicationReadySemanticEvidence {
                language_id,
                receipt: receipt.withdraw(
                    CapabilityStatus::Unavailable,
                    "provider_evidence_inconsistent",
                    "semantic normalization returned an inconsistent receipt and payload pair",
                ),
                payload: None,
            },
            ProviderPayloadCanonicalizationTimings::none(),
        ),
    }
}

/// The most characters of a failure's own words that a receipt repeats.
pub const DETAIL_LIMIT: usize = 384;

/// The failure's own words, cut after the limit and marked where they were cut.
pub open spec fn bounded_detail(detail: Seq<char>) -> Seq<char> {
    if detail.len() > DETAIL_LIMIT {
        detail.take(DETAIL_LIMIT as int).push('…')
    } else {
        detail
    }
}

pub open spec fn join_reason(capability: Seq<char>, detail: Seq<char>) -> Seq<char> {
    "normalized "@ + capability
        + " evidence could not join the co-published structural graph: "@ + bounded_detail(detail)
}

/// Why a structural join failed, with the failure's words cut to a bound.
pub fn bounded_structural_join_reason(capability: &str, detail: &str) -> (r: String)
    ensures
        r@ == join_reason(capability@, detail@),
{
    let chars = text::chars_of(detail);
    let mut reason = "normalized ".to_owned();
    reason.append(capability);
    reason.append(" evidence could not join the co-published structural graph: ");
    if chars.len() > DETAIL_LIMIT {
        let mut bounded = text::string_of(
            vstd::slice::slice_subrange(chars.as_slice(), 0, DETAIL_LIMIT),
        );
        assert(bounded@ =~= detail@.take(DETAIL_LIMIT as int));
        bounded.push('…');
        reason.append(bounded.as_str());
    } else {
        reason.append(detail);
    }
    reason
}

/// Evidence whose liveness payload did not join the graph keeps its receipt at
/// most as a partial statement, without the payload.
pub open spec fn joined_liveness(
    evidence: PublicationReadySemanticEvidence,
    join: Result<(), String>,
) -> Option<ReceiptModel> {
    match (evidence.payload, join) {
        (Some(p), Err(detail)) if p.payload is CallableLiveness => Some(
            evidence.receipt.deep_view().withdrawn(
                CapabilityStatus::Partial,
                "provider_structural_join_incomplete"@,
                join_reason("callable-liveness"@, detail@),
            ),
        ),
        _ => None,
    }
}

/// The evidence as it is, or withdrawn where it did not join the graph.
pub open spec fn is_joined_liveness(
    before: PublicationReadySemanticEvidence,
    join: Result<(), String>,
    after: PublicationReadySemanticEvidence,
) -> bool {
    &&& after.language_id == before.language_id
    &&& match joined_liveness(before, join) {
        Some(receipt) => after.receipt.deep_view() == receipt && after.payload is None,
        None => after == before,
    }
}

/// Withdraws liveness evidence that did not join the structural graph. `join` is
/// what validating the payload against the graph gave.
pub fn enforce_callable_liveness_structural_join(
    evidence: &mut PublicationReadySemanticEvidence,
    join: Result<(), String>,
)
    ensures
        is_joined_liveness(*old(evidence), join, *final(evidence)),
{
    let is_liveness = match &evidence.payload {
        Some(payload) => !payload.payload().is_calls(),
        None => false,
    };
    if !is_liveness {
        return;
    }
    match join {
        Ok(()) => {},
        Err(detail) => {
            let reason = bounded_structural_join_reason("callable-liveness", detail.as_str());
            evidence.receipt = evidence.receipt.copy().withdraw(
                CapabilityStatus::Partial,
                "provider_structural_join_incomplete",
                reason.as_str(),
            );
            evidence.payload = None;
        },
    }
}

/// What projecting Calls evidence added to the graph.
#[derive(Debug, Clone, Copy, PartialEq, Eq, Structural)]
pub struct CallsGraphProjectionStats {
    pub novel_edges: usize,
}

/// The evidence speaks for its own language's Calls and carries a Calls payload.
pub open spec fn projects_calls(evidence: PublicationReadySemanticEvidence) -> bool {
    &&& identity_matches(evidence.language_id.0@, evidence)
    &&& evidence.payload is Some
    &&& evidence.payload->0.payload is Calls
}

/// Whether [`enforce_and_project_calls_structural_join`] will look at a projection.
pub fn wants_calls_projection(evidence: &PublicationReadySemanticEvidence) -> (r: bool)
    ensures
        r == projects_calls(*evidence),
{
    calls_evidence_identity_matches(evidence.language_id.0.as_str(), evidence) && match &evidence.payload {
        Some(payload) => payload.payload().is_calls(),
        None => false,
    }
}

/// What projecting evidence makes of the evidence and the graph.
pub open spec fn is_projection(
    before: PublicationReadySemanticEvidence,
    graph: KnowledgeGraph,
    projection: Result<(KnowledgeGraph, CallsGraphProjectionStats), String>,
    after: PublicationReadySemanticEvidence,
    joined: KnowledgeGraph,
    stats: CallsGraphProjectionStats,
) -> bool {
    &&& after.language_id == before.language_id
    &&& if projects_calls(before) {
        match projection {
            Ok((with_calls, added)) => after == before && joined == with_calls && stats == added,
            Err(detail) => {
                &&& after.receipt.deep_view() == before.receipt.deep_view().withdrawn(
                    CapabilityStatus::Partial,
                    "provider_structural_join_incomplete"@,
                    join_reason("Calls"@, detail@),
                )
                &&& after.payload is None
                &&& joined == graph
                &&& stats.novel_edges == 0
            },
        }
    } else if identity_matches(before.language_id.0@, before) {
        after == before && joined == graph && stats.novel_edges == 0
    } else {
        &&& after.receipt.deep_view() == inconsistent_receipt(before.language_id.0@)
        &&& after.payload is None
        &&& joined == graph
        &&& stats.novel_edges == 0
    }
}

/// Projects admitted Calls evidence onto the graph. `projection` is the graph with
/// the payload's relationships added, or why they could not be added.
pub fn enforce_and_project_calls_structural_join(
    graph: &mut KnowledgeGraph,
    evidence: &mut PublicationReadySemanticEvidence,
    projection: Result<(KnowledgeGraph, CallsGraphProjectionStats), String>,
) -> (stats: CallsGraphProjectionStats)
    ensures
        is_projection(*old(evidence), *old(graph), projection, *final(evidence), *final(graph), stats),
{
    let language = evidence.language_id.copy();
    if !calls_evidence_identity_matches(language.0.as_str(), evidence) {
        evidence.receipt = inconsistent_calls_evidence_receipt(language.0.as_str());
        evidence.payload = None;
        return CallsGraphProjectionStats { novel_edges: 0 };
    }
    if !wants_calls_projection(evidence) {
        return CallsGraphProjectionStats { novel_edges: 0 };
    }
    match projection {
        Ok((joined, added)) => {
            *graph = joined;
            added
        },
        Err(detail) => {
            let reason = bounded_structural_join_reason("Calls", detail.as_str());
            evidence.receipt = evidence.receipt.copy().withdraw(
                CapabilityStatus::Partial,
                "provider_structural_join_incomplete",
                reason.as_str(),
            );
            evidence.payload = None;
            CallsGraphProjectionStats { novel_edges: 0 }
        },
    }
}

/// The receipt given when no provider spoke for a language.
pub open spec fn absent_receipt(
    language: Seq<char>,
    execution_root_available: bool,
    provider_configured: bool,
) -> ReceiptModel {
    let (code, reason) = match policy_of(language) {
        Some(policy) => if !execution_root_available {
            ("provider_execution_root_unavailable"@, policy.missing_root_reason)
        } else if !provider_configured {
            (
                "provider_not_configured"@,
                "this h00ligan product does not configure a semantic Calls provider for this language"@,
            )
        } else {
            (
                "provider_failed_or_unavailable"@,
                "a configured semantic Calls provider did not produce validated scoped evidence"@,
            )
        },
        None => (
            "provider_not_configured"@,
            "no semantic Calls provider is configured for this language"@,
        ),
    };
    domain::bare_language_receipt(
        "calls"@,
        default_provider_of(language),
        language,
        CALLS_CONFIGURATION_ID@,
        CapabilityStatus::Unavailable,
        code,
        reason,
    )
}

/// Exactly one piece of evidence came, it speaks for the language, and its receipt
/// and payload are both complete.
pub open spec fn admits_payload(
    mode: ScipMode,
    language: Seq<char>,
    evidence: Seq<PublicationReadySemanticEvidence>,
) -> bool {
    &&& mode == ScipMode::Refresh
    &&& evidence.len() == 1
    &&& identity_matches(language, evidence[0])
    &&& evidence[0].receipt.status == CapabilityStatus::Complete
    &&& evidence[0].payload is Some
}

/// The one receipt that is published for a language's Calls.
pub open spec fn selected_receipt(
    mode: ScipMode,
    language: Seq<char>,
    execution_root_available: bool,
    provider_configured: bool,
    evidence: Seq<PublicationReadySemanticEvidence>,
) -> ReceiptModel {
    if mode == ScipMode::Disabled {
        domain::bare_language_receipt(
            "calls"@,
            default_provider_of(language),
            language,
            CALLS_CONFIGURATION_ID@,
            CapabilityStatus::Unavailable,
            "provider_not_requested"@,
            "semantic Calls provider execution was not requested"@,
        )
    } else if evidence.len() == 0 {
        absent_receipt(language, execution_root_available, provider_configured)
    } else if evidence.len() > 1 {
        domain::bare_language_receipt(
            "calls"@,
            default_provider_of(language),
            language,
            CALLS_CONFIGURATION_ID@,
            CapabilityStatus::Partial,
            "provider_artifact_ambiguous"@,
            "multiple SCIP artifacts claimed the same language scope"@,
        )
    } else if !identity_matches(language, evidence[0]) {
        inconsistent_receipt(language)
    } else if (evidence[0].receipt.status == CapabilityStatus::Complete) == (
    evidence[0].payload is Some) {
        evidence[0].receipt.deep_view()
    } else {
        domain::bare_language_receipt(
            "calls"@,
            default_provider_of(language),
            language,
            CALLS_CONFIGURATION_ID@,
            CapabilityStatus::Unavailable,
            "provider_evidence_inconsistent"@,
            "SCIP normalization returned inconsistent receipt and payload evidence"@,
        )
    }
}

/// Chooses the one receipt for a language's Calls, and hands over the payload that
/// backs it, if there is one.
pub fn select_calls_evidence(
    scip_mode: ScipMode,
    language: &str,
    execution_root_available: bool,
    provider_configured: bool,
    evidence: Vec<PublicationReadySemanticEvidence>,
    provider_payloads: &mut Vec<CanonicalProviderPayload>,
) -> (receipt: CapabilityReceipt)
    ensures
        receipt.deep_view() == selected_receipt(
            scip_mode,
            language@,
            execution_root_available,
            provider_configured,
            evidence@,
        ),
        final(provider_payloads)@ == if admits_payload(scip_mode, language@, evidence@) {
            old(provider_payloads)@.push(evidence@[0].payload->0)
        } else {
            old(provider_payloads)@
        },
{
    let mut evidence = evidence;
    let default_provider = default_calls_provider(language);
    let scope = CapabilityScope::of_language(language, CALLS_CONFIGURATION_ID);
    if scip_mode == ScipMode::Disabled {
        return CapabilityReceipt::unavailable(
            "calls",
            default_provider,
            None,
            scope,
            None,
            "provider_not_requested",
            "semantic Calls provider execution was not requested",
        );
    }
    if evidence.len() == 0 {
        let (reason_code, reason) = match calls_provider_policy(language) {
            Some(policy) => if !execution_root_available {
                ("provider_execution_root_unavailable", policy.missing_execution_root_reason)
            } else if !provider_configured {
                (
                    "provider_not_configured",
                    "this h00ligan product does not configure a semantic Calls provider for this language",
                )
            } else {
                (
                    "provider_failed_or_unavailable",
                    "a configured semantic Calls provider did not produce validated scoped evidence",
                )
            },
            None => (
                "provider_not_configured",
                "no semantic Calls provider is configured for this language",
            ),
        };
        return CapabilityReceipt::unavailable(
            "calls",
            default_provider,
            None,
            scope,
            None,
            reason_code,
            reason,
        );
    }
    if evidence.len() > 1 {
        return CapabilityReceipt::partial(
            "calls",
            default_provider,
            None,
            scope,
            None,
            "provider_artifact_ambiguous",
            "multiple SCIP artifacts claimed the same language scope",
        );
    }
    let only = evidence.swap_remove(0);
    if !calls_evidence_identity_matches(language, &only) {
        return inconsistent_calls_evidence_receipt(language);
    }
    match (only.receipt.status, only.payload) {
        (CapabilityStatus::Complete, Some(payload)) => {
            provider_payloads.push(payload);
            only.receipt
        },
        (CapabilityStatus::Partial, None) | (CapabilityStatus::Unavailable, None) => only.receipt,
        _ => CapabilityReceipt::unavailable(
            "calls",
            default_provider,
            None,
            scope,
            None,
            "provider_evidence_inconsistent",
            "SCIP normalization returned inconsistent receipt and payload evidence",
        ),
    }
}

/// A language's Calls are published as complete exactly when a payload is admitted.
pub proof fn law_complete_calls_iff_payload(
    mode: ScipMode,
    language: Seq<char>,
    root: bool,
    configured: bool,
    evidence: Seq<PublicationReadySemanticEvidence>,
)
    ensures
        selected_receipt(mode, language, root, configured, evidence).status
            == CapabilityStatus::Complete <==> admits_payload(mode, language, evidence),
{
}

/// Several claims on one language are ambiguous, whatever they hold and in whatever
/// order they come.
pub proof fn law_ambiguity_ignores_order(
    language: Seq<char>,
    root: bool,
    configured: bool,
    first: Seq<PublicationReadySemanticEvidence>,
    second: Seq<PublicationReadySemanticEvidence>,
)
    requires
        first.len() > 1,
        second.len() > 1,
    ensures
        selected_receipt(ScipMode::Refresh, language, root, configured, first) == selected_receipt(
            ScipMode::Refresh,
            language,
            root,
            configured,
            second,
        ),
        !admits_payload(ScipMode::Refresh, language, first),
{
}

/// Evidence whose payload failed to seal can neither touch the graph nor be
/// published with a payload.
pub proof fn law_unsealed_evidence_has_no_authority(
    evidence: ScipArtifactEvidence,
    error: String,
    published: PublicationReadySemanticEvidence,
    language: Seq<char>,
)
    requires
        published.language_id == evidence.language_id,
        published.payload is None,
        published.receipt.deep_view() == sealed_receipt(evidence, Err(error)),
    ensures
        !projects_calls(published),
        !admits_payload(ScipMode::Refresh, language, seq![published]),
        published.receipt.status != CapabilityStatus::Complete,
{
    assert(published.receipt.deep_view().status == published.receipt.status);
}

/// The four languages are told apart by their names.
proof fn lemma_language_names()
    ensures
        "rust"@ != "go"@,
        "rust"@ != "python"@,
        "rust"@ != "typescript"@,
        "go"@ != "python"@,
        "go"@ != "typescript"@,
        "python"@ != "typescript"@,
{
    reveal_strlit("rust");
    reveal_strlit("go");
    reveal_strlit("python");
    reveal_strlit("typescript");
    assert("rust"@.len() == 4 && "go"@.len() == 2 && "python"@.len() == 6 && "typescript"@.len()
        == 10);
}

/// Who may speak for a language's Calls: the one-shot and the long-lived provider of Rust
/// and of Go, the long-lived one of Python and of TypeScript, and no provider of another
/// language.
pub proof fn law_admitted_providers(language: Seq<char>, provider: Seq<char>)
    ensures
        (policy_of(language) is Some && policy_of(language)->0.admitted.contains(provider)) <==> {
            ||| language == "rust"@ && (provider == "rust-analyzer-scip"@ || provider
                == "h00-rust-analyzer"@)
            ||| language == "go"@ && (provider == "scip-go"@ || provider == "h00-go"@)
            ||| language == "python"@ && provider == "h00-pyrefly"@
            ||| language == "typescript"@ && provider == "h00-typescript"@
        },
        policy_of(language) is Some ==> policy_of(language)->0.admitted.contains(
            default_provider_of(language),
        ),
        policy_of(language) is None ==> default_provider_of(language)
            == "unassigned-semantic-provider"@,
        policy_of("rust"@) is Some && policy_of("rust"@)->0.ecosystem == "cargo"@
            && default_provider_of("rust"@) == "rust-analyzer-scip"@,
        policy_of("go"@) is Some && policy_of("go"@)->0.ecosystem == "go"@ && default_provider_of(
            "go"@,
        ) == "scip-go"@,
        policy_of("python"@) is Some && policy_of("python"@)->0.ecosystem == "python"@
            && default_provider_of("python"@) == "h00-pyrefly"@,
        policy_of("typescript"@) is Some && policy_of("typescript"@)->0.ecosystem == "node"@
            && default_provider_of("typescript"@) == "h00-typescript"@,
{
    lemma_language_names();
    if policy_of(language) is Some {
        let admitted = policy_of(language)->0.admitted;
        assert(admitted[0] == default_provider_of(language));
        if admitted.len() > 1 {
            assert(admitted[1] == admitted.last());
        }
        if admitted.contains(provider) {
            let k = admitted.index_of(provider);
            assert(k == 0 || k == 1);
        }
    }
}

/// Evidence speaks for a language's Calls exactly if it is filed under the language, its
/// receipt is about Calls, comes from an admitted provider and has the language's Calls
/// scope, and its payload, where it has one, embeds the very same receipt.
pub proof fn law_evidence_identity(
    language: Seq<char>,
    evidence: PublicationReadySemanticEvidence,
)
    ensures
        identity_matches(language, evidence) <==> {
            let receipt = evidence.receipt.deep_view();
            &&& evidence.language_id.0@ == language
            &&& evidence.receipt.capability_id@ == "calls"@
            &&& receipt.scope.language() == Some(language)
            &&& receipt.scope.configuration() == "calls"@
            &&& evidence.payload is Some ==> evidence.payload->0.payload.deep_view().receipt()
                == receipt
            &&& {
                ||| language == "rust"@ && (receipt.provider == "rust-analyzer-scip"@
                    || receipt.provider == "h00-rust-analyzer"@)
                ||| language == "go"@ && (receipt.provider == "scip-go"@ || receipt.provider
                    == "h00-go"@)
                ||| language == "python"@ && receipt.provider == "h00-pyrefly"@
                ||| language == "typescript"@ && receipt.provider == "h00-typescript"@
            }
        },
{
    law_admitted_providers(language, evidence.receipt.deep_view().provider);
}

/// The one piece of evidence that speaks for a language is published under its own
/// receipt, with every field as the provider gave it: complete with its payload, or partial
/// or unavailable without one. Its payload is handed over exactly in the first case.
pub proof fn law_sound_evidence_keeps_its_receipt(
    language: Seq<char>,
    root: bool,
    configured: bool,
    evidence: PublicationReadySemanticEvidence,
)
    requires
        identity_matches(language, evidence),
        evidence.receipt.status == CapabilityStatus::Complete <==> evidence.payload is Some,
    ensures
        selected_receipt(ScipMode::Refresh, language, root, configured, seq![evidence])
            == evidence.receipt.deep_view(),
        admits_payload(ScipMode::Refresh, language, seq![evidence]) <==> evidence.payload is Some,
{
}

/// A receipt that stands for a missing or a refused statement about a language's Calls: it
/// names the language's own provider and scope, no version and no input.
pub open spec fn is_made_up(receipt: ReceiptModel, language: Seq<char>) -> bool {
    &&& receipt.capability == "calls"@
    &&& receipt.provider == default_provider_of(language)
    &&& receipt.scope == (ScopeModel::Language { language, configuration: "calls"@ })
    &&& receipt.version is None
    &&& receipt.fingerprint is None
    &&& receipt.status != CapabilityStatus::Complete
    &&& receipt.reason is Some
}

/// Where no sound evidence came, the published receipt says why, and no payload is handed
/// over: the providers were not asked, none of them answered and why, more than one did, or
/// the one answer contradicts itself.
pub proof fn law_missing_calls_are_explained(
    mode: ScipMode,
    language: Seq<char>,
    root: bool,
    configured: bool,
    evidence: Seq<PublicationReadySemanticEvidence>,
)
    requires
        mode == ScipMode::Disabled || evidence.len() != 1 || !identity_matches(
            language,
            evidence[0],
        ) || (evidence[0].receipt.status == CapabilityStatus::Complete) != (
        evidence[0].payload is Some),
    ensures
        !admits_payload(mode, language, evidence),
        ({
            let receipt = selected_receipt(mode, language, root, configured, evidence);
            &&& is_made_up(receipt, language)
            &&& receipt.status == if mode == ScipMode::Refresh && evidence.len() > 1 {
                CapabilityStatus::Partial
            } else {
                CapabilityStatus::Unavailable
            }
            &&& mode == ScipMode::Disabled ==> receipt.reason_code == Some(
                "provider_not_requested"@,
            )
            &&& mode == ScipMode::Refresh && evidence.len() > 1 ==> receipt.reason_code == Some(
                "provider_artifact_ambiguous"@,
            )
            &&& mode == ScipMode::Refresh && evidence.len() == 1 ==> receipt.reason_code == Some(
                "provider_evidence_inconsistent"@,
            )
            &&& mode == ScipMode::Refresh && evidence.len() == 0 ==> {
                let known = language == "rust"@ || language == "go"@ || language == "python"@
                    || language == "typescript"@;
                &&& known && !root ==> receipt.reason_code == Some(
                    "provider_execution_root_unavailable"@,
                )
                &&& !known || (root && !configured) ==> receipt.reason_code == Some(
                    "provider_not_configured"@,
                )
                &&& known && root && configured ==> receipt.reason_code == Some(
                    "provider_failed_or_unavailable"@,
                )
            }
        }),
{
    lemma_language_names();
}

/// Sealing changes nothing that needs no seal, keeps a complete receipt whose payload was
/// sealed, and withdraws every other one. What is withdrawn keeps its provider, version,
/// scope and input; only sealed evidence is complete and has a payload.
pub proof fn law_sealing_is_exact(
    evidence: ScipArtifactEvidence,
    sealed: Result<(CanonicalProviderPayload, ProviderPayloadCanonicalizationTimings), String>,
    ready: PublicationReadySemanticEvidence,
)
    requires
        is_sealed(evidence, sealed, ready),
    ensures
        ({
            let before = evidence.receipt.deep_view();
            let after = ready.receipt.deep_view();
            let complete = before.status == CapabilityStatus::Complete;
            let agrees = evidence.payload is Some && evidence.payload->0.deep_view().receipt()
                == before;
            &&& ready.language_id == evidence.language_id
            &&& after.capability == before.capability
            &&& after.provider == before.provider
            &&& after.version == before.version
            &&& after.scope == before.scope
            &&& after.fingerprint == before.fingerprint
            &&& complete && agrees && sealed is Ok ==> after == before && ready.payload == Some(
                sealed->Ok_0.0,
            )
            &&& !complete && evidence.payload is None ==> after == before && ready.payload is None
            &&& complete && agrees && sealed is Err ==> after.status
                == CapabilityStatus::Unavailable && after.reason_code == Some(
                "provider_payload_seal_failed"@,
            ) && ready.payload is None
            &&& (complete && !agrees) || (!complete && evidence.payload is Some) ==> after.status
                == CapabilityStatus::Unavailable && after.reason_code == Some(
                "provider_evidence_inconsistent"@,
            ) && ready.payload is None
            &&& after.status == CapabilityStatus::Complete <==> ready.payload is Some
        }),
{
}

/// Calls evidence that joins the graph stays as it is, and the joined graph takes the place
/// of the old one. Evidence that does not join is at most partial, without its payload;
/// evidence that speaks for something else is unavailable; and in both cases, as for
/// evidence without a Calls payload, the graph does not change.
pub proof fn law_join_is_all_or_nothing(
    before: PublicationReadySemanticEvidence,
    graph: KnowledgeGraph,
    projection: Result<(KnowledgeGraph, CallsGraphProjectionStats), String>,
    after: PublicationReadySemanticEvidence,
    joined: KnowledgeGraph,
    stats: CallsGraphProjectionStats,
)
    requires
        is_projection(before, graph, projection, after, joined, stats),
    ensures
        ({
            let own = identity_matches(before.language_id.0@, before);
            let calls = before.payload is Some && before.payload->0.payload is Calls;
            &&& after.language_id == before.language_id
            &&& own && calls && projection is Ok ==> after == before && joined
                == projection->Ok_0.0 && stats == projection->Ok_0.1
            &&& !(own && calls && projection is Ok) ==> joined == graph && stats.novel_edges == 0
            &&& own && calls && projection is Err ==> after.payload is None
                && after.receipt.deep_view().status == CapabilityStatus::Partial
                && after.receipt.deep_view().reason_code == Some(
                "provider_structural_join_incomplete"@,
            ) && after.receipt.deep_view().provider == before.receipt.deep_view().provider
                && after.receipt.deep_view().version == before.receipt.deep_view().version
                && after.receipt.deep_view().scope == before.receipt.deep_view().scope
                && after.receipt.deep_view().fingerprint == before.receipt.deep_view().fingerprint
            &&& own && !calls ==> after == before
            &&& !own ==> after.payload is None && is_made_up(
                after.receipt.deep_view(),
                before.language_id.0@,
            ) && after.receipt.deep_view().status == CapabilityStatus::Unavailable
                && after.receipt.deep_view().reason_code == Some("provider_evidence_inconsistent"@)
        }),
{
}

/// Evidence that failed to join the graph is what the language publishes: partial, under
/// the provider's own version, scope and input.
pub proof fn law_failed_join_is_published_as_partial(
    before: PublicationReadySemanticEvidence,
    graph: KnowledgeGraph,
    detail: String,
    after: PublicationReadySemanticEvidence,
    stats: CallsGraphProjectionStats,
    root: bool,
    configured: bool,
)
    requires
        projects_calls(before),
        is_projection(before, graph, Err(detail), after, graph, stats),
    ensures
        ({
            let language = before.language_id.0@;
            let published = selected_receipt(
                ScipMode::Refresh,
                language,
                root,
                configured,
                seq![after],
            );
            &&& published.status == CapabilityStatus::Partial
            &&& published.reason_code == Some("provider_structural_join_incomplete"@)
            &&& published.provider == before.receipt.deep_view().provider
            &&& published.version == before.receipt.deep_view().version
            &&& published.scope == before.receipt.deep_view().scope
            &&& published.fingerprint == before.receipt.deep_view().fingerprint
        }),
{
    assert(identity_matches(before.language_id.0@, after));
    assert(after.receipt.deep_view().status == after.receipt.status);
}

/// Liveness evidence is withdrawn exactly if its payload did not join the graph; it is then
/// at most partial, under its own provider, version, scope and input. Everything else stays
/// as it is.
pub proof fn law_liveness_join_is_exact(
    before: PublicationReadySemanticEvidence,
    join: Result<(), String>,
    after: PublicationReadySemanticEvidence,
)
    requires
        is_joined_liveness(before, join, after),
    ensures
        ({
            let liveness = before.payload is Some && before.payload->0.payload is CallableLiveness;
            &&& !liveness || join is Ok ==> after == before
            &&& liveness && join is Err ==> after.payload is None && after.language_id
                == before.language_id && after.receipt.deep_view().status
                == CapabilityStatus::Partial && after.receipt.deep_view().reason_code == Some(
                "provider_structural_join_incomplete"@,
            ) && after.receipt.deep_view().capability == before.receipt.deep_view().capability
                && after.receipt.deep_view().provider == before.receipt.deep_view().provider
                && after.receipt.deep_view().version == before.receipt.deep_view().version
                && after.receipt.deep_view().scope == before.receipt.deep_view().scope
                && after.receipt.deep_view().fingerprint == before.receipt.deep_view().fingerprint
        }),
{
}

/// The words of a failed join hold the failure's own words, whole or cut to their first
/// 384 characters and marked.
pub proof fn law_join_words_are_bounded(capability: Seq<char>, detail: Seq<char>)
    ensures
        detail.len() <= 384 ==> join_reason(capability, detail) == "normalized "@ + capability
            + " evidence could not join the co-published structural graph: "@ + detail,
        detail.len() > 384 ==> join_reason(capability, detail) == "normalized "@ + capability
            + " evidence could not join the co-published structural graph: "@ + detail.take(
            384,
        ).push('…'),
{
}

/// Withdrawn evidence says what was wrong with it: a payload that could not be sealed, with the
/// complaint; a complete payload that embeds another receipt; or a receipt and a payload of which
/// only one claims to be complete. The time of sealing is counted where a seal was kept, and
/// nowhere else.
pub proof fn law_withdrawn_evidence_says_why(
    evidence: ScipArtifactEvidence,
    sealed: Result<(CanonicalProviderPayload, ProviderPayloadCanonicalizationTimings), String>,
)
    ensures
        ({
            let before = evidence.receipt.deep_view();
            let after = sealed_receipt(evidence, sealed);
            let time = sealing_timings(evidence, sealed);
            let complete = before.status == CapabilityStatus::Complete;
            let present = evidence.payload is Some;
            let agrees = present && evidence.payload->0.deep_view().receipt() == before;
            &&& complete && agrees && sealed is Err ==> after.reason == Some(
                "normalized provider payload could not be sealed: "@ + sealed->Err_0@,
            )
            &&& complete && present && !agrees ==> after.reason == Some(
                "normalized provider payload embeds a different capability receipt"@,
            )
            &&& complete != present ==> after.reason == Some(
                "semantic normalization returned an inconsistent receipt and payload pair"@,
            )
            &&& complete && agrees && sealed is Ok ==> sealed->Ok_0 == (sealed->Ok_0.0, time)
            &&& !(complete && agrees && sealed is Ok) ==> time.serialization.nanos == 0
                && time.descriptor.nanos == 0
        }),
{
}

} // verus!
