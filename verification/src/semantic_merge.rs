//! Merging what the semantic providers found into the candidate graph.
//!
//! Lanes and artifacts become normalizations; each normalization is sealed, projected
//! onto the graph and, where it is trusted, merged with its snapshot.

use vstd::prelude::*;

use crate::calls_evidence;
use crate::calls_evidence::{
    enforce_and_project_calls_structural_join, enforce_callable_liveness_structural_join,
    seal_scip_artifact_evidence, CallsGraphProjectionStats,
    ProviderPayloadCanonicalizationTimings,
};
use crate::domain::{CapabilityStatus, ProjectInput};
use crate::duration;
use crate::duration::Duration;
use crate::graph::KnowledgeGraph;
use crate::index_timing;
use crate::index_timing::{
    exclusive, push_row, semantic_normalizer_components, IndexPhaseTiming, IndexProgressPhase,
    IndexTimingAggregation, ScipNormalizationTimings, TimingModel,
};
use crate::ordered::StringMap;
use crate::path_order;
use crate::path_sorting;
use crate::path_sorting::positions_by_path;
use crate::payload::{
    AuthorityModel, CallsPayloadModel, CallsProviderPayload, CanonicalProviderPayload, EvidenceModel, PayloadModel,
    ProviderExecutionAuthority, ProviderPayload, ProviderSemanticInputs,
    PublicationReadySemanticEvidence, ScipArtifactEvidence, SemanticInputsModel,
};
use crate::provider_activity::{
    LaneCancelled, PersistentSemanticProviderLaneOutcome, SemanticProviderActivityTelemetry,
};
use crate::provider_run::{
    ArtifactModel, GeneratedProviderArtifact, GeneratedScipArtifact, ScipProviderSpec,
};
use crate::semantic_basis::{
    CanonicalScipSnapshot, CanonicalSemanticBasis, CanonicalSourceSyntaxCache,
};
use crate::text;
use crate::values;
use crate::values::Value;

verus! {

/// What the lanes of the persistent providers left together.
#[derive(Debug)]
pub struct MergedLanes<N> {
    pub persistent: Vec<N>,
    pub reused: Vec<N>,
    pub failures: Vec<ScipArtifactEvidence>,
    pub refreshes: Vec<SemanticProviderActivityTelemetry>,
    pub phase_timings: Vec<IndexPhaseTiming>,
}

/// The normalizations of lanes, reused or not, in lane order.
pub open spec fn lane_normalizations<N>(
    outcomes: Seq<Result<PersistentSemanticProviderLaneOutcome<N>, LaneCancelled>>,
    reused: bool,
) -> Seq<N>
    decreases outcomes.len(),
{
    if outcomes.len() == 0 {
        seq![]
    } else {
        let before = lane_normalizations(outcomes.drop_last(), reused);
        match outcomes.last() {
            Ok(outcome) => match outcome.normalization {
                Some(normalization) => if outcome.reused == reused {
                    before.push(normalization)
                } else {
                    before
                },
                None => before,
            },
            Err(_) => before,
        }
    }
}

/// The failures of lanes, in lane order.
pub open spec fn lane_failures<N>(
    outcomes: Seq<Result<PersistentSemanticProviderLaneOutcome<N>, LaneCancelled>>,
) -> Seq<ScipArtifactEvidence>
    decreases outcomes.len(),
{
    if outcomes.len() == 0 {
        seq![]
    } else {
        let before = lane_failures(outcomes.drop_last());
        match outcomes.last() {
            Ok(outcome) => match outcome.failure {
                Some(failure) => before.push(failure),
                None => before,
            },
            Err(_) => before,
        }
    }
}

/// The activities of lanes, in lane order.
pub open spec fn lane_refreshes<N>(
    outcomes: Seq<Result<PersistentSemanticProviderLaneOutcome<N>, LaneCancelled>>,
) -> Seq<SemanticProviderActivityTelemetry>
    decreases outcomes.len(),
{
    if outcomes.len() == 0 {
        seq![]
    } else {
        let before = lane_refreshes(outcomes.drop_last());
        match outcomes.last() {
            Ok(outcome) => before + outcome.refreshes@,
            Err(_) => before,
        }
    }
}

/// The timings of lanes, in lane order.
pub open spec fn lane_timings<N>(
    outcomes: Seq<Result<PersistentSemanticProviderLaneOutcome<N>, LaneCancelled>>,
) -> Seq<IndexPhaseTiming>
    decreases outcomes.len(),
{
    if outcomes.len() == 0 {
        seq![]
    } else {
        let before = lane_timings(outcomes.drop_last());
        match outcomes.last() {
            Ok(outcome) => before + outcome.phase_timings@,
            Err(_) => before,
        }
    }
}

/// Some lane was cancelled.
pub open spec fn any_cancelled<N>(
    outcomes: Seq<Result<PersistentSemanticProviderLaneOutcome<N>, LaneCancelled>>,
) -> bool {
    exists|i: int| 0 <= i < outcomes.len() && (#[trigger] outcomes[i]) is Err
}

/// Merges the lanes in their order. One cancelled lane cancels all.
pub fn merge_lane_outcomes<N>(
    outcomes: Vec<Result<PersistentSemanticProviderLaneOutcome<N>, LaneCancelled>>,
) -> (r: Result<MergedLanes<N>, LaneCancelled>)
    ensures
        match r {
            Ok(merged) => {
                &&& !any_cancelled(outcomes@)
                &&& merged.persistent@ == lane_normalizations(outcomes@, false)
                &&& merged.reused@ == lane_normalizations(outcomes@, true)
                &&& merged.failures@ == lane_failures(outcomes@)
                &&& merged.refreshes@ == lane_refreshes(outcomes@)
                &&& merged.phase_timings@ == lane_timings(outcomes@)
            },
            Err(_) => any_cancelled(outcomes@),
        },
{
    let ghost all = outcomes@;
    let mut merged: MergedLanes<N> = MergedLanes {
        persistent: Vec::new(),
        reused: Vec::new(),
        failures: Vec::new(),
        refreshes: Vec::new(),
        phase_timings: Vec::new(),
    };
    for item in it: outcomes.into_iter()
        invariant
            it.seq() == all,
            all == outcomes@,
            forall|j: int| 0 <= j < it.index() ==> (#[trigger] all[j]) is Ok,
            merged.persistent@ == lane_normalizations(all.take(it.index() as int), false),
            merged.reused@ == lane_normalizations(all.take(it.index() as int), true),
            merged.failures@ == lane_failures(all.take(it.index() as int)),
            merged.refreshes@ == lane_refreshes(all.take(it.index() as int)),
            merged.phase_timings@ == lane_timings(all.take(it.index() as int)),
    {
        let ghost i = it.index() as int;
        assert(all.take(i + 1).drop_last() =~= all.take(i));
        assert(all[i] == item);
        match item {
            Ok(outcome) => {
                let mut refreshes = outcome.refreshes;
                let mut phase_timings = outcome.phase_timings;
                merged.refreshes.append(&mut refreshes);
                merged.phase_timings.append(&mut phase_timings);
                if let Some(normalization) = outcome.normalization {
                    if outcome.reused {
                        merged.reused.push(normalization);
                    } else {
                        merged.persistent.push(normalization);
                    }
                }
                if let Some(failure) = outcome.failure {
                    merged.failures.push(failure);
                }
            },
            Err(cancelled) => {
                return Err(cancelled);
            },
        }
    }
    assert(all.take(all.len() as int) =~= all);
    Ok(merged)
}

/// What normalizing a provider's documents gave.
#[derive(Debug)]
pub struct ScipArtifactSetNormalization {
    pub evidence: ScipArtifactEvidence,
    pub supplemental_evidence: Vec<ScipArtifactEvidence>,
    pub canonical_snapshot: Option<CanonicalScipSnapshot>,
    pub source_syntax_cache: Option<CanonicalSourceSyntaxCache>,
    pub timings: ScipNormalizationTimings,
}

/// No time, on no document.
pub open spec fn no_normalization() -> ScipNormalizationTimings {
    ScipNormalizationTimings {
        total: Duration { nanos: 0 },
        setup: Duration { nanos: 0 },
        source_validation: Duration { nanos: 0 },
        coverage_exclusion_setup: Duration { nanos: 0 },
        occurrence_indexing: Duration { nanos: 0 },
        definition_collection: Duration { nanos: 0 },
        definition_canonicalization: Duration { nanos: 0 },
        binding_and_lookup_indexing: Duration { nanos: 0 },
        call_resolution: Duration { nanos: 0 },
        coverage_validation: Duration { nanos: 0 },
        payload_finalization: Duration { nanos: 0 },
        source_documents: 0,
        syntax_cache_hits: 0,
        provider_documents: 0,
        provider_document_cache_hits: 0,
        definition_document_cache_hits: 0,
        definition_groups: 0,
        definition_group_reuse_hits: 0,
        call_documents: 0,
        call_document_reuse_hits: 0,
    }
}

/// A retained basis, taken over as it is.
pub fn reused_normalization(basis: CanonicalSemanticBasis) -> (r: ScipArtifactSetNormalization)
    ensures
        r.evidence == basis.evidence,
        r.supplemental_evidence == basis.supplemental_evidence,
        r.canonical_snapshot == Some(basis.snapshot),
        r.source_syntax_cache == basis.source_syntax_cache,
        r.timings == no_normalization(),
{
    let zero = Duration::zero();
    ScipArtifactSetNormalization {
        evidence: basis.evidence,
        supplemental_evidence: basis.supplemental_evidence,
        canonical_snapshot: Some(basis.snapshot),
        source_syntax_cache: basis.source_syntax_cache,
        timings: ScipNormalizationTimings {
            total: zero,
            setup: zero,
            source_validation: zero,
            coverage_exclusion_setup: zero,
            occurrence_indexing: zero,
            definition_collection: zero,
            definition_canonicalization: zero,
            binding_and_lookup_indexing: zero,
            call_resolution: zero,
            coverage_validation: zero,
            payload_finalization: zero,
            source_documents: 0,
            syntax_cache_hits: 0,
            provider_documents: 0,
            provider_document_cache_hits: 0,
            definition_document_cache_hits: 0,
            definition_groups: 0,
            definition_group_reuse_hits: 0,
            call_documents: 0,
            call_document_reuse_hits: 0,
        },
    }
}

/// Some input of this language has this path.
pub open spec fn has_input(inputs: Seq<ProjectInput>, language: Seq<char>, path: Seq<char>) -> bool {
    exists|i: int|
        0 <= i < inputs.len() && (#[trigger] inputs[i]).language_id.0@ == language
            && inputs[i].path@ == path
}

/// The paths of a language's project inputs.
pub fn semantic_input_paths(inputs: &Vec<ProjectInput>, language: &str) -> (r: StringMap<()>)
    ensures
        forall|path: Seq<char>| #[trigger]
            r@.dom().contains(path) <==> has_input(inputs@, language@, path),
{
    let mut r: StringMap<()> = StringMap::new();
    for i in 0..inputs.len()
        invariant
            forall|path: Seq<char>| #[trigger]
                r@.dom().contains(path) <==> has_input(inputs@.take(i as int), language@, path),
    {
        let ghost before = r@.dom();
        let ghost done = inputs@.take(i as int);
        let ghost next = inputs@.take(i + 1);
        if text::same(inputs[i].language_id.0.as_str(), language) {
            r.insert(inputs[i].path.clone(), ());
        }
        assert forall|path: Seq<char>| #[trigger] r@.dom().contains(path) <==> has_input(
            next,
            language@,
            path,
        ) by {
            if has_input(done, language@, path) {
                let k = choose|k: int|
                    0 <= k < done.len() && (#[trigger] done[k]).language_id.0@ == language@
                        && done[k].path@ == path;
                assert(next[k] == done[k]);
            }
            if has_input(next, language@, path) {
                let k = choose|k: int|
                    0 <= k < next.len() && (#[trigger] next[k]).language_id.0@ == language@
                        && next[k].path@ == path;
                if k < i {
                    assert(done[k] == next[k]);
                }
            }
            assert(next[i as int] == inputs@[i as int]);
        }
    }
    assert(inputs@.take(inputs@.len() as int) =~= inputs@);
    r
}

/// The authority that Go evidence is bound to: the toolchains', where they are known and
/// nothing from outside the repository entered, else the payload's own.
pub open spec fn go_authority(
    authority: Option<AuthorityModel>,
    bounded: bool,
    own: AuthorityModel,
) -> AuthorityModel {
    match authority {
        Some(authority) => if bounded {
            authority
        } else {
            own
        },
        None => own,
    }
}

/// The evidence with its semantic inputs and authority in place.
pub open spec fn bound_evidence(
    evidence: EvidenceModel,
    inputs: SemanticInputsModel,
    authority: Option<AuthorityModel>,
    bounded: bool,
) -> EvidenceModel {
    match evidence.payload {
        Some(PayloadModel::Calls(calls)) => EvidenceModel {
            payload: Some(
                PayloadModel::Calls(
                    CallsPayloadModel {
                        inputs,
                        authority: go_authority(authority, bounded, calls.authority),
                        ..calls
                    },
                ),
            ),
            ..evidence
        },
        _ => evidence,
    }
}

/// Binds Go evidence to the inputs that it was made from and to an authority.
/// `bounded` says that no document reached outside the repository, and `validation` what
/// validating the binding gave. Evidence without calls, or without captured inputs, stays
/// as it is.
pub fn bind_go_authority(
    evidence: ScipArtifactEvidence,
    inputs: &Option<ProviderSemanticInputs>,
    authority: &Option<ProviderExecutionAuthority>,
    bounded: bool,
    validation: Result<(), String>,
) -> (r: Result<ScipArtifactEvidence, String>)
    ensures
        match *inputs {
            Some(inputs) if evidence.payload.deep_view() is Some
                && evidence.payload.deep_view()->0 is Calls => match validation {
                Ok(()) => r is Ok && r->Ok_0.deep_view() == bound_evidence(
                    evidence.deep_view(),
                    inputs.deep_view(),
                    authority.deep_view(),
                    bounded,
                ),
                Err(error) => r is Err && r->Err_0@
                    == "normalized Go execution authority is invalid: "@ + error@,
            },
            _ => r == Ok::<ScipArtifactEvidence, String>(evidence),
        },
{
    let captured = match inputs {
        Some(captured) => captured,
        None => {
            return Ok(evidence);
        },
    };
    let is_calls = match &evidence.payload {
        Some(payload) => payload.is_calls(),
        None => false,
    };
    if !is_calls {
        return Ok(evidence);
    }
    if let Err(error) = validation {
        let mut message = "normalized Go execution authority is invalid: ".to_owned();
        message.append(error.as_str());
        return Err(message);
    }
    let ghost before = evidence.deep_view();
    match evidence.payload {
        Some(ProviderPayload::Calls(calls)) => {
            let execution_authority = match authority {
                Some(authority) => if bounded {
                    authority.copy()
                } else {
                    calls.execution_authority
                },
                None => calls.execution_authority,
            };
            Ok(
                ScipArtifactEvidence {
                    language_id: evidence.language_id,
                    receipt: evidence.receipt,
                    payload: Some(
                        ProviderPayload::Calls(
                            CallsProviderPayload {
                                receipt: calls.receipt,
                                documents: calls.documents,
                                coverage_exclusions: calls.coverage_exclusions,
                                semantic_inputs: captured.copy(),
                                execution_authority,
                            },
                        ),
                    ),
                },
            )
        },
        payload => Ok(
            ScipArtifactEvidence {
                language_id: evidence.language_id,
                receipt: evidence.receipt,
                payload,
            },
        ),
    }
}

/// Evidence from outside the repository never carries the toolchains' authority.
pub proof fn law_unbounded_evidence_keeps_its_own_authority(
    authority: Option<AuthorityModel>,
    own: AuthorityModel,
)
    ensures
        go_authority(authority, false, own) == own,
        go_authority(None, true, own) == own,
{
}

/// The artifacts of one provider, in order.
pub open spec fn artifacts_of(generated: Seq<ArtifactModel>, spec: ScipProviderSpec) -> Seq<
    ArtifactModel,
>
    decreases generated.len(),
{
    if generated.len() == 0 {
        seq![]
    } else {
        let before = artifacts_of(generated.drop_last(), spec);
        if generated.last().spec == spec {
            before.push(generated.last())
        } else {
            before
        }
    }
}

/// The execution roots of artifacts.
pub open spec fn roots_of(artifacts: Seq<ArtifactModel>) -> Seq<Seq<char>> {
    artifacts.map_values(|artifact: ArtifactModel| artifact.root)
}

/// The artifacts by execution root.
pub open spec fn by_root(artifacts: Seq<ArtifactModel>) -> Seq<ArtifactModel> {
    path_sorting::path_sorted(roots_of(artifacts), artifacts.len()).map_values(
        |k: usize| artifacts[k as int],
    )
}

fn copy_artifact(artifact: &GeneratedProviderArtifact) -> (r: GeneratedProviderArtifact)
    ensures
        r.deep_view() == artifact.deep_view(),
{
    GeneratedProviderArtifact {
        artifact: GeneratedScipArtifact {
            path: artifact.artifact.path.clone(),
            provider_version: artifact.artifact.provider_version.clone(),
        },
        spec: artifact.spec,
        execution_root: artifact.execution_root.clone(),
        provider_configuration_sha256: artifact.provider_configuration_sha256.clone(),
    }
}

/// The artifacts of one provider.
pub fn provider_artifacts(generated: &Vec<GeneratedProviderArtifact>, spec: ScipProviderSpec) -> (r:
    Vec<GeneratedProviderArtifact>)
    ensures
        r.deep_view() == artifacts_of(generated.deep_view(), spec),
{
    let ghost all = generated.deep_view();
    let mut r: Vec<GeneratedProviderArtifact> = Vec::new();
    assert(r.deep_view() =~= artifacts_of(all.take(0), spec));
    for i in 0..generated.len()
        invariant
            all == generated.deep_view(),
            r.deep_view() == artifacts_of(all.take(i as int), spec),
    {
        let ghost before = r;
        assert(all.take(i + 1).drop_last() =~= all.take(i as int));
        assert(all[i as int] == generated@[i as int].deep_view());
        if generated[i].spec == spec {
            let copied = copy_artifact(&generated[i]);
            r.push(copied);
            proof {
                values::lemma_push(before, r, copied);
            }
        }
    }
    assert(all.take(all.len() as int) =~= all);
    r
}

/// The Go artifacts that replace their roots in a retained basis, by root.
pub fn affected_go_artifacts(generated: &Vec<GeneratedProviderArtifact>) -> (r: Vec<
    GeneratedProviderArtifact,
>)
    ensures
        r.deep_view() == by_root(artifacts_of(generated.deep_view(), ScipProviderSpec::ScipGo)),
{
    let artifacts = provider_artifacts(generated, ScipProviderSpec::ScipGo);
    let ghost all = artifacts.deep_view();
    let mut roots: Vec<String> = Vec::new();
    for i in 0..artifacts.len()
        invariant
            all == artifacts.deep_view(),
            roots@.len() == i,
            forall|j: int| 0 <= j < i ==> (#[trigger] roots@[j])@ == all[j].root,
    {
        assert(all[i as int] == artifacts@[i as int].deep_view());
        roots.push(artifacts[i].execution_root.clone());
    }
    assert(roots.deep_view() =~= roots_of(all));
    let order = positions_by_path(&roots);
    let mut r: Vec<GeneratedProviderArtifact> = Vec::new();
    for i in 0..order.len()
        invariant
            all == artifacts.deep_view(),
            forall|j: int| 0 <= j < order@.len() ==> #[trigger] order@[j] < artifacts@.len(),
            r@.len() == i,
            forall|j: int|
                0 <= j < i ==> (#[trigger] r@[j]).deep_view() == all[order@[j] as int],
    {
        assert(all[order@[i as int] as int] == artifacts@[order@[i as int] as int].deep_view());
        r.push(copy_artifact(&artifacts[order[i]]));
    }
    assert(r.deep_view() =~= by_root(all));
    r
}

/// Where a normalization came from.
#[derive(Debug, Clone, Copy, PartialEq, Eq, Structural)]
pub enum NormalizationOrigin {
    Persistent,
    RetainedExact,
    AffectedRoots,
    Artifacts,
}

/// How a normalization is named in timings.
pub open spec fn normalization_label(language: Seq<char>, origin: NormalizationOrigin) -> Seq<char> {
    match origin {
        NormalizationOrigin::Persistent => language + " persistent"@,
        NormalizationOrigin::RetainedExact => language + " retained exact"@,
        NormalizationOrigin::AffectedRoots => language + " affected-root"@,
        NormalizationOrigin::Artifacts => language,
    }
}

/// Names a normalization.
pub fn label_normalization(language: &str, origin: NormalizationOrigin) -> (r: String)
    ensures
        r@ == normalization_label(language@, origin),
{
    let mut label = language.to_owned();
    match origin {
        NormalizationOrigin::Persistent => label.append(" persistent"),
        NormalizationOrigin::RetainedExact => label.append(" retained exact"),
        NormalizationOrigin::AffectedRoots => label.append(" affected-root"),
        NormalizationOrigin::Artifacts => {},
    }
    label
}

/// The row of composing artifacts and binding their authority: what normalizing left of
/// the time.
pub open spec fn composition_row(
    language: Seq<char>,
    origin: NormalizationOrigin,
    elapsed: Duration,
    normalization: Duration,
) -> TimingModel {
    index_timing::exclusive_row(
        IndexProgressPhase::SemanticProvider,
        language + (if origin == NormalizationOrigin::AffectedRoots {
            " affected-root composition and authority binding"@
        } else {
            " artifact composition and authority binding"@
        }),
        index_timing::less(elapsed, normalization.nanos as int),
    )
}

/// Makes the row of composing artifacts and binding their authority.
pub fn composition_timing(
    language: &str,
    origin: NormalizationOrigin,
    elapsed: Duration,
    normalization: Duration,
) -> (r: IndexPhaseTiming)
    ensures
        r.deep_view() == composition_row(language@, origin, elapsed, normalization),
{
    let mut label = language.to_owned();
    if origin == NormalizationOrigin::AffectedRoots {
        label.append(" affected-root composition and authority binding");
    } else {
        label.append(" artifact composition and authority binding");
    }
    exclusive(
        IndexProgressPhase::SemanticProvider,
        label.as_str(),
        elapsed.saturating_sub(normalization),
    )
}

/// What merging documents into the graph did.
#[derive(Debug, Clone, Copy, PartialEq, Eq, Structural)]
pub struct ScipStats {
    pub novel_edges: usize,
    pub merged_with_existing: usize,
}

/// A normalization whose evidence is complete and sealed: its snapshot may be merged.
#[derive(Debug)]
pub struct TrustedNormalization {
    label: String,
}

impl TrustedNormalization {
    pub closed spec fn label(&self) -> Seq<char> {
        self.label@
    }
}

/// The merge so far.
#[derive(Debug)]
pub struct SemanticMerge {
    pub graph: KnowledgeGraph,
    pub stats: ScipStats,
    /// Some snapshot was merged.
    pub any_loaded: bool,
    pub last_error: Option<String>,
    pub evidence: Vec<PublicationReadySemanticEvidence>,
    pub snapshots: Vec<(CanonicalScipSnapshot, Option<CanonicalSourceSyntaxCache>)>,
    pub timings: Vec<IndexPhaseTiming>,
    pub canonicalization: ProviderPayloadCanonicalizationTimings,
}

/// The times can be added.
pub open spec fn addable(
    a: ProviderPayloadCanonicalizationTimings,
    b: ProviderPayloadCanonicalizationTimings,
) -> bool {
    &&& a.normalization.nanos + b.normalization.nanos <= duration::MAX_NANOS
    &&& a.serialization.nanos + b.serialization.nanos <= duration::MAX_NANOS
    &&& a.descriptor.nanos + b.descriptor.nanos <= duration::MAX_NANOS
}

/// The times together.
pub open spec fn added(
    a: ProviderPayloadCanonicalizationTimings,
    b: ProviderPayloadCanonicalizationTimings,
) -> ProviderPayloadCanonicalizationTimings {
    ProviderPayloadCanonicalizationTimings {
        normalization: Duration { nanos: (a.normalization.nanos + b.normalization.nanos) as u128 },
        serialization: Duration { nanos: (a.serialization.nanos + b.serialization.nanos) as u128 },
        descriptor: Duration { nanos: (a.descriptor.nanos + b.descriptor.nanos) as u128 },
    }
}

/// What is said where complete evidence has no snapshot.
pub const MISSING_SNAPSHOT: &'static str =
    "complete normalized evidence did not retain its admitted canonical SCIP snapshot";

impl SemanticMerge {
    /// Nothing merged yet.
    pub fn new(graph: KnowledgeGraph) -> (r: Self)
        ensures
            r.graph == graph,
            r.stats == (ScipStats { novel_edges: 0, merged_with_existing: 0 }),
            !r.any_loaded,
            r.last_error is None,
            r.evidence@.len() == 0,
            r.snapshots@.len() == 0,
            r.timings@.len() == 0,
            r.canonicalization == calls_evidence::no_timings(),
    {
        SemanticMerge {
            graph,
            stats: ScipStats { novel_edges: 0, merged_with_existing: 0 },
            any_loaded: false,
            last_error: None,
            evidence: Vec::new(),
            snapshots: Vec::new(),
            timings: Vec::new(),
            canonicalization: ProviderPayloadCanonicalizationTimings::none(),
        }
    }

    /// Adds the rows of a normalizer that looked at documents.
    pub fn record_components(&mut self, label: &str, timings: ScipNormalizationTimings)
        ensures
            final(self).timings.deep_view() == if timings.source_documents > 0 {
                old(self).timings.deep_view() + index_timing::normalizer_rows(label@, timings)
            } else {
                old(self).timings.deep_view()
            },
            *final(self) == (SemanticMerge { timings: final(self).timings, ..*old(self) }),
    {
        if timings.source_documents > 0 {
            let ghost before = self.timings.deep_view();
            let mut rows = semantic_normalizer_components(label, timings);
            let ghost added = rows.deep_view();
            self.timings.append(&mut rows);
            assert(self.timings.deep_view() =~= before + added);
        }
    }

    /// Adds a row.
    pub fn record(&mut self, row: IndexPhaseTiming)
        ensures
            final(self).timings.deep_view() == old(self).timings.deep_view().push(row.deep_view()),
            *final(self) == (SemanticMerge { timings: final(self).timings, ..*old(self) }),
    {
        push_row(&mut self.timings, row);
    }

    /// Seals evidence. `sealed` is what sealing its payload gave.
    pub fn seal(
        &mut self,
        evidence: ScipArtifactEvidence,
        sealed: Result<(CanonicalProviderPayload, ProviderPayloadCanonicalizationTimings), String>,
    ) -> (r: PublicationReadySemanticEvidence)
        requires
            addable(
                old(self).canonicalization,
                calls_evidence::sealing_timings(evidence, sealed),
            ),
        ensures
            calls_evidence::is_sealed(evidence, sealed, r),
            *final(self) == (SemanticMerge {
                canonicalization: added(
                    old(self).canonicalization,
                    calls_evidence::sealing_timings(evidence, sealed),
                ),
                ..*old(self)
            }),
    {
        let (ready, timings) = seal_scip_artifact_evidence(evidence, sealed);
        let so_far = self.canonicalization;
        self.canonicalization = ProviderPayloadCanonicalizationTimings {
            normalization: so_far.normalization.saturating_add(timings.normalization),
            serialization: so_far.serialization.saturating_add(timings.serialization),
            descriptor: so_far.descriptor.saturating_add(timings.descriptor),
        };
        ready
    }

    /// Projects sealed evidence onto the graph. What is left complete and sealed is
    /// trusted with its snapshot.
    pub fn project_calls(
        &mut self,
        label: &str,
        evidence: PublicationReadySemanticEvidence,
        projection: Result<(KnowledgeGraph, CallsGraphProjectionStats), String>,
        elapsed: Duration,
    ) -> (r: Option<TrustedNormalization>)
        requires
            projection matches Ok((_, stats)) ==> old(self).stats.novel_edges + stats.novel_edges
                <= usize::MAX,
        ensures
            final(self).evidence@.len() == old(self).evidence@.len() + 1,
            final(self).evidence@.drop_last() == old(self).evidence@,
            final(self).stats.novel_edges >= old(self).stats.novel_edges,
            final(self).stats.merged_with_existing == old(self).stats.merged_with_existing,
            calls_evidence::is_projection(
                evidence,
                old(self).graph,
                projection,
                final(self).evidence@.last(),
                final(self).graph,
                (CallsGraphProjectionStats {
                    novel_edges: (final(self).stats.novel_edges
                        - old(self).stats.novel_edges) as usize,
                }),
            ),
            final(self).timings.deep_view() == old(self).timings.deep_view().push(
                index_timing::exclusive_row(
                    IndexProgressPhase::SemanticProvider,
                    label@ + " normalized Calls projection"@,
                    elapsed,
                ),
            ),
            *final(self) == (SemanticMerge {
                graph: final(self).graph,
                stats: final(self).stats,
                evidence: final(self).evidence,
                timings: final(self).timings,
                ..*old(self)
            }),
            r is Some <==> final(self).evidence@.last().receipt.status == CapabilityStatus::Complete
                && final(self).evidence@.last().payload is Some,
            r is Some ==> r->0.label() == label@,
    {
        let mut evidence = evidence;
        let mut graph = KnowledgeGraph::new();
        std::mem::swap(&mut graph, &mut self.graph);
        let stats = enforce_and_project_calls_structural_join(
            &mut graph,
            &mut evidence,
            projection,
        );
        self.graph = graph;
        let mut words = label.to_owned();
        words.append(" normalized Calls projection");
        push_row(
            &mut self.timings,
            exclusive(IndexProgressPhase::SemanticProvider, words.as_str(), elapsed),
        );
        self.stats = ScipStats {
            novel_edges: self.stats.novel_edges + stats.novel_edges,
            merged_with_existing: self.stats.merged_with_existing,
        };
        let trusted = match (&evidence.receipt.status, &evidence.payload) {
            (CapabilityStatus::Complete, Some(_)) => true,
            _ => false,
        };
        let ghost before = self.evidence@;
        self.evidence.push(evidence);
        assert(self.evidence@.drop_last() =~= before);
        if trusted {
            Some(TrustedNormalization { label: label.to_owned() })
        } else {
            None
        }
    }

    /// Takes in sealed evidence beside calls. `join` is what validating it against the
    /// graph gave.
    pub fn supplement(
        &mut self,
        trusted: &TrustedNormalization,
        evidence: PublicationReadySemanticEvidence,
        join: Result<(), String>,
    )
        ensures
            final(self).evidence@.len() == old(self).evidence@.len() + 1,
            final(self).evidence@.drop_last() == old(self).evidence@,
            calls_evidence::is_joined_liveness(evidence, join, final(self).evidence@.last()),
            *final(self) == (SemanticMerge { evidence: final(self).evidence, ..*old(self) }),
    {
        let mut evidence = evidence;
        enforce_callable_liveness_structural_join(&mut evidence, join);
        let ghost before = self.evidence@;
        self.evidence.push(evidence);
        assert(self.evidence@.drop_last() =~= before);
    }

    /// Merges the snapshot of trusted evidence. `loaded` is the graph after the merge and
    /// what the merge did, or why it failed. A missing snapshot is an error that leaves
    /// the graph as it is.
    pub fn merge_residual(
        &mut self,
        trusted: TrustedNormalization,
        snapshot: Option<CanonicalScipSnapshot>,
        cache: Option<CanonicalSourceSyntaxCache>,
        loaded: (KnowledgeGraph, Result<ScipStats, String>),
        elapsed: Duration,
    )
        requires
            loaded.1 matches Ok(stats) ==> old(self).stats.novel_edges + stats.novel_edges
                <= usize::MAX && old(self).stats.merged_with_existing + stats.merged_with_existing
                <= usize::MAX,
        ensures
            snapshot is None ==> final(self).last_error.deep_view() == Some(MISSING_SNAPSHOT@)
                && *final(self) == (SemanticMerge {
                last_error: final(self).last_error,
                ..*old(self)
            }),
            snapshot matches Some(snapshot) ==> {
                &&& final(self).snapshots@ == old(self).snapshots@.push((snapshot, cache))
                &&& final(self).timings.deep_view() == old(self).timings.deep_view().push(
                    index_timing::exclusive_row(
                        IndexProgressPhase::SemanticProvider,
                        trusted.label() + " residual SCIP projection"@,
                        elapsed,
                    ),
                )
                &&& *final(self) == (SemanticMerge {
                    graph: loaded.0,
                    stats: match loaded.1 {
                        Ok(stats) => ScipStats {
                            novel_edges: (old(self).stats.novel_edges
                                + stats.novel_edges) as usize,
                            merged_with_existing: (old(self).stats.merged_with_existing
                                + stats.merged_with_existing) as usize,
                        },
                        Err(_) => old(self).stats,
                    },
                    any_loaded: old(self).any_loaded || loaded.1 is Ok,
                    last_error: match loaded.1 {
                        Ok(_) => old(self).last_error,
                        Err(error) => Some(error),
                    },
                    snapshots: final(self).snapshots,
                    timings: final(self).timings,
                    ..*old(self)
                })
            },
    {
        let snapshot = match snapshot {
            Some(snapshot) => snapshot,
            None => {
                self.last_error = Some(MISSING_SNAPSHOT.to_owned());
                return;
            },
        };
        let (graph, result) = loaded;
        self.graph = graph;
        match result {
            Ok(stats) => {
                self.any_loaded = true;
                self.stats = ScipStats {
                    novel_edges: self.stats.novel_edges + stats.novel_edges,
                    merged_with_existing: self.stats.merged_with_existing
                        + stats.merged_with_existing,
                };
            },
            Err(error) => {
                self.last_error = Some(error);
            },
        }
        self.snapshots.push((snapshot, cache));
        let mut words = trusted.label;
        words.append(" residual SCIP projection");
        push_row(
            &mut self.timings,
            exclusive(IndexProgressPhase::SemanticProvider, words.as_str(), elapsed),
        );
    }
}

/// Evidence that lost its payload left the graph as it was.
pub proof fn law_withdrawn_evidence_leaves_the_graph(
    before: PublicationReadySemanticEvidence,
    graph: KnowledgeGraph,
    projection: Result<(KnowledgeGraph, CallsGraphProjectionStats), String>,
    after: PublicationReadySemanticEvidence,
    joined: KnowledgeGraph,
    stats: CallsGraphProjectionStats,
)
    requires
        calls_evidence::is_projection(before, graph, projection, after, joined, stats),
        after.payload is None,
    ensures
        joined == graph,
        stats.novel_edges == 0,
{
}

/// Evidence without a payload as it is published: complete evidence without one is
/// inconsistent.
pub open spec fn is_bare_evidence(
    evidence: ScipArtifactEvidence,
    ready: PublicationReadySemanticEvidence,
) -> bool {
    &&& ready.language_id == evidence.language_id
    &&& ready.payload is None
    &&& ready.receipt.deep_view() == if evidence.receipt.status == CapabilityStatus::Complete {
        evidence.receipt.deep_view().withdrawn(
            CapabilityStatus::Unavailable,
            "provider_evidence_inconsistent"@,
            "semantic normalization returned an inconsistent receipt and payload pair"@,
        )
    } else {
        evidence.receipt.deep_view()
    }
}

/// Publishes the failures of lanes, none of which has a payload.
pub fn seal_failures(failures: Vec<ScipArtifactEvidence>) -> (r: Vec<
    PublicationReadySemanticEvidence,
>)
    requires
        forall|i: int| 0 <= i < failures@.len() ==> (#[trigger] failures@[i]).payload is None,
    ensures
        r@.len() == failures@.len(),
        forall|i: int| 0 <= i < r@.len() ==> is_bare_evidence(failures@[i], #[trigger] r@[i]),
{
    let ghost all = failures@;
    let mut r: Vec<PublicationReadySemanticEvidence> = Vec::new();
    for item in it: failures.into_iter()
        invariant
            it.seq() == all,
            forall|i: int| 0 <= i < all.len() ==> (#[trigger] all[i]).payload is None,
            r@.len() == it.index(),
            forall|i: int| 0 <= i < r@.len() ==> is_bare_evidence(all[i], #[trigger] r@[i]),
    {
        assert(all[it.index() as int] == item);
        let (ready, _) = seal_scip_artifact_evidence(item, Err(String::new()));
        r.push(ready);
    }
    r
}

/// The rows are of the semantic phase and may be added.
pub open spec fn is_semantic_component(row: TimingModel) -> bool {
    row.phase == IndexProgressPhase::SemanticProvider && row.aggregation
        == IndexTimingAggregation::Exclusive
}

/// The nanoseconds of the semantic rows that may be added.
pub open spec fn semantic_nanos(rows: Seq<TimingModel>) -> int
    decreases rows.len(),
{
    if rows.len() == 0 {
        0
    } else {
        semantic_nanos(rows.drop_last()) + if is_semantic_component(rows.last()) {
            rows.last().duration.nanos as int
        } else {
            0
        }
    }
}

/// Some row is a semantic one that may be added.
pub open spec fn has_semantic_component(rows: Seq<TimingModel>) -> bool {
    exists|i: int| 0 <= i < rows.len() && is_semantic_component(#[trigger] rows[i])
}

/// The rows with what they leave of the semantic phase, if it did anything.
pub open spec fn with_orchestration(rows: Seq<TimingModel>, elapsed: Duration) -> Seq<TimingModel> {
    if has_semantic_component(rows) {
        rows.push(
            index_timing::exclusive_row(
                IndexProgressPhase::SemanticProvider,
                "semantic orchestration"@,
                index_timing::less(elapsed, semantic_nanos(rows)),
            ),
        )
    } else {
        rows
    }
}

proof fn lemma_semantic_nanos_grow(rows: Seq<TimingModel>, i: int)
    requires
        0 <= i <= rows.len(),
    ensures
        0 <= semantic_nanos(rows.take(i)) <= semantic_nanos(rows),
    decreases rows.len() - i,
{
    if i == rows.len() {
        assert(rows.take(i) =~= rows);
        lemma_semantic_nanos_nonnegative(rows);
    } else {
        lemma_semantic_nanos_grow(rows, i + 1);
        assert(rows.take(i + 1).drop_last() =~= rows.take(i));
        lemma_semantic_nanos_nonnegative(rows.take(i));
    }
}

proof fn lemma_semantic_nanos_nonnegative(rows: Seq<TimingModel>)
    ensures
        0 <= semantic_nanos(rows),
    decreases rows.len(),
{
    if rows.len() > 0 {
        lemma_semantic_nanos_nonnegative(rows.drop_last());
    }
}

/// Attributes what the semantic rows leave of the phase, so that they sum to it.
pub fn record_semantic_orchestration(rows: &mut Vec<IndexPhaseTiming>, elapsed: Duration)
    requires
        semantic_nanos(old(rows).deep_view()) <= duration::MAX_NANOS,
    ensures
        final(rows).deep_view() == with_orchestration(old(rows).deep_view(), elapsed),
{
    let ghost all = rows.deep_view();
    let mut measured = Duration::zero();
    let mut found = false;
    for i in 0..rows.len()
        invariant
            all == rows.deep_view(),
            semantic_nanos(all) <= duration::MAX_NANOS,
            measured.nanos == semantic_nanos(all.take(i as int)),
            found <==> has_semantic_component(all.take(i as int)),
    {
        let ghost next = all.take(i + 1);
        proof {
            lemma_semantic_nanos_grow(all, i + 1);
            assert(next.drop_last() =~= all.take(i as int));
            assert(all[i as int] == rows@[i as int].deep_view());
            assert(next[i as int] == all[i as int]);
            if has_semantic_component(all.take(i as int)) {
                let k = choose|k: int|
                    0 <= k < i && is_semantic_component(#[trigger] all.take(i as int)[k]);
                assert(is_semantic_component(next[k]));
            }
            if has_semantic_component(next) && !is_semantic_component(next[i as int]) {
                let k = choose|k: int| 0 <= k < next.len() && is_semantic_component(#[trigger] next[k]);
                assert(is_semantic_component(all.take(i as int)[k]));
            }
        }
        if rows[i].phase == IndexProgressPhase::SemanticProvider && rows[i].aggregation
            == IndexTimingAggregation::Exclusive {
            measured = measured.saturating_add(rows[i].duration);
            found = true;
        }
    }
    assert(all.take(all.len() as int) =~= all);
    if found {
        push_row(
            rows,
            exclusive(
                IndexProgressPhase::SemanticProvider,
                "semantic orchestration",
                elapsed.saturating_sub(measured),
            ),
        );
    }
}

/// Where the semantic phase did anything, its rows sum exactly to its duration, unless
/// they alone are longer.
pub proof fn law_semantic_rows_partition_the_phase(rows: Seq<TimingModel>, elapsed: Duration)
    requires
        has_semantic_component(rows),
        semantic_nanos(rows) <= elapsed.nanos,
    ensures
        semantic_nanos(with_orchestration(rows, elapsed)) == elapsed.nanos,
{
    lemma_semantic_nanos_nonnegative(rows);
    let after = with_orchestration(rows, elapsed);
    assert(after.drop_last() =~= rows);
}

/// How many rows are of the semantic phase.
pub open spec fn semantic_rows(rows: Seq<TimingModel>) -> nat
    decreases rows.len(),
{
    if rows.len() == 0 {
        0
    } else {
        semantic_rows(rows.drop_last()) + if rows.last().phase
            == IndexProgressPhase::SemanticProvider {
            1nat
        } else {
            0
        }
    }
}

/// Counts the rows of the semantic phase.
pub fn semantic_step_count(rows: &Vec<IndexPhaseTiming>) -> (r: usize)
    ensures
        r == semantic_rows(rows.deep_view()),
{
    let ghost all = rows.deep_view();
    let mut n: usize = 0;
    for i in 0..rows.len()
        invariant
            all == rows.deep_view(),
            n <= i,
            n == semantic_rows(all.take(i as int)),
    {
        assert(all.take(i + 1).drop_last() =~= all.take(i as int));
        assert(all[i as int] == rows@[i as int].deep_view());
        if rows[i].phase == IndexProgressPhase::SemanticProvider {
            n += 1;
        }
    }
    assert(all.take(all.len() as int) =~= all);
    n
}

/// Nothing that a lane brought is lost or counted twice. One lane more adds its
/// normalization, if it has one, to the reused ones or to the others, as it says; its failure,
/// if it has one; and all of its activities and timings.
pub proof fn law_lane_is_merged_whole<N>(
    outcomes: Seq<Result<PersistentSemanticProviderLaneOutcome<N>, LaneCancelled>>,
    lane: PersistentSemanticProviderLaneOutcome<N>,
)
    ensures
        ({
            let all = outcomes.push(Ok(lane));
            &&& lane.normalization is Some && lane.reused ==> lane_normalizations(all, true)
                == lane_normalizations(outcomes, true).push(lane.normalization->0)
                && lane_normalizations(all, false) == lane_normalizations(outcomes, false)
            &&& lane.normalization is Some && !lane.reused ==> lane_normalizations(all, false)
                == lane_normalizations(outcomes, false).push(lane.normalization->0)
                && lane_normalizations(all, true) == lane_normalizations(outcomes, true)
            &&& lane.normalization is None ==> lane_normalizations(all, true)
                == lane_normalizations(outcomes, true) && lane_normalizations(all, false)
                == lane_normalizations(outcomes, false)
            &&& lane.failure is Some ==> lane_failures(all) == lane_failures(outcomes).push(
                lane.failure->0,
            )
            &&& lane.failure is None ==> lane_failures(all) == lane_failures(outcomes)
            &&& lane_refreshes(all) == lane_refreshes(outcomes) + lane.refreshes@
            &&& lane_timings(all) == lane_timings(outcomes) + lane.phase_timings@
            &&& any_cancelled(all) <==> any_cancelled(outcomes)
        }),
{
    let all = outcomes.push(Ok(lane));
    assert(all.drop_last() =~= outcomes);
    assert(all.last() == Ok::<PersistentSemanticProviderLaneOutcome<N>, LaneCancelled>(lane));
    if any_cancelled(outcomes) {
        let i = choose|i: int| 0 <= i < outcomes.len() && (#[trigger] outcomes[i]) is Err;
        assert(all[i] is Err);
    }
    if any_cancelled(all) {
        let i = choose|i: int| 0 <= i < all.len() && (#[trigger] all[i]) is Err;
        assert(outcomes[i] is Err);
    }
}

/// Binding changes two things only: the inputs of the calls, which become the captured ones,
/// and their authority, which becomes the toolchains' exactly if it is known and nothing from
/// outside the repository entered.
pub proof fn law_binding_is_confined(
    evidence: EvidenceModel,
    inputs: SemanticInputsModel,
    authority: Option<AuthorityModel>,
    bounded: bool,
)
    ensures
        ({
            let bound = bound_evidence(evidence, inputs, authority, bounded);
            &&& bound.language == evidence.language
            &&& bound.receipt == evidence.receipt
            &&& evidence.payload is Some && evidence.payload->0 is Calls ==> {
                let before = evidence.payload->0->Calls_0;
                let after = bound.payload->0->Calls_0;
                &&& bound.payload is Some && bound.payload->0 is Calls
                &&& after == (CallsPayloadModel {
                    inputs: after.inputs,
                    authority: after.authority,
                    ..before
                })
                &&& after.inputs == inputs
                &&& authority is Some && bounded ==> after.authority == authority->0
                &&& !(authority is Some && bounded) ==> after.authority == before.authority
            }
            &&& !(evidence.payload is Some && evidence.payload->0 is Calls) ==> bound == evidence
        }),
{
}

/// A provider made the artifact.
pub open spec fn made_by(spec: ScipProviderSpec) -> spec_fn(ArtifactModel) -> bool {
    |artifact: ArtifactModel| artifact.spec == spec
}

/// The artifacts of a provider are exactly those that it made, in order.
pub proof fn law_provider_artifacts_are_exact(
    generated: Seq<ArtifactModel>,
    spec: ScipProviderSpec,
)
    ensures
        artifacts_of(generated, spec) == generated.filter(made_by(spec)),
    decreases generated.len(),
{
    let pred = made_by(spec);
    reveal(Seq::filter);
    if generated.len() > 0 {
        let front = generated.drop_last();
        law_provider_artifacts_are_exact(front, spec);
        assert(generated =~= front.push(generated.last()));
        assert(generated.filter(pred) == if pred(generated.last()) {
            front.filter(pred).push(generated.last())
        } else {
            front.filter(pred)
        });
    }
}

/// Ordering artifacts by root loses none of them and adds none.
pub proof fn law_artifacts_by_root_are_the_artifacts(
    artifacts: Seq<ArtifactModel>,
    artifact: ArtifactModel,
)
    requires
        artifacts.len() <= usize::MAX,
    ensures
        by_root(artifacts).len() == artifacts.len(),
        by_root(artifacts).contains(artifact) <==> artifacts.contains(artifact),
        forall|i: int, j: int|
            0 <= i < j < artifacts.len() ==> !path_order::path_lt(
                (#[trigger] by_root(artifacts)[j]).root,
                (#[trigger] by_root(artifacts)[i]).root,
            ),
{
    let roots = roots_of(artifacts);
    path_sorting::law_path_sorting_sorts(roots, artifacts.len());
    let order = path_sorting::path_sorted(roots, artifacts.len());
    let sorted = by_root(artifacts);
    if sorted.contains(artifact) {
        let k = sorted.index_of(artifact);
        assert(order.contains(order[k]));
        assert(artifacts[order[k] as int] == artifact);
    }
    if artifacts.contains(artifact) {
        let p = artifacts.index_of(artifact);
        assert(order.contains(p as usize));
        let k = order.index_of(p as usize);
        assert(sorted[k] == artifact);
    }
    assert forall|i: int, j: int| 0 <= i < j < artifacts.len() implies !path_order::path_lt(
        (#[trigger] sorted[j]).root,
        (#[trigger] sorted[i]).root,
    ) by {
        assert(order.contains(order[i]) && order.contains(order[j]));
        assert(roots[order[i] as int] == sorted[i].root);
        assert(roots[order[j] as int] == sorted[j].root);
    }
}

/// A failed lane is published as it failed, without a payload, and never as complete.
pub proof fn law_failed_lane_has_no_authority(
    evidence: ScipArtifactEvidence,
    ready: PublicationReadySemanticEvidence,
)
    requires
        is_bare_evidence(evidence, ready),
    ensures
        ({
            let before = evidence.receipt.deep_view();
            let after = ready.receipt.deep_view();
            &&& ready.payload is None
            &&& ready.language_id == evidence.language_id
            &&& after.status != CapabilityStatus::Complete
            &&& before.status != CapabilityStatus::Complete ==> after == before
            &&& after.capability == before.capability && after.provider == before.provider
                && after.version == before.version && after.scope == before.scope
                && after.fingerprint == before.fingerprint
        }),
{
}

/// A row of the semantic phase.
pub open spec fn in_semantic_phase() -> spec_fn(TimingModel) -> bool {
    |row: TimingModel| row.phase == IndexProgressPhase::SemanticProvider
}

/// Every row of the semantic phase is counted, and no other.
pub proof fn law_semantic_rows_are_counted(rows: Seq<TimingModel>)
    ensures
        semantic_rows(rows) == rows.filter(in_semantic_phase()).len(),
    decreases rows.len(),
{
    let pred = in_semantic_phase();
    reveal(Seq::filter);
    if rows.len() > 0 {
        let front = rows.drop_last();
        law_semantic_rows_are_counted(front);
        assert(rows =~= front.push(rows.last()));
        assert(rows.filter(pred) == if pred(rows.last()) {
            front.filter(pred).push(rows.last())
        } else {
            front.filter(pred)
        });
    }
}

/// The semantic rows that may be added come to the whole time of the phase, as long as they do
/// not exceed it: what they leave is a row of its own behind them. Rows of other phases and
/// rows that overlap play no part, and where there is no semantic row none is added.
pub proof fn law_orchestration_completes_the_phase(
    rows: Seq<TimingModel>,
    row: TimingModel,
    elapsed: Duration,
)
    ensures
        semantic_nanos(Seq::empty()) == 0,
        semantic_nanos(rows.push(row)) - semantic_nanos(rows) == if row.phase is SemanticProvider
            && row.aggregation is Exclusive {
            row.duration.nanos as int
        } else {
            0
        },
        (forall|i: int|
            0 <= i < rows.len() ==> !((#[trigger] rows[i]).phase is SemanticProvider
                && rows[i].aggregation is Exclusive)) ==> with_orchestration(rows, elapsed) == rows,
        (exists|i: int|
            0 <= i < rows.len() && (#[trigger] rows[i]).phase is SemanticProvider
                && rows[i].aggregation is Exclusive) ==> {
            let after = with_orchestration(rows, elapsed);
            &&& after.drop_last() == rows
            &&& semantic_nanos(rows) <= elapsed.nanos ==> semantic_nanos(after) == elapsed.nanos
            &&& semantic_nanos(rows) > elapsed.nanos ==> semantic_nanos(after) == semantic_nanos(
                rows,
            )
        },
{
    assert(rows.push(row).drop_last() =~= rows);
    lemma_semantic_nanos_nonnegative(rows);
    if exists|i: int|
        0 <= i < rows.len() && (#[trigger] rows[i]).phase is SemanticProvider
            && rows[i].aggregation is Exclusive {
        let i = choose|i: int|
            0 <= i < rows.len() && (#[trigger] rows[i]).phase is SemanticProvider
                && rows[i].aggregation is Exclusive;
        assert(is_semantic_component(rows[i]));
        assert(with_orchestration(rows, elapsed).drop_last() =~= rows);
    } else {
        assert(!has_semantic_component(rows));
    }
}

/// A reused basis cost no normalization: its rows come to nothing, and no document and no group
/// is counted.
pub proof fn law_reuse_costs_no_normalization()
    ensures
        no_normalization().total.nanos == 0,
        no_normalization().measured() == 0,
        no_normalization().source_documents == 0 && no_normalization().syntax_cache_hits == 0,
        no_normalization().provider_documents == 0
            && no_normalization().provider_document_cache_hits == 0
            && no_normalization().definition_document_cache_hits == 0,
        no_normalization().definition_groups == 0
            && no_normalization().definition_group_reuse_hits == 0,
        no_normalization().call_documents == 0 && no_normalization().call_document_reuse_hits == 0,
{
}

} // verus!
