//! Canonical semantic bases: what a provider established, retained for a later run.

use vstd::prelude::*;

use crate::domain::{CapabilityReceipt, CapabilityStatus, LanguageId, ReceiptModel};
use crate::ordered::StringMap;
use crate::payload::{
    CanonicalProviderPayload, EvidenceModel, PayloadModel, ProviderPayload, ScipArtifactEvidence,
};
use crate::text;
use crate::values::Value;

verus! {

/// A canonical snapshot of a provider's documents. The documents themselves are found
/// again by the handle.
#[derive(Debug)]
pub struct CanonicalScipSnapshot {
    pub handle: u64,
    pub provider_id: String,
    pub executed_provider_version: String,
    /// The provider's configuration digest for each execution root.
    pub configurations: StringMap<String>,
}

/// A retained syntax cache, found again by its handle.
#[derive(Debug, Clone, Copy, PartialEq, Eq, Structural)]
pub struct CanonicalSourceSyntaxCache {
    pub handle: u64,
}

/// A snapshot with the evidence that it supports.
#[derive(Debug)]
pub struct CanonicalSemanticBasis {
    pub snapshot: CanonicalScipSnapshot,
    pub evidence: ScipArtifactEvidence,
    pub supplemental_evidence: Vec<ScipArtifactEvidence>,
    pub source_syntax_cache: Option<CanonicalSourceSyntaxCache>,
}

/// The payload is complete calls evidence of this provider in this version.
pub open spec fn backs(
    payload: PayloadModel,
    provider: Seq<char>,
    version: Seq<char>,
) -> bool {
    &&& payload is Calls
    &&& payload.receipt().status == CapabilityStatus::Complete
    &&& payload.receipt().provider == provider
    &&& payload.receipt().version == Some(version)
}

/// The position from `i` on of the first payload that backs the provider.
pub open spec fn first_backing(
    payloads: Seq<CanonicalProviderPayload>,
    i: int,
    provider: Seq<char>,
    version: Seq<char>,
) -> Option<int>
    decreases payloads.len() - i,
{
    if i < 0 || i >= payloads.len() {
        None
    } else if backs(payloads[i].payload.deep_view(), provider, version) {
        Some(i)
    } else {
        first_backing(payloads, i + 1, provider, version)
    }
}

/// The one payload that backs the provider, if there is exactly one.
pub open spec fn only_backing(
    payloads: Seq<CanonicalProviderPayload>,
    provider: Seq<char>,
    version: Seq<char>,
) -> Option<int> {
    match first_backing(payloads, 0, provider, version) {
        Some(k) => if first_backing(payloads, k + 1, provider, version) is None {
            Some(k)
        } else {
            None
        },
        None => None,
    }
}

/// The payload is a complete analysis beside calls, of the same provider, version and
/// language.
pub open spec fn supplements(payload: PayloadModel, receipt: ReceiptModel) -> bool {
    &&& !(payload is Calls)
    &&& payload.receipt().status == CapabilityStatus::Complete
    &&& payload.receipt().provider == receipt.provider
    &&& payload.receipt().version == receipt.version
    &&& payload.receipt().scope.language() == receipt.scope.language()
}

/// The evidence beside calls, in order.
pub open spec fn supplemental(
    payloads: Seq<CanonicalProviderPayload>,
    receipt: ReceiptModel,
) -> Seq<EvidenceModel>
    decreases payloads.len(),
{
    if payloads.len() == 0 {
        seq![]
    } else {
        let before = supplemental(payloads.drop_last(), receipt);
        let last = payloads.last().payload.deep_view();
        if supplements(last, receipt) {
            before.push(
                EvidenceModel {
                    language: receipt.scope.language()->0,
                    receipt: last.receipt(),
                    payload: Some(last),
                },
            )
        } else {
            before
        }
    }
}

/// The snapshot has exactly one complete calls payload behind it, and that payload
/// speaks for a language.
pub open spec fn is_admitted(
    snapshot: CanonicalScipSnapshot,
    payloads: Seq<CanonicalProviderPayload>,
) -> bool {
    let k = only_backing(
        payloads,
        snapshot.provider_id@,
        snapshot.executed_provider_version@,
    );
    k is Some && payloads[k->0].payload.deep_view().receipt().scope.language() is Some
}

/// The basis is what the snapshot and its payload make.
pub open spec fn is_basis_of(
    basis: CanonicalSemanticBasis,
    snapshot: CanonicalScipSnapshot,
    cache: Option<CanonicalSourceSyntaxCache>,
    payloads: Seq<CanonicalProviderPayload>,
) -> bool {
    let k = only_backing(
        payloads,
        snapshot.provider_id@,
        snapshot.executed_provider_version@,
    )->0;
    let payload = payloads[k].payload.deep_view();
    &&& basis.snapshot == snapshot
    &&& basis.source_syntax_cache == cache
    &&& basis.evidence.deep_view() == (EvidenceModel {
        language: payload.receipt().scope.language()->0,
        receipt: payload.receipt(),
        payload: Some(payload),
    })
    &&& basis.supplemental_evidence.deep_view() == supplemental(payloads, payload.receipt())
}

/// The positions of the admitted snapshots, in order.
pub open spec fn admitted_positions(
    snapshots: Seq<(CanonicalScipSnapshot, Option<CanonicalSourceSyntaxCache>)>,
    payloads: Seq<CanonicalProviderPayload>,
) -> Seq<int>
    decreases snapshots.len(),
{
    if snapshots.len() == 0 {
        seq![]
    } else {
        let before = admitted_positions(snapshots.drop_last(), payloads);
        if is_admitted(snapshots.last().0, payloads) {
            before.push(snapshots.len() - 1)
        } else {
            before
        }
    }
}

fn is_backing(payload: &ProviderPayload, provider: &str, version: &str) -> (r: bool)
    ensures
        r == backs(payload.deep_view(), provider@, version@),
{
    match payload {
        ProviderPayload::Calls(calls) => calls.receipt.status == CapabilityStatus::Complete
            && text::same(calls.receipt.provider_id.0.as_str(), provider) && text::option_is(
            &calls.receipt.provider_version,
            version,
        ),
        ProviderPayload::CallableLiveness(_) => false,
    }
}

fn find_backing(
    payloads: &Vec<CanonicalProviderPayload>,
    from: usize,
    provider: &str,
    version: &str,
) -> (r: Option<usize>)
    requires
        from <= payloads@.len(),
    ensures
        match r {
            Some(k) => first_backing(payloads@, from as int, provider@, version@) == Some(k as int)
                && k < payloads@.len(),
            None => first_backing(payloads@, from as int, provider@, version@) is None,
        },
{
    let mut i: usize = from;
    while i < payloads.len()
        invariant
            from <= i <= payloads@.len(),
            first_backing(payloads@, i as int, provider@, version@) == first_backing(
                payloads@,
                from as int,
                provider@,
                version@,
            ),
        decreases payloads.len() - i,
    {
        if is_backing(payloads[i].payload(), provider, version) {
            return Some(i);
        }
        i += 1;
    }
    None
}

fn collect_supplemental(
    payloads: &Vec<CanonicalProviderPayload>,
    receipt: &CapabilityReceipt,
    language: &str,
) -> (r: Vec<ScipArtifactEvidence>)
    requires
        receipt.deep_view().scope.language() == Some(language@),
    ensures
        r.deep_view() == supplemental(payloads@, receipt.deep_view()),
{
    let ghost model = receipt.deep_view();
    let mut r: Vec<ScipArtifactEvidence> = Vec::new();
    assert(r.deep_view() =~= supplemental(payloads@.take(0), model));
    for i in 0..payloads.len()
        invariant
            model == receipt.deep_view(),
            model.scope.language() == Some(language@),
            r.deep_view() == supplemental(payloads@.take(i as int), model),
    {
        assert(payloads@.take(i + 1).drop_last() =~= payloads@.take(i as int));
        let ghost before = r.deep_view();
        let payload = payloads[i].payload();
        let own = payload.receipt();
        let other = match payload {
            ProviderPayload::Calls(_) => false,
            ProviderPayload::CallableLiveness(_) => true,
        };
        let same_language = match own.scope.language_id() {
            Some(found) => text::same(found.0.as_str(), language),
            None => false,
        };
        if other && own.status == CapabilityStatus::Complete && own.provider_id.same(
            &receipt.provider_id,
        ) && own.provider_version.same(&receipt.provider_version) && same_language {
            let evidence = ScipArtifactEvidence {
                language_id: LanguageId::new(language),
                receipt: own.copy(),
                payload: Some(payloads[i].normalized_clone()),
            };
            r.push(evidence);
            assert(r.deep_view() =~= before.push(evidence.deep_view()));
        }
    }
    assert(payloads@.take(payloads@.len() as int) =~= payloads@);
    r
}

/// Keeps the snapshots that exactly one complete calls payload of the published evidence
/// backs, each with that evidence and what the same provider established beside it.
pub fn admitted_canonical_semantic_bases(
    snapshots: Vec<(CanonicalScipSnapshot, Option<CanonicalSourceSyntaxCache>)>,
    payloads: &Vec<CanonicalProviderPayload>,
) -> (r: Vec<CanonicalSemanticBasis>)
    ensures
        r@.len() == admitted_positions(snapshots@, payloads@).len(),
        forall|j: int|
            0 <= j < r@.len() ==> is_basis_of(
                #[trigger] r@[j],
                snapshots@[admitted_positions(snapshots@, payloads@)[j]].0,
                snapshots@[admitted_positions(snapshots@, payloads@)[j]].1,
                payloads@,
            ),
{
    let ghost all = snapshots@;
    let n = payloads.len();
    let mut r: Vec<CanonicalSemanticBasis> = Vec::new();
    for item in it: snapshots.into_iter()
        invariant
            it.seq() == all,
            n == payloads@.len(),
            r@.len() == admitted_positions(all.take(it.index() as int), payloads@).len(),
            forall|j: int|
                0 <= j < r@.len() ==> 0 <= #[trigger] admitted_positions(
                    all.take(it.index() as int),
                    payloads@,
                )[j] < it.index(),
            forall|j: int|
                0 <= j < r@.len() ==> is_basis_of(
                    #[trigger] r@[j],
                    all[admitted_positions(all.take(it.index() as int), payloads@)[j]].0,
                    all[admitted_positions(all.take(it.index() as int), payloads@)[j]].1,
                    payloads@,
                ),
    {
        let ghost i = it.index() as int;
        let ghost next = all.take(i + 1);
        let ghost done = admitted_positions(all.take(i), payloads@);
        proof {
            assert(next.drop_last() =~= all.take(i));
            assert(next.last() == item);
            assert(all[i] == item);
        }
        let (snapshot, cache) = item;
        let found = match find_backing(
            payloads,
            0,
            snapshot.provider_id.as_str(),
            snapshot.executed_provider_version.as_str(),
        ) {
            Some(k) => match find_backing(
                payloads,
                k + 1,
                snapshot.provider_id.as_str(),
                snapshot.executed_provider_version.as_str(),
            ) {
                Some(_) => None,
                None => Some(k),
            },
            None => None,
        };
        if let Some(k) = found {
            let payload = payloads[k].payload();
            let receipt = payload.receipt();
            if let Some(language_id) = receipt.scope.language_id() {
                let language = language_id.0.as_str();
                let supplemental_evidence = collect_supplemental(payloads, receipt, language);
                let evidence = ScipArtifactEvidence {
                    language_id: LanguageId::new(language),
                    receipt: receipt.copy(),
                    payload: Some(payloads[k].normalized_clone()),
                };
                let basis = CanonicalSemanticBasis {
                    snapshot,
                    evidence,
                    supplemental_evidence,
                    source_syntax_cache: cache,
                };
                assert(is_basis_of(basis, item.0, item.1, payloads@));
                r.push(basis);
            }
        }
        proof {
            let after = admitted_positions(next, payloads@);
            assert(after == if is_admitted(item.0, payloads@) {
                done.push(i)
            } else {
                done
            });
        }
    }
    assert(all.take(all.len() as int) =~= all);
    r
}

/// The payload at position `k` is complete calls evidence of the provider in the version.
pub open spec fn is_complete_calls(
    payloads: Seq<CanonicalProviderPayload>,
    k: int,
    provider: Seq<char>,
    version: Seq<char>,
) -> bool {
    let payload = payloads[k].payload.deep_view();
    &&& 0 <= k < payloads.len()
    &&& payload is Calls
    &&& payload.receipt().status == CapabilityStatus::Complete
    &&& payload.receipt().provider == provider
    &&& payload.receipt().version == Some(version)
}

proof fn lemma_first_backing(
    payloads: Seq<CanonicalProviderPayload>,
    from: int,
    provider: Seq<char>,
    version: Seq<char>,
)
    requires
        0 <= from <= payloads.len(),
    ensures
        match first_backing(payloads, from, provider, version) {
            Some(k) => from <= k && is_complete_calls(payloads, k, provider, version) && forall|
                j: int,
            |
                from <= j < k ==> !#[trigger] is_complete_calls(payloads, j, provider, version),
            None => forall|j: int|
                from <= j ==> !#[trigger] is_complete_calls(payloads, j, provider, version),
        },
    decreases payloads.len() - from,
{
    if from < payloads.len() {
        lemma_first_backing(payloads, from + 1, provider, version);
    }
}

/// A snapshot is backed exactly if one payload, and only one, is complete calls evidence of
/// its provider in its version.
pub proof fn law_backing_is_unique(
    payloads: Seq<CanonicalProviderPayload>,
    provider: Seq<char>,
    version: Seq<char>,
    k: int,
)
    ensures
        only_backing(payloads, provider, version) == Some(k) <==> is_complete_calls(
            payloads,
            k,
            provider,
            version,
        ) && forall|j: int| #[trigger]
            is_complete_calls(payloads, j, provider, version) ==> j == k,
{
    lemma_first_backing(payloads, 0, provider, version);
    match first_backing(payloads, 0, provider, version) {
        Some(m) => {
            lemma_first_backing(payloads, m + 1, provider, version);
            if only_backing(payloads, provider, version) == Some(k) {
                assert forall|j: int| #[trigger]
                    is_complete_calls(payloads, j, provider, version) implies j == k by {
                    if j < m {
                        assert(!is_complete_calls(payloads, j, provider, version));
                    }
                }
            }
            if is_complete_calls(payloads, k, provider, version) && forall|j: int| #[trigger]
                is_complete_calls(payloads, j, provider, version) ==> j == k {
                assert(m == k);
                if first_backing(payloads, k + 1, provider, version) is Some {
                    let j = first_backing(payloads, k + 1, provider, version)->0;
                    assert(is_complete_calls(payloads, j, provider, version));
                }
            }
        },
        None => {},
    }
}

/// The snapshots that are kept are exactly those that one payload backs, and whose payload
/// speaks for a language; in order, each of them once.
pub proof fn law_admitted_snapshots_are_the_backed_ones(
    snapshots: Seq<(CanonicalScipSnapshot, Option<CanonicalSourceSyntaxCache>)>,
    payloads: Seq<CanonicalProviderPayload>,
    p: int,
)
    ensures
        admitted_positions(snapshots, payloads).contains(p) <==> 0 <= p < snapshots.len() && {
            let snapshot = snapshots[p].0;
            exists|k: int| #[trigger]
                is_complete_calls(
                    payloads,
                    k,
                    snapshot.provider_id@,
                    snapshot.executed_provider_version@,
                ) && payloads[k].payload.deep_view().receipt().scope.language() is Some && forall|
                    j: int,
                | #[trigger]
                    is_complete_calls(
                        payloads,
                        j,
                        snapshot.provider_id@,
                        snapshot.executed_provider_version@,
                    ) ==> j == k
        },
        forall|i: int, j: int|
            0 <= i < j < admitted_positions(snapshots, payloads).len() ==> (
            #[trigger] admitted_positions(snapshots, payloads)[i]) < (
            #[trigger] admitted_positions(snapshots, payloads)[j]),
        forall|i: int|
            0 <= i < admitted_positions(snapshots, payloads).len() ==> 0 <= (
            #[trigger] admitted_positions(snapshots, payloads)[i]) < snapshots.len(),
    decreases snapshots.len(),
{
    if snapshots.len() > 0 {
        let n = snapshots.len() - 1;
        let front = snapshots.drop_last();
        law_admitted_snapshots_are_the_backed_ones(front, payloads, p);
        let before = admitted_positions(front, payloads);
        let all = admitted_positions(snapshots, payloads);
        let snapshot = snapshots[n].0;
        let provider = snapshot.provider_id@;
        let version = snapshot.executed_provider_version@;
        assert(snapshots.last() == snapshots[n]);
        if before.contains(p) {
            assert(all[before.index_of(p)] == p);
        }
        if p < n {
            if 0 <= p {
                assert(front[p] == snapshots[p]);
            }
            if all.contains(p) {
                let m = all.index_of(p);
                assert(m < before.len());
                assert(before[m] == p);
            }
        } else if p == n {
            if all.len() > before.len() {
                assert(all[before.len() as int] == n);
                let k = only_backing(payloads, provider, version)->0;
                law_backing_is_unique(payloads, provider, version, k);
                assert(is_complete_calls(payloads, k, provider, version));
            } else {
                if exists|k: int| #[trigger]
                    is_complete_calls(payloads, k, provider, version)
                        && payloads[k].payload.deep_view().receipt().scope.language() is Some
                        && forall|j: int| #[trigger]
                        is_complete_calls(payloads, j, provider, version) ==> j == k {
                    let k = choose|k: int| #[trigger]
                        is_complete_calls(payloads, k, provider, version)
                            && payloads[k].payload.deep_view().receipt().scope.language() is Some
                            && forall|j: int| #[trigger]
                            is_complete_calls(payloads, j, provider, version) ==> j == k;
                    law_backing_is_unique(payloads, provider, version, k);
                }
                if all.contains(p) {
                    let m = all.index_of(p);
                    assert(before[m] == p);
                }
            }
        } else if all.contains(p) {
            let m = all.index_of(p);
            if m < before.len() {
                assert(before[m] == p);
            }
        }
    }
}

/// Beside its calls, a basis carries every complete analysis of another kind that the same
/// provider gave in the same version for the same language, and nothing else.
pub proof fn law_supplements_are_exact(
    payloads: Seq<CanonicalProviderPayload>,
    receipt: ReceiptModel,
    piece: EvidenceModel,
)
    ensures
        supplemental(payloads, receipt).contains(piece) <==> exists|k: int|
            0 <= k < payloads.len() && {
                let payload = (#[trigger] payloads[k]).payload.deep_view();
                &&& !(payload is Calls)
                &&& payload.receipt().status == CapabilityStatus::Complete
                &&& payload.receipt().provider == receipt.provider
                &&& payload.receipt().version == receipt.version
                &&& payload.receipt().scope.language() == receipt.scope.language()
                &&& piece == (EvidenceModel {
                    language: receipt.scope.language()->0,
                    receipt: payload.receipt(),
                    payload: Some(payload),
                })
            },
    decreases payloads.len(),
{
    if payloads.len() > 0 {
        let n = payloads.len() - 1;
        let front = payloads.drop_last();
        law_supplements_are_exact(front, receipt, piece);
        let before = supplemental(front, receipt);
        let all = supplemental(payloads, receipt);
        assert(payloads.last() == payloads[n]);
        if before.contains(piece) {
            assert(all[before.index_of(piece)] == piece);
            let k = choose|k: int|
                0 <= k < front.len() && {
                    let payload = (#[trigger] front[k]).payload.deep_view();
                    &&& !(payload is Calls)
                    &&& payload.receipt().status == CapabilityStatus::Complete
                    &&& payload.receipt().provider == receipt.provider
                    &&& payload.receipt().version == receipt.version
                    &&& payload.receipt().scope.language() == receipt.scope.language()
                    &&& piece == (EvidenceModel {
                        language: receipt.scope.language()->0,
                        receipt: payload.receipt(),
                        payload: Some(payload),
                    })
                };
            assert(payloads[k] == front[k]);
        }
        if all.len() > before.len() {
            assert(all[before.len() as int] == all.last());
        }
        if all.contains(piece) {
            let k = all.index_of(piece);
            if k < before.len() {
                assert(before[k] == piece);
            }
        }
        if exists|k: int|
            0 <= k < payloads.len() && {
                let payload = (#[trigger] payloads[k]).payload.deep_view();
                &&& !(payload is Calls)
                &&& payload.receipt().status == CapabilityStatus::Complete
                &&& payload.receipt().provider == receipt.provider
                &&& payload.receipt().version == receipt.version
                &&& payload.receipt().scope.language() == receipt.scope.language()
                &&& piece == (EvidenceModel {
                    language: receipt.scope.language()->0,
                    receipt: payload.receipt(),
                    payload: Some(payload),
                })
            } {
            let k = choose|k: int|
                0 <= k < payloads.len() && {
                    let payload = (#[trigger] payloads[k]).payload.deep_view();
                    &&& !(payload is Calls)
                    &&& payload.receipt().status == CapabilityStatus::Complete
                    &&& payload.receipt().provider == receipt.provider
                    &&& payload.receipt().version == receipt.version
                    &&& payload.receipt().scope.language() == receipt.scope.language()
                    &&& piece == (EvidenceModel {
                        language: receipt.scope.language()->0,
                        receipt: payload.receipt(),
                        payload: Some(payload),
                    })
                };
            if k < n {
                assert(front[k] == payloads[k]);
            }
        }
    }
}

/// A basis is what was published: its snapshot and cache as they came, and as its evidence the
/// one complete calls payload that backs the snapshot, under that payload's own receipt and
/// language, with exactly the payloads that supplement it.
pub proof fn law_basis_is_what_was_published(
    basis: CanonicalSemanticBasis,
    snapshot: CanonicalScipSnapshot,
    cache: Option<CanonicalSourceSyntaxCache>,
    payloads: Seq<CanonicalProviderPayload>,
    k: int,
)
    requires
        is_basis_of(basis, snapshot, cache, payloads),
        is_complete_calls(
            payloads,
            k,
            snapshot.provider_id@,
            snapshot.executed_provider_version@,
        ),
        forall|j: int| #[trigger]
            is_complete_calls(
                payloads,
                j,
                snapshot.provider_id@,
                snapshot.executed_provider_version@,
            ) ==> j == k,
    ensures
        ({
            let payload = payloads[k].payload.deep_view();
            let evidence = basis.evidence.deep_view();
            &&& basis.snapshot == snapshot
            &&& basis.source_syntax_cache == cache
            &&& evidence.payload == Some(payload)
            &&& evidence.receipt == payload.receipt()
            &&& payload.receipt().scope.language() is Some ==> evidence.language
                == payload.receipt().scope.language()->0
            &&& basis.supplemental_evidence.deep_view() == supplemental(
                payloads,
                payload.receipt(),
            )
        }),
{
    law_backing_is_unique(
        payloads,
        snapshot.provider_id@,
        snapshot.executed_provider_version@,
        k,
    );
}

} // verus!
