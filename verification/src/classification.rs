//! Who classified a graph, under what, and whether that still holds.

use vstd::prelude::*;

use crate::text;
use crate::values::Value;

verus! {

/// Human-facing identity of this build. A build without version-control access
/// says so.
pub const BUILD_IDENTITY: &'static str = "0.1.0+nogit";

/// Identity of the classifier, in the form of a digest of its sources and configuration.
/// This is a placeholder. Whoever releases a build sets it to the exact digest of what
/// that build classifies with: two builds with the same identity take each other's
/// classifications for current.
pub const INDEXER_IDENTITY: &'static str =
    "sha256:6f1c0ce6a1d0f6f6c5d7d2b1b0d3a9c84b9c1d7e52a0f3e88d41c7b2906e5fa3";

/// What this build of the prover was compiled with.
pub fn current_prover_config() -> (r: String)
    ensures
        r@ == "code-intel=1"@,
{
    "code-intel=1".to_owned()
}

/// A decimal digit.
pub open spec fn is_decimal_digit(c: char) -> bool {
    '0' <= c && c <= '9'
}

/// The mark at some distance from the end of an RFC 3339 time in UTC with whole seconds,
/// if a mark stands there: `-MM-DDThh:mm:ssZ`.
pub open spec fn mark_at(from_end: int) -> Option<char> {
    if from_end == 1 {
        Some('Z')
    } else if from_end == 4 || from_end == 7 {
        Some(':')
    } else if from_end == 10 {
        Some('T')
    } else if from_end == 13 || from_end == 16 {
        Some('-')
    } else {
        None
    }
}

/// An RFC 3339 time in UTC with whole seconds: at least four digits of the year, and two
/// each of month, day, hour, minute and second, between their marks. What stands before
/// the last four digits of the year is left open: years beyond them have a sign.
pub open spec fn is_utc_time(text: Seq<char>) -> bool {
    &&& text.len() >= 20
    &&& forall|i: int|
        text.len() - 20 <= i < text.len() ==> match mark_at(text.len() - i) {
            Some(mark) => #[trigger] text[i] == mark,
            None => is_decimal_digit(text[i]),
        }
}

/// `chrono::Utc::now` and `to_rfc3339_opts` with whole seconds and a `Z` suffix: the
/// present time as RFC 3339 text in UTC. Which time it is depends on the clock; its form
/// does not.
#[verifier::external_body]
fn utc_now_text() -> (r: String)
    ensures
        is_utc_time(r@),
{
    chrono::Utc::now().to_rfc3339_opts(chrono::SecondsFormat::Secs, true)
}

/// The clock gave this text as the present time.
pub closed spec fn is_clock_text(text: Seq<char>) -> bool {
    exists|read: String| #[trigger] call_ensures(utc_now_text, (), read) && read@ == text
}

/// Why the human-facing build provenance is approximate.
#[derive(Debug, Clone, Copy, PartialEq, Eq, Structural)]
pub enum ApproximateIdentity {
    /// Built from a tree with uncommitted changes.
    Dirty,
    /// Built where version control could not answer.
    NoGit,
}

/// The classification-provenance stamp: who classified, under what, and when.
#[derive(Debug, Clone, PartialEq, Eq)]
pub struct ClassifiedBy {
    /// Human-facing artifact provenance.
    pub build_identity: String,
    /// Exact source/configuration digest of the classifier.
    pub indexer_identity: String,
    /// What the classifying binary was compiled with.
    pub prover_config: String,
    /// RFC 3339 classification time.
    pub timestamp: String,
}

/// A stamp as plain text.
pub struct StampModel {
    pub build: Seq<char>,
    pub indexer: Seq<char>,
    pub prover: Seq<char>,
    pub timestamp: Seq<char>,
}

impl DeepView for ClassifiedBy {
    type V = StampModel;

    open spec fn deep_view(&self) -> StampModel {
        StampModel {
            build: self.build_identity@,
            indexer: self.indexer_identity@,
            prover: self.prover_config@,
            timestamp: self.timestamp@,
        }
    }
}

impl Value for ClassifiedBy {
    fn copy(&self) -> (r: Self) {
        ClassifiedBy {
            build_identity: self.build_identity.copy(),
            indexer_identity: self.indexer_identity.copy(),
            prover_config: self.prover_config.copy(),
            timestamp: self.timestamp.copy(),
        }
    }

    fn same(&self, other: &Self) -> (r: bool) {
        self.build_identity.same(&other.build_identity) && self.indexer_identity.same(
            &other.indexer_identity,
        ) && self.prover_config.same(&other.prover_config) && self.timestamp.same(&other.timestamp)
    }
}

impl StampModel {
    pub open spec fn approximation(self) -> Option<ApproximateIdentity> {
        if "+dirty"@.is_suffix_of(self.build) {
            Some(ApproximateIdentity::Dirty)
        } else if "+nogit"@.is_suffix_of(self.build) {
            Some(ApproximateIdentity::NoGit)
        } else {
            None
        }
    }

    pub open spec fn rendered(self) -> Seq<char> {
        "classified by build "@ + self.build + " / classifier "@ + self.indexer + " ["@
            + self.prover + "] at "@ + self.timestamp + match self.approximation() {
            Some(ApproximateIdentity::Dirty) => " (provenance approximate — dirty build)"@,
            Some(ApproximateIdentity::NoGit) =>
                " (provenance approximate — no git at build time)"@,
            None => ""@,
        }
    }

    /// Every field is there, and the classifier identity is an exact digest.
    pub open spec fn complete(self) -> bool {
        &&& self.build.len() > 0
        &&& self.prover.len() > 0
        &&& self.timestamp.len() > 0
        &&& exact_identity(self.indexer)
    }
}

/// A stamp of this build, with a time that the clock gave.
pub open spec fn own_stamp(stamp: StampModel) -> bool {
    &&& stamp.build == BUILD_IDENTITY@
    &&& stamp.indexer == INDEXER_IDENTITY@
    &&& stamp.prover == "code-intel=1"@
    &&& is_clock_text(stamp.timestamp)
    &&& is_utc_time(stamp.timestamp)
    &&& stamp.complete()
}

impl ClassifiedBy {
    /// The stamp for a classification performed now by this build.
    pub fn now() -> (r: Self)
        ensures
            own_stamp(r.deep_view()),
    {
        let timestamp = utc_now_text();
        assert(call_ensures(utc_now_text, (), timestamp));
        let r = ClassifiedBy {
            build_identity: BUILD_IDENTITY.to_owned(),
            indexer_identity: INDEXER_IDENTITY.to_owned(),
            prover_config: current_prover_config(),
            timestamp,
        };
        proof {
            lemma_own_identity_exact();
            reveal_strlit("0.1.0+nogit");
            reveal_strlit("code-intel=1");
        }
        r
    }

    /// Whether, and why, this stamp's human build provenance is approximate.
    pub fn approximation(&self) -> (r: Option<ApproximateIdentity>)
        ensures
            r == self.deep_view().approximation(),
    {
        if text::ends_with(self.build_identity.as_str(), "+dirty") {
            Some(ApproximateIdentity::Dirty)
        } else if text::ends_with(self.build_identity.as_str(), "+nogit") {
            Some(ApproximateIdentity::NoGit)
        } else {
            None
        }
    }

    /// Whether this stamp came from a build with uncommitted changes.
    pub fn is_dirty(&self) -> (r: bool)
        ensures
            r == "+dirty"@.is_suffix_of(self.build_identity@),
    {
        match self.approximation() {
            Some(ApproximateIdentity::Dirty) => true,
            _ => false,
        }
    }

    /// One-line human rendering for report headers and status.
    pub fn render(&self) -> (r: String)
        ensures
            r@ == self.deep_view().rendered(),
    {
        let approx = match self.approximation() {
            Some(ApproximateIdentity::Dirty) => " (provenance approximate — dirty build)",
            Some(ApproximateIdentity::NoGit) =>
                " (provenance approximate — no git at build time)",
            None => "",
        };
        let mut r = "classified by build ".to_owned();
        r.append(self.build_identity.as_str());
        r.append(" / classifier ");
        r.append(self.indexer_identity.as_str());
        r.append(" [");
        r.append(self.prover_config.as_str());
        r.append("] at ");
        r.append(self.timestamp.as_str());
        r.append(approx);
        r
    }
}

/// Required metadata that makes one persisted graph generation interpretable.
#[derive(Debug, Clone, PartialEq, Eq)]
pub struct GraphGenerationMetadata {
    pub classified_by: ClassifiedBy,
    pub oracle_ran_ok: bool,
}

impl DeepView for GraphGenerationMetadata {
    type V = (StampModel, bool);

    open spec fn deep_view(&self) -> (StampModel, bool) {
        (self.classified_by.deep_view(), self.oracle_ran_ok)
    }
}

impl Value for GraphGenerationMetadata {
    fn copy(&self) -> (r: Self) {
        GraphGenerationMetadata {
            classified_by: self.classified_by.copy(),
            oracle_ran_ok: self.oracle_ran_ok,
        }
    }

    fn same(&self, other: &Self) -> (r: bool) {
        self.classified_by.same(&other.classified_by) && self.oracle_ran_ok == other.oracle_ran_ok
    }
}

impl GraphGenerationMetadata {
    /// The metadata of a generation that this build classifies now.
    pub fn now(oracle_ran_ok: bool) -> (r: Self)
        ensures
            r.oracle_ran_ok == oracle_ran_ok,
            own_stamp(r.classified_by.deep_view()),
    {
        GraphGenerationMetadata { classified_by: ClassifiedBy::now(), oracle_ran_ok }
    }
}

/// The text of an exact classifier identity: a marked 256-bit digest.
pub open spec fn exact_identity(identity: Seq<char>) -> bool {
    &&& "sha256:"@.is_prefix_of(identity)
    &&& text::is_hex_digest(identity.skip("sha256:"@.len() as int))
}

proof fn lemma_own_identity_exact()
    ensures
        exact_identity(INDEXER_IDENTITY@),
{
    reveal_strlit("sha256:");
    reveal_strlit("sha256:6f1c0ce6a1d0f6f6c5d7d2b1b0d3a9c84b9c1d7e52a0f3e88d41c7b2906e5fa3");
    let s = INDEXER_IDENTITY@;
    assert("sha256:"@ =~= s.subrange(0, 7));
}

pub fn is_exact_indexer_identity(identity: &str) -> (r: bool)
    ensures
        r == exact_identity(identity@),
{
    if !text::starts_with(identity, "sha256:") {
        return false;
    }
    proof {
        reveal_strlit("sha256:");
    }
    let digest = identity.substring_char(7, identity.unicode_len());
    assert(digest@ =~= identity@.skip(7));
    text::hex_digest(digest)
}

/// One way the persisted classification can fail to be certifiable.
#[derive(Debug, Clone, PartialEq, Eq)]
pub enum CurrencyFailure {
    /// No valid reachability evidence proves the exact classified documents.
    ClassificationAuthorityUnavailable,
    /// Classes are persisted but carry no provenance stamp.
    StampAbsent,
    /// A different classifier produced these classes.
    ClassifierIdentityMismatch { stamped: String, current: String },
    /// The current or persisted classifier identity is not an exact digest.
    ClassifierIdentityUnavailable { identity: String },
    /// The classifier was compiled with a different feature set.
    ProverConfigMismatch { stamped: String, current: String },
    /// Source or project-input bytes differ from the indexed generation.
    IndexStale,
}

pub enum FailureModel {
    ClassificationAuthorityUnavailable,
    StampAbsent,
    ClassifierIdentityMismatch { stamped: Seq<char>, current: Seq<char> },
    ClassifierIdentityUnavailable { identity: Seq<char> },
    ProverConfigMismatch { stamped: Seq<char>, current: Seq<char> },
    IndexStale,
}

impl DeepView for CurrencyFailure {
    type V = FailureModel;

    open spec fn deep_view(&self) -> FailureModel {
        match self {
            CurrencyFailure::ClassificationAuthorityUnavailable =>
            FailureModel::ClassificationAuthorityUnavailable,
            CurrencyFailure::StampAbsent => FailureModel::StampAbsent,
            CurrencyFailure::ClassifierIdentityMismatch { stamped, current } =>
            FailureModel::ClassifierIdentityMismatch { stamped: stamped@, current: current@ },
            CurrencyFailure::ClassifierIdentityUnavailable { identity } =>
            FailureModel::ClassifierIdentityUnavailable { identity: identity@ },
            CurrencyFailure::ProverConfigMismatch { stamped, current } =>
            FailureModel::ProverConfigMismatch { stamped: stamped@, current: current@ },
            CurrencyFailure::IndexStale => FailureModel::IndexStale,
        }
    }
}

impl FailureModel {
    /// The failing axis and its remedy, in words.
    pub open spec fn words(self) -> Seq<char> {
        match self {
            FailureModel::ClassificationAuthorityUnavailable =>
                "classification authority UNAVAILABLE (no valid reachability evidence proves the exact classified document scope) — run `h00ligan index`"@,
            FailureModel::StampAbsent =>
                "provenance stamp ABSENT (classified by an unknown build) — re-run `h00ligan index`"@,
            FailureModel::ClassifierIdentityMismatch { stamped, current } =>
                "CLASSIFIER-CONTENT mismatch (classified by `"@ + stamped + "`, running `"@ + current
                    + "`) — re-run `h00ligan index`"@,
            FailureModel::ClassifierIdentityUnavailable { identity } =>
                "CLASSIFIER-CONTENT identity is unavailable or invalid (`"@ + identity
                    + "`) — rebuild h00ligan, then re-run `h00ligan index`"@,
            FailureModel::ProverConfigMismatch { stamped, current } =>
                "PROVER-CONFIG mismatch (classified by a build configured `"@ + stamped
                    + "`, this build is `"@ + current + "`) — re-run `h00ligan index`"@,
            FailureModel::IndexStale =>
                "INDEX STALE (selected source or project-input content differs from the indexed generation) — re-run `h00ligan index`"@,
        }
    }
}

impl CurrencyFailure {
    /// Short axis name and the remedy.
    pub fn describe(&self) -> (r: String)
        ensures
            r@ == self.deep_view().words(),
    {
        match self {
            CurrencyFailure::ClassificationAuthorityUnavailable =>
                "classification authority UNAVAILABLE (no valid reachability evidence proves the exact classified document scope) — run `h00ligan index`".to_owned(),
            CurrencyFailure::StampAbsent =>
                "provenance stamp ABSENT (classified by an unknown build) — re-run `h00ligan index`".to_owned(),
            CurrencyFailure::ClassifierIdentityMismatch { stamped, current } => {
                let mut r = "CLASSIFIER-CONTENT mismatch (classified by `".to_owned();
                r.append(stamped.as_str());
                r.append("`, running `");
                r.append(current.as_str());
                r.append("`) — re-run `h00ligan index`");
                r
            },
            CurrencyFailure::ClassifierIdentityUnavailable { identity } => {
                let mut r =
                    "CLASSIFIER-CONTENT identity is unavailable or invalid (`".to_owned();
                r.append(identity.as_str());
                r.append("`) — rebuild h00ligan, then re-run `h00ligan index`");
                r
            },
            CurrencyFailure::ProverConfigMismatch { stamped, current } => {
                let mut r =
                    "PROVER-CONFIG mismatch (classified by a build configured `".to_owned();
                r.append(stamped.as_str());
                r.append("`, this build is `");
                r.append(current.as_str());
                r.append("`) — re-run `h00ligan index`");
                r
            },
            CurrencyFailure::IndexStale =>
                "INDEX STALE (selected source or project-input content differs from the indexed generation) — re-run `h00ligan index`".to_owned(),
        }
    }
}

/// Inputs to [`evaluate_classification_currency`].
#[derive(Debug, Clone, Copy)]
pub struct CurrencyInputs<'a> {
    /// The persisted stamp, if there is one.
    pub stamp: Option<&'a ClassifiedBy>,
    /// This build's stamp as of now.
    pub current: &'a ClassifiedBy,
    /// Whether valid reachability evidence proves the classified documents.
    pub classification_authority_available: bool,
    /// Staleness of the index; `None` when it could not be determined.
    pub index_stale: Option<bool>,
}

/// The failure of the classifier axis, if it fails.
pub open spec fn classifier_failure(stamped: Seq<char>, current: Seq<char>) -> Seq<FailureModel> {
    if !exact_identity(current) {
        seq![FailureModel::ClassifierIdentityUnavailable { identity: current }]
    } else if !exact_identity(stamped) {
        seq![FailureModel::ClassifierIdentityUnavailable { identity: stamped }]
    } else if stamped != current {
        seq![FailureModel::ClassifierIdentityMismatch { stamped, current }]
    } else {
        seq![]
    }
}

/// The failure of the prover axis, if it fails.
pub open spec fn prover_failure(stamped: Seq<char>, current: Seq<char>) -> Seq<FailureModel> {
    if stamped != current {
        seq![FailureModel::ProverConfigMismatch { stamped, current }]
    } else {
        seq![]
    }
}

/// Every failing axis, in order: authority, stamp or classifier and prover, index.
pub open spec fn currency_failures(
    stamp: Option<StampModel>,
    current: StampModel,
    authority_available: bool,
    index_stale: Option<bool>,
) -> Seq<FailureModel> {
    (if authority_available {
        seq![]
    } else {
        seq![FailureModel::ClassificationAuthorityUnavailable]
    }) + match stamp {
        None => seq![FailureModel::StampAbsent],
        Some(s) => classifier_failure(s.indexer, current.indexer) + prover_failure(
            s.prover,
            current.prover,
        ),
    } + (if index_stale == Some(true) {
        seq![FailureModel::IndexStale]
    } else {
        seq![]
    })
}

/// The classification is certifiable: authority holds, the stamp names exactly this
/// classifier under this configuration, and the index is not known to be stale.
pub open spec fn certifiable(
    stamp: Option<StampModel>,
    current: StampModel,
    authority_available: bool,
    index_stale: Option<bool>,
) -> bool {
    &&& authority_available
    &&& stamp is Some
    &&& exact_identity(current.indexer)
    &&& stamp->0.indexer == current.indexer
    &&& stamp->0.prover == current.prover
    &&& index_stale != Some(true)
}

/// Evaluates the classification currency axes and returns every failure found. The
/// list is empty exactly when the classification is certifiable.
pub fn evaluate_classification_currency(inputs: CurrencyInputs<'_>) -> (failures: Vec<
    CurrencyFailure,
>)
    ensures
        failures.deep_view() == currency_failures(
            inputs.stamp.deep_view(),
            inputs.current.deep_view(),
            inputs.classification_authority_available,
            inputs.index_stale,
        ),
        failures@.len() == 0 <==> certifiable(
            inputs.stamp.deep_view(),
            inputs.current.deep_view(),
            inputs.classification_authority_available,
            inputs.index_stale,
        ),
{
    let mut failures: Vec<CurrencyFailure> = Vec::new();
    let ghost authority: Seq<FailureModel> = if inputs.classification_authority_available {
        seq![]
    } else {
        seq![FailureModel::ClassificationAuthorityUnavailable]
    };
    if !inputs.classification_authority_available {
        failures.push(CurrencyFailure::ClassificationAuthorityUnavailable);
    }
    assert(failures.deep_view() =~= authority);
    let ghost middle: Seq<FailureModel> = match inputs.stamp.deep_view() {
        None => seq![FailureModel::StampAbsent],
        Some(s) => classifier_failure(s.indexer, inputs.current.deep_view().indexer)
            + prover_failure(s.prover, inputs.current.deep_view().prover),
    };
    match inputs.stamp {
        None => {
            failures.push(CurrencyFailure::StampAbsent);
        },
        Some(stamp) => {
            let ghost classifier = classifier_failure(
                stamp.indexer_identity@,
                inputs.current.indexer_identity@,
            );
            if !is_exact_indexer_identity(inputs.current.indexer_identity.as_str()) {
                failures.push(
                    CurrencyFailure::ClassifierIdentityUnavailable {
                        identity: inputs.current.indexer_identity.clone(),
                    },
                );
            } else if !is_exact_indexer_identity(stamp.indexer_identity.as_str()) {
                failures.push(
                    CurrencyFailure::ClassifierIdentityUnavailable {
                        identity: stamp.indexer_identity.clone(),
                    },
                );
            } else if !text::same(
                stamp.indexer_identity.as_str(),
                inputs.current.indexer_identity.as_str(),
            ) {
                failures.push(
                    CurrencyFailure::ClassifierIdentityMismatch {
                        stamped: stamp.indexer_identity.clone(),
                        current: inputs.current.indexer_identity.clone(),
                    },
                );
            }
            assert(failures.deep_view() =~= authority + classifier);
            if !text::same(stamp.prover_config.as_str(), inputs.current.prover_config.as_str()) {
                failures.push(
                    CurrencyFailure::ProverConfigMismatch {
                        stamped: stamp.prover_config.clone(),
                        current: inputs.current.prover_config.clone(),
                    },
                );
            }
        },
    }
    assert(failures.deep_view() =~= authority + middle);
    let stale = match inputs.index_stale {
        Some(stale) => stale,
        None => false,
    };
    if stale {
        failures.push(CurrencyFailure::IndexStale);
    }
    assert(failures.deep_view() =~= currency_failures(
        inputs.stamp.deep_view(),
        inputs.current.deep_view(),
        inputs.classification_authority_available,
        inputs.index_stale,
    ));
    proof {
        law_certifiable_iff_no_failure(
            inputs.stamp.deep_view(),
            inputs.current.deep_view(),
            inputs.classification_authority_available,
            inputs.index_stale,
        );
    }
    failures
}

/// No axis fails exactly when the classification is certifiable.
pub proof fn law_certifiable_iff_no_failure(
    stamp: Option<StampModel>,
    current: StampModel,
    authority_available: bool,
    index_stale: Option<bool>,
)
    ensures
        currency_failures(stamp, current, authority_available, index_stale).len() == 0
            <==> certifiable(stamp, current, authority_available, index_stale),
{
}

/// Human build provenance and the time of classification never decide currency.
pub proof fn law_build_provenance_is_informational(
    first: StampModel,
    second: StampModel,
    current: StampModel,
    authority_available: bool,
    index_stale: Option<bool>,
)
    requires
        first.indexer == second.indexer,
        first.prover == second.prover,
    ensures
        currency_failures(Some(first), current, authority_available, index_stale)
            == currency_failures(Some(second), current, authority_available, index_stale),
{
}

/// Failing axes are all reported: a stale index is named whatever else fails, and so
/// is missing authority.
pub proof fn law_axes_are_reported_independently(
    stamp: Option<StampModel>,
    current: StampModel,
    authority_available: bool,
    index_stale: Option<bool>,
)
    ensures
        currency_failures(stamp, current, authority_available, index_stale).contains(
            FailureModel::IndexStale,
        ) <==> index_stale == Some(true),
        currency_failures(stamp, current, authority_available, index_stale).contains(
            FailureModel::ClassificationAuthorityUnavailable,
        ) <==> !authority_available,
        currency_failures(stamp, current, authority_available, index_stale).contains(
            FailureModel::StampAbsent,
        ) <==> stamp is None,
{
    let all = currency_failures(stamp, current, authority_available, index_stale);
    let a: Seq<FailureModel> = if authority_available {
        seq![]
    } else {
        seq![FailureModel::ClassificationAuthorityUnavailable]
    };
    let m: Seq<FailureModel> = match stamp {
        None => seq![FailureModel::StampAbsent],
        Some(s) => classifier_failure(s.indexer, current.indexer) + prover_failure(
            s.prover,
            current.prover,
        ),
    };
    let z: Seq<FailureModel> = if index_stale == Some(true) {
        seq![FailureModel::IndexStale]
    } else {
        seq![]
    };
    assert(all =~= a + m + z);
    if index_stale == Some(true) {
        assert(all[all.len() - 1] == FailureModel::IndexStale);
    }
    if !authority_available {
        assert(all[0] == FailureModel::ClassificationAuthorityUnavailable);
    }
    if stamp is None {
        assert(all[a.len() as int] == FailureModel::StampAbsent);
    }
}

/// A stamp names another classifier or configuration than the running one exactly if they
/// differ, and an identity that is no exact digest never counts as the same.
pub proof fn law_stamp_is_held_to_the_running_build(
    stamp: StampModel,
    current: StampModel,
    authority_available: bool,
    index_stale: Option<bool>,
)
    ensures
        ({
            let all = currency_failures(Some(stamp), current, authority_available, index_stale);
            &&& all.contains(
                FailureModel::ProverConfigMismatch {
                    stamped: stamp.prover,
                    current: current.prover,
                },
            ) <==> stamp.prover != current.prover
            &&& all.contains(
                FailureModel::ClassifierIdentityMismatch {
                    stamped: stamp.indexer,
                    current: current.indexer,
                },
            ) <==> exact_identity(stamp.indexer) && exact_identity(current.indexer)
                && stamp.indexer != current.indexer
            &&& !exact_identity(current.indexer) ==> all.contains(
                FailureModel::ClassifierIdentityUnavailable { identity: current.indexer },
            )
            &&& exact_identity(current.indexer) && !exact_identity(stamp.indexer) ==> all.contains(
                FailureModel::ClassifierIdentityUnavailable { identity: stamp.indexer },
            )
            &&& all.len() == 0 <==> authority_available && index_stale != Some(true)
                && exact_identity(current.indexer) && stamp.indexer == current.indexer
                && stamp.prover == current.prover
        }),
{
    let all = currency_failures(Some(stamp), current, authority_available, index_stale);
    let a: Seq<FailureModel> = if authority_available {
        seq![]
    } else {
        seq![FailureModel::ClassificationAuthorityUnavailable]
    };
    let c = classifier_failure(stamp.indexer, current.indexer);
    let p = prover_failure(stamp.prover, current.prover);
    let z: Seq<FailureModel> = if index_stale == Some(true) {
        seq![FailureModel::IndexStale]
    } else {
        seq![]
    };
    assert(all =~= a + c + p + z);
    if c.len() > 0 {
        assert(all[a.len() as int] == c[0]);
    }
    if p.len() > 0 {
        assert(all[(a.len() + c.len()) as int] == p[0]);
    }
    let prover = FailureModel::ProverConfigMismatch {
        stamped: stamp.prover,
        current: current.prover,
    };
    let classifier = FailureModel::ClassifierIdentityMismatch {
        stamped: stamp.indexer,
        current: current.indexer,
    };
    if all.contains(prover) {
        let k = all.index_of(prover);
        assert(all[k] == prover);
        if p.len() == 0 {
            assert(k < a.len() || k < a.len() + c.len() || all[k] == z[k - a.len() - c.len()]);
        }
    }
    if all.contains(classifier) {
        let k = all.index_of(classifier);
        assert(all[k] == classifier);
    }
}

/// The provenance of a build is approximate exactly if its identity says that the tree had
/// uncommitted changes or that version control could not answer.
pub proof fn law_approximate_builds_say_so(build: Seq<char>, stamp: StampModel)
    requires
        stamp.build == build,
    ensures
        stamp.approximation() is Some <==> "+dirty"@.is_suffix_of(build)
            || "+nogit"@.is_suffix_of(build),
        "+dirty"@.is_suffix_of(build) ==> stamp.approximation() == Some(
            ApproximateIdentity::Dirty,
        ),
{
}

/// A stamp is complete exactly if no field is empty and its classifier identity is an exact
/// digest.
pub proof fn law_stamp_is_complete_or_refused(stamp: StampModel)
    ensures
        stamp.complete() <==> stamp.build.len() > 0 && stamp.prover.len() > 0
            && stamp.timestamp.len() > 0 && exact_identity(stamp.indexer),
{
}

/// An exact identity is the digest prefix and 64 lower-case hexadecimal digits behind it, and
/// every such text is one.
pub proof fn law_exact_identities_are_digests(identity: Seq<char>, digits: Seq<char>)
    ensures
        exact_identity("sha256:"@ + digits) <==> digits.len() == 64 && forall|i: int|
            0 <= i < digits.len() ==> ('0' <= #[trigger] digits[i] <= '9' || 'a' <= digits[i]
                <= 'f'),
        exact_identity(identity) ==> identity.len() == "sha256:"@.len() + 64
            && "sha256:"@.is_prefix_of(identity),
{
    let whole = "sha256:"@ + digits;
    let n = "sha256:"@.len() as int;
    assert(whole.skip(n) =~= digits);
    assert(whole.subrange(0, n) =~= "sha256:"@);
    assert("sha256:"@.is_prefix_of(whole));
}

/// A stamp of this build is complete, names this build and its classifier, and carries a time.
pub proof fn law_own_stamp_names_this_build(stamp: StampModel)
    requires
        own_stamp(stamp),
    ensures
        stamp.build == BUILD_IDENTITY@,
        stamp.indexer == INDEXER_IDENTITY@,
        stamp.prover == "code-intel=1"@,
        stamp.timestamp.len() >= 20,
        stamp.timestamp[stamp.timestamp.len() - 1] == 'Z',
        exact_identity(stamp.indexer),
{
}

} // verus!
