//! What the semantic providers did in a run, and the outcome of a persistent provider's
//! lane.
//!
//! This is bounded telemetry of one process, not persisted authority.

use vstd::prelude::*;

use crate::domain::{
    CapabilityReceipt, CapabilityScope, CapabilityStatus, ConfigurationId, LanguageId,
    ProviderExecutionRoot, ReceiptModel, ScopeModel, CALLS_CONFIGURATION_ID,
};
use crate::duration;
use crate::duration::Duration;
use crate::index_timing;
use crate::index_timing::{
    record_semantic_provider_execution_timings, IndexPhaseTiming, IndexProgressEvent,
    IndexProgressPhase, IndexProgressState, SemanticProviderRefreshTiming,
};
use crate::ordered;
use crate::ordered::StringMap;
use crate::payload::{EvidenceModel, ScipArtifactEvidence};
use crate::text;
use crate::text::decimal;
use crate::values::Value;

verus! {

/// An operation of the provider protocol.
#[derive(Debug, Clone, PartialEq, Eq)]
pub enum ProviderOperation {
    OpenSession,
    CertifyFull,
    /// Any other operation, by its protocol name.
    Named(String),
}

/// An operation as plain text.
pub enum OperationModel {
    OpenSession,
    CertifyFull,
    Named(Seq<char>),
}

impl DeepView for ProviderOperation {
    type V = OperationModel;

    open spec fn deep_view(&self) -> OperationModel {
        match *self {
            ProviderOperation::OpenSession => OperationModel::OpenSession,
            ProviderOperation::CertifyFull => OperationModel::CertifyFull,
            ProviderOperation::Named(name) => OperationModel::Named(name@),
        }
    }
}

impl Value for ProviderOperation {
    fn copy(&self) -> (r: Self) {
        match self {
            ProviderOperation::OpenSession => ProviderOperation::OpenSession,
            ProviderOperation::CertifyFull => ProviderOperation::CertifyFull,
            ProviderOperation::Named(name) => ProviderOperation::Named(name.clone()),
        }
    }

    fn same(&self, other: &Self) -> (r: bool) {
        match (self, other) {
            (ProviderOperation::OpenSession, ProviderOperation::OpenSession) => true,
            (ProviderOperation::CertifyFull, ProviderOperation::CertifyFull) => true,
            (ProviderOperation::Named(a), ProviderOperation::Named(b)) => a.same(b),
            _ => false,
        }
    }
}

/// How much of the source a refresh covered.
#[derive(Debug, Clone, Copy, PartialEq, Eq, Structural)]
pub enum SemanticProviderRefreshLane {
    AffectedDocuments,
    AffectedRoots,
    Full,
}

impl SemanticProviderRefreshLane {
    pub open spec fn label_spec(self) -> Seq<char> {
        match self {
            SemanticProviderRefreshLane::AffectedDocuments => "affected_documents"@,
            SemanticProviderRefreshLane::AffectedRoots => "affected_roots"@,
            SemanticProviderRefreshLane::Full => "full"@,
        }
    }

    pub fn label(self) -> (r: &'static str)
        ensures
            r@ == self.label_spec(),
    {
        match self {
            SemanticProviderRefreshLane::AffectedDocuments => "affected_documents",
            SemanticProviderRefreshLane::AffectedRoots => "affected_roots",
            SemanticProviderRefreshLane::Full => "full",
        }
    }
}

/// How a provider session was opened.
#[derive(Debug, Clone, Copy, PartialEq, Eq, Structural)]
pub struct SemanticProviderSessionOpenTelemetry {
    pub execution_roots: usize,
    pub max_parallelism: usize,
    pub duration_ms: u64,
}

/// What a provider did for one language.
#[derive(Debug, Clone, PartialEq, Eq)]
pub enum SemanticProviderActivityTelemetry {
    Reused { language_id: String, session_open: Option<SemanticProviderSessionOpenTelemetry> },
    Admitted {
        language_id: String,
        lane: SemanticProviderRefreshLane,
        operation: ProviderOperation,
        documents: Vec<String>,
        session_open: Option<SemanticProviderSessionOpenTelemetry>,
    },
    Failed {
        language_id: String,
        attempted_operations: Vec<ProviderOperation>,
        session_open: Option<SemanticProviderSessionOpenTelemetry>,
    },
}

/// An activity as plain text.
pub enum ActivityModel {
    Reused { language: Seq<char>, session_open: Option<SemanticProviderSessionOpenTelemetry> },
    Admitted {
        language: Seq<char>,
        lane: SemanticProviderRefreshLane,
        operation: OperationModel,
        documents: Seq<Seq<char>>,
        session_open: Option<SemanticProviderSessionOpenTelemetry>,
    },
    Failed {
        language: Seq<char>,
        attempted: Seq<OperationModel>,
        session_open: Option<SemanticProviderSessionOpenTelemetry>,
    },
}

impl DeepView for SemanticProviderActivityTelemetry {
    type V = ActivityModel;

    open spec fn deep_view(&self) -> ActivityModel {
        match *self {
            SemanticProviderActivityTelemetry::Reused { language_id, session_open } => {
                ActivityModel::Reused { language: language_id@, session_open }
            },
            SemanticProviderActivityTelemetry::Admitted {
                language_id,
                lane,
                operation,
                documents,
                session_open,
            } => ActivityModel::Admitted {
                language: language_id@,
                lane,
                operation: operation.deep_view(),
                documents: documents.deep_view(),
                session_open,
            },
            SemanticProviderActivityTelemetry::Failed {
                language_id,
                attempted_operations,
                session_open,
            } => ActivityModel::Failed {
                language: language_id@,
                attempted: attempted_operations.deep_view(),
                session_open,
            },
        }
    }
}

impl ActivityModel {
    pub open spec fn language(self) -> Seq<char> {
        match self {
            ActivityModel::Reused { language, .. } => language,
            ActivityModel::Admitted { language, .. } => language,
            ActivityModel::Failed { language, .. } => language,
        }
    }
}

/// The machine-readable form of an activity. A field without a value is null, except
/// for the attempted operations, which are absent.
#[derive(Debug, Clone, PartialEq, Eq)]
pub struct ActivityFields {
    pub language: String,
    pub lane: &'static str,
    pub operation: Option<ProviderOperation>,
    pub attempted_operations: Option<Vec<ProviderOperation>>,
    pub documents: Vec<String>,
    pub session_open: Option<SemanticProviderSessionOpenTelemetry>,
}

/// Machine-readable fields as plain text.
pub struct FieldsModel {
    pub language: Seq<char>,
    pub lane: Seq<char>,
    pub operation: Option<OperationModel>,
    pub attempted: Option<Seq<OperationModel>>,
    pub documents: Seq<Seq<char>>,
    pub session_open: Option<SemanticProviderSessionOpenTelemetry>,
}

impl DeepView for ActivityFields {
    type V = FieldsModel;

    open spec fn deep_view(&self) -> FieldsModel {
        FieldsModel {
            language: self.language@,
            lane: self.lane@,
            operation: self.operation.deep_view(),
            attempted: self.attempted_operations.deep_view(),
            documents: self.documents.deep_view(),
            session_open: self.session_open,
        }
    }
}

impl ActivityModel {
    /// The machine-readable fields.
    pub open spec fn fields(self) -> FieldsModel {
        match self {
            ActivityModel::Reused { language, session_open } => FieldsModel {
                language,
                lane: "reused"@,
                operation: None,
                attempted: None,
                documents: seq![],
                session_open,
            },
            ActivityModel::Admitted { language, lane, operation, documents, session_open } => {
                FieldsModel {
                    language,
                    lane: lane.label_spec(),
                    operation: Some(operation),
                    attempted: None,
                    documents,
                    session_open,
                }
            },
            ActivityModel::Failed { language, attempted, session_open } => FieldsModel {
                language,
                lane: "failed"@,
                operation: None,
                attempted: Some(attempted),
                documents: seq![],
                session_open,
            },
        }
    }
}

impl SemanticProviderActivityTelemetry {
    /// The language that the provider worked on.
    pub fn language_id(&self) -> (r: &str)
        ensures
            r@ == self.deep_view().language(),
    {
        match self {
            SemanticProviderActivityTelemetry::Reused { language_id, .. } => language_id.as_str(),
            SemanticProviderActivityTelemetry::Admitted { language_id, .. } => language_id.as_str(),
            SemanticProviderActivityTelemetry::Failed { language_id, .. } => language_id.as_str(),
        }
    }

    /// The machine-readable fields.
    pub fn json_value(&self) -> (r: ActivityFields)
        ensures
            r.deep_view() == self.deep_view().fields(),
    {
        match self {
            SemanticProviderActivityTelemetry::Reused { language_id, session_open } => {
                let r = ActivityFields {
                    language: language_id.clone(),
                    lane: "reused",
                    operation: None,
                    attempted_operations: None,
                    documents: Vec::new(),
                    session_open: *session_open,
                };
                assert(r.documents.deep_view() =~= seq![]);
                r
            },
            SemanticProviderActivityTelemetry::Admitted {
                language_id,
                lane,
                operation,
                documents,
                session_open,
            } => ActivityFields {
                language: language_id.clone(),
                lane: lane.label(),
                operation: Some(operation.copy()),
                attempted_operations: None,
                documents: documents.copy(),
                session_open: *session_open,
            },
            SemanticProviderActivityTelemetry::Failed {
                language_id,
                attempted_operations,
                session_open,
            } => {
                let r = ActivityFields {
                    language: language_id.clone(),
                    lane: "failed",
                    operation: None,
                    attempted_operations: Some(attempted_operations.copy()),
                    documents: Vec::new(),
                    session_open: *session_open,
                };
                assert(r.documents.deep_view() =~= seq![]);
                r
            },
        }
    }
}

/// Measurements of opening a session.
#[derive(Debug, Clone, Copy, PartialEq, Eq, Structural)]
pub struct SemanticProviderSessionOpenMetrics {
    pub execution_roots: usize,
    pub max_parallelism: usize,
    pub duration: Duration,
}

/// What an admitted refresh covered.
#[derive(Debug)]
pub enum SemanticProviderAdmittedRefreshKind {
    Affected { documents: StringMap<()> },
    AffectedRoots { roots: usize },
    Full,
}

/// What a provider reports of itself.
#[derive(Debug)]
pub enum SemanticProviderActivity {
    Reused { session_open: Option<SemanticProviderSessionOpenMetrics> },
    Admitted {
        refresh: SemanticProviderAdmittedRefreshKind,
        operation: ProviderOperation,
        session_open: Option<SemanticProviderSessionOpenMetrics>,
    },
    Failed {
        attempted_operations: Vec<ProviderOperation>,
        session_open: Option<SemanticProviderSessionOpenMetrics>,
    },
}

/// An activity with its measured steps.
#[derive(Debug)]
pub struct SemanticProviderActivityRecord {
    pub activity: SemanticProviderActivity,
    pub timings: Vec<SemanticProviderRefreshTiming>,
}

/// Whole milliseconds, as far as 64 bits go.
pub open spec fn millis_of(duration: Duration) -> u64 {
    let millis = duration.nanos / 1_000_000;
    if millis <= u64::MAX {
        millis as u64
    } else {
        u64::MAX
    }
}

/// What is reported of opening a session.
pub open spec fn session_of(open: Option<SemanticProviderSessionOpenMetrics>) -> Option<
    SemanticProviderSessionOpenTelemetry,
> {
    match open {
        Some(open) => Some(
            SemanticProviderSessionOpenTelemetry {
                execution_roots: open.execution_roots,
                max_parallelism: open.max_parallelism,
                duration_ms: millis_of(open.duration),
            },
        ),
        None => None,
    }
}

fn session_telemetry(open: Option<SemanticProviderSessionOpenMetrics>) -> (r: Option<
    SemanticProviderSessionOpenTelemetry,
>)
    ensures
        r == session_of(open),
{
    match open {
        Some(open) => {
            let millis = open.duration.as_millis();
            let duration_ms: u64 = if millis <= u64::MAX as u128 {
                millis as u64
            } else {
                u64::MAX
            };
            Some(
                SemanticProviderSessionOpenTelemetry {
                    execution_roots: open.execution_roots,
                    max_parallelism: open.max_parallelism,
                    duration_ms,
                },
            )
        },
        None => None,
    }
}

/// What is reported of an activity. Only a refresh of single documents names them.
pub open spec fn telemetry_of(language: Seq<char>, activity: SemanticProviderActivity) -> ActivityModel {
    match activity {
        SemanticProviderActivity::Reused { session_open } => ActivityModel::Reused {
            language,
            session_open: session_of(session_open),
        },
        SemanticProviderActivity::Admitted { refresh, operation, session_open } => {
            ActivityModel::Admitted {
                language,
                lane: match refresh {
                    SemanticProviderAdmittedRefreshKind::Affected { .. } => {
                        SemanticProviderRefreshLane::AffectedDocuments
                    },
                    SemanticProviderAdmittedRefreshKind::AffectedRoots { .. } => {
                        SemanticProviderRefreshLane::AffectedRoots
                    },
                    SemanticProviderAdmittedRefreshKind::Full => SemanticProviderRefreshLane::Full,
                },
                operation: operation.deep_view(),
                documents: match refresh {
                    SemanticProviderAdmittedRefreshKind::Affected { documents } => ordered::keys_of(
                        documents.listing(),
                    ),
                    _ => seq![],
                },
                session_open: session_of(session_open),
            }
        },
        SemanticProviderActivity::Failed { attempted_operations, session_open } => {
            ActivityModel::Failed {
                language,
                attempted: attempted_operations.deep_view(),
                session_open: session_of(session_open),
            }
        },
    }
}

fn key_list(map: &StringMap<()>) -> (r: Vec<String>)
    ensures
        r.deep_view() == ordered::keys_of(map.listing()),
{
    let entries = map.entries();
    let mut r: Vec<String> = Vec::new();
    for i in 0..entries.len()
        invariant
            entries@ == map.listing(),
            r@.len() == i,
            forall|j: int| 0 <= j < i ==> (#[trigger] r@[j])@ == entries@[j].0@,
    {
        r.push(entries[i].0.clone());
    }
    assert(r.deep_view() =~= ordered::keys_of(map.listing()));
    r
}

/// Reports a provider's activity, if there is one, and hands on its measured steps.
pub fn record_semantic_provider_activity(
    refreshes: &mut Vec<SemanticProviderActivityTelemetry>,
    language_id: &str,
    record: Option<SemanticProviderActivityRecord>,
) -> (r: Vec<SemanticProviderRefreshTiming>)
    ensures
        match record {
            Some(record) => final(refreshes).deep_view() == old(refreshes).deep_view().push(
                telemetry_of(language_id@, record.activity),
            ) && r == record.timings,
            None => *final(refreshes) == *old(refreshes) && r@.len() == 0,
        },
{
    let record = match record {
        Some(record) => record,
        None => {
            return Vec::new();
        },
    };
    let activity = match record.activity {
        SemanticProviderActivity::Reused { session_open } => {
            SemanticProviderActivityTelemetry::Reused {
                language_id: language_id.to_owned(),
                session_open: session_telemetry(session_open),
            }
        },
        SemanticProviderActivity::Admitted { refresh, operation, session_open } => {
            let (lane, documents) = match refresh {
                SemanticProviderAdmittedRefreshKind::Affected { documents } => (
                    SemanticProviderRefreshLane::AffectedDocuments,
                    key_list(&documents),
                ),
                SemanticProviderAdmittedRefreshKind::AffectedRoots { .. } => (
                    SemanticProviderRefreshLane::AffectedRoots,
                    Vec::new(),
                ),
                SemanticProviderAdmittedRefreshKind::Full => (
                    SemanticProviderRefreshLane::Full,
                    Vec::new(),
                ),
            };
            assert(documents@.len() == 0 ==> documents.deep_view() =~= seq![]);
            SemanticProviderActivityTelemetry::Admitted {
                language_id: language_id.to_owned(),
                lane,
                operation,
                documents,
                session_open: session_telemetry(session_open),
            }
        },
        SemanticProviderActivity::Failed { attempted_operations, session_open } => {
            SemanticProviderActivityTelemetry::Failed {
                language_id: language_id.to_owned(),
                attempted_operations,
                session_open: session_telemetry(session_open),
            }
        },
    };
    let ghost before = refreshes.deep_view();
    refreshes.push(activity);
    assert(refreshes.deep_view() =~= before.push(activity.deep_view()));
    record.timings
}

/// The roots of a language and its ecosystem, in order.
pub open spec fn roots_of(
    roots: Seq<ProviderExecutionRoot>,
    language: Seq<char>,
    ecosystem: Seq<char>,
) -> Seq<Seq<char>>
    decreases roots.len(),
{
    if roots.len() == 0 {
        seq![]
    } else {
        let before = roots_of(roots.drop_last(), language, ecosystem);
        let last = roots.last();
        if last.language_id@ == language && last.ecosystem_id@ == ecosystem {
            before.push(last.path@)
        } else {
            before
        }
    }
}

/// The relative paths of a language's execution roots in its ecosystem.
pub fn semantic_provider_execution_roots(
    roots: &Vec<ProviderExecutionRoot>,
    language: &str,
    ecosystem: &str,
) -> (r: Vec<String>)
    ensures
        r.deep_view() == roots_of(roots@, language@, ecosystem@),
{
    let mut r: Vec<String> = Vec::new();
    assert(r.deep_view() =~= roots_of(roots@.take(0), language@, ecosystem@));
    for i in 0..roots.len()
        invariant
            r.deep_view() == roots_of(roots@.take(i as int), language@, ecosystem@),
    {
        assert(roots@.take(i + 1).drop_last() =~= roots@.take(i as int));
        let ghost before = r.deep_view();
        if text::same(roots[i].language_id.as_str(), language) && text::same(
            roots[i].ecosystem_id.as_str(),
            ecosystem,
        ) {
            r.push(roots[i].path.clone());
            assert(r.deep_view() =~= before.push(roots@[i as int].path@));
        }
    }
    assert(roots@.take(roots@.len() as int) =~= roots@);
    r
}

/// A persistent provider, as its lane knows it.
#[derive(Debug, Clone, PartialEq, Eq)]
pub struct LaneProvider {
    pub language: String,
    pub provider_id: String,
    pub operation_label: String,
}

/// What happened in a lane. `N` is what normalization hands back.
#[derive(Debug)]
pub enum LaneEvent<N> {
    /// The language has no execution root.
    NoExecutionRoot,
    /// The retained basis was admitted as it is.
    Reused {
        normalization: N,
        normalization_total: Duration,
        elapsed: Duration,
        activity: Option<SemanticProviderActivityRecord>,
    },
    /// The provider ran.
    Refreshed {
        normalization: N,
        normalization_total: Duration,
        elapsed: Duration,
        activity: Option<SemanticProviderActivityRecord>,
    },
    /// The provider failed.
    Failed {
        error: String,
        cancelled: bool,
        elapsed: Duration,
        activity: Option<SemanticProviderActivityRecord>,
    },
}

/// What a lane does next.
#[derive(Debug, Clone, Copy, PartialEq, Eq, Structural)]
pub enum LaneStep {
    /// Nothing: the language has no execution root, or the retained basis was admitted.
    End,
    /// It tries to admit the retained basis as it is.
    TryReuse,
    /// It runs the provider.
    Refresh,
}

/// The next step of a lane. `reuse` says whether the retained basis was admitted, once
/// that was tried. A provider runs only after its basis was refused.
pub fn next_lane_step(execution_roots: usize, reuse: Option<bool>) -> (r: LaneStep)
    ensures
        r == (if execution_roots == 0 || reuse == Some(true) {
            LaneStep::End
        } else if reuse is None {
            LaneStep::TryReuse
        } else {
            LaneStep::Refresh
        }),
{
    if execution_roots == 0 {
        return LaneStep::End;
    }
    match reuse {
        None => LaneStep::TryReuse,
        Some(true) => LaneStep::End,
        Some(false) => LaneStep::Refresh,
    }
}

/// What a lane leaves behind.
#[derive(Debug)]
pub struct PersistentSemanticProviderLaneOutcome<N> {
    pub normalization: Option<N>,
    pub reused: bool,
    pub failure: Option<ScipArtifactEvidence>,
    pub refreshes: Vec<SemanticProviderActivityTelemetry>,
    pub phase_timings: Vec<IndexPhaseTiming>,
    /// What is to be shown of the lane's end.
    pub progress: Option<IndexProgressEvent>,
}

/// The indexing operation was cancelled.
#[derive(Debug, Clone, Copy, PartialEq, Eq, Structural)]
pub struct LaneCancelled;

/// The steps that an event carries.
pub open spec fn steps_of(activity: Option<SemanticProviderActivityRecord>) -> Seq<
    SemanticProviderRefreshTiming,
> {
    match activity {
        Some(record) => record.timings@,
        None => seq![],
    }
}

/// The activity that an event reports.
pub open spec fn reports_of(
    language: Seq<char>,
    activity: Option<SemanticProviderActivityRecord>,
) -> Seq<ActivityModel> {
    match activity {
        Some(record) => seq![telemetry_of(language, record.activity)],
        None => seq![],
    }
}

/// How many exact roots a lane works on, in words.
pub open spec fn root_count_text(roots: nat) -> Seq<char> {
    text::dec(roots) + " exact project root(s)"@
}

/// The evidence that stands for a failed provider: no weaker authority takes its place.
pub open spec fn lane_failure(provider: LaneProvider) -> EvidenceModel {
    EvidenceModel {
        language: provider.language@,
        receipt: ReceiptModel {
            capability: "calls"@,
            provider: provider.provider_id@,
            version: None,
            scope: ScopeModel::Language {
                language: provider.language@,
                configuration: CALLS_CONFIGURATION_ID@,
            },
            fingerprint: None,
            status: CapabilityStatus::Unavailable,
            reason_code: Some("provider_failed_or_unavailable"@),
            reason: Some(
                "the persistent h00ligan "@ + provider.language@
                    + " provider failed its authority or health contract; weaker one-shot authority was refused"@,
            ),
        },
        payload: None,
    }
}

/// An event as it is shown: state, detail and elapsed time.
pub open spec fn is_shown(
    event: IndexProgressEvent,
    state: IndexProgressState,
    label: Seq<char>,
    detail: Seq<char>,
    elapsed: Option<Duration>,
) -> bool {
    &&& event.phase == IndexProgressPhase::SemanticProvider
    &&& event.state == state
    &&& event.label@ == label
    &&& event.detail@ == detail
    &&& event.elapsed == elapsed
}

/// The lane leaves nothing behind.
pub open spec fn is_empty_outcome<N>(outcome: PersistentSemanticProviderLaneOutcome<N>) -> bool {
    &&& outcome.normalization is None
    &&& !outcome.reused
    &&& outcome.failure is None
    &&& outcome.refreshes@.len() == 0
    &&& outcome.phase_timings@.len() == 0
    &&& outcome.progress is None
}

/// The outcome is what the event calls for. A lane without an execution root leaves
/// nothing behind.
pub open spec fn is_lane_outcome<N>(
    outcome: PersistentSemanticProviderLaneOutcome<N>,
    provider: LaneProvider,
    roots: nat,
    event: LaneEvent<N>,
) -> bool {
    if roots == 0 {
        is_empty_outcome(outcome)
    } else {
        is_active_outcome(outcome, provider, roots, event)
    }
}

/// The outcome of a lane in which something happened.
pub open spec fn is_active_outcome<N>(
    outcome: PersistentSemanticProviderLaneOutcome<N>,
    provider: LaneProvider,
    roots: nat,
    event: LaneEvent<N>,
) -> bool {
    let language = provider.language@;
    let label = provider.operation_label@;
    match event {
        LaneEvent::NoExecutionRoot => false,
        LaneEvent::Reused { normalization, normalization_total, elapsed, activity } => {
            &&& outcome.normalization == Some(normalization)
            &&& outcome.reused
            &&& outcome.failure is None
            &&& outcome.refreshes.deep_view() == reports_of(language, activity)
            &&& outcome.phase_timings.deep_view() == index_timing::execution_rows(
                language,
                language + " exact semantic basis admission"@,
                elapsed,
                normalization_total,
                steps_of(activity),
            )
            &&& outcome.progress is None
        },
        LaneEvent::Refreshed { normalization, normalization_total, elapsed, activity } => {
            &&& outcome.normalization == Some(normalization)
            &&& !outcome.reused
            &&& outcome.failure is None
            &&& outcome.refreshes.deep_view() == reports_of(language, activity)
            &&& outcome.phase_timings.deep_view() == index_timing::execution_rows(
                language,
                label + " execution and cache work"@,
                elapsed,
                normalization_total,
                steps_of(activity),
            )
            &&& outcome.progress is Some && is_shown(
                outcome.progress->0,
                IndexProgressState::Completed,
                label,
                root_count_text(roots),
                Some(elapsed),
            )
        },
        LaneEvent::Failed { error, cancelled, elapsed, activity } => {
            &&& outcome.normalization is None
            &&& !outcome.reused
            &&& outcome.failure is Some && outcome.failure->0.deep_view() == lane_failure(provider)
            &&& outcome.refreshes.deep_view() == reports_of(language, activity)
            &&& outcome.phase_timings.deep_view() == index_timing::execution_rows(
                language,
                label + " certification failed"@,
                elapsed,
                (Duration { nanos: 0 }),
                steps_of(activity),
            )
            &&& outcome.progress is Some && is_shown(
                outcome.progress->0,
                IndexProgressState::Failed,
                label,
                error@ + "; Calls authority for "@ + language + " is unavailable"@,
                Some(elapsed),
            )
        },
    }
}

/// The steps of an event, where it has some.
pub open spec fn event_steps<N>(event: LaneEvent<N>) -> Seq<SemanticProviderRefreshTiming> {
    match event {
        LaneEvent::NoExecutionRoot => seq![],
        LaneEvent::Reused { activity, .. } => steps_of(activity),
        LaneEvent::Refreshed { activity, .. } => steps_of(activity),
        LaneEvent::Failed { activity, .. } => steps_of(activity),
    }
}

/// The progress event with which a refresh starts.
pub fn lane_started(provider: &LaneProvider, roots: usize) -> (r: IndexProgressEvent)
    ensures
        is_shown(
            r,
            IndexProgressState::Started,
            provider.operation_label@,
            root_count_text(roots as nat),
            None,
        ),
{
    let mut detail = decimal(roots as u64);
    detail.append(" exact project root(s)");
    IndexProgressEvent {
        phase: IndexProgressPhase::SemanticProvider,
        state: IndexProgressState::Started,
        label: provider.operation_label.clone(),
        detail,
        elapsed: None,
    }
}

/// The outcome of a persistent provider's lane with some execution roots. Without a root
/// it leaves nothing behind. A failure while the operation is being cancelled is a
/// cancellation; any other failure leaves evidence that no authority is available.
pub fn run_persistent_semantic_provider_lane<N>(
    provider: &LaneProvider,
    roots: usize,
    event: LaneEvent<N>,
) -> (r: Result<PersistentSemanticProviderLaneOutcome<N>, LaneCancelled>)
    requires
        index_timing::refresh_nanos(event_steps(event)) <= duration::MAX_NANOS,
        event is NoExecutionRoot ==> roots == 0,
    ensures
        match r {
            Ok(outcome) => (roots == 0 || !(event is Failed && event->cancelled))
                && is_lane_outcome(outcome, *provider, roots as nat, event),
            Err(_) => roots > 0 && event is Failed && event->cancelled,
        },
{
    let language = provider.language.as_str();
    let mut refreshes: Vec<SemanticProviderActivityTelemetry> = Vec::new();
    let mut phase_timings: Vec<IndexPhaseTiming> = Vec::new();
    assert(refreshes.deep_view() =~= seq![]);
    assert(phase_timings.deep_view() =~= seq![]);
    if roots == 0 {
        return Ok(
            PersistentSemanticProviderLaneOutcome {
                normalization: None,
                reused: false,
                failure: None,
                refreshes,
                phase_timings,
                progress: None,
            },
        );
    }
    match event {
        LaneEvent::NoExecutionRoot => Ok(
            PersistentSemanticProviderLaneOutcome {
                normalization: None,
                reused: false,
                failure: None,
                refreshes,
                phase_timings,
                progress: None,
            },
        ),
        LaneEvent::Reused { normalization, normalization_total, elapsed, activity } => {
            let steps = record_semantic_provider_activity(&mut refreshes, language, activity);
            assert(steps@ =~= steps_of(activity));
            assert(refreshes.deep_view() =~= reports_of(language@, activity));
            let mut summary = language.to_owned();
            summary.append(" exact semantic basis admission");
            record_semantic_provider_execution_timings(
                &mut phase_timings,
                language,
                summary.as_str(),
                elapsed,
                normalization_total,
                steps,
            );
            assert(phase_timings.deep_view() =~= index_timing::execution_rows(
                language@,
                summary@,
                elapsed,
                normalization_total,
                steps_of(activity),
            ));
            Ok(
                PersistentSemanticProviderLaneOutcome {
                    normalization: Some(normalization),
                    reused: true,
                    failure: None,
                    refreshes,
                    phase_timings,
                    progress: None,
                },
            )
        },
        LaneEvent::Refreshed { normalization, normalization_total, elapsed, activity } => {
            let steps = record_semantic_provider_activity(&mut refreshes, language, activity);
            assert(steps@ =~= steps_of(activity));
            assert(refreshes.deep_view() =~= reports_of(language@, activity));
            let mut summary = provider.operation_label.clone();
            summary.append(" execution and cache work");
            record_semantic_provider_execution_timings(
                &mut phase_timings,
                language,
                summary.as_str(),
                elapsed,
                normalization_total,
                steps,
            );
            assert(phase_timings.deep_view() =~= index_timing::execution_rows(
                language@,
                summary@,
                elapsed,
                normalization_total,
                steps_of(activity),
            ));
            let mut detail = decimal(roots as u64);
            detail.append(" exact project root(s)");
            Ok(
                PersistentSemanticProviderLaneOutcome {
                    normalization: Some(normalization),
                    reused: false,
                    failure: None,
                    refreshes,
                    phase_timings,
                    progress: Some(
                        IndexProgressEvent {
                            phase: IndexProgressPhase::SemanticProvider,
                            state: IndexProgressState::Completed,
                            label: provider.operation_label.clone(),
                            detail,
                            elapsed: Some(elapsed),
                        },
                    ),
                },
            )
        },
        LaneEvent::Failed { error, cancelled, elapsed, activity } => {
            if cancelled {
                return Err(LaneCancelled);
            }
            let steps = record_semantic_provider_activity(&mut refreshes, language, activity);
            assert(steps@ =~= steps_of(activity));
            assert(refreshes.deep_view() =~= reports_of(language@, activity));
            let mut summary = provider.operation_label.clone();
            summary.append(" certification failed");
            record_semantic_provider_execution_timings(
                &mut phase_timings,
                language,
                summary.as_str(),
                elapsed,
                Duration::zero(),
                steps,
            );
            assert(phase_timings.deep_view() =~= index_timing::execution_rows(
                language@,
                summary@,
                elapsed,
                Duration { nanos: 0 },
                steps_of(activity),
            ));
            let mut detail = error;
            detail.append("; Calls authority for ");
            detail.append(language);
            detail.append(" is unavailable");
            let mut reason = "the persistent h00ligan ".to_owned();
            reason.append(language);
            reason.append(
                " provider failed its authority or health contract; weaker one-shot authority was refused",
            );
            let failure = ScipArtifactEvidence {
                language_id: LanguageId::new(language),
                receipt: CapabilityReceipt::unavailable(
                    "calls",
                    provider.provider_id.as_str(),
                    None,
                    CapabilityScope::Language {
                        language_id: LanguageId::new(language),
                        configuration_id: ConfigurationId::new(CALLS_CONFIGURATION_ID),
                    },
                    None,
                    "provider_failed_or_unavailable",
                    reason.as_str(),
                ),
                payload: None,
            };
            Ok(
                PersistentSemanticProviderLaneOutcome {
                    normalization: None,
                    reused: false,
                    failure: Some(failure),
                    refreshes,
                    phase_timings,
                    progress: Some(
                        IndexProgressEvent {
                            phase: IndexProgressPhase::SemanticProvider,
                            state: IndexProgressState::Failed,
                            label: provider.operation_label.clone(),
                            detail,
                            elapsed: Some(elapsed),
                        },
                    ),
                },
            )
        },
    }
}

/// A lane that ends without cancellation either hands on a normalization or, where a
/// root exists, evidence that authority is unavailable; never both.
pub proof fn law_lane_never_keeps_weaker_authority<N>(
    outcome: PersistentSemanticProviderLaneOutcome<N>,
    provider: LaneProvider,
    roots: nat,
    event: LaneEvent<N>,
)
    requires
        is_lane_outcome(outcome, provider, roots, event),
    ensures
        !(outcome.normalization is Some && outcome.failure is Some),
        roots > 0 && event is Failed ==> outcome.failure is Some
            && outcome.failure->0.deep_view().receipt.status == CapabilityStatus::Unavailable
            && outcome.failure->0.deep_view().payload is None,
        roots == 0 || outcome.normalization is Some || outcome.failure is Some,
{
}

/// A root carries the language and the ecosystem.
pub open spec fn carries(language: Seq<char>, ecosystem: Seq<char>) -> spec_fn(
    ProviderExecutionRoot,
) -> bool {
    |root: ProviderExecutionRoot|
        root.language_id@ == language && root.ecosystem_id@ == ecosystem
}

/// Where a root lies.
pub open spec fn place() -> spec_fn(ProviderExecutionRoot) -> Seq<char> {
    |root: ProviderExecutionRoot| root.path@
}

/// The roots of a language and its ecosystem are exactly the paths of the project's roots
/// that carry both, one for each such root.
pub proof fn law_execution_roots_are_exact(
    roots: Seq<ProviderExecutionRoot>,
    language: Seq<char>,
    ecosystem: Seq<char>,
)
    ensures
        roots_of(roots, language, ecosystem) == roots.filter(
            carries(language, ecosystem),
        ).map_values(place()),
        roots_of(roots, language, ecosystem).len() > 0 <==> exists|i: int|
            0 <= i < roots.len() && (#[trigger] roots[i]).language_id@ == language
                && roots[i].ecosystem_id@ == ecosystem,
    decreases roots.len(),
{
    let pred = carries(language, ecosystem);
    let path = place();
    reveal(Seq::filter);
    if roots.len() > 0 {
        let front = roots.drop_last();
        law_execution_roots_are_exact(front, language, ecosystem);
        let last = roots.last();
        assert(roots =~= front.push(last));
        assert(roots.filter(pred) == if pred(last) {
            front.filter(pred).push(last)
        } else {
            front.filter(pred)
        });
        assert(roots_of(roots, language, ecosystem) =~= roots.filter(pred).map_values(path));
        assert(roots[roots.len() - 1] == last);
        if exists|i: int|
            0 <= i < front.len() && (#[trigger] front[i]).language_id@ == language
                && front[i].ecosystem_id@ == ecosystem {
            let i = choose|i: int|
                0 <= i < front.len() && (#[trigger] front[i]).language_id@ == language
                    && front[i].ecosystem_id@ == ecosystem;
            assert(roots[i] == front[i]);
        }
        if exists|i: int|
            0 <= i < roots.len() && (#[trigger] roots[i]).language_id@ == language
                && roots[i].ecosystem_id@ == ecosystem {
            let i = choose|i: int|
                0 <= i < roots.len() && (#[trigger] roots[i]).language_id@ == language
                    && roots[i].ecosystem_id@ == ecosystem;
            if i < front.len() {
                assert(front[i] == roots[i]);
            }
        }
    } else {
        assert(roots_of(roots, language, ecosystem) =~= roots.filter(pred).map_values(path));
    }
}

/// A lane hands on what happened in it. An admitted basis is handed on as reused, a refresh as
/// not reused; a failure leaves the provider's own unavailable calls receipt for the language,
/// without version, input or payload. And the activity is reported exactly if there was one,
/// under the lane's language.
pub proof fn law_lane_hands_on_what_happened<N>(
    outcome: PersistentSemanticProviderLaneOutcome<N>,
    provider: LaneProvider,
    roots: nat,
    event: LaneEvent<N>,
)
    requires
        is_lane_outcome(outcome, provider, roots, event),
        roots > 0,
    ensures
        event is Reused ==> outcome.normalization == Some(event->Reused_normalization)
            && outcome.reused && outcome.failure is None,
        event is Refreshed ==> outcome.normalization == Some(event->Refreshed_normalization)
            && !outcome.reused && outcome.failure is None,
        event is Failed ==> outcome.normalization is None && !outcome.reused
            && outcome.failure is Some && {
            let failure = outcome.failure->0.deep_view();
            &&& failure.language == provider.language@
            &&& failure.payload is None
            &&& failure.receipt.capability == "calls"@
            &&& failure.receipt.provider == provider.provider_id@
            &&& failure.receipt.version is None
            &&& failure.receipt.fingerprint is None
            &&& failure.receipt.status == CapabilityStatus::Unavailable
            &&& failure.receipt.reason_code == Some("provider_failed_or_unavailable"@)
            &&& failure.receipt.scope == (ScopeModel::Language {
                language: provider.language@,
                configuration: "calls"@,
            })
        },
        ({
            let activity = match event {
                LaneEvent::NoExecutionRoot => None,
                LaneEvent::Reused { activity, .. } => activity,
                LaneEvent::Refreshed { activity, .. } => activity,
                LaneEvent::Failed { activity, .. } => activity,
            };
            &&& activity is None ==> outcome.refreshes.deep_view().len() == 0
            &&& activity is Some ==> outcome.refreshes.deep_view().len() == 1
                && outcome.refreshes.deep_view()[0].language() == provider.language@
        }),
{
}

/// An activity is reported as what it was. A reuse as a reuse; an admitted refresh with its
/// operation, as one of documents, of roots or of everything, and with its documents exactly in
/// the first case; a failure with every operation that was attempted.
pub proof fn law_activity_is_reported_as_it_was(
    language: Seq<char>,
    activity: SemanticProviderActivity,
)
    ensures
        ({
            let model = telemetry_of(language, activity);
            let fields = model.fields();
            &&& fields.language == language && model.language() == language
            &&& activity is Reused ==> model is Reused && fields.lane == "reused"@
                && fields.operation is None && fields.documents.len() == 0
                && fields.attempted is None
            &&& activity is Failed ==> model is Failed && fields.lane == "failed"@
                && fields.operation is None && fields.documents.len() == 0 && fields.attempted
                == Some(activity->attempted_operations.deep_view())
            &&& activity is Admitted ==> {
                let refresh = activity->refresh;
                &&& model is Admitted && fields.attempted is None
                &&& fields.operation == Some(activity->operation.deep_view())
                &&& refresh is Affected ==> fields.lane == "affected_documents"@
                    && fields.documents == ordered::keys_of(refresh->documents.listing())
                &&& refresh is AffectedRoots ==> fields.lane == "affected_roots"@
                    && fields.documents.len() == 0
                &&& refresh is Full ==> fields.lane == "full"@ && fields.documents.len() == 0
            }
        }),
{
}

/// The opening of a session is reported whole, its duration in whole milliseconds.
pub proof fn law_session_is_reported_whole(open: SemanticProviderSessionOpenMetrics)
    ensures
        session_of(None) is None,
        session_of(Some(open)) is Some,
        session_of(Some(open))->0.execution_roots == open.execution_roots,
        session_of(Some(open))->0.max_parallelism == open.max_parallelism,
        open.duration.nanos / 1_000_000 <= u64::MAX ==> session_of(Some(open))->0.duration_ms
            == open.duration.nanos / 1_000_000,
        open.duration.nanos / 1_000_000 > u64::MAX ==> session_of(Some(open))->0.duration_ms
            == u64::MAX,
{
}

/// A lane without a root leaves nothing at all behind: no evidence, no failure, no refresh, no
/// time and nothing to show.
pub proof fn law_lane_without_roots_leaves_nothing<N>(
    outcome: PersistentSemanticProviderLaneOutcome<N>,
    provider: LaneProvider,
    event: LaneEvent<N>,
)
    requires
        is_lane_outcome(outcome, provider, 0, event),
    ensures
        outcome.normalization is None && !outcome.reused && outcome.failure is None,
        outcome.refreshes@.len() == 0 && outcome.phase_timings@.len() == 0,
        outcome.progress is None,
{
}

/// The time of a lane is accounted for: a row of the provider's own work, which is what the
/// normalization leaves of the whole, a row for each step with its own span, and a row of what
/// the steps leave. A failed lane normalized nothing.
pub proof fn law_lane_accounts_for_its_time<N>(
    outcome: PersistentSemanticProviderLaneOutcome<N>,
    provider: LaneProvider,
    roots: nat,
    event: LaneEvent<N>,
    i: int,
)
    requires
        is_lane_outcome(outcome, provider, roots, event),
        roots > 0,
        0 <= i < event_steps(event).len(),
    ensures
        ({
            let rows = outcome.phase_timings.deep_view();
            let steps = event_steps(event);
            let spent = match event {
                LaneEvent::NoExecutionRoot => (0int, 0int),
                LaneEvent::Reused { normalization_total, elapsed, .. } => (
                    elapsed.nanos as int,
                    normalization_total.nanos as int,
                ),
                LaneEvent::Refreshed { normalization_total, elapsed, .. } => (
                    elapsed.nanos as int,
                    normalization_total.nanos as int,
                ),
                LaneEvent::Failed { elapsed, .. } => (elapsed.nanos as int, 0),
            };
            &&& rows.len() == steps.len() + 2
            &&& rows[i + 1].duration == steps[i].duration
            &&& rows[i + 1].aggregation is Exclusive
            &&& spent.1 <= spent.0 ==> rows[0].duration.nanos + spent.1 == spent.0
            &&& rows[0].aggregation is ConcurrentSpan
        }),
{
    let language = provider.language@;
    let label = provider.operation_label@;
    match event {
        LaneEvent::NoExecutionRoot => {},
        LaneEvent::Reused { normalization_total, elapsed, .. } => {
            index_timing::law_execution_rows_show_the_steps(
                language,
                language + " exact semantic basis admission"@,
                elapsed,
                normalization_total,
                event_steps(event),
                i,
            );
        },
        LaneEvent::Refreshed { normalization_total, elapsed, .. } => {
            index_timing::law_execution_rows_show_the_steps(
                language,
                label + " execution and cache work"@,
                elapsed,
                normalization_total,
                event_steps(event),
                i,
            );
        },
        LaneEvent::Failed { elapsed, .. } => {
            index_timing::law_execution_rows_show_the_steps(
                language,
                label + " certification failed"@,
                elapsed,
                (Duration { nanos: 0 }),
                event_steps(event),
                i,
            );
        },
    }
}

/// A reuse shows no progress of its own. A refresh shows that it is complete and a failure that
/// it failed, each under the label of its operation and with its whole time.
pub proof fn law_lane_shows_how_it_ended<N>(
    outcome: PersistentSemanticProviderLaneOutcome<N>,
    provider: LaneProvider,
    roots: nat,
    event: LaneEvent<N>,
)
    requires
        is_lane_outcome(outcome, provider, roots, event),
        roots > 0,
    ensures
        event is Reused ==> outcome.progress is None,
        outcome.progress is Some ==> outcome.progress->0.phase is SemanticProvider
            && outcome.progress->0.label@ == provider.operation_label@,
        event matches LaneEvent::Refreshed { elapsed, .. } ==> outcome.progress is Some
            && outcome.progress->0.state is Completed && outcome.progress->0.elapsed == Some(
            elapsed,
        ),
        event matches LaneEvent::Failed { error, elapsed, .. } ==> outcome.progress is Some
            && outcome.progress->0.state is Failed && outcome.progress->0.elapsed == Some(elapsed)
            && error@.is_prefix_of(outcome.progress->0.detail@),
{
    if let LaneEvent::Failed { error, .. } = event {
        let detail = outcome.progress->0.detail@;
        assert(detail.subrange(0, error@.len() as int) =~= error@);
    }
}

} // verus!
