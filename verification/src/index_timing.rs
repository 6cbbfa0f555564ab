//! Where the time of an indexing run goes: phases, timing rows and the profile.

use vstd::prelude::*;

use crate::duration;
use crate::duration::Duration;
use crate::text;
use crate::text::decimal;

verus! {

/// The stable phases of a run.
#[derive(Debug, Clone, Copy, PartialEq, Eq, Structural)]
pub enum IndexProgressPhase {
    Reuse,
    Prepare,
    StructuralScan,
    SemanticProvider,
    Finalize,
    Publish,
}

impl IndexProgressPhase {
    pub open spec fn label_spec(self) -> Seq<char> {
        match self {
            IndexProgressPhase::Reuse => "reuse"@,
            IndexProgressPhase::Prepare => "prepare"@,
            IndexProgressPhase::StructuralScan => "structural"@,
            IndexProgressPhase::SemanticProvider => "semantic_provider"@,
            IndexProgressPhase::Finalize => "finalize"@,
            IndexProgressPhase::Publish => "publish"@,
        }
    }

    pub fn label(self) -> (r: &'static str)
        ensures
            r@ == self.label_spec(),
    {
        match self {
            IndexProgressPhase::Reuse => "reuse",
            IndexProgressPhase::Prepare => "prepare",
            IndexProgressPhase::StructuralScan => "structural",
            IndexProgressPhase::SemanticProvider => "semantic_provider",
            IndexProgressPhase::Finalize => "finalize",
            IndexProgressPhase::Publish => "publish",
        }
    }
}

/// The state of one phase.
#[derive(Debug, Clone, Copy, PartialEq, Eq, Structural)]
pub enum IndexProgressState {
    Started,
    Completed,
    Skipped,
    Failed,
}

/// One progress event.
#[derive(Debug, Clone, PartialEq, Eq)]
pub struct IndexProgressEvent {
    pub phase: IndexProgressPhase,
    pub state: IndexProgressState,
    pub label: String,
    pub detail: String,
    pub elapsed: Option<Duration>,
}

/// A progress event as plain text.
pub struct EventModel {
    pub phase: IndexProgressPhase,
    pub state: IndexProgressState,
    pub label: Seq<char>,
    pub detail: Seq<char>,
    pub elapsed: Option<Duration>,
}

impl DeepView for IndexProgressEvent {
    type V = EventModel;

    open spec fn deep_view(&self) -> EventModel {
        EventModel {
            phase: self.phase,
            state: self.state,
            label: self.label@,
            detail: self.detail@,
            elapsed: self.elapsed,
        }
    }
}

/// How a timing row takes part in sums.
#[derive(Debug, Clone, Copy, PartialEq, Eq, Structural)]
pub enum IndexTimingAggregation {
    /// Disjoint from the other exclusive rows of its phase.
    Exclusive,
    /// May overlap other rows; good for ranking, never to be added.
    ConcurrentSpan,
}

impl IndexTimingAggregation {
    pub open spec fn label_spec(self) -> Seq<char> {
        match self {
            IndexTimingAggregation::Exclusive => "exclusive"@,
            IndexTimingAggregation::ConcurrentSpan => "concurrent_span"@,
        }
    }

    pub fn label(self) -> (r: &'static str)
        ensures
            r@ == self.label_spec(),
    {
        match self {
            IndexTimingAggregation::Exclusive => "exclusive",
            IndexTimingAggregation::ConcurrentSpan => "concurrent_span",
        }
    }
}

/// One timing row.
#[derive(Debug, Clone, PartialEq, Eq)]
pub struct IndexPhaseTiming {
    pub phase: IndexProgressPhase,
    pub label: String,
    pub duration: Duration,
    pub aggregation: IndexTimingAggregation,
}

/// A timing row as plain text.
pub struct TimingModel {
    pub phase: IndexProgressPhase,
    pub label: Seq<char>,
    pub duration: Duration,
    pub aggregation: IndexTimingAggregation,
}

impl DeepView for IndexPhaseTiming {
    type V = TimingModel;

    open spec fn deep_view(&self) -> TimingModel {
        TimingModel {
            phase: self.phase,
            label: self.label@,
            duration: self.duration,
            aggregation: self.aggregation,
        }
    }
}

/// An exclusive row.
pub open spec fn exclusive_row(
    phase: IndexProgressPhase,
    label: Seq<char>,
    duration: Duration,
) -> TimingModel {
    TimingModel { phase, label, duration, aggregation: IndexTimingAggregation::Exclusive }
}

/// Makes an exclusive row.
pub fn exclusive(phase: IndexProgressPhase, label: &str, duration: Duration) -> (r:
    IndexPhaseTiming)
    ensures
        r.deep_view() == exclusive_row(phase, label@, duration),
{
    IndexPhaseTiming {
        phase,
        label: label.to_owned(),
        duration,
        aggregation: IndexTimingAggregation::Exclusive,
    }
}

/// Adds a row.
pub fn push_row(rows: &mut Vec<IndexPhaseTiming>, row: IndexPhaseTiming)
    ensures
        final(rows).deep_view() == old(rows).deep_view().push(row.deep_view()),
{
    let ghost before = rows.deep_view();
    rows.push(row);
    assert(rows.deep_view() =~= before.push(row.deep_view()));
}

/// The nanoseconds of the exclusive rows together.
pub open spec fn exclusive_nanos(rows: Seq<TimingModel>) -> int
    decreases rows.len(),
{
    if rows.len() == 0 {
        0
    } else {
        exclusive_nanos(rows.drop_last()) + if rows.last().aggregation
            == IndexTimingAggregation::Exclusive {
            rows.last().duration.nanos as int
        } else {
            0
        }
    }
}

/// How a normalizer run spent its time, with the sizes that it worked on.
#[derive(Debug, Clone, Copy, PartialEq, Eq, Structural)]
pub struct ScipNormalizationTimings {
    pub total: Duration,
    pub setup: Duration,
    pub source_validation: Duration,
    pub coverage_exclusion_setup: Duration,
    pub occurrence_indexing: Duration,
    pub definition_collection: Duration,
    pub definition_canonicalization: Duration,
    pub binding_and_lookup_indexing: Duration,
    pub call_resolution: Duration,
    pub coverage_validation: Duration,
    pub payload_finalization: Duration,
    pub source_documents: usize,
    pub syntax_cache_hits: usize,
    pub provider_documents: usize,
    pub provider_document_cache_hits: usize,
    pub definition_document_cache_hits: usize,
    pub definition_groups: usize,
    pub definition_group_reuse_hits: usize,
    pub call_documents: usize,
    pub call_document_reuse_hits: usize,
}

impl ScipNormalizationTimings {
    /// The nanoseconds of the measured components together.
    pub open spec fn measured(self) -> int {
        self.setup.nanos + self.source_validation.nanos + self.coverage_exclusion_setup.nanos
            + self.occurrence_indexing.nanos + self.definition_collection.nanos
            + self.definition_canonicalization.nanos + self.binding_and_lookup_indexing.nanos
            + self.call_resolution.nanos + self.coverage_validation.nanos
            + self.payload_finalization.nanos
    }

    /// What the measured components leave of the total.
    pub open spec fn unmeasured(self) -> Duration {
        let measured = duration::capped(self.measured());
        Duration {
            nanos: if measured <= self.total.nanos {
                (self.total.nanos - measured) as u128
            } else {
                0
            },
        }
    }
}

/// "hits of all, of some kind" in brackets.
pub open spec fn hit_note(hits: nat, all: nat, kind: Seq<char>) -> Seq<char> {
    " ("@ + text::dec(hits) + "/"@ + text::dec(all) + kind + ")"@
}

fn hit_text(component: &str, hits: usize, all: usize, kind: &str) -> (r: String)
    ensures
        r@ == component@ + hit_note(hits as nat, all as nat, kind@),
{
    let mut note = " (".to_owned();
    note.append(decimal(hits as u64).as_str());
    note.append("/");
    note.append(decimal(all as u64).as_str());
    note.append(kind);
    note.append(")");
    let mut words = component.to_owned();
    words.append(note.as_str());
    words
}

/// An exclusive row of the semantic phase, labelled by run and component.
pub open spec fn component_row(
    label: Seq<char>,
    component: Seq<char>,
    duration: Duration,
) -> TimingModel {
    exclusive_row(IndexProgressPhase::SemanticProvider, label + " "@ + component, duration)
}

/// The rows of a normalizer run: its components, and what they leave of the total.
pub open spec fn normalizer_rows(label: Seq<char>, t: ScipNormalizationTimings) -> Seq<
    TimingModel,
> {
    seq![
        component_row(label, "normalizer setup"@, t.setup),
        component_row(
            label,
            "source validation and syntax census"@ + hit_note(
                t.syntax_cache_hits as nat,
                t.source_documents as nat,
                " cache hits"@,
            ),
            t.source_validation,
        ),
        component_row(label, "coverage exclusion setup"@, t.coverage_exclusion_setup),
        component_row(
            label,
            "occurrence indexing"@ + hit_note(
                t.provider_document_cache_hits as nat,
                t.provider_documents as nat,
                " document cache hits"@,
            ),
            t.occurrence_indexing,
        ),
        component_row(
            label,
            "definition collection"@ + hit_note(
                t.definition_document_cache_hits as nat,
                t.provider_documents as nat,
                " document cache hits"@,
            ),
            t.definition_collection,
        ),
        component_row(
            label,
            "definition canonicalization"@ + hit_note(
                t.definition_group_reuse_hits as nat,
                t.definition_groups as nat,
                " group reuse hits"@,
            ),
            t.definition_canonicalization,
        ),
        component_row(label, "binding and lookup indexing"@, t.binding_and_lookup_indexing),
        component_row(
            label,
            "call resolution"@ + hit_note(
                t.call_document_reuse_hits as nat,
                t.call_documents as nat,
                " document reuse hits"@,
            ),
            t.call_resolution,
        ),
        component_row(label, "coverage validation"@, t.coverage_validation),
        component_row(label, "payload finalization"@, t.payload_finalization),
        component_row(label, "normalizer orchestration"@, t.unmeasured()),
    ]
}

fn component(label: &str, name: &str, duration: Duration) -> (r: IndexPhaseTiming)
    ensures
        r.deep_view() == component_row(label@, name@, duration),
{
    let mut words = label.to_owned();
    words.append(" ");
    words.append(name);
    IndexPhaseTiming {
        phase: IndexProgressPhase::SemanticProvider,
        label: words,
        duration,
        aggregation: IndexTimingAggregation::Exclusive,
    }
}

/// Splits a normalizer run into mutually exclusive rows.
pub fn semantic_normalizer_components(label: &str, timings: ScipNormalizationTimings) -> (r: Vec<
    IndexPhaseTiming,
>)
    ensures
        r.deep_view() == normalizer_rows(label@, timings),
{
    let t = timings;
    let measured = t.setup.saturating_add(t.source_validation).saturating_add(
        t.coverage_exclusion_setup,
    ).saturating_add(t.occurrence_indexing).saturating_add(t.definition_collection).saturating_add(
        t.definition_canonicalization,
    ).saturating_add(t.binding_and_lookup_indexing).saturating_add(
        t.call_resolution,
    ).saturating_add(t.coverage_validation).saturating_add(t.payload_finalization);
    assert(measured.nanos == duration::capped(t.measured()));
    let orchestration = t.total.saturating_sub(measured);
    assert(orchestration == t.unmeasured());
    let source_validation = hit_text(
        "source validation and syntax census",
        t.syntax_cache_hits,
        t.source_documents,
        " cache hits",
    );
    let occurrence_indexing = hit_text(
        "occurrence indexing",
        t.provider_document_cache_hits,
        t.provider_documents,
        " document cache hits",
    );
    let definition_collection = hit_text(
        "definition collection",
        t.definition_document_cache_hits,
        t.provider_documents,
        " document cache hits",
    );
    let definition_canonicalization = hit_text(
        "definition canonicalization",
        t.definition_group_reuse_hits,
        t.definition_groups,
        " group reuse hits",
    );
    let call_resolution = hit_text(
        "call resolution",
        t.call_document_reuse_hits,
        t.call_documents,
        " document reuse hits",
    );
    let mut rows: Vec<IndexPhaseTiming> = Vec::new();
    rows.push(component(label, "normalizer setup", t.setup));
    rows.push(component(label, source_validation.as_str(), t.source_validation));
    rows.push(component(label, "coverage exclusion setup", t.coverage_exclusion_setup));
    rows.push(component(label, occurrence_indexing.as_str(), t.occurrence_indexing));
    rows.push(component(label, definition_collection.as_str(), t.definition_collection));
    rows.push(
        component(label, definition_canonicalization.as_str(), t.definition_canonicalization),
    );
    rows.push(component(label, "binding and lookup indexing", t.binding_and_lookup_indexing));
    rows.push(component(label, call_resolution.as_str(), t.call_resolution));
    rows.push(component(label, "coverage validation", t.coverage_validation));
    rows.push(component(label, "payload finalization", t.payload_finalization));
    rows.push(component(label, "normalizer orchestration", orchestration));
    assert(rows.deep_view() =~= normalizer_rows(label@, timings));
    rows
}

/// The rows of a normalizer run add up to its total, as long as the components, which
/// do not overlap, do not exceed it.
pub proof fn law_normalizer_rows_partition_the_total(label: Seq<char>, t: ScipNormalizationTimings)
    requires
        t.measured() <= t.total.nanos,
        t.total.nanos <= duration::MAX_NANOS,
    ensures
        normalizer_rows(label, t).len() == 11,
        exclusive_nanos(normalizer_rows(label, t)) == t.total.nanos,
{
    let rows = normalizer_rows(label, t);
    reveal_with_fuel(exclusive_nanos, 12);
    assert(rows.drop_last() =~= rows.take(10));
    assert(rows.take(10).drop_last() =~= rows.take(9));
    assert(rows.take(9).drop_last() =~= rows.take(8));
    assert(rows.take(8).drop_last() =~= rows.take(7));
    assert(rows.take(7).drop_last() =~= rows.take(6));
    assert(rows.take(6).drop_last() =~= rows.take(5));
    assert(rows.take(5).drop_last() =~= rows.take(4));
    assert(rows.take(4).drop_last() =~= rows.take(3));
    assert(rows.take(3).drop_last() =~= rows.take(2));
    assert(rows.take(2).drop_last() =~= rows.take(1));
    assert(rows.take(1).drop_last() =~= rows.take(0));
}

/// One measured step of a provider refresh.
#[derive(Debug, Clone, Copy, PartialEq, Eq)]
pub struct SemanticProviderRefreshTiming {
    pub label: &'static str,
    pub duration: Duration,
}

/// The nanoseconds of some steps together.
pub open spec fn refresh_nanos(timings: Seq<SemanticProviderRefreshTiming>) -> int
    decreases timings.len(),
{
    if timings.len() == 0 {
        0
    } else {
        refresh_nanos(timings.drop_last()) + timings.last().duration.nanos
    }
}

/// The row of one step.
pub open spec fn refresh_row(language: Seq<char>, timing: SemanticProviderRefreshTiming) -> TimingModel {
    TimingModel {
        phase: IndexProgressPhase::SemanticProvider,
        label: language + " provider "@ + timing.label@,
        duration: timing.duration,
        aggregation: IndexTimingAggregation::Exclusive,
    }
}

/// A difference of spans, or none where it would be negative.
pub open spec fn less(a: Duration, nanos: int) -> Duration {
    Duration {
        nanos: if nanos <= a.nanos {
            (a.nanos - nanos) as u128
        } else {
            0
        },
    }
}

/// The rows of a provider run: a summary, the steps, and what they leave.
pub open spec fn execution_rows(
    language: Seq<char>,
    summary: Seq<char>,
    provider: Duration,
    normalization: Duration,
    timings: Seq<SemanticProviderRefreshTiming>,
) -> Seq<TimingModel> {
    let work = less(provider, normalization.nanos as int);
    seq![
        TimingModel {
            phase: IndexProgressPhase::SemanticProvider,
            label: summary,
            duration: work,
            aggregation: IndexTimingAggregation::ConcurrentSpan,
        },
    ] + timings.map_values(|timing: SemanticProviderRefreshTiming| refresh_row(language, timing))
        + seq![
        TimingModel {
            phase: IndexProgressPhase::SemanticProvider,
            label: language + " semantic provider coordination remainder"@,
            duration: less(work, refresh_nanos(timings)),
            aggregation: IndexTimingAggregation::Exclusive,
        },
    ]
}

proof fn lemma_refresh_nanos_grow(timings: Seq<SemanticProviderRefreshTiming>, i: int)
    requires
        0 <= i <= timings.len(),
    ensures
        0 <= refresh_nanos(timings.take(i)) <= refresh_nanos(timings),
    decreases timings.len() - i,
{
    if i == timings.len() {
        assert(timings.take(i) =~= timings);
        lemma_refresh_nonnegative(timings);
    } else {
        lemma_refresh_nanos_grow(timings, i + 1);
        assert(timings.take(i + 1).drop_last() =~= timings.take(i));
        lemma_refresh_nonnegative(timings.take(i));
    }
}

proof fn lemma_refresh_nonnegative(timings: Seq<SemanticProviderRefreshTiming>)
    ensures
        0 <= refresh_nanos(timings),
    decreases timings.len(),
{
    if timings.len() > 0 {
        lemma_refresh_nonnegative(timings.drop_last());
    }
}

/// Adds the rows of a provider run.
pub fn record_semantic_provider_execution_timings(
    phase_timings: &mut Vec<IndexPhaseTiming>,
    language_id: &str,
    summary_label: &str,
    provider_duration: Duration,
    normalization_duration: Duration,
    timings: Vec<SemanticProviderRefreshTiming>,
)
    requires
        refresh_nanos(timings@) <= duration::MAX_NANOS,
    ensures
        final(phase_timings).deep_view() == old(phase_timings).deep_view() + execution_rows(
            language_id@,
            summary_label@,
            provider_duration,
            normalization_duration,
            timings@,
        ),
{
    let ghost before = phase_timings.deep_view();
    let ghost rows = execution_rows(
        language_id@,
        summary_label@,
        provider_duration,
        normalization_duration,
        timings@,
    );
    let work = provider_duration.saturating_sub(normalization_duration);
    assert(work == less(provider_duration, normalization_duration.nanos as int));
    push_row(
        phase_timings,
        IndexPhaseTiming {
            phase: IndexProgressPhase::SemanticProvider,
            label: summary_label.to_owned(),
            duration: work,
            aggregation: IndexTimingAggregation::ConcurrentSpan,
        },
    );
    assert(phase_timings.deep_view() =~= before + rows.take(1));
    let mut measured: Duration = Duration::zero();
    let n = timings.len();
    for i in 0..n
        invariant
            n == timings@.len(),
            refresh_nanos(timings@) <= duration::MAX_NANOS,
            measured.nanos == refresh_nanos(timings@.take(i as int)),
            rows == execution_rows(
                language_id@,
                summary_label@,
                provider_duration,
                normalization_duration,
                timings@,
            ),
            phase_timings.deep_view() == before + rows.take(i + 1),
    {
        proof {
            lemma_refresh_nanos_grow(timings@, i + 1);
            assert(timings@.take(i + 1).drop_last() =~= timings@.take(i as int));
        }
        measured = measured.saturating_add(timings[i].duration);
        let mut label = language_id.to_owned();
        label.append(" provider ");
        label.append(timings[i].label);
        push_row(
            phase_timings,
            IndexPhaseTiming {
                phase: IndexProgressPhase::SemanticProvider,
                label,
                duration: timings[i].duration,
                aggregation: IndexTimingAggregation::Exclusive,
            },
        );
        assert(rows[i + 1] == refresh_row(language_id@, timings@[i as int]));
        assert(phase_timings.deep_view() =~= before + rows.take(i + 2));
    }
    assert(timings@.take(n as int) =~= timings@);
    let mut label = language_id.to_owned();
    label.append(" semantic provider coordination remainder");
    let remainder = work.saturating_sub(measured);
    assert(remainder == less(work, refresh_nanos(timings@)));
    push_row(
        phase_timings,
        IndexPhaseTiming {
            phase: IndexProgressPhase::SemanticProvider,
            label,
            duration: remainder,
            aggregation: IndexTimingAggregation::Exclusive,
        },
    );
    assert(phase_timings.deep_view() =~= before + rows);
}

proof fn lemma_exclusive_concat(a: Seq<TimingModel>, b: Seq<TimingModel>)
    ensures
        exclusive_nanos(a + b) == exclusive_nanos(a) + exclusive_nanos(b),
    decreases b.len(),
{
    if b.len() == 0 {
        assert(a + b =~= a);
    } else {
        lemma_exclusive_concat(a, b.drop_last());
        assert((a + b).drop_last() =~= a + b.drop_last());
    }
}

proof fn lemma_refresh_rows(language: Seq<char>, timings: Seq<SemanticProviderRefreshTiming>)
    ensures
        exclusive_nanos(
            timings.map_values(
                |timing: SemanticProviderRefreshTiming| refresh_row(language, timing),
            ),
        ) == refresh_nanos(timings),
    decreases timings.len(),
{
    let f = |timing: SemanticProviderRefreshTiming| refresh_row(language, timing);
    if timings.len() > 0 {
        lemma_refresh_rows(language, timings.drop_last());
        assert(timings.map_values(f).drop_last() =~= timings.drop_last().map_values(f));
    }
}

/// The exclusive rows of a provider run add up to the provider's own work, as long as
/// the measured steps do not exceed it.
pub proof fn law_execution_rows_partition_the_work(
    language: Seq<char>,
    summary: Seq<char>,
    provider: Duration,
    normalization: Duration,
    timings: Seq<SemanticProviderRefreshTiming>,
)
    requires
        refresh_nanos(timings) <= less(provider, normalization.nanos as int).nanos,
    ensures
        exclusive_nanos(execution_rows(language, summary, provider, normalization, timings))
            == less(provider, normalization.nanos as int).nanos,
{
    let rows = execution_rows(language, summary, provider, normalization, timings);
    let f = |timing: SemanticProviderRefreshTiming| refresh_row(language, timing);
    let head = rows.take(1);
    let middle = timings.map_values(f);
    let tail = rows.skip(rows.len() - 1);
    assert(rows =~= head + middle + tail);
    lemma_refresh_nonnegative(timings);
    lemma_refresh_rows(language, timings);
    lemma_exclusive_concat(head + middle, tail);
    lemma_exclusive_concat(head, middle);
    reveal_with_fuel(exclusive_nanos, 2);
    assert(head.drop_last() =~= Seq::empty());
    assert(tail.drop_last() =~= Seq::empty());
    assert(head[0].aggregation == IndexTimingAggregation::ConcurrentSpan);
    assert(tail[0].duration == less(
        less(provider, normalization.nanos as int),
        refresh_nanos(timings),
    ));
}

/// A phase of a run, as the profile shows it.
#[derive(Debug, Clone, PartialEq, Eq)]
pub struct PhaseTiming {
    pub name: &'static str,
    pub phase_num: u8,
    pub duration: Duration,
    pub detail: String,
}

/// A profiled phase as plain text.
pub struct PhaseModel {
    pub name: Seq<char>,
    pub phase_num: u8,
    pub duration: Duration,
    pub detail: Seq<char>,
}

impl DeepView for PhaseTiming {
    type V = PhaseModel;

    open spec fn deep_view(&self) -> PhaseModel {
        PhaseModel {
            name: self.name@,
            phase_num: self.phase_num,
            duration: self.duration,
            detail: self.detail@,
        }
    }
}

/// The extraction of one file.
#[derive(Debug, Clone, PartialEq, Eq)]
pub struct FileExtractTiming {
    pub file_path: String,
    pub wall_time: Duration,
    pub symbols_extracted: usize,
}

/// One step of building the graph.
#[derive(Debug, Clone, PartialEq, Eq)]
pub struct GraphBuildStepTiming {
    pub label: String,
    pub duration: Duration,
    pub items: usize,
}

/// Collects timings during a run. A disabled collector stays empty.
#[derive(Debug)]
pub struct ProfileCollector {
    pub enabled: bool,
    pub phase_timings: Vec<PhaseTiming>,
    pub graph_build_steps: Vec<GraphBuildStepTiming>,
    pub extraction_files: Vec<FileExtractTiming>,
}

/// The phase that a numbered step of a run belongs to. Semantic steps export rows of
/// their own.
pub open spec fn machine_phase(phase_num: u8) -> Option<IndexProgressPhase> {
    if 1 <= phase_num <= 6 {
        Some(IndexProgressPhase::StructuralScan)
    } else if phase_num == 8 {
        Some(IndexProgressPhase::Finalize)
    } else {
        None
    }
}

/// The rows of the profiled phases.
pub open spec fn phase_rows(timings: Seq<PhaseTiming>) -> Seq<TimingModel>
    decreases timings.len(),
{
    if timings.len() == 0 {
        seq![]
    } else {
        let before = phase_rows(timings.drop_last());
        match machine_phase(timings.last().phase_num) {
            Some(phase) => before.push(
                TimingModel {
                    phase,
                    label: "profile: "@ + timings.last().name@,
                    duration: timings.last().duration,
                    aggregation: IndexTimingAggregation::ConcurrentSpan,
                },
            ),
            None => before,
        }
    }
}

/// The row of a step of building the graph.
pub open spec fn step_row(step: GraphBuildStepTiming) -> TimingModel {
    TimingModel {
        phase: IndexProgressPhase::StructuralScan,
        label: "profile: graph build / "@ + step.label@,
        duration: step.duration,
        aggregation: IndexTimingAggregation::ConcurrentSpan,
    }
}

/// The nanoseconds of some phases together.
pub open spec fn phase_nanos(timings: Seq<PhaseTiming>) -> int
    decreases timings.len(),
{
    if timings.len() == 0 {
        0
    } else {
        phase_nanos(timings.drop_last()) + timings.last().duration.nanos
    }
}

/// The nanoseconds of extracting some files together.
pub open spec fn extraction_nanos(files: Seq<FileExtractTiming>) -> int
    decreases files.len(),
{
    if files.len() == 0 {
        0
    } else {
        extraction_nanos(files.drop_last()) + files.last().wall_time.nanos
    }
}

/// The symbols of some files together.
pub open spec fn extraction_symbols(files: Seq<FileExtractTiming>) -> int
    decreases files.len(),
{
    if files.len() == 0 {
        0
    } else {
        extraction_symbols(files.drop_last()) + files.last().symbols_extracted
    }
}

/// What a profile comes to.
#[derive(Debug, Clone, Copy, PartialEq, Eq, Structural)]
pub struct ProfileSummary {
    pub total_elapsed: Duration,
    /// Time outside every phase.
    pub dead_time: Duration,
    /// The position of the longest phase; of equally long ones, the last.
    pub bottleneck: Option<usize>,
    pub extraction: Option<ExtractionSummary>,
}

/// What the extraction of the files comes to.
#[derive(Debug, Clone, Copy, PartialEq, Eq, Structural)]
pub struct ExtractionSummary {
    pub symbols: usize,
    pub wall: Duration,
    /// The position of the slowest file; of equally slow ones, the last.
    pub slowest: usize,
}

/// The position of the last longest span.
pub open spec fn is_last_longest(nanos: Seq<u128>, k: int) -> bool {
    &&& 0 <= k < nanos.len()
    &&& forall|j: int| 0 <= j < nanos.len() ==> #[trigger] nanos[j] <= nanos[k]
    &&& forall|j: int| k < j < nanos.len() ==> #[trigger] nanos[j] < nanos[k]
}

pub open spec fn phase_spans(timings: Seq<PhaseTiming>) -> Seq<u128> {
    timings.map_values(|timing: PhaseTiming| timing.duration.nanos)
}

pub open spec fn file_spans(files: Seq<FileExtractTiming>) -> Seq<u128> {
    files.map_values(|file: FileExtractTiming| file.wall_time.nanos)
}

impl ProfileCollector {
    /// An empty collector.
    pub fn new(enabled: bool) -> (r: Self)
        ensures
            r.enabled == enabled,
            r.phase_timings@.len() == 0,
            r.graph_build_steps@.len() == 0,
            r.extraction_files@.len() == 0,
    {
        ProfileCollector {
            enabled,
            phase_timings: Vec::new(),
            graph_build_steps: Vec::new(),
            extraction_files: Vec::new(),
        }
    }

    /// Records a phase.
    pub fn record_phase(
        &mut self,
        name: &'static str,
        phase_num: u8,
        duration: Duration,
        detail: String,
    )
        ensures
            !old(self).enabled ==> *final(self) == *old(self),
            old(self).enabled ==> final(self).phase_timings@ == old(self).phase_timings@.push(
                PhaseTiming { name, phase_num, duration, detail },
            ),
            final(self).enabled == old(self).enabled,
            final(self).graph_build_steps == old(self).graph_build_steps,
            final(self).extraction_files == old(self).extraction_files,
    {
        if !self.enabled {
            return ;
        }
        self.phase_timings.push(PhaseTiming { name, phase_num, duration, detail });
    }

    /// Takes over the timings of the extracted files.
    pub fn merge_extraction_files(&mut self, files: Vec<FileExtractTiming>)
        ensures
            !old(self).enabled ==> *final(self) == *old(self),
            old(self).enabled ==> final(self).extraction_files == files,
            final(self).enabled == old(self).enabled,
            final(self).phase_timings == old(self).phase_timings,
            final(self).graph_build_steps == old(self).graph_build_steps,
    {
        if !self.enabled {
            return ;
        }
        self.extraction_files = files;
    }

    /// Takes over the steps of building the graph.
    pub fn merge_graph_build_steps(&mut self, steps: Vec<GraphBuildStepTiming>)
        ensures
            !old(self).enabled ==> *final(self) == *old(self),
            old(self).enabled ==> final(self).graph_build_steps == steps,
            final(self).enabled == old(self).enabled,
            final(self).phase_timings == old(self).phase_timings,
            final(self).extraction_files == old(self).extraction_files,
    {
        if !self.enabled {
            return ;
        }
        self.graph_build_steps = steps;
    }

    /// Adds the profiled phases and steps as overlapping rows.
    pub fn append_machine_timings(&self, target: &mut Vec<IndexPhaseTiming>)
        ensures
            final(target).deep_view() == if self.enabled {
                old(target).deep_view() + phase_rows(self.phase_timings@)
                    + self.graph_build_steps@.map_values(
                    |step: GraphBuildStepTiming| step_row(step),
                )
            } else {
                old(target).deep_view()
            },
    {
        if !self.enabled {
            return ;
        }
        let ghost before = target.deep_view();
        assert(before =~= before + phase_rows(self.phase_timings@.take(0)));
        for i in 0..self.phase_timings.len()
            invariant
                target.deep_view() == before + phase_rows(self.phase_timings@.take(i as int)),
        {
            let timing = &self.phase_timings[i];
            assert(self.phase_timings@.take(i + 1).drop_last() =~= self.phase_timings@.take(
                i as int,
            ));
            let phase = if 1 <= timing.phase_num && timing.phase_num <= 6 {
                Some(IndexProgressPhase::StructuralScan)
            } else if timing.phase_num == 8 {
                Some(IndexProgressPhase::Finalize)
            } else {
                None
            };
            if let Some(phase) = phase {
                let mut label = "profile: ".to_owned();
                label.append(timing.name);
                push_row(
                    target,
                    IndexPhaseTiming {
                        phase,
                        label,
                        duration: timing.duration,
                        aggregation: IndexTimingAggregation::ConcurrentSpan,
                    },
                );
            }
            assert(target.deep_view() =~= before + phase_rows(self.phase_timings@.take(i + 1)));
        }
        assert(self.phase_timings@.take(self.phase_timings@.len() as int) =~= self.phase_timings@);
        let ghost middle = target.deep_view();
        let ghost f = |step: GraphBuildStepTiming| step_row(step);
        for i in 0..self.graph_build_steps.len()
            invariant
                f == (|step: GraphBuildStepTiming| step_row(step)),
                target.deep_view() =~= middle + self.graph_build_steps@.map_values(f).take(
                    i as int,
                ),
        {
            let step = &self.graph_build_steps[i];
            let mut label = "profile: graph build / ".to_owned();
            label.append(step.label.as_str());
            push_row(
                target,
                IndexPhaseTiming {
                    phase: IndexProgressPhase::StructuralScan,
                    label,
                    duration: step.duration,
                    aggregation: IndexTimingAggregation::ConcurrentSpan,
                },
            );
            assert(self.graph_build_steps@.map_values(f)[i as int] == step_row(*step));
        }
        assert(target.deep_view() =~= middle + self.graph_build_steps@.map_values(f));
    }

    /// What the profile comes to, if it was collected.
    pub fn finish(&self, total_elapsed: Duration) -> (r: Option<ProfileSummary>)
        requires
            phase_nanos(self.phase_timings@) <= duration::MAX_NANOS,
            extraction_nanos(self.extraction_files@) <= duration::MAX_NANOS,
            extraction_symbols(self.extraction_files@) <= usize::MAX,
        ensures
            r is Some <==> self.enabled,
            r matches Some(summary) ==> {
                &&& summary.total_elapsed == total_elapsed
                &&& summary.dead_time == less(total_elapsed, phase_nanos(self.phase_timings@))
                &&& match summary.bottleneck {
                    Some(k) => is_last_longest(phase_spans(self.phase_timings@), k as int),
                    None => self.phase_timings@.len() == 0,
                }
                &&& match summary.extraction {
                    Some(extraction) => {
                        &&& extraction.symbols == extraction_symbols(self.extraction_files@)
                        &&& extraction.wall.nanos == extraction_nanos(self.extraction_files@)
                        &&& is_last_longest(
                            file_spans(self.extraction_files@),
                            extraction.slowest as int,
                        )
                    },
                    None => self.extraction_files@.len() == 0,
                }
            },
    {
        if !self.enabled {
            return None;
        }
        let ghost phases = self.phase_timings@;
        let ghost spans = phase_spans(phases);
        let mut phase_sum: Duration = Duration::zero();
        let mut bottleneck: Option<usize> = None;
        for i in 0..self.phase_timings.len()
            invariant
                phases == self.phase_timings@,
                spans == phase_spans(phases),
                phase_nanos(phases) <= duration::MAX_NANOS,
                phase_sum.nanos == phase_nanos(phases.take(i as int)),
                bottleneck is Some <==> i > 0,
                bottleneck matches Some(k) ==> k < i && is_last_longest(
                    spans.take(i as int),
                    k as int,
                ),
        {
            proof {
                lemma_phase_nanos_grow(phases, i + 1);
                assert(phases.take(i + 1).drop_last() =~= phases.take(i as int));
            }
            let span = self.phase_timings[i].duration;
            assert(spans[i as int] == span.nanos);
            phase_sum = phase_sum.saturating_add(span);
            let longer = match bottleneck {
                Some(k) => self.phase_timings[k].duration.nanos <= span.nanos,
                None => true,
            };
            proof {
                if let Some(k) = bottleneck {
                    lemma_longest_step(spans, k as int, i as int);
                }
            }
            if longer {
                bottleneck = Some(i);
            }
        }
        assert(phases.take(phases.len() as int) =~= phases);
        assert(spans.take(spans.len() as int) =~= spans);
        let dead_time = total_elapsed.saturating_sub(phase_sum);
        assert(dead_time == less(total_elapsed, phase_nanos(phases)));
        let extraction = summarize_extraction(&self.extraction_files);
        Some(ProfileSummary { total_elapsed, dead_time, bottleneck, extraction })
    }
}

proof fn lemma_longest_step(spans: Seq<u128>, k: int, i: int)
    requires
        0 <= k < i < spans.len(),
        is_last_longest(spans.take(i), k),
    ensures
        spans[k] <= spans[i] ==> is_last_longest(spans.take(i + 1), i),
        spans[k] > spans[i] ==> is_last_longest(spans.take(i + 1), k),
{
    let done = spans.take(i);
    let next = spans.take(i + 1);
    assert forall|j: int| 0 <= j < i implies #[trigger] next[j] == done[j] by {}
    assert(next[i] == spans[i] && next[k] == spans[k] && done[k] == spans[k]);
    assert forall|j: int| 0 <= j < next.len() && j != i implies #[trigger] next[j] <= next[k] by {
        assert(done[j] <= done[k]);
    }
    assert forall|j: int| k < j < i implies #[trigger] next[j] < next[k] by {
        assert(done[j] < done[k]);
    }
}

proof fn lemma_phase_nanos_grow(timings: Seq<PhaseTiming>, i: int)
    requires
        0 <= i <= timings.len(),
    ensures
        phase_nanos(timings.take(i)) <= phase_nanos(timings),
    decreases timings.len() - i,
{
    if i == timings.len() {
        assert(timings.take(i) =~= timings);
    } else {
        lemma_phase_nanos_grow(timings, i + 1);
        assert(timings.take(i + 1).drop_last() =~= timings.take(i));
    }
}

proof fn lemma_extraction_grows(files: Seq<FileExtractTiming>, i: int)
    requires
        0 <= i <= files.len(),
    ensures
        extraction_nanos(files.take(i)) <= extraction_nanos(files),
        extraction_symbols(files.take(i)) <= extraction_symbols(files),
    decreases files.len() - i,
{
    if i == files.len() {
        assert(files.take(i) =~= files);
    } else {
        lemma_extraction_grows(files, i + 1);
        assert(files.take(i + 1).drop_last() =~= files.take(i));
    }
}

fn summarize_extraction(files: &Vec<FileExtractTiming>) -> (r: Option<ExtractionSummary>)
    requires
        extraction_nanos(files@) <= duration::MAX_NANOS,
        extraction_symbols(files@) <= usize::MAX,
    ensures
        match r {
            Some(extraction) => {
                &&& extraction.symbols == extraction_symbols(files@)
                &&& extraction.wall.nanos == extraction_nanos(files@)
                &&& is_last_longest(file_spans(files@), extraction.slowest as int)
            },
            None => files@.len() == 0,
        },
{
    if files.len() == 0 {
        return None;
    }
    let ghost all = files@;
    let ghost spans = file_spans(all);
    let mut symbols: usize = 0;
    let mut wall: Duration = Duration::zero();
    let mut slowest: usize = 0;
    for i in 0..files.len()
        invariant
            all == files@,
            spans == file_spans(all),
            extraction_nanos(all) <= duration::MAX_NANOS,
            extraction_symbols(all) <= usize::MAX,
            symbols == extraction_symbols(all.take(i as int)),
            wall.nanos == extraction_nanos(all.take(i as int)),
            i > 0 ==> slowest < i && is_last_longest(spans.take(i as int), slowest as int),
            i == 0 ==> slowest == 0,
    {
        proof {
            lemma_extraction_grows(all, i + 1);
            assert(all.take(i + 1).drop_last() =~= all.take(i as int));
        }
        let span = files[i].wall_time;
        assert(spans[i as int] == span.nanos);
        symbols = symbols + files[i].symbols_extracted;
        wall = wall.saturating_add(span);
        assert(spans[slowest as int] == all[slowest as int].wall_time.nanos);
        proof {
            if i > 0 {
                lemma_longest_step(spans, slowest as int, i as int);
            }
        }
        if files[slowest].wall_time.nanos <= span.nanos {
            slowest = i;
        }
    }
    assert(all.take(all.len() as int) =~= all);
    assert(spans.take(spans.len() as int) =~= spans);
    Some(ExtractionSummary { symbols, wall, slowest })
}

/// How many roots a provider may work on at once: no more than there are, than the
/// jobs that were asked for, or than the processors; without a wish, a quarter of the
/// processors, between one and four.
pub open spec fn root_parallelism(roots: nat, jobs: Option<usize>, cpus: nat) -> nat {
    let limit: nat = match jobs {
        Some(jobs) => {
            let wished: nat = if jobs < 1 {
                1
            } else {
                jobs as nat
            };
            let available: nat = if cpus < 1 {
                1
            } else {
                cpus
            };
            if wished < available {
                wished
            } else {
                available
            }
        },
        None => if cpus / 4 < 1 {
            1
        } else if cpus / 4 > 4 {
            4
        } else {
            cpus / 4
        },
    };
    if roots < limit {
        roots
    } else {
        limit
    }
}

/// How many roots a provider may work on at once.
pub fn provider_root_parallelism_for(roots: usize, jobs: Option<usize>, cpus: usize) -> (r: usize)
    ensures
        r == root_parallelism(roots as nat, jobs, cpus as nat),
{
    let limit: usize = match jobs {
        Some(jobs) => {
            let wished: usize = if jobs < 1 {
                1
            } else {
                jobs
            };
            let available: usize = if cpus < 1 {
                1
            } else {
                cpus
            };
            if wished < available {
                wished
            } else {
                available
            }
        },
        None => if cpus / 4 < 1 {
            1
        } else if cpus / 4 > 4 {
            4
        } else {
            cpus / 4
        },
    };
    if roots < limit {
        roots
    } else {
        limit
    }
}

/// Parallelism never exceeds the roots, and some root is always worked on.
pub proof fn law_parallelism_is_bounded(roots: nat, jobs: Option<usize>, cpus: nat)
    ensures
        root_parallelism(roots, jobs, cpus) <= roots,
        roots > 0 ==> root_parallelism(roots, jobs, cpus) >= 1,
        cpus >= 1 ==> root_parallelism(roots, jobs, cpus) <= cpus,
{
}

/// How many roots are worked on at once. With a wish it is the least of the roots, the wish and
/// the processors, where a wish for none and a machine without any count as one. Without a wish
/// it is the largest number up to four, and up to the roots, with four processors for each; one
/// root needs no more than one.
pub proof fn law_parallelism_is_exact(roots: nat, jobs: Option<usize>, cpus: nat)
    ensures
        ({
            let n = root_parallelism(roots, jobs, cpus);
            let wished = if jobs->0 == 0 {
                1
            } else {
                jobs->0 as nat
            };
            let available = if cpus == 0 {
                1
            } else {
                cpus
            };
            &&& jobs is Some ==> n <= roots && n <= wished && n <= available
            &&& jobs is Some ==> n == roots || n == wished || n == available
            &&& jobs is None ==> n <= roots && n <= 4 && (n <= 1 || 4 * n <= cpus)
            &&& jobs is None && n < roots && n < 4 ==> n >= 1 && 4 * (n + 1) > cpus
        }),
{
}

/// A span less another is what is left of it, and nothing where it is the shorter one.
pub proof fn law_what_is_left_of_a_span(a: Duration, nanos: int)
    requires
        0 <= nanos,
    ensures
        nanos <= a.nanos ==> less(a, nanos).nanos + nanos == a.nanos,
        nanos > a.nanos ==> less(a, nanos).nanos == 0,
{
}

/// Every profiled phase shows in the rows exactly if it is structural or of the finalization,
/// with its own span, behind the earlier ones. Its row may overlap others, so that profiled
/// phases never take part in a sum.
pub proof fn law_profiled_phases_are_rows(timings: Seq<PhaseTiming>, timing: PhaseTiming)
    ensures
        ({
            let before = phase_rows(timings);
            let after = phase_rows(timings.push(timing));
            let structural = 1 <= timing.phase_num <= 6;
            let finalizing = timing.phase_num == 8;
            &&& phase_rows(Seq::<PhaseTiming>::empty()).len() == 0
            &&& !structural && !finalizing ==> after == before
            &&& structural || finalizing ==> {
                &&& after.len() == before.len() + 1
                &&& after.drop_last() == before
                &&& after.last().duration == timing.duration
                &&& after.last().label == "profile: "@ + timing.name@
                &&& after.last().phase is StructuralScan <==> structural
                &&& after.last().phase is Finalize <==> finalizing
            }
        }),
        exclusive_nanos(phase_rows(timings)) == 0,
    decreases timings.len(),
{
    assert(timings.push(timing).drop_last() =~= timings);
    assert(timings.push(timing).last() == timing);
    assert(phase_rows(timings.push(timing)).drop_last() =~= phase_rows(timings) || phase_rows(
        timings.push(timing),
    ) == phase_rows(timings));
    if timings.len() > 0 {
        let front = timings.drop_last();
        law_profiled_phases_are_rows(front, timings.last());
        assert(front.push(timings.last()) =~= timings);
    }
}

/// Every sum takes each entry once: one more entry adds its own measure.
pub proof fn law_sums_take_every_entry(
    rows: Seq<TimingModel>,
    row: TimingModel,
    steps: Seq<SemanticProviderRefreshTiming>,
    step: SemanticProviderRefreshTiming,
    phases: Seq<PhaseTiming>,
    phase: PhaseTiming,
    files: Seq<FileExtractTiming>,
    file: FileExtractTiming,
)
    ensures
        exclusive_nanos(rows.push(row)) - exclusive_nanos(rows) == if row.aggregation is Exclusive {
            row.duration.nanos as int
        } else {
            0
        },
        refresh_nanos(steps.push(step)) == refresh_nanos(steps) + step.duration.nanos,
        phase_nanos(phases.push(phase)) == phase_nanos(phases) + phase.duration.nanos,
        extraction_nanos(files.push(file)) == extraction_nanos(files) + file.wall_time.nanos,
        extraction_symbols(files.push(file)) == extraction_symbols(files) + file.symbols_extracted,
        exclusive_nanos(Seq::empty()) == 0,
        refresh_nanos(Seq::empty()) == 0,
        phase_nanos(Seq::empty()) == 0,
        extraction_nanos(Seq::empty()) == 0,
        extraction_symbols(Seq::empty()) == 0,
{
    assert(rows.push(row).drop_last() =~= rows);
    assert(steps.push(step).drop_last() =~= steps);
    assert(phases.push(phase).drop_last() =~= phases);
    assert(files.push(file).drop_last() =~= files);
}

/// The rows of a normalizer run show each component's own span, in the order of the work, as
/// rows that may be added up. What the components leave of the total comes last: nothing, where
/// they exceed it.
pub proof fn law_normalizer_rows_show_the_components(
    label: Seq<char>,
    t: ScipNormalizationTimings,
    i: int,
)
    requires
        0 <= i < 11,
        t.total.nanos <= duration::MAX_NANOS,
    ensures
        ({
            let rows = normalizer_rows(label, t);
            &&& rows.len() == 11
            &&& rows[i].phase is SemanticProvider && rows[i].aggregation is Exclusive
            &&& label.is_prefix_of(rows[i].label)
            &&& rows[0].duration == t.setup
            &&& rows[1].duration == t.source_validation
            &&& rows[2].duration == t.coverage_exclusion_setup
            &&& rows[3].duration == t.occurrence_indexing
            &&& rows[4].duration == t.definition_collection
            &&& rows[5].duration == t.definition_canonicalization
            &&& rows[6].duration == t.binding_and_lookup_indexing
            &&& rows[7].duration == t.call_resolution
            &&& rows[8].duration == t.coverage_validation
            &&& rows[9].duration == t.payload_finalization
            &&& rows[10].duration.nanos <= t.total.nanos
            &&& t.measured() >= t.total.nanos ==> rows[10].duration.nanos == 0
            &&& t.measured() <= t.total.nanos ==> rows[10].duration.nanos + t.setup.nanos
                + t.source_validation.nanos + t.coverage_exclusion_setup.nanos
                + t.occurrence_indexing.nanos + t.definition_collection.nanos
                + t.definition_canonicalization.nanos + t.binding_and_lookup_indexing.nanos
                + t.call_resolution.nanos + t.coverage_validation.nanos
                + t.payload_finalization.nanos == t.total.nanos
        }),
{
    let row = normalizer_rows(label, t)[i];
    assert(exists|rest: Seq<char>| row.label == label + rest) by {
        lemma_component_label(label, t, i);
    }
    let rest = choose|rest: Seq<char>| row.label == label + rest;
    assert(row.label.subrange(0, label.len() as int) =~= label);
}

proof fn lemma_component_label(label: Seq<char>, t: ScipNormalizationTimings, i: int)
    requires
        0 <= i < 11,
    ensures
        exists|rest: Seq<char>| normalizer_rows(label, t)[i].label == label + rest,
{
    let name = normalizer_rows(label, t)[i].label;
    let rest = name.skip(label.len() as int);
    assert(name =~= label + rest);
}

/// The rows of a provider run: first the whole of its own work, which overlaps the rest; then
/// each measured step with its own span, in order; and last what the steps leave of the work.
pub proof fn law_execution_rows_show_the_steps(
    language: Seq<char>,
    summary: Seq<char>,
    provider: Duration,
    normalization: Duration,
    timings: Seq<SemanticProviderRefreshTiming>,
    i: int,
)
    requires
        0 <= i < timings.len(),
    ensures
        ({
            let rows = execution_rows(language, summary, provider, normalization, timings);
            let work = rows[0].duration.nanos;
            let rest = rows[rows.len() - 1].duration.nanos;
            &&& rows.len() == timings.len() + 2
            &&& rows[0].label == summary && rows[0].aggregation is ConcurrentSpan
            &&& normalization.nanos <= provider.nanos ==> work + normalization.nanos
                == provider.nanos
            &&& normalization.nanos > provider.nanos ==> work == 0
            &&& rows[i + 1].duration == timings[i].duration && rows[i + 1].aggregation is Exclusive
            &&& rows[rows.len() - 1].aggregation is Exclusive
            &&& refresh_nanos(timings) <= work ==> rest + refresh_nanos(timings) == work
            &&& refresh_nanos(timings) > work ==> rest == 0
        }),
{
    let rows = execution_rows(language, summary, provider, normalization, timings);
    let steps = timings.map_values(
        |timing: SemanticProviderRefreshTiming| refresh_row(language, timing),
    );
    let work = less(provider, normalization.nanos as int);
    assert(rows.len() == timings.len() + 2);
    assert(rows[0].duration == work);
    assert(rows[i + 1] == steps[i]);
    assert(steps[i] == refresh_row(language, timings[i]));
    assert(rows[rows.len() - 1].duration == less(work, refresh_nanos(timings)));
    lemma_refresh_nanos(timings);
}

proof fn lemma_refresh_nanos(timings: Seq<SemanticProviderRefreshTiming>)
    ensures
        0 <= refresh_nanos(timings),
    decreases timings.len(),
{
    if timings.len() > 0 {
        lemma_refresh_nanos(timings.drop_last());
    }
}

/// The steps and phases carry labels of their own.
pub proof fn law_phase_labels_differ(a: IndexProgressPhase, b: IndexProgressPhase)
    ensures
        a.label_spec() == b.label_spec() <==> a == b,
        IndexTimingAggregation::Exclusive.label_spec()
            != IndexTimingAggregation::ConcurrentSpan.label_spec(),
{
    reveal_strlit("reuse");
    reveal_strlit("prepare");
    reveal_strlit("structural");
    reveal_strlit("semantic_provider");
    reveal_strlit("finalize");
    reveal_strlit("publish");
    reveal_strlit("exclusive");
    reveal_strlit("concurrent_span");
    assert("reuse"@[0] == 'r');
    assert("prepare"@[1] == 'r');
    assert("publish"@[1] == 'u');
    assert("structural"@.len() == 10);
    assert("finalize"@.len() == 8);
    assert("exclusive"@[0] == 'e' && "concurrent_span"@[0] == 'c');
}

/// The longest span is one that no other exceeds, and of equally long ones the last. There is at
/// most one such position.
pub proof fn law_last_longest_span_is_unique(nanos: Seq<u128>, k: int, j: int)
    requires
        is_last_longest(nanos, k),
        0 <= j < nanos.len(),
    ensures
        0 <= k < nanos.len(),
        nanos[j] <= nanos[k],
        nanos[j] == nanos[k] ==> j <= k,
        is_last_longest(nanos, j) <==> j == k,
{
}

/// A collection of spans that is not empty has a longest one.
pub proof fn law_some_span_is_the_longest(nanos: Seq<u128>) -> (k: int)
    requires
        nanos.len() > 0,
    ensures
        is_last_longest(nanos, k),
    decreases nanos.len(),
{
    let last = nanos.len() - 1;
    if nanos.len() == 1 {
        0
    } else {
        let front = nanos.drop_last();
        let k = law_some_span_is_the_longest(front);
        assert forall|j: int| 0 <= j < front.len() implies front[j] == nanos[j] by {}
        if nanos[last] >= nanos[k] {
            assert forall|j: int| 0 <= j < nanos.len() implies #[trigger] nanos[j]
                <= nanos[last] by {
                if j < last {
                    assert(front[j] <= front[k]);
                }
            }
            last
        } else {
            assert forall|j: int| 0 <= j < nanos.len() implies #[trigger] nanos[j] <= nanos[k] by {
                if j < last {
                    assert(front[j] <= front[k]);
                }
            }
            assert forall|j: int| k < j < nanos.len() implies #[trigger] nanos[j] < nanos[k] by {
                if j < last {
                    assert(front[j] < front[k]);
                }
            }
            k
        }
    }
}

} // verus!
