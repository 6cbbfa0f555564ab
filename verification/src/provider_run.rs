//! What the one-shot providers leave behind: artifacts, warnings, timings and progress.
//!
//! A provider runs once for each execution root. An ordinary failure costs its root and
//! is told as a warning; a corrupt artifact or a cancellation ends the run.

use vstd::prelude::*;

use crate::digest;
use crate::duration::Duration;
use crate::go_reuse;
use crate::go_reuse::GoSemanticReusePlan;
use crate::index_timing;
use crate::index_timing::{
    exclusive, push_row, EventModel, IndexPhaseTiming, IndexProgressEvent, IndexProgressPhase,
    IndexProgressState, IndexTimingAggregation, TimingModel,
};
use crate::ordered;
use crate::ordered::StringMap;
use crate::path_sorting;
use crate::path_sorting::sort_paths;
use crate::structural_inputs;
use crate::structural_inputs::invocation_provider_configuration_sha256;
use crate::text;
use crate::text::decimal;
use crate::values;

verus! {

/// A one-shot provider.
#[derive(Debug, Clone, Copy, PartialEq, Eq, Structural)]
pub enum ScipProviderSpec {
    RustAnalyzer,
    ScipGo,
}

impl ScipProviderSpec {
    pub open spec fn language_spec(self) -> Seq<char> {
        match self {
            ScipProviderSpec::RustAnalyzer => "rust"@,
            ScipProviderSpec::ScipGo => "go"@,
        }
    }

    /// The language that the provider serves.
    pub fn language(self) -> (r: &'static str)
        ensures
            r@ == self.language_spec(),
    {
        match self {
            ScipProviderSpec::RustAnalyzer => "rust",
            ScipProviderSpec::ScipGo => "go",
        }
    }

    pub open spec fn provider_id_spec(self) -> Seq<char> {
        match self {
            ScipProviderSpec::RustAnalyzer => "rust-analyzer-scip"@,
            ScipProviderSpec::ScipGo => "scip-go"@,
        }
    }

    pub fn provider_id(self) -> (r: &'static str)
        ensures
            r@ == self.provider_id_spec(),
    {
        match self {
            ScipProviderSpec::RustAnalyzer => "rust-analyzer-scip",
            ScipProviderSpec::ScipGo => "scip-go",
        }
    }

    pub open spec fn label_spec(self) -> Seq<char> {
        match self {
            ScipProviderSpec::RustAnalyzer => "rust-analyzer SCIP"@,
            ScipProviderSpec::ScipGo => "scip-go"@,
        }
    }

    /// How the provider is shown.
    pub fn label(self) -> (r: &'static str)
        ensures
            r@ == self.label_spec(),
    {
        match self {
            ScipProviderSpec::RustAnalyzer => "rust-analyzer SCIP",
            ScipProviderSpec::ScipGo => "scip-go",
        }
    }

    /// What is said of sources that no project unit owns.
    pub open spec fn loose_sources_spec(self, count: nat) -> Seq<char> {
        text::dec(count) + match self {
            ScipProviderSpec::RustAnalyzer =>
                " Rust source file(s) are loose sources; no Cargo.toml owner or workspace"@,
            ScipProviderSpec::ScipGo =>
                " Go source file(s) are loose sources; no go.mod module or go.work workspace"@,
        }
    }

    fn loose_sources(self, count: usize) -> (r: String)
        ensures
            r@ == self.loose_sources_spec(count as nat),
    {
        let mut words = decimal(count as u64);
        match self {
            ScipProviderSpec::RustAnalyzer => words.append(
                " Rust source file(s) are loose sources; no Cargo.toml owner or workspace",
            ),
            ScipProviderSpec::ScipGo => words.append(
                " Go source file(s) are loose sources; no go.mod module or go.work workspace",
            ),
        }
        words
    }
}

/// What a provider wrote.
#[derive(Debug, Clone, PartialEq, Eq)]
pub struct GeneratedScipArtifact {
    pub path: String,
    pub provider_version: String,
}

/// Why a provider wrote nothing.
#[derive(Debug, Clone, PartialEq, Eq)]
pub enum ProviderRunError {
    /// What it wrote is not an artifact.
    GeneratedArtifact(String),
    Cancelled,
    Other(String),
}

impl ProviderRunError {
    pub open spec fn describe_spec(self) -> Seq<char> {
        match self {
            ProviderRunError::GeneratedArtifact(message) => message@,
            ProviderRunError::Cancelled => "semantic provider refresh was cancelled"@,
            ProviderRunError::Other(message) => message@,
        }
    }

    /// The error in words.
    pub fn describe(&self) -> (r: String)
        ensures
            r@ == self.describe_spec(),
    {
        match self {
            ProviderRunError::GeneratedArtifact(message) => message.clone(),
            ProviderRunError::Cancelled => "semantic provider refresh was cancelled".to_owned(),
            ProviderRunError::Other(message) => message.clone(),
        }
    }
}

/// An artifact with where and how it was made.
#[derive(Debug, Clone, PartialEq, Eq)]
pub struct GeneratedProviderArtifact {
    pub artifact: GeneratedScipArtifact,
    pub spec: ScipProviderSpec,
    pub execution_root: String,
    pub provider_configuration_sha256: String,
}

/// An artifact as plain text.
pub struct ArtifactModel {
    pub path: Seq<char>,
    pub version: Seq<char>,
    pub spec: ScipProviderSpec,
    pub root: Seq<char>,
    pub configuration: Seq<char>,
}

impl DeepView for GeneratedProviderArtifact {
    type V = ArtifactModel;

    open spec fn deep_view(&self) -> ArtifactModel {
        ArtifactModel {
            path: self.artifact.path@,
            version: self.artifact.provider_version@,
            spec: self.spec,
            root: self.execution_root@,
            configuration: self.provider_configuration_sha256@,
        }
    }
}

/// One execution of a provider.
#[derive(Debug)]
pub struct ProviderExecution {
    pub execution_root: String,
    /// The root below the project's, if it is below it.
    pub relative_root: Option<String>,
    pub duration: Duration,
    pub result: Result<GeneratedScipArtifact, ProviderRunError>,
}

/// One execution of the Go provider, which is configured by a toolchain.
#[derive(Debug)]
pub struct GoProviderExecution {
    pub execution: ProviderExecution,
    pub provider_configuration_sha256: String,
}

/// How a root is shown: below the project's root, or as a dot.
pub open spec fn root_label_of(relative: Option<Seq<char>>) -> Seq<char> {
    match relative {
        Some(path) => if path.len() == 0 {
            "."@
        } else {
            path
        },
        None => "."@,
    }
}

/// How a root is shown.
pub fn root_label(relative: &Option<String>) -> (r: String)
    ensures
        r@ == root_label_of(relative.deep_view()),
{
    match relative {
        Some(path) => if path.as_str().is_empty() {
            ".".to_owned()
        } else {
            path.clone()
        },
        None => ".".to_owned(),
    }
}

/// The label of a provider's run on a root.
pub open spec fn run_label(spec: ScipProviderSpec, relative: Option<Seq<char>>) -> Seq<char> {
    spec.label_spec() + " ("@ + root_label_of(relative) + ")"@
}

fn run_label_text(spec: ScipProviderSpec, relative: &Option<String>) -> (r: String)
    ensures
        r@ == run_label(spec, relative.deep_view()),
{
    let mut words = spec.label().to_owned();
    words.append(" (");
    words.append(root_label(relative).as_str());
    words.append(")");
    words
}

/// An event of a provider.
pub open spec fn provider_event(
    spec: ScipProviderSpec,
    state: IndexProgressState,
    detail: Seq<char>,
    elapsed: Option<Duration>,
) -> EventModel {
    EventModel {
        phase: IndexProgressPhase::SemanticProvider,
        state,
        label: spec.label_spec(),
        detail,
        elapsed,
    }
}

fn event(
    spec: ScipProviderSpec,
    state: IndexProgressState,
    detail: String,
    elapsed: Option<Duration>,
) -> (r: IndexProgressEvent)
    ensures
        r.deep_view() == provider_event(spec, state, detail@, elapsed),
{
    IndexProgressEvent {
        phase: IndexProgressPhase::SemanticProvider,
        state,
        label: spec.label().to_owned(),
        detail,
        elapsed,
    }
}

/// The project unit in words.
pub open spec fn unit_text(relative: Option<Seq<char>>) -> Seq<char> {
    "project unit "@ + root_label_of(relative)
}

fn unit_words(relative: &Option<String>) -> (r: String)
    ensures
        r@ == unit_text(relative.deep_view()),
{
    let mut words = "project unit ".to_owned();
    words.append(root_label(relative).as_str());
    words
}

/// The event with which a provider starts on a root.
pub fn provider_started(spec: ScipProviderSpec, relative: &Option<String>) -> (r:
    IndexProgressEvent)
    ensures
        r.deep_view() == provider_event(
            spec,
            IndexProgressState::Started,
            unit_text(relative.deep_view()),
            None,
        ),
{
    event(spec, IndexProgressState::Started, unit_words(relative), None)
}

/// What is shown of an execution's end. A cancellation is not shown.
pub open spec fn end_event(spec: ScipProviderSpec, execution: ProviderExecution) -> Option<
    EventModel,
> {
    match execution.result {
        Ok(_) => Some(
            provider_event(
                spec,
                IndexProgressState::Completed,
                unit_text(execution.relative_root.deep_view()),
                Some(execution.duration),
            ),
        ),
        Err(ProviderRunError::Cancelled) => None,
        Err(error) => Some(
            provider_event(
                spec,
                IndexProgressState::Failed,
                error.describe_spec(),
                Some(execution.duration),
            ),
        ),
    }
}

/// The event with which a provider ends on a root.
pub fn provider_ended(spec: ScipProviderSpec, execution: &ProviderExecution) -> (r: Option<
    IndexProgressEvent,
>)
    ensures
        r.deep_view() == end_event(spec, *execution),
{
    match &execution.result {
        Ok(_) => Some(
            event(
                spec,
                IndexProgressState::Completed,
                unit_words(&execution.relative_root),
                Some(execution.duration),
            ),
        ),
        Err(error) => match error {
            ProviderRunError::Cancelled => None,
            _ => Some(
                event(
                    spec,
                    IndexProgressState::Failed,
                    error.describe(),
                    Some(execution.duration),
                ),
            ),
        },
    }
}

/// What the one-shot providers left so far.
#[derive(Debug)]
pub struct OneShotRun {
    pub generated: Vec<GeneratedProviderArtifact>,
    pub warnings: Vec<String>,
    pub timings: Vec<IndexPhaseTiming>,
}

/// What the one-shot providers left, as plain text.
pub struct RunModel {
    pub generated: Seq<ArtifactModel>,
    pub warnings: Seq<Seq<char>>,
    pub timings: Seq<TimingModel>,
}

impl DeepView for OneShotRun {
    type V = RunModel;

    open spec fn deep_view(&self) -> RunModel {
        RunModel {
            generated: self.generated.deep_view(),
            warnings: self.warnings.deep_view(),
            timings: self.timings.deep_view(),
        }
    }
}

/// The warning that a root has no artifact.
pub open spec fn failure_warning(spec: ScipProviderSpec, root: Seq<char>, error: Seq<char>) -> Seq<
    char,
> {
    spec.label_spec() + " generation failed for "@ + root + ": "@ + error
}

/// The run after one more execution: its timing, and its artifact or a warning.
pub open spec fn settled(
    run: RunModel,
    spec: ScipProviderSpec,
    execution: ProviderExecution,
    configuration: Seq<char>,
    aggregation: IndexTimingAggregation,
) -> Result<RunModel, ProviderRunError> {
    let timings = run.timings.push(
        TimingModel {
            phase: IndexProgressPhase::SemanticProvider,
            label: run_label(spec, execution.relative_root.deep_view()),
            duration: execution.duration,
            aggregation,
        },
    );
    match execution.result {
        Ok(artifact) => Ok(
            RunModel {
                generated: run.generated.push(
                    ArtifactModel {
                        path: artifact.path@,
                        version: artifact.provider_version@,
                        spec,
                        root: execution.execution_root@,
                        configuration,
                    },
                ),
                warnings: run.warnings,
                timings,
            },
        ),
        Err(ProviderRunError::Other(message)) => Ok(
            RunModel {
                generated: run.generated,
                warnings: run.warnings.push(
                    failure_warning(spec, execution.execution_root@, message@),
                ),
                timings,
            },
        ),
        Err(error) => Err(error),
    }
}

/// The configuration of a provider that its artifact alone identifies.
pub open spec fn invoked_configuration(spec: ScipProviderSpec, execution: ProviderExecution) -> Seq<
    char,
> {
    match execution.result {
        Ok(artifact) => digest::hex_of(
            digest::sha256_of(
                structural_inputs::invocation_bytes(
                    spec.language_spec(),
                    spec.provider_id_spec(),
                    artifact.provider_version@,
                ),
            ),
        ),
        Err(_) => seq![],
    }
}

/// The run after the executions of the Go provider, up to the first fatal error.
pub open spec fn go_settled(
    run: RunModel,
    executions: Seq<GoProviderExecution>,
    aggregation: IndexTimingAggregation,
) -> Result<RunModel, ProviderRunError>
    decreases executions.len(),
{
    if executions.len() == 0 {
        Ok(run)
    } else {
        match go_settled(run, executions.drop_last(), aggregation) {
            Ok(before) => settled(
                before,
                ScipProviderSpec::ScipGo,
                executions.last().execution,
                executions.last().provider_configuration_sha256@,
                aggregation,
            ),
            Err(error) => Err(error),
        }
    }
}

/// A fatal error stays the outcome whatever follows.
proof fn lemma_go_settled_stops(
    run: RunModel,
    executions: Seq<GoProviderExecution>,
    n: int,
    aggregation: IndexTimingAggregation,
)
    requires
        0 <= n <= executions.len(),
        go_settled(run, executions.take(n), aggregation) is Err,
    ensures
        go_settled(run, executions, aggregation) == go_settled(
            run,
            executions.take(n),
            aggregation,
        ),
    decreases executions.len(),
{
    if n == executions.len() {
        assert(executions.take(n) =~= executions);
    } else {
        let front = executions.drop_last();
        assert(front.take(n) =~= executions.take(n));
        lemma_go_settled_stops(run, front, n, aggregation);
    }
}

/// How the rows of executions side by side take part in sums.
pub open spec fn aggregation_of(parallelism: nat) -> IndexTimingAggregation {
    if parallelism > 1 {
        IndexTimingAggregation::ConcurrentSpan
    } else {
        IndexTimingAggregation::Exclusive
    }
}

/// The rows with that of the worker pool, where there is one.
pub open spec fn with_pool(timings: Seq<TimingModel>, parallelism: nat, elapsed: Duration) -> Seq<
    TimingModel,
> {
    if parallelism > 1 {
        timings.push(
            index_timing::exclusive_row(
                IndexProgressPhase::SemanticProvider,
                "scip-go provider pool ("@ + text::dec(parallelism) + " workers)"@,
                elapsed,
            ),
        )
    } else {
        timings
    }
}

impl OneShotRun {
    /// A run with nothing in it but the warning that the Go toolchains were not resolved.
    pub fn new(go_resolution_warning: Option<String>) -> (r: Self)
        ensures
            r.deep_view() == (RunModel {
                generated: seq![],
                warnings: match go_resolution_warning {
                    Some(warning) => seq![warning@],
                    None => seq![],
                },
                timings: seq![],
            }),
    {
        let mut warnings: Vec<String> = Vec::new();
        match go_resolution_warning {
            Some(warning) => {
                warnings.push(warning);
                assert(warnings.deep_view() =~= seq![warning@]);
            },
            None => {
                assert(warnings.deep_view() =~= seq![]);
            },
        }
        let r = OneShotRun { generated: Vec::new(), warnings, timings: Vec::new() };
        assert(r.generated.deep_view() =~= seq![]);
        assert(r.timings.deep_view() =~= seq![]);
        r
    }

    /// Notes that a language's sources have no owner to run the provider on.
    pub fn note_loose_sources(
        &mut self,
        spec: ScipProviderSpec,
        has_execution_roots: bool,
        source_count: usize,
    ) -> (r: Option<IndexProgressEvent>)
        ensures
            !has_execution_roots && source_count > 0 ==> final(self).deep_view() == (RunModel {
                timings: old(self).deep_view().timings.push(
                    index_timing::exclusive_row(
                        IndexProgressPhase::SemanticProvider,
                        spec.label_spec() + " (skipped)"@,
                        (Duration { nanos: 0 }),
                    ),
                ),
                ..old(self).deep_view()
            }) && r.deep_view() == Some(
                provider_event(
                    spec,
                    IndexProgressState::Skipped,
                    spec.loose_sources_spec(source_count as nat),
                    Some((Duration { nanos: 0 })),
                ),
            ),
            has_execution_roots || source_count == 0 ==> *final(self) == *old(self) && r is None,
    {
        if has_execution_roots || source_count == 0 {
            return None;
        }
        let mut label = spec.label().to_owned();
        label.append(" (skipped)");
        push_row(
            &mut self.timings,
            exclusive(IndexProgressPhase::SemanticProvider, label.as_str(), Duration::zero()),
        );
        Some(
            event(
                spec,
                IndexProgressState::Skipped,
                spec.loose_sources(source_count),
                Some(Duration::zero()),
            ),
        )
    }

    fn settle(
        &mut self,
        spec: ScipProviderSpec,
        execution: ProviderExecution,
        configuration: String,
        aggregation: IndexTimingAggregation,
    ) -> (r: Result<(), ProviderRunError>)
        ensures
            match settled(
                old(self).deep_view(),
                spec,
                execution,
                configuration@,
                aggregation,
            ) {
                Ok(run) => r is Ok && final(self).deep_view() == run,
                Err(error) => r == Err::<(), ProviderRunError>(error),
            },
    {
        let label = run_label_text(spec, &execution.relative_root);
        push_row(
            &mut self.timings,
            IndexPhaseTiming {
                phase: IndexProgressPhase::SemanticProvider,
                label,
                duration: execution.duration,
                aggregation,
            },
        );
        match execution.result {
            Ok(artifact) => {
                let ghost before = self.generated;
                let entry = GeneratedProviderArtifact {
                    artifact,
                    spec,
                    execution_root: execution.execution_root,
                    provider_configuration_sha256: configuration,
                };
                self.generated.push(entry);
                proof {
                    values::lemma_push(before, self.generated, entry);
                }
                Ok(())
            },
            Err(error) => match error {
                ProviderRunError::Other(message) => {
                    let mut warning = spec.label().to_owned();
                    warning.append(" generation failed for ");
                    warning.append(execution.execution_root.as_str());
                    warning.append(": ");
                    warning.append(message.as_str());
                    let ghost before = self.warnings;
                    self.warnings.push(warning);
                    proof {
                        values::lemma_push(before, self.warnings, warning);
                    }
                    Ok(())
                },
                ProviderRunError::GeneratedArtifact(message) => Err(
                    ProviderRunError::GeneratedArtifact(message),
                ),
                ProviderRunError::Cancelled => Err(ProviderRunError::Cancelled),
            },
        }
    }

    /// Takes in one execution of the Rust provider, which its version identifies.
    pub fn settle_rust(&mut self, execution: ProviderExecution) -> (r: Result<
        (),
        ProviderRunError,
    >)
        ensures
            match settled(
                old(self).deep_view(),
                ScipProviderSpec::RustAnalyzer,
                execution,
                invoked_configuration(ScipProviderSpec::RustAnalyzer, execution),
                IndexTimingAggregation::Exclusive,
            ) {
                Ok(run) => r is Ok && final(self).deep_view() == run,
                Err(error) => r == Err::<(), ProviderRunError>(error),
            },
    {
        let spec = ScipProviderSpec::RustAnalyzer;
        let configuration = match &execution.result {
            Ok(artifact) => invocation_provider_configuration_sha256(
                spec.language(),
                spec.provider_id(),
                artifact.provider_version.as_str(),
            ),
            Err(_) => String::new(),
        };
        assert(configuration@ =~= invoked_configuration(spec, execution));
        self.settle(spec, execution, configuration, IndexTimingAggregation::Exclusive)
    }

    /// Takes in the executions of the Go provider. Those side by side have a row for
    /// their pool, and rows of their own that are not to be added.
    pub fn settle_go(
        &mut self,
        executions: Vec<GoProviderExecution>,
        parallelism: usize,
        pool_elapsed: Duration,
    ) -> (r: Result<(), ProviderRunError>)
        ensures
            match go_settled(
                (RunModel {
                    timings: with_pool(
                        old(self).deep_view().timings,
                        parallelism as nat,
                        pool_elapsed,
                    ),
                    ..old(self).deep_view()
                }),
                executions@,
                aggregation_of(parallelism as nat),
            ) {
                Ok(run) => r is Ok && final(self).deep_view() == run,
                Err(error) => r == Err::<(), ProviderRunError>(error),
            },
    {
        if parallelism > 1 {
            let mut label = "scip-go provider pool (".to_owned();
            label.append(decimal(parallelism as u64).as_str());
            label.append(" workers)");
            push_row(
                &mut self.timings,
                exclusive(IndexProgressPhase::SemanticProvider, label.as_str(), pool_elapsed),
            );
        }
        let aggregation = if parallelism > 1 {
            IndexTimingAggregation::ConcurrentSpan
        } else {
            IndexTimingAggregation::Exclusive
        };
        let ghost all = executions@;
        let ghost base = self.deep_view();
        for item in it: executions.into_iter()
            invariant
                it.seq() == all,
                all == executions@,
                aggregation == aggregation_of(parallelism as nat),
                base == (RunModel {
                    timings: with_pool(
                        old(self).deep_view().timings,
                        parallelism as nat,
                        pool_elapsed,
                    ),
                    ..old(self).deep_view()
                }),
                go_settled(base, all.take(it.index() as int), aggregation) == Ok::<
                    RunModel,
                    ProviderRunError,
                >(self.deep_view()),
        {
            let ghost i = it.index() as int;
            let ghost next = all.take(i + 1);
            assert(next.drop_last() =~= all.take(i));
            assert(next.last() == item);
            match self.settle(
                ScipProviderSpec::ScipGo,
                item.execution,
                item.provider_configuration_sha256,
                aggregation,
            ) {
                Ok(()) => {},
                Err(error) => {
                    proof {
                        lemma_go_settled_stops(base, all, i + 1, aggregation);
                    }
                    return Err(error);
                },
            }
        }
        assert(all.take(all.len() as int) =~= all);
        Ok(())
    }
}

/// Every root that was settled has an artifact or a warning: none is passed over.
pub proof fn law_every_root_is_accounted_for(
    run: RunModel,
    executions: Seq<GoProviderExecution>,
    aggregation: IndexTimingAggregation,
)
    requires
        go_settled(run, executions, aggregation) is Ok,
    ensures
        ({
            let after = go_settled(run, executions, aggregation)->Ok_0;
            after.generated.len() + after.warnings.len() == run.generated.len()
                + run.warnings.len() + executions.len() && after.timings.len() == run.timings.len()
                + executions.len()
        }),
    decreases executions.len(),
{
    if executions.len() > 0 {
        law_every_root_is_accounted_for(run, executions.drop_last(), aggregation);
    }
}

/// The Go roots to run on: those of the plan, or all that have a toolchain.
pub open spec fn go_roots(plan: Option<GoSemanticReusePlan>, roots: Seq<Seq<char>>, known: Set<
    Seq<char>,
>) -> Seq<Seq<char>> {
    match plan {
        Some(plan) => plan.executable(known),
        None => path_sorting::sorted_paths(roots),
    }
}

/// Chooses the Go roots to run on.
pub fn go_roots_to_execute<T>(plan: &Option<GoSemanticReusePlan>, toolchains: &StringMap<T>) -> (r:
    Vec<String>)
    ensures
        r.deep_view() == go_roots(
            *plan,
            ordered::keys_of(toolchains.listing()),
            toolchains@.dom(),
        ),
{
    match plan {
        Some(plan) => plan.roots_to_execute(toolchains),
        None => sort_paths(&crate::go_reuse::key_texts(toolchains)),
    }
}

/// What becomes of the Go evidence of a run.
#[derive(Debug, Clone, Copy, PartialEq, Eq, Structural)]
pub enum GoSettlement {
    /// No artifact and no plan.
    Absent,
    /// Nothing is kept, for this reason.
    Discarded(GoDiscardReason),
    /// The retained basis stands as it is.
    Exact { basis: usize },
    /// The artifacts replace their roots in the retained basis.
    AffectedRoots { basis: usize },
    /// The artifacts are the whole population.
    Fresh,
}

/// Why Go evidence is discarded.
#[derive(Debug, Clone, Copy, PartialEq, Eq, Structural)]
pub enum GoDiscardReason {
    MissingArtifact,
    ToolchainChanged,
}

impl GoDiscardReason {
    pub open spec fn detail_spec(self) -> Seq<char> {
        match self {
            GoDiscardReason::MissingArtifact => "not every Go execution root produced an artifact"@,
            GoDiscardReason::ToolchainChanged =>
                "the resolved Go toolchain changed during provider execution"@,
        }
    }

    pub fn detail(self) -> (r: &'static str)
        ensures
            r@ == self.detail_spec(),
    {
        match self {
            GoDiscardReason::MissingArtifact => "not every Go execution root produced an artifact",
            GoDiscardReason::ToolchainChanged =>
                "the resolved Go toolchain changed during provider execution",
        }
    }
}

/// How many artifacts are of Go.
pub open spec fn go_artifacts(generated: Seq<ArtifactModel>) -> nat
    decreases generated.len(),
{
    if generated.len() == 0 {
        0
    } else {
        go_artifacts(generated.drop_last()) + if generated.last().spec == ScipProviderSpec::ScipGo {
            1nat
        } else {
            0
        }
    }
}

/// The artifacts of other languages, in order.
pub open spec fn without_go(generated: Seq<ArtifactModel>) -> Seq<ArtifactModel> {
    generated.filter(|artifact: ArtifactModel| artifact.spec != ScipProviderSpec::ScipGo)
}

/// Counts the artifacts of Go.
pub fn generated_go_count(generated: &Vec<GeneratedProviderArtifact>) -> (r: usize)
    ensures
        r == go_artifacts(generated.deep_view()),
        r <= generated@.len(),
{
    let ghost all = generated.deep_view();
    let mut n: usize = 0;
    for i in 0..generated.len()
        invariant
            all == generated.deep_view(),
            n <= i,
            n == go_artifacts(all.take(i as int)),
    {
        assert(all.take(i + 1).drop_last() =~= all.take(i as int));
        assert(all[i as int] == generated@[i as int].deep_view());
        if generated[i].spec == ScipProviderSpec::ScipGo {
            n += 1;
        }
    }
    assert(all.take(all.len() as int) =~= all);
    n
}

/// The Go population of a run is whole or absent. A missing artifact or a toolchain that
/// changed while the providers ran discards all of it.
pub open spec fn go_settlement(
    generated: nat,
    plan: Option<GoSemanticReusePlan>,
    toolchains: nat,
    unchanged: bool,
) -> GoSettlement {
    if generated == 0 && plan is None {
        GoSettlement::Absent
    } else {
        let expected = match plan {
            Some(plan) => plan.affected().len(),
            None => toolchains,
        };
        if generated != expected {
            GoSettlement::Discarded(GoDiscardReason::MissingArtifact)
        } else if !unchanged {
            GoSettlement::Discarded(GoDiscardReason::ToolchainChanged)
        } else {
            match plan {
                Some(GoSemanticReusePlan::Exact { basis }) => GoSettlement::Exact { basis },
                Some(GoSemanticReusePlan::AffectedRoots { basis, .. }) =>
                    GoSettlement::AffectedRoots { basis },
                None => GoSettlement::Fresh,
            }
        }
    }
}

/// Decides what becomes of the Go evidence. `unchanged` says that resolving the
/// toolchains again gave the same ones.
pub fn settle_go_population(
    generated: usize,
    plan: &Option<GoSemanticReusePlan>,
    toolchains: usize,
    unchanged: bool,
) -> (r: GoSettlement)
    ensures
        r == go_settlement(generated as nat, *plan, toolchains as nat, unchanged),
{
    if generated == 0 && plan.is_none() {
        return GoSettlement::Absent;
    }
    let expected = match plan {
        Some(plan) => plan.expected_provider_executions(),
        None => toolchains,
    };
    if generated != expected {
        return GoSettlement::Discarded(GoDiscardReason::MissingArtifact);
    }
    if !unchanged {
        return GoSettlement::Discarded(GoDiscardReason::ToolchainChanged);
    }
    match plan {
        Some(GoSemanticReusePlan::Exact { basis }) => GoSettlement::Exact { basis: *basis },
        Some(GoSemanticReusePlan::AffectedRoots { basis, .. }) => GoSettlement::AffectedRoots {
            basis: *basis,
        },
        None => GoSettlement::Fresh,
    }
}

/// Go evidence is kept only where every expected root has an artifact and the toolchains
/// are still those that the run resolved.
pub proof fn law_go_population_is_atomic(
    generated: nat,
    plan: Option<GoSemanticReusePlan>,
    toolchains: nat,
    unchanged: bool,
)
    ensures
        ({
            let kept = go_settlement(generated, plan, toolchains, unchanged);
            kept is Exact || kept is AffectedRoots || kept is Fresh ==> unchanged && generated
                == match plan {
                Some(plan) => plan.affected().len(),
                None => toolchains,
            }
        }),
        go_settlement(generated, plan, toolchains, unchanged) is Absent ==> generated == 0,
{
}

/// Drops the artifacts of Go.
pub fn discard_go(generated: Vec<GeneratedProviderArtifact>) -> (r: Vec<GeneratedProviderArtifact>)
    ensures
        r.deep_view() == without_go(generated.deep_view()),
{
    let ghost all = generated.deep_view();
    let ghost whole = generated@;
    let ghost other = |artifact: ArtifactModel| artifact.spec != ScipProviderSpec::ScipGo;
    let mut r: Vec<GeneratedProviderArtifact> = Vec::new();
    proof {
        reveal(Seq::filter);
        assert(r.deep_view() =~= all.take(0).filter(other));
    }
    for item in it: generated.into_iter()
        invariant
            it.seq() == whole,
            all == whole.map_values(|artifact: GeneratedProviderArtifact| artifact.deep_view()),
            other == (|artifact: ArtifactModel| artifact.spec != ScipProviderSpec::ScipGo),
            r.deep_view() == all.take(it.index() as int).filter(other),
    {
        let ghost i = it.index() as int;
        let ghost before = r;
        proof {
            reveal(Seq::filter);
            assert(all.take(i + 1).drop_last() =~= all.take(i));
            assert(all.take(i + 1).last() == item.deep_view());
        }
        if item.spec != ScipProviderSpec::ScipGo {
            r.push(item);
            proof {
                values::lemma_push(before, r, item);
            }
        }
    }
    assert(all.take(all.len() as int) =~= all);
    r
}

/// An execution that fails in this way ends the run.
pub open spec fn is_fatal(execution: ProviderExecution) -> bool {
    execution.result is Err && !(execution.result->Err_0 is Other)
}

/// What one execution leaves. Its timing, always. An artifact of its own, where it wrote one:
/// under its root, in the version and with the configuration that it was made. A warning that
/// names the root and the failure, where it failed in an ordinary way. And where it was
/// cancelled or wrote something corrupt, that error and nothing else.
pub proof fn law_execution_leaves_its_outcome(
    run: RunModel,
    spec: ScipProviderSpec,
    execution: ProviderExecution,
    configuration: Seq<char>,
    aggregation: IndexTimingAggregation,
)
    ensures
        ({
            let after = settled(run, spec, execution, configuration, aggregation);
            &&& is_fatal(execution) ==> after == Err::<RunModel, ProviderRunError>(
                execution.result->Err_0,
            )
            &&& !is_fatal(execution) ==> after is Ok && after->Ok_0.timings == run.timings.push(
                TimingModel {
                    phase: IndexProgressPhase::SemanticProvider,
                    label: spec.label_spec() + " ("@ + root_label_of(
                        execution.relative_root.deep_view(),
                    ) + ")"@,
                    duration: execution.duration,
                    aggregation,
                },
            )
            &&& execution.result is Ok ==> after->Ok_0.warnings == run.warnings
                && after->Ok_0.generated == run.generated.push(
                ArtifactModel {
                    path: execution.result->Ok_0.path@,
                    version: execution.result->Ok_0.provider_version@,
                    spec,
                    root: execution.execution_root@,
                    configuration,
                },
            )
            &&& execution.result is Err && !is_fatal(execution) ==> after->Ok_0.generated
                == run.generated && after->Ok_0.warnings == run.warnings.push(
                spec.label_spec() + " generation failed for "@ + execution.execution_root@ + ": "@
                    + execution.result->Err_0->Other_0@,
            )
        }),
{
}

/// The executions of Go end in the first fatal error, if there is one; else each of them left
/// its artifact or its warning.
pub proof fn law_go_executions_are_all_taken_in(
    run: RunModel,
    executions: Seq<GoProviderExecution>,
    aggregation: IndexTimingAggregation,
)
    ensures
        ({
            let after = go_settled(run, executions, aggregation);
            &&& after is Ok <==> forall|i: int|
                0 <= i < executions.len() ==> !is_fatal((#[trigger] executions[i]).execution)
            &&& after is Err ==> exists|i: int|
                0 <= i < executions.len() && is_fatal((#[trigger] executions[i]).execution)
                    && after->Err_0 == executions[i].execution.result->Err_0 && forall|j: int|
                    0 <= j < i ==> !is_fatal((#[trigger] executions[j]).execution)
            &&& after is Ok ==> forall|i: int|
                0 <= i < executions.len() && (
                #[trigger] executions[i]).execution.result is Ok ==> after->Ok_0.generated.contains(
                    ArtifactModel {
                        path: executions[i].execution.result->Ok_0.path@,
                        version: executions[i].execution.result->Ok_0.provider_version@,
                        spec: ScipProviderSpec::ScipGo,
                        root: executions[i].execution.execution_root@,
                        configuration: executions[i].provider_configuration_sha256@,
                    },
                )
            &&& after is Ok ==> forall|i: int|
                0 <= i < executions.len() && (
                #[trigger] executions[i]).execution.result is Err ==> after->Ok_0.warnings.contains(
                    "scip-go"@ + " generation failed for "@
                        + executions[i].execution.execution_root@ + ": "@
                        + executions[i].execution.result->Err_0->Other_0@,
                )
        }),
    decreases executions.len(),
{
    if executions.len() > 0 {
        let n = executions.len() - 1;
        let front = executions.drop_last();
        law_go_executions_are_all_taken_in(run, front, aggregation);
        let before = go_settled(run, front, aggregation);
        let after = go_settled(run, executions, aggregation);
        assert(executions[n] == executions.last());
        assert(forall|i: int| 0 <= i < front.len() ==> #[trigger] front[i] == executions[i]);
        match before {
            Err(error) => {
                let i = choose|i: int|
                    0 <= i < front.len() && is_fatal((#[trigger] front[i]).execution) && error
                        == front[i].execution.result->Err_0 && forall|j: int|
                        0 <= j < i ==> !is_fatal((#[trigger] front[j]).execution);
                assert(is_fatal(executions[i].execution));
                assert forall|j: int| 0 <= j < i implies !is_fatal(
                    (#[trigger] executions[j]).execution,
                ) by {
                    assert(front[j] == executions[j]);
                }
            },
            Ok(earlier) => {
                assert forall|i: int| 0 <= i < n implies !is_fatal(
                    (#[trigger] executions[i]).execution,
                ) by {
                    assert(front[i] == executions[i]);
                }
                if after is Ok {
                    let now = after->Ok_0;
                    assert forall|i: int|
                        0 <= i < executions.len() && (
                        #[trigger] executions[i]).execution.result is Ok implies now.generated.contains(
                        ArtifactModel {
                            path: executions[i].execution.result->Ok_0.path@,
                            version: executions[i].execution.result->Ok_0.provider_version@,
                            spec: ScipProviderSpec::ScipGo,
                            root: executions[i].execution.execution_root@,
                            configuration: executions[i].provider_configuration_sha256@,
                        },
                    ) by {
                        let artifact = ArtifactModel {
                            path: executions[i].execution.result->Ok_0.path@,
                            version: executions[i].execution.result->Ok_0.provider_version@,
                            spec: ScipProviderSpec::ScipGo,
                            root: executions[i].execution.execution_root@,
                            configuration: executions[i].provider_configuration_sha256@,
                        };
                        if i < n {
                            assert(front[i] == executions[i]);
                            let k = earlier.generated.index_of(artifact);
                            assert(now.generated[k] == artifact);
                        } else {
                            assert(now.generated[now.generated.len() - 1] == artifact);
                        }
                    }
                    assert forall|i: int|
                        0 <= i < executions.len() && (
                        #[trigger] executions[i]).execution.result is Err implies now.warnings.contains(
                        "scip-go"@ + " generation failed for "@
                            + executions[i].execution.execution_root@ + ": "@
                            + executions[i].execution.result->Err_0->Other_0@,
                    ) by {
                        let warning = "scip-go"@ + " generation failed for "@
                            + executions[i].execution.execution_root@ + ": "@
                            + executions[i].execution.result->Err_0->Other_0@;
                        if i < n {
                            assert(front[i] == executions[i]);
                            let k = earlier.warnings.index_of(warning);
                            assert(now.warnings[k] == warning);
                        } else {
                            assert(now.warnings[now.warnings.len() - 1] == warning);
                        }
                    }
                }
            },
        }
    }
}

/// Without a plan Go runs on every root that has a toolchain; with one, on the roots of the
/// plan that have one.
pub proof fn law_go_runs_on_every_root_that_needs_it(
    plan: Option<GoSemanticReusePlan>,
    roots: Seq<Seq<char>>,
    known: Set<Seq<char>>,
    root: Seq<char>,
)
    requires
        roots.len() <= usize::MAX,
        plan matches Some(GoSemanticReusePlan::AffectedRoots { roots: affected, .. })
            ==> affected.listing().len() <= usize::MAX,
    ensures
        plan is None ==> (go_roots(plan, roots, known).contains(root) <==> roots.contains(root))
            && go_roots(plan, roots, known).len() == roots.len(),
        plan is Some ==> (go_roots(plan, roots, known).contains(root)
            <==> plan->0.affected().contains(root) && known.contains(root)),
{
    match plan {
        Some(plan) => {
            go_reuse::law_executed_roots_are_the_affected_ones(plan, known, root);
        },
        None => {
            path_sorting::law_sorted_paths_are_the_paths(roots, root);
        },
    }
}

/// A whole Go population is kept. Where every expected root has its artifact and the
/// toolchains are the ones that were resolved, the retained basis stands, alone or with the
/// artifacts in it, or the artifacts are the population; and where not, nothing is kept, for
/// the reason that holds.
pub proof fn law_whole_go_population_is_kept(
    generated: nat,
    plan: Option<GoSemanticReusePlan>,
    toolchains: nat,
    unchanged: bool,
)
    ensures
        ({
            let r = go_settlement(generated, plan, toolchains, unchanged);
            let expected = if plan is Some {
                plan->0.affected().len()
            } else {
                toolchains
            };
            let something = generated > 0 || plan is Some;
            &&& !something <==> r is Absent
            &&& something && generated != expected ==> r == GoSettlement::Discarded(
                GoDiscardReason::MissingArtifact,
            )
            &&& something && generated == expected && !unchanged ==> r == GoSettlement::Discarded(
                GoDiscardReason::ToolchainChanged,
            )
            &&& something && generated == expected && unchanged ==> {
                &&& plan is None ==> r is Fresh
                &&& plan is Some && plan->0 is Exact ==> r == (GoSettlement::Exact {
                    basis: plan->0->Exact_basis,
                })
                &&& plan is Some && plan->0 is AffectedRoots ==> r == (
                GoSettlement::AffectedRoots { basis: plan->0->AffectedRoots_basis })
            }
        }),
{
}

/// An artifact of Go.
pub open spec fn of_go() -> spec_fn(ArtifactModel) -> bool {
    |artifact: ArtifactModel| artifact.spec == ScipProviderSpec::ScipGo
}

/// Every artifact of Go is counted, and no other.
pub proof fn law_go_artifacts_are_counted(generated: Seq<ArtifactModel>)
    ensures
        go_artifacts(generated) == generated.filter(of_go()).len(),
    decreases generated.len(),
{
    let pred = of_go();
    reveal(Seq::filter);
    if generated.len() > 0 {
        let front = generated.drop_last();
        law_go_artifacts_are_counted(front);
        assert(generated =~= front.push(generated.last()));
        assert(generated.filter(pred) == if pred(generated.last()) {
            front.filter(pred).push(generated.last())
        } else {
            front.filter(pred)
        });
    }
}

/// Discarding Go takes away the artifacts of Go and leaves every other one.
pub proof fn law_discarding_go_spares_the_others(
    generated: Seq<ArtifactModel>,
    artifact: ArtifactModel,
)
    ensures
        without_go(generated).contains(artifact) <==> generated.contains(artifact) && artifact.spec
            == ScipProviderSpec::RustAnalyzer,
{
    let pred = |artifact: ArtifactModel| artifact.spec != ScipProviderSpec::ScipGo;
    assert(without_go(generated) == generated.filter(pred));
    if generated.contains(artifact) && artifact.spec == ScipProviderSpec::RustAnalyzer {
        let i = generated.index_of(artifact);
        assert(pred(generated[i]));
        generated.lemma_filter_contains(pred, i);
    }
    if without_go(generated).contains(artifact) {
        let k = without_go(generated).index_of(artifact);
        generated.lemma_filter_pred(pred, k);
        generated.lemma_filter_contains_rev(pred, artifact);
    }
}

/// Executions side by side overlap, and their time is that of the pool; without a pool their own
/// spans may be added up. Either way the time that can be added up is counted once.
pub proof fn law_time_side_by_side_is_counted_once(
    timings: Seq<TimingModel>,
    parallelism: nat,
    elapsed: Duration,
)
    ensures
        aggregation_of(parallelism) is ConcurrentSpan <==> parallelism > 1,
        parallelism > 1 ==> with_pool(timings, parallelism, elapsed).drop_last() == timings,
        index_timing::exclusive_nanos(with_pool(timings, parallelism, elapsed))
            == index_timing::exclusive_nanos(timings) + if parallelism > 1 {
            elapsed.nanos as int
        } else {
            0
        },
{
    assert(parallelism > 1 ==> with_pool(timings, parallelism, elapsed).drop_last() =~= timings);
}

/// A root below the project's is shown by its path, and the project's own root as a dot, whether
/// it is given as an empty path or not at all.
pub proof fn law_roots_are_shown_by_their_path(path: Seq<char>)
    ensures
        path.len() > 0 ==> root_label_of(Some(path)) == path,
        root_label_of(Some(Seq::empty())) == "."@,
        root_label_of(None) == "."@,
{
}

} // verus!
