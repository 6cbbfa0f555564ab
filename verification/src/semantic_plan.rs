//! Which semantic providers a run executes, and what it makes of how they ended.

use vstd::prelude::*;

use crate::domain::{
    CapabilityCoverage, CapabilityCoverageStatus, CapabilityGap, CapabilityQualification,
    LanguageCoverage, ProjectInventory, SourceMembership,
};
use crate::duration::Duration;
use crate::index_config::{IndexConfig, ScipMode};
use crate::index_timing;
use crate::index_timing::{
    exclusive, push_row, IndexPhaseTiming, IndexProgressPhase, TimingModel,
};
use crate::ordered::StringMap;
use crate::pipeline_error::IndexPipelineError;
use crate::provider_activity;
use crate::provider_activity::semantic_provider_execution_roots;
use crate::provider_run::{
    GoSettlement, OneShotRun, ProviderRunError, RunModel,
};
use crate::sorting;
use crate::sorting::join;
use crate::text;
use crate::values;

verus! {

/// The language is configured: it has a persistent provider, or a one-shot provider of
/// its own.
pub open spec fn is_configured(providers: Seq<Seq<char>>, language: Seq<char>) -> bool {
    providers.contains(language) || language == "rust"@ || language == "go"@
}

/// The languages whose calls the product is configured to provide. Frozen before any
/// provider starts, so that no receipt infers an execution from policy alone.
pub fn configured_calls_languages(provider_languages: &Vec<String>) -> (r: StringMap<()>)
    ensures
        forall|language: Seq<char>| #[trigger]
            r@.dom().contains(language) <==> is_configured(
                provider_languages.deep_view(),
                language,
            ),
{
    let ghost all = provider_languages.deep_view();
    let mut r: StringMap<()> = StringMap::new();
    for i in 0..provider_languages.len()
        invariant
            all == provider_languages.deep_view(),
            forall|language: Seq<char>| #[trigger]
                r@.dom().contains(language) <==> all.take(i as int).contains(language),
    {
        let ghost done = all.take(i as int);
        let ghost next = all.take(i + 1);
        r.insert(provider_languages[i].clone(), ());
        assert forall|language: Seq<char>| #[trigger]
            r@.dom().contains(language) <==> next.contains(language) by {
            assert(next =~= done.push(all[i as int]));
            assert(all[i as int] == provider_languages@[i as int]@);
            if done.contains(language) {
                assert(next[done.index_of(language)] == language);
            }
            assert(next[i as int] == all[i as int]);
            if next.contains(language) && language != all[i as int] {
                assert(done[next.index_of(language)] == language);
            }
        }
    }
    assert(all.take(all.len() as int) =~= all);
    r.insert("rust".to_owned(), ());
    r.insert("go".to_owned(), ());
    r
}

/// How many semantic sources are written in the language.
pub open spec fn semantic_sources(memberships: Seq<SourceMembership>, language: Seq<char>) -> nat
    decreases memberships.len(),
{
    if memberships.len() == 0 {
        0
    } else {
        let last = memberships.last();
        semantic_sources(memberships.drop_last(), language) + if last.language_id.0@ == language
            && last.semantic_source_owner {
            1nat
        } else {
            0
        }
    }
}

/// Counts the semantic sources in a language.
pub fn semantic_source_count(memberships: &Vec<SourceMembership>, language: &str) -> (r: usize)
    ensures
        r == semantic_sources(memberships@, language@),
{
    let mut n: usize = 0;
    for i in 0..memberships.len()
        invariant
            n <= i,
            n == semantic_sources(memberships@.take(i as int), language@),
    {
        assert(memberships@.take(i + 1).drop_last() =~= memberships@.take(i as int));
        if memberships[i].semantic_source_owner && text::same(
            memberships[i].language_id.0.as_str(),
            language,
        ) {
            n += 1;
        }
    }
    assert(memberships@.take(memberships@.len() as int) =~= memberships@);
    n
}

/// What a run asks of the semantic providers.
#[derive(Debug)]
pub struct SemanticPlan {
    /// Providers are executed at all.
    pub generates: bool,
    /// The roots of each language, relative to the project's.
    pub rust_roots: Vec<String>,
    pub go_roots: Vec<String>,
    pub rust_sources: usize,
    pub go_sources: usize,
    /// The roots on which the one-shot Rust provider runs. A persistent provider is the
    /// only authority for its language.
    pub one_shot_rust_roots: Vec<String>,
    /// Toolchains have to be resolved for Go.
    pub resolves_go: bool,
}

/// The plan is what configuration, inventory and persistent providers call for.
pub open spec fn is_plan_of(
    plan: SemanticPlan,
    mode: ScipMode,
    inventory: ProjectInventory,
    persistent_rust: bool,
    persistent_go: bool,
) -> bool {
    let rust = provider_activity::roots_of(inventory.execution_roots@, "rust"@, "cargo"@);
    let go = provider_activity::roots_of(inventory.execution_roots@, "go"@, "go"@);
    let members = inventory.project_topology.memberships@;
    &&& plan.generates == (mode == ScipMode::Refresh)
    &&& plan.rust_roots.deep_view() == rust
    &&& plan.go_roots.deep_view() == go
    &&& plan.rust_sources == semantic_sources(members, "rust"@)
    &&& plan.go_sources == semantic_sources(members, "go"@)
    &&& plan.one_shot_rust_roots.deep_view() == if persistent_rust {
        seq![]
    } else {
        rust
    }
    &&& plan.resolves_go == (mode == ScipMode::Refresh && go.len() > 0 && !persistent_go)
}

/// Plans the semantic providers of a run.
pub fn plan_semantic_providers(
    config: &IndexConfig,
    inventory: &ProjectInventory,
    persistent_rust: bool,
    persistent_go: bool,
) -> (r: SemanticPlan)
    ensures
        is_plan_of(r, config.scip, *inventory, persistent_rust, persistent_go),
{
    let generates = config.scip.generates_artifacts();
    let rust_roots = semantic_provider_execution_roots(
        &inventory.execution_roots,
        "rust",
        "cargo",
    );
    let go_roots = semantic_provider_execution_roots(&inventory.execution_roots, "go", "go");
    let one_shot_rust_roots = if persistent_rust {
        let none: Vec<String> = Vec::new();
        assert(none.deep_view() =~= seq![]);
        none
    } else {
        semantic_provider_execution_roots(&inventory.execution_roots, "rust", "cargo")
    };
    assert(go_roots.deep_view().len() == go_roots@.len());
    let resolves_go = generates && go_roots.len() > 0 && !persistent_go;
    SemanticPlan {
        generates,
        rust_roots,
        go_roots,
        rust_sources: semantic_source_count(&inventory.project_topology.memberships, "rust"),
        go_sources: semantic_source_count(&inventory.project_topology.memberships, "go"),
        one_shot_rust_roots,
        resolves_go,
    }
}

/// A disabled run executes no provider and resolves no toolchain.
pub proof fn law_disabled_run_executes_nothing(
    plan: SemanticPlan,
    inventory: ProjectInventory,
    persistent_rust: bool,
    persistent_go: bool,
)
    requires
        is_plan_of(plan, ScipMode::Disabled, inventory, persistent_rust, persistent_go),
    ensures
        !plan.generates,
        !plan.resolves_go,
{
}

/// How resolving toolchains failed.
#[derive(Debug, Clone, PartialEq, Eq)]
pub enum ToolchainResolutionFailure {
    Cancelled,
    Other(String),
}

/// What is said where no Go toolchain was resolved.
pub open spec fn go_resolution_warning(error: Seq<char>) -> Seq<char> {
    "Go semantic toolchain resolution failed; scip-go was not executed: "@ + error
}

/// Takes in the resolution of the Go toolchains. A failure leaves no toolchain and a
/// warning, and so no partial authority; a cancellation ends the run.
pub fn settle_go_resolution<T>(
    resolution: Result<StringMap<T>, ToolchainResolutionFailure>,
) -> (r: Result<(StringMap<T>, Option<String>), IndexPipelineError>)
    ensures
        match resolution {
            Ok(toolchains) => r == Ok::<(StringMap<T>, Option<String>), IndexPipelineError>(
                (toolchains, None),
            ),
            Err(ToolchainResolutionFailure::Cancelled) => r == Err::<
                (StringMap<T>, Option<String>),
                IndexPipelineError,
            >(IndexPipelineError::Cancelled),
            Err(ToolchainResolutionFailure::Other(error)) => r is Ok && r->Ok_0.0@ == Map::<
                Seq<char>,
                T,
            >::empty() && r->Ok_0.1.deep_view() == Some(go_resolution_warning(error@)),
        },
{
    match resolution {
        Ok(toolchains) => Ok((toolchains, None)),
        Err(ToolchainResolutionFailure::Cancelled) => Err(IndexPipelineError::Cancelled),
        Err(ToolchainResolutionFailure::Other(error)) => {
            let mut warning =
                "Go semantic toolchain resolution failed; scip-go was not executed: ".to_owned();
            warning.append(error.as_str());
            Ok((StringMap::new(), Some(warning)))
        },
    }
}

/// How the task of the one-shot providers ended.
#[derive(Debug)]
pub enum OneShotEnd {
    Finished(OneShotRun),
    Failed(ProviderRunError),
    Panicked,
}

/// Takes in the end of the one-shot providers. A corrupt artifact is an error, a panic
/// costs their evidence only.
pub fn settle_one_shot(end: OneShotEnd) -> (r: Result<OneShotRun, IndexPipelineError>)
    ensures
        match end {
            OneShotEnd::Finished(run) => r == Ok::<OneShotRun, IndexPipelineError>(run),
            OneShotEnd::Failed(ProviderRunError::Cancelled) => r == Err::<
                OneShotRun,
                IndexPipelineError,
            >(IndexPipelineError::Cancelled),
            OneShotEnd::Failed(error) => r is Err && r->Err_0 is ScipLoader && r->Err_0.words()
                == "SCIP loader error: "@ + error.describe_spec(),
            OneShotEnd::Panicked => r is Ok && r->Ok_0.deep_view() == (RunModel {
                generated: seq![],
                warnings: seq![],
                timings: seq![],
            }),
        },
{
    match end {
        OneShotEnd::Finished(run) => Ok(run),
        OneShotEnd::Failed(error) => match error {
            ProviderRunError::Cancelled => Err(IndexPipelineError::Cancelled),
            _ => Err(IndexPipelineError::ScipLoader(error.describe())),
        },
        OneShotEnd::Panicked => Ok(OneShotRun::new(None)),
    }
}

/// Times around the one-shot providers.
#[derive(Debug, Clone, Copy, PartialEq, Eq, Structural)]
pub struct ProviderSpans {
    pub cache_preparation: Option<Duration>,
    pub cache_maintenance: Option<Duration>,
    pub go_revalidation: Option<Duration>,
    /// Of validating the reuse plan, where there was one.
    pub go_reuse_validation: Option<Duration>,
}

/// A row, if there is a span for it.
pub open spec fn optional_row(label: Seq<char>, span: Option<Duration>) -> Seq<TimingModel> {
    match span {
        Some(span) => seq![
            index_timing::exclusive_row(IndexProgressPhase::SemanticProvider, label, span),
        ],
        None => seq![],
    }
}

/// The row of an admitted reuse plan.
pub open spec fn reuse_row(settlement: GoSettlement, span: Option<Duration>) -> Seq<TimingModel> {
    match settlement {
        GoSettlement::Exact { .. } => optional_row("go exact semantic basis reuse"@, span),
        GoSettlement::AffectedRoots { .. } => optional_row(
            "go affected-root basis validation"@,
            span,
        ),
        _ => seq![],
    }
}

/// The rows of the one-shot providers in the order in which they are published.
pub open spec fn provider_rows(
    timings: Seq<TimingModel>,
    spans: ProviderSpans,
    settlement: GoSettlement,
) -> Seq<TimingModel> {
    optional_row("semantic provider cache preparation"@, spans.cache_preparation) + timings
        + optional_row("semantic provider cache maintenance"@, spans.cache_maintenance)
        + optional_row("go toolchain authority revalidation"@, spans.go_revalidation) + reuse_row(
        settlement,
        spans.go_reuse_validation,
    )
}

fn push_optional(rows: &mut Vec<IndexPhaseTiming>, label: &str, span: Option<Duration>)
    ensures
        final(rows).deep_view() == old(rows).deep_view() + optional_row(label@, span),
{
    let ghost before = rows.deep_view();
    match span {
        Some(span) => push_row(
            rows,
            exclusive(IndexProgressPhase::SemanticProvider, label, span),
        ),
        None => {},
    }
    assert(rows.deep_view() =~= before + optional_row(label@, span));
}

/// Orders the rows of the one-shot providers.
pub fn order_provider_timings(
    timings: Vec<IndexPhaseTiming>,
    spans: ProviderSpans,
    settlement: GoSettlement,
) -> (r: Vec<IndexPhaseTiming>)
    ensures
        r.deep_view() == provider_rows(timings.deep_view(), spans, settlement),
{
    let ghost given = timings.deep_view();
    let mut timings = timings;
    let mut r: Vec<IndexPhaseTiming> = Vec::new();
    assert(r.deep_view() =~= seq![]);
    push_optional(&mut r, "semantic provider cache preparation", spans.cache_preparation);
    let ghost first = r.deep_view();
    assert(first =~= optional_row(
        "semantic provider cache preparation"@,
        spans.cache_preparation,
    ));
    r.append(&mut timings);
    assert(r.deep_view() =~= first + given);
    push_optional(&mut r, "semantic provider cache maintenance", spans.cache_maintenance);
    push_optional(&mut r, "go toolchain authority revalidation", spans.go_revalidation);
    let ghost before = r.deep_view();
    match settlement {
        GoSettlement::Exact { .. } => push_optional(
            &mut r,
            "go exact semantic basis reuse",
            spans.go_reuse_validation,
        ),
        GoSettlement::AffectedRoots { .. } => push_optional(
            &mut r,
            "go affected-root basis validation",
            spans.go_reuse_validation,
        ),
        _ => {},
    }
    assert(r.deep_view() =~= before + reuse_row(settlement, spans.go_reuse_validation));
    r
}

/// The provider evidence of a run, counted.
#[derive(Debug, Clone, Copy, PartialEq, Eq, Structural)]
pub struct EvidenceCounts {
    pub generated: usize,
    pub persistent: usize,
    pub reused: usize,
}

impl EvidenceCounts {
    pub open spec fn total_spec(self) -> int {
        self.generated + self.persistent + self.reused
    }

    /// Whether there is anything to merge.
    pub fn any(self) -> (r: bool)
        ensures
            r == (self.total_spec() > 0),
    {
        self.generated > 0 || self.persistent > 0 || self.reused > 0
    }

    /// How many provider artifacts there are.
    pub fn total(self) -> (r: usize)
        requires
            self.total_spec() <= usize::MAX,
        ensures
            r == self.total_spec(),
    {
        self.generated + self.persistent + self.reused
    }

    /// Whether the graph will have no calls for want of evidence. A reuse plan may still
    /// bring some.
    pub fn lacks_precise_index(self, reuse_planned: bool) -> (r: bool)
        ensures
            r == (self.generated == 0 && self.persistent == 0 && !reuse_planned),
    {
        self.generated == 0 && self.persistent == 0 && !reuse_planned
    }
}

/// The cache partitions that stay: those of live providers, and Go's where it ran.
pub fn protected_partitions(
    active: Vec<String>,
    go_partition: String,
    resolved_toolchains: usize,
) -> (r: Vec<String>)
    ensures
        r@ == if resolved_toolchains > 0 {
            active@.push(go_partition)
        } else {
            active@
        },
{
    let mut r = active;
    if resolved_toolchains > 0 {
        r.push(go_partition);
    }
    r
}

/// A gap in words: who, with which code, and why.
pub open spec fn gap_text(
    language: Seq<char>,
    provider: Seq<char>,
    code: Seq<char>,
    reason: Seq<char>,
) -> Seq<char> {
    language + ":"@ + provider + ":"@ + code + ": "@ + reason
}

fn gap_words(language: &str, provider: &str, code: &str, reason: &str) -> (r: String)
    ensures
        r@ == gap_text(language@, provider@, code@, reason@),
{
    let mut words = language.to_owned();
    words.append(":");
    words.append(provider);
    words.append(":");
    words.append(code);
    words.append(": ");
    words.append(reason);
    words
}

/// A coverage status as it is named in code.
pub open spec fn status_text(status: CapabilityCoverageStatus) -> Seq<char> {
    match status {
        CapabilityCoverageStatus::NotApplicable => "NotApplicable"@,
        CapabilityCoverageStatus::Complete => "Complete"@,
        CapabilityCoverageStatus::Qualified => "Qualified"@,
        CapabilityCoverageStatus::Partial => "Partial"@,
        CapabilityCoverageStatus::Unavailable => "Unavailable"@,
    }
}

fn status_words(status: CapabilityCoverageStatus) -> (r: &'static str)
    ensures
        r@ == status_text(status),
{
    match status {
        CapabilityCoverageStatus::NotApplicable => "NotApplicable",
        CapabilityCoverageStatus::Complete => "Complete",
        CapabilityCoverageStatus::Qualified => "Qualified",
        CapabilityCoverageStatus::Partial => "Partial",
        CapabilityCoverageStatus::Unavailable => "Unavailable",
    }
}

/// What a language lacks: its qualifications, else its gaps, else its status.
pub open spec fn language_gaps(language: LanguageCoverage) -> Seq<Seq<char>> {
    let name = language.language_id@;
    if language.status == CapabilityCoverageStatus::Complete {
        seq![]
    } else if language.qualifications@.len() > 0 {
        language.qualifications@.map_values(
            |q: CapabilityQualification|
                gap_text(name, q.provider_id@, q.reason_code@, q.reason@),
        )
    } else if language.gaps@.len() == 0 {
        seq![name + ":"@ + status_text(language.status) + ": no complete provider evidence"@]
    } else {
        language.gaps@.map_values(
            |gap: CapabilityGap|
                gap_text(
                    name,
                    match gap.provider_id {
                        Some(provider) => provider.0@,
                        None => "unassigned"@,
                    },
                    gap.reason_code@,
                    gap.reason@,
                ),
        )
    }
}

/// What the languages lack, in order.
pub open spec fn coverage_gaps(languages: Seq<LanguageCoverage>) -> Seq<Seq<char>>
    decreases languages.len(),
{
    if languages.len() == 0 {
        seq![]
    } else {
        coverage_gaps(languages.drop_last()) + language_gaps(languages.last())
    }
}

/// What the coverage lacks, in words.
pub open spec fn unsatisfied_text(languages: Seq<LanguageCoverage>) -> Seq<char> {
    let gaps = coverage_gaps(languages);
    if gaps.len() == 0 {
        "the callable source population had no complete Calls evidence"@
    } else {
        sorting::joined(gaps, "; "@)
    }
}

fn push_language_gaps(gaps: &mut Vec<String>, language: &LanguageCoverage)
    ensures
        final(gaps).deep_view() == old(gaps).deep_view() + language_gaps(*language),
{
    let ghost before = gaps.deep_view();
    let ghost wanted = language_gaps(*language);
    let name = language.language_id.as_str();
    if language.status == CapabilityCoverageStatus::Complete {
        assert(before =~= before + wanted);
        return;
    }
    if language.qualifications.len() > 0 {
        assert(before =~= before + wanted.take(0));
        for i in 0..language.qualifications.len()
            invariant
                name@ == language.language_id@,
                wanted == language_gaps(*language),
                language.status != CapabilityCoverageStatus::Complete,
                language.qualifications@.len() > 0,
                gaps.deep_view() == before + wanted.take(i as int),
        {
            let ghost held = *gaps;
            let q = &language.qualifications[i];
            let words = gap_words(
                name,
                q.provider_id.as_str(),
                q.reason_code.as_str(),
                q.reason.as_str(),
            );
            gaps.push(words);
            proof {
                values::lemma_push(held, *gaps, words);
                assert(wanted[i as int] == words@);
                assert(before + wanted.take(i + 1) =~= (before + wanted.take(i as int)).push(
                    wanted[i as int],
                ));
            }
        }
        assert(wanted.take(wanted.len() as int) =~= wanted);
        return;
    }
    if language.gaps.len() == 0 {
        let mut words = name.to_owned();
        words.append(":");
        words.append(status_words(language.status));
        words.append(": no complete provider evidence");
        let ghost held = *gaps;
        gaps.push(words);
        proof {
            values::lemma_push(held, *gaps, words);
            assert(wanted =~= seq![words@]);
            assert(before.push(words@) =~= before + wanted);
        }
        return;
    }
    assert(before =~= before + wanted.take(0));
    for i in 0..language.gaps.len()
        invariant
            name@ == language.language_id@,
            wanted == language_gaps(*language),
            language.status != CapabilityCoverageStatus::Complete,
            language.qualifications@.len() == 0,
            language.gaps@.len() > 0,
            gaps.deep_view() == before + wanted.take(i as int),
    {
        let ghost held = *gaps;
        let gap = &language.gaps[i];
        let provider = match &gap.provider_id {
            Some(provider) => provider.0.as_str(),
            None => "unassigned",
        };
        let words = gap_words(name, provider, gap.reason_code.as_str(), gap.reason.as_str());
        gaps.push(words);
        proof {
            values::lemma_push(held, *gaps, words);
            assert(wanted[i as int] == words@);
            assert(before + wanted.take(i + 1) =~= (before + wanted.take(i as int)).push(
                wanted[i as int],
            ));
        }
    }
    assert(wanted.take(wanted.len() as int) =~= wanted);
}

/// Refuses a candidate that lacks the calls authority that its configuration demands.
/// `coverage` is the assessment of the candidate's evidence.
pub fn require_requested_semantic_authority(
    config: &IndexConfig,
    coverage: &CapabilityCoverage,
) -> (r: Result<(), IndexPipelineError>)
    ensures
        match r {
            Ok(_) => !config.require_complete_calls || coverage.all_callable_complete,
            Err(IndexPipelineError::SemanticProvidersUnsatisfied { evidence }) =>
                config.require_complete_calls && !coverage.all_callable_complete && evidence@
                    == unsatisfied_text(coverage.languages@),
            Err(_) => false,
        },
{
    if !config.require_complete_calls || coverage.all_callable_languages_complete() {
        return Ok(());
    }
    let ghost all = coverage.languages@;
    let mut gaps: Vec<String> = Vec::new();
    assert(gaps.deep_view() =~= coverage_gaps(all.take(0)));
    for i in 0..coverage.languages.len()
        invariant
            all == coverage.languages@,
            gaps.deep_view() == coverage_gaps(all.take(i as int)),
    {
        assert(all.take(i + 1).drop_last() =~= all.take(i as int));
        push_language_gaps(&mut gaps, &coverage.languages[i]);
    }
    assert(all.take(all.len() as int) =~= all);
    assert(gaps.deep_view().len() == gaps@.len());
    let evidence = if gaps.len() == 0 {
        "the callable source population had no complete Calls evidence".to_owned()
    } else {
        join(&gaps, "; ")
    };
    Err(IndexPipelineError::SemanticProvidersUnsatisfied { evidence })
}

/// A member owns semantic source in the language.
pub open spec fn owns_source_in(language: Seq<char>) -> spec_fn(SourceMembership) -> bool {
    |member: SourceMembership|
        member.language_id.0@ == language && member.semantic_source_owner
}

/// The semantic sources in a language are the members that own semantic source in it.
pub proof fn law_semantic_sources_are_counted(
    memberships: Seq<SourceMembership>,
    language: Seq<char>,
)
    ensures
        semantic_sources(memberships, language) == memberships.filter(
            owns_source_in(language),
        ).len(),
    decreases memberships.len(),
{
    let pred = owns_source_in(language);
    reveal(Seq::filter);
    if memberships.len() > 0 {
        let front = memberships.drop_last();
        law_semantic_sources_are_counted(front, language);
        assert(memberships =~= front.push(memberships.last()));
        assert(memberships.filter(pred) == if pred(memberships.last()) {
            front.filter(pred).push(memberships.last())
        } else {
            front.filter(pred)
        });
    }
}

/// What a run asks of its providers: it executes them exactly if it refreshes; it works on
/// every Cargo root in Rust and every Go root in Go, and on no other; it runs the one-shot
/// Rust provider on all of its roots or, beside a persistent one, on none; and it resolves Go
/// toolchains exactly if it refreshes, there is a Go root, and no persistent provider speaks
/// for Go.
pub proof fn law_plan_asks_for_every_root(
    plan: SemanticPlan,
    mode: ScipMode,
    inventory: ProjectInventory,
    persistent_rust: bool,
    persistent_go: bool,
)
    requires
        is_plan_of(plan, mode, inventory, persistent_rust, persistent_go),
    ensures
        ({
            let roots = inventory.execution_roots@;
            let members = inventory.project_topology.memberships@;
            let rust = roots.filter(provider_activity::carries("rust"@, "cargo"@)).map_values(
                provider_activity::place(),
            );
            let go = roots.filter(provider_activity::carries("go"@, "go"@)).map_values(
                provider_activity::place(),
            );
            &&& plan.generates <==> mode == ScipMode::Refresh
            &&& plan.rust_roots.deep_view() == rust
            &&& plan.go_roots.deep_view() == go
            &&& persistent_rust ==> plan.one_shot_rust_roots@.len() == 0
            &&& !persistent_rust ==> plan.one_shot_rust_roots.deep_view() == rust
            &&& plan.resolves_go <==> mode == ScipMode::Refresh && !persistent_go && exists|i: int|
                0 <= i < roots.len() && (#[trigger] roots[i]).language_id@ == "go"@
                    && roots[i].ecosystem_id@ == "go"@
            &&& plan.rust_sources == members.filter(owns_source_in("rust"@)).len()
            &&& plan.go_sources == members.filter(owns_source_in("go"@)).len()
        }),
{
    provider_activity::law_execution_roots_are_exact(inventory.execution_roots@, "rust"@, "cargo"@);
    provider_activity::law_execution_roots_are_exact(inventory.execution_roots@, "go"@, "go"@);
    law_semantic_sources_are_counted(inventory.project_topology.memberships@, "rust"@);
    law_semantic_sources_are_counted(inventory.project_topology.memberships@, "go"@);
    assert(plan.one_shot_rust_roots.deep_view().len() == plan.one_shot_rust_roots@.len());
}

/// No lack is passed over: a language has nothing to report exactly if its coverage is
/// complete; every other one reports each of its qualifications, or else each of its gaps, or
/// else its status, under its own name.
pub proof fn law_every_lack_is_reported(languages: Seq<LanguageCoverage>, i: int)
    requires
        0 <= i < languages.len(),
    ensures
        ({
            let language = languages[i];
            let name = language.language_id@;
            let gaps = coverage_gaps(languages);
            let complete = language.status == CapabilityCoverageStatus::Complete;
            &&& !complete ==> forall|q: int|
                0 <= q < language.qualifications@.len() ==> gaps.contains(
                    name + ":"@ + (
                    #[trigger] language.qualifications@[q]).provider_id@ + ":"@
                        + language.qualifications@[q].reason_code@ + ": "@
                        + language.qualifications@[q].reason@,
                )
            &&& !complete && language.qualifications@.len() == 0 ==> forall|g: int|
                0 <= g < language.gaps@.len() ==> gaps.contains(
                    name + ":"@ + (match (#[trigger] language.gaps@[g]).provider_id {
                        Some(provider) => provider.0@,
                        None => "unassigned"@,
                    }) + ":"@ + language.gaps@[g].reason_code@ + ": "@
                        + language.gaps@[g].reason@,
                )
            &&& !complete && language.qualifications@.len() == 0 && language.gaps@.len() == 0
                ==> gaps.contains(
                name + ":"@ + status_text(language.status) + ": no complete provider evidence"@,
            )
        }),
        (forall|k: int|
            0 <= k < languages.len() ==> (#[trigger] languages[k]).status
                == CapabilityCoverageStatus::Complete) <==> coverage_gaps(languages).len() == 0,
    decreases languages.len(),
{
    let n = languages.len() - 1;
    let front = languages.drop_last();
    let before = coverage_gaps(front);
    let own = language_gaps(languages[n]);
    let gaps = coverage_gaps(languages);
    assert(languages.last() == languages[n]);
    assert(gaps == before + own);
    let language = languages[i];
    let name = language.language_id@;
    let mine = language_gaps(language);
    if i < n {
        law_every_lack_is_reported(front, i);
        assert(front[i] == languages[i]);
    }
    assert((forall|k: int|
        0 <= k < front.len() ==> (#[trigger] front[k]).status
            == CapabilityCoverageStatus::Complete) <==> before.len() == 0) by {
        if front.len() > 0 {
            law_every_lack_is_reported(front, 0);
        }
    }
    assert(own.len() == 0 <==> languages[n].status == CapabilityCoverageStatus::Complete);
    if forall|k: int|
        0 <= k < languages.len() ==> (#[trigger] languages[k]).status
            == CapabilityCoverageStatus::Complete {
        assert forall|k: int| 0 <= k < front.len() implies (#[trigger] front[k]).status
            == CapabilityCoverageStatus::Complete by {
            assert(front[k] == languages[k]);
        }
    }
    if gaps.len() == 0 {
        assert forall|k: int| 0 <= k < languages.len() implies (#[trigger] languages[k]).status
            == CapabilityCoverageStatus::Complete by {
            if k < n {
                assert(front[k] == languages[k]);
            }
        }
    }
    assert forall|text: Seq<char>| #[trigger] mine.contains(text) implies gaps.contains(text) by {
        if i == n {
            let k = mine.index_of(text);
            assert(gaps[before.len() + k] == text);
        } else {
            lemma_gaps_of(front, i, text);
            let k = before.index_of(text);
            assert(gaps[k] == text);
        }
    }
    if language.status != CapabilityCoverageStatus::Complete {
        assert forall|q: int| 0 <= q < language.qualifications@.len() implies gaps.contains(
            name + ":"@ + (#[trigger] language.qualifications@[q]).provider_id@ + ":"@
                + language.qualifications@[q].reason_code@ + ": "@
                + language.qualifications@[q].reason@,
        ) by {
            assert(mine.contains(mine[q]));
        }
        if language.qualifications@.len() == 0 {
            assert forall|g: int| 0 <= g < language.gaps@.len() implies gaps.contains(
                name + ":"@ + (match (#[trigger] language.gaps@[g]).provider_id {
                    Some(provider) => provider.0@,
                    None => "unassigned"@,
                }) + ":"@ + language.gaps@[g].reason_code@ + ": "@ + language.gaps@[g].reason@,
            ) by {
                assert(mine.contains(mine[g]));
            }
            if language.gaps@.len() == 0 {
                assert(mine.contains(mine[0]));
            }
        }
    }
}

proof fn lemma_gaps_of(languages: Seq<LanguageCoverage>, i: int, text: Seq<char>)
    requires
        0 <= i < languages.len(),
        language_gaps(languages[i]).contains(text),
    ensures
        coverage_gaps(languages).contains(text),
    decreases languages.len(),
{
    let n = languages.len() - 1;
    let front = languages.drop_last();
    let before = coverage_gaps(front);
    let gaps = coverage_gaps(languages);
    if i == n {
        let k = language_gaps(languages[i]).index_of(text);
        assert(gaps[before.len() + k] == text);
    } else {
        assert(front[i] == languages[i]);
        lemma_gaps_of(front, i, text);
        let k = before.index_of(text);
        assert(gaps[k] == text);
    }
}

/// Rust and Go are always configured, every language with a persistent provider is, and no
/// other.
pub proof fn law_configured_languages_are_exact(providers: Seq<Seq<char>>, language: Seq<char>)
    ensures
        is_configured(providers, "rust"@),
        is_configured(providers, "go"@),
        providers.contains(language) ==> is_configured(providers, language),
        !providers.contains(language) && language != "rust"@ && language != "go"@
            ==> !is_configured(providers, language),
{
}

/// A refusal names every lack: one alone is named as it is, several with a separator between
/// them, and where nothing is named the population as a whole had no evidence. A language that is
/// not complete always has something to name, and a complete one never.
pub proof fn law_refusal_names_every_lack(
    languages: Seq<LanguageCoverage>,
    language: LanguageCoverage,
)
    ensures
        language.status is Complete <==> language_gaps(language).len() == 0,
        coverage_gaps(languages.push(language)) == coverage_gaps(languages) + language_gaps(
            language,
        ),
        coverage_gaps(Seq::empty()).len() == 0,
        coverage_gaps(languages).len() == 0 ==> unsatisfied_text(languages)
            == "the callable source population had no complete Calls evidence"@,
        coverage_gaps(languages).len() == 1 ==> unsatisfied_text(languages) == coverage_gaps(
            languages,
        )[0],
        coverage_gaps(languages).len() > 1 ==> unsatisfied_text(languages) == sorting::joined(
            coverage_gaps(languages).drop_last(),
            "; "@,
        ) + "; "@ + coverage_gaps(languages).last(),
{
    assert(languages.push(language).drop_last() =~= languages);
    assert(languages.push(language).last() == language);
}

} // verus!
