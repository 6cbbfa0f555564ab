//! Capability receipts, coverage and the project inventory they speak of.

use vstd::prelude::*;

use crate::text;
use crate::values::Value;

verus! {

/// The configuration under which Calls authority is scoped.
pub const CALLS_CONFIGURATION_ID: &'static str = "calls";

/// The configuration under which the structural graph is scoped.
pub const STRUCTURAL_GRAPH_CONFIGURATION_ID: &'static str = "structural-graph";

/// The configuration under which callable-liveness analysis is scoped.
pub const CALLABLE_LIVENESS_CONFIGURATION_ID: &'static str = "callable-liveness";

#[derive(Debug, Clone, PartialEq, Eq)]
pub struct LanguageId(pub String);

impl LanguageId {
    pub fn new(id: &str) -> (r: Self)
        ensures
            r.0@ == id@,
    {
        LanguageId(id.to_owned())
    }
}

impl Value for LanguageId {
    fn copy(&self) -> (r: Self) {
        LanguageId(self.0.clone())
    }

    fn same(&self, other: &Self) -> (r: bool) {
        text::same(self.0.as_str(), other.0.as_str())
    }
}

impl DeepView for LanguageId {
    type V = Seq<char>;

    open spec fn deep_view(&self) -> Seq<char> {
        self.0@
    }
}

#[derive(Debug, Clone, PartialEq, Eq)]
pub struct ConfigurationId(pub String);

impl ConfigurationId {
    pub fn new(id: &str) -> (r: Self)
        ensures
            r.0@ == id@,
    {
        ConfigurationId(id.to_owned())
    }
}

impl Value for ConfigurationId {
    fn copy(&self) -> (r: Self) {
        ConfigurationId(self.0.clone())
    }

    fn same(&self, other: &Self) -> (r: bool) {
        text::same(self.0.as_str(), other.0.as_str())
    }
}

impl DeepView for ConfigurationId {
    type V = Seq<char>;

    open spec fn deep_view(&self) -> Seq<char> {
        self.0@
    }
}

#[derive(Debug, Clone, PartialEq, Eq)]
pub struct ProviderId(pub String);

impl Value for ProviderId {
    fn copy(&self) -> (r: Self) {
        ProviderId(self.0.clone())
    }

    fn same(&self, other: &Self) -> (r: bool) {
        text::same(self.0.as_str(), other.0.as_str())
    }
}

impl DeepView for ProviderId {
    type V = Seq<char>;

    open spec fn deep_view(&self) -> Seq<char> {
        self.0@
    }
}

/// What a capability receipt vouches for.
#[derive(Debug, Clone, PartialEq, Eq)]
pub enum CapabilityScope {
    Language { language_id: LanguageId, configuration_id: ConfigurationId },
    ProjectUnit {
        language_id: LanguageId,
        configuration_id: ConfigurationId,
        project_unit_id: String,
    },
    ProjectUnits {
        language_id: LanguageId,
        configuration_id: ConfigurationId,
        project_unit_ids: Vec<String>,
    },
    Repository { configuration_id: ConfigurationId },
}

/// A scope as plain text.
pub enum ScopeModel {
    Language { language: Seq<char>, configuration: Seq<char> },
    ProjectUnit { language: Seq<char>, configuration: Seq<char>, unit: Seq<char> },
    ProjectUnits { language: Seq<char>, configuration: Seq<char>, units: Seq<Seq<char>> },
    Repository { configuration: Seq<char> },
}

impl ScopeModel {
    /// The language that the scope is bound to.
    pub open spec fn language(self) -> Option<Seq<char>> {
        match self {
            ScopeModel::Language { language, .. } => Some(language),
            ScopeModel::ProjectUnit { language, .. } => Some(language),
            ScopeModel::ProjectUnits { language, .. } => Some(language),
            ScopeModel::Repository { .. } => None,
        }
    }

    pub open spec fn configuration(self) -> Seq<char> {
        match self {
            ScopeModel::Language { configuration, .. } => configuration,
            ScopeModel::ProjectUnit { configuration, .. } => configuration,
            ScopeModel::ProjectUnits { configuration, .. } => configuration,
            ScopeModel::Repository { configuration } => configuration,
        }
    }
}

impl DeepView for CapabilityScope {
    type V = ScopeModel;

    open spec fn deep_view(&self) -> ScopeModel {
        match self {
            CapabilityScope::Language { language_id, configuration_id } => ScopeModel::Language {
                language: language_id.0@,
                configuration: configuration_id.0@,
            },
            CapabilityScope::ProjectUnit { language_id, configuration_id, project_unit_id } =>
            ScopeModel::ProjectUnit {
                language: language_id.0@,
                configuration: configuration_id.0@,
                unit: project_unit_id@,
            },
            CapabilityScope::ProjectUnits { language_id, configuration_id, project_unit_ids } =>
            ScopeModel::ProjectUnits {
                language: language_id.0@,
                configuration: configuration_id.0@,
                units: project_unit_ids.deep_view(),
            },
            CapabilityScope::Repository { configuration_id } => ScopeModel::Repository {
                configuration: configuration_id.0@,
            },
        }
    }
}

impl Value for CapabilityScope {
    fn copy(&self) -> (r: Self) {
        match self {
            CapabilityScope::Language { language_id, configuration_id } =>
            CapabilityScope::Language {
                language_id: language_id.copy(),
                configuration_id: configuration_id.copy(),
            },
            CapabilityScope::ProjectUnit { language_id, configuration_id, project_unit_id } =>
            CapabilityScope::ProjectUnit {
                language_id: language_id.copy(),
                configuration_id: configuration_id.copy(),
                project_unit_id: project_unit_id.clone(),
            },
            CapabilityScope::ProjectUnits { language_id, configuration_id, project_unit_ids } =>
            CapabilityScope::ProjectUnits {
                language_id: language_id.copy(),
                configuration_id: configuration_id.copy(),
                project_unit_ids: project_unit_ids.copy(),
            },
            CapabilityScope::Repository { configuration_id } => CapabilityScope::Repository {
                configuration_id: configuration_id.copy(),
            },
        }
    }

    fn same(&self, other: &Self) -> (r: bool) {
        match (self, other) {
            (
                CapabilityScope::Language { language_id: a, configuration_id: b },
                CapabilityScope::Language { language_id: c, configuration_id: d },
            ) => a.same(c) && b.same(d),
            (
                CapabilityScope::ProjectUnit { language_id: a, configuration_id: b, project_unit_id: u },
                CapabilityScope::ProjectUnit { language_id: c, configuration_id: d, project_unit_id: v },
            ) => a.same(c) && b.same(d)
                && u.same(v),
            (
                CapabilityScope::ProjectUnits { language_id: a, configuration_id: b, project_unit_ids: u },
                CapabilityScope::ProjectUnits { language_id: c, configuration_id: d, project_unit_ids: v },
            ) => a.same(c) && b.same(d)
                && u.same(v),
            (
                CapabilityScope::Repository { configuration_id: a },
                CapabilityScope::Repository { configuration_id: b },
            ) => a.same(b),
            _ => false,
        }
    }
}

impl CapabilityScope {
    /// The whole-language scope under one configuration.
    pub fn of_language(language: &str, configuration: &str) -> (r: Self)
        ensures
            r.deep_view() == (ScopeModel::Language {
                language: language@,
                configuration: configuration@,
            }),
    {
        CapabilityScope::Language {
            language_id: LanguageId::new(language),
            configuration_id: ConfigurationId::new(configuration),
        }
    }

    /// The language that the scope is bound to.
    pub fn language_id(&self) -> (r: Option<&LanguageId>)
        ensures
            r.deep_view() == self.deep_view().language(),
    {
        match self {
            CapabilityScope::Language { language_id, .. } => Some(language_id),
            CapabilityScope::ProjectUnit { language_id, .. } => Some(language_id),
            CapabilityScope::ProjectUnits { language_id, .. } => Some(language_id),
            CapabilityScope::Repository { .. } => None,
        }
    }
}

/// How far a provider got with one capability.
#[derive(Debug, Clone, Copy, PartialEq, Eq, Structural)]
pub enum CapabilityStatus {
    Complete,
    Partial,
    Unavailable,
}

/// A provider's statement about one capability in one scope.
#[derive(Debug, Clone, PartialEq, Eq)]
pub struct CapabilityReceipt {
    pub capability_id: String,
    pub provider_id: ProviderId,
    pub provider_version: Option<String>,
    pub scope: CapabilityScope,
    pub input_fingerprint: Option<String>,
    pub status: CapabilityStatus,
    pub reason_code: Option<String>,
    pub reason: Option<String>,
}

/// A receipt as plain text.
pub struct ReceiptModel {
    pub capability: Seq<char>,
    pub provider: Seq<char>,
    pub version: Option<Seq<char>>,
    pub scope: ScopeModel,
    pub fingerprint: Option<Seq<char>>,
    pub status: CapabilityStatus,
    pub reason_code: Option<Seq<char>>,
    pub reason: Option<Seq<char>>,
}

impl ReceiptModel {
    /// The same statement with its authority withdrawn for a reason.
    pub open spec fn withdrawn(
        self,
        status: CapabilityStatus,
        reason_code: Seq<char>,
        reason: Seq<char>,
    ) -> ReceiptModel {
        ReceiptModel { status, reason_code: Some(reason_code), reason: Some(reason), ..self }
    }
}

/// A receipt that names no version and no input, for a whole language.
pub open spec fn bare_language_receipt(
    capability: Seq<char>,
    provider: Seq<char>,
    language: Seq<char>,
    configuration: Seq<char>,
    status: CapabilityStatus,
    reason_code: Seq<char>,
    reason: Seq<char>,
) -> ReceiptModel {
    ReceiptModel {
        capability,
        provider,
        version: None,
        scope: ScopeModel::Language { language, configuration },
        fingerprint: None,
        status,
        reason_code: Some(reason_code),
        reason: Some(reason),
    }
}

impl DeepView for CapabilityReceipt {
    type V = ReceiptModel;

    open spec fn deep_view(&self) -> ReceiptModel {
        ReceiptModel {
            capability: self.capability_id@,
            provider: self.provider_id.0@,
            version: self.provider_version.deep_view(),
            scope: self.scope.deep_view(),
            fingerprint: self.input_fingerprint.deep_view(),
            status: self.status,
            reason_code: self.reason_code.deep_view(),
            reason: self.reason.deep_view(),
        }
    }
}

impl Value for CapabilityReceipt {
    fn copy(&self) -> (r: Self) {
        CapabilityReceipt {
            capability_id: self.capability_id.copy(),
            provider_id: self.provider_id.copy(),
            provider_version: self.provider_version.copy(),
            scope: self.scope.copy(),
            input_fingerprint: self.input_fingerprint.copy(),
            status: self.status,
            reason_code: self.reason_code.copy(),
            reason: self.reason.copy(),
        }
    }

    fn same(&self, other: &Self) -> (r: bool) {
        self.capability_id.same(&other.capability_id) && self.provider_id.same(&other.provider_id)
            && self.provider_version.same(&other.provider_version) && self.scope.same(&other.scope)
            && self.input_fingerprint.same(&other.input_fingerprint) && self.status == other.status
            && self.reason_code.same(&other.reason_code) && self.reason.same(&other.reason)
    }
}

impl CapabilityReceipt {
    pub fn complete(
        capability_id: &str,
        provider_id: &str,
        provider_version: &str,
        scope: CapabilityScope,
        input_fingerprint: &str,
    ) -> (r: Self)
        ensures
            r.deep_view() == (ReceiptModel {
                capability: capability_id@,
                provider: provider_id@,
                version: Some(provider_version@),
                scope: scope.deep_view(),
                fingerprint: Some(input_fingerprint@),
                status: CapabilityStatus::Complete,
                reason_code: None,
                reason: None,
            }),
    {
        CapabilityReceipt {
            capability_id: capability_id.to_owned(),
            provider_id: ProviderId(provider_id.to_owned()),
            provider_version: Some(provider_version.to_owned()),
            scope,
            input_fingerprint: Some(input_fingerprint.to_owned()),
            status: CapabilityStatus::Complete,
            reason_code: None,
            reason: None,
        }
    }

    pub fn partial(
        capability_id: &str,
        provider_id: &str,
        provider_version: Option<String>,
        scope: CapabilityScope,
        input_fingerprint: Option<String>,
        reason_code: &str,
        reason: &str,
    ) -> (r: Self)
        ensures
            r.deep_view() == (ReceiptModel {
                capability: capability_id@,
                provider: provider_id@,
                version: provider_version.deep_view(),
                scope: scope.deep_view(),
                fingerprint: input_fingerprint.deep_view(),
                status: CapabilityStatus::Partial,
                reason_code: Some(reason_code@),
                reason: Some(reason@),
            }),
    {
        CapabilityReceipt {
            capability_id: capability_id.to_owned(),
            provider_id: ProviderId(provider_id.to_owned()),
            provider_version,
            scope,
            input_fingerprint,
            status: CapabilityStatus::Partial,
            reason_code: Some(reason_code.to_owned()),
            reason: Some(reason.to_owned()),
        }
    }

    pub fn unavailable(
        capability_id: &str,
        provider_id: &str,
        provider_version: Option<String>,
        scope: CapabilityScope,
        input_fingerprint: Option<String>,
        reason_code: &str,
        reason: &str,
    ) -> (r: Self)
        ensures
            r.deep_view() == (ReceiptModel {
                capability: capability_id@,
                provider: provider_id@,
                version: provider_version.deep_view(),
                scope: scope.deep_view(),
                fingerprint: input_fingerprint.deep_view(),
                status: CapabilityStatus::Unavailable,
                reason_code: Some(reason_code@),
                reason: Some(reason@),
            }),
    {
        CapabilityReceipt {
            capability_id: capability_id.to_owned(),
            provider_id: ProviderId(provider_id.to_owned()),
            provider_version,
            scope,
            input_fingerprint,
            status: CapabilityStatus::Unavailable,
            reason_code: Some(reason_code.to_owned()),
            reason: Some(reason.to_owned()),
        }
    }

    /// The same statement with its authority withdrawn for a reason.
    pub fn withdraw(self, status: CapabilityStatus, reason_code: &str, reason: &str) -> (r: Self)
        ensures
            r.deep_view() == self.deep_view().withdrawn(status, reason_code@, reason@),
    {
        CapabilityReceipt {
            capability_id: self.capability_id,
            provider_id: self.provider_id,
            provider_version: self.provider_version,
            scope: self.scope,
            input_fingerprint: self.input_fingerprint,
            status,
            reason_code: Some(reason_code.to_owned()),
            reason: Some(reason.to_owned()),
        }
    }
}

/// Aggregate coverage of one capability.
#[derive(Debug, Clone, Copy, PartialEq, Eq, Structural)]
pub enum CapabilityCoverageStatus {
    NotApplicable,
    Complete,
    Qualified,
    Partial,
    Unavailable,
}

/// An explicit exclusion inside otherwise exact coverage.
#[derive(Debug, Clone, PartialEq, Eq)]
pub struct CapabilityQualification {
    pub provider_id: String,
    pub reason_code: String,
    pub reason: String,
}

/// A part of a language that no provider covers.
#[derive(Debug, Clone, PartialEq, Eq)]
pub struct CapabilityGap {
    pub provider_id: Option<ProviderId>,
    pub reason_code: String,
    pub reason: String,
}

/// Coverage of one capability in one language.
#[derive(Debug, Clone, PartialEq, Eq)]
pub struct LanguageCoverage {
    pub language_id: String,
    pub status: CapabilityCoverageStatus,
    pub qualifications: Vec<CapabilityQualification>,
    pub gaps: Vec<CapabilityGap>,
}

/// Coverage of one capability in a repository, with the two decisions that its
/// assessment reached about the whole population.
#[derive(Debug, Clone, PartialEq, Eq)]
pub struct CapabilityCoverage {
    pub status: CapabilityCoverageStatus,
    pub languages: Vec<LanguageCoverage>,
    /// Every operation that the discovered project units allow has been done.
    pub best_effort_satisfied: bool,
    /// Every language with callable source has complete coverage.
    pub all_callable_complete: bool,
}

impl CapabilityCoverage {
    pub fn satisfies_best_effort_provider_intent(&self) -> (r: bool)
        ensures
            r == self.best_effort_satisfied,
    {
        self.best_effort_satisfied
    }

    pub fn all_callable_languages_complete(&self) -> (r: bool)
        ensures
            r == self.all_callable_complete,
    {
        self.all_callable_complete
    }
}

/// Why a published generation is refused.
#[derive(Debug, Clone, PartialEq, Eq)]
pub enum DomainError {
    PublishedGenerationInvalid { reason: String },
}

/// What a project unit is.
#[derive(Debug, Clone, Copy, PartialEq, Eq, Structural)]
pub enum ProjectUnitKind {
    Package,
    Workspace,
    Module,
}

/// A unit of the project, as its manifests declare it.
#[derive(Debug, Clone, PartialEq, Eq)]
pub struct ProjectUnit {
    pub kind: ProjectUnitKind,
    pub ecosystem_id: String,
}

/// A source file's place in the project.
#[derive(Debug, Clone, PartialEq, Eq)]
pub struct SourceMembership {
    pub language_id: LanguageId,
    /// The member owns semantic source.
    pub semantic_source_owner: bool,
}

/// Units and members of the project.
#[derive(Debug, Clone, PartialEq, Eq)]
pub struct ProjectTopology {
    pub units: Vec<ProjectUnit>,
    pub memberships: Vec<SourceMembership>,
}

/// A manifest or lock file that the inventory read.
#[derive(Debug, Clone, PartialEq, Eq)]
pub struct ProjectInput {
    pub language_id: LanguageId,
    pub path: String,
}

/// A directory in which a provider of an ecosystem may run for a language.
#[derive(Debug, Clone, PartialEq, Eq)]
pub struct ProviderExecutionRoot {
    pub language_id: String,
    pub ecosystem_id: String,
    pub path: String,
}

/// Whether the inventory covers every indexed source.
#[derive(Debug, Clone, Copy, PartialEq, Eq, Structural)]
pub enum ProjectInventoryCoverage {
    IndexedSourcePopulationComplete,
    Incomplete,
}

/// The project as its manifests describe it.
#[derive(Debug, Clone, PartialEq, Eq)]
pub struct ProjectInventory {
    pub coverage: ProjectInventoryCoverage,
    pub issues: Vec<String>,
    pub inputs: Vec<ProjectInput>,
    pub project_topology: ProjectTopology,
    pub execution_roots: Vec<ProviderExecutionRoot>,
}

} // verus!
