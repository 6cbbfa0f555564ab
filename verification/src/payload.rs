//! Provider payloads: normalized semantic evidence and its sealed form.

use vstd::prelude::*;

use crate::domain::{CapabilityReceipt, LanguageId, ReceiptModel};
use crate::values::Value;

verus! {

/// A document that a provider covered.
#[derive(Debug, Clone, PartialEq, Eq)]
pub struct ProviderDocument {
    pub document_path: String,
    pub language_id: LanguageId,
    pub content_sha256: String,
    pub cross_document_surface_sha256: String,
    pub byte_length: u64,
}

pub struct DocumentModel {
    pub path: Seq<char>,
    pub language: Seq<char>,
    pub content: Seq<char>,
    pub surface: Seq<char>,
    pub byte_length: u64,
}

impl DeepView for ProviderDocument {
    type V = DocumentModel;

    open spec fn deep_view(&self) -> DocumentModel {
        DocumentModel {
            path: self.document_path@,
            language: self.language_id.0@,
            content: self.content_sha256@,
            surface: self.cross_document_surface_sha256@,
            byte_length: self.byte_length,
        }
    }
}

impl Value for ProviderDocument {
    fn copy(&self) -> (r: Self) {
        ProviderDocument {
            document_path: self.document_path.copy(),
            language_id: self.language_id.copy(),
            content_sha256: self.content_sha256.copy(),
            cross_document_surface_sha256: self.cross_document_surface_sha256.copy(),
            byte_length: self.byte_length,
        }
    }

    fn same(&self, other: &Self) -> (r: bool) {
        self.document_path.same(&other.document_path) && self.language_id.same(&other.language_id)
            && self.content_sha256.same(&other.content_sha256)
            && self.cross_document_surface_sha256.same(&other.cross_document_surface_sha256)
            && self.byte_length == other.byte_length
    }
}

/// A source region that a provider left out, with the reason.
#[derive(Debug, Clone, PartialEq, Eq)]
pub struct CoverageExclusion {
    pub reason_code: String,
    pub document_path: String,
}

impl DeepView for CoverageExclusion {
    type V = (Seq<char>, Seq<char>);

    open spec fn deep_view(&self) -> (Seq<char>, Seq<char>) {
        (self.reason_code@, self.document_path@)
    }
}

impl Value for CoverageExclusion {
    fn copy(&self) -> (r: Self) {
        CoverageExclusion {
            reason_code: self.reason_code.copy(),
            document_path: self.document_path.copy(),
        }
    }

    fn same(&self, other: &Self) -> (r: bool) {
        self.reason_code.same(&other.reason_code) && self.document_path.same(&other.document_path)
    }
}

/// A non-source file that a provider read, with the digest of what it held.
#[derive(Debug, Clone, PartialEq, Eq)]
pub struct SemanticPathInput {
    pub path: String,
    pub digest: String,
}

impl DeepView for SemanticPathInput {
    type V = (Seq<char>, Seq<char>);

    open spec fn deep_view(&self) -> (Seq<char>, Seq<char>) {
        (self.path@, self.digest@)
    }
}

impl Value for SemanticPathInput {
    fn copy(&self) -> (r: Self) {
        SemanticPathInput { path: self.path.copy(), digest: self.digest.copy() }
    }

    fn same(&self, other: &Self) -> (r: bool) {
        self.path.same(&other.path) && self.digest.same(&other.digest)
    }
}

/// The non-source inputs of a provider run.
#[derive(Debug, Clone, PartialEq, Eq)]
pub struct ProviderSemanticInputs {
    /// Every input is listed.
    pub complete: bool,
    pub environment: Vec<String>,
    pub issues: Vec<String>,
    pub paths: Vec<SemanticPathInput>,
}

pub struct SemanticInputsModel {
    pub complete: bool,
    pub environment: Seq<Seq<char>>,
    pub issues: Seq<Seq<char>>,
    pub paths: Seq<(Seq<char>, Seq<char>)>,
}

impl DeepView for ProviderSemanticInputs {
    type V = SemanticInputsModel;

    open spec fn deep_view(&self) -> SemanticInputsModel {
        SemanticInputsModel {
            complete: self.complete,
            environment: self.environment.deep_view(),
            issues: self.issues.deep_view(),
            paths: self.paths.deep_view(),
        }
    }
}

impl Value for ProviderSemanticInputs {
    fn copy(&self) -> (r: Self) {
        ProviderSemanticInputs {
            complete: self.complete,
            environment: self.environment.copy(),
            issues: self.issues.copy(),
            paths: self.paths.copy(),
        }
    }

    fn same(&self, other: &Self) -> (r: bool) {
        self.complete == other.complete && self.environment.same(&other.environment)
            && self.issues.same(&other.issues) && self.paths.same(&other.paths)
    }
}

/// A toolchain's binding to one execution root.
#[derive(Debug, Clone, PartialEq, Eq)]
pub struct ToolchainBoundRoot {
    pub execution_root: String,
    pub toolchain_sha256: String,
    pub configuration_sha256: String,
}

pub struct BoundRootModel {
    pub execution_root: Seq<char>,
    pub toolchain: Seq<char>,
    pub configuration: Seq<char>,
}

impl DeepView for ToolchainBoundRoot {
    type V = BoundRootModel;

    open spec fn deep_view(&self) -> BoundRootModel {
        BoundRootModel {
            execution_root: self.execution_root@,
            toolchain: self.toolchain_sha256@,
            configuration: self.configuration_sha256@,
        }
    }
}

impl Value for ToolchainBoundRoot {
    fn copy(&self) -> (r: Self) {
        ToolchainBoundRoot {
            execution_root: self.execution_root.copy(),
            toolchain_sha256: self.toolchain_sha256.copy(),
            configuration_sha256: self.configuration_sha256.copy(),
        }
    }

    fn same(&self, other: &Self) -> (r: bool) {
        self.execution_root.same(&other.execution_root) && self.toolchain_sha256.same(
            &other.toolchain_sha256,
        ) && self.configuration_sha256.same(&other.configuration_sha256)
    }
}

/// What makes a provider run reproducible by another process.
#[derive(Debug, Clone, PartialEq, Eq)]
pub enum ProviderExecutionAuthority {
    /// The run vouches for itself only.
    InvocationBound,
    ToolchainBound {
        resolver_policy_id: String,
        ecosystem_id: String,
        reuse_contract_id: String,
        provider_implementation_sha256: String,
        provider_inventory_sha256: String,
        roots: Vec<ToolchainBoundRoot>,
    },
}

pub enum AuthorityModel {
    InvocationBound,
    ToolchainBound {
        policy: Seq<char>,
        ecosystem: Seq<char>,
        contract: Seq<char>,
        implementation: Seq<char>,
        inventory: Seq<char>,
        roots: Seq<BoundRootModel>,
    },
}

impl DeepView for ProviderExecutionAuthority {
    type V = AuthorityModel;

    open spec fn deep_view(&self) -> AuthorityModel {
        match self {
            ProviderExecutionAuthority::InvocationBound => AuthorityModel::InvocationBound,
            ProviderExecutionAuthority::ToolchainBound {
                resolver_policy_id,
                ecosystem_id,
                reuse_contract_id,
                provider_implementation_sha256,
                provider_inventory_sha256,
                roots,
            } => AuthorityModel::ToolchainBound {
                policy: resolver_policy_id@,
                ecosystem: ecosystem_id@,
                contract: reuse_contract_id@,
                implementation: provider_implementation_sha256@,
                inventory: provider_inventory_sha256@,
                roots: roots.deep_view(),
            },
        }
    }
}

impl Value for ProviderExecutionAuthority {
    fn copy(&self) -> (r: Self) {
        match self {
            ProviderExecutionAuthority::InvocationBound =>
            ProviderExecutionAuthority::InvocationBound,
            ProviderExecutionAuthority::ToolchainBound {
                resolver_policy_id,
                ecosystem_id,
                reuse_contract_id,
                provider_implementation_sha256,
                provider_inventory_sha256,
                roots,
            } => ProviderExecutionAuthority::ToolchainBound {
                resolver_policy_id: resolver_policy_id.copy(),
                ecosystem_id: ecosystem_id.copy(),
                reuse_contract_id: reuse_contract_id.copy(),
                provider_implementation_sha256: provider_implementation_sha256.copy(),
                provider_inventory_sha256: provider_inventory_sha256.copy(),
                roots: roots.copy(),
            },
        }
    }

    fn same(&self, other: &Self) -> (r: bool) {
        match (self, other) {
            (
                ProviderExecutionAuthority::InvocationBound,
                ProviderExecutionAuthority::InvocationBound,
            ) => true,
            (
                ProviderExecutionAuthority::ToolchainBound {
                    resolver_policy_id: a,
                    ecosystem_id: b,
                    reuse_contract_id: c,
                    provider_implementation_sha256: d,
                    provider_inventory_sha256: e,
                    roots: f,
                },
                ProviderExecutionAuthority::ToolchainBound {
                    resolver_policy_id: u,
                    ecosystem_id: v,
                    reuse_contract_id: w,
                    provider_implementation_sha256: x,
                    provider_inventory_sha256: y,
                    roots: z,
                },
            ) => a.same(u) && b.same(v) && c.same(w) && d.same(x) && e.same(y) && f.same(z),
            _ => false,
        }
    }
}

/// Normalized call evidence of one provider.
#[derive(Debug, Clone, PartialEq, Eq)]
pub struct CallsProviderPayload {
    pub receipt: CapabilityReceipt,
    pub documents: Vec<ProviderDocument>,
    pub coverage_exclusions: Vec<CoverageExclusion>,
    pub semantic_inputs: ProviderSemanticInputs,
    pub execution_authority: ProviderExecutionAuthority,
}

pub struct CallsPayloadModel {
    pub receipt: ReceiptModel,
    pub documents: Seq<DocumentModel>,
    pub exclusions: Seq<(Seq<char>, Seq<char>)>,
    pub inputs: SemanticInputsModel,
    pub authority: AuthorityModel,
}

impl DeepView for CallsProviderPayload {
    type V = CallsPayloadModel;

    open spec fn deep_view(&self) -> CallsPayloadModel {
        CallsPayloadModel {
            receipt: self.receipt.deep_view(),
            documents: self.documents.deep_view(),
            exclusions: self.coverage_exclusions.deep_view(),
            inputs: self.semantic_inputs.deep_view(),
            authority: self.execution_authority.deep_view(),
        }
    }
}

impl CallsProviderPayload {
    /// A payload that carries a receipt and nothing else.
    pub fn new(receipt: CapabilityReceipt) -> (r: Self)
        ensures
            r.receipt == receipt,
            r.documents@.len() == 0,
            r.coverage_exclusions@.len() == 0,
            r.execution_authority == ProviderExecutionAuthority::InvocationBound,
            r.semantic_inputs.complete,
            r.semantic_inputs.environment@.len() == 0,
            r.semantic_inputs.issues@.len() == 0,
            r.semantic_inputs.paths@.len() == 0,
    {
        CallsProviderPayload {
            receipt,
            documents: Vec::new(),
            coverage_exclusions: Vec::new(),
            semantic_inputs: ProviderSemanticInputs {
                complete: true,
                environment: Vec::new(),
                issues: Vec::new(),
                paths: Vec::new(),
            },
            execution_authority: ProviderExecutionAuthority::InvocationBound,
        }
    }
}

impl Value for CallsProviderPayload {
    fn copy(&self) -> (r: Self) {
        CallsProviderPayload {
            receipt: self.receipt.copy(),
            documents: self.documents.copy(),
            coverage_exclusions: self.coverage_exclusions.copy(),
            semantic_inputs: self.semantic_inputs.copy(),
            execution_authority: self.execution_authority.copy(),
        }
    }

    fn same(&self, other: &Self) -> (r: bool) {
        self.receipt.same(&other.receipt) && self.documents.same(&other.documents)
            && self.coverage_exclusions.same(&other.coverage_exclusions)
            && self.semantic_inputs.same(&other.semantic_inputs) && self.execution_authority.same(
            &other.execution_authority,
        )
    }
}

/// Normalized liveness evidence of one provider.
#[derive(Debug, Clone, PartialEq, Eq)]
pub struct CallableLivenessProviderPayload {
    pub receipt: CapabilityReceipt,
    pub documents: Vec<ProviderDocument>,
}

pub struct LivenessPayloadModel {
    pub receipt: ReceiptModel,
    pub documents: Seq<DocumentModel>,
}

impl DeepView for CallableLivenessProviderPayload {
    type V = LivenessPayloadModel;

    open spec fn deep_view(&self) -> LivenessPayloadModel {
        LivenessPayloadModel {
            receipt: self.receipt.deep_view(),
            documents: self.documents.deep_view(),
        }
    }
}

impl CallableLivenessProviderPayload {
    pub fn new(receipt: CapabilityReceipt) -> (r: Self)
        ensures
            r.receipt == receipt,
            r.documents@.len() == 0,
    {
        CallableLivenessProviderPayload { receipt, documents: Vec::new() }
    }
}

impl Value for CallableLivenessProviderPayload {
    fn copy(&self) -> (r: Self) {
        CallableLivenessProviderPayload {
            receipt: self.receipt.copy(),
            documents: self.documents.copy(),
        }
    }

    fn same(&self, other: &Self) -> (r: bool) {
        self.receipt.same(&other.receipt) && self.documents.same(&other.documents)
    }
}

/// Normalized evidence, by the capability that it is about.
#[derive(Debug, Clone, PartialEq, Eq)]
pub enum ProviderPayload {
    Calls(CallsProviderPayload),
    CallableLiveness(CallableLivenessProviderPayload),
}

pub enum PayloadModel {
    Calls(CallsPayloadModel),
    CallableLiveness(LivenessPayloadModel),
}

impl PayloadModel {
    /// The receipt that the payload carries inside it.
    pub open spec fn receipt(self) -> ReceiptModel {
        match self {
            PayloadModel::Calls(p) => p.receipt,
            PayloadModel::CallableLiveness(p) => p.receipt,
        }
    }
}

impl DeepView for ProviderPayload {
    type V = PayloadModel;

    open spec fn deep_view(&self) -> PayloadModel {
        match self {
            ProviderPayload::Calls(p) => PayloadModel::Calls(p.deep_view()),
            ProviderPayload::CallableLiveness(p) => PayloadModel::CallableLiveness(p.deep_view()),
        }
    }
}

impl Value for ProviderPayload {
    fn copy(&self) -> (r: Self) {
        match self {
            ProviderPayload::Calls(p) => ProviderPayload::Calls(p.copy()),
            ProviderPayload::CallableLiveness(p) => ProviderPayload::CallableLiveness(p.copy()),
        }
    }

    fn same(&self, other: &Self) -> (r: bool) {
        match (self, other) {
            (ProviderPayload::Calls(a), ProviderPayload::Calls(b)) => a.same(b),
            (
                ProviderPayload::CallableLiveness(a),
                ProviderPayload::CallableLiveness(b),
            ) => a.same(b),
            _ => false,
        }
    }
}

impl ProviderPayload {
    /// The receipt that the payload carries inside it.
    pub fn receipt(&self) -> (r: &CapabilityReceipt)
        ensures
            r.deep_view() == self.deep_view().receipt(),
    {
        match self {
            ProviderPayload::Calls(p) => &p.receipt,
            ProviderPayload::CallableLiveness(p) => &p.receipt,
        }
    }

    pub fn is_calls(&self) -> (r: bool)
        ensures
            r == (self is Calls),
            r == (self.deep_view() is Calls),
    {
        match self {
            ProviderPayload::Calls(_) => true,
            ProviderPayload::CallableLiveness(_) => false,
        }
    }
}

/// Evidence as normalization leaves it.
#[derive(Debug, Clone, PartialEq, Eq)]
pub struct ScipArtifactEvidence {
    pub language_id: LanguageId,
    pub receipt: CapabilityReceipt,
    pub payload: Option<ProviderPayload>,
}

pub struct EvidenceModel {
    pub language: Seq<char>,
    pub receipt: ReceiptModel,
    pub payload: Option<PayloadModel>,
}

impl DeepView for ScipArtifactEvidence {
    type V = EvidenceModel;

    open spec fn deep_view(&self) -> EvidenceModel {
        EvidenceModel {
            language: self.language_id.0@,
            receipt: self.receipt.deep_view(),
            payload: self.payload.deep_view(),
        }
    }
}

impl Value for ScipArtifactEvidence {
    fn copy(&self) -> (r: Self) {
        ScipArtifactEvidence {
            language_id: self.language_id.copy(),
            receipt: self.receipt.copy(),
            payload: self.payload.copy(),
        }
    }

    fn same(&self, other: &Self) -> (r: bool) {
        self.language_id.same(&other.language_id) && self.receipt.same(&other.receipt)
            && self.payload.same(&other.payload)
    }
}

/// A payload together with the bytes that publication binds to its descriptor.
#[derive(Debug, Clone, PartialEq, Eq)]
pub struct CanonicalProviderPayload {
    pub payload: ProviderPayload,
    pub bytes: Vec<u8>,
}

impl CanonicalProviderPayload {
    pub fn payload(&self) -> (r: &ProviderPayload)
        ensures
            *r == self.payload,
    {
        &self.payload
    }

    /// The normalized payload without its sealed bytes.
    pub fn normalized_clone(&self) -> (r: ProviderPayload)
        ensures
            r.deep_view() == self.payload.deep_view(),
    {
        self.payload.copy()
    }
}

/// Evidence whose payload, if any, is sealed for publication.
#[derive(Debug, Clone, PartialEq, Eq)]
pub struct PublicationReadySemanticEvidence {
    pub language_id: LanguageId,
    pub receipt: CapabilityReceipt,
    pub payload: Option<CanonicalProviderPayload>,
}

} // verus!
