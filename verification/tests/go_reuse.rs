//! Reuse of a retained Go basis.

use h00ligan_engine::domain::{
    CapabilityReceipt, CapabilityScope, LanguageId, CALLS_CONFIGURATION_ID,
};
use h00ligan_engine::go_reuse::{
    go_retained_semantic_inputs_are_current, go_semantic_reuse_plan,
    go_toolchain_bound_authority, GoInventoryFacts, GoReuseInputs, GoSemanticReusePlan,
    GoToolchains,
};
use h00ligan_engine::index_state::FileRecord;
use h00ligan_engine::ordered::StringMap;
use h00ligan_engine::payload::{
    CallsProviderPayload, ProviderExecutionAuthority, ProviderPayload, ProviderSemanticInputs,
    ScipArtifactEvidence, SemanticPathInput, ToolchainBoundRoot,
};
use h00ligan_engine::semantic_basis::{CanonicalScipSnapshot, CanonicalSemanticBasis};
use h00ligan_engine::source_freshness::DiscoveredFile;

fn texts(entries: &[(&str, &str)]) -> StringMap<String> {
    let mut map = StringMap::new();
    for (key, value) in entries {
        map.insert(key.to_string(), value.to_string());
    }
    map
}

fn owners(entries: &[(&str, &str)]) -> StringMap<StringMap<()>> {
    let mut map = StringMap::new();
    for (path, root) in entries {
        let mut roots = StringMap::new();
        roots.insert(root.to_string(), ());
        map.insert(path.to_string(), roots);
    }
    map
}

fn authority(inventory: &str) -> ProviderExecutionAuthority {
    let root = |name: &str| ToolchainBoundRoot {
        execution_root: name.into(),
        toolchain_sha256: format!("toolchain-{name}"),
        configuration_sha256: format!("configuration-{name}"),
    };
    ProviderExecutionAuthority::ToolchainBound {
        resolver_policy_id: "policy".into(),
        ecosystem_id: "go".into(),
        reuse_contract_id: "contract".into(),
        provider_implementation_sha256: "implementation".into(),
        provider_inventory_sha256: inventory.into(),
        roots: vec![root("alpha"), root("beta")],
    }
}

fn path_inputs(alpha: &str) -> Vec<SemanticPathInput> {
    vec![
        SemanticPathInput { path: "alpha/go.mod".into(), digest: alpha.into() },
        SemanticPathInput { path: "beta/go.mod".into(), digest: "b".into() },
    ]
}

fn basis() -> CanonicalSemanticBasis {
    let receipt = CapabilityReceipt::complete(
        "calls",
        "scip-go",
        "1.0.0",
        CapabilityScope::of_language("go", CALLS_CONFIGURATION_ID),
        &"a".repeat(64),
    );
    let mut payload = CallsProviderPayload::new(receipt.clone());
    payload.execution_authority = authority("inventory");
    payload.semantic_inputs = ProviderSemanticInputs {
        complete: true,
        environment: Vec::new(),
        issues: Vec::new(),
        paths: path_inputs("a"),
    };
    CanonicalSemanticBasis {
        snapshot: CanonicalScipSnapshot {
            handle: 1,
            provider_id: "scip-go".into(),
            executed_provider_version: "1.0.0".into(),
            configurations: texts(&[("/r/alpha", "ca"), ("/r/beta", "cb")]),
        },
        evidence: ScipArtifactEvidence {
            language_id: LanguageId::new("go"),
            receipt,
            payload: Some(ProviderPayload::Calls(payload)),
        },
        supplemental_evidence: Vec::new(),
        source_syntax_cache: None,
    }
}

fn inventory(fingerprint: &str, alpha: &str) -> GoInventoryFacts {
    GoInventoryFacts {
        fingerprint: Some(fingerprint.into()),
        by_root: Some(texts(&[("alpha", alpha), ("beta", "fb")])),
        input_roots: Some(owners(&[("alpha/go.mod", "alpha"), ("beta/go.mod", "beta")])),
        document_roots: texts(&[("alpha/a.go", "alpha"), ("beta/b.go", "beta")]),
    }
}

fn toolchains() -> GoToolchains {
    GoToolchains {
        resolved_roots: texts(&[("alpha", "/r/alpha"), ("beta", "/r/beta")]),
        configurations: texts(&[("/r/alpha", "ca"), ("/r/beta", "cb")]),
    }
}

struct Change {
    bases: Vec<CanonicalSemanticBasis>,
    authority: Option<ProviderExecutionAuthority>,
    inventory: GoInventoryFacts,
    changed: Vec<&'static str>,
    deleted: Vec<String>,
    inputs: Vec<SemanticPathInput>,
}

fn unchanged() -> Change {
    Change {
        bases: vec![basis()],
        authority: Some(authority("inventory")),
        inventory: inventory("inventory", "fa"),
        changed: Vec::new(),
        deleted: Vec::new(),
        inputs: path_inputs("a"),
    }
}

fn plan(change: Change) -> Option<GoSemanticReusePlan> {
    let changed: Vec<DiscoveredFile> = change
        .changed
        .iter()
        .map(|path| DiscoveredFile {
            path: format!("/r/{path}"),
            relative: Some(path.to_string()),
        })
        .collect();
    let mut existing = StringMap::new();
    for path in ["alpha/a.go", "alpha/old.go", "beta/b.go"] {
        existing.insert(
            path.to_string(),
            FileRecord {
                blake3_hash: "0".repeat(64),
                last_indexed: 1,
                symbol_count: 1,
                language: "go".into(),
            },
        );
    }
    go_semantic_reuse_plan(&GoReuseInputs {
        prior: &change.bases,
        current_authority: change.authority.as_ref(),
        toolchains: &toolchains(),
        prior_inventory: Some(&inventory("inventory", "fa")),
        inventory: &change.inventory,
        changed_paths: &changed,
        deleted_paths: &change.deleted,
        existing_files: &existing,
        current_inputs: &Some(change.inputs),
    })
}

fn affected(plan: Option<GoSemanticReusePlan>) -> Vec<String> {
    match plan.expect("a plan") {
        GoSemanticReusePlan::AffectedRoots { basis, roots } => {
            assert_eq!(basis, 0);
            roots.entries().iter().map(|(root, _)| root.clone()).collect()
        }
        GoSemanticReusePlan::Exact { .. } => panic!("some root has to run again"),
    }
}

#[test]
fn an_unchanged_project_reuses_the_basis_as_it_is() {
    let plan = plan(unchanged()).expect("a plan");
    assert!(matches!(plan, GoSemanticReusePlan::Exact { basis: 0 }));
    assert_eq!(plan.expected_provider_executions(), 0);
    assert!(plan.roots_to_execute(&toolchains().configurations).is_empty());
}

#[test]
fn a_changed_source_runs_its_own_root_again() {
    let mut change = unchanged();
    change.changed = vec!["alpha/a.go", "README.md"];
    assert_eq!(affected(plan(change)), ["/r/alpha"]);
}

#[test]
fn a_deleted_source_runs_the_root_that_lost_it_again() {
    let mut change = unchanged();
    change.deleted = vec!["alpha/old.go".into()];
    let plan = plan(change);
    assert_eq!(
        plan.as_ref().expect("a plan").roots_to_execute(&toolchains().configurations),
        ["/r/alpha"]
    );
    assert_eq!(affected(plan), ["/r/alpha"]);
}

#[test]
fn drift_of_one_modules_inputs_stays_with_that_module() {
    let mut change = unchanged();
    change.inventory = inventory("other", "changed");
    change.authority = Some(authority("other"));
    change.inputs = path_inputs("changed");
    assert_eq!(affected(plan(change)), ["/r/alpha"]);
}

#[test]
fn nothing_is_reused_where_every_root_would_run_again() {
    let mut change = unchanged();
    change.changed = vec!["alpha/a.go", "beta/b.go"];
    assert!(plan(change).is_none());
}

#[test]
fn ambiguous_or_unbound_bases_are_refused() {
    let mut twice = unchanged();
    twice.bases.push(basis());
    assert!(plan(twice).is_none());
    let mut unbound = unchanged();
    unbound.authority = None;
    assert!(plan(unbound).is_none());
    let mut invoked = unchanged();
    invoked.authority = Some(ProviderExecutionAuthority::InvocationBound);
    assert!(plan(invoked).is_none());
    let mut loose = unchanged();
    loose.changed = vec!["elsewhere/c.go"];
    assert!(plan(loose).is_none(), "a source outside every root cannot be attributed");
}

#[test]
fn inputs_of_retained_roots_have_to_be_what_they_were() {
    let prior = ProviderSemanticInputs {
        complete: true,
        environment: Vec::new(),
        issues: Vec::new(),
        paths: path_inputs("a"),
    };
    let roots = Some(owners(&[("alpha/go.mod", "alpha"), ("beta/go.mod", "beta")]));
    let current = Some(path_inputs("changed"));
    let mut beta = StringMap::new();
    beta.insert("beta".to_string(), ());
    assert!(go_retained_semantic_inputs_are_current(&prior, &roots, &roots, &current, &beta));
    beta.insert("alpha".to_string(), ());
    assert!(!go_retained_semantic_inputs_are_current(&prior, &roots, &roots, &current, &beta));
    let incomplete = ProviderSemanticInputs { complete: false, ..prior };
    assert!(!go_retained_semantic_inputs_are_current(
        &incomplete,
        &roots,
        &roots,
        &Some(path_inputs("a")),
        &beta
    ));
}

#[test]
fn authority_rests_on_all_of_its_parts() {
    let all = |bounded: bool, policy: Option<&str>| {
        go_toolchain_bound_authority(
            bounded,
            policy.map(str::to_string),
            Ok("implementation".into()),
            Ok(StringMap::new()),
            Ok(authority("inventory")),
        )
    };
    assert_eq!(all(true, Some("policy")), Some(authority("inventory")));
    assert_eq!(all(false, Some("policy")), None);
    assert_eq!(all(true, None), None);
}
