//! Configuration of an indexing run.

use vstd::prelude::*;

verus! {

/// How an indexing run may use semantic providers and their artifacts.
///
/// `Disabled` is a hard effect boundary: it neither probes a provider nor loads
/// an artifact that was there before.
#[derive(Debug, Clone, Copy, PartialEq, Eq, Structural)]
pub enum ScipMode {
    /// Do not probe providers, generate artifacts, or merge semantic edges.
    Disabled,
    /// Invoke every detected provider with disposable artifacts and private,
    /// reusable caches under the selected data directory.
    Refresh,
}

impl ScipMode {
    /// Whether a run in this mode invokes providers and writes artifacts.
    pub fn generates_artifacts(self) -> (r: bool)
        ensures
            r == (self == ScipMode::Refresh),
    {
        match self {
            ScipMode::Refresh => true,
            ScipMode::Disabled => false,
        }
    }
}

/// Configuration for an indexing run.
#[derive(Debug, Clone)]
pub struct IndexConfig {
    /// Root directory to index.
    pub root: String,
    /// Force a full re-index, ignoring cached hashes.
    pub full: bool,
    /// Only compute the diff; do not extract or store.
    pub dry_run: bool,
    /// Provider execution and artifact-ingestion intent.
    pub scip: ScipMode,
    /// Refuse the candidate before publication unless every callable language
    /// has complete Calls authority.
    pub require_complete_calls: bool,
    /// Selected data root for provider-owned state.
    pub provider_data_root: Option<String>,
    /// Languages to index. Empty means all supported.
    pub languages: Vec<String>,
    /// Patterns to leave out of discovery.
    pub exclude: Vec<String>,
    /// Parallelism limit.
    pub jobs: Option<usize>,
    /// Emit debug diagnostics.
    pub debug: bool,
    /// Collect detailed per-phase timing diagnostics.
    pub profile: bool,
    /// Allow the run to clear and rebuild a graph that belongs to another
    /// workspace.
    pub adopt_foreign_origin: bool,
}

impl Default for IndexConfig {
    fn default() -> (r: Self)
        ensures
            r.root@ == "."@,
            !r.full,
            !r.dry_run,
            r.scip == ScipMode::Disabled,
            !r.require_complete_calls,
            r.provider_data_root is None,
            r.languages@.len() == 0,
            r.exclude@.len() == 0,
            r.jobs is None,
            !r.debug,
            !r.profile,
            !r.adopt_foreign_origin,
    {
        IndexConfig {
            root: ".".to_owned(),
            full: false,
            dry_run: false,
            scip: ScipMode::Disabled,
            require_complete_calls: false,
            provider_data_root: None,
            languages: Vec::new(),
            exclude: Vec::new(),
            jobs: None,
            debug: false,
            profile: false,
            adopt_foreign_origin: false,
        }
    }
}

} // verus!
