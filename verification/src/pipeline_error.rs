//! Errors of an indexing run.

use vstd::prelude::*;

use crate::graph::GraphError;
use crate::graph_store::GraphStoreError;
use crate::index_state::IndexStateError;

verus! {

/// Errors of the indexing pipeline.
#[derive(Debug, Clone, PartialEq, Eq)]
pub enum IndexPipelineError {
    Cancelled,
    State(IndexStateError),
    Extractor(String),
    Graph(GraphError),
    GraphStore(GraphStoreError),
    ScipLoader(String),
    SemanticProvidersUnsatisfied { evidence: String },
    ProjectPath(String),
    SourceDiscovery(String),
    Io(String),
    Join(String),
    Other(String),
}

impl IndexPipelineError {
    pub open spec fn words(self) -> Seq<char> {
        match self {
            IndexPipelineError::Cancelled => "indexing operation cancelled before publication"@,
            IndexPipelineError::State(e) => "index state error: "@ + e.deep_view().words(),
            IndexPipelineError::Extractor(e) => "extractor error: "@ + e@,
            IndexPipelineError::Graph(e) => "graph error: "@ + e.text(),
            IndexPipelineError::GraphStore(e) => "graph store error: "@ + e.deep_view().words(),
            IndexPipelineError::ScipLoader(e) => "SCIP loader error: "@ + e@,
            IndexPipelineError::SemanticProvidersUnsatisfied { evidence } =>
                "required complete Calls authority was not produced: "@ + evidence@,
            IndexPipelineError::ProjectPath(e) => "project path error: "@ + e@,
            IndexPipelineError::SourceDiscovery(e) => "source discovery error: "@ + e@,
            IndexPipelineError::Io(e) => "I/O error: "@ + e@,
            IndexPipelineError::Join(e) => "task join error: "@ + e@,
            IndexPipelineError::Other(e) => e@,
        }
    }

    /// The error in words.
    pub fn message(&self) -> (r: String)
        ensures
            r@ == self.words(),
    {
        match self {
            IndexPipelineError::Cancelled =>
                "indexing operation cancelled before publication".to_owned(),
            IndexPipelineError::State(e) => prefixed("index state error: ", e.message().as_str()),
            IndexPipelineError::Extractor(e) => prefixed("extractor error: ", e.as_str()),
            IndexPipelineError::Graph(e) => prefixed("graph error: ", e.describe().as_str()),
            IndexPipelineError::GraphStore(e) => prefixed(
                "graph store error: ",
                e.message().as_str(),
            ),
            IndexPipelineError::ScipLoader(e) => prefixed("SCIP loader error: ", e.as_str()),
            IndexPipelineError::SemanticProvidersUnsatisfied { evidence } => prefixed(
                "required complete Calls authority was not produced: ",
                evidence.as_str(),
            ),
            IndexPipelineError::ProjectPath(e) => prefixed("project path error: ", e.as_str()),
            IndexPipelineError::SourceDiscovery(e) => prefixed(
                "source discovery error: ",
                e.as_str(),
            ),
            IndexPipelineError::Io(e) => prefixed("I/O error: ", e.as_str()),
            IndexPipelineError::Join(e) => prefixed("task join error: ", e.as_str()),
            IndexPipelineError::Other(e) => e.clone(),
        }
    }
}

fn prefixed(prefix: &str, rest: &str) -> (r: String)
    ensures
        r@ == prefix@ + rest@,
{
    let mut r = prefix.to_owned();
    r.append(rest);
    r
}

/// Refuses to go on once the operation is cancelled.
pub fn ensure_index_active(cancelled: bool) -> (r: Result<(), IndexPipelineError>)
    ensures
        r == if cancelled {
            Err::<(), IndexPipelineError>(IndexPipelineError::Cancelled)
        } else {
            Ok(())
        },
{
    if cancelled {
        Err(IndexPipelineError::Cancelled)
    } else {
        Ok(())
    }
}

} // verus!
