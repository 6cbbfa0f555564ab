use vstd::prelude::*;

pub mod calls_evidence;
pub mod classification;
pub mod digest;
pub mod domain;
pub mod duration;
pub mod go_reuse;
pub mod go_sources;
pub mod graph;
pub mod graph_snapshot;
pub mod graph_stats;
pub mod graph_status;
pub mod graph_store;
pub mod index_completion;
pub mod index_config;
pub mod index_evidence;
pub mod index_pipeline;
pub mod index_state;
pub mod index_tables;
pub mod index_timing;
pub mod indexed_source_authority;
pub mod language;
pub mod ordered;
pub mod path;
pub mod path_order;
pub mod path_sorting;
pub mod payload;
pub mod pipeline_error;
pub mod provider_activity;
pub mod provider_cache;
pub mod provider_run;
pub mod run_notes;
pub mod run_records;
pub mod semantic_basis;
pub mod semantic_merge;
pub mod semantic_plan;
pub mod sorting;
pub mod source_diff;
pub mod source_freshness;
pub mod structural_inputs;
pub mod text;
pub mod values;

verus! {

} // verus!
