# h00ligan_engine

The index of a local code-intelligence tool: which sources were indexed, what was
extracted from them, which graph they make, which semantic evidence backs it, and
whether all of that still holds.

The library is verified with Verus. Each function states in its contract what it
returns or changes; what spans several functions is stated as a proof function whose
name begins with `law_`.

## Layout

`src/` is the library. It reads no file, opens no database and starts no process: what
was read, decoded, resolved or executed comes in as a value, and what is to be written
or run goes out as one.

| Part | Modules |
| --- | --- |
| Text, paths, order, digests, time | `text`, `path`, `path_order`, `path_sorting`, `sorting`, `ordered`, `values`, `digest`, `duration` |
| What is indexed | `language`, `indexed_source_authority`, `index_state`, `index_tables`, `source_diff`, `source_freshness`, `structural_inputs`, `run_records` |
| The graph | `graph`, `graph_snapshot`, `graph_store`, `graph_stats`, `graph_status`, `classification` |
| Semantic evidence | `domain`, `payload`, `calls_evidence`, `semantic_basis`, `semantic_plan`, `semantic_merge`, `index_evidence` |
| Providers | `provider_activity`, `provider_run`, `provider_cache`, `go_sources`, `go_reuse` |
| A run | `index_config`, `index_pipeline`, `index_completion`, `index_timing`, `run_notes`, `pipeline_error` |

`INDEXER_IDENTITY` in `classification` is a placeholder. Whoever releases a build sets it
to the exact digest of the classifier's sources and configuration. A classification counts
as current only under the same identity, so two builds that classify differently must not
share one.

`app/` is ordinary Rust around the library: redb databases, the bincode and MessagePack
codecs, the file system, the clock, threads, progress channels and JSON rendering.

`tests/` runs the library on concrete values.
