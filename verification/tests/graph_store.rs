//! The persisted graph: loading, clearing, publication and provenance.

use h00ligan_engine::classification::{
    current_prover_config, evaluate_classification_currency, ApproximateIdentity, ClassifiedBy,
    CurrencyFailure, CurrencyInputs, GraphGenerationMetadata, BUILD_IDENTITY, INDEXER_IDENTITY,
};
use h00ligan_engine::duration::Duration;
use h00ligan_engine::graph::{
    restore_learned_weights, EdgeKind, EdgeSource, GraphEdge, GraphNode, KnowledgeGraph,
    OracleReceipt, ReachabilityClass, SourceSpan,
};
use h00ligan_engine::graph_snapshot::{materialize_snapshot, GraphSnapshot};
use h00ligan_engine::graph_store::{
    EvidenceReading, GraphPublicationProof, GraphStore, GraphStoreError, GraphTables, SaveTimings,
    WorkspaceRoot, SCHEMA_VERSION,
};

fn empty_tables() -> GraphTables {
    GraphTables {
        snapshot: None,
        missing_snapshot_table: None,
        evidence: None,
        schema_version: None,
        oracle_ran_ok: None,
        origin: None,
        build_identity: None,
        indexer_identity: None,
        prover_config: None,
        timestamp: None,
    }
}

fn open_store() -> GraphStore {
    GraphStore::new(empty_tables())
}

fn root(path: &str) -> WorkspaceRoot {
    WorkspaceRoot { display: path.into(), canonical: Ok(path.into()) }
}

fn make_node(name: &str) -> GraphNode {
    let id = name.bytes().fold(7u128, |id, byte| id * 257 + byte as u128);
    GraphNode {
        memory_id: id,
        symbol_name: name.into(),
        kind: "function".into(),
        is_callable: true,
        file_path: format!("src/{name}.rs"),
        content_hash: format!("hash_{name}"),
        signature: String::new(),
        reachability_class: ReachabilityClass::Unclassified,
        line_start: None,
        line_end: None,
        has_body: None,
        visibility: String::new(),
        is_test_only: None,
        is_test_root: false,
        has_platform_cfg: false,
        rustc_flagged_dead: false,
        entry_retain: 0,
        has_uncaptured_items: false,
        oracle_receipt: None,
    }
}

fn calls_edge() -> GraphEdge {
    GraphEdge {
        kind: EdgeKind::Calls,
        source: EdgeSource::Scip,
        weight_bits: 1.0f32.to_bits(),
        access_count: 0,
    }
}

fn timings() -> SaveTimings {
    let zero = Duration::zero();
    SaveTimings {
        evidence_validation: zero,
        snapshot_materialization: zero,
        snapshot_encoding: zero,
        evidence_encoding: zero,
        proof_hashing: zero,
        database_write: zero,
    }
}

const GRAPH_BYTES: &[u8] = b"encoded graph";
const EVIDENCE_BYTES: &[u8] = b"{\"schema\":\"evidence\"}";

fn pair_graph() -> (KnowledgeGraph, u128, u128) {
    let mut graph = KnowledgeGraph::new();
    let a = make_node("alpha");
    let b = make_node("beta");
    let a_id = a.memory_id;
    let b_id = b.memory_id;
    graph.add_node(a).expect("add a");
    graph.add_node(b).expect("add b");
    graph.add_edge(a_id, b_id, calls_edge()).expect("edge");
    (graph, a_id, b_id)
}

/// What decoding `GRAPH_BYTES` gives.
fn decoded(graph: &KnowledgeGraph) -> Result<(GraphSnapshot, usize), String> {
    Ok((materialize_snapshot(graph), GRAPH_BYTES.len()))
}

struct Fixture {
    root: WorkspaceRoot,
    store: GraphStore,
    proof: GraphPublicationProof,
}

fn publication_proof_fixture() -> Fixture {
    let root = root("/work/home");
    let mut store = open_store();
    let write = store
        .save_snapshot_with_optional_reachability_profiled(
            Some((Ok(()), Ok(EVIDENCE_BYTES.to_vec()))),
            Ok(GRAPH_BYTES.to_vec()),
            timings(),
        )
        .expect("save exact graph and evidence");
    store.set_origin(&root).expect("stamp publication origin");
    let metadata = GraphGenerationMetadata::now(true);
    store
        .set_generation_metadata(&metadata)
        .expect("stamp publication metadata");
    let proof = write
        .publication_proof(&root, metadata)
        .expect("bind publication proof");
    Fixture { root, store, proof }
}

#[test]
fn publication_proof_accepts_only_its_intact_generation() {
    let fixture = publication_proof_fixture();
    fixture
        .store
        .validate_publication_proof_sync(&fixture.root, &fixture.proof)
        .expect("intact graph, evidence, origin, and metadata");
    assert_eq!(
        fixture.proof.verified_bytes(),
        (GRAPH_BYTES.len() + EVIDENCE_BYTES.len()) as u64
    );
    assert_eq!(
        fixture.proof.graph_blake3,
        *blake3::hash(GRAPH_BYTES).as_bytes()
    );
    assert_eq!(
        fixture.proof.evidence_blake3,
        Some(*blake3::hash(EVIDENCE_BYTES).as_bytes())
    );
}

#[test]
fn invalid_bound_reachability_evidence_is_capability_local() {
    let mut fixture = publication_proof_fixture();
    fixture.store.tables.evidence = Some(b"{not-json".to_vec());
    let proof = fixture
        .store
        .capture_publication_proof_sync(&fixture.root)
        .expect("bind the exact invalid optional document");
    let raw = fixture
        .store
        .read_raw_publication_content_sync(&fixture.root, Some(&proof))
        .expect("the bytes are the proven ones");
    let (graph, _, _) = pair_graph();
    let opened = GraphStore::decode_publication_content::<u8>(
        raw,
        decoded(&graph),
        Some(EvidenceReading::Malformed("expected a key".into())),
    )
    .expect("invalid optional evidence must not erase the authenticated graph");
    assert!(opened.graph.node_count() > 0, "positive graph control");
    assert!(matches!(
        opened.reachability_evidence,
        Err(GraphStoreError::Serialization(_))
    ));
}

#[test]
fn publication_proof_rejects_graph_byte_tampering() {
    let mut fixture = publication_proof_fixture();
    fixture.store.tables.snapshot = Some(b"tampered graph bytes".to_vec());
    let error = fixture
        .store
        .validate_publication_proof_sync(&fixture.root, &fixture.proof)
        .expect_err("changed graph bytes must invalidate the proof");
    assert!(matches!(error, GraphStoreError::InvalidSnapshot(_)));
}

#[test]
fn publication_proof_rejects_reachability_byte_tampering_or_removal() {
    let mut changed = publication_proof_fixture();
    changed.store.tables.evidence = Some(b"changed evidence bytes".to_vec());
    let changed_error = changed
        .store
        .validate_publication_proof_sync(&changed.root, &changed.proof)
        .expect_err("changed reachability bytes must invalidate the proof");
    assert!(matches!(
        changed_error,
        GraphStoreError::ReachabilityEvidence(_)
    ));

    let mut missing = publication_proof_fixture();
    missing.store.tables.evidence = None;
    let missing_error = missing
        .store
        .validate_publication_proof_sync(&missing.root, &missing.proof)
        .expect_err("missing reachability bytes must invalidate the proof");
    assert!(matches!(
        missing_error,
        GraphStoreError::ReachabilityEvidence(_)
    ));
}

#[test]
fn publication_proof_rejects_metadata_origin_and_schema_tampering() {
    let mut metadata = publication_proof_fixture();
    let mut changed_metadata = metadata.proof.generation_metadata.clone();
    changed_metadata.oracle_ran_ok = !changed_metadata.oracle_ran_ok;
    metadata
        .store
        .set_generation_metadata(&changed_metadata)
        .expect("replace generation metadata");
    let metadata_error = metadata
        .store
        .validate_publication_proof_sync(&metadata.root, &metadata.proof)
        .expect_err("changed interpretation metadata must invalidate the proof");
    assert!(matches!(
        metadata_error,
        GraphStoreError::InvalidGenerationMetadata { .. }
    ));

    let query = publication_proof_fixture();
    let query_error = query
        .store
        .validate_publication_proof_sync(&root("/work/foreign"), &query.proof)
        .expect_err("a proof cannot authorize a different query root");
    assert!(matches!(query_error, GraphStoreError::OriginMismatch { .. }));

    let mut stored = publication_proof_fixture();
    stored
        .store
        .set_origin(&root("/work/foreign"))
        .expect("replace stored origin");
    let stored_error = stored
        .store
        .validate_publication_proof_sync(&stored.root, &stored.proof)
        .expect_err("a changed persisted origin must invalidate the proof");
    assert!(matches!(stored_error, GraphStoreError::OriginMismatch { .. }));

    let schema = publication_proof_fixture();
    let mut changed_schema = schema.proof.clone();
    changed_schema.schema_version = SCHEMA_VERSION.saturating_add(1);
    let schema_error = schema
        .store
        .validate_publication_proof_sync(&schema.root, &changed_schema)
        .expect_err("a proof from another schema must be refused");
    assert!(matches!(schema_error, GraphStoreError::Origin(_)));
}

#[test]
fn snapshot_roundtrip() {
    let mut store = open_store();
    let (mut graph, a_id, b_id) = pair_graph();
    graph
        .set_source_span(a_id, SourceSpan { start_byte: 7, end_byte: 19 })
        .expect("alpha span");
    store.save_snapshot(Ok(GRAPH_BYTES.to_vec())).expect("save");
    let loaded = store.load_snapshot(decoded(&graph)).expect("should exist");
    assert_eq!(loaded.node_count(), 2);
    assert_eq!(loaded.edge_count(), 1);
    assert!(loaded.node(a_id).is_some());
    assert!(loaded.node(b_id).is_some());
    assert_eq!(
        loaded.source_span(a_id),
        Some(SourceSpan { start_byte: 7, end_byte: 19 })
    );
    assert_eq!(loaded.source_span(b_id), None);
    let (source, target, _) = &loaded.all_edges()[0];
    assert_eq!((*source, *target), (a_id, b_id));
}

#[test]
fn snapshot_decoder_rejects_ambiguous_or_incomplete_graph_state() {
    fn assert_invalid(snapshot: GraphSnapshot, expected: &str) {
        let error = match GraphStore::decode_snapshot(10, Ok((snapshot, 10))) {
            Ok(_) => panic!("corrupt graph state must fail closed"),
            Err(error) => error,
        };
        assert!(
            error.message().contains(expected),
            "expected {expected:?} in {}",
            error.message()
        );
    }

    let source = make_node("source");
    let target = make_node("target");
    let source_id = source.memory_id;
    let target_id = target.memory_id;
    let span = SourceSpan { start_byte: 0, end_byte: 4 };

    assert_invalid(
        GraphSnapshot {
            nodes: vec![source.clone(), source.clone()],
            edges: Vec::new(),
            source_spans: Vec::new(),
        },
        "duplicate node",
    );
    assert_invalid(
        GraphSnapshot {
            nodes: vec![source.clone()],
            edges: Vec::new(),
            source_spans: vec![(source_id, span), (source_id, span)],
        },
        "duplicate persisted source span",
    );
    assert_invalid(
        GraphSnapshot {
            nodes: vec![source.clone()],
            edges: vec![(source_id, target_id, calls_edge())],
            source_spans: Vec::new(),
        },
        "node not found",
    );
    assert_invalid(
        GraphSnapshot {
            nodes: vec![source, target],
            edges: vec![
                (source_id, target_id, calls_edge()),
                (source_id, target_id, calls_edge()),
            ],
            source_spans: Vec::new(),
        },
        "duplicate persisted Calls edge",
    );

    let valid = GraphSnapshot {
        nodes: vec![make_node("valid")],
        edges: Vec::new(),
        source_spans: Vec::new(),
    };
    let error = match GraphStore::decode_snapshot(11, Ok((valid, 10))) {
        Ok(_) => panic!("trailing bytes must not be accepted as an exact snapshot"),
        Err(error) => error,
    };
    assert!(error.message().contains("decoder consumed"));
    assert!(matches!(
        GraphStore::decode_snapshot(11, Err("unexpected end".into())),
        Err(GraphStoreError::InvalidSnapshot(_))
    ));
}

#[test]
fn reachability_evidence_roundtrips_with_its_exact_graph() {
    let mut store = open_store();
    store
        .save_snapshot_with_reachability_evidence(
            Ok(()),
            Ok(GRAPH_BYTES.to_vec()),
            Ok(EVIDENCE_BYTES.to_vec()),
            timings(),
        )
        .expect("atomically save graph and evidence");
    let (graph, _, _) = pair_graph();
    assert!(store.load_snapshot(decoded(&graph)).is_some());
    let loaded = store
        .load_reachability_evidence(Some(EvidenceReading::Parsed {
            canonical: EVIDENCE_BYTES.to_vec(),
            joined: Ok(42u8),
        }))
        .expect("load valid evidence")
        .expect("evidence exists");
    assert_eq!(loaded, 42);
}

#[test]
fn every_graph_only_save_invalidates_prior_reachability_evidence() {
    let mut store = open_store();
    let save_both = |store: &mut GraphStore| {
        store
            .save_snapshot_with_reachability_evidence(
                Ok(()),
                Ok(GRAPH_BYTES.to_vec()),
                Ok(EVIDENCE_BYTES.to_vec()),
                timings(),
            )
            .expect("seed graph and evidence");
    };
    save_both(&mut store);
    assert!(store.tables.evidence.is_some(), "positive control");
    store
        .save_snapshot(Ok(GRAPH_BYTES.to_vec()))
        .expect("graph-only save");
    assert!(store.load_reachability_evidence::<u8>(None).unwrap().is_none());
    save_both(&mut store);
    store
        .save_snapshot_sync(Ok(GRAPH_BYTES.to_vec()))
        .expect("sync graph-only save");
    assert!(store.load_reachability_evidence::<u8>(None).unwrap().is_none());
}

#[test]
fn malformed_noncanonical_wrong_schema_and_graph_mismatch_are_refused() {
    let mut store = open_store();
    store
        .save_snapshot_with_reachability_evidence(
            Ok(()),
            Ok(GRAPH_BYTES.to_vec()),
            Ok(EVIDENCE_BYTES.to_vec()),
            timings(),
        )
        .expect("seed graph and evidence");

    assert!(
        store
            .load_reachability_evidence::<u8>(Some(EvidenceReading::Malformed("bad".into())))
            .is_err(),
        "malformed JSON must never become absent or empty evidence"
    );
    let noncanonical = store
        .load_reachability_evidence(Some(EvidenceReading::Parsed {
            canonical: b"{}".to_vec(),
            joined: Ok(1u8),
        }))
        .expect_err("noncanonical evidence must be refused");
    assert!(noncanonical.message().contains("not in canonical encoding"));
    let schema_error = store
        .load_reachability_evidence::<u8>(Some(EvidenceReading::Parsed {
            canonical: EVIDENCE_BYTES.to_vec(),
            joined: Err("unsupported schema".into()),
        }))
        .expect_err("wrong-schema evidence must be refused");
    assert!(schema_error.message().contains("unsupported schema"));
    let refused = open_store()
        .save_snapshot_with_reachability_evidence(
            Err("classified population digest".into()),
            Ok(GRAPH_BYTES.to_vec()),
            Ok(EVIDENCE_BYTES.to_vec()),
            timings(),
        )
        .expect_err("evidence for another graph population must be refused");
    assert!(refused.message().contains("classified population digest"));
}

#[test]
fn load_empty_returns_none() {
    assert!(open_store().load_snapshot(Err("no bytes".into())).is_none());
}

#[test]
fn generation_metadata_is_complete_atomic_and_strictly_decoded() {
    let mut store = open_store();
    let missing = store
        .generation_metadata()
        .expect_err("an unstamped store has no generation authority");
    assert!(matches!(
        missing,
        GraphStoreError::MissingGenerationMetadata { field: "classified_by" }
    ));

    let first = GraphGenerationMetadata::now(true);
    store
        .set_generation_metadata(&first)
        .expect("stamp complete metadata");
    assert_eq!(store.generation_metadata().expect("read metadata"), first);

    let mut unavailable_identity = first.clone();
    unavailable_identity.classified_by.indexer_identity = "unavailable".into();
    let invalid_write = store
        .set_generation_metadata(&unavailable_identity)
        .expect_err("an inexact classifier identity must fail before persistence");
    assert!(matches!(
        invalid_write,
        GraphStoreError::InvalidGenerationMetadata { field: "classified_by", .. }
    ));
    assert_eq!(
        store.generation_metadata().expect("metadata after rejected write"),
        first,
        "a rejected identity must not partially alter the prior complete stamp"
    );

    store.tables.oracle_ran_ok = Some(2);
    let invalid = store
        .generation_metadata()
        .expect_err("non-canonical booleans must not become authority");
    assert!(matches!(
        invalid,
        GraphStoreError::InvalidGenerationMetadata { field: "oracle_ran_ok", .. }
    ));
}

#[test]
fn snapshot_preserves_edge_weights() {
    let mut store = open_store();
    let mut graph = KnowledgeGraph::new();
    let a = make_node("a");
    let b = make_node("b");
    let (a_id, b_id) = (a.memory_id, b.memory_id);
    graph.add_node(a).expect("add a");
    graph.add_node(b).expect("add b");
    graph
        .add_edge(
            a_id,
            b_id,
            GraphEdge {
                kind: EdgeKind::Implements,
                source: EdgeSource::Syntax,
                weight_bits: 0.42f32.to_bits(),
                access_count: 0,
            },
        )
        .expect("edge");
    store.save_snapshot(Ok(GRAPH_BYTES.to_vec())).expect("save");
    let loaded = store.load_snapshot(decoded(&graph)).expect("should exist");
    let (_, _, edge) = &loaded.all_edges()[0];
    assert_eq!(edge.kind, EdgeKind::Implements);
    assert!((f32::from_bits(edge.weight_bits) - 0.42).abs() < f32::EPSILON);
}

#[test]
fn materialized_snapshot_keeps_every_node_field() {
    let mut node = make_node("receipted");
    node.oracle_receipt = Some(OracleReceipt {
        code: "dead_code".into(),
        line: 41,
        subject: "dead_fn".into(),
    });
    node.has_uncaptured_items = true;
    node.has_platform_cfg = true;
    node.rustc_flagged_dead = true;
    node.entry_retain = 5;
    node.is_test_only = Some(true);
    node.is_test_root = true;
    let mut graph = KnowledgeGraph::new();
    graph.add_node(node.clone()).expect("add");
    let loaded = GraphStore::decode_snapshot(3, Ok((materialize_snapshot(&graph), 3)))
        .expect("rebuild");
    assert_eq!(loaded.all_nodes()[0], node);
}

#[test]
fn undecodable_old_snapshot_triggers_clean_rebuild_not_hard_error() {
    let mut tables = empty_tables();
    tables.snapshot = Some(vec![0xff; 8]);
    let store = GraphStore::new(tables);
    assert!(
        store.load_snapshot(Err("unexpected variant".into())).is_none(),
        "an undecodable old snapshot must be discarded for a clean rebuild"
    );
}

#[test]
fn unstamped_snapshot_is_cleared_for_rebuild() {
    let mut tables = empty_tables();
    tables.snapshot = Some(b"obsolete-derived-graph".to_vec());
    let mut store = GraphStore::new(tables);
    let (graph, cleared) = store
        .load_snapshot_or_clear(&root("."), false, Err("obsolete".into()))
        .expect("clear disposable snapshot");
    assert!(cleared);
    assert!(graph.is_none());
    assert!(store.tables.snapshot.is_none());
    assert_eq!(
        store.tables.schema_version,
        Some(SCHEMA_VERSION),
        "the clear must stamp the current schema version"
    );
}

#[test]
fn same_schema_store_is_not_cleared() {
    let mut store = open_store();
    let (graph, _, _) = pair_graph();
    store.save_snapshot(Ok(GRAPH_BYTES.to_vec())).expect("save");
    store.set_origin(&root("/work")).expect("stamp origin");
    let (loaded, cleared) = store
        .load_snapshot_or_clear(&root("/work"), false, decoded(&graph))
        .expect("load");
    assert!(
        !cleared,
        "a same-schema store must NOT be cleared (no spurious rebuild every index)"
    );
    let loaded = loaded.expect("a same-schema store must load its graph");
    assert_eq!(loaded.node_count(), 2);
    assert_eq!(loaded.edge_count(), 1);
}

#[test]
fn empty_store_is_not_cleared() {
    let mut store = open_store();
    let (loaded, cleared) = store
        .load_snapshot_or_clear(&root("."), false, Err("no bytes".into()))
        .expect("load");
    assert!(!cleared, "an empty store has nothing to clear");
    assert!(loaded.is_none(), "an empty store has no graph yet");
}

#[test]
fn foreign_graph_is_cleared_only_with_leave() {
    let mut store = open_store();
    let (graph, _, _) = pair_graph();
    store.save_snapshot(Ok(GRAPH_BYTES.to_vec())).expect("save");
    store.set_origin(&root("/work/a")).expect("stamp origin");
    let refused = match store.load_snapshot_or_clear(&root("/work/b"), false, decoded(&graph)) {
        Err(error) => error,
        Ok(_) => panic!("another workspace's graph must not be cleared silently"),
    };
    assert!(matches!(refused, GraphStoreError::OriginAdoptRequired { .. }));
    assert!(refused.message().contains("--adopt-foreign-origin"));
    assert!(store.tables.snapshot.is_some());
    let (loaded, cleared) = store
        .load_snapshot_or_clear(&root("/work/b"), true, decoded(&graph))
        .expect("adopt");
    assert!(cleared && loaded.is_none());
    assert!(store.tables.snapshot.is_none());
}

#[test]
fn read_load_on_stale_store_does_not_clear_or_stamp() {
    let snap_bytes = b"stale-derived-snapshot".to_vec();
    let mut tables = empty_tables();
    tables.snapshot = Some(snap_bytes.clone());
    let store = GraphStore::new(tables);
    assert!(store.load_snapshot(Err("stale".into())).is_none());
    assert_eq!(store.tables.snapshot, Some(snap_bytes));
    assert!(store.tables.schema_version.is_none());
}

#[test]
fn origin_match_serves_snapshot() {
    let mut store = open_store();
    let (graph, _, _) = pair_graph();
    store.save_snapshot(Ok(GRAPH_BYTES.to_vec())).expect("save");
    store.set_origin(&root("/work/a")).expect("set origin A");
    assert_eq!(store.get_origin(), Some("/work/a".to_string()));
    let loaded = store
        .load_snapshot_checked(&root("/work/a"), decoded(&graph))
        .expect("a matching origin must not error")
        .expect("a matching origin must serve the snapshot");
    assert_eq!(loaded.node_count(), 2, "the snapshot graph must be served");
}

#[test]
fn origin_mismatch_errors_with_both_paths() {
    let mut store = open_store();
    let (graph, _, _) = pair_graph();
    store.save_snapshot(Ok(GRAPH_BYTES.to_vec())).expect("save");
    store.set_origin(&root("/work/a")).expect("set origin A");
    let err = match store.load_snapshot_checked(&root("/work/b"), decoded(&graph)) {
        Err(e) => e,
        Ok(_) => panic!("a foreign origin must error, not serve a graph"),
    };
    let msg = err.message();
    assert!(msg.contains("/work/a"));
    assert!(msg.contains("/work/b"));
    match err {
        GraphStoreError::OriginMismatch { stored, query } => {
            assert_eq!(stored, "/work/a");
            assert_eq!(query, "/work/b");
        }
        other => panic!("expected OriginMismatch, got {other:?}"),
    }
}

#[test]
fn origin_absent_errors() {
    let mut store = open_store();
    let (graph, _, _) = pair_graph();
    store.save_snapshot(Ok(GRAPH_BYTES.to_vec())).expect("save");
    match store.load_snapshot_checked(&root("/work"), decoded(&graph)) {
        Err(GraphStoreError::OriginMismatch { .. }) => {}
        Err(other) => panic!("absent origin must surface as OriginMismatch, got: {other:?}"),
        Ok(_) => panic!("an absent origin must error (fail-closed)"),
    }
}

#[test]
fn origin_own_repo_is_not_refused() {
    let mut store = open_store();
    let (graph, _, _) = pair_graph();
    store.save_snapshot(Ok(GRAPH_BYTES.to_vec())).expect("save");
    store.set_origin_sync(&root("/home")).expect("set origin home");
    let loaded = store
        .load_snapshot_checked(&root("/home"), decoded(&graph))
        .expect("the home repo must NOT be refused against its own store")
        .expect("the home repo's snapshot must be served");
    assert_eq!(loaded.node_count(), 2, "all nodes served for the home repo");
    assert_eq!(loaded.edge_count(), 1, "the edge survives the gated load");
}

#[test]
fn schema_version_is_twelve_without_obsolete_shape_authority() {
    assert_eq!(
        SCHEMA_VERSION, 12,
        "removing persisted shape authority requires graph snapshot schema 11"
    );
}

#[test]
fn pre_bump_v4_snapshot_clears_not_hard_errors() {
    let mut tables = empty_tables();
    tables.snapshot = Some(b"any-bytes".to_vec());
    tables.schema_version = Some(4);
    let store = GraphStore::new(tables);
    assert!(store.load_snapshot(Err("any".into())).is_none());
    assert_eq!(store.version_mismatch_sync(), (true, Some(4)));
}

#[test]
fn read_only_store_refuses_every_write() {
    let mut store = GraphStore::new_read_only(empty_tables());
    assert!(matches!(
        store.save_snapshot(Ok(GRAPH_BYTES.to_vec())),
        Err(GraphStoreError::ReadOnly)
    ));
    assert!(matches!(store.set_origin(&root("/a")), Err(GraphStoreError::ReadOnly)));
    assert!(matches!(store.set_classified_by(), Err(GraphStoreError::ReadOnly)));
    assert!(matches!(store.clear_graph_tables(), Err(GraphStoreError::ReadOnly)));
    assert_eq!(store.tables, empty_tables());
}

fn clean_stamp() -> ClassifiedBy {
    ClassifiedBy {
        build_identity: "0.1.0+abc1234".to_string(),
        indexer_identity: format!("sha256:{}", "a".repeat(64)),
        prover_config: current_prover_config(),
        timestamp: "2026-07-20T00:00:00Z".to_string(),
    }
}

#[test]
fn classified_by_roundtrips() {
    let mut store = open_store();
    assert!(
        store.classified_by_stamp().expect("read").is_none(),
        "a fresh store must report NO stamp — absence is None, never an error"
    );
    store.set_classified_by().expect("stamp");
    let got = store
        .classified_by_stamp()
        .expect("read")
        .expect("a stamped store must return its stamp");
    assert_eq!(got.build_identity, BUILD_IDENTITY);
    assert_eq!(got.indexer_identity, INDEXER_IDENTITY);
    assert_eq!(got.prover_config, current_prover_config());
    assert!(
        !got.timestamp.is_empty(),
        "the stamp must record WHEN classification happened"
    );
}

#[test]
fn the_stamp_time_is_a_whole_utc_second() {
    let now = ClassifiedBy::now();
    let parsed = chrono::DateTime::parse_from_rfc3339(&now.timestamp).expect("RFC 3339");
    assert_eq!(parsed.timestamp_subsec_nanos(), 0);
    assert!(now.timestamp.ends_with('Z'));
}

#[test]
fn absent_stamp_degrades_and_never_refuses() {
    let store = open_store();
    for _ in 0..3 {
        assert!(
            store.classified_by_stamp().expect("must not error").is_none(),
            "an unstamped store must read as None, repeatedly, without error"
        );
    }
}

#[test]
fn sync_and_async_stamps_agree() {
    let mut store = open_store();
    store.set_classified_by_sync().expect("sync stamp");
    let via_sync = store.classified_by_stamp().expect("read").expect("stamp");
    let mut store2 = open_store();
    store2.set_classified_by().expect("stamp");
    let via_async = store2.classified_by_stamp().expect("read").expect("stamp");
    assert_eq!(via_sync.build_identity, via_async.build_identity);
    assert_eq!(via_sync.indexer_identity, via_async.indexer_identity);
    assert_eq!(via_sync.prover_config, via_async.prover_config);
}

fn eval(
    stamp: Option<&ClassifiedBy>,
    current: &ClassifiedBy,
    classification_authority_available: bool,
    index_stale: Option<bool>,
) -> Vec<CurrencyFailure> {
    evaluate_classification_currency(CurrencyInputs {
        stamp,
        current,
        classification_authority_available,
        index_stale,
    })
}

#[test]
fn prover_config_mismatch_is_actually_compared() {
    let cur = clean_stamp();
    let stamped = ClassifiedBy {
        prover_config: "code-intel=0".to_string(),
        ..clean_stamp()
    };
    let failures = eval(Some(&stamped), &cur, true, Some(false));
    assert!(
        failures
            .iter()
            .any(|f| matches!(f, CurrencyFailure::ProverConfigMismatch { .. })),
        "Got: {failures:?}"
    );
}

#[test]
fn currency_form0_negative_control_fully_current_store_is_clean() {
    let cur = clean_stamp();
    let failures = eval(Some(&cur), &cur, true, Some(false));
    assert!(
        failures.is_empty(),
        "a fully current store must certify CLEAN. Got: {failures:?}"
    );
}

#[test]
fn currency_form1_classification_authority_unavailable() {
    let cur = clean_stamp();
    let failures = eval(Some(&cur), &cur, false, Some(false));
    assert!(
        failures.contains(&CurrencyFailure::ClassificationAuthorityUnavailable),
        "Got: {failures:?}"
    );
}

#[test]
fn currency_form2_stamp_absent() {
    let cur = clean_stamp();
    let failures = eval(None, &cur, true, Some(false));
    assert!(
        failures.contains(&CurrencyFailure::StampAbsent),
        "classes with no stamp must fail the StampAbsent axis. Got: {failures:?}"
    );
}

#[test]
fn currency_form3_classifier_content_mismatch() {
    let cur = clean_stamp();
    let stamped = ClassifiedBy {
        indexer_identity: format!("sha256:{}", "b".repeat(64)),
        ..clean_stamp()
    };
    let failures = eval(Some(&stamped), &cur, true, Some(false));
    assert!(
        failures
            .iter()
            .any(|f| matches!(f, CurrencyFailure::ClassifierIdentityMismatch { .. })),
        "different classifier content must fail the machine-authority axis. Got: {failures:?}"
    );
}

#[test]
fn currency_form5_index_stale_under_a_matching_stamp() {
    let cur = clean_stamp();
    let failures = eval(Some(&cur), &cur, true, Some(true));
    assert!(
        failures.contains(&CurrencyFailure::IndexStale),
        "a MATCHING stamp over a stale index must still fail. Got: {failures:?}"
    );
}

#[test]
fn currency_form6_dirty_build_certifies_with_exact_classifier_identity() {
    let dirty = ClassifiedBy {
        build_identity: "0.1.0+abc1234+dirty".to_string(),
        ..clean_stamp()
    };
    assert!(dirty.is_dirty(), "the +dirty suffix must be detected");
    let failures = eval(Some(&dirty), &dirty, true, Some(false));
    assert!(
        failures.is_empty(),
        "exact classifier content must certify independently of dirty Git provenance: {failures:?}"
    );
    assert!(
        dirty.render().contains("approximate"),
        "dirty human provenance must still render honestly"
    );
}

#[test]
fn currency_form7_nogit_build_certifies_with_exact_classifier_identity() {
    let nogit = ClassifiedBy {
        build_identity: "0.1.0+nogit".to_string(),
        ..clean_stamp()
    };
    assert_eq!(
        nogit.approximation(),
        Some(ApproximateIdentity::NoGit),
        "a `+nogit` identity must be recognised as APPROXIMATE"
    );
    let failures = eval(Some(&nogit), &nogit, true, Some(false));
    assert!(
        failures.is_empty(),
        "exact classifier content must certify independently of missing Git provenance: {failures:?}"
    );
    assert!(
        nogit.render().contains("approximate"),
        "a nogit stamp must render as approximate, never as a clean match"
    );
}

#[test]
fn every_currency_failure_names_its_axis_and_a_remedy() {
    let cases = vec![
        CurrencyFailure::ClassificationAuthorityUnavailable,
        CurrencyFailure::StampAbsent,
        CurrencyFailure::ClassifierIdentityMismatch {
            stamped: "a".into(),
            current: "b".into(),
        },
        CurrencyFailure::ClassifierIdentityUnavailable {
            identity: "unavailable".into(),
        },
        CurrencyFailure::ProverConfigMismatch {
            stamped: "a".into(),
            current: "b".into(),
        },
        CurrencyFailure::IndexStale,
    ];
    for c in cases {
        let d = c.describe();
        assert!(!d.is_empty(), "{c:?} must describe itself");
        assert!(
            d.contains("h00ligan index"),
            "{c:?} must name the one immutable-publication remedy. Got: {d}"
        );
        assert!(
            !d.contains("reclassify"),
            "{c:?} must not advertise the retired in-place writer. Got: {d}"
        );
        if c == CurrencyFailure::IndexStale {
            assert!(
                d.contains("source or project-input content") && !d.contains("newer"),
                "exact content freshness must not be described as an mtime comparison: {d}"
            );
        }
    }
}

#[test]
fn save_snapshot_without_stamping_retains_the_prior_stamp_and_its_classes() {
    let mut store = open_store();
    let mut graph = KnowledgeGraph::new();
    let mut alpha = make_node("alpha");
    alpha.reachability_class = ReachabilityClass::Wired;
    graph.add_node(alpha).expect("add");
    store.save_snapshot(Ok(GRAPH_BYTES.to_vec())).expect("save");
    let planted = clean_stamp();
    store.set_classified_by_stamp(&planted).expect("stamp");
    store.save_snapshot(Ok(GRAPH_BYTES.to_vec())).expect("resave");
    let after = store
        .classified_by_stamp()
        .expect("read")
        .expect("the prior stamp must SURVIVE a non-stamping save");
    assert_eq!(after, planted);
    let reloaded = store.load_snapshot(decoded(&graph)).expect("snapshot present");
    assert_eq!(
        reloaded.all_nodes()[0].reachability_class,
        ReachabilityClass::Wired
    );
}

#[test]
fn multiple_failing_axes_are_all_reported() {
    let cur = clean_stamp();
    let stamped = ClassifiedBy {
        indexer_identity: format!("sha256:{}", "b".repeat(64)),
        ..clean_stamp()
    };
    let failures = eval(Some(&stamped), &cur, true, Some(true));
    assert!(
        failures.len() >= 2,
        "classifier-content mismatch + staleness must BOTH be reported. Got: {failures:?}"
    );
}

#[test]
fn a_stale_graph_recovers_after_a_read() {
    let mut tables = empty_tables();
    tables.snapshot = Some(b"stale-derived-snapshot".to_vec());
    tables.origin = Some("/elsewhere".into());
    let mut store = GraphStore::new(tables);
    let home = root("/work/home");
    let read = store.load_snapshot_checked(&home, Err("stale".into())).expect("no hard error");
    assert!(read.is_none(), "a stale store serves no graph");
    assert!(store.tables.schema_version.is_none(), "a read stamps nothing");
    let (graph, cleared) = store
        .load_snapshot_or_clear(&home, false, Err("stale".into()))
        .expect("an index of a stale store is not refused");
    assert!(graph.is_none() && cleared);
    let (graph, cleared) = store
        .load_snapshot_or_clear(&home, false, Err("no bytes".into()))
        .expect("a cleared store is empty");
    assert!(graph.is_none() && !cleared);

    let (rebuilt, _, _) = pair_graph();
    store
        .save_snapshot_with_optional_reachability_profiled(
            None,
            Ok(GRAPH_BYTES.to_vec()),
            timings(),
        )
        .expect("save");
    store.set_origin(&home).expect("stamp");
    let served = store
        .load_snapshot_checked(&home, decoded(&rebuilt))
        .expect("own workspace")
        .expect("rebuilt graph");
    assert_eq!(served.all_nodes().len(), 2);
    assert_eq!(store.tables.schema_version, Some(SCHEMA_VERSION));
}

#[test]
fn a_missing_snapshot_table_is_told_from_a_missing_snapshot() {
    let mut fixture = publication_proof_fixture();
    fixture.store.tables.snapshot = None;
    assert!(matches!(
        fixture.store.capture_publication_proof_sync(&fixture.root),
        Err(GraphStoreError::InvalidSnapshot(_))
    ));
    fixture.store.tables.missing_snapshot_table = Some("table does not exist".into());
    match fixture.store.capture_publication_proof_sync(&fixture.root) {
        Err(GraphStoreError::Redb(complaint)) => assert_eq!(complaint, "table does not exist"),
        other => panic!("the database's own error: {other:?}"),
    }
    fixture.store.clear_graph_tables().expect("clear");
    assert!(fixture.store.tables.missing_snapshot_table.is_none(), "clearing creates the table");
}

#[test]
fn a_preview_of_an_index_load_clears_nothing() {
    let mut tables = empty_tables();
    tables.snapshot = Some(b"stale-derived-snapshot".to_vec());
    let store = GraphStore::new(tables.clone());
    let (graph, clears) = store
        .preview_index_load(&root("/work/home"), false, Err("stale".into()))
        .expect("previewed");
    assert!(graph.is_none() && clears);
    assert_eq!(store.tables, tables);

    let fixture = publication_proof_fixture();
    let (graph, _, _) = pair_graph();
    let (loaded, clears) = fixture
        .store
        .preview_index_load(&fixture.root, false, decoded(&graph))
        .expect("previewed");
    assert_eq!(loaded.expect("usable").all_nodes().len(), 2);
    assert!(!clears);
    assert!(matches!(
        fixture.store.preview_index_load(&root("/elsewhere"), false, decoded(&graph)),
        Err(GraphStoreError::OriginAdoptRequired { .. })
    ));
}

#[test]
fn learned_weights_survive_a_rebuild() {
    let weighted = |weight: f32| GraphEdge { weight_bits: weight.to_bits(), ..calls_edge() };
    let (prior, a, b) = {
        let (mut graph, a, b) = pair_graph();
        graph.add_edge(b, a, weighted(0.25)).expect("learned");
        graph.add_edge(b, b, weighted(0.5)).expect("one of two");
        graph.add_edge(b, b, weighted(0.75)).expect("two of two");
        (graph, a, b)
    };
    let mut built = KnowledgeGraph::new();
    built.add_node(make_node("alpha")).expect("a");
    built.add_node(make_node("beta")).expect("b");
    built.add_edge(b, a, weighted(1.0)).expect("rebuilt");
    built.add_edge(a, a, weighted(1.0)).expect("new");
    built
        .add_edge(a, b, GraphEdge { kind: EdgeKind::References, ..weighted(0.125) })
        .expect("rebuilt under another kind");
    let restored = restore_learned_weights(&prior, built);
    let edges = restored.all_edges();
    assert_eq!(edges.len(), 3);
    assert_eq!(edges[0], (b, a, weighted(0.25)));
    assert_eq!(edges[1], (a, a, weighted(1.0)), "nothing was learned of it");
    assert_eq!(edges[2], (a, b, GraphEdge { kind: EdgeKind::References, ..weighted(1.0) }));
    assert_eq!(prior.only_weight_between(b, b), None, "two relationships are not one");
    assert_eq!(restored.all_nodes().len(), 2);
}

#[test]
fn a_stamp_has_the_form_of_a_utc_time() {
    for stamp in [ClassifiedBy::now(), GraphGenerationMetadata::now(false).classified_by] {
        let time: Vec<char> = stamp.timestamp.chars().collect();
        assert_eq!(time.len(), 20, "{}", stamp.timestamp);
        for (position, mark) in [(4, '-'), (7, '-'), (10, 'T'), (13, ':'), (16, ':'), (19, 'Z')] {
            assert_eq!(time[position], mark);
        }
        assert_eq!(time.iter().filter(|c| c.is_ascii_digit()).count(), 14);
        assert!(chrono::DateTime::parse_from_rfc3339(&stamp.timestamp).is_ok());
    }
}
