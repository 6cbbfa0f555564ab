//! The persisted index state: records, facts, metadata and their publication proof.

use h00ligan_engine::index_state::{
    population_proof, CaptureGap, ExtractedSymbol, ExtractorOutput, FileRecord, IndexMetadata,
    IndexStateError,
};
use h00ligan_engine::index_tables::{EncodedFacts, EncodedFile, IndexState};

/// A writable state over a database without index tables.
fn open_temp() -> IndexState {
    IndexState::new(None, None, None)
}

fn record(hash: &str, last_indexed: i64, symbol_count: u32) -> FileRecord {
    FileRecord {
        blake3_hash: hash.into(),
        last_indexed,
        symbol_count,
        language: "rust".into(),
    }
}

fn encode_record(record: &FileRecord) -> Result<Vec<u8>, String> {
    rmp_serde::to_vec(&(
        &record.blake3_hash,
        record.last_indexed,
        record.symbol_count,
        &record.language,
    ))
    .map_err(|error| error.to_string())
}

fn facts(path: &str, source: &str, symbols: &[&str]) -> ExtractorOutput {
    ExtractorOutput {
        file_path: path.into(),
        file_hash: blake3::hash(source.as_bytes()).to_hex().to_string(),
        cross_document_surface_sha256: "0".repeat(64),
        symbols: symbols
            .iter()
            .map(|name| ExtractedSymbol { name: name.to_string(), kind: "struct".into() })
            .collect(),
        capture_gaps: Vec::new(),
        uncaptured_items: false,
    }
}

fn encode_facts(facts: &ExtractorOutput) -> EncodedFacts {
    let names: Vec<&str> = facts.symbols.iter().map(|symbol| symbol.name.as_str()).collect();
    EncodedFacts {
        facts: facts.clone(),
        encoded: rmp_serde::to_vec(&(&facts.file_path, &facts.file_hash, names))
            .map_err(|error| error.to_string()),
    }
}

fn encode_file(path: &str, record: &FileRecord) -> EncodedFile {
    EncodedFile { path: path.into(), record: record.clone(), encoded: encode_record(record) }
}

fn set_file(state: &mut IndexState, path: &str, record: &FileRecord) {
    state.set_file(path, record, encode_record(record)).expect("set");
}

#[test]
fn set_and_get_file() {
    let mut state = open_temp();
    set_file(&mut state, "src/main.rs", &record("abc123", 1710000000000, 42));
    let got = state.get_file("src/main.rs").expect("get").expect("should exist");
    assert_eq!(got.blake3_hash, "abc123");
    assert_eq!(got.symbol_count, 42);
    assert_eq!(got.language, "rust");
    assert_eq!(got.last_indexed, 1710000000000);
}

#[test]
fn indexed_source_snapshot_distinguishes_zero_symbols_from_failed_extraction() {
    let mut state = open_temp();
    let empty_facts = facts("src/empty.rs", "// no symbols\n", &[]);
    for (path, hash) in [
        ("src/empty.rs", empty_facts.file_hash.as_str()),
        ("src/broken.rs", "failed-source-hash"),
    ] {
        set_file(&mut state, path, &record(hash, 1, 0));
    }
    state
        .replace_document_facts(vec![encode_facts(&empty_facts)])
        .expect("persist successful extraction facts");

    let snapshot = state
        .indexed_source_snapshot()
        .expect("load indexed source authority");
    assert_eq!(snapshot.files().len(), 2);
    assert!(snapshot.document_fact_paths().contains("src/empty.rs"));
    assert!(!snapshot.document_fact_paths().contains("src/broken.rs"));
}

#[test]
fn get_missing_file_returns_none() {
    let state = open_temp();
    let got = state.get_file("nonexistent.rs").expect("get");
    assert!(got.is_none());
}

#[test]
fn remove_file() {
    let mut state = open_temp();
    set_file(&mut state, "lib.rs", &record("hash1", 100, 5));
    state.remove_file("lib.rs").expect("remove");
    assert!(state.get_file("lib.rs").expect("get").is_none());
}

#[test]
fn all_files_roundtrip() {
    let mut state = open_temp();
    for i in 0..3 {
        set_file(
            &mut state,
            &format!("file_{i}.rs"),
            &record(&format!("hash_{i}"), i as i64 * 1000, i as u32),
        );
    }
    let all = state.all_files().expect("all_files");
    assert_eq!(all.len(), 3);
    let paths: Vec<&str> = all.iter().map(|(path, _)| path.as_str()).collect();
    assert_eq!(paths, ["file_0.rs", "file_1.rs", "file_2.rs"]);
}

#[test]
fn document_facts_roundtrip_and_replace_exact_population() {
    let mut state = open_temp();
    let alpha = facts("src/alpha.rs", "pub struct Alpha;\n", &["Alpha"]);
    let beta = facts("src/beta.rs", "pub struct Beta;\n", &["Beta"]);

    state
        .replace_document_facts(vec![encode_facts(&alpha)])
        .expect("persist alpha facts");
    let first = state.all_document_facts().expect("read alpha facts");
    assert_eq!(first.len(), 1);
    assert_eq!(first[0].file_path, "src/alpha.rs");
    assert_eq!(first[0].file_hash, alpha.file_hash);
    assert_eq!(first[0].symbols[0].name, "Alpha");

    state
        .replace_document_facts(vec![encode_facts(&beta)])
        .expect("replace with beta facts");
    let second = state.all_document_facts().expect("read beta facts");
    assert_eq!(second.len(), 1, "replacement must remove stale facts");
    assert_eq!(second[0].file_path, "src/beta.rs");
    assert_eq!(second[0].file_hash, beta.file_hash);
    assert_eq!(second[0].symbols[0].name, "Beta");
}

#[test]
fn typed_structural_capture_gaps_roundtrip_exactly() {
    let mut state = open_temp();
    let mut gapped = facts(
        "src/contracts.ts",
        "const base = { value: 1 };\nexport const extended = { ...base };\n",
        &["base", "extended"],
    );
    gapped.capture_gaps.push(CaptureGap { kind: "unrepresented_object_spread".into() });
    assert_eq!(gapped.capture_gaps.len(), 1, "positive gap control");
    assert_eq!(gapped.capture_gaps[0].kind, "unrepresented_object_spread");

    state
        .replace_document_facts(vec![encode_facts(&gapped)])
        .expect("persist typed capture-gap facts");
    let restored = state
        .all_document_facts()
        .expect("restore typed capture-gap facts");
    assert_eq!(restored.len(), 1);
    assert_eq!(restored[0].capture_gaps, gapped.capture_gaps);
}

#[test]
fn invalid_incremental_basis_is_rejected_before_mutating_existing_state() {
    let mut state = open_temp();
    let alpha = facts("src/alpha.rs", "pub struct Alpha;\n", &["Alpha"]);
    let own = record(&alpha.file_hash, 1, alpha.symbols.len() as u32);
    state
        .replace_source_state(
            vec![encode_file(&alpha.file_path, &own)],
            vec![encode_facts(&alpha)],
        )
        .expect("seed original basis");

    let mut mismatched = alpha.clone();
    mismatched.file_hash = "not-the-record-hash".into();
    let error = state
        .replace_source_state(
            vec![encode_file(&alpha.file_path, &own)],
            vec![encode_facts(&mismatched)],
        )
        .expect_err("mismatched authority must be rejected");
    assert!(matches!(error, IndexStateError::Serialization(_)));

    let after = state
        .read_validated_content()
        .expect("read basis after refusal")
        .basis;
    assert_eq!(after.files.len(), 1);
    assert_eq!(after.files[0].0, "src/alpha.rs");
    assert_eq!(after.document_facts.len(), 1);
    assert_eq!(after.document_facts[0].file_hash, own.blake3_hash);
}

#[test]
fn facts_without_a_record_are_refused() {
    let mut state = open_temp();
    let alpha = facts("src/alpha.rs", "pub struct Alpha;\n", &["Alpha"]);
    assert!(state
        .replace_source_state(Vec::new(), vec![encode_facts(&alpha)])
        .is_err());
    assert!(state.all_document_facts().expect("untouched").is_empty());
}

#[test]
fn a_failed_encoding_leaves_the_state_alone() {
    let mut state = open_temp();
    let own = record("abc", 1, 0);
    let error = state
        .set_file("a.rs", &own, Err("disk codec".into()))
        .expect_err("an unencodable record is refused");
    assert!(error.message().contains("disk codec"));
    assert!(state.all_files().expect("files").is_empty());
}

fn metadata() -> IndexMetadata {
    IndexMetadata {
        repo_root: "/home/user/project".into(),
        last_full_scan: Some(1710000000000),
        last_update: Some(1710000001000),
        git_head: Some("abc123def".into()),
        total_files: 100,
        total_symbols: 5000,
        total_edges: 3000,
    }
}

#[test]
fn metadata_roundtrip() {
    let mut state = open_temp();
    assert!(state.get_metadata().expect("get").is_none());
    state
        .set_metadata(metadata(), Ok(b"metadata".to_vec()))
        .expect("set");
    let got = state.get_metadata().expect("get").expect("should exist");
    assert_eq!(got.repo_root, "/home/user/project");
    assert_eq!(got.last_full_scan, Some(1710000000000));
    assert_eq!(got.git_head, Some("abc123def".into()));
    assert_eq!(got.total_files, 100);
    assert_eq!(got.total_symbols, 5000);
    assert_eq!(got.total_edges, 3000);
}

#[test]
fn overwrite_file_record() {
    let mut state = open_temp();
    set_file(&mut state, "main.rs", &record("old_hash", 100, 5));
    set_file(&mut state, "main.rs", &record("new_hash", 200, 10));
    let got = state.get_file("main.rs").expect("get").expect("exists");
    assert_eq!(got.blake3_hash, "new_hash");
    assert_eq!(got.symbol_count, 10);
}

#[test]
fn a_read_only_state_refuses_writes() {
    let mut source = open_temp();
    set_file(&mut source, "a.rs", &record("h", 1, 0));
    let mut state =
        IndexState::new_read_only(source.metadata, source.files, source.document_facts);
    let own = record("other", 2, 0);
    assert!(matches!(
        state.set_file("a.rs", &own, encode_record(&own)),
        Err(IndexStateError::ReadOnly)
    ));
    assert!(matches!(state.remove_file("a.rs"), Err(IndexStateError::ReadOnly)));
    assert_eq!(
        state.get_file("a.rs").expect("get").expect("kept").blake3_hash,
        "h"
    );
}

#[test]
fn a_publication_proof_holds_until_a_byte_changes() {
    let mut state = open_temp();
    let alpha = facts("src/alpha.rs", "pub struct Alpha;\n", &["Alpha"]);
    let own = record(&alpha.file_hash, 1, 1);
    state
        .replace_source_state(
            vec![encode_file("src/alpha.rs", &own)],
            vec![encode_facts(&alpha)],
        )
        .expect("seed");
    state
        .set_metadata(metadata(), Ok(b"metadata".to_vec()))
        .expect("metadata");
    let proof = state.capture_publication_proof().expect("proof");
    state.validate_publication_proof(&proof).expect("intact");
    assert_eq!(proof.files.records, 1);

    set_file(&mut state, "src/alpha.rs", &record(&alpha.file_hash, 2, 1));
    assert!(state.validate_publication_proof(&proof).is_err());
}

#[test]
fn population_digest_frames_every_entry() {
    let entries = vec![("a".to_string(), b"xy".to_vec()), ("b".to_string(), b"z".to_vec())];
    let proof = population_proof(b"domain\0", &entries);
    let mut hasher = blake3::Hasher::new();
    hasher.update(b"domain\0");
    for (key, value) in &entries {
        hasher.update(&(key.len() as u64).to_le_bytes());
        hasher.update(key.as_bytes());
        hasher.update(&(value.len() as u64).to_le_bytes());
        hasher.update(value);
    }
    assert_eq!(proof.blake3, hasher.finalize().to_hex().to_string());
    assert_eq!(proof.records, 2);
    assert_eq!(proof.bytes, 5);
    let shifted = vec![("ax".to_string(), b"y".to_vec()), ("b".to_string(), b"z".to_vec())];
    assert_ne!(population_proof(b"domain\0", &shifted).blake3, proof.blake3);
}

#[test]
fn a_writable_state_keeps_the_rows_of_its_database() {
    let record = FileRecord {
        blake3_hash: "hash1".into(),
        last_indexed: 100,
        symbol_count: 5,
        language: "rust".into(),
    };
    let mut earlier = open_temp();
    set_file(&mut earlier, "lib.rs", &record);
    let mut state = IndexState::new(None, Some(earlier.files), None);
    assert_eq!(state.get_file("lib.rs").expect("get"), Some(record.clone()));
    assert!(state.get_metadata().expect("get").is_none());
    assert!(state.all_document_facts().expect("get").is_empty());
    set_file(&mut state, "main.rs", &record);
    assert_eq!(state.all_files().expect("all_files").len(), 2);
}
