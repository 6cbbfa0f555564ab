//! Text, paths, ordered maps, digests, spans of time and messages.

use h00ligan_engine::digest::{content_hash, to_hex};
use h00ligan_engine::duration::{Duration, MAX_NANOS};
use h00ligan_engine::graph::{GraphError, KnowledgeGraph};
use h00ligan_engine::graph_store::GraphStoreError;
use h00ligan_engine::index_state::{FileRecord, IndexStateError};
use h00ligan_engine::language::{is_registered, language_for_extension, registered_languages};
use h00ligan_engine::ordered::StringMap;
use h00ligan_engine::path::{extension, repository_relative};
use h00ligan_engine::path_order::{path_before, starts_with};
use h00ligan_engine::path_sorting::sort_paths;
use h00ligan_engine::pipeline_error::{ensure_index_active, IndexPipelineError};
use h00ligan_engine::sorting::{descending_positions, join, sort_texts};
use h00ligan_engine::source_freshness::{
    check_indexed_source_freshness, DiscoveredFile, IndexedSourceFreshnessError,
    SourceObservation, StalenessReason, StalenessVerdict,
};
use h00ligan_engine::text::decimal;

#[test]
fn an_ordered_map_lists_its_keys_in_byte_order() {
    let mut map = StringMap::new();
    for (key, value) in [("b", 2), ("a", 1), ("c", 3)] {
        assert!(!map.insert(key.to_string(), value));
    }
    assert!(map.insert("b".to_string(), 20));
    let keys: Vec<&str> = map.entries().iter().map(|(key, _)| key.as_str()).collect();
    assert_eq!(keys, ["a", "b", "c"]);
    assert_eq!(map.get("b"), Some(&20));
    assert_eq!(map.take("b"), Some(20));
    assert!(!map.remove("b"));
    assert_eq!(map.len(), 2);
}

#[test]
fn paths_are_ordered_by_component() {
    let paths: Vec<String> = ["a/b", "a-b", "a", "a/a/z"].map(String::from).to_vec();
    let mut expected: Vec<std::path::PathBuf> = paths.iter().map(Into::into).collect();
    expected.sort();
    let sorted: Vec<std::path::PathBuf> = sort_paths(&paths).iter().map(Into::into).collect();
    assert_eq!(sorted, expected);
    assert!(path_before("a/b", "a-b"), "a component ends before a longer one");
    assert!(starts_with("/r/src/lib.rs", "/r/src"));
    assert!(!starts_with("/r/srcs", "/r/src"));
}

#[test]
fn paths_of_records_stay_below_the_root() {
    assert!(repository_relative("src/lib.rs"));
    for outside in ["", "/src/lib.rs", "../lib.rs", "src/../../lib.rs"] {
        assert!(!repository_relative(outside), "{outside}");
    }
    assert_eq!(extension("src/lib.rs").as_deref(), Some("rs"));
    assert_eq!(extension(".gitignore"), None);
    assert_eq!(extension("dir.d/file"), None);
}

#[test]
fn sorting_is_stable_and_joining_is_plain() {
    let texts: Vec<String> = ["b", "a", "\u{e9}", "B"].map(String::from).to_vec();
    assert_eq!(sort_texts(&texts), ["B", "a", "b", "\u{e9}"]);
    assert_eq!(descending_positions(&vec![1, 3, 3, 2]), [1, 2, 3, 0]);
    assert_eq!(join(&texts[..2].to_vec(), ", "), "b, a");
    assert_eq!(decimal(0), "0");
    assert_eq!(decimal(u64::MAX), u64::MAX.to_string());
}

#[test]
fn digests_are_lowercase_hexadecimal() {
    assert_eq!(content_hash(b"abc"), blake3::hash(b"abc").to_hex().to_string());
    let mut bytes = [0u8; 32];
    bytes[0] = 0xab;
    assert_eq!(to_hex(&bytes), format!("ab{}", "0".repeat(62)));
}

#[test]
fn spans_saturate() {
    let longest = Duration { nanos: MAX_NANOS };
    assert_eq!(longest.saturating_add(Duration::from_millis(1)), longest);
    assert_eq!(Duration::zero().saturating_sub(Duration::from_millis(1)), Duration::zero());
    assert_eq!(Duration::from_millis(7).as_millis(), 7);
    assert_eq!(MAX_NANOS, std::time::Duration::MAX.as_nanos());
}

#[test]
fn every_registered_extension_has_a_registered_language() {
    for extension in ["rs", "go", "py", "pyi", "ts", "tsx", "mts", "cts"] {
        assert!(is_registered(language_for_extension(extension).expect("registered")));
    }
    assert!(registered_languages().contains(&"rust"));
    assert!(!is_registered("cobol"));
}

#[test]
fn the_graph_refuses_what_it_cannot_hold() {
    let mut graph = KnowledgeGraph::new();
    let span = h00ligan_engine::graph::SourceSpan { start_byte: 0, end_byte: 1 };
    let error = graph.set_source_span(7, span).expect_err("no such node");
    assert!(error.describe().contains("node not found"));
    assert!(matches!(error, GraphError::NodeNotFound(7)));
}

#[test]
fn errors_read_as_they_are_reported() {
    let text = |error: &str| error.to_string();
    for (error, words) in [
        (IndexPipelineError::Cancelled, "indexing operation cancelled before publication"),
        (
            IndexPipelineError::State(IndexStateError::ReadOnly),
            "index state error: index state was opened read-only",
        ),
        (IndexPipelineError::Extractor(text("x")), "extractor error: x"),
        (
            IndexPipelineError::GraphStore(GraphStoreError::Redb(text("x"))),
            "graph store error: redb error: x",
        ),
        (IndexPipelineError::ScipLoader(text("x")), "SCIP loader error: x"),
        (
            IndexPipelineError::SemanticProvidersUnsatisfied { evidence: text("x") },
            "required complete Calls authority was not produced: x",
        ),
        (IndexPipelineError::ProjectPath(text("x")), "project path error: x"),
        (IndexPipelineError::SourceDiscovery(text("x")), "source discovery error: x"),
        (IndexPipelineError::Io(text("x")), "I/O error: x"),
        (IndexPipelineError::Join(text("x")), "task join error: x"),
        (IndexPipelineError::Other(text("x")), "x"),
    ] {
        assert_eq!(error.message(), words);
    }
    for (error, words) in [
        (GraphStoreError::Serialization(text("x")), "serialization error: x"),
        (GraphStoreError::InvalidSnapshot(text("x")), "invalid graph snapshot: x"),
        (GraphStoreError::ReachabilityEvidence(text("x")), "reachability evidence error: x"),
        (GraphStoreError::Join(text("x")), "task join error: x"),
        (GraphStoreError::ReadOnly, "graph store was opened read-only"),
        (GraphStoreError::Origin(text("x")), "graph origin stamp error: x"),
        (
            GraphStoreError::MissingGenerationMetadata { field: "f" },
            "generation metadata is incomplete: missing `f`",
        ),
        (
            GraphStoreError::InvalidGenerationMetadata { field: "f", reason: text("x") },
            "generation metadata `f` is invalid: x",
        ),
    ] {
        assert_eq!(error.message(), words);
    }
    assert_eq!(IndexStateError::Redb(text("x")).message(), "redb error: x");
    assert_eq!(
        IndexStateError::ContentProof(text("x")).message(),
        "index-state content proof mismatch: x"
    );
    assert!(ensure_index_active(false).is_ok());
    assert!(matches!(ensure_index_active(true), Err(IndexPipelineError::Cancelled)));
}

fn recorded(path: &str, source: &[u8]) -> (String, FileRecord) {
    (
        path.to_string(),
        FileRecord {
            blake3_hash: blake3::hash(source).to_hex().to_string(),
            last_indexed: 1,
            symbol_count: 1,
            language: "rust".into(),
        },
    )
}

fn observed(path: &str, relative: Option<&str>, read: Result<Vec<u8>, String>) -> SourceObservation {
    SourceObservation {
        file: DiscoveredFile { path: path.into(), relative: relative.map(Into::into) },
        read,
    }
}

#[test]
fn freshness_fails_closed_for_each_reason() {
    let files = vec![recorded("src/lib.rs", b"pub fn a() {}\n")];
    assert_eq!(
        check_indexed_source_freshness(&Vec::new(), Ok(Vec::new())).expect("settled"),
        StalenessVerdict::Unknown { reason: StalenessReason::NoSourceFound, files_checked: 0 }
    );
    let failed = check_indexed_source_freshness(&files, Err("walk".into()));
    assert!(matches!(failed, Err(IndexedSourceFreshnessError::Discovery(_))));
    let escaped = check_indexed_source_freshness(
        &files,
        Ok(vec![observed("/elsewhere/lib.rs", None, Ok(Vec::new()))]),
    )
    .expect_err("outside the root");
    assert_eq!(
        escaped.message(),
        "indexed source path escaped the repository root: /elsewhere/lib.rs"
    );
    let unread = check_indexed_source_freshness(
        &files,
        Ok(vec![observed("/r/src/lib.rs", Some("src/lib.rs"), Err("denied".into()))]),
    )
    .expect_err("unreadable");
    assert_eq!(unread.message(), "read source file /r/src/lib.rs: denied");
    let mut invalid = files.clone();
    invalid[0].1.language = "cobol".into();
    assert!(matches!(
        check_indexed_source_freshness(&invalid, Ok(Vec::new())),
        Err(IndexedSourceFreshnessError::InvalidRecord { .. })
    ));
    let fresh = check_indexed_source_freshness(
        &files,
        Ok(vec![observed("/r/src/lib.rs", Some("src/lib.rs"), Ok(b"pub fn a() {}\n".to_vec()))]),
    );
    assert_eq!(fresh.expect("settled"), StalenessVerdict::Fresh);
}
