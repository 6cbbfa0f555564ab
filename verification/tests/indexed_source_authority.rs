//! The records that a generation may be judged against.

use h00ligan_engine::domain::DomainError;
use h00ligan_engine::index_state::FileRecord;
use h00ligan_engine::indexed_source_authority::validate_indexed_source_records;

fn record(language: &str) -> FileRecord {
    FileRecord {
        blake3_hash: "a".repeat(64),
        last_indexed: 1,
        symbol_count: 1,
        language: language.into(),
    }
}

#[test]
fn indexed_source_authority_is_closed_and_canonical() {
    let valid = vec![("src/lib.rs".into(), record("rust"))];
    let indexed = validate_indexed_source_records(&valid).expect("valid authority");
    assert_eq!(indexed.len(), 1);

    for invalid in [
        vec![("../src/lib.rs".into(), record("rust"))],
        vec![("src/lib.rs".into(), record("go"))],
        vec![(
            "src/lib.rs".into(),
            FileRecord { blake3_hash: "not-a-digest".into(), ..record("rust") },
        )],
        vec![
            ("src/lib.rs".into(), record("rust")),
            ("src/lib.rs".into(), record("rust")),
        ],
    ] {
        let error = validate_indexed_source_records(&invalid)
            .expect_err("invalid authority must fail closed");
        assert!(matches!(error, DomainError::PublishedGenerationInvalid { .. }));
    }
}

#[test]
fn one_file_cannot_stand_under_two_spellings() {
    for spelling in
        ["src/./lib.rs", "src//lib.rs", "src/lib.rs/", "./src/lib.rs", "src/lib.rs/.", "/src/lib.rs"]
    {
        let alone = vec![(spelling.to_string(), record("rust"))];
        let error = validate_indexed_source_records(&alone).expect_err(spelling);
        let DomainError::PublishedGenerationInvalid { reason } = error;
        assert_eq!(
            reason,
            format!(
                "indexed source authority for '{spelling}' has an invalid path, language, or BLAKE3 digest"
            )
        );
        let both = vec![
            ("src/lib.rs".to_string(), record("rust")),
            (spelling.to_string(), record("rust")),
        ];
        assert!(validate_indexed_source_records(&both).is_err());
    }
}
