//! The index state of one generation: its rows, and what may be read from and written
//! to them.

use vstd::prelude::*;

use crate::digest;
use crate::index_state;
use crate::index_state::{
    population_proof, ExtractorOutput, FactsModel, FileRecord, IndexMetadata, IndexStateError,
    IndexStatePublicationProof, MetadataModel, RecordModel, StateFailure, StateProofModel,
    INDEX_STATE_PUBLICATION_PROOF_SCHEMA,
};
use crate::ordered;
use crate::ordered::StringMap;
use crate::text;
use crate::values::Value;

verus! {

/// The key of the repository metadata row.
pub const METADATA_KEY: &'static str = "metadata";

/// An encoded row, with what it decodes to or the decoder's complaint.
#[derive(Debug)]
pub struct Row<T> {
    pub bytes: Vec<u8>,
    pub value: Result<T, String>,
}

/// The decoder's complaint about the first row from position `i` on that it refuses.
pub open spec fn row_fault<T>(rows: Seq<(String, Row<T>)>, i: int) -> Option<Seq<char>>
    decreases rows.len() - i,
{
    if i < 0 || i >= rows.len() {
        None
    } else {
        match rows[i].1.value {
            Err(complaint) => Some(complaint@),
            Ok(_) => row_fault(rows, i + 1),
        }
    }
}

/// What the rows decode to, by key and in order.
pub open spec fn decoded<T: DeepView>(rows: Seq<(String, Row<T>)>) -> Seq<(Seq<char>, T::V)> {
    rows.map_values(|row: (String, Row<T>)| (row.0@, row.1.value->Ok_0.deep_view()))
}

/// The rows as they are stored, by key and in order.
pub open spec fn encoded<T>(rows: Seq<(String, Row<T>)>) -> Seq<(Seq<char>, Seq<u8>)> {
    rows.map_values(|row: (String, Row<T>)| (row.0@, row.1.bytes@))
}

/// Decodes every row, or repeats the first complaint.
fn decode_rows<T: Value>(rows: &Vec<(String, Row<T>)>) -> (r: Result<Vec<(String, T)>, String>)
    ensures
        match r {
            Ok(list) => row_fault(rows@, 0) is None && list.deep_view() == decoded(rows@),
            Err(complaint) => row_fault(rows@, 0) == Some(complaint@),
        },
{
    let mut list: Vec<(String, T)> = Vec::new();
    for i in 0..rows.len()
        invariant
            row_fault(rows@, i as int) == row_fault(rows@, 0),
            list@.len() == i,
            forall|j: int|
                0 <= j < i ==> (#[trigger] list@[j]).deep_view() == decoded(rows@)[j],
    {
        match &rows[i].1.value {
            Err(complaint) => {
                return Err(complaint.clone());
            },
            Ok(value) => {
                list.push((rows[i].0.clone(), value.copy()));
            },
        }
    }
    assert(list.deep_view() =~= decoded(rows@));
    Ok(list)
}

/// The stored rows, by key and in order.
fn encoded_rows<T>(rows: &Vec<(String, Row<T>)>) -> (r: Vec<(String, Vec<u8>)>)
    ensures
        r.deep_view() == encoded(rows@),
{
    let mut r: Vec<(String, Vec<u8>)> = Vec::new();
    for i in 0..rows.len()
        invariant
            r@.len() == i,
            forall|j: int| 0 <= j < i ==> (#[trigger] r@[j]).deep_view() == encoded(rows@)[j],
    {
        let mut bytes: Vec<u8> = Vec::new();
        digest::extend(&mut bytes, rows[i].1.bytes.as_slice());
        assert(bytes.deep_view() =~= rows@[i as int].1.bytes@);
        r.push((rows[i].0.clone(), bytes));
    }
    assert(r.deep_view() =~= encoded(rows@));
    r
}

/// What is wrong with the first bad fact row from position `i` on: it does not
/// decode, or its key is not the path that it carries.
pub open spec fn fact_fault(rows: Seq<(String, Row<ExtractorOutput>)>, i: int) -> Option<Seq<char>>
    decreases rows.len() - i,
{
    if i < 0 || i >= rows.len() {
        None
    } else {
        match rows[i].1.value {
            Err(complaint) => Some(complaint@),
            Ok(facts) => if facts.file_path@ != rows[i].0@ {
                Some(
                    "document facts key `"@ + rows[i].0@ + "` does not match embedded path `"@
                        + facts.file_path@ + "`"@,
                )
            } else {
                fact_fault(rows, i + 1)
            },
        }
    }
}

/// The facts that the rows decode to, in order.
pub open spec fn decoded_facts(rows: Seq<(String, Row<ExtractorOutput>)>) -> Seq<FactsModel> {
    rows.map_values(|row: (String, Row<ExtractorOutput>)| row.1.value->Ok_0.deep_view())
}

fn decode_facts(rows: &Vec<(String, Row<ExtractorOutput>)>) -> (r: Result<
    Vec<ExtractorOutput>,
    String,
>)
    ensures
        match r {
            Ok(list) => fact_fault(rows@, 0) is None && list.deep_view() == decoded_facts(rows@),
            Err(complaint) => fact_fault(rows@, 0) == Some(complaint@),
        },
{
    let mut list: Vec<ExtractorOutput> = Vec::new();
    for i in 0..rows.len()
        invariant
            fact_fault(rows@, i as int) == fact_fault(rows@, 0),
            list@.len() == i,
            forall|j: int|
                0 <= j < i ==> (#[trigger] list@[j]).deep_view() == decoded_facts(rows@)[j],
    {
        match &rows[i].1.value {
            Err(complaint) => {
                return Err(complaint.clone());
            },
            Ok(facts) => {
                if !facts.file_path.same(&rows[i].0) {
                    let mut fault = "document facts key `".to_owned();
                    fault.append(rows[i].0.as_str());
                    fault.append("` does not match embedded path `");
                    fault.append(facts.file_path.as_str());
                    fault.append("`");
                    return Err(fault);
                }
                list.push(facts.copy());
            },
        }
    }
    assert(list.deep_view() =~= decoded_facts(rows@));
    Ok(list)
}

/// Why facts are not backed by a file record, if they are not.
pub open spec fn unbacked(
    files: Map<Seq<char>, RecordModel>,
    path: Seq<char>,
    hash: Seq<char>,
) -> Option<Seq<char>> {
    if !files.dom().contains(path) {
        Some("document facts for `"@ + path + "` have no file record"@)
    } else if files[path].hash != hash {
        Some("document facts hash for `"@ + path + "` does not match its file record"@)
    } else {
        None
    }
}

/// Why the first unbacked facts from position `i` on are not backed.
pub open spec fn backing_fault(
    files: Map<Seq<char>, RecordModel>,
    facts: Seq<FactsModel>,
    i: int,
) -> Option<Seq<char>>
    decreases facts.len() - i,
{
    if i < 0 || i >= facts.len() {
        None
    } else {
        match unbacked(files, facts[i].path, facts[i].hash) {
            Some(fault) => Some(fault),
            None => backing_fault(files, facts, i + 1),
        }
    }
}

/// What the file rows decode to, by path.
pub open spec fn records_of(rows: Map<Seq<char>, Row<FileRecord>>) -> Map<Seq<char>, RecordModel> {
    rows.map_values(|row: Row<FileRecord>| row.value->Ok_0.deep_view())
}

fn check_backing(record: Option<&FileRecord>, path: &str, hash: &str) -> (r: Option<String>)
    ensures
        r.deep_view() == match record {
            None => Some("document facts for `"@ + path@ + "` have no file record"@),
            Some(record) => if record.blake3_hash@ != hash@ {
                Some("document facts hash for `"@ + path@ + "` does not match its file record"@)
            } else {
                None
            },
        },
{
    match record {
        None => {
            let mut fault = "document facts for `".to_owned();
            fault.append(path);
            fault.append("` have no file record");
            Some(fault)
        },
        Some(record) => {
            if text::same(record.blake3_hash.as_str(), hash) {
                None
            } else {
                let mut fault = "document facts hash for `".to_owned();
                fault.append(path);
                fault.append("` does not match its file record");
                Some(fault)
            }
        },
    }
}

/// Exact structural source authority of one generation. A file record proves
/// discovery and content identity; presence among the fact paths proves that
/// extraction completed, also where it found no symbol.
#[derive(Debug)]
pub struct IndexedSourceSnapshot {
    files: Vec<(String, FileRecord)>,
    document_fact_paths: StringMap<()>,
}

impl IndexedSourceSnapshot {
    pub closed spec fn records(&self) -> Seq<(Seq<char>, RecordModel)> {
        self.files.deep_view()
    }

    pub closed spec fn fact_paths(&self) -> Set<Seq<char>> {
        self.document_fact_paths@.dom()
    }

    pub fn files(&self) -> (r: &Vec<(String, FileRecord)>)
        ensures
            r.deep_view() == self.records(),
    {
        &self.files
    }

    pub fn document_fact_paths(&self) -> (r: &StringMap<()>)
        ensures
            r@.dom() == self.fact_paths(),
    {
        &self.document_fact_paths
    }
}

/// The paths of some facts.
pub open spec fn paths_of(facts: Seq<FactsModel>) -> Set<Seq<char>> {
    Set::new(|path: Seq<char>| exists|i: int| 0 <= i < facts.len() && (#[trigger] facts[i]).path == path)
}

fn collect_paths(facts: &Vec<ExtractorOutput>) -> (r: StringMap<()>)
    ensures
        r@.dom() == paths_of(facts.deep_view()),
{
    let mut r: StringMap<()> = StringMap::new();
    for i in 0..facts.len()
        invariant
            forall|path: Seq<char>| #[trigger]
                r@.dom().contains(path) <==> exists|j: int|
                    0 <= j < i && (#[trigger] facts.deep_view()[j]).path == path,
    {
        r.insert(facts[i].file_path.clone(), ());
        assert(facts.deep_view()[i as int].path == facts@[i as int].file_path@);
    }
    assert(r@.dom() =~= paths_of(facts.deep_view()));
    r
}

/// Reusable input for a new generation.
#[derive(Debug)]
pub struct IncrementalIndexBasis {
    pub files: Vec<(String, FileRecord)>,
    pub document_facts: Vec<ExtractorOutput>,
}

/// Everything that an index state holds, validated as a whole.
#[derive(Debug)]
pub struct ValidatedIndexStateContent {
    pub proof: IndexStatePublicationProof,
    pub metadata: Option<IndexMetadata>,
    pub indexed_sources: IndexedSourceSnapshot,
    pub basis: IncrementalIndexBasis,
}

/// A file record to persist, with what encoding it gave.
#[derive(Debug)]
pub struct EncodedFile {
    pub path: String,
    pub record: FileRecord,
    pub encoded: Result<Vec<u8>, String>,
}

/// Extraction facts to persist, with what encoding them gave.
#[derive(Debug)]
pub struct EncodedFacts {
    pub facts: ExtractorOutput,
    pub encoded: Result<Vec<u8>, String>,
}

/// The rows that a list of encoded facts leaves behind, later ones in place of
/// earlier ones of the same path.
pub open spec fn fact_rows(facts: Seq<EncodedFacts>) -> Map<Seq<char>, Row<ExtractorOutput>>
    decreases facts.len(),
{
    if facts.len() == 0 {
        Map::empty()
    } else {
        fact_rows(facts.drop_last()).insert(
            facts.last().facts.file_path@,
            Row { bytes: facts.last().encoded->Ok_0, value: Ok(facts.last().facts) },
        )
    }
}

/// The rows that a list of encoded file records leaves behind.
pub open spec fn file_rows(files: Seq<EncodedFile>) -> Map<Seq<char>, Row<FileRecord>>
    decreases files.len(),
{
    if files.len() == 0 {
        Map::empty()
    } else {
        file_rows(files.drop_last()).insert(
            files.last().path@,
            Row { bytes: files.last().encoded->Ok_0, value: Ok(files.last().record) },
        )
    }
}

/// The encoder's complaint about the first facts from position `i` on that it refused.
pub open spec fn facts_encoding_fault(facts: Seq<EncodedFacts>, i: int) -> Option<Seq<char>>
    decreases facts.len() - i,
{
    if i < 0 || i >= facts.len() {
        None
    } else {
        match facts[i].encoded {
            Err(complaint) => Some(complaint@),
            Ok(_) => facts_encoding_fault(facts, i + 1),
        }
    }
}

/// The encoder's complaint about the first record from position `i` on that it
/// refused.
pub open spec fn file_encoding_fault(files: Seq<EncodedFile>, i: int) -> Option<Seq<char>>
    decreases files.len() - i,
{
    if i < 0 || i >= files.len() {
        None
    } else {
        match files[i].encoded {
            Err(complaint) => Some(complaint@),
            Ok(_) => file_encoding_fault(files, i + 1),
        }
    }
}

/// Some record before position `n` is filed under `path`.
pub open spec fn path_taken(files: Seq<EncodedFile>, n: int, path: Seq<char>) -> bool {
    exists|j: int| 0 <= j < n && (#[trigger] files[j]).path@ == path
}

/// The complaint about the first record from position `i` on whose path is taken.
pub open spec fn repeated_file(files: Seq<EncodedFile>, i: int) -> Option<Seq<char>>
    decreases files.len() - i,
{
    if i < 0 || i >= files.len() {
        None
    } else if path_taken(files, i, files[i].path@) {
        Some("duplicate file record for `"@ + files[i].path@ + "`"@)
    } else {
        repeated_file(files, i + 1)
    }
}

/// Some facts before position `n` carry `path`.
pub open spec fn facts_taken(facts: Seq<EncodedFacts>, n: int, path: Seq<char>) -> bool {
    exists|j: int| 0 <= j < n && (#[trigger] facts[j]).facts.file_path@ == path
}

/// The records of a list, by path.
pub open spec fn listed_records(files: Seq<EncodedFile>) -> Map<Seq<char>, RecordModel>
    decreases files.len(),
{
    if files.len() == 0 {
        Map::empty()
    } else {
        listed_records(files.drop_last()).insert(
            files.last().path@,
            files.last().record.deep_view(),
        )
    }
}

/// What is wrong with the first bad facts from position `i` on: they repeat earlier
/// ones, no record backs them, or they could not be encoded.
pub open spec fn listed_fact_fault(
    files: Map<Seq<char>, RecordModel>,
    facts: Seq<EncodedFacts>,
    i: int,
) -> Option<Seq<char>>
    decreases facts.len() - i,
{
    if i < 0 || i >= facts.len() {
        None
    } else {
        let path = facts[i].facts.file_path@;
        if facts_taken(facts, i, path) {
            Some("duplicate document facts for `"@ + path + "`"@)
        } else {
            match unbacked(files, path, facts[i].facts.file_hash@) {
                Some(fault) => Some(fault),
                None => match facts[i].encoded {
                    Err(complaint) => Some(complaint@),
                    Ok(_) => listed_fact_fault(files, facts, i + 1),
                },
            }
        }
    }
}

/// Why a complete source state is refused, if it is: a repeated record, bad facts, or
/// a record that could not be encoded.
pub open spec fn source_state_fault(
    files: Seq<EncodedFile>,
    facts: Seq<EncodedFacts>,
) -> Option<Seq<char>> {
    match repeated_file(files, 0) {
        Some(fault) => Some(fault),
        None => match listed_fact_fault(listed_records(files), facts, 0) {
            Some(fault) => Some(fault),
            None => file_encoding_fault(files, 0),
        },
    }
}

/// The index state of one generation.
#[derive(Debug)]
pub struct IndexState {
    pub metadata: StringMap<Row<IndexMetadata>>,
    pub files: StringMap<Row<FileRecord>>,
    pub document_facts: StringMap<Row<ExtractorOutput>>,
    /// The database was opened for reading only.
    pub read_only: bool,
}

/// Why an index state as a whole is refused, if it is.
pub open spec fn content_fault(state: IndexState) -> Option<Seq<char>> {
    if state.metadata@.dom().contains(METADATA_KEY@) && state.metadata@[METADATA_KEY@].value is Err {
        Some(state.metadata@[METADATA_KEY@].value->Err_0@)
    } else {
        match row_fault(state.files.listing(), 0) {
            Some(fault) => Some(fault),
            None => match fact_fault(state.document_facts.listing(), 0) {
                Some(fault) => Some(fault),
                None => backing_fault(
                    records_of(state.files@),
                    decoded_facts(state.document_facts.listing()),
                    0,
                ),
            },
        }
    }
}

/// The domain bytes under which the metadata rows are digested.
pub open spec fn metadata_domain() -> Seq<u8> {
    vstd::utf8::encode_utf8("h00/index-state/metadata/v1\0"@)
}

pub open spec fn files_domain() -> Seq<u8> {
    vstd::utf8::encode_utf8("h00/index-state/files/v1\0"@)
}

pub open spec fn facts_domain() -> Seq<u8> {
    vstd::utf8::encode_utf8("h00/index-state/document-facts/v2\0"@)
}

/// The proof of everything that an index state holds.
pub open spec fn state_proof(state: IndexState) -> StateProofModel {
    StateProofModel {
        schema: INDEX_STATE_PUBLICATION_PROOF_SCHEMA@,
        metadata: index_state::population_of(metadata_domain(), encoded(state.metadata.listing())),
        files: index_state::population_of(files_domain(), encoded(state.files.listing())),
        facts: index_state::population_of(
            facts_domain(),
            encoded(state.document_facts.listing()),
        ),
    }
}

/// The metadata row, decoded.
pub open spec fn stored_metadata(state: IndexState) -> Option<MetadataModel> {
    if state.metadata@.dom().contains(METADATA_KEY@) {
        Some(state.metadata@[METADATA_KEY@].value->Ok_0.deep_view())
    } else {
        None
    }
}

/// The content is what the state holds, and the proof is of exactly that.
pub open spec fn is_content_of(content: ValidatedIndexStateContent, state: IndexState) -> bool {
    &&& content.proof.deep_view() == state_proof(state)
    &&& content.metadata.deep_view() == stored_metadata(state)
    &&& content.basis.files.deep_view() == decoded(state.files.listing())
    &&& content.basis.document_facts.deep_view() == decoded_facts(state.document_facts.listing())
    &&& content.indexed_sources.records() == decoded(state.files.listing())
    &&& content.indexed_sources.fact_paths() == paths_of(
        decoded_facts(state.document_facts.listing()),
    )
}

/// The rows of an opened table: those that it held, or none where it was missing and has
/// been created.
pub open spec fn is_opened<T>(rows: StringMap<Row<T>>, table: Option<StringMap<Row<T>>>) -> bool {
    match table {
        Some(held) => rows == held,
        None => rows@ == Map::<Seq<char>, Row<T>>::empty(),
    }
}

fn open_table<T>(table: Option<StringMap<Row<T>>>) -> (r: StringMap<Row<T>>)
    ensures
        is_opened(r, table),
{
    match table {
        Some(held) => held,
        None => StringMap::new(),
    }
}

impl IndexState {
    /// A writable state over a database. Each argument is what its table holds, if the
    /// database has the table: the rows of a table are kept, and a missing table is
    /// created.
    pub fn new(
        metadata: Option<StringMap<Row<IndexMetadata>>>,
        files: Option<StringMap<Row<FileRecord>>>,
        document_facts: Option<StringMap<Row<ExtractorOutput>>>,
    ) -> (r: Self)
        ensures
            is_opened(r.metadata, metadata),
            is_opened(r.files, files),
            is_opened(r.document_facts, document_facts),
            !r.read_only,
    {
        IndexState {
            metadata: open_table(metadata),
            files: open_table(files),
            document_facts: open_table(document_facts),
            read_only: false,
        }
    }

    /// A state over rows that were opened for reading only.
    pub fn new_read_only(
        metadata: StringMap<Row<IndexMetadata>>,
        files: StringMap<Row<FileRecord>>,
        document_facts: StringMap<Row<ExtractorOutput>>,
    ) -> (r: Self)
        ensures
            r.metadata == metadata,
            r.files == files,
            r.document_facts == document_facts,
            r.read_only,
    {
        IndexState { metadata, files, document_facts, read_only: true }
    }

    /// Repository metadata, if any has been stored.
    pub fn get_metadata(&self) -> (r: Result<Option<IndexMetadata>, IndexStateError>)
        ensures
            match r {
                Ok(metadata) => (self.metadata@.dom().contains(METADATA_KEY@)
                    ==> self.metadata@[METADATA_KEY@].value is Ok) && metadata.deep_view()
                    == stored_metadata(*self),
                Err(e) => self.metadata@.dom().contains(METADATA_KEY@)
                    && self.metadata@[METADATA_KEY@].value is Err && e.deep_view()
                    == StateFailure::Serialization(self.metadata@[METADATA_KEY@].value->Err_0@),
            },
    {
        match self.metadata.get(METADATA_KEY) {
            None => Ok(None),
            Some(row) => match &row.value {
                Ok(metadata) => Ok(Some(metadata.copy())),
                Err(complaint) => Err(IndexStateError::Serialization(complaint.clone())),
            },
        }
    }

    /// Stores repository metadata. `encoded` is what encoding it gave.
    pub fn set_metadata(&mut self, metadata: IndexMetadata, encoded: Result<Vec<u8>, String>) -> (r:
        Result<(), IndexStateError>)
        ensures
            final(self).read_only == old(self).read_only,
            final(self).files == old(self).files,
            final(self).document_facts == old(self).document_facts,
            r is Ok <==> encoded is Ok && !old(self).read_only,
            r is Ok ==> final(self).metadata@ == old(self).metadata@.insert(
                METADATA_KEY@,
                Row { bytes: encoded->Ok_0, value: Ok(metadata) },
            ),
            r is Err ==> *final(self) == *old(self) && r->Err_0.deep_view() == match encoded {
                Err(complaint) => StateFailure::Serialization(complaint@),
                Ok(_) => StateFailure::ReadOnly,
            },
    {
        let bytes = match encoded {
            Ok(bytes) => bytes,
            Err(complaint) => {
                return Err(IndexStateError::Serialization(complaint));
            },
        };
        if self.read_only {
            return Err(IndexStateError::ReadOnly);
        }
        self.metadata.insert(METADATA_KEY.to_owned(), Row { bytes, value: Ok(metadata) });
        Ok(())
    }

    /// The file record filed under a relative path.
    pub fn get_file(&self, path: &str) -> (r: Result<Option<FileRecord>, IndexStateError>)
        ensures
            match r {
                Ok(None) => !self.files@.dom().contains(path@),
                Ok(Some(record)) => self.files@.dom().contains(path@) && self.files@[path@].value
                    == Ok::<FileRecord, String>(record),
                Err(e) => self.files@.dom().contains(path@) && self.files@[path@].value is Err
                    && e.deep_view() == StateFailure::Serialization(
                    self.files@[path@].value->Err_0@,
                ),
            },
    {
        match self.files.get(path) {
            None => Ok(None),
            Some(row) => match &row.value {
                Ok(record) => Ok(Some(record.clone())),
                Err(complaint) => Err(IndexStateError::Serialization(complaint.clone())),
            },
        }
    }

    /// Stores or replaces a file record. `encoded` is what encoding it gave.
    pub fn set_file(
        &mut self,
        path: &str,
        record: &FileRecord,
        encoded: Result<Vec<u8>, String>,
    ) -> (r: Result<(), IndexStateError>)
        ensures
            final(self).read_only == old(self).read_only,
            final(self).metadata == old(self).metadata,
            final(self).document_facts == old(self).document_facts,
            r is Ok <==> encoded is Ok && !old(self).read_only,
            r is Ok ==> final(self).files@ == old(self).files@.insert(
                path@,
                Row { bytes: encoded->Ok_0, value: Ok(*record) },
            ),
            r is Err ==> *final(self) == *old(self) && r->Err_0.deep_view() == match encoded {
                Err(complaint) => StateFailure::Serialization(complaint@),
                Ok(_) => StateFailure::ReadOnly,
            },
    {
        let bytes = match encoded {
            Ok(bytes) => bytes,
            Err(complaint) => {
                return Err(IndexStateError::Serialization(complaint));
            },
        };
        if self.read_only {
            return Err(IndexStateError::ReadOnly);
        }
        self.files.insert(path.to_owned(), Row { bytes, value: Ok(record.clone()) });
        Ok(())
    }

    /// Drops the file record filed under a path.
    pub fn remove_file(&mut self, path: &str) -> (r: Result<(), IndexStateError>)
        ensures
            final(self).read_only == old(self).read_only,
            final(self).metadata == old(self).metadata,
            final(self).document_facts == old(self).document_facts,
            r is Ok <==> !old(self).read_only,
            r is Ok ==> final(self).files@ == old(self).files@.remove(path@),
            r is Err ==> *final(self) == *old(self) && r->Err_0.deep_view()
                == StateFailure::ReadOnly,
    {
        if self.read_only {
            return Err(IndexStateError::ReadOnly);
        }
        self.files.remove(path);
        Ok(())
    }

    /// Every file record, by path and in order.
    pub fn all_files(&self) -> (r: Result<Vec<(String, FileRecord)>, IndexStateError>)
        ensures
            match r {
                Ok(list) => row_fault(self.files.listing(), 0) is None && list.deep_view()
                    == decoded(self.files.listing()),
                Err(e) => row_fault(self.files.listing(), 0) is Some && e.deep_view()
                    == StateFailure::Serialization(row_fault(self.files.listing(), 0)->0),
            },
    {
        match decode_rows(self.files.entries()) {
            Ok(list) => Ok(list),
            Err(complaint) => Err(IndexStateError::Serialization(complaint)),
        }
    }

    /// Every persisted extraction result, in the order of the paths.
    pub fn all_document_facts(&self) -> (r: Result<Vec<ExtractorOutput>, IndexStateError>)
        ensures
            match r {
                Ok(list) => fact_fault(self.document_facts.listing(), 0) is None
                    && list.deep_view() == decoded_facts(self.document_facts.listing()),
                Err(e) => fact_fault(self.document_facts.listing(), 0) is Some && e.deep_view()
                    == StateFailure::Serialization(
                    fact_fault(self.document_facts.listing(), 0)->0,
                ),
            },
    {
        match decode_facts(self.document_facts.entries()) {
            Ok(list) => Ok(list),
            Err(complaint) => Err(IndexStateError::Serialization(complaint)),
        }
    }

    /// File identity and extraction coverage together.
    pub fn indexed_source_snapshot(&self) -> (r: Result<IndexedSourceSnapshot, IndexStateError>)
        ensures
            match r {
                Ok(snapshot) => {
                    &&& row_fault(self.files.listing(), 0) is None
                    &&& fact_fault(self.document_facts.listing(), 0) is None
                    &&& snapshot.records() == decoded(self.files.listing())
                    &&& snapshot.fact_paths() == paths_of(
                        decoded_facts(self.document_facts.listing()),
                    )
                },
                Err(e) => {
                    let fault = match row_fault(self.files.listing(), 0) {
                        Some(fault) => Some(fault),
                        None => fact_fault(self.document_facts.listing(), 0),
                    };
                    fault is Some && e.deep_view() == StateFailure::Serialization(fault->0)
                },
            },
    {
        let files = match self.all_files() {
            Ok(files) => files,
            Err(e) => {
                return Err(e);
            },
        };
        let facts = match self.all_document_facts() {
            Ok(facts) => facts,
            Err(e) => {
                return Err(e);
            },
        };
        let document_fact_paths = collect_paths(&facts);
        Ok(IndexedSourceSnapshot { files, document_fact_paths })
    }

    /// Replaces the whole population of extraction results.
    pub fn replace_document_facts(&mut self, facts: Vec<EncodedFacts>) -> (r: Result<
        (),
        IndexStateError,
    >)
        ensures
            final(self).read_only == old(self).read_only,
            final(self).metadata == old(self).metadata,
            final(self).files == old(self).files,
            r is Ok <==> facts_encoding_fault(facts@, 0) is None && !old(self).read_only,
            r is Ok ==> final(self).document_facts@ == fact_rows(facts@),
            r is Err ==> *final(self) == *old(self) && r->Err_0.deep_view()
                == match facts_encoding_fault(facts@, 0) {
                Some(complaint) => StateFailure::Serialization(complaint),
                None => StateFailure::ReadOnly,
            },
    {
        for i in 0..facts.len()
            invariant
                *self == *old(self),
                facts_encoding_fault(facts@, i as int) == facts_encoding_fault(facts@, 0),
                forall|j: int| 0 <= j < i ==> (#[trigger] facts@[j]).encoded is Ok,
        {
            match &facts[i].encoded {
                Err(complaint) => {
                    return Err(IndexStateError::Serialization(complaint.clone()));
                },
                Ok(_) => {},
            }
        }
        if self.read_only {
            return Err(IndexStateError::ReadOnly);
        }
        self.document_facts = build_fact_rows(facts);
        Ok(())
    }

    /// Replaces records and extraction results together. Every result must be backed
    /// by an exact path and digest of a record. Records without results are allowed.
    pub fn replace_source_state(
        &mut self,
        files: Vec<EncodedFile>,
        document_facts: Vec<EncodedFacts>,
    ) -> (r: Result<(), IndexStateError>)
        ensures
            final(self).read_only == old(self).read_only,
            final(self).metadata == old(self).metadata,
            r is Ok <==> source_state_fault(files@, document_facts@) is None && !old(
                self,
            ).read_only,
            r is Ok ==> final(self).files@ == file_rows(files@) && final(self).document_facts@
                == fact_rows(document_facts@),
            r is Err ==> *final(self) == *old(self) && r->Err_0.deep_view()
                == match source_state_fault(files@, document_facts@) {
                Some(fault) => StateFailure::Serialization(fault),
                None => StateFailure::ReadOnly,
            },
    {
        match check_source_state(&files, &document_facts) {
            Some(fault) => {
                return Err(IndexStateError::Serialization(fault));
            },
            None => {},
        }
        if self.read_only {
            return Err(IndexStateError::ReadOnly);
        }
        proof {
            lemma_source_state_encoded(files@, document_facts@);
        }
        self.files = build_file_rows(files);
        self.document_facts = build_fact_rows(document_facts);
        Ok(())
    }

    /// Reads, checks and proves everything that the state holds.
    pub fn read_validated_content(&self) -> (r: Result<ValidatedIndexStateContent, IndexStateError>)
        ensures
            match r {
                Ok(content) => content_fault(*self) is None && is_content_of(content, *self),
                Err(e) => content_fault(*self) is Some && e.deep_view()
                    == StateFailure::Serialization(content_fault(*self)->0),
            },
    {
        let metadata = match self.get_metadata() {
            Ok(metadata) => metadata,
            Err(e) => {
                return Err(e);
            },
        };
        let files = match self.all_files() {
            Ok(files) => files,
            Err(e) => {
                return Err(e);
            },
        };
        let facts = match self.all_document_facts() {
            Ok(facts) => facts,
            Err(e) => {
                return Err(e);
            },
        };
        let ghost records = records_of(self.files@);
        let ghost models = decoded_facts(self.document_facts.listing());
        proof {
            lemma_rows_decode(self.files.listing(), 0);
        }
        for i in 0..facts.len()
            invariant
                facts.deep_view() == models,
                records == records_of(self.files@),
                row_fault(self.files.listing(), 0) is None,
                forall|path: Seq<char>| #[trigger]
                    self.files@.dom().contains(path) ==> self.files@[path].value is Ok,
                backing_fault(records, models, i as int) == backing_fault(records, models, 0),
                content_fault(*self) == backing_fault(records, models, 0),
        {
            let path = facts[i].file_path.as_str();
            assert(models[i as int].path == path@);
            let record: Option<&FileRecord> = match self.files.get(path) {
                None => None,
                Some(row) => match &row.value {
                    Ok(record) => Some(record),
                    Err(_) => None,
                },
            };
            match check_backing(record, path, facts[i].file_hash.as_str()) {
                None => {},
                Some(fault) => {
                    return Err(IndexStateError::Serialization(fault));
                },
            }
        }
        let proof = IndexStatePublicationProof {
            schema_version: INDEX_STATE_PUBLICATION_PROOF_SCHEMA.to_owned(),
            metadata: population_proof(
                "h00/index-state/metadata/v1\0".as_bytes(),
                &encoded_rows(self.metadata.entries()),
            ),
            files: population_proof(
                "h00/index-state/files/v1\0".as_bytes(),
                &encoded_rows(self.files.entries()),
            ),
            document_facts: population_proof(
                "h00/index-state/document-facts/v2\0".as_bytes(),
                &encoded_rows(self.document_facts.entries()),
            ),
        };
        let indexed_sources = IndexedSourceSnapshot {
            files: files.copy(),
            document_fact_paths: collect_paths(&facts),
        };
        Ok(
            ValidatedIndexStateContent {
                proof,
                metadata,
                indexed_sources,
                basis: IncrementalIndexBasis { files, document_facts: facts },
            },
        )
    }

    /// The proof of everything that the state holds.
    pub fn capture_publication_proof(&self) -> (r: Result<
        IndexStatePublicationProof,
        IndexStateError,
    >)
        ensures
            match r {
                Ok(proof) => content_fault(*self) is None && proof.deep_view() == state_proof(
                    *self,
                ),
                Err(e) => content_fault(*self) is Some && e.deep_view()
                    == StateFailure::Serialization(content_fault(*self)->0),
            },
    {
        match self.read_validated_content() {
            Ok(content) => Ok(content.proof),
            Err(e) => Err(e),
        }
    }

    /// The content of the state, if it is exactly what the proof was made for.
    pub fn validate_publication_proof(&self, expected: &IndexStatePublicationProof) -> (r: Result<
        ValidatedIndexStateContent,
        IndexStateError,
    >)
        ensures
            match r {
                Ok(content) => {
                    &&& content_fault(*self) is None
                    &&& expected.deep_view() == state_proof(*self)
                    &&& is_content_of(content, *self)
                },
                Err(e) => e.deep_view() == match content_fault(*self) {
                    Some(fault) => StateFailure::Serialization(fault),
                    None => StateFailure::ContentProof(
                        "opened metadata, file, or extraction-fact population differs from the immutable manifest"@,
                    ),
                } && (content_fault(*self) is Some || expected.deep_view() != state_proof(*self)),
            },
    {
        let content = match self.read_validated_content() {
            Ok(content) => content,
            Err(e) => {
                return Err(e);
            },
        };
        if !content.proof.same(expected) {
            return Err(
                IndexStateError::ContentProof(
                    "opened metadata, file, or extraction-fact population differs from the immutable manifest".to_owned(),
                ),
            );
        }
        Ok(content)
    }
}

/// Rows without a complaint all decode.
proof fn lemma_rows_decode<T>(rows: Seq<(String, Row<T>)>, i: int)
    requires
        0 <= i <= rows.len(),
        row_fault(rows, i) is None,
    ensures
        forall|j: int| i <= j < rows.len() ==> (#[trigger] rows[j]).1.value is Ok,
        i == 0 ==> forall|key: Seq<char>| #[trigger]
            ordered::map_of(rows).dom().contains(key) ==> ordered::map_of(rows)[key].value is Ok,
    decreases rows.len() - i,
{
    if i < rows.len() {
        lemma_rows_decode(rows, i + 1);
    }
    assert forall|j: int| i <= j < rows.len() implies (#[trigger] rows[j]).1.value is Ok by {
        if j == i {
        }
    }
    if i == 0 {
        assert forall|key: Seq<char>| #[trigger]
            ordered::map_of(rows).dom().contains(key) implies ordered::map_of(
            rows,
        )[key].value is Ok by {
            let k = ordered::keys_of(rows).index_of(key);
            assert(rows[k].1.value is Ok);
        }
    }
}

/// Lists without a fault are encoded throughout.
proof fn lemma_source_state_encoded(files: Seq<EncodedFile>, facts: Seq<EncodedFacts>)
    requires
        source_state_fault(files, facts) is None,
    ensures
        forall|j: int| 0 <= j < files.len() ==> (#[trigger] files[j]).encoded is Ok,
        forall|j: int| 0 <= j < facts.len() ==> (#[trigger] facts[j]).encoded is Ok,
{
    lemma_files_encoded(files, 0);
    lemma_facts_encoded(listed_records(files), facts, 0);
}

proof fn lemma_files_encoded(files: Seq<EncodedFile>, i: int)
    requires
        0 <= i <= files.len(),
        file_encoding_fault(files, i) is None,
    ensures
        forall|j: int| i <= j < files.len() ==> (#[trigger] files[j]).encoded is Ok,
    decreases files.len() - i,
{
    if i < files.len() {
        lemma_files_encoded(files, i + 1);
    }
}

proof fn lemma_facts_encoded(
    records: Map<Seq<char>, RecordModel>,
    facts: Seq<EncodedFacts>,
    i: int,
)
    requires
        0 <= i <= facts.len(),
        listed_fact_fault(records, facts, i) is None,
    ensures
        forall|j: int| i <= j < facts.len() ==> (#[trigger] facts[j]).encoded is Ok,
    decreases facts.len() - i,
{
    if i < facts.len() {
        lemma_facts_encoded(records, facts, i + 1);
    }
}

fn build_fact_rows(facts: Vec<EncodedFacts>) -> (r: StringMap<Row<ExtractorOutput>>)
    requires
        forall|j: int| 0 <= j < facts@.len() ==> (#[trigger] facts@[j]).encoded is Ok,
    ensures
        r@ == fact_rows(facts@),
{
    let ghost all = facts@;
    let mut rest = facts;
    let mut reversed: Vec<EncodedFacts> = Vec::new();
    while rest.len() > 0
        invariant
            rest@ == all.take(rest@.len() as int),
            rest@.len() + reversed@.len() == all.len(),
            forall|j: int|
                0 <= j < reversed@.len() ==> #[trigger] reversed@[j] == all[all.len() - 1 - j],
        decreases rest.len(),
    {
        let ghost n = rest@.len();
        match rest.pop() {
            Some(entry) => {
                reversed.push(entry);
                assert(rest@ =~= all.take(n - 1));
            },
            None => {},
        }
    }
    let mut r: StringMap<Row<ExtractorOutput>> = StringMap::new();
    assert(all.take(0) =~= Seq::<EncodedFacts>::empty());
    while reversed.len() > 0
        invariant
            forall|j: int| 0 <= j < all.len() ==> (#[trigger] all[j]).encoded is Ok,
            reversed@.len() <= all.len(),
            forall|j: int|
                0 <= j < reversed@.len() ==> #[trigger] reversed@[j] == all[all.len() - 1 - j],
            r@ == fact_rows(all.take(all.len() - reversed@.len())),
        decreases reversed.len(),
    {
        let ghost n = reversed@.len();
        let ghost k = all.len() - n;
        match reversed.pop() {
            Some(entry) => {
                proof {
                    assert(entry == all[k]);
                    assert(all.take(k + 1).drop_last() =~= all.take(k));
                    assert(all.take(k + 1).last() == all[k]);
                }
                match entry.encoded {
                    Ok(bytes) => {
                        let path = entry.facts.file_path.clone();
                        r.insert(path, Row { bytes, value: Ok(entry.facts) });
                    },
                    Err(_) => {},
                }
            },
            None => {},
        }
    }
    assert(all.take(all.len() as int) =~= all);
    r
}

fn build_file_rows(files: Vec<EncodedFile>) -> (r: StringMap<Row<FileRecord>>)
    requires
        forall|j: int| 0 <= j < files@.len() ==> (#[trigger] files@[j]).encoded is Ok,
    ensures
        r@ == file_rows(files@),
{
    let ghost all = files@;
    let mut rest = files;
    let mut reversed: Vec<EncodedFile> = Vec::new();
    while rest.len() > 0
        invariant
            rest@ == all.take(rest@.len() as int),
            rest@.len() + reversed@.len() == all.len(),
            forall|j: int|
                0 <= j < reversed@.len() ==> #[trigger] reversed@[j] == all[all.len() - 1 - j],
        decreases rest.len(),
    {
        let ghost n = rest@.len();
        match rest.pop() {
            Some(entry) => {
                reversed.push(entry);
                assert(rest@ =~= all.take(n - 1));
            },
            None => {},
        }
    }
    let mut r: StringMap<Row<FileRecord>> = StringMap::new();
    assert(all.take(0) =~= Seq::<EncodedFile>::empty());
    while reversed.len() > 0
        invariant
            forall|j: int| 0 <= j < all.len() ==> (#[trigger] all[j]).encoded is Ok,
            reversed@.len() <= all.len(),
            forall|j: int|
                0 <= j < reversed@.len() ==> #[trigger] reversed@[j] == all[all.len() - 1 - j],
            r@ == file_rows(all.take(all.len() - reversed@.len())),
        decreases reversed.len(),
    {
        let ghost n = reversed@.len();
        let ghost k = all.len() - n;
        match reversed.pop() {
            Some(entry) => {
                proof {
                    assert(entry == all[k]);
                    assert(all.take(k + 1).drop_last() =~= all.take(k));
                    assert(all.take(k + 1).last() == all[k]);
                }
                match entry.encoded {
                    Ok(bytes) => {
                        r.insert(entry.path, Row { bytes, value: Ok(entry.record) });
                    },
                    Err(_) => {},
                }
            },
            None => {},
        }
    }
    assert(all.take(all.len() as int) =~= all);
    r
}

/// Finds why a complete source state is refused, if it is.
fn check_source_state(files: &Vec<EncodedFile>, facts: &Vec<EncodedFacts>) -> (r: Option<String>)
    ensures
        r.deep_view() == source_state_fault(files@, facts@),
{
    let mut records: StringMap<usize> = StringMap::new();
    assert(files@.take(0) =~= Seq::<EncodedFile>::empty());
    for i in 0..files.len()
        invariant
            repeated_file(files@, i as int) == repeated_file(files@, 0),
            forall|path: Seq<char>| #[trigger]
                records@.dom().contains(path) <==> path_taken(files@, i as int, path),
            forall|path: Seq<char>| #[trigger]
                records@.dom().contains(path) ==> records@[path] < i && files@[records@[path] as int].path@
                    == path,
            listed_records(files@.take(i as int)).dom() =~= records@.dom(),
            forall|path: Seq<char>| #[trigger]
                records@.dom().contains(path) ==> listed_records(files@.take(i as int))[path]
                    == files@[records@[path] as int].record.deep_view(),
    {
        let ghost before = records@;
        let replaced = records.insert(files[i].path.clone(), i);
        proof {
            let next = files@.take(i + 1);
            assert(next.drop_last() =~= files@.take(i as int));
            assert(next.last() == files@[i as int]);
            assert(before.dom().contains(files@[i as int].path@) <==> path_taken(
                files@,
                i as int,
                files@[i as int].path@,
            ));
            assert forall|path: Seq<char>| #[trigger] records@.dom().contains(path) <==> path_taken(
                files@,
                i + 1,
                path,
            ) by {
                if path_taken(files@, i as int, path) {
                    let j = choose|j: int| 0 <= j < i && (#[trigger] files@[j]).path@ == path;
                    assert(files@[j].path@ == path);
                }
                if path_taken(files@, i + 1, path) {
                    let j = choose|j: int| 0 <= j < i + 1 && (#[trigger] files@[j]).path@ == path;
                    if j < i {
                        assert(path_taken(files@, i as int, path));
                    }
                }
                assert(before.dom().contains(path) <==> path_taken(files@, i as int, path));
            }
            assert forall|path: Seq<char>| #[trigger]
                records@.dom().contains(path) implies records@[path] < i + 1 && files@[records@[path] as int].path@
                == path by {
                assert(path != files@[i as int].path@ ==> before.dom().contains(path));
            }
            assert forall|path: Seq<char>| #[trigger]
                records@.dom().contains(path) implies listed_records(next)[path]
                == files@[records@[path] as int].record.deep_view() by {
                assert(path != files@[i as int].path@ ==> before.dom().contains(path));
            }
        }
        if replaced {
            let mut fault = "duplicate file record for `".to_owned();
            fault.append(files[i].path.as_str());
            fault.append("`");
            return Some(fault);
        }
    }
    assert(files@.take(files@.len() as int) =~= files@);
    let ghost listed = listed_records(files@);
    let mut seen: StringMap<()> = StringMap::new();
    for i in 0..facts.len()
        invariant
            repeated_file(files@, 0) is None,
            listed == listed_records(files@),
            listed.dom() =~= records@.dom(),
            forall|path: Seq<char>| #[trigger]
                records@.dom().contains(path) ==> records@[path] < files@.len() && listed[path]
                    == files@[records@[path] as int].record.deep_view(),
            forall|path: Seq<char>| #[trigger]
                seen@.dom().contains(path) <==> facts_taken(facts@, i as int, path),
            listed_fact_fault(listed, facts@, i as int) == listed_fact_fault(listed, facts@, 0),
    {
        let path = facts[i].facts.file_path.as_str();
        let ghost before = seen@;
        let repeated = seen.insert(facts[i].facts.file_path.clone(), ());
        proof {
            assert(before.dom().contains(path@) <==> facts_taken(facts@, i as int, path@));
            assert forall|p: Seq<char>| #[trigger] seen@.dom().contains(p) <==> facts_taken(
                facts@,
                i + 1,
                p,
            ) by {
                if facts_taken(facts@, i as int, p) {
                    let j = choose|j: int|
                        0 <= j < i && (#[trigger] facts@[j]).facts.file_path@ == p;
                    assert(facts@[j].facts.file_path@ == p);
                }
                if facts_taken(facts@, i + 1, p) {
                    let j = choose|j: int|
                        0 <= j < i + 1 && (#[trigger] facts@[j]).facts.file_path@ == p;
                    if j < i {
                        assert(facts_taken(facts@, i as int, p));
                    }
                }
                assert(before.dom().contains(p) <==> facts_taken(facts@, i as int, p));
            }
        }
        if repeated {
            let mut fault = "duplicate document facts for `".to_owned();
            fault.append(path);
            fault.append("`");
            return Some(fault);
        }
        let record: Option<&FileRecord> = match records.get(path) {
            None => None,
            Some(k) => Some(&files[*k].record),
        };
        match check_backing(record, path, facts[i].facts.file_hash.as_str()) {
            None => {},
            Some(fault) => {
                return Some(fault);
            },
        }
        match &facts[i].encoded {
            Err(complaint) => {
                return Some(complaint.clone());
            },
            Ok(_) => {},
        }
    }
    for i in 0..files.len()
        invariant
            repeated_file(files@, 0) is None,
            listed_fact_fault(listed_records(files@), facts@, 0) is None,
            file_encoding_fault(files@, i as int) == file_encoding_fault(files@, 0),
    {
        match &files[i].encoded {
            Err(complaint) => {
                return Some(complaint.clone());
            },
            Ok(_) => {},
        }
    }
    None
}

impl IndexState {
    /// The rows of each table are listed in ascending key order.
    pub open spec fn well_formed(self) -> bool {
        &&& ordered::ascending(ordered::keys_of(self.metadata.listing()))
        &&& ordered::ascending(ordered::keys_of(self.files.listing()))
        &&& ordered::ascending(ordered::keys_of(self.document_facts.listing()))
    }
}

proof fn lemma_file_rows(files: Seq<EncodedFile>)
    ensures
        file_rows(files).dom() == listed_records(files).dom(),
        forall|path: Seq<char>| #[trigger]
            file_rows(files).dom().contains(path) ==> file_rows(files)[path].value is Ok
                && file_rows(files)[path].value->Ok_0.deep_view() == listed_records(files)[path],
    decreases files.len(),
{
    if files.len() > 0 {
        lemma_file_rows(files.drop_last());
        let before = file_rows(files.drop_last());
        assert forall|path: Seq<char>| #[trigger]
            file_rows(files).dom().contains(path) implies file_rows(files)[path].value is Ok
            && file_rows(files)[path].value->Ok_0.deep_view() == listed_records(files)[path] by {
            assert(path != files.last().path@ ==> before.dom().contains(path));
        }
    }
    assert(file_rows(files).dom() =~= listed_records(files).dom());
}

/// Every row comes from some facts of the list, filed under their own path.
proof fn lemma_fact_rows(facts: Seq<EncodedFacts>)
    ensures
        forall|path: Seq<char>| #[trigger]
            fact_rows(facts).dom().contains(path) ==> exists|i: int|
                0 <= i < facts.len() && (#[trigger] facts[i]).facts.file_path@ == path && fact_rows(
                    facts,
                )[path].value == Ok::<ExtractorOutput, String>(facts[i].facts),
        forall|i: int|
            0 <= i < facts.len() ==> fact_rows(facts).dom().contains(
                (#[trigger] facts[i]).facts.file_path@,
            ),
    decreases facts.len(),
{
    if facts.len() > 0 {
        let front = facts.drop_last();
        lemma_fact_rows(front);
        let before = fact_rows(front);
        assert forall|path: Seq<char>| #[trigger]
            fact_rows(facts).dom().contains(path) implies exists|i: int|
            0 <= i < facts.len() && (#[trigger] facts[i]).facts.file_path@ == path && fact_rows(
                facts,
            )[path].value == Ok::<ExtractorOutput, String>(facts[i].facts) by {
            let n = facts.len() - 1;
            if path == facts[n].facts.file_path@ {
                assert(facts[n].facts.file_path@ == path);
            } else {
                assert(before.dom().contains(path));
                let i = choose|i: int|
                    0 <= i < front.len() && (#[trigger] front[i]).facts.file_path@ == path
                        && before[path].value == Ok::<ExtractorOutput, String>(front[i].facts);
                assert(facts[i] == front[i]);
            }
        }
        assert forall|i: int| 0 <= i < facts.len() implies fact_rows(facts).dom().contains(
            (#[trigger] facts[i]).facts.file_path@,
        ) by {
            if i < front.len() {
                assert(facts[i] == front[i]);
            }
        }
    }
}

proof fn lemma_listed_facts_backed(
    records: Map<Seq<char>, RecordModel>,
    facts: Seq<EncodedFacts>,
    i: int,
)
    requires
        0 <= i <= facts.len(),
        listed_fact_fault(records, facts, i) is None,
    ensures
        forall|j: int|
            i <= j < facts.len() ==> unbacked(
                records,
                (#[trigger] facts[j]).facts.file_path@,
                facts[j].facts.file_hash@,
            ) is None,
    decreases facts.len() - i,
{
    if i < facts.len() {
        lemma_listed_facts_backed(records, facts, i + 1);
    }
}

proof fn lemma_no_row_fault<T>(rows: Seq<(String, Row<T>)>, i: int)
    requires
        0 <= i <= rows.len(),
        forall|j: int| i <= j < rows.len() ==> (#[trigger] rows[j]).1.value is Ok,
    ensures
        row_fault(rows, i) is None,
    decreases rows.len() - i,
{
    if i < rows.len() {
        lemma_no_row_fault(rows, i + 1);
    }
}

proof fn lemma_no_fact_fault(rows: Seq<(String, Row<ExtractorOutput>)>, i: int)
    requires
        0 <= i <= rows.len(),
        forall|j: int|
            i <= j < rows.len() ==> (#[trigger] rows[j]).1.value is Ok
                && rows[j].1.value->Ok_0.file_path@ == rows[j].0@,
    ensures
        fact_fault(rows, i) is None,
    decreases rows.len() - i,
{
    if i < rows.len() {
        lemma_no_fact_fault(rows, i + 1);
    }
}

proof fn lemma_no_backing_fault(
    records: Map<Seq<char>, RecordModel>,
    facts: Seq<FactsModel>,
    i: int,
)
    requires
        0 <= i <= facts.len(),
        forall|j: int|
            i <= j < facts.len() ==> unbacked(
                records,
                (#[trigger] facts[j]).path,
                facts[j].hash,
            ) is None,
    ensures
        backing_fault(records, facts, i) is None,
    decreases facts.len() - i,
{
    if i < facts.len() {
        lemma_no_backing_fault(records, facts, i + 1);
    }
}

/// Facts of an accepted list have different paths.
proof fn lemma_facts_distinct(
    records: Map<Seq<char>, RecordModel>,
    facts: Seq<EncodedFacts>,
    i: int,
)
    requires
        0 <= i <= facts.len(),
        listed_fact_fault(records, facts, i) is None,
    ensures
        forall|j: int|
            i <= j < facts.len() ==> !facts_taken(
                facts,
                j,
                (#[trigger] facts[j]).facts.file_path@,
            ),
    decreases facts.len() - i,
{
    if i < facts.len() {
        lemma_facts_distinct(records, facts, i + 1);
    }
}

/// Facts with different paths have a row each, which holds them.
proof fn lemma_fact_rows_distinct(facts: Seq<EncodedFacts>)
    requires
        forall|j: int|
            0 <= j < facts.len() ==> !facts_taken(
                facts,
                j,
                (#[trigger] facts[j]).facts.file_path@,
            ),
    ensures
        fact_rows(facts).dom().finite(),
        fact_rows(facts).dom().len() == facts.len(),
        forall|i: int|
            0 <= i < facts.len() ==> fact_rows(facts)[(
            #[trigger] facts[i]).facts.file_path@].value == Ok::<ExtractorOutput, String>(
                facts[i].facts,
            ),
    decreases facts.len(),
{
    if facts.len() > 0 {
        let front = facts.drop_last();
        let n = facts.len() - 1;
        assert forall|j: int| 0 <= j < front.len() implies !facts_taken(
            front,
            j,
            (#[trigger] front[j]).facts.file_path@,
        ) by {
            assert(front[j] == facts[j]);
            if facts_taken(front, j, front[j].facts.file_path@) {
                let k = choose|k: int|
                    0 <= k < j && (#[trigger] front[k]).facts.file_path@
                        == front[j].facts.file_path@;
                assert(facts[k] == front[k]);
            }
        }
        lemma_fact_rows_distinct(front);
        lemma_fact_rows(front);
        let path = facts[n].facts.file_path@;
        assert(!fact_rows(front).dom().contains(path)) by {
            if fact_rows(front).dom().contains(path) {
                let k = choose|k: int|
                    0 <= k < front.len() && (#[trigger] front[k]).facts.file_path@ == path;
                assert(facts[k] == front[k]);
                assert(facts_taken(facts, n, path));
            }
        }
        assert forall|i: int| 0 <= i < facts.len() implies fact_rows(facts)[(
        #[trigger] facts[i]).facts.file_path@].value == Ok::<ExtractorOutput, String>(
            facts[i].facts,
        ) by {
            if i < n {
                assert(facts[i] == front[i]);
                assert(fact_rows(front).dom().contains(front[i].facts.file_path@));
            }
        }
    }
}

/// What an accepted replacement leaves behind is valid as a whole: it can be read
/// back and proved, and it holds exactly the records and the facts that were given.
pub proof fn law_replaced_state_reads_back(
    files: Seq<EncodedFile>,
    facts: Seq<EncodedFacts>,
    state: IndexState,
)
    requires
        state.well_formed(),
        source_state_fault(files, facts) is None,
        state.files@ == file_rows(files),
        state.document_facts@ == fact_rows(facts),
        state.metadata@.dom().contains(METADATA_KEY@)
            ==> state.metadata@[METADATA_KEY@].value is Ok,
    ensures
        content_fault(state) is None,
        records_of(state.files@) == listed_records(files),
        paths_of(decoded_facts(state.document_facts.listing())) == Set::new(
            |path: Seq<char>| facts_taken(facts, facts.len() as int, path),
        ),
        decoded_facts(state.document_facts.listing()).len() == facts.len(),
        forall|i: int|
            0 <= i < facts.len() ==> decoded_facts(state.document_facts.listing()).contains(
                (#[trigger] facts[i]).facts.deep_view(),
            ),
{
    let records = listed_records(files);
    lemma_facts_distinct(records, facts, 0);
    lemma_fact_rows_distinct(facts);
    lemma_file_rows(files);
    lemma_fact_rows(facts);
    lemma_listed_facts_backed(records, facts, 0);
    assert(records_of(state.files@) =~= records);
    let file_list = state.files.listing();
    assert forall|j: int| 0 <= j < file_list.len() implies (#[trigger] file_list[j]).1.value is Ok by {
        ordered::lemma_entry(file_list, j);
    }
    lemma_no_row_fault(file_list, 0);
    let rows = state.document_facts.listing();
    let models = decoded_facts(rows);
    assert forall|j: int| 0 <= j < rows.len() implies {
        &&& (#[trigger] rows[j]).1.value is Ok
        &&& rows[j].1.value->Ok_0.file_path@ == rows[j].0@
        &&& unbacked(records, models[j].path, models[j].hash) is None
        &&& facts_taken(facts, facts.len() as int, models[j].path)
    } by {
        ordered::lemma_entry(rows, j);
        let path = rows[j].0@;
        let i = choose|i: int|
            0 <= i < facts.len() && (#[trigger] facts[i]).facts.file_path@ == path && fact_rows(
                facts,
            )[path].value == Ok::<ExtractorOutput, String>(facts[i].facts);
        assert(rows[j].1.value == Ok::<ExtractorOutput, String>(facts[i].facts));
        assert(models[j].path == facts[i].facts.file_path@);
    }
    lemma_no_fact_fault(rows, 0);
    assert forall|j: int| 0 <= j < models.len() implies unbacked(
        records,
        (#[trigger] models[j]).path,
        models[j].hash,
    ) is None by {
        assert(rows[j].1.value is Ok);
    }
    lemma_no_backing_fault(records, models, 0);
    let given = Set::new(|path: Seq<char>| facts_taken(facts, facts.len() as int, path));
    assert forall|path: Seq<char>| paths_of(models).contains(path) <==> given.contains(path) by {
        if paths_of(models).contains(path) {
            let j = choose|j: int| 0 <= j < models.len() && (#[trigger] models[j]).path == path;
            assert(rows[j].1.value is Ok);
        }
        if given.contains(path) {
            let i = choose|i: int|
                0 <= i < facts.len() && (#[trigger] facts[i]).facts.file_path@ == path;
            assert(fact_rows(facts).dom().contains(facts[i].facts.file_path@));
            let j = ordered::keys_of(rows).index_of(path);
            assert(ordered::keys_of(rows).contains(path));
            assert(rows[j].1.value is Ok);
            assert(models[j].path == path);
        }
    }
    assert(paths_of(models) =~= given);
    ordered::lemma_len(rows);
    assert forall|i: int| 0 <= i < facts.len() implies models.contains(
        (#[trigger] facts[i]).facts.deep_view(),
    ) by {
        let path = facts[i].facts.file_path@;
        assert(fact_rows(facts).dom().contains(path));
        let j = ordered::keys_of(rows).index_of(path);
        assert(ordered::keys_of(rows).contains(path));
        ordered::lemma_entry(rows, j);
        assert(models[j] == facts[i].facts.deep_view());
    }
}

/// A record that was stored is the one read back under its path, and no other record
/// changes.
pub proof fn law_stored_record_reads_back(
    before: IndexState,
    after: IndexState,
    path: Seq<char>,
    record: FileRecord,
    bytes: Vec<u8>,
)
    requires
        after.files@ == before.files@.insert(path, Row { bytes, value: Ok(record) }),
    ensures
        after.files@.dom().contains(path),
        after.files@[path].value == Ok::<FileRecord, String>(record),
        forall|other: Seq<char>|
            other != path ==> (after.files@.dom().contains(other) <==> before.files@.dom().contains(
                other,
            )) && (before.files@.dom().contains(other) ==> #[trigger] after.files@[other]
                == before.files@[other]),
{
}

/// The digests of two populations tell them apart.
pub open spec fn told_apart(
    domain: Seq<u8>,
    a: Seq<(Seq<char>, Seq<u8>)>,
    b: Seq<(Seq<char>, Seq<u8>)>,
) -> bool {
    let x = domain + index_state::population_bytes(a);
    let y = domain + index_state::population_bytes(b);
    digest::content_digest(x) == digest::content_digest(y) ==> x == y
}

/// The lengths of all keys and values of a population fit into their frames.
pub open spec fn all_fit(entries: Seq<(Seq<char>, Seq<u8>)>) -> bool {
    forall|i: int| 0 <= i < entries.len() ==> index_state::frames_fit(#[trigger] entries[i])
}

proof fn lemma_population_bound(
    domain: Seq<u8>,
    a: Seq<(Seq<char>, Seq<u8>)>,
    b: Seq<(Seq<char>, Seq<u8>)>,
)
    requires
        index_state::population_of(domain, a) == index_state::population_of(domain, b),
        told_apart(domain, a, b),
        all_fit(a),
        all_fit(b),
    ensures
        a == b,
{
    let x = index_state::population_bytes(a);
    let y = index_state::population_bytes(b);
    assert((domain + x).skip(domain.len() as int) =~= x);
    assert((domain + y).skip(domain.len() as int) =~= y);
    index_state::law_framing_is_injective(a, b);
}

/// A publication proof binds every stored row: where the digests tell the populations
/// apart, two states with the same proof hold the same rows.
pub proof fn law_proof_binds_rows(a: IndexState, b: IndexState)
    requires
        state_proof(a) == state_proof(b),
        told_apart(metadata_domain(), encoded(a.metadata.listing()), encoded(b.metadata.listing())),
        told_apart(files_domain(), encoded(a.files.listing()), encoded(b.files.listing())),
        told_apart(
            facts_domain(),
            encoded(a.document_facts.listing()),
            encoded(b.document_facts.listing()),
        ),
        all_fit(encoded(a.metadata.listing())),
        all_fit(encoded(b.metadata.listing())),
        all_fit(encoded(a.files.listing())),
        all_fit(encoded(b.files.listing())),
        all_fit(encoded(a.document_facts.listing())),
        all_fit(encoded(b.document_facts.listing())),
    ensures
        encoded(a.metadata.listing()) == encoded(b.metadata.listing()),
        encoded(a.files.listing()) == encoded(b.files.listing()),
        encoded(a.document_facts.listing()) == encoded(b.document_facts.listing()),
{
    lemma_population_bound(
        metadata_domain(),
        encoded(a.metadata.listing()),
        encoded(b.metadata.listing()),
    );
    lemma_population_bound(
        files_domain(),
        encoded(a.files.listing()),
        encoded(b.files.listing()),
    );
    lemma_population_bound(
        facts_domain(),
        encoded(a.document_facts.listing()),
        encoded(b.document_facts.listing()),
    );
}

/// Reading the rows of a table stops at the first that does not decode, and repeats the
/// complaint about that one. It goes through exactly if every row decodes.
pub proof fn law_first_undecodable_row_is_reported<T>(rows: Seq<(String, Row<T>)>, n: int)
    requires
        0 <= n <= rows.len(),
        forall|j: int| 0 <= j < n ==> (#[trigger] rows[j]).1.value is Ok,
    ensures
        n == rows.len() ==> row_fault(rows, 0) is None,
        n < rows.len() && rows[n].1.value is Err ==> row_fault(rows, 0) == Some(
            rows[n].1.value->Err_0@,
        ),
{
    lemma_row_fault_from(rows, 0, n);
}

proof fn lemma_row_fault_from<T>(rows: Seq<(String, Row<T>)>, i: int, n: int)
    requires
        0 <= i <= n <= rows.len(),
        forall|j: int| i <= j < n ==> (#[trigger] rows[j]).1.value is Ok,
    ensures
        row_fault(rows, i) == row_fault(rows, n),
    decreases n - i,
{
    if i < n {
        assert(rows[i].1.value is Ok);
        lemma_row_fault_from(rows, i + 1, n);
    }
}

/// The row decodes to facts that carry its key as their path.
pub open spec fn facts_are_in_place(row: (String, Row<ExtractorOutput>)) -> bool {
    row.1.value matches Ok(facts) && facts.file_path@ == row.0@
}

proof fn lemma_fact_fault_from(rows: Seq<(String, Row<ExtractorOutput>)>, i: int, n: int)
    requires
        0 <= i <= n <= rows.len(),
        forall|j: int| i <= j < n ==> facts_are_in_place(#[trigger] rows[j]),
    ensures
        fact_fault(rows, i) == fact_fault(rows, n),
    decreases n - i,
{
    if i < n {
        assert(facts_are_in_place(rows[i]));
        lemma_fact_fault_from(rows, i + 1, n);
    }
}

/// Reading the extraction results stops at the first row that does not decode or is filed under
/// another path than it carries. It goes through exactly if there is no such row.
pub proof fn law_first_misfiled_facts_are_reported(
    rows: Seq<(String, Row<ExtractorOutput>)>,
    n: int,
)
    requires
        0 <= n <= rows.len(),
        forall|j: int| 0 <= j < n ==> facts_are_in_place(#[trigger] rows[j]),
    ensures
        n == rows.len() ==> fact_fault(rows, 0) is None,
        n < rows.len() && rows[n].1.value is Err ==> fact_fault(rows, 0) == Some(
            rows[n].1.value->Err_0@,
        ),
        n < rows.len() && rows[n].1.value is Ok && rows[n].1.value->Ok_0.file_path@ != rows[n].0@
            ==> fact_fault(rows, 0) is Some,
{
    lemma_fact_fault_from(rows, 0, n);
}

/// Some record is filed under the path with this digest.
pub open spec fn is_backed(
    files: Map<Seq<char>, RecordModel>,
    path: Seq<char>,
    hash: Seq<char>,
) -> bool {
    files.dom().contains(path) && files[path].hash == hash
}

proof fn lemma_backing_fault_from(
    files: Map<Seq<char>, RecordModel>,
    facts: Seq<FactsModel>,
    i: int,
)
    requires
        0 <= i <= facts.len(),
    ensures
        backing_fault(files, facts, i) is None <==> forall|j: int|
            i <= j < facts.len() ==> is_backed(files, (#[trigger] facts[j]).path, facts[j].hash),
    decreases facts.len() - i,
{
    if i < facts.len() {
        lemma_backing_fault_from(files, facts, i + 1);
    }
}

proof fn lemma_row_fault_exact<T>(rows: Seq<(String, Row<T>)>, i: int)
    requires
        0 <= i <= rows.len(),
    ensures
        row_fault(rows, i) is None <==> forall|j: int|
            i <= j < rows.len() ==> (#[trigger] rows[j]).1.value is Ok,
    decreases rows.len() - i,
{
    if i < rows.len() {
        lemma_row_fault_exact(rows, i + 1);
    }
}

proof fn lemma_fact_fault_exact(rows: Seq<(String, Row<ExtractorOutput>)>, i: int)
    requires
        0 <= i <= rows.len(),
    ensures
        fact_fault(rows, i) is None <==> forall|j: int|
            i <= j < rows.len() ==> facts_are_in_place(#[trigger] rows[j]),
    decreases rows.len() - i,
{
    if i < rows.len() {
        lemma_fact_fault_exact(rows, i + 1);
    }
}

/// An index state is valid exactly if its metadata row decodes where it has one, every record
/// decodes, every extraction result decodes and is filed under its own path, and each of them
/// belongs to a record of the same path and digest.
pub proof fn law_state_is_valid_exactly(state: IndexState)
    ensures
        content_fault(state) is None <==> {
            &&& state.metadata@.dom().contains("metadata"@) ==> state.metadata@["metadata"@].value is Ok
            &&& forall|i: int|
                0 <= i < state.files.listing().len() ==> (
                #[trigger] state.files.listing()[i]).1.value is Ok
            &&& forall|i: int|
                0 <= i < state.document_facts.listing().len() ==> {
                    let row = #[trigger] state.document_facts.listing()[i];
                    let facts = row.1.value->Ok_0;
                    &&& row.1.value is Ok && facts.file_path@ == row.0@
                    &&& state.files@.dom().contains(row.0@)
                    &&& state.files@[row.0@].value->Ok_0.blake3_hash@ == facts.file_hash@
                }
        },
{
    let rows = state.document_facts.listing();
    let files = records_of(state.files@);
    let facts = decoded_facts(rows);
    lemma_row_fault_exact(state.files.listing(), 0);
    lemma_fact_fault_exact(rows, 0);
    lemma_backing_fault_from(files, facts, 0);
    assert forall|i: int| 0 <= i < rows.len() implies (#[trigger] facts[i])
        == rows[i].1.value->Ok_0.deep_view() by {}
    assert forall|i: int| 0 <= i < rows.len() implies (is_backed(files, facts[i].path, facts[i].hash)
        <==> state.files@.dom().contains(facts[i].path)
        && state.files@[facts[i].path].value->Ok_0.blake3_hash@ == facts[i].hash) by {
        assert(facts[i] == rows[i].1.value->Ok_0.deep_view());
    }
    if content_fault(state) is None {
        assert forall|i: int| 0 <= i < rows.len() implies {
            let row = #[trigger] rows[i];
            let facts = row.1.value->Ok_0;
            &&& row.1.value is Ok && facts.file_path@ == row.0@
            &&& state.files@.dom().contains(row.0@)
            &&& state.files@[row.0@].value->Ok_0.blake3_hash@ == facts.file_hash@
        } by {
            assert(facts_are_in_place(rows[i]));
            assert(is_backed(files, facts[i].path, facts[i].hash));
        }
    }
    if (state.metadata@.dom().contains("metadata"@) ==> state.metadata@["metadata"@].value is Ok)
        && (forall|i: int|
        0 <= i < state.files.listing().len() ==> (
        #[trigger] state.files.listing()[i]).1.value is Ok) && (forall|i: int|
        0 <= i < rows.len() ==> {
            let row = #[trigger] rows[i];
            let facts = row.1.value->Ok_0;
            &&& row.1.value is Ok && facts.file_path@ == row.0@
            &&& state.files@.dom().contains(row.0@)
            &&& state.files@[row.0@].value->Ok_0.blake3_hash@ == facts.file_hash@
        }) {
        assert forall|i: int| 0 <= i < rows.len() implies facts_are_in_place(
            #[trigger] rows[i],
        ) by {}
        assert forall|j: int| 0 <= j < facts.len() implies is_backed(
            files,
            (#[trigger] facts[j]).path,
            facts[j].hash,
        ) by {
            assert(facts_are_in_place(rows[j]));
            assert(facts[j] == rows[j].1.value->Ok_0.deep_view());
        }
    }
}

/// Of the facts with a path, those at position `i` are the last.
pub open spec fn are_last_facts(facts: Seq<EncodedFacts>, i: int) -> bool {
    &&& 0 <= i < facts.len()
    &&& forall|j: int| i < j < facts.len() ==> (#[trigger] facts[j]).facts.file_path@
        != facts[i].facts.file_path@
}

/// Of the records with a path, the one at position `i` is the last.
pub open spec fn is_last_file(files: Seq<EncodedFile>, i: int) -> bool {
    &&& 0 <= i < files.len()
    &&& forall|j: int| i < j < files.len() ==> (#[trigger] files[j]).path@ != files[i].path@
}

/// A replaced population of extraction results holds, under each path, the last facts given for
/// it with their encoding, and nothing under any other path.
pub proof fn law_last_facts_are_stored(facts: Seq<EncodedFacts>, i: int, path: Seq<char>)
    requires
        are_last_facts(facts, i),
    ensures
        ({
            let rows = fact_rows(facts);
            let own = facts[i].facts.file_path@;
            &&& rows.dom().contains(own)
            &&& rows[own].value == Ok::<ExtractorOutput, String>(facts[i].facts)
            &&& rows[own].bytes == facts[i].encoded->Ok_0
            &&& rows.dom().contains(path) <==> exists|j: int|
                0 <= j < facts.len() && (#[trigger] facts[j]).facts.file_path@ == path
        }),
    decreases facts.len(),
{
    lemma_fact_paths(facts, path);
    let front = facts.drop_last();
    assert(facts.last() == facts[facts.len() - 1]);
    if i < facts.len() - 1 {
        assert(front[i] == facts[i]);
        assert forall|j: int| i < j < front.len() implies (#[trigger] front[j]).facts.file_path@
            != front[i].facts.file_path@ by {
            assert(front[j] == facts[j]);
        }
        law_last_facts_are_stored(front, i, path);
        assert(facts[facts.len() - 1].facts.file_path@ != facts[i].facts.file_path@);
    }
}

proof fn lemma_fact_paths(facts: Seq<EncodedFacts>, path: Seq<char>)
    ensures
        fact_rows(facts).dom().contains(path) <==> exists|j: int|
            0 <= j < facts.len() && (#[trigger] facts[j]).facts.file_path@ == path,
    decreases facts.len(),
{
    if facts.len() > 0 {
        let front = facts.drop_last();
        lemma_fact_paths(front, path);
        assert(facts.last() == facts[facts.len() - 1]);
        assert forall|j: int| 0 <= j < front.len() implies front[j] == facts[j] by {}
        if fact_rows(front).dom().contains(path) {
            let j = choose|j: int|
                0 <= j < front.len() && (#[trigger] front[j]).facts.file_path@ == path;
            assert(facts[j].facts.file_path@ == path);
        }
        if exists|j: int| 0 <= j < facts.len() && (#[trigger] facts[j]).facts.file_path@ == path {
            let j = choose|j: int|
                0 <= j < facts.len() && (#[trigger] facts[j]).facts.file_path@ == path;
            if j < front.len() {
                assert(front[j].facts.file_path@ == path);
            }
        }
    }
}

proof fn lemma_file_paths(files: Seq<EncodedFile>, path: Seq<char>)
    ensures
        file_rows(files).dom().contains(path) <==> exists|j: int|
            0 <= j < files.len() && (#[trigger] files[j]).path@ == path,
        listed_records(files).dom().contains(path) <==> exists|j: int|
            0 <= j < files.len() && (#[trigger] files[j]).path@ == path,
    decreases files.len(),
{
    if files.len() > 0 {
        let front = files.drop_last();
        lemma_file_paths(front, path);
        assert(files.last() == files[files.len() - 1]);
        assert forall|j: int| 0 <= j < front.len() implies front[j] == files[j] by {}
        if file_rows(front).dom().contains(path) {
            let j = choose|j: int| 0 <= j < front.len() && (#[trigger] front[j]).path@ == path;
            assert(files[j].path@ == path);
        }
        if exists|j: int| 0 <= j < files.len() && (#[trigger] files[j]).path@ == path {
            let j = choose|j: int| 0 <= j < files.len() && (#[trigger] files[j]).path@ == path;
            if j < front.len() {
                assert(front[j].path@ == path);
            }
        }
    }
}

/// Replaced records are stored under the path that each is given with, and nothing under any
/// other path; the facts are held to the same records.
pub proof fn law_last_records_are_stored(files: Seq<EncodedFile>, i: int, path: Seq<char>)
    requires
        is_last_file(files, i),
    ensures
        ({
            let rows = file_rows(files);
            let own = files[i].path@;
            &&& rows.dom().contains(own)
            &&& rows[own].value == Ok::<FileRecord, String>(files[i].record)
            &&& rows[own].bytes == files[i].encoded->Ok_0
            &&& listed_records(files)[own] == files[i].record.deep_view()
            &&& rows.dom().contains(path) <==> exists|j: int|
                0 <= j < files.len() && (#[trigger] files[j]).path@ == path
            &&& listed_records(files).dom().contains(path) <==> rows.dom().contains(path)
        }),
    decreases files.len(),
{
    lemma_file_paths(files, path);
    let front = files.drop_last();
    assert(files.last() == files[files.len() - 1]);
    if i < files.len() - 1 {
        assert(front[i] == files[i]);
        assert forall|j: int| i < j < front.len() implies (#[trigger] front[j]).path@
            != front[i].path@ by {
            assert(front[j] == files[j]);
        }
        law_last_records_are_stored(front, i, path);
        assert(files[files.len() - 1].path@ != files[i].path@);
    }
}

proof fn lemma_repeated_exact(files: Seq<EncodedFile>, i: int)
    requires
        0 <= i <= files.len(),
    ensures
        repeated_file(files, i) is None <==> forall|j: int|
            i <= j < files.len() ==> !path_taken(files, j, (#[trigger] files[j]).path@),
    decreases files.len() - i,
{
    if i < files.len() {
        lemma_repeated_exact(files, i + 1);
    }
}

proof fn lemma_listed_exact(
    files: Map<Seq<char>, RecordModel>,
    facts: Seq<EncodedFacts>,
    i: int,
)
    requires
        0 <= i <= facts.len(),
    ensures
        listed_fact_fault(files, facts, i) is None <==> forall|j: int|
            i <= j < facts.len() ==> !facts_taken(facts, j, (#[trigger] facts[j]).facts.file_path@)
                && is_backed(files, facts[j].facts.file_path@, facts[j].facts.file_hash@)
                && facts[j].encoded is Ok,
    decreases facts.len() - i,
{
    if i < facts.len() {
        lemma_listed_exact(files, facts, i + 1);
    }
}

proof fn lemma_encoding_exact(files: Seq<EncodedFile>, i: int)
    requires
        0 <= i <= files.len(),
    ensures
        file_encoding_fault(files, i) is None <==> forall|j: int|
            i <= j < files.len() ==> (#[trigger] files[j]).encoded is Ok,
    decreases files.len() - i,
{
    if i < files.len() {
        lemma_encoding_exact(files, i + 1);
    }
}

proof fn lemma_distinct_files(files: Seq<EncodedFile>)
    ensures
        (forall|j: int|
            0 <= j < files.len() ==> !path_taken(files, j, (#[trigger] files[j]).path@))
            <==> (forall|i: int, j: int|
            0 <= i < j < files.len() ==> (#[trigger] files[i]).path@ != (
            #[trigger] files[j]).path@),
{
    if forall|j: int| 0 <= j < files.len() ==> !path_taken(files, j, (#[trigger] files[j]).path@) {
        assert forall|i: int, j: int| 0 <= i < j < files.len() implies (#[trigger] files[i]).path@
            != (#[trigger] files[j]).path@ by {
            assert(!path_taken(files, j, files[j].path@));
        }
    }
}

proof fn lemma_distinct_facts(facts: Seq<EncodedFacts>)
    ensures
        (forall|j: int|
            0 <= j < facts.len() ==> !facts_taken(facts, j, (#[trigger] facts[j]).facts.file_path@))
            <==> (forall|i: int, j: int|
            0 <= i < j < facts.len() ==> (#[trigger] facts[i]).facts.file_path@ != (
            #[trigger] facts[j]).facts.file_path@),
{
    if forall|j: int|
        0 <= j < facts.len() ==> !facts_taken(
            facts,
            j,
            (#[trigger] facts[j]).facts.file_path@,
        ) {
        assert forall|i: int, j: int| 0 <= i < j < facts.len() implies (
        #[trigger] facts[i]).facts.file_path@ != (#[trigger] facts[j]).facts.file_path@ by {
            assert(!facts_taken(facts, j, facts[j].facts.file_path@));
        }
    }
}

/// Some record of the list has the path and the digest of these facts.
pub open spec fn backs(files: Seq<EncodedFile>, facts: ExtractorOutput) -> bool {
    exists|k: int|
        0 <= k < files.len() && (#[trigger] files[k]).path@ == facts.file_path@
            && files[k].record.blake3_hash@ == facts.file_hash@
}

proof fn lemma_backs(files: Seq<EncodedFile>, facts: ExtractorOutput)
    requires
        forall|i: int, j: int|
            0 <= i < j < files.len() ==> (#[trigger] files[i]).path@ != (
            #[trigger] files[j]).path@,
    ensures
        is_backed(listed_records(files), facts.file_path@, facts.file_hash@) <==> backs(
            files,
            facts,
        ),
{
    let records = listed_records(files);
    let path = facts.file_path@;
    lemma_file_paths(files, path);
    if records.dom().contains(path) {
        let k = choose|k: int| 0 <= k < files.len() && (#[trigger] files[k]).path@ == path;
        law_last_records_are_stored(files, k, path);
        assert(records[path] == files[k].record.deep_view());
        if backs(files, facts) {
            let m = choose|m: int|
                0 <= m < files.len() && (#[trigger] files[m]).path@ == facts.file_path@
                    && files[m].record.blake3_hash@ == facts.file_hash@;
            assert(m == k) by {
                if m < k {
                    assert(files[m].path@ != files[k].path@);
                } else if k < m {
                    assert(files[k].path@ != files[m].path@);
                }
            }
        }
    } else if backs(files, facts) {
        let m = choose|m: int|
            0 <= m < files.len() && (#[trigger] files[m]).path@ == facts.file_path@
                && files[m].record.blake3_hash@ == facts.file_hash@;
        assert(files[m].path@ == path);
    }
}

/// A complete source state is accepted exactly if no two records and no two extraction results
/// share a path, every result has a record of its path and digest, and everything was encoded.
/// Records without results are accepted.
pub proof fn law_source_state_is_accepted_exactly(
    files: Seq<EncodedFile>,
    facts: Seq<EncodedFacts>,
)
    ensures
        source_state_fault(files, facts) is None <==> {
            &&& forall|i: int, j: int|
                0 <= i < j < files.len() ==> (#[trigger] files[i]).path@ != (
                #[trigger] files[j]).path@
            &&& forall|i: int, j: int|
                0 <= i < j < facts.len() ==> (#[trigger] facts[i]).facts.file_path@ != (
                #[trigger] facts[j]).facts.file_path@
            &&& forall|i: int| 0 <= i < facts.len() ==> backs(files, (#[trigger] facts[i]).facts)
            &&& forall|i: int| 0 <= i < facts.len() ==> (#[trigger] facts[i]).encoded is Ok
            &&& forall|i: int| 0 <= i < files.len() ==> (#[trigger] files[i]).encoded is Ok
        },
{
    let records = listed_records(files);
    lemma_repeated_exact(files, 0);
    lemma_listed_exact(records, facts, 0);
    lemma_encoding_exact(files, 0);
    lemma_distinct_files(files);
    lemma_distinct_facts(facts);
    if repeated_file(files, 0) is None {
        assert forall|i: int| 0 <= i < facts.len() implies (is_backed(
            records,
            (#[trigger] facts[i]).facts.file_path@,
            facts[i].facts.file_hash@,
        ) <==> backs(files, facts[i].facts)) by {
            lemma_backs(files, facts[i].facts);
        }
    }
}

/// The proof of a state counts the rows of each population, and the three populations are
/// digested under three different domains.
pub proof fn law_proof_counts_the_rows(state: IndexState)
    requires
        state.metadata.listing().len() <= u64::MAX,
        state.files.listing().len() <= u64::MAX,
        state.document_facts.listing().len() <= u64::MAX,
    ensures
        state_proof(state).metadata.records == state.metadata.listing().len(),
        state_proof(state).files.records == state.files.listing().len(),
        state_proof(state).facts.records == state.document_facts.listing().len(),
        metadata_domain() != files_domain(),
        files_domain() != facts_domain(),
        metadata_domain() != facts_domain(),
{
    reveal_strlit("h00/index-state/metadata/v1\0");
    reveal_strlit("h00/index-state/files/v1\0");
    reveal_strlit("h00/index-state/document-facts/v2\0");
    vstd::utf8::encode_utf8_decode_utf8("h00/index-state/metadata/v1\0"@);
    vstd::utf8::encode_utf8_decode_utf8("h00/index-state/files/v1\0"@);
    vstd::utf8::encode_utf8_decode_utf8("h00/index-state/document-facts/v2\0"@);
    assert("h00/index-state/metadata/v1\0"@[16] == 'm');
    assert("h00/index-state/files/v1\0"@[16] == 'f');
    assert("h00/index-state/document-facts/v2\0"@[16] == 'd');
}

/// What is read of a state is what it holds, whole: every record under its path and every
/// extraction result, in the order of their keys, as the basis of a later run and as the source
/// authority alike; and the proof is the proof of that state.
pub proof fn law_content_is_what_the_state_holds(
    content: ValidatedIndexStateContent,
    state: IndexState,
    i: int,
    j: int,
)
    requires
        is_content_of(content, state),
        0 <= i < state.files.listing().len(),
        0 <= j < state.document_facts.listing().len(),
    ensures
        ({
            let files = state.files.listing();
            let facts = state.document_facts.listing();
            &&& content.proof.deep_view() == state_proof(state)
            &&& content.basis.files.deep_view().len() == files.len()
            &&& content.basis.files.deep_view()[i] == (
                files[i].0@,
                files[i].1.value->Ok_0.deep_view(),
            )
            &&& content.indexed_sources.records() == content.basis.files.deep_view()
            &&& content.basis.document_facts.deep_view().len() == facts.len()
            &&& content.basis.document_facts.deep_view()[j]
                == facts[j].1.value->Ok_0.deep_view()
            &&& content.indexed_sources.fact_paths().contains(
                facts[j].1.value->Ok_0.file_path@,
            )
            &&& content.metadata is Some <==> state.metadata@.dom().contains("metadata"@)
            &&& content.metadata is Some ==> content.metadata->0.deep_view()
                == state.metadata@["metadata"@].value->Ok_0.deep_view()
        }),
{
    let decoded = decoded_facts(state.document_facts.listing());
    assert(decoded[j].path == state.document_facts.listing()[j].1.value->Ok_0.file_path@);
}

/// A path is among those of some facts exactly if one of them carries it.
pub proof fn law_fact_paths_are_those_of_the_facts(
    facts: Seq<FactsModel>,
    more: FactsModel,
    path: Seq<char>,
)
    ensures
        !paths_of(Seq::empty()).contains(path),
        paths_of(facts.push(more)).contains(path) <==> paths_of(facts).contains(path) || more.path
            == path,
{
    let all = facts.push(more);
    assert(all[facts.len() as int] == more);
    if paths_of(facts).contains(path) {
        let i = choose|i: int| 0 <= i < facts.len() && (#[trigger] facts[i]).path == path;
        assert(all[i] == facts[i]);
    }
    if paths_of(all).contains(path) && more.path != path {
        let i = choose|i: int| 0 <= i < all.len() && (#[trigger] all[i]).path == path;
        assert(facts[i] == all[i]);
    }
}

/// Opening a table loses nothing: the rows that it held are the rows of the state, and a missing
/// table is an empty one.
pub proof fn law_opened_table_keeps_its_rows<T>(
    rows: StringMap<Row<T>>,
    held: StringMap<Row<T>>,
    path: Seq<char>,
)
    ensures
        is_opened(rows, Some(held)) ==> rows == held,
        is_opened(rows, None) ==> !rows@.dom().contains(path),
{
}

} // verus!
