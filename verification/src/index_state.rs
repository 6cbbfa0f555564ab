//! Per-file content tracking: what was indexed, and what a later run may reuse.

use vstd::prelude::*;

use crate::digest;
use crate::values::Value;

verus! {

pub const INDEX_STATE_PUBLICATION_PROOF_SCHEMA: &'static str =
    "h00/index-state-publication-proof/v1";

/// Errors of the index state.
#[derive(Debug, Clone, PartialEq, Eq)]
pub enum IndexStateError {
    Redb(String),
    Serialization(String),
    ReadOnly,
    ContentProof(String),
}

/// An error as plain text.
pub enum StateFailure {
    Redb(Seq<char>),
    Serialization(Seq<char>),
    ReadOnly,
    ContentProof(Seq<char>),
}

impl DeepView for IndexStateError {
    type V = StateFailure;

    open spec fn deep_view(&self) -> StateFailure {
        match self {
            IndexStateError::Redb(e) => StateFailure::Redb(e@),
            IndexStateError::Serialization(e) => StateFailure::Serialization(e@),
            IndexStateError::ReadOnly => StateFailure::ReadOnly,
            IndexStateError::ContentProof(e) => StateFailure::ContentProof(e@),
        }
    }
}

impl StateFailure {
    pub open spec fn words(self) -> Seq<char> {
        match self {
            StateFailure::Redb(e) => "redb error: "@ + e,
            StateFailure::Serialization(e) => "serialization error: "@ + e,
            StateFailure::ReadOnly => "index state was opened read-only"@,
            StateFailure::ContentProof(e) => "index-state content proof mismatch: "@ + e,
        }
    }
}

impl IndexStateError {
    /// The error in words.
    pub fn message(&self) -> (r: String)
        ensures
            r@ == self.deep_view().words(),
    {
        match self {
            IndexStateError::Redb(e) => {
                let mut r = "redb error: ".to_owned();
                r.append(e.as_str());
                r
            },
            IndexStateError::Serialization(e) => {
                let mut r = "serialization error: ".to_owned();
                r.append(e.as_str());
                r
            },
            IndexStateError::ReadOnly => "index state was opened read-only".to_owned(),
            IndexStateError::ContentProof(e) => {
                let mut r = "index-state content proof mismatch: ".to_owned();
                r.append(e.as_str());
                r
            },
        }
    }
}

/// Repository-level metadata of the index.
#[derive(Debug, Clone, PartialEq, Eq)]
pub struct IndexMetadata {
    /// Absolute path of the repository root that was indexed.
    pub repo_root: String,
    /// Time (epoch milliseconds) of the last full scan.
    pub last_full_scan: Option<i64>,
    /// Time (epoch milliseconds) of the last update of either kind.
    pub last_update: Option<i64>,
    pub git_head: Option<String>,
    pub total_files: u64,
    pub total_symbols: u64,
    pub total_edges: u64,
}

pub struct MetadataModel {
    pub repo_root: Seq<char>,
    pub last_full_scan: Option<i64>,
    pub last_update: Option<i64>,
    pub git_head: Option<Seq<char>>,
    pub total_files: u64,
    pub total_symbols: u64,
    pub total_edges: u64,
}

impl DeepView for IndexMetadata {
    type V = MetadataModel;

    open spec fn deep_view(&self) -> MetadataModel {
        MetadataModel {
            repo_root: self.repo_root@,
            last_full_scan: self.last_full_scan,
            last_update: self.last_update,
            git_head: self.git_head.deep_view(),
            total_files: self.total_files,
            total_symbols: self.total_symbols,
            total_edges: self.total_edges,
        }
    }
}

impl Value for IndexMetadata {
    fn copy(&self) -> (r: Self) {
        IndexMetadata {
            repo_root: self.repo_root.clone(),
            last_full_scan: self.last_full_scan,
            last_update: self.last_update,
            git_head: self.git_head.copy(),
            total_files: self.total_files,
            total_symbols: self.total_symbols,
            total_edges: self.total_edges,
        }
    }

    fn same(&self, other: &Self) -> (r: bool) {
        self.repo_root.same(&other.repo_root) && self.last_full_scan == other.last_full_scan
            && self.last_update == other.last_update && self.git_head.same(&other.git_head)
            && self.total_files == other.total_files && self.total_symbols == other.total_symbols
            && self.total_edges == other.total_edges
    }
}

/// Per-file index record.
#[derive(Debug, PartialEq, Eq)]
pub struct FileRecord {
    /// BLAKE3 content digest of the file.
    pub blake3_hash: String,
    /// Time (epoch milliseconds) when the file was last indexed.
    pub last_indexed: i64,
    /// Number of symbols extracted from the file.
    pub symbol_count: u32,
    /// Language of the file.
    pub language: String,
}

impl Clone for FileRecord {
    fn clone(&self) -> (r: Self)
        ensures
            r == *self,
    {
        FileRecord {
            blake3_hash: self.blake3_hash.clone(),
            last_indexed: self.last_indexed,
            symbol_count: self.symbol_count,
            language: self.language.clone(),
        }
    }
}

impl Value for FileRecord {
    fn copy(&self) -> (r: Self) {
        self.clone()
    }

    fn same(&self, other: &Self) -> (r: bool) {
        self.blake3_hash.same(&other.blake3_hash) && self.last_indexed == other.last_indexed
            && self.symbol_count == other.symbol_count && self.language.same(&other.language)
    }
}

pub struct RecordModel {
    pub hash: Seq<char>,
    pub last_indexed: i64,
    pub symbol_count: u32,
    pub language: Seq<char>,
}

impl DeepView for FileRecord {
    type V = RecordModel;

    open spec fn deep_view(&self) -> RecordModel {
        RecordModel {
            hash: self.blake3_hash@,
            last_indexed: self.last_indexed,
            symbol_count: self.symbol_count,
            language: self.language@,
        }
    }
}

/// A declaration shape that extraction saw and could not represent.
#[derive(Debug, Clone, PartialEq, Eq)]
pub struct CaptureGap {
    pub kind: String,
}

impl DeepView for CaptureGap {
    type V = Seq<char>;

    open spec fn deep_view(&self) -> Seq<char> {
        self.kind@
    }
}

impl Value for CaptureGap {
    fn copy(&self) -> (r: Self) {
        CaptureGap { kind: self.kind.copy() }
    }

    fn same(&self, other: &Self) -> (r: bool) {
        self.kind.same(&other.kind)
    }
}

/// A symbol that extraction found.
#[derive(Debug, Clone, PartialEq, Eq)]
pub struct ExtractedSymbol {
    pub name: String,
    pub kind: String,
}

impl DeepView for ExtractedSymbol {
    type V = (Seq<char>, Seq<char>);

    open spec fn deep_view(&self) -> (Seq<char>, Seq<char>) {
        (self.name@, self.kind@)
    }
}

impl Value for ExtractedSymbol {
    fn copy(&self) -> (r: Self) {
        ExtractedSymbol { name: self.name.copy(), kind: self.kind.copy() }
    }

    fn same(&self, other: &Self) -> (r: bool) {
        self.name.same(&other.name) && self.kind.same(&other.kind)
    }
}

/// The extraction result of one document.
#[derive(Debug, Clone, PartialEq, Eq)]
pub struct ExtractorOutput {
    pub file_path: String,
    pub file_hash: String,
    /// Digest of what other documents can see of this one.
    pub cross_document_surface_sha256: String,
    pub symbols: Vec<ExtractedSymbol>,
    pub capture_gaps: Vec<CaptureGap>,
    /// Extraction met items that it did not capture.
    pub uncaptured_items: bool,
}

pub struct FactsModel {
    pub path: Seq<char>,
    pub hash: Seq<char>,
    pub surface: Seq<char>,
    pub symbols: Seq<(Seq<char>, Seq<char>)>,
    pub gaps: Seq<Seq<char>>,
    pub uncaptured: bool,
}

impl DeepView for ExtractorOutput {
    type V = FactsModel;

    open spec fn deep_view(&self) -> FactsModel {
        FactsModel {
            path: self.file_path@,
            hash: self.file_hash@,
            surface: self.cross_document_surface_sha256@,
            symbols: self.symbols.deep_view(),
            gaps: self.capture_gaps.deep_view(),
            uncaptured: self.uncaptured_items,
        }
    }
}

impl Value for ExtractorOutput {
    fn copy(&self) -> (r: Self) {
        ExtractorOutput {
            file_path: self.file_path.copy(),
            file_hash: self.file_hash.copy(),
            cross_document_surface_sha256: self.cross_document_surface_sha256.copy(),
            symbols: self.symbols.copy(),
            capture_gaps: self.capture_gaps.copy(),
            uncaptured_items: self.uncaptured_items,
        }
    }

    fn same(&self, other: &Self) -> (r: bool) {
        self.file_path.same(&other.file_path) && self.file_hash.same(&other.file_hash)
            && self.cross_document_surface_sha256.same(&other.cross_document_surface_sha256)
            && self.symbols.same(&other.symbols) && self.capture_gaps.same(&other.capture_gaps)
            && self.uncaptured_items == other.uncaptured_items
    }
}

impl ExtractorOutput {
    pub fn has_uncaptured_items(&self) -> (r: bool)
        ensures
            r == self.uncaptured_items,
    {
        self.uncaptured_items
    }
}

/// Digest and size of one persisted population.
#[derive(Debug, Clone, PartialEq, Eq)]
pub struct IndexStatePopulationProof {
    pub blake3: String,
    pub records: u64,
    pub bytes: u64,
}

pub struct PopulationModel {
    pub blake3: Seq<char>,
    pub records: u64,
    pub bytes: u64,
}

impl DeepView for IndexStatePopulationProof {
    type V = PopulationModel;

    open spec fn deep_view(&self) -> PopulationModel {
        PopulationModel { blake3: self.blake3@, records: self.records, bytes: self.bytes }
    }
}

impl Value for IndexStatePopulationProof {
    fn copy(&self) -> (r: Self) {
        IndexStatePopulationProof {
            blake3: self.blake3.copy(),
            records: self.records,
            bytes: self.bytes,
        }
    }

    fn same(&self, other: &Self) -> (r: bool) {
        self.blake3.same(&other.blake3) && self.records == other.records && self.bytes
            == other.bytes
    }
}

/// Proof of every source population that may seed a later generation.
#[derive(Debug, Clone, PartialEq, Eq)]
pub struct IndexStatePublicationProof {
    pub schema_version: String,
    pub metadata: IndexStatePopulationProof,
    pub files: IndexStatePopulationProof,
    pub document_facts: IndexStatePopulationProof,
}

pub struct StateProofModel {
    pub schema: Seq<char>,
    pub metadata: PopulationModel,
    pub files: PopulationModel,
    pub facts: PopulationModel,
}

impl DeepView for IndexStatePublicationProof {
    type V = StateProofModel;

    open spec fn deep_view(&self) -> StateProofModel {
        StateProofModel {
            schema: self.schema_version@,
            metadata: self.metadata.deep_view(),
            files: self.files.deep_view(),
            facts: self.document_facts.deep_view(),
        }
    }
}

impl Value for IndexStatePublicationProof {
    fn copy(&self) -> (r: Self) {
        IndexStatePublicationProof {
            schema_version: self.schema_version.copy(),
            metadata: self.metadata.copy(),
            files: self.files.copy(),
            document_facts: self.document_facts.copy(),
        }
    }

    fn same(&self, other: &Self) -> (r: bool) {
        self.schema_version.same(&other.schema_version) && self.metadata.same(&other.metadata)
            && self.files.same(&other.files) && self.document_facts.same(&other.document_facts)
    }
}

impl IndexStatePublicationProof {
    /// A proof of three empty populations.
    pub fn test_fixture() -> (r: Self)
        ensures
            r.schema_version@ == INDEX_STATE_PUBLICATION_PROOF_SCHEMA@,
            r.metadata.blake3@ == Seq::new(64, |i: int| '0'),
            r.metadata.records == 0,
            r.metadata.bytes == 0,
            r.files.deep_view() == r.metadata.deep_view(),
            r.document_facts.deep_view() == r.metadata.deep_view(),
    {
        let mut zeros = String::new();
        for i in 0..64usize
            invariant
                zeros@ == Seq::new(i as nat, |k: int| '0'),
        {
            zeros.push('0');
            assert(zeros@ =~= Seq::new((i + 1) as nat, |k: int| '0'));
        }
        let empty = IndexStatePopulationProof { blake3: zeros, records: 0, bytes: 0 };
        IndexStatePublicationProof {
            schema_version: INDEX_STATE_PUBLICATION_PROOF_SCHEMA.to_owned(),
            metadata: empty.copy(),
            files: empty.copy(),
            document_facts: empty,
        }
    }
}

/// The length-framed bytes of one string or byte value.
pub open spec fn framed(bytes: Seq<u8>) -> Seq<u8> {
    vstd::bytes::spec_u64_to_le_bytes(bytes.len() as u64) + bytes
}

/// The framed bytes of a population, key before value, in order.
pub open spec fn population_bytes(entries: Seq<(Seq<char>, Seq<u8>)>) -> Seq<u8>
    decreases entries.len(),
{
    if entries.len() == 0 {
        Seq::empty()
    } else {
        population_bytes(entries.drop_last()) + framed(
            vstd::utf8::encode_utf8(entries.last().0),
        ) + framed(entries.last().1)
    }
}

/// The size of a population, keys and values together, as far as 64 bits go.
pub open spec fn population_size(entries: Seq<(Seq<char>, Seq<u8>)>) -> int
    decreases entries.len(),
{
    if entries.len() == 0 {
        0
    } else {
        let size = population_size(entries.drop_last()) + vstd::utf8::encode_utf8(
            entries.last().0,
        ).len() + entries.last().1.len();
        if size <= u64::MAX {
            size
        } else {
            u64::MAX as int
        }
    }
}

/// The proof of a population under a domain.
pub open spec fn population_of(
    domain: Seq<u8>,
    entries: Seq<(Seq<char>, Seq<u8>)>,
) -> PopulationModel {
    PopulationModel {
        blake3: digest::content_digest(domain + population_bytes(entries)),
        records: entries.len() as u64,
        bytes: population_size(entries) as u64,
    }
}

fn push_frame(bytes: &mut Vec<u8>, value: &[u8])
    ensures
        final(bytes)@ == old(bytes)@ + framed(value@),
{
    let length = vstd::bytes::u64_to_le_bytes(value.len() as u64);
    let ghost before = bytes@;
    digest::extend(bytes, length.as_slice());
    digest::extend(bytes, value);
    assert(bytes@ =~= before + framed(value@));
}

/// Proves a population: a digest of its framed entries, their number and their size.
pub fn population_proof(domain: &[u8], entries: &Vec<(String, Vec<u8>)>) -> (r:
    IndexStatePopulationProof)
    ensures
        r.deep_view() == population_of(domain@, entries.deep_view()),
{
    let mut framed_bytes: Vec<u8> = Vec::new();
    digest::extend(&mut framed_bytes, domain);
    assert(framed_bytes@ =~= domain@ + population_bytes(entries.deep_view().take(0)));
    let mut bytes: u64 = 0;
    for i in 0..entries.len()
        invariant
            framed_bytes@ == domain@ + population_bytes(entries.deep_view().take(i as int)),
            bytes == population_size(entries.deep_view().take(i as int)),
    {
        let key = entries[i].0.as_str().as_bytes();
        let value = entries[i].1.as_slice();
        proof {
            let next = entries.deep_view().take(i + 1);
            assert(next.drop_last() =~= entries.deep_view().take(i as int));
            assert(next.last().0 == entries@[i as int].0@);
            assert(next.last().1 =~= value@);
        }
        let ghost before = framed_bytes@;
        push_frame(&mut framed_bytes, key);
        push_frame(&mut framed_bytes, value);
        assert(framed_bytes@ =~= domain@ + population_bytes(entries.deep_view().take(i + 1)));
        bytes = bytes.saturating_add(key.len() as u64);
        bytes = bytes.saturating_add(value.len() as u64);
    }
    assert(entries.deep_view().take(entries.deep_view().len() as int) =~= entries.deep_view());
    IndexStatePopulationProof {
        blake3: digest::content_hash(framed_bytes.as_slice()),
        records: entries.len() as u64,
        bytes,
    }
}

/// Both lengths of an entry fit into their frames.
pub open spec fn frames_fit(entry: (Seq<char>, Seq<u8>)) -> bool {
    vstd::utf8::encode_utf8(entry.0).len() <= u64::MAX && entry.1.len() <= u64::MAX
}

proof fn lemma_population_front(entries: Seq<(Seq<char>, Seq<u8>)>)
    requires
        entries.len() > 0,
    ensures
        population_bytes(entries) == framed(vstd::utf8::encode_utf8(entries[0].0)) + framed(
            entries[0].1,
        ) + population_bytes(entries.skip(1)),
    decreases entries.len(),
{
    let head = framed(vstd::utf8::encode_utf8(entries[0].0)) + framed(entries[0].1);
    if entries.len() == 1 {
        assert(entries.drop_last() =~= Seq::empty());
        assert(entries.skip(1) =~= Seq::empty());
        assert(population_bytes(entries) =~= head + population_bytes(entries.skip(1)));
    } else {
        lemma_population_front(entries.drop_last());
        assert(entries.skip(1).drop_last() =~= entries.drop_last().skip(1));
        assert(entries.drop_last()[0] == entries[0]);
        assert(entries.skip(1).last() == entries.last());
        assert(population_bytes(entries) =~= head + population_bytes(entries.skip(1)));
    }
}

proof fn lemma_frame_front(x: Seq<u8>, y: Seq<u8>, p: Seq<u8>, q: Seq<u8>)
    requires
        framed(x) + p == framed(y) + q,
        x.len() <= u64::MAX,
        y.len() <= u64::MAX,
    ensures
        x == y,
        p == q,
{
    vstd::bytes::lemma_auto_spec_u64_to_from_le_bytes();
    let lx = vstd::bytes::spec_u64_to_le_bytes(x.len() as u64);
    let ly = vstd::bytes::spec_u64_to_le_bytes(y.len() as u64);
    assert(lx.len() == 8 && ly.len() == 8);
    let all = framed(x) + p;
    assert(all.take(8) =~= lx);
    assert((framed(y) + q).take(8) =~= ly);
    assert(lx == ly);
    assert(vstd::bytes::spec_u64_from_le_bytes(lx) == x.len() as u64);
    assert(vstd::bytes::spec_u64_from_le_bytes(ly) == y.len() as u64);
    assert(x.len() == y.len());
    assert(all.subrange(8, 8 + x.len() as int) =~= x);
    assert((framed(y) + q).subrange(8, 8 + x.len() as int) =~= y);
    assert(all.skip(8 + x.len() as int) =~= p);
    assert((framed(y) + q).skip(8 + x.len() as int) =~= q);
}

/// Framing loses nothing: two populations with the same framed bytes are the same.
pub proof fn law_framing_is_injective(
    a: Seq<(Seq<char>, Seq<u8>)>,
    b: Seq<(Seq<char>, Seq<u8>)>,
)
    requires
        population_bytes(a) == population_bytes(b),
        forall|i: int| 0 <= i < a.len() ==> frames_fit(#[trigger] a[i]),
        forall|i: int| 0 <= i < b.len() ==> frames_fit(#[trigger] b[i]),
    ensures
        a == b,
    decreases a.len(),
{
    vstd::bytes::lemma_auto_spec_u64_to_from_le_bytes();
    if a.len() > 0 {
        lemma_population_front(a);
        assert(framed(vstd::utf8::encode_utf8(a[0].0)).len() >= 8);
        assert(population_bytes(a).len() >= 8);
    }
    if b.len() > 0 {
        lemma_population_front(b);
        assert(framed(vstd::utf8::encode_utf8(b[0].0)).len() >= 8);
        assert(population_bytes(b).len() >= 8);
    }
    if a.len() == 0 || b.len() == 0 {
        assert(a =~= b);
    } else {
        let ka = vstd::utf8::encode_utf8(a[0].0);
        let kb = vstd::utf8::encode_utf8(b[0].0);
        assert(frames_fit(a[0]) && frames_fit(b[0]));
        let ra = framed(a[0].1) + population_bytes(a.skip(1));
        let rb = framed(b[0].1) + population_bytes(b.skip(1));
        assert(population_bytes(a) =~= framed(ka) + ra);
        assert(population_bytes(b) =~= framed(kb) + rb);
        lemma_frame_front(ka, kb, ra, rb);
        lemma_frame_front(
            a[0].1,
            b[0].1,
            population_bytes(a.skip(1)),
            population_bytes(b.skip(1)),
        );
        vstd::utf8::encode_utf8_decode_utf8(a[0].0);
        vstd::utf8::encode_utf8_decode_utf8(b[0].0);
        assert forall|i: int| 0 <= i < a.skip(1).len() implies frames_fit(
            #[trigger] a.skip(1)[i],
        ) by {
            assert(frames_fit(a[i + 1]));
        }
        assert forall|i: int| 0 <= i < b.skip(1).len() implies frames_fit(
            #[trigger] b.skip(1)[i],
        ) by {
            assert(frames_fit(b[i + 1]));
        }
        law_framing_is_injective(a.skip(1), b.skip(1));
        assert(a =~= seq![a[0]] + a.skip(1));
        assert(b =~= seq![b[0]] + b.skip(1));
    }
}

/// The framed bytes and the size of two populations together come from those of each: nothing
/// stands between entries, and sizes add up as far as the counter goes.
pub proof fn law_populations_add_up(a: Seq<(Seq<char>, Seq<u8>)>, b: Seq<(Seq<char>, Seq<u8>)>)
    ensures
        population_bytes(a + b) == population_bytes(a) + population_bytes(b),
        0 <= population_size(a) <= u64::MAX,
        population_size(a + b) == if population_size(a) + population_size(b) <= u64::MAX {
            population_size(a) + population_size(b)
        } else {
            u64::MAX as int
        },
    decreases a.len() + b.len(),
{
    if b.len() == 0 {
        assert(a + b =~= a);
        assert(population_bytes(a) + population_bytes(b) =~= population_bytes(a));
        if a.len() > 0 {
            law_populations_add_up(a.drop_last(), b);
        }
    } else {
        law_populations_add_up(a, b.drop_last());
        law_populations_add_up(b.drop_last(), Seq::empty());
        assert((a + b).drop_last() =~= a + b.drop_last());
        assert((a + b).last() == b.last());
        assert(population_bytes(a + b) =~= population_bytes(a) + population_bytes(b));
    }
}

/// One entry is written as its key and then its value, each behind its own length, and it
/// measures what its key and its value measure.
pub proof fn law_entry_is_framed(key: Seq<char>, value: Seq<u8>)
    requires
        vstd::utf8::encode_utf8(key).len() + value.len() <= u64::MAX,
    ensures
        ({
            let name = vstd::utf8::encode_utf8(key);
            let entry = seq![(key, value)];
            &&& population_bytes(entry) == vstd::bytes::spec_u64_to_le_bytes(name.len() as u64)
                + name + vstd::bytes::spec_u64_to_le_bytes(value.len() as u64) + value
            &&& population_size(entry) == name.len() + value.len()
        }),
{
    let entry = seq![(key, value)];
    assert(entry.drop_last() =~= Seq::empty());
    assert(entry.last() == (key, value));
    assert(population_size(Seq::<(Seq<char>, Seq<u8>)>::empty()) == 0);
    assert(population_bytes(Seq::<(Seq<char>, Seq<u8>)>::empty()) == Seq::<u8>::empty());
    let name = vstd::utf8::encode_utf8(key);
    assert(population_bytes(entry) =~= vstd::bytes::spec_u64_to_le_bytes(name.len() as u64) + name
        + vstd::bytes::spec_u64_to_le_bytes(value.len() as u64) + value);
}

} // verus!
