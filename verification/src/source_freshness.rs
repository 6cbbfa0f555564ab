//! Freshness of a generation: its file records against the sources as they are now.
//!
//! Only bytes count. A file whose bytes changed is stale, whatever its times say, and a
//! population that cannot be checked is never called fresh.

use vstd::prelude::*;

use crate::digest;
use crate::index_state::{FileRecord, RecordModel};
use crate::index_tables;
use crate::index_tables::IndexState;
use crate::language;
use crate::ordered;
use crate::ordered::StringMap;
use crate::path;
use crate::sorting;
use crate::text;

verus! {

/// The largest population that is checked. Larger ones are never called fresh.
pub const MAX_STALENESS_FILES: usize = 50_000;

/// Why freshness is unknown.
#[derive(Debug, Clone, Copy, PartialEq, Eq, Structural)]
pub enum StalenessReason {
    /// The indexed or the live population is larger than [`MAX_STALENESS_FILES`].
    Truncated,
    /// There is no source to compare.
    NoSourceFound,
    /// The generation carries no readable per-file records.
    IndexedSourceSnapshotUnavailable,
    /// Discovery or hashing failed.
    SourceVerificationFailed,
    /// Some non-source input of a semantic provider cannot be observed again.
    ProviderSemanticInputsUnverifiable,
}

/// Freshness of the live inputs relative to one generation.
#[derive(Debug, Clone, Copy, PartialEq, Eq, Structural)]
pub enum StalenessVerdict {
    /// Population and bytes match.
    Fresh,
    /// At least one input differs.
    Stale,
    /// Freshness could not be determined.
    Unknown { reason: StalenessReason, files_checked: usize },
}

/// Why the comparison could not be made.
#[derive(Debug, Clone, PartialEq, Eq)]
pub enum IndexedSourceFreshnessError {
    InvalidRecord { path: String, reason: String },
    Discovery(String),
    EscapedRoot { path: String },
    Read { path: String, source: String },
}

/// A failed comparison as plain text.
pub enum FreshnessFailure {
    InvalidRecord { path: Seq<char>, reason: Seq<char> },
    Discovery(Seq<char>),
    EscapedRoot { path: Seq<char> },
    Read { path: Seq<char>, source: Seq<char> },
}

impl DeepView for IndexedSourceFreshnessError {
    type V = FreshnessFailure;

    open spec fn deep_view(&self) -> FreshnessFailure {
        match *self {
            IndexedSourceFreshnessError::InvalidRecord { path, reason } => {
                FreshnessFailure::InvalidRecord { path: path@, reason: reason@ }
            },
            IndexedSourceFreshnessError::Discovery(fault) => FreshnessFailure::Discovery(fault@),
            IndexedSourceFreshnessError::EscapedRoot { path } => FreshnessFailure::EscapedRoot {
                path: path@,
            },
            IndexedSourceFreshnessError::Read { path, source } => FreshnessFailure::Read {
                path: path@,
                source: source@,
            },
        }
    }
}

impl FreshnessFailure {
    pub open spec fn words(self) -> Seq<char> {
        match self {
            FreshnessFailure::InvalidRecord { path, reason } => {
                "indexed source record is invalid for "@ + path + ": "@ + reason
            },
            FreshnessFailure::Discovery(fault) => "source discovery failed: "@ + fault,
            FreshnessFailure::EscapedRoot { path } => {
                "indexed source path escaped the repository root: "@ + path
            },
            FreshnessFailure::Read { path, source } => {
                "read source file "@ + path + ": "@ + source
            },
        }
    }
}

impl IndexedSourceFreshnessError {
    /// The error in words.
    pub fn message(&self) -> (r: String)
        ensures
            r@ == self.deep_view().words(),
    {
        match self {
            IndexedSourceFreshnessError::InvalidRecord { path, reason } => {
                let mut words = "indexed source record is invalid for ".to_owned();
                words.append(path.as_str());
                words.append(": ");
                words.append(reason.as_str());
                words
            },
            IndexedSourceFreshnessError::Discovery(fault) => {
                let mut words = "source discovery failed: ".to_owned();
                words.append(fault.as_str());
                words
            },
            IndexedSourceFreshnessError::EscapedRoot { path } => {
                let mut words = "indexed source path escaped the repository root: ".to_owned();
                words.append(path.as_str());
                words
            },
            IndexedSourceFreshnessError::Read { path, source } => {
                let mut words = "read source file ".to_owned();
                words.append(path.as_str());
                words.append(": ");
                words.append(source.as_str());
                words
            },
        }
    }
}

/// Display age and drift of an index. Freshness never depends on either.
#[derive(Debug, Clone, Copy, PartialEq, Eq, Structural)]
pub struct IndexBaseline {
    /// Milliseconds since the epoch of the last update, or else of the last full scan.
    pub baseline: Option<u64>,
    /// The last update is later than the last full scan.
    pub incremental_drift: bool,
}

impl Default for IndexBaseline {
    fn default() -> (r: Self)
        ensures
            r.baseline is None,
            !r.incremental_drift,
    {
        IndexBaseline { baseline: None, incremental_drift: false }
    }
}

/// A time after the epoch; earlier ones are none.
pub open spec fn after_epoch(millis: i64) -> Option<u64> {
    if millis >= 0 {
        Some(millis as u64)
    } else {
        None
    }
}

/// The display age and drift that two recorded times give.
pub open spec fn baseline_of(last_update: Option<i64>, last_full_scan: Option<i64>) -> IndexBaseline {
    IndexBaseline {
        baseline: match last_update {
            Some(at) => after_epoch(at),
            None => match last_full_scan {
                Some(at) => after_epoch(at),
                None => None,
            },
        },
        incremental_drift: last_update is Some && last_full_scan is Some && last_update->0
            > last_full_scan->0,
    }
}

fn millis_after_epoch(millis: i64) -> (r: Option<u64>)
    ensures
        r == after_epoch(millis),
{
    if millis >= 0 {
        Some(millis as u64)
    } else {
        None
    }
}

/// Display age and drift of an open index state. A missing or undecodable metadata row
/// gives the default.
pub fn read_index_baseline_from_state(state: &IndexState) -> (r: IndexBaseline)
    ensures
        r == match index_tables::stored_metadata(*state) {
            Some(metadata) => if state.metadata@[index_tables::METADATA_KEY@].value is Ok {
                baseline_of(metadata.last_update, metadata.last_full_scan)
            } else {
                baseline_of(None, None)
            },
            None => baseline_of(None, None),
        },
{
    match state.get_metadata() {
        Ok(Some(metadata)) => {
            let at = match metadata.last_update {
                Some(at) => Some(at),
                None => metadata.last_full_scan,
            };
            let baseline = match at {
                Some(at) => millis_after_epoch(at),
                None => None,
            };
            let incremental_drift = match (metadata.last_update, metadata.last_full_scan) {
                (Some(update), Some(scan)) => update > scan,
                _ => false,
            };
            IndexBaseline { baseline, incremental_drift }
        },
        _ => IndexBaseline { baseline: None, incremental_drift: false },
    }
}

/// Why a record cannot be compared, if it cannot.
pub open spec fn record_fault(path: Seq<char>, record: RecordModel) -> Option<Seq<char>> {
    if !path::is_repository_relative(path) {
        Some("path must be non-empty and repository-relative"@)
    } else if !language::registered(record.language) {
        Some("unregistered language "@ + record.language)
    } else if !text::is_hex_digest(record.hash) {
        Some("BLAKE3 digest must be 64 lowercase hexadecimal characters"@)
    } else {
        None
    }
}

/// An earlier record has the path of the one at position `i`.
pub open spec fn is_repeated(records: Seq<(Seq<char>, RecordModel)>, i: int) -> bool {
    exists|j: int| 0 <= j < i && (#[trigger] records[j]).0 == records[i].0
}

/// The first record from position `i` on that cannot be compared, with the reason.
pub open spec fn population_fault(records: Seq<(Seq<char>, RecordModel)>, i: int) -> Option<
    FreshnessFailure,
>
    decreases records.len() - i,
{
    if i < 0 || i >= records.len() {
        None
    } else {
        match record_fault(records[i].0, records[i].1) {
            Some(reason) => Some(
                FreshnessFailure::InvalidRecord { path: records[i].0, reason },
            ),
            None => if is_repeated(records, i) {
                Some(
                    FreshnessFailure::InvalidRecord {
                        path: records[i].0,
                        reason: "duplicate indexed path"@,
                    },
                )
            } else {
                population_fault(records, i + 1)
            },
        }
    }
}

/// The digests that the records promise, by path.
pub open spec fn promised(records: Seq<(Seq<char>, RecordModel)>) -> Map<Seq<char>, Seq<char>>
    decreases records.len(),
{
    if records.len() == 0 {
        Map::empty()
    } else {
        promised(records.drop_last()).insert(records.last().0, records.last().1.hash)
    }
}

/// The strings of a map, as text.
pub open spec fn texts(m: Map<Seq<char>, String>) -> Map<Seq<char>, Seq<char>> {
    m.map_values(|s: String| s@)
}

/// What checking a generation's records leaves to be done.
#[derive(Debug)]
pub enum FreshnessPlan {
    /// The verdict does not need the live sources.
    Settled(StalenessVerdict),
    /// The live sources must have these digests, by relative path.
    Compare(StringMap<String>),
}

/// The verdict that the number of records alone settles.
pub open spec fn settled_by_size(records: nat) -> Option<StalenessVerdict> {
    if records == 0 {
        Some(
            StalenessVerdict::Unknown { reason: StalenessReason::NoSourceFound, files_checked: 0 },
        )
    } else if records > MAX_STALENESS_FILES {
        Some(
            StalenessVerdict::Unknown {
                reason: StalenessReason::Truncated,
                files_checked: MAX_STALENESS_FILES,
            },
        )
    } else {
        None
    }
}

fn check_record(path: &str, record: &FileRecord) -> (r: Option<String>)
    ensures
        r.deep_view() == record_fault(path@, record.deep_view()),
{
    if !path::repository_relative(path) {
        return Some("path must be non-empty and repository-relative".to_owned());
    }
    if !language::is_registered(record.language.as_str()) {
        let mut reason = "unregistered language ".to_owned();
        reason.append(record.language.as_str());
        return Some(reason);
    }
    if !text::hex_digest(record.blake3_hash.as_str()) {
        return Some("BLAKE3 digest must be 64 lowercase hexadecimal characters".to_owned());
    }
    None
}

/// Checks the records of a generation and says what the live sources must look like.
pub fn plan_source_freshness(indexed_files: &Vec<(String, FileRecord)>) -> (r: Result<
    FreshnessPlan,
    IndexedSourceFreshnessError,
>)
    ensures
        match settled_by_size(indexed_files.deep_view().len()) {
            Some(verdict) => r is Ok && r->Ok_0 is Settled && r->Ok_0->Settled_0 == verdict,
            None => match population_fault(indexed_files.deep_view(), 0) {
                Some(fault) => r is Err && r->Err_0.deep_view() == fault,
                None => r is Ok && r->Ok_0 is Compare && texts(r->Ok_0->Compare_0@) == promised(
                    indexed_files.deep_view(),
                ),
            },
        },
{
    if indexed_files.len() == 0 {
        return Ok(
            FreshnessPlan::Settled(
                StalenessVerdict::Unknown {
                    reason: StalenessReason::NoSourceFound,
                    files_checked: 0,
                },
            ),
        );
    }
    if indexed_files.len() > MAX_STALENESS_FILES {
        return Ok(
            FreshnessPlan::Settled(
                StalenessVerdict::Unknown {
                    reason: StalenessReason::Truncated,
                    files_checked: MAX_STALENESS_FILES,
                },
            ),
        );
    }
    let ghost all = indexed_files.deep_view();
    let mut expected: StringMap<String> = StringMap::new();
    assert(texts(expected@) =~= promised(all.take(0)));
    for i in 0..indexed_files.len()
        invariant
            all == indexed_files.deep_view(),
            settled_by_size(all.len()) is None,
            population_fault(all, i as int) == population_fault(all, 0),
            texts(expected@) == promised(all.take(i as int)),
            forall|path: Seq<char>| #[trigger]
                expected@.dom().contains(path) <==> exists|j: int|
                    0 <= j < i && (#[trigger] all[j]).0 == path,
    {
        let path = indexed_files[i].0.as_str();
        let record = &indexed_files[i].1;
        assert(all[i as int].0 == path@ && all[i as int].1 == record.deep_view());
        match check_record(path, record) {
            Some(reason) => {
                return Err(
                    IndexedSourceFreshnessError::InvalidRecord { path: path.to_owned(), reason },
                );
            },
            None => {},
        }
        let ghost before = expected@;
        let repeated = expected.insert(path.to_owned(), record.blake3_hash.clone());
        proof {
            let next = all.take(i + 1);
            assert(next.drop_last() =~= all.take(i as int));
            assert(texts(expected@) =~= texts(before).insert(path@, record.blake3_hash@));
            assert(before.dom().contains(path@) <==> is_repeated(all, i as int));
            assert forall|p: Seq<char>| #[trigger] expected@.dom().contains(p) <==> exists|j: int|
                0 <= j < i + 1 && (#[trigger] all[j]).0 == p by {
                assert(all[i as int].0 == path@);
                if before.dom().contains(p) {
                    let j = choose|j: int| 0 <= j < i && (#[trigger] all[j]).0 == p;
                    assert(all[j].0 == p);
                }
                if exists|j: int| 0 <= j < i + 1 && (#[trigger] all[j]).0 == p {
                    let j = choose|j: int| 0 <= j < i + 1 && (#[trigger] all[j]).0 == p;
                    if j < i {
                        assert(before.dom().contains(p));
                    }
                }
            }
        }
        if repeated {
            return Err(
                IndexedSourceFreshnessError::InvalidRecord {
                    path: path.to_owned(),
                    reason: "duplicate indexed path".to_owned(),
                },
            );
        }
    }
    assert(all.take(all.len() as int) =~= all);
    Ok(FreshnessPlan::Compare(expected))
}

/// A live source file: where it is, and its path relative to the repository root if it
/// lies below that root.
#[derive(Debug, Clone, PartialEq, Eq)]
pub struct DiscoveredFile {
    pub path: String,
    pub relative: Option<String>,
}

/// The first discovered file from position `i` on that lies outside the root.
pub open spec fn escape(found: Seq<DiscoveredFile>, i: int) -> Option<Seq<char>>
    decreases found.len() - i,
{
    if i < 0 || i >= found.len() {
        None
    } else if found[i].relative is None {
        Some(found[i].path@)
    } else {
        escape(found, i + 1)
    }
}

/// The discovered files by relative path, later ones in place of earlier ones.
pub open spec fn live_files(found: Seq<DiscoveredFile>) -> Map<Seq<char>, Seq<char>>
    decreases found.len(),
{
    if found.len() == 0 {
        Map::empty()
    } else {
        live_files(found.drop_last()).insert(found.last().relative->0@, found.last().path@)
    }
}

/// What comparing the live population leaves to be done.
#[derive(Debug)]
pub enum PopulationOutcome {
    Settled(StalenessVerdict),
    /// The populations match; the files must be hashed in the order of the listing.
    Hash(PendingSources),
}

/// Sources whose population matches and whose bytes are still to be compared.
#[derive(Debug)]
pub struct PendingSources {
    expected: StringMap<String>,
    live: StringMap<String>,
}

impl PendingSources {
    /// The digest that each relative path must have.
    pub closed spec fn expected(&self) -> Map<Seq<char>, Seq<char>> {
        texts(self.expected@)
    }

    /// The files to hash: relative path and place, in order.
    pub closed spec fn files(&self) -> Seq<(Seq<char>, Seq<char>)> {
        self.live.listing().map_values(|entry: (String, String)| (entry.0@, entry.1@))
    }

    /// The files to hash: relative path and place, in order.
    pub fn to_hash(&self) -> (r: &Vec<(String, String)>)
        ensures
            r.deep_view() == self.files(),
    {
        let r = self.live.entries();
        assert(r.deep_view() =~= self.files());
        r
    }
}

/// The pending files are the live ones, each of them expected, in path order.
pub open spec fn is_pending(
    pending: PendingSources,
    expected: Map<Seq<char>, Seq<char>>,
    live: Map<Seq<char>, Seq<char>>,
) -> bool {
    let keys = pending.files().map_values(|file: (Seq<char>, Seq<char>)| file.0);
    &&& pending.expected() == expected
    &&& live.dom() == expected.dom()
    &&& ordered::ascending(keys)
    &&& forall|key: Seq<char>| #[trigger] keys.contains(key) <==> live.dom().contains(key)
    &&& forall|i: int|
        0 <= i < pending.files().len() ==> live[(#[trigger] pending.files()[i]).0]
            == pending.files()[i].1
}

/// Compares the live population with the expected one.
pub fn compare_source_population(
    expected: StringMap<String>,
    discovery: Result<Vec<DiscoveredFile>, String>,
) -> (r: Result<PopulationOutcome, IndexedSourceFreshnessError>)
    ensures
        match discovery {
            Err(fault) => r is Err && r->Err_0.deep_view() == FreshnessFailure::Discovery(fault@),
            Ok(found) => if found@.len() > MAX_STALENESS_FILES {
                r is Ok && r->Ok_0 is Settled && r->Ok_0->Settled_0 == (StalenessVerdict::Unknown {
                    reason: StalenessReason::Truncated,
                    files_checked: MAX_STALENESS_FILES,
                })
            } else {
                match escape(found@, 0) {
                    Some(path) => r is Err && r->Err_0.deep_view() == (
                    FreshnessFailure::EscapedRoot { path }),
                    None => if live_files(found@).dom() != expected@.dom() {
                        r is Ok && r->Ok_0 is Settled && r->Ok_0->Settled_0
                            == StalenessVerdict::Stale
                    } else {
                        r is Ok && r->Ok_0 is Hash && is_pending(
                            r->Ok_0->Hash_0,
                            texts(expected@),
                            live_files(found@),
                        )
                    },
                }
            },
        },
{
    let found = match discovery {
        Ok(found) => found,
        Err(fault) => {
            return Err(IndexedSourceFreshnessError::Discovery(fault));
        },
    };
    if found.len() > MAX_STALENESS_FILES {
        return Ok(
            PopulationOutcome::Settled(
                StalenessVerdict::Unknown {
                    reason: StalenessReason::Truncated,
                    files_checked: MAX_STALENESS_FILES,
                },
            ),
        );
    }
    let mut live: StringMap<String> = StringMap::new();
    assert(texts(live@) =~= live_files(found@.take(0)));
    for i in 0..found.len()
        invariant
            discovery == Ok::<Vec<DiscoveredFile>, String>(found),
            found@.len() <= MAX_STALENESS_FILES,
            escape(found@, i as int) == escape(found@, 0),
            texts(live@) == live_files(found@.take(i as int)),
    {
        let ghost before = live@;
        match &found[i].relative {
            None => {
                return Err(
                    IndexedSourceFreshnessError::EscapedRoot { path: found[i].path.clone() },
                );
            },
            Some(relative) => {
                live.insert(relative.clone(), found[i].path.clone());
                proof {
                    let next = found@.take(i + 1);
                    assert(next.drop_last() =~= found@.take(i as int));
                    assert(texts(live@) =~= texts(before).insert(
                        relative@,
                        found@[i as int].path@,
                    ));
                }
            },
        }
    }
    assert(found@.take(found@.len() as int) =~= found@);
    assert(live@.dom() =~= texts(live@).dom());
    let ghost keys = ordered::keys_of(live.listing());
    let ghost wanted = ordered::keys_of(expected.listing());
    let live_entries = live.entries();
    let expected_entries = expected.entries();
    let mut matches = live_entries.len() == expected_entries.len();
    if matches {
        for i in 0..live_entries.len()
            invariant
                live_entries.len() == expected_entries.len(),
                live_entries@ == live.listing(),
                expected_entries@ == expected.listing(),
                keys == ordered::keys_of(live.listing()),
                wanted == ordered::keys_of(expected.listing()),
                matches <==> forall|j: int| 0 <= j < i ==> keys[j] == wanted[j],
        {
            assert(keys[i as int] == live_entries@[i as int].0@);
            assert(wanted[i as int] == expected_entries@[i as int].0@);
            if !text::same(live_entries[i].0.as_str(), expected_entries[i].0.as_str()) {
                matches = false;
            }
        }
    }
    proof {
        if matches {
            assert(keys =~= wanted);
            assert(live@.dom() =~= expected@.dom());
        } else {
            if live@.dom() == expected@.dom() {
                assert forall|k: Seq<char>| keys.contains(k) <==> wanted.contains(k) by {
                    assert(live@.dom().contains(k) <==> keys.contains(k));
                    assert(expected@.dom().contains(k) <==> wanted.contains(k));
                }
                ordered::lemma_ascending_unique(keys, wanted);
            }
        }
    }
    if !matches {
        return Ok(PopulationOutcome::Settled(StalenessVerdict::Stale));
    }
    let ghost found_files = live_files(found@);
    let ghost wanted_digests = texts(expected@);
    let pending = PendingSources { expected, live };
    proof {
        let names = pending.files().map_values(|file: (Seq<char>, Seq<char>)| file.0);
        assert(names =~= keys);
        assert(wanted_digests.dom() =~= expected@.dom());
        assert(found_files.dom() =~= live@.dom());
        assert forall|i: int| 0 <= i < pending.files().len() implies found_files[(
        #[trigger] pending.files()[i]).0] == pending.files()[i].1 by {
            ordered::lemma_entry(live.listing(), i);
        }
        assert forall|key: Seq<char>| #[trigger]
            names.contains(key) <==> found_files.dom().contains(key) by {
            assert(live@.dom().contains(key) <==> keys.contains(key));
        }
    }
    Ok(PopulationOutcome::Hash(pending))
}

/// The digest of a source file, or why it could not be read.
pub fn read_source_digest(read: Result<Vec<u8>, String>) -> (r: Result<String, String>)
    ensures
        match read {
            Ok(bytes) => r is Ok && r->Ok_0@ == digest::content_digest(bytes@),
            Err(fault) => r is Err && r->Err_0@ == fault@,
        },
{
    match read {
        Ok(bytes) => Ok(digest::content_hash(bytes.as_slice())),
        Err(fault) => Err(fault),
    }
}

/// The verdict on the digests from position `i` on: the first that could not be read or
/// that differs decides.
pub open spec fn digest_verdict(
    files: Seq<(Seq<char>, Seq<char>)>,
    expected: Map<Seq<char>, Seq<char>>,
    digests: Seq<Result<String, String>>,
    i: int,
) -> Result<StalenessVerdict, FreshnessFailure>
    decreases files.len() - i,
{
    if i < 0 || i >= files.len() {
        Ok(StalenessVerdict::Fresh)
    } else {
        match digests[i] {
            Err(source) => Err(FreshnessFailure::Read { path: files[i].1, source: source@ }),
            Ok(actual) => if !expected.dom().contains(files[i].0) || expected[files[i].0]
                != actual@ {
                Ok(StalenessVerdict::Stale)
            } else {
                digest_verdict(files, expected, digests, i + 1)
            },
        }
    }
}

impl PendingSources {
    /// The verdict on the digests of the files, given in the order of [`Self::to_hash`].
    pub fn judge(&self, digests: &Vec<Result<String, String>>) -> (r: Result<
        StalenessVerdict,
        IndexedSourceFreshnessError,
    >)
        requires
            digests@.len() == self.files().len(),
        ensures
            match digest_verdict(self.files(), self.expected(), digests@, 0) {
                Ok(verdict) => r is Ok && r->Ok_0 == verdict,
                Err(fault) => r is Err && r->Err_0.deep_view() == fault,
            },
    {
        let files = self.live.entries();
        for i in 0..files.len()
            invariant
                digests@.len() == self.files().len(),
                files@ == self.live.listing(),
                digest_verdict(self.files(), self.expected(), digests@, i as int)
                    == digest_verdict(self.files(), self.expected(), digests@, 0),
        {
            assert(self.files()[i as int] == (files@[i as int].0@, files@[i as int].1@));
            match &digests[i] {
                Err(source) => {
                    return Err(
                        IndexedSourceFreshnessError::Read {
                            path: files[i].1.clone(),
                            source: source.clone(),
                        },
                    );
                },
                Ok(actual) => {
                    let agrees = match self.expected.get(files[i].0.as_str()) {
                        Some(wanted) => text::same(wanted.as_str(), actual.as_str()),
                        None => false,
                    };
                    if !agrees {
                        return Ok(StalenessVerdict::Stale);
                    }
                },
            }
        }
        Ok(StalenessVerdict::Fresh)
    }
}

proof fn lemma_digest_verdict(
    files: Seq<(Seq<char>, Seq<char>)>,
    expected: Map<Seq<char>, Seq<char>>,
    digests: Seq<Result<String, String>>,
    i: int,
)
    requires
        0 <= i <= files.len(),
    ensures
        digest_verdict(files, expected, digests, i) == Ok::<StalenessVerdict, FreshnessFailure>(
            StalenessVerdict::Fresh,
        ) <==> forall|j: int|
            i <= j < files.len() ==> (#[trigger] digests[j]) is Ok && expected.dom().contains(
                files[j].0,
            ) && expected[files[j].0] == digests[j]->Ok_0@,
    decreases files.len() - i,
{
    if i < files.len() {
        lemma_digest_verdict(files, expected, digests, i + 1);
        if digest_verdict(files, expected, digests, i) == Ok::<StalenessVerdict, FreshnessFailure>(
            StalenessVerdict::Fresh,
        ) {
            assert forall|j: int| i <= j < files.len() implies (#[trigger] digests[j]) is Ok
                && expected.dom().contains(files[j].0) && expected[files[j].0]
                == digests[j]->Ok_0@ by {}
        } else {
            if digests[i] is Ok && expected.dom().contains(files[i].0) && expected[files[i].0]
                == digests[i]->Ok_0@ {
                let j = choose|j: int|
                    i + 1 <= j < files.len() && !((#[trigger] digests[j]) is Ok
                        && expected.dom().contains(files[j].0) && expected[files[j].0]
                        == digests[j]->Ok_0@);
                assert(digests[j] is Ok || digests[j] is Err);
            } else {
                assert(digests[i] is Ok || digests[i] is Err);
            }
        }
    }
}

/// Sources are fresh exactly if every file of the matching population reads, and its
/// bytes have the digest that the generation recorded. Nothing else, such as a
/// modification time, can decide.
pub proof fn law_fresh_iff_bytes_match(
    pending: PendingSources,
    contents: Seq<Result<Seq<u8>, Seq<char>>>,
    digests: Seq<Result<String, String>>,
)
    requires
        contents.len() == pending.files().len(),
        digests.len() == contents.len(),
        forall|i: int|
            0 <= i < contents.len() ==> match #[trigger] contents[i] {
                Ok(bytes) => digests[i] is Ok && digests[i]->Ok_0@ == digest::content_digest(bytes),
                Err(_) => digests[i] is Err,
            },
    ensures
        digest_verdict(pending.files(), pending.expected(), digests, 0) == Ok::<
            StalenessVerdict,
            FreshnessFailure,
        >(StalenessVerdict::Fresh) <==> forall|i: int|
            0 <= i < contents.len() ==> (#[trigger] contents[i]) is Ok
                && pending.expected().dom().contains(pending.files()[i].0)
                && pending.expected()[pending.files()[i].0] == digest::content_digest(
                contents[i]->Ok_0,
            ),
{
    let files = pending.files();
    let expected = pending.expected();
    lemma_digest_verdict(files, expected, digests, 0);
    if forall|j: int|
        0 <= j < files.len() ==> (#[trigger] digests[j]) is Ok && expected.dom().contains(
            files[j].0,
        ) && expected[files[j].0] == digests[j]->Ok_0@ {
        assert forall|i: int| 0 <= i < contents.len() implies (#[trigger] contents[i]) is Ok
            && expected.dom().contains(files[i].0) && expected[files[i].0]
            == digest::content_digest(contents[i]->Ok_0) by {
            assert(digests[i] is Ok);
        }
    }
    if forall|i: int|
        0 <= i < contents.len() ==> (#[trigger] contents[i]) is Ok && expected.dom().contains(
            files[i].0,
        ) && expected[files[i].0] == digest::content_digest(contents[i]->Ok_0) {
        assert forall|j: int| 0 <= j < files.len() implies (#[trigger] digests[j]) is Ok
            && expected.dom().contains(files[j].0) && expected[files[j].0]
            == digests[j]->Ok_0@ by {
            assert(contents[j] is Ok);
        }
    }
}

/// A live source file with what reading it gave.
#[derive(Debug)]
pub struct SourceObservation {
    pub file: DiscoveredFile,
    pub read: Result<Vec<u8>, String>,
}

/// The files that were observed.
pub open spec fn observed_files(observations: Seq<SourceObservation>) -> Seq<DiscoveredFile> {
    observations.map_values(|observation: SourceObservation| observation.file)
}

/// The observations by relative path, later ones in place of earlier ones.
pub open spec fn live_sources(observations: Seq<SourceObservation>) -> Map<
    Seq<char>,
    SourceObservation,
>
    decreases observations.len(),
{
    if observations.len() == 0 {
        Map::empty()
    } else {
        live_sources(observations.drop_last()).insert(
            observations.last().file.relative->0@,
            observations.last(),
        )
    }
}

/// The verdict on the bytes of the paths from position `i` on: the first file that could
/// not be read or that differs decides.
pub open spec fn bytes_verdict(
    paths: Seq<Seq<char>>,
    live: Map<Seq<char>, SourceObservation>,
    expected: Map<Seq<char>, Seq<char>>,
    i: int,
) -> Result<StalenessVerdict, FreshnessFailure>
    decreases paths.len() - i,
{
    if i < 0 || i >= paths.len() {
        Ok(StalenessVerdict::Fresh)
    } else {
        match live[paths[i]].read {
            Err(source) => Err(
                FreshnessFailure::Read { path: live[paths[i]].file.path@, source: source@ },
            ),
            Ok(bytes) => if expected[paths[i]] != digest::content_digest(bytes@) {
                Ok(StalenessVerdict::Stale)
            } else {
                bytes_verdict(paths, live, expected, i + 1)
            },
        }
    }
}

/// Freshness of live sources against the records of a generation.
pub open spec fn freshness(
    records: Seq<(Seq<char>, RecordModel)>,
    observed: Result<Vec<SourceObservation>, String>,
) -> Result<StalenessVerdict, FreshnessFailure> {
    match settled_by_size(records.len()) {
        Some(verdict) => Ok(verdict),
        None => match population_fault(records, 0) {
            Some(fault) => Err(fault),
            None => match observed {
                Err(fault) => Err(FreshnessFailure::Discovery(fault@)),
                Ok(observations) => if observations@.len() > MAX_STALENESS_FILES {
                    Ok(
                        StalenessVerdict::Unknown {
                            reason: StalenessReason::Truncated,
                            files_checked: MAX_STALENESS_FILES,
                        },
                    )
                } else {
                    match escape(observed_files(observations@), 0) {
                        Some(path) => Err(FreshnessFailure::EscapedRoot { path }),
                        None => {
                            let live = live_sources(observations@);
                            let expected = promised(records);
                            if live.dom() != expected.dom() {
                                Ok(StalenessVerdict::Stale)
                            } else {
                                bytes_verdict(sorting::listed(live.dom()), live, expected, 0)
                            }
                        },
                    }
                },
            },
        },
    }
}

proof fn lemma_live(observations: Seq<SourceObservation>)
    ensures
        live_files(observed_files(observations)).dom() == live_sources(observations).dom(),
        forall|path: Seq<char>| #[trigger]
            live_sources(observations).dom().contains(path) ==> live_files(
                observed_files(observations),
            )[path] == live_sources(observations)[path].file.path@,
    decreases observations.len(),
{
    if observations.len() > 0 {
        let front = observations.drop_last();
        lemma_live(front);
        assert(observed_files(observations).drop_last() =~= observed_files(front));
        assert(live_files(observed_files(observations)).dom() =~= live_sources(observations).dom());
    } else {
        assert(observed_files(observations) =~= seq![]);
        assert(live_files(observed_files(observations)).dom() =~= live_sources(observations).dom());
    }
}

proof fn lemma_verdicts_agree(
    files: Seq<(Seq<char>, Seq<char>)>,
    paths: Seq<Seq<char>>,
    live: Map<Seq<char>, SourceObservation>,
    expected: Map<Seq<char>, Seq<char>>,
    digests: Seq<Result<String, String>>,
    i: int,
)
    requires
        0 <= i <= files.len(),
        paths.len() == files.len(),
        digests.len() == files.len(),
        forall|j: int|
            0 <= j < files.len() ==> {
                let source = live[paths[j]];
                &&& (#[trigger] files[j]).0 == paths[j]
                &&& files[j].1 == source.file.path@
                &&& expected.dom().contains(paths[j])
                &&& match source.read {
                    Ok(bytes) => digests[j] is Ok && digests[j]->Ok_0@ == digest::content_digest(
                        bytes@,
                    ),
                    Err(fault) => digests[j] is Err && digests[j]->Err_0@ == fault@,
                }
            },
    ensures
        digest_verdict(files, expected, digests, i) == bytes_verdict(paths, live, expected, i),
    decreases files.len() - i,
{
    if i < files.len() {
        lemma_verdicts_agree(files, paths, live, expected, digests, i + 1);
        assert(files[i].0 == paths[i]);
    }
}

fn index_observations(observations: &Vec<SourceObservation>) -> (r: StringMap<usize>)
    requires
        escape(observed_files(observations@), 0) is None,
    ensures
        r@.dom() == live_sources(observations@).dom(),
        forall|path: Seq<char>| #[trigger]
            r@.dom().contains(path) ==> r@[path] < observations@.len()
                && observations@[r@[path] as int] == live_sources(observations@)[path],
{
    let ghost all = observations@;
    let mut r: StringMap<usize> = StringMap::new();
    assert(r@.dom() =~= live_sources(all.take(0)).dom());
    for i in 0..observations.len()
        invariant
            all == observations@,
            escape(observed_files(all), i as int) is None,
            r@.dom() == live_sources(all.take(i as int)).dom(),
            forall|path: Seq<char>| #[trigger]
                r@.dom().contains(path) ==> r@[path] < all.len() && all[r@[path] as int]
                    == live_sources(all.take(i as int))[path],
    {
        assert(all.take(i + 1).drop_last() =~= all.take(i as int));
        assert(observed_files(all)[i as int] == all[i as int].file);
        match &observations[i].file.relative {
            Some(relative) => {
                r.insert(relative.clone(), i);
            },
            None => {},
        }
        assert(r@.dom() =~= live_sources(all.take(i + 1)).dom());
    }
    assert(all.take(all.len() as int) =~= all);
    r
}

/// Compares the live sources with the records of a generation. `observed` is what
/// discovery found, each file with what reading it gave.
pub fn check_indexed_source_freshness(
    indexed_files: &Vec<(String, FileRecord)>,
    observed: Result<Vec<SourceObservation>, String>,
) -> (r: Result<StalenessVerdict, IndexedSourceFreshnessError>)
    ensures
        match freshness(indexed_files.deep_view(), observed) {
            Ok(verdict) => r is Ok && r->Ok_0 == verdict,
            Err(fault) => r is Err && r->Err_0.deep_view() == fault,
        },
{
    let ghost records = indexed_files.deep_view();
    let expected = match plan_source_freshness(indexed_files) {
        Ok(FreshnessPlan::Settled(verdict)) => {
            return Ok(verdict);
        },
        Ok(FreshnessPlan::Compare(expected)) => expected,
        Err(error) => {
            return Err(error);
        },
    };
    let observations = match observed {
        Ok(observations) => observations,
        Err(fault) => {
            return Err(IndexedSourceFreshnessError::Discovery(fault));
        },
    };
    let ghost all = observations@;
    let mut found: Vec<DiscoveredFile> = Vec::new();
    for i in 0..observations.len()
        invariant
            all == observations@,
            found@.len() == i,
            forall|j: int|
                0 <= j < i ==> (#[trigger] found@[j]).path@ == all[j].file.path@
                    && found@[j].relative.deep_view() == all[j].file.relative.deep_view(),
    {
        let relative = match &observations[i].file.relative {
            Some(relative) => Some(relative.clone()),
            None => None,
        };
        found.push(DiscoveredFile { path: observations[i].file.path.clone(), relative });
    }
    let ghost files = found@;
    let ghost wanted = texts(expected@);
    proof {
        lemma_live(all);
        lemma_same_files(files, observed_files(all), 0);
        assert(expected@.dom() =~= wanted.dom());
    }
    let pending = match compare_source_population(expected, Ok(found)) {
        Ok(PopulationOutcome::Settled(verdict)) => {
            return Ok(verdict);
        },
        Ok(PopulationOutcome::Hash(pending)) => pending,
        Err(error) => {
            return Err(error);
        },
    };
    let positions = index_observations(&observations);
    let ghost live = live_sources(all);
    let to_hash = pending.to_hash();
    let ghost listed = pending.files();
    let mut digests: Vec<Result<String, String>> = Vec::new();
    for i in 0..to_hash.len()
        invariant
            all == observations@,
            live == live_sources(all),
            to_hash.deep_view() == listed,
            listed == pending.files(),
            is_pending(pending, wanted, live_files(files)),
            live_files(files).dom() == live.dom(),
            positions@.dom() == live.dom(),
            forall|path: Seq<char>| #[trigger]
                positions@.dom().contains(path) ==> positions@[path] < all.len()
                    && all[positions@[path] as int] == live[path],
            digests@.len() == i,
            forall|j: int|
                0 <= j < i ==> match live[listed[j].0].read {
                    Ok(bytes) => (#[trigger] digests@[j]) is Ok && digests@[j]->Ok_0@
                        == digest::content_digest(bytes@),
                    Err(fault) => digests@[j] is Err && digests@[j]->Err_0@ == fault@,
                },
    {
        let relative = to_hash[i].0.as_str();
        proof {
            let keys = listed.map_values(|file: (Seq<char>, Seq<char>)| file.0);
            assert(listed[i as int].0 == relative@);
            assert(keys[i as int] == relative@);
            assert(keys.contains(relative@));
            assert(live.dom().contains(relative@));
        }
        let digest = match positions.get(relative) {
            Some(position) => match &observations[*position].read {
                Ok(bytes) => Ok(digest::content_hash(bytes.as_slice())),
                Err(fault) => Err(fault.clone()),
            },
            None => Err(String::new()),
        };
        digests.push(digest);
    }
    proof {
        let keys = listed.map_values(|file: (Seq<char>, Seq<char>)| file.0);
        let paths = sorting::listed(live.dom());
        assert(ordered::ascending(keys) && forall|text: Seq<char>| #[trigger]
            keys.contains(text) <==> live.dom().contains(text));
        ordered::lemma_ascending_unique(keys, paths);
        assert forall|j: int| 0 <= j < listed.len() implies {
            let source = live[paths[j]];
            &&& (#[trigger] listed[j]).0 == paths[j]
            &&& listed[j].1 == source.file.path@
            &&& wanted.dom().contains(paths[j])
            &&& match source.read {
                Ok(bytes) => digests@[j] is Ok && digests@[j]->Ok_0@ == digest::content_digest(
                    bytes@,
                ),
                Err(fault) => digests@[j] is Err && digests@[j]->Err_0@ == fault@,
            }
        } by {
            assert(keys[j] == listed[j].0);
            assert(keys.contains(keys[j]));
            assert(live.dom().contains(paths[j]));
            assert(live_files(files)[listed[j].0] == listed[j].1);
            assert(digests@[j] is Ok || digests@[j] is Err);
        }
        assert(to_hash@.len() == listed.len());
        lemma_verdicts_agree(listed, paths, live, wanted, digests@, 0);
    }
    pending.judge(&digests)
}

proof fn lemma_same_files(a: Seq<DiscoveredFile>, b: Seq<DiscoveredFile>, i: int)
    requires
        a.len() == b.len(),
        0 <= i <= a.len(),
        forall|j: int|
            0 <= j < a.len() ==> (#[trigger] a[j]).path@ == b[j].path@ && a[j].relative.deep_view()
                == b[j].relative.deep_view(),
    ensures
        escape(a, i) == escape(b, i),
        live_files(a) == live_files(b),
    decreases a.len(), a.len() - i,
{
    if i < a.len() {
        lemma_same_files(a, b, i + 1);
        assert(a[i].path@ == b[i].path@);
    } else if a.len() > 0 {
        let n = a.len() - 1;
        let x = a.drop_last();
        let y = b.drop_last();
        assert forall|j: int| 0 <= j < x.len() implies (#[trigger] x[j]).path@ == y[j].path@
            && x[j].relative.deep_view() == y[j].relative.deep_view() by {
            assert(a[j].path@ == b[j].path@);
        }
        lemma_same_files(x, y, 0);
        assert(a[n].relative.deep_view() == b[n].relative.deep_view());
    }
}

/// A generation is fresh exactly if the live population is the recorded one and every
/// file reads and has the recorded digest.
pub proof fn law_freshness_is_exact(
    records: Seq<(Seq<char>, RecordModel)>,
    observations: Vec<SourceObservation>,
)
    requires
        1 <= records.len() <= 50_000,
        population_fault(records, 0) is None,
        observations@.len() <= 50_000,
        escape(observed_files(observations@), 0) is None,
    ensures
        freshness(records, Ok(observations)) == Ok::<StalenessVerdict, FreshnessFailure>(
            StalenessVerdict::Fresh,
        ) <==> {
            let live = live_sources(observations@);
            &&& live.dom() == promised(records).dom()
            &&& forall|path: Seq<char>| #[trigger]
                live.dom().contains(path) ==> live[path].read is Ok && promised(records)[path]
                    == digest::content_digest(live[path].read->Ok_0@)
        },
{
    let live = live_sources(observations@);
    let expected = promised(records);
    lemma_live_finite(observations@);
    sorting::lemma_listed_set(live.dom());
    let paths = sorting::listed(live.dom());
    lemma_bytes_verdict(paths, live, expected, 0);
    assert forall|i: int| 0 <= i < paths.len() implies live.dom().contains(#[trigger] paths[i]) by {
        assert(paths.contains(paths[i]));
    }
    if forall|i: int|
        0 <= i < paths.len() ==> matches_record(live, expected, #[trigger] paths[i]) {
        assert forall|path: Seq<char>| #[trigger] live.dom().contains(path) implies live[path].read is Ok
            && expected[path] == digest::content_digest(live[path].read->Ok_0@) by {
            assert(paths.contains(path));
            let p = paths.index_of(path);
            assert(matches_record(live, expected, paths[p]));
        }
    }
}

/// The file reads and has the recorded digest.
pub open spec fn matches_record(
    live: Map<Seq<char>, SourceObservation>,
    expected: Map<Seq<char>, Seq<char>>,
    path: Seq<char>,
) -> bool {
    live[path].read is Ok && expected[path] == digest::content_digest(live[path].read->Ok_0@)
}

proof fn lemma_live_finite(observations: Seq<SourceObservation>)
    ensures
        live_sources(observations).dom().finite(),
    decreases observations.len(),
{
    if observations.len() > 0 {
        lemma_live_finite(observations.drop_last());
    }
}

proof fn lemma_bytes_verdict(
    paths: Seq<Seq<char>>,
    live: Map<Seq<char>, SourceObservation>,
    expected: Map<Seq<char>, Seq<char>>,
    i: int,
)
    requires
        0 <= i <= paths.len(),
    ensures
        bytes_verdict(paths, live, expected, i) == Ok::<StalenessVerdict, FreshnessFailure>(
            StalenessVerdict::Fresh,
        ) <==> forall|j: int|
            i <= j < paths.len() ==> matches_record(live, expected, #[trigger] paths[j]),
    decreases paths.len() - i,
{
    if i < paths.len() {
        lemma_bytes_verdict(paths, live, expected, i + 1);
        if bytes_verdict(paths, live, expected, i) != Ok::<StalenessVerdict, FreshnessFailure>(
            StalenessVerdict::Fresh,
        ) {
            if matches_record(live, expected, paths[i]) {
                let j = choose|j: int|
                    i + 1 <= j < paths.len() && !matches_record(live, expected, #[trigger] paths[j]);
                assert(!matches_record(live, expected, paths[j]));
            } else {
                assert(!matches_record(live, expected, paths[i]));
            }
        }
    }
}

/// The observation at position `j` is the last one of the file at the relative path.
pub open spec fn is_last_seen(
    observations: Seq<SourceObservation>,
    j: int,
    path: Seq<char>,
) -> bool {
    &&& 0 <= j < observations.len()
    &&& observations[j].file.relative->0@ == path
    &&& forall|l: int|
        j < l < observations.len() ==> (#[trigger] observations[l]).file.relative->0@ != path
}

proof fn lemma_live_is_last_seen(observations: Seq<SourceObservation>, path: Seq<char>)
    ensures
        live_sources(observations).dom().contains(path) <==> exists|j: int|
            0 <= j < observations.len() && (
            #[trigger] observations[j]).file.relative->0@ == path,
        live_sources(observations).dom().contains(path) ==> exists|j: int| #[trigger]
            is_last_seen(observations, j, path) && observations[j] == live_sources(
                observations,
            )[path],
    decreases observations.len(),
{
    if observations.len() > 0 {
        let n = observations.len() - 1;
        let front = observations.drop_last();
        lemma_live_is_last_seen(front, path);
        assert(observations.last() == observations[n]);
        if observations[n].file.relative->0@ == path {
            assert(is_last_seen(observations, n, path));
        } else if live_sources(front).dom().contains(path) {
            let j = choose|j: int| #[trigger]
                is_last_seen(front, j, path) && front[j] == live_sources(front)[path];
            assert(observations[j] == front[j]);
            assert forall|l: int| j < l < observations.len() implies (
            #[trigger] observations[l]).file.relative->0@ != path by {
                if l < n {
                    assert(front[l] == observations[l]);
                }
            }
            assert(is_last_seen(observations, j, path));
        }
        if exists|j: int|
            0 <= j < observations.len() && (#[trigger] observations[j]).file.relative->0@
                == path {
            let j = choose|j: int|
                0 <= j < observations.len() && (#[trigger] observations[j]).file.relative->0@
                    == path;
            if j < n {
                assert(front[j] == observations[j]);
            }
        }
    }
}

proof fn lemma_promised(records: Seq<(Seq<char>, RecordModel)>, path: Seq<char>)
    requires
        forall|i: int, j: int|
            0 <= i < j < records.len() ==> (#[trigger] records[i]).0 != (#[trigger] records[j]).0,
    ensures
        promised(records).dom().contains(path) <==> exists|i: int|
            0 <= i < records.len() && (#[trigger] records[i]).0 == path,
        forall|i: int|
            0 <= i < records.len() && (#[trigger] records[i]).0 == path ==> promised(records)[path]
                == records[i].1.hash,
    decreases records.len(),
{
    if records.len() > 0 {
        let n = records.len() - 1;
        let front = records.drop_last();
        assert forall|i: int, j: int| 0 <= i < j < front.len() implies (#[trigger] front[i]).0 != (
        #[trigger] front[j]).0 by {
            assert(records[i].0 != records[j].0);
        }
        lemma_promised(front, path);
        assert(records.last() == records[n]);
        if exists|i: int| 0 <= i < front.len() && (#[trigger] front[i]).0 == path {
            let i = choose|i: int| 0 <= i < front.len() && (#[trigger] front[i]).0 == path;
            assert(records[i].0 == path);
        }
        if exists|i: int| 0 <= i < records.len() && (#[trigger] records[i]).0 == path {
            let i = choose|i: int| 0 <= i < records.len() && (#[trigger] records[i]).0 == path;
            if i < n {
                assert(front[i].0 == path);
            }
        }
        assert forall|i: int| 0 <= i < records.len() && (#[trigger] records[i]).0 == path implies
            promised(records)[path] == records[i].1.hash by {
            if i < n {
                assert(front[i] == records[i]);
                assert(records[i].0 != records[n].0);
            }
        }
    }
}

/// A population has no fault exactly if every record can be compared and no path comes
/// twice; else the first record that cannot be compared, or that repeats a path, is named.
pub proof fn law_population_fault_is_the_first(records: Seq<(Seq<char>, RecordModel)>, from: int)
    requires
        0 <= from <= records.len(),
    ensures
        match population_fault(records, from) {
            None => forall|i: int|
                from <= i < records.len() ==> record_fault(
                    (#[trigger] records[i]).0,
                    records[i].1,
                ) is None && !is_repeated(records, i),
            Some(fault) => exists|i: int|
                from <= i < records.len() && {
                    &&& forall|j: int|
                        from <= j < i ==> record_fault(
                            (#[trigger] records[j]).0,
                            records[j].1,
                        ) is None && !is_repeated(records, j)
                    &&& fault matches FreshnessFailure::InvalidRecord { path, reason } && path
                        == (#[trigger] records[i]).0 && (if record_fault(
                        records[i].0,
                        records[i].1,
                    ) is Some {
                        reason == record_fault(records[i].0, records[i].1)->0
                    } else {
                        is_repeated(records, i) && reason == "duplicate indexed path"@
                    })
                },
        },
    decreases records.len() - from,
{
    if from < records.len() {
        law_population_fault_is_the_first(records, from + 1);
        if record_fault(records[from].0, records[from].1) is None && !is_repeated(records, from) {
            match population_fault(records, from + 1) {
                None => {},
                Some(fault) => {
                    let i = choose|i: int|
                        from + 1 <= i < records.len() && {
                            &&& forall|j: int|
                                from + 1 <= j < i ==> record_fault(
                                    (#[trigger] records[j]).0,
                                    records[j].1,
                                ) is None && !is_repeated(records, j)
                            &&& fault matches FreshnessFailure::InvalidRecord { path, reason }
                                && path == (#[trigger] records[i]).0 && (if record_fault(
                                records[i].0,
                                records[i].1,
                            ) is Some {
                                reason == record_fault(records[i].0, records[i].1)->0
                            } else {
                                is_repeated(records, i) && reason == "duplicate indexed path"@
                            })
                        };
                    assert(records[i].0 == fault->InvalidRecord_path);
                    assert forall|j: int| from <= j < i implies record_fault(
                        (#[trigger] records[j]).0,
                        records[j].1,
                    ) is None && !is_repeated(records, j) by {}
                },
            }
        } else {
            assert(records[from].0 == records[from].0);
        }
    }
}

/// A record can be compared exactly if its path is non-empty and stays inside the
/// repository, its language is a registered one, and its digest is 64 lower-case
/// hexadecimal digits.
pub proof fn law_comparable_records(path: Seq<char>, record: RecordModel)
    ensures
        record_fault(path, record) is None <==> {
            &&& path.len() > 0
            &&& path[0] != '/'
            &&& !path::segments(path).contains(seq!['.', '.'])
            &&& (record.language == "rust"@ || record.language == "go"@ || record.language
                == "python"@ || record.language == "typescript"@)
            &&& record.hash.len() == 64
            &&& forall|i: int|
                0 <= i < 64 ==> '0' <= #[trigger] record.hash[i] <= '9' || 'a' <= record.hash[i]
                    <= 'f'
        },
{
    if record.hash.len() == 64 && (forall|i: int|
        0 <= i < 64 ==> '0' <= #[trigger] record.hash[i] <= '9' || 'a' <= record.hash[i] <= 'f') {
        assert(text::is_hex_digest(record.hash));
    }
}

/// No path is recorded twice.
pub open spec fn paths_are_distinct(records: Seq<(Seq<char>, RecordModel)>) -> bool {
    forall|i: int, j: int|
        0 <= i < j < records.len() ==> (#[trigger] records[i]).0 != (#[trigger] records[j]).0
}

/// Every file that was found is recorded.
pub open spec fn all_recorded(
    records: Seq<(Seq<char>, RecordModel)>,
    observations: Seq<SourceObservation>,
) -> bool {
    forall|j: int|
        0 <= j < observations.len() ==> exists|i: int|
            0 <= i < records.len() && (#[trigger] records[i]).0 == (
            #[trigger] observations[j]).file.relative->0@
}

/// Every recorded file was found.
pub open spec fn all_found(
    records: Seq<(Seq<char>, RecordModel)>,
    observations: Seq<SourceObservation>,
) -> bool {
    forall|i: int|
        0 <= i < records.len() ==> exists|j: int|
            0 <= j < observations.len() && (#[trigger] observations[j]).file.relative->0@ == (
            #[trigger] records[i]).0
}

/// Every recorded file that was found reads, and has the recorded bytes.
pub open spec fn all_bytes_match(
    records: Seq<(Seq<char>, RecordModel)>,
    observations: Seq<SourceObservation>,
) -> bool {
    forall|i: int, j: int|
        0 <= i < records.len() && #[trigger] is_last_seen(observations, j, records[i].0)
            ==> observations[j].read is Ok && records[i].1.hash == digest::content_digest(
            observations[j].read->Ok_0@,
        )
}

proof fn lemma_same_population(
    records: Seq<(Seq<char>, RecordModel)>,
    observations: Seq<SourceObservation>,
)
    requires
        paths_are_distinct(records),
    ensures
        live_sources(observations).dom() == promised(records).dom() <==> all_recorded(
            records,
            observations,
        ) && all_found(records, observations),
{
    let live = live_sources(observations).dom();
    let expected = promised(records).dom();
    if all_recorded(records, observations) && all_found(records, observations) {
        assert forall|path: Seq<char>| live.contains(path) <==> expected.contains(path) by {
            lemma_promised(records, path);
            lemma_live_is_last_seen(observations, path);
            if live.contains(path) {
                let j = choose|j: int|
                    0 <= j < observations.len() && (#[trigger] observations[j]).file.relative->0@
                        == path;
                assert(exists|i: int|
                    0 <= i < records.len() && (#[trigger] records[i]).0
                        == observations[j].file.relative->0@);
            }
            if expected.contains(path) {
                let i = choose|i: int| 0 <= i < records.len() && (#[trigger] records[i]).0 == path;
                assert(exists|j: int|
                    0 <= j < observations.len() && (#[trigger] observations[j]).file.relative->0@
                        == records[i].0);
            }
        }
        assert(live =~= expected);
    }
    if live == expected {
        assert forall|j: int| 0 <= j < observations.len() implies exists|i: int|
            0 <= i < records.len() && (#[trigger] records[i]).0 == (
            #[trigger] observations[j]).file.relative->0@ by {
            let path = observations[j].file.relative->0@;
            lemma_promised(records, path);
            lemma_live_is_last_seen(observations, path);
        }
        assert forall|i: int| 0 <= i < records.len() implies exists|j: int|
            0 <= j < observations.len() && (#[trigger] observations[j]).file.relative->0@ == (
            #[trigger] records[i]).0 by {
            let path = records[i].0;
            lemma_promised(records, path);
            lemma_live_is_last_seen(observations, path);
        }
    }
}

proof fn lemma_last_seen_is_live(
    observations: Seq<SourceObservation>,
    j: int,
    path: Seq<char>,
)
    requires
        is_last_seen(observations, j, path),
    ensures
        live_sources(observations).dom().contains(path),
        live_sources(observations)[path] == observations[j],
{
    assert(observations[j].file.relative->0@ == path);
    lemma_live_is_last_seen(observations, path);
    let k = choose|k: int| #[trigger]
        is_last_seen(observations, k, path) && observations[k] == live_sources(observations)[path];
    if j < k {
        assert(observations[k].file.relative->0@ != path);
    } else if k < j {
        assert(observations[j].file.relative->0@ != path);
    }
}

proof fn lemma_same_bytes(
    records: Seq<(Seq<char>, RecordModel)>,
    observations: Seq<SourceObservation>,
)
    requires
        paths_are_distinct(records),
        live_sources(observations).dom() == promised(records).dom(),
    ensures
        all_bytes_match(records, observations) <==> forall|path: Seq<char>| #[trigger]
            live_sources(observations).dom().contains(path) ==> live_sources(
                observations,
            )[path].read is Ok && promised(records)[path] == digest::content_digest(
                live_sources(observations)[path].read->Ok_0@,
            ),
{
    let live = live_sources(observations);
    let expected = promised(records);
    if all_bytes_match(records, observations) {
        assert forall|path: Seq<char>| #[trigger] live.dom().contains(path) implies live[path].read is Ok
            && expected[path] == digest::content_digest(live[path].read->Ok_0@) by {
            lemma_promised(records, path);
            lemma_live_is_last_seen(observations, path);
            assert(expected.dom().contains(path));
            let i = choose|i: int| 0 <= i < records.len() && (#[trigger] records[i]).0 == path;
            let j = choose|j: int| #[trigger]
                is_last_seen(observations, j, path) && observations[j] == live[path];
            assert(is_last_seen(observations, j, records[i].0));
        }
    }
    if forall|path: Seq<char>| #[trigger]
        live.dom().contains(path) ==> live[path].read is Ok && expected[path]
            == digest::content_digest(live[path].read->Ok_0@) {
        assert forall|i: int, j: int|
            0 <= i < records.len() && #[trigger] is_last_seen(
                observations,
                j,
                records[i].0,
            ) implies observations[j].read is Ok && records[i].1.hash == digest::content_digest(
            observations[j].read->Ok_0@,
        ) by {
            lemma_last_seen_is_live(observations, j, records[i].0);
            lemma_promised(records, records[i].0);
        }
    }
}

/// No population of one file up to the bound is left undecided: where every record can be
/// compared, no path is recorded twice, and at most 50 000 files were found, all of them
/// below the root, the verdict is never unknown. It is fresh exactly if every recorded file
/// was found, every found file is recorded, and each of them reads and has the recorded
/// bytes. Where the populations differ, or every file reads and one has other bytes, it is
/// stale.
pub proof fn law_checkable_population_is_decided(
    records: Seq<(Seq<char>, RecordModel)>,
    observations: Vec<SourceObservation>,
)
    requires
        1 <= records.len() <= 50_000,
        observations@.len() <= 50_000,
        paths_are_distinct(records),
        forall|i: int|
            0 <= i < records.len() ==> record_fault(
                (#[trigger] records[i]).0,
                records[i].1,
            ) is None,
        forall|j: int|
            0 <= j < observations@.len() ==> (
            #[trigger] observations@[j]).file.relative is Some,
    ensures
        ({
            let result = freshness(records, Ok(observations));
            let fresh = Ok::<StalenessVerdict, FreshnessFailure>(StalenessVerdict::Fresh);
            let stale = Ok::<StalenessVerdict, FreshnessFailure>(StalenessVerdict::Stale);
            let same_files = all_recorded(records, observations@) && all_found(
                records,
                observations@,
            );
            let same_bytes = all_bytes_match(records, observations@);
            let readable = forall|j: int|
                0 <= j < observations@.len() ==> (#[trigger] observations@[j]).read is Ok;
            &&& result is Ok ==> !(result->Ok_0 is Unknown)
            &&& result == fresh <==> same_files && same_bytes
            &&& !same_files ==> result == stale
            &&& readable && !same_bytes ==> result == stale
            &&& result is Err ==> result->Err_0 is Read
        }),
{
    let all = observations@;
    let live = live_sources(all);
    let expected = promised(records);
    lemma_no_fault(records, 0);
    lemma_no_escape(all, 0);
    law_freshness_is_exact(records, observations);
    lemma_same_population(records, all);
    if live.dom() == expected.dom() {
        lemma_same_bytes(records, all);
        let paths = sorting::listed(live.dom());
        lemma_live_finite(all);
        sorting::lemma_listed_set(live.dom());
        lemma_bytes_outcomes(paths, live, expected, 0);
        if forall|j: int| 0 <= j < all.len() ==> (#[trigger] all[j]).read is Ok {
            assert forall|k: int| 0 <= k < paths.len() implies live[#[trigger] paths[k]].read is Ok by {
                assert(paths.contains(paths[k]));
                lemma_live_is_last_seen(all, paths[k]);
                let j = choose|j: int| #[trigger]
                    is_last_seen(all, j, paths[k]) && all[j] == live[paths[k]];
                assert(all[j].read is Ok);
            }
        }
    }
}

proof fn lemma_no_fault(records: Seq<(Seq<char>, RecordModel)>, i: int)
    requires
        0 <= i <= records.len(),
        paths_are_distinct(records),
        forall|j: int|
            0 <= j < records.len() ==> record_fault(
                (#[trigger] records[j]).0,
                records[j].1,
            ) is None,
    ensures
        population_fault(records, i) is None,
    decreases records.len() - i,
{
    if i < records.len() {
        lemma_no_fault(records, i + 1);
        assert(record_fault(records[i].0, records[i].1) is None);
    }
}

proof fn lemma_no_escape(observations: Seq<SourceObservation>, i: int)
    requires
        0 <= i <= observations.len(),
        forall|j: int|
            0 <= j < observations.len() ==> (#[trigger] observations[j]).file.relative is Some,
    ensures
        escape(observed_files(observations), i) is None,
    decreases observations.len() - i,
{
    if i < observations.len() {
        assert(observed_files(observations)[i] == observations[i].file);
        lemma_no_escape(observations, i + 1);
    }
}

proof fn lemma_bytes_outcomes(
    paths: Seq<Seq<char>>,
    live: Map<Seq<char>, SourceObservation>,
    expected: Map<Seq<char>, Seq<char>>,
    i: int,
)
    requires
        0 <= i <= paths.len(),
    ensures
        match bytes_verdict(paths, live, expected, i) {
            Ok(verdict) => verdict == StalenessVerdict::Fresh || verdict == StalenessVerdict::Stale,
            Err(fault) => fault is Read && exists|j: int|
                i <= j < paths.len() && live[#[trigger] paths[j]].read is Err,
        },
    decreases paths.len() - i,
{
    if i < paths.len() {
        lemma_bytes_outcomes(paths, live, expected, i + 1);
        match live[paths[i]].read {
            Err(_) => {
                assert(live[paths[i]].read is Err);
            },
            Ok(_) => {},
        }
    }
}

/// A population beyond the bound, recorded or found, is never called fresh or stale: the
/// verdict is unknown for its size. A generation without records is unknown for want of
/// sources, and a failed discovery is an error.
pub proof fn law_uncheckable_population_is_unknown(
    records: Seq<(Seq<char>, RecordModel)>,
    observed: Result<Vec<SourceObservation>, String>,
)
    ensures
        ({
            let result = freshness(records, observed);
            let truncated = Ok::<StalenessVerdict, FreshnessFailure>(
                StalenessVerdict::Unknown {
                    reason: StalenessReason::Truncated,
                    files_checked: 50_000,
                },
            );
            let sound = population_fault(records, 0) is None;
            &&& records.len() == 0 ==> result == Ok::<StalenessVerdict, FreshnessFailure>(
                StalenessVerdict::Unknown {
                    reason: StalenessReason::NoSourceFound,
                    files_checked: 0,
                },
            )
            &&& records.len() > 50_000 ==> result == truncated
            &&& 1 <= records.len() <= 50_000 && !sound ==> result is Err && result->Err_0
                == population_fault(records, 0)->0
            &&& 1 <= records.len() <= 50_000 && sound && observed is Err ==> result is Err
                && result->Err_0 == FreshnessFailure::Discovery(observed->Err_0@)
            &&& 1 <= records.len() <= 50_000 && sound && observed is Ok && observed->Ok_0@.len()
                > 50_000 ==> result == truncated
        }),
{
}

/// A found file that lies outside the root is an error that names the first such file: it
/// is neither compared nor left out.
pub proof fn law_escaped_file_is_refused(
    records: Seq<(Seq<char>, RecordModel)>,
    observations: Vec<SourceObservation>,
    j: int,
)
    requires
        1 <= records.len() <= 50_000,
        population_fault(records, 0) is None,
        observations@.len() <= 50_000,
        0 <= j < observations@.len(),
        observations@[j].file.relative is None,
        forall|i: int| 0 <= i < j ==> (#[trigger] observations@[i]).file.relative is Some,
    ensures
        freshness(records, Ok(observations)) == Err::<StalenessVerdict, FreshnessFailure>(
            FreshnessFailure::EscapedRoot { path: observations@[j].file.path@ },
        ),
{
    lemma_first_escape(observations@, 0, j);
}

proof fn lemma_first_escape(observations: Seq<SourceObservation>, i: int, j: int)
    requires
        0 <= i <= j < observations.len(),
        observations[j].file.relative is None,
        forall|k: int| 0 <= k < j ==> (#[trigger] observations[k]).file.relative is Some,
    ensures
        escape(observed_files(observations), i) == Some(observations[j].file.path@),
    decreases j - i,
{
    assert(observed_files(observations)[i] == observations[i].file);
    if i < j {
        lemma_first_escape(observations, i + 1, j);
    }
}

/// The display age is that of the last update, or else of the last full scan; a time before
/// the epoch gives none. The index has drifted exactly if both times are known and the
/// update is the later one.
pub proof fn law_baseline_prefers_the_update(last_update: Option<i64>, last_full_scan: Option<i64>)
    ensures
        ({
            let r = baseline_of(last_update, last_full_scan);
            &&& last_update is Some && last_update->0 >= 0 ==> r.baseline is Some && r.baseline->0
                == last_update->0
            &&& last_update is Some && last_update->0 < 0 ==> r.baseline is None
            &&& last_update is None && last_full_scan is Some && last_full_scan->0 >= 0
                ==> r.baseline is Some && r.baseline->0 == last_full_scan->0
            &&& last_update is None && last_full_scan is Some && last_full_scan->0 < 0
                ==> r.baseline is None
            &&& last_update is None && last_full_scan is None ==> r.baseline is None
            &&& r.incremental_drift <==> last_update is Some && last_full_scan is Some
                && last_update->0 > last_full_scan->0
        }),
{
}

/// What is left to hash is every expected file, each at the place where it was found, once, and
/// no other file.
pub proof fn law_every_expected_file_is_hashed(
    pending: PendingSources,
    expected: Map<Seq<char>, Seq<char>>,
    live: Map<Seq<char>, Seq<char>>,
    path: Seq<char>,
)
    requires
        is_pending(pending, expected, live),
    ensures
        pending.expected() == expected,
        expected.dom().contains(path) <==> exists|i: int|
            0 <= i < pending.files().len() && (#[trigger] pending.files()[i]).0 == path,
        forall|i: int|
            0 <= i < pending.files().len() ==> live[(#[trigger] pending.files()[i]).0]
                == pending.files()[i].1,
{
    let files = pending.files();
    let keys = files.map_values(|file: (Seq<char>, Seq<char>)| file.0);
    assert(keys.contains(path) <==> live.dom().contains(path));
    if keys.contains(path) {
        let i = keys.index_of(path);
        assert(files[i].0 == path);
    }
    if exists|i: int| 0 <= i < files.len() && (#[trigger] files[i]).0 == path {
        let i = choose|i: int| 0 <= i < files.len() && (#[trigger] files[i]).0 == path;
        assert(keys[i] == path);
    }
}

} // verus!
