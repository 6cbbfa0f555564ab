//! What a run records of its sources.

use vstd::prelude::*;

use crate::index_evidence;
use crate::index_state::{
    ExtractorOutput, FactsModel, FileRecord, IndexMetadata, MetadataModel, RecordModel,
};
use crate::index_tables;
use crate::index_tables::{EncodedFacts, EncodedFile};
use crate::indexed_source_authority::language_for_path;
use crate::ordered;
use crate::ordered::StringMap;
use crate::source_diff;
use crate::structural_inputs::{InputModel, SourceInput};
use crate::text;

verus! {

/// The last source with this path.
pub open spec fn source_at(inputs: Seq<InputModel>, path: Seq<char>) -> Option<InputModel>
    decreases inputs.len(),
{
    if inputs.len() == 0 {
        None
    } else if inputs.last().path == path {
        Some(inputs.last())
    } else {
        source_at(inputs.drop_last(), path)
    }
}

fn find_source<'a>(inputs: &'a Vec<SourceInput>, path: &str) -> (r: Option<&'a SourceInput>)
    ensures
        r.deep_view() == source_at(inputs.deep_view(), path@),
{
    let ghost all = inputs.deep_view();
    let mut n: usize = inputs.len();
    assert(all.take(n as int) =~= all);
    while n > 0
        invariant
            all == inputs.deep_view(),
            n <= inputs@.len(),
            source_at(all.take(n as int), path@) == source_at(all, path@),
        decreases n,
    {
        assert(all.take(n as int).last() == inputs@[n - 1].deep_view());
        assert(all.take(n as int).drop_last() =~= all.take(n - 1));
        if text::same(inputs[n - 1].relative_path.as_str(), path) {
            return Some(&inputs[n - 1]);
        }
        n -= 1;
    }
    None
}

/// The record of a source that was extracted.
pub open spec fn extracted_record(output: ExtractorOutput, now: i64) -> RecordModel {
    RecordModel {
        hash: output.file_hash@,
        last_indexed: now,
        symbol_count: output.symbols@.len() as usize as u32,
        language: index_evidence::filed_language(output.file_path@),
    }
}

/// The record of a source whose extraction failed: measured, with nothing covered.
pub open spec fn failed_record(input: InputModel, now: i64) -> RecordModel {
    RecordModel { hash: input.hash, last_indexed: now, symbol_count: 0, language: input.language }
}

/// The known records of sources that still exist.
pub open spec fn kept_records(files: Map<Seq<char>, FileRecord>, inputs: Seq<InputModel>) -> Map<
    Seq<char>,
    RecordModel,
> {
    Map::new(
        |path: Seq<char>| files.dom().contains(path) && source_at(inputs, path) is Some,
        |path: Seq<char>| files[path].deep_view(),
    )
}

/// The records with those of the extracted sources in their place.
pub open spec fn with_extracted(
    records: Map<Seq<char>, RecordModel>,
    outputs: Seq<ExtractorOutput>,
    now: i64,
) -> Map<Seq<char>, RecordModel>
    decreases outputs.len(),
{
    if outputs.len() == 0 {
        records
    } else {
        with_extracted(records, outputs.drop_last(), now).insert(
            outputs.last().file_path@,
            extracted_record(outputs.last(), now),
        )
    }
}

/// The records with those of the failed sources in their place.
pub open spec fn with_failed(
    records: Map<Seq<char>, RecordModel>,
    inputs: Seq<InputModel>,
    errors: Seq<(String, String)>,
    now: i64,
) -> Map<Seq<char>, RecordModel>
    decreases errors.len(),
{
    if errors.len() == 0 {
        records
    } else {
        let before = with_failed(records, inputs, errors.drop_last(), now);
        match source_at(inputs, errors.last().0@) {
            Some(input) => before.insert(input.path, failed_record(input, now)),
            None => before,
        }
    }
}

/// The records of a run's sources.
pub open spec fn final_records(
    files: Map<Seq<char>, FileRecord>,
    inputs: Seq<InputModel>,
    outputs: Seq<ExtractorOutput>,
    errors: Seq<(String, String)>,
    now: i64,
) -> Map<Seq<char>, RecordModel> {
    with_failed(
        with_extracted(kept_records(files, inputs), outputs, now),
        inputs,
        errors,
        now,
    )
}

/// The records of a map, as plain text.
pub open spec fn models(m: Map<Seq<char>, FileRecord>) -> Map<Seq<char>, RecordModel> {
    m.map_values(|record: FileRecord| record.deep_view())
}

/// The paths of a list.
pub open spec fn paths_of(list: Seq<(Seq<char>, RecordModel)>) -> Seq<Seq<char>> {
    list.map_values(|entry: (Seq<char>, RecordModel)| entry.0)
}

/// The list holds exactly the records, in path order.
pub open spec fn lists(
    list: Seq<(Seq<char>, RecordModel)>,
    records: Map<Seq<char>, RecordModel>,
) -> bool {
    &&& ordered::ascending(paths_of(list))
    &&& forall|path: Seq<char>| #[trigger]
        paths_of(list).contains(path) <==> records.dom().contains(path)
    &&& forall|i: int|
        0 <= i < list.len() ==> records.dom().contains((#[trigger] list[i]).0)
            && records[list[i].0] == list[i].1
}

fn push_kept(
    records: &mut StringMap<FileRecord>,
    existing_files: &StringMap<FileRecord>,
    inputs: &Vec<SourceInput>,
)
    requires
        old(records)@ == Map::<Seq<char>, FileRecord>::empty(),
    ensures
        models(final(records)@) == kept_records(existing_files@, inputs.deep_view()),
{
    let ghost sources = inputs.deep_view();
    let ghost wanted = kept_records(existing_files@, sources);
    let mut live: StringMap<()> = StringMap::new();
    for i in 0..inputs.len()
        invariant
            sources == inputs.deep_view(),
            forall|path: Seq<char>| #[trigger]
                live@.dom().contains(path) <==> source_at(sources.take(i as int), path) is Some,
    {
        assert(sources.take(i + 1).drop_last() =~= sources.take(i as int));
        assert(sources[i as int] == inputs@[i as int].deep_view());
        live.insert(inputs[i].relative_path.clone(), ());
    }
    assert(sources.take(sources.len() as int) =~= sources);
    let entries = existing_files.entries();
    let ghost keys = ordered::keys_of(existing_files.listing());
    for i in 0..entries.len()
        invariant
            sources == inputs.deep_view(),
            wanted == kept_records(existing_files@, sources),
            entries@ == existing_files.listing(),
            keys == ordered::keys_of(existing_files.listing()),
            ordered::ascending(keys),
            forall|path: Seq<char>| #[trigger]
                live@.dom().contains(path) <==> source_at(sources, path) is Some,
            forall|path: Seq<char>| #[trigger]
                records@.dom().contains(path) ==> wanted.dom().contains(path)
                    && records@[path].deep_view() == wanted[path],
            forall|j: int|
                0 <= j < i && wanted.dom().contains(#[trigger] keys[j]) ==> records@.dom().contains(
                    keys[j],
                ),
    {
        let path = entries[i].0.as_str();
        proof {
            assert(keys[i as int] == path@);
            ordered::lemma_entry(entries@, i as int);
        }
        if live.contains(path) {
            records.insert(path.to_owned(), entries[i].1.clone());
        }
    }
    proof {
        assert forall|path: Seq<char>| wanted.dom().contains(path) implies records@.dom().contains(
            path,
        ) by {
            assert(keys.contains(path));
            let j = keys.index_of(path);
            assert(keys[j] == path);
        }
        assert(models(records@) =~= wanted);
    }
}

/// Builds the records of a run's sources: the known ones of sources that still exist,
/// those of the extracted sources, and those of the failed ones with nothing covered.
pub fn final_file_records(
    existing_files: &StringMap<FileRecord>,
    inputs: &Vec<SourceInput>,
    outputs: &Vec<ExtractorOutput>,
    errors: &Vec<(String, String)>,
    now: i64,
) -> (r: Vec<(String, FileRecord)>)
    ensures
        lists(
            r.deep_view(),
            final_records(existing_files@, inputs.deep_view(), outputs@, errors@, now),
        ),
{
    let ghost sources = inputs.deep_view();
    let ghost kept = kept_records(existing_files@, sources);
    let mut records: StringMap<FileRecord> = StringMap::new();
    push_kept(&mut records, existing_files, inputs);
    assert(models(records@) =~= with_extracted(kept, outputs@.take(0), now));
    for i in 0..outputs.len()
        invariant
            models(records@) == with_extracted(kept, outputs@.take(i as int), now),
    {
        let ghost before = records@;
        assert(outputs@.take(i + 1).drop_last() =~= outputs@.take(i as int));
        let output = &outputs[i];
        let language = match language_for_path(output.file_path.as_str()) {
            Some(language) => language,
            None => "unknown",
        };
        let record = FileRecord {
            blake3_hash: output.file_hash.clone(),
            last_indexed: now,
            symbol_count: output.symbols.len() as u32,
            language: language.to_owned(),
        };
        assert(record.deep_view() == extracted_record(*output, now));
        let ghost model = record.deep_view();
        records.insert(output.file_path.clone(), record);
        assert(models(records@) =~= models(before).insert(output.file_path@, model));
    }
    assert(outputs@.take(outputs@.len() as int) =~= outputs@);
    let ghost extracted = with_extracted(kept, outputs@, now);
    assert(models(records@) =~= with_failed(extracted, sources, errors@.take(0), now));
    for i in 0..errors.len()
        invariant
            sources == inputs.deep_view(),
            models(records@) == with_failed(extracted, sources, errors@.take(i as int), now),
    {
        let ghost before = records@;
        assert(errors@.take(i + 1).drop_last() =~= errors@.take(i as int));
        if let Some(input) = find_source(inputs, errors[i].0.as_str()) {
            let record = FileRecord {
                blake3_hash: input.content_hash.clone(),
                last_indexed: now,
                symbol_count: 0,
                language: input.language.clone(),
            };
            let ghost model = record.deep_view();
            assert(model == failed_record(input.deep_view(), now));
            records.insert(input.relative_path.clone(), record);
            assert(models(records@) =~= models(before).insert(input.relative_path@, model));
        }
    }
    assert(errors@.take(errors@.len() as int) =~= errors@);
    let ghost wanted = final_records(existing_files@, sources, outputs@, errors@, now);
    assert(models(records@) == wanted);
    assert(records@.dom() =~= wanted.dom());
    let ghost map = records@;
    let ghost listing = records.listing();
    let r = records.into_entries();
    proof {
        let list = r.deep_view();
        assert(paths_of(list) =~= ordered::keys_of(listing));
        assert forall|path: Seq<char>| #[trigger]
            paths_of(list).contains(path) <==> wanted.dom().contains(path) by {
            assert(map.dom().contains(path) <==> ordered::keys_of(listing).contains(path));
        }
        assert forall|i: int| 0 <= i < list.len() implies wanted.dom().contains(
            (#[trigger] list[i]).0,
        ) && wanted[list[i].0] == list[i].1 by {
            ordered::lemma_entry(listing, i);
            assert(list[i].0 == listing[i].0@);
            assert(list[i].1 == listing[i].1.deep_view());
        }
    }
    r
}

proof fn lemma_with_extracted(
    records: Map<Seq<char>, RecordModel>,
    outputs: Seq<ExtractorOutput>,
    now: i64,
    path: Seq<char>,
)
    ensures
        match source_diff::fresh_facts(outputs, path) {
            Some(output) => with_extracted(records, outputs, now).dom().contains(path)
                && with_extracted(records, outputs, now)[path] == extracted_record(output, now),
            None => (with_extracted(records, outputs, now).dom().contains(path)
                <==> records.dom().contains(path)) && (records.dom().contains(path)
                ==> with_extracted(records, outputs, now)[path] == records[path]),
        },
    decreases outputs.len(),
{
    if outputs.len() > 0 {
        lemma_with_extracted(records, outputs.drop_last(), now, path);
    }
}

/// Some error is about the path.
pub open spec fn names_path(errors: Seq<(String, String)>, path: Seq<char>) -> bool {
    exists|i: int| 0 <= i < errors.len() && (#[trigger] errors[i]).0@ == path
}

proof fn lemma_source_at_path(inputs: Seq<InputModel>, path: Seq<char>)
    ensures
        source_at(inputs, path) matches Some(input) ==> input.path == path,
        (exists|i: int| 0 <= i < inputs.len() && (#[trigger] inputs[i]).path == path) <==> source_at(
            inputs,
            path,
        ) is Some,
    decreases inputs.len(),
{
    if inputs.len() > 0 {
        let front = inputs.drop_last();
        lemma_source_at_path(front, path);
        if exists|i: int| 0 <= i < inputs.len() && (#[trigger] inputs[i]).path == path {
            let i = choose|i: int| 0 <= i < inputs.len() && (#[trigger] inputs[i]).path == path;
            if i < front.len() {
                assert(front[i].path == path);
            }
        }
        if source_at(inputs, path) is Some {
            if inputs.last().path == path {
                assert(inputs[inputs.len() - 1].path == path);
            } else {
                let i = choose|i: int| 0 <= i < front.len() && (#[trigger] front[i]).path == path;
                assert(inputs[i].path == path);
            }
        }
    }
}

proof fn lemma_with_failed(
    records: Map<Seq<char>, RecordModel>,
    inputs: Seq<InputModel>,
    errors: Seq<(String, String)>,
    now: i64,
    path: Seq<char>,
)
    ensures
        if names_path(errors, path) && source_at(inputs, path) is Some {
            with_failed(records, inputs, errors, now).dom().contains(path) && with_failed(
                records,
                inputs,
                errors,
                now,
            )[path] == failed_record(source_at(inputs, path)->0, now)
        } else {
            (with_failed(records, inputs, errors, now).dom().contains(path)
                <==> records.dom().contains(path)) && (records.dom().contains(path) ==> with_failed(
                records,
                inputs,
                errors,
                now,
            )[path] == records[path])
        },
    decreases errors.len(),
{
    if errors.len() > 0 {
        let front = errors.drop_last();
        let n = errors.len() - 1;
        lemma_with_failed(records, inputs, front, now, path);
        lemma_source_at_path(inputs, errors.last().0@);
        if names_path(front, path) {
            let i = choose|i: int| 0 <= i < front.len() && (#[trigger] front[i]).0@ == path;
            assert(errors[i].0@ == path);
        }
        if names_path(errors, path) {
            let i = choose|i: int| 0 <= i < errors.len() && (#[trigger] errors[i]).0@ == path;
            if i < n {
                assert(front[i].0@ == path);
            }
        }
        if errors.last().0@ == path {
            assert(errors[n].0@ == path);
        }
    }
}

/// The records are exactly those of the current sources, where every source was known
/// and unchanged, or was extracted, or failed, and nothing but sources was extracted.
pub proof fn law_records_are_the_current_population(
    files: Map<Seq<char>, FileRecord>,
    inputs: Seq<InputModel>,
    outputs: Seq<ExtractorOutput>,
    errors: Seq<(String, String)>,
    now: i64,
    path: Seq<char>,
)
    requires
        source_at(inputs, path) is Some ==> files.dom().contains(path)
            || source_diff::fresh_facts(outputs, path) is Some || names_path(errors, path),
        source_diff::fresh_facts(outputs, path) is Some ==> source_at(inputs, path) is Some,
    ensures
        final_records(files, inputs, outputs, errors, now).dom().contains(path) <==> source_at(
            inputs,
            path,
        ) is Some,
{
    let kept = kept_records(files, inputs);
    lemma_with_extracted(kept, outputs, now, path);
    lemma_with_failed(with_extracted(kept, outputs, now), inputs, errors, now, path);
}

/// Every assembled fact is backed by the record of its path: a run's facts and records
/// can be stored together. Sources that failed in this run were not also extracted.
pub proof fn law_records_back_the_facts(
    full: bool,
    files: Map<Seq<char>, FileRecord>,
    facts: Map<Seq<char>, ExtractorOutput>,
    inputs: Seq<InputModel>,
    outputs: Seq<ExtractorOutput>,
    errors: Seq<(String, String)>,
    now: i64,
    i: int,
)
    requires
        0 <= i < inputs.len(),
        distinct_sources(inputs),
        names_path(errors, inputs[i].path) ==> source_diff::fresh_facts(
            outputs,
            inputs[i].path,
        ) is None && source_diff::needs_extraction(full, inputs[i], files, facts),
        source_diff::current_facts(
            inputs[i],
            outputs,
            source_diff::needs_extraction(full, inputs[i], files, facts),
            facts,
        ) is Some,
    ensures
        ({
            let known = source_diff::current_facts(
                inputs[i],
                outputs,
                source_diff::needs_extraction(full, inputs[i], files, facts),
                facts,
            )->0;
            index_tables::unbacked(
                final_records(files, inputs, outputs, errors, now),
                inputs[i].path,
                known.hash,
            ) is None
        }),
{
    let path = inputs[i].path;
    let kept = kept_records(files, inputs);
    lemma_source_at_path(inputs, path);
    assert(inputs[i].path == path);
    lemma_with_extracted(kept, outputs, now, path);
    lemma_with_failed(with_extracted(kept, outputs, now), inputs, errors, now, path);
}

/// Each assembled fact is that of one source.
pub proof fn lemma_assembled_source(
    full: bool,
    inputs: Seq<InputModel>,
    outputs: Seq<ExtractorOutput>,
    files: Map<Seq<char>, FileRecord>,
    facts: Map<Seq<char>, ExtractorOutput>,
    k: int,
) -> (i: int)
    requires
        0 <= k < source_diff::assembled_facts(full, inputs, outputs, files, facts).len(),
    ensures
        0 <= i < inputs.len(),
        source_diff::current_facts(
            inputs[i],
            outputs,
            source_diff::needs_extraction(full, inputs[i], files, facts),
            facts,
        ) == Some(source_diff::assembled_facts(full, inputs, outputs, files, facts)[k]),
        source_diff::assembled_facts(full, inputs, outputs, files, facts)[k].path == inputs[i].path,
    decreases inputs.len(),
{
    let front = inputs.drop_last();
    let before = source_diff::assembled_facts(full, front, outputs, files, facts);
    if k < before.len() {
        let i = lemma_assembled_source(full, front, outputs, files, facts, k);
        assert(inputs[i] == front[i]);
        i
    } else {
        source_diff::lemma_fresh_path(outputs, inputs.last().path);
        inputs.len() - 1
    }
}

/// The facts about a source are among the assembled ones.
pub proof fn lemma_assembled_holds(
    full: bool,
    inputs: Seq<InputModel>,
    outputs: Seq<ExtractorOutput>,
    files: Map<Seq<char>, FileRecord>,
    facts: Map<Seq<char>, ExtractorOutput>,
    i: int,
) -> (k: int)
    requires
        0 <= i < inputs.len(),
        source_diff::current_facts(
            inputs[i],
            outputs,
            source_diff::needs_extraction(full, inputs[i], files, facts),
            facts,
        ) is Some,
    ensures
        0 <= k < source_diff::assembled_facts(full, inputs, outputs, files, facts).len(),
        source_diff::current_facts(
            inputs[i],
            outputs,
            source_diff::needs_extraction(full, inputs[i], files, facts),
            facts,
        ) == Some(source_diff::assembled_facts(full, inputs, outputs, files, facts)[k]),
        source_diff::assembled_facts(full, inputs, outputs, files, facts)[k].path == inputs[i].path,
    decreases inputs.len(),
{
    let front = inputs.drop_last();
    if i < front.len() {
        assert(inputs[i] == front[i]);
        lemma_assembled_holds(full, front, outputs, files, facts, i)
    } else {
        source_diff::lemma_fresh_path(outputs, inputs.last().path);
        source_diff::assembled_facts(full, front, outputs, files, facts).len() as int
    }
}

/// No two sources have the same path.
pub open spec fn distinct_sources(inputs: Seq<InputModel>) -> bool {
    forall|a: int, b: int|
        0 <= a < b < inputs.len() ==> (#[trigger] inputs[a]).path != (#[trigger] inputs[b]).path
}

/// The facts of distinct sources are about distinct paths.
proof fn lemma_assembled_distinct(
    full: bool,
    inputs: Seq<InputModel>,
    outputs: Seq<ExtractorOutput>,
    files: Map<Seq<char>, FileRecord>,
    facts: Map<Seq<char>, ExtractorOutput>,
    j: int,
    k: int,
)
    requires
        distinct_sources(inputs),
        0 <= j < k < source_diff::assembled_facts(full, inputs, outputs, files, facts).len(),
    ensures
        source_diff::assembled_facts(full, inputs, outputs, files, facts)[j].path
            != source_diff::assembled_facts(full, inputs, outputs, files, facts)[k].path,
    decreases inputs.len(),
{
    let front = inputs.drop_last();
    let before = source_diff::assembled_facts(full, front, outputs, files, facts);
    if k < before.len() {
        assert(distinct_sources(front)) by {
            assert forall|a: int, b: int| 0 <= a < b < front.len() implies (
            #[trigger] front[a]).path != (#[trigger] front[b]).path by {
                assert(inputs[a].path != inputs[b].path);
            }
        }
        lemma_assembled_distinct(full, front, outputs, files, facts, j, k);
    } else {
        let i = lemma_assembled_source(full, front, outputs, files, facts, j);
        source_diff::lemma_fresh_path(outputs, inputs.last().path);
        assert(inputs[i] == front[i]);
        assert(inputs[i].path != inputs[inputs.len() - 1].path);
    }
}

proof fn lemma_listed_record(stored: Seq<EncodedFile>, i: int)
    requires
        0 <= i < stored.len(),
        forall|a: int, b: int|
            0 <= a < b < stored.len() ==> (#[trigger] stored[a]).path@ != (
            #[trigger] stored[b]).path@,
    ensures
        index_tables::listed_records(stored).dom().contains(stored[i].path@),
        index_tables::listed_records(stored)[stored[i].path@] == stored[i].record.deep_view(),
    decreases stored.len(),
{
    let front = stored.drop_last();
    if i < front.len() {
        assert forall|a: int, b: int| 0 <= a < b < front.len() implies (
        #[trigger] front[a]).path@ != (#[trigger] front[b]).path@ by {
            assert(stored[a].path@ != stored[b].path@);
        }
        lemma_listed_record(front, i);
        assert(stored[i].path@ != stored[stored.len() - 1].path@);
    }
}

proof fn lemma_no_repetition(stored: Seq<EncodedFile>, i: int)
    requires
        0 <= i <= stored.len(),
        forall|a: int, b: int|
            0 <= a < b < stored.len() ==> (#[trigger] stored[a]).path@ != (
            #[trigger] stored[b]).path@,
        forall|a: int| 0 <= a < stored.len() ==> (#[trigger] stored[a]).encoded is Ok,
    ensures
        index_tables::repeated_file(stored, i) is None,
        index_tables::file_encoding_fault(stored, i) is None,
    decreases stored.len() - i,
{
    if i < stored.len() {
        lemma_no_repetition(stored, i + 1);
        assert(stored[i].encoded is Ok);
        assert(!index_tables::path_taken(stored, i, stored[i].path@));
    }
}

proof fn lemma_facts_accepted(
    records: Map<Seq<char>, RecordModel>,
    stored: Seq<EncodedFacts>,
    k: int,
)
    requires
        0 <= k <= stored.len(),
        forall|a: int, b: int|
            0 <= a < b < stored.len() ==> (#[trigger] stored[a]).facts.file_path@ != (
            #[trigger] stored[b]).facts.file_path@,
        forall|a: int|
            0 <= a < stored.len() ==> (#[trigger] stored[a]).encoded is Ok
                && index_tables::unbacked(
                records,
                stored[a].facts.file_path@,
                stored[a].facts.file_hash@,
            ) is None,
    ensures
        index_tables::listed_fact_fault(records, stored, k) is None,
    decreases stored.len() - k,
{
    if k < stored.len() {
        lemma_facts_accepted(records, stored, k + 1);
        assert(stored[k].encoded is Ok);
        assert(!index_tables::facts_taken(stored, k, stored[k].facts.file_path@));
    }
}

/// The encoded records are those of the list.
pub open spec fn encodes_records(
    stored: Seq<EncodedFile>,
    list: Seq<(Seq<char>, RecordModel)>,
) -> bool {
    &&& stored.len() == list.len()
    &&& forall|i: int|
        0 <= i < stored.len() ==> (#[trigger] stored[i]).encoded is Ok && stored[i].path@
            == list[i].0 && stored[i].record.deep_view() == list[i].1
}

/// The encoded facts are those of the list.
pub open spec fn encodes_facts(stored: Seq<EncodedFacts>, list: Seq<FactsModel>) -> bool {
    &&& stored.len() == list.len()
    &&& forall|k: int|
        0 <= k < stored.len() ==> (#[trigger] stored[k]).encoded is Ok
            && stored[k].facts.deep_view() == list[k]
}

/// A failed extraction was wanted, and left no facts.
pub open spec fn failures_are_bare(
    full: bool,
    files: Map<Seq<char>, FileRecord>,
    facts: Map<Seq<char>, ExtractorOutput>,
    inputs: Seq<InputModel>,
    outputs: Seq<ExtractorOutput>,
    errors: Seq<(String, String)>,
) -> bool {
    forall|i: int|
        0 <= i < inputs.len() && names_path(errors, (#[trigger] inputs[i]).path)
            ==> source_diff::fresh_facts(outputs, inputs[i].path) is None
            && source_diff::needs_extraction(full, inputs[i], files, facts)
}

/// The records and facts of a run, once encoded, are accepted together as the source
/// state: no record repeats, and a record backs each fact.
pub proof fn law_run_state_is_accepted(
    full: bool,
    files: Map<Seq<char>, FileRecord>,
    facts: Map<Seq<char>, ExtractorOutput>,
    inputs: Seq<InputModel>,
    outputs: Seq<ExtractorOutput>,
    errors: Seq<(String, String)>,
    now: i64,
    list: Seq<(Seq<char>, RecordModel)>,
    stored_files: Seq<EncodedFile>,
    stored_facts: Seq<EncodedFacts>,
)
    requires
        distinct_sources(inputs),
        failures_are_bare(full, files, facts, inputs, outputs, errors),
        lists(list, final_records(files, inputs, outputs, errors, now)),
        encodes_records(stored_files, list),
        encodes_facts(
            stored_facts,
            source_diff::assembled_facts(full, inputs, outputs, files, facts),
        ),
    ensures
        index_tables::source_state_fault(stored_files, stored_facts) is None,
{
    let records = final_records(files, inputs, outputs, errors, now);
    let assembled = source_diff::assembled_facts(full, inputs, outputs, files, facts);
    let paths = paths_of(list);
    assert forall|a: int, b: int| 0 <= a < b < stored_files.len() implies (
    #[trigger] stored_files[a]).path@ != (#[trigger] stored_files[b]).path@ by {
        assert(paths[a] == list[a].0 && paths[b] == list[b].0);
        assert(text::seq_lt(paths[a], paths[b]));
        text::lemma_lt_irreflexive(paths[a]);
    }
    lemma_no_repetition(stored_files, 0);
    let held = index_tables::listed_records(stored_files);
    assert forall|k: int| 0 <= k < stored_facts.len() implies (#[trigger] stored_facts[k]).encoded is Ok
        && index_tables::unbacked(
        held,
        stored_facts[k].facts.file_path@,
        stored_facts[k].facts.file_hash@,
    ) is None by {
        let i = lemma_assembled_source(full, inputs, outputs, files, facts, k);
        assert(stored_facts[k].facts.deep_view() == assembled[k]);
        assert(inputs[i].path == assembled[k].path);
        law_records_back_the_facts(full, files, facts, inputs, outputs, errors, now, i);
        let path = inputs[i].path;
        assert(records.dom().contains(path));
        assert(paths.contains(path));
        let p = paths.index_of(path);
        assert(list[p].0 == path);
        assert(stored_files[p].path@ == path);
        lemma_listed_record(stored_files, p);
    }
    assert forall|a: int, b: int| 0 <= a < b < stored_facts.len() implies (
    #[trigger] stored_facts[a]).facts.file_path@ != (#[trigger] stored_facts[b]).facts.file_path@ by {
        lemma_assembled_distinct(full, inputs, outputs, files, facts, a, b);
        assert(stored_facts[a].facts.deep_view() == assembled[a]);
        assert(stored_facts[b].facts.deep_view() == assembled[b]);
    }
    lemma_facts_accepted(held, stored_facts, 0);
}

/// The symbols of the records together.
pub open spec fn symbol_total(files: Seq<(Seq<char>, RecordModel)>) -> int
    decreases files.len(),
{
    if files.len() == 0 {
        0
    } else {
        symbol_total(files.drop_last()) + files.last().1.symbol_count
    }
}

proof fn lemma_symbols_grow(files: Seq<(Seq<char>, RecordModel)>, i: int)
    requires
        0 <= i <= files.len(),
    ensures
        0 <= symbol_total(files.take(i)) <= symbol_total(files),
    decreases files.len() - i,
{
    if i == files.len() {
        assert(files.take(i) =~= files);
        lemma_symbols_nonnegative(files);
    } else {
        lemma_symbols_grow(files, i + 1);
        assert(files.take(i + 1).drop_last() =~= files.take(i));
        lemma_symbols_nonnegative(files.take(i));
    }
}

proof fn lemma_symbols_nonnegative(files: Seq<(Seq<char>, RecordModel)>)
    ensures
        0 <= symbol_total(files),
    decreases files.len(),
{
    if files.len() > 0 {
        lemma_symbols_nonnegative(files.drop_last());
    }
}

/// The metadata of a run. A full run is a full scan; any other keeps the time of the
/// last one.
pub fn index_metadata(
    repo_root: &str,
    full: bool,
    prior: &Option<IndexMetadata>,
    now: i64,
    files: &Vec<(String, FileRecord)>,
    edge_count: usize,
) -> (r: IndexMetadata)
    requires
        symbol_total(files.deep_view()) <= u64::MAX,
    ensures
        r.deep_view() == (MetadataModel {
            repo_root: repo_root@,
            last_full_scan: if full {
                Some(now)
            } else {
                match *prior {
                    Some(metadata) => metadata.last_full_scan,
                    None => None,
                }
            },
            last_update: Some(now),
            git_head: None,
            total_files: files@.len() as u64,
            total_symbols: symbol_total(files.deep_view()) as u64,
            total_edges: edge_count as u64,
        }),
{
    let ghost all = files.deep_view();
    let mut total_symbols: u64 = 0;
    for i in 0..files.len()
        invariant
            all == files.deep_view(),
            symbol_total(all) <= u64::MAX,
            total_symbols == symbol_total(all.take(i as int)),
    {
        proof {
            lemma_symbols_grow(all, i + 1);
            assert(all.take(i + 1).drop_last() =~= all.take(i as int));
            assert(all[i as int].1 == files@[i as int].1.deep_view());
        }
        total_symbols = total_symbols + files[i].1.symbol_count as u64;
    }
    assert(all.take(all.len() as int) =~= all);
    let last_full_scan = if full {
        Some(now)
    } else {
        match prior {
            Some(metadata) => metadata.last_full_scan,
            None => None,
        }
    };
    IndexMetadata {
        repo_root: repo_root.to_owned(),
        last_full_scan,
        last_update: Some(now),
        git_head: None,
        total_files: files.len() as u64,
        total_symbols,
        total_edges: edge_count as u64,
    }
}

/// A source as the semantic providers see it.
#[derive(Debug, Clone, PartialEq, Eq)]
pub struct IndexedSourceEvidence {
    pub relative_path: String,
    pub language: String,
    pub blake3_hash: String,
    /// What other documents see of it, if it was extracted.
    pub cross_document_surface_sha256: Option<String>,
}

/// A source for the providers, as plain text.
pub struct SourceEvidenceModel {
    pub path: Seq<char>,
    pub language: Seq<char>,
    pub hash: Seq<char>,
    pub surface: Option<Seq<char>>,
}

impl DeepView for IndexedSourceEvidence {
    type V = SourceEvidenceModel;

    open spec fn deep_view(&self) -> SourceEvidenceModel {
        SourceEvidenceModel {
            path: self.relative_path@,
            language: self.language@,
            hash: self.blake3_hash@,
            surface: self.cross_document_surface_sha256.deep_view(),
        }
    }
}

/// The surface that the last facts about a path report.
pub open spec fn surface_of(facts: Seq<FactsModel>, path: Seq<char>) -> Option<Seq<char>>
    decreases facts.len(),
{
    if facts.len() == 0 {
        None
    } else if facts.last().path == path {
        Some(facts.last().surface)
    } else {
        surface_of(facts.drop_last(), path)
    }
}

/// The source with its surface.
pub open spec fn source_evidence(input: InputModel, facts: Seq<FactsModel>) -> SourceEvidenceModel {
    SourceEvidenceModel {
        path: input.path,
        language: input.language,
        hash: input.hash,
        surface: surface_of(facts, input.path),
    }
}

fn index_surfaces(facts: &Vec<ExtractorOutput>) -> (r: StringMap<usize>)
    ensures
        forall|path: Seq<char>| #[trigger]
            r@.dom().contains(path) <==> surface_of(facts.deep_view(), path) is Some,
        forall|path: Seq<char>| #[trigger]
            r@.dom().contains(path) ==> r@[path] < facts@.len()
                && facts@[r@[path] as int].cross_document_surface_sha256@ == surface_of(
                facts.deep_view(),
                path,
            )->0,
{
    let ghost all = facts.deep_view();
    let mut r: StringMap<usize> = StringMap::new();
    for i in 0..facts.len()
        invariant
            all == facts.deep_view(),
            forall|path: Seq<char>| #[trigger]
                r@.dom().contains(path) <==> surface_of(all.take(i as int), path) is Some,
            forall|path: Seq<char>| #[trigger]
                r@.dom().contains(path) ==> r@[path] < facts@.len()
                    && facts@[r@[path] as int].cross_document_surface_sha256@ == surface_of(
                    all.take(i as int),
                    path,
                )->0,
    {
        assert(all.take(i + 1).drop_last() =~= all.take(i as int));
        assert(all[i as int] == facts@[i as int].deep_view());
        r.insert(facts[i].file_path.clone(), i);
    }
    assert(all.take(all.len() as int) =~= all);
    r
}

/// The sources as the semantic providers see them.
pub fn indexed_source_evidence(inputs: &Vec<SourceInput>, facts: &Vec<ExtractorOutput>) -> (r: Vec<
    IndexedSourceEvidence,
>)
    ensures
        r.deep_view() == inputs.deep_view().map_values(
            |input: InputModel| source_evidence(input, facts.deep_view()),
        ),
{
    let ghost all = inputs.deep_view();
    let ghost known = facts.deep_view();
    let surfaces = index_surfaces(facts);
    let mut r: Vec<IndexedSourceEvidence> = Vec::new();
    for i in 0..inputs.len()
        invariant
            all == inputs.deep_view(),
            known == facts.deep_view(),
            forall|path: Seq<char>| #[trigger]
                surfaces@.dom().contains(path) <==> surface_of(known, path) is Some,
            forall|path: Seq<char>| #[trigger]
                surfaces@.dom().contains(path) ==> surfaces@[path] < facts@.len()
                    && facts@[surfaces@[path] as int].cross_document_surface_sha256@ == surface_of(
                    known,
                    path,
                )->0,
            r@.len() == i,
            forall|j: int|
                0 <= j < i ==> (#[trigger] r@[j]).deep_view() == source_evidence(all[j], known),
    {
        let input = &inputs[i];
        assert(all[i as int] == input.deep_view());
        let surface = match surfaces.get(input.relative_path.as_str()) {
            Some(k) => Some(facts[*k].cross_document_surface_sha256.clone()),
            None => None,
        };
        assert(surface.deep_view() == surface_of(known, input.relative_path@));
        r.push(
            IndexedSourceEvidence {
                relative_path: input.relative_path.clone(),
                language: input.language.clone(),
                blake3_hash: input.content_hash.clone(),
                cross_document_surface_sha256: surface,
            },
        );
    }
    assert(r.deep_view() =~= all.map_values(|input: InputModel| source_evidence(input, known)));
    r
}

/// The source at position `i` is the last one with the path.
pub open spec fn is_last_source(inputs: Seq<InputModel>, i: int, path: Seq<char>) -> bool {
    &&& 0 <= i < inputs.len()
    &&& inputs[i].path == path
    &&& forall|l: int| i < l < inputs.len() ==> (#[trigger] inputs[l]).path != path
}

/// Some source has the path.
pub open spec fn is_source(inputs: Seq<InputModel>, path: Seq<char>) -> bool {
    exists|i: int| 0 <= i < inputs.len() && (#[trigger] inputs[i]).path == path
}

proof fn lemma_source_at(inputs: Seq<InputModel>, path: Seq<char>)
    ensures
        source_at(inputs, path) is Some <==> is_source(inputs, path),
        source_at(inputs, path) is Some ==> source_at(inputs, path)->0.path == path,
        forall|i: int| #[trigger]
            is_last_source(inputs, i, path) ==> source_at(inputs, path) == Some(inputs[i]),
    decreases inputs.len(),
{
    if inputs.len() > 0 {
        let n = inputs.len() - 1;
        let front = inputs.drop_last();
        lemma_source_at(front, path);
        assert(inputs[n] == inputs.last());
        if is_source(front, path) {
            let i = choose|i: int| 0 <= i < front.len() && (#[trigger] front[i]).path == path;
            assert(inputs[i] == front[i]);
        }
        if is_source(inputs, path) {
            let i = choose|i: int| 0 <= i < inputs.len() && (#[trigger] inputs[i]).path == path;
            if i < n {
                assert(front[i] == inputs[i]);
            }
        }
        assert forall|i: int| #[trigger] is_last_source(inputs, i, path) implies source_at(
            inputs,
            path,
        ) == Some(inputs[i]) by {
            if inputs[n].path == path {
                if i < n {
                    assert(inputs[n].path != path);
                }
            } else {
                assert(i < n);
                assert(front[i] == inputs[i]);
                assert forall|l: int| i < l < front.len() implies (#[trigger] front[l]).path
                    != path by {
                    assert(front[l] == inputs[l]);
                }
                assert(is_last_source(front, i, path));
            }
        }
    }
}

proof fn lemma_extracted_of(
    records: Map<Seq<char>, RecordModel>,
    outputs: Seq<ExtractorOutput>,
    now: i64,
    path: Seq<char>,
)
    ensures
        ({
            let all = with_extracted(records, outputs, now);
            &&& source_diff::none_about(outputs, path) ==> (all.dom().contains(path)
                <==> records.dom().contains(path)) && all[path] == records[path]
            &&& forall|j: int| #[trigger]
                source_diff::is_last_about(outputs, j, path) ==> all.dom().contains(path)
                    && all[path] == extracted_record(outputs[j], now)
        }),
    decreases outputs.len(),
{
    if outputs.len() > 0 {
        let n = outputs.len() - 1;
        let front = outputs.drop_last();
        lemma_extracted_of(records, front, now, path);
        let all = with_extracted(records, outputs, now);
        assert(outputs[n] == outputs.last());
        if source_diff::none_about(outputs, path) {
            assert forall|l: int| 0 <= l < front.len() implies (#[trigger] front[l]).file_path@
                != path by {
                assert(front[l] == outputs[l]);
            }
            assert(outputs[n].file_path@ != path);
        }
        assert forall|j: int| #[trigger]
            source_diff::is_last_about(outputs, j, path) implies all.dom().contains(path)
            && all[path] == extracted_record(outputs[j], now) by {
            if j < n {
                assert(outputs[n].file_path@ != path);
                assert(front[j] == outputs[j]);
                assert forall|l: int| j < l < front.len() implies (#[trigger] front[l]).file_path@
                    != path by {
                    assert(front[l] == outputs[l]);
                }
                assert(source_diff::is_last_about(front, j, path));
            }
        }
    }
}

proof fn lemma_failed_of(
    records: Map<Seq<char>, RecordModel>,
    inputs: Seq<InputModel>,
    errors: Seq<(String, String)>,
    now: i64,
    path: Seq<char>,
)
    ensures
        ({
            let all = with_failed(records, inputs, errors, now);
            let failed = names_path(errors, path) && source_at(inputs, path) is Some;
            &&& failed ==> all.dom().contains(path) && all[path] == failed_record(
                source_at(inputs, path)->0,
                now,
            )
            &&& !failed ==> (all.dom().contains(path) <==> records.dom().contains(path))
                && all[path] == records[path]
        }),
    decreases errors.len(),
{
    lemma_source_at(inputs, path);
    if errors.len() > 0 {
        let n = errors.len() - 1;
        let front = errors.drop_last();
        lemma_failed_of(records, inputs, front, now, path);
        assert(errors[n] == errors.last());
        lemma_source_at(inputs, errors[n].0@);
        if names_path(front, path) {
            let i = choose|i: int| 0 <= i < front.len() && (#[trigger] front[i]).0@ == path;
            assert(errors[i] == front[i]);
        }
        if names_path(errors, path) {
            let i = choose|i: int| 0 <= i < errors.len() && (#[trigger] errors[i]).0@ == path;
            if i < n {
                assert(front[i] == errors[i]);
            }
        }
    }
}

/// What is recorded of a path. A source whose extraction failed is recorded with its measured
/// bytes and nothing covered. Else, what was extracted of a path is recorded with the bytes
/// and the number of symbols that were extracted, and the language of its name. Else, a source
/// that still exists keeps its record. Nothing else is recorded.
pub proof fn law_records_are_exact(
    files: Map<Seq<char>, FileRecord>,
    inputs: Seq<InputModel>,
    outputs: Seq<ExtractorOutput>,
    errors: Seq<(String, String)>,
    now: i64,
    path: Seq<char>,
    i: int,
    j: int,
)
    ensures
        ({
            let records = final_records(files, inputs, outputs, errors, now);
            let failed = names_path(errors, path) && is_source(inputs, path);
            &&& failed && is_last_source(inputs, i, path) ==> records.dom().contains(path)
                && records[path] == (RecordModel {
                hash: inputs[i].hash,
                last_indexed: now,
                symbol_count: 0,
                language: inputs[i].language,
            })
            &&& !failed && source_diff::is_last_about(outputs, j, path) ==> records.dom().contains(
                path,
            ) && records[path] == (RecordModel {
                hash: outputs[j].file_hash@,
                last_indexed: now,
                symbol_count: outputs[j].symbols@.len() as usize as u32,
                language: index_evidence::filed_language(path),
            })
            &&& !failed && source_diff::none_about(outputs, path) && is_source(inputs, path)
                && files.dom().contains(path) ==> records.dom().contains(path) && records[path]
                == files[path].deep_view()
            &&& source_diff::none_about(outputs, path) && (!is_source(inputs, path) || (
            !files.dom().contains(path) && !names_path(errors, path)))
                ==> !records.dom().contains(path)
        }),
{
    let kept = kept_records(files, inputs);
    let extracted = with_extracted(kept, outputs, now);
    lemma_source_at(inputs, path);
    lemma_extracted_of(kept, outputs, now, path);
    lemma_failed_of(extracted, inputs, errors, now, path);
}

/// The symbols of the records together: one record more adds its own.
pub proof fn law_symbol_total_adds_up(
    files: Seq<(Seq<char>, RecordModel)>,
    added: (Seq<char>, RecordModel),
)
    ensures
        symbol_total(files.push(added)) == symbol_total(files) + added.1.symbol_count,
        symbol_total(seq![]) == 0,
{
    assert(files.push(added).drop_last() =~= files);
}

/// The surface of a source is what the last facts about its path report, and none where there
/// are no facts about it.
pub proof fn law_surface_is_the_last_reported(facts: Seq<FactsModel>, path: Seq<char>, j: int)
    ensures
        0 <= j < facts.len() && facts[j].path == path && (forall|l: int|
            j < l < facts.len() ==> (#[trigger] facts[l]).path != path) ==> surface_of(
            facts,
            path,
        ) == Some(facts[j].surface),
        (forall|l: int| 0 <= l < facts.len() ==> (#[trigger] facts[l]).path != path)
            <==> surface_of(facts, path) is None,
    decreases facts.len(),
{
    if facts.len() > 0 {
        let n = facts.len() - 1;
        let front = facts.drop_last();
        law_surface_is_the_last_reported(front, path, j);
        assert(facts[n] == facts.last());
        assert(forall|l: int| 0 <= l < front.len() ==> #[trigger] front[l] == facts[l]);
        if facts[n].path != path {
            if forall|l: int| 0 <= l < front.len() ==> (#[trigger] front[l]).path != path {
                assert forall|l: int| 0 <= l < facts.len() implies (#[trigger] facts[l]).path
                    != path by {
                    if l < n {
                        assert(front[l] == facts[l]);
                    }
                }
            }
        }
        if 0 <= j < n && facts[j].path == path && (forall|l: int|
            j < l < facts.len() ==> (#[trigger] facts[l]).path != path) {
            assert(facts[n].path != path);
            assert(front[j] == facts[j]);
        }
    }
}

} // verus!
