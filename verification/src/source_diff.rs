//! What changed since the last generation, and which extraction facts still hold.

use vstd::prelude::*;

use crate::digest;
use crate::index_evidence;
use crate::index_state::{ExtractorOutput, FactsModel, FileRecord};
use crate::indexed_source_authority::language_for_path;
use crate::ordered;
use crate::ordered::StringMap;
use crate::sorting;
use crate::structural_inputs::{InputModel, SourceInput};
use crate::text;
use crate::values::Value;

verus! {

/// A discovered source with what it was measured to be.
#[derive(Debug, Clone, PartialEq, Eq)]
pub struct MeasuredSource {
    /// Where it is.
    pub path: String,
    pub input: SourceInput,
}

/// Measures a source: its language by its name, its digest by its bytes.
pub fn measure_source(path: &str, relative_path: &str, contents: &[u8]) -> (r: MeasuredSource)
    ensures
        r.path@ == path@,
        r.input.deep_view() == (InputModel {
            path: relative_path@,
            language: index_evidence::filed_language(path@),
            hash: digest::content_digest(contents@),
        }),
{
    let language = match language_for_path(path) {
        Some(language) => language,
        None => "unknown",
    };
    MeasuredSource {
        path: path.to_owned(),
        input: SourceInput {
            relative_path: relative_path.to_owned(),
            language: language.to_owned(),
            content_hash: digest::content_hash(contents),
        },
    }
}

/// The inputs of some sources.
pub open spec fn inputs_of(sources: Seq<MeasuredSource>) -> Seq<InputModel> {
    sources.map_values(|source: MeasuredSource| source.input.deep_view())
}

/// The source has the recorded digest, and facts about exactly these bytes exist.
pub open spec fn is_unchanged(
    input: InputModel,
    files: Map<Seq<char>, FileRecord>,
    facts: Map<Seq<char>, ExtractorOutput>,
) -> bool {
    &&& files.dom().contains(input.path)
    &&& facts.dom().contains(input.path)
    &&& files[input.path].blake3_hash@ == input.hash
    &&& facts[input.path].file_path@ == input.path
    &&& facts[input.path].file_hash@ == input.hash
}

/// The source has to be extracted.
pub open spec fn needs_extraction(
    full: bool,
    input: InputModel,
    files: Map<Seq<char>, FileRecord>,
    facts: Map<Seq<char>, ExtractorOutput>,
) -> bool {
    full || !is_unchanged(input, files, facts)
}

/// The positions of the sources that have to be extracted, in order.
pub open spec fn changed_positions(
    full: bool,
    inputs: Seq<InputModel>,
    files: Map<Seq<char>, FileRecord>,
    facts: Map<Seq<char>, ExtractorOutput>,
) -> Seq<usize>
    decreases inputs.len(),
{
    if inputs.len() == 0 {
        seq![]
    } else {
        let before = changed_positions(full, inputs.drop_last(), files, facts);
        if needs_extraction(full, inputs.last(), files, facts) {
            before.push((inputs.len() - 1) as usize)
        } else {
            before
        }
    }
}

/// The paths of the sources.
pub open spec fn source_paths(inputs: Seq<InputModel>) -> Set<Seq<char>> {
    Set::new(
        |path: Seq<char>|
            exists|i: int| 0 <= i < inputs.len() && (#[trigger] inputs[i]).path == path,
    )
}

/// What changed.
#[derive(Debug)]
pub struct SourceDiff {
    /// The positions of the sources to extract.
    pub changed: Vec<usize>,
    pub unchanged_count: usize,
    /// The recorded paths that are gone, in order.
    pub deleted_paths: Vec<String>,
}

fn unchanged(
    input: &SourceInput,
    files: &StringMap<FileRecord>,
    facts: &StringMap<ExtractorOutput>,
) -> (r: bool)
    ensures
        r == is_unchanged(input.deep_view(), files@, facts@),
{
    let path = input.relative_path.as_str();
    match (files.get(path), facts.get(path)) {
        (Some(record), Some(known)) => record.blake3_hash.same(&input.content_hash)
            && known.file_path.same(&input.relative_path) && known.file_hash.same(
            &input.content_hash,
        ),
        _ => false,
    }
}

/// Compares the sources with what the last generation recorded of them.
pub fn diff_sources(
    full: bool,
    sources: &Vec<MeasuredSource>,
    existing_files: &StringMap<FileRecord>,
    existing_facts: &StringMap<ExtractorOutput>,
) -> (r: SourceDiff)
    ensures
        r.changed@ == changed_positions(
            full,
            inputs_of(sources@),
            existing_files@,
            existing_facts@,
        ),
        r.unchanged_count + r.changed@.len() == sources@.len(),
        r.deleted_paths.deep_view() == sorting::listed(
            existing_files@.dom().difference(source_paths(inputs_of(sources@))),
        ),
        forall|i: int| 0 <= i < r.changed@.len() ==> #[trigger] r.changed@[i] < sources@.len(),
{
    let ghost inputs = inputs_of(sources@);
    let mut changed: Vec<usize> = Vec::new();
    let mut unchanged_count: usize = 0;
    let mut live: StringMap<()> = StringMap::new();
    for i in 0..sources.len()
        invariant
            inputs == inputs_of(sources@),
            changed@ == changed_positions(
                full,
                inputs.take(i as int),
                existing_files@,
                existing_facts@,
            ),
            unchanged_count + changed@.len() == i,
            forall|j: int| 0 <= j < changed@.len() ==> #[trigger] changed@[j] < i,
            forall|path: Seq<char>| #[trigger]
                live@.dom().contains(path) <==> exists|j: int|
                    0 <= j < i && (#[trigger] inputs[j]).path == path,
    {
        let input = &sources[i].input;
        assert(inputs[i as int] == input.deep_view());
        assert(inputs.take(i + 1).drop_last() =~= inputs.take(i as int));
        live.insert(input.relative_path.clone(), ());
        if full || !unchanged(input, existing_files, existing_facts) {
            changed.push(i);
        } else {
            unchanged_count += 1;
        }
    }
    assert(inputs.take(inputs.len() as int) =~= inputs);
    let ghost gone = existing_files@.dom().difference(source_paths(inputs));
    let mut deleted: StringMap<()> = StringMap::new();
    let entries = existing_files.entries();
    let ghost keys = ordered::keys_of(existing_files.listing());
    for i in 0..entries.len()
        invariant
            entries@ == existing_files.listing(),
            keys == ordered::keys_of(existing_files.listing()),
            forall|path: Seq<char>| #[trigger]
                deleted@.dom().contains(path) <==> !live@.dom().contains(path) && exists|j: int|
                    0 <= j < i && #[trigger] keys[j] == path,
    {
        assert(keys[i as int] == entries@[i as int].0@);
        if !live.contains(entries[i].0.as_str()) {
            deleted.insert(entries[i].0.clone(), ());
        }
    }
    proof {
        assert forall|path: Seq<char>| deleted@.dom().contains(path) <==> gone.contains(path) by {
            if existing_files@.dom().contains(path) {
                assert(keys.contains(path));
                assert(keys[keys.index_of(path)] == path);
            }
            if exists|j: int| 0 <= j < keys.len() && #[trigger] keys[j] == path {
                assert(keys.contains(path));
            }
        }
        assert(deleted@.dom() =~= gone);
    }
    let list = deleted.entries();
    let mut deleted_paths: Vec<String> = Vec::new();
    for i in 0..list.len()
        invariant
            list@ == deleted.listing(),
            deleted_paths@.len() == i,
            forall|j: int| 0 <= j < i ==> (#[trigger] deleted_paths@[j])@ == list@[j].0@,
    {
        deleted_paths.push(list[i].0.clone());
    }
    proof {
        sorting::lemma_listed(deleted.listing());
        assert(deleted_paths.deep_view() =~= ordered::keys_of(deleted.listing()));
    }
    SourceDiff { changed, unchanged_count, deleted_paths }
}

/// Divides extraction results into facts and failures, in order.
pub open spec fn extracted(results: Seq<Result<ExtractorOutput, String>>) -> Seq<ExtractorOutput>
    decreases results.len(),
{
    if results.len() == 0 {
        seq![]
    } else {
        let before = extracted(results.drop_last());
        match results.last() {
            Ok(output) => before.push(output),
            Err(_) => before,
        }
    }
}

pub open spec fn failed(paths: Seq<String>, results: Seq<Result<ExtractorOutput, String>>) -> Seq<
    (Seq<char>, Seq<char>),
>
    decreases results.len(),
{
    if results.len() == 0 {
        seq![]
    } else {
        let before = failed(paths, results.drop_last());
        match results.last() {
            Ok(_) => before,
            Err(message) => before.push((paths[results.len() - 1]@, message@)),
        }
    }
}

/// Divides extraction results into facts and failures. The result at a position is that
/// of the path there.
pub fn partition_results(paths: &Vec<String>, results: Vec<Result<ExtractorOutput, String>>) -> (r:
    (Vec<ExtractorOutput>, Vec<(String, String)>))
    requires
        results@.len() <= paths@.len(),
    ensures
        r.0@ == extracted(results@),
        r.1.deep_view() == failed(paths@, results@),
{
    let ghost all = results@;
    let mut outputs: Vec<ExtractorOutput> = Vec::new();
    let mut errors: Vec<(String, String)> = Vec::new();
    let mut i: usize = 0;
    let n = paths.len();
    assert(outputs@ =~= extracted(all.take(0)));
    assert(errors.deep_view() =~= failed(paths@, all.take(0)));
    for result in it: results.into_iter()
        invariant
            it.seq() == all,
            i == it.index(),
            n == paths@.len(),
            all.len() <= n,
            outputs@ == extracted(all.take(it.index() as int)),
            errors.deep_view() == failed(paths@, all.take(it.index() as int)),
    {
        let ghost k = it.index() as int;
        let ghost next = all.take(k + 1);
        let ghost before = errors.deep_view();
        assert(next.drop_last() =~= all.take(k));
        assert(next.last() == result);
        match result {
            Ok(output) => {
                outputs.push(output);
            },
            Err(message) => {
                let ghost words = message@;
                errors.push((paths[i].clone(), message));
                assert(errors.deep_view() =~= before.push((paths@[k]@, words)));
            },
        }
        i = i + 1;
    }
    assert(all.take(all.len() as int) =~= all);
    (outputs, errors)
}

/// The last facts about a path.
pub open spec fn fresh_facts(outputs: Seq<ExtractorOutput>, path: Seq<char>) -> Option<
    ExtractorOutput,
>
    decreases outputs.len(),
{
    if outputs.len() == 0 {
        None
    } else if outputs.last().file_path@ == path {
        Some(outputs.last())
    } else {
        fresh_facts(outputs.drop_last(), path)
    }
}

fn find_fresh<'a>(outputs: &'a Vec<ExtractorOutput>, path: &str) -> (r: Option<&'a ExtractorOutput>)
    ensures
        match r {
            Some(output) => fresh_facts(outputs@, path@) == Some(*output),
            None => fresh_facts(outputs@, path@) is None,
        },
{
    let mut n: usize = outputs.len();
    assert(outputs@.take(n as int) =~= outputs@);
    while n > 0
        invariant
            n <= outputs@.len(),
            fresh_facts(outputs@.take(n as int), path@) == fresh_facts(outputs@, path@),
        decreases n,
    {
        assert(outputs@.take(n as int).last() == outputs@[n - 1]);
        assert(outputs@.take(n as int).drop_last() =~= outputs@.take(n - 1));
        if text::same(outputs[n - 1].file_path.as_str(), path) {
            return Some(&outputs[n - 1]);
        }
        n -= 1;
    }
    None
}

/// The facts about a source: those extracted now; else, if it did not have to be
/// extracted, the known ones about exactly these bytes. Facts of a changed source are
/// never carried over.
pub open spec fn current_facts(
    input: InputModel,
    outputs: Seq<ExtractorOutput>,
    extracting: bool,
    facts: Map<Seq<char>, ExtractorOutput>,
) -> Option<FactsModel> {
    match fresh_facts(outputs, input.path) {
        Some(output) => Some(output.deep_view()),
        None => if !extracting && facts.dom().contains(input.path)
            && facts[input.path].file_path@ == input.path && facts[input.path].file_hash@
            == input.hash {
            Some(facts[input.path].deep_view())
        } else {
            None
        },
    }
}

/// The facts about the sources, in order.
pub open spec fn assembled_facts(
    full: bool,
    inputs: Seq<InputModel>,
    outputs: Seq<ExtractorOutput>,
    files: Map<Seq<char>, FileRecord>,
    facts: Map<Seq<char>, ExtractorOutput>,
) -> Seq<FactsModel>
    decreases inputs.len(),
{
    if inputs.len() == 0 {
        seq![]
    } else {
        let before = assembled_facts(full, inputs.drop_last(), outputs, files, facts);
        let last = inputs.last();
        match current_facts(last, outputs, needs_extraction(full, last, files, facts), facts) {
            Some(known) => before.push(known),
            None => before,
        }
    }
}

/// Assembles the complete facts of the current sources.
pub fn assemble_document_facts(
    full: bool,
    sources: &Vec<MeasuredSource>,
    outputs: &Vec<ExtractorOutput>,
    existing_files: &StringMap<FileRecord>,
    existing_facts: &StringMap<ExtractorOutput>,
) -> (r: Vec<ExtractorOutput>)
    ensures
        r.deep_view() == assembled_facts(
            full,
            inputs_of(sources@),
            outputs@,
            existing_files@,
            existing_facts@,
        ),
{
    let ghost inputs = inputs_of(sources@);
    let mut r: Vec<ExtractorOutput> = Vec::new();
    assert(r.deep_view() =~= assembled_facts(
        full,
        inputs.take(0),
        outputs@,
        existing_files@,
        existing_facts@,
    ));
    for i in 0..sources.len()
        invariant
            inputs == inputs_of(sources@),
            r.deep_view() == assembled_facts(
                full,
                inputs.take(i as int),
                outputs@,
                existing_files@,
                existing_facts@,
            ),
    {
        let input = &sources[i].input;
        assert(inputs[i as int] == input.deep_view());
        assert(inputs.take(i + 1).drop_last() =~= inputs.take(i as int));
        let ghost before = r.deep_view();
        let path = input.relative_path.as_str();
        match find_fresh(outputs, path) {
            Some(output) => {
                let copy = output.copy();
                r.push(copy);
                assert(r.deep_view() =~= before.push(output.deep_view()));
            },
            None => {
                if !full && unchanged(input, existing_files, existing_facts) {
                    if let Some(known) = existing_facts.get(path) {
                        let copy = known.copy();
                        r.push(copy);
                        assert(r.deep_view() =~= before.push(known.deep_view()));
                    }
                }
            },
        }
    }
    assert(inputs.take(inputs.len() as int) =~= inputs);
    r
}

/// The paths whose symbols leave a graph that is built on: those of the sources to
/// extract, and those that are gone.
pub fn paths_to_invalidate(sources: &Vec<MeasuredSource>, diff: &SourceDiff) -> (r: Vec<String>)
    requires
        forall|i: int|
            0 <= i < diff.changed@.len() ==> #[trigger] diff.changed@[i] < sources@.len(),
    ensures
        r.deep_view() == diff.changed@.map_values(
            |k: usize| sources@[k as int].input.relative_path@,
        ) + diff.deleted_paths.deep_view(),
{
    let mut r: Vec<String> = Vec::new();
    let ghost f = |k: usize| sources@[k as int].input.relative_path@;
    for i in 0..diff.changed.len()
        invariant
            forall|j: int|
                0 <= j < diff.changed@.len() ==> #[trigger] diff.changed@[j] < sources@.len(),
            r@.len() == i,
            forall|j: int|
                0 <= j < i ==> (#[trigger] r@[j])@
                    == sources@[diff.changed@[j] as int].input.relative_path@,
    {
        r.push(sources[diff.changed[i]].input.relative_path.clone());
    }
    let ghost front = r.deep_view();
    assert(front =~= diff.changed@.map_values(f));
    for i in 0..diff.deleted_paths.len()
        invariant
            r.deep_view() =~= front + diff.deleted_paths.deep_view().take(i as int),
    {
        let ghost before = r.deep_view();
        r.push(diff.deleted_paths[i].clone());
        assert(r.deep_view() =~= before.push(diff.deleted_paths@[i as int]@));
        assert(diff.deleted_paths.deep_view()[i as int] == diff.deleted_paths@[i as int]@);
    }
    assert(r.deep_view() =~= front + diff.deleted_paths.deep_view());
    r
}

/// A source that had to be extracted and was not has no facts: what was known of other
/// bytes is never carried over.
pub proof fn law_failed_extraction_has_no_facts(
    input: InputModel,
    outputs: Seq<ExtractorOutput>,
    facts: Map<Seq<char>, ExtractorOutput>,
)
    requires
        fresh_facts(outputs, input.path) is None,
    ensures
        current_facts(input, outputs, true, facts) is None,
{
}

/// Every assembled fact is about a current source: it was extracted in this run, or it
/// carries that source's path and digest.
pub proof fn law_facts_are_about_current_sources(
    full: bool,
    inputs: Seq<InputModel>,
    outputs: Seq<ExtractorOutput>,
    files: Map<Seq<char>, FileRecord>,
    facts: Map<Seq<char>, ExtractorOutput>,
    k: int,
)
    requires
        0 <= k < assembled_facts(full, inputs, outputs, files, facts).len(),
    ensures
        exists|i: int|
            0 <= i < inputs.len() && (#[trigger] inputs[i]).path == assembled_facts(
                full,
                inputs,
                outputs,
                files,
                facts,
            )[k].path && (fresh_facts(outputs, inputs[i].path) is Some || (assembled_facts(
                full,
                inputs,
                outputs,
                files,
                facts,
            )[k].hash == inputs[i].hash && files.dom().contains(inputs[i].path)
                && files[inputs[i].path].blake3_hash@ == inputs[i].hash)),
    decreases inputs.len(),
{
    let front = inputs.drop_last();
    let all = assembled_facts(full, inputs, outputs, files, facts);
    let before = assembled_facts(full, front, outputs, files, facts);
    let n = inputs.len() - 1;
    if k < before.len() {
        law_facts_are_about_current_sources(full, front, outputs, files, facts, k);
        let i = choose|i: int|
            0 <= i < front.len() && (#[trigger] front[i]).path == before[k].path && (fresh_facts(
                outputs,
                front[i].path,
            ) is Some || (before[k].hash == front[i].hash && files.dom().contains(front[i].path)
                && files[front[i].path].blake3_hash@ == front[i].hash));
        assert(inputs[i] == front[i]);
        assert(all[k] == before[k]);
    } else {
        lemma_fresh_path(outputs, inputs[n].path);
        assert(inputs[n] == inputs.last());
    }
}

/// Facts found by a path are about that path.
pub proof fn lemma_fresh_path(outputs: Seq<ExtractorOutput>, path: Seq<char>)
    ensures
        fresh_facts(outputs, path) matches Some(output) ==> output.file_path@ == path,
    decreases outputs.len(),
{
    if outputs.len() > 0 {
        lemma_fresh_path(outputs.drop_last(), path);
    }
}

/// Without any change nothing is extracted: where every source is unchanged and no full
/// run is asked for, no position is listed.
pub proof fn law_unchanged_sources_are_not_extracted(
    inputs: Seq<InputModel>,
    files: Map<Seq<char>, FileRecord>,
    facts: Map<Seq<char>, ExtractorOutput>,
)
    requires
        forall|i: int|
            0 <= i < inputs.len() ==> is_unchanged(#[trigger] inputs[i], files, facts),
    ensures
        changed_positions(false, inputs, files, facts).len() == 0,
    decreases inputs.len(),
{
    if inputs.len() > 0 {
        let front = inputs.drop_last();
        assert forall|i: int| 0 <= i < front.len() implies is_unchanged(
            #[trigger] front[i],
            files,
            facts,
        ) by {
            assert(front[i] == inputs[i]);
        }
        law_unchanged_sources_are_not_extracted(front, files, facts);
        assert(is_unchanged(inputs[inputs.len() - 1], files, facts));
    }
}

proof fn lemma_changed_positions(
    full: bool,
    inputs: Seq<InputModel>,
    files: Map<Seq<char>, FileRecord>,
    facts: Map<Seq<char>, ExtractorOutput>,
)
    requires
        inputs.len() <= usize::MAX,
    ensures
        ({
            let changed = changed_positions(full, inputs, files, facts);
            &&& forall|i: int|
                0 <= i < inputs.len() ==> (changed.contains(i as usize) <==> needs_extraction(
                    full,
                    #[trigger] inputs[i],
                    files,
                    facts,
                ))
            &&& forall|k: int| 0 <= k < changed.len() ==> (#[trigger] changed[k]) < inputs.len()
            &&& forall|j: int, k: int|
                0 <= j < k < changed.len() ==> #[trigger] changed[j] < #[trigger] changed[k]
        }),
    decreases inputs.len(),
{
    if inputs.len() > 0 {
        let n = inputs.len() - 1;
        let front = inputs.drop_last();
        lemma_changed_positions(full, front, files, facts);
        let before = changed_positions(full, front, files, facts);
        let all = changed_positions(full, inputs, files, facts);
        assert(inputs.last() == inputs[n]);
        assert forall|i: int| 0 <= i < inputs.len() implies (all.contains(i as usize)
            <==> needs_extraction(full, #[trigger] inputs[i], files, facts)) by {
            if i < n {
                assert(front[i] == inputs[i]);
                if before.contains(i as usize) {
                    assert(all[before.index_of(i as usize)] == i as usize);
                }
                if all.contains(i as usize) {
                    let k = all.index_of(i as usize);
                    assert(k < before.len());
                    assert(before[k] == i as usize);
                }
            } else {
                if all.len() > before.len() {
                    assert(all[before.len() as int] == n as usize);
                } else if all.contains(n as usize) {
                    let k = all.index_of(n as usize);
                    assert(before[k] < front.len());
                }
            }
        }
    }
}

/// An incremental run extracts exactly what it has no current facts of: a source whose
/// path is not recorded, a source that is recorded with other bytes, and a source without
/// facts about exactly these bytes. A full run extracts every source. The positions come
/// in ascending order, none of them twice.
pub proof fn law_extraction_is_exact(
    full: bool,
    inputs: Seq<InputModel>,
    files: Map<Seq<char>, FileRecord>,
    facts: Map<Seq<char>, ExtractorOutput>,
    i: int,
)
    requires
        inputs.len() <= usize::MAX,
        0 <= i < inputs.len(),
    ensures
        changed_positions(full, inputs, files, facts).contains(i as usize) <==> full
            || !files.dom().contains(inputs[i].path) || files[inputs[i].path].blake3_hash@
            != inputs[i].hash || !facts.dom().contains(inputs[i].path)
            || facts[inputs[i].path].file_path@ != inputs[i].path
            || facts[inputs[i].path].file_hash@ != inputs[i].hash,
        ({
            let changed = changed_positions(full, inputs, files, facts);
            &&& forall|k: int| 0 <= k < changed.len() ==> (#[trigger] changed[k]) < inputs.len()
            &&& forall|j: int, k: int|
                0 <= j < k < changed.len() ==> #[trigger] changed[j] < #[trigger] changed[k]
        }),
{
    lemma_changed_positions(full, inputs, files, facts);
    assert(changed_positions(full, inputs, files, facts).contains(i as usize)
        <==> needs_extraction(full, inputs[i], files, facts));
}

/// The deleted paths are the recorded ones that no source has, each of them once, in
/// ascending order.
pub proof fn law_deletion_is_exact(inputs: Seq<InputModel>, files: Map<Seq<char>, FileRecord>)
    requires
        files.dom().finite(),
    ensures
        ordered::ascending(sorting::listed(files.dom().difference(source_paths(inputs)))),
        forall|path: Seq<char>| #[trigger]
            sorting::listed(files.dom().difference(source_paths(inputs))).contains(path)
                <==> files.dom().contains(path) && forall|i: int|
                0 <= i < inputs.len() ==> (#[trigger] inputs[i]).path != path,
{
    let gone = files.dom().difference(source_paths(inputs));
    sorting::lemma_listed_set(gone);
}

/// A source that appears, and of which nothing is recorded, is extracted by the next run,
/// and whether the sources before it are extracted does not change.
pub proof fn law_new_source_is_extracted(
    inputs: Seq<InputModel>,
    added: InputModel,
    files: Map<Seq<char>, FileRecord>,
    facts: Map<Seq<char>, ExtractorOutput>,
)
    requires
        inputs.len() < usize::MAX,
        !files.dom().contains(added.path),
    ensures
        changed_positions(false, inputs.push(added), files, facts) == changed_positions(
            false,
            inputs,
            files,
            facts,
        ).push(inputs.len() as usize),
{
    assert(inputs.push(added).drop_last() =~= inputs);
}

/// The output at position `j` is the last one about the path.
pub open spec fn is_last_about(outputs: Seq<ExtractorOutput>, j: int, path: Seq<char>) -> bool {
    &&& 0 <= j < outputs.len()
    &&& outputs[j].file_path@ == path
    &&& forall|l: int| j < l < outputs.len() ==> (#[trigger] outputs[l]).file_path@ != path
}

/// No output is about the path.
pub open spec fn none_about(outputs: Seq<ExtractorOutput>, path: Seq<char>) -> bool {
    forall|l: int| 0 <= l < outputs.len() ==> (#[trigger] outputs[l]).file_path@ != path
}

proof fn lemma_fresh_is_last(outputs: Seq<ExtractorOutput>, path: Seq<char>)
    ensures
        match fresh_facts(outputs, path) {
            Some(output) => exists|j: int| #[trigger]
                is_last_about(outputs, j, path) && outputs[j] == output,
            None => none_about(outputs, path),
        },
        forall|j: int| #[trigger]
            is_last_about(outputs, j, path) ==> fresh_facts(outputs, path) == Some(outputs[j]),
    decreases outputs.len(),
{
    if outputs.len() > 0 {
        let n = outputs.len() - 1;
        let front = outputs.drop_last();
        lemma_fresh_is_last(front, path);
        if outputs.last().file_path@ == path {
            assert(is_last_about(outputs, n, path));
            assert forall|j: int| #[trigger] is_last_about(outputs, j, path) implies fresh_facts(
                outputs,
                path,
            ) == Some(outputs[j]) by {
                if j < n {
                    assert(outputs[n].file_path@ != path);
                }
            }
        } else {
            match fresh_facts(front, path) {
                Some(output) => {
                    let j = choose|j: int| #[trigger]
                        is_last_about(front, j, path) && front[j] == output;
                    assert(outputs[j] == output);
                    assert forall|l: int| j < l < outputs.len() implies (
                    #[trigger] outputs[l]).file_path@ != path by {
                        if l < n {
                            assert(front[l] == outputs[l]);
                        }
                    }
                    assert(is_last_about(outputs, j, path));
                },
                None => {
                    assert forall|l: int| 0 <= l < outputs.len() implies (
                    #[trigger] outputs[l]).file_path@ != path by {
                        if l < n {
                            assert(front[l] == outputs[l]);
                        }
                    }
                },
            }
            assert forall|j: int| #[trigger] is_last_about(outputs, j, path) implies fresh_facts(
                outputs,
                path,
            ) == Some(outputs[j]) by {
                assert(j != n);
                assert forall|l: int| j < l < front.len() implies (
                #[trigger] front[l]).file_path@ != path by {
                    assert(front[l] == outputs[l]);
                }
                assert(front[j] == outputs[j]);
                assert(is_last_about(front, j, path));
            }
        }
    }
}

/// The facts of every current source are there: those that this run extracted last, or
/// else, of a source that is recorded and known with exactly these bytes, the known ones.
pub proof fn law_current_facts_are_assembled(
    full: bool,
    inputs: Seq<InputModel>,
    outputs: Seq<ExtractorOutput>,
    files: Map<Seq<char>, FileRecord>,
    facts: Map<Seq<char>, ExtractorOutput>,
    i: int,
    j: int,
)
    requires
        0 <= i < inputs.len(),
    ensures
        is_last_about(outputs, j, inputs[i].path) ==> assembled_facts(
            full,
            inputs,
            outputs,
            files,
            facts,
        ).contains(outputs[j].deep_view()),
        none_about(outputs, inputs[i].path) && !full && files.dom().contains(inputs[i].path)
            && files[inputs[i].path].blake3_hash@ == inputs[i].hash && facts.dom().contains(
            inputs[i].path,
        ) && facts[inputs[i].path].file_path@ == inputs[i].path
            && facts[inputs[i].path].file_hash@ == inputs[i].hash ==> assembled_facts(
            full,
            inputs,
            outputs,
            files,
            facts,
        ).contains(facts[inputs[i].path].deep_view()),
    decreases inputs.len(),
{
    let n = inputs.len() - 1;
    let front = inputs.drop_last();
    let all = assembled_facts(full, inputs, outputs, files, facts);
    let before = assembled_facts(full, front, outputs, files, facts);
    lemma_fresh_is_last(outputs, inputs[i].path);
    assert(inputs.last() == inputs[n]);
    if i < n {
        law_current_facts_are_assembled(full, front, outputs, files, facts, i, j);
        assert(front[i] == inputs[i]);
        if before.contains(outputs[j].deep_view()) {
            assert(all[before.index_of(outputs[j].deep_view())] == outputs[j].deep_view());
        }
        let known = facts[inputs[i].path].deep_view();
        if before.contains(known) {
            assert(all[before.index_of(known)] == known);
        }
    } else {
        if all.len() > before.len() {
            assert(all[before.len() as int] == all.last());
        }
        if none_about(outputs, inputs[i].path) && fresh_facts(outputs, inputs[i].path) is Some {
            let k = choose|k: int| #[trigger] is_last_about(outputs, k, inputs[i].path);
            assert(outputs[k].file_path@ != inputs[i].path);
        }
    }
}

/// Nothing else is there: every assembled fact is what this run extracted last of a
/// current source, or the known facts of one that the run did not extract, was not asked
/// to extract, and that has the recorded bytes.
pub proof fn law_assembled_facts_are_current(
    full: bool,
    inputs: Seq<InputModel>,
    outputs: Seq<ExtractorOutput>,
    files: Map<Seq<char>, FileRecord>,
    facts: Map<Seq<char>, ExtractorOutput>,
    k: int,
)
    requires
        0 <= k < assembled_facts(full, inputs, outputs, files, facts).len(),
    ensures
        ({
            let known = assembled_facts(full, inputs, outputs, files, facts)[k];
            ||| exists|i: int, j: int|
                0 <= i < inputs.len() && #[trigger] is_last_about(outputs, j, inputs[i].path)
                    && known == outputs[j].deep_view()
            ||| exists|i: int|
                0 <= i < inputs.len() && none_about(outputs, (#[trigger] inputs[i]).path) && !full
                    && files.dom().contains(inputs[i].path)
                    && files[inputs[i].path].blake3_hash@ == inputs[i].hash
                    && facts.dom().contains(inputs[i].path)
                    && facts[inputs[i].path].file_path@ == inputs[i].path
                    && facts[inputs[i].path].file_hash@ == inputs[i].hash && known
                    == facts[inputs[i].path].deep_view()
        }),
    decreases inputs.len(),
{
    let n = inputs.len() - 1;
    let front = inputs.drop_last();
    let all = assembled_facts(full, inputs, outputs, files, facts);
    let before = assembled_facts(full, front, outputs, files, facts);
    if k < before.len() {
        law_assembled_facts_are_current(full, front, outputs, files, facts, k);
        assert(all[k] == before[k]);
        if exists|i: int, j: int|
            0 <= i < front.len() && #[trigger] is_last_about(outputs, j, front[i].path) && all[k]
                == outputs[j].deep_view() {
            let (i, j) = choose|i: int, j: int|
                0 <= i < front.len() && #[trigger] is_last_about(outputs, j, front[i].path)
                    && all[k] == outputs[j].deep_view();
            assert(is_last_about(outputs, j, inputs[i].path));
        } else {
            let i = choose|i: int|
                0 <= i < front.len() && none_about(outputs, (#[trigger] front[i]).path) && !full
                    && files.dom().contains(front[i].path)
                    && files[front[i].path].blake3_hash@ == front[i].hash && facts.dom().contains(
                    front[i].path,
                ) && facts[front[i].path].file_path@ == front[i].path
                    && facts[front[i].path].file_hash@ == front[i].hash && all[k]
                    == facts[front[i].path].deep_view();
            assert(inputs[i] == front[i]);
        }
    } else {
        lemma_fresh_is_last(outputs, inputs[n].path);
        assert(inputs[n] == inputs.last());
        if fresh_facts(outputs, inputs[n].path) is Some {
            let output = fresh_facts(outputs, inputs[n].path)->0;
            let j = choose|j: int| #[trigger]
                is_last_about(outputs, j, inputs[n].path) && outputs[j] == output;
            assert(is_last_about(outputs, j, inputs[n].path));
        }
    }
}

/// Every extraction result is accounted for: a success among the facts, a failure with
/// its own path and words, and nothing beside them.
pub proof fn law_results_are_partitioned(
    paths: Seq<String>,
    results: Seq<Result<ExtractorOutput, String>>,
)
    ensures
        extracted(results).len() + failed(paths, results).len() == results.len(),
        forall|i: int|
            0 <= i < results.len() && (#[trigger] results[i]) is Ok ==> extracted(results).contains(
                results[i]->Ok_0,
            ),
        forall|i: int|
            0 <= i < results.len() && (#[trigger] results[i]) is Err ==> failed(
                paths,
                results,
            ).contains((paths[i]@, results[i]->Err_0@)),
    decreases results.len(),
{
    if results.len() > 0 {
        let n = results.len() - 1;
        let front = results.drop_last();
        law_results_are_partitioned(paths, front);
        assert forall|i: int| 0 <= i < results.len() && (#[trigger] results[i]) is Ok implies
            extracted(results).contains(results[i]->Ok_0) by {
            let all = extracted(results);
            if i < n {
                assert(front[i] == results[i]);
                let k = extracted(front).index_of(results[i]->Ok_0);
                assert(all[k] == results[i]->Ok_0);
            } else {
                assert(all[all.len() - 1] == results[i]->Ok_0);
            }
        }
        assert forall|i: int| 0 <= i < results.len() && (#[trigger] results[i]) is Err implies
            failed(paths, results).contains((paths[i]@, results[i]->Err_0@)) by {
            let all = failed(paths, results);
            if i < n {
                assert(front[i] == results[i]);
                let k = failed(paths, front).index_of((paths[i]@, results[i]->Err_0@));
                assert(all[k] == (paths[i]@, results[i]->Err_0@));
            } else {
                assert(all[all.len() - 1] == (paths[i]@, results[i]->Err_0@));
            }
        }
    }
}

} // verus!
