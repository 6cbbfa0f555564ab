//! Fingerprints of the sources that a structural graph was made from.

use vstd::prelude::*;

use crate::classification::INDEXER_IDENTITY;
use crate::digest;
use crate::digest::{extend, sha256_hash, to_hex};
use crate::domain::{
    CapabilityReceipt, CapabilityScope, CapabilityStatus, ReceiptModel, ScopeModel,
    STRUCTURAL_GRAPH_CONFIGURATION_ID,
};
use crate::index_state::{FileRecord, RecordModel};
use crate::ordered;
use crate::ordered::StringMap;
use crate::sorting;
use crate::sorting::{sort_texts, sorted_positions};
use crate::text;
use crate::values::Value;

verus! {

/// A source file of a run.
#[derive(Debug, Clone, PartialEq, Eq)]
pub struct SourceInput {
    pub relative_path: String,
    pub language: String,
    pub content_hash: String,
}

/// A source file as plain text.
pub struct InputModel {
    pub path: Seq<char>,
    pub language: Seq<char>,
    pub hash: Seq<char>,
}

impl DeepView for SourceInput {
    type V = InputModel;

    open spec fn deep_view(&self) -> InputModel {
        InputModel {
            path: self.relative_path@,
            language: self.language@,
            hash: self.content_hash@,
        }
    }
}

impl Value for SourceInput {
    fn copy(&self) -> (r: Self) {
        SourceInput {
            relative_path: self.relative_path.clone(),
            language: self.language.clone(),
            content_hash: self.content_hash.clone(),
        }
    }

    fn same(&self, other: &Self) -> (r: bool) {
        self.relative_path.same(&other.relative_path) && self.language.same(&other.language)
            && self.content_hash.same(&other.content_hash)
    }
}

/// A text and the byte that ends it.
pub open spec fn ended(text: Seq<char>) -> Seq<u8> {
    vstd::utf8::encode_utf8(text) + seq![0u8]
}

/// The bytes of the exclusion patterns.
pub open spec fn exclude_bytes(excludes: Seq<Seq<char>>) -> Seq<u8>
    decreases excludes.len(),
{
    if excludes.len() == 0 {
        seq![]
    } else {
        exclude_bytes(excludes.drop_last()) + ended("exclude"@) + ended(excludes.last())
    }
}

/// The bytes of the sources: path and digest of each.
pub open spec fn source_bytes(inputs: Seq<InputModel>) -> Seq<u8>
    decreases inputs.len(),
{
    if inputs.len() == 0 {
        seq![]
    } else {
        source_bytes(inputs.drop_last()) + ended(inputs.last().path) + ended(inputs.last().hash)
    }
}

/// The bytes that a fingerprint covers.
pub open spec fn structural_bytes(
    language: Seq<char>,
    inputs: Seq<InputModel>,
    excludes: Seq<Seq<char>>,
) -> Seq<u8> {
    ended("h00/structural-input/v3"@) + ended(language) + exclude_bytes(
        sorting::sorted_texts(excludes),
    ) + source_bytes(inputs)
}

/// The fingerprint of a language's sources under some exclusion patterns. The order of
/// the patterns does not matter, that of the sources does.
pub open spec fn fingerprint_of(
    language: Seq<char>,
    inputs: Seq<InputModel>,
    excludes: Seq<Seq<char>>,
) -> Seq<char> {
    digest::hex_of(digest::sha256_of(structural_bytes(language, inputs, excludes)))
}

fn push_ended(bytes: &mut Vec<u8>, text: &str)
    ensures
        final(bytes)@ == old(bytes)@ + ended(text@),
{
    let ghost before = bytes@;
    extend(bytes, text.as_bytes());
    bytes.push(0);
    assert(bytes@ =~= before + ended(text@));
}

/// The fingerprint of a language's sources.
pub fn structural_input_fingerprint(
    language: &str,
    inputs: &Vec<SourceInput>,
    exclude_patterns: &Vec<String>,
) -> (r: String)
    ensures
        r@ == fingerprint_of(language@, inputs.deep_view(), exclude_patterns.deep_view()),
{
    let mut bytes: Vec<u8> = Vec::new();
    push_ended(&mut bytes, "h00/structural-input/v3");
    push_ended(&mut bytes, language);
    let ghost head = ended("h00/structural-input/v3"@) + ended(language@);
    let excludes = sort_texts(exclude_patterns);
    let ghost patterns = excludes.deep_view();
    assert(bytes@ =~= head + exclude_bytes(patterns.take(0)));
    for i in 0..excludes.len()
        invariant
            patterns == excludes.deep_view(),
            bytes@ == head + exclude_bytes(patterns.take(i as int)),
    {
        assert(patterns.take(i + 1).drop_last() =~= patterns.take(i as int));
        assert(patterns[i as int] == excludes@[i as int]@);
        let ghost done = exclude_bytes(patterns.take(i as int));
        push_ended(&mut bytes, "exclude");
        push_ended(&mut bytes, excludes[i].as_str());
        assert(bytes@ =~= head + exclude_bytes(patterns.take(i + 1)));
    }
    assert(patterns.take(patterns.len() as int) =~= patterns);
    let ghost front = head + exclude_bytes(patterns);
    let ghost all = inputs.deep_view();
    assert(bytes@ =~= front + source_bytes(all.take(0)));
    for i in 0..inputs.len()
        invariant
            all == inputs.deep_view(),
            bytes@ == front + source_bytes(all.take(i as int)),
    {
        assert(all.take(i + 1).drop_last() =~= all.take(i as int));
        assert(all[i as int] == inputs@[i as int].deep_view());
        push_ended(&mut bytes, inputs[i].relative_path.as_str());
        push_ended(&mut bytes, inputs[i].content_hash.as_str());
        assert(bytes@ =~= front + source_bytes(all.take(i + 1)));
    }
    assert(all.take(all.len() as int) =~= all);
    let hash = sha256_hash(bytes.as_slice());
    to_hex(&hash)
}

/// The sources of a language, in order.
pub open spec fn inputs_in(inputs: Seq<InputModel>, language: Seq<char>) -> Seq<InputModel>
    decreases inputs.len(),
{
    if inputs.len() == 0 {
        seq![]
    } else {
        let before = inputs_in(inputs.drop_last(), language);
        if inputs.last().language == language {
            before.push(inputs.last())
        } else {
            before
        }
    }
}

/// The paths of the sources.
pub open spec fn paths_in(inputs: Seq<InputModel>) -> Seq<Seq<char>> {
    inputs.map_values(|input: InputModel| input.path)
}

/// The sources in path order.
pub open spec fn by_path(inputs: Seq<InputModel>) -> Seq<InputModel> {
    sorting::stable_order(paths_in(inputs), inputs.len()).map_values(|k: usize| inputs[k as int])
}

/// Picks the sources of a language, in path order.
pub fn select_inputs(inputs: &Vec<SourceInput>, language: &str) -> (r: Vec<SourceInput>)
    ensures
        r.deep_view() == by_path(inputs_in(inputs.deep_view(), language@)),
{
    let ghost all = inputs.deep_view();
    let mut picked: Vec<SourceInput> = Vec::new();
    let mut paths: Vec<String> = Vec::new();
    assert(picked.deep_view() =~= inputs_in(all.take(0), language@));
    assert(paths.deep_view() =~= paths_in(picked.deep_view()));
    for i in 0..inputs.len()
        invariant
            all == inputs.deep_view(),
            picked.deep_view() == inputs_in(all.take(i as int), language@),
            paths.deep_view() == paths_in(picked.deep_view()),
    {
        assert(all.take(i + 1).drop_last() =~= all.take(i as int));
        assert(all[i as int] == inputs@[i as int].deep_view());
        let ghost before = picked.deep_view();
        let ghost names = paths.deep_view();
        if text::same(inputs[i].language.as_str(), language) {
            let input = inputs[i].copy();
            picked.push(input);
            paths.push(inputs[i].relative_path.clone());
            assert(picked.deep_view() =~= before.push(all[i as int]));
            assert(paths.deep_view() =~= names.push(all[i as int].path));
            assert(paths.deep_view() =~= paths_in(picked.deep_view()));
        }
    }
    assert(all.take(all.len() as int) =~= all);
    let ghost chosen = picked.deep_view();
    let order = sorted_positions(&paths);
    let mut r: Vec<SourceInput> = Vec::new();
    for i in 0..order.len()
        invariant
            picked.deep_view() == chosen,
            forall|j: int| 0 <= j < order@.len() ==> #[trigger] order@[j] < picked@.len(),
            r@.len() == i,
            forall|j: int|
                0 <= j < i ==> (#[trigger] r@[j]).deep_view() == chosen[order@[j] as int],
    {
        assert(chosen[order@[i as int] as int] == picked@[order@[i as int] as int].deep_view());
        r.push(picked[order[i]].copy());
    }
    assert(r.deep_view() =~= by_path(chosen));
    r
}

/// The languages that occur.
pub open spec fn languages_in(inputs: Seq<InputModel>) -> Set<Seq<char>> {
    Set::new(
        |language: Seq<char>|
            exists|i: int| 0 <= i < inputs.len() && (#[trigger] inputs[i]).language == language,
    )
}

/// Collects the languages that occur.
pub fn input_languages(inputs: &Vec<SourceInput>) -> (r: StringMap<()>)
    ensures
        r@.dom() == languages_in(inputs.deep_view()),
{
    let ghost all = inputs.deep_view();
    let mut r: StringMap<()> = StringMap::new();
    for i in 0..inputs.len()
        invariant
            all == inputs.deep_view(),
            forall|language: Seq<char>| #[trigger]
                r@.dom().contains(language) <==> exists|j: int|
                    0 <= j < i && (#[trigger] all[j]).language == language,
    {
        assert(all[i as int].language == inputs@[i as int].language@);
        r.insert(inputs[i].language.clone(), ());
    }
    assert(r@.dom() =~= languages_in(all));
    r
}

/// A record as a source.
pub open spec fn record_input(record: (Seq<char>, RecordModel)) -> InputModel {
    InputModel { path: record.0, language: record.1.language, hash: record.1.hash }
}

/// The records as sources.
pub open spec fn record_inputs(records: Seq<(Seq<char>, RecordModel)>) -> Seq<InputModel> {
    records.map_values(|record: (Seq<char>, RecordModel)| record_input(record))
}

/// The fingerprint of each language that occurs among the sources.
pub open spec fn fingerprints(inputs: Seq<InputModel>, excludes: Seq<Seq<char>>) -> Map<
    Seq<char>,
    Seq<char>,
> {
    Map::new(
        |language: Seq<char>| languages_in(inputs).contains(language),
        |language: Seq<char>|
            fingerprint_of(language, by_path(inputs_in(inputs, language)), excludes),
    )
}

/// The strings of a map, as text.
pub open spec fn texts(m: Map<Seq<char>, String>) -> Map<Seq<char>, Seq<char>> {
    m.map_values(|s: String| s@)
}

/// The fingerprint of each language of a generation's records. None where the identity
/// of this indexer could not be measured.
pub fn structural_input_fingerprints_from_records(
    indexed_files: &Vec<(String, FileRecord)>,
    exclude_patterns: &Vec<String>,
) -> (r: Option<StringMap<String>>)
    ensures
        match r {
            Some(map) => INDEXER_IDENTITY@ != "unavailable"@ && texts(map@) == fingerprints(
                record_inputs(indexed_files.deep_view()),
                exclude_patterns.deep_view(),
            ),
            None => INDEXER_IDENTITY@ == "unavailable"@,
        },
{
    if text::same(INDEXER_IDENTITY, "unavailable") {
        return None;
    }
    let ghost records = indexed_files.deep_view();
    let mut inputs: Vec<SourceInput> = Vec::new();
    for i in 0..indexed_files.len()
        invariant
            records == indexed_files.deep_view(),
            inputs@.len() == i,
            forall|j: int|
                0 <= j < i ==> (#[trigger] inputs@[j]).deep_view() == record_input(records[j]),
    {
        assert(records[i as int].0 == indexed_files@[i as int].0@);
        assert(records[i as int].1 == indexed_files@[i as int].1.deep_view());
        inputs.push(
            SourceInput {
                relative_path: indexed_files[i].0.clone(),
                language: indexed_files[i].1.language.clone(),
                content_hash: indexed_files[i].1.blake3_hash.clone(),
            },
        );
    }
    let ghost all = record_inputs(records);
    assert(inputs.deep_view() =~= all);
    let languages = input_languages(&inputs);
    let entries = languages.entries();
    let ghost keys = ordered::keys_of(languages.listing());
    let ghost expected = fingerprints(all, exclude_patterns.deep_view());
    let mut map: StringMap<String> = StringMap::new();
    for i in 0..entries.len()
        invariant
            inputs.deep_view() == all,
            entries@ == languages.listing(),
            keys == ordered::keys_of(languages.listing()),
            languages@.dom() == languages_in(all),
            expected == fingerprints(all, exclude_patterns.deep_view()),
            forall|j: int| 0 <= j < i ==> map@.dom().contains(#[trigger] keys[j]),
            forall|language: Seq<char>| #[trigger]
                map@.dom().contains(language) ==> expected.dom().contains(language)
                    && map@[language]@ == expected[language],
    {
        let language = entries[i].0.as_str();
        assert(keys[i as int] == language@);
        assert(keys.contains(language@));
        assert(languages@.dom().contains(language@));
        let selected = select_inputs(&inputs, language);
        let fingerprint = structural_input_fingerprint(language, &selected, exclude_patterns);
        map.insert(language.to_owned(), fingerprint);
    }
    proof {
        assert forall|language: Seq<char>| expected.dom().contains(language) implies map@.dom().contains(
            language,
        ) by {
            assert(languages@.dom().contains(language));
            assert(keys.contains(language));
            let j = keys.index_of(language);
            assert(keys[j] == language);
        }
        assert(texts(map@) =~= expected);
    }
    Some(map)
}

/// A receipt about a structural graph.
pub open spec fn is_structural(receipt: ReceiptModel) -> bool {
    receipt.capability == "structural_graph"@
}

/// A structural receipt that this indexer made for one language and that has a graph
/// behind it. Partial coverage is an honest qualification and no failure of identity.
pub open spec fn is_reusable(receipt: ReceiptModel) -> bool {
    &&& receipt.scope matches ScopeModel::Language { configuration, .. } && configuration
        == STRUCTURAL_GRAPH_CONFIGURATION_ID@
    &&& receipt.status == CapabilityStatus::Complete || receipt.status == CapabilityStatus::Partial
    &&& receipt.provider == "h00-structural"@
    &&& receipt.version == Some(INDEXER_IDENTITY@)
    &&& receipt.fingerprint is Some
}

/// The structural receipts up to position `n`: each can be reused, and no language has
/// two.
pub open spec fn reusable_up_to(receipts: Seq<ReceiptModel>, n: int) -> bool {
    &&& forall|i: int|
        0 <= i < n && is_structural(#[trigger] receipts[i]) ==> is_reusable(receipts[i])
    &&& forall|i: int, j: int|
        0 <= i < j < n && is_structural(#[trigger] receipts[i]) && is_structural(
            #[trigger] receipts[j],
        ) ==> receipts[i].scope->Language_language != receipts[j].scope->Language_language
}

/// The fingerprints that the structural receipts state, by language.
pub open spec fn stated(receipts: Seq<ReceiptModel>) -> Map<Seq<char>, Seq<char>>
    decreases receipts.len(),
{
    if receipts.len() == 0 {
        Map::empty()
    } else {
        let before = stated(receipts.drop_last());
        let last = receipts.last();
        if is_structural(last) {
            before.insert(last.scope->Language_language, last.fingerprint->0)
        } else {
            before
        }
    }
}

/// The receipts describe exactly these sources.
pub open spec fn receipts_match(
    receipts: Seq<ReceiptModel>,
    inputs: Seq<InputModel>,
    excludes: Seq<Seq<char>>,
) -> bool {
    &&& INDEXER_IDENTITY@ != "unavailable"@
    &&& reusable_up_to(receipts, receipts.len() as int)
    &&& stated(receipts) == fingerprints(inputs, excludes)
}

fn reusable(receipt: &CapabilityReceipt) -> (r: Option<(&str, &str)>)
    ensures
        r is Some <==> is_reusable(receipt.deep_view()),
        r matches Some(pair) ==> pair.0@ == receipt.deep_view().scope->Language_language && Some(
            pair.1@,
        ) == receipt.deep_view().fingerprint,
{
    let language = match &receipt.scope {
        CapabilityScope::Language { language_id, configuration_id } => {
            if !text::same(configuration_id.0.as_str(), STRUCTURAL_GRAPH_CONFIGURATION_ID) {
                return None;
            }
            language_id.0.as_str()
        },
        _ => {
            return None;
        },
    };
    if receipt.status == CapabilityStatus::Unavailable || !text::same(
        receipt.provider_id.0.as_str(),
        "h00-structural",
    ) || !text::option_is(&receipt.provider_version, INDEXER_IDENTITY) {
        return None;
    }
    match &receipt.input_fingerprint {
        Some(fingerprint) => Some((language, fingerprint.as_str())),
        None => None,
    }
}

fn same_texts(a: &StringMap<String>, b: &StringMap<String>) -> (r: bool)
    ensures
        r == (texts(a@) == texts(b@)),
{
    let x = a.entries();
    let y = b.entries();
    let ghost p = ordered::keys_of(a.listing());
    let ghost q = ordered::keys_of(b.listing());
    proof {
        if texts(a@) == texts(b@) {
            assert(texts(a@).dom() =~= a@.dom());
            assert(texts(b@).dom() =~= b@.dom());
            assert forall|k: Seq<char>| p.contains(k) <==> q.contains(k) by {
                assert(a@.dom().contains(k) <==> p.contains(k));
                assert(b@.dom().contains(k) <==> q.contains(k));
            }
            ordered::lemma_ascending_unique(p, q);
        }
    }
    if x.len() != y.len() {
        return false;
    }
    for i in 0..x.len()
        invariant
            x@ == a.listing(),
            y@ == b.listing(),
            x@.len() == y@.len(),
            p == ordered::keys_of(a.listing()),
            q == ordered::keys_of(b.listing()),
            ordered::ascending(p),
            ordered::ascending(q),
            texts(a@) == texts(b@) ==> p == q,
            forall|j: int| 0 <= j < i ==> (#[trigger] p[j]) == q[j],
            forall|j: int| 0 <= j < i ==> (#[trigger] x@[j]).1@ == y@[j].1@,
    {
        assert(p[i as int] == x@[i as int].0@);
        assert(q[i as int] == y@[i as int].0@);
        proof {
            ordered::lemma_entry(x@, i as int);
            ordered::lemma_entry(y@, i as int);
            if texts(a@) == texts(b@) {
                assert(texts(a@)[p[i as int]] == x@[i as int].1@);
                assert(texts(b@)[q[i as int]] == y@[i as int].1@);
            }
        }
        if !text::same(x[i].0.as_str(), y[i].0.as_str()) || !text::same(
            x[i].1.as_str(),
            y[i].1.as_str(),
        ) {
            return false;
        }
    }
    proof {
        assert(p =~= q);
        assert forall|k: Seq<char>| a@.dom().contains(k) <==> b@.dom().contains(k) by {
            assert(a@.dom().contains(k) <==> p.contains(k));
            assert(b@.dom().contains(k) <==> q.contains(k));
        }
        assert forall|k: Seq<char>| a@.dom().contains(k) implies a@[k]@ == b@[k]@ by {
            assert(p.contains(k));
            let j = p.index_of(k);
            assert(p[j] == q[j]);
            ordered::lemma_entry(x@, j);
            ordered::lemma_entry(y@, j);
        }
        assert(texts(a@) =~= texts(b@));
    }
    true
}

/// Whether a generation's structural receipts describe exactly its file records, as
/// this indexer would.
pub fn structural_receipts_match_records(
    receipts: &Vec<CapabilityReceipt>,
    indexed_files: &Vec<(String, FileRecord)>,
    exclude_patterns: &Vec<String>,
) -> (r: bool)
    ensures
        r == receipts_match(
            receipts.deep_view(),
            record_inputs(indexed_files.deep_view()),
            exclude_patterns.deep_view(),
        ),
{
    let expected = match structural_input_fingerprints_from_records(
        indexed_files,
        exclude_patterns,
    ) {
        Some(expected) => expected,
        None => {
            return false;
        },
    };
    let ghost all = receipts.deep_view();
    let mut observed: StringMap<String> = StringMap::new();
    assert(texts(observed@) =~= stated(all.take(0)));
    for i in 0..receipts.len()
        invariant
            all == receipts.deep_view(),
            reusable_up_to(all, i as int),
            texts(observed@) == stated(all.take(i as int)),
            forall|language: Seq<char>| #[trigger]
                observed@.dom().contains(language) <==> exists|j: int|
                    0 <= j < i && is_structural(#[trigger] all[j])
                        && all[j].scope->Language_language == language,
    {
        assert(all[i as int] == receipts@[i as int].deep_view());
        assert(all.take(i + 1).drop_last() =~= all.take(i as int));
        if text::same(receipts[i].capability_id.as_str(), "structural_graph") {
            match reusable(&receipts[i]) {
                None => {
                    assert(!reusable_up_to(all, all.len() as int));
                    return false;
                },
                Some((language, fingerprint)) => {
                    let ghost before = observed@;
                    let repeated = observed.insert(language.to_owned(), fingerprint.to_owned());
                    proof {
                        assert(texts(observed@) =~= texts(before).insert(
                            language@,
                            fingerprint@,
                        ));
                        assert(before.dom().contains(language@) <==> exists|j: int|
                            0 <= j < i && is_structural(#[trigger] all[j])
                                && all[j].scope->Language_language == language@);
                        if repeated {
                            let j = choose|j: int|
                                0 <= j < i && is_structural(#[trigger] all[j])
                                    && all[j].scope->Language_language == language@;
                            assert(is_structural(all[j]) && is_structural(all[i as int]));
                            assert(!reusable_up_to(all, all.len() as int));
                        }
                    }
                    if repeated {
                        return false;
                    }
                },
            }
        }
    }
    assert(all.take(all.len() as int) =~= all);
    same_texts(&observed, &expected)
}

/// Receipts that match say of every language of the records, and of no other, exactly
/// the fingerprint of its sources.
pub proof fn law_matching_receipts_bind_sources(
    receipts: Seq<ReceiptModel>,
    inputs: Seq<InputModel>,
    excludes: Seq<Seq<char>>,
    language: Seq<char>,
)
    requires
        receipts_match(receipts, inputs, excludes),
    ensures
        stated(receipts).dom().contains(language) <==> languages_in(inputs).contains(language),
        languages_in(inputs).contains(language) ==> stated(receipts)[language] == fingerprint_of(
            language,
            by_path(inputs_in(inputs, language)),
            excludes,
        ),
{
}

/// A field with its length in front, the most significant byte first.
pub open spec fn framed_field(bytes: Seq<u8>) -> Seq<u8> {
    vstd::bytes::spec_u64_to_le_bytes(bytes.len() as u64).reverse() + bytes
}

/// The bytes that identify the configuration of a provider bound to its invocation.
pub open spec fn invocation_bytes(
    language: Seq<char>,
    provider: Seq<char>,
    version: Seq<char>,
) -> Seq<u8> {
    framed_field(ended("h00/invocation-bound-scip-provider/v1"@)) + framed_field(
        vstd::utf8::encode_utf8(language),
    ) + framed_field(vstd::utf8::encode_utf8(provider)) + framed_field(
        vstd::utf8::encode_utf8(version),
    )
}

fn push_field(bytes: &mut Vec<u8>, field: &[u8])
    ensures
        final(bytes)@ == old(bytes)@ + framed_field(field@),
{
    let ghost before = bytes@;
    let length = vstd::bytes::u64_to_le_bytes(field.len() as u64);
    let ghost frame = vstd::bytes::spec_u64_to_le_bytes(field@.len() as u64);
    proof {
        vstd::bytes::lemma_auto_spec_u64_to_from_le_bytes();
    }
    bytes.push(length[7]);
    bytes.push(length[6]);
    bytes.push(length[5]);
    bytes.push(length[4]);
    bytes.push(length[3]);
    bytes.push(length[2]);
    bytes.push(length[1]);
    bytes.push(length[0]);
    assert(bytes@ =~= before + frame.reverse());
    extend(bytes, field);
    assert(bytes@ =~= before + framed_field(field@));
}

/// The configuration digest of a provider that is bound to its invocation.
pub fn invocation_provider_configuration_sha256(
    language: &str,
    provider_id: &str,
    provider_version: &str,
) -> (r: String)
    ensures
        r@ == digest::hex_of(
            digest::sha256_of(invocation_bytes(language@, provider_id@, provider_version@)),
        ),
{
    let mut bytes: Vec<u8> = Vec::new();
    let mut domain: Vec<u8> = Vec::new();
    push_ended(&mut domain, "h00/invocation-bound-scip-provider/v1");
    assert(domain@ =~= ended("h00/invocation-bound-scip-provider/v1"@));
    push_field(&mut bytes, domain.as_slice());
    push_field(&mut bytes, language.as_bytes());
    push_field(&mut bytes, provider_id.as_bytes());
    push_field(&mut bytes, provider_version.as_bytes());
    assert(bytes@ =~= invocation_bytes(language@, provider_id@, provider_version@));
    let hash = sha256_hash(bytes.as_slice());
    to_hex(&hash)
}

/// A language's sources are exactly the sources that carry the language, in path order,
/// each of them once.
pub proof fn law_selected_inputs_are_exact(inputs: Seq<InputModel>, language: Seq<char>)
    requires
        inputs.len() <= usize::MAX,
    ensures
        ({
            let own = by_path(inputs_in(inputs, language));
            &&& forall|input: InputModel| #[trigger]
                own.contains(input) <==> inputs.contains(input) && input.language == language
            &&& own.len() == inputs.filter(|input: InputModel| input.language == language).len()
            &&& forall|i: int, j: int|
                0 <= i < j < own.len() ==> !text::seq_lt(
                    (#[trigger] own[j]).path,
                    (#[trigger] own[i]).path,
                )
        }),
{
    let picked = inputs_in(inputs, language);
    lemma_inputs_in(inputs, language);
    let paths = paths_in(picked);
    sorting::law_stable_order_sorts(paths, picked.len());
    let order = sorting::stable_order(paths, picked.len());
    let own = by_path(picked);
    assert forall|input: InputModel| #[trigger] own.contains(input) <==> inputs.contains(input)
        && input.language == language by {
        if own.contains(input) {
            let k = own.index_of(input);
            assert(order.contains(order[k]));
            assert(picked[order[k] as int] == input);
            assert(picked.contains(input));
        }
        if inputs.contains(input) && input.language == language {
            assert(picked.contains(input));
            let p = picked.index_of(input);
            assert(order.contains(p as usize));
            let k = order.index_of(p as usize);
            assert(own[k] == input);
        }
    }
    assert forall|i: int, j: int| 0 <= i < j < own.len() implies !text::seq_lt(
        (#[trigger] own[j]).path,
        (#[trigger] own[i]).path,
    ) by {
        assert(order.contains(order[i]) && order.contains(order[j]));
        assert(paths[order[i] as int] == own[i].path);
        assert(paths[order[j] as int] == own[j].path);
    }
}

proof fn lemma_inputs_in(inputs: Seq<InputModel>, language: Seq<char>)
    ensures
        inputs_in(inputs, language) == inputs.filter(
            |input: InputModel| input.language == language,
        ),
        inputs_in(inputs, language).len() <= inputs.len(),
        forall|input: InputModel| #[trigger]
            inputs_in(inputs, language).contains(input) <==> inputs.contains(input)
                && input.language == language,
    decreases inputs.len(),
{
    let pred = |input: InputModel| input.language == language;
    reveal(Seq::filter);
    if inputs.len() > 0 {
        let front = inputs.drop_last();
        lemma_inputs_in(front, language);
        let before = inputs_in(front, language);
        let all = inputs_in(inputs, language);
        assert(inputs =~= front.push(inputs.last()));
        assert forall|input: InputModel| #[trigger] all.contains(input) <==> inputs.contains(input)
            && input.language == language by {
            assert(inputs.contains(input) <==> front.contains(input) || input == inputs.last()) by {
                if front.contains(input) {
                    assert(inputs[front.index_of(input)] == input);
                }
                assert(inputs[inputs.len() - 1] == inputs.last());
                if inputs.contains(input) {
                    let k = inputs.index_of(input);
                    if k < front.len() {
                        assert(front[k] == input);
                    }
                }
            }
            if before.contains(input) {
                assert(all[before.index_of(input)] == input);
            }
            if all.len() > before.len() {
                assert(all[before.len() as int] == inputs.last());
            }
            if all.contains(input) {
                let k = all.index_of(input);
                if k < before.len() {
                    assert(before[k] == input);
                }
            }
        }
    }
}

/// The languages of some sources are those that a source carries.
pub proof fn law_languages_are_those_of_the_sources(inputs: Seq<InputModel>)
    ensures
        languages_in(inputs).finite(),
        forall|language: Seq<char>| #[trigger]
            languages_in(inputs).contains(language) <==> exists|i: int|
                0 <= i < inputs.len() && (#[trigger] inputs[i]).language == language,
{
    let names = inputs.map_values(|input: InputModel| input.language);
    vstd::seq_lib::seq_to_set_is_finite(names);
    assert(names.to_set() =~= languages_in(inputs)) by {
        assert forall|language: Seq<char>| names.to_set().contains(language)
            <==> languages_in(inputs).contains(language) by {
            if names.contains(language) {
                let i = names.index_of(language);
                assert(inputs[i].language == language);
            }
            if languages_in(inputs).contains(language) {
                let i = choose|i: int|
                    0 <= i < inputs.len() && (#[trigger] inputs[i]).language == language;
                assert(names[i] == language);
            }
        }
    }
}

/// What a fingerprint covers, byte for byte: the domain and the language; then every
/// exclusion pattern, in order; then path and digest of every source. Each text is ended
/// by a zero byte. One source more adds exactly its path and its digest.
pub proof fn law_fingerprint_covers_every_source(
    language: Seq<char>,
    inputs: Seq<InputModel>,
    added: InputModel,
    excludes: Seq<Seq<char>>,
)
    ensures
        structural_bytes(language, inputs.push(added), excludes) == structural_bytes(
            language,
            inputs,
            excludes,
        ) + vstd::utf8::encode_utf8(added.path) + seq![0u8] + vstd::utf8::encode_utf8(added.hash)
            + seq![0u8],
        structural_bytes(language, seq![], seq![]) == vstd::utf8::encode_utf8(
            "h00/structural-input/v3"@,
        ) + seq![0u8] + vstd::utf8::encode_utf8(language) + seq![0u8],
        structural_bytes(language, inputs, excludes) == structural_bytes(language, seq![], seq![])
            + exclude_bytes(sorting::sorted_texts(excludes)) + source_bytes(inputs),
        forall|pattern: Seq<char>|
            exclude_bytes(#[trigger] excludes.push(pattern)) == exclude_bytes(excludes)
                + vstd::utf8::encode_utf8("exclude"@) + seq![0u8] + vstd::utf8::encode_utf8(
                pattern,
            ) + seq![0u8],
        fingerprint_of(language, inputs, excludes) == digest::hex_of(
            digest::sha256_of(structural_bytes(language, inputs, excludes)),
        ),
{
    assert(inputs.push(added).drop_last() =~= inputs);
    assert(structural_bytes(language, inputs.push(added), excludes) =~= structural_bytes(
        language,
        inputs,
        excludes,
    ) + vstd::utf8::encode_utf8(added.path) + seq![0u8] + vstd::utf8::encode_utf8(added.hash)
        + seq![0u8]);
    let none: Seq<Seq<char>> = seq![];
    sorting::lemma_stable_order_len(none, 0);
    assert(sorting::sorted_texts(none) =~= none);
    assert(structural_bytes(language, seq![], none) =~= vstd::utf8::encode_utf8(
        "h00/structural-input/v3"@,
    ) + seq![0u8] + vstd::utf8::encode_utf8(language) + seq![0u8]);
    assert(structural_bytes(language, inputs, excludes) =~= structural_bytes(
        language,
        seq![],
        none,
    ) + exclude_bytes(sorting::sorted_texts(excludes)) + source_bytes(inputs));
    assert forall|pattern: Seq<char>|
        exclude_bytes(#[trigger] excludes.push(pattern)) == exclude_bytes(excludes)
            + vstd::utf8::encode_utf8("exclude"@) + seq![0u8] + vstd::utf8::encode_utf8(pattern)
            + seq![0u8] by {
        assert(excludes.push(pattern).drop_last() =~= excludes);
        assert(exclude_bytes(excludes.push(pattern)) =~= exclude_bytes(excludes)
            + vstd::utf8::encode_utf8("exclude"@) + seq![0u8] + vstd::utf8::encode_utf8(pattern)
            + seq![0u8]);
    }
}

proof fn lemma_stated(receipts: Seq<ReceiptModel>, n: int, language: Seq<char>)
    requires
        0 <= n <= receipts.len(),
        reusable_up_to(receipts, n),
    ensures
        stated(receipts.take(n)).dom().contains(language) <==> exists|i: int|
            0 <= i < n && is_structural(#[trigger] receipts[i])
                && receipts[i].scope->Language_language == language,
        forall|i: int|
            0 <= i < n && is_structural(#[trigger] receipts[i])
                && receipts[i].scope->Language_language == language ==> stated(
                receipts.take(n),
            )[language] == receipts[i].fingerprint->0,
    decreases n,
{
    if n > 0 {
        assert(reusable_up_to(receipts, n - 1));
        lemma_stated(receipts, n - 1, language);
        assert(receipts.take(n).drop_last() =~= receipts.take(n - 1));
        assert(receipts.take(n).last() == receipts[n - 1]);
        assert forall|i: int|
            0 <= i < n && is_structural(#[trigger] receipts[i])
                && receipts[i].scope->Language_language == language implies stated(
            receipts.take(n),
        )[language] == receipts[i].fingerprint->0 by {
            if i < n - 1 && is_structural(receipts[n - 1]) {
                assert(receipts[i].scope->Language_language
                    != receipts[n - 1].scope->Language_language);
            }
        }
    }
}

/// Receipts match sources exactly if every structural receipt was made by this indexer for
/// one language of the sources, complete or partial, and states the fingerprint of that
/// language's sources; no language has two; and every language of the sources has one.
pub proof fn law_matching_receipts_are_exact(
    receipts: Seq<ReceiptModel>,
    inputs: Seq<InputModel>,
    excludes: Seq<Seq<char>>,
)
    ensures
        receipts_match(receipts, inputs, excludes) <==> {
            &&& INDEXER_IDENTITY@ != "unavailable"@
            &&& forall|i: int|
                0 <= i < receipts.len() && (#[trigger] receipts[i]).capability
                    == "structural_graph"@ ==> {
                    &&& receipts[i].scope is Language
                    &&& receipts[i].scope->Language_configuration == "structural-graph"@
                    &&& receipts[i].status != CapabilityStatus::Unavailable
                    &&& receipts[i].provider == "h00-structural"@
                    &&& receipts[i].version == Some(INDEXER_IDENTITY@)
                    &&& languages_in(inputs).contains(receipts[i].scope->Language_language)
                    &&& receipts[i].fingerprint == Some(
                        fingerprint_of(
                            receipts[i].scope->Language_language,
                            by_path(inputs_in(inputs, receipts[i].scope->Language_language)),
                            excludes,
                        ),
                    )
                }
            &&& forall|i: int, j: int|
                0 <= i < j < receipts.len() && (#[trigger] receipts[i]).capability
                    == "structural_graph"@ && (#[trigger] receipts[j]).capability
                    == "structural_graph"@ ==> receipts[i].scope->Language_language
                    != receipts[j].scope->Language_language
            &&& forall|language: Seq<char>| #[trigger]
                languages_in(inputs).contains(language) ==> exists|i: int|
                    0 <= i < receipts.len() && (#[trigger] receipts[i]).capability
                        == "structural_graph"@ && receipts[i].scope->Language_language == language
        },
{
    let n = receipts.len() as int;
    let wanted = fingerprints(inputs, excludes);
    assert(receipts.take(n) =~= receipts);
    if reusable_up_to(receipts, n) {
        assert forall|language: Seq<char>| #[trigger]
            stated(receipts).dom().contains(language) <==> exists|i: int|
            0 <= i < n && is_structural(#[trigger] receipts[i])
                && receipts[i].scope->Language_language == language by {
            lemma_stated(receipts, n, language);
        }
        assert forall|i: int| 0 <= i < n && is_structural(#[trigger] receipts[i]) implies stated(
            receipts,
        )[receipts[i].scope->Language_language] == receipts[i].fingerprint->0 by {
            lemma_stated(receipts, n, receipts[i].scope->Language_language);
        }
    }
    let exact = {
        &&& INDEXER_IDENTITY@ != "unavailable"@
        &&& forall|i: int|
            0 <= i < receipts.len() && (#[trigger] receipts[i]).capability == "structural_graph"@
                ==> {
                &&& receipts[i].scope is Language
                &&& receipts[i].scope->Language_configuration == "structural-graph"@
                &&& receipts[i].status != CapabilityStatus::Unavailable
                &&& receipts[i].provider == "h00-structural"@
                &&& receipts[i].version == Some(INDEXER_IDENTITY@)
                &&& languages_in(inputs).contains(receipts[i].scope->Language_language)
                &&& receipts[i].fingerprint == Some(
                    fingerprint_of(
                        receipts[i].scope->Language_language,
                        by_path(inputs_in(inputs, receipts[i].scope->Language_language)),
                        excludes,
                    ),
                )
            }
        &&& forall|i: int, j: int|
            0 <= i < j < receipts.len() && (#[trigger] receipts[i]).capability
                == "structural_graph"@ && (#[trigger] receipts[j]).capability
                == "structural_graph"@ ==> receipts[i].scope->Language_language
                != receipts[j].scope->Language_language
        &&& forall|language: Seq<char>| #[trigger]
            languages_in(inputs).contains(language) ==> exists|i: int|
                0 <= i < receipts.len() && (#[trigger] receipts[i]).capability
                    == "structural_graph"@ && receipts[i].scope->Language_language == language
    };
    if receipts_match(receipts, inputs, excludes) {
        assert forall|i: int| 0 <= i < n && is_structural(#[trigger] receipts[i]) implies wanted.dom().contains(
            receipts[i].scope->Language_language) by {
            assert(stated(receipts).dom().contains(receipts[i].scope->Language_language));
        }
        assert forall|language: Seq<char>| #[trigger] languages_in(inputs).contains(
            language,
        ) implies exists|i: int|
            0 <= i < receipts.len() && (#[trigger] receipts[i]).capability == "structural_graph"@
                && receipts[i].scope->Language_language == language by {
            assert(wanted.dom().contains(language));
            assert(stated(receipts).dom().contains(language));
            let i = choose|i: int|
                0 <= i < n && is_structural(#[trigger] receipts[i])
                    && receipts[i].scope->Language_language == language;
            assert(receipts[i].capability == "structural_graph"@);
        }
        assert(exact);
    }
    if exact {
        assert forall|i: int| 0 <= i < n && is_structural(#[trigger] receipts[i]) implies is_reusable(
            receipts[i],
        ) by {
            assert(receipts[i].capability == "structural_graph"@);
        }
        assert(reusable_up_to(receipts, n));
        assert(stated(receipts) =~= wanted) by {
            assert forall|language: Seq<char>| stated(receipts).dom().contains(language)
                <==> wanted.dom().contains(language) by {
                if stated(receipts).dom().contains(language) {
                    let i = choose|i: int|
                        0 <= i < n && is_structural(#[trigger] receipts[i])
                            && receipts[i].scope->Language_language == language;
                    assert(receipts[i].capability == "structural_graph"@);
                }
                if wanted.dom().contains(language) {
                    let i = choose|i: int|
                        0 <= i < receipts.len() && (#[trigger] receipts[i]).capability
                            == "structural_graph"@ && receipts[i].scope->Language_language
                            == language;
                    assert(is_structural(receipts[i]));
                }
            }
            assert forall|language: Seq<char>| stated(receipts).dom().contains(
                language,
            ) implies stated(receipts)[language] == wanted[language] by {
                let i = choose|i: int|
                    0 <= i < n && is_structural(#[trigger] receipts[i])
                        && receipts[i].scope->Language_language == language;
                assert(receipts[i].capability == "structural_graph"@);
            }
        }
    }
}

} // verus!
