//! The evidence that a completed run publishes.

use vstd::prelude::*;

use crate::calls_evidence;
use crate::calls_evidence::{calls_provider_policy, select_calls_evidence};
use crate::classification::INDEXER_IDENTITY;
use crate::domain;
use crate::domain::{
    CapabilityReceipt, CapabilityScope, CapabilityStatus, LanguageId, ProjectInventory,
    ProjectUnitKind, ReceiptModel, ScopeModel, SourceMembership, STRUCTURAL_GRAPH_CONFIGURATION_ID,
};
use crate::graph::KnowledgeGraph;
use crate::index_config::IndexConfig;
use crate::index_state::{ExtractorOutput, FactsModel, FileRecord, RecordModel};
use crate::indexed_source_authority;
use crate::indexed_source_authority::language_for_path;
use crate::ordered;
use crate::ordered::StringMap;
use crate::payload::{CanonicalProviderPayload, ProviderPayload, PublicationReadySemanticEvidence};
use crate::provider_activity;
use crate::provider_activity::semantic_provider_execution_roots;
use crate::sorting;
use crate::sorting::{descending_positions, join, sorted_positions};
use crate::structural_inputs;
use crate::structural_inputs::{
    input_languages, select_inputs, structural_input_fingerprint, InputModel, SourceInput,
};
use crate::text;
use crate::text::decimal;
use crate::values::Value;

verus! {

/// How many Cargo packages the project declares.
pub open spec fn cargo_packages(inventory: ProjectInventory) -> nat {
    inventory.project_topology.units@.filter(
        |unit: domain::ProjectUnit|
            unit.kind == ProjectUnitKind::Package && unit.ecosystem_id@ == "cargo"@,
    ).len()
}

/// Counts the Cargo packages that the project declares.
pub fn cargo_package_count(project_inventory: &ProjectInventory) -> (r: usize)
    ensures
        r == cargo_packages(*project_inventory),
{
    let units = &project_inventory.project_topology.units;
    let ghost pred = |unit: domain::ProjectUnit|
        unit.kind == ProjectUnitKind::Package && unit.ecosystem_id@ == "cargo"@;
    let mut count: usize = 0;
    proof {
        units@.take(0).lemma_filter_len(pred);
    }
    for i in 0..units.len()
        invariant
            count <= i,
            pred == (|unit: domain::ProjectUnit|
                unit.kind == ProjectUnitKind::Package && unit.ecosystem_id@ == "cargo"@),
            count == units@.take(i as int).filter(pred).len(),
    {
        proof {
            assert(units@.take(i + 1) =~= units@.take(i as int).push(units@[i as int]));
            units@.take(i as int).lemma_filter_push(units@[i as int], pred);
        }
        if units[i].kind == ProjectUnitKind::Package && text::same(
            units[i].ecosystem_id.as_str(),
            "cargo",
        ) {
            count += 1;
        }
    }
    assert(units@.take(units@.len() as int) =~= units@);
    count
}

/// Evidence about calls.
pub open spec fn is_calls(evidence: PublicationReadySemanticEvidence) -> bool {
    evidence.receipt.capability_id@ == "calls"@
}

/// The calls evidence of a language, in order.
pub open spec fn calls_for(
    evidence: Seq<PublicationReadySemanticEvidence>,
    language: Seq<char>,
) -> Seq<PublicationReadySemanticEvidence>
    decreases evidence.len(),
{
    if evidence.len() == 0 {
        seq![]
    } else {
        let before = calls_for(evidence.drop_last(), language);
        if is_calls(evidence.last()) && evidence.last().language_id.0@ == language {
            before.push(evidence.last())
        } else {
            before
        }
    }
}

/// Evidence of another capability whose language, receipt and payload agree.
pub open spec fn is_consistent(evidence: PublicationReadySemanticEvidence) -> bool {
    &&& evidence.receipt.deep_view().scope.language() == Some(evidence.language_id.0@)
    &&& evidence.payload matches Some(payload) ==> payload.payload.deep_view().receipt()
        == evidence.receipt.deep_view() && !(payload.payload is Calls)
}

/// The receipt that stands for evidence of another capability.
pub open spec fn additional_receipt(evidence: PublicationReadySemanticEvidence) -> ReceiptModel {
    if is_consistent(evidence) {
        evidence.receipt.deep_view()
    } else {
        evidence.receipt.deep_view().withdrawn(
            CapabilityStatus::Unavailable,
            "provider_evidence_inconsistent"@,
            "semantic provider evidence differs from its language, capability, or payload identity"@,
        )
    }
}

/// The receipts of the other capabilities, in order.
pub open spec fn additional_receipts(evidence: Seq<PublicationReadySemanticEvidence>) -> Seq<
    ReceiptModel,
>
    decreases evidence.len(),
{
    if evidence.len() == 0 {
        seq![]
    } else {
        let before = additional_receipts(evidence.drop_last());
        if is_calls(evidence.last()) {
            before
        } else {
            before.push(additional_receipt(evidence.last()))
        }
    }
}

/// The payloads of the other capabilities, in order.
pub open spec fn additional_payloads(evidence: Seq<PublicationReadySemanticEvidence>) -> Seq<
    CanonicalProviderPayload,
>
    decreases evidence.len(),
{
    if evidence.len() == 0 {
        seq![]
    } else {
        let before = additional_payloads(evidence.drop_last());
        let last = evidence.last();
        if !is_calls(last) && is_consistent(last) && last.payload is Some {
            before.push(last.payload->0)
        } else {
            before
        }
    }
}

/// Evidence sorted by capability.
#[derive(Debug)]
pub struct RoutedSemanticEvidence {
    pub calls_by_language: StringMap<Vec<PublicationReadySemanticEvidence>>,
    pub additional_receipts: Vec<CapabilityReceipt>,
    pub additional_payloads: Vec<CanonicalProviderPayload>,
}

/// The map holds each language's calls evidence.
pub open spec fn holds_calls(
    map: Map<Seq<char>, Vec<PublicationReadySemanticEvidence>>,
    evidence: Seq<PublicationReadySemanticEvidence>,
) -> bool {
    forall|language: Seq<char>|
        #![trigger calls_for(evidence, language)]
        (map.dom().contains(language) ==> map[language]@ == calls_for(evidence, language)) && (
        !map.dom().contains(language) ==> calls_for(evidence, language).len() == 0)
}

/// Routes each piece of evidence by its capability. Other analyses never become
/// candidates for calls because they share a language and a provider.
pub fn route_semantic_evidence(evidence: Vec<PublicationReadySemanticEvidence>) -> (r:
    RoutedSemanticEvidence)
    ensures
        holds_calls(r.calls_by_language@, evidence@),
        r.additional_receipts.deep_view() == additional_receipts(evidence@),
        r.additional_payloads@ == additional_payloads(evidence@),
{
    let ghost all = evidence@;
    let mut calls: StringMap<Vec<PublicationReadySemanticEvidence>> = StringMap::new();
    let mut receipts: Vec<CapabilityReceipt> = Vec::new();
    let mut payloads: Vec<CanonicalProviderPayload> = Vec::new();
    assert(receipts.deep_view() =~= additional_receipts(all.take(0)));
    assert(payloads@ =~= additional_payloads(all.take(0)));
    assert(holds_calls(calls@, all.take(0)));
    for item in it: evidence.into_iter()
        invariant
            it.seq() == all,
            holds_calls(calls@, all.take(it.index() as int)),
            receipts.deep_view() == additional_receipts(all.take(it.index() as int)),
            payloads@ == additional_payloads(all.take(it.index() as int)),
    {
        let ghost i = it.index() as int;
        let ghost done = all.take(i);
        let ghost next = all.take(i + 1);
        proof {
            assert(next.drop_last() =~= done);
            assert(next.last() == item);
        }
        let ghost calls_before = calls@;
        let ghost receipts_before = receipts.deep_view();
        if text::same(item.receipt.capability_id.as_str(), "calls") {
            let language = item.language_id.0.clone();
            let ghost name = language@;
            let mut list: Vec<PublicationReadySemanticEvidence> = match calls.take(
                language.as_str(),
            ) {
                Some(list) => list,
                None => Vec::new(),
            };
            assert(list@ =~= calls_for(done, name));
            list.push(item);
            calls.insert(language, list);
            assert forall|l: Seq<char>|
                #![trigger calls_for(next, l)]
                (calls@.dom().contains(l) ==> calls@[l]@ == calls_for(next, l)) && (
                !calls@.dom().contains(l) ==> calls_for(next, l).len() == 0) by {
                assert(calls_for(done, l).len() >= 0);
            }
        } else {
            let consistent = match item.receipt.scope.language_id() {
                Some(language) => language.same(&item.language_id),
                None => false,
            } && match &item.payload {
                Some(payload) => payload.payload().receipt().same(&item.receipt)
                    && match payload.payload() {
                    ProviderPayload::Calls(_) => false,
                    _ => true,
                },
                None => true,
            };
            assert(consistent == is_consistent(item));
            let PublicationReadySemanticEvidence { language_id: _, receipt, payload } = item;
            if consistent {
                receipts.push(receipt);
                if let Some(payload) = payload {
                    payloads.push(payload);
                }
            } else {
                receipts.push(
                    receipt.withdraw(
                        CapabilityStatus::Unavailable,
                        "provider_evidence_inconsistent",
                        "semantic provider evidence differs from its language, capability, or payload identity",
                    ),
                );
            }
            assert(receipts.deep_view() =~= receipts_before.push(additional_receipt(next.last())));
            assert forall|l: Seq<char>|
                #![trigger calls_for(next, l)]
                (calls@.dom().contains(l) ==> calls@[l]@ == calls_for(next, l)) && (
                !calls@.dom().contains(l) ==> calls_for(next, l).len() == 0) by {
                assert(calls_for(done, l).len() >= 0);
            }
        }
    }
    assert(all.take(all.len() as int) =~= all);
    RoutedSemanticEvidence {
        calls_by_language: calls,
        additional_receipts: receipts,
        additional_payloads: payloads,
    }
}

/// The language that a path is filed under, or the word for none.
pub open spec fn filed_language(path: Seq<char>) -> Seq<char> {
    match indexed_source_authority::language_at(path) {
        Some(language) => language,
        None => "unknown"@,
    }
}

fn is_filed_under(path: &str, language: &str) -> (r: bool)
    ensures
        r == (filed_language(path@) == language@),
{
    match language_for_path(path) {
        Some(found) => text::same(found, language),
        None => text::same("unknown", language),
    }
}

/// The files of a language whose extraction failed.
pub open spec fn failed_paths(errors: Seq<(String, String)>, language: Seq<char>) -> Set<
    Seq<char>,
> {
    Set::new(
        |path: Seq<char>|
            filed_language(path) == language && exists|i: int|
                0 <= i < errors.len() && (#[trigger] errors[i]).0@ == path,
    )
}

fn collect_failures(errors: &Vec<(String, String)>, language: &str) -> (r: StringMap<()>)
    ensures
        r@.dom() == failed_paths(errors@, language@),
{
    let mut r: StringMap<()> = StringMap::new();
    for i in 0..errors.len()
        invariant
            forall|path: Seq<char>| #[trigger]
                r@.dom().contains(path) <==> filed_language(path) == language@ && exists|j: int|
                    0 <= j < i && (#[trigger] errors@[j]).0@ == path,
    {
        if is_filed_under(errors[i].0.as_str(), language) {
            r.insert(errors[i].0.clone(), ());
        }
    }
    assert(r@.dom() =~= failed_paths(errors@, language@));
    r
}

/// The files of a language with declarations that the graph does not represent.
pub open spec fn gap_paths(facts: Seq<FactsModel>, language: Seq<char>) -> Set<Seq<char>> {
    Set::new(
        |path: Seq<char>|
            filed_language(path) == language && exists|i: int|
                0 <= i < facts.len() && (#[trigger] facts[i]).uncaptured && facts[i].path == path,
    )
}

fn collect_gaps(facts: &Vec<ExtractorOutput>, language: &str) -> (r: StringMap<()>)
    ensures
        r@.dom() == gap_paths(facts.deep_view(), language@),
{
    let ghost all = facts.deep_view();
    let mut r: StringMap<()> = StringMap::new();
    for i in 0..facts.len()
        invariant
            all == facts.deep_view(),
            forall|path: Seq<char>| #[trigger]
                r@.dom().contains(path) <==> filed_language(path) == language@ && exists|j: int|
                    0 <= j < i && (#[trigger] all[j]).uncaptured && all[j].path == path,
    {
        assert(all[i as int] == facts@[i as int].deep_view());
        if facts[i].has_uncaptured_items() && is_filed_under(
            facts[i].file_path.as_str(),
            language,
        ) {
            r.insert(facts[i].file_path.clone(), ());
        }
    }
    assert(r@.dom() =~= gap_paths(all, language@));
    r
}

/// The facts report a gap of this kind.
pub open spec fn has_gap_kind(facts: FactsModel, kind: Seq<char>) -> bool {
    facts.gaps.contains(kind)
}

/// The files of a language with a gap of this kind.
pub open spec fn kind_paths(facts: Seq<FactsModel>, language: Seq<char>, kind: Seq<char>) -> Set<
    Seq<char>,
> {
    Set::new(
        |path: Seq<char>|
            filed_language(path) == language && exists|i: int|
                0 <= i < facts.len() && (#[trigger] facts[i]).uncaptured && facts[i].path == path
                    && has_gap_kind(facts[i], kind),
    )
}

fn reports_kind(facts: &ExtractorOutput, kind: &str) -> (r: bool)
    ensures
        r == has_gap_kind(facts.deep_view(), kind@),
{
    let ghost gaps = facts.deep_view().gaps;
    for i in 0..facts.capture_gaps.len()
        invariant
            gaps == facts.capture_gaps.deep_view(),
            forall|j: int| 0 <= j < i ==> #[trigger] gaps[j] != kind@,
    {
        assert(gaps[i as int] == facts.capture_gaps@[i as int].kind@);
        if text::same(facts.capture_gaps[i].kind.as_str(), kind) {
            return true;
        }
    }
    false
}

fn collect_kind(facts: &Vec<ExtractorOutput>, language: &str, kind: &str) -> (r: StringMap<()>)
    ensures
        r@.dom() == kind_paths(facts.deep_view(), language@, kind@),
{
    let ghost all = facts.deep_view();
    let mut r: StringMap<()> = StringMap::new();
    for i in 0..facts.len()
        invariant
            all == facts.deep_view(),
            forall|path: Seq<char>| #[trigger]
                r@.dom().contains(path) <==> filed_language(path) == language@ && exists|j: int|
                    0 <= j < i && (#[trigger] all[j]).uncaptured && all[j].path == path
                        && has_gap_kind(all[j], kind@),
    {
        assert(all[i as int] == facts@[i as int].deep_view());
        if facts[i].has_uncaptured_items() && is_filed_under(facts[i].file_path.as_str(), language)
            && reports_kind(&facts[i], kind) {
            r.insert(facts[i].file_path.clone(), ());
        }
    }
    assert(r@.dom() =~= kind_paths(all, language@, kind@));
    r
}

/// The kinds of gap that files of a language report.
pub open spec fn gap_kinds(facts: Seq<FactsModel>, language: Seq<char>) -> Set<Seq<char>> {
    Set::new(
        |kind: Seq<char>|
            exists|i: int|
                0 <= i < facts.len() && (#[trigger] facts[i]).uncaptured && filed_language(
                    facts[i].path,
                ) == language && has_gap_kind(facts[i], kind),
    )
}

fn collect_kinds(facts: &Vec<ExtractorOutput>, language: &str) -> (r: StringMap<()>)
    ensures
        r@.dom() == gap_kinds(facts.deep_view(), language@),
{
    let ghost all = facts.deep_view();
    let mut r: StringMap<()> = StringMap::new();
    for i in 0..facts.len()
        invariant
            all == facts.deep_view(),
            forall|kind: Seq<char>| #[trigger]
                r@.dom().contains(kind) <==> exists|j: int|
                    0 <= j < i && (#[trigger] all[j]).uncaptured && filed_language(all[j].path)
                        == language@ && has_gap_kind(all[j], kind),
    {
        assert(all[i as int] == facts@[i as int].deep_view());
        let ghost before = r@.dom();
        if facts[i].has_uncaptured_items() && is_filed_under(
            facts[i].file_path.as_str(),
            language,
        ) {
            let gaps = &facts[i].capture_gaps;
            let ghost kinds = all[i as int].gaps;
            for k in 0..gaps.len()
                invariant
                    kinds == gaps.deep_view(),
                    forall|kind: Seq<char>| #[trigger]
                        r@.dom().contains(kind) <==> before.contains(kind) || kinds.take(
                            k as int,
                        ).contains(kind),
            {
                let ghost inner = r@.dom();
                assert(kinds[k as int] == gaps@[k as int].kind@);
                r.insert(gaps[k].kind.clone(), ());
                proof {
                    let done = kinds.take(k as int);
                    let next = kinds.take(k + 1);
                    assert(next =~= done.push(kinds[k as int]));
                    assert forall|kind: Seq<char>| #[trigger]
                        r@.dom().contains(kind) <==> before.contains(kind) || next.contains(
                        kind,
                    ) by {
                        assert(inner.contains(kind) <==> before.contains(kind) || done.contains(
                            kind,
                        ));
                        assert(next[k as int] == kinds[k as int]);
                        if done.contains(kind) {
                            assert(next[done.index_of(kind)] == kind);
                        }
                    }
                }
            }
            assert(kinds.take(kinds.len() as int) =~= kinds);
        }
        proof {
            assert forall|kind: Seq<char>| #[trigger] r@.dom().contains(kind) <==> exists|j: int|
                0 <= j < i + 1 && (#[trigger] all[j]).uncaptured && filed_language(all[j].path)
                    == language@ && has_gap_kind(all[j], kind) by {
                if before.contains(kind) {
                    let j = choose|j: int|
                        0 <= j < i && (#[trigger] all[j]).uncaptured && filed_language(
                            all[j].path,
                        ) == language@ && has_gap_kind(all[j], kind);
                    assert(all[j].uncaptured);
                }
                if exists|j: int|
                    0 <= j < i + 1 && (#[trigger] all[j]).uncaptured && filed_language(all[j].path)
                        == language@ && has_gap_kind(all[j], kind) {
                    let j = choose|j: int|
                        0 <= j < i + 1 && (#[trigger] all[j]).uncaptured && filed_language(
                            all[j].path,
                        ) == language@ && has_gap_kind(all[j], kind);
                    if j < i {
                        assert(before.contains(kind));
                    }
                }
                assert(all[i as int].uncaptured || !all[i as int].uncaptured);
            }
        }
    }
    assert(r@.dom() =~= gap_kinds(all, language@));
    r
}

/// The files of a language whose symbols the graph collapsed: those that were extracted
/// and of which it holds another number of symbols than were found.
pub open spec fn collided_paths(
    files: Seq<(Seq<char>, RecordModel)>,
    graph: KnowledgeGraph,
    errors: Seq<(String, String)>,
    language: Seq<char>,
) -> Set<Seq<char>> {
    Set::new(
        |path: Seq<char>|
            !failed_paths(errors, language).contains(path) && exists|i: int|
                0 <= i < files.len() && (#[trigger] files[i]).0 == path && files[i].1.language
                    == language && graph.file_population(path) != files[i].1.symbol_count,
    )
}

fn collect_collisions(
    files: &Vec<(String, FileRecord)>,
    graph: &KnowledgeGraph,
    failures: &StringMap<()>,
    errors: &Vec<(String, String)>,
    language: &str,
) -> (r: StringMap<()>)
    requires
        failures@.dom() == failed_paths(errors@, language@),
    ensures
        r@.dom() == collided_paths(files.deep_view(), *graph, errors@, language@),
{
    let ghost all = files.deep_view();
    let mut r: StringMap<()> = StringMap::new();
    for i in 0..files.len()
        invariant
            all == files.deep_view(),
            failures@.dom() == failed_paths(errors@, language@),
            forall|path: Seq<char>| #[trigger]
                r@.dom().contains(path) <==> !failed_paths(errors@, language@).contains(path)
                    && exists|j: int|
                    0 <= j < i && (#[trigger] all[j]).0 == path && all[j].1.language == language@
                        && graph.file_population(path) != all[j].1.symbol_count,
    {
        assert(all[i as int].0 == files@[i as int].0@);
        assert(all[i as int].1 == files@[i as int].1.deep_view());
        let path = files[i].0.as_str();
        if text::same(files[i].1.language.as_str(), language) && !failures.contains(path)
            && graph.count_for_file(path) as u64 != files[i].1.symbol_count as u64 {
            r.insert(path.to_owned(), ());
        }
    }
    assert(r@.dom() =~= collided_paths(all, *graph, errors@, language@));
    r
}

fn add_all(target: &mut StringMap<()>, source: &StringMap<()>)
    ensures
        final(target)@.dom() == old(target)@.dom().union(source@.dom()),
{
    let entries = source.entries();
    let ghost keys = ordered::keys_of(source.listing());
    let ghost before = target@.dom();
    for i in 0..entries.len()
        invariant
            entries@ == source.listing(),
            keys == ordered::keys_of(source.listing()),
            forall|k: Seq<char>| #[trigger]
                target@.dom().contains(k) <==> before.contains(k) || exists|j: int|
                    0 <= j < i && #[trigger] keys[j] == k,
    {
        assert(keys[i as int] == entries@[i as int].0@);
        target.insert(entries[i].0.clone(), ());
    }
    assert forall|k: Seq<char>| target@.dom().contains(k) <==> before.union(
        source@.dom(),
    ).contains(k) by {
        if source@.dom().contains(k) {
            assert(keys.contains(k));
            let j = keys.index_of(k);
            assert(keys[j] == k);
        }
        if exists|j: int| 0 <= j < keys.len() && #[trigger] keys[j] == k {
            assert(keys.contains(k));
        }
    }
    assert(target@.dom() =~= before.union(source@.dom()));
}

/// How many files report a gap of each kind.
pub open spec fn kind_counts(facts: Seq<FactsModel>, language: Seq<char>, kinds: Seq<Seq<char>>) -> Seq<
    usize,
> {
    kinds.map_values(|kind: Seq<char>| kind_paths(facts, language, kind).len() as usize)
}

/// One kind of gap in words: how many files, and the first of them.
pub open spec fn kind_text(facts: Seq<FactsModel>, language: Seq<char>, kind: Seq<char>) -> Seq<char> {
    let paths = kind_paths(facts, language, kind);
    kind + "="@ + text::dec(paths.len()) + " ["@ + sorting::listed(paths)[0] + "]"@
}

/// The eight most frequent kinds of gap, in words.
pub open spec fn kinds_text(facts: Seq<FactsModel>, language: Seq<char>) -> Seq<char> {
    let kinds = sorting::listed(gap_kinds(facts, language));
    let order = sorting::descending_order(kind_counts(facts, language, kinds), kinds.len());
    let shown = if order.len() > 8 {
        order.take(8)
    } else {
        order
    };
    sorting::joined(
        shown.map_values(|k: usize| kind_text(facts, language, kinds[k as int])),
        ", "@,
    )
}

/// A kind that a file reports has a file that reports it.
proof fn lemma_kind_has_path(facts: Seq<FactsModel>, language: Seq<char>, kind: Seq<char>)
    requires
        gap_kinds(facts, language).contains(kind),
    ensures
        exists|path: Seq<char>| kind_paths(facts, language, kind).contains(path),
{
    let i = choose|i: int|
        0 <= i < facts.len() && (#[trigger] facts[i]).uncaptured && filed_language(facts[i].path)
            == language && has_gap_kind(facts[i], kind);
    assert(kind_paths(facts, language, kind).contains(facts[i].path));
}

fn describe_kinds(facts: &Vec<ExtractorOutput>, language: &str) -> (r: String)
    ensures
        r@ == kinds_text(facts.deep_view(), language@),
{
    let ghost all = facts.deep_view();
    let found = collect_kinds(facts, language);
    let entries = found.entries();
    let ghost kinds = ordered::keys_of(found.listing());
    proof {
        sorting::lemma_listed(found.listing());
        assert(kinds == sorting::listed(gap_kinds(all, language@)));
    }
    let mut counts: Vec<usize> = Vec::new();
    let mut words: Vec<String> = Vec::new();
    for i in 0..entries.len()
        invariant
            all == facts.deep_view(),
            entries@ == found.listing(),
            found@.dom() == gap_kinds(all, language@),
            kinds == ordered::keys_of(found.listing()),
            counts@.len() == i,
            words@.len() == i,
            forall|j: int|
                0 <= j < i ==> #[trigger] counts@[j] == kind_paths(all, language@, kinds[j]).len(),
            forall|j: int|
                0 <= j < i ==> (#[trigger] words@[j])@ == kind_text(all, language@, kinds[j]),
    {
        let kind = entries[i].0.as_str();
        assert(kinds[i as int] == kind@);
        let paths = collect_kind(facts, language, kind);
        let listing = paths.entries();
        proof {
            ordered::lemma_len(paths.listing());
            sorting::lemma_listed(paths.listing());
            assert(kinds.contains(kind@));
            assert(found@.dom().contains(kind@));
            lemma_kind_has_path(all, language@, kind@);
            let path = choose|path: Seq<char>| kind_paths(all, language@, kind@).contains(path);
            assert(paths@.dom().contains(path));
            assert(ordered::keys_of(paths.listing()).contains(path));
            assert(ordered::keys_of(paths.listing())[0] == listing@[0].0@);
        }
        let count: usize = paths.len();
        counts.push(count);
        let mut text = kind.to_owned();
        text.append("=");
        text.append(decimal(count as u64).as_str());
        text.append(" [");
        text.append(listing[0].0.as_str());
        text.append("]");
        words.push(text);
    }
    assert(counts@ =~= kind_counts(all, language@, kinds));
    let order = descending_positions(&counts);
    let mut shown: Vec<String> = Vec::new();
    let n: usize = if order.len() > 8 {
        8
    } else {
        order.len()
    };
    for i in 0..n
        invariant
            n <= order@.len(),
            words@.len() == kinds.len(),
            forall|j: int| 0 <= j < order@.len() ==> #[trigger] order@[j] < words@.len(),
            forall|j: int|
                0 <= j < words@.len() ==> (#[trigger] words@[j])@ == kind_text(
                    all,
                    language@,
                    kinds[j],
                ),
            shown@.len() == i,
            forall|j: int|
                0 <= j < i ==> (#[trigger] shown@[j])@ == kind_text(
                    all,
                    language@,
                    kinds[order@[j] as int],
                ),
    {
        shown.push(words[order[i]].clone());
    }
    proof {
        let picked = if order@.len() > 8 {
            order@.take(8)
        } else {
            order@
        };
        assert(shown.deep_view() =~= picked.map_values(
            |k: usize| kind_text(all, language@, kinds[k as int]),
        ));
    }
    join(&shown, ", ")
}

/// What the extraction of a run found, as far as its evidence needs it.
#[derive(Debug)]
pub struct ExtractionFindings {
    pub source_inputs: Vec<SourceInput>,
    /// Path and message of each failed extraction.
    pub extraction_errors: Vec<(String, String)>,
    pub document_facts: Vec<ExtractorOutput>,
    pub graph: KnowledgeGraph,
}

/// The structural scope of a language.
pub open spec fn structural_scope(language: Seq<char>) -> ScopeModel {
    ScopeModel::Language { language, configuration: STRUCTURAL_GRAPH_CONFIGURATION_ID@ }
}

/// A qualified structural receipt.
pub open spec fn partial_structural(
    language: Seq<char>,
    fingerprint: Seq<char>,
    code: Seq<char>,
    reason: Seq<char>,
) -> ReceiptModel {
    ReceiptModel {
        capability: "structural_graph"@,
        provider: "h00-structural"@,
        version: Some(INDEXER_IDENTITY@),
        scope: structural_scope(language),
        fingerprint: Some(fingerprint),
        status: CapabilityStatus::Partial,
        reason_code: Some(code),
        reason: Some(reason),
    }
}

/// The structural receipt of a language. It is complete only if nothing was lost:
/// collapsed identities outrank failed extractions, these outrank declarations that were
/// not captured, and these outrank explicit exclusions.
pub open spec fn structural_receipt(
    language: Seq<char>,
    fingerprint: Seq<char>,
    collided: nat,
    failed: nat,
    gaps: nat,
    kinds: Seq<char>,
    excluding: bool,
) -> ReceiptModel {
    if collided > 0 {
        partial_structural(
            language,
            fingerprint,
            "structural_identity_collision"@,
            text::dec(collided) + " "@ + language
                + " source file(s) contain extracted symbol identities the graph collapsed"@,
        )
    } else if failed > 0 {
        partial_structural(
            language,
            fingerprint,
            "source_extraction_failed"@,
            text::dec(failed) + " "@ + language + " source file(s) could not be extracted"@,
        )
    } else if gaps > 0 {
        partial_structural(
            language,
            fingerprint,
            "structural_capture_incomplete"@,
            text::dec(gaps) + " "@ + language
                + " source file(s) contain declaration shapes not represented by the structural graph (gap kinds and examples: "@
                + kinds + ")"@,
        )
    } else if excluding {
        partial_structural(
            language,
            fingerprint,
            "source_population_filtered"@,
            "explicit exclusion patterns prevent complete language coverage"@,
        )
    } else {
        ReceiptModel {
            capability: "structural_graph"@,
            provider: "h00-structural"@,
            version: Some(INDEXER_IDENTITY@),
            scope: structural_scope(language),
            fingerprint: Some(fingerprint),
            status: CapabilityStatus::Complete,
            reason_code: None,
            reason: None,
        }
    }
}

fn partial_structural_receipt(
    language: &str,
    fingerprint: &str,
    code: &str,
    reason: &str,
) -> (r: CapabilityReceipt)
    ensures
        r.deep_view() == partial_structural(language@, fingerprint@, code@, reason@),
{
    CapabilityReceipt::partial(
        "structural_graph",
        "h00-structural",
        Some(INDEXER_IDENTITY.to_owned()),
        CapabilityScope::of_language(language, STRUCTURAL_GRAPH_CONFIGURATION_ID),
        Some(fingerprint.to_owned()),
        code,
        reason,
    )
}

/// What a run found out about one language.
#[derive(Debug, Clone, PartialEq, Eq)]
pub struct LanguageSourceInventory {
    pub language_id: LanguageId,
    pub files_discovered: usize,
    pub files_covered: usize,
    pub extraction_failures: usize,
    /// Digest of the ordered paths and source digests.
    pub source_fingerprint: String,
}

/// An inventory as plain text.
pub struct SourceInventoryModel {
    pub language: Seq<char>,
    pub files_discovered: nat,
    pub files_covered: nat,
    pub extraction_failures: nat,
    pub fingerprint: Seq<char>,
}

impl DeepView for LanguageSourceInventory {
    type V = SourceInventoryModel;

    open spec fn deep_view(&self) -> SourceInventoryModel {
        SourceInventoryModel {
            language: self.language_id.0@,
            files_discovered: self.files_discovered as nat,
            files_covered: self.files_covered as nat,
            extraction_failures: self.extraction_failures as nat,
            fingerprint: self.source_fingerprint@,
        }
    }
}

/// The sources of a language, in path order.
pub open spec fn language_inputs(findings: ExtractionFindings, language: Seq<char>) -> Seq<
    InputModel,
> {
    structural_inputs::by_path(
        structural_inputs::inputs_in(findings.source_inputs.deep_view(), language),
    )
}

/// The fingerprint of a language's sources.
pub open spec fn language_fingerprint(
    findings: ExtractionFindings,
    excludes: Seq<Seq<char>>,
    language: Seq<char>,
) -> Seq<char> {
    structural_inputs::fingerprint_of(language, language_inputs(findings, language), excludes)
}

/// The files of a language that the graph does not fully represent.
pub open spec fn uncovered_paths(
    findings: ExtractionFindings,
    files: Seq<(Seq<char>, RecordModel)>,
    language: Seq<char>,
) -> Set<Seq<char>> {
    failed_paths(findings.extraction_errors@, language).union(
        collided_paths(files, findings.graph, findings.extraction_errors@, language),
    ).union(gap_paths(findings.document_facts.deep_view(), language))
}

/// What is left of a count, or nothing.
pub open spec fn left_of(count: nat, taken: nat) -> nat {
    if taken <= count {
        (count - taken) as nat
    } else {
        0
    }
}

/// The inventory of a language.
pub open spec fn language_inventory(
    findings: ExtractionFindings,
    files: Seq<(Seq<char>, RecordModel)>,
    excludes: Seq<Seq<char>>,
    language: Seq<char>,
) -> SourceInventoryModel {
    let discovered = language_inputs(findings, language).len();
    SourceInventoryModel {
        language,
        files_discovered: discovered,
        files_covered: left_of(discovered, uncovered_paths(findings, files, language).len()),
        extraction_failures: failed_paths(findings.extraction_errors@, language).len(),
        fingerprint: language_fingerprint(findings, excludes, language),
    }
}

/// The structural receipt that a run gives a language.
pub open spec fn language_receipt(
    findings: ExtractionFindings,
    files: Seq<(Seq<char>, RecordModel)>,
    excludes: Seq<Seq<char>>,
    language: Seq<char>,
) -> ReceiptModel {
    structural_receipt(
        language,
        language_fingerprint(findings, excludes, language),
        collided_paths(files, findings.graph, findings.extraction_errors@, language).len(),
        failed_paths(findings.extraction_errors@, language).len(),
        gap_paths(findings.document_facts.deep_view(), language).len(),
        kinds_text(findings.document_facts.deep_view(), language),
        excludes.len() > 0,
    )
}

/// The inventory and the structural receipt of one language.
fn assess_language(
    findings: &ExtractionFindings,
    files: &Vec<(String, FileRecord)>,
    excludes: &Vec<String>,
    language: &str,
) -> (r: (LanguageSourceInventory, CapabilityReceipt))
    ensures
        r.0.deep_view() == language_inventory(
            *findings,
            files.deep_view(),
            excludes.deep_view(),
            language@,
        ),
        r.1.deep_view() == language_receipt(
            *findings,
            files.deep_view(),
            excludes.deep_view(),
            language@,
        ),
{
    let inputs = select_inputs(&findings.source_inputs, language);
    let fingerprint = structural_input_fingerprint(language, &inputs, excludes);
    let failures = collect_failures(&findings.extraction_errors, language);
    let collisions = collect_collisions(
        files,
        &findings.graph,
        &failures,
        &findings.extraction_errors,
        language,
    );
    let gaps = collect_gaps(&findings.document_facts, language);
    let failed: usize = failures.len();
    let collided: usize = collisions.len();
    let uncaptured: usize = gaps.len();
    let failures_list = failures.entries();
    let collisions_list = collisions.entries();
    let gaps_list = gaps.entries();
    proof {
        ordered::lemma_len(failures_list@);
        ordered::lemma_len(collisions_list@);
        ordered::lemma_len(gaps_list@);
    }
    let mut uncovered: StringMap<()> = StringMap::new();
    add_all(&mut uncovered, &failures);
    add_all(&mut uncovered, &collisions);
    add_all(&mut uncovered, &gaps);
    let uncovered_list = uncovered.entries();
    proof {
        assert(uncovered@.dom() =~= uncovered_paths(*findings, files.deep_view(), language@));
        ordered::lemma_len(uncovered_list@);
    }
    let covered: usize = inputs.len().saturating_sub(uncovered.len());
    let receipt = if collided > 0 {
        let mut reason = decimal(collided as u64);
        reason.append(" ");
        reason.append(language);
        reason.append(
            " source file(s) contain extracted symbol identities the graph collapsed",
        );
        partial_structural_receipt(
            language,
            fingerprint.as_str(),
            "structural_identity_collision",
            reason.as_str(),
        )
    } else if failed > 0 {
        let mut reason = decimal(failed as u64);
        reason.append(" ");
        reason.append(language);
        reason.append(" source file(s) could not be extracted");
        partial_structural_receipt(
            language,
            fingerprint.as_str(),
            "source_extraction_failed",
            reason.as_str(),
        )
    } else if uncaptured > 0 {
        let kinds = describe_kinds(&findings.document_facts, language);
        let mut reason = decimal(uncaptured as u64);
        reason.append(" ");
        reason.append(language);
        reason.append(
            " source file(s) contain declaration shapes not represented by the structural graph (gap kinds and examples: ",
        );
        reason.append(kinds.as_str());
        reason.append(")");
        partial_structural_receipt(
            language,
            fingerprint.as_str(),
            "structural_capture_incomplete",
            reason.as_str(),
        )
    } else if excludes.len() > 0 {
        partial_structural_receipt(
            language,
            fingerprint.as_str(),
            "source_population_filtered",
            "explicit exclusion patterns prevent complete language coverage",
        )
    } else {
        CapabilityReceipt::complete(
            "structural_graph",
            "h00-structural",
            INDEXER_IDENTITY,
            CapabilityScope::of_language(language, STRUCTURAL_GRAPH_CONFIGURATION_ID),
            fingerprint.as_str(),
        )
    };
    let inventory = LanguageSourceInventory {
        language_id: LanguageId::new(language),
        files_discovered: inputs.len(),
        files_covered: covered,
        extraction_failures: failed,
        source_fingerprint: fingerprint,
    };
    (inventory, receipt)
}

/// Some semantic source of the project is written in the language.
pub open spec fn has_semantic_source(memberships: Seq<SourceMembership>, language: Seq<char>) -> bool {
    exists|i: int|
        0 <= i < memberships.len() && (#[trigger] memberships[i]).language_id.0@ == language
            && memberships[i].semantic_source_owner
}

fn semantic_sources_present(memberships: &Vec<SourceMembership>, language: &str) -> (r: bool)
    ensures
        r == has_semantic_source(memberships@, language@),
{
    for i in 0..memberships.len()
        invariant
            forall|j: int|
                0 <= j < i ==> !((#[trigger] memberships@[j]).language_id.0@ == language@
                    && memberships@[j].semantic_source_owner),
    {
        if memberships[i].semantic_source_owner && text::same(
            memberships[i].language_id.0.as_str(),
            language,
        ) {
            return true;
        }
    }
    false
}

/// A calls provider knows the language, and the project has a root for it.
pub open spec fn has_execution_root(inventory: ProjectInventory, language: Seq<char>) -> bool {
    match calls_evidence::policy_of(language) {
        Some(policy) => provider_activity::roots_of(
            inventory.execution_roots@,
            language,
            policy.ecosystem,
        ).len() > 0,
        None => false,
    }
}

/// Whether a calls provider of the language has a root to work on.
pub fn calls_provider_execution_root_available(inventory: &ProjectInventory, language: &str) -> (r:
    bool)
    ensures
        r == has_execution_root(*inventory, language@),
{
    match calls_provider_policy(language) {
        Some(policy) => {
            let roots = semantic_provider_execution_roots(
                &inventory.execution_roots,
                language,
                policy.ecosystem,
            );
            assert(roots.deep_view().len() == roots@.len());
            roots.len() > 0
        },
        None => false,
    }
}

/// The calls receipt of a language.
pub open spec fn calls_receipt(
    config: IndexConfig,
    inventory: ProjectInventory,
    evidence: Seq<PublicationReadySemanticEvidence>,
    configured: Set<Seq<char>>,
    language: Seq<char>,
) -> ReceiptModel {
    calls_evidence::selected_receipt(
        config.scip,
        language,
        has_execution_root(inventory, language),
        configured.contains(language),
        calls_for(evidence, language),
    )
}

/// The inventories of some languages, in order.
pub open spec fn inventories(
    findings: ExtractionFindings,
    files: Seq<(Seq<char>, RecordModel)>,
    excludes: Seq<Seq<char>>,
    languages: Seq<Seq<char>>,
) -> Seq<SourceInventoryModel> {
    languages.map_values(
        |language: Seq<char>| language_inventory(findings, files, excludes, language),
    )
}

/// The receipts of some languages: the structural one of each, and the calls one where
/// the language has semantic sources.
pub open spec fn language_receipts(
    config: IndexConfig,
    findings: ExtractionFindings,
    files: Seq<(Seq<char>, RecordModel)>,
    inventory: ProjectInventory,
    evidence: Seq<PublicationReadySemanticEvidence>,
    configured: Set<Seq<char>>,
    languages: Seq<Seq<char>>,
) -> Seq<ReceiptModel>
    decreases languages.len(),
{
    if languages.len() == 0 {
        seq![]
    } else {
        let language = languages.last();
        let before = language_receipts(
            config,
            findings,
            files,
            inventory,
            evidence,
            configured,
            languages.drop_last(),
        ).push(language_receipt(findings, files, config.exclude.deep_view(), language));
        if has_semantic_source(inventory.project_topology.memberships@, language) {
            before.push(calls_receipt(config, inventory, evidence, configured, language))
        } else {
            before
        }
    }
}

/// The payloads that back the calls receipts of some languages, in order.
pub open spec fn calls_payloads(
    config: IndexConfig,
    inventory: ProjectInventory,
    evidence: Seq<PublicationReadySemanticEvidence>,
    languages: Seq<Seq<char>>,
) -> Seq<CanonicalProviderPayload>
    decreases languages.len(),
{
    if languages.len() == 0 {
        seq![]
    } else {
        let language = languages.last();
        let before = calls_payloads(config, inventory, evidence, languages.drop_last());
        let own = calls_for(evidence, language);
        if has_semantic_source(inventory.project_topology.memberships@, language)
            && calls_evidence::admits_payload(config.scip, language, own) {
            before.push(own[0].payload->0)
        } else {
            before
        }
    }
}

/// The key by which receipts are ordered: capability, language, provider.
pub open spec fn receipt_key(receipt: ReceiptModel) -> Seq<char> {
    receipt.capability + "\0"@ + (match receipt.scope.language() {
        Some(language) => language,
        None => ""@,
    }) + "\0"@ + receipt.provider
}

/// The receipts in order.
pub open spec fn sorted_receipts(receipts: Seq<ReceiptModel>) -> Seq<ReceiptModel> {
    let keys = receipts.map_values(|receipt: ReceiptModel| receipt_key(receipt));
    sorting::stable_order(keys, keys.len()).map_values(|k: usize| receipts[k as int])
}

/// Orders receipts by capability, language and provider.
pub fn sort_capability_receipts(receipts: &mut Vec<CapabilityReceipt>)
    ensures
        final(receipts).deep_view() == sorted_receipts(old(receipts).deep_view()),
{
    let ghost all = receipts.deep_view();
    let ghost models = all.map_values(|receipt: ReceiptModel| receipt_key(receipt));
    let mut keys: Vec<String> = Vec::new();
    for i in 0..receipts.len()
        invariant
            all == receipts.deep_view(),
            keys@.len() == i,
            forall|j: int| 0 <= j < i ==> (#[trigger] keys@[j])@ == receipt_key(all[j]),
    {
        let receipt = &receipts[i];
        assert(all[i as int] == receipt.deep_view());
        let mut key = receipt.capability_id.clone();
        key.append("\0");
        match receipt.scope.language_id() {
            Some(language) => {
                key.append(language.0.as_str());
            },
            None => {
                key.append("");
            },
        }
        key.append("\0");
        key.append(receipt.provider_id.0.as_str());
        keys.push(key);
    }
    assert(keys.deep_view() =~= models);
    let order = sorted_positions(&keys);
    let mut sorted: Vec<CapabilityReceipt> = Vec::new();
    for i in 0..order.len()
        invariant
            all == receipts.deep_view(),
            forall|j: int| 0 <= j < order@.len() ==> #[trigger] order@[j] < receipts@.len(),
            sorted@.len() == i,
            forall|j: int|
                0 <= j < i ==> (#[trigger] sorted@[j]).deep_view() == all[order@[j] as int],
    {
        assert(all[order@[i as int] as int] == receipts@[order@[i as int] as int].deep_view());
        sorted.push(receipts[order[i]].copy());
    }
    assert(sorted.deep_view() =~= sorted_receipts(all));
    *receipts = sorted;
}

/// The evidence of a completed run.
#[derive(Debug)]
pub struct IndexEvidence {
    pub source_inventory: Vec<LanguageSourceInventory>,
    pub project_inventory: ProjectInventory,
    pub capability_receipts: Vec<CapabilityReceipt>,
    pub provider_payloads: Vec<CanonicalProviderPayload>,
}

/// The languages that a run found sources of, in order.
pub open spec fn run_languages(findings: ExtractionFindings) -> Seq<Seq<char>> {
    sorting::listed(structural_inputs::languages_in(findings.source_inputs.deep_view()))
}

/// The evidence is what findings, records and the providers' evidence make.
pub open spec fn is_evidence_from(
    result: IndexEvidence,
    config: IndexConfig,
    findings: ExtractionFindings,
    files: Seq<(Seq<char>, RecordModel)>,
    inventory: ProjectInventory,
    evidence: Seq<PublicationReadySemanticEvidence>,
    configured: Set<Seq<char>>,
) -> bool {
    let languages = run_languages(findings);
    &&& result.project_inventory == inventory
    &&& result.source_inventory.deep_view() == inventories(
        findings,
        files,
        config.exclude.deep_view(),
        languages,
    )
    &&& result.capability_receipts.deep_view() == sorted_receipts(
        additional_receipts(evidence) + language_receipts(
            config,
            findings,
            files,
            inventory,
            evidence,
            configured,
            languages,
        ),
    )
    &&& result.provider_payloads@ == additional_payloads(evidence) + calls_payloads(
        config,
        inventory,
        evidence,
        languages,
    )
}

/// Builds the evidence of a run: an inventory and a structural receipt for each language
/// that has sources, a calls receipt for each that has semantic sources, and whatever
/// the providers established beside it.
pub fn build_index_evidence(
    config: &IndexConfig,
    findings: &ExtractionFindings,
    indexed_files: &Vec<(String, FileRecord)>,
    project_inventory: ProjectInventory,
    semantic_evidence: Vec<PublicationReadySemanticEvidence>,
    configured_calls_languages: &StringMap<()>,
) -> (r: IndexEvidence)
    ensures
        is_evidence_from(
            r,
            *config,
            *findings,
            indexed_files.deep_view(),
            project_inventory,
            semantic_evidence@,
            configured_calls_languages@.dom(),
        ),
{
    let ghost evidence = semantic_evidence@;
    let ghost files = indexed_files.deep_view();
    let ghost excludes = config.exclude.deep_view();
    let ghost configured = configured_calls_languages@.dom();
    let routed = route_semantic_evidence(semantic_evidence);
    let mut calls_by_language = routed.calls_by_language;
    let ghost calls = calls_by_language@;
    let mut receipts = routed.additional_receipts;
    let mut payloads = routed.additional_payloads;
    let ghost first_receipts = receipts.deep_view();
    let ghost first_payloads = payloads@;
    let mut source_inventory: Vec<LanguageSourceInventory> = Vec::new();
    let found = input_languages(&findings.source_inputs);
    let languages = found.entries();
    let ghost names = ordered::keys_of(found.listing());
    proof {
        sorting::lemma_listed(found.listing());
        assert(names == run_languages(*findings));
    }
    assert(source_inventory.deep_view() =~= inventories(*findings, files, excludes, names.take(0)));
    assert(receipts.deep_view() =~= first_receipts + language_receipts(
        *config,
        *findings,
        files,
        project_inventory,
        evidence,
        configured,
        names.take(0),
    ));
    assert(payloads@ =~= first_payloads + calls_payloads(
        *config,
        project_inventory,
        evidence,
        names.take(0),
    ));
    for i in 0..languages.len()
        invariant
            files == indexed_files.deep_view(),
            excludes == config.exclude.deep_view(),
            configured == configured_calls_languages@.dom(),
            languages@ == found.listing(),
            names == ordered::keys_of(found.listing()),
            ordered::ascending(names),
            holds_calls(calls, evidence),
            forall|l: Seq<char>| #[trigger]
                calls_by_language@.dom().contains(l) <==> calls.dom().contains(l) && !names.take(
                    i as int,
                ).contains(l),
            forall|l: Seq<char>| #[trigger]
                calls_by_language@.dom().contains(l) ==> calls_by_language@[l] == calls[l],
            source_inventory.deep_view() == inventories(
                *findings,
                files,
                excludes,
                names.take(i as int),
            ),
            receipts.deep_view() == first_receipts + language_receipts(
                *config,
                *findings,
                files,
                project_inventory,
                evidence,
                configured,
                names.take(i as int),
            ),
            payloads@ == first_payloads + calls_payloads(
                *config,
                project_inventory,
                evidence,
                names.take(i as int),
            ),
    {
        let language = languages[i].0.as_str();
        let ghost done = names.take(i as int);
        let ghost next = names.take(i + 1);
        proof {
            assert(names[i as int] == language@);
            assert(next.drop_last() =~= done);
            assert(next.last() == language@);
            assert(!done.contains(language@)) by {
                if done.contains(language@) {
                    let j = done.index_of(language@);
                    assert(names[j] == names[i as int]);
                    ordered::lemma_ascending_distinct(names, j, i as int);
                }
            }
        }
        let ghost inventories_before = source_inventory.deep_view();
        let ghost receipts_before = receipts.deep_view();
        let (inventory, structural) = assess_language(
            findings,
            indexed_files,
            &config.exclude,
            language,
        );
        source_inventory.push(inventory);
        proof {
            let own_inventory = language_inventory(*findings, files, excludes, language@);
            assert(source_inventory.deep_view() =~= inventories_before.push(own_inventory));
            assert(next =~= done.push(language@));
            assert(inventories(*findings, files, excludes, next) =~= inventories(
                *findings,
                files,
                excludes,
                done,
            ).push(own_inventory));
        }
        receipts.push(structural);
        assert(receipts.deep_view() =~= receipts_before.push(
            language_receipt(*findings, files, excludes, language@),
        ));
        let ghost with_structural = receipts.deep_view();
        let ghost own = calls_for(evidence, language@);
        let candidates = calls_by_language.take(language);
        if semantic_sources_present(&project_inventory.project_topology.memberships, language) {
            let candidates: Vec<PublicationReadySemanticEvidence> = match candidates {
                Some(list) => list,
                None => Vec::new(),
            };
            assert(candidates@ =~= own);
            let receipt = select_calls_evidence(
                config.scip,
                language,
                calls_provider_execution_root_available(&project_inventory, language),
                configured_calls_languages.contains(language),
                candidates,
                &mut payloads,
            );
            receipts.push(receipt);
            assert(receipts.deep_view() =~= with_structural.push(
                calls_receipt(*config, project_inventory, evidence, configured, language@),
            ));
        }
        proof {
            assert(receipts.deep_view() =~= first_receipts + language_receipts(
                *config,
                *findings,
                files,
                project_inventory,
                evidence,
                configured,
                next,
            ));
            assert(payloads@ =~= first_payloads + calls_payloads(
                *config,
                project_inventory,
                evidence,
                next,
            ));
            assert forall|l: Seq<char>| next.contains(l) <==> done.contains(l) || l
                == language@ by {
                assert(next[i as int] == language@);
                if done.contains(l) {
                    assert(next[done.index_of(l)] == l);
                }
                if next.contains(l) {
                    let p = next.index_of(l);
                    if p < i {
                        assert(done[p] == l);
                    }
                }
            }
        }
    }
    assert(names.take(names.len() as int) =~= names);
    sort_capability_receipts(&mut receipts);
    IndexEvidence {
        source_inventory,
        project_inventory,
        capability_receipts: receipts,
        provider_payloads: payloads,
    }
}

proof fn lemma_uncovered_finite(
    findings: ExtractionFindings,
    files: Seq<(Seq<char>, RecordModel)>,
    language: Seq<char>,
)
    ensures
        uncovered_paths(findings, files, language).finite(),
{
    let errors = findings.extraction_errors@;
    let facts = findings.document_facts.deep_view();
    let failed = failed_paths(errors, language);
    let collided = collided_paths(files, findings.graph, errors, language);
    let gaps = gap_paths(facts, language);
    let error_paths = errors.map_values(|error: (String, String)| error.0@);
    let file_paths = files.map_values(|file: (Seq<char>, RecordModel)| file.0);
    let fact_paths = facts.map_values(|f: FactsModel| f.path);
    vstd::seq_lib::seq_to_set_is_finite(error_paths);
    vstd::seq_lib::seq_to_set_is_finite(file_paths);
    vstd::seq_lib::seq_to_set_is_finite(fact_paths);
    assert forall|path: Seq<char>| failed.contains(path) implies error_paths.to_set().contains(
        path,
    ) by {
        let i = choose|i: int| 0 <= i < errors.len() && (#[trigger] errors[i]).0@ == path;
        assert(error_paths[i] == path);
    }
    assert forall|path: Seq<char>| collided.contains(path) implies file_paths.to_set().contains(
        path,
    ) by {
        let i = choose|i: int|
            0 <= i < files.len() && (#[trigger] files[i]).0 == path && files[i].1.language
                == language && findings.graph.file_population(path) != files[i].1.symbol_count;
        assert(file_paths[i] == path);
    }
    assert forall|path: Seq<char>| gaps.contains(path) implies fact_paths.to_set().contains(
        path,
    ) by {
        let i = choose|i: int|
            0 <= i < facts.len() && (#[trigger] facts[i]).uncaptured && facts[i].path == path;
        assert(fact_paths[i] == path);
    }
    vstd::set_lib::lemma_len_subset(failed, error_paths.to_set());
    vstd::set_lib::lemma_len_subset(collided, file_paths.to_set());
    vstd::set_lib::lemma_len_subset(gaps, fact_paths.to_set());
}

/// A structural receipt is complete exactly if nothing was lost and nothing was left
/// out; then every discovered file of the language is covered.
pub proof fn law_complete_structure_covers_every_file(
    findings: ExtractionFindings,
    files: Seq<(Seq<char>, RecordModel)>,
    excludes: Seq<Seq<char>>,
    language: Seq<char>,
)
    ensures
        language_receipt(findings, files, excludes, language).status == CapabilityStatus::Complete
            <==> uncovered_paths(findings, files, language).len() == 0 && excludes.len() == 0,
        language_receipt(findings, files, excludes, language).status == CapabilityStatus::Complete
            ==> language_inventory(findings, files, excludes, language).files_covered
            == language_inventory(findings, files, excludes, language).files_discovered,
        language_receipt(findings, files, excludes, language).status
            != CapabilityStatus::Unavailable,
{
    let failed = failed_paths(findings.extraction_errors@, language);
    let collided = collided_paths(files, findings.graph, findings.extraction_errors@, language);
    let gaps = gap_paths(findings.document_facts.deep_view(), language);
    let all = uncovered_paths(findings, files, language);
    lemma_uncovered_finite(findings, files, language);
    vstd::set_lib::lemma_len_subset(failed, all);
    vstd::set_lib::lemma_len_subset(collided, all);
    vstd::set_lib::lemma_len_subset(gaps, all);
    if failed.len() == 0 && collided.len() == 0 && gaps.len() == 0 {
        assert(failed =~= Set::empty());
        assert(collided =~= Set::empty());
        assert(gaps =~= Set::empty());
        assert(all =~= Set::empty());
    }
}

/// How many pieces of evidence are about calls.
pub open spec fn calls_count(evidence: Seq<PublicationReadySemanticEvidence>) -> nat
    decreases evidence.len(),
{
    if evidence.len() == 0 {
        0
    } else {
        calls_count(evidence.drop_last()) + if is_calls(evidence.last()) {
            1nat
        } else {
            0
        }
    }
}

/// Routing loses and repeats nothing: every piece is either calls evidence of its own
/// language or gives one receipt, and only calls evidence can become a calls candidate.
pub proof fn law_routing_partitions_evidence(
    evidence: Seq<PublicationReadySemanticEvidence>,
    language: Seq<char>,
)
    ensures
        additional_receipts(evidence).len() + calls_count(evidence) == evidence.len(),
        additional_payloads(evidence).len() <= additional_receipts(evidence).len(),
        calls_for(evidence, language).len() <= calls_count(evidence),
        forall|i: int|
            0 <= i < calls_for(evidence, language).len() ==> is_calls(
                #[trigger] calls_for(evidence, language)[i],
            ) && calls_for(evidence, language)[i].language_id.0@ == language,
    decreases evidence.len(),
{
    if evidence.len() > 0 {
        law_routing_partitions_evidence(evidence.drop_last(), language);
    }
}

/// Two lists of failures agree on every file that is not filed under the language.
pub open spec fn same_errors_beside(
    a: Seq<(String, String)>,
    b: Seq<(String, String)>,
    affected: Seq<char>,
) -> bool {
    forall|path: Seq<char>| #[trigger]
        filed_language(path) != affected ==> (failed_paths(a, filed_language(path)).contains(path)
            <==> failed_paths(b, filed_language(path)).contains(path))
}

/// Two lists of facts agree on every file that is not filed under the language.
pub open spec fn same_facts_beside(a: Seq<FactsModel>, b: Seq<FactsModel>, affected: Seq<char>) -> bool {
    forall|facts: FactsModel|
        filed_language(facts.path) != affected ==> (#[trigger] a.contains(facts) <==> b.contains(
            facts,
        ))
}

/// Two lists of records agree on every record of another language.
pub open spec fn same_records_beside(
    a: Seq<(Seq<char>, RecordModel)>,
    b: Seq<(Seq<char>, RecordModel)>,
    affected: Seq<char>,
) -> bool {
    forall|file: (Seq<char>, RecordModel)|
        file.1.language != affected ==> (#[trigger] a.contains(file) <==> b.contains(file))
}

/// The findings of two runs differ only in what concerns files of one language: their
/// failures, facts, records, and how many of their symbols the graph holds.
pub open spec fn differ_only_in(
    a: ExtractionFindings,
    files_a: Seq<(Seq<char>, RecordModel)>,
    b: ExtractionFindings,
    files_b: Seq<(Seq<char>, RecordModel)>,
    affected: Seq<char>,
) -> bool {
    &&& a.source_inputs.deep_view() == b.source_inputs.deep_view()
    &&& same_errors_beside(a.extraction_errors@, b.extraction_errors@, affected)
    &&& same_facts_beside(a.document_facts.deep_view(), b.document_facts.deep_view(), affected)
    &&& same_records_beside(files_a, files_b, affected)
    &&& forall|i: int|
        0 <= i < files_a.len() && (#[trigger] files_a[i]).1.language != affected
            ==> a.graph.file_population(files_a[i].0) == b.graph.file_population(files_a[i].0)
}

proof fn lemma_gap_sets_beside(
    a: Seq<FactsModel>,
    b: Seq<FactsModel>,
    affected: Seq<char>,
    language: Seq<char>,
)
    requires
        same_facts_beside(a, b, affected),
        language != affected,
    ensures
        gap_paths(a, language).subset_of(gap_paths(b, language)),
        gap_kinds(a, language).subset_of(gap_kinds(b, language)),
        forall|kind: Seq<char>| #[trigger]
            kind_paths(a, language, kind).subset_of(kind_paths(b, language, kind)),
{
    assert forall|i: int| 0 <= i < a.len() && filed_language((#[trigger] a[i]).path)
        == language implies exists|j: int| 0 <= j < b.len() && #[trigger] b[j] == a[i] by {
        assert(a.contains(a[i]));
        assert(b.contains(a[i]));
        let j = b.index_of(a[i]);
        assert(b[j] == a[i]);
    }
    assert forall|path: Seq<char>| gap_paths(a, language).contains(path) implies gap_paths(
        b,
        language,
    ).contains(path) by {
        let i = choose|i: int|
            0 <= i < a.len() && (#[trigger] a[i]).uncaptured && a[i].path == path;
        let j = choose|j: int| 0 <= j < b.len() && #[trigger] b[j] == a[i];
        assert(b[j].uncaptured);
    }
    assert forall|kind: Seq<char>| gap_kinds(a, language).contains(kind) implies gap_kinds(
        b,
        language,
    ).contains(kind) by {
        let i = choose|i: int|
            0 <= i < a.len() && (#[trigger] a[i]).uncaptured && filed_language(a[i].path)
                == language && has_gap_kind(a[i], kind);
        let j = choose|j: int| 0 <= j < b.len() && #[trigger] b[j] == a[i];
        assert(b[j].uncaptured);
    }
    assert forall|kind: Seq<char>| #[trigger]
        kind_paths(a, language, kind).subset_of(kind_paths(b, language, kind)) by {
        assert forall|path: Seq<char>| kind_paths(a, language, kind).contains(path) implies
            kind_paths(b, language, kind).contains(path) by {
            let i = choose|i: int|
                0 <= i < a.len() && (#[trigger] a[i]).uncaptured && a[i].path == path
                    && has_gap_kind(a[i], kind);
            let j = choose|j: int| 0 <= j < b.len() && #[trigger] b[j] == a[i];
            assert(b[j].uncaptured);
        }
    }
}

proof fn lemma_kinds_text_beside(
    a: Seq<FactsModel>,
    b: Seq<FactsModel>,
    affected: Seq<char>,
    language: Seq<char>,
)
    requires
        same_facts_beside(a, b, affected),
        language != affected,
    ensures
        gap_paths(a, language) == gap_paths(b, language),
        kinds_text(a, language) == kinds_text(b, language),
{
    lemma_gap_sets_beside(a, b, affected, language);
    assert(same_facts_beside(b, a, affected)) by {
        assert forall|facts: FactsModel| filed_language(facts.path) != affected implies (
        #[trigger] b.contains(facts) <==> a.contains(facts)) by {
            assert(a.contains(facts) <==> b.contains(facts));
        }
    }
    lemma_gap_sets_beside(b, a, affected, language);
    assert(gap_paths(a, language) =~= gap_paths(b, language));
    assert(gap_kinds(a, language) =~= gap_kinds(b, language));
    assert forall|kind: Seq<char>| #[trigger]
        kind_paths(a, language, kind) == kind_paths(b, language, kind) by {
        assert(kind_paths(a, language, kind).subset_of(kind_paths(b, language, kind)));
        assert(kind_paths(b, language, kind).subset_of(kind_paths(a, language, kind)));
        assert(kind_paths(a, language, kind) =~= kind_paths(b, language, kind));
    }
    let kinds = sorting::listed(gap_kinds(a, language));
    assert(kind_counts(a, language, kinds) =~= kind_counts(b, language, kinds));
    let order = sorting::descending_order(kind_counts(a, language, kinds), kinds.len());
    let shown = if order.len() > 8 {
        order.take(8)
    } else {
        order
    };
    assert(shown.map_values(|k: usize| kind_text(a, language, kinds[k as int]))
        =~= shown.map_values(|k: usize| kind_text(b, language, kinds[k as int])));
}

proof fn lemma_collisions_beside(
    a: ExtractionFindings,
    files_a: Seq<(Seq<char>, RecordModel)>,
    b: ExtractionFindings,
    files_b: Seq<(Seq<char>, RecordModel)>,
    affected: Seq<char>,
    language: Seq<char>,
)
    requires
        differ_only_in(a, files_a, b, files_b, affected),
        language != affected,
    ensures
        failed_paths(a.extraction_errors@, language) == failed_paths(b.extraction_errors@, language),
        collided_paths(files_a, a.graph, a.extraction_errors@, language) == collided_paths(
            files_b,
            b.graph,
            b.extraction_errors@,
            language,
        ),
{
    let fa = failed_paths(a.extraction_errors@, language);
    let fb = failed_paths(b.extraction_errors@, language);
    assert forall|path: Seq<char>| fa.contains(path) <==> fb.contains(path) by {
        if filed_language(path) == language {
            assert(filed_language(path) != affected);
        }
    }
    assert(fa =~= fb);
    let ca = collided_paths(files_a, a.graph, a.extraction_errors@, language);
    let cb = collided_paths(files_b, b.graph, b.extraction_errors@, language);
    assert forall|path: Seq<char>| ca.contains(path) <==> cb.contains(path) by {
        if ca.contains(path) {
            let i = choose|i: int|
                0 <= i < files_a.len() && (#[trigger] files_a[i]).0 == path && files_a[i].1.language
                    == language && a.graph.file_population(path) != files_a[i].1.symbol_count;
            assert(files_a.contains(files_a[i]));
            assert(files_b.contains(files_a[i]));
            let j = files_b.index_of(files_a[i]);
            assert(files_b[j] == files_a[i]);
        }
        if cb.contains(path) {
            let j = choose|j: int|
                0 <= j < files_b.len() && (#[trigger] files_b[j]).0 == path && files_b[j].1.language
                    == language && b.graph.file_population(path) != files_b[j].1.symbol_count;
            assert(files_b.contains(files_b[j]));
            assert(files_a.contains(files_b[j]));
            let i = files_a.index_of(files_b[j]);
            assert(files_a[i] == files_b[j]);
        }
    }
    assert(ca =~= cb);
}

proof fn lemma_language_beside(
    a: ExtractionFindings,
    files_a: Seq<(Seq<char>, RecordModel)>,
    b: ExtractionFindings,
    files_b: Seq<(Seq<char>, RecordModel)>,
    excludes: Seq<Seq<char>>,
    affected: Seq<char>,
    language: Seq<char>,
)
    requires
        differ_only_in(a, files_a, b, files_b, affected),
        language != affected,
    ensures
        language_inventory(a, files_a, excludes, language) == language_inventory(
            b,
            files_b,
            excludes,
            language,
        ),
        language_receipt(a, files_a, excludes, language) == language_receipt(
            b,
            files_b,
            excludes,
            language,
        ),
{
    lemma_collisions_beside(a, files_a, b, files_b, affected, language);
    lemma_kinds_text_beside(
        a.document_facts.deep_view(),
        b.document_facts.deep_view(),
        affected,
        language,
    );
}

proof fn lemma_receipts_beside(
    config: IndexConfig,
    a: ExtractionFindings,
    files_a: Seq<(Seq<char>, RecordModel)>,
    b: ExtractionFindings,
    files_b: Seq<(Seq<char>, RecordModel)>,
    inventory: ProjectInventory,
    evidence: Seq<PublicationReadySemanticEvidence>,
    configured: Set<Seq<char>>,
    languages: Seq<Seq<char>>,
    affected: Seq<char>,
    receipt: ReceiptModel,
)
    requires
        differ_only_in(a, files_a, b, files_b, affected),
        receipt.scope.language() != Some(affected),
        language_receipts(
            config,
            a,
            files_a,
            inventory,
            evidence,
            configured,
            languages,
        ).contains(receipt),
    ensures
        language_receipts(
            config,
            b,
            files_b,
            inventory,
            evidence,
            configured,
            languages,
        ).contains(receipt),
    decreases languages.len(),
{
    let excludes = config.exclude.deep_view();
    if languages.len() > 0 {
        let front = languages.drop_last();
        let language = languages.last();
        let fa = language_receipts(config, a, files_a, inventory, evidence, configured, front);
        let fb = language_receipts(config, b, files_b, inventory, evidence, configured, front);
        let ra = language_receipt(a, files_a, excludes, language);
        let rb = language_receipt(b, files_b, excludes, language);
        let calls = calls_receipt(config, inventory, evidence, configured, language);
        let la = language_receipts(config, a, files_a, inventory, evidence, configured, languages);
        let lb = language_receipts(config, b, files_b, inventory, evidence, configured, languages);
        let has = has_semantic_source(inventory.project_topology.memberships@, language);
        let k = la.index_of(receipt);
        assert(la[k] == receipt);
        if k < fa.len() {
            assert(fa[k] == receipt);
            lemma_receipts_beside(
                config,
                a,
                files_a,
                b,
                files_b,
                inventory,
                evidence,
                configured,
                front,
                affected,
                receipt,
            );
            let j = fb.index_of(receipt);
            assert(lb[j] == receipt);
        } else if k == fa.len() {
            assert(receipt == ra);
            assert(ra.scope.language() == Some(language));
            lemma_language_beside(a, files_a, b, files_b, excludes, affected, language);
            assert(lb[fb.len() as int] == rb);
        } else {
            assert(has && receipt == calls);
            assert(lb[(fb.len() + 1) as int] == calls);
        }
    }
}

proof fn lemma_sorted_receipts(receipts: Seq<ReceiptModel>, receipt: ReceiptModel)
    requires
        receipts.len() <= usize::MAX,
    ensures
        sorted_receipts(receipts).contains(receipt) <==> receipts.contains(receipt),
{
    let keys = receipts.map_values(|receipt: ReceiptModel| receipt_key(receipt));
    let order = sorting::stable_order(keys, keys.len());
    sorting::law_stable_order_sorts(keys, keys.len());
    let sorted = sorted_receipts(receipts);
    if sorted.contains(receipt) {
        let j = sorted.index_of(receipt);
        assert(sorted[j] == receipts[order[j] as int]);
        assert(order.contains(order[j]));
    }
    if receipts.contains(receipt) {
        let i = receipts.index_of(receipt);
        assert(order.contains(i as usize));
        let j = order.index_of(i as usize);
        assert(sorted[j] == receipts[i]);
    }
}

/// A failure, a gap or a collision of files of one language stays with that language: the
/// evidence of two runs that differ in nothing else has the same inventory of every other
/// language, and the same receipts about every other language.
pub proof fn law_gaps_stay_with_their_language(
    config: IndexConfig,
    a: ExtractionFindings,
    files_a: Seq<(Seq<char>, RecordModel)>,
    first: IndexEvidence,
    b: ExtractionFindings,
    files_b: Seq<(Seq<char>, RecordModel)>,
    second: IndexEvidence,
    inventory: ProjectInventory,
    evidence: Seq<PublicationReadySemanticEvidence>,
    configured: Set<Seq<char>>,
    affected: Seq<char>,
)
    requires
        differ_only_in(a, files_a, b, files_b, affected),
        is_evidence_from(first, config, a, files_a, inventory, evidence, configured),
        is_evidence_from(second, config, b, files_b, inventory, evidence, configured),
    ensures
        first.source_inventory@.len() == second.source_inventory@.len(),
        forall|k: int|
            0 <= k < first.source_inventory@.len() && (
            #[trigger] first.source_inventory@[k]).deep_view().language != affected
                ==> first.source_inventory@[k].deep_view()
                == second.source_inventory@[k].deep_view(),
        forall|receipt: ReceiptModel|
            receipt.scope.language() != Some(affected) ==> (
            #[trigger] first.capability_receipts.deep_view().contains(receipt)
                <==> second.capability_receipts.deep_view().contains(receipt)),
        first.provider_payloads@ == second.provider_payloads@,
{
    let excludes = config.exclude.deep_view();
    let languages = run_languages(a);
    assert(languages == run_languages(b));
    let ia = first.source_inventory.deep_view();
    let ib = second.source_inventory.deep_view();
    assert(ia.len() == languages.len() && ib.len() == languages.len());
    assert forall|k: int|
        0 <= k < first.source_inventory@.len() && (
        #[trigger] first.source_inventory@[k]).deep_view().language != affected implies
        first.source_inventory@[k].deep_view() == second.source_inventory@[k].deep_view() by {
        assert(ia[k] == first.source_inventory@[k].deep_view());
        assert(ib[k] == second.source_inventory@[k].deep_view());
        assert(ia[k].language == languages[k]);
        lemma_language_beside(a, files_a, b, files_b, excludes, affected, languages[k]);
    }
    let extra = additional_receipts(evidence);
    let la = language_receipts(config, a, files_a, inventory, evidence, configured, languages);
    let lb = language_receipts(config, b, files_b, inventory, evidence, configured, languages);
    lemma_sorted_len(extra + la, first.capability_receipts);
    lemma_sorted_len(extra + lb, second.capability_receipts);
    lemma_differ_symmetric(a, files_a, b, files_b, affected);
    assert forall|receipt: ReceiptModel|
        receipt.scope.language() != Some(affected) implies (
    #[trigger] first.capability_receipts.deep_view().contains(receipt)
        <==> second.capability_receipts.deep_view().contains(receipt)) by {
        lemma_sorted_receipts(extra + la, receipt);
        lemma_sorted_receipts(extra + lb, receipt);
        lemma_in_sum(extra, la, receipt);
        lemma_in_sum(extra, lb, receipt);
        if la.contains(receipt) {
            lemma_receipts_beside(
                config,
                a,
                files_a,
                b,
                files_b,
                inventory,
                evidence,
                configured,
                languages,
                affected,
                receipt,
            );
        }
        if lb.contains(receipt) {
            lemma_receipts_beside(
                config,
                b,
                files_b,
                a,
                files_a,
                inventory,
                evidence,
                configured,
                languages,
                affected,
                receipt,
            );
        }
    }
}

proof fn lemma_in_sum(a: Seq<ReceiptModel>, b: Seq<ReceiptModel>, receipt: ReceiptModel)
    ensures
        (a + b).contains(receipt) <==> a.contains(receipt) || b.contains(receipt),
{
    let sum = a + b;
    if sum.contains(receipt) {
        let k = sum.index_of(receipt);
        if k < a.len() {
            assert(a[k] == receipt);
        } else {
            assert(b[k - a.len()] == receipt);
        }
    }
    if a.contains(receipt) {
        assert(sum[a.index_of(receipt)] == receipt);
    }
    if b.contains(receipt) {
        assert(sum[a.len() + b.index_of(receipt)] == receipt);
    }
}

proof fn lemma_sorted_len(receipts: Seq<ReceiptModel>, sorted: Vec<CapabilityReceipt>)
    requires
        sorted.deep_view() == sorted_receipts(receipts),
    ensures
        receipts.len() <= usize::MAX,
{
    let keys = receipts.map_values(|receipt: ReceiptModel| receipt_key(receipt));
    sorting::lemma_stable_order_len(keys, keys.len());
    assert(sorted.deep_view().len() == sorted@.len());
    assert(sorted.len() == sorted@.len());
}

proof fn lemma_differ_symmetric(
    a: ExtractionFindings,
    files_a: Seq<(Seq<char>, RecordModel)>,
    b: ExtractionFindings,
    files_b: Seq<(Seq<char>, RecordModel)>,
    affected: Seq<char>,
)
    requires
        differ_only_in(a, files_a, b, files_b, affected),
    ensures
        differ_only_in(b, files_b, a, files_a, affected),
{
    let x = a.document_facts.deep_view();
    let y = b.document_facts.deep_view();
    assert forall|facts: FactsModel| filed_language(facts.path) != affected implies (
    #[trigger] y.contains(facts) <==> x.contains(facts)) by {
        assert(x.contains(facts) <==> y.contains(facts));
    }
    assert forall|file: (Seq<char>, RecordModel)| file.1.language != affected implies (
    #[trigger] files_b.contains(file) <==> files_a.contains(file)) by {
        assert(files_a.contains(file) <==> files_b.contains(file));
    }
    assert forall|i: int|
        0 <= i < files_b.len() && (#[trigger] files_b[i]).1.language != affected implies
        b.graph.file_population(files_b[i].0) == a.graph.file_population(files_b[i].0) by {
        assert(files_b.contains(files_b[i]));
        assert(files_a.contains(files_b[i]));
        let k = files_a.index_of(files_b[i]);
        assert(files_a[k] == files_b[i]);
    }
}

/// A receipt about the calls of one language.
pub open spec fn is_calls_about(receipt: ReceiptModel, language: Seq<char>) -> bool {
    receipt.capability == "calls"@ && receipt.scope.language() == Some(language)
}

proof fn lemma_receipt_kinds(
    config: IndexConfig,
    findings: ExtractionFindings,
    files: Seq<(Seq<char>, RecordModel)>,
    inventory: ProjectInventory,
    evidence: Seq<PublicationReadySemanticEvidence>,
    configured: Set<Seq<char>>,
    language: Seq<char>,
)
    ensures
        is_calls_about(
            calls_receipt(config, inventory, evidence, configured, language),
            language,
        ),
        language_receipt(findings, files, config.exclude.deep_view(), language).capability
            == "structural_graph"@,
        language_receipt(findings, files, config.exclude.deep_view(), language).scope.language()
            == Some(language),
        "structural_graph"@ != "calls"@,
{
    reveal_strlit("structural_graph");
    reveal_strlit("calls");
    assert("structural_graph"@.len() != "calls"@.len());
}

proof fn lemma_language_receipts(
    config: IndexConfig,
    findings: ExtractionFindings,
    files: Seq<(Seq<char>, RecordModel)>,
    inventory: ProjectInventory,
    evidence: Seq<PublicationReadySemanticEvidence>,
    configured: Set<Seq<char>>,
    languages: Seq<Seq<char>>,
    language: Seq<char>,
)
    requires
        languages.no_duplicates(),
    ensures
        ({
            let all = language_receipts(
                config,
                findings,
                files,
                inventory,
                evidence,
                configured,
                languages,
            );
            let semantic = has_semantic_source(inventory.project_topology.memberships@, language);
            let calls = calls_receipt(config, inventory, evidence, configured, language);
            &&& languages.contains(language) ==> all.contains(
                language_receipt(findings, files, config.exclude.deep_view(), language),
            )
            &&& languages.contains(language) && semantic ==> all.contains(calls)
            &&& forall|k: int|
                0 <= k < all.len() && is_calls_about(#[trigger] all[k], language)
                    ==> languages.contains(language) && semantic && all[k] == calls
            &&& forall|j: int, k: int|
                0 <= j < k < all.len() ==> !(is_calls_about(#[trigger] all[j], language)
                    && is_calls_about(#[trigger] all[k], language))
        }),
    decreases languages.len(),
{
    if languages.len() > 0 {
        let front = languages.drop_last();
        let last = languages.last();
        let n = languages.len() - 1;
        assert(languages[n] == last);
        assert(front.no_duplicates());
        lemma_language_receipts(
            config,
            findings,
            files,
            inventory,
            evidence,
            configured,
            front,
            language,
        );
        lemma_receipt_kinds(config, findings, files, inventory, evidence, configured, language);
        lemma_receipt_kinds(config, findings, files, inventory, evidence, configured, last);
        let before = language_receipts(
            config,
            findings,
            files,
            inventory,
            evidence,
            configured,
            front,
        );
        let all = language_receipts(
            config,
            findings,
            files,
            inventory,
            evidence,
            configured,
            languages,
        );
        let calls = calls_receipt(config, inventory, evidence, configured, language);
        let structural = language_receipt(findings, files, config.exclude.deep_view(), language);
        assert(forall|k: int| 0 <= k < before.len() ==> #[trigger] all[k] == before[k]);
        assert(languages.contains(language) <==> front.contains(language) || language == last) by {
            if front.contains(language) {
                assert(languages[front.index_of(language)] == language);
            }
            if languages.contains(language) {
                let k = languages.index_of(language);
                if k < n {
                    assert(front[k] == language);
                }
            }
        }
        assert(front.contains(language) ==> language != last) by {
            if front.contains(language) {
                let k = front.index_of(language);
                assert(languages[k] != languages[n]);
            }
        }
        if before.contains(structural) {
            assert(all[before.index_of(structural)] == structural);
        }
        if before.contains(calls) {
            assert(all[before.index_of(calls)] == calls);
        }
        assert(all[before.len() as int].capability == "structural_graph"@);
        if language == last {
            assert(all[before.len() as int] == structural);
            if has_semantic_source(inventory.project_topology.memberships@, language) {
                assert(all[before.len() + 1int] == calls);
            }
        }
        if all.len() > before.len() + 1 {
            assert(all[before.len() + 1int] == calls_receipt(
                config,
                inventory,
                evidence,
                configured,
                last,
            ));
            assert(all[before.len() + 1int].scope.language() == Some(last));
        }
        assert forall|k: int| 0 <= k < all.len() && is_calls_about(
            #[trigger] all[k],
            language,
        ) implies languages.contains(language) && has_semantic_source(
            inventory.project_topology.memberships@,
            language,
        ) && all[k] == calls by {
            if k < before.len() {
                assert(all[k] == before[k]);
            }
        }
        assert forall|j: int, k: int| 0 <= j < k < all.len() implies !(is_calls_about(
            #[trigger] all[j],
            language,
        ) && is_calls_about(#[trigger] all[k], language)) by {
            if k < before.len() {
                assert(all[j] == before[j] && all[k] == before[k]);
            } else if j < before.len() {
                assert(all[j] == before[j]);
            }
        }
    }
}

proof fn lemma_additional_receipts(evidence: Seq<PublicationReadySemanticEvidence>)
    ensures
        forall|k: int|
            0 <= k < additional_receipts(evidence).len() ==> (
            #[trigger] additional_receipts(evidence)[k]).capability != "calls"@,
        forall|i: int|
            0 <= i < evidence.len() && (#[trigger] evidence[i]).receipt.capability_id@ != "calls"@
                ==> additional_receipts(evidence).contains(additional_receipt(evidence[i])),
    decreases evidence.len(),
{
    if evidence.len() > 0 {
        let n = evidence.len() - 1;
        let front = evidence.drop_last();
        lemma_additional_receipts(front);
        let before = additional_receipts(front);
        let all = additional_receipts(evidence);
        assert forall|k: int| 0 <= k < all.len() implies (#[trigger] all[k]).capability
            != "calls"@ by {
            if k < before.len() {
                assert(all[k] == before[k]);
            }
        }
        assert forall|i: int|
            0 <= i < evidence.len() && (#[trigger] evidence[i]).receipt.capability_id@
                != "calls"@ implies all.contains(additional_receipt(evidence[i])) by {
            if i < n {
                assert(front[i] == evidence[i]);
                let k = before.index_of(additional_receipt(evidence[i]));
                assert(all[k] == additional_receipt(evidence[i]));
            } else {
                assert(all[all.len() - 1] == additional_receipt(evidence[i]));
            }
        }
    }
}

proof fn lemma_run_languages(findings: ExtractionFindings)
    ensures
        run_languages(findings).no_duplicates(),
        forall|language: Seq<char>| #[trigger]
            run_languages(findings).contains(language) <==> exists|i: int|
                0 <= i < findings.source_inputs@.len() && (
                #[trigger] findings.source_inputs@[i]).language@ == language,
{
    let inputs = findings.source_inputs.deep_view();
    structural_inputs::law_languages_are_those_of_the_sources(inputs);
    sorting::lemma_listed_set(structural_inputs::languages_in(inputs));
    let names = run_languages(findings);
    assert forall|i: int, j: int| 0 <= i < names.len() && 0 <= j < names.len() && i != j implies names[i]
        != names[j] by {
        if names[i] == names[j] {
            ordered::lemma_ascending_distinct(names, i, j);
        }
    }
    assert forall|language: Seq<char>| #[trigger] names.contains(language) <==> exists|i: int|
        0 <= i < findings.source_inputs@.len() && (
        #[trigger] findings.source_inputs@[i]).language@ == language by {
        if names.contains(language) {
            let i = choose|i: int|
                0 <= i < inputs.len() && (#[trigger] inputs[i]).language == language;
            assert(findings.source_inputs@[i].language@ == language);
        }
        if exists|i: int|
            0 <= i < findings.source_inputs@.len() && (
            #[trigger] findings.source_inputs@[i]).language@ == language {
            let i = choose|i: int|
                0 <= i < findings.source_inputs@.len() && (
                #[trigger] findings.source_inputs@[i]).language@ == language;
            assert(inputs[i].language == language);
        }
    }
}

/// Every language that a run found sources of, and that has a semantic source owner, gets
/// exactly one calls receipt: the one that selection makes of the language's own calls
/// evidence, whether or not there is any. No other language gets one.
pub proof fn law_one_calls_receipt_per_semantic_language(
    result: IndexEvidence,
    config: IndexConfig,
    findings: ExtractionFindings,
    files: Seq<(Seq<char>, RecordModel)>,
    inventory: ProjectInventory,
    evidence: Seq<PublicationReadySemanticEvidence>,
    configured: Set<Seq<char>>,
    language: Seq<char>,
)
    requires
        is_evidence_from(result, config, findings, files, inventory, evidence, configured),
    ensures
        ({
            let receipts = result.capability_receipts.deep_view();
            let members = inventory.project_topology.memberships@;
            let found = exists|i: int|
                0 <= i < findings.source_inputs@.len() && (
                #[trigger] findings.source_inputs@[i]).language@ == language;
            let semantic = exists|m: int|
                0 <= m < members.len() && (#[trigger] members[m]).language_id.0@ == language
                    && members[m].semantic_source_owner;
            let selected = calls_evidence::selected_receipt(
                config.scip,
                language,
                has_execution_root(inventory, language),
                configured.contains(language),
                calls_for(evidence, language),
            );
            &&& found && semantic ==> receipts.contains(selected) && is_calls_about(
                selected,
                language,
            )
            &&& forall|k: int|
                0 <= k < receipts.len() && is_calls_about(#[trigger] receipts[k], language)
                    ==> found && semantic && receipts[k] == selected
            &&& forall|j: int, k: int|
                0 <= j < k < receipts.len() ==> !(is_calls_about(#[trigger] receipts[j], language)
                    && is_calls_about(#[trigger] receipts[k], language))
        }),
{
    let languages = run_languages(findings);
    let extra = additional_receipts(evidence);
    let own = language_receipts(
        config,
        findings,
        files,
        inventory,
        evidence,
        configured,
        languages,
    );
    let all = extra + own;
    let receipts = result.capability_receipts.deep_view();
    let selected = calls_receipt(config, inventory, evidence, configured, language);
    lemma_run_languages(findings);
    lemma_additional_receipts(evidence);
    lemma_receipt_kinds(config, findings, files, inventory, evidence, configured, language);
    lemma_language_receipts(
        config,
        findings,
        files,
        inventory,
        evidence,
        configured,
        languages,
        language,
    );
    lemma_sorted_len(all, result.capability_receipts);
    lemma_sorted_receipts(all, selected);
    lemma_in_sum(extra, own, selected);
    let keys = all.map_values(|receipt: ReceiptModel| receipt_key(receipt));
    let order = sorting::stable_order(keys, keys.len());
    sorting::law_stable_order_sorts(keys, keys.len());
    sorting::law_stable_order_is_stable(keys, keys.len());
    assert forall|k: int| 0 <= k < receipts.len() && is_calls_about(
        #[trigger] receipts[k],
        language,
    ) implies {
        let p = order[k] as int;
        &&& extra.len() <= p < all.len()
        &&& own[p - extra.len()] == receipts[k]
    } by {
        assert(order.contains(order[k]));
        assert(receipts[k] == all[order[k] as int]);
        if order[k] < extra.len() {
            assert(extra[order[k] as int] == receipts[k]);
        }
    }
    assert forall|j: int, k: int| 0 <= j < k < receipts.len() implies !(is_calls_about(
        #[trigger] receipts[j],
        language,
    ) && is_calls_about(#[trigger] receipts[k], language)) by {
        if is_calls_about(receipts[j], language) && is_calls_about(receipts[k], language) {
            let p = order[j] as int - extra.len();
            let q = order[k] as int - extra.len();
            assert(order[j] != order[k]);
            assert(is_calls_about(own[p], language) && is_calls_about(own[q], language));
            if p < q {
                assert(!(is_calls_about(own[p], language) && is_calls_about(own[q], language)));
            } else {
                assert(!(is_calls_about(own[q], language) && is_calls_about(own[p], language)));
            }
        }
    }
}

/// Every language that a run found sources of gets its structural receipt, and every piece
/// of evidence about another capability gives a receipt: its own where its language and
/// payload agree with it, else one that keeps its provider and scope and is unavailable.
pub proof fn law_no_receipt_is_lost(
    result: IndexEvidence,
    config: IndexConfig,
    findings: ExtractionFindings,
    files: Seq<(Seq<char>, RecordModel)>,
    inventory: ProjectInventory,
    evidence: Seq<PublicationReadySemanticEvidence>,
    configured: Set<Seq<char>>,
    k: int,
    i: int,
)
    requires
        is_evidence_from(result, config, findings, files, inventory, evidence, configured),
        0 <= k < findings.source_inputs@.len(),
        0 <= i < evidence.len(),
        evidence[i].receipt.capability_id@ != "calls"@,
    ensures
        ({
            let receipts = result.capability_receipts.deep_view();
            let own = evidence[i].receipt.deep_view();
            let agrees = own.scope.language() == Some(evidence[i].language_id.0@) && (
            evidence[i].payload is Some ==> evidence[i].payload->0.payload.deep_view().receipt()
                == own && !(evidence[i].payload->0.payload is Calls));
            &&& receipts.contains(
                language_receipt(
                    findings,
                    files,
                    config.exclude.deep_view(),
                    findings.source_inputs@[k].language@,
                ),
            )
            &&& agrees ==> receipts.contains(own)
            &&& !agrees ==> exists|p: int|
                0 <= p < receipts.len() && (#[trigger] receipts[p]).status
                    == CapabilityStatus::Unavailable && receipts[p].capability == own.capability
                    && receipts[p].provider == own.provider && receipts[p].version == own.version
                    && receipts[p].scope == own.scope && receipts[p].fingerprint
                    == own.fingerprint && receipts[p].reason_code == Some(
                    "provider_evidence_inconsistent"@,
                )
        }),
{
    let language = findings.source_inputs@[k].language@;
    let languages = run_languages(findings);
    let extra = additional_receipts(evidence);
    let own = language_receipts(
        config,
        findings,
        files,
        inventory,
        evidence,
        configured,
        languages,
    );
    let all = extra + own;
    let receipts = result.capability_receipts.deep_view();
    let structural = language_receipt(findings, files, config.exclude.deep_view(), language);
    let other = additional_receipt(evidence[i]);
    lemma_run_languages(findings);
    assert(languages.contains(language));
    lemma_additional_receipts(evidence);
    lemma_language_receipts(
        config,
        findings,
        files,
        inventory,
        evidence,
        configured,
        languages,
        language,
    );
    lemma_sorted_len(all, result.capability_receipts);
    lemma_sorted_receipts(all, structural);
    lemma_sorted_receipts(all, other);
    lemma_in_sum(extra, own, structural);
    lemma_in_sum(extra, own, other);
    assert(receipts.contains(other));
    let p = receipts.index_of(other);
    assert(receipts[p] == other);
}

/// The calls evidence of a language is exactly the evidence about calls that is filed under
/// it, in order.
pub proof fn law_calls_candidates_are_exact(
    evidence: Seq<PublicationReadySemanticEvidence>,
    language: Seq<char>,
)
    ensures
        calls_for(evidence, language) == evidence.filter(
            |piece: PublicationReadySemanticEvidence|
                piece.receipt.capability_id@ == "calls"@ && piece.language_id.0@ == language,
        ),
    decreases evidence.len(),
{
    let pred = |piece: PublicationReadySemanticEvidence|
        piece.receipt.capability_id@ == "calls"@ && piece.language_id.0@ == language;
    reveal(Seq::filter);
    if evidence.len() > 0 {
        let front = evidence.drop_last();
        law_calls_candidates_are_exact(front, language);
        assert(evidence =~= front.push(evidence.last()));
        assert(evidence.filter(pred) == if pred(evidence.last()) {
            front.filter(pred).push(evidence.last())
        } else {
            front.filter(pred)
        });
    }
}

/// A calls provider has a root to work on exactly if the project has an execution root of
/// the language in the ecosystem of its providers.
pub proof fn law_execution_root_is_one_of_the_ecosystem(
    inventory: ProjectInventory,
    language: Seq<char>,
)
    ensures
        has_execution_root(inventory, language) <==> exists|i: int|
            0 <= i < inventory.execution_roots@.len() && (
            #[trigger] inventory.execution_roots@[i]).language_id@ == language && {
                let ecosystem = inventory.execution_roots@[i].ecosystem_id@;
                ||| language == "rust"@ && ecosystem == "cargo"@
                ||| language == "go"@ && ecosystem == "go"@
                ||| language == "python"@ && ecosystem == "python"@
                ||| language == "typescript"@ && ecosystem == "node"@
            },
{
    calls_evidence::law_admitted_providers(language, seq![]);
    if calls_evidence::policy_of(language) is Some {
        provider_activity::law_execution_roots_are_exact(
            inventory.execution_roots@,
            language,
            calls_evidence::policy_of(language)->0.ecosystem,
        );
    }
}

/// A structural receipt hides no loss. A file whose extraction failed, a file with
/// declarations that the graph does not represent, and an extracted file of which the graph
/// holds another number of symbols than were found, each keep the language's receipt from
/// being complete; so does an exclusion pattern. The receipt names the gravest loss.
pub proof fn law_structural_losses_are_named(
    findings: ExtractionFindings,
    files: Seq<(Seq<char>, RecordModel)>,
    excludes: Seq<Seq<char>>,
    language: Seq<char>,
)
    ensures
        ({
            let receipt = language_receipt(findings, files, excludes, language);
            let errors = findings.extraction_errors@;
            let facts = findings.document_facts.deep_view();
            let failed = exists|i: int|
                0 <= i < errors.len() && filed_language((#[trigger] errors[i]).0@) == language;
            let incomplete = exists|i: int|
                0 <= i < facts.len() && (#[trigger] facts[i]).uncaptured && filed_language(
                    facts[i].path,
                ) == language;
            let collapsed = exists|i: int|
                0 <= i < files.len() && (#[trigger] files[i]).1.language == language
                    && findings.graph.file_population(files[i].0) != files[i].1.symbol_count
                    && forall|e: int|
                    0 <= e < errors.len() ==> (#[trigger] errors[e]).0@ != files[i].0
                        || filed_language(files[i].0) != language;
            &&& receipt.status == CapabilityStatus::Complete <==> !collapsed && !failed
                && !incomplete && excludes.len() == 0
            &&& receipt.status != CapabilityStatus::Unavailable
            &&& receipt.reason_code == if collapsed {
                Some("structural_identity_collision"@)
            } else if failed {
                Some("source_extraction_failed"@)
            } else if incomplete {
                Some("structural_capture_incomplete"@)
            } else if excludes.len() > 0 {
                Some("source_population_filtered"@)
            } else {
                None
            }
            &&& receipt.provider == "h00-structural"@
            &&& receipt.version == Some(INDEXER_IDENTITY@)
            &&& receipt.scope == (ScopeModel::Language {
                language,
                configuration: "structural-graph"@,
            })
            &&& receipt.fingerprint == Some(
                structural_inputs::fingerprint_of(
                    language,
                    structural_inputs::by_path(
                        structural_inputs::inputs_in(findings.source_inputs.deep_view(), language),
                    ),
                    excludes,
                ),
            )
        }),
{
    let errors = findings.extraction_errors@;
    let facts = findings.document_facts.deep_view();
    let failures = failed_paths(errors, language);
    let collisions = collided_paths(files, findings.graph, errors, language);
    let gaps = gap_paths(facts, language);
    let all = uncovered_paths(findings, files, language);
    lemma_uncovered_finite(findings, files, language);
    vstd::set_lib::lemma_len_subset(failures, all);
    vstd::set_lib::lemma_len_subset(collisions, all);
    vstd::set_lib::lemma_len_subset(gaps, all);
    if exists|i: int|
        0 <= i < errors.len() && filed_language((#[trigger] errors[i]).0@) == language {
        let i = choose|i: int|
            0 <= i < errors.len() && filed_language((#[trigger] errors[i]).0@) == language;
        assert(failures.contains(errors[i].0@));
        lemma_has_member(failures, errors[i].0@);
    } else {
        assert(failures =~= Set::empty());
    }
    if exists|i: int|
        0 <= i < facts.len() && (#[trigger] facts[i]).uncaptured && filed_language(facts[i].path)
            == language {
        let i = choose|i: int|
            0 <= i < facts.len() && (#[trigger] facts[i]).uncaptured && filed_language(
                facts[i].path,
            ) == language;
        assert(gaps.contains(facts[i].path));
        lemma_has_member(gaps, facts[i].path);
    } else {
        assert(gaps =~= Set::empty());
    }
    if exists|i: int|
        0 <= i < files.len() && (#[trigger] files[i]).1.language == language
            && findings.graph.file_population(files[i].0) != files[i].1.symbol_count && forall|
            e: int,
        |
            0 <= e < errors.len() ==> (#[trigger] errors[e]).0@ != files[i].0 || filed_language(
                files[i].0,
            ) != language {
        let i = choose|i: int|
            0 <= i < files.len() && (#[trigger] files[i]).1.language == language
                && findings.graph.file_population(files[i].0) != files[i].1.symbol_count && forall|
                e: int,
            |
                0 <= e < errors.len() ==> (#[trigger] errors[e]).0@ != files[i].0
                    || filed_language(files[i].0) != language;
        assert(collisions.contains(files[i].0));
        lemma_has_member(collisions, files[i].0);
    } else {
        assert forall|path: Seq<char>| !collisions.contains(path) by {
            if collisions.contains(path) {
                let i = choose|i: int|
                    0 <= i < files.len() && (#[trigger] files[i]).0 == path && files[i].1.language
                        == language && findings.graph.file_population(path)
                        != files[i].1.symbol_count;
                assert(files[i].1.language == language);
                assert(!failures.contains(path));
            }
        }
        assert(collisions =~= Set::empty());
    }
}

proof fn lemma_has_member(set: Set<Seq<char>>, member: Seq<char>)
    requires
        set.finite(),
        set.contains(member),
    ensures
        set.len() > 0,
{
    assert(set.len() == set.remove(member).len() + 1);
}

} // verus!
