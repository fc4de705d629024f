//! What the tool writes, the window reads.
//!
//! Each document that the command line tool hands to the window is followed from the values that it was made
//! of to the values that are read out of it.

use vstd::prelude::*;

use crate::backend::{
    each_evidence, each_library, each_stored, evidence_of, item_of, items_among, library_of, plan_of, scan_of,
    stored_of, texts_among, EvidenceRowView, LibraryView, PlanView, ScanView, StoredView,
};
use crate::commands::{
    filesystem_name, library_doc, library_docs, measure_doc, measure_docs, reason_against, scan_doc, shown_if_any,
    shown_list, storage_doc, storage_gaps, stored_doc, stored_docs, ListedView, MeasuredView,
};
use crate::document::{
    agrees, are_gaps, block_gaps, doc_value, entry_gaps, is_json, items_agree, items_value, keys_differ,
    law_order_of_pairs_does_not_matter, lemma_gaps, lemma_list_is_json, lemma_member, lemma_table_is_json,
    page_gaps, row_gaps, text_docs, texts_doc, Doc,
};
use crate::evidence::{evidence_items, evidence_listing, item_doc, result_code, Evidence, Row};
use crate::json::JsonView;
use crate::path::shown;
use crate::plan::{consequences_of, plan_doc, remaining};
use crate::protocol::GROWTH_RESERVE;
use crate::state::StateView;
use crate::steam::install_label;

verus! {

pub open spec fn text_or_empty(text: Option<Seq<char>>) -> Seq<char> {
    match text {
        Some(text) => text,
        None => ""@,
    }
}

proof fn lemma_same_texts(list: Seq<JsonView>, items: Seq<JsonView>)
    requires
        items_agree(list, items),
    ensures
        texts_among(list) == texts_among(items),
    decreases items.len(),
{
    if items.len() > 0 {
        let n = items.len() - 1;
        assert(agrees(list[n], items[n]));
        lemma_same_text(list[n], items[n]);
        assert forall|i: int| 0 <= i < n implies agrees(list.drop_last()[i], #[trigger] items.drop_last()[i]) by {
            assert(agrees(list[i], items[i]));
        }
        lemma_same_texts(list.drop_last(), items.drop_last());
    }
}

proof fn lemma_same_text(value: JsonView, wanted: JsonView)
    requires
        agrees(value, wanted),
    ensures
        value.text() == wanted.text(),
{
}

/// Texts that were written in a row are read as they were.
proof fn lemma_texts_read(list: Seq<Seq<char>>)
    ensures
        texts_among(items_value(text_docs(list))) == list,
    decreases list.len(),
{
    let items = items_value(text_docs(list));
    if list.len() > 0 {
        let n = list.len() - 1;
        assert(items.drop_last() =~= items_value(text_docs(list.drop_last()))) by {
            assert forall|i: int| 0 <= i < n implies items[i] == #[trigger] items_value(
                text_docs(list.drop_last()),
            )[i] by {
                assert(text_docs(list)[i] == text_docs(list.drop_last())[i]);
            }
        }
        lemma_texts_read(list.drop_last());
        assert(text_docs(list)[n] == Doc::Text(list[n]));
        assert(doc_value(Doc::Text(list[n])) == JsonView::Text(list[n]));
        assert(items.last() == JsonView::Text(list[n]));
        assert(list.drop_last().push(list[n]) =~= list);
    } else {
        assert(items =~= Seq::empty());
        assert(list =~= Seq::empty());
    }
}

proof fn lemma_texts_are_json(list: Seq<Seq<char>>, depth: nat)
    requires
        depth > 0,
    ensures
        is_json(texts_doc(list), depth),
{
    lemma_gaps();
    lemma_list_is_json(row_gaps(), text_docs(list), depth);
}

// ----------------------------------------------------------------------- scan

/// A library as the window is told of it.
pub open spec fn seen_library(row: ListedView) -> LibraryView {
    let library = row.library;
    let reason = reason_against(row.report.state, row.mount);
    LibraryView {
        id: library.id,
        path: shown(library.path),
        name: library.name(),
        steam: install_label(library.install_kind),
        filesystem: filesystem_name(row.mount),
        state: row.report.state.code(),
        target: shown(library.target()),
        connected: library.connected,
        backups: shown_list(row.report.backups),
        eligible: reason is None,
        blocking_reason: text_or_empty(reason),
        destination_occupied: text_or_empty(shown_if_any(row.report.existing_destination)),
    }
}

pub open spec fn seen_libraries(rows: Seq<ListedView>) -> Seq<LibraryView> {
    Seq::new(rows.len(), |i: int| seen_library(rows[i]))
}

pub open spec fn seen_scan(rows: Seq<ListedView>, warnings: Seq<Seq<char>>) -> ScanView {
    ScanView { libraries: seen_libraries(rows), warnings, complete: warnings.len() == 0 }
}

proof fn lemma_library_keys(row: ListedView)
    ensures
        keys_differ(library_doc(row)->Table_1),
{
    reveal_strlit("id");
    reveal_strlit("path");
    reveal_strlit("name");
    reveal_strlit("steam");
    reveal_strlit("filesystem");
    reveal_strlit("connected");
    reveal_strlit("state");
    reveal_strlit("target");
    reveal_strlit("eligible");
    reveal_strlit("blocking_reason");
    reveal_strlit("destination_occupied");
    reveal_strlit("backups");
    assert("id"@.len() == 2 && "path"@.len() == 4 && "name"@.len() == 4 && "steam"@.len() == 5
        && "filesystem"@.len() == 10 && "connected"@.len() == 9 && "state"@.len() == 5 && "target"@.len() == 6
        && "eligible"@.len() == 8 && "blocking_reason"@.len() == 15 && "destination_occupied"@.len() == 20
        && "backups"@.len() == 7);
    assert("path"@[0] == 'p' && "name"@[0] == 'n' && "steam"@[2] == 'e' && "state"@[2] == 'a');
}

proof fn lemma_scan_keys(rows: Seq<ListedView>, warnings: Seq<Seq<char>>, version: Seq<char>)
    ensures
        keys_differ(scan_doc(rows, warnings, version)->Table_1),
{
    reveal_strlit("schema");
    reveal_strlit("tool_version");
    reveal_strlit("complete");
    reveal_strlit("libraries");
    reveal_strlit("warnings");
    assert("schema"@.len() == 6 && "tool_version"@.len() == 12 && "complete"@.len() == 8 && "libraries"@.len()
        == 9 && "warnings"@.len() == 8);
    assert("complete"@[0] == 'c' && "warnings"@[0] == 'w');
}

pub proof fn lemma_scan_is_json(rows: Seq<ListedView>, warnings: Seq<Seq<char>>, version: Seq<char>)
    ensures
        is_json(scan_doc(rows, warnings, version), 100),
{
    lemma_gaps();
    lemma_scan_keys(rows, warnings, version);
    assert forall|i: int| 0 <= i < rows.len() implies is_json(#[trigger] library_docs(rows)[i], 98) by {
        lemma_library_keys(rows[i]);
        lemma_texts_are_json(shown_list(rows[i].report.backups), 97);
        lemma_table_is_json(entry_gaps(), library_doc(rows[i])->Table_1, 98);
    }
    lemma_list_is_json(block_gaps(), library_docs(rows), 99);
    lemma_texts_are_json(warnings, 99);
    lemma_table_is_json(page_gaps(), scan_doc(rows, warnings, version)->Table_1, 100);
}

proof fn lemma_library_reads_back(row: ListedView)
    ensures
        library_of(doc_value(library_doc(row))) == seen_library(row),
{
    lemma_library_keys(row);
    let pairs = library_doc(row)->Table_1;
    lemma_member(entry_gaps(), pairs, 0);
    lemma_member(entry_gaps(), pairs, 1);
    lemma_member(entry_gaps(), pairs, 2);
    lemma_member(entry_gaps(), pairs, 3);
    lemma_member(entry_gaps(), pairs, 4);
    lemma_member(entry_gaps(), pairs, 5);
    lemma_member(entry_gaps(), pairs, 6);
    lemma_member(entry_gaps(), pairs, 7);
    lemma_member(entry_gaps(), pairs, 8);
    lemma_member(entry_gaps(), pairs, 9);
    lemma_member(entry_gaps(), pairs, 10);
    lemma_member(entry_gaps(), pairs, 11);
    lemma_texts_read(shown_list(row.report.backups));
}

/// What a scan says when written down is read as the libraries that were found, and as whether all was seen.
pub proof fn law_scan_reads_back(
    rows: Seq<ListedView>,
    warnings: Seq<Seq<char>>,
    version: Seq<char>,
    binary: Seq<u8>,
)
    ensures
        scan_of(doc_value(scan_doc(rows, warnings, version)), binary) == Ok::<ScanView, Seq<char>>(
            seen_scan(rows, warnings),
        ),
{
    lemma_scan_keys(rows, warnings, version);
    let pairs = scan_doc(rows, warnings, version)->Table_1;
    lemma_member(page_gaps(), pairs, 0);
    lemma_member(page_gaps(), pairs, 2);
    lemma_member(page_gaps(), pairs, 3);
    lemma_member(page_gaps(), pairs, 4);
    lemma_texts_read(warnings);
    let items = items_value(library_docs(rows));
    assert forall|i: int| 0 <= i < rows.len() implies #[trigger] each_library(items)[i] == seen_libraries(
        rows,
    )[i] by {
        lemma_library_reads_back(rows[i]);
        assert(items[i] == doc_value(library_docs(rows)[i]));
    }
    assert(each_library(items) =~= seen_libraries(rows));
}

proof fn lemma_same_library(value: JsonView, wanted: JsonView)
    requires
        agrees(value, wanted),
    ensures
        library_of(value) == library_of(wanted),
{
    law_order_of_pairs_does_not_matter(value, wanted, "id"@);
    law_order_of_pairs_does_not_matter(value, wanted, "path"@);
    law_order_of_pairs_does_not_matter(value, wanted, "name"@);
    law_order_of_pairs_does_not_matter(value, wanted, "steam"@);
    law_order_of_pairs_does_not_matter(value, wanted, "filesystem"@);
    law_order_of_pairs_does_not_matter(value, wanted, "state"@);
    law_order_of_pairs_does_not_matter(value, wanted, "target"@);
    law_order_of_pairs_does_not_matter(value, wanted, "connected"@);
    law_order_of_pairs_does_not_matter(value, wanted, "backups"@);
    law_order_of_pairs_does_not_matter(value, wanted, "eligible"@);
    law_order_of_pairs_does_not_matter(value, wanted, "blocking_reason"@);
    law_order_of_pairs_does_not_matter(value, wanted, "destination_occupied"@);
    lemma_same_texts(value.items_at("backups"@), wanted.items_at("backups"@));
}

pub proof fn lemma_same_scan(value: JsonView, wanted: JsonView, binary: Seq<u8>)
    requires
        agrees(value, wanted),
    ensures
        scan_of(value, binary) == scan_of(wanted, binary),
{
    law_order_of_pairs_does_not_matter(value, wanted, "schema"@);
    law_order_of_pairs_does_not_matter(value, wanted, "libraries"@);
    law_order_of_pairs_does_not_matter(value, wanted, "warnings"@);
    law_order_of_pairs_does_not_matter(value, wanted, "complete"@);
    lemma_same_texts(value.items_at("warnings"@), wanted.items_at("warnings"@));
    let list = value.items_at("libraries"@);
    let items = wanted.items_at("libraries"@);
    assert forall|i: int| 0 <= i < items.len() implies #[trigger] each_library(list)[i] == each_library(
        items,
    )[i] by {
        assert(agrees(list[i], items[i]));
        lemma_same_library(list[i], items[i]);
    }
    assert(each_library(list) =~= each_library(items));
}

// ----------------------------------------------------------------------- plan

/// A plan as the window is told of it.
pub open spec fn seen_plan(library: crate::steam::LibraryView, plan: crate::plan::PlanView) -> PlanView {
    PlanView {
        fingerprint: plan.fingerprint,
        source: shown(library.compatdata),
        destination: shown(plan.target),
        backup: shown(plan.backup),
        copy_bytes: plan.copy_bytes,
        reserve_bytes: GROWTH_RESERVE,
        available_bytes: plan.available,
        remaining_bytes: remaining(plan.available, plan.copy_bytes),
        installed_games: plan.installed_games as u64,
        prefix_folders: plan.prefixes as u64,
        unknown_folders: plan.unknown,
        consequences: consequences_of(library.install_kind, plan.hard_linked),
    }
}

proof fn lemma_plan_keys(library: crate::steam::LibraryView, state: StateView, plan: crate::plan::PlanView)
    ensures
        keys_differ(plan_doc(library, state, plan)->Table_1),
{
    reveal_strlit("schema");
    reveal_strlit("fingerprint");
    reveal_strlit("kind");
    reveal_strlit("library_id");
    reveal_strlit("library");
    reveal_strlit("state");
    reveal_strlit("steam");
    reveal_strlit("source");
    reveal_strlit("destination");
    reveal_strlit("backup");
    reveal_strlit("copy_bytes");
    reveal_strlit("reserve_bytes");
    reveal_strlit("available_bytes");
    reveal_strlit("expected_remaining_bytes");
    reveal_strlit("installed_games");
    reveal_strlit("prefix_folders");
    reveal_strlit("unknown_folders");
    reveal_strlit("consequences");
    assert("schema"@.len() == 6 && "fingerprint"@.len() == 11 && "kind"@.len() == 4 && "library_id"@.len() == 10
        && "library"@.len() == 7 && "state"@.len() == 5 && "steam"@.len() == 5 && "source"@.len() == 6
        && "destination"@.len() == 11 && "backup"@.len() == 6 && "copy_bytes"@.len() == 10
        && "reserve_bytes"@.len() == 13 && "available_bytes"@.len() == 15 && "expected_remaining_bytes"@.len()
        == 24 && "installed_games"@.len() == 15 && "prefix_folders"@.len() == 14 && "unknown_folders"@.len()
        == 15 && "consequences"@.len() == 12);
    assert("schema"@[1] == 'c' && "source"@[1] == 'o' && "backup"@[1] == 'a' && "fingerprint"@[0] == 'f'
        && "destination"@[0] == 'd' && "library_id"@[0] == 'l' && "copy_bytes"@[0] == 'c' && "state"@[2] == 'a'
        && "steam"@[2] == 'e' && "available_bytes"@[0] == 'a' && "installed_games"@[0] == 'i'
        && "unknown_folders"@[0] == 'u');
}

pub proof fn lemma_plan_is_json(library: crate::steam::LibraryView, state: StateView, plan: crate::plan::PlanView)
    ensures
        is_json(plan_doc(library, state, plan), 100),
{
    lemma_gaps();
    lemma_plan_keys(library, state, plan);
    lemma_texts_are_json(plan.unknown, 99);
    lemma_texts_are_json(consequences_of(library.install_kind, plan.hard_linked), 99);
    lemma_table_is_json(page_gaps(), plan_doc(library, state, plan)->Table_1, 100);
}

/// What a plan says when written down is read as the plan.
pub proof fn law_plan_reads_back(
    library: crate::steam::LibraryView,
    state: StateView,
    plan: crate::plan::PlanView,
)
    ensures
        plan_of(doc_value(plan_doc(library, state, plan))) == seen_plan(library, plan),
{
    lemma_plan_keys(library, state, plan);
    let pairs = plan_doc(library, state, plan)->Table_1;
    lemma_member(page_gaps(), pairs, 1);
    lemma_member(page_gaps(), pairs, 7);
    lemma_member(page_gaps(), pairs, 8);
    lemma_member(page_gaps(), pairs, 9);
    lemma_member(page_gaps(), pairs, 10);
    lemma_member(page_gaps(), pairs, 11);
    lemma_member(page_gaps(), pairs, 12);
    lemma_member(page_gaps(), pairs, 13);
    lemma_member(page_gaps(), pairs, 14);
    lemma_member(page_gaps(), pairs, 15);
    lemma_member(page_gaps(), pairs, 16);
    lemma_member(page_gaps(), pairs, 17);
    lemma_texts_read(plan.unknown);
    lemma_texts_read(consequences_of(library.install_kind, plan.hard_linked));
}

pub proof fn lemma_same_plan(value: JsonView, wanted: JsonView)
    requires
        agrees(value, wanted),
    ensures
        plan_of(value) == plan_of(wanted),
{
    law_order_of_pairs_does_not_matter(value, wanted, "fingerprint"@);
    law_order_of_pairs_does_not_matter(value, wanted, "source"@);
    law_order_of_pairs_does_not_matter(value, wanted, "destination"@);
    law_order_of_pairs_does_not_matter(value, wanted, "backup"@);
    law_order_of_pairs_does_not_matter(value, wanted, "copy_bytes"@);
    law_order_of_pairs_does_not_matter(value, wanted, "reserve_bytes"@);
    law_order_of_pairs_does_not_matter(value, wanted, "available_bytes"@);
    law_order_of_pairs_does_not_matter(value, wanted, "expected_remaining_bytes"@);
    law_order_of_pairs_does_not_matter(value, wanted, "installed_games"@);
    law_order_of_pairs_does_not_matter(value, wanted, "prefix_folders"@);
    law_order_of_pairs_does_not_matter(value, wanted, "unknown_folders"@);
    law_order_of_pairs_does_not_matter(value, wanted, "consequences"@);
    lemma_same_texts(value.items_at("unknown_folders"@), wanted.items_at("unknown_folders"@));
    lemma_same_texts(value.items_at("consequences"@), wanted.items_at("consequences"@));
}

// -------------------------------------------------------------------- storage

pub open spec fn seen_measure(measured: MeasuredView) -> (Seq<char>, u64) {
    (shown(measured.0), measured.1)
}

pub open spec fn seen_if_any(measured: Option<MeasuredView>) -> Option<(Seq<char>, u64)> {
    match measured {
        Some(measured) => Some(seen_measure(measured)),
        None => None,
    }
}

pub open spec fn seen_measures(list: Seq<MeasuredView>) -> Seq<(Seq<char>, u64)> {
    Seq::new(list.len(), |i: int| seen_measure(list[i]))
}

/// What is kept for a library, as the window is told of it.
pub open spec fn seen_stored(row: crate::commands::StoredView) -> StoredView {
    StoredView {
        id: row.id,
        name: row.name,
        live: seen_if_any(row.live),
        backups: seen_measures(row.backups),
        leftover: seen_if_any(row.leftover),
    }
}

pub open spec fn seen_storage(rows: Seq<crate::commands::StoredView>) -> Seq<StoredView> {
    Seq::new(rows.len(), |i: int| seen_stored(rows[i]))
}

proof fn lemma_measure_keys(measured: MeasuredView)
    ensures
        keys_differ(measure_doc(measured)->Table_1),
{
    reveal_strlit("path");
    reveal_strlit("bytes");
    assert("path"@.len() == 4 && "bytes"@.len() == 5);
}

proof fn lemma_stored_keys(row: crate::commands::StoredView)
    ensures
        keys_differ(stored_doc(row)->Table_1),
{
    reveal_strlit("id");
    reveal_strlit("name");
    reveal_strlit("live");
    reveal_strlit("backups");
    reveal_strlit("leftover");
    assert("id"@.len() == 2 && "name"@.len() == 4 && "live"@.len() == 4 && "backups"@.len() == 7
        && "leftover"@.len() == 8);
    assert("name"@[0] == 'n' && "live"@[0] == 'l');
}

proof fn lemma_storage_keys(rows: Seq<crate::commands::StoredView>)
    ensures
        keys_differ(storage_doc(rows)->Table_1),
{
    reveal_strlit("schema");
    reveal_strlit("libraries");
    assert("schema"@.len() == 6 && "libraries"@.len() == 9);
}

proof fn lemma_measure_is_json(measured: MeasuredView, depth: nat)
    requires
        depth > 0,
    ensures
        is_json(measure_doc(measured), depth),
{
    lemma_gaps();
    lemma_measure_keys(measured);
    lemma_table_is_json(row_gaps(), measure_doc(measured)->Table_1, depth);
}

proof fn lemma_stored_is_json(row: crate::commands::StoredView)
    ensures
        is_json(stored_doc(row), 98),
{
    lemma_gaps();
    lemma_stored_keys(row);
    if row.live is Some {
        lemma_measure_is_json(row.live->0, 97);
    }
    if row.leftover is Some {
        lemma_measure_is_json(row.leftover->0, 97);
    }
    assert forall|i: int| 0 <= i < row.backups.len() implies is_json(
        #[trigger] measure_docs(row.backups)[i],
        96,
    ) by {
        lemma_measure_is_json(row.backups[i], 96);
    }
    lemma_list_is_json(row_gaps(), measure_docs(row.backups), 97);
    lemma_table_is_json(entry_gaps(), stored_doc(row)->Table_1, 98);
}

pub proof fn lemma_storage_is_json(rows: Seq<crate::commands::StoredView>)
    ensures
        is_json(storage_doc(rows), 100),
{
    lemma_gaps();
    lemma_storage_keys(rows);
    let gaps = storage_gaps(rows.len() == 0);
    assert(are_gaps(gaps)) by {
        reveal_strlit("");
        reveal_strlit("\n\n  ");
    }
    assert forall|i: int| 0 <= i < rows.len() implies is_json(#[trigger] stored_docs(rows)[i], 98) by {
        lemma_stored_is_json(rows[i]);
    }
    lemma_list_is_json(gaps, stored_docs(rows), 99);
    lemma_table_is_json(page_gaps(), storage_doc(rows)->Table_1, 100);
}

proof fn lemma_measure_reads_back(measured: MeasuredView)
    ensures
        item_of(Some(doc_value(measure_doc(measured)))) == Some(seen_measure(measured)),
{
    lemma_measure_keys(measured);
    let pairs = measure_doc(measured)->Table_1;
    lemma_member(row_gaps(), pairs, 0);
    lemma_member(row_gaps(), pairs, 1);
}

proof fn lemma_measures_read_back(list: Seq<MeasuredView>)
    ensures
        items_among(items_value(measure_docs(list))) == seen_measures(list),
    decreases list.len(),
{
    let items = items_value(measure_docs(list));
    if list.len() > 0 {
        let n = list.len() - 1;
        assert(items.drop_last() =~= items_value(measure_docs(list.drop_last()))) by {
            assert forall|i: int| 0 <= i < n implies items[i] == #[trigger] items_value(
                measure_docs(list.drop_last()),
            )[i] by {
                assert(measure_docs(list)[i] == measure_docs(list.drop_last())[i]);
            }
        }
        lemma_measures_read_back(list.drop_last());
        lemma_measure_reads_back(list[n]);
        assert(items.last() == doc_value(measure_docs(list)[n]));
        assert(seen_measures(list.drop_last()).push(seen_measure(list[n])) =~= seen_measures(list));
    } else {
        assert(items =~= Seq::empty());
        assert(seen_measures(list) =~= Seq::empty());
    }
}

proof fn lemma_stored_reads_back(row: crate::commands::StoredView)
    ensures
        stored_of(doc_value(stored_doc(row))) == seen_stored(row),
{
    lemma_stored_keys(row);
    let pairs = stored_doc(row)->Table_1;
    lemma_member(entry_gaps(), pairs, 0);
    lemma_member(entry_gaps(), pairs, 1);
    lemma_member(entry_gaps(), pairs, 2);
    lemma_member(entry_gaps(), pairs, 3);
    lemma_member(entry_gaps(), pairs, 4);
    lemma_measures_read_back(row.backups);
    if row.live is Some {
        lemma_measure_reads_back(row.live->0);
    }
    if row.leftover is Some {
        lemma_measure_reads_back(row.leftover->0);
    }
}

/// What is kept, when written down, is read as it was.
pub proof fn law_storage_reads_back(rows: Seq<crate::commands::StoredView>)
    ensures
        each_stored(doc_value(storage_doc(rows)).items_at("libraries"@)) == seen_storage(rows),
{
    lemma_storage_keys(rows);
    let pairs = storage_doc(rows)->Table_1;
    lemma_member(page_gaps(), pairs, 1);
    let items = items_value(stored_docs(rows));
    assert forall|i: int| 0 <= i < rows.len() implies #[trigger] each_stored(items)[i] == seen_storage(
        rows,
    )[i] by {
        lemma_stored_reads_back(rows[i]);
        assert(items[i] == doc_value(stored_docs(rows)[i]));
    }
    assert(each_stored(items) =~= seen_storage(rows));
}

proof fn lemma_same_item(value: JsonView, wanted: JsonView)
    requires
        agrees(value, wanted),
    ensures
        item_of(Some(value)) == item_of(Some(wanted)),
{
    law_order_of_pairs_does_not_matter(value, wanted, "path"@);
    law_order_of_pairs_does_not_matter(value, wanted, "bytes"@);
}

proof fn lemma_same_items(list: Seq<JsonView>, items: Seq<JsonView>)
    requires
        items_agree(list, items),
    ensures
        items_among(list) == items_among(items),
    decreases items.len(),
{
    if items.len() > 0 {
        let n = items.len() - 1;
        assert(agrees(list[n], items[n]));
        lemma_same_item(list[n], items[n]);
        assert forall|i: int| 0 <= i < n implies agrees(list.drop_last()[i], #[trigger] items.drop_last()[i]) by {
            assert(agrees(list[i], items[i]));
        }
        lemma_same_items(list.drop_last(), items.drop_last());
    }
}

proof fn lemma_same_stored(value: JsonView, wanted: JsonView)
    requires
        agrees(value, wanted),
    ensures
        stored_of(value) == stored_of(wanted),
{
    law_order_of_pairs_does_not_matter(value, wanted, "id"@);
    law_order_of_pairs_does_not_matter(value, wanted, "name"@);
    law_order_of_pairs_does_not_matter(value, wanted, "live"@);
    law_order_of_pairs_does_not_matter(value, wanted, "backups"@);
    law_order_of_pairs_does_not_matter(value, wanted, "leftover"@);
    lemma_same_items(value.items_at("backups"@), wanted.items_at("backups"@));
    if wanted.at("live"@) is Some {
        lemma_same_item(value.at("live"@)->0, wanted.at("live"@)->0);
    }
    if wanted.at("leftover"@) is Some {
        lemma_same_item(value.at("leftover"@)->0, wanted.at("leftover"@)->0);
    }
}

pub proof fn lemma_same_storage(value: JsonView, wanted: JsonView)
    requires
        agrees(value, wanted),
    ensures
        each_stored(value.items_at("libraries"@)) == each_stored(wanted.items_at("libraries"@)),
{
    law_order_of_pairs_does_not_matter(value, wanted, "libraries"@);
    let list = value.items_at("libraries"@);
    let items = wanted.items_at("libraries"@);
    assert forall|i: int| 0 <= i < items.len() implies #[trigger] each_stored(list)[i] == each_stored(items)[i] by {
        assert(agrees(list[i], items[i]));
        lemma_same_stored(list[i], items[i]);
    }
    assert(each_stored(list) =~= each_stored(items));
}

// ------------------------------------------------------------------- evidence

pub open spec fn seen_row(field: Seq<char>, row: Row) -> EvidenceRowView {
    EvidenceRowView { field, result: result_code(row.result), by_tool: row.by_tool }
}

/// What is established, as the window is told of it.
pub open spec fn seen_evidence(evidence: Evidence) -> Seq<EvidenceRowView> {
    seq![
        seen_row("files"@, evidence.files),
        seen_row("launch"@, evidence.launch),
        seen_row("save"@, evidence.save),
        seen_row("cloud"@, evidence.cloud),
    ]
}

proof fn lemma_item_keys(field: Seq<char>, row: Row)
    ensures
        keys_differ(item_doc(field, row)->Table_1),
{
    reveal_strlit("field");
    reveal_strlit("result");
    reveal_strlit("when");
    reveal_strlit("by_tool");
    assert("field"@.len() == 5 && "result"@.len() == 6 && "when"@.len() == 4 && "by_tool"@.len() == 7);
}

proof fn lemma_listing_keys(library_id: Seq<char>, evidence: Evidence)
    ensures
        keys_differ(evidence_listing(library_id, evidence)->Table_1),
{
    reveal_strlit("schema");
    reveal_strlit("library_id");
    reveal_strlit("evidence");
    assert("schema"@.len() == 6 && "library_id"@.len() == 10 && "evidence"@.len() == 8);
}

proof fn lemma_item_is_json(field: Seq<char>, row: Row)
    ensures
        is_json(item_doc(field, row), 98),
{
    lemma_gaps();
    lemma_item_keys(field, row);
    lemma_table_is_json(row_gaps(), item_doc(field, row)->Table_1, 98);
}

pub proof fn lemma_listing_is_json(library_id: Seq<char>, evidence: Evidence)
    ensures
        is_json(evidence_listing(library_id, evidence), 100),
{
    lemma_gaps();
    lemma_listing_keys(library_id, evidence);
    lemma_item_is_json("files"@, evidence.files);
    lemma_item_is_json("launch"@, evidence.launch);
    lemma_item_is_json("save"@, evidence.save);
    lemma_item_is_json("cloud"@, evidence.cloud);
    lemma_list_is_json(block_gaps(), evidence_items(evidence), 99);
    lemma_table_is_json(page_gaps(), evidence_listing(library_id, evidence)->Table_1, 100);
}

proof fn lemma_item_reads_back(field: Seq<char>, row: Row)
    ensures
        evidence_of(doc_value(item_doc(field, row))) == seen_row(field, row),
{
    lemma_item_keys(field, row);
    let pairs = item_doc(field, row)->Table_1;
    lemma_member(row_gaps(), pairs, 0);
    lemma_member(row_gaps(), pairs, 1);
    lemma_member(row_gaps(), pairs, 3);
}

/// What is established, when written down for the window, is read as it was.
pub proof fn law_listed_evidence_reads_back(library_id: Seq<char>, evidence: Evidence)
    ensures
        each_evidence(doc_value(evidence_listing(library_id, evidence)).items_at("evidence"@)) == seen_evidence(
            evidence,
        ),
{
    lemma_listing_keys(library_id, evidence);
    let pairs = evidence_listing(library_id, evidence)->Table_1;
    lemma_member(page_gaps(), pairs, 2);
    lemma_item_reads_back("files"@, evidence.files);
    lemma_item_reads_back("launch"@, evidence.launch);
    lemma_item_reads_back("save"@, evidence.save);
    lemma_item_reads_back("cloud"@, evidence.cloud);
    let items = items_value(evidence_items(evidence));
    assert forall|i: int| 0 <= i < 4 implies #[trigger] each_evidence(items)[i] == seen_evidence(evidence)[i] by {
        assert(items[i] == doc_value(evidence_items(evidence)[i]));
    }
    assert(each_evidence(items) =~= seen_evidence(evidence));
}

proof fn lemma_same_row(value: JsonView, wanted: JsonView)
    requires
        agrees(value, wanted),
    ensures
        evidence_of(value) == evidence_of(wanted),
{
    law_order_of_pairs_does_not_matter(value, wanted, "field"@);
    law_order_of_pairs_does_not_matter(value, wanted, "result"@);
    law_order_of_pairs_does_not_matter(value, wanted, "by_tool"@);
}

pub proof fn lemma_same_evidence(value: JsonView, wanted: JsonView)
    requires
        agrees(value, wanted),
    ensures
        each_evidence(value.items_at("evidence"@)) == each_evidence(wanted.items_at("evidence"@)),
{
    law_order_of_pairs_does_not_matter(value, wanted, "evidence"@);
    let list = value.items_at("evidence"@);
    let items = wanted.items_at("evidence"@);
    assert forall|i: int| 0 <= i < items.len() implies #[trigger] each_evidence(list)[i] == each_evidence(
        items,
    )[i] by {
        assert(agrees(list[i], items[i]));
        lemma_same_row(list[i], items[i]);
    }
    assert(each_evidence(list) =~= each_evidence(items));
}

} // verus!
