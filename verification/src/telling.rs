//! What the commands tell, and what they keep of what was told.

use vstd::prelude::*;
use vstd::utf8::encode_utf8;

use crate::commands::{
    actionable_count, advice_lines, all_library_lines, all_stored_lines, capability_note, closing_line, inspected,
    is_worth_listing, leftover_place, library_lines, live_place, measure_text, original_lines, reason_against, scan_lines,
    storage_lines, stored_lines, ListedView, Stored, StoredView,
};
use crate::fsops::size_text;
use crate::path::{is_name_text, lemma_name_text_below, parts, shown, under_text, FilePath, PartView};
use crate::plan::{consequences_of, fingerprint_of, plan_lines, remaining, unknown_among, PlanView};
use crate::protocol::{Condition, Event};
use crate::sha256::{digest, hex_text, is_hex, law_digest_has_64_digits};
use crate::state::{Report, ReportView, StateView};
use crate::steam::{app_place, AppList, InstallKind, LibraryView};
use crate::system::{Capability, MountView};
use crate::text::decimal_text;

verus! {

/// A repair is offered for a library exactly when an earlier one was interrupted, or when it has data of its own or none
/// yet and is on a drive that is known to need it. Against any other there is a reason.
pub proof fn law_repair_is_offered_where_it_helps(state: StateView, mount: Option<MountView>)
    ensures
        reason_against(state, mount) is None <==> state is InterruptedAwaitingLink || ((state is NotRepaired
            || state is NoCompatdata) && mount is Some && mount->0.capability == Capability::NeedsRepair),
{
}

/// A command takes a library for what its report says.
pub proof fn law_command_hears_of_the_library(report: &Report, event: Event)
    requires
        call_ensures(inspected, (report,), event),
    ensures
        event is Inspected,
        event->condition == Condition::NotRepaired <==> report@.state is NotRepaired,
        event->condition == Condition::Repaired <==> report@.state is Repaired,
        event->condition == Condition::NoCompatdata <==> report@.state is NoCompatdata,
        event->condition == Condition::Interrupted <==> report@.state is InterruptedAwaitingLink,
        event->Inspected_occupied <==> report@.existing_destination is Some,
        event->Inspected_originals <==> report@.backups.len() > 0,
{
}

/// What can be repaired is counted library by library: one for each that has data of its own or was interrupted.
pub proof fn law_repairable_libraries_are_counted(left: Seq<ListedView>, right: Seq<ListedView>, row: ListedView)
    ensures
        actionable_count(left + right) == actionable_count(left) + actionable_count(right),
        actionable_count(seq![row]) == if row.report.state is NotRepaired
            || row.report.state is InterruptedAwaitingLink {
            1nat
        } else {
            0
        },
        actionable_count(Seq::<ListedView>::empty()) == 0,
        closing_line(0) == "Nothing to do."@,
    decreases right.len(),
{
    assert(seq![row].drop_last() =~= Seq::empty());
    assert(actionable_count(seq![row].drop_last()) == 0);
    if right.len() == 0 {
        assert(left + right =~= left);
    } else {
        assert((left + right).drop_last() =~= left + right.drop_last());
        law_repairable_libraries_are_counted(left, right.drop_last(), row);
    }
}

/// A library that can be repaired, or whose repair can be finished, is told by its id how; one that is repaired how that
/// is reversed. One that cannot be repaired or needs no repair is not told of its id.
pub proof fn law_advice_names_the_command(
    library: LibraryView,
    other: LibraryView,
    state: StateView,
    capability: Capability,
)
    ensures
        state is NotRepaired && capability != Capability::NoSymlinks && capability != Capability::Native
            ==> advice_lines(library, state, capability).last() == "            run:  librarybridge fix "@ + library.id,
        state is InterruptedAwaitingLink ==> advice_lines(library, state, capability).last()
            == "            Nothing was lost. Run:  librarybridge fix "@ + library.id,
        state is Repaired ==> advice_lines(library, state, capability).last()
            == "            to reverse:  librarybridge undo "@ + library.id,
        state is NotRepaired && (capability == Capability::NoSymlinks || capability == Capability::Native) || state
            is LinkedElsewhere || state is DanglingLink ==> advice_lines(library, state, capability) == advice_lines(
            other,
            state,
            capability,
        ) && advice_lines(library, state, capability).len() > 0,
{
}

/// Each kind of filesystem is told of by what it is good for.
pub proof fn law_filesystems_are_told_by_their_use(capability: Capability)
    ensures
        capability == Capability::Native ==> capability_note(capability) == "fine for Proton"@,
        capability == Capability::NeedsRepair ==> capability_note(capability) == "Proton data does not belong here"@,
        capability == Capability::NoSymlinks ==> capability_note(capability)
            == "no symlink support, cannot be repaired"@,
        capability == Capability::Unknown ==> capability_note(capability) == "not recognised"@,
{
}

proof fn lemma_library_is_listed(rows: Seq<ListedView>, i: int, line: Seq<char>)
    requires
        0 <= i < rows.len(),
        library_lines(rows[i]).contains(line),
    ensures
        all_library_lines(rows).contains(line),
    decreases rows.len(),
{
    let front = rows.drop_last();
    let before = all_library_lines(front);
    let last = library_lines(rows.last());
    let all = all_library_lines(rows);
    if i < front.len() {
        assert(front[i] == rows[i]);
        lemma_library_is_listed(front, i, line);
        let n = choose|n: int| 0 <= n < before.len() && before[n] == line;
        assert(all[n] == line);
    } else {
        let n = choose|n: int| 0 <= n < last.len() && last[n] == line;
        assert(all[before.len() + n] == line);
    }
}

/// Each library that was found is listed with its id and its path, with its state, and with all that is to be said of it.
#[verifier::spinoff_prover]
pub proof fn law_every_library_is_listed(
    installs: Seq<(InstallKind, Seq<u8>)>,
    rows: Seq<ListedView>,
    warnings: Seq<Seq<char>>,
    i: int,
)
    requires
        0 <= i < rows.len(),
    ensures
        scan_lines(installs, rows, warnings).contains("  ["@ + rows[i].library.id + "] "@
            + shown(rows[i].library.path)),
        scan_lines(installs, rows, warnings).contains("      state       "@ + rows[i].report.state.headline()),
        forall|k: int|
            0 <= k < rows[i].report.backups.len() ==> scan_lines(installs, rows, warnings).contains(
                "      backup      "@ + shown(#[trigger] rows[i].report.backups[k]),
            ),
        scan_lines(installs, rows, warnings).last() == closing_line(actionable_count(rows)),
{
    let row = rows[i];
    let lines = library_lines(row);
    let first = "  ["@ + row.library.id + "] "@ + shown(row.library.path);
    assert(lines[1] == first);
    assert(lines.contains(first));
    lemma_library_is_listed(rows, i, first);
    lemma_scan_has(installs, rows, warnings, first);
    let state = "      state       "@ + row.report.state.headline();
    let head = seq![
        ""@,
        "  ["@ + row.library.id + "] "@ + shown(row.library.path),
        "      name        "@ + row.library.name(),
        crate::commands::filesystem_line(row.mount),
    ];
    let upto = head + crate::commands::prefix_lines(row.report.state) + crate::commands::games_lines(
        row.library.connected,
        row.titles,
    ) + crate::commands::link_lines(row.report.state);
    assert(lines[upto.len() as int] == state);
    assert(lines.contains(state));
    lemma_library_is_listed(rows, i, state);
    lemma_scan_has(installs, rows, warnings, state);
    let advice = crate::commands::indented(
        "      "@,
        advice_lines(row.library, row.report.state, crate::commands::capability_in(row.mount)),
    );
    assert forall|k: int| 0 <= k < row.report.backups.len() implies scan_lines(installs, rows, warnings).contains(
        "      backup      "@ + shown(#[trigger] row.report.backups[k]),
    ) by {
        let line = "      backup      "@ + shown(row.report.backups[k]);
        let at = upto.len() + 1 + advice.len() + k;
        assert(crate::commands::each_shown("      backup      "@, row.report.backups)[k] == line);
        assert(lines[at as int] == line);
        assert(lines.contains(line));
        lemma_library_is_listed(rows, i, line);
        lemma_scan_has(installs, rows, warnings, line);
    }
}

proof fn lemma_scan_has(
    installs: Seq<(InstallKind, Seq<u8>)>,
    rows: Seq<ListedView>,
    warnings: Seq<Seq<char>>,
    line: Seq<char>,
)
    requires
        rows.len() > 0,
        all_library_lines(rows).contains(line),
    ensures
        scan_lines(installs, rows, warnings).contains(line),
{
    let all = scan_lines(installs, rows, warnings);
    let list = all_library_lines(rows);
    let n = choose|n: int| 0 <= n < list.len() && list[n] == line;
    let before = seq!["Steam installations"@] + crate::commands::install_lines(installs) + seq![""@, "Libraries"@];
    assert(all[before.len() + n] == line);
}

/// What is stored for a library is its data at the destination, whether it is in use or not, and what an interrupted copy
/// left: beside the destination, or else beside the library.
pub proof fn law_storage_is_what_is_kept(report: ReportView, row: &Stored, listed: bool)
    requires
        call_ensures(is_worth_listing, (row,), listed),
    ensures
        report.state matches StateView::Repaired { target, .. } ==> live_place(report) == Some(target),
        report.state !is Repaired ==> live_place(report) == report.existing_destination,
        report.abandoned_copy is Some ==> leftover_place(report) == report.abandoned_copy,
        report.abandoned_copy is None ==> leftover_place(report) == report.interrupted_restore,
        listed <==> row@.live is Some || row@.backups.len() > 0 || row@.leftover is Some,
{
}

/// What will remain after a copy is what is free without what is copied, and nothing where that is more.
pub proof fn law_what_remains_is_the_difference(free: u64, copy: u64)
    ensures
        free >= copy ==> remaining(Some(free), copy) is Some && remaining(Some(free), copy)->0 + copy == free,
        free < copy ==> remaining(Some(free), copy) == Some(0u64),
        remaining(None, copy) is None,
{
}

/// The folders that belong to no installed game are exactly those whose name is no id of one.
pub proof fn law_unknown_folders_are_of_no_game(folders: Seq<Seq<char>>, installed: AppList)
    ensures
        forall|i: int|
            0 <= i < folders.len() && app_place(installed, #[trigger] folders[i]) is None ==> unknown_among(
                folders,
                installed,
            ).contains(folders[i]),
        forall|k: int|
            0 <= k < unknown_among(folders, installed).len() ==> folders.contains(
                #[trigger] unknown_among(folders, installed)[k],
            ) && app_place(installed, unknown_among(folders, installed)[k]) is None,
    decreases folders.len(),
{
    if folders.len() > 0 {
        let front = folders.drop_last();
        let before = unknown_among(front, installed);
        let all = unknown_among(folders, installed);
        law_unknown_folders_are_of_no_game(front, installed);
        assert forall|i: int| 0 <= i < folders.len() && app_place(installed, #[trigger] folders[i]) is None implies
            all.contains(folders[i]) by {
            if i < front.len() {
                assert(front[i] == folders[i]);
                let k = choose|k: int| 0 <= k < before.len() && before[k] == folders[i];
                assert(all[k] == folders[i]);
            } else {
                assert(all[before.len() as int] == folders[i]);
            }
        }
        assert forall|k: int| 0 <= k < all.len() implies folders.contains(#[trigger] all[k]) && app_place(
            installed,
            all[k],
        ) is None by {
            if k < before.len() {
                assert(front.contains(before[k]));
                let i = choose|i: int| 0 <= i < front.len() && front[i] == before[k];
                assert(folders[i] == all[k]);
            } else {
                assert(folders[folders.len() - 1] == all[k]);
            }
        }
    }
}

/// A plan says that the games stay, that the data will be in the sandbox where it will, and that shared files stay shared
/// where there are any.
pub proof fn law_plan_names_the_consequences(kind: InstallKind, hard_linked: usize)
    ensures
        consequences_of(kind, hard_linked).len() == 1 + (if kind == InstallKind::Flatpak {
            1int
        } else {
            0
        }) + (if hard_linked > 0 {
            1int
        } else {
            0
        }),
        consequences_of(kind, hard_linked)[0] == "Game installation files stay on the game drive."@,
        hard_linked > 0 ==> decimal_text(hard_linked as nat).is_prefix_of(consequences_of(kind, hard_linked).last()),
{
    if hard_linked > 0 {
        let count = decimal_text(hard_linked as nat);
        let last = consequences_of(kind, hard_linked).last();
        assert(last.subrange(0, count.len() as int) =~= count);
    }
}

/// A plan is known by sixteen digits, which are those that the digest of what it is about begins with.
pub proof fn law_plans_are_known_by_their_digest(plan: Seq<u8>)
    ensures
        fingerprint_of(plan).len() == 16,
        fingerprint_of(plan).is_prefix_of(hex_text(digest(plan))),
        forall|i: int| 0 <= i < 16 ==> is_hex(#[trigger] fingerprint_of(plan)[i]),
{
    law_digest_has_64_digits(plan);
    assert(hex_text(digest(plan)).subrange(0, 16) =~= fingerprint_of(plan));
    assert forall|i: int| 0 <= i < 16 implies is_hex(#[trigger] fingerprint_of(plan)[i]) by {
        assert(is_hex(hex_text(digest(plan))[i]));
    }
}

/// A plan names where the data comes from, where it goes, and, where there is any, where the original will be kept.
#[verifier::spinoff_prover]
pub proof fn law_plan_names_the_places(
    library: LibraryView,
    report: ReportView,
    mount: Option<MountView>,
    plan: PlanView,
)
    ensures
        ({
            let lines = plan_lines(library, report, mount, plan);
            &&& lines.contains("Source      "@ + shown(library.compatdata))
            &&& lines.contains("Destination "@ + shown(plan.target))
            &&& lines.contains("Plan        "@ + plan.fingerprint)
            &&& report.state is NotRepaired ==> lines.contains(
                "Backup      "@ + shown(plan.backup) + " (the original, kept in place)"@,
            )
        }),
{
    let lines = plan_lines(library, report, mount, plan);
    let before = (if plan.available is None {
        seq!["Space       could not be checked on this system"@]
    } else {
        Seq::empty()
    }) + seq![
        "Games       "@ + decimal_text(plan.installed_games as nat) + " installed, "@ + decimal_text(
            plan.prefixes as nat,
        ) + " prefix folders"@,
    ] + crate::plan::unknown_lines(plan.unknown) + crate::plan::shared_lines(plan.hard_linked);
    let n = before.len() as int;
    assert(lines[n + 1] == "Source      "@ + shown(library.compatdata));
    assert(lines[n + 2] == "Destination "@ + shown(plan.target));
    let m = n + 4 + (if report.existing_destination is Some {
        1int
    } else {
        0
    });
    assert(lines[m + 1] == "Plan        "@ + plan.fingerprint);
    if report.state is NotRepaired {
        assert(lines[m] == "Backup      "@ + shown(plan.backup) + " (the original, kept in place)"@);
    }
}

/// The record of an operation and the evidence about a library are in files of the library's id, in two directories of the
/// tool's own.
pub proof fn law_records_are_filed_by_library(
    own: &FilePath,
    id: &str,
    record: FilePath,
    evidence: FilePath,
)
    requires
        call_ensures(crate::record::path_for, (own, id), record),
        call_ensures(crate::evidence::path_for, (own, id), evidence),
        is_name_text(id@ + ".json"@),
    ensures
        parts(record@) == parts(own@) + seq![
            PartView::Name(encode_utf8("operations"@)),
            PartView::Name(encode_utf8(id@ + ".json"@)),
        ],
        parts(evidence@) == parts(own@) + seq![
            PartView::Name(encode_utf8("evidence"@)),
            PartView::Name(encode_utf8(id@ + ".json"@)),
        ],
{
    assert(is_name_text("operations"@)) by {
        reveal_strlit("operations");
    }
    assert(is_name_text("evidence"@)) by {
        reveal_strlit("evidence");
    }
    lemma_name_text_below(own@, "operations"@);
    lemma_name_text_below(own@, "evidence"@);
    lemma_name_text_below(under_text(own@, "operations"@), id@ + ".json"@);
    lemma_name_text_below(under_text(own@, "evidence"@), id@ + ".json"@);
    assert(parts(record@) =~= parts(own@) + seq![
        PartView::Name(encode_utf8("operations"@)),
        PartView::Name(encode_utf8(id@ + ".json"@)),
    ]);
    assert(parts(evidence@) =~= parts(own@) + seq![
        PartView::Name(encode_utf8("evidence"@)),
        PartView::Name(encode_utf8(id@ + ".json"@)),
    ]);
}

proof fn lemma_stored_is_listed(rows: Seq<StoredView>, i: int, line: Seq<char>)
    requires
        0 <= i < rows.len(),
        stored_lines(rows[i]).contains(line),
    ensures
        all_stored_lines(rows).contains(line),
    decreases rows.len(),
{
    let front = rows.drop_last();
    let before = all_stored_lines(front);
    let last = stored_lines(rows.last());
    let all = all_stored_lines(rows);
    if i < front.len() {
        assert(front[i] == rows[i]);
        lemma_stored_is_listed(front, i, line);
        let n = choose|n: int| 0 <= n < before.len() && before[n] == line;
        assert(all[n] == line);
    } else {
        let n = choose|n: int| 0 <= n < last.len() && last[n] == line;
        assert(all[before.len() + n] == line);
    }
}

/// Everything that is stored is listed, with its size: the data in use, each original, and what a copy left.
#[verifier::spinoff_prover]
pub proof fn law_everything_stored_is_listed(rows: Seq<StoredView>, i: int, k: int)
    requires
        0 <= i < rows.len(),
    ensures
        storage_lines(rows).contains("  ["@ + rows[i].id + "] "@ + rows[i].name),
        rows[i].live matches Some(live) ==> storage_lines(rows).contains(
            "      live        "@ + (shown(live.0) + " ("@ + size_text(live.1 as nat) + ")"@),
        ),
        0 <= k < rows[i].backups.len() ==> storage_lines(rows).contains(
            "      original    "@ + (shown(rows[i].backups[k].0) + " ("@ + size_text(rows[i].backups[k].1 as nat) + ")"@),
        ),
{
    let row = rows[i];
    let lines = stored_lines(row);
    let head = "  ["@ + row.id + "] "@ + row.name;
    assert(lines[1] == head);
    lemma_line_is_stored(rows, i, 1);
    let live: int = if row.live is Some {
        1
    } else {
        0
    };
    if let Some(found) = row.live {
        let line = "      live        "@ + measure_text(found);
        assert(lines[2] == line);
        lemma_line_is_stored(rows, i, 2);
    }
    if 0 <= k < row.backups.len() {
        let line = "      original    "@ + measure_text(row.backups[k]);
        assert(original_lines(row.backups)[k] == line);
        assert(lines[2 + live + k] == line);
        lemma_line_is_stored(rows, i, 2 + live + k);
    }
}

proof fn lemma_line_is_stored(rows: Seq<StoredView>, i: int, n: int)
    requires
        0 <= i < rows.len(),
        0 <= n < stored_lines(rows[i]).len(),
    ensures
        storage_lines(rows).contains(stored_lines(rows[i])[n]),
{
    let line = stored_lines(rows[i])[n];
    assert(stored_lines(rows[i]).contains(line));
    lemma_stored_is_listed(rows, i, line);
    let list = all_stored_lines(rows);
    let m = choose|m: int| 0 <= m < list.len() && list[m] == line;
    assert(storage_lines(rows)[m] == line);
}

} // verus!
