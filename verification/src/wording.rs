//! What texts are read as, and what is said in the end.

use vstd::prelude::*;
use vstd::utf8::encode_utf8;

use crate::backend::scan_of;
use crate::closing::{backup_words, fix_words, undo_words, FactsView};
use crate::commands::{link_lines, note_lines, ListedView};
use crate::evidence::{evidence_in, evidence_of, result_code, row_of, Evidence, Result_};
use crate::exchange::{seen_evidence, seen_library, seen_plan, seen_scan, seen_stored};
use crate::json::{json_document, JsonView};
use crate::path::shown;
use crate::reasons::{
    copy_missing_text, escaping_text, mid_repair_text, no_evidence_yet_text, no_symlinks_text, not_carried_all_text,
    nothing_to_repair_text, plan_changed_text, same_filesystem_text, unfit_destination_text, wrong_state_text,
};
use crate::record::record_of;
use crate::protocol::Outcome;
use crate::repair::Way;
use crate::sort::{ahead, before, lemma_some_order, order_of};
use crate::state::{ReportView, StateView};
use crate::steam::{install_label, InstallKind};
use crate::system::Capability;
use crate::text::{
    joined, lemma_split_concat, lemma_split_some, lemma_split_without, lines_of, lower_char, lowered, sorted_texts,
    split, text_key, text_keys, trimmed, trimmed_front, white, without_return,
};
use crate::vdf::{escape, first_under, PairView};

verus! {

proof fn lemma_front_push(text: Seq<char>, c: char)
    requires
        white(c),
    ensures
        trimmed_front(text.push(c)) == if trimmed_front(text).len() == 0 {
            Seq::empty()
        } else {
            trimmed_front(text).push(c)
        },
    decreases text.len(),
{
    let longer = text.push(c);
    if text.len() == 0 {
        assert(longer[0] == c);
        assert(longer.skip(1) =~= text);
        assert(trimmed_front(longer) == trimmed_front(text));
    } else if white(text[0]) {
        assert(longer[0] == text[0]);
        assert(longer.skip(1) =~= text.skip(1).push(c));
        lemma_front_push(text.skip(1), c);
    } else {
        assert(longer[0] == text[0]);
    }
}

/// White space around a text counts for nothing, and a text without any around it stays.
pub proof fn law_white_space_around_counts_for_nothing(text: Seq<char>, c: char)
    ensures
        c == ' ' || c == '\t' || c == '\n' || c == '\r' ==> trimmed(seq![c] + text) == trimmed(text) && trimmed(
            text.push(c),
        ) == trimmed(text),
        text.len() > 0 && '!' <= text[0] <= '~' && '!' <= text.last() <= '~' ==> trimmed(text) == text,
        trimmed(Seq::<char>::empty()) == Seq::<char>::empty(),
{
    if c == ' ' || c == '\t' || c == '\n' || c == '\r' {
        assert(white(c));
        let longer = seq![c] + text;
        assert(longer[0] == c);
        assert(longer.skip(1) =~= text);
        assert(trimmed_front(longer) == trimmed_front(text));
        lemma_front_push(text, c);
        let inner = trimmed_front(text);
        if inner.len() > 0 {
            assert(inner.push(c).drop_last() =~= inner);
        }
    }
}

proof fn lemma_joined_push(list: Seq<Seq<char>>, last: Seq<char>, separator: Seq<char>)
    requires
        list.len() > 0,
    ensures
        joined(list.push(last), separator) == joined(list, separator) + separator + last,
{
    assert(list.push(last).drop_last() =~= list);
}

/// A text that is cut at a character is put together again by it, and no piece holds it.
pub proof fn law_pieces_make_the_text(text: Seq<char>, separator: char)
    ensures
        joined(split(text, separator), seq![separator]) == text,
        split(text, separator).len() > 0,
        forall|i: int| 0 <= i < split(text, separator).len() ==> !(#[trigger] split(text,
            separator)[i]).contains(separator),
    decreases text.len(),
{
    lemma_split_some(text, separator);
    let all = split(text, separator);
    if text.len() == 0 {
        assert(all[0] =~= text);
    } else {
        let short = text.drop_last();
        let pieces = split(short, separator);
        lemma_split_some(short, separator);
        law_pieces_make_the_text(short, separator);
        let mark = seq![separator];
        if text.last() == separator {
            lemma_joined_push(pieces, Seq::empty(), mark);
            assert(short + mark + Seq::empty() =~= text);
            assert forall|i: int| 0 <= i < all.len() implies !(#[trigger] all[i]).contains(separator) by {
                if i < pieces.len() {
                    assert(!pieces[i].contains(separator));
                }
            }
        } else {
            let front = pieces.drop_last();
            let last = pieces.last();
            let longer = last.push(text.last());
            assert(pieces =~= front.push(last));
            assert(all =~= front.push(longer));
            if front.len() > 0 {
                lemma_joined_push(front, last, mark);
                lemma_joined_push(front, longer, mark);
                assert(joined(front, mark) + mark + longer =~= (joined(front, mark) + mark + last).push(text.last()));
            } else {
                assert(joined(pieces, mark) == last);
                assert(joined(all, mark) == longer);
            }
            assert(short.push(text.last()) =~= text);
            assert forall|i: int| 0 <= i < all.len() implies !(#[trigger] all[i]).contains(separator) by {
                if i < front.len() {
                    assert(all[i] == pieces[i]);
                    assert(!pieces[i].contains(separator));
                } else {
                    assert(!pieces[pieces.len() - 1].contains(separator));
                    if longer.contains(separator) {
                        let k = choose|k: int| 0 <= k < longer.len() && longer[k] == separator;
                        assert(last[k] == separator);
                    }
                }
            }
        }
    }
}

/// A text in lines is its first line and then the rest in lines.
pub proof fn law_lines_end_at_line_breaks(line: Seq<char>, rest: Seq<char>)
    requires
        !line.contains('\n'),
        line.len() > 0 ==> line.last() != '\r',
    ensures
        lines_of(line + seq!['\n'] + rest) == seq![line] + lines_of(rest),
        line.len() > 0 ==> lines_of(line) == seq![line],
        lines_of(Seq::<char>::empty()).len() == 0,
{
    let mark = seq!['\n'];
    let none = Seq::<char>::empty();
    lemma_split_without(line, '\n');
    lemma_split_some(rest, '\n');
    assert(split(mark, '\n') =~= seq![none, none]) by {
        assert(mark.drop_last() =~= none);
        assert(split(mark.drop_last(), '\n') =~= seq![none]);
    }
    lemma_split_concat(line, mark, '\n');
    let front = line + mark;
    assert(split(front, '\n') =~= seq![line, none]) by {
        assert(line + none =~= line);
    }
    lemma_split_concat(front, rest, '\n');
    let pieces = split(rest, '\n');
    assert(split(front + rest, '\n') =~= seq![line] + pieces) by {
        assert(none + pieces[0] =~= pieces[0]);
    }
    assert(line + mark + rest =~= front + rest);
    assert(without_return(line) == line);
    assert(lines_of(front + rest) =~= seq![line] + lines_of(rest));
    if line.len() > 0 {
        assert(lines_of(line) =~= seq![line]);
    }
    assert(lines_of(none) =~= Seq::empty());
}

/// Case is changed of the letters A to Z alone, and changing it twice changes nothing more.
pub proof fn law_lower_case_is_of_letters(c: char)
    ensures
        'A' <= c <= 'Z' ==> lower_char(c) as u32 == c as u32 + 32,
        !('A' <= c <= 'Z') ==> lower_char(c) == c,
        lower_char(lower_char(c)) == lower_char(c),
{
}

/// A sorted list has the same texts, each not after the next.
pub proof fn law_sorted_texts_are_in_order(list: Seq<Seq<char>>, i: int, j: int)
    requires
        list.len() <= usize::MAX,
        0 <= i < j < list.len(),
    ensures
        sorted_texts(list).len() == list.len(),
        before(text_key(sorted_texts(list)[i]), text_key(sorted_texts(list)[j])) || text_key(sorted_texts(list)[i])
            == text_key(sorted_texts(list)[j]),
        sorted_texts(list).contains(list[i]),
        list.contains(sorted_texts(list)[i]),
{
    let keys = text_keys(list);
    let places = order_of(keys);
    let sorted = sorted_texts(list);
    lemma_some_order(keys);
    assert(places[i] < keys.len() && places[j] < keys.len());
    assert(ahead(keys, places[i] as int, places[j] as int));
    assert(keys[places[i] as int] == text_key(sorted[i]));
    assert(keys[places[j] as int] == text_key(sorted[j]));
    assert(places.contains(i as usize));
    let m = choose|m: int| 0 <= m < places.len() && places[m] == i as usize;
    assert(sorted[m] == list[i]);
    assert(list[places[i] as int] == sorted[i]);
}

/// What stands under a key in a block is what the first pair has whose key is the same, whatever the case.
pub proof fn law_first_pair_counts(pairs: Seq<PairView>, key: Seq<char>)
    ensures
        (forall|i: int| 0 <= i < pairs.len() ==> lowered((#[trigger] pairs[i]).0) != lowered(key)) ==> first_under(
            pairs,
            key,
        ) is None,
        forall|i: int|
            0 <= i < pairs.len() && lowered((#[trigger] pairs[i]).0) == lowered(key) && (forall|k: int|
                0 <= k < i ==> lowered((#[trigger] pairs[k]).0) != lowered(key)) ==> first_under(pairs, key) == Some(
                pairs[i].1,
            ),
    decreases pairs.len(),
{
    if pairs.len() > 0 && lowered(pairs[0].0) != lowered(key) {
        let rest = pairs.skip(1);
        law_first_pair_counts(rest, key);
        assert forall|i: int|
            0 <= i < pairs.len() && lowered((#[trigger] pairs[i]).0) == lowered(key) && (forall|k: int|
                0 <= k < i ==> lowered((#[trigger] pairs[k]).0) != lowered(key)) implies first_under(pairs, key)
                    == Some(
            pairs[i].1,
        ) by {
            assert(rest[i - 1] == pairs[i]);
            assert forall|k: int| 0 <= k < i - 1 implies lowered((#[trigger] rest[k]).0) != lowered(key) by {
                assert(rest[k] == pairs[k + 1]);
            }
        }
        if forall|i: int| 0 <= i < pairs.len() ==> lowered((#[trigger] pairs[i]).0) != lowered(key) {
            assert forall|i: int| 0 <= i < rest.len() implies lowered((#[trigger] rest[i]).0) != lowered(key) by {
                assert(rest[i] == pairs[i + 1]);
            }
        }
    }
}

/// Nothing is established where there is no evidence, or where it cannot be read; and a word that means nothing means
/// that it was not checked.
pub proof fn law_without_evidence_nothing_is_established(text: Seq<char>, row: JsonView, word: Seq<char>)
    ensures
        evidence_in(None).launch.result == Result_::NotChecked,
        evidence_in(None).save.result == Result_::NotChecked,
        evidence_in(None).files.result == Result_::NotChecked,
        evidence_in(None).cloud.result == Result_::NotChecked,
        json_document(text) is Err ==> evidence_in(Some(text)) == evidence_in(None),
        row_of(None).result == Result_::NotChecked && !row_of(None).by_tool,
        row.text_at("result"@) is None ==> row_of(Some(row)).result == Result_::NotChecked,
        row.text_at("result"@) == Some(word) && crate::evidence::result_of(word) is None ==> row_of(Some(row)).result
            == Result_::NotChecked,
        row.text_at("result"@) == Some(word) && crate::evidence::result_of(word) is Some ==> row_of(Some(row)).result
            == crate::evidence::result_of(word)->0,
        row.flag_at("by_tool"@) == Some(true) <==> row_of(Some(row)).by_tool,
{
}

/// Each answer is read from under its own name.
pub proof fn law_answers_are_read_by_name(value: JsonView)
    ensures
        evidence_of(value).files == row_of(value.at("files"@)),
        evidence_of(value).launch == row_of(value.at("launch"@)),
        evidence_of(value).save == row_of(value.at("save"@)),
        evidence_of(value).cloud == row_of(value.at("cloud"@)),
{
}

/// The window is told of a library what the tool found: where it is, what it is called, its state, and that it can be
/// repaired exactly where it can.
pub proof fn law_window_is_told_what_was_found(rows: Seq<ListedView>, warnings: Seq<Seq<char>>, i: int)
    requires
        0 <= i < rows.len(),
    ensures
        seen_scan(rows, warnings).libraries.len() == rows.len(),
        seen_scan(rows, warnings).warnings == warnings,
        seen_scan(rows, warnings).complete <==> warnings.len() == 0,
        seen_scan(rows, warnings).libraries[i] == seen_library(rows[i]),
        ({
            let row = rows[i];
            let told = seen_library(row);
            let state = row.report.state;
            &&& told.id == row.library.id
            &&& told.path == shown(row.library.path)
            &&& told.name == row.library.name()
            &&& told.steam == install_label(row.library.install_kind)
            &&& told.connected == row.library.connected
            &&& told.state == state.code()
            &&& told.target == shown(row.library.target())
            &&& told.eligible <==> state is InterruptedAwaitingLink || ((state is NotRepaired || state is NoCompatdata)
                && row.mount is Some && row.mount->0.capability == Capability::NeedsRepair)
            &&& told.backups.len() == row.report.backups.len()
            &&& row.mount is Some ==> told.filesystem == row.mount->0.fs_type
        }),
        install_label(InstallKind::Native) == "native"@,
        install_label(InstallKind::Flatpak) == "flatpak"@,
{
}

/// The window is told of a plan what the tool drew up, and that two gibibytes are kept free.
pub proof fn law_window_is_told_the_plan(library: crate::steam::LibraryView, plan: crate::plan::PlanView)
    ensures
        ({
            let told = seen_plan(library, plan);
            &&& told.fingerprint == plan.fingerprint
            &&& told.source == shown(library.compatdata)
            &&& told.destination == shown(plan.target)
            &&& told.backup == shown(plan.backup)
            &&& told.copy_bytes == plan.copy_bytes
            &&& told.reserve_bytes == 2 * 1024 * 1024 * 1024
            &&& told.available_bytes == plan.available
            &&& told.installed_games == plan.installed_games
            &&& told.prefix_folders == plan.prefixes
            &&& told.unknown_folders == plan.unknown
        }),
{
}

/// The window is told what is stored and how large it is.
pub proof fn law_window_is_told_what_is_stored(row: crate::commands::StoredView, i: int)
    ensures
        ({
            let told = seen_stored(row);
            &&& told.id == row.id
            &&& told.name == row.name
            &&& told.live is Some <==> row.live is Some
            &&& row.live matches Some(live) ==> told.live == Some((shown(live.0), live.1))
            &&& told.backups.len() == row.backups.len()
            &&& 0 <= i < row.backups.len() ==> told.backups[i] == (shown(row.backups[i].0), row.backups[i].1)
            &&& told.leftover is Some <==> row.leftover is Some
            &&& row.leftover matches Some(left) ==> told.leftover == Some((shown(left.0), left.1))
        }),
{
}

/// A listing says where a library's data was moved or where its link leads, and of everything that was left.
pub proof fn law_listing_names_what_was_left(state: StateView, report: ReportView)
    ensures
        state matches StateView::Repaired { target, .. } ==> link_lines(state) == seq![
            "      moved to    "@ + shown(target),
        ],
        state matches StateView::LinkedElsewhere { target } ==> link_lines(state) == seq![
            "      links to    "@ + shown(target),
        ],
        state matches StateView::DanglingLink { target } ==> link_lines(state) == seq![
            "      links to    "@ + shown(target),
        ],
        report.existing_destination matches Some(path) ==> note_lines(report).contains(
            "      note        the destination already holds data: "@ + shown(path),
        ),
        report.interrupted_restore matches Some(path) ==> note_lines(report).contains(
            "      note        a copy back to this drive stopped part way: "@ + shown(path),
        ),
        report.abandoned_copy matches Some(path) ==> note_lines(report).contains(
            "      leftover    "@ + shown(path) + " (unfinished copy, safe to delete)"@,
        ),
{
    let lines = note_lines(report);
    let held: int = if report.existing_destination is Some {
        1
    } else {
        0
    };
    let stopped: int = if report.interrupted_restore is Some {
        2
    } else {
        0
    };
    if let Some(path) = report.existing_destination {
        assert(lines[0] == "      note        the destination already holds data: "@ + shown(path));
    }
    if let Some(path) = report.interrupted_restore {
        assert(lines[held] == "      note        a copy back to this drive stopped part way: "@ + shown(path));
    }
    if let Some(path) = report.abandoned_copy {
        assert(lines[held + stopped] == "      leftover    "@ + shown(path) + " (unfinished copy, safe to delete)"@);
    }
}

/// A repair that was done says where the data is now and where Steam sees it; one that was finished, where the original
/// is; an undo, what is still on disk; a deletion, where the data in use is.
pub proof fn law_endings_name_the_places(way: Way, facts: FactsView, i: int)
    ensures
        fix_words(Outcome::Repaired, way, facts) is Ok,
        fix_words(Outcome::Repaired, way, facts)->Ok_0.contains("  Proton data now lives at   "@ + shown(facts.target)),
        fix_words(Outcome::Repaired, way, facts)->Ok_0.contains(
            "  Steam still sees it at     "@ + shown(facts.compatdata),
        ),
        fix_words(Outcome::Recovered, way, facts)->Ok_0.contains("Done. The original is still at "@
            + shown(facts.backup)),
        fix_words(Outcome::Kept, way, facts)->Ok_0.contains("Done. Steam reads the data at "@ + shown(facts.target)),
        fix_words(Outcome::Kept, way, facts)->Ok_0.contains(
            "The copy that was on the game drive is at "@ + shown(facts.backup),
        ),
        undo_words(Outcome::Undone, facts)->Ok_0.contains("    "@ + shown(facts.target)),
        0 <= i < facts.backups.len() ==> undo_words(Outcome::Undone, facts)->Ok_0.contains(
            "    "@ + shown(facts.backups[i]),
        ),
        backup_words(Outcome::Deleted, facts)->Ok_0.contains("Done. The data in use is at "@ + shown(facts.target)),
{
    let done = fix_words(Outcome::Repaired, way, facts)->Ok_0;
    assert(done[2] == "  Proton data now lives at   "@ + shown(facts.target));
    assert(done[3] == "  Steam still sees it at     "@ + shown(facts.compatdata));
    let recovered = fix_words(Outcome::Recovered, way, facts)->Ok_0;
    assert(recovered[1] == "Done. The original is still at "@ + shown(facts.backup));
    let kept = fix_words(Outcome::Kept, way, facts)->Ok_0;
    assert(kept[1] == "Done. Steam reads the data at "@ + shown(facts.target));
    assert(kept[2] == "The copy that was on the game drive is at "@ + shown(facts.backup));
    let undone = undo_words(Outcome::Undone, facts)->Ok_0;
    assert(undone[3] == "    "@ + shown(facts.target));
    if 0 <= i < facts.backups.len() {
        assert(undone[4 + i] == "    "@ + shown(facts.backups[i]));
    }
    let deleted = backup_words(Outcome::Deleted, facts)->Ok_0;
    assert(deleted[1] == "Done. The data in use is at "@ + shown(facts.target));
}

/// The window is told of each answer under its own name.
pub proof fn law_window_is_told_what_is_established(evidence: Evidence)
    ensures
        seen_evidence(evidence).len() == 4,
        seen_evidence(evidence)[0].field == "files"@ && seen_evidence(evidence)[0].result == result_code(
            evidence.files.result,
        ) && seen_evidence(evidence)[0].by_tool == evidence.files.by_tool,
        seen_evidence(evidence)[1].field == "launch"@ && seen_evidence(evidence)[1].result == result_code(
            evidence.launch.result,
        ) && seen_evidence(evidence)[1].by_tool == evidence.launch.by_tool,
        seen_evidence(evidence)[2].field == "save"@ && seen_evidence(evidence)[2].result == result_code(
            evidence.save.result,
        ) && seen_evidence(evidence)[2].by_tool == evidence.save.by_tool,
        seen_evidence(evidence)[3].field == "cloud"@ && seen_evidence(evidence)[3].result == result_code(
            evidence.cloud.result,
        ) && seen_evidence(evidence)[3].by_tool == evidence.cloud.by_tool,
{
}

/// In quotes a backslash and a letter stand for a line break, a tab or a return; before a quote or a backslash it is
/// only a sign; before anything else it stays.
pub proof fn law_escapes_stand_for_characters(byte: u8)
    ensures
        escape(110) == seq!['\n'],
        escape(116) == seq!['\t'],
        escape(114) == seq!['\r'],
        escape(34) == seq!['"'],
        escape(92) == seq!['\\'],
        byte != 110 && byte != 116 && byte != 114 && byte != 34 && byte != 92 ==> escape(byte) == seq![
            '\\',
            byte as char,
        ],
{
}

/// A record is taken only in the form it is written in, and only where nothing of it is missing.
pub proof fn law_records_are_taken_whole(value: JsonView)
    ensures
        value.count_at("schema"@) != Some(1u64) ==> record_of(value) is None,
        value.text_at("library_id"@) is None ==> record_of(value) is None,
        value.text_at("source"@) is None ==> record_of(value) is None,
        value.text_at("destination"@) is None ==> record_of(value) is None,
        value.text_at("backup"@) is None ==> record_of(value) is None,
        value.text_at("digest"@) is None ==> record_of(value) is None,
        value.text_at("stage"@) is None ==> record_of(value) is None,
        record_of(value) matches Some(record) ==> {
            &&& Some(record.library_id) == value.text_at("library_id"@)
            &&& Some(record.digest) == value.text_at("digest"@)
            &&& record.source == encode_utf8(value.text_at("source"@)->0)
            &&& record.destination == encode_utf8(value.text_at("destination"@)->0)
            &&& record.backup == encode_utf8(value.text_at("backup"@)->0)
        },
{
}

/// The window reads only the form of output that it knows.
pub proof fn law_window_reads_only_its_own_form(value: JsonView, binary: Seq<u8>)
    ensures
        scan_of(value, binary) is Ok <==> value.count_at("schema"@) == Some(1u64),
{
}

/// Each reason for which a repair is refused is told in its own words, about the places it is about.
pub proof fn law_refusals_are_told_apart(way: Way, facts: FactsView)
    ensures
        fix_words(Outcome::WrongState, way, facts) == Err::<Seq<Seq<char>>, Seq<char>>(
            wrong_state_text(facts.library, facts.headline),
        ),
        fix_words(Outcome::NoSymlinks, way, facts) == Err::<Seq<Seq<char>>, Seq<char>>(
            no_symlinks_text(facts.library, facts.library_type),
        ),
        fix_words(Outcome::NothingToRepair, way, facts) == Err::<Seq<Seq<char>>, Seq<char>>(
            nothing_to_repair_text(facts.library, facts.library_type),
        ),
        fix_words(Outcome::SameFilesystem, way, facts) == Err::<Seq<Seq<char>>, Seq<char>>(
            same_filesystem_text(facts.target),
        ),
        fix_words(Outcome::UnfitDestination, way, facts) == Err::<Seq<Seq<char>>, Seq<char>>(
            unfit_destination_text(facts.target, facts.target_type),
        ),
        fix_words(Outcome::EscapingLinks, way, facts) == Err::<Seq<Seq<char>>, Seq<char>>(escaping_text(facts.links)),
        fix_words(Outcome::CopyMissing, way, facts) == Err::<Seq<Seq<char>>, Seq<char>>(
            copy_missing_text(facts.target, facts.backup, facts.compatdata),
        ),
        fix_words(Outcome::PlanChanged, way, facts) == Err::<Seq<Seq<char>>, Seq<char>>(
            plan_changed_text(facts.expected, facts.fingerprint),
        ),
        undo_words(Outcome::MidRepair, facts) == Err::<Seq<Seq<char>>, Seq<char>>(
            mid_repair_text(facts.backup, facts.id),
        ),
        backup_words(Outcome::NoEvidenceYet, facts) == Err::<Seq<Seq<char>>, Seq<char>>(no_evidence_yet_text(facts.id)),
        backup_words(Outcome::NotCarried, facts) == Err::<Seq<Seq<char>>, Seq<char>>(
            not_carried_all_text(facts.backup, facts.target, facts.lacking),
        ),
{
}

} // verus!
