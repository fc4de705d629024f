//! What the checks of the commands go by.

use vstd::prelude::*;
use vstd::utf8::encode_utf8;

use crate::checks::{
    digest_event, first_existing, first_not_carried, is_own_probe, link_fault, plan_event, probe_fault, record_event,
    same_data, same_shape, says_yes, system_event, Running,
};
use crate::evidence::{answer_of, is_field, result_of, Evidence, Result_, Row};
use crate::fsops::{
    copy_problems, distinct, law_verified_copy_has_the_digest, lost, spelled_alike, tree_digest, EntryView, Manifest,
};
use crate::path::{parts, FilePath};
use crate::protocol::Event;
use crate::record::Record;
use crate::system::Mount;
use crate::text::{lemma_split_concat, lemma_split_without, split, trimmed};

verus! {

/// A command hears that the processes are known where they could be listed, that one is in the way where any was found,
/// and that the drive is read-only where it is known to be.
pub proof fn law_command_hears_of_the_system(running: &Running, mount: Option<&Mount>, event: Event)
    requires
        call_ensures(system_event, (running, mount), event),
    ensures
        event is System,
        *running is Err ==> !event->System_listed && !event->System_running,
        running matches Ok(names) ==> event->System_listed && (event->System_running <==> names@.len() > 0),
        mount is None ==> !event->System_read_only,
        mount matches Some(mount) ==> event->System_read_only == mount.read_only,
{
}

/// A link that was made stands exactly when it is a link, leads where it should, and a directory can be read through it.
pub proof fn law_link_stands_when_it_leads_there(
    link: Seq<u8>,
    target: Seq<u8>,
    is_symlink: bool,
    read_back: Seq<u8>,
    readable: bool,
)
    ensures
        link_fault(link, target, is_symlink, read_back, readable) is None <==> is_symlink && readable
            && parts(read_back)
            == parts(target),
{
}

/// Links are possible exactly when the one that was tried out is a link and says what was written.
pub proof fn law_probe_shows_whether_links_are_kept(
    probe: Seq<u8>,
    is_symlink: bool,
    read_back: Seq<u8>,
    seen: Option<&FilePath>,
    own: bool,
)
    requires
        call_ensures(is_own_probe, (seen,), own),
    ensures
        probe_fault(probe, is_symlink, read_back) is None <==> is_symlink && parts(read_back) == parts(
            encode_utf8("librarybridge-probe-target"@),
        ),
        own <==> seen is Some && probe_fault(probe, true, seen->0@) is None,
{
}

/// Trees that differ in the number of their entries or bytes are not taken for the same, and those that do not may be.
/// They are the same exactly when one passes against the other.
pub proof fn law_same_data_has_the_same_shape(left: &Manifest, right: &Manifest, shape: bool, same: bool)
    requires
        call_ensures(same_shape, (left, right), shape),
        call_ensures(same_data, (left, right), same),
    ensures
        left@.len() != right@.len() ==> !shape,
        left.bytes != right.bytes ==> !shape,
        left@.len() == right@.len() && left.bytes == right.bytes ==> shape,
        same <==> copy_problems(left@, right@).len() == 0,
        same ==> left@.len() == right@.len(),
{
    if same {
        crate::fsops::law_verified_copy_is_complete(left@, right@);
    }
}

/// These and nothing else is a yes, whatever white space is around it.
pub proof fn law_only_a_yes_is_a_yes(answer: Seq<char>)
    ensures
        says_yes(answer) <==> seq!["y"@, "Y"@, "yes"@, "Yes"@].contains(trimmed(answer)),
{
    let all = seq!["y"@, "Y"@, "yes"@, "Yes"@];
    assert(all[0] == "y"@ && all[1] == "Y"@ && all[2] == "yes"@ && all[3] == "Yes"@);
}

/// Of a path's ancestors the nearest that exists is used; where none does, the root.
pub proof fn law_nearest_existing_ancestor_is_used(list: Seq<Seq<u8>>, exists_: Seq<bool>)
    requires
        list.len() == exists_.len(),
    ensures
        (forall|i: int| 0 <= i < exists_.len() ==> !#[trigger] exists_[i]) ==> first_existing(list, exists_)
            == encode_utf8("/"@),
        forall|i: int|
            0 <= i < exists_.len() && #[trigger] exists_[i] && (forall|k: int| 0 <= k < i ==> !#[trigger] exists_[k])
                ==> first_existing(list, exists_) == list[i],
    decreases list.len(),
{
    if list.len() > 0 && !exists_[0] {
        let rest = exists_.skip(1);
        law_nearest_existing_ancestor_is_used(list.skip(1), rest);
        assert forall|i: int|
            0 <= i < exists_.len() && #[trigger] exists_[i] && (forall|k: int| 0 <= k < i ==> !#[trigger] exists_[k])
            implies first_existing(list, exists_) == list[i] by {
            assert(rest[i - 1]);
            assert forall|k: int| 0 <= k < i - 1 implies !#[trigger] rest[k] by {
                assert(!exists_[k + 1]);
            }
            assert(list.skip(1)[i - 1] == list[i]);
        }
        if forall|i: int| 0 <= i < exists_.len() ==> !#[trigger] exists_[i] {
            assert forall|i: int| 0 <= i < rest.len() implies !#[trigger] rest[i] by {
                assert(!exists_[i + 1]);
            }
        }
    }
}

/// A plan is the expected one where none was expected, and otherwise exactly where it has the same fingerprint.
pub proof fn law_plan_is_held_to_the_expected_one(expected: Option<&str>, fingerprint: &str, event: Event)
    requires
        call_ensures(plan_event, (expected, fingerprint), event),
    ensures
        event is Plan,
        expected is None ==> event->expected,
        expected matches Some(text) ==> (event->expected <==> text@ == fingerprint@),
{
}

/// A record counts for a destination exactly when it names it, and a copy counts as the recorded one where it passes
/// against the tree whose digest was recorded, paths and link targets being spelled alike.
pub proof fn law_recorded_copy_is_recognised(
    record: &Record,
    target: &FilePath,
    copy: &Manifest,
    original: Seq<EntryView>,
    named: Event,
    digest: Event,
    none: Event,
)
    requires
        call_ensures(record_event, (Some(record), target), named),
        call_ensures(digest_event, (Some(record), copy), digest),
        call_ensures(record_event, (None, target), none),
    ensures
        named is Record && none is Record && digest is Answer,
        named->names_destination <==> parts(record@.destination) == parts(target@),
        !none->names_destination,
        digest == Event::Answer(record@.digest == tree_digest(copy@)),
        original.len() <= usize::MAX && distinct(original) && distinct(copy@) && spelled_alike(original, copy@)
            && copy_problems(original, copy@).len() == 0 && record@.digest == tree_digest(original) ==> digest
            == Event::Answer(true),
{
    if original.len() <= usize::MAX && distinct(original) && distinct(copy@) && spelled_alike(original, copy@)
        && copy_problems(original, copy@).len() == 0 {
        law_verified_copy_has_the_digest(original, copy@);
    }
}

/// The original that is named as not carried is the first that is not.
pub proof fn law_first_original_that_lacks_is_named(originals: Seq<Seq<EntryView>>, live: Seq<EntryView>)
    ensures
        match first_not_carried(originals, live) {
            Some(i) => 0 <= i < originals.len() && lost(originals[i], live).len() > 0 && forall|k: int|
                0 <= k < i ==> lost(#[trigger] originals[k], live).len() == 0,
            None => forall|k: int| 0 <= k < originals.len() ==> lost(#[trigger] originals[k], live).len() == 0,
        },
    decreases originals.len(),
{
    if originals.len() > 0 {
        let front = originals.drop_last();
        law_first_original_that_lacks_is_named(front, live);
        assert forall|k: int| 0 <= k < front.len() implies front[k] == #[trigger] originals[k] by {}
    }
}

proof fn lemma_results_differ()
    ensures
        "not_checked"@ != "worked"@ && "not_checked"@ != "yes"@ && "not_checked"@ != "failed"@
            && "not_checked"@ != "no"@
            && "not_checked"@ != "not_applicable"@ && "not_checked"@ != "na"@,
        "worked"@ != "failed"@ && "worked"@ != "no"@ && "worked"@ != "not_applicable"@ && "worked"@ != "na"@,
        "yes"@ != "failed"@ && "yes"@ != "no"@ && "yes"@ != "not_applicable"@ && "yes"@ != "na"@,
        "failed"@ != "not_applicable"@ && "failed"@ != "na"@ && "no"@ != "not_applicable"@ && "no"@ != "na"@,
{
    reveal_strlit("not_checked");
    reveal_strlit("worked");
    reveal_strlit("yes");
    reveal_strlit("failed");
    reveal_strlit("no");
    reveal_strlit("not_applicable");
    reveal_strlit("na");
    assert("worked"@[0] == 'w' && "failed"@[0] == 'f' && "yes"@[0] == 'y');
    assert("no"@[1] == 'o' && "na"@[1] == 'a');
    assert("not_checked"@.len() == 11 && "not_applicable"@.len() == 14 && "worked"@.len() == 6 && "failed"@.len() == 6
        && "yes"@.len() == 3 && "no"@.len() == 2 && "na"@.len() == 2);
}

/// A yes means that it worked and a no that it failed; these words and no others are answers.
pub proof fn law_answers_mean_what_they_say(text: Seq<char>)
    ensures
        result_of(text) == Some(Result_::Worked) <==> text == "worked"@ || text == "yes"@,
        result_of(text) == Some(Result_::Failed) <==> text == "failed"@ || text == "no"@,
        result_of(text) == Some(Result_::NotApplicable) <==> text == "not_applicable"@ || text == "na"@,
        result_of(text) == Some(Result_::NotChecked) <==> text == "not_checked"@,
{
    lemma_results_differ();
}

/// An answer is the name of a thing, an equals sign and a word.
pub proof fn law_answer_is_about_its_field(field: Seq<char>, word: Seq<char>)
    requires
        !field.contains('='),
        !word.contains('='),
    ensures
        result_of(word) matches Some(result) ==> answer_of(field + seq!['='] + word) == Ok::<
            (Seq<char>, Result_),
            Seq<char>,
        >((field, result)),
        result_of(word) is None ==> answer_of(field + seq!['='] + word) is Err,
        answer_of(field) is Err,
{
    let sign = seq!['='];
    let one = Seq::<char>::empty();
    lemma_split_without(field, '=');
    lemma_split_without(word, '=');
    assert(split(sign, '=') =~= seq![one, one]) by {
        assert(sign.drop_last() =~= one);
        assert(split(sign.drop_last(), '=') =~= seq![one]);
    }
    lemma_split_concat(field, sign, '=');
    let front = field + sign;
    assert(split(front, '=') =~= seq![field, one]) by {
        assert(field + one =~= field);
    }
    lemma_split_concat(front, word, '=');
    assert(split(front + word, '=') =~= seq![field, word]) by {
        assert(one + word =~= word);
    }
    assert(field + seq!['='] + word =~= front + word);
}

/// Each answer is kept in its own row.
pub proof fn law_each_answer_has_its_row(evidence: Evidence, row: Row)
    ensures
        evidence.row("files"@) == evidence.files,
        evidence.row("launch"@) == evidence.launch,
        evidence.row("save"@) == evidence.save,
        evidence.row("cloud"@) == evidence.cloud,
        evidence.with_row("files"@, row) == (Evidence { files: row, ..evidence }),
        evidence.with_row("launch"@, row) == (Evidence { launch: row, ..evidence }),
        evidence.with_row("save"@, row) == (Evidence { save: row, ..evidence }),
        evidence.with_row("cloud"@, row) == (Evidence { cloud: row, ..evidence }),
{
    reveal_strlit("files");
    reveal_strlit("launch");
    reveal_strlit("save");
    reveal_strlit("cloud");
    assert("files"@[0] == 'f' && "launch"@[0] == 'l' && "save"@[0] == 's' && "cloud"@[0] == 'c');
}

/// After a move that was checked, the files are known to match, by the tool and as of then; after one that was not, what
/// was known of them stays. Everything that a person reported is open again, as of then.
pub proof fn law_move_is_noted(evidence: Evidence, checked: bool, when: u64)
    ensures
        ({
            let now = evidence.after_move(checked, when);
            &&& checked ==> now.files == (Row { result: Result_::Worked, when, by_tool: true })
            &&& !checked ==> now.files == evidence.files
            &&& now.launch == (Row { result: Result_::NotChecked, when, by_tool: false })
            &&& now.save == now.launch
            &&& now.cloud == now.launch
        }),
{
}

/// Four things are recorded of a library, and no other.
pub proof fn law_four_things_are_recorded(field: Seq<char>)
    ensures
        is_field(field) <==> seq!["files"@, "launch"@, "save"@, "cloud"@].contains(field),
{
    let all = seq!["files"@, "launch"@, "save"@, "cloud"@];
    assert(all[0] == "files"@ && all[1] == "launch"@ && all[2] == "save"@ && all[3] == "cloud"@);
}

} // verus!
