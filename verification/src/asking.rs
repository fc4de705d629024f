//! What is asked of the commands, and of the window.

use vstd::prelude::*;

use crate::backend;
use crate::cli::{
    misplaced, no_options, offender, offends, read_from, request_of, taken_everywhere, takes_flag, takes_value,
    with_switch, with_value, OptionsView, RequestView,
};
use crate::json::JsonView;
use crate::lock::{judge, Claim};
use crate::path::FilePath;
use crate::state::StateView;
use crate::text::texts;
use crate::window::{
    action_command, after_update, apply_list, game_of, has_level, ids_at, import_fields, may_apply, may_import, missing,
    needing, offered, place_of, review_arguments, still_listed, Action, SessionView,
};

verus! {

/// The flags, told apart by their lengths and a letter.
proof fn lemma_flags()
    ensures
        "--json"@.len() == 6 && "--json"@[0] == '-' && "--json"@[2] == 'j',
        "-n"@.len() == 2 && "-n"@[0] == '-' && "-n"@[1] == 'n',
        "--dry-run"@.len() == 9 && "--dry-run"@[0] == '-' && "--dry-run"@[2] == 'd',
        "-y"@.len() == 2 && "-y"@[0] == '-' && "-y"@[1] == 'y',
        "--yes"@.len() == 5 && "--yes"@[0] == '-' && "--yes"@[2] == 'y',
        "--force"@.len() == 7 && "--force"@[0] == '-' && "--force"@[2] == 'f',
        "--all"@.len() == 5 && "--all"@[0] == '-' && "--all"@[2] == 'a',
        "--keep-destination"@.len() == 18 && "--keep-destination"@[0] == '-' && "--keep-destination"@[2] == 'k',
        "--replace-destination"@.len() == 21 && "--replace-destination"@[0] == '-' && "--replace-destination"@[2]
            == 'r',
        "--steam-root"@.len() == 12 && "--steam-root"@[0] == '-' && "--steam-root"@[2] == 's',
        "--data-dir"@.len() == 10 && "--data-dir"@[0] == '-' && "--data-dir"@[2] == 'd',
        "--root"@.len() == 6 && "--root"@[0] == '-' && "--root"@[2] == 'r',
        "--candidate"@.len() == 11 && "--candidate"@[0] == '-' && "--candidate"@[2] == 'c',
        "--output"@.len() == 8 && "--output"@[0] == '-' && "--output"@[2] == 'o',
        "--plan"@.len() == 6 && "--plan"@[0] == '-' && "--plan"@[2] == 'p',
        "--entry"@.len() == 7 && "--entry"@[0] == '-' && "--entry"@[2] == 'e',
        "--expect"@.len() == 8 && "--expect"@[0] == '-' && "--expect"@[2] == 'e',
        "--record"@.len() == 8 && "--record"@[0] == '-' && "--record"@[2] == 'r',
        "-h"@.len() == 2 && "-h"@[0] == '-' && "-h"@[1] == 'h',
        "--help"@.len() == 6 && "--help"@[0] == '-' && "--help"@[2] == 'h',
        "-V"@.len() == 2 && "-V"@[0] == '-' && "-V"@[1] == 'V',
        "--version"@.len() == 9 && "--version"@[0] == '-' && "--version"@[2] == 'v',
{
    assert("--json"@.len() == 6 && "--json"@[0] == '-' && "--json"@[2] == 'j') by {
        reveal_strlit("--json");
    }
    assert("-n"@.len() == 2 && "-n"@[0] == '-' && "-n"@[1] == 'n') by {
        reveal_strlit("-n");
    }
    assert("--dry-run"@.len() == 9 && "--dry-run"@[0] == '-' && "--dry-run"@[2] == 'd') by {
        reveal_strlit("--dry-run");
    }
    assert("-y"@.len() == 2 && "-y"@[0] == '-' && "-y"@[1] == 'y') by {
        reveal_strlit("-y");
    }
    assert("--yes"@.len() == 5 && "--yes"@[0] == '-' && "--yes"@[2] == 'y') by {
        reveal_strlit("--yes");
    }
    assert("--force"@.len() == 7 && "--force"@[0] == '-' && "--force"@[2] == 'f') by {
        reveal_strlit("--force");
    }
    assert("--all"@.len() == 5 && "--all"@[0] == '-' && "--all"@[2] == 'a') by {
        reveal_strlit("--all");
    }
    assert("--keep-destination"@.len() == 18 && "--keep-destination"@[0] == '-' && "--keep-destination"@[2] == 'k') by {
        reveal_strlit("--keep-destination");
    }
    assert("--replace-destination"@.len() == 21 && "--replace-destination"@[0] == '-' && "--replace-destination"@[2]
        == 'r') by {
        reveal_strlit("--replace-destination");
    }
    assert("--steam-root"@.len() == 12 && "--steam-root"@[0] == '-' && "--steam-root"@[2] == 's') by {
        reveal_strlit("--steam-root");
    }
    assert("--data-dir"@.len() == 10 && "--data-dir"@[0] == '-' && "--data-dir"@[2] == 'd') by {
        reveal_strlit("--data-dir");
    }
    assert("--root"@.len() == 6 && "--root"@[0] == '-' && "--root"@[2] == 'r') by {
        reveal_strlit("--root");
    }
    assert("--candidate"@.len() == 11 && "--candidate"@[0] == '-' && "--candidate"@[2] == 'c') by {
        reveal_strlit("--candidate");
    }
    assert("--output"@.len() == 8 && "--output"@[0] == '-' && "--output"@[2] == 'o') by {
        reveal_strlit("--output");
    }
    assert("--plan"@.len() == 6 && "--plan"@[0] == '-' && "--plan"@[2] == 'p') by {
        reveal_strlit("--plan");
    }
    assert("--entry"@.len() == 7 && "--entry"@[0] == '-' && "--entry"@[2] == 'e') by {
        reveal_strlit("--entry");
    }
    assert("--expect"@.len() == 8 && "--expect"@[0] == '-' && "--expect"@[2] == 'e') by {
        reveal_strlit("--expect");
    }
    assert("--record"@.len() == 8 && "--record"@[0] == '-' && "--record"@[2] == 'r') by {
        reveal_strlit("--record");
    }
    assert("-h"@.len() == 2 && "-h"@[0] == '-' && "-h"@[1] == 'h') by {
        reveal_strlit("-h");
    }
    assert("--help"@.len() == 6 && "--help"@[0] == '-' && "--help"@[2] == 'h') by {
        reveal_strlit("--help");
    }
    assert("-V"@.len() == 2 && "-V"@[0] == '-' && "-V"@[1] == 'V') by {
        reveal_strlit("-V");
    }
    assert("--version"@.len() == 9 && "--version"@[0] == '-' && "--version"@[2] == 'v') by {
        reveal_strlit("--version");
    }
}

/// Each switch turns on what it is called after, and nothing else.
pub proof fn law_switches_turn_on_what_they_say(options: OptionsView, argument: Seq<char>)
    ensures
        with_switch(options, "--json"@) == Some(OptionsView { json: true, ..options }),
        with_switch(options, "-n"@) == Some(OptionsView { dry_run: true, ..options }),
        with_switch(options, "--dry-run"@) == Some(OptionsView { dry_run: true, ..options }),
        with_switch(options, "-y"@) == Some(OptionsView { assume_yes: true, ..options }),
        with_switch(options, "--yes"@) == Some(OptionsView { assume_yes: true, ..options }),
        with_switch(options, "--force"@) == Some(OptionsView { force: true, ..options }),
        with_switch(options, "--all"@) == Some(OptionsView { all: true, ..options }),
        with_switch(options, "--keep-destination"@) == Some(OptionsView { keep_destination: true, ..options }),
        with_switch(options, "--replace-destination"@) == Some(OptionsView { replace_destination: true, ..options }),
        with_switch(options, argument) is Some ==> seq![
            "--json"@,
            "-n"@,
            "--dry-run"@,
            "-y"@,
            "--yes"@,
            "--force"@,
            "--all"@,
            "--keep-destination"@,
            "--replace-destination"@,
        ].contains(argument),
{
    lemma_flags();
    let all = seq![
        "--json"@,
        "-n"@,
        "--dry-run"@,
        "-y"@,
        "--yes"@,
        "--force"@,
        "--all"@,
        "--keep-destination"@,
        "--replace-destination"@,
    ];
    assert(all[0] == "--json"@);
    assert(all[1] == "-n"@);
    assert(all[2] == "--dry-run"@);
    assert(all[3] == "-y"@);
    assert(all[4] == "--yes"@);
    assert(all[5] == "--force"@);
    assert(all[6] == "--all"@);
    assert(all[7] == "--keep-destination"@);
    assert(all[8] == "--replace-destination"@);
}

/// Each option that takes a value keeps it as what it is called after, and nothing else. Roots and candidates add up.
pub proof fn law_values_are_kept_as_what_they_are(options: OptionsView, value: Seq<char>, raw: Seq<u8>,
    argument: Seq<char>)
    ensures
        takes_value("--steam-root"@) && with_value(options, "--steam-root"@, value, raw)
            == (OptionsView { steam_root: Some(raw), ..options }),
        takes_value("--data-dir"@) && with_value(options, "--data-dir"@, value, raw)
            == (OptionsView { data_dir: Some(raw), ..options }),
        takes_value("--root"@) && with_value(options, "--root"@, value, raw)
            == (OptionsView { roots: options.roots.push(raw), ..options }),
        takes_value("--candidate"@) && with_value(options, "--candidate"@, value, raw)
            == (OptionsView { candidates: options.candidates.push(value), ..options }),
        takes_value("--output"@) && with_value(options, "--output"@, value, raw) == (OptionsView { output: Some(raw),
            ..options }),
        takes_value("--plan"@) && with_value(options, "--plan"@, value, raw) == (OptionsView { plan: Some(raw),
            ..options }),
        takes_value("--entry"@) && with_value(options, "--entry"@, value, raw) == (OptionsView { entry: Some(value),
            ..options }),
        takes_value("--expect"@) && with_value(options, "--expect"@, value, raw)
            == (OptionsView { expect: Some(value), ..options }),
        takes_value("--record"@) && with_value(options, "--record"@, value, raw)
            == (OptionsView { record: Some(value), ..options }),
        takes_value(argument) <==> seq![
            "--steam-root"@,
            "--data-dir"@,
            "--root"@,
            "--candidate"@,
            "--output"@,
            "--plan"@,
            "--entry"@,
            "--expect"@,
            "--record"@,
        ].contains(argument),
{
    lemma_flags();
    let all = seq![
        "--steam-root"@,
        "--data-dir"@,
        "--root"@,
        "--candidate"@,
        "--output"@,
        "--plan"@,
        "--entry"@,
        "--expect"@,
        "--record"@,
    ];
    assert(all[0] == "--steam-root"@);
    assert(all[1] == "--data-dir"@);
    assert(all[2] == "--root"@);
    assert(all[3] == "--candidate"@);
    assert(all[4] == "--output"@);
    assert(all[5] == "--plan"@);
    assert(all[6] == "--entry"@);
    assert(all[7] == "--expect"@);
    assert(all[8] == "--record"@);
}

proof fn lemma_commands()
    ensures
        "backup"@.len() == 6 && "backup"@[0] == 'b' && "backup"@[1] == 'a',
        "detect"@.len() == 6 && "detect"@[0] == 'd' && "detect"@[1] == 'e',
        "evidence"@.len() == 8 && "evidence"@[0] == 'e' && "evidence"@[1] == 'v',
        "fix"@.len() == 3 && "fix"@[0] == 'f' && "fix"@[1] == 'i',
        "forget"@.len() == 6 && "forget"@[0] == 'f' && "forget"@[1] == 'o',
        "import"@.len() == 6 && "import"@[0] == 'i' && "import"@[1] == 'm',
        "lutris"@.len() == 6 && "lutris"@[0] == 'l' && "lutris"@[1] == 'u',
        "plan"@.len() == 4 && "plan"@[0] == 'p' && "plan"@[1] == 'l',
        "scan"@.len() == 4 && "scan"@[0] == 's' && "scan"@[1] == 'c',
        "storage"@.len() == 7 && "storage"@[0] == 's' && "storage"@[1] == 't',
        "undo"@.len() == 4 && "undo"@[0] == 'u' && "undo"@[1] == 'n',
{
    assert("backup"@.len() == 6 && "backup"@[0] == 'b' && "backup"@[1] == 'a') by {
        reveal_strlit("backup");
    }
    assert("detect"@.len() == 6 && "detect"@[0] == 'd' && "detect"@[1] == 'e') by {
        reveal_strlit("detect");
    }
    assert("evidence"@.len() == 8 && "evidence"@[0] == 'e' && "evidence"@[1] == 'v') by {
        reveal_strlit("evidence");
    }
    assert("fix"@.len() == 3 && "fix"@[0] == 'f' && "fix"@[1] == 'i') by {
        reveal_strlit("fix");
    }
    assert("forget"@.len() == 6 && "forget"@[0] == 'f' && "forget"@[1] == 'o') by {
        reveal_strlit("forget");
    }
    assert("import"@.len() == 6 && "import"@[0] == 'i' && "import"@[1] == 'm') by {
        reveal_strlit("import");
    }
    assert("lutris"@.len() == 6 && "lutris"@[0] == 'l' && "lutris"@[1] == 'u') by {
        reveal_strlit("lutris");
    }
    assert("plan"@.len() == 4 && "plan"@[0] == 'p' && "plan"@[1] == 'l') by {
        reveal_strlit("plan");
    }
    assert("scan"@.len() == 4 && "scan"@[0] == 's' && "scan"@[1] == 'c') by {
        reveal_strlit("scan");
    }
    assert("storage"@.len() == 7 && "storage"@[0] == 's' && "storage"@[1] == 't') by {
        reveal_strlit("storage");
    }
    assert("undo"@.len() == 4 && "undo"@[0] == 'u' && "undo"@[1] == 'n') by {
        reveal_strlit("undo");
    }
}

/// Each command takes its own flags besides those that all take.
pub proof fn law_commands_take_their_own_flags(sub: Seq<char>, flag: Seq<char>)
    ensures
        takes_flag("fix"@, sub, flag) == Some(seq!["-y"@, "--yes"@, "--force"@, "--expect"@, "--keep-destination"@,
            "--replace-destination"@].contains(flag)),
        takes_flag("undo"@, sub, flag) == Some(seq!["-y"@, "--yes"@].contains(flag)),
        takes_flag("backup"@, sub, flag) == Some(seq!["-y"@, "--yes"@].contains(flag)),
        takes_flag("evidence"@, sub, flag) == Some(seq!["--record"@].contains(flag)),
        takes_flag("scan"@, sub, flag) == Some(Seq::<Seq<char>>::empty().contains(flag)),
        takes_flag("storage"@, sub, flag) == Some(Seq::<Seq<char>>::empty().contains(flag)),
        takes_flag("lutris"@, "scan"@, flag) == Some(seq!["--root"@, "--all"@].contains(flag)),
        takes_flag("lutris"@, "detect"@, flag) == Some(Seq::<Seq<char>>::empty().contains(flag)),
        takes_flag("lutris"@, "plan"@, flag) == Some(seq!["--root"@, "--candidate"@, "--output"@].contains(flag)),
        takes_flag("lutris"@, "import"@, flag) == Some(seq!["-y"@, "--yes"@, "--plan"@].contains(flag)),
        takes_flag("lutris"@, "forget"@, flag) == Some(seq!["--entry"@].contains(flag)),
        taken_everywhere(flag) <==> seq!["--json"@, "-n"@, "--dry-run"@, "--steam-root"@, "--data-dir"@].contains(flag),
{
    lemma_commands();
    assert(seq!["-y"@, "--yes"@, "--force"@, "--expect"@, "--keep-destination"@, "--replace-destination"@][0] == "-y"@);
    assert(seq!["-y"@, "--yes"@, "--force"@, "--expect"@, "--keep-destination"@, "--replace-destination"@][1]
        == "--yes"@);
    assert(seq!["-y"@, "--yes"@, "--force"@, "--expect"@, "--keep-destination"@, "--replace-destination"@][2]
        == "--force"@);
    assert(seq!["-y"@, "--yes"@, "--force"@, "--expect"@, "--keep-destination"@, "--replace-destination"@][3]
        == "--expect"@);
    assert(seq!["-y"@, "--yes"@, "--force"@, "--expect"@, "--keep-destination"@, "--replace-destination"@][4]
        == "--keep-destination"@);
    assert(seq!["-y"@, "--yes"@, "--force"@, "--expect"@, "--keep-destination"@, "--replace-destination"@][5]
        == "--replace-destination"@);
    assert(seq!["-y"@, "--yes"@][0] == "-y"@);
    assert(seq!["-y"@, "--yes"@][1] == "--yes"@);
    assert(seq!["-y"@, "--yes"@][0] == "-y"@);
    assert(seq!["-y"@, "--yes"@][1] == "--yes"@);
    assert(seq!["--record"@][0] == "--record"@);
    assert(seq!["--root"@, "--all"@][0] == "--root"@);
    assert(seq!["--root"@, "--all"@][1] == "--all"@);
    assert(seq!["--root"@, "--candidate"@, "--output"@][0] == "--root"@);
    assert(seq!["--root"@, "--candidate"@, "--output"@][1] == "--candidate"@);
    assert(seq!["--root"@, "--candidate"@, "--output"@][2] == "--output"@);
    assert(seq!["-y"@, "--yes"@, "--plan"@][0] == "-y"@);
    assert(seq!["-y"@, "--yes"@, "--plan"@][1] == "--yes"@);
    assert(seq!["-y"@, "--yes"@, "--plan"@][2] == "--plan"@);
    assert(seq!["--entry"@][0] == "--entry"@);
    assert(seq!["--json"@, "-n"@, "--dry-run"@, "--steam-root"@, "--data-dir"@][0] == "--json"@);
    assert(seq!["--json"@, "-n"@, "--dry-run"@, "--steam-root"@, "--data-dir"@][1] == "-n"@);
    assert(seq!["--json"@, "-n"@, "--dry-run"@, "--steam-root"@, "--data-dir"@][2] == "--dry-run"@);
    assert(seq!["--json"@, "-n"@, "--dry-run"@, "--steam-root"@, "--data-dir"@][3] == "--steam-root"@);
    assert(seq!["--json"@, "-n"@, "--dry-run"@, "--steam-root"@, "--data-dir"@][4] == "--data-dir"@);
}

proof fn lemma_codes()
    ensures
        "disconnected"@.len() == 12 && "disconnected"@[0] == 'd',
        "no_compatdata"@.len() == 13 && "no_compatdata"@[0] == 'n',
        "repair_available"@.len() == 16 && "repair_available"@[0] == 'r',
        "repaired"@.len() == 8 && "repaired"@[0] == 'r',
        "linked_elsewhere"@.len() == 16 && "linked_elsewhere"@[0] == 'l',
        "dangling_link"@.len() == 13 && "dangling_link"@[0] == 'd',
        "interrupted"@.len() == 11 && "interrupted"@[0] == 'i',
        "unusable"@.len() == 8 && "unusable"@[0] == 'u',
{
    assert("disconnected"@.len() == 12 && "disconnected"@[0] == 'd') by {
        reveal_strlit("disconnected");
    }
    assert("no_compatdata"@.len() == 13 && "no_compatdata"@[0] == 'n') by {
        reveal_strlit("no_compatdata");
    }
    assert("repair_available"@.len() == 16 && "repair_available"@[0] == 'r') by {
        reveal_strlit("repair_available");
    }
    assert("repaired"@.len() == 8 && "repaired"@[0] == 'r') by {
        reveal_strlit("repaired");
    }
    assert("linked_elsewhere"@.len() == 16 && "linked_elsewhere"@[0] == 'l') by {
        reveal_strlit("linked_elsewhere");
    }
    assert("dangling_link"@.len() == 13 && "dangling_link"@[0] == 'd') by {
        reveal_strlit("dangling_link");
    }
    assert("interrupted"@.len() == 11 && "interrupted"@[0] == 'i') by {
        reveal_strlit("interrupted");
    }
    assert("unusable"@.len() == 8 && "unusable"@[0] == 'u') by {
        reveal_strlit("unusable");
    }
}

/// A flag that its command does not take is named, the first of them; where each is taken, nothing is said.
pub proof fn law_flags_out_of_place_are_named(command: Seq<char>, sub: Seq<char>, arguments: Seq<Seq<char>>)
    ensures
        (forall|i: int| 0 <= i < arguments.len() ==> !offends(command, sub, #[trigger] arguments[i])) <==> offender(
            command,
            sub,
            arguments,
        ) is None,
        forall|i: int|
            0 <= i < arguments.len() && offends(command, sub, #[trigger] arguments[i]) && (forall|k: int|
                0 <= k < i ==> !offends(command, sub, #[trigger] arguments[k])) ==> offender(command, sub, arguments)
                == Some(arguments[i]),
    decreases arguments.len(),
{
    if arguments.len() > 0 && !offends(command, sub, arguments[0]) {
        let rest = arguments.skip(1);
        law_flags_out_of_place_are_named(command, sub, rest);
        assert(forall|i: int| 0 <= i < rest.len() ==> #[trigger] rest[i] == arguments[i + 1]);
        assert forall|i: int|
            0 <= i < arguments.len() && offends(command, sub, #[trigger] arguments[i]) && (forall|k: int|
                0 <= k < i ==> !offends(command, sub, #[trigger] arguments[k])) implies offender(
            command,
            sub,
            arguments,
        ) == Some(arguments[i]) by {
            assert(rest[i - 1] == arguments[i]);
            assert forall|k: int| 0 <= k < i - 1 implies !offends(command, sub, #[trigger] rest[k]) by {
                assert(rest[k] == arguments[k + 1]);
            }
        }
        if offender(command, sub, arguments) is None {
            assert forall|i: int| 0 <= i < arguments.len() implies !offends(command, sub, #[trigger] arguments[i]) by {
                if i > 0 {
                    assert(rest[i - 1] == arguments[i]);
                }
            }
        }
        if forall|i: int| 0 <= i < arguments.len() ==> !offends(command, sub, #[trigger] arguments[i]) {
            assert forall|i: int| 0 <= i < rest.len() implies !offends(command, sub, #[trigger] rest[i]) by {
                assert(rest[i] == arguments[i + 1]);
            }
        }
    }
}

/// A flag is out of place exactly when it is one, not every command takes it, and its command is known not to.
pub proof fn law_only_flags_are_out_of_place(command: Seq<char>, sub: Seq<char>, argument: Seq<char>)
    ensures
        offends(command, sub, argument) <==> argument.len() > 0 && argument[0] == '-' && !taken_everywhere(argument)
            && takes_flag(command, sub, argument) == Some(false),
{
    reveal_strlit("-");
    if argument.len() > 0 && argument[0] == '-' {
        assert(argument.subrange(0, 1) =~= "-"@);
    }
    if "-"@.is_prefix_of(argument) {
        assert(argument.subrange(0, 1)[0] == '-');
    }
}

/// Arguments are read one after the other: a switch turns on what it says, an option takes the argument behind it, what
/// begins with a dash and is neither is refused, and anything else is kept in its order.
pub proof fn law_arguments_are_read_one_by_one(
    arguments: Seq<Seq<char>>,
    raw: Seq<Seq<u8>>,
    i: int,
    options: OptionsView,
    positional: Seq<Seq<char>>,
)
    requires
        0 <= i < arguments.len(),
    ensures
        ({
            let argument = arguments[i];
            let read = read_from(arguments, raw, i, options, positional);
            let asks = argument == "-h"@ || argument == "--help"@;
            let version = argument == "-V"@ || argument == "--version"@;
            &&& asks ==> read == RequestView::Help
            &&& version ==> read == RequestView::Version
            &&& with_switch(options, argument) is Some ==> read == read_from(
                arguments,
                raw,
                i + 1,
                with_switch(options, argument)->0,
                positional,
            )
            &&& takes_value(argument) && i + 1 < arguments.len() ==> read == read_from(
                arguments,
                raw,
                i + 2,
                with_value(options, argument, arguments[i + 1], raw[i + 1]),
                positional,
            )
            &&& takes_value(argument) && i + 1 >= arguments.len() ==> read is Misused
            &&& argument.len() > 0 && argument[0] == '-' && !asks && !version && with_switch(options, argument) is None
                && !takes_value(argument) ==> read is Misused
            &&& argument.len() == 0 || argument[0] != '-' ==> read == read_from(
                arguments,
                raw,
                i + 1,
                options,
                positional.push(argument),
            )
            &&& read_from(arguments, raw, arguments.len() as int, options, positional) == (RequestView::Run {
                options,
                positional,
            })
        }),
{
    lemma_flags();
    let argument = arguments[i];
    reveal_strlit("-");
    if argument.len() > 0 && argument[0] == '-' {
        assert(argument.subrange(0, 1) =~= "-"@);
    }
    if "-"@.is_prefix_of(argument) {
        assert(argument.subrange(0, 1)[0] == '-');
    }
}

/// What the window asks for is what the tool reads: a repair or an undo of the library, with consent, and for a repair
/// only where the plan is still the one that was reviewed.
pub proof fn law_tool_reads_what_the_window_asks(id: Seq<char>, plan: Seq<char>, raw: Seq<Seq<u8>>)
    requires
        id.len() > 0,
        id[0] != '-',
    ensures
        read_from(apply_list(Action::Fix, id, Some(plan)), raw, 0, no_options(), Seq::empty()) == (RequestView::Run {
            options: OptionsView { assume_yes: true, expect: Some(plan), ..no_options() },
            positional: seq!["fix"@, id],
        }),
        read_from(apply_list(Action::Undo, id, None), raw, 0, no_options(), Seq::empty()) == (RequestView::Run {
            options: OptionsView { assume_yes: true, ..no_options() },
            positional: seq!["undo"@, id],
        }),
{
    lemma_flags();
    lemma_commands();
    let fix = apply_list(Action::Fix, id, Some(plan));
    let undo = apply_list(Action::Undo, id, None);
    let none = Seq::<Seq<char>>::empty();
    let yes = OptionsView { assume_yes: true, ..no_options() };
    assert(fix[0] == "fix"@ && fix[1] == id && fix[2] == "--yes"@ && fix[3] == "--expect"@ && fix[4] == plan);
    assert(undo[0] == "undo"@ && undo[1] == id && undo[2] == "--yes"@);
    law_switches_turn_on_what_they_say(no_options(), id);
    law_values_are_kept_as_what_they_are(yes, plan, raw[4], "--expect"@);
    law_arguments_are_read_one_by_one(fix, raw, 0, no_options(), none);
    law_arguments_are_read_one_by_one(fix, raw, 1, no_options(), none.push("fix"@));
    law_arguments_are_read_one_by_one(fix, raw, 2, no_options(), none.push("fix"@).push(id));
    law_arguments_are_read_one_by_one(fix, raw, 3, yes, none.push("fix"@).push(id));
    assert(none.push("fix"@).push(id) =~= seq!["fix"@, id]);
    law_arguments_are_read_one_by_one(undo, raw, 0, no_options(), none);
    law_arguments_are_read_one_by_one(undo, raw, 1, no_options(), none.push("undo"@));
    law_arguments_are_read_one_by_one(undo, raw, 2, no_options(), none.push("undo"@).push(id));
    assert(none.push("undo"@).push(id) =~= seq!["undo"@, id]);
}

/// Keeping the destination and replacing it cannot both be asked for.
pub proof fn law_opposite_answers_are_refused(arguments: Seq<Seq<char>>, raw: Seq<Seq<u8>>)
    ensures
        request_of(arguments, raw) matches RequestView::Run { options, positional } ==> !(options.keep_destination
            && options.replace_destination) && misplaced(positional, arguments) is None,
{
}

/// The window offers a repair for exactly the libraries that the tool would repair or finish, and an undo for exactly
/// those that are repaired.
pub proof fn law_window_offers_what_the_tool_does(state: StateView)
    ensures
        offered(state.code()) == Some(Action::Fix) <==> state is NotRepaired || state is InterruptedAwaitingLink,
        offered(state.code()) == Some(Action::Undo) <==> state is Repaired,
        action_command(Action::Fix) == "fix"@,
        action_command(Action::Undo) == "undo"@,
{
    lemma_codes();
}

/// The states of libraries that the window counts are those that it offers a repair for.
pub proof fn law_window_counts_what_it_offers(
    left: Seq<backend::LibraryView>,
    right: Seq<backend::LibraryView>,
    library: backend::LibraryView,
)
    ensures
        needing(left + right) == needing(left) + needing(right),
        needing(seq![library]) == if offered(library.state) == Some(Action::Fix) {
            1nat
        } else {
            0
        },
    decreases right.len(),
{
    assert(seq![library].drop_last() =~= Seq::empty());
    assert(needing(seq![library].drop_last()) == 0);
    if right.len() == 0 {
        assert(left + right =~= left);
    } else {
        assert((left + right).drop_last() =~= left + right.drop_last());
        law_window_counts_what_it_offers(left, right.drop_last(), library);
    }
}

/// The games that are missing from Lutris are counted one by one.
pub proof fn law_missing_games_are_counted(
    left: Seq<backend::CandidateView>,
    right: Seq<backend::CandidateView>,
    game: backend::CandidateView,
)
    ensures
        missing(left + right) == missing(left) + missing(right),
        missing(seq![game]) == if game.in_lutris {
            0nat
        } else {
            1
        },
    decreases right.len(),
{
    assert(seq![game].drop_last() =~= Seq::empty());
    assert(missing(seq![game].drop_last()) == 0);
    if right.len() == 0 {
        assert(left + right =~= left);
    } else {
        assert((left + right).drop_last() =~= left + right.drop_last());
        law_missing_games_are_counted(left, right.drop_last(), game);
    }
}

/// A review can be applied only once it ended well and while nothing runs; games can be imported only where some are
/// selected, nothing runs and Lutris is there.
pub proof fn law_window_waits_for_its_turn(busy: bool, review: Option<bool>, apply: bool, selected: usize,
    lutris: bool, import: bool)
    requires
        call_ensures(may_apply, (busy, review), apply),
        call_ensures(may_import, (selected, busy, lutris), import),
    ensures
        apply ==> !busy && review == Some(true),
        !busy && review == Some(true) ==> apply,
        import ==> selected > 0 && !busy && lutris,
        selected > 0 && !busy && lutris ==> import,
{
}

/// A review of the window changes nothing: it is a dry run.
pub proof fn law_window_reviews_by_a_dry_run(action: Action, id: &str, arguments: Vec<String>)
    requires
        call_ensures(review_arguments, (action, id), arguments),
    ensures
        texts(arguments@).len() == 3,
        texts(arguments@)[0] == action_command(action),
        texts(arguments@)[1] == id@,
        texts(arguments@)[2] == "--dry-run"@,
{
}

/// What stays selected is what was selected and is still listed, in its order.
pub proof fn law_selection_keeps_what_is_listed(selected: Seq<Seq<char>>, ids: Seq<Seq<char>>)
    ensures
        forall|i: int|
            0 <= i < selected.len() && ids.contains(#[trigger] selected[i]) ==> still_listed(selected, ids).contains(
                selected[i],
            ),
        forall|k: int|
            0 <= k < still_listed(selected, ids).len() ==> ids.contains(#[trigger] still_listed(selected, ids)[k])
                && selected.contains(still_listed(selected, ids)[k]),
    decreases selected.len(),
{
    if selected.len() > 0 {
        let front = selected.drop_last();
        let before = still_listed(front, ids);
        let all = still_listed(selected, ids);
        law_selection_keeps_what_is_listed(front, ids);
        assert forall|i: int| 0 <= i < selected.len() && ids.contains(#[trigger] selected[i]) implies all.contains(
            selected[i],
        ) by {
            if i < front.len() {
                assert(front[i] == selected[i]);
                let k = choose|k: int| 0 <= k < before.len() && before[k] == selected[i];
                assert(all[k] == selected[i]);
            } else {
                assert(all[before.len() as int] == selected[i]);
            }
        }
        assert forall|k: int| 0 <= k < all.len() implies ids.contains(#[trigger] all[k])
            && selected.contains(all[k]) by {
            if k < before.len() {
                assert(ids.contains(before[k]) && front.contains(before[k]));
                let i = choose|i: int| 0 <= i < front.len() && front[i] == before[k];
                assert(selected[i] == all[k]);
            } else {
                assert(selected[selected.len() - 1] == all[k]);
            }
        }
    }
}

/// What the user edited of a game counts before what was found.
pub proof fn law_edits_come_first(
    edits: Seq<backend::CandidateView>,
    found: Seq<backend::CandidateView>,
    id: Seq<char>,
)
    ensures
        place_of(edits, id) matches Some(i) ==> 0 <= i < edits.len() && edits[i].id == id && game_of(edits, found, id)
            == Some(edits[i]),
        place_of(edits, id) is None ==> forall|i: int| 0 <= i < edits.len() ==> (#[trigger] edits[i]).id != id,
        place_of(edits, id) is None && place_of(found, id) is None ==> game_of(edits, found, id) is None,
        place_of(edits, id) is None && place_of(found, id) is Some ==> game_of(edits, found, id) == Some(
            found[place_of(found, id)->0],
        ),
    decreases edits.len(),
{
    if edits.len() > 0 {
        let front = edits.drop_last();
        law_edits_come_first(front, found, id);
        assert forall|i: int| 0 <= i < front.len() implies front[i] == #[trigger] edits[i] by {}
    }
}

/// A lock is taken over only from a process that is known to have ended.
pub proof fn law_lock_is_left_to_the_living(path: &FilePath, process: Option<u32>, running: Option<bool>, claim: Claim)
    requires
        call_ensures(judge, (path, process, running), claim),
    ensures
        claim is Reclaim ==> process is Some && running == Some(false),
        process is Some && running == Some(false) ==> claim is Reclaim,
        running == Some(true) ==> claim is Refuse,
        running is None ==> claim is Refuse,
        process is None ==> claim is Refuse,
{
}

/// The games of a level are exactly those that one of that level has the id of, in their order.
pub proof fn law_groups_are_by_level(games: Seq<backend::CandidateView>, level: Seq<char>, n: int)
    requires
        0 <= n <= games.len(),
    ensures
        forall|i: int|
            0 <= i < n && (#[trigger] games[i]).confidence == level ==> ids_at(games, level, n).contains(games[i].id),
        forall|k: int|
            0 <= k < ids_at(games, level, n).len() ==> is_at(games, level, #[trigger] ids_at(games, level, n)[k]),
    decreases n,
{
    if n > 0 {
        let before = ids_at(games, level, n - 1);
        let all = ids_at(games, level, n);
        law_groups_are_by_level(games, level, n - 1);
        assert forall|i: int| 0 <= i < n && (#[trigger] games[i]).confidence == level implies all.contains(
            games[i].id,
        ) by {
            if i < n - 1 {
                let k = choose|k: int| 0 <= k < before.len() && before[k] == games[i].id;
                assert(all[k] == games[i].id);
            } else {
                assert(has_level(games, games[i].id, level));
                assert(all[before.len() as int] == games[i].id);
            }
        }
        assert forall|k: int| 0 <= k < all.len() implies is_at(games, level, #[trigger] all[k]) by {
            if k < before.len() {
                assert(is_at(games, level, before[k]));
            } else {
                let i = choose|i: int|
                    0 <= i < games.len() && (#[trigger] games[i]).id == games[n - 1].id && games[i].confidence == level;
                assert(games[i].id == all[k]);
            }
        }
    }
}

pub open spec fn is_at(games: Seq<backend::CandidateView>, level: Seq<char>, id: Seq<char>) -> bool {
    exists|i: int| 0 <= i < games.len() && (#[trigger] games[i]).id == id && games[i].confidence == level
}

/// A game is imported under its name and with its runner, and with whatever else is known of it.
pub proof fn law_imports_say_what_is_known(game: backend::CandidateView)
    ensures
        import_fields(game).contains(("name"@, game.name)),
        import_fields(game).contains(("runner"@, game.runner)),
        game.exe.len() > 0 ==> import_fields(game).contains(("exe"@, game.exe)),
        game.appid.len() > 0 ==> import_fields(game).contains(("appid"@, game.appid)),
        game.prefix.len() > 0 ==> import_fields(game).contains(("prefix"@, game.prefix)),
        game.working_dir.len() > 0 ==> import_fields(game).contains(("working_dir"@, game.working_dir)),
        import_fields(game).len() == 2 + one_if(game.exe) + one_if(game.appid) + one_if(game.prefix) + one_if(
            game.working_dir,
        ),
{
    let all = import_fields(game);
    let a = 2 + one_if(game.exe);
    let b = a + one_if(game.appid);
    let c = b + one_if(game.prefix);
    assert(all[0] == ("name"@, game.name) && all[1] == ("runner"@, game.runner));
    if game.exe.len() > 0 {
        assert(all[2] == ("exe"@, game.exe));
    }
    if game.appid.len() > 0 {
        assert(all[a] == ("appid"@, game.appid));
    }
    if game.prefix.len() > 0 {
        assert(all[b] == ("prefix"@, game.prefix));
    }
    if game.working_dir.len() > 0 {
        assert(all[c] == ("working_dir"@, game.working_dir));
    }
}

pub open spec fn one_if(text: Seq<char>) -> int {
    if text.len() > 0 {
        1
    } else {
        0
    }
}

/// What the window hears changes what it is about: a message that something failed leaves everything else as it was, a
/// line is added to the log, and an end frees the window and says how it went.
pub proof fn law_window_takes_what_it_hears(session: SessionView, message: String, ok: bool, phase: backend::Phase)
    ensures
        after_update(session, backend::Update::Libraries(Err(message))) == (SessionView {
            error: Some(message@),
            ..session
        }),
        after_update(session, backend::Update::Candidates(Err(message))) == (SessionView {
            error: Some(message@),
            ..session
        }),
        after_update(session, backend::Update::Storage(Err(message))) == (SessionView { error: Some(message@),
            ..session }),
        after_update(session, backend::Update::Line(message)).log == session.log.push(message@),
        after_update(session, backend::Update::Event(phase)).phase == Some(phase),
        !after_update(session, backend::Update::Done(ok)).busy,
        after_update(session, backend::Update::Done(ok)).finished == Some(ok),
        session.screen is Review ==> after_update(session, backend::Update::Done(ok)).review_ok == Some(ok),
        !(session.screen is Review) ==> after_update(session, backend::Update::Done(ok)).review_ok == session.review_ok,
        after_update(session, backend::Update::Plan(Err(message))).plan is None,
{
}

/// What the tool says it is doing is understood by its word, and it can be stopped until it switches over.
pub proof fn law_phases_are_known_by_their_words(value: JsonView, phase: &backend::Phase, can: bool)
    requires
        call_ensures(backend::Phase::can_stop, (phase,), can),
    ensures
        value.text_at("event"@) == Some("preparing"@) ==> backend::phase_of(value) == Some(backend::Phase::Preparing),
        value.text_at("event"@) == Some("verifying"@) ==> backend::phase_of(value) == Some(backend::Phase::Verifying),
        value.text_at("event"@) == Some("committing"@) ==> backend::phase_of(value) == Some(backend::Phase::Committing),
        value.text_at("event"@) == Some("applied"@) ==> backend::phase_of(value) == Some(backend::Phase::Applied),
        value.text_at("event"@) == Some("copying"@) ==> backend::phase_of(value) is Some && backend::phase_of(value)->0
            is Copying,
        value.text_at("event"@) == Some("progress"@) ==> backend::phase_of(value) is Some && backend::phase_of(value)->0
            is Progress,
        value.text_at("event"@) is None ==> backend::phase_of(value) is None,
        can <==> *phase is Preparing || *phase is Copying || *phase is Progress || *phase is Verifying,
{
    lemma_phases();
}

proof fn lemma_phases()
    ensures
        "preparing"@.len() == 9 && "copying"@.len() == 7 && "progress"@.len() == 8,
        "verifying"@.len() == 9 && "committing"@.len() == 10 && "applied"@.len() == 7,
        "preparing"@[0] == 'p' && "verifying"@[0] == 'v' && "copying"@[0] == 'c' && "applied"@[0] == 'a',
{
    assert("preparing"@.len() == 9 && "preparing"@[0] == 'p') by {
        reveal_strlit("preparing");
    }
    assert("copying"@.len() == 7 && "copying"@[0] == 'c') by {
        reveal_strlit("copying");
    }
    assert("progress"@.len() == 8) by {
        reveal_strlit("progress");
    }
    assert("verifying"@.len() == 9 && "verifying"@[0] == 'v') by {
        reveal_strlit("verifying");
    }
    assert("committing"@.len() == 10) by {
        reveal_strlit("committing");
    }
    assert("applied"@.len() == 7 && "applied"@[0] == 'a') by {
        reveal_strlit("applied");
    }
}

/// The window looks for games in each of its folders, and for those that Lutris has only where it is asked to.
pub proof fn law_window_looks_in_every_folder(roots: Seq<Seq<char>>, known: bool, i: int)
    ensures
        backend::candidate_arguments(Seq::empty(), true) == seq!["lutris"@, "scan"@, "--json"@, "--all"@],
        backend::candidate_arguments(Seq::empty(), false) == seq!["lutris"@, "scan"@, "--json"@],
        0 <= i < roots.len() ==> exists|at: int|
            0 <= at < backend::candidate_arguments(roots, known).len() - 1 && backend::candidate_arguments(
                roots,
                known,
            )[at] == "--root"@ && backend::candidate_arguments(roots, known)[at + 1] == #[trigger] roots[i]
                && is_place(at),
    decreases roots.len(),
{
    if 0 <= i < roots.len() {
        let front = roots.drop_last();
        let before = backend::candidate_arguments(front, known);
        let all = backend::candidate_arguments(roots, known);
        if i < front.len() {
            assert(front[i] == roots[i]);
            law_window_looks_in_every_folder(front, known, i);
            let at = choose|at: int|
                0 <= at < before.len() - 1 && before[at] == "--root"@ && before[at + 1] == front[i]
                    && #[trigger] is_place(
                    at,
                );
            assert(all[at] == before[at] && all[at + 1] == before[at + 1]);
            assert(is_place(at));
        } else {
            let at = before.len() as int;
            assert(all[at] == "--root"@ && all[at + 1] == roots[i]);
            assert(is_place(at));
        }
    }
}

pub open spec fn is_place(at: int) -> bool {
    at >= 0
}

} // verus!
