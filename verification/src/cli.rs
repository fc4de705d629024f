//! Reading the command line.

use vstd::prelude::*;

use crate::commands::Options;
use crate::path::{paths_view, FilePath};
use crate::state::held_path;
use crate::text::{add_text, same, starts_with, texts};
use crate::walk::names_view;

verus! {

pub struct OptionsView {
    pub steam_root: Option<Seq<u8>>,
    pub data_dir: Option<Seq<u8>>,
    pub json: bool,
    pub dry_run: bool,
    pub force: bool,
    pub assume_yes: bool,
    pub roots: Seq<Seq<u8>>,
    pub candidates: Seq<Seq<char>>,
    pub output: Option<Seq<u8>>,
    pub plan: Option<Seq<u8>>,
    pub entry: Option<Seq<char>>,
    pub all: bool,
    pub expect: Option<Seq<char>>,
    pub record: Option<Seq<char>>,
    pub keep_destination: bool,
    pub replace_destination: bool,
}

pub open spec fn held_text(text: Option<String>) -> Option<Seq<char>> {
    match text {
        Some(text) => Some(text@),
        None => None,
    }
}

impl View for Options {
    type V = OptionsView;

    open spec fn view(&self) -> OptionsView {
        OptionsView {
            steam_root: held_path(self.steam_root),
            data_dir: held_path(self.data_dir),
            json: self.json,
            dry_run: self.dry_run,
            force: self.force,
            assume_yes: self.assume_yes,
            roots: paths_view(self.roots@),
            candidates: texts(self.candidates@),
            output: held_path(self.output),
            plan: held_path(self.plan),
            entry: held_text(self.entry),
            all: self.all,
            expect: held_text(self.expect),
            record: held_text(self.record),
            keep_destination: self.keep_destination,
            replace_destination: self.replace_destination,
        }
    }
}

/// Nothing asked for.
pub open spec fn no_options() -> OptionsView {
    OptionsView {
        steam_root: None,
        data_dir: None,
        json: false,
        dry_run: false,
        force: false,
        assume_yes: false,
        roots: Seq::empty(),
        candidates: Seq::empty(),
        output: None,
        plan: None,
        entry: None,
        all: false,
        expect: None,
        record: None,
        keep_destination: false,
        replace_destination: false,
    }
}

/// What a command line asks for.
#[derive(Debug)]
pub enum Request {
    Help,
    Version,
    /// It cannot be understood.
    Misused { problem: String },
    Run { options: Options, positional: Vec<String> },
}

pub enum RequestView {
    Help,
    Version,
    Misused { problem: Seq<char> },
    Run { options: OptionsView, positional: Seq<Seq<char>> },
}

impl View for Request {
    type V = RequestView;

    open spec fn view(&self) -> RequestView {
        match *self {
            Request::Help => RequestView::Help,
            Request::Version => RequestView::Version,
            Request::Misused { problem } => RequestView::Misused { problem: problem@ },
            Request::Run { options, positional } => RequestView::Run {
                options: options@,
                positional: texts(positional@),
            },
        }
    }
}

/// The options that stand alone.
pub open spec fn with_switch(options: OptionsView, argument: Seq<char>) -> Option<OptionsView> {
    if argument == "--json"@ {
        Some(OptionsView { json: true, ..options })
    } else if argument == "-n"@ || argument == "--dry-run"@ {
        Some(OptionsView { dry_run: true, ..options })
    } else if argument == "-y"@ || argument == "--yes"@ {
        Some(OptionsView { assume_yes: true, ..options })
    } else if argument == "--force"@ {
        Some(OptionsView { force: true, ..options })
    } else if argument == "--all"@ {
        Some(OptionsView { all: true, ..options })
    } else if argument == "--keep-destination"@ {
        Some(OptionsView { keep_destination: true, ..options })
    } else if argument == "--replace-destination"@ {
        Some(OptionsView { replace_destination: true, ..options })
    } else {
        None
    }
}

/// The options that take a value. One that names a path keeps the bytes it was given.
pub open spec fn with_value(
    options: OptionsView,
    argument: Seq<char>,
    value: Seq<char>,
    raw: Seq<u8>,
) -> OptionsView {
    if argument == "--steam-root"@ {
        OptionsView { steam_root: Some(raw), ..options }
    } else if argument == "--data-dir"@ {
        OptionsView { data_dir: Some(raw), ..options }
    } else if argument == "--root"@ {
        OptionsView { roots: options.roots.push(raw), ..options }
    } else if argument == "--candidate"@ {
        OptionsView { candidates: options.candidates.push(value), ..options }
    } else if argument == "--output"@ {
        OptionsView { output: Some(raw), ..options }
    } else if argument == "--plan"@ {
        OptionsView { plan: Some(raw), ..options }
    } else if argument == "--expect"@ {
        OptionsView { expect: Some(value), ..options }
    } else if argument == "--record"@ {
        OptionsView { record: Some(value), ..options }
    } else {
        OptionsView { entry: Some(value), ..options }
    }
}

pub open spec fn takes_value(argument: Seq<char>) -> bool {
    ||| argument == "--steam-root"@
    ||| argument == "--data-dir"@
    ||| argument == "--root"@
    ||| argument == "--candidate"@
    ||| argument == "--output"@
    ||| argument == "--plan"@
    ||| argument == "--entry"@
    ||| argument == "--expect"@
    ||| argument == "--record"@
}

/// What the arguments from place `i` on add to what was read before.
pub open spec fn read_from(
    arguments: Seq<Seq<char>>,
    raw: Seq<Seq<u8>>,
    i: int,
    options: OptionsView,
    positional: Seq<Seq<char>>,
) -> RequestView
    decreases arguments.len() - i,
{
    if i >= arguments.len() {
        RequestView::Run { options, positional }
    } else {
        let argument = arguments[i];
        if argument == "-h"@ || argument == "--help"@ {
            RequestView::Help
        } else if argument == "-V"@ || argument == "--version"@ {
            RequestView::Version
        } else if with_switch(options, argument) is Some {
            read_from(arguments, raw, i + 1, with_switch(options, argument)->0, positional)
        } else if takes_value(argument) {
            if i + 1 >= arguments.len() {
                RequestView::Misused { problem: argument + " needs a value"@ }
            } else {
                read_from(
                    arguments,
                    raw,
                    i + 2,
                    with_value(options, argument, arguments[i + 1], raw[i + 1]),
                    positional,
                )
            }
        } else if "-"@.is_prefix_of(argument) {
            RequestView::Misused { problem: "unknown option '"@ + argument + "'"@ }
        } else {
            read_from(arguments, raw, i + 1, options, positional.push(argument))
        }
    }
}

/// What a command line asks for, taken as a whole: a flag that means nothing to the command, or two that
/// contradict each other, is a mistake worth reporting.
pub open spec fn request_of(arguments: Seq<Seq<char>>, raw: Seq<Seq<u8>>) -> RequestView {
    match read_from(arguments, raw, 0, no_options(), Seq::empty()) {
        RequestView::Run { options, positional } => match misplaced(positional, arguments) {
            Some(problem) => RequestView::Misused { problem },
            None => if options.keep_destination && options.replace_destination {
                RequestView::Misused {
                    problem:
                        "--keep-destination and --replace-destination cannot both be given: they are opposite answers to the same question."@,
                }
            } else {
                RequestView::Run { options, positional }
            },
        },
        other => other,
    }
}

/// The flags that every command takes.
pub open spec fn taken_everywhere(flag: Seq<char>) -> bool {
    ||| flag == "--json"@
    ||| flag == "-n"@
    ||| flag == "--dry-run"@
    ||| flag == "--steam-root"@
    ||| flag == "--data-dir"@
}

/// Does the command take the flag, beyond those that every command takes? Nothing where there is no such
/// command.
pub open spec fn takes_flag(command: Seq<char>, sub: Seq<char>, flag: Seq<char>) -> Option<bool> {
    let yes = flag == "-y"@ || flag == "--yes"@;
    if command == "scan"@ || command == "storage"@ {
        Some(false)
    } else if command == "fix"@ {
        Some(
            yes || flag == "--force"@ || flag == "--expect"@ || flag == "--keep-destination"@ || flag
                == "--replace-destination"@,
        )
    } else if command == "undo"@ || command == "backup"@ {
        Some(yes)
    } else if command == "evidence"@ {
        Some(flag == "--record"@)
    } else if command == "lutris"@ && sub == "scan"@ {
        Some(flag == "--root"@ || flag == "--all"@)
    } else if command == "lutris"@ && sub == "detect"@ {
        Some(false)
    } else if command == "lutris"@ && sub == "plan"@ {
        Some(flag == "--root"@ || flag == "--candidate"@ || flag == "--output"@)
    } else if command == "lutris"@ && sub == "import"@ {
        Some(yes || flag == "--plan"@)
    } else if command == "lutris"@ && sub == "forget"@ {
        Some(flag == "--entry"@)
    } else {
        None
    }
}

pub open spec fn offends(command: Seq<char>, sub: Seq<char>, argument: Seq<char>) -> bool {
    "-"@.is_prefix_of(argument) && !taken_everywhere(argument) && takes_flag(command, sub, argument)
        == Some(false)
}

/// The first argument that is a flag which the command does not take.
pub open spec fn offender(command: Seq<char>, sub: Seq<char>, arguments: Seq<Seq<char>>) -> Option<
    Seq<char>,
>
    decreases arguments.len(),
{
    if arguments.len() == 0 {
        None
    } else if offends(command, sub, arguments[0]) {
        Some(arguments[0])
    } else {
        offender(command, sub, arguments.skip(1))
    }
}

pub open spec fn subcommand(positional: Seq<Seq<char>>) -> Seq<char> {
    if positional.len() > 1 {
        positional[1]
    } else {
        ""@
    }
}

pub open spec fn misplaced(positional: Seq<Seq<char>>, arguments: Seq<Seq<char>>) -> Option<Seq<char>> {
    if positional.len() == 0 {
        None
    } else {
        let command = positional[0];
        let sub = subcommand(positional);
        match offender(command, sub, arguments) {
            Some(flag) => {
                let name = if sub.len() == 0 {
                    command
                } else {
                    command + " "@ + sub
                };
                Some(
                    "`"@ + name + "` does not take "@ + flag
                        + ". Run `librarybridge --help` to see what it does take."@,
                )
            },
            None => None,
        }
    }
}

fn is_everywhere(flag: &str) -> (is: bool)
    ensures
        is == taken_everywhere(flag@),
{
    same(flag, "--json") || same(flag, "-n") || same(flag, "--dry-run") || same(
        flag,
        "--steam-root",
    ) || same(flag, "--data-dir")
}

fn command_takes(command: &str, sub: &str, flag: &str) -> (takes: Option<bool>)
    ensures
        takes == takes_flag(command@, sub@, flag@),
{
    let yes = same(flag, "-y") || same(flag, "--yes");
    if same(command, "scan") || same(command, "storage") {
        Some(false)
    } else if same(command, "fix") {
        Some(
            yes || same(flag, "--force") || same(flag, "--expect") || same(flag, "--keep-destination")
                || same(flag, "--replace-destination"),
        )
    } else if same(command, "undo") || same(command, "backup") {
        Some(yes)
    } else if same(command, "evidence") {
        Some(same(flag, "--record"))
    } else if same(command, "lutris") && same(sub, "scan") {
        Some(same(flag, "--root") || same(flag, "--all"))
    } else if same(command, "lutris") && same(sub, "detect") {
        Some(false)
    } else if same(command, "lutris") && same(sub, "plan") {
        Some(same(flag, "--root") || same(flag, "--candidate") || same(flag, "--output"))
    } else if same(command, "lutris") && same(sub, "import") {
        Some(yes || same(flag, "--plan"))
    } else if same(command, "lutris") && same(sub, "forget") {
        Some(same(flag, "--entry"))
    } else {
        None
    }
}

/// What is said of a flag that means nothing to the command asked for.
pub fn misplaced_flags(positional: &Vec<String>, arguments: &Vec<String>) -> (problem: Option<String>)
    ensures
        held_text(problem) == misplaced(texts(positional@), texts(arguments@)),
{
    let ghost words = texts(positional@);
    let ghost all = texts(arguments@);
    if positional.len() == 0 {
        return None;
    }
    assert(words[0] == positional@[0]@);
    let command = positional[0].as_str();
    let none = "".to_string();
    let sub = if positional.len() > 1 {
        assert(words[1] == positional@[1]@);
        positional[1].as_str()
    } else {
        none.as_str()
    };
    let mut i: usize = 0;
    assert(all.skip(0) =~= all);
    while i < arguments.len()
        invariant
            i <= arguments.len(),
            all == texts(arguments@),
            words == texts(positional@),
            positional@.len() > 0,
            command@ == words[0],
            sub@ == subcommand(words),
            offender(command@, sub@, all) == offender(command@, sub@, all.skip(i as int)),
        decreases arguments.len() - i,
    {
        assert(all.skip(i as int)[0] == arguments@[i as int]@);
        assert(all.skip(i as int).skip(1) =~= all.skip(i + 1));
        let argument = arguments[i].as_str();
        if starts_with(argument, "-") && !is_everywhere(argument) {
            if let Some(false) = command_takes(command, sub, argument) {
                let mut text = "`".to_string();
                let mut name = command.to_string();
                if sub.unicode_len() > 0 {
                    name.push_str(" ");
                    name.push_str(sub);
                }
                text.push_str(name.as_str());
                text.push_str("` does not take ");
                text.push_str(argument);
                text.push_str(". Run `librarybridge --help` to see what it does take.");
                return Some(text);
            }
        }
        i = i + 1;
    }
    None
}

impl Options {
    pub fn new() -> (options: Options)
        ensures
            options@ == no_options(),
    {
        let options = Options {
            steam_root: None,
            data_dir: None,
            json: false,
            dry_run: false,
            force: false,
            assume_yes: false,
            roots: Vec::new(),
            candidates: Vec::new(),
            output: None,
            plan: None,
            entry: None,
            all: false,
            expect: None,
            record: None,
            keep_destination: false,
            replace_destination: false,
        };
        assert(paths_view(options.roots@) =~= Seq::empty());
        assert(texts(options.candidates@) =~= Seq::empty());
        options
    }

    fn switch(&mut self, argument: &str) -> (known: bool)
        ensures
            known == (with_switch(old(self)@, argument@) is Some),
            final(self)@ == if known {
                with_switch(old(self)@, argument@)->0
            } else {
                old(self)@
            },
    {
        if same(argument, "--json") {
            self.json = true;
        } else if same(argument, "-n") || same(argument, "--dry-run") {
            self.dry_run = true;
        } else if same(argument, "-y") || same(argument, "--yes") {
            self.assume_yes = true;
        } else if same(argument, "--force") {
            self.force = true;
        } else if same(argument, "--all") {
            self.all = true;
        } else if same(argument, "--keep-destination") {
            self.keep_destination = true;
        } else if same(argument, "--replace-destination") {
            self.replace_destination = true;
        } else {
            return false;
        }
        true
    }

    fn set(&mut self, argument: &str, value: &str, raw: &[u8])
        ensures
            final(self)@ == with_value(old(self)@, argument@, value@, raw@),
    {
        if same(argument, "--steam-root") {
            self.steam_root = Some(FilePath::from_bytes(raw));
        } else if same(argument, "--data-dir") {
            self.data_dir = Some(FilePath::from_bytes(raw));
        } else if same(argument, "--root") {
            let path = FilePath::from_bytes(raw);
            proof {
                crate::path::lemma_paths_push(self.roots@, path);
            }
            self.roots.push(path);
        } else if same(argument, "--candidate") {
            add_text(&mut self.candidates, value.to_string());
        } else if same(argument, "--output") {
            self.output = Some(FilePath::from_bytes(raw));
        } else if same(argument, "--plan") {
            self.plan = Some(FilePath::from_bytes(raw));
        } else if same(argument, "--expect") {
            self.expect = Some(value.to_string());
        } else if same(argument, "--record") {
            self.record = Some(value.to_string());
        } else {
            self.entry = Some(value.to_string());
        }
    }
}

fn is_value_taker(argument: &str) -> (is: bool)
    ensures
        is == takes_value(argument@),
{
    same(argument, "--steam-root") || same(argument, "--data-dir") || same(argument, "--root") || same(
        argument,
        "--candidate",
    ) || same(argument, "--output") || same(argument, "--plan") || same(argument, "--entry") || same(
        argument,
        "--expect",
    ) || same(argument, "--record")
}

fn read(arguments: &Vec<String>, raw: &Vec<Vec<u8>>) -> (request: Request)
    requires
        arguments@.len() == raw@.len(),
    ensures
        request@ == read_from(
            texts(arguments@),
            names_view(raw@),
            0,
            no_options(),
            Seq::empty(),
        ),
{
    let ghost words = texts(arguments@);
    let ghost bytes = names_view(raw@);
    let ghost wanted = read_from(words, bytes, 0, no_options(), Seq::empty());
    let mut options = Options::new();
    let mut positional: Vec<String> = Vec::new();
    let mut i: usize = 0;
    assert(texts(positional@) =~= Seq::empty());
    while i < arguments.len()
        invariant
            i <= arguments.len(),
            arguments@.len() == raw@.len(),
            words == texts(arguments@),
            bytes == names_view(raw@),
            wanted == read_from(words, bytes, 0, no_options(), Seq::empty()),
            wanted == read_from(words, bytes, i as int, options@, texts(positional@)),
        decreases arguments.len() - i,
    {
        assert(words[i as int] == arguments@[i as int]@);
        let argument = arguments[i].as_str();
        if same(argument, "-h") || same(argument, "--help") {
            return Request::Help;
        }
        if same(argument, "-V") || same(argument, "--version") {
            return Request::Version;
        }
        if options.switch(argument) {
            i = i + 1;
        } else if is_value_taker(argument) {
            if arguments.len() - i <= 1 {
                let mut problem = argument.to_string();
                problem.push_str(" needs a value");
                return Request::Misused { problem };
            }
            assert(words[i + 1] == arguments@[i + 1]@);
            assert(bytes[i + 1] == raw@[i + 1]@);
            options.set(argument, arguments[i + 1].as_str(), raw[i + 1].as_slice());
            i = i + 2;
        } else if starts_with(argument, "-") {
            let mut problem = "unknown option '".to_string();
            problem.push_str(argument);
            problem.push_str("'");
            return Request::Misused { problem };
        } else {
            add_text(&mut positional, argument.to_string());
            i = i + 1;
        }
    }
    Request::Run { options, positional }
}

/// Reads a command line: its arguments as text, and as the bytes they were given in.
pub fn parse(arguments: &Vec<String>, raw: &Vec<Vec<u8>>) -> (request: Request)
    requires
        arguments@.len() == raw@.len(),
    ensures
        request@ == request_of(texts(arguments@), names_view(raw@)),
{
    match read(arguments, raw) {
        Request::Run { options, positional } => {
            match misplaced_flags(&positional, arguments) {
                Some(problem) => return Request::Misused { problem },
                None => {},
            }
            if options.keep_destination && options.replace_destination {
                return Request::Misused {
                    problem:
                        "--keep-destination and --replace-destination cannot both be given: they are opposite answers to the same question.".to_string(),
                };
            }
            Request::Run { options, positional }
        },
        other => other,
    }
}

} // verus!
