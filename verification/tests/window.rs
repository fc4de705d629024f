use librarybridge::backend::{
    arguments_for_candidates, arguments_for_plan, candidates, describe_evidence, parse_event, record_evidence, run_result,
    Candidate, Library, Phase, Plan, Scan, Update,
};
use librarybridge::cli::{parse, Request};
use librarybridge::commands::Options;
use librarybridge::path::FilePath;
use librarybridge::window::{
    apply_arguments, candidate, confidence_heading, fields_for_import, games_status, group, including_field, libraries_status,
    may_apply, may_import, moving_field, offer, opening_screen, origin, review_arguments, review_note, space_field,
    state_badge, title_for, Action, Screen, Session,
};

fn texts(list: &[&str]) -> Vec<String> {
    list.iter().map(|text| text.to_string()).collect()
}

fn request(list: &[&str]) -> Request {
    let raw: Vec<Vec<u8>> = list.iter().map(|text| text.as_bytes().to_vec()).collect();
    parse(&texts(list), &raw)
}

fn problem(list: &[&str]) -> String {
    match request(list) {
        Request::Misused { problem } => problem,
        other => panic!("{other:?}"),
    }
}

fn run(list: &[&str]) -> (Options, Vec<String>) {
    match request(list) {
        Request::Run { options, positional } => (options, positional),
        other => panic!("{other:?}"),
    }
}

fn library(id: &str, state: &str) -> Library {
    let text = format!(r#"{{"schema": 1, "libraries": [{{"id": "{id}", "state": "{state}"}}]}}"#);
    librarybridge::backend::libraries(&text, &FilePath::new("/b")).unwrap().libraries.remove(0)
}

fn games() -> Vec<Candidate> {
    candidates(
        r#"{"candidates": [
            {"id": "g1", "name": "One", "runner": "wine", "source": "gog", "exe": "/g/one.exe", "confidence": "high"},
            {"id": "g2", "name": "Two", "runner": "linux", "source": "linux", "confidence": "low", "in_lutris": true},
            {"id": "g3", "name": "Three", "runner": "wine", "source": "folder", "confidence": "high"}]}"#,
    )
    .unwrap()
}

fn session() -> Session {
    Session {
        screen: Screen::Home,
        libraries: Vec::new(),
        warnings: Vec::new(),
        complete: true,
        candidates: Vec::new(),
        lutris: None,
        roots: Vec::new(),
        selected: Vec::new(),
        log: Vec::new(),
        busy: false,
        finished: None,
        error: None,
        review_ok: None,
        plan_id: None,
        plan: None,
        stored: Vec::new(),
        evidence: Vec::new(),
        phase: None,
    }
}

#[test]
fn unknown_arguments_are_rejected() {
    assert_eq!(problem(&["scan", "--bogus"]), "unknown option '--bogus'");
    assert_eq!(problem(&["scan", "--steam-root"]), "--steam-root needs a value");
}

#[test]
fn contradictory_conflict_flags_are_refused() {
    let words = problem(&["fix", "x", "--keep-destination", "--replace-destination"]);
    assert!(words.contains("cannot both be given"), "{words}");
}

#[test]
fn flags_are_checked_against_the_command() {
    assert_eq!(
        problem(&["scan", "--yes"]),
        "`scan` does not take --yes. Run `librarybridge --help` to see what it does take."
    );
    assert_eq!(
        problem(&["undo", "x", "--force"]),
        "`undo x` does not take --force. Run `librarybridge --help` to see what it does take."
    );
    let (options, positional) = run(&["--steam-root", "/s", "fix", "x", "-y", "--force", "--expect", "p"]);
    assert_eq!(positional, ["fix", "x"]);
    assert!(options.assume_yes && options.force && !options.dry_run);
    assert_eq!(options.expect.as_deref(), Some("p"));
    assert_eq!(options.steam_root, Some(FilePath::new("/s")));
    let (options, _) = run(&["lutris", "scan", "--root", "/a", "--root", "/b", "--all", "-n", "--json"]);
    assert_eq!(options.roots, [FilePath::new("/a"), FilePath::new("/b")]);
    assert!(options.all && options.dry_run && options.json);
    let (options, _) = run(&["evidence", "x", "--record", "launch=yes"]);
    assert_eq!(options.record.as_deref(), Some("launch=yes"));
}

#[test]
fn paths_keep_their_bytes() {
    let arguments = texts(&["--steam-root", "\u{fffd}", "scan"]);
    let raw = vec![b"--steam-root".to_vec(), vec![0xff], b"scan".to_vec()];
    match parse(&arguments, &raw) {
        Request::Run { options, .. } => assert_eq!(options.steam_root.unwrap().bytes, [0xff]),
        other => panic!("{other:?}"),
    }
}

#[test]
fn help_and_version_come_first() {
    assert!(matches!(request(&["scan", "--help", "--bogus"]), Request::Help));
    assert!(matches!(request(&["-V"]), Request::Version));
    let (_, positional) = run(&[]);
    assert!(positional.is_empty());
}

#[test]
fn a_window_opens_on_the_screen_it_is_told() {
    assert!(matches!(opening_screen("games"), Screen::Games));
    assert!(matches!(opening_screen("storage"), Screen::Storage));
    assert!(matches!(opening_screen("nothing"), Screen::Home));
}

#[test]
fn the_home_screen_counts() {
    assert_eq!(libraries_status(&Vec::new()), "Looking for Steam...");
    assert_eq!(libraries_status(&vec![library("a", "repaired")]), "1 found, nothing needs repair");
    assert_eq!(libraries_status(&vec![library("a", "repair_available")]), "1 library needs repair");
    let both = vec![library("a", "repair_available"), library("b", "interrupted")];
    assert_eq!(libraries_status(&both), "2 libraries need repair");
    assert_eq!(games_status(false, 1, &games()), "Lutris was not found");
    assert_eq!(games_status(true, 0, &games()), "Choose a folder to look in");
    assert_eq!(games_status(true, 1, &games()), "2 games are missing from Lutris");
}

#[test]
fn buttons_fit_the_state() {
    assert_eq!(offer(&library("a", "repair_available")), Some(Action::Fix));
    assert_eq!(offer(&library("a", "repaired")), Some(Action::Undo));
    assert_eq!(offer(&library("a", "dangling_link")), None);
    assert_eq!(title_for(Action::Fix, "Games"), "Repair Games");
    assert_eq!(title_for(Action::Undo, "Games"), "Move Games back");
    assert_eq!(state_badge("interrupted"), "unfinished");
    assert_eq!(state_badge("anything"), "check this one");
    assert_eq!(confidence_heading("high"), "Confident");
    assert_eq!(confidence_heading("low"), "Guesses, check before adding");
    assert!(may_import(1, false, true));
    assert!(!may_import(0, false, true) && !may_import(1, true, true) && !may_import(1, false, false));
}

#[test]
fn commands_are_spelled_as_the_tool_reads_them() {
    assert_eq!(review_arguments(Action::Undo, "x"), ["undo", "x", "--dry-run"]);
    let plan = Some("p".to_string());
    assert_eq!(apply_arguments(Action::Fix, "x", &plan), ["fix", "x", "--yes", "--expect", "p"]);
    assert_eq!(apply_arguments(Action::Undo, "x", &plan), ["undo", "x", "--yes"]);
    for list in [
        review_arguments(Action::Fix, "x"),
        apply_arguments(Action::Fix, "x", &plan),
        arguments_for_plan("x"),
        arguments_for_candidates(&texts(&["/g"]), true),
        record_evidence("x", "launch", "yes"),
    ] {
        let raw: Vec<Vec<u8>> = list.iter().map(|text| text.as_bytes().to_vec()).collect();
        assert!(matches!(parse(&list, &raw), Request::Run { .. }), "{list:?}");
    }
}

#[test]
fn output_and_errors_of_the_tool() {
    assert_eq!(run_result(true, "out".to_string(), "noise"), Ok("out".to_string()));
    assert_eq!(run_result(false, "out".to_string(), " why \n"), Err("why".to_string()));
    assert_eq!(run_result(false, "out".to_string(), " \n"), Err("out".to_string()));
    assert_eq!(parse_event(r#"{"event": "copying", "total_bytes": 9}"#), Some(Phase::Copying { total_bytes: 9 }));
    assert_eq!(parse_event("Copying..."), None);
    assert!(Phase::Verifying.can_stop() && !Phase::Committing.can_stop());
    assert!(!describe_evidence("launch").is_empty());
}

#[test]
fn games_are_grouped_by_confidence() {
    assert_eq!(group(&games(), "high"), ["g1", "g3"]);
    assert_eq!(group(&games(), "low"), ["g2"]);
    assert!(group(&games(), "medium").is_empty());
    assert_eq!(origin(&games()[0]), "wine runner, found from GOG metadata");
    assert_eq!(origin(&games()[2]), "wine runner, found from the folder contents");
    let fields = fields_for_import(&games()[0]);
    assert_eq!(fields[0], ("name".to_string(), "One".to_string()));
    assert_eq!(fields[2], ("exe".to_string(), "/g/one.exe".to_string()));
    assert_eq!(fields.len(), 3);
}

#[test]
fn a_plan_is_shown_in_numbers() {
    let plan = Plan {
        fingerprint: "p".to_string(),
        source: String::new(),
        destination: String::new(),
        backup: String::new(),
        copy_bytes: 2048,
        reserve_bytes: 1024,
        available_bytes: Some(8192),
        remaining_bytes: Some(6144),
        installed_games: 3,
        prefix_folders: 4,
        unknown_folders: texts(&["0", "9"]),
        consequences: Vec::new(),
    };
    assert_eq!(moving_field(&plan), "4 prefix folders for 3 installed games");
    assert_eq!(including_field(&plan), "2 with no installed game: 0, 9");
    assert_eq!(
        space_field(&plan),
        "2.0 KiB to copy plus 1.0 KiB spare, needs 3.0 KiB. 8.0 KiB free, 6.0 KiB left afterwards."
    );
}

#[test]
fn applying_waits_for_a_review_that_succeeded() {
    let mut session = session();
    session.review("x", Action::Fix, "Repair x".to_string());
    assert!(session.busy);
    assert!(!may_apply(session.busy, session.review_ok));
    assert!(!session.take(Update::Line("text".to_string())));
    assert!(session.take(Update::Done(true)));
    assert!(may_apply(session.busy, session.review_ok));
    session.review("x", Action::Fix, "Repair x".to_string());
    session.take(Update::Done(false));
    assert!(!may_apply(session.busy, session.review_ok));
    assert_eq!(
        review_note(session.review_ok, Action::Fix),
        "This library cannot be repaired as things stand. Nothing has been changed."
    );
    session.run("Repair x".to_string());
    session.take(Update::Done(true));
    assert_eq!((session.finished, session.review_ok), (Some(true), Some(false)));
}

#[test]
fn a_new_list_drops_selected_games_that_are_gone() {
    let mut session = session();
    session.selected = texts(&["g3", "gone"]);
    session.take(Update::Candidates(Ok(games())));
    assert_eq!(session.selected, ["g3"]);
    session.take(Update::Candidates(Err("why".to_string())));
    assert_eq!(session.error.as_deref(), Some("why"));
    assert_eq!(session.candidates.len(), 3);
    let scan = Scan { libraries: Vec::new(), warnings: texts(&["w"]), complete: false };
    session.take(Update::Libraries(Ok(scan)));
    assert!(!session.complete);
    assert_eq!(session.warnings, ["w"]);
}

#[test]
fn folders_are_taken_on_once() {
    let mut session = session();
    assert!(session.add_root("/g".to_string(), true));
    assert!(!session.add_root("/g".to_string(), true));
    assert!(!session.add_root("/nowhere".to_string(), false));
    assert_eq!(session.error.as_deref(), Some("/nowhere is not a folder"));
    assert_eq!(session.roots, ["/g"]);
}

#[test]
fn an_edited_game_stands_for_the_one_that_was_found() {
    let mut edits = games();
    edits.truncate(1);
    edits[0].name = "Renamed".to_string();
    assert_eq!(candidate(&edits, &games(), "g1").unwrap().name, "Renamed");
    assert_eq!(candidate(&edits, &games(), "g3").unwrap().name, "Three");
    assert!(candidate(&edits, &games(), "g9").is_none());
}
