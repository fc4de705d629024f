use librarybridge::backend;
use librarybridge::checks::{
    check_link, check_probe, compare_originals, conflict_message, digest_event, existing_ancestor, file_name, first_ten, is_own_probe, is_yes, list_links,
    plan_event, preflight, probe_name, record_event,
};
use librarybridge::commands::{
    advice, blocking_reason, is_worth_listing, leftover_path, live_path, scan, scan_json, storage, storage_json, Listed,
    Measured, Stored,
};
use librarybridge::document::{block, page, row, Node};
use librarybridge::evidence::{parse_answer, parse_result, Evidence, Result_};
use librarybridge::fsops::{manifest_digest, Entry, Kind as EntryKind, Manifest};
use librarybridge::json::{parse, quote};
use librarybridge::lock::{holder, judge, lock_contents, Claim, Lock};
use librarybridge::path::FilePath;
use librarybridge::protocol::Event;
use librarybridge::plan::{describe, plan_fingerprint, plan_json, unknown_folders, Plan};
use librarybridge::record::{path_for, Record, Stage};
use librarybridge::safefs::{contains, directories_to_open, may_remove, resolves_beneath, same_directory, Kind, Opened, Resolution};
use librarybridge::state::{inspect, Report, Seen, Sight, State};
use librarybridge::steam::{libraries, Install, InstallKind, Library, Places, Spot};
use librarybridge::system::{parse_mountinfo_line, Mount};

fn path(text: &str) -> FilePath {
    FilePath::new(text)
}

fn texts(list: &[&str]) -> Vec<String> {
    list.iter().map(|text| text.to_string()).collect()
}

fn install() -> Install {
    Install { kind: InstallKind::Native, root: path("/s") }
}

fn library() -> Library {
    let places = Places { native: path("/d"), chosen: None };
    let spot = Spot {
        label: "Ga\"mes".to_string(),
        connected: true,
        resolved: path("/mnt/g"),
        capital_steamapps: false,
        steamapps: true,
    };
    libraries(&install(), &places, &vec![spot]).remove(0)
}

fn ntfs() -> Mount {
    parse_mountinfo_line("1 0 8:1 / /mnt rw - ntfs3 /dev/b rw").unwrap()
}

fn report(compatdata: Seen) -> Report {
    let sight = Sight {
        steamapps_names: Vec::new(),
        root_names: Vec::new(),
        beside_names: Vec::new(),
        destination_exists: false,
        compatdata,
    };
    inspect(&library(), &sight)
}

fn plan() -> Plan {
    let library = library();
    let report = report(Seen::Dir { inside: 2 });
    let fingerprint = plan_fingerprint(&library, &report, &library.target(), 3, 4096, "");
    Plan {
        target: library.target(),
        backup: library.steamapps.join_text("compatdata.backup"),
        previous: path("/d/previous"),
        copy_bytes: 4096,
        available: Some(10_000),
        installed_games: 1,
        prefixes: 2,
        unknown: texts(&["0", "77"]),
        hard_linked: 1,
        fingerprint,
    }
}

#[test]
fn quoted_text_is_read_back() {
    for text in ["", "plain", "a \"b\" \\ c", "line\nfeed\ttab\r", "\u{1}\u{1f}", "日本 \u{1f600}"] {
        let read = parse(&quote(text)).unwrap();
        assert_eq!(read.as_str(), Some(text));
        assert_eq!(serde_json::from_str::<String>(&quote(text)).unwrap(), text);
    }
    assert_eq!(quote("\u{1}"), "\"\\u0001\"");
}

#[test]
fn json_values_are_looked_up_by_key() {
    let value = parse(r#"{"a": "x", "n": 7, "f": -1.5, "b": true, "l": ["p", 2], "a": "y"}"#).unwrap();
    assert_eq!(value.string("a").as_deref(), Some("y"));
    assert_eq!(value.count("n"), Some(7));
    assert_eq!(value.count("f"), None);
    assert_eq!(value.flag("b"), Some(true));
    assert_eq!(value.as_array("l").len(), 2);
    assert!(value.get("none").is_none());
    assert!(value.as_array("a").is_empty());
    assert!(parse("{").is_err());
}

#[test]
fn a_record_is_read_back() {
    let mut record = Record {
        library_id: "abcd1234".to_string(),
        source: path("/mnt/g/steamapps/compatdata"),
        destination: path("/d/x/compatdata"),
        backup: path("/mnt/g/steamapps/compatdata.backup"),
        digest: "00ff".to_string(),
        stage: Stage::Verified,
    };
    let text = record.advance(Stage::Published);
    assert_eq!(record.stage, Stage::Published);
    assert_eq!(text, record.document());
    let read = Record::load(&text).unwrap();
    assert_eq!(read.library_id, "abcd1234");
    assert_eq!((read.source, read.destination, read.backup), (record.source, record.destination, record.backup));
    assert_eq!((read.digest.as_str(), read.stage), ("00ff", Stage::Published));
    assert!(Record::load("{}").is_none());
    assert!(Record::load("not a document").is_none());
    for stage in [Stage::Verified, Stage::Published, Stage::BackedUp] {
        assert_eq!(Stage::parse(stage.label()), Some(stage));
    }
    assert_eq!(Stage::parse("done"), None);
    assert!(path_for(&path("/d/librarybridge"), "abcd1234").display().contains("abcd1234"));
}

#[test]
fn evidence_is_read_back_and_shown() {
    let mut evidence = Evidence::load(None);
    evidence.record("save", Result_::Failed, 42, false).unwrap();
    evidence.record("files", Result_::Worked, 41, true).unwrap();
    let text = evidence.document();
    assert!(serde_json::from_str::<serde_json::Value>(&text).is_ok(), "{text}");
    let read = Evidence::load(Some(&text));
    for field in ["files", "launch", "save", "cloud"] {
        assert_eq!(read.get(field).result, evidence.get(field).result);
        assert_eq!(read.get(field).when, evidence.get(field).when);
        assert_eq!(read.get(field).by_tool, evidence.get(field).by_tool);
    }
    assert_eq!(Evidence::load(Some("nonsense")).get("save").result, Result_::NotChecked);
    assert_eq!(
        evidence.record("sound", Result_::Worked, 1, false).unwrap_err(),
        "'sound' is not one of the things recorded here: files, launch, save, cloud"
    );
    assert_eq!(evidence.lines().len(), 4);
    let rows = backend::evidence(&evidence.json("abcd1234")).unwrap();
    assert_eq!(rows.len(), 4);
    assert_eq!((rows[0].field.as_str(), rows[0].by_tool), ("files", true));
    assert_eq!(rows[2].field, "save");
}

#[test]
fn answers_are_yes_no_or_na() {
    assert_eq!(parse_answer("launch=yes").unwrap(), ("launch".to_string(), Result_::Worked));
    assert_eq!(parse_answer("launch=no").unwrap().1, Result_::Failed);
    assert_eq!(parse_answer("cloud=na").unwrap().1, Result_::NotApplicable);
    assert_eq!(parse_answer("launch=maybe").unwrap_err(), "'maybe' is not an answer. Say yes, no or na");
    assert!(parse_answer("launch").unwrap_err().contains("for example launch=yes"));
}

#[test]
fn locks_name_their_holder() {
    let lock = Lock::of(&path("/d"), "abcd1234");
    assert_eq!(holder(&lock_contents(77)), Some(77));
    assert_eq!(holder("nobody"), None);
    assert!(matches!(judge(&lock.path, Some(7), Some(false)), Claim::Reclaim));
    match judge(&lock.path, Some(7), Some(true)) {
        Claim::Refuse { message } => assert_eq!(
            message,
            "another LibraryBridge operation is working on this library (process 7). Wait for it to finish, or close the other window."
        ),
        Claim::Reclaim => panic!("a lock that is held was taken"),
    }
    assert!(matches!(judge(&lock.path, None, None), Claim::Refuse { .. }));
    assert!(matches!(judge(&lock.path, Some(7), None), Claim::Refuse { .. }));
}

#[test]
fn identity_sees_through_two_names_for_one_directory() {
    let at = |inode: u64| Opened::Is { identity: (1, inode) };
    assert_eq!(same_directory(&at(5), &at(5)), Ok(true));
    assert_eq!(same_directory(&at(5), &at(6)), Ok(false));
    assert_eq!(same_directory(&Opened::Closed, &at(6)), Ok(false));
    assert_eq!(same_directory(&Opened::Silent { error: "why".to_string() }, &at(6)), Err("why".to_string()));
    assert_eq!(contains(&at(5), &vec![at(7), at(5), at(2)]), Ok(true));
    assert_eq!(contains(&at(5), &vec![at(7), at(2)]), Ok(false));
    assert_eq!(contains(&Opened::Closed, &vec![at(7)]), Ok(false));
}

#[test]
fn a_link_leads_to_the_directories_of_its_target() {
    // /tmp/alias leads to /data/outer/real, and nothing is at /tmp/alias/new yet.
    let resolved = vec![None, Some(path("/data/outer/real")), Some(path("/tmp")), Some(path("/"))];
    let way = directories_to_open(&resolved);
    assert_eq!(way, [path("/data/outer/real"), path("/data/outer"), path("/data"), path("/")]);
    let number = |dir: &FilePath| match dir.display().as_str() {
        "/data/outer" => 5,
        "/data/outer/real" => 6,
        other => other.len() as u64 + 100,
    };
    let opened = way.iter().map(|dir| Opened::Is { identity: (1, number(dir)) }).collect();
    assert_eq!(contains(&Opened::Is { identity: (1, 5) }, &opened), Ok(true));
    assert!(directories_to_open(&vec![None, None]).is_empty());
}

#[test]
fn removing_a_link_refuses_anything_that_is_not_one() {
    assert!(may_remove(&path("/d"), &path("link"), Kind::Symlink).is_ok());
    let refusal = may_remove(&path("/d"), &path("data"), Kind::Directory).unwrap_err();
    assert!(refusal.contains("found a directory"), "{refusal}");
    assert_eq!(refusal, "/d/data: expected a symlink and found a directory. Nothing was removed.");
}

#[test]
fn reports_what_a_name_is_without_following_it() {
    assert_eq!(Kind::of_mode(0o040755), Kind::Directory);
    assert_eq!(Kind::of_mode(0o100644), Kind::File);
    assert_eq!(Kind::of_mode(0o120777), Kind::Symlink);
    assert_eq!(Kind::of_mode(0o010644), Kind::Other);
    assert_eq!(Kind::Other.label(), "special file");
    assert_eq!(resolves_beneath(&Resolution::Opened), Ok(true));
    assert_eq!(resolves_beneath(&Resolution::Escapes), Ok(false));
    assert_eq!(resolves_beneath(&Resolution::Failed { error: "why".to_string() }), Err("why".to_string()));
}

#[test]
fn the_window_reads_the_listing_that_the_tool_writes() {
    let rows = vec![Listed {
        library: library(),
        report: report(Seen::Dir { inside: 2 }),
        mount: Some(ntfs()),
        titles: Vec::new(),
    }];
    let text = scan_json(&rows, &texts(&["could not read \"x\""]), "1.2.3");
    let value: serde_json::Value = serde_json::from_str(&text).unwrap();
    assert_eq!(value["schema"], 1);
    assert_eq!(value["tool_version"], "1.2.3");
    let scan = backend::libraries(&text, &path("/bin/librarybridge")).unwrap();
    assert_eq!(scan.warnings, ["could not read \"x\""]);
    let seen = &scan.libraries[0];
    assert_eq!((seen.id.as_str(), seen.path.as_str(), seen.name.as_str()), (library().id.as_str(), "/mnt/g", "Ga\"mes"));
    assert_eq!((seen.filesystem.as_str(), seen.state.as_str()), ("ntfs3", "repair_available"));
    assert!(seen.connected && seen.eligible);
    assert_eq!(seen.headline(), "Repair available");
}

#[test]
fn scan_reports_whether_it_saw_everything() {
    let complete = |warnings: &[&str]| {
        let text = scan_json(&Vec::new(), &texts(warnings), "1");
        backend::libraries(&text, &path("/b")).unwrap().complete
    };
    assert!(complete(&[]));
    assert!(!complete(&["something could not be read"]));
}

#[test]
fn a_listing_from_another_build_is_refused() {
    let words = backend::libraries(r#"{"schema": 2}"#, &path("/b")).err().unwrap();
    assert_eq!(
        words,
        "this window reads version 1 of the command line tool's output, and /b reports version 2. They are from different builds; install them together."
    );
}

#[test]
fn scan_reports_a_library_that_can_be_repaired() {
    let rows = vec![Listed {
        library: library(),
        report: report(Seen::Dir { inside: 2 }),
        mount: Some(ntfs()),
        titles: texts(&["Portal 2", "Alyx", "Dota", "Braid"]),
    }];
    let lines = scan(&vec![install()], &rows, &Vec::new());
    let id = library().id;
    for line in [
        "Steam installations".to_string(),
        "Libraries".to_string(),
        format!("  [{id}] /mnt/g"),
        "      filesystem  ntfs3 on /dev/b (Proton data does not belong here)".to_string(),
        "      compatdata  2 prefixes".to_string(),
        "      games       Alyx, Braid, Dota, and 1 more".to_string(),
        "      state       Repair available".to_string(),
        format!("                  run:  librarybridge fix {id}"),
        "1 library can be repaired. Run `librarybridge fix <id>`.".to_string(),
    ] {
        assert!(lines.contains(&line), "{line} in {lines:?}");
    }
    assert_eq!(scan(&Vec::new(), &Vec::new(), &Vec::new())[0], "No Steam libraries found.");
}

#[test]
fn advice_and_blocking_go_together() {
    let repairable = report(Seen::Dir { inside: 1 });
    assert_eq!(blocking_reason(&repairable.state, Some(&ntfs())), None);
    assert!(blocking_reason(&repairable.state, None).is_some());
    let exfat = parse_mountinfo_line("1 0 8:1 / /mnt rw - exfat /dev/b rw").unwrap();
    assert!(blocking_reason(&repairable.state, Some(&exfat)).is_some());
    assert!(advice(&library(), &repairable, Some(&exfat))[0].contains("no symlinks"));
    let ext4 = parse_mountinfo_line("1 0 8:1 / /mnt rw - ext4 /dev/b rw").unwrap();
    assert!(advice(&library(), &repairable, Some(&ext4))[0].contains("No repair needed"));
}

#[test]
fn the_window_reads_the_plan_that_the_tool_writes() {
    let text = plan_json(&library(), &report(Seen::Dir { inside: 2 }), &plan());
    let read = backend::plan(&text).unwrap();
    assert_eq!(read.fingerprint, plan().fingerprint);
    assert_eq!((read.copy_bytes, read.reserve_bytes), (4096, 2_147_483_648));
    assert_eq!((read.available_bytes, read.remaining_bytes), (Some(10_000), Some(5_904)));
    assert_eq!((read.installed_games, read.prefix_folders), (1, 2));
    assert_eq!(read.unknown_folders, ["0", "77"]);
    assert_eq!(read.source, "/mnt/g/steamapps/compatdata");
    assert_eq!(read.consequences[0], "Game installation files stay on the game drive.");
    let lines = describe(&library(), &report(Seen::Dir { inside: 2 }), Some(&ntfs()), &plan());
    assert!(lines.contains(&"To copy     4.0 KiB".to_string()), "{lines:?}");
    assert!(lines.contains(&"Unknown     2 folders with no installed game: 0, 77".to_string()), "{lines:?}");
}

#[test]
fn a_stale_plan_is_refused() {
    let library = library();
    let repairable = report(Seen::Dir { inside: 2 });
    let print = |entries: u64, bytes: u64, contents: &str| {
        plan_fingerprint(&library, &repairable, &library.target(), entries, bytes, contents)
    };
    assert_eq!(print(3, 4096, "aa").len(), 16);
    assert_eq!(print(3, 4096, "aa"), print(3, 4096, "aa"));
    assert_ne!(print(3, 4096, "aa"), print(4, 4096, "aa"));
    assert_ne!(print(3, 4096, "aa"), print(3, 4097, "aa"));
    assert_ne!(print(3, 4096, "aa"), print(3, 4096, "ab"));
}

#[test]
fn folders_without_a_game_are_named_in_order() {
    let installed = vec![("620".to_string(), "Portal 2".to_string())];
    assert_eq!(unknown_folders(&texts(&["77", "620", "0"]), &installed), ["0", "77"]);
}

#[test]
fn the_window_reads_what_is_stored() {
    let at = |place: &str, bytes: u64| Measured { path: path(place), bytes };
    let rows = vec![Stored {
        id: "abcd1234".to_string(),
        name: "Games".to_string(),
        live: Some(at("/d/live", 2048)),
        backups: vec![at("/mnt/b1", 10), at("/mnt/b2", 20)],
        leftover: None,
    }];
    let read = backend::storage(&storage_json(&rows)).unwrap();
    assert_eq!(read[0].live, Some(("/d/live".to_string(), 2048)));
    assert_eq!(read[0].backups, [("/mnt/b1".to_string(), 10), ("/mnt/b2".to_string(), 20)]);
    assert_eq!(read[0].leftover, None);
    let lines = storage(&rows);
    assert!(lines.contains(&"      live        /d/live (2.0 KiB)".to_string()), "{lines:?}");
    assert!(lines.contains(&"      original    /mnt/b1 (10 B)".to_string()), "{lines:?}");
    assert_eq!(storage(&Vec::new()), ["Nothing stored by LibraryBridge yet."]);
    assert!(is_worth_listing(&rows[0]));
    let empty = Stored { id: String::new(), name: String::new(), live: None, backups: Vec::new(), leftover: None };
    assert!(!is_worth_listing(&empty));
}

#[test]
fn live_data_and_leftovers_are_told_from_the_report() {
    let mut seen = report(Seen::Dir { inside: 1 });
    assert_eq!(live_path(&seen), None);
    seen.existing_destination = Some(path("/d/there"));
    assert_eq!(live_path(&seen), Some(path("/d/there")));
    seen.state = State::Repaired { target: path("/d/live"), prefixes: 1 };
    assert_eq!(live_path(&seen), Some(path("/d/live")));
    seen.interrupted_restore = Some(path("/r"));
    assert_eq!(leftover_path(&seen), Some(path("/r")));
    seen.abandoned_copy = Some(path("/c"));
    assert_eq!(leftover_path(&seen), Some(path("/c")));
}

#[test]
fn links_and_probes_are_checked_by_what_is_read_back() {
    let (link, target) = (path("/l"), path("/t"));
    assert!(check_link(&link, &target, true, &target, true).is_ok());
    assert_eq!(check_link(&link, &target, false, &target, true).unwrap_err(), "/l: did not end up as a symlink");
    assert_eq!(check_link(&link, &target, true, &link, true).unwrap_err(), "/l: link points at /l instead of /t");
    assert!(check_link(&link, &target, true, &target, false).unwrap_err().contains("not readable through it"));
    let sentinel = path("librarybridge-probe-target");
    assert_eq!(probe_name(12, 34), ".librarybridge-probe-12-34");
    assert!(check_probe(&link, true, &sentinel).is_ok());
    assert!(check_probe(&link, false, &sentinel).unwrap_err().contains("did not store it as one"));
    assert!(check_probe(&link, true, &target).unwrap_err().contains("read back as /t instead of"));
    assert!(is_own_probe(Some(&sentinel)) && !is_own_probe(Some(&target)) && !is_own_probe(None));
}

#[test]
fn an_unanswerable_process_check_blocks_the_repair() {
    assert!(preflight(&Ok(Vec::new()), Some(&ntfs())).is_ok());
    assert!(preflight(&Err("no list".to_string()), None).unwrap_err().starts_with("no list. LibraryBridge will not"));
    let running = preflight(&Ok(texts(&["steam", "proton"])), None).unwrap_err();
    assert!(running.starts_with("these processes are running: steam, proton. Close Steam"), "{running}");
    let read_only = parse_mountinfo_line("1 0 8:1 / /mnt ro - ntfs3 /dev/b rw").unwrap();
    assert!(preflight(&Ok(Vec::new()), Some(&read_only)).unwrap_err().starts_with("/mnt is mounted read-only."));
}

#[test]
fn long_lists_are_cut_at_ten() {
    let many: Vec<String> = (0..12).map(|n| format!("p{n}")).collect();
    assert_eq!(first_ten(&many).split("\n  ").count(), 10);
    let links = vec![(path("a"), path("../b"))];
    assert_eq!(list_links(&links), "  a -> ../b");
}

#[test]
fn small_questions() {
    for yes in ["y", "Y", "yes", "Yes", " yes \n"] {
        assert!(is_yes(yes), "{yes:?}");
    }
    for no in ["", "n", "YES", "yess"] {
        assert!(!is_yes(no), "{no:?}");
    }
    let list = path("/a/b/c").ancestors();
    assert_eq!(existing_ancestor(&list, &vec![false, true, true, true]), path("/a/b"));
    assert_eq!(existing_ancestor(&list, &vec![false; 4]), path("/"));
    assert_eq!(file_name(&path("/a/b")).unwrap(), path("b"));
    assert_eq!(file_name(&path("/")).unwrap_err(), "/: has no final component");
    let text = conflict_message(&library(), &path("/d/there"), &Manifest::new(), None);
    assert!(text.contains("  on the game drive:  /mnt/g/steamapps/compatdata (nothing there)"), "{text}");
    assert!(text.ends_with("Either way, both copies are kept."));
}

#[test]
fn documents_are_laid_out_as_they_always_were() {
    let record = Record {
        library_id: "abcd1234".to_string(),
        source: path("/s"),
        destination: path("/d"),
        backup: path("/b"),
        digest: "00".to_string(),
        stage: Stage::BackedUp,
    };
    assert_eq!(
        record.document(),
        "{\n  \"schema\": 1,\n  \"library_id\": \"abcd1234\",\n  \"source\": \"/s\",\n  \"destination\": \"/d\",\n  \"backup\": \"/b\",\n  \"digest\": \"00\",\n  \"stage\": \"backed_up\"\n}\n"
    );
    let mut evidence = Evidence::load(None);
    evidence.record("files", Result_::Worked, 5, true).unwrap();
    let open = "{\"result\": \"not_checked\", \"when\": 0, \"by_tool\": false}";
    assert_eq!(
        evidence.document(),
        format!(
            "{{\n  \"schema\": 1,\n  \"files\": {{\"result\": \"worked\", \"when\": 5, \"by_tool\": true}},\n  \"launch\": {open},\n  \"save\": {open},\n  \"cloud\": {open}\n}}\n"
        )
    );
    assert_eq!(storage_json(&Vec::new()), "{\n  \"schema\": 1,\n  \"libraries\": [\n\n  ]\n}\n");
    assert_eq!(
        scan_json(&Vec::new(), &texts(&["w"]), "1"),
        "{\n  \"schema\": 1,\n  \"tool_version\": \"1\",\n  \"complete\": false,\n  \"libraries\": [\n  ],\n  \"warnings\": [\"w\"]\n}\n"
    );
    let at = |place: &str, bytes: u64| Measured { path: path(place), bytes };
    let stored = Stored {
        id: "i".to_string(),
        name: "n".to_string(),
        live: Some(at("/l", 1)),
        backups: vec![at("/a", 2), at("/b", 3)],
        leftover: None,
    };
    assert_eq!(
        storage_json(&vec![stored]),
        "{\n  \"schema\": 1,\n  \"libraries\": [\n    {\n      \"id\": \"i\",\n      \"name\": \"n\",\n      \"live\": {\"path\": \"/l\", \"bytes\": 1},\n      \"backups\": [{\"path\": \"/a\", \"bytes\": 2}, {\"path\": \"/b\", \"bytes\": 3}],\n      \"leftover\": null\n    }\n  ]\n}\n"
    );
}

#[test]
fn any_layout_is_read_as_the_same_value() {
    let members = |list: Vec<Node>| {
        vec![
            ("flag".to_string(), Node::Bool(true)),
            ("number".to_string(), Node::Number(u64::MAX)),
            ("text".to_string(), Node::Text("a\"b".to_string())),
            ("none".to_string(), Node::Null),
            ("list".to_string(), Node::List(block(), list)),
        ]
    };
    for layout in [page(), row(), block()] {
        let node = Node::Table(layout, members(vec![Node::Number(1), Node::Text("x".to_string())]));
        let value = parse(&node.document()).unwrap();
        assert_eq!(value.flag("flag"), Some(true));
        assert_eq!(value.count("number"), Some(u64::MAX));
        assert_eq!(value.string("text").as_deref(), Some("a\"b"));
        assert_eq!(value.as_array("list").len(), 2);
        assert_eq!(value.as_array("list")[1].as_str(), Some("x"));
        assert!(serde_json::from_str::<serde_json::Value>(&node.text()).unwrap()["none"].is_null());
    }
}

#[test]
fn results_have_two_spellings() {
    assert_eq!(parse_result("yes"), Some(Result_::Worked));
    assert_eq!(parse_result("worked"), Some(Result_::Worked));
    assert_eq!(parse_result("not_applicable"), Some(Result_::NotApplicable));
    assert_eq!(parse_result("maybe"), None);
}

#[test]
fn answers_to_the_questions_of_a_run() {
    assert_eq!(plan_event(None, "p"), Event::Plan { expected: true });
    assert_eq!(plan_event(Some("p"), "p"), Event::Plan { expected: true });
    assert_eq!(plan_event(Some("q"), "p"), Event::Plan { expected: false });

    let tree = |names: &[&str]| {
        let mut manifest = Manifest::new();
        for name in names {
            manifest.push(Entry { rel: path(name), kind: EntryKind::Dir, mode: 0o40755, mtime: None });
        }
        manifest
    };
    let record = Record {
        library_id: "abcd1234".to_string(),
        source: path("/s"),
        destination: path("/d/compatdata"),
        backup: path("/b"),
        digest: manifest_digest(&tree(&["a"])),
        stage: Stage::Published,
    };
    assert_eq!(record_event(Some(&record), &path("/d/compatdata/")), Event::Record { names_destination: true });
    assert_eq!(record_event(Some(&record), &path("/d")), Event::Record { names_destination: false });
    assert_eq!(record_event(None, &path("/d")), Event::Record { names_destination: false });
    assert_eq!(digest_event(Some(&record), &tree(&["a"])), Event::Answer(true));
    assert_eq!(digest_event(Some(&record), &tree(&["b"])), Event::Answer(false));
    assert_eq!(digest_event(None, &tree(&["a"])), Event::Answer(false));

    let live = tree(&["a", "b"]);
    assert!(compare_originals(&vec![tree(&["a"]), tree(&["b"])], &live).is_none());
    let lacking = compare_originals(&vec![tree(&["a"]), tree(&["a", "c"])], &live).unwrap();
    assert_eq!((lacking.original, lacking.paths), (1, vec![path("c")]));
}

#[test]
fn moving_notes_what_was_checked_and_opens_the_rest() {
    let mut evidence = Evidence::load(None);
    evidence.record("launch", Result_::Worked, 1, false).unwrap();
    evidence.note_move(true, 9);
    assert_eq!((evidence.files.result, evidence.files.when, evidence.files.by_tool), (Result_::Worked, 9, true));
    assert_eq!(evidence.launch.result, Result_::NotChecked);
    evidence.record("files", Result_::Failed, 10, false).unwrap();
    evidence.note_move(false, 11);
    assert_eq!(evidence.files.result, Result_::Failed);
}
