use librarybridge::discover::{
    is_noise_dir, is_windows_exe, normalize, pick_game, pretty_name, rate, windows_candidate, Candidate, Confidence, Exe,
};
use librarybridge::path::FilePath;
use librarybridge::scan::{
    examine_folder, filesystem_subject, filesystem_warning, find_gog_info, folders_to_examine, games_of_root, find_prefix, gog_candidate, gog_exe, import_blocker,
    launch_warnings, linux_candidate, matches_existing, read_gog_text, scan, steam_games, within, Entry, Finding, Progress, Search,
    Sighting, Sort,
};
use librarybridge::steam::{libraries, Install, InstallKind, Places, Spot};
use librarybridge::system::parse_mountinfo_line;

fn path(text: &str) -> FilePath {
    FilePath::new(text)
}

fn texts(list: &[&str]) -> Vec<String> {
    list.iter().map(|text| text.to_string()).collect()
}

fn exe(at: &str, megabytes: u64) -> Exe {
    Exe { path: path(at), size: megabytes * 1024 * 1024 }
}

fn found(at: &str) -> Candidate {
    let folder = path(at).parent().unwrap();
    let choice = pick_game(&folder, &vec![exe(at, 1)]).unwrap();
    windows_candidate(&folder, choice, None)
}

fn sighting(candidate: Candidate) -> Sighting {
    Sighting { candidate, slug: String::new(), mount: None, beside: Vec::new() }
}

#[test]
fn normalizes_for_comparison() {
    assert_eq!(normalize("Half-Life 2"), "halflife2");
    assert_eq!(normalize("The_Witcher_3"), "thewitcher3");
}

#[test]
fn rejects_noise_directories() {
    assert!(is_noise_dir(&path("/games/x/_CommonRedist")));
    assert!(is_noise_dir(&path("/games/x/DirectX")));
    assert!(is_noise_dir(&path("/games/x/.hidden")));
    assert!(!is_noise_dir(&path("/games/x/Binaries")));
}

#[test]
fn flags_a_bundled_d3dcompiler_as_a_launch_warning() {
    let warnings = launch_warnings(&texts(&["Game.exe", "d3dcompiler_43.dll"]));
    assert!(warnings.iter().any(|w| w.contains("Enable D3D Extras")), "{warnings:?}");
}

#[test]
fn flags_a_steam_emulation_build() {
    let warnings = launch_warnings(&texts(&["Game.exe", "steam_emu.ini"]));
    assert!(warnings.iter().any(|w| w.contains("lsteamclient")), "{warnings:?}");
    assert!(warnings.iter().any(|w| w.contains("ISteamUser")), "{warnings:?}");
    assert!(
        warnings.iter().any(|w| w.contains("ISteamUser") && w.contains("not a DLL")),
        "the warning should tell the user not to use ISteamUser as an override key: {warnings:?}"
    );
}

#[test]
fn flags_a_bundled_steam_api_shim() {
    let warnings = launch_warnings(&texts(&["Game.exe", "steam_api64.dll"]));
    assert!(
        warnings.iter().any(|w| w.contains("steam_api64.dll")),
        "steam_api64.dll next to the exe should be detected as a shim: {warnings:?}"
    );
}

#[test]
fn a_plain_folder_gets_no_launch_warnings() {
    assert!(launch_warnings(&texts(&["Game.exe"])).is_empty());
}

#[test]
fn launch_warnings_ignore_case() {
    assert_eq!(launch_warnings(&texts(&["D3DCompiler_47.DLL", "STEAM_EMU.INI"])).len(), 2);
}

#[test]
fn a_gog_folder_is_read_from_its_metadata() {
    let info = r#"{"name": "Beneath a Steel Sky", "playTasks": [
             {"isPrimary": true, "path": "BASS.exe", "type": "FileTask"},
             {"path": "manual.pdf", "type": "FileTask"}]}"#;
    let folder = path("/games/Beneath a Steel Sky");
    let files = vec![folder.join_text("BASS.exe"), folder.join_text("goggame-1207658691.info")];
    assert_eq!(find_gog_info(&files), Some(1));
    let (name, relative) = read_gog_text(info).unwrap();
    assert_eq!((name.as_str(), relative.as_str()), ("Beneath a Steel Sky", "BASS.exe"));
    let exe = gog_exe(&folder, &relative);
    assert_eq!(exe, folder.join_text("BASS.exe"));
    let game = gog_candidate(&folder, name, exe, true, true, None).unwrap();
    assert_eq!(game.confidence.label(), "high");
    assert_eq!((game.source, game.runner.as_str()), ("gog", "wine"));
    assert!(game.reasons[0].contains("GOG metadata"));
}

#[test]
fn gog_metadata_that_says_too_little_is_not_used() {
    assert!(read_gog_text("nonsense").is_none());
    assert!(read_gog_text(r#"{"name": "x"}"#).is_none());
    assert!(read_gog_text(r#"{"name": "x", "playTasks": [{"isPrimary": true}]}"#).is_none());
    // Without a primary task the first one counts.
    assert_eq!(
        read_gog_text(r#"{"name": "x", "playTasks": [{"path": "a.exe"}, {"path": "b.exe"}]}"#),
        Some(("x".to_string(), "a.exe".to_string()))
    );
    assert_eq!(gog_exe(&path("/g"), "bin\\a.exe"), path("/g/bin/a.exe"));
    let exe = path("/elsewhere/a.exe");
    assert!(gog_candidate(&path("/g"), "x".to_string(), path("/elsewhere/a.exe"), false, true, None).is_none());
    assert!(gog_candidate(&path("/g"), "x".to_string(), exe, true, false, None).is_none());
    assert!(within(Some(&path("/g")), Some(&path("/g/a"))));
    assert!(!within(Some(&path("/g")), Some(&path("/ga"))));
    assert!(!within(None, Some(&path("/g"))));
}

#[test]
fn installers_and_helpers_are_never_the_game() {
    let folder = path("/games/Deep Rock Adventure");
    let at = |name: &str, size: u64| Exe { path: folder.join_text(name), size: size * 1024 };
    let exes = vec![
        at("DeepRockAdventure.exe", 4),
        at("unins000.exe", 2),
        at("vcredist_x64.exe", 8),
        at("CrashReporter.exe", 1),
    ];
    let choice = pick_game(&folder, &exes).unwrap();
    assert_eq!(choice.best, folder.join_text("DeepRockAdventure.exe"));
    assert!(choice.alternatives.iter().all(|p| !p.display().contains("unins000")));
    assert!(choice.alternatives.iter().all(|p| !p.display().contains("vcredist")));
    assert!(choice.reasons.iter().any(|r| r == "its name matches the folder name"));
}

#[test]
fn an_unreal_shipping_build_is_recognised() {
    let (score, reasons) = rate("silentharbour-win64-shipping", 4, "silentharbour", 30 * 1024 * 1024);
    assert_eq!(score, -20 + 45 + 20);
    assert_eq!(reasons, ["it is an Unreal Engine shipping build"]);
    let (score, _) = rate("silentharbour", 1, "silentharbour", 1024 * 1024);
    assert_eq!(score, 25 + 50 + 1);
}

#[test]
fn an_ambiguous_folder_is_low_confidence_and_offers_alternatives() {
    let exes = vec![exe("/g/Bundle/alpha.exe", 5), exe("/g/Bundle/beta.exe", 5), exe("/g/Bundle/gamma.exe", 5)];
    let choice = pick_game(&path("/g/Bundle"), &exes).unwrap();
    assert_eq!(choice.confidence, Confidence::Low);
    assert_eq!(choice.best, path("/g/Bundle/alpha.exe"));
    assert_eq!(choice.alternatives.len(), 2);
    assert_eq!(choice.reasons.last().unwrap(), "3 executables looked plausible, so this one is a guess");
}

#[test]
fn a_lone_executable_is_a_sure_one() {
    let choice = pick_game(&path("/g/Tiny Game"), &vec![exe("/g/Tiny Game/TinyGame.exe", 1)]).unwrap();
    assert_eq!(choice.confidence, Confidence::High);
    let game = windows_candidate(&path("/g/Tiny Game"), choice, Some(path("/p")));
    assert_eq!((game.name.as_str(), game.runner.as_str(), game.source), ("Tiny Game", "wine", "folder"));
    assert_eq!(game.prefix, Some(path("/p")));
    assert_eq!(game.working_dir, Some(path("/g/Tiny Game")));
    assert!(game.eligible && !game.in_lutris);
    assert!(pick_game(&path("/g/x"), &vec![]).is_none());
}

#[test]
fn names_come_from_the_folder_where_it_says_enough() {
    assert_eq!(pretty_name(&path("/g/My_Game"), &path("/g/My_Game/a.exe")), "My Game");
    assert_eq!(pretty_name(&path("/g/ab"), &path("/g/ab/Doom.v2.exe")), "Doom.v2");
    assert!(is_windows_exe(&path("/a/B.EXE")));
    assert!(!is_windows_exe(&path("/a/exe")));
}

#[test]
fn an_existing_wine_prefix_is_reused_not_replaced() {
    let exe = path("/g/Riverside/drive_c/Games/Riverside/Riverside.exe");
    let above = exe.ancestors();
    let is_prefix: Vec<bool> = above.iter().map(|dir| dir.display() == "/g/Riverside").collect();
    assert_eq!(find_prefix(&above, &is_prefix), Some(path("/g/Riverside")));
    assert_eq!(find_prefix(&above, &vec![false; above.len()]), None);
}

#[test]
fn a_native_linux_game_uses_the_linux_runner() {
    let folder = path("/g/Cave Story Clone");
    let files = vec![folder.join_text("data.pak"), folder.join_text("start.sh")];
    let game = linux_candidate(&folder, &files, &vec![false, true]).unwrap();
    assert_eq!((game.runner.as_str(), game.source), ("linux", "linux"));
    assert_eq!(game.exe, Some(folder.join_text("start.sh")));
    assert_eq!(game.name, "Cave Story Clone");
    assert!(linux_candidate(&folder, &files, &vec![true, false]).is_none());
}

#[test]
fn symlinked_directories_are_not_followed_while_scanning() {
    let mut search = Search::new(&path("/g/Real Game"));
    assert_eq!(search.next(), Some(path("/g/Real Game")));
    search.found(b"everything", Sort::Link);
    search.found(b"RealGame.exe", Sort::File);
    search.found(b"_CommonRedist", Sort::Dir);
    search.found(b"bin", Sort::Dir);
    search.found(b"../outside", Sort::File);
    assert_eq!(search.next(), Some(path("/g/Real Game/bin")));
    assert!(search.next().is_none());
    assert_eq!(search.finish().unwrap(), [path("/g/Real Game/RealGame.exe")]);
}

#[test]
fn scanning_stops_at_its_depth() {
    let mut search = Search::new(&path("/g"));
    let mut folders = 0;
    while search.next().is_some() {
        folders += 1;
        search.found(b"d", Sort::Dir);
    }
    // The folder itself, and six below it.
    assert_eq!(folders, 7);
}

#[test]
fn only_real_folders_of_a_root_are_examined_and_in_order() {
    let names: Vec<Vec<u8>> =
        [b"zeta".to_vec(), b"LinkedGame".to_vec(), b"Alpha".to_vec(), b".hidden".to_vec(), b"file".to_vec()].to_vec();
    let sorts = vec![Sort::Dir, Sort::Link, Sort::Dir, Sort::Dir, Sort::File];
    assert_eq!(folders_to_examine(&path("/g"), &names, &sorts), [path("/g/Alpha"), path("/g/zeta")]);
}

#[test]
fn a_root_is_a_game_only_where_its_folders_are_none() {
    let own = || Some(found("/g/Root Game/RootGame.exe"));
    let children = vec![found("/g/Root Game/A/A.exe")];
    assert_eq!(games_of_root(children, own())[0].exe, Some(path("/g/Root Game/A/A.exe")));
    assert_eq!(games_of_root(Vec::new(), own())[0].exe, Some(path("/g/Root Game/RootGame.exe")));
    assert!(games_of_root(Vec::new(), None).is_empty());
}

#[test]
fn progress_never_passes_its_total() {
    let mut progress = Progress::new(&vec![2, 0, 1]);
    assert_eq!(progress.shown(), (0, 3));
    for done in [1, 2, 3, 3] {
        progress.step();
        assert_eq!(progress.shown(), (done, 3));
    }
    let mut none = Progress::new(&vec![0, 0]);
    none.finish();
    assert_eq!(none.shown(), (2, 2));
    let mut empty = Progress::new(&Vec::new());
    empty.finish();
    assert_eq!(empty.shown(), (0, 1));
}

#[test]
fn a_game_already_in_lutris_is_marked_and_hidden() {
    let entry = Entry {
        appid: None,
        exe: Some(path("/g/Known Game/KnownGame.exe")),
        prefix: Some(path("/home/a/prefix")),
        slug: "known-game".to_string(),
    };
    let list = scan(&vec![sighting(found("/g/Known Game/KnownGame.exe"))], &vec![], &vec![entry]);
    assert!(list[0].in_lutris && !list[0].eligible);
    assert_eq!(list[0].blocking_reason.as_deref(), Some("Lutris already has this game"));
}

#[test]
fn lutris_entries_are_matched_by_slug_too() {
    let entry = |slug: &str| vec![Entry { appid: None, exe: None, prefix: None, slug: slug.to_string() }];
    let game = found("/g/Known Game/KnownGame.exe");
    assert!(matches_existing(&game, "known-game", &entry("known-game")));
    assert!(!matches_existing(&game, "known-game", &entry("other-game")));
}

#[test]
fn steam_games_are_reported_as_duplicating_lutris_own_source() {
    let install = Install { kind: InstallKind::Native, root: path("/s") };
    let places = Places { native: path("/d"), chosen: None };
    let spot = Spot { label: String::new(), connected: true, resolved: path("/s"), capital_steamapps: false, steamapps: true };
    let library = libraries(&install, &places, &vec![spot]).remove(0);
    let mut games = steam_games(&library, &vec![("220".to_string(), "Half-Life 2".to_string())]);
    assert_eq!(games.len(), 1);
    let list = scan(&vec![sighting(games.remove(0))], &vec![], &vec![]);
    assert_eq!((list[0].name.as_str(), list[0].appid.as_deref()), ("Half-Life 2", Some("220")));
    assert!(!list[0].eligible);
    assert!(list[0].blocking_reason.as_ref().unwrap().contains("its own Steam source"));
    assert_eq!(import_blocker("folder", false), None);
}

#[test]
fn each_game_is_listed_once_and_the_surest_first() {
    let sure = found("/g/Tiny Game/TinyGame.exe");
    let again = found("/g/Tiny Game/TinyGame.exe");
    let folder = path("/g/Bundle");
    let guess = pick_game(&folder, &vec![exe("/g/Bundle/alpha.exe", 5), exe("/g/Bundle/beta.exe", 5)]).unwrap();
    let guess = windows_candidate(&folder, guess, None);
    let list = scan(&vec![sighting(guess), sighting(sure), sighting(again)], &vec![], &vec![]);
    let names: Vec<&str> = list.iter().map(|c| c.name.as_str()).collect();
    assert_eq!(names, ["Tiny Game", "Bundle"]);
}

#[test]
fn games_inside_steam_libraries_are_left_to_steam() {
    let list = scan(
        &vec![sighting(found("/s/steamapps/common/Game/Game.exe"))],
        &vec![path("/s/steamapps/common")],
        &vec![],
    );
    assert!(list.is_empty());
}

#[test]
fn a_prefix_on_a_windows_drive_is_warned_about() {
    let mount = parse_mountinfo_line("1 0 8:1 / /g rw - ntfs3 /dev/b rw").unwrap();
    let warning = filesystem_warning(Some(&mount)).unwrap();
    assert_eq!(warning, "the prefix for this game is on ntfs3, where Proton and Wine data does not work reliably");
    let mount = parse_mountinfo_line("1 0 8:1 / /g rw - exfat /dev/b rw").unwrap();
    assert!(filesystem_warning(Some(&mount)).unwrap().contains("cannot hold a working Wine prefix"));
    let mount = parse_mountinfo_line("1 0 8:1 / /g rw - ext4 /dev/b rw").unwrap();
    assert_eq!(filesystem_warning(Some(&mount)), None);
    assert_eq!(filesystem_warning(None), None);
    let mut game = found("/g/Tiny Game/TinyGame.exe");
    assert_eq!(filesystem_subject(&game), Some(path("/g/Tiny Game")));
    game.prefix = Some(path("/p"));
    assert_eq!(filesystem_subject(&game), Some(path("/p")));
}

#[test]
fn a_folder_is_examined_for_gog_then_windows_then_linux() {
    let folder = path("/g/Game");
    let files = vec![folder.join_text("unins000.exe"), folder.join_text("start.sh"), folder.join_text("Game.EXE")];
    let sizes = vec![1, 1, 1];
    let look = |n: usize, gog: Option<Candidate>| {
        let some: Vec<FilePath> = files[..n].iter().map(|f| path(&f.display())).collect();
        examine_folder(&folder, &some, &sizes[..n].to_vec(), &vec![true; n], gog)
    };
    assert!(matches!(look(3, Some(found("/g/Game/Game.exe"))), Finding::Gog(_)));
    match look(3, None) {
        Finding::Windows(choice) => assert_eq!(choice.best, folder.join_text("Game.EXE")),
        other => panic!("{other:?}"),
    }
    // Nothing but an uninstaller: not a game, launcher or no launcher.
    assert!(matches!(look(2, None), Finding::Nothing));
    let scripts = vec![folder.join_text("start.sh")];
    assert!(matches!(examine_folder(&folder, &scripts, &vec![1], &vec![true], None), Finding::Linux(_)));
    assert!(matches!(examine_folder(&folder, &scripts, &vec![1], &vec![false], None), Finding::Nothing));
}
