use librarybridge::path::FilePath;
use librarybridge::state::{
    backup_number, find_backups, find_named, find_staging, inspect, new_backup_path, new_restore_path, new_staging,
    next_free, resolve_link, app_data_dir, Seen, Sight, State,
};
use librarybridge::steam::{
    all_libraries, app_names, candidates, find_installs, flatpak_data_root, folder_lists, is_app_manifest, libraries,
    library_folders, looks_like_steam, native_data_root, resolve, sanitize, short_id, Install, InstallKind, Library,
    Listing, Looked, Places, Spot,
};
use librarybridge::vdf::parse;

fn path(text: &str) -> FilePath {
    FilePath::new(text)
}

fn names(list: &[&str]) -> Vec<Vec<u8>> {
    list.iter().map(|name| name.as_bytes().to_vec()).collect()
}

fn install() -> Install {
    Install { kind: InstallKind::Native, root: path("/home/a/.local/share/Steam") }
}

fn places() -> Places {
    Places { native: path("/home/a/.local/share"), chosen: None }
}

fn spot(at: &str) -> Spot {
    Spot { label: String::new(), connected: true, resolved: path(at), capital_steamapps: false, steamapps: true }
}

fn library() -> Library {
    libraries(&install(), &places(), &vec![spot("/mnt/games/SteamLibrary")]).remove(0)
}

fn sight(compatdata: Seen) -> Sight {
    Sight {
        steamapps_names: Vec::new(),
        root_names: Vec::new(),
        beside_names: Vec::new(),
        destination_exists: false,
        compatdata,
    }
}

#[test]
fn sanitizes_library_names() {
    assert_eq!(sanitize("SteamLibrary"), "SteamLibrary");
    assert_eq!(sanitize("My Games!"), "My_Games");
    assert_eq!(sanitize("../../etc"), "etc");
    assert_eq!(sanitize(""), "library");
    assert!(!sanitize("日本語のライブラリ").contains('/'));
}

#[test]
fn ids_are_stable_and_path_specific() {
    let a = short_id(&path("/mnt/games/SteamLibrary"));
    let b = short_id(&path("/mnt/games/SteamLibrary"));
    let c = short_id(&path("/mnt/other/SteamLibrary"));
    assert_eq!(a, b);
    assert_ne!(a, c);
    assert_eq!(a.len(), 8);
}

#[test]
fn finds_the_flatpak_data_directory() {
    let root = path("/home/a/.var/app/com.valvesoftware.Steam/.local/share/Steam");
    assert_eq!(
        flatpak_data_root(&root),
        Some(path("/home/a/.var/app/com.valvesoftware.Steam/data"))
    );
    assert_eq!(flatpak_data_root(&path("/home/a/Steam")), None);
}

#[test]
fn recognises_its_own_backup_names() {
    assert_eq!(backup_number("compatdata.backup"), Some(1));
    assert_eq!(backup_number("compatdata.backup-2"), Some(2));
    assert_eq!(backup_number("compatdata.backup-17"), Some(17));
    assert_eq!(backup_number("compatdata"), None);
    assert_eq!(backup_number("compatdata.backup-old"), None);
    assert_eq!(backup_number("compatdata.incomplete"), None);
}

#[test]
fn numbers_the_next_backup_and_lists_newest_first() {
    let dir = path("/lib/steamapps");
    let mut there = names(&[]);
    assert_eq!(new_backup_path(&dir, &there), path("/lib/steamapps/compatdata.backup"));
    there.push(b"compatdata.backup".to_vec());
    assert_eq!(new_backup_path(&dir, &there), path("/lib/steamapps/compatdata.backup-2"));
    there.push(b"compatdata.backup-2".to_vec());
    assert_eq!(new_backup_path(&dir, &there), path("/lib/steamapps/compatdata.backup-3"));

    // Ordering is numeric, so ten sorts after two rather than before it.
    there.push(b"compatdata.backup-10".to_vec());
    let backups = find_backups(&dir, &there);
    assert_eq!(
        backups.first().map(|p| p.file_name_text().unwrap()),
        Some("compatdata.backup-10".to_string())
    );
    assert_eq!(backups.len(), 3);
}

#[test]
fn a_number_that_is_no_backup_number() {
    assert_eq!(backup_number("compatdata.backup-4294967295"), Some(u32::MAX));
    assert_eq!(backup_number("compatdata.backup-4294967296"), None);
    assert_eq!(backup_number("compatdata.backup-"), None);
    assert_eq!(backup_number("compatdata.backup2"), None);
    // Names that are read as numbers and are not written as ones of the series.
    for name in ["-+2", "-0", "-1", "-02", "-+1", "--2"] {
        assert_eq!(backup_number(&format!("compatdata.backup{name}")), None, "{name}");
    }
}

#[test]
fn free_names_pass_over_what_is_taken() {
    let dir = path("/d");
    assert_eq!(next_free(&dir, &names(&["x-2"]), "x"), path("/d/x"));
    assert_eq!(next_free(&dir, &names(&["x", "x-3"]), "x"), path("/d/x-2"));
    let mut taken = names(&["x"]);
    for n in 2..1000 {
        taken.push(format!("x-{n}").into_bytes());
    }
    assert_eq!(next_free(&dir, &taken, "x"), path("/d/x-1000"));
}

#[test]
fn data_directories_follow_the_environment() {
    let home = path("/home/a");
    assert_eq!(native_data_root(Some(&path("/xdg")), Some(&home)), path("/xdg"));
    assert_eq!(native_data_root(Some(&path("xdg")), Some(&home)), path("/home/a/.local/share"));
    assert_eq!(native_data_root(None, None), path("./.local/share"));
    assert_eq!(app_data_dir(Some(&path("/xdg")), Some(&home)), path("/xdg/librarybridge"));
}

#[test]
fn looks_for_steam_where_it_may_be() {
    let list = candidates(None, Some(&path("/xdg")), Some(&path("/home/a")));
    assert_eq!(list.len(), 8);
    assert_eq!(list[0].path, path("/xdg/Steam"));
    assert_eq!(list[1].path, path("/home/a/.local/share/Steam"));
    assert_eq!(list[7].kind, InstallKind::Flatpak);
    assert_eq!(list[7].path, path("/home/a/.var/app/com.valvesoftware.Steam/data/Steam"));
    let chosen = candidates(Some(&path("/s/com.valvesoftware.Steam/x")), None, Some(&path("/home/a")));
    assert_eq!(chosen.len(), 1);
    assert_eq!(chosen[0].kind, InstallKind::Flatpak);
    assert!(candidates(None, None, None).is_empty());
}

#[test]
fn two_names_of_one_installation_count_once() {
    let looked = |at: &str, looks: bool| Looked { kind: InstallKind::Native, looks_like_steam: looks, resolved: path(at) };
    let found = find_installs(&vec![looked("/s", true), looked("/t", false), looked("/s/", true), looked("/u", true)]);
    assert_eq!(found.len(), 2);
    assert_eq!(found[0].root, path("/s"));
    assert_eq!(found[1].root, path("/u"));
    assert!(looks_like_steam(false, false, true));
    assert!(!looks_like_steam(false, false, false));
}

#[test]
fn reads_both_layouts_of_the_folder_list() {
    let modern = parse(
        r#""libraryfolders" { "0" { "path" "/home/a/.local/share/Steam" } "1" { "path" "/mnt/g" "label" "Games" } "2" { "label" "none" } }"#,
    )
    .unwrap();
    let (folders, warnings) = library_folders(&install(), &Some(Ok(modern)));
    assert!(warnings.is_empty());
    assert_eq!(folders[0], (path("/home/a/.local/share/Steam"), String::new()));
    assert_eq!(folders.last().unwrap(), &(path("/mnt/g"), "Games".to_string()));

    let legacy = parse(r#""LibraryFolders" { "TimeNextStatsReport" "12" "1" "/mnt/old" "ContentStatsID" "-12" }"#).unwrap();
    let (folders, _) = library_folders(&install(), &Some(Ok(legacy)));
    assert_eq!(folders.len(), 2);
    assert_eq!(folders[1].0, path("/mnt/old"));

    let (folders, warnings) = library_folders(&install(), &Some(Err("broken".to_string())));
    assert_eq!((folders.len(), warnings), (1, vec!["broken".to_string()]));
    let (_, warnings) = library_folders(&install(), &None);
    assert_eq!(
        warnings,
        ["/home/a/.local/share/Steam: no libraryfolders.vdf found, only the main install is listed"]
    );
    assert_eq!(folder_lists(&install())[1], path("/home/a/.local/share/Steam/config/libraryfolders.vdf"));
}

#[test]
fn one_place_is_one_library() {
    let mut capital = spot("/mnt/b");
    capital.capital_steamapps = true;
    capital.steamapps = false;
    let list = libraries(&install(), &places(), &vec![spot("/mnt/a"), spot("/mnt/a/"), capital]);
    assert_eq!(list.len(), 2);
    assert_eq!(list[0].compatdata, path("/mnt/a/steamapps/compatdata"));
    assert_eq!(list[1].steamapps, path("/mnt/b/SteamApps"));
    assert_eq!(list[0].id, short_id(&path("/mnt/a")));
    let listing = |at: &[&str], warning: &str| Listing {
        libraries: libraries(&install(), &places(), &at.iter().map(|place| spot(place)).collect()),
        warnings: vec![warning.to_string()],
    };
    let all = all_libraries(&vec![listing(&["/mnt/a", "/mnt/b"], "one"), listing(&["/mnt/a"], "two")]);
    assert_eq!(all.warnings, ["one", "two"]);
    let all = all.libraries;
    assert_eq!(all.len(), 2);
    assert!(all[0].id < all[1].id);
    let mut paths: Vec<String> = all.iter().map(|l| l.path.display()).collect();
    paths.sort();
    assert_eq!(paths, ["/mnt/a", "/mnt/b"]);
}

#[test]
fn a_library_is_named_by_its_id_or_its_path() {
    let list = libraries(&install(), &places(), &vec![spot("/mnt/a"), spot("/mnt/b")]);
    let nowhere = path("/nowhere");
    assert_eq!(resolve(&list, &list[1].id, &nowhere).unwrap().path, path("/mnt/b"));
    assert_eq!(resolve(&list, "/mnt/a", &path("/mnt/a")).unwrap().path, path("/mnt/a"));
    assert_eq!(resolve(&list, "", &nowhere).unwrap_err(), "'' matches 2 libraries. Use the full id.");
    assert_eq!(
        resolve(&list, "zz", &nowhere).unwrap_err(),
        "no library matches 'zz'. Run `librarybridge scan` to list them."
    );
}

#[test]
fn destinations_carry_the_id() {
    let library = library();
    let wanted = format!("/home/a/.local/share/librarybridge/SteamLibrary-{}/compatdata", library.id);
    assert_eq!(library.target(), path(&wanted));
    assert!(library.owns(&path(&wanted)));
    let renamed = format!("Old_Name-{}", library.id);
    assert_eq!(
        library.effective_target(&names(&["other-00000000", &renamed])),
        path(&format!("/home/a/.local/share/librarybridge/{renamed}/compatdata"))
    );
    assert_eq!(library.effective_target(&names(&["other-00000000"])), path(&wanted));
    assert!(library.owns(&path(&format!("/home/a/.local/share/librarybridge/{renamed}/compatdata"))));
    assert!(!library.owns(&path("/home/a/.local/share/librarybridge/Other-00000000/compatdata")));
    assert!(!library.owns(&path(&format!("/elsewhere/SteamLibrary-{}/compatdata", library.id))));
    assert_eq!(library.display_name(), "SteamLibrary");
}

#[test]
fn a_chosen_place_and_a_flatpak_install_have_their_own_roots() {
    let mut library = library();
    library.places.chosen = Some(path("/data"));
    assert_eq!(library.target_root(), path("/data"));
    library.places.chosen = None;
    library.install_kind = InstallKind::Flatpak;
    library.install_root = path("/home/a/.var/app/com.valvesoftware.Steam/.local/share/Steam");
    assert_eq!(library.target_root(), path("/home/a/.var/app/com.valvesoftware.Steam/data/librarybridge"));
    library.label = "Shelf".to_string();
    assert_eq!(library.display_name(), "Shelf");
}

#[test]
fn reads_the_names_of_installed_games() {
    assert!(is_app_manifest("appmanifest_620.acf"));
    assert!(!is_app_manifest("appmanifest_620.acf.tmp"));
    let manifests = vec![
        parse(r#""AppState" { "appid" "620" "name" "Portal 2" }"#).unwrap(),
        parse(r#""AppState" { "name" "No id" }"#).unwrap(),
        parse(r#""AppState" { "appid" "620" "name" "Portal Two" }"#).unwrap(),
    ];
    assert_eq!(app_names(&manifests), [("620".to_string(), "Portal Two".to_string())]);
}

#[test]
fn a_directory_waits_for_repair_and_nothing_does_not() {
    let report = inspect(&library(), &sight(Seen::Dir { inside: 3 }));
    assert!(matches!(report.state, State::NotRepaired { prefixes: 3 }));
    assert_eq!((report.state.code(), report.state.headline()), ("repair_available", "Repair available"));
    let report = inspect(&library(), &sight(Seen::Nothing));
    assert_eq!(report.state.code(), "no_compatdata");
    let mut unplugged = library();
    unplugged.connected = false;
    assert_eq!(inspect(&unplugged, &sight(Seen::Dir { inside: 3 })).state.code(), "disconnected");
}

#[test]
fn nothing_beside_an_original_is_an_interrupted_repair() {
    let mut seen = sight(Seen::Nothing);
    seen.steamapps_names = names(&["common", "compatdata.backup", "compatdata.backup-2"]);
    match inspect(&library(), &seen).state {
        State::InterruptedAwaitingLink { backup } => {
            assert_eq!(backup, path("/mnt/games/SteamLibrary/steamapps/compatdata.backup-2"))
        }
        other => panic!("{other:?}"),
    }
}

#[test]
fn links_are_judged_by_where_they_lead() {
    let library = library();
    let link = |text: &FilePath, exists: bool, is_dir: bool| Seen::Link { text: path(&text.display()), exists, is_dir, inside: 2 };
    let target = library.target();
    let elsewhere = path("/somewhere");
    let code = |seen: Seen| inspect(&library, &sight(seen)).state.code();
    assert_eq!(code(link(&target, true, true)), "repaired");
    assert_eq!(code(link(&elsewhere, true, true)), "linked_elsewhere");
    assert_eq!(code(link(&target, false, false)), "dangling_link");
    match inspect(&library, &sight(link(&target, true, false))).state {
        State::Unusable { detail } => assert_eq!(
            detail,
            format!("compatdata is a link to {}, which is not a directory", target.display())
        ),
        other => panic!("{other:?}"),
    }
    match inspect(&library, &sight(Seen::UnreadableLink { error: "why".to_string() })).state {
        State::Unusable { detail } => assert_eq!(detail, "cannot read the link: why"),
        other => panic!("{other:?}"),
    }
    assert_eq!(code(Seen::Other { file_type: "file".to_string() }), "unusable");
    assert_eq!(resolve_link(&path("/a/link"), &path("b/c")), path("/a/b/c"));
    assert_eq!(resolve_link(&path("/a/link"), &path("/c")), path("/c"));
}

#[test]
fn leftovers_are_reported() {
    let library = library();
    let mut seen = sight(Seen::Dir { inside: 0 });
    seen.destination_exists = true;
    seen.beside_names = names(&["compatdata.incomplete-7-3"]);
    seen.steamapps_names = names(&["compatdata.restoring-7-3"]);
    let report = inspect(&library, &seen);
    let holder = library.target().parent().unwrap();
    assert_eq!(report.existing_destination, Some(library.target()));
    assert_eq!(report.abandoned_copy, Some(holder.join_text("compatdata.incomplete-7-3")));
    assert_eq!(report.interrupted_restore, Some(library.steamapps.join_text("compatdata.restoring-7-3")));
    assert_eq!(new_staging(&library.target(), 7, 3), holder.join_text("compatdata.incomplete-7-3"));
    assert_eq!(new_restore_path(&library.steamapps, 7, 3), library.steamapps.join_text("compatdata.restoring-7-3"));
    assert_eq!(find_staging(&library.target(), &names(&["compatdata"])), None);
    assert_eq!(find_named(&path("/d"), &names(&["a", "bc"]), "b"), Some(path("/d/bc")));
}

#[test]
fn ids_are_the_first_digits_of_the_digest() {
    assert_eq!(short_id(&path("/mnt/games/SteamLibrary")), "f7da0212");
    assert_eq!(short_id(&path("/mnt/other/SteamLibrary")), "91ae0f96");
}

#[test]
fn names_do_not_begin_with_a_bar() {
    for name in ["__a", "_", "..b_", "\u{e9}\u{e9}c", ""] {
        assert!(!sanitize(name).starts_with('_'));
    }
}
