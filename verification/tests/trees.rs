use librarybridge::checks::{same_data, same_shape};
use librarybridge::fsops::{
    changed_since, compare_link_groups, escaping_relative_links, human_bytes, lexically_normal, manifest_digest,
    not_carried, time_to_give, verify_against, Entry, Kind, Manifest, Stamp,
};
use librarybridge::path::FilePath;
use librarybridge::sha256::{digest_of, hex, Sha256};
use librarybridge::walk::{copy_tree, inventory, tree_size, Facts, Found, Task, Walk};

fn path(text: &str) -> FilePath {
    FilePath::new(text)
}

fn stamp(seconds: i64) -> Option<Stamp> {
    Some(Stamp { seconds, nanos: 0 })
}

fn dir(rel: &str) -> Entry {
    Entry { rel: path(rel), kind: Kind::Dir, mode: 0o40755, mtime: stamp(1) }
}

fn file(rel: &str, contents: &[u8]) -> Entry {
    let kind = Kind::File {
        size: contents.len() as u64,
        digest: Some(digest_of(contents)),
        links: 1,
        identity: (1, 1),
        allocated: 4096,
    };
    Entry { rel: path(rel), kind, mode: 0o100644, mtime: stamp(1) }
}

fn linked(rel: &str, inode: u64) -> Entry {
    let kind = Kind::File { size: 1, digest: Some(digest_of(b"x")), links: 2, identity: (1, inode), allocated: 4096 };
    Entry { rel: path(rel), kind, mode: 0o100644, mtime: stamp(1) }
}

fn link(rel: &str, target: &str) -> Entry {
    Entry { rel: path(rel), kind: Kind::Symlink { target: path(target) }, mode: 0o120777, mtime: stamp(1) }
}

fn tree(entries: Vec<Entry>) -> Manifest {
    let mut manifest = Manifest::new();
    for entry in entries {
        assert!(manifest.has_room_for(&entry));
        manifest.push(entry);
    }
    manifest.sort();
    manifest
}

fn problems(expected: Vec<Entry>, actual: Vec<Entry>) -> Vec<String> {
    verify_against(&tree(expected), &tree(actual)).err().unwrap_or_default()
}

#[test]
fn digests_of_known_texts() {
    assert_eq!(hex(&digest_of(b"")), "e3b0c44298fc1c149afbf4c8996fb92427ae41e4649b934ca495991b7852b855");
    assert_eq!(hex(&digest_of(b"abc")), "ba7816bf8f01cfea414140de5dae2223b00361a396177a9cb410ff61f20015ad");
    assert_eq!(
        hex(&digest_of(b"abcdbcdecdefdefgefghfghighijhijkijkljklmklmnlmnomnopnopq")),
        "248d6a61d20638b8e5c026930c3e6039a33ce45964ff2167f6ecedd419db06c1"
    );
    let mut hasher = Sha256::new();
    for _ in 0..1000 {
        hasher.update(&[b'a'; 1000]);
    }
    assert_eq!(hex(&hasher.finish()), "cdc76e5c9914fb9281a1c7e284d73e67f1809a48a497200e046d39ccc7112cd0");
}

#[test]
fn a_manifest_counts_what_it_holds() {
    let mut holes = file("d/holes", b"12345");
    if let Kind::File { allocated, .. } = &mut holes.kind {
        *allocated = 2;
    }
    let manifest = tree(vec![dir("d"), file("d/a", b"abc"), link("d/l", "a"), linked("d/x", 7), holes]);
    assert_eq!((manifest.dirs, manifest.files, manifest.symlinks, manifest.bytes), (1, 3, 1, 9));
    assert_eq!(manifest.hard_linked, [path("d/x")]);
    assert_eq!((manifest.sparse.as_slice(), manifest.sparse_saving), ([path("d/holes")].as_slice(), 3));
}

#[test]
fn the_same_tree_passes() {
    let entries = || vec![dir("d"), file("d/a", b"abc"), link("d/l", "a"), linked("d/x", 7), linked("d/y", 7)];
    assert!(verify_against(&tree(entries()), &tree(entries())).is_ok());
    assert!(same_shape(&tree(entries()), &tree(entries())));
    assert!(same_data(&tree(entries()), &tree(entries())));
}

#[test]
fn every_difference_is_reported() {
    assert_eq!(
        problems(vec![dir("a"), dir("b")], vec![dir("a")]),
        ["entry count differs: source has 2, copy has 1", "missing from the copy: b"]
    );
    assert_eq!(
        problems(vec![dir("a")], vec![dir("a"), dir("b")]),
        ["entry count differs: source has 1, copy has 2", "unexpected extra entry in the copy: b"]
    );
    let mut locked = dir("a");
    locked.mode = 0o40500;
    assert_eq!(
        problems(vec![dir("a")], vec![locked]),
        ["a: permissions are 755 in the source and 500 in the copy"]
    );
    assert_eq!(
        problems(vec![file("f", b"ab")], vec![file("f", b"abc")]),
        ["f: size 2 in the source, 3 in the copy"]
    );
    assert_eq!(
        problems(vec![file("f", b"")], vec![{
            let mut other = file("f", b"");
            if let Kind::File { digest, .. } = &mut other.kind {
                *digest = None;
            }
            other
        }]),
        ["f: contents differ (source e3b0c44298fc1c149afbf4c8996fb92427ae41e4649b934ca495991b7852b855, copy )"]
    );
    assert_eq!(
        problems(vec![link("l", "a")], vec![link("l", "b")]),
        ["l: link points at a in the source and b in the copy"]
    );
    let mut plain = dir("x");
    plain.mode = 0o100644;
    assert_eq!(
        problems(vec![file("x", b"")], vec![plain]),
        [format!("x: {} in the source, {} in the copy", file("x", b"").kind.label(), Kind::Dir.label())]
    );
}

#[test]
fn equal_sized_but_different_data_is_still_a_conflict() {
    let left = tree(vec![file("save.dat", b"AAAA")]);
    let right = tree(vec![file("save.dat", b"BBBB")]);
    assert!(same_shape(&left, &right));
    assert!(!same_data(&left, &right));
}

#[test]
fn shared_files_have_to_stay_shared() {
    let shared = tree(vec![linked("a", 5), linked("b", 5)]);
    let moved = tree(vec![linked("a", 9), linked("b", 9)]);
    let apart = tree(vec![linked("a", 5), linked("b", 6)]);
    assert!(compare_link_groups(&shared, &moved).is_empty());
    assert_eq!(
        compare_link_groups(&shared, &apart),
        ["shared files were not reproduced as shared: the source has 1 group(s) of names pointing at one file, the copy has 2"]
    );
}

#[test]
fn changes_during_the_copy_are_noticed() {
    let before = || tree(vec![dir("d"), file("f", b"ab"), link("l", "f"), dir("gone")]);
    assert!(changed_since(&before(), &before()).is_empty());
    let mut touched = dir("d");
    touched.mtime = stamp(2);
    let after = tree(vec![touched, file("f", b"abc"), link("l", "f"), dir("new")]);
    assert_eq!(
        changed_since(&before(), &after),
        [
            "modified during the copy: d",
            "changed during the copy: f",
            "disappeared during the copy: gone",
            "appeared during the copy: new"
        ]
    );
}

#[test]
fn the_digest_of_a_manifest_covers_its_contents() {
    let digest = |entries: Vec<Entry>| manifest_digest(&tree(entries));
    let mut bytes = Vec::new();
    bytes.extend_from_slice(b"d\0d\0f\0f");
    bytes.extend_from_slice(&2u64.to_le_bytes());
    bytes.extend_from_slice(&digest_of(b"ab"));
    bytes.extend_from_slice(b"\0l\0lf\0");
    assert_eq!(digest(vec![link("l", "f"), file("f", b"ab"), dir("d")]), hex(&digest_of(&bytes)));
    assert_ne!(digest(vec![file("f", b"ab")]), digest(vec![file("f", b"ac")]));
}

#[test]
fn links_out_of_the_tree_are_found() {
    let root = path("/lib/compatdata");
    let manifest = tree(vec![
        link("1/z", "/"),
        link("1/pfx/c", "../drive_c"),
        link("1/out", "../../outside"),
        link("1/deep", "../../compatdata/2"),
    ]);
    assert_eq!(escaping_relative_links(&root, &manifest), [(path("1/out"), path("../../outside"))]);
    assert_eq!(lexically_normal(&path("/a/./b/../c")), path("/a/c"));
    assert_eq!(lexically_normal(&path("../a/../..")), path("../.."));
}

#[test]
fn sizes_read_as_a_person_would_write_them() {
    let expected = |bytes: u64| {
        let units = ["B", "KiB", "MiB", "GiB", "TiB"];
        let mut value = bytes as f64;
        let mut unit = 0;
        while value >= 1024.0 && unit < units.len() - 1 {
            value /= 1024.0;
            unit += 1;
        }
        if unit == 0 {
            format!("{bytes} B")
        } else {
            format!("{value:.1} {}", units[unit])
        }
    };
    assert_eq!(human_bytes(0), "0 B");
    assert_eq!(human_bytes(1023), "1023 B");
    assert_eq!(human_bytes(1536), "1.5 KiB");
    assert_eq!(human_bytes(2_147_483_648), "2.0 GiB");
    let mut n: u64 = 1;
    for step in 0..400u64 {
        for value in [n, n + 1, n.saturating_mul(3), n.saturating_mul(1000), u64::MAX - n] {
            assert_eq!(human_bytes(value), expected(value), "{value}");
        }
        n = n.wrapping_mul(7).wrapping_add(step) >> 1;
        n = n.max(1);
    }
    // Half a tenth rounds to the even tenth, where it can be told exactly.
    for tenth in 0..64u64 {
        let value = 1024 + tenth * 16;
        assert_eq!(human_bytes(value), expected(value), "{value}");
        let large = (1u64 << 40) + tenth * (1u64 << 34);
        assert_eq!(human_bytes(large), expected(large), "{large}");
    }
}

#[test]
fn originals_are_carried_when_nothing_is_missing() {
    let original = || tree(vec![dir("1"), file("1/save", b"old")]);
    let newer = tree(vec![dir("1"), file("1/save", b"newer"), file("1/more", b"x")]);
    assert!(not_carried(&original(), &original()).is_empty());
    assert!(not_carried(&original(), &newer).is_empty());
    assert_eq!(not_carried(&original(), &tree(vec![dir("1")])), [path("1/save")]);
}

/// A disk that a walk is answered from.
fn look(at: &FilePath) -> Facts {
    let plain = |size: u64, links: u64, inode: u64| Found::File {
        size,
        links,
        identity: (1, inode),
        allocated: size,
        digest: Some(digest_of(b"x")),
    };
    let found = match at.display().as_str() {
        "a" => Found::Dir,
        "a/one" => plain(10, 2, 5),
        "a/two" => plain(10, 2, 5),
        "b" => plain(3, 1, 6),
        "l" => Found::Symlink { target: path("a") },
        _ => Found::Other,
    };
    Facts { mode: 0o755, mtime: stamp(1), found }
}

fn names_in(rel: &FilePath) -> Vec<Vec<u8>> {
    match rel.display().as_str() {
        "" => vec![b"l".to_vec(), b"b".to_vec(), b"a".to_vec()],
        "a" => vec![b"two".to_vec(), b"one".to_vec()],
        _ => Vec::new(),
    }
}

enum Step {
    List(Vec<Vec<u8>>),
    Look(Facts),
    Copied,
    Made,
}

fn run(mut walk: Walk) -> (Walk, Vec<String>) {
    let mut log = Vec::new();
    loop {
        let step = match walk.next().unwrap() {
            None => return (walk, log),
            Some(Task::List { rel, .. }) => Step::List(names_in(rel)),
            Some(Task::Examine { rel, .. }) => Step::Look(look(rel)),
            Some(Task::CopyFile { rel, .. }) => {
                log.push(format!("copy {}", rel.display()));
                Step::Copied
            }
            Some(Task::LinkFile { first, rel, size }) => {
                assert_eq!(*size, 10);
                log.push(format!("link {} {}", first.display(), rel.display()));
                Step::Made
            }
            Some(Task::MakeDir { rel }) => {
                log.push(format!("dir {}", rel.display()));
                Step::Made
            }
            Some(Task::MakeLink { rel, target }) => {
                log.push(format!("symlink {} {}", rel.display(), target.display()));
                Step::Made
            }
            Some(Task::CloseDir { rel, .. }) => {
                log.push(format!("close {}", rel.display()));
                Step::Made
            }
        };
        match step {
            Step::List(names) => walk.listed(&names),
            Step::Look(facts) => {
                assert!(walk.has_room_for(20));
                walk.examined(facts).unwrap()
            }
            Step::Copied => walk.copied(digest_of(b"x")),
            Step::Made => walk.made(),
        }
    }
}

#[test]
fn an_inventory_has_every_entry_in_order() {
    let (walk, log) = run(inventory(&path("/src")));
    assert!(log.is_empty());
    let manifest = walk.finish();
    let names: Vec<String> = manifest.entries.iter().map(|e| e.rel.display()).collect();
    assert_eq!(names, ["a", "a/one", "a/two", "b", "l"]);
    let (walk, _) = run(inventory(&path("/src")));
    assert_eq!(tree_size(walk), 23);
}

#[test]
fn a_shared_file_is_copied_once_and_linked_again() {
    let walk = copy_tree(&path("/src"), &path("/dst"), Ok(false), Ok(false), false).unwrap();
    let (walk, log) = run(walk);
    assert_eq!(
        log,
        ["dir a", "copy a/one", "link a/one a/two", "close a", "copy b", "symlink l a"]
    );
    let manifest = walk.finish();
    assert_eq!((manifest.files, manifest.dirs, manifest.symlinks, manifest.bytes), (3, 1, 1, 23));
}

#[test]
fn a_tree_is_not_copied_into_itself_or_over_something() {
    let start = |holds: Result<bool, String>, held: Result<bool, String>, exists: bool| {
        copy_tree(&path("/a"), &path("/a/b"), holds, held, exists).err().unwrap()
    };
    assert_eq!(start(Ok(true), Ok(false), false), "refusing to copy /a into /a/b: one path contains the other");
    assert_eq!(start(Ok(false), Ok(true), false), "refusing to copy /a into /a/b: one path contains the other");
    assert_eq!(start(Ok(false), Ok(false), true), "/a/b: already exists");
    assert_eq!(start(Err("why".to_string()), Ok(false), false), "why");
}

#[test]
fn special_files_and_deep_trees_stop_a_walk() {
    let mut walk = inventory(&path("/src"));
    walk.listed(&vec![b"pipe".to_vec()]);
    let error = walk.examined(look(&path("pipe"))).unwrap_err();
    assert_eq!(
        error,
        "/src/pipe: not a regular file, directory or symlink. LibraryBridge will not copy sockets, pipes or device nodes, so this tree needs manual attention."
    );

    let mut walk = inventory(&path("/src"));
    let mut depth = 0;
    let error = loop {
        let listing = match walk.next() {
            Err(error) => break error,
            Ok(Some(Task::List { .. })) => true,
            Ok(_) => false,
        };
        if listing {
            walk.listed(&vec![b"d".to_vec()]);
            depth += 1;
        } else {
            walk.examined(Facts { mode: 0o755, mtime: None, found: Found::Dir }).unwrap();
        }
    };
    assert_eq!(depth, 129);
    assert!(error.ends_with(": directory nesting is deeper than 128 levels, refusing to continue"), "{error}");
}

#[test]
fn what_a_copy_makes_is_the_tree() {
    let walk = copy_tree(&path("/src"), &path("/dst"), Ok(false), Ok(false), false).unwrap();
    let (walk, log) = run(walk);
    let recorded = walk.finish();
    let mut made: Vec<Entry> = Vec::new();
    for line in &log {
        let words: Vec<&str> = line.split(' ').collect();
        let new_file = |size: u64, links: u64| Kind::File {
            size,
            digest: Some(digest_of(b"x")),
            links,
            identity: (2, 100 + made.len() as u64),
            allocated: 0,
        };
        let entry = match words[0] {
            "dir" => Some((words[1], Kind::Dir)),
            "symlink" => Some((words[1], Kind::Symlink { target: path(words[2]) })),
            "copy" if words[1] == "a/one" => Some((words[1], new_file(10, 2))),
            "copy" => Some((words[1], new_file(3, 1))),
            "link" => {
                let first = made.iter().find(|e| e.rel == path(words[1])).unwrap();
                match &first.kind {
                    Kind::File { size, digest, links, identity, allocated } => Some((
                        words[2],
                        Kind::File {
                            size: *size,
                            digest: *digest,
                            links: *links,
                            identity: *identity,
                            allocated: *allocated,
                        },
                    )),
                    _ => None,
                }
            }
            _ => None,
        };
        if let Some((rel, kind)) = entry {
            made.push(Entry { rel: path(rel), kind, mode: 0o755, mtime: stamp(1) });
        }
    }
    assert_eq!(made.len(), 5);
    let seen = run(inventory(&path("/src"))).0.finish();
    assert_eq!(format!("{:?}", seen.entries), format!("{:?}", recorded.entries));
    let made = tree(made);
    assert_eq!(verify_against(&recorded, &made), Ok(()));
    assert_eq!(manifest_digest(&recorded), manifest_digest(&made));
    let digest = manifest_digest(&made);
    assert_eq!(digest.len(), 64);
    assert!(digest.chars().all(|c| c.is_ascii_hexdigit()));
}

#[test]
fn a_copy_is_given_the_time_of_its_original() {
    let time = Some(Stamp { seconds: 7, nanos: 9 });
    assert_eq!(time_to_give(&time), Stamp { seconds: 7, nanos: 9 });
    assert_eq!(time_to_give(&Some(Stamp { seconds: 0, nanos: 5 })), Stamp { seconds: 0, nanos: 5 });
    assert_eq!(time_to_give(&Some(Stamp { seconds: -1, nanos: 5 })), Stamp { seconds: 0, nanos: 0 });
    assert_eq!(time_to_give(&None), Stamp { seconds: 0, nanos: 0 });
}
