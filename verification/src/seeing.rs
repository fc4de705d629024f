//! What is made of what the system says and of what a library's directories show.

use vstd::prelude::*;
use vstd::utf8::{encode_utf8, is_ascii_chars, is_ascii_chars_encode_utf8};

use crate::path::{
    inside, is_name_text, law_parent_drops_the_last_step, lemma_name_text_below, parent_of, parts, under, PartView,
};
use crate::sort::{lemma_some_order, order_of};
use crate::state::{
    backups_among, backups_in, free_name, law_next_free_is_free, lemma_series_differs, link_target, names_backup,
    newest_first, number_of_backup, own_dir, path_named, report_of, run_name, series_name, SeenView, SightView,
    StateView,
};
use crate::steam::{data_root_of, target_in_use, InstallKind, LibraryView};
use crate::system::{
    available, blocking_in, blocks, capability_of, covering, device_type, each_trimmed, free_bytes, free_kilobytes,
    fuse_type_of, identified, law_filesystems_are_known_by_name, mount_of, place_of, running_steam_processes,
    unescaped, unidentified, BLOCKING_PROCESSES, Capability, MountView,
};
use crate::text::{
    decimal_text, holds, is_digit, lemma_decimal_digits, lines_of, split, texts, trimmed, utf8_text, words_of,
};

verus! {

/// An escape of three octal digits is the byte it stands for, and a byte that is no backslash is itself.
pub proof fn law_octal_escapes_are_undone(b: Seq<u8>, at: int, byte: u8)
    requires
        0 <= at < b.len(),
    ensures
        b[at] != 92 ==> unescaped(b, at) == seq![b[at] as char] + unescaped(b, at + 1),
        at + 4 <= b.len() && b[at] == 92 && b[at + 1] == 48 + byte / 64 && b[at + 2] == 48 + byte / 8 % 8 && b[at + 3]
            == 48 + byte % 8 ==> unescaped(b, at) == seq![byte as char] + unescaped(b, at + 4),
        unescaped(b, b.len() as int) == Seq::<char>::empty(),
{
    assert((byte / 64) * 64 + (byte / 8 % 8) * 8 + byte % 8 == byte);
}

/// A text of ASCII without backslashes is read as it is.
pub proof fn law_plain_fields_stay(text: Seq<char>, at: int)
    requires
        is_ascii_chars(text),
        forall|i: int| 0 <= i < text.len() ==> #[trigger] text[i] != '\\',
        0 <= at <= text.len(),
    ensures
        unescaped(encode_utf8(text), at) == text.skip(at),
    decreases text.len() - at,
{
    is_ascii_chars_encode_utf8(text);
    let b = encode_utf8(text);
    if at < text.len() {
        law_plain_fields_stay(text, at + 1);
        assert(text[at] as u8 == b[at]);
        assert(text[at] != '\\');
        assert(b[at] as char == text[at]);
        assert(text.skip(at) =~= seq![text[at]] + text.skip(at + 1));
    } else {
        assert(text.skip(at) =~= Seq::empty());
    }
}

proof fn lemma_place_of(list: Seq<Seq<char>>, text: Seq<char>)
    ensures
        match place_of(list, text) {
            Some(at) => 0 <= at < list.len() && list[at] == text && forall|i: int|
                0 <= i < at ==> #[trigger] list[i] != text,
            None => forall|i: int| 0 <= i < list.len() ==> #[trigger] list[i] != text,
        },
    decreases list.len(),
{
    if list.len() > 0 {
        let front = list.drop_last();
        lemma_place_of(front, text);
        assert forall|i: int| 0 <= i < front.len() implies front[i] == #[trigger] list[i] by {}
    }
}

/// A line of the mount table says where something is mounted in its fifth field and how in its sixth. The first field
/// that is a lone dash is followed by the type of the filesystem, what it is on, and how that is mounted. Read-only is
/// what either says is. A line with fewer than ten fields, or without the dash, says nothing.
pub proof fn law_mount_line_is_read_by_its_fields(line: Seq<char>, dash: int)
    ensures
        ({
            let fields = split(line, ' ');
            &&& fields.len() < 10 ==> mount_of(line) is None
            &&& !fields.contains("-"@) ==> mount_of(line) is None
            &&& 0 <= dash && dash + 2 < fields.len() && fields.len() >= 10 && fields[dash] == "-"@ && (forall|i: int|
                0 <= i < dash ==> #[trigger] fields[i] != "-"@) ==> {
                let point = unescaped(encode_utf8(fields[4]), 0);
                &&& mount_of(line) is Some
                &&& mount_of(line)->0.mount_point == encode_utf8(point)
                &&& mount_of(line)->0.source == unescaped(encode_utf8(fields[dash + 2]), 0)
                &&& fields[dash + 1] != "fuseblk"@ ==> mount_of(line)->0.fs_type == fields[dash + 1]
                &&& mount_of(line)->0.read_only <==> split(fields[5], ',').contains("ro"@) || (dash + 3 < fields.len()
                    && split(fields[dash + 3], ',').contains("ro"@))
            }
            &&& mount_of(line) matches Some(mount) ==> mount.capability == capability_of(mount.fs_type)
        }),
{
    let fields = split(line, ' ');
    lemma_place_of(fields, "-"@);
    if !fields.contains("-"@) {
        if let Some(at) = place_of(fields, "-"@) {
            assert(fields[at] == "-"@);
        }
    }
    if 0 <= dash && dash + 2 < fields.len() && fields[dash] == "-"@ && (forall|i: int|
        0 <= i < dash ==> #[trigger] fields[i] != "-"@) {
        assert(place_of(fields, "-"@) == Some(dash));
    }
}

/// A filesystem in user space on a block device is taken for NTFS where its source says so and for nothing known where
/// not; every other keeps its type.
pub proof fn law_user_space_ntfs_is_recognised(fs_type: Seq<char>, hint: Seq<char>)
    ensures
        fs_type != "fuseblk"@ ==> fuse_type_of(fs_type, hint) == fs_type,
        holds(hint, "ntfs"@) ==> capability_of(fuse_type_of("fuseblk"@, hint)) == Capability::NeedsRepair,
        !holds(hint, "ntfs"@) ==> capability_of(fuse_type_of("fuseblk"@, hint)) == Capability::Unknown,
{
    lemma_fuse_is_unknown();
    law_filesystems_are_known_by_name("ntfs-3g"@);
    let ntfs = seq!["ntfs"@, "ntfs3"@, "ntfs-3g"@];
    assert(ntfs[2] == "ntfs-3g"@);
}

proof fn lemma_fuse_is_unknown()
    ensures
        capability_of("fuseblk"@) == Capability::Unknown,
{
    reveal_strlit("ext2");
    reveal_strlit("ext3");
    reveal_strlit("ext4");
    reveal_strlit("btrfs");
    reveal_strlit("xfs");
    reveal_strlit("f2fs");
    reveal_strlit("zfs");
    reveal_strlit("bcachefs");
    reveal_strlit("reiserfs");
    reveal_strlit("jfs");
    reveal_strlit("nilfs2");
    reveal_strlit("overlay");
    reveal_strlit("apfs");
    reveal_strlit("hfs");
    reveal_strlit("ntfs");
    reveal_strlit("ntfs3");
    reveal_strlit("ntfs-3g");
    reveal_strlit("exfat");
    reveal_strlit("vfat");
    reveal_strlit("msdos");
    reveal_strlit("fat");
    reveal_strlit("fat32");
    reveal_strlit("iso9660");
    reveal_strlit("udf");
    reveal_strlit("fuseblk");
    assert("ext2"@.len() != 7 || "ext2"@[0] != 'f');
    assert("ext3"@.len() != 7 || "ext3"@[0] != 'f');
    assert("ext4"@.len() != 7 || "ext4"@[0] != 'f');
    assert("btrfs"@.len() != 7 || "btrfs"@[0] != 'f');
    assert("xfs"@.len() != 7 || "xfs"@[0] != 'f');
    assert("f2fs"@.len() != 7 || "f2fs"@[0] != 'f');
    assert("zfs"@.len() != 7 || "zfs"@[0] != 'f');
    assert("bcachefs"@.len() != 7 || "bcachefs"@[0] != 'f');
    assert("reiserfs"@.len() != 7 || "reiserfs"@[0] != 'f');
    assert("jfs"@.len() != 7 || "jfs"@[0] != 'f');
    assert("nilfs2"@.len() != 7 || "nilfs2"@[0] != 'f');
    assert("overlay"@.len() != 7 || "overlay"@[0] != 'f');
    assert("apfs"@.len() != 7 || "apfs"@[0] != 'f');
    assert("hfs"@.len() != 7 || "hfs"@[0] != 'f');
    assert("ntfs"@.len() != 7 || "ntfs"@[0] != 'f');
    assert("ntfs3"@.len() != 7 || "ntfs3"@[0] != 'f');
    assert("ntfs-3g"@.len() != 7 || "ntfs-3g"@[0] != 'f');
    assert("exfat"@.len() != 7 || "exfat"@[0] != 'f');
    assert("vfat"@.len() != 7 || "vfat"@[0] != 'f');
    assert("msdos"@.len() != 7 || "msdos"@[0] != 'f');
    assert("fat"@.len() != 7 || "fat"@[0] != 'f');
    assert("fat32"@.len() != 7 || "fat32"@[0] != 'f');
    assert("iso9660"@.len() != 7 || "iso9660"@[0] != 'f');
    assert("udf"@.len() != 7 || "udf"@[0] != 'f');
    assert("fuseblk"@.len() == 7 && "fuseblk"@[0] == 'f');
}

/// What a device says it holds is used as it says, whatever surrounds it; where it says nothing, nothing is known.
pub proof fn law_device_says_what_it_holds(output: Seq<char>)
    ensures
        device_type(output) is None <==> trimmed(output).len() == 0,
        device_type(output) matches Some(name) ==> capability_of(name) == capability_of(trimmed(output)),
        device_type(output) matches Some(name) ==> (name == trimmed(output) || capability_of(name)
            == Capability::NeedsRepair),
{
    reveal_strlit("");
    assert(""@ =~= Seq::<char>::empty());
    if trimmed(output).len() == 0 {
        assert(trimmed(output) =~= ""@);
    }
    law_filesystems_are_known_by_name("ntfs-3g"@);
    law_filesystems_are_known_by_name("ntfs"@);
    let ntfs = seq!["ntfs"@, "ntfs3"@, "ntfs-3g"@];
    assert(ntfs[0] == "ntfs"@ && ntfs[2] == "ntfs-3g"@);
}

/// Only a filesystem in user space of which nothing is known is looked up on its device, and then what the device holds
/// counts. Nothing else about a mount changes.
pub proof fn law_device_is_asked_only_where_needed(mount: MountView, name: Seq<char>)
    ensures
        unidentified(mount) <==> mount.fs_type == "fuseblk"@ && mount.capability == Capability::Unknown,
        !unidentified(mount) ==> identified(mount, Some(name)) == mount,
        identified(mount, None) == mount,
        unidentified(mount) ==> identified(mount, Some(name)).fs_type == name && identified(mount,
            Some(name)).capability
            == capability_of(name),
        identified(mount, Some(name)).mount_point == mount.mount_point,
        identified(mount, Some(name)).source == mount.source,
        identified(mount, Some(name)).read_only == mount.read_only,
{
}

/// The mount that is found for a path is one of those in the table.
pub proof fn law_found_mount_is_in_the_table(lines: Seq<Seq<char>>, target: Seq<u8>, n: int)
    requires
        0 <= n <= lines.len(),
    ensures
        covering(lines, target, n) matches Some(mount) ==> exists|i: int|
            0 <= i < n && mount_of(#[trigger] lines[i]) == Some(mount),
    decreases n,
{
    if n > 0 {
        law_found_mount_is_in_the_table(lines, target, n - 1);
        if let Some(mount) = covering(lines, target, n) {
            if covering(lines, target, n - 1) == Some(mount) {
                let i = choose|i: int| 0 <= i < n - 1 && mount_of(#[trigger] lines[i]) == Some(mount);
                assert(mount_of(lines[i]) == Some(mount));
            } else {
                assert(mount_of(lines[n - 1]) == Some(mount));
            }
        }
    }
}

/// These and no other processes stand in the way of a repair.
pub proof fn law_blocking_processes_are_known(name: Seq<char>)
    ensures
        blocks(name) <==> seq![
            "steam"@,
            "steamwebhelper"@,
            "wineserver"@,
            "wine64-preloader"@,
            "proton"@,
            "pressure-vessel-wrap"@,
            "gameoverlayui"@,
        ].contains(name),
{
    let table = seq![
        "steam"@,
        "steamwebhelper"@,
        "wineserver"@,
        "wine64-preloader"@,
        "proton"@,
        "pressure-vessel-wrap"@,
        "gameoverlayui"@,
    ];
    assert(BLOCKING_PROCESSES@[0] == "steam" && BLOCKING_PROCESSES@[1] == "steamwebhelper" && BLOCKING_PROCESSES@[2]
        == "wineserver" && BLOCKING_PROCESSES@[3] == "wine64-preloader" && BLOCKING_PROCESSES@[4] == "proton"
        && BLOCKING_PROCESSES@[5] == "pressure-vessel-wrap" && BLOCKING_PROCESSES@[6] == "gameoverlayui");
    assert forall|i: int| 0 <= i < 7 implies #[trigger] table[i] == BLOCKING_PROCESSES@[i]@ by {
        assert(i == 0 || i == 1 || i == 2 || i == 3 || i == 4 || i == 5 || i == 6);
    }
    if table.contains(name) {
        let i = choose|i: int| 0 <= i < table.len() && table[i] == name;
        assert(BLOCKING_PROCESSES@[i]@ == name);
    }
    if blocks(name) {
        let i = choose|i: int| 0 <= i < 7 && (#[trigger] BLOCKING_PROCESSES@[i])@ == name;
        assert(table[i] == name);
    }
}

/// Of the processes that run, each that stands in the way is named, once, and no other is.
pub proof fn law_every_blocking_process_is_named(names: Seq<Seq<char>>)
    ensures
        forall|i: int|
            0 <= i < names.len() ==> (blocks(#[trigger] names[i]) <==> blocking_in(names).contains(names[i])),
        forall|k: int|
            0 <= k < blocking_in(names).len() ==> names.contains(#[trigger] blocking_in(names)[k]) && blocks(
                blocking_in(names)[k],
            ),
        blocking_in(names).no_duplicates(),
    decreases names.len(),
{
    if names.len() > 0 {
        let front = names.drop_last();
        let before = blocking_in(front);
        let all = blocking_in(names);
        law_every_blocking_process_is_named(front);
        assert forall|k: int| 0 <= k < all.len() implies names.contains(#[trigger] all[k]) && blocks(all[k]) by {
            if k < before.len() {
                assert(front.contains(before[k]));
                let i = choose|i: int| 0 <= i < front.len() && front[i] == before[k];
                assert(names[i] == all[k]);
            } else {
                assert(names[names.len() - 1] == all[k]);
            }
        }
        assert forall|i: int| 0 <= i < names.len() implies (blocks(#[trigger] names[i]) <==> all.contains(
            names[i])) by {
            if blocks(names[i]) {
                if i < front.len() {
                    assert(front[i] == names[i]);
                    assert(before.contains(names[i]));
                }
                if before.contains(names[i]) {
                    let k = choose|k: int| 0 <= k < before.len() && before[k] == names[i];
                    assert(all[k] == names[i]);
                } else {
                    assert(all[before.len() as int] == names[i]);
                }
            }
            if all.contains(names[i]) {
                let k = choose|k: int| 0 <= k < all.len() && all[k] == names[i];
                assert(blocks(all[k]));
            }
        }
    }
}

/// The free bytes are 1024 for each free kilobyte.
pub proof fn law_a_kilobyte_is_1024_bytes(output: &str, kilobytes: Option<u64>, bytes: Option<u64>)
    requires
        call_ensures(free_kilobytes, (output,), kilobytes),
        call_ensures(free_bytes, (output,), bytes),
    ensures
        bytes is Some <==> kilobytes is Some,
        bytes is Some ==> bytes->0 == kilobytes->0 * 1024,
{
}

/// The free kilobytes are the fourth word of the second line; where there is no such number, nothing is known.
pub proof fn law_free_space_stands_in_the_second_line(output: Seq<char>, n: u64)
    ensures
        lines_of(output).len() >= 2 && words_of(lines_of(output)[1]).len() >= 4 && words_of(lines_of(output)[1])[3]
            == decimal_text(n as nat) ==> available(output) == Some(n as nat),
        lines_of(output).len() < 2 ==> available(output) is None,
        lines_of(output).len() >= 2 && words_of(lines_of(output)[1]).len() < 4 ==> available(output) is None,
{
    crate::text::law_decimal_reads_back(n as nat);
}

/// The tool keeps its own files, and the data of native Steam, in one directory of its name below the user's data
/// directory.
pub proof fn law_own_files_are_beside_the_data(xdg: Option<Seq<u8>>, home: Seq<u8>, library: LibraryView)
    requires
        library.places.chosen is None,
        library.places.native == data_root_of(xdg, Some(home)),
        library.install_kind == InstallKind::Native,
    ensures
        own_dir(xdg, Some(home)) == library.root(),
        parts(own_dir(xdg, Some(home))) == parts(data_root_of(xdg, Some(home))).push(
            PartView::Name(encode_utf8("librarybridge"@)),
        ),
{
    assert(is_name_text("librarybridge"@)) by {
        reveal_strlit("librarybridge");
    }
    lemma_name_text_below(data_root_of(xdg, Some(home)), "librarybridge"@);
}

/// Two runs of the tool, by their processes and the clock, never use the same name.
pub proof fn law_names_of_runs_differ(prefix: Seq<char>, process: u32, stamp: u32, other: u32, other_stamp: u32)
    requires
        run_name(prefix, process, stamp) == run_name(prefix, other, other_stamp),
    ensures
        process == other,
        stamp == other_stamp,
{
    reveal_strlit("-");
    let a = decimal_text(process as nat);
    let b = decimal_text(other as nat);
    let x = decimal_text(stamp as nat);
    let y = decimal_text(other_stamp as nat);
    lemma_decimal_digits(process as nat);
    lemma_decimal_digits(other as nat);
    lemma_decimal_digits(stamp as nat);
    lemma_decimal_digits(other_stamp as nat);
    let left = run_name(prefix, process, stamp);
    let right = run_name(prefix, other, other_stamp);
    let n = prefix.len() as int + 1;
    if a.len() < b.len() {
        assert(left[n + a.len()] == '-');
        assert(right[n + a.len()] == b[a.len() as int]);
        assert(is_digit(b[a.len() as int]));
    } else if b.len() < a.len() {
        assert(right[n + b.len()] == '-');
        assert(left[n + b.len()] == a[b.len() as int]);
        assert(is_digit(a[b.len() as int]));
    }
    assert(left.subrange(n, n + a.len()) =~= a);
    assert(right.subrange(n, n + b.len()) =~= b);
    assert(left.skip(n + a.len() + 1) =~= x);
    assert(right.skip(n + b.len() + 1) =~= y);
}

/// A name in a directory that begins so is found, the first of them, and nothing else is.
pub proof fn law_leftovers_are_found_by_their_names(dir: Seq<u8>, names: Seq<Seq<u8>>, prefix: Seq<char>)
    ensures
        (forall|i: int| 0 <= i < names.len() ==> !encode_utf8(prefix).is_prefix_of(#[trigger] names[i])) ==> path_named(
            dir,
            names,
            prefix,
        ) is None,
        forall|i: int|
            0 <= i < names.len() && encode_utf8(prefix).is_prefix_of(#[trigger] names[i]) && (forall|k: int|
                0 <= k < i ==> !encode_utf8(prefix).is_prefix_of(#[trigger] names[k])) ==> path_named(dir, names,
                    prefix)
                == Some(under(dir, names[i])),
    decreases names.len(),
{
    let front = encode_utf8(prefix);
    if names.len() > 0 && !front.is_prefix_of(names[0]) {
        let rest = names.skip(1);
        law_leftovers_are_found_by_their_names(dir, rest, prefix);
        assert(forall|i: int| 0 <= i < rest.len() ==> #[trigger] rest[i] == names[i + 1]);
        assert forall|i: int|
            0 <= i < names.len() && front.is_prefix_of(#[trigger] names[i]) && (forall|k: int|
                0 <= k < i ==> !front.is_prefix_of(#[trigger] names[k])) implies path_named(dir, names, prefix) == Some(
            under(dir, names[i]),
        ) by {
            assert(rest[i - 1] == names[i]);
            assert forall|k: int| 0 <= k < i - 1 implies !front.is_prefix_of(#[trigger] rest[k]) by {
                assert(rest[k] == names[k + 1]);
            }
        }
        if forall|i: int| 0 <= i < names.len() ==> !front.is_prefix_of(#[trigger] names[i]) {
            assert forall|i: int| 0 <= i < rest.len() implies !front.is_prefix_of(#[trigger] rest[i]) by {
                assert(rest[i] == names[i + 1]);
            }
        }
    }
}

proof fn lemma_backups_among(names: Seq<Seq<u8>>)
    ensures
        backups_among(names).len() <= names.len(),
        forall|i: int|
            0 <= i < names.len() && number_of_backup(utf8_text(#[trigger] names[i])) is Some ==> backups_among(
                names,
            ).contains((number_of_backup(utf8_text(names[i]))->0, names[i])),
        forall|k: int|
            0 <= k < backups_among(names).len() ==> names.contains((#[trigger] backups_among(names)[k]).1)
                && number_of_backup(utf8_text(backups_among(names)[k].1)) == Some(backups_among(names)[k].0),
    decreases names.len(),
{
    if names.len() > 0 {
        let front = names.drop_last();
        let before = backups_among(front);
        let all = backups_among(names);
        lemma_backups_among(front);
        assert forall|i: int|
            0 <= i < names.len() && number_of_backup(utf8_text(#[trigger] names[i])) is Some implies all.contains(
            (number_of_backup(utf8_text(names[i]))->0, names[i]),
        ) by {
            let wanted = (number_of_backup(utf8_text(names[i]))->0, names[i]);
            if i < front.len() {
                assert(front[i] == names[i]);
                assert(before.contains(wanted));
                let k = choose|k: int| 0 <= k < before.len() && before[k] == wanted;
                assert(all[k] == wanted);
            } else {
                assert(all[before.len() as int] == wanted);
            }
        }
        assert forall|k: int| 0 <= k < all.len() implies names.contains((#[trigger] all[k]).1) && number_of_backup(
            utf8_text(all[k].1),
        ) == Some(all[k].0) by {
            if k < before.len() {
                assert(front.contains(before[k].1));
                let i = choose|i: int| 0 <= i < front.len() && front[i] == before[k].1;
                assert(names[i] == all[k].1);
            } else {
                assert(names[names.len() - 1] == all[k].1);
            }
        }
    }
}

/// The backups beside a library are exactly the names there that are in the series of backups, and the one of the
/// highest number is the first.
pub proof fn law_backups_are_those_of_the_series(dir: Seq<u8>, names: Seq<Seq<u8>>)
    requires
        names.len() <= usize::MAX,
    ensures
        forall|i: int|
            0 <= i < names.len() && number_of_backup(utf8_text(#[trigger] names[i])) is Some ==> backups_in(
                dir,
                names,
            ).contains(under(dir, names[i])),
        forall|k: int|
            0 <= k < backups_in(dir, names).len() ==> is_backup_in(dir, names, #[trigger] backups_in(dir, names)[k]),
        backups_in(dir, names).len() > 0 ==> exists|i: int|
            0 <= i < names.len() && backups_in(dir, names)[0] == under(dir, #[trigger] names[i]) && is_newest(names, i),
{
    let found = backups_among(names);
    let list = backups_in(dir, names);
    lemma_backups_among(names);
    lemma_some_order(newest_first(found));
    let places = order_of(newest_first(found));
    assert forall|i: int| 0 <= i < names.len() && number_of_backup(utf8_text(#[trigger] names[i])) is Some implies
        list.contains(under(dir, names[i])) by {
        let wanted = (number_of_backup(utf8_text(names[i]))->0, names[i]);
        let k = choose|k: int| 0 <= k < found.len() && found[k] == wanted;
        assert(places.contains(k as usize));
        let m = choose|m: int| 0 <= m < places.len() && places[m] == k as usize;
        assert(list[m] == under(dir, names[i]));
    }
    assert forall|k: int| 0 <= k < list.len() implies is_backup_in(dir, names, #[trigger] list[k]) by {
        assert(places[k] < newest_first(found).len());
        let entry = found[places[k] as int];
        assert(names.contains(entry.1));
        let i = choose|i: int| 0 <= i < names.len() && names[i] == entry.1;
        assert(list[k] == under(dir, names[i]));
    }
    if list.len() > 0 {
        assert(places[0] < newest_first(found).len());
        let entry = found[places[0] as int];
        assert(names.contains(entry.1));
        let i = choose|i: int| 0 <= i < names.len() && names[i] == entry.1;
        assert forall|m: int| 0 <= m < names.len() && number_of_backup(utf8_text(#[trigger] names[m])) is Some implies
            number_of_backup(utf8_text(names[m]))->0 <= entry.0 by {
            let wanted = (number_of_backup(utf8_text(names[m]))->0, names[m]);
            let k = choose|k: int| 0 <= k < found.len() && found[k] == wanted;
            assert(places.contains(k as usize));
            let n = choose|n: int| 0 <= n < places.len() && places[n] == k as usize;
            if n > 0 {
                crate::state::law_newest_backup_first(names, 0, n);
            }
        }
        assert(list[0] == under(dir, names[i]) && is_newest(names, i));
    }
}

pub open spec fn is_backup_in(dir: Seq<u8>, names: Seq<Seq<u8>>, path: Seq<u8>) -> bool {
    exists|i: int|
        0 <= i < names.len() && number_of_backup(utf8_text(#[trigger] names[i])) is Some && path == under(dir, names[i])
}

/// Has the name the highest number of the series?
pub open spec fn is_newest(names: Seq<Seq<u8>>, i: int) -> bool {
    number_of_backup(utf8_text(names[i])) is Some && forall|m: int|
        0 <= m < names.len() && number_of_backup(utf8_text(#[trigger] names[m])) is Some ==> number_of_backup(
            utf8_text(names[m]),
        )->0 <= number_of_backup(utf8_text(names[i]))->0
}

/// A link that is absolute leads where it says; any other leads from the directory that it is in.
pub proof fn law_links_lead_from_their_directory(dir: Seq<u8>, name: Seq<u8>, text: Seq<u8>)
    requires
        crate::path::is_name(name),
    ensures
        text.len() > 0 && text[0] == 47 ==> link_target(under(dir, name), text) == text,
        crate::path::is_name(text) ==> parts(link_target(under(dir, name), text)) == parts(dir).push(
            PartView::Name(text),
        ),
{
    let link = under(dir, name);
    crate::path::law_name_under_path(dir, name);
    crate::path::lemma_name_parts(name);
    crate::path::law_join_adds_steps(dir, name);
    law_parent_drops_the_last_step(link);
    if crate::path::is_name(text) {
        crate::path::lemma_name_parts(text);
        assert(parts(link) =~= parts(dir).push(PartView::Name(name)));
        assert(parts(link).drop_last() =~= parts(dir));
        crate::path::law_join_adds_steps(parent_of(link)->0, text);
        assert(parts(link_target(link, text)) =~= parts(dir).push(PartView::Name(text)));
    }
}

/// What is at the place of a library's Proton data says what its state is: nothing is said of a drive that is not there;
/// a directory is to be repaired; a link is broken where it leads nowhere, done where it leads to the library's own
/// destination, and left alone where it leads to another directory.
pub proof fn law_state_is_what_is_there(library: LibraryView, sight: SightView)
    ensures
        ({
            let state = report_of(library, sight).state;
            &&& !library.connected <==> state is Disconnected
            &&& library.connected ==> match sight.compatdata {
                SeenView::Dir { inside } => state == StateView::NotRepaired { prefixes: inside },
                SeenView::Nothing => state is NoCompatdata || state is InterruptedAwaitingLink,
                SeenView::Link { text, exists, is_dir, inside } => {
                    let target = link_target(library.compatdata, text);
                    &&& !exists ==> state == StateView::DanglingLink { target }
                    &&& exists && !is_dir ==> state is Unusable
                    &&& exists && is_dir && library.owns(target) ==> state == StateView::Repaired {
                        target,
                        prefixes: inside,
                    }
                    &&& exists && is_dir && !library.owns(target) ==> state == StateView::LinkedElsewhere { target }
                },
                SeenView::UnreadableLink { .. } => state is Unusable,
                SeenView::Other { .. } => state is Unusable,
            }
            &&& state matches StateView::InterruptedAwaitingLink { backup } ==> report_of(library, sight).backups.len()
                > 0 && backup == report_of(library, sight).backups[0]
        }),
{
}

/// A report names the backups beside the library, a copy that was left beside the destination, a copy back that was left
/// beside the library, and what is at the destination of a library that is not repaired.
pub proof fn law_report_names_what_was_left(library: LibraryView, sight: SightView)
    ensures
        ({
            let report = report_of(library, sight);
            let target = target_in_use(library, sight.root_names);
            &&& report.backups == backups_in(library.steamapps, sight.steamapps_names)
            &&& report.interrupted_restore == path_named(
                library.steamapps,
                sight.steamapps_names,
                "compatdata.restoring"@,
            )
            &&& parent_of(target) is Some ==> report.abandoned_copy == path_named(
                parent_of(target)->0,
                sight.beside_names,
                "compatdata.incomplete"@,
            )
            &&& report.existing_destination is Some <==> sight.destination_exists && report.state !is Repaired
            &&& report.existing_destination is Some ==> report.existing_destination == Some(target)
        }),
{
}

/// The name under which an original is set aside is one of the series of backups, and not taken.
pub proof fn law_new_backups_are_backups(names: Seq<Seq<u8>>, n: u32)
    requires
        n >= 1,
        free_name(names, "compatdata.backup"@) == series_name("compatdata.backup"@, n as nat),
    ensures
        number_of_backup(free_name(names, "compatdata.backup"@)) == Some(n),
        !names.contains(encode_utf8(free_name(names, "compatdata.backup"@))),
        n == 1 ==> free_name(names, "compatdata.backup"@) == "compatdata.backup"@,
{
    let name = free_name(names, "compatdata.backup"@);
    assert(names_backup(name, n));
    let m = choose|m: u32| names_backup(name, m);
    lemma_series_differs("compatdata.backup"@, m as nat, n as nat);
    law_next_free_is_free(names, "compatdata.backup"@);
}

/// The name of a run begins with what it is for.
#[verifier::spinoff_prover]
proof fn lemma_run_name_begins(prefix: Seq<char>, process: u32, stamp: u32)
    requires
        is_ascii_chars(prefix),
    ensures
        encode_utf8(prefix).is_prefix_of(encode_utf8(run_name(prefix, process, stamp))),
{
    reveal_strlit("-");
    let name = run_name(prefix, process, stamp);
    lemma_decimal_digits(process as nat);
    lemma_decimal_digits(stamp as nat);
    let a = decimal_text(process as nat);
    let b = decimal_text(stamp as nat);
    let n = prefix.len() as int;
    assert(is_ascii_chars(name)) by {
        assert forall|i: int| 0 <= i < name.len() implies '\0' <= #[trigger] name[i] <= '\u{7f}' by {
            if i < n {
                assert(name[i] == prefix[i]);
            } else if n < i < n + 1 + a.len() {
                assert(name[i] == a[i - n - 1]);
                assert(is_digit(a[i - n - 1]));
            } else if i > n + 1 + a.len() {
                assert(name[i] == b[i - n - 2 - a.len()]);
                assert(is_digit(b[i - n - 2 - a.len()]));
            }
        }
    }
    is_ascii_chars_encode_utf8(prefix);
    is_ascii_chars_encode_utf8(name);
    let whole = encode_utf8(name);
    let front = encode_utf8(prefix);
    assert(whole.subrange(0, n) =~= front) by {
        assert forall|i: int| 0 <= i < n implies whole[i] == front[i] by {
            assert(name[i] as u8 == whole[i]);
            assert(prefix[i] as u8 == front[i]);
        }
    }
}

proof fn lemma_restoring_is_ascii()
    ensures
        is_ascii_chars("compatdata.restoring"@),
{
    reveal_strlit("compatdata.restoring");
}

proof fn lemma_incomplete_is_ascii()
    ensures
        is_ascii_chars("compatdata.incomplete"@),
{
    reveal_strlit("compatdata.incomplete");
}

/// What an interrupted run leaves is recognised by its name: a copy beside the destination, and a copy back beside the
/// library.
#[verifier::spinoff_prover]
pub proof fn law_leftovers_of_runs_are_recognised(
    library: LibraryView,
    sight: SightView,
    process: u32,
    stamp: u32,
)
    ensures
        sight.steamapps_names.contains(encode_utf8(run_name("compatdata.restoring"@, process, stamp))) ==> report_of(
            library,
            sight,
        ).interrupted_restore is Some,
        sight.beside_names.contains(encode_utf8(run_name("compatdata.incomplete"@, process, stamp))) && parent_of(
            target_in_use(library, sight.root_names),
        ) is Some ==> report_of(library, sight).abandoned_copy is Some,
{
    lemma_restoring_is_ascii();
    lemma_incomplete_is_ascii();
    lemma_run_name_begins("compatdata.restoring"@, process, stamp);
    lemma_run_name_begins("compatdata.incomplete"@, process, stamp);
    lemma_named(library.steamapps, sight.steamapps_names, "compatdata.restoring"@, process, stamp);
    if let Some(parent) = parent_of(target_in_use(library, sight.root_names)) {
        lemma_named(parent, sight.beside_names, "compatdata.incomplete"@, process, stamp);
    }
}

#[verifier::spinoff_prover]
proof fn lemma_named(dir: Seq<u8>, names: Seq<Seq<u8>>, prefix: Seq<char>, process: u32, stamp: u32)
    requires
        encode_utf8(prefix).is_prefix_of(encode_utf8(run_name(prefix, process, stamp))),
    ensures
        names.contains(encode_utf8(run_name(prefix, process, stamp))) ==> path_named(dir, names, prefix) is Some,
    decreases names.len(),
{
    let wanted = encode_utf8(run_name(prefix, process, stamp));
    if names.contains(wanted) && !encode_utf8(prefix).is_prefix_of(names[0]) {
        let rest = names.skip(1);
        let i = choose|i: int| 0 <= i < names.len() && names[i] == wanted;
        assert(rest[i - 1] == wanted);
        lemma_named(dir, rest, prefix, process, stamp);
    }
}

/// A process that stands in the way is found among those that run, whatever white space is around its name.
#[verifier::spinoff_prover]
pub proof fn law_running_processes_are_found(comms: &Vec<String>, found: Vec<String>, i: int)
    requires
        call_ensures(running_steam_processes, (comms,), found),
        0 <= i < comms@.len(),
    ensures
        blocks(trimmed(comms@[i]@)) ==> texts(found@).contains(trimmed(comms@[i]@)),
        (forall|k: int| 0 <= k < comms@.len() ==> !blocks(trimmed((#[trigger] comms@[k])@))) ==> found@.len() == 0,
{
    let names = each_trimmed(texts(comms@));
    law_every_blocking_process_is_named(names);
    assert(names[i] == trimmed(comms@[i]@));
    if forall|k: int| 0 <= k < comms@.len() ==> !blocks(trimmed((#[trigger] comms@[k])@)) {
        if found@.len() > 0 {
            assert(texts(found@).len() == found@.len());
            let name = blocking_in(names)[0];
            assert(names.contains(name));
            let k = choose|k: int| 0 <= k < names.len() && names[k] == name;
            assert(names[k] == trimmed(comms@[k]@));
        }
    }
}

/// A filesystem is told of by its type first, and one that is mounted read-only as another is, with that said behind.
pub proof fn law_filesystems_are_told_by_type(mount: MountView)
    ensures
        mount.fs_type.is_prefix_of(mount.described()),
        mount.read_only ==> mount.described() == (MountView { read_only: false, ..mount }).described()
            + ", mounted read-only"@,
        !mount.read_only && mount.source.len() == 0 ==> mount.described() == mount.fs_type,
        !mount.read_only && mount.source.len() > 0 ==> mount.described() == mount.fs_type + " on "@ + mount.source,
{
    let n = mount.fs_type.len() as int;
    assert(mount.described().subrange(0, n) =~= mount.fs_type);
}

} // verus!
