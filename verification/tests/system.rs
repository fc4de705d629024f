use librarybridge::path::FilePath;
use librarybridge::system::{
    classify, free_bytes, fuseblk_type_from_lsblk, has_whole_escapes, identify, is_readable, is_readable_line, mount_for,
    needs_device, parse_mountinfo_line, running_by_ps, running_steam_processes, unescape_octal, Capability,
};

#[test]
fn reads_a_mountinfo_line() {
    let line = "36 35 8:1 / /run/media/alice/Games rw,nosuid,relatime shared:1 - ntfs3 /dev/sdb1 rw,uid=1000";
    let mount = parse_mountinfo_line(line).unwrap();
    assert!(mount.mount_point.same_as(&FilePath::new("/run/media/alice/Games")));
    assert_eq!(mount.fs_type, "ntfs3");
    assert_eq!(mount.capability, Capability::NeedsRepair);
    assert!(!mount.read_only);
}

#[test]
fn a_fuse_mount_is_only_ntfs_when_it_says_so() {
    // ntfs-3g names itself in the mount source.
    let line = "40 35 0:45 / /mnt/games rw,relatime - fuseblk /dev/sdb1#ntfs rw,user_id=0";
    let mount = parse_mountinfo_line(line).unwrap();
    assert_eq!(mount.capability, Capability::NeedsRepair);
    assert_eq!(mount.fs_type, "ntfs-3g");

    // Any other source could be exfat-fuse, which cannot hold a symlink.
    // The parser leaves this unidentified; `mount_for` asks the device
    // itself, because a plain device node does not say what is down there.
    let line = "40 35 0:45 / /mnt/games rw,relatime - fuseblk /dev/sdb1 rw,user_id=0";
    let mount = parse_mountinfo_line(line).unwrap();
    assert_eq!(mount.capability, Capability::Unknown);
}

#[test]
fn maps_what_lsblk_reports_for_a_fuse_device() {
    assert_eq!(fuseblk_type_from_lsblk("ntfs\n"), Some("ntfs-3g".to_string()));
    assert_eq!(fuseblk_type_from_lsblk("exfat\n"), Some("exfat".to_string()));
    assert_eq!(fuseblk_type_from_lsblk(""), None);
    assert_eq!(fuseblk_type_from_lsblk("   \n"), None);
}

#[test]
fn notices_read_only_mounts() {
    let line = "36 35 8:1 / /mnt/x ro,relatime - exfat /dev/sdb1 ro";
    let mount = parse_mountinfo_line(line).unwrap();
    assert!(mount.read_only);
    assert_eq!(mount.capability, Capability::NoSymlinks);
}

#[test]
fn decodes_escaped_mount_points() {
    let line = "36 35 8:1 / /mnt/My\\040Games rw,relatime - ext4 /dev/sdb1 rw";
    let mount = parse_mountinfo_line(line).unwrap();
    assert!(mount.mount_point.same_as(&FilePath::new("/mnt/My Games")));
    assert_eq!(mount.capability, Capability::Native);
}

#[test]
fn handles_optional_fields_being_absent() {
    let line = "36 35 8:1 / /mnt/x rw,relatime - btrfs /dev/sdb1 rw";
    assert!(parse_mountinfo_line(line).is_some());
}

#[test]
fn classifies_filesystems() {
    assert_eq!(classify("ext4"), Capability::Native);
    assert_eq!(classify("btrfs"), Capability::Native);
    assert_eq!(classify("ntfs3"), Capability::NeedsRepair);
    assert_eq!(classify("exfat"), Capability::NoSymlinks);
    assert_eq!(classify("vfat"), Capability::NoSymlinks);
    assert_eq!(classify("fuseblk"), Capability::Unknown);
}

#[test]
fn the_longest_mount_point_holds_a_path() {
    let table = "1 0 8:1 / / rw - ext4 /dev/a rw\n\
                 2 1 8:2 / /mnt rw - ext4 /dev/b rw\n\
                 3 1 8:3 / /mnt/games rw - ntfs3 /dev/c rw\n\
                 4 1 8:4 / /mnt/gamesbutlonger rw - exfat /dev/d rw\n";
    assert!(is_readable(table));
    let mount = mount_for(table, &FilePath::new("/mnt/games/SteamLibrary")).unwrap();
    assert_eq!(mount.source, "/dev/c");
    assert_eq!(mount.capability, Capability::NeedsRepair);
    assert_eq!(mount.describe(), "ntfs3 on /dev/c");
    let mount = mount_for(table, &FilePath::new("/home")).unwrap();
    assert_eq!(mount.source, "/dev/a");
    assert!(mount_for("", &FilePath::new("/home")).is_none());
}

#[test]
fn of_two_mounts_on_one_point_the_first_is_taken() {
    let table = "1 0 8:1 / /x rw - ext4 /dev/a rw\n2 1 8:2 / /x rw - ntfs3 /dev/b rw\n";
    assert_eq!(mount_for(table, &FilePath::new("/x/y")).unwrap().source, "/dev/a");
}

#[test]
fn a_fuse_mount_is_told_by_its_device() {
    let line = "40 35 0:45 / /mnt/games rw,relatime - fuseblk /dev/sdb1 rw,user_id=0";
    let mount = parse_mountinfo_line(line).unwrap();
    assert!(needs_device(&mount));
    let known = identify(mount, fuseblk_type_from_lsblk("ntfs"));
    assert_eq!(known.fs_type, "ntfs-3g");
    assert_eq!(known.capability, Capability::NeedsRepair);
    assert!(!needs_device(&known));
    let unknown = identify(parse_mountinfo_line(line).unwrap(), None);
    assert_eq!(unknown.capability, Capability::Unknown);
}

#[test]
fn a_hint_in_capitals_is_read_too() {
    let line = "40 35 0:45 / /mnt/games rw,relatime - fuseblk /dev/sdb1#NTFS rw";
    assert_eq!(parse_mountinfo_line(line).unwrap().fs_type, "ntfs-3g");
}

#[test]
fn short_lines_are_no_mounts() {
    assert!(parse_mountinfo_line("1 2 3").is_none());
    assert!(parse_mountinfo_line("1 2 3 4 5 6 7 8 9 10").is_none());
    assert!(parse_mountinfo_line("1 2 3 4 5 6 7 8 9 -").is_none());
}

#[test]
fn escapes_are_octal_and_others_stay() {
    assert_eq!(unescape_octal("a\\134b"), "a\\b");
    assert_eq!(unescape_octal("a\\9zz"), "a\\9zz");
    assert_eq!(unescape_octal("end\\04"), "end\\04");
    assert!(has_whole_escapes("/mnt/My\\040Games"));
    assert!(!has_whole_escapes("\\ab\u{e9}"));
    assert!(!is_readable_line("1 2 3 4 \\ab\u{e9} 6 - 8 9 10"));
}

#[test]
fn blocking_processes_are_named_once() {
    let comms: Vec<String> = ["bash\n", "steam\n", "steam\n", "wineserver\n", "steamy\n"].iter().map(|s| s.to_string()).collect();
    assert_eq!(running_steam_processes(&comms), ["steam", "wineserver"]);
    assert_eq!(running_by_ps("/usr/bin/steam\n  proton \nls\nsteam\n"), ["steam", "proton"]);
}

#[test]
fn free_space_is_the_fourth_column() {
    let output = "Filesystem 1024-blocks Used Available Capacity Mounted on\n/dev/a 100 40 60 40% /\n";
    assert_eq!(free_bytes(output), Some(60 * 1024));
    assert_eq!(free_bytes("Filesystem\n"), None);
    assert_eq!(free_bytes("x\n/dev/a 1 2 many\n"), None);
}
