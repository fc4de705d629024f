//! What the operating system can tell: which filesystem a path sits on, whether Steam is running, and
//! how much room the destination has.

use vstd::prelude::*;
use vstd::utf8::encode_utf8;

use crate::path::{last_name, parts, FilePath};
use crate::text::{
    add_text, contains, holds, lines, lines_of, lists, lowercase, lowercase_text, number, parse_number,
    same, split, split_at_char, texts, trim, trimmed, utf8_text, words, words_of,
};

verus! {

#[derive(Debug, Clone, Copy, PartialEq, Eq, Structural)]
pub enum Capability {
    /// A Linux filesystem that already works. Nothing to repair.
    Native,
    /// Symlinks are possible, but Proton needs its data elsewhere.
    NeedsRepair,
    /// No symlink support at all. The repair cannot work here.
    NoSymlinks,
    /// Not identified. Happens off Linux and on unusual mounts.
    Unknown,
}

#[derive(Debug)]
pub struct Mount {
    pub mount_point: FilePath,
    pub fs_type: String,
    pub source: String,
    pub read_only: bool,
    pub capability: Capability,
}

pub struct MountView {
    pub mount_point: Seq<u8>,
    pub fs_type: Seq<char>,
    pub source: Seq<char>,
    pub read_only: bool,
    pub capability: Capability,
}

impl View for Mount {
    type V = MountView;

    open spec fn view(&self) -> MountView {
        MountView {
            mount_point: self.mount_point@,
            fs_type: self.fs_type@,
            source: self.source@,
            read_only: self.read_only,
            capability: self.capability,
        }
    }
}

impl MountView {
    /// The filesystem in words: its type, what it is on, and whether it can be written.
    pub open spec fn described(self) -> Seq<char> {
        let named = if self.source.len() == 0 {
            self.fs_type
        } else {
            self.fs_type + " on "@ + self.source
        };
        if self.read_only {
            named + ", mounted read-only"@
        } else {
            named
        }
    }
}

impl Mount {
    pub fn describe(&self) -> (text: String)
        ensures
            text@ == self@.described(),
    {
        let mut text = self.fs_type.clone();
        if self.source.as_str().unicode_len() > 0 {
            text.push_str(" on ");
            text.push_str(self.source.as_str());
        }
        if self.read_only {
            text.push_str(", mounted read-only");
        }
        text
    }

    pub fn copy(&self) -> (copy: Mount)
        ensures
            copy@ == self@,
    {
        Mount {
            mount_point: self.mount_point.copy(),
            fs_type: self.fs_type.clone(),
            source: self.source.clone(),
            read_only: self.read_only,
            capability: self.capability,
        }
    }
}

pub open spec fn native_type(fs_type: Seq<char>) -> bool {
    ||| fs_type == "ext2"@
    ||| fs_type == "ext3"@
    ||| fs_type == "ext4"@
    ||| fs_type == "btrfs"@
    ||| fs_type == "xfs"@
    ||| fs_type == "f2fs"@
    ||| fs_type == "zfs"@
    ||| fs_type == "bcachefs"@
    ||| fs_type == "reiserfs"@
    ||| fs_type == "jfs"@
    ||| fs_type == "nilfs2"@
    ||| fs_type == "overlay"@
    ||| fs_type == "apfs"@
    ||| fs_type == "hfs"@
}

pub open spec fn ntfs_type(fs_type: Seq<char>) -> bool {
    ||| fs_type == "ntfs"@
    ||| fs_type == "ntfs3"@
    ||| fs_type == "ntfs-3g"@
}

pub open spec fn linkless_type(fs_type: Seq<char>) -> bool {
    ||| fs_type == "exfat"@
    ||| fs_type == "vfat"@
    ||| fs_type == "msdos"@
    ||| fs_type == "fat"@
    ||| fs_type == "fat32"@
    ||| fs_type == "iso9660"@
    ||| fs_type == "udf"@
}

pub open spec fn capability_of(fs_type: Seq<char>) -> Capability {
    if native_type(fs_type) {
        Capability::Native
    } else if ntfs_type(fs_type) {
        Capability::NeedsRepair
    } else if linkless_type(fs_type) {
        Capability::NoSymlinks
    } else {
        Capability::Unknown
    }
}

pub fn classify(fs_type: &str) -> (capability: Capability)
    ensures
        capability == capability_of(fs_type@),
{
    if same(fs_type, "ext2") || same(fs_type, "ext3") || same(fs_type, "ext4") || same(
        fs_type,
        "btrfs",
    ) || same(fs_type, "xfs") || same(fs_type, "f2fs") || same(fs_type, "zfs") || same(
        fs_type,
        "bcachefs",
    ) || same(fs_type, "reiserfs") || same(fs_type, "jfs") || same(fs_type, "nilfs2") || same(
        fs_type,
        "overlay",
    ) || same(fs_type, "apfs") || same(fs_type, "hfs") {
        Capability::Native
    } else if same(fs_type, "ntfs") || same(fs_type, "ntfs3") || same(fs_type, "ntfs-3g") {
        Capability::NeedsRepair
    } else if same(fs_type, "exfat") || same(fs_type, "vfat") || same(fs_type, "msdos") || same(
        fs_type,
        "fat",
    ) || same(fs_type, "fat32") || same(fs_type, "iso9660") || same(fs_type, "udf") {
        Capability::NoSymlinks
    } else {
        Capability::Unknown
    }
}

pub open spec fn octal_digit(byte: u8) -> bool {
    48 <= byte <= 55
}

/// The byte that an escape at `at` stands for: a backslash and three characters that read as an octal
/// number of at most 255.
pub open spec fn escaped_byte(b: Seq<u8>, at: int) -> Option<u8> {
    if at + 3 < b.len() && b[at] == 92 && octal_digit(b[at + 2]) && octal_digit(b[at + 3]) {
        let low = (b[at + 2] - 48) * 8 + (b[at + 3] - 48);
        if octal_digit(b[at + 1]) && (b[at + 1] - 48) * 64 + low <= 255 {
            Some(((b[at + 1] - 48) * 64 + low) as u8)
        } else if b[at + 1] == 43 {
            Some(low as u8)
        } else {
            None
        }
    } else {
        None
    }
}

/// The bytes from `at` on, each as the character of that number, with escapes undone.
pub open spec fn unescaped(b: Seq<u8>, at: int) -> Seq<char>
    decreases b.len() - at,
{
    if at >= b.len() {
        Seq::empty()
    } else {
        match escaped_byte(b, at) {
            Some(byte) => seq![byte as char] + unescaped(b, at + 4),
            None => seq![b[at] as char] + unescaped(b, at + 1),
        }
    }
}

/// No character begins within the three places behind a backslash and ends beyond them.
pub open spec fn escapes_whole(b: Seq<u8>) -> bool {
    forall|i: int|
        0 <= i && i + 4 < b.len() && #[trigger] b[i] == 92 ==> !(0x80 <= b[i + 4] <= 0xbf)
}

pub fn has_whole_escapes(input: &str) -> (is: bool)
    ensures
        is == escapes_whole(encode_utf8(input@)),
{
    let b = input.as_bytes();
    let mut i: usize = 0;
    while i < b.len()
        invariant
            i <= b.len(),
            b@ == encode_utf8(input@),
            forall|k: int| 0 <= k < i && k + 4 < b.len() && #[trigger] b@[k] == 92 ==> !(0x80 <= b@[k
                + 4] <= 0xbf),
        decreases b.len() - i,
    {
        if b[i] == 92 && b.len() - i > 4 && 0x80 <= b[i + 4] && b[i + 4] <= 0xbf {
            return false;
        }
        i = i + 1;
    }
    true
}

/// Undoes the octal escapes of the mount table.
pub fn unescape_octal(input: &str) -> (text: String)
    requires
        escapes_whole(encode_utf8(input@)),
    ensures
        text@ == unescaped(encode_utf8(input@), 0),
{
    let b = input.as_bytes();
    let mut out = String::new();
    let mut i: usize = 0;
    assert(out@ + unescaped(b@, 0) =~= unescaped(b@, 0));
    while i < b.len()
        invariant
            i <= b.len(),
            b@ == encode_utf8(input@),
            unescaped(b@, 0) == out@ + unescaped(b@, i as int),
        decreases b.len() - i,
    {
        let ghost before = out@;
        let mut step: usize = 1;
        let mut value: u8 = b[i];
        if b[i] == 92 && b.len() - i > 3 && 48 <= b[i + 2] && b[i + 2] <= 55 && 48 <= b[i + 3] && b[i
            + 3] <= 55 {
            let low: u32 = (b[i + 2] - 48) as u32 * 8 + (b[i + 3] - 48) as u32;
            if 48 <= b[i + 1] && b[i + 1] <= 55 && (b[i + 1] - 48) as u32 * 64 + low <= 255 {
                value = ((b[i + 1] - 48) as u32 * 64 + low) as u8;
                step = 4;
            } else if b[i + 1] == 43 {
                value = low as u8;
                step = 4;
            }
        }
        out.push(value as char);
        assert(out@ + unescaped(b@, i + step) =~= before + (seq![value as char] + unescaped(
            b@,
            i + step,
        )));
        i = i + step;
    }
    assert(out@ + Seq::<char>::empty() =~= out@);
    out
}

/// What is beneath a mount that reports itself as `fuseblk`, as far as its source tells.
pub open spec fn fuse_type_of(fs_type: Seq<char>, hint: Seq<char>) -> Seq<char> {
    if fs_type == "fuseblk"@ && holds(hint, "ntfs"@) {
        "ntfs-3g"@
    } else {
        fs_type
    }
}

/// A FUSE filesystem on a block device reports `fuseblk` and says nothing about what is actually down
/// there. ntfs-3g and exfat-fuse look the same from here, and treating them alike would offer an exFAT
/// volume a repair that cannot work. Only a mount whose source, in lower case, names NTFS is taken as
/// NTFS; anything else stays unidentified until the device itself has been asked.
pub fn fuse_type(fs_type: &str, hint: &str) -> (name: String)
    ensures
        name@ == fuse_type_of(fs_type@, hint@),
{
    if same(fs_type, "fuseblk") && contains(hint, "ntfs") {
        "ntfs-3g".to_string()
    } else {
        fs_type.to_string()
    }
}

/// The first place of a text in a list.
pub open spec fn place_of(list: Seq<Seq<char>>, text: Seq<char>) -> Option<int>
    decreases list.len(),
{
    if list.len() == 0 {
        None
    } else if place_of(list.drop_last(), text) is Some {
        place_of(list.drop_last(), text)
    } else if list.last() == text {
        Some(list.len() - 1)
    } else {
        None
    }
}

pub fn find_text(list: &Vec<String>, text: &str) -> (place: Option<usize>)
    ensures
        match place_of(texts(list@), text@) {
            Some(at) => place is Some && place->0 == at && 0 <= at < list@.len(),
            None => place is None,
        },
{
    let ghost all = texts(list@);
    let mut i: usize = 0;
    while i < list.len()
        invariant
            i <= list.len(),
            all == texts(list@),
            place_of(all.take(i as int), text@) is None,
        decreases list.len() - i,
    {
        assert(all.take(i + 1).drop_last() =~= all.take(i as int));
        assert(all.take(i + 1).last() == list@[i as int]@);
        if same(list[i].as_str(), text) {
            proof {
                lemma_place_stays(all, text@, i + 1);
            }
            return Some(i);
        }
        i = i + 1;
    }
    assert(all.take(i as int) =~= all);
    None
}

proof fn lemma_place_stays(list: Seq<Seq<char>>, text: Seq<char>, n: int)
    requires
        0 <= n <= list.len(),
        place_of(list.take(n), text) is Some,
    ensures
        place_of(list, text) == place_of(list.take(n), text),
    decreases list.len(),
{
    if n < list.len() {
        assert(list.drop_last().take(n) =~= list.take(n));
        lemma_place_stays(list.drop_last(), text, n);
    } else {
        assert(list.take(n) =~= list);
    }
}

/// Is `ro` among the options?
pub open spec fn says_read_only(options: Seq<char>) -> bool {
    split(options, ',').contains("ro"@)
}

/// What a line of the mount table says, by its fields: the mount point is the fifth and its options the
/// sixth; the filesystem type, the source and the options of the filesystem stand behind a lone `-`.
pub open spec fn mount_of(line: Seq<char>) -> Option<MountView> {
    let fields = split(line, ' ');
    match place_of(fields, "-"@) {
        Some(dash) => if fields.len() >= 10 && dash + 2 < fields.len() {
            let source = unescaped(encode_utf8(fields[dash + 2]), 0);
            let fs_type = fuse_type_of(fields[dash + 1], lowercase_text(source));
            Some(
                MountView {
                    mount_point: encode_utf8(unescaped(encode_utf8(fields[4]), 0)),
                    fs_type,
                    source,
                    read_only: says_read_only(fields[5]) || (dash + 3 < fields.len()
                        && says_read_only(fields[dash + 3])),
                    capability: capability_of(fs_type),
                },
            )
        } else {
            None
        },
        None => None,
    }
}

/// The fields of a line that hold escapes hold whole ones.
pub open spec fn readable_line(line: Seq<char>) -> bool {
    let fields = split(line, ' ');
    fields.len() >= 10 ==> {
        &&& escapes_whole(encode_utf8(fields[4]))
        &&& match place_of(fields, "-"@) {
            Some(dash) => dash + 2 < fields.len() ==> escapes_whole(encode_utf8(fields[dash + 2])),
            None => true,
        }
    }
}

pub fn is_readable_line(line: &str) -> (is: bool)
    ensures
        is == readable_line(line@),
{
    let fields = split_at_char(line, ' ');
    let ghost all = split(line@, ' ');
    if fields.len() < 10 {
        return true;
    }
    assert(fields@[4]@ == all[4]);
    if !has_whole_escapes(fields[4].as_str()) {
        return false;
    }
    match find_text(&fields, "-") {
        Some(dash) => {
            if fields.len() - dash > 2 {
                assert(fields@[dash + 2]@ == all[dash + 2]);
                has_whole_escapes(fields[dash + 2].as_str())
            } else {
                true
            }
        },
        None => true,
    }
}

/// mountinfo lines look like:
/// `36 35 98:0 /root /mount/point rw,noatime shared:1 - ext4 /dev/sda1 rw,data=ordered`
/// Everything between the optional fields and the filesystem type is terminated by a lone `-`.
pub fn parse_mountinfo_line(line: &str) -> (mount: Option<Mount>)
    requires
        readable_line(line@),
    ensures
        mount is Some <==> mount_of(line@) is Some,
        mount matches Some(mount) ==> mount@ == mount_of(line@)->0,
{
    let fields = split_at_char(line, ' ');
    let ghost all = split(line@, ' ');
    if fields.len() < 10 {
        return None;
    }
    assert(fields@[4]@ == all[4]);
    assert(fields@[5]@ == all[5]);
    let mount_point = unescape_octal(fields[4].as_str());
    let dash = match find_text(&fields, "-") {
        Some(dash) => dash,
        None => return None,
    };
    if fields.len() - dash <= 2 {
        return None;
    }
    assert(fields@[dash + 1]@ == all[dash + 1]);
    assert(fields@[dash + 2]@ == all[dash + 2]);
    let source = unescape_octal(fields[dash + 2].as_str());
    let mut read_only = lists(&split_at_char(fields[5].as_str(), ','), "ro");
    if fields.len() - dash > 3 {
        assert(fields@[dash + 3]@ == all[dash + 3]);
        if lists(&split_at_char(fields[dash + 3].as_str(), ','), "ro") {
            read_only = true;
        }
    }
    let hint = lowercase(source.as_str());
    let fs_type = fuse_type(fields[dash + 1].as_str(), hint.as_str());
    let capability = classify(fs_type.as_str());
    Some(
        Mount {
            mount_point: FilePath::new(mount_point.as_str()),
            fs_type,
            source,
            read_only,
            capability,
        },
    )
}

/// The mount that covers a path, of those in the first `n` lines: the one with the longest mount point,
/// the first of several.
pub open spec fn covering(lines: Seq<Seq<char>>, target: Seq<u8>, n: int) -> Option<MountView>
    decreases n,
{
    if n <= 0 {
        None
    } else {
        let before = covering(lines, target, n - 1);
        match mount_of(lines[n - 1]) {
            Some(mount) => if parts(mount.mount_point).is_prefix_of(parts(target)) && (before is None
                || mount.mount_point.len() > before->0.mount_point.len()) {
                Some(mount)
            } else {
                before
            },
            None => before,
        }
    }
}

/// The mount that covers a path, by the text of the mount table.
pub open spec fn mount_covering(table: Seq<char>, target: Seq<u8>) -> Option<MountView> {
    covering(lines_of(table), target, lines_of(table).len() as int)
}

pub open spec fn readable(table: Seq<char>) -> bool {
    forall|i: int| 0 <= i < lines_of(table).len() ==> readable_line(#[trigger] lines_of(table)[i])
}

/// Can the mount table be read to its end?
pub fn is_readable(table: &str) -> (is: bool)
    ensures
        is == readable(table@),
{
    let list = lines(table);
    let ghost all = lines_of(table@);
    let mut i: usize = 0;
    while i < list.len()
        invariant
            i <= list.len(),
            all == texts(list@),
            all == lines_of(table@),
            forall|k: int| 0 <= k < i ==> readable_line(#[trigger] all[k]),
        decreases list.len() - i,
    {
        assert(all[i as int] == list@[i as int]@);
        if !is_readable_line(list[i].as_str()) {
            return false;
        }
        i = i + 1;
    }
    true
}

/// The mount covering the resolved path `target`, from the text of `/proc/self/mountinfo`.
pub fn mount_for(table: &str, target: &FilePath) -> (mount: Option<Mount>)
    requires
        readable(table@),
    ensures
        mount is Some <==> mount_covering(table@, target@) is Some,
        mount matches Some(mount) ==> mount@ == mount_covering(table@, target@)->0,
{
    let list = lines(table);
    let ghost all = lines_of(table@);
    let mut best: Option<Mount> = None;
    let mut i: usize = 0;
    while i < list.len()
        invariant
            i <= list.len(),
            all == texts(list@),
            readable(table@),
            all == lines_of(table@),
            best is Some <==> covering(all, target@, i as int) is Some,
            best matches Some(best) ==> best@ == covering(all, target@, i as int)->0,
        decreases list.len() - i,
    {
        assert(all[i as int] == list@[i as int]@);
        assert(readable_line(all[i as int]));
        if let Some(parsed) = parse_mountinfo_line(list[i].as_str()) {
            if target.starts_with(&parsed.mount_point) {
                let longer = match &best {
                    Some(best) => parsed.mount_point.bytes.len() > best.mount_point.bytes.len(),
                    None => true,
                };
                if longer {
                    best = Some(parsed);
                }
            }
        }
        i = i + 1;
    }
    best
}

/// Does the line's mount cover the path?
pub open spec fn covers(line: Seq<char>, target: Seq<u8>) -> bool {
    mount_of(line) is Some && parts(mount_of(line)->0.mount_point).is_prefix_of(parts(target))
}

/// The mount that is found covers the path, one is found where any line's mount covers it, and none of
/// those has a longer mount point.
pub proof fn law_found_mount_covers(table: Seq<char>, target: Seq<u8>)
    ensures
        mount_covering(table, target) matches Some(mount) ==> parts(mount.mount_point).is_prefix_of(
            parts(target),
        ),
        forall|i: int|
            0 <= i < lines_of(table).len() && covers(#[trigger] lines_of(table)[i], target)
                ==> mount_covering(table, target) is Some && mount_of(
                lines_of(table)[i],
            )->0.mount_point.len() <= mount_covering(table, target)->0.mount_point.len(),
{
    lemma_covering(lines_of(table), target, lines_of(table).len() as int);
}

proof fn lemma_covering(lines: Seq<Seq<char>>, target: Seq<u8>, n: int)
    requires
        0 <= n <= lines.len(),
    ensures
        covering(lines, target, n) matches Some(mount) ==> parts(mount.mount_point).is_prefix_of(
            parts(target),
        ),
        forall|i: int|
            0 <= i < n && covers(#[trigger] lines[i], target) ==> covering(lines, target, n) is Some
                && mount_of(lines[i])->0.mount_point.len() <= covering(
                lines,
                target,
                n,
            )->0.mount_point.len(),
    decreases n,
{
    if n > 0 {
        lemma_covering(lines, target, n - 1);
    }
}

/// Does the device have to be asked what is on it?
pub open spec fn unidentified(mount: MountView) -> bool {
    mount.fs_type == "fuseblk"@ && mount.capability == Capability::Unknown
}

/// udisks2 mounts ntfs-3g and exfat-fuse with a plain device node as the source, which says nothing
/// about what is down there. Such a device has to be asked what it is.
pub fn needs_device(mount: &Mount) -> (needs: bool)
    ensures
        needs == unidentified(mount@),
{
    match mount.capability {
        Capability::Unknown => same(mount.fs_type.as_str(), "fuseblk"),
        _ => false,
    }
}

/// The mount, with the filesystem that the device turned out to hold.
pub open spec fn identified(mount: MountView, name: Option<Seq<char>>) -> MountView {
    match name {
        Some(name) => if unidentified(mount) {
            MountView { fs_type: name, capability: capability_of(name), ..mount }
        } else {
            mount
        },
        None => mount,
    }
}

pub fn identify(mount: Mount, name: Option<String>) -> (known: Mount)
    ensures
        known@ == identified(
            mount@,
            match name {
                Some(name) => Some(name@),
                None => None,
            },
        ),
{
    if !needs_device(&mount) {
        return mount;
    }
    match name {
        Some(name) => Mount {
            mount_point: mount.mount_point,
            capability: classify(name.as_str()),
            fs_type: name,
            source: mount.source,
            read_only: mount.read_only,
        },
        None => mount,
    }
}

/// What a device says of itself, as the name of a filesystem type.
pub open spec fn device_type(output: Seq<char>) -> Option<Seq<char>> {
    if trimmed(output) == ""@ {
        None
    } else if trimmed(output) == "ntfs"@ {
        Some("ntfs-3g"@)
    } else {
        Some(trimmed(output))
    }
}

/// The filesystem type by the output of `lsblk -no FSTYPE`: a name that [`classify`] understands, or
/// nothing when the device did not say.
pub fn fuseblk_type_from_lsblk(output: &str) -> (name: Option<String>)
    ensures
        name is Some <==> device_type(output@) is Some,
        name matches Some(name) ==> Some(name@) == device_type(output@),
{
    let inner = trim(output);
    if same(inner.as_str(), "") {
        None
    } else if same(inner.as_str(), "ntfs") {
        Some("ntfs-3g".to_string())
    } else {
        Some(inner)
    }
}

/// Processes that must not be running during a repair. Steam writing into a prefix while it is being
/// moved aside would lose those writes.
pub const BLOCKING_PROCESSES: [&'static str; 7] = [
    "steam",
    "steamwebhelper",
    "wineserver",
    "wine64-preloader",
    "proton",
    "pressure-vessel-wrap",
    "gameoverlayui",
];

pub open spec fn blocks(name: Seq<char>) -> bool {
    exists|i: int| 0 <= i < 7 && (#[trigger] BLOCKING_PROCESSES@[i])@ == name
}

pub fn is_blocking(name: &str) -> (is: bool)
    ensures
        is == blocks(name@),
{
    let mut i: usize = 0;
    while i < 7
        invariant
            i <= 7,
            forall|k: int| 0 <= k < i ==> (#[trigger] BLOCKING_PROCESSES@[k])@ != name@,
        decreases 7 - i,
    {
        if same(BLOCKING_PROCESSES[i], name) {
            return true;
        }
        i = i + 1;
    }
    false
}

/// The blocking processes of a list, each once, in the order in which they appear.
pub open spec fn blocking_in(names: Seq<Seq<char>>) -> Seq<Seq<char>>
    decreases names.len(),
{
    if names.len() == 0 {
        Seq::empty()
    } else {
        let before = blocking_in(names.drop_last());
        if blocks(names.last()) && !before.contains(names.last()) {
            before.push(names.last())
        } else {
            before
        }
    }
}

pub open spec fn each_trimmed(names: Seq<Seq<char>>) -> Seq<Seq<char>> {
    Seq::new(names.len(), |i: int| trimmed(names[i]))
}

fn add_blocking(found: &mut Vec<String>, name: String)
    ensures
        texts(final(found)@) == if blocks(name@) && !texts(old(found)@).contains(name@) {
            texts(old(found)@).push(name@)
        } else {
            texts(old(found)@)
        },
{
    if is_blocking(name.as_str()) && !lists(found, name.as_str()) {
        add_text(found, name);
    }
}

/// Which blocking processes are running, by the contents of the `comm` files of all processes.
pub fn running_steam_processes(comms: &Vec<String>) -> (found: Vec<String>)
    ensures
        texts(found@) == blocking_in(each_trimmed(texts(comms@))),
{
    let ghost all = each_trimmed(texts(comms@));
    let mut found: Vec<String> = Vec::new();
    let mut i: usize = 0;
    assert(texts(found@) =~= blocking_in(all.take(0)));
    while i < comms.len()
        invariant
            i <= comms.len(),
            all == each_trimmed(texts(comms@)),
            texts(found@) == blocking_in(all.take(i as int)),
        decreases comms.len() - i,
    {
        assert(all.take(i + 1).drop_last() =~= all.take(i as int));
        assert(all.take(i + 1).last() == trimmed(comms@[i as int]@));
        add_blocking(&mut found, trim(comms[i].as_str()));
        i = i + 1;
    }
    assert(all.take(i as int) =~= all);
    found
}

pub open spec fn program_name(line: Seq<char>) -> Seq<char> {
    match last_name(encode_utf8(trimmed(line))) {
        Some(name) => utf8_text(name),
        None => Seq::empty(),
    }
}

pub open spec fn each_program(lines: Seq<Seq<char>>) -> Seq<Seq<char>> {
    Seq::new(lines.len(), |i: int| program_name(lines[i]))
}

/// Which blocking processes are running, by the output of `ps -A -o comm=`.
pub fn running_by_ps(output: &str) -> (found: Vec<String>)
    ensures
        texts(found@) == blocking_in(each_program(lines_of(output@))),
{
    let list = lines(output);
    let ghost all = each_program(lines_of(output@));
    let mut found: Vec<String> = Vec::new();
    let mut i: usize = 0;
    assert(texts(found@) =~= blocking_in(all.take(0)));
    while i < list.len()
        invariant
            i <= list.len(),
            texts(list@) == lines_of(output@),
            all == each_program(lines_of(output@)),
            texts(found@) == blocking_in(all.take(i as int)),
        decreases list.len() - i,
    {
        assert(all.take(i + 1).drop_last() =~= all.take(i as int));
        assert(texts(list@)[i as int] == list@[i as int]@);
        let name = match FilePath::new(trim(list[i].as_str()).as_str()).file_name_text() {
            Some(name) => name,
            None => String::new(),
        };
        assert(name@ =~= program_name(list@[i as int]@));
        add_blocking(&mut found, name);
        i = i + 1;
    }
    assert(all.take(i as int) =~= all);
    found
}

/// The kilobytes available, by the output of `df -Pk`: the fourth word of the second line.
pub open spec fn available(output: Seq<char>) -> Option<nat> {
    let lines = lines_of(output);
    if lines.len() < 2 || words_of(lines[1]).len() < 4 {
        None
    } else {
        match number(words_of(lines[1])[3]) {
            Some(kilobytes) => if kilobytes <= u64::MAX {
                Some(kilobytes)
            } else {
                None
            },
            None => None,
        }
    }
}

pub fn free_kilobytes(output: &str) -> (kilobytes: Option<u64>)
    ensures
        kilobytes is Some <==> available(output@) is Some,
        kilobytes matches Some(kilobytes) ==> kilobytes == available(output@)->0,
{
    let list = lines(output);
    if list.len() < 2 {
        return None;
    }
    assert(texts(list@)[1] == list@[1]@);
    let fields = words(list[1].as_str());
    if fields.len() < 4 {
        return None;
    }
    assert(texts(fields@)[3] == fields@[3]@);
    parse_number(fields[3].as_str(), u64::MAX)
}

/// Free bytes on a filesystem, by the output of `df -Pk`. Nothing if the output cannot be read, in
/// which case the space check is reported as unavailable rather than guessed.
pub fn free_bytes(output: &str) -> (bytes: Option<u64>)
    requires
        available(output@) matches Some(kilobytes) ==> kilobytes * 1024 <= u64::MAX,
    ensures
        bytes is Some <==> available(output@) is Some,
        bytes matches Some(bytes) ==> bytes == available(output@)->0 * 1024,
{
    match free_kilobytes(output) {
        Some(kilobytes) => Some(kilobytes * 1024),
        None => None,
    }
}

/// Each filesystem has one capability, and these are all that are known: those of Linux work, NTFS needs the
/// repair, FAT and optical discs cannot have links. Any other is not identified.
pub proof fn law_filesystems_are_known_by_name(fs_type: Seq<char>)
    ensures
        capability_of(fs_type) == Capability::Native <==> seq![
            "ext2"@,
            "ext3"@,
            "ext4"@,
            "btrfs"@,
            "xfs"@,
            "f2fs"@,
            "zfs"@,
            "bcachefs"@,
            "reiserfs"@,
            "jfs"@,
            "nilfs2"@,
            "overlay"@,
            "apfs"@,
            "hfs"@,
        ].contains(fs_type),
        capability_of(fs_type) == Capability::NeedsRepair <==> seq!["ntfs"@, "ntfs3"@, "ntfs-3g"@].contains(fs_type),
        capability_of(fs_type) == Capability::NoSymlinks <==> seq![
            "exfat"@,
            "vfat"@,
            "msdos"@,
            "fat"@,
            "fat32"@,
            "iso9660"@,
            "udf"@,
        ].contains(fs_type),
{
    reveal_strlit("ext2");
    reveal_strlit("ext3");
    reveal_strlit("ext4");
    reveal_strlit("btrfs");
    reveal_strlit("xfs");
    reveal_strlit("f2fs");
    reveal_strlit("zfs");
    reveal_strlit("bcachefs");
    reveal_strlit("reiserfs");
    reveal_strlit("jfs");
    reveal_strlit("nilfs2");
    reveal_strlit("overlay");
    reveal_strlit("apfs");
    reveal_strlit("hfs");
    reveal_strlit("ntfs");
    reveal_strlit("ntfs3");
    reveal_strlit("ntfs-3g");
    reveal_strlit("exfat");
    reveal_strlit("vfat");
    reveal_strlit("msdos");
    reveal_strlit("fat");
    reveal_strlit("fat32");
    reveal_strlit("iso9660");
    reveal_strlit("udf");
    assert("ext2"@[0] == 'e' && "ext2"@[1] == 'x' && "ext2"@[2] == 't');
    assert("ext3"@[0] == 'e' && "ext3"@[1] == 'x' && "ext3"@[2] == 't');
    assert("ext4"@[0] == 'e' && "ext4"@[1] == 'x' && "ext4"@[2] == 't');
    assert("btrfs"@[0] == 'b' && "btrfs"@[1] == 't' && "btrfs"@[2] == 'r');
    assert("xfs"@[0] == 'x' && "xfs"@[1] == 'f' && "xfs"@[2] == 's');
    assert("f2fs"@[0] == 'f' && "f2fs"@[1] == '2' && "f2fs"@[2] == 'f');
    assert("zfs"@[0] == 'z' && "zfs"@[1] == 'f' && "zfs"@[2] == 's');
    assert("bcachefs"@[0] == 'b' && "bcachefs"@[1] == 'c' && "bcachefs"@[2] == 'a');
    assert("reiserfs"@[0] == 'r' && "reiserfs"@[1] == 'e' && "reiserfs"@[2] == 'i');
    assert("jfs"@[0] == 'j' && "jfs"@[1] == 'f' && "jfs"@[2] == 's');
    assert("nilfs2"@[0] == 'n' && "nilfs2"@[1] == 'i' && "nilfs2"@[2] == 'l');
    assert("overlay"@[0] == 'o' && "overlay"@[1] == 'v' && "overlay"@[2] == 'e');
    assert("apfs"@[0] == 'a' && "apfs"@[1] == 'p' && "apfs"@[2] == 'f');
    assert("hfs"@[0] == 'h' && "hfs"@[1] == 'f' && "hfs"@[2] == 's');
    assert("ntfs"@[0] == 'n' && "ntfs"@[1] == 't' && "ntfs"@[2] == 'f');
    assert("ntfs3"@[0] == 'n' && "ntfs3"@[1] == 't' && "ntfs3"@[2] == 'f');
    assert("ntfs-3g"@[0] == 'n' && "ntfs-3g"@[1] == 't' && "ntfs-3g"@[2] == 'f');
    assert("exfat"@[0] == 'e' && "exfat"@[1] == 'x' && "exfat"@[2] == 'f');
    assert("vfat"@[0] == 'v' && "vfat"@[1] == 'f' && "vfat"@[2] == 'a');
    assert("msdos"@[0] == 'm' && "msdos"@[1] == 's' && "msdos"@[2] == 'd');
    assert("fat"@[0] == 'f' && "fat"@[1] == 'a' && "fat"@[2] == 't');
    assert("fat32"@[0] == 'f' && "fat32"@[1] == 'a' && "fat32"@[2] == 't');
    assert("iso9660"@[0] == 'i' && "iso9660"@[1] == 's' && "iso9660"@[2] == 'o');
    assert("udf"@[0] == 'u' && "udf"@[1] == 'd' && "udf"@[2] == 'f');
    let linux = seq!["ext2"@, "ext3"@, "ext4"@, "btrfs"@, "xfs"@, "f2fs"@, "zfs"@, "bcachefs"@, "reiserfs"@, "jfs"@,
        "nilfs2"@, "overlay"@, "apfs"@, "hfs"@];
    let ntfs = seq!["ntfs"@, "ntfs3"@, "ntfs-3g"@];
    let linkless = seq!["exfat"@, "vfat"@, "msdos"@, "fat"@, "fat32"@, "iso9660"@, "udf"@];
    assert(linux[0] == "ext2"@);
    assert(linux[1] == "ext3"@);
    assert(linux[2] == "ext4"@);
    assert(linux[3] == "btrfs"@);
    assert(linux[4] == "xfs"@);
    assert(linux[5] == "f2fs"@);
    assert(linux[6] == "zfs"@);
    assert(linux[7] == "bcachefs"@);
    assert(linux[8] == "reiserfs"@);
    assert(linux[9] == "jfs"@);
    assert(linux[10] == "nilfs2"@);
    assert(linux[11] == "overlay"@);
    assert(linux[12] == "apfs"@);
    assert(linux[13] == "hfs"@);
    assert(ntfs[0] == "ntfs"@);
    assert(ntfs[1] == "ntfs3"@);
    assert(ntfs[2] == "ntfs-3g"@);
    assert(linkless[0] == "exfat"@);
    assert(linkless[1] == "vfat"@);
    assert(linkless[2] == "msdos"@);
    assert(linkless[3] == "fat"@);
    assert(linkless[4] == "fat32"@);
    assert(linkless[5] == "iso9660"@);
    assert(linkless[6] == "udf"@);
}

} // verus!
