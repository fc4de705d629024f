//! Inventory, copy and verification of a compatdata tree.
//!
//! Two rules govern everything here:
//!
//! 1. Symlinks are never followed. A Wine prefix contains `dosdevices/z:` pointing at `/`, so a
//!    copier that follows links would try to copy the entire root filesystem into the destination.
//! 2. Nothing is ever removed from the source. The source is only read, and a fresh destination is
//!    written.

use vstd::prelude::*;
use vstd::utf8::encode_utf8;

use crate::links::{compare, shared_files, sharing};
use crate::path::{
    absolute, law_keys_tell_paths_apart, parent_of, parts, parts_view, path_key, paths_view, shown, under,
    FilePath, Part, PartView,
};
use crate::sha256::{digest, hex, hex_text, law_digest_has_64_digits, Sha256};
use crate::sort::{
    ahead, first_place, in_order, keys_view, last_place, lemma_before_irreflexive, lemma_first_place, lemma_last_place, lemma_order_of,
    lemma_some_order, order_of, Index,
};
use crate::text::{add_text, decimal, decimal_text, octal, octal_text, texts};

verus! {

/// A moment on the clock of a filesystem.
#[derive(Debug, Clone, Copy, PartialEq, Eq, Structural)]
pub struct Stamp {
    pub seconds: i64,
    pub nanos: u32,
}

/// The time that a copy is given: that of what was copied. A time that cannot be read, or before 1970, is rare and
/// not worth failing a repair over; it counts as the first moment of 1970.
pub open spec fn given_time(time: Option<Stamp>) -> Stamp {
    match time {
        Some(stamp) => if stamp.seconds >= 0 {
            stamp
        } else {
            Stamp { seconds: 0, nanos: 0 }
        },
        None => Stamp { seconds: 0, nanos: 0 },
    }
}

pub fn time_to_give(time: &Option<Stamp>) -> (given: Stamp)
    ensures
        given == given_time(*time),
{
    match time {
        Some(stamp) => if stamp.seconds >= 0 {
            *stamp
        } else {
            Stamp { seconds: 0, nanos: 0 }
        },
        None => Stamp { seconds: 0, nanos: 0 },
    }
}

#[derive(Debug)]
pub enum Kind {
    Dir,
    File {
        size: u64,
        digest: Option<[u8; 32]>,
        links: u64,
        /// Device and inode. Two entries sharing these are one file with two names, and the copy has
        /// to reproduce that rather than duplicate it.
        identity: (u64, u64),
        /// Bytes actually allocated. Less than `size` means the file is stored sparsely and a plain
        /// copy will occupy more room.
        allocated: u64,
    },
    Symlink { target: FilePath },
}

pub enum KindView {
    Dir,
    File {
        size: u64,
        digest: Option<Seq<u8>>,
        links: u64,
        identity: (u64, u64),
        allocated: u64,
    },
    Symlink { target: Seq<u8> },
}

pub open spec fn digest_view(digest: Option<[u8; 32]>) -> Option<Seq<u8>> {
    match digest {
        Some(digest) => Some(digest@),
        None => None,
    }
}

impl View for Kind {
    type V = KindView;

    open spec fn view(&self) -> KindView {
        match *self {
            Kind::Dir => KindView::Dir,
            Kind::File { size, digest, links, identity, allocated } => KindView::File {
                size,
                digest: digest_view(digest),
                links,
                identity,
                allocated,
            },
            Kind::Symlink { target } => KindView::Symlink { target: target@ },
        }
    }
}

impl KindView {
    pub open spec fn label(self) -> Seq<char> {
        match self {
            KindView::Dir => "directory"@,
            KindView::File { .. } => "file"@,
            KindView::Symlink { .. } => "symlink"@,
        }
    }
}

impl Kind {
    pub fn label(&self) -> (label: &'static str)
        ensures
            label@ == self@.label(),
    {
        match self {
            Kind::Dir => "directory",
            Kind::File { .. } => "file",
            Kind::Symlink { .. } => "symlink",
        }
    }
}

#[derive(Debug)]
pub struct Entry {
    pub rel: FilePath,
    pub kind: Kind,
    pub mode: u32,
    pub mtime: Option<Stamp>,
}

pub struct EntryView {
    pub rel: Seq<u8>,
    pub kind: KindView,
    pub mode: u32,
    pub mtime: Option<Stamp>,
}

impl View for Entry {
    type V = EntryView;

    open spec fn view(&self) -> EntryView {
        EntryView { rel: self.rel@, kind: self.kind@, mode: self.mode, mtime: self.mtime }
    }
}

pub open spec fn entries_view(list: Seq<Entry>) -> Seq<EntryView> {
    Seq::new(list.len(), |i: int| list[i]@)
}

impl Kind {
    pub fn copy(&self) -> (copy: Kind)
        ensures
            copy@ == self@,
    {
        match self {
            Kind::Dir => Kind::Dir,
            Kind::File { size, digest, links, identity, allocated } => Kind::File {
                size: *size,
                digest: *digest,
                links: *links,
                identity: *identity,
                allocated: *allocated,
            },
            Kind::Symlink { target } => Kind::Symlink { target: target.copy() },
        }
    }
}

impl Entry {
    pub fn copy(&self) -> (copy: Entry)
        ensures
            copy@ == self@,
    {
        Entry { rel: self.rel.copy(), kind: self.kind.copy(), mode: self.mode, mtime: self.mtime }
    }
}

/// Entries in the order of their paths.
pub open spec fn by_path(entries: Seq<EntryView>) -> Seq<EntryView> {
    let places = order_of(keys_of(entries));
    Seq::new(places.len(), |i: int| entries[places[i] as int])
}

#[derive(Debug)]
pub struct Manifest {
    pub entries: Vec<Entry>,
    pub bytes: u64,
    pub dirs: usize,
    pub files: usize,
    pub symlinks: usize,
    /// Files that share their contents with another name.
    pub hard_linked: Vec<FilePath>,
    /// Files stored with holes, and how many bytes those holes account for.
    pub sparse: Vec<FilePath>,
    pub sparse_saving: u64,
}

impl EntryView {
    pub open spec fn size(self) -> nat {
        match self.kind {
            KindView::File { size, .. } => size as nat,
            _ => 0,
        }
    }

    pub open spec fn is_dir(self) -> bool {
        self.kind is Dir
    }

    pub open spec fn is_file(self) -> bool {
        self.kind is File
    }

    pub open spec fn is_symlink(self) -> bool {
        self.kind is Symlink
    }

    /// Does the file have another name?
    pub open spec fn is_linked(self) -> bool {
        match self.kind {
            KindView::File { links, .. } => links > 1,
            _ => false,
        }
    }

    /// The bytes of the file that take no room.
    pub open spec fn holes(self) -> nat {
        match self.kind {
            KindView::File { size, allocated, .. } => if allocated < size {
                (size - allocated) as nat
            } else {
                0
            },
            _ => 0,
        }
    }
}

/// What a list of entries adds up to.
pub struct Totals {
    pub bytes: nat,
    pub dirs: nat,
    pub files: nat,
    pub symlinks: nat,
    pub hard_linked: Seq<Seq<u8>>,
    pub sparse: Seq<Seq<u8>>,
    pub sparse_saving: nat,
}

pub open spec fn with_path(list: Seq<Seq<u8>>, rel: Seq<u8>, is: bool) -> Seq<Seq<u8>> {
    if is {
        list.push(rel)
    } else {
        list
    }
}

pub open spec fn totals(entries: Seq<EntryView>) -> Totals
    decreases entries.len(),
{
    if entries.len() == 0 {
        Totals {
            bytes: 0,
            dirs: 0,
            files: 0,
            symlinks: 0,
            hard_linked: Seq::empty(),
            sparse: Seq::empty(),
            sparse_saving: 0,
        }
    } else {
        let before = totals(entries.drop_last());
        let entry = entries.last();
        Totals {
            bytes: before.bytes + entry.size(),
            dirs: before.dirs + if entry.is_dir() { 1nat } else { 0 },
            files: before.files + if entry.is_file() { 1nat } else { 0 },
            symlinks: before.symlinks + if entry.is_symlink() { 1nat } else { 0 },
            hard_linked: with_path(before.hard_linked, entry.rel, entry.is_linked()),
            sparse: with_path(before.sparse, entry.rel, entry.holes() > 0),
            sparse_saving: before.sparse_saving + entry.holes(),
        }
    }
}

impl View for Manifest {
    type V = Seq<EntryView>;

    open spec fn view(&self) -> Seq<EntryView> {
        entries_view(self.entries@)
    }
}

impl Manifest {
    /// The counts and lists beside the entries are those of these entries.
    pub open spec fn adds_up_to(&self, entries: Seq<EntryView>) -> bool {
        let sums = totals(entries);
        &&& self.bytes == sums.bytes
        &&& self.dirs == sums.dirs
        &&& self.files == sums.files
        &&& self.symlinks == sums.symlinks
        &&& paths_view(self.hard_linked@) == sums.hard_linked
        &&& paths_view(self.sparse@) == sums.sparse
        &&& self.sparse_saving == sums.sparse_saving
    }

    /// Is there room in the counts for another entry?
    pub open spec fn room_for(&self, entry: EntryView) -> bool {
        self.bytes + entry.size() <= u64::MAX
    }

    pub fn has_room_for(&self, entry: &Entry) -> (has: bool)
        ensures
            has == self.room_for(entry@),
    {
        match &entry.kind {
            Kind::File { size, .. } => *size <= u64::MAX - self.bytes,
            _ => true,
        }
    }

    /// A manifest of nothing.
    pub fn new() -> (manifest: Manifest)
        ensures
            manifest@ == Seq::<EntryView>::empty(),
            manifest.adds_up_to(manifest@),
    {
        let manifest = Manifest {
            entries: Vec::new(),
            bytes: 0,
            dirs: 0,
            files: 0,
            symlinks: 0,
            hard_linked: Vec::new(),
            sparse: Vec::new(),
            sparse_saving: 0,
        };
        assert(manifest@ =~= Seq::<EntryView>::empty());
        assert(paths_view(manifest.hard_linked@) =~= Seq::empty());
        assert(paths_view(manifest.sparse@) =~= Seq::empty());
        manifest
    }

    pub fn push(&mut self, entry: Entry)
        requires
            old(self).adds_up_to(old(self)@),
            old(self).room_for(entry@),
        ensures
            final(self)@ == old(self)@.push(entry@),
            final(self).adds_up_to(final(self)@),
    {
        let ghost was = self@;
        let ghost view = entry@;
        let rel = entry.rel.copy();
        let other = entry.rel.copy();
        let linked: bool = match &entry.kind {
            Kind::File { links, .. } => *links > 1,
            _ => false,
        };
        let (size, holes): (u64, u64) = match &entry.kind {
            Kind::File { size, allocated, .. } => if *allocated < *size {
                (*size, *size - *allocated)
            } else {
                (*size, 0)
            },
            _ => (0, 0),
        };
        let which: u8 = match &entry.kind {
            Kind::Dir => 0,
            Kind::File { .. } => 1,
            Kind::Symlink { .. } => 2,
        };
        self.entries.push(entry);
        proof {
            assert(self@ =~= was.push(view));
            assert(self@.drop_last() =~= was);
            lemma_totals(was);
            assert(self.entries@.len() == was.len() + 1);
        }
        let length: usize = self.entries.len();
        if which == 0 {
            self.dirs = self.dirs + 1;
        } else if which == 1 {
            self.files = self.files + 1;
        } else {
            self.symlinks = self.symlinks + 1;
        }
        self.bytes = self.bytes + size;
        if linked {
            proof {
                crate::path::lemma_paths_push(self.hard_linked@, rel);
            }
            self.hard_linked.push(rel);
        }
        if holes > 0 {
            proof {
                crate::path::lemma_paths_push(self.sparse@, other);
            }
            self.sparse.push(other);
            self.sparse_saving = self.sparse_saving + holes;
        }
    }
}

impl Manifest {
    /// Puts the entries in the order of their paths. The counts and lists stay as they are.
    pub fn sort(&mut self)
        ensures
            final(self)@ == by_path(old(self)@),
            forall|entries: Seq<EntryView>| #[trigger]
                old(self).adds_up_to(entries) ==> final(self).adds_up_to(entries),
    {
        let index = index_of(&self.entries);
        let ghost all = self@;
        proof {
            lemma_order_of(keys_of(all), index.order@);
        }
        let mut sorted: Vec<Entry> = Vec::new();
        let mut i: usize = 0;
        while i < index.order.len()
            invariant
                i <= index.order.len(),
                all == self@,
                *self == *old(self),
                in_order(keys_of(all), index.order@),
                sorted@.len() == i,
                forall|k: int| 0 <= k < i ==> (#[trigger] sorted@[k])@ == all[index.order@[k] as int],
            decreases index.order.len() - i,
        {
            assert(index.order@[i as int] < keys_of(all).len());
            sorted.push(self.entries[index.order[i]].copy());
            i = i + 1;
        }
        self.entries = sorted;
        assert(self@ =~= by_path(all));
    }
}

proof fn lemma_totals(entries: Seq<EntryView>)
    ensures
        totals(entries).dirs + totals(entries).files + totals(entries).symlinks == entries.len(),
        totals(entries).sparse_saving <= totals(entries).bytes,
    decreases entries.len(),
{
    if entries.len() > 0 {
        lemma_totals(entries.drop_last());
    }
}

/// The sort keys of the paths of a list of entries.
pub open spec fn keys_of(entries: Seq<EntryView>) -> Seq<Seq<u32>> {
    Seq::new(entries.len(), |i: int| path_key(entries[i].rel))
}

/// The entry of the other list that answers to entry `i`: the last one at the same path. Where a path
/// stands in the first list more than once, only its first entry is answered.
pub open spec fn partner(wanted: Seq<EntryView>, found: Seq<EntryView>, i: int) -> Option<EntryView> {
    let key = path_key(wanted[i].rel);
    if first_place(keys_of(wanted), key) == Some(i) {
        match last_place(keys_of(found), key) {
            Some(k) => Some(found[k]),
            None => None,
        }
    } else {
        None
    }
}

/// Is entry `k` of the second list the first at a path that the first list does not have?
pub open spec fn is_extra(wanted: Seq<EntryView>, found: Seq<EntryView>, k: int) -> bool {
    let key = path_key(found[k].rel);
    first_place(keys_of(found), key) == Some(k) && first_place(keys_of(wanted), key) is None
}

pub open spec fn permissions(mode: u32) -> u32 {
    mode & 0o7777
}

/// Permission bits matter: Proton writes into these trees, and a directory copied without its write
/// bit would break the prefix. A symlink has none of its own.
pub open spec fn mode_problems(want: EntryView, got: EntryView) -> Seq<Seq<char>> {
    if !want.is_symlink() && permissions(want.mode) != permissions(got.mode) {
        seq![
            shown(want.rel) + ": permissions are "@ + octal_text(permissions(want.mode) as nat)
                + " in the source and "@ + octal_text(permissions(got.mode) as nat)
                + " in the copy"@,
        ]
    } else {
        Seq::empty()
    }
}

pub open spec fn digest_text(digest: Option<Seq<u8>>) -> Seq<char> {
    match digest {
        Some(digest) => hex_text(digest),
        None => Seq::empty(),
    }
}

/// What is wrong with a copied entry, its permissions aside.
pub open spec fn kind_problems(want: EntryView, got: EntryView) -> Seq<Seq<char>> {
    match (want.kind, got.kind) {
        (KindView::Dir, KindView::Dir) => Seq::empty(),
        (
            KindView::File { size: want_size, digest: want_digest, .. },
            KindView::File { size: got_size, digest: got_digest, .. },
        ) => if want_size != got_size {
            seq![
                shown(want.rel) + ": size "@ + decimal_text(want_size as nat) + " in the source, "@
                    + decimal_text(got_size as nat) + " in the copy"@,
            ]
        } else if want_digest != got_digest {
            seq![
                shown(want.rel) + ": contents differ (source "@ + digest_text(want_digest)
                    + ", copy "@ + digest_text(got_digest) + ")"@,
            ]
        } else {
            Seq::empty()
        },
        (
            KindView::Symlink { target: want_target },
            KindView::Symlink { target: got_target },
        ) => if parts(want_target) != parts(got_target) {
            seq![
                shown(want.rel) + ": link points at "@ + shown(want_target)
                    + " in the source and "@ + shown(got_target) + " in the copy"@,
            ]
        } else {
            Seq::empty()
        },
        (want_kind, got_kind) => seq![
            shown(want.rel) + ": "@ + want_kind.label() + " in the source, "@ + got_kind.label()
                + " in the copy"@,
        ],
    }
}

/// What is wrong with the copy of one entry.
pub open spec fn entry_problems(want: EntryView, got: Option<EntryView>) -> Seq<Seq<char>> {
    match got {
        None => seq!["missing from the copy: "@ + shown(want.rel)],
        Some(got) => mode_problems(want, got) + kind_problems(want, got),
    }
}

pub open spec fn all_entry_problems(
    expected: Seq<EntryView>,
    actual: Seq<EntryView>,
    n: int,
) -> Seq<Seq<char>>
    decreases n,
{
    if n <= 0 {
        Seq::empty()
    } else {
        all_entry_problems(expected, actual, n - 1) + entry_problems(
            expected[n - 1],
            partner(expected, actual, n - 1),
        )
    }
}

/// What is said of each entry that only the second list has.
pub open spec fn extras(
    wanted: Seq<EntryView>,
    found: Seq<EntryView>,
    says: Seq<char>,
    n: int,
) -> Seq<Seq<char>>
    decreases n,
{
    if n <= 0 {
        Seq::empty()
    } else if is_extra(wanted, found, n - 1) {
        extras(wanted, found, says, n - 1).push(says + shown(found[n - 1].rel))
    } else {
        extras(wanted, found, says, n - 1)
    }
}

pub open spec fn count_problems(expected: nat, actual: nat) -> Seq<Seq<char>> {
    if expected != actual {
        seq![
            "entry count differs: source has "@ + decimal_text(expected) + ", copy has "@
                + decimal_text(actual),
        ]
    } else {
        Seq::empty()
    }
}

fn index_of(entries: &Vec<Entry>) -> (index: Index)
    ensures
        index.wf(),
        index.listed() == keys_of(entries_view(entries@)),
        index.keys@.len() == entries@.len(),
{
    let mut keys: Vec<Vec<u32>> = Vec::new();
    let mut i: usize = 0;
    while i < entries.len()
        invariant
            i <= entries.len(),
            keys@.len() == i,
            forall|k: int| 0 <= k < i ==> #[trigger] keys@[k]@ == path_key(entries@[k].rel@),
        decreases entries.len() - i,
    {
        keys.push(entries[i].rel.key());
        i = i + 1;
    }
    assert(keys_view(keys@) =~= keys_of(entries_view(entries@)));
    Index::new(keys)
}

/// The place of the partner of entry `i`.
fn find_partner(wanted: &Index, found: &Index, i: usize) -> (place: Option<usize>)
    requires
        wanted.wf(),
        found.wf(),
        i < wanted.keys@.len(),
    ensures
        ({
            let key = wanted.listed()[i as int];
            if first_place(wanted.listed(), key) == Some(i as int) {
                match last_place(found.listed(), key) {
                    Some(k) => place is Some && place->0 == k && 0 <= k < found.keys@.len(),
                    None => place is None,
                }
            } else {
                place is None
            }
        }),
{
    proof {
        lemma_first_place(wanted.listed(), wanted.listed()[i as int]);
        lemma_last_place(found.listed(), wanted.listed()[i as int]);
    }
    match wanted.find_first(&wanted.keys[i]) {
        Some(first) => if first == i {
            found.find_last(&wanted.keys[i])
        } else {
            None
        },
        None => None,
    }
}

fn add_extras(
    expected: &Index,
    actual: &Index,
    entries: &Vec<Entry>,
    says: &str,
    list: &mut Vec<String>,
    Ghost(wanted): Ghost<Seq<EntryView>>,
)
    requires
        expected.wf(),
        actual.wf(),
        expected.listed() == keys_of(wanted),
        actual.listed() == keys_of(entries_view(entries@)),
        actual.keys@.len() == entries@.len(),
    ensures
        texts(final(list)@) == texts(old(list)@) + extras(
            wanted,
            entries_view(entries@),
            says@,
            entries@.len() as int,
        ),
{
    let ghost found = entries_view(entries@);
    let ghost before = texts(list@);
    let mut i: usize = 0;
    assert(before =~= before + extras(wanted, found, says@, 0));
    while i < entries.len()
        invariant
            i <= entries.len(),
            expected.wf(),
            actual.wf(),
            found == entries_view(entries@),
            expected.listed() == keys_of(wanted),
            actual.listed() == keys_of(found),
            actual.keys@.len() == entries@.len(),
            texts(list@) == before + extras(wanted, found, says@, i as int),
        decreases entries.len() - i,
    {
        proof {
            lemma_first_place(actual.listed(), actual.listed()[i as int]);
            assert(actual.listed()[i as int] == path_key(found[i as int].rel));
        }
        let key = &actual.keys[i];
        let first = match actual.find_first(key) {
            Some(first) => first == i,
            None => false,
        };
        if first && expected.find_first(key).is_none() {
            let mut text = says.to_string();
            text.push_str(entries[i].rel.display().as_str());
            add_text(list, text);
        }
        assert(texts(list@) =~= before + extras(wanted, found, says@, i + 1));
        i = i + 1;
    }
}

fn same_digest(left: &Option<[u8; 32]>, right: &Option<[u8; 32]>) -> (equal: bool)
    ensures
        equal == (digest_view(*left) == digest_view(*right)),
{
    match (left, right) {
        (Some(a), Some(b)) => crate::path::same_bytes(a.as_slice(), b.as_slice()),
        (None, None) => true,
        _ => false,
    }
}

fn digest_hex(digest: &Option<[u8; 32]>) -> (text: String)
    ensures
        text@ == digest_text(digest_view(*digest)),
{
    match digest {
        Some(digest) => hex(digest.as_slice()),
        None => {
            let none = String::new();
            assert(none@ =~= Seq::<char>::empty());
            none
        },
    }
}

fn add_entry_problems(want: &Entry, got: &Entry, list: &mut Vec<String>)
    ensures
        texts(final(list)@) == texts(old(list)@) + entry_problems(want@, Some(got@)),
{
    let ghost before = texts(list@);
    let ghost problems = entry_problems(want@, Some(got@));
    let link: bool = match &want.kind {
        Kind::Symlink { .. } => true,
        _ => false,
    };
    if !link && want.mode & 0o7777 != got.mode & 0o7777 {
        let mut text = want.rel.display();
        text.push_str(": permissions are ");
        text.push_str(octal(want.mode & 0o7777).as_str());
        text.push_str(" in the source and ");
        text.push_str(octal(got.mode & 0o7777).as_str());
        text.push_str(" in the copy");
        add_text(list, text);
    }
    assert(texts(list@) =~= before + mode_problems(want@, got@));
    match (&want.kind, &got.kind) {
        (Kind::Dir, Kind::Dir) => {},
        (
            Kind::File { size: want_size, digest: want_digest, .. },
            Kind::File { size: got_size, digest: got_digest, .. },
        ) => {
            if *want_size != *got_size {
                let mut text = want.rel.display();
                text.push_str(": size ");
                text.push_str(decimal(*want_size).as_str());
                text.push_str(" in the source, ");
                text.push_str(decimal(*got_size).as_str());
                text.push_str(" in the copy");
                add_text(list, text);
            } else if !same_digest(want_digest, got_digest) {
                let mut text = want.rel.display();
                text.push_str(": contents differ (source ");
                text.push_str(digest_hex(want_digest).as_str());
                text.push_str(", copy ");
                text.push_str(digest_hex(got_digest).as_str());
                text.push_str(")");
                add_text(list, text);
            }
        },
        (Kind::Symlink { target: want_target }, Kind::Symlink { target: got_target }) => {
            if !want_target.same_as(got_target) {
                let mut text = want.rel.display();
                text.push_str(": link points at ");
                text.push_str(want_target.display().as_str());
                text.push_str(" in the source and ");
                text.push_str(got_target.display().as_str());
                text.push_str(" in the copy");
                add_text(list, text);
            }
        },
        (want_kind, got_kind) => {
            let mut text = want.rel.display();
            text.push_str(": ");
            text.push_str(want_kind.label());
            text.push_str(" in the source, ");
            text.push_str(got_kind.label());
            text.push_str(" in the copy");
            add_text(list, text);
        },
    }
    assert(texts(list@) =~= before + problems);
}

/// Files that shared their contents in the source must still share them in the copy. Matching bytes
/// is not the same as still being one file.
pub open spec fn link_problems(expected: Seq<EntryView>, actual: Seq<EntryView>) -> Seq<Seq<char>> {
    if sharing(expected) == sharing(actual) {
        Seq::empty()
    } else {
        seq![
            "shared files were not reproduced as shared: the source has "@ + decimal_text(
                shared_files(expected).len(),
            ) + " group(s) of names pointing at one file, the copy has "@ + decimal_text(
                shared_files(actual).len(),
            ),
        ]
    }
}

/// Group entries by the file they are, then check the copy groups the same paths together.
pub fn compare_link_groups(expected: &Manifest, actual: &Manifest) -> (problems: Vec<String>)
    ensures
        texts(problems@) == link_problems(expected@, actual@),
{
    let shares = compare(&expected.entries, &actual.entries);
    let mut problems: Vec<String> = Vec::new();
    if !shares.same {
        let mut text = "shared files were not reproduced as shared: the source has ".to_string();
        text.push_str(decimal(shares.left as u64).as_str());
        text.push_str(" group(s) of names pointing at one file, the copy has ");
        text.push_str(decimal(shares.right as u64).as_str());
        problems.push(text);
    }
    assert(texts(problems@) =~= link_problems(expected@, actual@));
    problems
}

/// All that is wrong with a copy.
pub open spec fn copy_problems(expected: Seq<EntryView>, actual: Seq<EntryView>) -> Seq<Seq<char>> {
    count_problems(expected.len(), actual.len()) + all_entry_problems(
        expected,
        actual,
        expected.len() as int,
    ) + extras(
        expected,
        actual,
        "unexpected extra entry in the copy: "@,
        actual.len() as int,
    ) + link_problems(expected, actual)
}

/// Compare a copy against the manifest recorded while it was written. Contents, sizes, link text and
/// the shape of the tree must all match.
pub fn verify_against(expected: &Manifest, actual: &Manifest) -> (verdict: Result<(), Vec<String>>)
    ensures
        verdict is Ok <==> copy_problems(expected@, actual@).len() == 0,
        verdict matches Err(problems) ==> texts(problems@) == copy_problems(expected@, actual@),
{
    let ghost wanted = expected@;
    let ghost found = actual@;
    let mut problems: Vec<String> = Vec::new();
    if expected.entries.len() != actual.entries.len() {
        let mut text = "entry count differs: source has ".to_string();
        text.push_str(decimal(expected.entries.len() as u64).as_str());
        text.push_str(", copy has ");
        text.push_str(decimal(actual.entries.len() as u64).as_str());
        problems.push(text);
    }
    let ghost counted = count_problems(wanted.len(), found.len());
    assert(texts(problems@) =~= counted);
    let wanted_index = index_of(&expected.entries);
    let found_index = index_of(&actual.entries);
    let mut i: usize = 0;
    assert(texts(problems@) =~= counted + all_entry_problems(wanted, found, 0));
    while i < expected.entries.len()
        invariant
            i <= expected.entries.len(),
            wanted == expected@,
            found == actual@,
            wanted_index.wf(),
            found_index.wf(),
            wanted_index.listed() == keys_of(wanted),
            found_index.listed() == keys_of(found),
            wanted_index.keys@.len() == wanted.len(),
            found_index.keys@.len() == found.len(),
            texts(problems@) == counted + all_entry_problems(wanted, found, i as int),
        decreases expected.entries.len() - i,
    {
        let ghost before = texts(problems@);
        let want = &expected.entries[i];
        assert(wanted_index.listed()[i as int] == path_key(wanted[i as int].rel));
        let ghost said = entry_problems(wanted[i as int], partner(wanted, found, i as int));
        match find_partner(&wanted_index, &found_index, i) {
            Some(place) => {
                assert(partner(wanted, found, i as int) == Some(found[place as int]));
                add_entry_problems(want, &actual.entries[place], &mut problems);
            },
            None => {
                let mut text = "missing from the copy: ".to_string();
                text.push_str(want.rel.display().as_str());
                add_text(&mut problems, text);
            },
        }
        assert(texts(problems@) =~= before + said);
        assert(texts(problems@) =~= counted + all_entry_problems(wanted, found, i + 1));
        i = i + 1;
    }
    add_extras(
        &wanted_index,
        &found_index,
        &actual.entries,
        "unexpected extra entry in the copy: ",
        &mut problems,
        Ghost(wanted),
    );
    let mut links = compare_link_groups(expected, actual);
    let ghost so_far = problems@;
    let ghost more = links@;
    problems.append(&mut links);
    assert(texts(problems@) =~= texts(so_far) + texts(more));
    assert(texts(problems@) =~= copy_problems(wanted, found));
    if problems.len() == 0 {
        Ok(())
    } else {
        Err(problems)
    }
}

/// What a copied entry keeps of the original.
pub open spec fn carried(want: EntryView, got: EntryView) -> bool {
    &&& !want.is_symlink() ==> permissions(want.mode) == permissions(got.mode)
    &&& match (want.kind, got.kind) {
        (KindView::Dir, KindView::Dir) => true,
        (
            KindView::File { size: a, digest: d, .. },
            KindView::File { size: b, digest: e, .. },
        ) => a == b && d == e,
        (KindView::Symlink { target: a }, KindView::Symlink { target: b }) => parts(a) == parts(b),
        _ => false,
    }
}

/// Does the list have an entry at the path of this one that matches it?
pub open spec fn has_copy(want: EntryView, actual: Seq<EntryView>) -> bool {
    exists|k: int|
        0 <= k < actual.len() && parts(#[trigger] actual[k].rel) == parts(want.rel) && carried(
            want,
            actual[k],
        )
}

/// Does the list have an entry at the path?
pub open spec fn has_path(rel: Seq<u8>, entries: Seq<EntryView>) -> bool {
    exists|i: int| 0 <= i < entries.len() && parts(#[trigger] entries[i].rel) == parts(rel)
}

/// No two entries at one path.
pub open spec fn distinct(entries: Seq<EntryView>) -> bool {
    forall|i: int, j: int|
        0 <= i < j < entries.len() ==> parts(#[trigger] entries[i].rel) != parts(
            #[trigger] entries[j].rel,
        )
}

proof fn lemma_entry_problems_empty(want: EntryView, got: EntryView)
    ensures
        entry_problems(want, Some(got)).len() == 0 <==> carried(want, got),
{
}

proof fn lemma_all_entry_problems(expected: Seq<EntryView>, actual: Seq<EntryView>, n: int)
    requires
        0 <= n <= expected.len(),
    ensures
        all_entry_problems(expected, actual, n).len() == 0 <==> forall|i: int|
            0 <= i < n ==> entry_problems(expected[i], #[trigger] partner(expected, actual, i)).len()
                == 0,
    decreases n,
{
    if n > 0 {
        lemma_all_entry_problems(expected, actual, n - 1);
        let last = entry_problems(expected[n - 1], partner(expected, actual, n - 1));
        if all_entry_problems(expected, actual, n).len() == 0 {
            assert(last.len() == 0);
        }
    }
}

proof fn lemma_extras(wanted: Seq<EntryView>, found: Seq<EntryView>, says: Seq<char>, n: int)
    requires
        0 <= n <= found.len(),
    ensures
        extras(wanted, found, says, n).len() == 0 <==> forall|k: int|
            0 <= k < n ==> !#[trigger] is_extra(wanted, found, k),
    decreases n,
{
    if n > 0 {
        lemma_extras(wanted, found, says, n - 1);
        if extras(wanted, found, says, n).len() == 0 {
            assert(!is_extra(wanted, found, n - 1));
        }
    }
}

/// A copy that passes has every entry of the source, with the permissions, size, contents and link
/// text it had there, has no other, and shares files between names as the source does.
pub proof fn law_verified_copy_is_complete(expected: Seq<EntryView>, actual: Seq<EntryView>)
    requires
        copy_problems(expected, actual).len() == 0,
    ensures
        expected.len() == actual.len(),
        forall|i: int| 0 <= i < expected.len() ==> #[trigger] has_copy(expected[i], actual),
        forall|k: int| 0 <= k < actual.len() ==> #[trigger] has_path(actual[k].rel, expected),
        sharing(expected) == sharing(actual),
{
    lemma_all_entry_problems(expected, actual, expected.len() as int);
    lemma_extras(
        expected,
        actual,
        "unexpected extra entry in the copy: "@,
        actual.len() as int,
    );
    let wanted_keys = keys_of(expected);
    let found_keys = keys_of(actual);
    assert forall|i: int| 0 <= i < expected.len() implies #[trigger] has_copy(
        expected[i],
        actual,
    ) by {
        let key = path_key(expected[i].rel);
        assert(entry_problems(expected[i], partner(expected, actual, i)).len() == 0);
        lemma_last_place(found_keys, key);
        let k = last_place(found_keys, key)->0;
        lemma_entry_problems_empty(expected[i], actual[k]);
        assert(found_keys[k] == path_key(actual[k].rel));
        law_keys_tell_paths_apart(actual[k].rel, expected[i].rel);
    }
    assert forall|k: int| 0 <= k < actual.len() implies #[trigger] has_path(
        actual[k].rel,
        expected,
    ) by {
        let key = path_key(actual[k].rel);
        lemma_first_place(found_keys, key);
        assert(found_keys[k] == key);
        let first = first_place(found_keys, key)->0;
        assert(found_keys[first] == path_key(actual[first].rel));
        assert(!is_extra(expected, actual, first));
        lemma_first_place(wanted_keys, key);
        let i = first_place(wanted_keys, key)->0;
        assert(wanted_keys[i] == path_key(expected[i].rel));
        law_keys_tell_paths_apart(expected[i].rel, actual[k].rel);
    }
}

/// Where every path stands once, a tree passes against another exactly when they have the same
/// paths, entries at the same path match, and names share files in the same way.
pub proof fn law_matching_trees_pass(expected: Seq<EntryView>, actual: Seq<EntryView>)
    requires
        distinct(expected),
        distinct(actual),
        expected.len() == actual.len(),
        forall|i: int| 0 <= i < expected.len() ==> #[trigger] has_copy(expected[i], actual),
        forall|k: int| 0 <= k < actual.len() ==> #[trigger] has_path(actual[k].rel, expected),
        sharing(expected) == sharing(actual),
    ensures
        copy_problems(expected, actual).len() == 0,
{
    let wanted_keys = keys_of(expected);
    let found_keys = keys_of(actual);
    lemma_all_entry_problems(expected, actual, expected.len() as int);
    lemma_extras(
        expected,
        actual,
        "unexpected extra entry in the copy: "@,
        actual.len() as int,
    );
    assert forall|i: int| 0 <= i < expected.len() implies entry_problems(
        expected[i],
        #[trigger] partner(expected, actual, i),
    ).len() == 0 by {
        let key = path_key(expected[i].rel);
        let want = expected[i];
        assert(has_copy(want, actual));
        let k = choose|k: int|
            0 <= k < actual.len() && parts(#[trigger] actual[k].rel) == parts(want.rel) && carried(
                want,
                actual[k],
            );
        law_keys_tell_paths_apart(actual[k].rel, expected[i].rel);
        assert(found_keys[k] == key);
        assert(wanted_keys[i] == key);
        lemma_first_place(wanted_keys, key);
        let first = first_place(wanted_keys, key)->0;
        assert(wanted_keys[first] == path_key(expected[first].rel));
        law_keys_tell_paths_apart(expected[first].rel, expected[i].rel);
        assert(first == i);
        lemma_last_place(found_keys, key);
        let last = last_place(found_keys, key)->0;
        assert(found_keys[last] == path_key(actual[last].rel));
        law_keys_tell_paths_apart(actual[last].rel, actual[k].rel);
        assert(last == k);
        lemma_entry_problems_empty(expected[i], actual[k]);
    }
    assert forall|k: int| 0 <= k < actual.len() implies !#[trigger] is_extra(expected, actual, k) by {
        let got = actual[k];
        assert(has_path(got.rel, expected));
        let i = choose|i: int|
            0 <= i < expected.len() && parts(#[trigger] expected[i].rel) == parts(got.rel);
        law_keys_tell_paths_apart(expected[i].rel, actual[k].rel);
        assert(wanted_keys[i] == path_key(actual[k].rel));
        lemma_first_place(wanted_keys, path_key(actual[k].rel));
    }
}

/// A copy of a copy is a copy: what was verified on the way there and on the way back is as it was.
pub proof fn law_copy_of_a_copy(original: Seq<EntryView>, copy: Seq<EntryView>, back: Seq<EntryView>)
    requires
        distinct(original),
        distinct(back),
        copy_problems(original, copy).len() == 0,
        copy_problems(copy, back).len() == 0,
    ensures
        copy_problems(original, back).len() == 0,
{
    law_verified_copy_is_complete(original, copy);
    law_verified_copy_is_complete(copy, back);
    assert forall|i: int| 0 <= i < original.len() implies #[trigger] has_copy(original[i], back) by {
        assert(has_copy(original[i], copy));
        let k = choose|k: int|
            0 <= k < copy.len() && parts(#[trigger] copy[k].rel) == parts(original[i].rel) && carried(
                original[i],
                copy[k],
            );
        assert(has_copy(copy[k], back));
        let m = choose|m: int|
            0 <= m < back.len() && parts(#[trigger] back[m].rel) == parts(copy[k].rel) && carried(
                copy[k],
                back[m],
            );
        assert(carried(original[i], back[m]));
    }
    assert forall|k: int| 0 <= k < back.len() implies #[trigger] has_path(back[k].rel, original) by {
        assert(has_path(back[k].rel, copy));
        let m = choose|m: int| 0 <= m < copy.len() && parts(#[trigger] copy[m].rel) == parts(back[k].rel);
        assert(has_path(copy[m].rel, original));
        let i = choose|i: int|
            0 <= i < original.len() && parts(#[trigger] original[i].rel) == parts(copy[m].rel);
        assert(parts(original[i].rel) == parts(back[k].rel));
    }
    law_matching_trees_pass(original, back);
}

/// Is an entry still of the kind, size and link text it was?
pub open spec fn same_kind(before: KindView, after: KindView) -> bool {
    match (before, after) {
        (KindView::Dir, KindView::Dir) => true,
        (KindView::File { size: a, .. }, KindView::File { size: b, .. }) => a == b,
        (KindView::Symlink { target: a }, KindView::Symlink { target: b }) => parts(a) == parts(b),
        _ => false,
    }
}

/// What has become of one entry.
pub open spec fn entry_changes(want: EntryView, got: Option<EntryView>) -> Seq<Seq<char>> {
    match got {
        None => seq!["disappeared during the copy: "@ + shown(want.rel)],
        Some(got) => if !same_kind(want.kind, got.kind) {
            seq!["changed during the copy: "@ + shown(want.rel)]
        } else if want.mtime != got.mtime {
            seq!["modified during the copy: "@ + shown(want.rel)]
        } else {
            Seq::empty()
        },
    }
}

pub open spec fn all_entry_changes(
    before: Seq<EntryView>,
    after: Seq<EntryView>,
    n: int,
) -> Seq<Seq<char>>
    decreases n,
{
    if n <= 0 {
        Seq::empty()
    } else {
        all_entry_changes(before, after, n - 1) + entry_changes(
            before[n - 1],
            partner(before, after, n - 1),
        )
    }
}

/// All that changed between two looks at a tree.
pub open spec fn tree_changes(before: Seq<EntryView>, after: Seq<EntryView>) -> Seq<Seq<char>> {
    all_entry_changes(before, after, before.len() as int) + extras(
        before,
        after,
        "appeared during the copy: "@,
        after.len() as int,
    )
}

fn same_stamp(left: &Option<Stamp>, right: &Option<Stamp>) -> (equal: bool)
    ensures
        equal == (*left == *right),
{
    match (left, right) {
        (Some(a), Some(b)) => *a == *b,
        (None, None) => true,
        _ => false,
    }
}

fn add_entry_changes(want: &Entry, got: &Entry, list: &mut Vec<String>)
    ensures
        texts(final(list)@) == texts(old(list)@) + entry_changes(want@, Some(got@)),
{
    let ghost before = texts(list@);
    let same = match (&want.kind, &got.kind) {
        (Kind::Dir, Kind::Dir) => true,
        (Kind::File { size: a, .. }, Kind::File { size: b, .. }) => *a == *b,
        (Kind::Symlink { target: a }, Kind::Symlink { target: b }) => a.same_as(b),
        _ => false,
    };
    if !same {
        let mut text = "changed during the copy: ".to_string();
        text.push_str(want.rel.display().as_str());
        add_text(list, text);
    } else if !same_stamp(&want.mtime, &got.mtime) {
        let mut text = "modified during the copy: ".to_string();
        text.push_str(want.rel.display().as_str());
        add_text(list, text);
    }
    assert(texts(list@) =~= before + entry_changes(want@, Some(got@)));
}

/// Detect a source that changed while it was being copied. Compares shape, sizes, link text and
/// modification times, without rereading file contents.
pub fn changed_since(before: &Manifest, after: &Manifest) -> (changes: Vec<String>)
    ensures
        texts(changes@) == tree_changes(before@, after@),
{
    let ghost wanted = before@;
    let ghost found = after@;
    let mut changes: Vec<String> = Vec::new();
    let wanted_index = index_of(&before.entries);
    let found_index = index_of(&after.entries);
    let mut i: usize = 0;
    assert(texts(changes@) =~= all_entry_changes(wanted, found, 0));
    while i < before.entries.len()
        invariant
            i <= before.entries.len(),
            wanted == before@,
            found == after@,
            wanted_index.wf(),
            found_index.wf(),
            wanted_index.listed() == keys_of(wanted),
            found_index.listed() == keys_of(found),
            wanted_index.keys@.len() == wanted.len(),
            found_index.keys@.len() == found.len(),
            texts(changes@) == all_entry_changes(wanted, found, i as int),
        decreases before.entries.len() - i,
    {
        let ghost so_far = texts(changes@);
        let want = &before.entries[i];
        assert(wanted_index.listed()[i as int] == path_key(wanted[i as int].rel));
        let ghost said = entry_changes(wanted[i as int], partner(wanted, found, i as int));
        match find_partner(&wanted_index, &found_index, i) {
            Some(place) => {
                assert(partner(wanted, found, i as int) == Some(found[place as int]));
                add_entry_changes(want, &after.entries[place], &mut changes);
            },
            None => {
                let mut text = "disappeared during the copy: ".to_string();
                text.push_str(want.rel.display().as_str());
                add_text(&mut changes, text);
            },
        }
        assert(texts(changes@) =~= so_far + said);
        i = i + 1;
    }
    add_extras(
        &wanted_index,
        &found_index,
        &after.entries,
        "appeared during the copy: ",
        &mut changes,
        Ghost(wanted),
    );
    changes
}

proof fn lemma_all_entry_changes(before: Seq<EntryView>, after: Seq<EntryView>, n: int)
    requires
        0 <= n <= before.len(),
    ensures
        all_entry_changes(before, after, n).len() == 0 <==> forall|i: int|
            0 <= i < n ==> entry_changes(before[i], #[trigger] partner(before, after, i)).len() == 0,
    decreases n,
{
    if n > 0 {
        lemma_all_entry_changes(before, after, n - 1);
        let last = entry_changes(before[n - 1], partner(before, after, n - 1));
        if all_entry_changes(before, after, n).len() == 0 {
            assert(last.len() == 0);
        }
    }
}

/// A tree in which every path stands once has not changed against itself.
pub proof fn law_nothing_changed(entries: Seq<EntryView>)
    requires
        distinct(entries),
    ensures
        tree_changes(entries, entries).len() == 0,
{
    let keys = keys_of(entries);
    lemma_all_entry_changes(entries, entries, entries.len() as int);
    lemma_extras(entries, entries, "appeared during the copy: "@, entries.len() as int);
    assert forall|i: int| 0 <= i < entries.len() implies entry_changes(
        entries[i],
        #[trigger] partner(entries, entries, i),
    ).len() == 0 by {
        let key = path_key(entries[i].rel);
        assert(keys[i] == key);
        lemma_first_place(keys, key);
        lemma_last_place(keys, key);
        let first = first_place(keys, key)->0;
        let last = last_place(keys, key)->0;
        assert(keys[first] == path_key(entries[first].rel));
        assert(keys[last] == path_key(entries[last].rel));
        law_keys_tell_paths_apart(entries[first].rel, entries[i].rel);
        law_keys_tell_paths_apart(entries[last].rel, entries[i].rel);
        assert(first == i && last == i);
    }
    assert forall|k: int| 0 <= k < entries.len() implies !#[trigger] is_extra(entries, entries, k) by {
        lemma_first_place(keys, path_key(entries[k].rel));
    }
}

/// A path that appears, disappears, changes its size, its link text or what it is, or is modified is
/// always noticed.
pub proof fn law_changes_are_noticed(before: Seq<EntryView>, after: Seq<EntryView>)
    requires
        tree_changes(before, after).len() == 0,
    ensures
        forall|i: int| 0 <= i < before.len() ==> #[trigger] is_unchanged(before[i], after),
        forall|k: int| 0 <= k < after.len() ==> #[trigger] has_path(after[k].rel, before),
{
    lemma_all_entry_changes(before, after, before.len() as int);
    lemma_extras(before, after, "appeared during the copy: "@, after.len() as int);
    let wanted_keys = keys_of(before);
    let found_keys = keys_of(after);
    assert forall|i: int| 0 <= i < before.len() implies #[trigger] is_unchanged(
        before[i],
        after,
    ) by {
        let key = path_key(before[i].rel);
        assert(entry_changes(before[i], partner(before, after, i)).len() == 0);
        lemma_last_place(found_keys, key);
        let k = last_place(found_keys, key)->0;
        assert(found_keys[k] == path_key(after[k].rel));
        law_keys_tell_paths_apart(after[k].rel, before[i].rel);
        assert(parts(after[k].rel) == parts(before[i].rel));
    }
    assert forall|k: int| 0 <= k < after.len() implies #[trigger] has_path(after[k].rel, before) by {
        let key = path_key(after[k].rel);
        lemma_first_place(found_keys, key);
        assert(found_keys[k] == key);
        let first = first_place(found_keys, key)->0;
        assert(found_keys[first] == path_key(after[first].rel));
        assert(!is_extra(before, after, first));
        lemma_first_place(wanted_keys, key);
        let i = first_place(wanted_keys, key)->0;
        assert(wanted_keys[i] == path_key(before[i].rel));
        law_keys_tell_paths_apart(before[i].rel, after[k].rel);
    }
}

/// Does the list have an entry at the path of this one that is what this one was?
pub open spec fn is_unchanged(want: EntryView, after: Seq<EntryView>) -> bool {
    exists|k: int|
        0 <= k < after.len() && parts(#[trigger] after[k].rel) == parts(want.rel) && same_kind(
            want.kind,
            after[k].kind,
        ) && want.mtime == after[k].mtime
}

/// The bytes of a number, the lowest first.
pub open spec fn low_first(n: u64) -> Seq<u8> {
    seq![
        n as u8,
        (n >> 8u64) as u8,
        (n >> 16u64) as u8,
        (n >> 24u64) as u8,
        (n >> 32u64) as u8,
        (n >> 40u64) as u8,
        (n >> 48u64) as u8,
        (n >> 56u64) as u8,
    ]
}

pub open spec fn kind_bytes(kind: KindView) -> Seq<u8> {
    match kind {
        KindView::Dir => seq![100u8],
        KindView::Symlink { target } => seq![108u8] + encode_utf8(shown(target)),
        KindView::File { size, digest, .. } => seq![102u8] + low_first(size) + match digest {
            Some(digest) => digest,
            None => Seq::empty(),
        },
    }
}

/// What a verified entry establishes, as bytes: where it is, what it is, how big it is and what it
/// contains.
pub open spec fn entry_bytes(entry: EntryView) -> Seq<u8> {
    encode_utf8(shown(entry.rel)) + seq![0u8] + kind_bytes(entry.kind) + seq![0u8]
}

pub open spec fn tree_bytes(entries: Seq<EntryView>, order: Seq<usize>) -> Seq<u8>
    decreases order.len(),
{
    if order.len() == 0 {
        Seq::empty()
    } else {
        tree_bytes(entries, order.drop_last()) + entry_bytes(entries[order.last() as int])
    }
}

/// The digest of a tree: of its entries in the order of their paths.
pub open spec fn tree_digest(entries: Seq<EntryView>) -> Seq<char> {
    hex_text(digest(tree_bytes(entries, order_of(keys_of(entries)))))
}

/// Are paths and link targets that are the same written the same way in two trees?
pub open spec fn spelled_alike(left: Seq<EntryView>, right: Seq<EntryView>) -> bool {
    forall|i: int, k: int|
        0 <= i < left.len() && 0 <= k < right.len() && parts((#[trigger] left[i]).rel) == parts(
            (#[trigger] right[k]).rel,
        ) ==> left[i].rel == right[k].rel && same_spelling(left[i].kind, right[k].kind)
}

pub open spec fn same_spelling(left: KindView, right: KindView) -> bool {
    match (left, right) {
        (KindView::Symlink { target: a }, KindView::Symlink { target: b }) => parts(a) == parts(b) ==> a == b,
        _ => true,
    }
}

/// The entry of a copy that an entry of its source was copied to.
spec fn counterpart(expected: Seq<EntryView>, actual: Seq<EntryView>, i: int) -> int {
    choose|k: int|
        0 <= k < actual.len() && parts(#[trigger] actual[k].rel) == parts(expected[i].rel) && carried(
            expected[i],
            actual[k],
        )
}

proof fn lemma_same_bytes(left: Seq<EntryView>, a: Seq<usize>, right: Seq<EntryView>, b: Seq<usize>)
    requires
        a.len() == b.len(),
        forall|i: int|
            0 <= i < a.len() ==> entry_bytes(left[#[trigger] a[i] as int]) == entry_bytes(right[b[i] as int]),
    ensures
        tree_bytes(left, a) == tree_bytes(right, b),
    decreases a.len(),
{
    if a.len() > 0 {
        assert forall|i: int| 0 <= i < a.len() - 1 implies entry_bytes(
            left[#[trigger] a.drop_last()[i] as int],
        ) == entry_bytes(right[b.drop_last()[i] as int]) by {
            assert(a.drop_last()[i] == a[i]);
        }
        lemma_same_bytes(left, a.drop_last(), right, b.drop_last());
        assert(entry_bytes(left[a[a.len() - 1] as int]) == entry_bytes(right[b[a.len() - 1] as int]));
    }
}

/// A copy that was verified has the digest of its source, in whatever order either lists its entries and
/// whatever the times, file numbers and allocation; paths and link targets have to be written the same way,
/// as they are where they were copied.
pub proof fn law_verified_copy_has_the_digest(expected: Seq<EntryView>, actual: Seq<EntryView>)
    requires
        expected.len() <= usize::MAX,
        distinct(expected),
        distinct(actual),
        spelled_alike(expected, actual),
        copy_problems(expected, actual).len() == 0,
    ensures
        tree_digest(expected) == tree_digest(actual),
        tree_digest(expected).len() == 64,
{
    law_digest_has_64_digits(tree_bytes(expected, order_of(keys_of(expected))));
    law_verified_copy_is_complete(expected, actual);
    let left = keys_of(expected);
    let right = keys_of(actual);
    lemma_some_order(left);
    let a = order_of(left);
    let b = Seq::new(a.len(), |i: int| counterpart(expected, actual, a[i] as int) as usize);
    assert forall|i: int| 0 <= i < a.len() implies {
        let k = counterpart(expected, actual, #[trigger] a[i] as int);
        &&& 0 <= k < actual.len()
        &&& b[i] == k
        &&& right[k] == left[a[i] as int]
        &&& parts(actual[k].rel) == parts(expected[a[i] as int].rel)
        &&& carried(expected[a[i] as int], actual[k])
    } by {
        assert(has_copy(expected[a[i] as int], actual));
        let k = counterpart(expected, actual, a[i] as int);
        law_keys_tell_paths_apart(actual[k].rel, expected[a[i] as int].rel);
    }
    assert forall|k: int| 0 <= k < right.len() implies #[trigger] b.contains(k as usize) by {
        assert(has_path(actual[k].rel, expected));
        let p = choose|p: int| 0 <= p < expected.len() && parts(#[trigger] expected[p].rel) == parts(actual[k].rel);
        assert(a.contains(p as usize));
        let i = choose|i: int| 0 <= i < a.len() && a[i] == p as usize;
        let m = counterpart(expected, actual, a[i] as int);
        assert(parts(actual[m].rel) == parts(actual[k].rel));
        if m < k {
            assert(parts(actual[m].rel) != parts(actual[k].rel));
        } else if k < m {
            assert(parts(actual[k].rel) != parts(actual[m].rel));
        }
        assert(b[i] == k);
    }
    assert forall|i: int, j: int| 0 <= i < j < b.len() implies ahead(
        right,
        #[trigger] b[i] as int,
        #[trigger] b[j] as int,
    ) by {
        assert(ahead(left, a[i] as int, a[j] as int));
        assert(right[b[i] as int] == left[a[i] as int]);
        assert(right[b[j] as int] == left[a[j] as int]);
        let p = a[i] as int;
        let q = a[j] as int;
        if left[p] == left[q] {
            law_keys_tell_paths_apart(expected[p].rel, expected[q].rel);
            lemma_before_irreflexive(left[p]);
            assert(p < q);
            assert(parts(expected[p].rel) != parts(expected[q].rel));
        }
    }
    lemma_order_of(right, b);
    assert forall|i: int| 0 <= i < a.len() implies entry_bytes(expected[#[trigger] a[i] as int]) == entry_bytes(
        actual[b[i] as int],
    ) by {
        let p = a[i] as int;
        let k = counterpart(expected, actual, p);
        assert(parts(expected[p].rel) == parts(actual[k].rel));
        assert(expected[p].rel == actual[k].rel && same_spelling(expected[p].kind, actual[k].kind));
        assert(kind_bytes(expected[p].kind) == kind_bytes(actual[k].kind));
    }
    lemma_same_bytes(expected, a, actual, b);
}

fn feed_kind(hasher: &mut Sha256, kind: &Kind)
    requires
        old(hasher).wf(),
    ensures
        final(hasher).wf(),
        final(hasher)@ == old(hasher)@ + kind_bytes(kind@),
{
    let ghost before = hasher@;
    match kind {
        Kind::Dir => {
            let tag: [u8; 1] = [100];
            assert(tag@ =~= seq![100u8]);
            hasher.update(tag.as_slice());
        },
        Kind::Symlink { target } => {
            let tag: [u8; 1] = [108];
            assert(tag@ =~= seq![108u8]);
            hasher.update(tag.as_slice());
            hasher.update(target.display().as_str().as_bytes());
        },
        Kind::File { size, digest, .. } => {
            let n: u64 = *size;
            let tag: [u8; 1] = [102];
            assert(tag@ =~= seq![102u8]);
            hasher.update(tag.as_slice());
            let length: [u8; 8] = [
                n as u8,
                (n >> 8u64) as u8,
                (n >> 16u64) as u8,
                (n >> 24u64) as u8,
                (n >> 32u64) as u8,
                (n >> 40u64) as u8,
                (n >> 48u64) as u8,
                (n >> 56u64) as u8,
            ];
            assert(length@ =~= low_first(n));
            hasher.update(length.as_slice());
            if let Some(digest) = digest {
                hasher.update(digest.as_slice());
            }
        },
    }
    assert(hasher@ =~= before + kind_bytes(kind@));
}

/// A digest over everything a verified manifest establishes: which entries exist, what they are, how
/// big they are, and what they contain.
///
/// Recovery compares this against a destination to decide whether it is the copy that was checked,
/// without reading the source again.
pub fn manifest_digest(manifest: &Manifest) -> (text: String)
    ensures
        text@ == tree_digest(manifest@),
{
    let ghost entries = manifest@;
    let index = index_of(&manifest.entries);
    let order = &index.order;
    proof {
        lemma_order_of(keys_of(entries), order@);
    }
    let mut hasher = Sha256::new();
    let zero: [u8; 1] = [0];
    assert(zero@ =~= seq![0u8]);
    let mut i: usize = 0;
    assert(hasher@ =~= tree_bytes(entries, order@.take(0)));
    while i < order.len()
        invariant
            i <= order.len(),
            entries == manifest@,
            in_order(keys_of(entries), order@),
            zero@ == seq![0u8],
            hasher.wf(),
            hasher@ == tree_bytes(entries, order@.take(i as int)),
        decreases order.len() - i,
    {
        let ghost before = hasher@;
        assert(order@.take(i + 1).drop_last() =~= order@.take(i as int));
        assert(order@[i as int] < keys_of(entries).len());
        let entry = &manifest.entries[order[i]];
        hasher.update(entry.rel.display().as_str().as_bytes());
        hasher.update(zero.as_slice());
        feed_kind(&mut hasher, &entry.kind);
        hasher.update(zero.as_slice());
        assert(hasher@ =~= before + entry_bytes(entries[order@[i as int] as int]));
        i = i + 1;
    }
    assert(order@.take(i as int) =~= order@);
    let sum = hasher.finish();
    hex(sum.as_slice())
}

/// Steps with `.` left out and each `..` taken together with the name before it.
pub open spec fn normal(steps: Seq<PartView>) -> Seq<PartView>
    decreases steps.len(),
{
    if steps.len() == 0 {
        Seq::empty()
    } else {
        let before = normal(steps.drop_last());
        match steps.last() {
            PartView::Current => before,
            PartView::Up => if before.len() > 0 && before.last() is Name {
                before.drop_last()
            } else {
                before.push(PartView::Up)
            },
            other => before.push(other),
        }
    }
}

pub open spec fn step_bytes(step: PartView) -> Seq<u8> {
    match step {
        PartView::Root => seq![47u8],
        PartView::Current => seq![46u8],
        PartView::Up => seq![46u8, 46u8],
        PartView::Name(name) => name,
    }
}

/// The path that has these steps.
pub open spec fn path_of(steps: Seq<PartView>) -> Seq<u8>
    decreases steps.len(),
{
    if steps.len() == 0 {
        Seq::empty()
    } else {
        under(path_of(steps.drop_last()), step_bytes(steps.last()))
    }
}

pub open spec fn normal_path(path: Seq<u8>) -> Seq<u8> {
    path_of(normal(parts(path)))
}

/// Resolve `.` and `..` without touching the filesystem. The link target may not exist, and
/// canonicalizing would follow links that must not be followed.
pub fn lexically_normal(path: &FilePath) -> (resolved: FilePath)
    ensures
        resolved@ == normal_path(path@),
{
    let steps = path.parts();
    let ghost all = parts(path@);
    let mut kept: Vec<Part> = Vec::new();
    let mut i: usize = 0;
    assert(parts_view(kept@) =~= normal(all.take(0)));
    while i < steps.len()
        invariant
            i <= steps.len(),
            all == parts_view(steps@),
            parts_view(kept@) == normal(all.take(i as int)),
        decreases steps.len() - i,
    {
        let ghost before = kept@;
        assert(all.take(i + 1).drop_last() =~= all.take(i as int));
        assert(all.take(i + 1).last() == steps@[i as int]@);
        match &steps[i] {
            Part::Current => {},
            Part::Up => {
                let named = if kept.len() == 0 {
                    false
                } else {
                    assert(parts_view(before).last() == before.last()@);
                    match &kept[kept.len() - 1] {
                        Part::Name(_) => true,
                        _ => false,
                    }
                };
                if named {
                    let dropped = kept.pop();
                    assert(parts_view(kept@) =~= parts_view(before).drop_last());
                } else {
                    kept.push(Part::Up);
                    assert(parts_view(kept@) =~= parts_view(before).push(PartView::Up));
                }
            },
            other => {
                let step = other.copy();
                let ghost view = step@;
                kept.push(step);
                assert(parts_view(kept@) =~= parts_view(before).push(view));
            },
        }
        i = i + 1;
    }
    assert(all.take(i as int) =~= all);
    let ghost rest = parts_view(kept@);
    let mut resolved = FilePath { bytes: Vec::new() };
    let mut k: usize = 0;
    assert(resolved@ =~= path_of(rest.take(0)));
    while k < kept.len()
        invariant
            k <= kept.len(),
            rest == parts_view(kept@),
            resolved@ == path_of(rest.take(k as int)),
        decreases kept.len() - k,
    {
        assert(rest.take(k + 1).drop_last() =~= rest.take(k as int));
        assert(rest.take(k + 1).last() == kept@[k as int]@);
        let ghost wanted = step_bytes(kept@[k as int]@);
        let step: FilePath = match &kept[k] {
            Part::Root => FilePath { bytes: vec![47] },
            Part::Current => FilePath { bytes: vec![46] },
            Part::Up => FilePath { bytes: vec![46, 46] },
            Part::Name(name) => FilePath::from_bytes(name.as_slice()),
        };
        assert(step@ =~= wanted);
        resolved = resolved.join(&step);
        k = k + 1;
    }
    assert(rest.take(k as int) =~= rest);
    resolved
}

/// Where a relative link leads, seen from the directory that holds it.
pub open spec fn leads_to(root: Seq<u8>, rel: Seq<u8>, target: Seq<u8>) -> Seq<u8> {
    let base = normal_path(root);
    let holder = under(base, rel);
    let parent = match parent_of(holder) {
        Some(parent) => parent,
        None => base,
    };
    normal_path(under(parent, target))
}

/// Is the entry a relative link that leads out of the tree?
pub open spec fn escapes(root: Seq<u8>, entry: EntryView) -> bool {
    match entry.kind {
        KindView::Symlink { target } => !absolute(target) && !parts(normal_path(root)).is_prefix_of(
            parts(leads_to(root, entry.rel, target)),
        ),
        _ => false,
    }
}

pub open spec fn link_text(entry: EntryView) -> Seq<u8> {
    match entry.kind {
        KindView::Symlink { target } => target,
        _ => Seq::empty(),
    }
}

pub open spec fn escaping(root: Seq<u8>, entries: Seq<EntryView>) -> Seq<(Seq<u8>, Seq<u8>)>
    decreases entries.len(),
{
    if entries.len() == 0 {
        Seq::empty()
    } else {
        let before = escaping(root, entries.drop_last());
        let last = entries.last();
        if escapes(root, last) {
            before.push((last.rel, link_text(last)))
        } else {
            before
        }
    }
}

pub open spec fn link_pairs(list: Seq<(FilePath, FilePath)>) -> Seq<(Seq<u8>, Seq<u8>)> {
    Seq::new(list.len(), |i: int| (list[i].0@, list[i].1@))
}

/// Relative symlinks that point out of the tree.
///
/// A relative link resolves against the directory holding it. Copy the tree somewhere else and a link
/// that pointed outside it now resolves somewhere else again, so preserving the link text exactly,
/// which the copier does, still changes what the link means. Absolute links keep their meaning and are
/// left alone, which is why `dosdevices/z:` is not a problem.
pub fn escaping_relative_links(root: &FilePath, manifest: &Manifest) -> (links: Vec<
    (FilePath, FilePath),
>)
    ensures
        link_pairs(links@) == escaping(root@, manifest@),
{
    let ghost entries = manifest@;
    let base = lexically_normal(root);
    let mut links: Vec<(FilePath, FilePath)> = Vec::new();
    let mut i: usize = 0;
    assert(link_pairs(links@) =~= escaping(root@, entries.take(0)));
    while i < manifest.entries.len()
        invariant
            i <= manifest.entries.len(),
            entries == manifest@,
            base@ == normal_path(root@),
            link_pairs(links@) == escaping(root@, entries.take(i as int)),
        decreases manifest.entries.len() - i,
    {
        let ghost before = links@;
        assert(entries.take(i + 1).drop_last() =~= entries.take(i as int));
        assert(entries.take(i + 1).last() == manifest.entries@[i as int]@);
        let entry = &manifest.entries[i];
        if let Kind::Symlink { target } = &entry.kind {
            if !target.is_absolute() {
                let holder = base.join(&entry.rel);
                let parent = match holder.parent() {
                    Some(parent) => parent,
                    None => base.copy(),
                };
                let resolved = lexically_normal(&parent.join(target));
                assert(resolved@ == leads_to(root@, entry.rel@, target@));
                if !resolved.starts_with(&base) {
                    let link = (entry.rel.copy(), target.copy());
                    let ghost view = (link.0@, link.1@);
                    links.push(link);
                    assert(link_pairs(links@) =~= link_pairs(before).push(view));
                }
            }
        }
        i = i + 1;
    }
    assert(entries.take(i as int) =~= entries);
    links
}

/// An absolute link is never reported, whatever it points at.
pub proof fn law_absolute_links_stay(root: Seq<u8>, entry: EntryView)
    requires
        absolute(link_text(entry)),
    ensures
        !escapes(root, entry),
{
}

/// The smallest power of two, from `step` on, that spreads 53 bits over the number.
pub open spec fn spread(n: nat, step: nat) -> nat
    decreases n + 1 - step,
{
    if step == 0 || n < 0x20_0000_0000_0000 * step {
        step
    } else {
        spread(n, 2 * step)
    }
}

/// How often `step` goes into a number, rounded to the nearest, halves to the even one.
pub open spec fn nearest(n: nat, step: nat) -> nat {
    let whole = n / step;
    let rest = n % step;
    if 2 * rest > step || (2 * rest == step && whole % 2 == 1) {
        whole + 1
    } else {
        whole
    }
}

/// A number as far as 53 bits can tell.
pub open spec fn in_53_bits(n: nat) -> nat {
    nearest(n, spread(n, 1)) * spread(n, 1)
}

pub open spec fn unit_text(unit: int) -> Seq<char> {
    if unit == 1 {
        " KiB"@
    } else if unit == 2 {
        " MiB"@
    } else if unit == 3 {
        " GiB"@
    } else {
        " TiB"@
    }
}

pub open spec fn unit_of(n: nat) -> int {
    if n < 0x10_0000 {
        1
    } else if n < 0x4000_0000 {
        2
    } else if n < 0x100_0000_0000 {
        3
    } else {
        4
    }
}

pub open spec fn unit_size(unit: int) -> nat {
    if unit == 1 {
        0x400
    } else if unit == 2 {
        0x10_0000
    } else if unit == 3 {
        0x4000_0000
    } else {
        0x100_0000_0000
    }
}

/// A size for people to read: bytes as they are below a KiB, and otherwise tenths of the largest unit
/// that is not larger than it.
pub open spec fn size_text(n: nat) -> Seq<char> {
    if n < 1024 {
        decimal_text(n) + " B"@
    } else {
        let tenths = nearest(10 * in_53_bits(n), unit_size(unit_of(n)));
        decimal_text(tenths / 10) + "."@ + decimal_text(tenths % 10) + unit_text(unit_of(n))
    }
}

fn round(n: u128, step: u128) -> (count: u128)
    requires
        0 < step,
        n < 0x1_0000_0000_0000_0000_0000,
        step < 0x1_0000_0000_0000_0000_0000,
    ensures
        count == nearest(n as nat, step as nat),
{
    let whole: u128 = n / step;
    let rest: u128 = n % step;
    assert(whole <= n) by (nonlinear_arith)
        requires
            whole == n / step,
            0 < step,
    ;
    if 2 * rest > step || (2 * rest == step && whole % 2 == 1) {
        whole + 1
    } else {
        whole
    }
}

pub fn human_bytes(bytes: u64) -> (text: String)
    ensures
        text@ == size_text(bytes as nat),
{
    if bytes < 1024 {
        let mut text = decimal(bytes);
        text.push_str(" B");
        return text;
    }
    let mut step: u128 = 1;
    while bytes as u128 >= 0x20_0000_0000_0000 * step
        invariant
            0 < step <= 0x1000,
            spread(bytes as nat, 1) == spread(bytes as nat, step as nat),
        decreases 0x2000 - step,
    {
        step = 2 * step;
    }
    let seen: u128 = round(bytes as u128, step);
    assert(seen <= bytes as nat / step as nat + 1);
    assert(seen * step <= bytes + step) by (nonlinear_arith)
        requires
            seen <= bytes as nat / step as nat + 1,
            0 < step,
    ;
    let value: u128 = seen * step;
    let (size, unit): (u128, &str) = if bytes < 0x10_0000 {
        (0x400, " KiB")
    } else if bytes < 0x4000_0000 {
        (0x10_0000, " MiB")
    } else if bytes < 0x100_0000_0000 {
        (0x4000_0000, " GiB")
    } else {
        (0x100_0000_0000, " TiB")
    };
    let tenths: u128 = round(10 * value, size);
    assert(tenths <= (10 * value) as nat / size as nat + 1);
    assert(tenths <= (10 * value) / 1024 + 1) by (nonlinear_arith)
        requires
            tenths <= (10 * value) as nat / size as nat + 1,
            size >= 1024,
    ;
    let mut text = decimal((tenths / 10) as u64);
    text.push_str(".");
    text.push_str(decimal((tenths % 10) as u64).as_str());
    text.push_str(unit);
    text
}

/// Are two entries of the same kind, whatever they hold?
pub open spec fn alike(want: KindView, got: KindView) -> bool {
    match (want, got) {
        (KindView::Dir, KindView::Dir) => true,
        (KindView::File { .. }, KindView::File { .. }) => true,
        (KindView::Symlink { .. }, KindView::Symlink { .. }) => true,
        _ => false,
    }
}

/// Does the list have an entry of this kind at this path? Of entries at one path the last one counts.
pub open spec fn is_carried(want: EntryView, live: Seq<EntryView>) -> bool {
    match last_place(keys_of(live), path_key(want.rel)) {
        Some(k) => alike(want.kind, live[k].kind),
        None => false,
    }
}

/// What an original holds and the live data does not.
pub open spec fn lost(original: Seq<EntryView>, live: Seq<EntryView>) -> Seq<Seq<u8>>
    decreases original.len(),
{
    if original.len() == 0 {
        Seq::empty()
    } else {
        let before = lost(original.drop_last(), live);
        if is_carried(original.last(), live) {
            before
        } else {
            before.push(original.last().rel)
        }
    }
}

/// The paths of an original that the live data does not carry. Playing a game writes into the live data,
/// so it may have more, and what it has may be newer.
pub fn not_carried(original: &Manifest, live: &Manifest) -> (paths: Vec<FilePath>)
    ensures
        paths_view(paths@) == lost(original@, live@),
{
    let ghost wanted = original@;
    let ghost found = live@;
    let index = index_of(&live.entries);
    let mut paths: Vec<FilePath> = Vec::new();
    let mut i: usize = 0;
    assert(paths_view(paths@) =~= lost(wanted.take(0), found));
    while i < original.entries.len()
        invariant
            i <= original.entries.len(),
            wanted == original@,
            found == live@,
            index.wf(),
            index.listed() == keys_of(found),
            index.keys@.len() == found.len(),
            paths_view(paths@) == lost(wanted.take(i as int), found),
        decreases original.entries.len() - i,
    {
        assert(wanted.take(i + 1).drop_last() =~= wanted.take(i as int));
        assert(wanted.take(i + 1).last() == original.entries@[i as int]@);
        let want = &original.entries[i];
        proof {
            lemma_last_place(keys_of(found), path_key(want.rel@));
        }
        let kept = match index.find_last(&want.rel.key()) {
            Some(place) => {
                assert(found[place as int] == live.entries@[place as int]@);
                match (&want.kind, &live.entries[place].kind) {
                    (Kind::Dir, Kind::Dir) => true,
                    (Kind::File { .. }, Kind::File { .. }) => true,
                    (Kind::Symlink { .. }, Kind::Symlink { .. }) => true,
                    _ => false,
                }
            },
            None => false,
        };
        if !kept {
            let path = want.rel.copy();
            proof {
                crate::path::lemma_paths_push(paths@, path);
            }
            paths.push(path);
        }
        i = i + 1;
    }
    assert(wanted.take(i as int) =~= wanted);
    paths
}

/// Nothing of an original is lost exactly when the live data has, at each of its paths, an entry of the
/// same kind.
pub proof fn law_carried_means_all_there(original: Seq<EntryView>, live: Seq<EntryView>)
    ensures
        lost(original, live).len() == 0 <==> forall|i: int|
            0 <= i < original.len() ==> is_carried(#[trigger] original[i], live),
    decreases original.len(),
{
    if original.len() > 0 {
        let short = original.drop_last();
        law_carried_means_all_there(short, live);
        if lost(original, live).len() == 0 {
            assert forall|i: int| 0 <= i < original.len() implies is_carried(
                #[trigger] original[i],
                live,
            ) by {
                if i < short.len() {
                    assert(short[i] == original[i]);
                }
            }
        }
        if forall|i: int| 0 <= i < original.len() ==> is_carried(#[trigger] original[i], live) {
            assert forall|i: int| 0 <= i < short.len() implies is_carried(#[trigger] short[i], live) by {
                assert(is_carried(original[i], live));
            }
            assert(is_carried(original[original.len() - 1], live));
        }
    }
}

/// A copy that passes against a tree carries all of it: directories, files and links.
pub proof fn law_verified_copy_carries_everything(original: Seq<EntryView>, copy: Seq<EntryView>)
    requires
        copy_problems(original, copy).len() == 0,
        distinct(copy),
    ensures
        lost(original, copy).len() == 0,
{
    law_verified_copy_is_complete(original, copy);
    assert forall|i: int| 0 <= i < original.len() implies is_carried(#[trigger] original[i], copy) by {
        assert(has_copy(original[i], copy));
        let k = choose|k: int|
            0 <= k < copy.len() && parts(#[trigger] copy[k].rel) == parts(original[i].rel) && carried(
                original[i],
                copy[k],
            );
        lemma_place_of(copy, original[i].rel, k);
    }
    law_carried_means_all_there(original, copy);
}

/// Where no path stands twice, the place of an entry is found by its path.
proof fn lemma_place_of(entries: Seq<EntryView>, rel: Seq<u8>, k: int)
    requires
        distinct(entries),
        0 <= k < entries.len(),
        parts(entries[k].rel) == parts(rel),
    ensures
        last_place(keys_of(entries), path_key(rel)) == Some(k),
{
    let keys = keys_of(entries);
    let key = path_key(rel);
    lemma_last_place(keys, key);
    law_keys_tell_paths_apart(entries[k].rel, rel);
    assert(keys[k] == key);
    let last = last_place(keys, key)->0;
    law_keys_tell_paths_apart(entries[last].rel, rel);
    if last != k {
        assert(k < last);
        assert(parts(entries[k].rel) != parts(entries[last].rel));
    }
}

/// A tree carries itself, and so does one that only has more, and may have other contents.
pub proof fn law_more_carries_everything(original: Seq<EntryView>, live: Seq<EntryView>)
    requires
        distinct(live),
        forall|i: int|
            0 <= i < original.len() ==> exists|k: int|
                0 <= k < live.len() && parts((#[trigger] live[k]).rel) == parts((#[trigger] original[i]).rel) && (
                live[k].is_dir() && original[i].is_dir() || live[k].is_file() && original[i].is_file()
                    || live[k].is_symlink() && original[i].is_symlink()),
    ensures
        lost(original, live).len() == 0,
{
    assert forall|i: int| 0 <= i < original.len() implies is_carried(#[trigger] original[i], live) by {
        let k = choose|k: int|
            0 <= k < live.len() && parts((#[trigger] live[k]).rel) == parts(original[i].rel) && (live[k].is_dir()
                && original[i].is_dir() || live[k].is_file() && original[i].is_file() || live[k].is_symlink()
                && original[i].is_symlink());
        lemma_place_of(live, original[i].rel, k);
    }
    law_carried_means_all_there(original, live);
}

pub proof fn law_tree_carries_itself(entries: Seq<EntryView>)
    requires
        distinct(entries),
    ensures
        lost(entries, entries).len() == 0,
{
    assert forall|i: int| 0 <= i < entries.len() implies exists|k: int|
        0 <= k < entries.len() && parts((#[trigger] entries[k]).rel) == parts((#[trigger] entries[i]).rel) && (
        entries[k].is_dir() && entries[i].is_dir() || entries[k].is_file() && entries[i].is_file()
            || entries[k].is_symlink() && entries[i].is_symlink()) by {
        assert(entries[i].is_dir() || entries[i].is_file() || entries[i].is_symlink());
    }
    law_more_carries_everything(entries, entries);
}

/// What an original has and the live data has nowhere, or has as something else, is named; and only what the
/// original has is.
pub proof fn law_what_is_lost_is_named(original: Seq<EntryView>, live: Seq<EntryView>, i: int)
    requires
        0 <= i < original.len(),
        forall|k: int|
            0 <= k < live.len() && parts((#[trigger] live[k]).rel) == parts(original[i].rel) ==> !(live[k].is_dir()
                && original[i].is_dir() || live[k].is_file() && original[i].is_file() || live[k].is_symlink()
                && original[i].is_symlink()),
    ensures
        lost(original, live).contains(original[i].rel),
        forall|n: int|
            0 <= n < lost(original, live).len() ==> exists|m: int|
                0 <= m < original.len() && (#[trigger] original[m]).rel == #[trigger] lost(original, live)[n],
    decreases original.len(),
{
    lemma_lost_is_of_the_original(original, live);
    let key = path_key(original[i].rel);
    lemma_last_place(keys_of(live), key);
    if let Some(k) = last_place(keys_of(live), key) {
        law_keys_tell_paths_apart(live[k].rel, original[i].rel);
        assert(parts(live[k].rel) == parts(original[i].rel));
    }
    assert(!is_carried(original[i], live));
    lemma_not_carried_is_lost(original, live, i);
}

proof fn lemma_not_carried_is_lost(original: Seq<EntryView>, live: Seq<EntryView>, i: int)
    requires
        0 <= i < original.len(),
        !is_carried(original[i], live),
    ensures
        lost(original, live).contains(original[i].rel),
    decreases original.len(),
{
    let before = lost(original.drop_last(), live);
    let all = lost(original, live);
    if i == original.len() - 1 {
        assert(all[before.len() as int] == original[i].rel);
    } else {
        assert(original.drop_last()[i] == original[i]);
        lemma_not_carried_is_lost(original.drop_last(), live, i);
        let n = choose|n: int| 0 <= n < before.len() && before[n] == original[i].rel;
        assert(all[n] == original[i].rel);
    }
}

proof fn lemma_lost_is_of_the_original(original: Seq<EntryView>, live: Seq<EntryView>)
    ensures
        forall|n: int|
            0 <= n < lost(original, live).len() ==> exists|m: int|
                0 <= m < original.len() && (#[trigger] original[m]).rel == #[trigger] lost(original, live)[n],
    decreases original.len(),
{
    if original.len() > 0 {
        let before = lost(original.drop_last(), live);
        lemma_lost_is_of_the_original(original.drop_last(), live);
        assert forall|n: int| 0 <= n < lost(original, live).len() implies exists|m: int|
            0 <= m < original.len() && (#[trigger] original[m]).rel == #[trigger] lost(original, live)[n] by {
            if n < before.len() {
                let m = choose|m: int|
                    0 <= m < original.drop_last().len() && (#[trigger] original.drop_last()[m]).rel == before[n];
                assert(original[m].rel == lost(original, live)[n]);
            } else {
                assert(original[original.len() - 1].rel == lost(original, live)[n]);
            }
        }
    }
}

} // verus!
