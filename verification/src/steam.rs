//! Finding Steam, its libraries, and where each library's Proton data should live once it has been
//! moved off the game drive.

use vstd::prelude::*;
use vstd::utf8::{encode_utf8, is_ascii_chars, is_ascii_chars_encode_utf8};

use crate::path::{
    absolute, is_name, last_name, law_join_adds_steps, law_last_name_is_a_name, law_name_under_path,
    law_parent_drops_the_last_step, lemma_name_parts, lemma_same_last_name, parent_of, parts, paths_view, same_bytes,
    shown, under, under_text, FilePath, PartView,
};
use crate::sha256::{digest, digest_of, hex, hex_text, is_hex, law_digest_has_64_digits};
use crate::sort::{
    ahead, before, in_order, keys_view, lemma_before_irreflexive, lemma_order_of, lemma_some_order, order, order_of,
};
use crate::text::{
    add_text, all_digits, before_suffix, chars_of, contains, decimal, decimal_text, holds, key_of, same,
    starts_with, string_of, text_key, text_keys, texts,
};
use crate::vdf::{pairs_view, PairView, Value, ValueView};

verus! {

#[derive(Debug, Clone, Copy, PartialEq, Eq, Structural)]
pub enum InstallKind {
    Native,
    Flatpak,
}

pub open spec fn install_label(kind: InstallKind) -> Seq<char> {
    match kind {
        InstallKind::Native => "native"@,
        InstallKind::Flatpak => "flatpak"@,
    }
}

impl InstallKind {
    pub fn label(self) -> (label: &'static str)
        ensures
            label@ == install_label(self),
    {
        match self {
            InstallKind::Native => "native",
            InstallKind::Flatpak => "flatpak",
        }
    }
}

#[derive(Debug)]
pub struct Install {
    pub kind: InstallKind,
    pub root: FilePath,
}

/// Where data may be put: the data directory of the user, and the directory that was chosen in its
/// place, if one was.
#[derive(Debug)]
pub struct Places {
    pub native: FilePath,
    pub chosen: Option<FilePath>,
}

pub struct PlacesView {
    pub native: Seq<u8>,
    pub chosen: Option<Seq<u8>>,
}

impl View for Places {
    type V = PlacesView;

    open spec fn view(&self) -> PlacesView {
        PlacesView {
            native: self.native@,
            chosen: match self.chosen {
                Some(path) => Some(path@),
                None => None,
            },
        }
    }
}

impl Places {
    pub fn copy(&self) -> (copy: Places)
        ensures
            copy@ == self@,
    {
        Places {
            native: self.native.copy(),
            chosen: match &self.chosen {
                Some(path) => Some(path.copy()),
                None => None,
            },
        }
    }
}

#[derive(Debug)]
pub struct Library {
    /// Short stable handle derived from the library path, used on the command line. Nothing is stored
    /// on disk to keep this; it is recomputed.
    pub id: String,
    pub path: FilePath,
    pub label: String,
    pub steamapps: FilePath,
    pub compatdata: FilePath,
    pub install_kind: InstallKind,
    pub install_root: FilePath,
    pub connected: bool,
    pub places: Places,
}

pub struct LibraryView {
    pub id: Seq<char>,
    pub path: Seq<u8>,
    pub label: Seq<char>,
    pub steamapps: Seq<u8>,
    pub compatdata: Seq<u8>,
    pub install_kind: InstallKind,
    pub install_root: Seq<u8>,
    pub connected: bool,
    pub places: PlacesView,
}

impl View for Library {
    type V = LibraryView;

    open spec fn view(&self) -> LibraryView {
        LibraryView {
            id: self.id@,
            path: self.path@,
            label: self.label@,
            steamapps: self.steamapps@,
            compatdata: self.compatdata@,
            install_kind: self.install_kind,
            install_root: self.install_root@,
            connected: self.connected,
            places: self.places@,
        }
    }
}

pub open spec fn libraries_view(list: Seq<Library>) -> Seq<LibraryView> {
    Seq::new(list.len(), |i: int| list[i]@)
}

/// The data directory of a user: what `XDG_DATA_HOME` names where that is absolute, and otherwise
/// `.local/share` in the home directory.
pub open spec fn data_root_of(xdg: Option<Seq<u8>>, home: Option<Seq<u8>>) -> Seq<u8> {
    match xdg {
        Some(path) => if absolute(path) {
            path
        } else {
            default_data_root(home)
        },
        None => default_data_root(home),
    }
}

pub open spec fn default_data_root(home: Option<Seq<u8>>) -> Seq<u8> {
    let base = match home {
        Some(home) => home,
        None => encode_utf8("."@),
    };
    under_text(base, ".local/share"@)
}

pub open spec fn optional_path(path: Option<&FilePath>) -> Option<Seq<u8>> {
    match path {
        Some(path) => Some(path@),
        None => None,
    }
}

pub fn native_data_root(xdg: Option<&FilePath>, home: Option<&FilePath>) -> (root: FilePath)
    ensures
        root@ == data_root_of(optional_path(xdg), optional_path(home)),
{
    if let Some(path) = xdg {
        if path.is_absolute() {
            return path.copy();
        }
    }
    match home {
        Some(home) => home.join_text(".local/share"),
        None => FilePath::new(".").join_text(".local/share"),
    }
}

/// The first of a path's ancestors, itself among them, that has the name.
pub open spec fn ancestor_named(path: Seq<u8>, name: Seq<u8>) -> Option<Seq<u8>>
    decreases parts(path).len(),
{
    if last_name(path) == Some(name) {
        Some(path)
    } else {
        match parent_of(path) {
            Some(parent) => {
                proof {
                    crate::path::law_parent_drops_the_last_step(path);
                }
                ancestor_named(parent, name)
            },
            None => None,
        }
    }
}

pub open spec fn flatpak_root_of(install_root: Seq<u8>) -> Option<Seq<u8>> {
    match ancestor_named(install_root, encode_utf8("com.valvesoftware.Steam"@)) {
        Some(app) => Some(under_text(app, "data"@)),
        None => None,
    }
}

/// From `~/.var/app/com.valvesoftware.Steam/.local/share/Steam`, walk back up to the application
/// directory and use its `data` folder.
pub fn flatpak_data_root(install_root: &FilePath) -> (root: Option<FilePath>)
    ensures
        root is Some <==> flatpak_root_of(install_root@) is Some,
        root matches Some(root) ==> Some(root@) == flatpak_root_of(install_root@),
{
    let name = FilePath::new("com.valvesoftware.Steam");
    let mut path = install_root.copy();
    loop
        invariant
            name@ == encode_utf8("com.valvesoftware.Steam"@),
            ancestor_named(path@, name@) == ancestor_named(install_root@, name@),
        decreases parts(path@).len(),
    {
        proof {
            crate::path::law_parent_drops_the_last_step(path@);
        }
        if let Some(last) = path.file_name() {
            if same_bytes(last.as_slice(), name.bytes.as_slice()) {
                return Some(path.join_text("data"));
            }
        }
        match path.parent() {
            Some(parent) => {
                path = parent;
            },
            None => return None,
        }
    }
}

pub open spec fn plain(c: char) -> bool {
    ('a' <= c && c <= 'z') || ('A' <= c && c <= 'Z') || ('0' <= c && c <= '9') || c == '-' || c
        == '_'
}

/// The name with an underscore for everything that is no ASCII letter, digit, `-` or `_`.
pub open spec fn plained(name: Seq<char>) -> Seq<char> {
    Seq::new(
        name.len(),
        |i: int|
            if plain(name[i]) {
                name[i]
            } else {
                '_'
            },
    )
}

pub open spec fn without_front_bars(name: Seq<char>) -> Seq<char>
    decreases name.len(),
{
    if name.len() > 0 && name[0] == '_' {
        without_front_bars(name.skip(1))
    } else {
        name
    }
}

pub open spec fn without_back_bars(name: Seq<char>) -> Seq<char>
    decreases name.len(),
{
    if name.len() > 0 && name.last() == '_' {
        without_back_bars(name.drop_last())
    } else {
        name
    }
}

/// A name fit for a directory: plain, without underscores at its ends, at most 32 characters, and
/// never empty.
pub open spec fn sanitized(name: Seq<char>) -> Seq<char> {
    let inner = without_back_bars(without_front_bars(plained(name)));
    if inner.len() == 0 {
        "library"@
    } else if inner.len() > 32 {
        inner.take(32)
    } else {
        inner
    }
}

pub fn sanitize(name: &str) -> (clean: String)
    ensures
        clean@ == sanitized(name@),
{
    let given = chars_of(name);
    let mut chars: Vec<char> = Vec::new();
    let mut i: usize = 0;
    while i < given.len()
        invariant
            i <= given.len(),
            given@ == name@,
            chars@ =~= plained(name@).take(i as int),
        decreases given.len() - i,
    {
        let c = given[i];
        let fits = ('a' <= c && c <= 'z') || ('A' <= c && c <= 'Z') || ('0' <= c && c <= '9') || c
            == '-' || c == '_';
        if fits {
            chars.push(c);
        } else {
            chars.push('_');
        }
        i = i + 1;
    }
    let ghost all = plained(name@);
    assert(chars@ =~= all);
    let mut start: usize = 0;
    assert(all.skip(0) =~= all);
    while start < chars.len() && chars[start] == '_'
        invariant
            start <= chars.len(),
            chars@ == all,
            without_front_bars(all) == without_front_bars(all.skip(start as int)),
        decreases chars.len() - start,
    {
        assert(all.skip(start as int).skip(1) =~= all.skip(start + 1));
        start = start + 1;
    }
    let ghost front = all.skip(start as int);
    let mut end: usize = chars.len();
    assert(all.subrange(start as int, end as int) =~= front);
    while end > start && chars[end - 1] == '_'
        invariant
            start <= end <= chars.len(),
            chars@ == all,
            without_back_bars(front) == without_back_bars(all.subrange(start as int, end as int)),
        decreases end,
    {
        assert(all.subrange(start as int, end as int).drop_last() =~= all.subrange(
            start as int,
            end - 1,
        ));
        end = end - 1;
    }
    let ghost inner = all.subrange(start as int, end as int);
    if start == end {
        return "library".to_string();
    }
    if end - start > 32 {
        end = start + 32;
    }
    assert(all.subrange(start as int, end as int) =~= if inner.len() > 32 {
        inner.take(32)
    } else {
        inner
    });
    string_of(vstd::slice::slice_subrange(chars.as_slice(), start, end))
}

pub open spec fn all_plain(name: Seq<char>) -> bool {
    forall|i: int| 0 <= i < name.len() ==> plain(#[trigger] name[i])
}

proof fn lemma_plain_inside(name: Seq<char>)
    requires
        all_plain(name),
    ensures
        all_plain(without_front_bars(name)),
    decreases name.len(),
{
    if name.len() > 0 && name[0] == '_' {
        lemma_plain_inside(name.skip(1));
    }
}

/// What is left without the `_` in front begins with something else.
proof fn lemma_no_bar_in_front(name: Seq<char>)
    ensures
        without_front_bars(name).len() > 0 ==> without_front_bars(name)[0] != '_',
    decreases name.len(),
{
    if name.len() > 0 && name[0] == '_' {
        lemma_no_bar_in_front(name.skip(1));
    }
}

proof fn lemma_front_is_kept(name: Seq<char>)
    ensures
        without_back_bars(name).len() > 0 ==> without_back_bars(name)[0] == name[0],
    decreases name.len(),
{
    if name.len() > 0 && name.last() == '_' {
        lemma_front_is_kept(name.drop_last());
    }
}

proof fn lemma_plain_inside_back(name: Seq<char>)
    requires
        all_plain(name),
    ensures
        all_plain(without_back_bars(name)),
    decreases name.len(),
{
    if name.len() > 0 && name.last() == '_' {
        lemma_plain_inside_back(name.drop_last());
    }
}

/// Whatever a library is called, the name made of it is not empty, not long, and holds nothing but ASCII
/// letters, digits, `-` and `_`: no slash and no dot. It does not begin with a `_`.
pub proof fn law_sanitized_names_are_plain(name: Seq<char>)
    ensures
        1 <= sanitized(name).len() <= 32,
        all_plain(sanitized(name)),
        sanitized(name)[0] != '_',
{
    let all = plained(name);
    assert(all_plain(all));
    lemma_plain_inside(all);
    lemma_plain_inside_back(without_front_bars(all));
    lemma_no_bar_in_front(all);
    lemma_front_is_kept(without_front_bars(all));
    reveal_strlit("library");
}

/// The short handle of a path: the first eight digits of the digest of its text.
pub open spec fn id_of(path: Seq<u8>) -> Seq<char> {
    hex_text(digest(encode_utf8(shown(path)))).take(8)
}

pub fn short_id(path: &FilePath) -> (id: String)
    ensures
        id@ == id_of(path@),
        id@.len() == 8,
{
    let sum = digest_of(path.display().as_str().as_bytes());
    let text = hex(sum.as_slice());
    let chars = chars_of(text.as_str());
    assert(chars@.subrange(0, 8) =~= chars@.take(8));
    string_of(vstd::slice::slice_subrange(chars.as_slice(), 0, 8))
}

/// Directories under this name are copies that were interrupted before they could be verified. They are
/// never touched automatically, because the name alone does not prove which run created them.
pub const STAGING_PREFIX: &'static str = "compatdata.incomplete";

impl LibraryView {
    /// What the library is called: its label, or else the name its path ends in.
    pub open spec fn name(self) -> Seq<char> {
        if self.label.len() > 0 {
            self.label
        } else {
            match last_name(self.path) {
                Some(name) => shown(name),
                None => shown(self.path),
            }
        }
    }

    /// Where moved data lives.
    pub open spec fn root(self) -> Seq<u8> {
        match self.places.chosen {
            Some(chosen) => chosen,
            None => {
                let base = match self.install_kind {
                    InstallKind::Flatpak => match flatpak_root_of(self.install_root) {
                        Some(root) => root,
                        None => self.places.native,
                    },
                    InstallKind::Native => self.places.native,
                };
                under_text(base, "librarybridge"@)
            },
        }
    }

    /// What ends the name of every directory that belongs to the library.
    pub open spec fn suffix(self) -> Seq<char> {
        "-"@ + self.id
    }

    /// The destination a new repair would use.
    pub open spec fn target(self) -> Seq<u8> {
        under_text(
            under_text(self.root(), sanitized(self.name()) + self.suffix()),
            "compatdata"@,
        )
    }

    /// Does the name of a directory carry the library's id?
    pub open spec fn marks(self, name: Seq<u8>) -> bool {
        encode_utf8(self.suffix()).is_suffix_of(name)
    }

    /// Is the path a destination of this library?
    pub open spec fn owns(self, path: Seq<u8>) -> bool {
        &&& last_name(path) == Some(encode_utf8("compatdata"@))
        &&& match parent_of(path) {
            Some(parent) => {
                &&& match parent_of(parent) {
                    Some(above) => parts(above) == parts(self.root()),
                    None => false,
                }
                &&& match last_name(parent) {
                    Some(name) => self.marks(name),
                    None => false,
                }
            },
            None => false,
        }
    }
}

/// The first of the names that carries the library's id.
pub open spec fn marked_name(library: LibraryView, names: Seq<Seq<u8>>) -> Option<Seq<u8>>
    decreases names.len(),
{
    if names.len() == 0 {
        None
    } else if library.marks(names[0]) {
        Some(names[0])
    } else {
        marked_name(library, names.skip(1))
    }
}

/// The destination in use, by the names in the directory that holds destinations.
pub open spec fn target_in_use(library: LibraryView, names: Seq<Seq<u8>>) -> Seq<u8> {
    match marked_name(library, names) {
        Some(name) => under_text(under(library.root(), name), "compatdata"@),
        None => library.target(),
    }
}

fn ends_with_bytes(name: &[u8], suffix: &[u8]) -> (does: bool)
    ensures
        does == suffix@.is_suffix_of(name@),
{
    if name.len() < suffix.len() {
        return false;
    }
    let from: usize = name.len() - suffix.len();
    let end = vstd::slice::slice_subrange(name, from, name.len());
    same_bytes(suffix, end)
}

impl Library {
    pub fn display_name(&self) -> (name: String)
        ensures
            name@ == self@.name(),
    {
        if self.label.as_str().unicode_len() > 0 {
            self.label.clone()
        } else {
            match self.path.file_name_text() {
                Some(name) => name,
                None => self.path.display(),
            }
        }
    }

    /// Where this installation's relocated data lives.
    ///
    /// For Flatpak Steam this sits inside Steam's own data directory. That area is already visible to
    /// the sandbox, so the repair never has to ask for a new Flatpak permission.
    pub fn target_root(&self) -> (root: FilePath)
        ensures
            root@ == self@.root(),
    {
        if let Some(chosen) = &self.places.chosen {
            return chosen.copy();
        }
        let base = match self.install_kind {
            InstallKind::Flatpak => match flatpak_data_root(&self.install_root) {
                Some(root) => root,
                None => self.places.native.copy(),
            },
            InstallKind::Native => self.places.native.copy(),
        };
        base.join_text("librarybridge")
    }

    fn suffix(&self) -> (suffix: String)
        ensures
            suffix@ == self@.suffix(),
    {
        let mut suffix = "-".to_string();
        suffix.push_str(self.id.as_str());
        suffix
    }

    /// The name a new repair would use. The readable half is the library's display name, which can
    /// change; only the id half is identity.
    pub fn target(&self) -> (path: FilePath)
        ensures
            path@ == self@.target(),
    {
        let mut name = sanitize(self.display_name().as_str());
        name.push_str(self.suffix().as_str());
        self.target_root().join_text(name.as_str()).join_text("compatdata")
    }

    /// The destination actually in use, which is any directory carrying this library's id whatever its
    /// readable half says; `names` are the names in the directory that holds destinations.
    ///
    /// Renaming a library in Steam changes its display name and therefore the name `target` would
    /// derive. Looking the directory up by id instead means a working repair is not orphaned by a
    /// rename.
    pub fn effective_target(&self, names: &Vec<Vec<u8>>) -> (path: FilePath)
        ensures
            path@ == target_in_use(self@, crate::walk::names_view(names@)),
    {
        let ghost all = crate::walk::names_view(names@);
        let suffix = self.suffix();
        let mut i: usize = 0;
        assert(all.skip(0) =~= all);
        while i < names.len()
            invariant
                i <= names.len(),
                all == crate::walk::names_view(names@),
                suffix@ == self@.suffix(),
                marked_name(self@, all) == marked_name(self@, all.skip(i as int)),
            decreases names.len() - i,
        {
            assert(all.skip(i as int)[0] == names@[i as int]@);
            assert(all.skip(i as int).skip(1) =~= all.skip(i + 1));
            if ends_with_bytes(names[i].as_slice(), suffix.as_str().as_bytes()) {
                return self.target_root().join(&FilePath::from_bytes(names[i].as_slice())).join_text(
                    "compatdata",
                );
            }
            i = i + 1;
        }
        self.target()
    }

    /// Is this path a destination belonging to this library? Identity is the id, never the readable half
    /// of the directory name.
    pub fn owns(&self, path: &FilePath) -> (does: bool)
        ensures
            does == self@.owns(path@),
    {
        let compatdata = FilePath::new("compatdata");
        match path.file_name() {
            Some(name) => if !same_bytes(name.as_slice(), compatdata.bytes.as_slice()) {
                return false;
            },
            None => return false,
        }
        let parent = match path.parent() {
            Some(parent) => parent,
            None => return false,
        };
        match parent.parent() {
            Some(above) => if !above.same_as(&self.target_root()) {
                return false;
            },
            None => return false,
        }
        match parent.file_name() {
            Some(name) => ends_with_bytes(name.as_slice(), self.suffix().as_str().as_bytes()),
            None => false,
        }
    }
}

proof fn lemma_compatdata_is_name()
    ensures
        is_name(encode_utf8("compatdata"@)),
{
    reveal_strlit("compatdata");
    let text = "compatdata"@;
    assert(is_ascii_chars(text));
    is_ascii_chars_encode_utf8(text);
    let bytes = encode_utf8(text);
    assert(bytes.len() == 10);
    if bytes.contains(47) {
        let i = choose|i: int| 0 <= i < bytes.len() && bytes[i] == 47;
        assert(bytes[i] == text[i] as u8);
    }
}

/// A destination is recognised by the library's id alone, whatever stands before it in the name of its
/// directory: renaming a library does not orphan its data.
pub proof fn law_owns_what_carries_its_id(library: LibraryView, name: Seq<u8>)
    requires
        is_name(name),
        library.marks(name),
    ensures
        library.owns(under_text(under(library.root(), name), "compatdata"@)),
{
    let root = library.root();
    let holder = under(root, name);
    let leaf = encode_utf8("compatdata"@);
    lemma_compatdata_is_name();
    law_name_under_path(root, name);
    law_name_under_path(holder, leaf);
    let parent = parent_of(under(holder, leaf))->0;
    lemma_same_last_name(parent, holder);
}

/// The destination that a repair would use belongs to the library.
pub proof fn law_owns_its_target(library: LibraryView)
    requires
        all_plain(library.id),
    ensures
        library.owns(library.target()),
{
    let text = sanitized(library.name()) + library.suffix();
    law_sanitized_names_are_plain(library.name());
    reveal_strlit("-");
    assert(all_plain(library.suffix()));
    assert(all_plain(text));
    assert(is_ascii_chars(text));
    assert(is_ascii_chars(library.suffix()));
    is_ascii_chars_encode_utf8(text);
    is_ascii_chars_encode_utf8(library.suffix());
    let name = encode_utf8(text);
    let end = encode_utf8(library.suffix());
    assert(name.len() == text.len());
    if name.contains(47) {
        let i = choose|i: int| 0 <= i < name.len() && name[i] == 47;
        assert(plain(text[i]));
    }
    assert(plain(text[0]));
    assert(name[0] == text[0] as u8);
    assert(name.subrange(name.len() - end.len(), name.len() as int) =~= end) by {
        assert forall|i: int| 0 <= i < end.len() implies name[name.len() - end.len() + i] == end[i] by {
            assert(text[text.len() - library.suffix().len() + i] == library.suffix()[i]);
        }
    }
    law_owns_what_carries_its_id(library, name);
}

/// The ids of libraries are eight plain characters, whatever their paths.
pub proof fn law_ids_are_plain(path: Seq<u8>)
    ensures
        id_of(path).len() == 8,
        all_plain(id_of(path)),
{
    law_digest_has_64_digits(encode_utf8(shown(path)));
    let text = hex_text(digest(encode_utf8(shown(path))));
    assert forall|i: int| 0 <= i < 8 implies plain(#[trigger] id_of(path)[i]) by {
        assert(is_hex(text[i]));
    }
}

/// A library that was found owns the destination that a repair would use, and keeps owning the one that it
/// would have used under any other label: renaming a library never disowns its data.
pub proof fn law_renaming_disowns_nothing(
    kind: InstallKind,
    root: Seq<u8>,
    places: PlacesView,
    spot: SpotView,
    label: Seq<char>,
)
    ensures
        ({
            let library = library_at(kind, root, places, spot);
            let renamed = LibraryView { label, ..library };
            &&& library.owns(library.target())
            &&& library.owns(renamed.target())
            &&& renamed.owns(library.target())
        }),
{
    let library = library_at(kind, root, places, spot);
    let renamed = LibraryView { label, ..library };
    law_ids_are_plain(spot.resolved);
    law_owns_its_target(library);
    law_owns_its_target(renamed);
    assert(renamed.root() == library.root());
    assert(renamed.suffix() == library.suffix());
}

/// A path is a destination of a library exactly when it is `compatdata` in a directory of the place where
/// moved data lives, and the name of that directory ends in the library's id.
pub proof fn law_owned_means_marked(library: LibraryView, path: Seq<u8>)
    ensures
        library.owns(path) <==> exists|name: Seq<u8>|
            #[trigger] is_name(name) && library.marks(name) && parts(path) == parts(
                under_text(under(library.root(), name), "compatdata"@),
            ),
{
    let root = library.root();
    let leaf = encode_utf8("compatdata"@);
    lemma_compatdata_is_name();
    lemma_name_parts(leaf);
    if library.owns(path) {
        let parent = parent_of(path)->0;
        let above = parent_of(parent)->0;
        let name = last_name(parent)->0;
        law_last_name_is_a_name(parent);
        law_parent_drops_the_last_step(path);
        law_parent_drops_the_last_step(parent);
        lemma_name_parts(name);
        law_join_adds_steps(root, name);
        law_join_adds_steps(under(root, name), leaf);
        assert(parts(parent) =~= parts(above).push(PartView::Name(name)));
        assert(parts(path) =~= parts(parent).push(PartView::Name(leaf)));
        assert(parts(under(under(root, name), leaf)) =~= parts(path));
        assert(is_name(name) && library.marks(name) && parts(path) == parts(
            under_text(under(root, name), "compatdata"@),
        ));
    }
    if exists|name: Seq<u8>|
        #[trigger] is_name(name) && library.marks(name) && parts(path) == parts(
            under_text(under(root, name), "compatdata"@),
        ) {
        let name = choose|name: Seq<u8>|
            #[trigger] is_name(name) && library.marks(name) && parts(path) == parts(
                under_text(under(root, name), "compatdata"@),
            );
        let place = under_text(under(root, name), "compatdata"@);
        law_owns_what_carries_its_id(library, name);
        lemma_same_last_name(path, place);
        lemma_same_last_name(parent_of(path)->0, parent_of(place)->0);
    }
}

/// An installation that may be there.
#[derive(Debug)]
pub struct Candidate {
    pub kind: InstallKind,
    pub path: FilePath,
}

pub open spec fn candidates_view(list: Seq<Candidate>) -> Seq<(InstallKind, Seq<u8>)> {
    Seq::new(list.len(), |i: int| (list[i].kind, list[i].path@))
}

/// Where Steam may be under a home directory.
pub open spec fn home_candidates(home: Seq<u8>) -> Seq<(InstallKind, Seq<u8>)> {
    seq![
        (InstallKind::Native, under_text(home, ".local/share/Steam"@)),
        (InstallKind::Native, under_text(home, ".steam/steam"@)),
        (InstallKind::Native, under_text(home, ".steam/root"@)),
        (InstallKind::Native, under_text(home, ".steam/debian-installation"@)),
        (InstallKind::Native, under_text(home, "Library/Application Support/Steam"@)),
        (
            InstallKind::Flatpak,
            under_text(home, ".var/app/com.valvesoftware.Steam/.local/share/Steam"@),
        ),
        (InstallKind::Flatpak, under_text(home, ".var/app/com.valvesoftware.Steam/data/Steam"@)),
    ]
}

/// Where to look for Steam: only at the root that was given, where one was.
pub open spec fn install_candidates(
    given: Option<Seq<u8>>,
    xdg: Option<Seq<u8>>,
    home: Option<Seq<u8>>,
) -> Seq<(InstallKind, Seq<u8>)> {
    match given {
        Some(root) => {
            let kind = if holds(shown(root), "com.valvesoftware.Steam"@) {
                InstallKind::Flatpak
            } else {
                InstallKind::Native
            };
            seq![(kind, root)]
        },
        None => (match xdg {
            Some(xdg) => seq![(InstallKind::Native, under_text(xdg, "Steam"@))],
            None => Seq::empty(),
        }) + match home {
            Some(home) => home_candidates(home),
            None => Seq::empty(),
        },
    }
}

pub fn candidates(
    given: Option<&FilePath>,
    xdg: Option<&FilePath>,
    home: Option<&FilePath>,
) -> (list: Vec<Candidate>)
    ensures
        candidates_view(list@) == install_candidates(
            optional_path(given),
            optional_path(xdg),
            optional_path(home),
        ),
{
    let ghost wanted = install_candidates(
        optional_path(given),
        optional_path(xdg),
        optional_path(home),
    );
    let mut list: Vec<Candidate> = Vec::new();
    if let Some(root) = given {
        let kind = if contains(root.display().as_str(), "com.valvesoftware.Steam") {
            InstallKind::Flatpak
        } else {
            InstallKind::Native
        };
        list.push(Candidate { kind, path: root.copy() });
        assert(candidates_view(list@) =~= wanted);
        return list;
    }
    if let Some(xdg) = xdg {
        list.push(Candidate { kind: InstallKind::Native, path: xdg.join_text("Steam") });
    }
    if let Some(home) = home {
        // The last of the native places is where a development host has it.
        list.push(
            Candidate { kind: InstallKind::Native, path: home.join_text(".local/share/Steam") },
        );
        list.push(Candidate { kind: InstallKind::Native, path: home.join_text(".steam/steam") });
        list.push(Candidate { kind: InstallKind::Native, path: home.join_text(".steam/root") });
        list.push(
            Candidate {
                kind: InstallKind::Native,
                path: home.join_text(".steam/debian-installation"),
            },
        );
        list.push(
            Candidate {
                kind: InstallKind::Native,
                path: home.join_text("Library/Application Support/Steam"),
            },
        );
        list.push(
            Candidate {
                kind: InstallKind::Flatpak,
                path: home.join_text(".var/app/com.valvesoftware.Steam/.local/share/Steam"),
            },
        );
        list.push(
            Candidate {
                kind: InstallKind::Flatpak,
                path: home.join_text(".var/app/com.valvesoftware.Steam/data/Steam"),
            },
        );
    }
    assert(candidates_view(list@) =~= wanted);
    list
}

/// Is there Steam at a place, by which of `steamapps`, `SteamApps` and `config` are directories there?
pub fn looks_like_steam(steamapps: bool, capital_steamapps: bool, config: bool) -> (looks: bool)
    ensures
        looks == (steamapps || capital_steamapps || config),
{
    steamapps || capital_steamapps || config
}

/// What was found at a candidate: whether it looks like Steam, and where it really is.
#[derive(Debug)]
pub struct Looked {
    pub kind: InstallKind,
    pub looks_like_steam: bool,
    pub resolved: FilePath,
}

pub struct LookedView {
    pub kind: InstallKind,
    pub looks_like_steam: bool,
    pub resolved: Seq<u8>,
}

pub open spec fn looked_view(list: Seq<Looked>) -> Seq<LookedView> {
    Seq::new(
        list.len(),
        |i: int|
            LookedView {
                kind: list[i].kind,
                looks_like_steam: list[i].looks_like_steam,
                resolved: list[i].resolved@,
            },
    )
}

pub open spec fn installs_view(list: Seq<Install>) -> Seq<(InstallKind, Seq<u8>)> {
    Seq::new(list.len(), |i: int| (list[i].kind, list[i].root@))
}

pub open spec fn has_install(list: Seq<(InstallKind, Seq<u8>)>, root: Seq<u8>) -> bool {
    exists|i: int| 0 <= i < list.len() && parts((#[trigger] list[i]).1) == parts(root)
}

/// The installations: what looks like Steam, each place once.
pub open spec fn installs_of(looked: Seq<LookedView>) -> Seq<(InstallKind, Seq<u8>)>
    decreases looked.len(),
{
    if looked.len() == 0 {
        Seq::empty()
    } else {
        let before = installs_of(looked.drop_last());
        let last = looked.last();
        if last.looks_like_steam && !has_install(before, last.resolved) {
            before.push((last.kind, last.resolved))
        } else {
            before
        }
    }
}

/// Every Steam installation among the candidates.
pub fn find_installs(looked: &Vec<Looked>) -> (installs: Vec<Install>)
    ensures
        installs_view(installs@) == installs_of(looked_view(looked@)),
{
    let ghost all = looked_view(looked@);
    let mut installs: Vec<Install> = Vec::new();
    let mut i: usize = 0;
    assert(installs_view(installs@) =~= installs_of(all.take(0)));
    while i < looked.len()
        invariant
            i <= looked.len(),
            all == looked_view(looked@),
            installs_view(installs@) == installs_of(all.take(i as int)),
        decreases looked.len() - i,
    {
        assert(all.take(i + 1).drop_last() =~= all.take(i as int));
        let ghost before = installs_view(installs@);
        if looked[i].looks_like_steam {
            let mut seen = false;
            let mut k: usize = 0;
            while k < installs.len()
                invariant
                    i < looked.len(),
                    k <= installs.len(),
                    before == installs_view(installs@),
                    seen == exists|n: int|
                        0 <= n < k && parts((#[trigger] before[n]).1) == parts(looked@[i as int].resolved@),
                decreases installs.len() - k,
            {
                let here = installs[k].root.same_as(&looked[i].resolved);
                assert(before[k as int].1 == installs@[k as int].root@);
                if here {
                    seen = true;
                }
                k = k + 1;
            }
            if !seen {
                let install = Install { kind: looked[i].kind, root: looked[i].resolved.copy() };
                let ghost view = (install.kind, install.root@);
                let ghost list = installs@;
                installs.push(install);
                assert(installs_view(installs@) =~= installs_view(list).push(view));
            }
        }
        i = i + 1;
    }
    assert(all.take(i as int) =~= all);
    installs
}

/// A library folder, with the label it goes by.
pub type Folder = (Seq<u8>, Seq<char>);

pub open spec fn label_of(value: ValueView) -> Seq<char> {
    match value.under("label"@) {
        Some(label) => match label.text() {
            Some(label) => label,
            None => ""@,
        },
        None => ""@,
    }
}

/// The folder that an entry of `libraryfolders` names, if its key is a number. In the legacy layout the
/// value is the path itself.
pub open spec fn folder_of(key: Seq<char>, value: ValueView) -> Option<Folder> {
    if !all_digits(key) {
        None
    } else {
        match value {
            ValueView::Str(path) => Some((encode_utf8(path), ""@)),
            ValueView::Obj(_) => match value.under("path"@) {
                Some(path) => match path.text() {
                    Some(path) => Some((encode_utf8(path), label_of(value))),
                    None => None,
                },
                None => None,
            },
        }
    }
}

pub open spec fn folders_of(pairs: Seq<PairView>) -> Seq<Folder>
    decreases pairs.len(),
{
    if pairs.len() == 0 {
        Seq::empty()
    } else {
        let before = folders_of(pairs.drop_last());
        match folder_of(pairs.last().0, pairs.last().1) {
            Some(folder) => before.push(folder),
            None => before,
        }
    }
}

pub open spec fn folder_view(folder: (FilePath, String)) -> Folder {
    (folder.0@, folder.1@)
}

pub open spec fn folders_view(list: Seq<(FilePath, String)>) -> Seq<Folder> {
    Seq::new(list.len(), |i: int| (list[i].0@, list[i].1@))
}

/// What came of reading `libraryfolders.vdf`: nothing where there is no such file.
pub type Reading = Option<Result<Value, String>>;

/// The folders of an installation: its own, and those its list of folders names.
pub open spec fn all_folders(root: Seq<u8>, reading: Reading) -> Seq<Folder> {
    let own = seq![(root, ""@)];
    match reading {
        Some(Ok(value)) => match value.model().under("libraryfolders"@) {
            Some(folders) => own + folders_of(folders.pairs()),
            None => own,
        },
        _ => own,
    }
}

pub open spec fn folder_warnings(root: Seq<u8>, reading: Reading) -> Seq<Seq<char>> {
    match reading {
        Some(Ok(_)) => Seq::empty(),
        Some(Err(message)) => seq![message@],
        None => seq![
            shown(root) + ": no libraryfolders.vdf found, only the main install is listed"@,
        ],
    }
}

fn are_digits(text: &str) -> (are: bool)
    ensures
        are == all_digits(text@),
{
    let chars = chars_of(text);
    let mut i: usize = 0;
    while i < chars.len()
        invariant
            i <= chars.len(),
            chars@ == text@,
            forall|k: int| 0 <= k < i ==> crate::text::is_digit(#[trigger] text@[k]),
        decreases chars.len() - i,
    {
        if chars[i] < '0' || chars[i] > '9' {
            assert(!crate::text::is_digit(text@[i as int]));
            return false;
        }
        i = i + 1;
    }
    true
}

/// The text of a direct child, where it is a text.
fn child_text(value: &Value, key: &str) -> (text: Option<String>)
    ensures
        match value.model().under(key@) {
            Some(child) => match child.text() {
                Some(inner) => text is Some && text->0@ == inner,
                None => text is None,
            },
            None => text is None,
        },
{
    match value.get(key) {
        Some(child) => match child.as_str() {
            Some(inner) => Some(inner.to_string()),
            None => None,
        },
        None => None,
    }
}

fn read_folder(key: &str, value: &Value) -> (folder: Option<(FilePath, String)>)
    ensures
        match folder_of(key@, value.model()) {
            Some(wanted) => folder is Some && folder_view(folder->0) == wanted,
            None => folder is None,
        },
{
    if !are_digits(key) {
        return None;
    }
    match value {
        Value::Str(path) => Some((FilePath::new(path.as_str()), "".to_string())),
        Value::Obj(_) => match child_text(value, "path") {
            Some(path) => {
                let label = match child_text(value, "label") {
                    Some(label) => label,
                    None => "".to_string(),
                };
                Some((FilePath::new(path.as_str()), label))
            },
            None => None,
        },
    }
}

/// Where an installation keeps its list of folders. The first that is a file is the one to read.
pub fn folder_lists(install: &Install) -> (paths: Vec<FilePath>)
    ensures
        paths_view(paths@) == seq![
            under_text(install.root@, "steamapps/libraryfolders.vdf"@),
            under_text(install.root@, "config/libraryfolders.vdf"@),
            under_text(install.root@, "SteamApps/libraryfolders.vdf"@),
        ],
{
    let paths = vec![
        install.root.join_text("steamapps/libraryfolders.vdf"),
        install.root.join_text("config/libraryfolders.vdf"),
        install.root.join_text("SteamApps/libraryfolders.vdf"),
    ];
    assert(paths_view(paths@) =~= seq![
        under_text(install.root@, "steamapps/libraryfolders.vdf"@),
        under_text(install.root@, "config/libraryfolders.vdf"@),
        under_text(install.root@, "SteamApps/libraryfolders.vdf"@),
    ]);
    paths
}

/// The folders of an installation, and what there is to say about finding them.
pub fn library_folders(install: &Install, reading: &Reading) -> (found: (
    Vec<(FilePath, String)>,
    Vec<String>,
))
    ensures
        folders_view(found.0@) == all_folders(install.root@, *reading),
        texts(found.1@) == folder_warnings(install.root@, *reading),
{
    let mut warnings: Vec<String> = Vec::new();
    let mut folders: Vec<(FilePath, String)> = Vec::new();
    folders.push((install.root.copy(), "".to_string()));
    let ghost own = seq![(install.root@, ""@)];
    assert(folders_view(folders@) =~= own);
    match reading {
        Some(Ok(value)) => {
            if let Some(list) = value.get("libraryfolders") {
                let pairs = list.entries();
                let ghost all = list.model().pairs();
                let mut i: usize = 0;
                assert(folders_view(folders@) =~= own + folders_of(all.take(0)));
                while i < pairs.len()
                    invariant
                        i <= pairs.len(),
                        all == pairs_view(pairs@),
                        folders_view(folders@) == own + folders_of(all.take(i as int)),
                    decreases pairs.len() - i,
                {
                    assert(all.take(i + 1).drop_last() =~= all.take(i as int));
                    assert(all[i as int] == (pairs@[i as int].0@, pairs@[i as int].1.model()));
                    if let Some(folder) = read_folder(pairs[i].0.as_str(), &pairs[i].1) {
                        let ghost before = folders@;
                        let ghost view = (folder.0@, folder.1@);
                        folders.push(folder);
                        assert(folders_view(folders@) =~= folders_view(before).push(view));
                        assert(folders_view(folders@) =~= own + folders_of(all.take(i + 1)));
                    }
                    i = i + 1;
                }
                assert(all.take(i as int) =~= all);
            }
            assert(texts(warnings@) =~= Seq::empty());
        },
        Some(Err(message)) => {
            warnings.push(message.clone());
            assert(texts(warnings@) =~= seq![message@]);
        },
        None => {
            let mut text = install.root.display();
            text.push_str(": no libraryfolders.vdf found, only the main install is listed");
            warnings.push(text);
            assert(texts(warnings@) =~= folder_warnings(install.root@, *reading));
        },
    }
    (folders, warnings)
}

/// What was found at a library folder: whether it is there, where it really is, and which of `SteamApps`
/// and `steamapps` are directories in it.
#[derive(Debug)]
pub struct Spot {
    pub label: String,
    pub connected: bool,
    pub resolved: FilePath,
    pub capital_steamapps: bool,
    pub steamapps: bool,
}

pub struct SpotView {
    pub label: Seq<char>,
    pub connected: bool,
    pub resolved: Seq<u8>,
    pub capital_steamapps: bool,
    pub steamapps: bool,
}

pub open spec fn spots_view(list: Seq<Spot>) -> Seq<SpotView> {
    Seq::new(
        list.len(),
        |i: int|
            SpotView {
                label: list[i].label@,
                connected: list[i].connected,
                resolved: list[i].resolved@,
                capital_steamapps: list[i].capital_steamapps,
                steamapps: list[i].steamapps,
            },
    )
}

/// The library at a folder.
pub open spec fn library_at(
    kind: InstallKind,
    root: Seq<u8>,
    places: PlacesView,
    spot: SpotView,
) -> LibraryView {
    let steamapps = if spot.capital_steamapps && !spot.steamapps {
        under_text(spot.resolved, "SteamApps"@)
    } else {
        under_text(spot.resolved, "steamapps"@)
    };
    LibraryView {
        id: id_of(spot.resolved),
        path: spot.resolved,
        label: spot.label,
        steamapps,
        compatdata: under_text(steamapps, "compatdata"@),
        install_kind: kind,
        install_root: root,
        connected: spot.connected,
        places,
    }
}

pub open spec fn has_library(list: Seq<LibraryView>, path: Seq<u8>) -> bool {
    exists|i: int| 0 <= i < list.len() && parts((#[trigger] list[i]).path) == parts(path)
}

/// The libraries at the folders, each place once.
pub open spec fn libraries_at(
    kind: InstallKind,
    root: Seq<u8>,
    places: PlacesView,
    spots: Seq<SpotView>,
) -> Seq<LibraryView>
    decreases spots.len(),
{
    if spots.len() == 0 {
        Seq::empty()
    } else {
        let before = libraries_at(kind, root, places, spots.drop_last());
        if has_library(before, spots.last().resolved) {
            before
        } else {
            before.push(library_at(kind, root, places, spots.last()))
        }
    }
}

/// Libraries belonging to an installation, including the installation's own. Missing folders stay in the
/// list, marked as not connected.
pub fn libraries(install: &Install, places: &Places, spots: &Vec<Spot>) -> (libraries: Vec<Library>)
    ensures
        libraries_view(libraries@) == libraries_at(
            install.kind,
            install.root@,
            places@,
            spots_view(spots@),
        ),
{
    let ghost all = spots_view(spots@);
    let mut libraries: Vec<Library> = Vec::new();
    let mut i: usize = 0;
    assert(libraries_view(libraries@) =~= libraries_at(
        install.kind,
        install.root@,
        places@,
        all.take(0),
    ));
    while i < spots.len()
        invariant
            i <= spots.len(),
            all == spots_view(spots@),
            libraries_view(libraries@) == libraries_at(
                install.kind,
                install.root@,
                places@,
                all.take(i as int),
            ),
        decreases spots.len() - i,
    {
        assert(all.take(i + 1).drop_last() =~= all.take(i as int));
        let ghost before = libraries_view(libraries@);
        let spot = &spots[i];
        let mut seen = false;
        let mut k: usize = 0;
        while k < libraries.len()
            invariant
                k <= libraries.len(),
                before == libraries_view(libraries@),
                seen == exists|n: int|
                    0 <= n < k && parts((#[trigger] before[n]).path) == parts(spot.resolved@),
            decreases libraries.len() - k,
        {
            let here = libraries[k].path.same_as(&spot.resolved);
            assert(before[k as int].path == libraries@[k as int].path@);
            if here {
                seen = true;
            }
            k = k + 1;
        }
        if !seen {
            let steamapps = if spot.capital_steamapps && !spot.steamapps {
                spot.resolved.join_text("SteamApps")
            } else {
                spot.resolved.join_text("steamapps")
            };
            let library = Library {
                id: short_id(&spot.resolved),
                label: spot.label.clone(),
                compatdata: steamapps.join_text("compatdata"),
                steamapps,
                path: spot.resolved.copy(),
                install_kind: install.kind,
                install_root: install.root.copy(),
                connected: spot.connected,
                places: places.copy(),
            };
            let ghost view = library@;
            let ghost list = libraries@;
            libraries.push(library);
            assert(libraries_view(libraries@) =~= libraries_view(list).push(view));
        }
        i = i + 1;
    }
    assert(all.take(i as int) =~= all);
    libraries
}

/// No place is in the list of libraries twice, and each library goes by the id of its place.
pub proof fn law_each_place_once(
    kind: InstallKind,
    root: Seq<u8>,
    places: PlacesView,
    spots: Seq<SpotView>,
)
    ensures
        ({
            let list = libraries_at(kind, root, places, spots);
            &&& forall|i: int, j: int|
                0 <= i < j < list.len() ==> parts((#[trigger] list[i]).path) != parts(
                    (#[trigger] list[j]).path,
                )
            &&& forall|i: int| 0 <= i < list.len() ==> (#[trigger] list[i]).id == id_of(list[i].path)
            &&& forall|k: int|
                0 <= k < spots.len() ==> has_library(list, (#[trigger] spots[k]).resolved)
        }),
    decreases spots.len(),
{
    let list = libraries_at(kind, root, places, spots);
    if spots.len() > 0 {
        let short = spots.drop_last();
        let before = libraries_at(kind, root, places, short);
        law_each_place_once(kind, root, places, short);
        if !has_library(before, spots.last().resolved) {
            assert(list.last().path == spots.last().resolved);
            assert(list[before.len() as int] == list.last());
        }
        assert forall|k: int| 0 <= k < spots.len() implies has_library(
            list,
            (#[trigger] spots[k]).resolved,
        ) by {
            if k < short.len() {
                assert(short[k] == spots[k]);
                assert(has_library(before, short[k].resolved));
                let i = choose|i: int|
                    0 <= i < before.len() && parts((#[trigger] before[i]).path) == parts(
                        short[k].resolved,
                    );
                assert(list[i] == before[i]);
            } else if has_library(before, spots[k].resolved) {
            } else {
                assert(parts(list[before.len() as int].path) == parts(spots[k].resolved));
            }
        }
    }
}

impl Library {
    pub fn copy(&self) -> (copy: Library)
        ensures
            copy@ == self@,
    {
        Library {
            id: self.id.clone(),
            path: self.path.copy(),
            label: self.label.clone(),
            steamapps: self.steamapps.copy(),
            compatdata: self.compatdata.copy(),
            install_kind: self.install_kind,
            install_root: self.install_root.copy(),
            connected: self.connected,
            places: self.places.copy(),
        }
    }
}

pub open spec fn ids_of(list: Seq<LibraryView>) -> Seq<Seq<char>> {
    Seq::new(list.len(), |i: int| list[i].id)
}

/// The libraries without those whose id came before.
pub open spec fn first_by_id(list: Seq<LibraryView>) -> Seq<LibraryView>
    decreases list.len(),
{
    if list.len() == 0 {
        Seq::empty()
    } else {
        let before = first_by_id(list.drop_last());
        if ids_of(before).contains(list.last().id) {
            before
        } else {
            before.push(list.last())
        }
    }
}

/// The libraries in the order of their ids.
pub open spec fn by_id(list: Seq<LibraryView>) -> Seq<LibraryView> {
    let places = order_of(text_keys(ids_of(list)));
    Seq::new(places.len(), |i: int| list[places[i] as int])
}

/// What was found of an installation: its libraries, and what could not be read.
#[derive(Debug)]
pub struct Listing {
    pub libraries: Vec<Library>,
    pub warnings: Vec<String>,
}

/// The libraries of all installations, one installation after the other.
pub open spec fn libraries_of(found: Seq<Listing>) -> Seq<LibraryView>
    decreases found.len(),
{
    if found.len() == 0 {
        Seq::empty()
    } else {
        libraries_of(found.drop_last()) + libraries_view(found.last().libraries@)
    }
}

/// The warnings of all installations, one installation after the other.
pub open spec fn warnings_of(found: Seq<Listing>) -> Seq<Seq<char>>
    decreases found.len(),
{
    if found.len() == 0 {
        Seq::empty()
    } else {
        warnings_of(found.drop_last()) + texts(found.last().warnings@)
    }
}

/// Every library across every installation, in the order of their ids. A physical library shared between
/// native and Flatpak Steam is one repair scope: the first installation seen owns the mapping.
pub fn all_libraries(found: &Vec<Listing>) -> (all: Listing)
    ensures
        libraries_view(all.libraries@) == by_id(first_by_id(libraries_of(found@))),
        texts(all.warnings@) == warnings_of(found@),
{
    let mut list: Vec<Library> = Vec::new();
    let mut warnings: Vec<String> = Vec::new();
    let mut i: usize = 0;
    assert(found@.take(0) =~= Seq::empty());
    assert(libraries_view(list@) =~= libraries_of(found@.take(0)));
    assert(texts(warnings@) =~= warnings_of(found@.take(0)));
    while i < found.len()
        invariant
            i <= found.len(),
            libraries_view(list@) == libraries_of(found@.take(i as int)),
            texts(warnings@) == warnings_of(found@.take(i as int)),
        decreases found.len() - i,
    {
        assert(found@.take(i + 1).drop_last() =~= found@.take(i as int));
        assert(found@.take(i + 1).last() == found@[i as int]);
        add_libraries(&mut list, &found[i].libraries);
        add_texts(&mut warnings, &found[i].warnings);
        i = i + 1;
    }
    assert(found@.take(i as int) =~= found@);
    Listing { libraries: merged(&list), warnings }
}

fn add_libraries(list: &mut Vec<Library>, more: &Vec<Library>)
    ensures
        libraries_view(final(list)@) == libraries_view(old(list)@) + libraries_view(more@),
{
    let ghost before = libraries_view(list@);
    let ghost all = libraries_view(more@);
    let mut i: usize = 0;
    assert(before =~= before + all.take(0));
    while i < more.len()
        invariant
            i <= more.len(),
            all == libraries_view(more@),
            libraries_view(list@) == before + all.take(i as int),
        decreases more.len() - i,
    {
        let library = more[i].copy();
        let ghost view = library@;
        let ghost was = list@;
        list.push(library);
        assert(libraries_view(list@) =~= libraries_view(was).push(view));
        assert(libraries_view(list@) =~= before + all.take(i + 1));
        i = i + 1;
    }
    assert(all.take(i as int) =~= all);
}

fn add_texts(list: &mut Vec<String>, more: &Vec<String>)
    ensures
        texts(final(list)@) == texts(old(list)@) + texts(more@),
{
    let ghost before = texts(list@);
    let ghost all = texts(more@);
    let mut i: usize = 0;
    assert(before =~= before + all.take(0));
    while i < more.len()
        invariant
            i <= more.len(),
            all == texts(more@),
            texts(list@) == before + all.take(i as int),
        decreases more.len() - i,
    {
        add_text(list, more[i].clone());
        assert(texts(list@) =~= before + all.take(i + 1));
        i = i + 1;
    }
    assert(all.take(i as int) =~= all);
}

/// Is this the first of the libraries that has its id?
pub open spec fn is_first_by_id(list: Seq<LibraryView>, k: int) -> bool {
    0 <= k < list.len() && forall|m: int| 0 <= m < k ==> (#[trigger] list[m]).id != list[k].id
}

proof fn lemma_firsts_by_id(list: Seq<LibraryView>)
    ensures
        first_by_id(list).len() <= list.len(),
        forall|i: int, j: int|
            0 <= i < j < first_by_id(list).len() ==> (#[trigger] first_by_id(list)[i]).id != (
            #[trigger] first_by_id(list)[j]).id,
        forall|k: int| 0 <= k < list.len() ==> ids_of(first_by_id(list)).contains((#[trigger] list[k]).id),
        forall|i: int|
            0 <= i < first_by_id(list).len() ==> exists|k: int|
                #[trigger] is_first_by_id(list, k) && (#[trigger] first_by_id(list)[i]) == list[k],
    decreases list.len(),
{
    if list.len() > 0 {
        let short = list.drop_last();
        let before = first_by_id(short);
        let all = first_by_id(list);
        let last = list.len() - 1;
        lemma_firsts_by_id(short);
        let known = ids_of(before).contains(list[last].id);
        assert forall|i: int, j: int| 0 <= i < j < all.len() implies (#[trigger] all[i]).id != (
        #[trigger] all[j]).id by {
            if j < before.len() {
                assert(before[i].id != before[j].id);
            } else {
                assert(ids_of(before)[i] == all[i].id);
            }
        }
        assert forall|k: int| 0 <= k < list.len() implies ids_of(all).contains((#[trigger] list[k]).id) by {
            if k < last || known {
                if k < last {
                    assert(short[k] == list[k]);
                }
                assert(ids_of(before).contains(list[k].id));
                let i = choose|i: int| 0 <= i < ids_of(before).len() && ids_of(before)[i] == list[k].id;
                assert(ids_of(all)[i] == list[k].id);
            } else {
                assert(ids_of(all)[before.len() as int] == list[k].id);
            }
        }
        assert forall|i: int| 0 <= i < all.len() implies exists|k: int|
            #[trigger] is_first_by_id(list, k) && (#[trigger] all[i]) == list[k] by {
            if i < before.len() {
                let k = choose|k: int| #[trigger] is_first_by_id(short, k) && before[i] == short[k];
                assert forall|m: int| 0 <= m < k implies (#[trigger] list[m]).id != list[k].id by {
                    assert(short[m].id != short[k].id);
                }
                assert(is_first_by_id(list, k) && all[i] == list[k]);
            } else {
                assert forall|m: int| 0 <= m < last implies (#[trigger] list[m]).id != list[last].id by {
                    assert(ids_of(before).contains(short[m].id));
                }
                assert(is_first_by_id(list, last) && all[i] == list[last]);
            }
        }
    }
}

/// The libraries of all installations are listed in strict order of their ids: none twice, each id that was
/// found, and each library as the first installation that lists it has it.
pub proof fn law_all_libraries_are_in_strict_order(list: Seq<LibraryView>)
    requires
        list.len() <= usize::MAX,
    ensures
        ({
            let all = by_id(first_by_id(list));
            &&& forall|i: int, j: int|
                0 <= i < j < all.len() ==> before(
                    text_key((#[trigger] all[i]).id),
                    text_key((#[trigger] all[j]).id),
                )
            &&& forall|i: int, j: int|
                0 <= i < j < all.len() ==> (#[trigger] all[i]).id != (#[trigger] all[j]).id
            &&& forall|k: int| 0 <= k < list.len() ==> ids_of(all).contains((#[trigger] list[k]).id)
            &&& forall|i: int|
                0 <= i < all.len() ==> exists|k: int|
                    #[trigger] is_first_by_id(list, k) && (#[trigger] all[i]) == list[k]
        }),
{
    let firsts = first_by_id(list);
    let all = by_id(firsts);
    lemma_firsts_by_id(list);
    let keys = text_keys(ids_of(firsts));
    lemma_some_order(keys);
    let places = order_of(keys);
    assert forall|i: int, j: int| 0 <= i < j < all.len() implies before(
        text_key((#[trigger] all[i]).id),
        text_key((#[trigger] all[j]).id),
    ) && all[i].id != all[j].id by {
        let a = places[i] as int;
        let b = places[j] as int;
        assert(ahead(keys, a, b));
        if a == b {
            lemma_before_irreflexive(keys[a]);
        }
        assert(a != b);
        if a < b {
            assert(firsts[a].id != firsts[b].id);
        } else {
            assert(firsts[b].id != firsts[a].id);
        }
        if keys[a] == keys[b] {
            lemma_text_keys_differ(firsts[a].id, firsts[b].id);
        }
    }
    assert forall|k: int| 0 <= k < list.len() implies ids_of(all).contains((#[trigger] list[k]).id) by {
        assert(ids_of(firsts).contains(list[k].id));
        let p = choose|p: int| 0 <= p < ids_of(firsts).len() && ids_of(firsts)[p] == list[k].id;
        assert(places.contains(p as usize));
        let i = choose|i: int| 0 <= i < places.len() && places[i] == p as usize;
        assert(ids_of(all)[i] == list[k].id);
    }
    assert forall|i: int| 0 <= i < all.len() implies exists|k: int|
        #[trigger] is_first_by_id(list, k) && (#[trigger] all[i]) == list[k] by {
        assert(places[i] < keys.len());
        let p = places[i] as int;
        assert(all[i] == firsts[p]);
        let k = choose|k: int| #[trigger] is_first_by_id(list, k) && firsts[p] == list[k];
        assert(is_first_by_id(list, k) && all[i] == list[k]);
    }
}

proof fn lemma_text_keys_differ(left: Seq<char>, right: Seq<char>)
    requires
        text_key(left) == text_key(right),
    ensures
        left == right,
{
    assert(text_key(left).len() == left.len() && text_key(right).len() == right.len());
    assert forall|i: int| 0 <= i < left.len() implies left[i] == right[i] by {
        assert(text_key(left)[i] == left[i] as u32);
        assert(text_key(right)[i] == right[i] as u32);
        lemma_char_number(left[i], right[i]);
    }
    assert(left =~= right);
}

proof fn lemma_char_number(left: char, right: char)
    requires
        left as u32 == right as u32,
    ensures
        left == right,
{
}

fn merged(found: &Vec<Library>) -> (all: Vec<Library>)
    ensures
        libraries_view(all@) == by_id(first_by_id(libraries_view(found@))),
{
    let ghost given = libraries_view(found@);
    let mut firsts: Vec<Library> = Vec::new();
    let mut i: usize = 0;
    assert(libraries_view(firsts@) =~= first_by_id(given.take(0)));
    while i < found.len()
        invariant
            i <= found.len(),
            given == libraries_view(found@),
            libraries_view(firsts@) == first_by_id(given.take(i as int)),
        decreases found.len() - i,
    {
        assert(given.take(i + 1).drop_last() =~= given.take(i as int));
        let ghost before = libraries_view(firsts@);
        let mut seen = false;
        let mut k: usize = 0;
        while k < firsts.len()
            invariant
                i < found.len(),
                k <= firsts.len(),
                before == libraries_view(firsts@),
                seen == exists|n: int| 0 <= n < k && #[trigger] ids_of(before)[n] == found@[i as int].id@,
            decreases firsts.len() - k,
        {
            let here = same(firsts[k].id.as_str(), found[i].id.as_str());
            assert(ids_of(before)[k as int] == firsts@[k as int].id@);
            if here {
                seen = true;
            }
            k = k + 1;
        }
        if !seen {
            let library = found[i].copy();
            let ghost view = library@;
            let ghost list = firsts@;
            firsts.push(library);
            assert(libraries_view(firsts@) =~= libraries_view(list).push(view));
        }
        i = i + 1;
    }
    assert(given.take(i as int) =~= given);
    let ghost list = libraries_view(firsts@);
    let mut keys: Vec<Vec<u32>> = Vec::new();
    let mut n: usize = 0;
    while n < firsts.len()
        invariant
            n <= firsts.len(),
            keys@.len() == n,
            forall|k: int| 0 <= k < n ==> (#[trigger] keys@[k])@ == text_key(firsts@[k].id@),
        decreases firsts.len() - n,
    {
        keys.push(key_of(firsts[n].id.as_str()));
        n = n + 1;
    }
    assert(keys_view(keys@) =~= text_keys(ids_of(list)));
    let places = order(&keys);
    proof {
        lemma_order_of(text_keys(ids_of(list)), places@);
    }
    let mut all: Vec<Library> = Vec::new();
    let mut m: usize = 0;
    while m < places.len()
        invariant
            m <= places.len(),
            list == libraries_view(firsts@),
            in_order(text_keys(ids_of(list)), places@),
            all@.len() == m,
            forall|k: int| 0 <= k < m ==> (#[trigger] all@[k])@ == list[places@[k] as int],
        decreases places.len() - m,
    {
        assert(places@[m as int] < text_keys(ids_of(list)).len());
        all.push(firsts[places[m]].copy());
        m = m + 1;
    }
    assert(libraries_view(all@) =~= by_id(list));
    all
}

/// The places of the libraries whose id starts with the reference.
pub open spec fn matches_by_id(list: Seq<LibraryView>, reference: Seq<char>) -> Seq<int>
    decreases list.len(),
{
    if list.len() == 0 {
        Seq::empty()
    } else {
        let before = matches_by_id(list.drop_last(), reference);
        if reference.is_prefix_of(list.last().id) {
            before.push(list.len() - 1)
        } else {
            before
        }
    }
}

/// The first library at a path.
pub open spec fn match_by_path(list: Seq<LibraryView>, wanted: Seq<u8>) -> Option<int>
    decreases list.len(),
{
    if list.len() == 0 {
        None
    } else if match_by_path(list.drop_last(), wanted) is Some {
        match_by_path(list.drop_last(), wanted)
    } else if parts(list.last().path) == parts(wanted) {
        Some(list.len() - 1)
    } else {
        None
    }
}

/// The library a reference names, or why it names none.
pub open spec fn resolution(
    list: Seq<LibraryView>,
    reference: Seq<char>,
    wanted: Seq<u8>,
) -> Result<int, Seq<char>> {
    let found = matches_by_id(list, reference);
    if found.len() == 1 {
        Ok(found[0])
    } else if found.len() > 1 {
        Err(
            "'"@ + reference + "' matches "@ + decimal_text(found.len())
                + " libraries. Use the full id."@,
        )
    } else {
        match match_by_path(list, wanted) {
            Some(place) => Ok(place),
            None => Err(
                "no library matches '"@ + reference
                    + "'. Run `librarybridge scan` to list them."@,
            ),
        }
    }
}

proof fn lemma_matches(list: Seq<LibraryView>, reference: Seq<char>)
    ensures
        forall|i: int|
            0 <= i < matches_by_id(list, reference).len() ==> 0 <= #[trigger] matches_by_id(
                list,
                reference,
            )[i] < list.len(),
    decreases list.len(),
{
    if list.len() > 0 {
        lemma_matches(list.drop_last(), reference);
        let before = matches_by_id(list.drop_last(), reference);
        let all = matches_by_id(list, reference);
        assert forall|i: int| 0 <= i < all.len() implies 0 <= #[trigger] all[i] < list.len() by {
            if i < before.len() {
                assert(all[i] == before[i]);
            }
        }
    }
}

proof fn lemma_path_match_stays(list: Seq<LibraryView>, wanted: Seq<u8>, n: int)
    requires
        0 <= n <= list.len(),
        match_by_path(list.take(n), wanted) is Some,
    ensures
        match_by_path(list, wanted) == match_by_path(list.take(n), wanted),
    decreases list.len(),
{
    if n < list.len() {
        assert(list.drop_last().take(n) =~= list.take(n));
        lemma_path_match_stays(list.drop_last(), wanted, n);
    } else {
        assert(list.take(n) =~= list);
    }
}

/// Match a library by id prefix or by path, so both work on the command line; `wanted` is where the
/// reference leads when it is read as a path.
pub fn resolve<'a>(libraries: &'a Vec<Library>, reference: &str, wanted: &FilePath) -> (found: Result<
    &'a Library,
    String,
>)
    ensures
        match resolution(libraries_view(libraries@), reference@, wanted@) {
            Ok(place) => found is Ok && 0 <= place < libraries@.len() && found->Ok_0@
                == libraries@[place]@,
            Err(message) => found is Err && found->Err_0@ == message,
        },
{
    let ghost all = libraries_view(libraries@);
    let mut found: Vec<usize> = Vec::new();
    let mut i: usize = 0;
    while i < libraries.len()
        invariant
            i <= libraries.len(),
            all == libraries_view(libraries@),
            found@.len() == matches_by_id(all.take(i as int), reference@).len(),
            forall|k: int|
                0 <= k < found@.len() ==> #[trigger] found@[k] == matches_by_id(
                    all.take(i as int),
                    reference@,
                )[k],
            forall|k: int| 0 <= k < found@.len() ==> #[trigger] found@[k] < libraries@.len(),
        decreases libraries.len() - i,
    {
        assert(all.take(i + 1).drop_last() =~= all.take(i as int));
        if starts_with(libraries[i].id.as_str(), reference) {
            found.push(i);
        }
        i = i + 1;
    }
    assert(all.take(i as int) =~= all);
    proof {
        lemma_matches(all, reference@);
    }
    if found.len() == 1 {
        assert(found@[0] == matches_by_id(all, reference@)[0]);
        return Ok(&libraries[found[0]]);
    }
    if found.len() > 1 {
        let mut text = "'".to_string();
        text.push_str(reference);
        text.push_str("' matches ");
        text.push_str(decimal(found.len() as u64).as_str());
        text.push_str(" libraries. Use the full id.");
        return Err(text);
    }
    let mut n: usize = 0;
    while n < libraries.len()
        invariant
            n <= libraries.len(),
            all == libraries_view(libraries@),
            match_by_path(all.take(n as int), wanted@) is None,
            matches_by_id(all, reference@).len() == 0,
        decreases libraries.len() - n,
    {
        assert(all.take(n + 1).drop_last() =~= all.take(n as int));
        assert(all.take(n + 1).last() == libraries@[n as int]@);
        if libraries[n].path.same_as(wanted) {
            proof {
                lemma_path_match_stays(all, wanted@, n + 1);
            }
            return Ok(&libraries[n]);
        }
        n = n + 1;
    }
    assert(all.take(n as int) =~= all);
    let mut text = "no library matches '".to_string();
    text.push_str(reference);
    text.push_str("'. Run `librarybridge scan` to list them.");
    Err(text)
}

/// Is the file an app manifest, by its name?
pub open spec fn manifest_name(name: Seq<char>) -> bool {
    "appmanifest_"@.is_prefix_of(name) && ".acf"@.is_suffix_of(name)
}

pub fn is_app_manifest(name: &str) -> (is: bool)
    ensures
        is == manifest_name(name@),
{
    starts_with(name, "appmanifest_") && before_suffix(name, ".acf").is_some()
}

/// The id and name of the app that a manifest is about.
pub open spec fn app_of(manifest: ValueView) -> Option<(Seq<char>, Seq<char>)> {
    match manifest.under("AppState"@) {
        Some(state) => match (state.under("appid"@), state.under("name"@)) {
            (Some(id), Some(name)) => match (id.text(), name.text()) {
                (Some(id), Some(name)) => Some((id, name)),
                _ => None,
            },
            _ => None,
        },
        None => None,
    }
}

pub type AppList = Seq<(Seq<char>, Seq<char>)>;

/// The place of an app in a list.
pub open spec fn app_place(list: AppList, id: Seq<char>) -> Option<int>
    decreases list.len(),
{
    if list.len() == 0 {
        None
    } else if list.last().0 == id {
        Some(list.len() - 1)
    } else {
        app_place(list.drop_last(), id)
    }
}

/// The list with an app in it: where its id is there already, under its new name.
pub open spec fn with_app(list: AppList, app: (Seq<char>, Seq<char>)) -> AppList {
    match app_place(list, app.0) {
        Some(place) => list.update(place, app),
        None => list.push(app),
    }
}

/// The apps that a row of manifests is about.
pub open spec fn apps_of(manifests: Seq<ValueView>) -> AppList
    decreases manifests.len(),
{
    if manifests.len() == 0 {
        Seq::empty()
    } else {
        let before = apps_of(manifests.drop_last());
        match app_of(manifests.last()) {
            Some(app) => with_app(before, app),
            None => before,
        }
    }
}

pub open spec fn apps_view(list: Seq<(String, String)>) -> AppList {
    Seq::new(list.len(), |i: int| (list[i].0@, list[i].1@))
}

pub open spec fn manifests_view(list: Seq<Value>) -> Seq<ValueView> {
    Seq::new(list.len(), |i: int| list[i].model())
}

fn find_app(list: &Vec<(String, String)>, id: &str) -> (place: Option<usize>)
    ensures
        match app_place(apps_view(list@), id@) {
            Some(at) => place is Some && place->0 == at && 0 <= at < list@.len(),
            None => place is None,
        },
{
    let ghost all = apps_view(list@);
    let mut n: usize = list.len();
    assert(all.take(n as int) =~= all);
    while n > 0
        invariant
            n <= list.len(),
            all == apps_view(list@),
            app_place(all.take(n as int), id@) == app_place(all, id@),
        decreases n,
    {
        assert(all.take(n as int).drop_last() =~= all.take(n - 1));
        assert(all.take(n as int).last() == (list@[n - 1].0@, list@[n - 1].1@));
        if same(list[n - 1].0.as_str(), id) {
            return Some(n - 1);
        }
        n = n - 1;
    }
    None
}

/// Is the app among those installed?
pub fn has_app(list: &Vec<(String, String)>, id: &str) -> (has: bool)
    ensures
        has == (app_place(apps_view(list@), id@) is Some),
{
    find_app(list, id).is_some()
}

/// Installed games by id, read from the library's app manifests that could be parsed. Used only to make
/// output readable; a manifest that says nothing is not an error.
pub fn app_names(manifests: &Vec<Value>) -> (names: Vec<(String, String)>)
    ensures
        apps_view(names@) == apps_of(manifests_view(manifests@)),
{
    let ghost all = manifests_view(manifests@);
    let mut names: Vec<(String, String)> = Vec::new();
    let mut i: usize = 0;
    assert(apps_view(names@) =~= apps_of(all.take(0)));
    while i < manifests.len()
        invariant
            i <= manifests.len(),
            all == manifests_view(manifests@),
            apps_view(names@) == apps_of(all.take(i as int)),
        decreases manifests.len() - i,
    {
        assert(all.take(i + 1).drop_last() =~= all.take(i as int));
        assert(all.take(i + 1).last() == manifests@[i as int].model());
        let ghost before = apps_view(names@);
        if let Some(state) = manifests[i].get("AppState") {
            let id = child_text(state, "appid");
            let name = child_text(state, "name");
            if let (Some(id), Some(name)) = (id, name) {
                let ghost app = (id@, name@);
                match find_app(&names, id.as_str()) {
                    Some(place) => {
                        names.set(place, (id, name));
                        assert(apps_view(names@) =~= before.update(place as int, app));
                    },
                    None => {
                        names.push((id, name));
                        assert(apps_view(names@) =~= before.push(app));
                    },
                }
            }
        }
        i = i + 1;
    }
    assert(all.take(i as int) =~= all);
    names
}

} // verus!
