//! What is decided about names inside an open directory.
//!
//! Checking a path and then acting on it by name leaves a moment in which a component can be replaced
//! with a symlink. So the parent directory is opened once, and the rename, the link and the unlink all
//! happen relative to that descriptor. What the kernel answers to each question is judged here.

use vstd::prelude::*;

use crate::path::{ancestors_of, law_parent_drops_the_last_step, parent_of, parts, paths_view, shown, FilePath};

verus! {

#[derive(Debug, Clone, Copy, PartialEq, Eq, Structural)]
pub enum Kind {
    Absent,
    Directory,
    File,
    Symlink,
    Other,
}

pub open spec fn kind_label(kind: Kind) -> Seq<char> {
    match kind {
        Kind::Absent => "nothing"@,
        Kind::Directory => "directory"@,
        Kind::File => "file"@,
        Kind::Symlink => "symlink"@,
        Kind::Other => "special file"@,
    }
}

impl Kind {
    pub fn label(self) -> (label: &'static str)
        ensures
            label@ == kind_label(self),
    {
        match self {
            Kind::Absent => "nothing",
            Kind::Directory => "directory",
            Kind::File => "file",
            Kind::Symlink => "symlink",
            Kind::Other => "special file",
        }
    }

    /// What a mode says a name is.
    pub fn of_mode(mode: u32) -> (kind: Kind)
        ensures
            kind == kind_of_mode(mode),
    {
        let bits: u32 = mode & 0o170000;
        if bits == 0o040000 {
            Kind::Directory
        } else if bits == 0o120000 {
            Kind::Symlink
        } else if bits == 0o100000 {
            Kind::File
        } else {
            Kind::Other
        }
    }
}

pub open spec fn kind_of_mode(mode: u32) -> Kind {
    let bits = mode & 0o170000;
    if bits == 0o040000 {
        Kind::Directory
    } else if bits == 0o120000 {
        Kind::Symlink
    } else if bits == 0o100000 {
        Kind::File
    } else {
        Kind::Other
    }
}

/// The kernel is asked to enforce containment: `openat2` with `RESOLVE_BENEATH`.
pub const CONTAINMENT_ENFORCED: bool = true;

/// What came of opening a directory and asking for its device and inode.
#[derive(Debug)]
pub enum Opened {
    /// It could not be opened.
    Closed,
    /// It was opened, and would not say what it is.
    Silent { error: String },
    Is { identity: (u64, u64) },
}

pub enum OpenedView {
    Closed,
    Silent { error: Seq<char> },
    Is { identity: (u64, u64) },
}

impl View for Opened {
    type V = OpenedView;

    open spec fn view(&self) -> OpenedView {
        match *self {
            Opened::Closed => OpenedView::Closed,
            Opened::Silent { error } => OpenedView::Silent { error: error@ },
            Opened::Is { identity } => OpenedView::Is { identity },
        }
    }
}

pub open spec fn opened_view(list: Seq<Opened>) -> Seq<OpenedView> {
    Seq::new(list.len(), |i: int| list[i]@)
}

/// An answer, or what kept it from being given.
pub open spec fn answers(answer: Result<bool, String>, wanted: Result<bool, Seq<char>>) -> bool {
    match wanted {
        Ok(yes) => answer is Ok && answer->Ok_0 == yes,
        Err(words) => answer is Err && answer->Err_0@ == words,
    }
}

pub open spec fn is_same_directory(left: OpenedView, right: OpenedView) -> Result<bool, Seq<char>> {
    match (left, right) {
        (OpenedView::Closed, _) => Ok(false),
        (_, OpenedView::Closed) => Ok(false),
        (OpenedView::Silent { error }, _) => Err(error),
        (_, OpenedView::Silent { error }) => Err(error),
        (OpenedView::Is { identity: a }, OpenedView::Is { identity: b }) => Ok(a == b),
    }
}

/// Do two paths refer to the same directory? Compares device and inode after opening, so two different
/// names for one directory are recognised and one name for two different directories over time is not.
pub fn same_directory(left: &Opened, right: &Opened) -> (answer: Result<bool, String>)
    ensures
        answers(answer, is_same_directory(left@, right@)),
{
    match (left, right) {
        (Opened::Closed, _) => Ok(false),
        (_, Opened::Closed) => Ok(false),
        (Opened::Silent { error }, _) => Err(error.clone()),
        (_, Opened::Silent { error }) => Err(error.clone()),
        (Opened::Is { identity: a }, Opened::Is { identity: b }) => Ok(a.0 == b.0 && a.1 == b.1),
    }
}

/// Is one of the directories the given one? A directory that could not be opened is passed over.
pub open spec fn found_among(identity: (u64, u64), list: Seq<OpenedView>) -> Result<bool, Seq<char>>
    decreases list.len(),
{
    if list.len() == 0 {
        Ok(false)
    } else {
        match list[0] {
            OpenedView::Silent { error } => Err(error),
            OpenedView::Is { identity: here } => if here == identity {
                Ok(true)
            } else {
                found_among(identity, list.skip(1))
            },
            OpenedView::Closed => found_among(identity, list.skip(1)),
        }
    }
}

pub open spec fn is_inside(outer: OpenedView, path: Seq<OpenedView>) -> Result<bool, Seq<char>> {
    match outer {
        OpenedView::Closed => Ok(false),
        OpenedView::Silent { error } => Err(error),
        OpenedView::Is { identity } => found_among(identity, path),
    }
}

/// The real directories on the way to a path, from the nearest one that is there up to the root: those of
/// what the first of its ancestors that could be resolved leads to. `resolved` says where each of the
/// ancestors really is, links followed, the path itself first.
pub open spec fn real_way(resolved: Seq<Option<Seq<u8>>>) -> Seq<Seq<u8>>
    decreases resolved.len(),
{
    if resolved.len() == 0 {
        Seq::empty()
    } else {
        match resolved[0] {
            Some(place) => ancestors_of(place),
            None => real_way(resolved.skip(1)),
        }
    }
}

pub open spec fn resolved_view(list: Seq<Option<FilePath>>) -> Seq<Option<Seq<u8>>> {
    Seq::new(
        list.len(),
        |i: int|
            match list[i] {
                Some(path) => Some(path@),
                None => None,
            },
    )
}

/// Says which directories have to be opened to judge where a path really is. A symlink on the way does not
/// matter: the directories are those of the place it leads to.
pub fn directories_to_open(resolved: &Vec<Option<FilePath>>) -> (dirs: Vec<FilePath>)
    ensures
        paths_view(dirs@) == real_way(resolved_view(resolved@)),
{
    let ghost all = resolved_view(resolved@);
    let mut i: usize = 0;
    assert(all.skip(0) =~= all);
    while i < resolved.len()
        invariant
            i <= resolved.len(),
            all == resolved_view(resolved@),
            real_way(all) == real_way(all.skip(i as int)),
        decreases resolved.len() - i,
    {
        assert(all.skip(i as int)[0] == all[i as int]);
        assert(all.skip(i as int).skip(1) =~= all.skip(i + 1));
        if let Some(place) = &resolved[i] {
            return place.ancestors();
        }
        i = i + 1;
    }
    let none: Vec<FilePath> = Vec::new();
    assert(paths_view(none@) =~= Seq::empty());
    none
}

/// Is a path inside `outer`, judged by the real directories it goes through, as `directories_to_open` gives
/// them, rather than by comparing strings? A lexical comparison is defeated by a symlink or by two names for
/// one place.
pub fn contains(outer: &Opened, path: &Vec<Opened>) -> (answer: Result<bool, String>)
    ensures
        answers(answer, is_inside(outer@, opened_view(path@))),
{
    let ghost all = opened_view(path@);
    match outer {
        Opened::Closed => Ok(false),
        Opened::Silent { error } => Err(error.clone()),
        Opened::Is { identity } => {
            let mut i: usize = 0;
            assert(all.skip(0) =~= all);
            while i < path.len()
                invariant
                    i <= path.len(),
                    all == opened_view(path@),
                    outer@ == (OpenedView::Is { identity: *identity }),
                    found_among(*identity, all) == found_among(*identity, all.skip(i as int)),
                decreases path.len() - i,
            {
                assert(all.skip(i as int)[0] == path@[i as int]@);
                assert(all.skip(i as int).skip(1) =~= all.skip(i + 1));
                match &path[i] {
                    Opened::Closed => {},
                    Opened::Silent { error } => return Err(error.clone()),
                    Opened::Is { identity: here } => {
                        if here.0 == identity.0 && here.1 == identity.1 {
                            return Ok(true);
                        }
                    },
                }
                i = i + 1;
            }
            Ok(false)
        },
    }
}

pub open spec fn no_silence(list: Seq<OpenedView>) -> bool {
    forall|i: int| 0 <= i < list.len() ==> !(#[trigger] list[i] is Silent)
}

/// Where every directory that can be opened says what it is, a path is inside another exactly when that
/// is one of the directories it goes through.
pub proof fn law_inside_means_on_the_way(identity: (u64, u64), path: Seq<OpenedView>)
    requires
        no_silence(path),
    ensures
        is_inside(OpenedView::Is { identity }, path) == Ok::<bool, Seq<char>>(
            path.contains(OpenedView::Is { identity }),
        ),
    decreases path.len(),
{
    let here = OpenedView::Is { identity };
    if path.len() > 0 {
        let rest = path.skip(1);
        assert forall|i: int| 0 <= i < rest.len() implies !(#[trigger] rest[i] is Silent) by {
            assert(rest[i] == path[i + 1]);
        }
        law_inside_means_on_the_way(identity, rest);
        if rest.contains(here) {
            let i = choose|i: int| 0 <= i < rest.len() && rest[i] == here;
            assert(path[i + 1] == here);
        }
        if path.contains(here) && path[0] != here {
            let i = choose|i: int| 0 <= i < path.len() && path[i] == here;
            assert(rest[i - 1] == here);
        }
        assert(!(path[0] is Silent));
    }
}

/// Which directory is at a path, by its device and inode.
pub type Directories = spec_fn(Seq<u8>) -> (u64, u64);

/// Which directory a directory is in; the root is in none.
pub type Above = spec_fn((u64, u64)) -> Option<(u64, u64)>;

/// Is a path real: does each of its steps lead from a directory into one that is in it, and none through a
/// link?
pub open spec fn is_real(at: Directories, above: Above, path: Seq<u8>) -> bool
    decreases parts(path).len(),
{
    match parent_of(path) {
        Some(parent) => {
            proof {
                law_parent_drops_the_last_step(path);
            }
            above(at(path)) == Some(at(parent)) && is_real(at, above, parent)
        },
        None => above(at(path)) is None,
    }
}

/// The directory so many steps above another.
pub open spec fn climb(above: Above, dir: (u64, u64), n: nat) -> Option<(u64, u64)>
    decreases n,
{
    if n == 0 {
        Some(dir)
    } else {
        match above(dir) {
            Some(next) => climb(above, next, (n - 1) as nat),
            None => None,
        }
    }
}

/// Is a directory the other, or somewhere in it?
pub open spec fn lies_in(above: Above, outer: (u64, u64), dir: (u64, u64)) -> bool {
    exists|n: nat| climb(above, dir, n) == Some(outer)
}

/// What comes of opening the directories of a list, all of which are there.
pub open spec fn opened_at(at: Directories, list: Seq<Seq<u8>>) -> Seq<OpenedView> {
    Seq::new(list.len(), |i: int| OpenedView::Is { identity: at(list[i]) })
}

/// Containment is judged by real directories: with the directories on the way to where a path really leads
/// opened, the answer is whether the directory there lies in the outer one, whatever names and links led to
/// it.
pub proof fn law_containment_is_real(at: Directories, above: Above, outer: (u64, u64), place: Seq<u8>)
    requires
        is_real(at, above, place),
    ensures
        is_inside(OpenedView::Is { identity: outer }, opened_at(at, ancestors_of(place))) == Ok::<bool, Seq<char>>(
            lies_in(above, outer, at(place)),
        ),
    decreases parts(place).len(),
{
    let list = opened_at(at, ancestors_of(place));
    let here = at(place);
    assert(list[0] == OpenedView::Is { identity: here });
    assert(climb(above, here, 0) == Some(here));
    assert(here == outer ==> lies_in(above, outer, here));
    assert(ancestors_of(place)[0] == place);
    match parent_of(place) {
        Some(parent) => {
            law_parent_drops_the_last_step(place);
            law_containment_is_real(at, above, outer, parent);
            assert(list.skip(1) =~= opened_at(at, ancestors_of(parent)));
            assert(found_among(outer, list.skip(1)) == Ok::<bool, Seq<char>>(lies_in(above, outer, at(parent))));
            if lies_in(above, outer, at(parent)) {
                let next = at(parent);
                let n = choose|n: nat| climb(above, next, n) == Some(outer);
                assert(climb(above, here, n + 1) == Some(outer));
            }
            if lies_in(above, outer, here) && here != outer {
                let n = choose|n: nat| climb(above, here, n) == Some(outer);
                assert(climb(above, at(parent), (n - 1) as nat) == Some(outer));
            }
        },
        None => {
            assert(list.skip(1) =~= Seq::empty());
            assert(found_among(outer, list.skip(1)) == Ok::<bool, Seq<char>>(false));
            if lies_in(above, outer, here) {
                let n = choose|n: nat| climb(above, here, n) == Some(outer);
                assert(n == 0);
            }
        },
    }
}

/// A directory and a name in it, in words.
pub open spec fn place_text(dir: Seq<u8>, name: Seq<u8>) -> Seq<char> {
    shown(dir) + "/"@ + shown(name)
}

pub open spec fn removal_refusal(dir: Seq<u8>, name: Seq<u8>, kind: Kind) -> Seq<char> {
    place_text(dir, name) + ": expected a symlink and found a "@ + kind_label(kind)
        + ". Nothing was removed."@
}

/// May the name be removed? Only a symlink may: deleting a directory by mistake would be the worst
/// possible outcome.
pub fn may_remove(dir: &FilePath, name: &FilePath, kind: Kind) -> (verdict: Result<(), String>)
    ensures
        verdict is Ok <==> kind == Kind::Symlink,
        verdict matches Err(text) ==> text@ == removal_refusal(dir@, name@, kind),
{
    match kind {
        Kind::Symlink => Ok(()),
        _ => {
            let mut text = dir.display();
            text.push_str("/");
            text.push_str(name.display().as_str());
            text.push_str(": expected a symlink and found a ");
            text.push_str(kind.label());
            text.push_str(". Nothing was removed.");
            Err(text)
        },
    }
}

/// What the kernel says to resolving a name without leaving the directory.
#[derive(Debug)]
pub enum Resolution {
    Opened,
    /// The way leads out of the directory, or through links without end.
    Escapes,
    Missing,
    Failed { error: String },
}

/// Does a name resolve without leaving its directory? A name that is not there does not leave it.
pub fn resolves_beneath(resolution: &Resolution) -> (answer: Result<bool, String>)
    ensures
        match *resolution {
            Resolution::Opened => answer is Ok && answer->Ok_0,
            Resolution::Escapes => answer is Ok && !answer->Ok_0,
            Resolution::Missing => answer is Ok && answer->Ok_0,
            Resolution::Failed { error } => answer is Err && answer->Err_0@ == error@,
        },
{
    match resolution {
        Resolution::Opened => Ok(true),
        Resolution::Escapes => Ok(false),
        Resolution::Missing => Ok(true),
        Resolution::Failed { error } => Err(error.clone()),
    }
}

} // verus!
