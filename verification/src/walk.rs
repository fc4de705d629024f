//! Going through a tree, to take its inventory or to copy it.
//!
//! A [`Walk`] says what to do next and is told what came of it. It never asks for a symlink to be
//! followed, and never for anything in the source to be written.

use std::collections::HashMap;

use vstd::prelude::*;

use crate::fsops::{
    by_path, digest_view, totals, Entry, EntryView, Kind, KindView, Manifest, Stamp,
};
use crate::links::{file_number, lemma_file_number, number_of};
use crate::path::{shown, under, FilePath};
use crate::reasons::{
    already_exists, already_exists_text, one_contains_the_other, one_contains_the_other_text,
};
use crate::sort::{in_order, keys_view, lemma_order_of, lemma_some_order, order, order_of};

verus! {

pub const MAX_DEPTH: usize = 128;

/// What is found at a path, links not followed.
#[derive(Debug)]
pub enum Found {
    Dir,
    File { size: u64, links: u64, identity: (u64, u64), allocated: u64, digest: Option<[u8; 32]> },
    Symlink { target: FilePath },
    /// A socket, a pipe or a device node.
    Other,
}

#[derive(Debug)]
pub struct Facts {
    pub mode: u32,
    pub mtime: Option<Stamp>,
    pub found: Found,
}

pub enum FoundView {
    Dir,
    File { size: u64, links: u64, identity: (u64, u64), allocated: u64, digest: Option<Seq<u8>> },
    Symlink { target: Seq<u8> },
    Other,
}

pub struct FactsView {
    pub mode: u32,
    pub mtime: Option<Stamp>,
    pub found: FoundView,
}

impl View for Facts {
    type V = FactsView;

    open spec fn view(&self) -> FactsView {
        FactsView {
            mode: self.mode,
            mtime: self.mtime,
            found: match self.found {
                Found::Dir => FoundView::Dir,
                Found::File { size, links, identity, allocated, digest } => FoundView::File {
                    size,
                    links,
                    identity,
                    allocated,
                    digest: digest_view(digest),
                },
                Found::Symlink { target } => FoundView::Symlink { target: target@ },
                Found::Other => FoundView::Other,
            },
        }
    }
}

/// One thing that is still to be done.
#[derive(Debug)]
pub enum Task {
    /// Read the names in a directory.
    List { rel: FilePath, depth: usize },
    /// Look at what is at a path.
    Examine { rel: FilePath, depth: usize },
    /// Make the copy of a directory.
    MakeDir { rel: FilePath },
    /// Make the copy of a symlink.
    MakeLink { rel: FilePath, target: FilePath },
    /// Copy the contents of a file.
    CopyFile {
        rel: FilePath,
        mode: u32,
        mtime: Option<Stamp>,
        size: u64,
        links: u64,
        identity: (u64, u64),
        allocated: u64,
    },
    /// Give a file that was copied already another name.
    LinkFile { first: FilePath, rel: FilePath, size: u64 },
    /// Set the permissions and times of a copied directory. Writing its children moves its own
    /// modification time, so this comes after them.
    CloseDir { rel: FilePath, mode: u32 },
}

pub enum TaskView {
    List { rel: Seq<u8>, depth: int },
    Examine { rel: Seq<u8>, depth: int },
    MakeDir { rel: Seq<u8> },
    MakeLink { rel: Seq<u8>, target: Seq<u8> },
    CopyFile {
        rel: Seq<u8>,
        mode: u32,
        mtime: Option<Stamp>,
        size: u64,
        links: u64,
        identity: (u64, u64),
        allocated: u64,
    },
    LinkFile { first: Seq<u8>, rel: Seq<u8>, size: u64 },
    CloseDir { rel: Seq<u8>, mode: u32 },
}

impl TaskView {
    /// The directory that is to be listed.
    pub open spec fn listed(self) -> Seq<u8> {
        match self {
            TaskView::List { rel, .. } => rel,
            _ => Seq::empty(),
        }
    }

    pub open spec fn lists_too_deep(self) -> bool {
        match self {
            TaskView::List { depth, .. } => depth > MAX_DEPTH,
            _ => false,
        }
    }
}

impl View for Task {
    type V = TaskView;

    open spec fn view(&self) -> TaskView {
        match *self {
            Task::List { rel, depth } => TaskView::List { rel: rel@, depth: depth as int },
            Task::Examine { rel, depth } => TaskView::Examine { rel: rel@, depth: depth as int },
            Task::MakeDir { rel } => TaskView::MakeDir { rel: rel@ },
            Task::MakeLink { rel, target } => TaskView::MakeLink { rel: rel@, target: target@ },
            Task::CopyFile { rel, mode, mtime, size, links, identity, allocated } => TaskView::CopyFile {
                rel: rel@,
                mode,
                mtime,
                size,
                links,
                identity,
                allocated,
            },
            Task::LinkFile { first, rel, size } => TaskView::LinkFile { first: first@, rel: rel@, size },
            Task::CloseDir { rel, mode } => TaskView::CloseDir { rel: rel@, mode },
        }
    }
}

pub open spec fn tasks_view(list: Seq<Task>) -> Seq<TaskView> {
    Seq::new(list.len(), |i: int| list[i]@)
}

/// A file with more than one name, and the first name it was copied under.
#[derive(Debug)]
pub struct First {
    pub identity: (u64, u64),
    pub rel: FilePath,
    pub digest: [u8; 32],
}

pub struct FirstView {
    pub identity: (u64, u64),
    pub rel: Seq<u8>,
    pub digest: Seq<u8>,
}

pub open spec fn firsts_view(list: Seq<First>) -> Seq<FirstView> {
    Seq::new(
        list.len(),
        |i: int|
            FirstView { identity: list[i].identity, rel: list[i].rel@, digest: list[i].digest@ },
    )
}

/// The entry of the table for a file.
pub open spec fn first_of(firsts: Seq<FirstView>, identity: (u64, u64)) -> Option<FirstView>
    decreases firsts.len(),
{
    if firsts.len() == 0 {
        None
    } else if firsts.last().identity == identity {
        Some(firsts.last())
    } else {
        first_of(firsts.drop_last(), identity)
    }
}

/// How far a walk has come: what is left to do, the next thing last, and what was recorded.
pub struct WalkView {
    pub root: Seq<u8>,
    pub copying: bool,
    pub tasks: Seq<TaskView>,
    pub entries: Seq<EntryView>,
    pub firsts: Seq<FirstView>,
}

pub struct Walk {
    root: FilePath,
    copying: bool,
    tasks: Vec<Task>,
    manifest: Manifest,
    firsts: Vec<First>,
    slots: HashMap<u128, usize>,
}

/// The children of a directory, in the order of their paths.
pub open spec fn children(rel: Seq<u8>, names: Seq<Seq<u8>>) -> Seq<Seq<u8>> {
    Seq::new(names.len(), |i: int| under(rel, names[i]))
}

pub open spec fn path_keys(paths: Seq<Seq<u8>>) -> Seq<Seq<u32>> {
    Seq::new(paths.len(), |i: int| crate::path::path_key(paths[i]))
}

/// The tasks of looking at each child, the first child last.
pub open spec fn child_tasks(rel: Seq<u8>, depth: int, names: Seq<Seq<u8>>) -> Seq<TaskView> {
    let paths = children(rel, names);
    let places = order_of(path_keys(paths));
    Seq::new(
        places.len(),
        |i: int|
            TaskView::Examine { rel: paths[places[places.len() - 1 - i] as int], depth },
    )
}

pub open spec fn too_deep(root: Seq<u8>, rel: Seq<u8>) -> Seq<char> {
    shown(under(root, rel)) + ": directory nesting is deeper than 128 levels, refusing to continue"@
}

pub open spec fn not_copied(root: Seq<u8>, rel: Seq<u8>) -> Seq<char> {
    shown(under(root, rel))
        + ": not a regular file, directory or symlink. LibraryBridge will not copy sockets, pipes or device nodes, so this tree needs manual attention."@
}

/// What was found at a path, as an entry of the manifest.
pub open spec fn entry_of(rel: Seq<u8>, facts: FactsView) -> EntryView {
    EntryView {
        rel,
        kind: match facts.found {
            FoundView::File { size, links, identity, allocated, digest } => KindView::File {
                size,
                digest,
                links,
                identity,
                allocated,
            },
            FoundView::Symlink { target } => KindView::Symlink { target },
            _ => KindView::Dir,
        },
        mode: facts.mode,
        mtime: facts.mtime,
    }
}

impl WalkView {
    /// The walk before its first step.
    pub open spec fn start(root: Seq<u8>, copying: bool) -> WalkView {
        WalkView {
            root,
            copying,
            tasks: seq![TaskView::List { rel: Seq::empty(), depth: 0 }],
            entries: Seq::empty(),
            firsts: Seq::empty(),
        }
    }

    /// With the next task taken off.
    pub open spec fn popped(self) -> WalkView {
        WalkView { tasks: self.tasks.drop_last(), ..self }
    }

    pub open spec fn pushed(self, task: TaskView) -> WalkView {
        WalkView { tasks: self.tasks.push(task), ..self }
    }

    pub open spec fn recorded(self, entry: EntryView) -> WalkView {
        WalkView { entries: self.entries.push(entry), ..self }
    }

    /// After the names in a directory were read.
    pub open spec fn after_listing(self, names: Seq<Seq<u8>>) -> WalkView {
        match self.tasks.last() {
            TaskView::List { rel, depth } => WalkView {
                tasks: self.tasks.drop_last() + child_tasks(rel, depth, names),
                ..self
            },
            _ => self,
        }
    }

    /// After a look at a path.
    pub open spec fn after_look(self, facts: FactsView) -> WalkView {
        match self.tasks.last() {
            TaskView::Examine { rel, depth } => match facts.found {
                FoundView::Other => self,
                FoundView::Dir => {
                    let recorded = self.popped().recorded(entry_of(rel, facts));
                    let list = TaskView::List { rel, depth: depth + 1 };
                    if self.copying {
                        recorded.pushed(TaskView::CloseDir { rel, mode: facts.mode }).pushed(
                            list,
                        ).pushed(TaskView::MakeDir { rel })
                    } else {
                        recorded.pushed(list)
                    }
                },
                FoundView::Symlink { target } => {
                    let recorded = self.popped().recorded(entry_of(rel, facts));
                    if self.copying {
                        recorded.pushed(TaskView::MakeLink { rel, target })
                    } else {
                        recorded
                    }
                },
                FoundView::File { size, links, identity, allocated, digest } => {
                    if !self.copying {
                        self.popped().recorded(entry_of(rel, facts))
                    } else if links > 1 && first_of(self.firsts, identity) is Some {
                        let first = first_of(self.firsts, identity)->0;
                        self.popped().recorded(
                            EntryView {
                                rel,
                                kind: KindView::File {
                                    size,
                                    digest: Some(first.digest),
                                    links,
                                    identity,
                                    allocated,
                                },
                                mode: facts.mode,
                                mtime: facts.mtime,
                            },
                        ).pushed(TaskView::LinkFile { first: first.rel, rel, size })
                    } else {
                        self.popped().pushed(
                            TaskView::CopyFile {
                                rel,
                                mode: facts.mode,
                                mtime: facts.mtime,
                                size,
                                links,
                                identity,
                                allocated,
                            },
                        )
                    }
                },
            },
            _ => self,
        }
    }

    /// After the contents of a file were copied.
    pub open spec fn after_copy(self, digest: Seq<u8>) -> WalkView {
        match self.tasks.last() {
            TaskView::CopyFile { rel, mode, mtime, size, links, identity, allocated } => {
                let recorded = self.popped().recorded(
                    EntryView {
                        rel,
                        kind: KindView::File {
                            size,
                            digest: Some(digest),
                            links,
                            identity,
                            allocated,
                        },
                        mode,
                        mtime,
                    },
                );
                if links > 1 {
                    WalkView {
                        firsts: recorded.firsts.push(FirstView { identity, rel, digest }),
                        ..recorded
                    }
                } else {
                    recorded
                }
            },
            _ => self,
        }
    }
}

impl View for Walk {
    type V = WalkView;

    closed spec fn view(&self) -> WalkView {
        WalkView {
            root: self.root@,
            copying: self.copying,
            tasks: tasks_view(self.tasks@),
            entries: self.manifest@,
            firsts: firsts_view(self.firsts@),
        }
    }
}

proof fn lemma_first_of(firsts: Seq<FirstView>, identity: (u64, u64), slot: int)
    requires
        0 <= slot < firsts.len(),
        firsts[slot].identity == identity,
        forall|a: int, b: int|
            0 <= a < b < firsts.len() ==> (#[trigger] firsts[a]).identity != (#[trigger] firsts[b]).identity,
    ensures
        first_of(firsts, identity) == Some(firsts[slot]),
    decreases firsts.len(),
{
    if slot < firsts.len() - 1 {
        lemma_first_of(firsts.drop_last(), identity, slot);
    }
}

proof fn lemma_first_of_none(firsts: Seq<FirstView>, identity: (u64, u64))
    requires
        forall|a: int| 0 <= a < firsts.len() ==> (#[trigger] firsts[a]).identity != identity,
    ensures
        first_of(firsts, identity) is None,
    decreases firsts.len(),
{
    if firsts.len() > 0 {
        lemma_first_of_none(firsts.drop_last(), identity);
    }
}

proof fn lemma_tasks_push(list: Seq<Task>, last: Task)
    ensures
        tasks_view(list.push(last)) == tasks_view(list).push(last@),
{
    assert(tasks_view(list.push(last)) =~= tasks_view(list).push(last@));
}

impl Walk {
    /// The parts of the walk fit together.
    pub closed spec fn wf(&self) -> bool {
        &&& self.manifest.adds_up_to(self.manifest@)
        &&& forall|i: int|
            0 <= i < self.tasks@.len() ==> match #[trigger] self.tasks@[i] {
                Task::List { depth, .. } => depth <= MAX_DEPTH + 1,
                Task::Examine { depth, .. } => depth <= MAX_DEPTH,
                Task::CopyFile { links, identity, .. } => links > 1 ==> i == self.tasks@.len() - 1
                    && !self.slots@.contains_key(file_number(identity)),
                _ => true,
            }
        &&& forall|n: u128| #[trigger]
            self.slots@.contains_key(n) ==> self.slots@[n] < self.firsts@.len() && file_number(
                self.firsts@[self.slots@[n] as int].identity,
            ) == n
        &&& forall|k: int|
            0 <= k < self.firsts@.len() ==> self.slots@.contains_key(
                file_number((#[trigger] self.firsts@[k]).identity),
            )
        &&& forall|a: int, b: int|
            0 <= a < b < self.firsts@.len() ==> (#[trigger] self.firsts@[a]).identity != (
            #[trigger] self.firsts@[b]).identity
    }

    /// A walk through the tree at `root`: to copy it, or only to take its inventory.
    pub fn new(root: &FilePath, copying: bool) -> (walk: Walk)
        ensures
            walk.wf(),
            walk@ == WalkView::start(root@, copying),
    {
        broadcast use vstd::std_specs::hash::group_hash_axioms;

        let none: Vec<u8> = Vec::new();
        assert(none@ =~= Seq::<u8>::empty());
        let walk = Walk {
            root: root.copy(),
            copying,
            tasks: vec![Task::List { rel: FilePath { bytes: none }, depth: 0 }],
            manifest: Manifest::new(),
            firsts: Vec::new(),
            slots: HashMap::new(),
        };
        assert(walk@.tasks =~= WalkView::start(root@, copying).tasks);
        assert(walk@.firsts =~= Seq::empty());
        walk
    }

    /// What to do next: nothing when the walk is through, and an error where directories stand too deep
    /// inside one another.
    pub fn next(&self) -> (task: Result<Option<&Task>, String>)
        requires
            self.wf(),
        ensures
            match task {
                Ok(None) => self@.tasks.len() == 0,
                Ok(Some(task)) => self@.tasks.len() > 0 && task@ == self@.tasks.last()
                    && !task@.lists_too_deep(),
                Err(text) => self@.tasks.len() > 0 && self@.tasks.last().lists_too_deep() && text@
                    == too_deep(self@.root, self@.tasks.last().listed()),
            },
    {
        if self.tasks.len() == 0 {
            return Ok(None);
        }
        assert(self@.tasks.last() == self.tasks@.last()@);
        let task = &self.tasks[self.tasks.len() - 1];
        if let Task::List { rel, depth } = task {
            if *depth > MAX_DEPTH {
                let mut text = self.root.join(rel).display();
                text.push_str(
                    ": directory nesting is deeper than 128 levels, refusing to continue",
                );
                return Err(text);
            }
        }
        Ok(Some(task))
    }

    /// Hands in the names in the directory that was to be listed.
    pub fn listed(&mut self, names: &Vec<Vec<u8>>)
        requires
            old(self).wf(),
            old(self)@.tasks.len() > 0,
            old(self)@.tasks.last() is List,
            !old(self)@.tasks.last().lists_too_deep(),
        ensures
            final(self).wf(),
            final(self)@ == old(self)@.after_listing(names_view(names@)),
    {
        let ghost before = self@;
        let ghost given = names_view(names@);
        let ghost was = self.tasks@;
        assert(was.len() > 0);
        assert(before.tasks.last() == was.last()@);
        let task = self.tasks.pop();
        let ghost left = self.tasks@;
        assert(tasks_view(left) =~= before.tasks.drop_last());
        if let Some(Task::List { rel, depth }) = task {
            let mut paths: Vec<FilePath> = Vec::new();
            let mut keys: Vec<Vec<u32>> = Vec::new();
            let mut i: usize = 0;
            while i < names.len()
                invariant
                    i <= names.len(),
                    paths@.len() == i,
                    keys@.len() == i,
                    forall|k: int| 0 <= k < i ==> (#[trigger] paths@[k])@ == under(rel@, names@[k]@),
                    forall|k: int|
                        0 <= k < i ==> (#[trigger] keys@[k])@ == crate::path::path_key(
                            under(rel@, names@[k]@),
                        ),
                decreases names.len() - i,
            {
                let path = rel.join(&FilePath::from_bytes(names[i].as_slice()));
                keys.push(path.key());
                paths.push(path);
                i = i + 1;
            }
            let ghost kids = children(rel@, given);
            assert(keys_view(keys@) =~= path_keys(kids));
            let places = order(&keys);
            proof {
                lemma_order_of(path_keys(kids), places@);
            }
            let ghost wanted = child_tasks(rel@, depth as int, given);
            let mut n: usize = 0;
            assert(tasks_view(self.tasks@) =~= tasks_view(left) + wanted.take(0));
            while n < places.len()
                invariant
                    n <= places.len(),
                    paths@.len() == kids.len(),
                    forall|k: int| 0 <= k < paths@.len() ==> (#[trigger] paths@[k])@ == kids[k],
                    in_order(path_keys(kids), places@),
                    places@ == order_of(path_keys(kids)),
                    kids == children(rel@, given),
                    wanted == child_tasks(rel@, depth as int, given),
                    depth <= MAX_DEPTH,
                    self.root == old(self).root,
                    self.copying == old(self).copying,
                    self.manifest == old(self).manifest,
                    self.firsts == old(self).firsts,
                    self.slots == old(self).slots,
                    was == old(self).tasks@,
                    was.len() > 0,
                    left == was.drop_last(),
                    tasks_view(self.tasks@) == tasks_view(left) + wanted.take(n as int),
                    self.tasks@.len() == left.len() + n,
                    forall|k: int| 0 <= k < left.len() ==> self.tasks@[k] == left[k],
                    forall|k: int|
                        left.len() <= k < self.tasks@.len() ==> (#[trigger] self.tasks@[k]
                            matches Task::Examine { depth: d, .. } && d == depth),
                decreases places.len() - n,
            {
                let place: usize = places[places.len() - 1 - n];
                assert(places@[places.len() - 1 - n] < path_keys(kids).len());
                let next = Task::Examine { rel: paths[place].copy(), depth };
                proof {
                    lemma_tasks_push(self.tasks@, next);
                    assert(wanted.take(n + 1) =~= wanted.take(n as int).push(wanted[n as int]));
                    assert(tasks_view(left) + wanted.take(n + 1) =~= (tasks_view(left) + wanted.take(
                        n as int,
                    )).push(wanted[n as int]));
                }
                self.tasks.push(next);
                n = n + 1;
            }
            assert(wanted.take(n as int) =~= wanted);
            proof {
                let tasks = self.tasks@;
                assert forall|i: int| 0 <= i < tasks.len() implies match #[trigger] tasks[i] {
                    Task::List { depth, .. } => depth <= MAX_DEPTH + 1,
                    Task::Examine { depth, .. } => depth <= MAX_DEPTH,
                    Task::CopyFile { links, identity, .. } => links > 1 ==> i == tasks.len() - 1
                        && !self.slots@.contains_key(file_number(identity)),
                    _ => true,
                } by {
                    if i < left.len() {
                        assert(tasks[i] == left[i]);
                        assert(left[i] == was[i]);
                    }
                }
            }
        }
    }
}

pub open spec fn names_view(names: Seq<Vec<u8>>) -> Seq<Seq<u8>> {
    Seq::new(names.len(), |i: int| names[i]@)
}

impl FoundView {
    pub open spec fn size(self) -> nat {
        match self {
            FoundView::File { size, .. } => size as nat,
            _ => 0,
        }
    }
}

impl WalkView {
    /// The bytes of the files recorded so far.
    pub open spec fn bytes(self) -> nat {
        totals(self.entries).bytes
    }

    /// The size of the file that is to be copied next.
    pub open spec fn next_size(self) -> nat {
        match self.tasks.last() {
            TaskView::CopyFile { size, .. } => size as nat,
            _ => 0,
        }
    }
}

impl Walk {
    /// Can the total still hold this many bytes more?
    pub fn has_room_for(&self, size: u64) -> (has: bool)
        requires
            self.wf(),
        ensures
            has == (self@.bytes() + size <= u64::MAX),
    {
        size <= u64::MAX - self.manifest.bytes
    }

    fn find_first(&self, identity: (u64, u64)) -> (slot: Option<usize>)
        requires
            self.wf(),
        ensures
            match slot {
                Some(slot) => slot < self.firsts@.len() && first_of(self@.firsts, identity) == Some(
                    self@.firsts[slot as int],
                ),
                None => first_of(self@.firsts, identity) is None && !self.slots@.contains_key(
                    file_number(identity),
                ),
            },
    {
        broadcast use vstd::std_specs::hash::group_hash_axioms;

        let number = number_of(identity);
        let ghost firsts = self@.firsts;
        assert forall|a: int, b: int| 0 <= a < b < firsts.len() implies (#[trigger] firsts[a]).identity
            != (#[trigger] firsts[b]).identity by {
            assert(self.firsts@[a].identity != self.firsts@[b].identity);
        }
        match self.slots.get(&number) {
            Some(slot) => {
                proof {
                    lemma_file_number(self.firsts@[*slot as int].identity, identity);
                    lemma_first_of(firsts, identity, *slot as int);
                }
                Some(*slot)
            },
            None => {
                proof {
                    assert forall|a: int| 0 <= a < firsts.len() implies (#[trigger] firsts[a]).identity
                        != identity by {
                        assert(self.slots@.contains_key(file_number(self.firsts@[a].identity)));
                    }
                    lemma_first_of_none(firsts, identity);
                }
                None
            },
        }
    }

    /// Hands in what is at the path that was to be looked at. What is no file, directory or symlink
    /// cannot be copied and ends the walk.
    pub fn examined(&mut self, facts: Facts) -> (taken: Result<(), String>)
        requires
            old(self).wf(),
            old(self)@.tasks.len() > 0,
            old(self)@.tasks.last() is Examine,
            old(self)@.bytes() + facts@.found.size() <= u64::MAX,
        ensures
            final(self).wf(),
            final(self)@ == old(self)@.after_look(facts@),
            taken is Err <==> facts@.found is Other,
            taken matches Err(text) ==> text@ == not_copied(
                old(self)@.root,
                old(self)@.tasks.last()->Examine_rel,
            ),
    {
        let ghost before = self@;
        let ghost was = self.tasks@;
        let ghost seen = facts@;
        assert(was.len() > 0);
        assert(before.tasks.last() == was.last()@);
        if let Found::Other = &facts.found {
            if let Task::Examine { rel, .. } = &self.tasks[self.tasks.len() - 1] {
                let mut text = self.root.join(rel).display();
                text.push_str(
                    ": not a regular file, directory or symlink. LibraryBridge will not copy sockets, pipes or device nodes, so this tree needs manual attention.",
                );
                return Err(text);
            }
        }
        let task = self.tasks.pop();
        let ghost left = self.tasks@;
        assert(tasks_view(left) =~= before.tasks.drop_last());
        assert forall|i: int| 0 <= i < left.len() implies left[i] == was[i] by {}
        if let Some(Task::Examine { rel, depth }) = task {
            let mode = facts.mode;
            let mtime = facts.mtime;
            match facts.found {
                Found::Dir => {
                    let entry = Entry { rel: rel.copy(), kind: Kind::Dir, mode, mtime };
                    assert(entry@ == entry_of(rel@, seen));
                    self.manifest.push(entry);
                    let copying = self.copying;
                    if copying {
                        self.add(Task::CloseDir { rel: rel.copy(), mode });
                    }
                    let again = rel.copy();
                    self.add(Task::List { rel, depth: depth + 1 });
                    if copying {
                        self.add(Task::MakeDir { rel: again });
                    }
                },
                Found::Symlink { target } => {
                    let shown_target = target.copy();
                    let entry = Entry {
                        rel: rel.copy(),
                        kind: Kind::Symlink { target: shown_target },
                        mode,
                        mtime,
                    };
                    assert(entry@ == entry_of(rel@, seen));
                    self.manifest.push(entry);
                    if self.copying {
                        self.add(Task::MakeLink { rel, target });
                    }
                },
                Found::File { size, links, identity, allocated, digest } => {
                    if !self.copying {
                        let entry = Entry {
                            rel,
                            kind: Kind::File { size, digest, links, identity, allocated },
                            mode,
                            mtime,
                        };
                        assert(entry@ == entry_of(rel@, seen));
                        self.manifest.push(entry);
                    } else {
                        let slot: Option<usize> = if links > 1 {
                            self.find_first(identity)
                        } else {
                            None
                        };
                        match slot {
                            Some(slot) => {
                                let first = self.firsts[slot].rel.copy();
                                let digest = self.firsts[slot].digest;
                                self.manifest.push(
                                    Entry {
                                        rel: rel.copy(),
                                        kind: Kind::File {
                                            size,
                                            digest: Some(digest),
                                            links,
                                            identity,
                                            allocated,
                                        },
                                        mode,
                                        mtime,
                                    },
                                );
                                self.add(Task::LinkFile { first, rel, size });
                            },
                            None => {
                                self.add(
                                    Task::CopyFile {
                                        rel,
                                        mode,
                                        mtime,
                                        size,
                                        links,
                                        identity,
                                        allocated,
                                    },
                                );
                            },
                        }
                    }
                },
                Found::Other => {},
            }
        }
        Ok(())
    }

    fn add(&mut self, task: Task)
        requires
            old(self).wf(),
            old(self).tasks@.len() > 0 ==> !(old(self).tasks@.last() matches Task::CopyFile { links, .. } && links
                > 1),
            match task {
                Task::List { depth, .. } => depth <= MAX_DEPTH + 1,
                Task::Examine { depth, .. } => depth <= MAX_DEPTH,
                Task::CopyFile { links, identity, .. } => links > 1 ==> !old(self).slots@.contains_key(
                    file_number(identity),
                ),
                _ => true,
            },
        ensures
            final(self).wf(),
            final(self)@ == old(self)@.pushed(task@),
            final(self).tasks@ == old(self).tasks@.push(task),
            final(self).slots == old(self).slots,
            final(self).firsts == old(self).firsts,
            final(self).copying == old(self).copying,
            final(self).manifest == old(self).manifest,
    {
        proof {
            lemma_tasks_push(self.tasks@, task);
        }
        self.tasks.push(task);
    }

    /// Says that the contents of the file that was to be copied have been, and what their digest is.
    pub fn copied(&mut self, digest: [u8; 32])
        requires
            old(self).wf(),
            old(self)@.tasks.len() > 0,
            old(self)@.tasks.last() is CopyFile,
            old(self)@.bytes() + old(self)@.next_size() <= u64::MAX,
        ensures
            final(self).wf(),
            final(self)@ == old(self)@.after_copy(digest@),
    {
        broadcast use vstd::std_specs::hash::group_hash_axioms;

        let ghost before = self@;
        let ghost was = self.tasks@;
        assert(was.len() > 0);
        assert(before.tasks.last() == was.last()@);
        assert(was[was.len() - 1] == was.last());
        let task = self.tasks.pop();
        let ghost left = self.tasks@;
        assert(tasks_view(left) =~= before.tasks.drop_last());
        assert forall|i: int| 0 <= i < left.len() implies left[i] == was[i] by {}
        if let Some(Task::CopyFile { rel, mode, mtime, size, links, identity, allocated }) = task {
            let name = rel.copy();
            self.manifest.push(
                Entry {
                    rel,
                    kind: Kind::File { size, digest: Some(digest), links, identity, allocated },
                    mode,
                    mtime,
                },
            );
            if links > 1 {
                let ghost old_firsts = self.firsts@;
                let slot: usize = self.firsts.len();
                let first = First { identity, rel: name, digest };
                let ghost view = FirstView { identity, rel: first.rel@, digest: digest@ };
                self.firsts.push(first);
                assert(firsts_view(self.firsts@) =~= firsts_view(old_firsts).push(view));
                let number = number_of(identity);
                self.slots.insert(number, slot);
                proof {
                    assert forall|a: int, b: int| 0 <= a < b < self.firsts@.len() implies (
                    #[trigger] self.firsts@[a]).identity != (#[trigger] self.firsts@[b]).identity by {
                        if b < old_firsts.len() {
                            assert(old_firsts[a].identity != old_firsts[b].identity);
                        } else {
                            assert(old_firsts[a] == self.firsts@[a]);
                            assert(old(self).slots@.contains_key(file_number(old_firsts[a].identity)));
                        }
                    }
                    assert forall|k: int| 0 <= k < self.firsts@.len() implies self.slots@.contains_key(
                        file_number((#[trigger] self.firsts@[k]).identity),
                    ) by {
                        if k < old_firsts.len() {
                            assert(old(self).slots@.contains_key(file_number(old_firsts[k].identity)));
                        }
                    }
                }
            }
        }
    }

    /// Says that what was to be made has been made.
    pub fn made(&mut self)
        requires
            old(self).wf(),
            old(self)@.tasks.len() > 0,
            old(self)@.tasks.last() is MakeDir || old(self)@.tasks.last() is MakeLink || old(
                self,
            )@.tasks.last() is LinkFile || old(self)@.tasks.last() is CloseDir,
        ensures
            final(self).wf(),
            final(self)@ == old(self)@.popped(),
    {
        let ghost was = self.tasks@;
        assert(was.len() > 0);
        let task = self.tasks.pop();
        let ghost left = self.tasks@;
        assert(tasks_view(left) =~= tasks_view(was).drop_last());
        assert forall|i: int| 0 <= i < left.len() implies left[i] == was[i] by {}
    }

    /// The manifest of a walk that is through, in the order of the paths.
    pub fn finish(self) -> (manifest: Manifest)
        requires
            self.wf(),
            self@.tasks.len() == 0,
        ensures
            manifest@ == by_path(self@.entries),
            manifest.adds_up_to(self@.entries),
    {
        let mut manifest = self.manifest;
        manifest.sort();
        manifest
    }
}

/// The names in each directory of a tree.
pub type Names = spec_fn(Seq<u8>) -> Seq<Seq<u8>>;

/// Starts a walk over a tree that follows no symlink and records every entry.
pub fn inventory(root: &FilePath) -> (walk: Walk)
    ensures
        walk.wf(),
        walk@ == WalkView::start(root@, false),
{
    Walk::new(root, false)
}

/// Starts the copy of a tree, where neither tree holds the other and nothing stands at the destination.
/// Containment is judged by real directories: `holds` and `held` say whether the source contains the
/// destination and the destination the source.
pub fn copy_tree(
    source: &FilePath,
    target: &FilePath,
    holds: Result<bool, String>,
    held: Result<bool, String>,
    exists: bool,
) -> (started: Result<Walk, String>)
    ensures
        started matches Ok(walk) ==> walk.wf() && walk@ == WalkView::start(source@, true),
        started is Ok <==> holds == Ok::<bool, String>(false) && held == Ok::<bool, String>(false) && !exists,
        started matches Err(text) ==> text@ == copy_refusal(source@, target@, holds, held),
{
    match holds {
        Err(error) => Err(error),
        Ok(true) => Err(one_contains_the_other(source, target)),
        Ok(false) => match held {
            Err(error) => Err(error),
            Ok(true) => Err(one_contains_the_other(source, target)),
            Ok(false) => if exists {
                Err(already_exists(target))
            } else {
                Ok(Walk::new(source, true))
            },
        },
    }
}

pub open spec fn copy_refusal(
    source: Seq<u8>,
    target: Seq<u8>,
    holds: Result<bool, String>,
    held: Result<bool, String>,
) -> Seq<char> {
    match (holds, held) {
        (Err(error), _) => error@,
        (Ok(true), _) => one_contains_the_other_text(source, target),
        (Ok(false), Err(error)) => error@,
        (Ok(false), Ok(true)) => one_contains_the_other_text(source, target),
        (Ok(false), Ok(false)) => already_exists_text(target),
    }
}

/// Total size of a tree, following nothing.
pub fn tree_size(walk: Walk) -> (bytes: u64)
    requires
        walk.wf(),
        walk@.tasks.len() == 0,
    ensures
        bytes == totals(walk@.entries).bytes,
{
    walk.finish().bytes
}

impl WalkView {
    pub open spec fn has_entry(self, rel: Seq<u8>) -> bool {
        exists|i: int| 0 <= i < self.entries.len() && (#[trigger] self.entries[i]).rel == rel
    }

    pub open spec fn has_dir(self, rel: Seq<u8>) -> bool {
        exists|i: int|
            0 <= i < self.entries.len() && (#[trigger] self.entries[i]).rel == rel
                && self.entries[i].is_dir()
    }

    /// Is it the root, or a directory that was recorded?
    pub open spec fn knows_dir(self, rel: Seq<u8>) -> bool {
        rel == Seq::<u8>::empty() || self.has_dir(rel)
    }

    /// Is the directory still to be listed?
    pub open spec fn will_list(self, rel: Seq<u8>) -> bool {
        exists|i: int|
            0 <= i < self.tasks.len() && self.tasks[i] is List && (#[trigger] self.tasks[i])->List_rel
                == rel
    }

    /// Is the path still to be looked at or copied?
    pub open spec fn will_visit(self, rel: Seq<u8>) -> bool {
        exists|i: int| 0 <= i < self.tasks.len() && (#[trigger] self.tasks[i]).visits(rel)
    }

    /// Each name in the directory was recorded or will be visited.
    pub open spec fn keeps_names(self, dir: Seq<u8>, names: Seq<Seq<u8>>) -> bool {
        forall|k: int|
            0 <= k < names.len() ==> self.has_entry(under(dir, #[trigger] names[k]))
                || self.will_visit(under(dir, names[k]))
    }

    /// Nothing in the tree is lost: of each directory that the walk knows, the listing is still to
    /// come, or each name in it was recorded or will be visited.
    pub open spec fn misses_nothing(self, names: Names) -> bool {
        forall|dir: Seq<u8>| #[trigger]
            self.knows_dir(dir) ==> self.will_list(dir) || self.keeps_names(dir, names(dir))
    }

    /// Only the root and what was seen to be a directory is listed, so no link is followed.
    pub open spec fn follows_no_link(self) -> bool {
        forall|i: int|
            0 <= i < self.tasks.len() && (#[trigger] self.tasks[i]) is List ==> self.tasks[i]->List_rel
                == Seq::<u8>::empty() || self.has_dir(self.tasks[i]->List_rel)
    }
}

impl TaskView {
    pub open spec fn visits(self, rel: Seq<u8>) -> bool {
        match self {
            TaskView::Examine { rel: r, .. } => r == rel,
            TaskView::CopyFile { rel: r, .. } => r == rel,
            _ => false,
        }
    }
}

/// A walk that has not begun has missed nothing and followed no link.
pub proof fn law_start_misses_nothing(root: Seq<u8>, copying: bool, names: Names)
    ensures
        WalkView::start(root, copying).misses_nothing(names),
        WalkView::start(root, copying).follows_no_link(),
{
    let walk = WalkView::start(root, copying);
    assert(walk.tasks[0]->List_rel == Seq::<u8>::empty());
    assert(walk.will_list(Seq::empty()));
}

/// Listing a directory misses nothing and follows no link.
pub proof fn law_listing_misses_nothing(walk: WalkView, names: Names)
    requires
        walk.tasks.len() > 0,
        walk.tasks.last() is List,
        walk.misses_nothing(names),
        walk.follows_no_link(),
        names(walk.tasks.last().listed()).len() <= usize::MAX,
    ensures
        walk.after_listing(names(walk.tasks.last().listed())).misses_nothing(names),
        walk.after_listing(names(walk.tasks.last().listed())).follows_no_link(),
{
    let dir = walk.tasks.last()->List_rel;
    let depth = walk.tasks.last()->List_depth;
    let given = names(dir);
    let next = walk.after_listing(given);
    let kids = children(dir, given);
    let more = child_tasks(dir, depth, given);
    let left = walk.tasks.drop_last();
    let places = order_of(path_keys(kids));
    lemma_some_order(path_keys(kids));
    assert(next.keeps_names(dir, given)) by {
        assert forall|k: int| 0 <= k < given.len() implies next.has_entry(
            under(dir, #[trigger] given[k]),
        ) || next.will_visit(under(dir, given[k])) by {
            assert(places.contains(k as usize));
            let at = choose|at: int| 0 <= at < places.len() && places[at] == k as usize;
            let i = places.len() - 1 - at;
            assert(more[i] == TaskView::Examine { rel: kids[k], depth });
            assert(next.tasks[left.len() + i] == more[i]);
            assert(next.tasks[left.len() + i].visits(under(dir, given[k])));
        }
    }
    assert forall|r: Seq<u8>| #[trigger] walk.will_visit(r) implies next.will_visit(r) by {
        let i = choose|i: int| 0 <= i < walk.tasks.len() && (#[trigger] walk.tasks[i]).visits(r);
        assert(next.tasks[i] == walk.tasks[i]);
    }
    assert forall|d: Seq<u8>| #[trigger] next.knows_dir(d) implies next.will_list(
        d,
    ) || next.keeps_names(d, names(d)) by {
        if d != dir {
            assert(walk.knows_dir(d) == next.knows_dir(d));
            if walk.will_list(d) {
                let i = choose|i: int|
                    0 <= i < walk.tasks.len() && walk.tasks[i] is List && (#[trigger] walk.tasks[i])->List_rel
                        == d;
                assert(next.tasks[i] == walk.tasks[i]);
            } else {
                lemma_keeps_names(walk, next, d, names(d));
            }
        }
    }
    assert forall|i: int| 0 <= i < next.tasks.len() && (#[trigger] next.tasks[i]) is List implies next.tasks[i]->List_rel
        == Seq::<u8>::empty() || next.has_dir(next.tasks[i]->List_rel) by {
        if i < left.len() {
            assert(next.tasks[i] == walk.tasks[i]);
            assert(walk.tasks[i] is List);
        } else {
            assert(next.tasks[i] == more[i - left.len()]);
        }
    }
}

/// What one walk keeps of a directory, another keeps that has its entries and visits what it visits.
proof fn lemma_keeps_names(walk: WalkView, next: WalkView, dir: Seq<u8>, names: Seq<Seq<u8>>)
    requires
        walk.keeps_names(dir, names),
        forall|rel: Seq<u8>| #[trigger] walk.has_entry(rel) ==> next.has_entry(rel),
        forall|rel: Seq<u8>| #[trigger]
            walk.will_visit(rel) ==> next.will_visit(rel) || next.has_entry(rel),
    ensures
        next.keeps_names(dir, names),
{
}

/// A walk that has lost no entry and no task but its last, to which it may have put a recorded path
/// in place of a visited one, misses nothing.
proof fn lemma_step_misses_nothing(walk: WalkView, next: WalkView, rel: Seq<u8>, names: Names)
    requires
        walk.tasks.len() > 0,
        walk.tasks.last() !is List,
        walk.misses_nothing(names),
        walk.follows_no_link(),
        walk.tasks.drop_last().is_prefix_of(next.tasks),
        walk.entries.is_prefix_of(next.entries),
        forall|r: Seq<u8>| #[trigger]
            walk.tasks.last().visits(r) ==> next.has_entry(r) || next.will_visit(r),
        forall|i: int|
            walk.entries.len() <= i < next.entries.len() && (#[trigger] next.entries[i]).is_dir()
                ==> next.will_list(next.entries[i].rel),
        forall|i: int|
            walk.tasks.len() - 1 <= i < next.tasks.len() && (#[trigger] next.tasks[i]) is List
                ==> next.has_dir(next.tasks[i]->List_rel),
    ensures
        next.misses_nothing(names),
        next.follows_no_link(),
{
    let left = walk.tasks.drop_last();
    assert forall|i: int| 0 <= i < left.len() implies next.tasks[i] == walk.tasks[i] by {
        assert(next.tasks.subrange(0, left.len() as int)[i] == left[i]);
    }
    assert forall|i: int| 0 <= i < walk.entries.len() implies next.entries[i] == walk.entries[i] by {
        assert(next.entries.subrange(0, walk.entries.len() as int)[i] == walk.entries[i]);
    }
    assert forall|r: Seq<u8>| #[trigger] walk.has_entry(r) implies next.has_entry(r) by {
        let i = choose|i: int| 0 <= i < walk.entries.len() && (#[trigger] walk.entries[i]).rel == r;
        assert(next.entries[i].rel == r);
    }
    assert forall|r: Seq<u8>| #[trigger] walk.will_visit(r) implies next.will_visit(r)
        || next.has_entry(r) by {
        let i = choose|i: int| 0 <= i < walk.tasks.len() && (#[trigger] walk.tasks[i]).visits(r);
        if i < left.len() {
            assert(next.tasks[i].visits(r));
        } else {
            assert(walk.tasks.last().visits(r));
        }
    }
    assert forall|d: Seq<u8>| #[trigger] next.knows_dir(d) implies next.will_list(
        d,
    ) || next.keeps_names(d, names(d)) by {
        if walk.knows_dir(d) {
            if walk.will_list(d) {
                let i = choose|i: int|
                    0 <= i < walk.tasks.len() && walk.tasks[i] is List && (#[trigger] walk.tasks[i])->List_rel
                        == d;
                assert(next.tasks[i] == walk.tasks[i]);
            } else {
                lemma_keeps_names(walk, next, d, names(d));
            }
        } else {
            let i = choose|i: int|
                0 <= i < next.entries.len() && (#[trigger] next.entries[i]).rel == d
                    && next.entries[i].is_dir();
            if i < walk.entries.len() {
                assert(walk.entries[i].rel == d && walk.entries[i].is_dir());
            }
        }
    }
    assert forall|i: int| 0 <= i < next.tasks.len() && (#[trigger] next.tasks[i]) is List implies next.tasks[i]->List_rel
        == Seq::<u8>::empty() || next.has_dir(next.tasks[i]->List_rel) by {
        if i < left.len() {
            assert(walk.tasks[i] is List);
            let d = walk.tasks[i]->List_rel;
            if d != Seq::<u8>::empty() {
                let k = choose|k: int|
                    0 <= k < walk.entries.len() && (#[trigger] walk.entries[k]).rel == d
                        && walk.entries[k].is_dir();
                assert(next.entries[k] == walk.entries[k]);
            }
        }
    }
}

/// Looking at a path misses nothing and follows no link.
pub proof fn law_look_misses_nothing(walk: WalkView, facts: FactsView, names: Names)
    requires
        walk.tasks.len() > 0,
        walk.tasks.last() is Examine,
        walk.misses_nothing(names),
        walk.follows_no_link(),
    ensures
        walk.after_look(facts).misses_nothing(names),
        walk.after_look(facts).follows_no_link(),
{
    let next = walk.after_look(facts);
    let rel = walk.tasks.last()->Examine_rel;
    let left = walk.tasks.drop_last();
    if facts.found !is Other {
        assert(next.tasks.subrange(0, left.len() as int) =~= left);
        assert(next.entries.subrange(0, walk.entries.len() as int) =~= walk.entries);
        assert(next.entries.len() > walk.entries.len() ==> next.entries.last().rel == rel);
        assert(next.entries.len() > walk.entries.len() ==> next.entries[walk.entries.len() as int]
            == next.entries.last());
        if facts.found is Dir {
            let at: int = if walk.copying {
                left.len() as int + 1
            } else {
                left.len() as int
            };
            assert(next.tasks[at] is List && next.tasks[at]->List_rel == rel);
        }
        if next.entries.len() == walk.entries.len() {
            assert(next.tasks[left.len() as int].visits(rel));
        } else {
            assert(next.has_entry(rel));
        }
        lemma_step_misses_nothing(walk, next, rel, names);
    }
}

/// Copying a file misses nothing and follows no link.
pub proof fn law_copy_misses_nothing(walk: WalkView, digest: Seq<u8>, names: Names)
    requires
        walk.tasks.len() > 0,
        walk.tasks.last() is CopyFile,
        walk.misses_nothing(names),
        walk.follows_no_link(),
    ensures
        walk.after_copy(digest).misses_nothing(names),
        walk.after_copy(digest).follows_no_link(),
{
    let next = walk.after_copy(digest);
    let rel = walk.tasks.last()->CopyFile_rel;
    let left = walk.tasks.drop_last();
    assert(next.tasks.subrange(0, left.len() as int) =~= left);
    assert(next.entries.subrange(0, walk.entries.len() as int) =~= walk.entries);
    assert(next.entries[walk.entries.len() as int].rel == rel);
    assert(next.has_entry(rel));
    lemma_step_misses_nothing(walk, next, rel, names);
}

/// Making a directory, a link or another name, or closing a directory, misses nothing and follows no
/// link.
pub proof fn law_making_misses_nothing(walk: WalkView, names: Names)
    requires
        walk.tasks.len() > 0,
        walk.tasks.last() is MakeDir || walk.tasks.last() is MakeLink || walk.tasks.last() is LinkFile
            || walk.tasks.last() is CloseDir,
        walk.misses_nothing(names),
        walk.follows_no_link(),
    ensures
        walk.popped().misses_nothing(names),
        walk.popped().follows_no_link(),
{
    let next = walk.popped();
    assert(next.tasks.subrange(0, next.tasks.len() as int) =~= next.tasks);
    assert(next.entries.subrange(0, walk.entries.len() as int) =~= walk.entries);
    lemma_step_misses_nothing(walk, next, Seq::empty(), names);
}

/// A walk that is through has recorded each name in the root and in each directory it recorded: the
/// whole tree.
pub proof fn law_finished_walk_has_everything(walk: WalkView, names: Names, dir: Seq<u8>, k: int)
    requires
        walk.tasks.len() == 0,
        walk.misses_nothing(names),
        walk.knows_dir(dir),
        0 <= k < names(dir).len(),
    ensures
        walk.has_entry(under(dir, names(dir)[k])),
{
    assert(walk.keeps_names(dir, names(dir)));
    assert(!walk.will_visit(under(dir, names(dir)[k])));
}

/// A file with more than one name is copied once. Every other name is made as another name of that
/// copy, and is recorded with its digest.
pub proof fn law_shared_file_is_copied_once(walk: WalkView, facts: FactsView)
    requires
        walk.copying,
        walk.tasks.len() > 0,
        walk.tasks.last() is Examine,
        facts.found matches FoundView::File { links, identity, .. } && links > 1 && first_of(
            walk.firsts,
            identity,
        ) is Some,
    ensures
        ({
            let rel = walk.tasks.last()->Examine_rel;
            let first = first_of(walk.firsts, facts.found->File_identity)->0;
            let next = walk.after_look(facts);
            &&& next.tasks.last() == TaskView::LinkFile {
                first: first.rel,
                rel,
                size: facts.found->File_size,
            }
            &&& next.entries.last().rel == rel
            &&& next.entries.last().kind->File_digest == Some(first.digest)
            &&& next.firsts == walk.firsts
        }),
{
}

} // verus!
