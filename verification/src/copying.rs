//! What carrying out the copy of a tree makes.
//!
//! A [`crate::walk::Walk`] that copies says what to make. Here what it says is carried out: the tree that is
//! copied stands still meanwhile, and each step makes what it is to make and nothing else.

use vstd::prelude::*;

use crate::fsops::{
    by_path, carried, copy_problems, distinct, given_time, has_copy, has_path, keys_of, law_matching_trees_pass,
    permissions, EntryView, KindView, Stamp,
};
use crate::links::{file_of, names_of, shared_files, sharing};
use crate::path::{is_name, law_join_adds_steps, lemma_name_parts, parts, parts_of, under, PartView};
use crate::sort::{ahead, lemma_before_irreflexive, lemma_some_order, order_of};
use crate::text::split;
use crate::walk::{
    child_tasks, children, entry_of, first_of, law_copy_misses_nothing, law_finished_walk_has_everything,
    law_listing_misses_nothing, law_look_misses_nothing, law_making_misses_nothing, law_start_misses_nothing,
    path_keys, FactsView, FirstView, FoundView, Names, TaskView, WalkView,
};

verus! {

/// A tree that is copied: the names in each directory, what is at each path, and the digest of each file.
pub struct Source {
    pub names: Names,
    pub look: spec_fn(Seq<u8>) -> FactsView,
    pub digest: spec_fn(Seq<u8>) -> Seq<u8>,
}

/// The device and inode of a file.
pub open spec fn number_of(entry: EntryView) -> (u64, u64) {
    match entry.kind {
        KindView::File { identity, .. } => identity,
        _ => (0, 0),
    }
}

/// Does all that is seen of one file under two names agree?
pub open spec fn agrees(source: Source, left: Seq<u8>, right: Seq<u8>) -> bool {
    let a = (source.look)(left);
    let b = (source.look)(right);
    match (a.found, b.found) {
        (
            FoundView::File { size: s, links: l, identity: x, allocated: m, .. },
            FoundView::File { size: t, links: k, identity: y, allocated: n, .. },
        ) => x == y ==> s == t && l == k && m == n && a.mode == b.mode && a.mtime == b.mtime && (source.digest)(
            left,
        ) == (source.digest)(right),
        _ => true,
    }
}

pub open spec fn is_consistent(source: Source) -> bool {
    forall|left: Seq<u8>, right: Seq<u8>| #[trigger] agrees(source, left, right)
}

/// What a path of the source is, its contents with it.
pub open spec fn source_entry(source: Source, rel: Seq<u8>) -> EntryView {
    let facts = (source.look)(rel);
    EntryView {
        kind: match facts.found {
            FoundView::File { size, links, identity, allocated, .. } => KindView::File {
                size,
                digest: Some((source.digest)(rel)),
                links,
                identity,
                allocated,
            },
            _ => entry_of(rel, facts).kind,
        },
        ..entry_of(rel, facts)
    }
}

/// A copy on its way: the walk, and what has been made, in the order in which it was.
pub struct Copy {
    pub walk: WalkView,
    pub made: Seq<EntryView>,
}

pub open spec fn begun(root: Seq<u8>) -> Copy {
    Copy { walk: WalkView::start(root, true), made: Seq::empty() }
}

/// With the permissions and times of a directory set.
pub open spec fn closed(made: Seq<EntryView>, rel: Seq<u8>, mode: u32, mtime: Option<Stamp>) -> Seq<EntryView> {
    Seq::new(
        made.len(),
        |i: int|
            if made[i].rel == rel && made[i].is_dir() {
                EntryView { mode, mtime, ..made[i] }
            } else {
                made[i]
            },
    )
}

/// Is it a new file: does nothing that was made have its number?
pub open spec fn is_new(made: Seq<EntryView>, entry: EntryView) -> bool {
    forall|i: int|
        0 <= i < made.len() && (#[trigger] made[i]).is_file() ==> number_of(made[i]) != number_of(entry)
}

/// What a step makes of a copy.
pub open spec fn copies(source: Source, copy: Copy, now: Copy) -> bool {
    let walk = copy.walk;
    walk.tasks.len() > 0 && match walk.tasks.last() {
        TaskView::List { rel, .. } => {
            &&& now.walk == walk.after_listing((source.names)(rel))
            &&& now.made == copy.made
        },
        TaskView::Examine { rel, .. } => {
            &&& !((source.look)(rel).found is Other)
            &&& now.walk == walk.after_look((source.look)(rel))
            &&& now.made == copy.made
        },
        TaskView::MakeDir { rel } => {
            &&& now.walk == walk.popped()
            &&& now.made == copy.made.push(now.made.last())
            &&& now.made.last().rel == rel
            &&& now.made.last().kind == KindView::Dir
        },
        TaskView::MakeLink { rel, target } => {
            &&& now.walk == walk.popped()
            &&& now.made == copy.made.push(now.made.last())
            &&& now.made.last().rel == rel
            &&& now.made.last().kind == (KindView::Symlink { target })
            &&& now.made.last().mtime == Some(given_time((source.look)(rel).mtime))
        },
        TaskView::CopyFile { rel, mode, size, .. } => {
            let entry = now.made.last();
            &&& now.walk == walk.after_copy((source.digest)(rel))
            &&& now.made == copy.made.push(entry)
            &&& entry.rel == rel
            &&& entry.kind is File
            &&& entry.kind->File_size == size
            &&& entry.kind->File_digest == Some((source.digest)(rel))
            &&& permissions(entry.mode) == permissions(mode)
            &&& entry.mtime == Some(given_time((source.look)(rel).mtime))
            &&& is_new(copy.made, entry)
        },
        TaskView::LinkFile { first, rel, .. } => {
            let entry = now.made.last();
            &&& now.walk == walk.popped()
            &&& now.made == copy.made.push(entry)
            &&& entry.rel == rel
            &&& entry.mtime == Some(given_time((source.look)(rel).mtime))
            &&& forall|k: int|
                0 <= k < copy.made.len() && (#[trigger] copy.made[k]).rel == first ==> entry.kind
                    == copy.made[k].kind && entry.mode == copy.made[k].mode
        },
        TaskView::CloseDir { rel, mode } => {
            &&& now.walk == walk.popped()
            &&& now.made == closed(copy.made, rel, mode, Some(given_time((source.look)(rel).mtime)))
        },
    }
}

/// A task that is not about making something right away.
spec fn is_quiet(task: TaskView) -> bool {
    task is List || task is Examine || task is CloseDir
}

spec fn all_quiet(tasks: Seq<TaskView>) -> bool {
    forall|i: int| 0 <= i < tasks.len() ==> is_quiet(#[trigger] tasks[i])
}

/// Is what was recorded last still to be made?
spec fn is_pending(walk: WalkView) -> bool {
    walk.tasks.len() > 0 && (walk.tasks.last() is MakeDir || walk.tasks.last() is MakeLink
        || walk.tasks.last() is LinkFile)
}

/// Was an entry made as it is in the source? The permissions and times of a directory may still have to be set.
spec fn made_well(entry: EntryView, made: EntryView, tasks: Seq<TaskView>) -> bool {
    made.rel == entry.rel && match (entry.kind, made.kind) {
        (KindView::Dir, KindView::Dir) => {
            ||| made.mode == entry.mode && made.mtime == Some(given_time(entry.mtime))
            ||| tasks.contains(TaskView::CloseDir { rel: entry.rel, mode: entry.mode })
        },
        (KindView::Symlink { target: a }, KindView::Symlink { target: b }) => a == b && made.mtime
            == Some(given_time(entry.mtime)),
        (
            KindView::File { size: a, digest: d, .. },
            KindView::File { size: b, digest: e, .. },
        ) => a == b && d == e && permissions(made.mode) == permissions(entry.mode) && made.mtime
            == Some(given_time(entry.mtime)),
        _ => false,
    }
}

/// Are two entries of the source one file?
spec fn one_file(left: EntryView, right: EntryView) -> bool {
    left.is_linked() && right.is_linked() && number_of(left) == number_of(right)
}

/// Were two entries made one file exactly when they are one in the source?
spec fn shared_well(entries: Seq<EntryView>, made: Seq<EntryView>, i: int, j: int) -> bool {
    entries[i].is_file() && entries[j].is_file() ==> (number_of(made[i]) == number_of(made[j]) <==> i == j
        || one_file(entries[i], entries[j]))
}

/// Is a file that was copied, and has other names, known by the name it was copied under?
spec fn is_first(source: Source, copy: Copy, first: FirstView, k: int) -> bool {
    &&& 0 <= k < copy.made.len()
    &&& copy.walk.entries[k].rel == first.rel
    &&& copy.walk.entries[k].is_linked()
    &&& number_of(copy.walk.entries[k]) == first.identity
    &&& first.digest == (source.digest)(first.rel)
}

spec fn has_first(source: Source, copy: Copy, first: FirstView) -> bool {
    exists|k: int| is_first(source, copy, first, k)
}

spec fn firsts_stand(source: Source, copy: Copy) -> bool {
    let walk = copy.walk;
    &&& forall|i: int|
        0 <= i < walk.firsts.len() ==> has_first(source, copy, #[trigger] walk.firsts[i])
    &&& forall|i: int|
        0 <= i < walk.entries.len() && (#[trigger] walk.entries[i]).is_linked() ==> first_of(
            walk.firsts,
            number_of(walk.entries[i]),
        ) is Some
}

/// Does the next task fit what was recorded and seen?
spec fn next_fits(source: Source, walk: WalkView) -> bool {
    walk.tasks.len() > 0 ==> match walk.tasks.last() {
        TaskView::MakeDir { rel } => walk.entries.len() > 0 && walk.entries.last().rel == rel
            && walk.entries.last().kind == KindView::Dir && walk.tasks.contains(
            TaskView::CloseDir { rel, mode: walk.entries.last().mode },
        ),
        TaskView::MakeLink { rel, target } => walk.entries.len() > 0 && walk.entries.last().rel == rel
            && walk.entries.last().kind == (KindView::Symlink { target }),
        TaskView::LinkFile { first, rel, size } => {
            &&& walk.entries.len() > 0
            &&& walk.entries.last().rel == rel
            &&& walk.entries.last().is_linked()
            &&& first_of(walk.firsts, number_of(walk.entries.last())) is Some
            &&& first_of(walk.firsts, number_of(walk.entries.last()))->0.rel == first
        },
        TaskView::CopyFile { rel, mode, mtime, size, links, identity, allocated } => {
            let facts = (source.look)(rel);
            &&& facts.found is File
            &&& facts.found->File_size == size
            &&& facts.found->File_links == links
            &&& facts.found->File_identity == identity
            &&& facts.found->File_allocated == allocated
            &&& facts.mode == mode
            &&& facts.mtime == mtime
            &&& links > 1 ==> first_of(walk.firsts, identity) is None
        },
        _ => true,
    }
}

/// What holds of a copy at every step.
spec fn sound(source: Source, copy: Copy) -> bool {
    let walk = copy.walk;
    &&& walk.copying
    &&& walk.tasks.len() > 0 ==> all_quiet(walk.tasks.drop_last())
    &&& copy.made.len() == walk.entries.len() - if is_pending(walk) {
        1int
    } else {
        0int
    }
    &&& next_fits(source, walk)
    &&& forall|i: int|
        0 <= i < walk.tasks.len() && (#[trigger] walk.tasks[i]) is CloseDir ==> walk.tasks[i]->CloseDir_mode == (
        source.look)(walk.tasks[i]->CloseDir_rel).mode
    &&& forall|i: int|
        0 <= i < walk.entries.len() ==> (#[trigger] walk.entries[i]) == source_entry(source, walk.entries[i].rel)
    &&& forall|i: int|
        0 <= i < copy.made.len() ==> made_well(walk.entries[i], #[trigger] copy.made[i], walk.tasks)
    &&& forall|i: int, j: int|
        0 <= i < copy.made.len() && 0 <= j < copy.made.len() ==> #[trigger] shared_well(
            walk.entries,
            copy.made,
            i,
            j,
        )
    &&& firsts_stand(source, copy)
}

proof fn lemma_begun_is_sound(source: Source, root: Seq<u8>)
    ensures
        sound(source, begun(root)),
{
}

proof fn lemma_first_is_there(firsts: Seq<FirstView>, identity: (u64, u64))
    ensures
        first_of(firsts, identity) matches Some(first) ==> first.identity == identity && firsts.contains(first),
    decreases firsts.len(),
{
    if firsts.len() > 0 {
        if firsts.last().identity == identity {
            assert(firsts[firsts.len() - 1] == firsts.last());
        } else {
            lemma_first_is_there(firsts.drop_last(), identity);
            if let Some(first) = first_of(firsts.drop_last(), identity) {
                let i = choose|i: int| 0 <= i < firsts.drop_last().len() && firsts.drop_last()[i] == first;
                assert(firsts[i] == first);
            }
        }
    }
}

proof fn lemma_more_firsts(firsts: Seq<FirstView>, more: FirstView, identity: (u64, u64))
    ensures
        first_of(firsts.push(more), identity) == if more.identity == identity {
            Some(more)
        } else {
            first_of(firsts, identity)
        },
{
    assert(firsts.push(more).drop_last() =~= firsts);
}

/// What was known of the files that were copied stays known as more is recorded and made.
proof fn lemma_firsts_kept(source: Source, copy: Copy, now: Copy, first: FirstView)
    requires
        has_first(source, copy, first),
        copy.made.len() <= copy.walk.entries.len() <= now.walk.entries.len(),
        copy.made.len() <= now.made.len(),
        forall|i: int|
            0 <= i < copy.walk.entries.len() ==> now.walk.entries[i] == #[trigger] copy.walk.entries[i],
    ensures
        has_first(source, now, first),
{
    let k = choose|k: int| is_first(source, copy, first, k);
    assert(now.walk.entries[k] == copy.walk.entries[k]);
    assert(is_first(source, now, first, k));
}

proof fn lemma_listing_is_sound(source: Source, copy: Copy, now: Copy)
    requires
        sound(source, copy),
        copies(source, copy, now),
        copy.walk.tasks.last() is List,
    ensures
        sound(source, now),
{
    let tasks = now.walk.tasks;
    let kept = copy.walk.tasks.len() - 1;
    lemma_kept(source, copy, now);
    assert(forall|i: int| kept <= i < tasks.len() ==> (#[trigger] tasks[i]) is Examine);
    if tasks.len() > 0 {
        assert(is_quiet(tasks[tasks.len() - 1]));
        assert forall|i: int| 0 <= i < tasks.len() - 1 implies is_quiet(#[trigger] tasks.drop_last()[i]) by {
            assert(is_quiet(tasks[i]));
        }
    }
}

/// A directory that is to be closed still is once another task is done.
proof fn lemma_still_closes(tasks: Seq<TaskView>, now: Seq<TaskView>, entry: EntryView, made: EntryView)
    requires
        made_well(entry, made, tasks),
        tasks.len() > 0,
        !(tasks.last() is CloseDir),
        tasks.len() - 1 <= now.len(),
        forall|i: int| 0 <= i < tasks.len() - 1 ==> now[i] == #[trigger] tasks[i],
    ensures
        made_well(entry, made, now),
{
    let wanted = TaskView::CloseDir { rel: entry.rel, mode: entry.mode };
    if tasks.contains(wanted) {
        let i = choose|i: int| 0 <= i < tasks.len() && tasks[i] == wanted;
        assert(now[i] == wanted);
    }
}

/// What was recorded and made stays right when a step records `more` entries, leaves what was made, and puts
/// other tasks in place of the one it did.
proof fn lemma_kept(source: Source, copy: Copy, now: Copy)
    requires
        sound(source, copy),
        copy.walk.tasks.len() > 0,
        !(copy.walk.tasks.last() is CloseDir),
        copy.walk.tasks.len() - 1 <= now.walk.tasks.len(),
        forall|i: int|
            0 <= i < copy.walk.tasks.len() - 1 ==> now.walk.tasks[i] == #[trigger] copy.walk.tasks[i],
        copy.walk.entries.len() <= now.walk.entries.len(),
        forall|i: int|
            0 <= i < copy.walk.entries.len() ==> now.walk.entries[i] == #[trigger] copy.walk.entries[i],
        copy.made.len() <= now.made.len(),
        forall|i: int| 0 <= i < copy.made.len() ==> now.made[i] == #[trigger] copy.made[i],
    ensures
        forall|i: int|
            0 <= i < copy.made.len() ==> made_well(now.walk.entries[i], #[trigger] now.made[i], now.walk.tasks),
        forall|i: int, j: int|
            0 <= i < copy.made.len() && 0 <= j < copy.made.len() ==> #[trigger] shared_well(
                now.walk.entries,
                now.made,
                i,
                j,
            ),
        forall|i: int|
            0 <= i < copy.walk.firsts.len() ==> has_first(source, now, #[trigger] copy.walk.firsts[i]),
        forall|i: int|
            0 <= i < copy.walk.entries.len() ==> (#[trigger] now.walk.entries[i]) == source_entry(
                source,
                now.walk.entries[i].rel,
            ),
        forall|i: int| 0 <= i < copy.walk.tasks.len() - 1 ==> is_quiet(#[trigger] now.walk.tasks[i]),
        forall|i: int|
            0 <= i < copy.walk.tasks.len() - 1 && (#[trigger] now.walk.tasks[i]) is CloseDir
                ==> now.walk.tasks[i]->CloseDir_mode == (source.look)(now.walk.tasks[i]->CloseDir_rel).mode,
{
    let walk = copy.walk;
    assert forall|i: int| 0 <= i < copy.made.len() implies made_well(
        now.walk.entries[i],
        #[trigger] now.made[i],
        now.walk.tasks,
    ) by {
        assert(now.made[i] == copy.made[i]);
        assert(now.walk.entries[i] == walk.entries[i]);
        lemma_still_closes(walk.tasks, now.walk.tasks, walk.entries[i], copy.made[i]);
    }
    assert forall|i: int, j: int| 0 <= i < copy.made.len() && 0 <= j < copy.made.len() implies #[trigger] shared_well(
        now.walk.entries,
        now.made,
        i,
        j,
    ) by {
        assert(shared_well(walk.entries, copy.made, i, j));
        assert(now.made[i] == copy.made[i] && now.made[j] == copy.made[j]);
        assert(now.walk.entries[i] == walk.entries[i] && now.walk.entries[j] == walk.entries[j]);
    }
    assert forall|i: int| 0 <= i < walk.firsts.len() implies has_first(source, now, #[trigger] walk.firsts[i]) by {
        lemma_firsts_kept(source, copy, now, walk.firsts[i]);
    }
    assert forall|i: int| 0 <= i < walk.entries.len() implies (#[trigger] now.walk.entries[i]) == source_entry(
        source,
        now.walk.entries[i].rel,
    ) by {
        assert(now.walk.entries[i] == walk.entries[i]);
    }
    assert forall|i: int| 0 <= i < walk.tasks.len() - 1 implies is_quiet(#[trigger] now.walk.tasks[i]) by {
        assert(now.walk.tasks[i] == walk.tasks[i]);
        assert(is_quiet(walk.tasks.drop_last()[i]));
    }
    assert forall|i: int| 0 <= i < walk.tasks.len() - 1 && (#[trigger] now.walk.tasks[i]) is CloseDir implies
        now.walk.tasks[i]->CloseDir_mode == (source.look)(now.walk.tasks[i]->CloseDir_rel).mode by {
        assert(now.walk.tasks[i] == walk.tasks[i]);
    }
}

proof fn lemma_look_is_sound(source: Source, copy: Copy, now: Copy)
    requires
        is_consistent(source),
        sound(source, copy),
        copies(source, copy, now),
        copy.walk.tasks.last() is Examine,
    ensures
        sound(source, now),
{
    let walk = copy.walk;
    let rel = walk.tasks.last()->Examine_rel;
    let facts = (source.look)(rel);
    lemma_kept(source, copy, now);
    let tasks = now.walk.tasks;
    assert(tasks.len() > 0 ==> all_quiet(tasks.drop_last()));
    match facts.found {
        FoundView::Dir => {
            let n = walk.tasks.len() - 1;
            assert(tasks[n] == TaskView::CloseDir { rel, mode: facts.mode });
            assert(now.walk.entries.last() == source_entry(source, rel));
        },
        FoundView::Symlink { target } => {
            assert(now.walk.entries.last() == source_entry(source, rel));
        },
        FoundView::File { size, links, identity, allocated, digest } => {
            if links > 1 && first_of(walk.firsts, identity) is Some {
                let first = first_of(walk.firsts, identity)->0;
                lemma_first_is_there(walk.firsts, identity);
                let i = choose|i: int| 0 <= i < walk.firsts.len() && walk.firsts[i] == first;
                assert(has_first(source, copy, walk.firsts[i]));
                let k = choose|k: int| is_first(source, copy, first, k);
                assert(walk.entries[k] == source_entry(source, first.rel));
                assert(agrees(source, first.rel, rel));
                assert(now.walk.entries.last() == source_entry(source, rel));
            }
        },
        FoundView::Other => {},
    }
}

proof fn lemma_making_is_sound(source: Source, copy: Copy, now: Copy)
    requires
        sound(source, copy),
        copies(source, copy, now),
        copy.walk.tasks.last() is MakeDir || copy.walk.tasks.last() is MakeLink,
    ensures
        sound(source, now),
{
    let walk = copy.walk;
    let n = copy.made.len() as int;
    lemma_kept(source, copy, now);
    assert(now.walk.tasks.len() > 0 ==> is_quiet(now.walk.tasks[now.walk.tasks.len() - 1]));
    assert(now.made[n] == now.made.last());
    assert(now.walk.entries[n] == walk.entries.last());
    if walk.tasks.last() is MakeDir {
        let wanted = TaskView::CloseDir { rel: walk.entries.last().rel, mode: walk.entries.last().mode };
        let i = choose|i: int| 0 <= i < walk.tasks.len() && walk.tasks[i] == wanted;
        assert(now.walk.tasks[i] == wanted);
    }
    assert(made_well(now.walk.entries[n], now.made[n], now.walk.tasks));
    assert forall|i: int, j: int| 0 <= i < now.made.len() && 0 <= j < now.made.len() implies #[trigger] shared_well(
        now.walk.entries,
        now.made,
        i,
        j,
    ) by {
        assert(!now.walk.entries[n].is_file());
    }
}

proof fn lemma_copying_is_sound(source: Source, copy: Copy, now: Copy)
    requires
        sound(source, copy),
        copies(source, copy, now),
        copy.walk.tasks.last() is CopyFile,
    ensures
        sound(source, now),
{
    let walk = copy.walk;
    let n = copy.made.len() as int;
    let entry = now.walk.entries.last();
    lemma_kept(source, copy, now);
    assert(now.walk.tasks.len() > 0 ==> is_quiet(now.walk.tasks[now.walk.tasks.len() - 1]));
    assert(now.made[n] == now.made.last());
    assert(now.walk.entries[n] == entry);
    assert(entry == source_entry(source, entry.rel));
    assert forall|i: int, j: int| 0 <= i < now.made.len() && 0 <= j < now.made.len() implies #[trigger] shared_well(
        now.walk.entries,
        now.made,
        i,
        j,
    ) by {
        lemma_copied_is_new(source, copy, now, i);
        lemma_copied_is_new(source, copy, now, j);
        assert(i < n && j < n ==> shared_well(now.walk.entries, now.made, i, j));
    }
    if entry.is_linked() {
        let first = FirstView { identity: number_of(entry), rel: entry.rel, digest: (source.digest)(entry.rel) };
        assert(now.walk.firsts == walk.firsts.push(first));
        assert(is_first(source, now, first, n));
        assert forall|i: int| 0 <= i < now.walk.firsts.len() implies has_first(
            source,
            now,
            #[trigger] now.walk.firsts[i],
        ) by {
            if i < walk.firsts.len() {
                assert(has_first(source, now, walk.firsts[i]));
            }
        }
    }
    assert forall|i: int| 0 <= i < now.walk.entries.len() && (#[trigger] now.walk.entries[i]).is_linked() implies
        first_of(now.walk.firsts, number_of(now.walk.entries[i])) is Some by {
        if entry.is_linked() {
            let first = FirstView { identity: number_of(entry), rel: entry.rel, digest: (source.digest)(entry.rel) };
            lemma_more_firsts(walk.firsts, first, number_of(now.walk.entries[i]));
        }
        if i < n {
            assert(now.walk.entries[i] == walk.entries[i]);
        }
    }
}

/// A file that is copied is none of those that were copied before, here or there.
proof fn lemma_copied_is_new(source: Source, copy: Copy, now: Copy, i: int)
    requires
        sound(source, copy),
        copies(source, copy, now),
        copy.walk.tasks.last() is CopyFile,
        0 <= i < copy.made.len() ==> made_well(now.walk.entries[i], now.made[i], now.walk.tasks),
    ensures
        0 <= i < copy.made.len() && now.walk.entries[i].is_file() ==> number_of(now.made[i]) != number_of(
            now.made.last(),
        ) && !one_file(now.walk.entries[i], now.walk.entries.last()) && !one_file(
            now.walk.entries.last(),
            now.walk.entries[i],
        ),
{
    if 0 <= i < copy.made.len() && now.walk.entries[i].is_file() {
        assert(now.walk.entries[i] == copy.walk.entries[i]);
        assert(now.made[i] == copy.made[i]);
        assert(copy.made[i].is_file());
    }
}

proof fn lemma_linking_is_sound(source: Source, copy: Copy, now: Copy)
    requires
        is_consistent(source),
        sound(source, copy),
        copies(source, copy, now),
        copy.walk.tasks.last() is LinkFile,
    ensures
        sound(source, now),
{
    let walk = copy.walk;
    let n = copy.made.len() as int;
    let entry = walk.entries.last();
    lemma_kept(source, copy, now);
    assert(now.walk.tasks.len() > 0 ==> is_quiet(now.walk.tasks[now.walk.tasks.len() - 1]));
    assert(now.made[n] == now.made.last());
    assert(now.walk.entries[n] == entry);
    let first = first_of(walk.firsts, number_of(entry))->0;
    lemma_first_is_there(walk.firsts, number_of(entry));
    let at = choose|at: int| 0 <= at < walk.firsts.len() && walk.firsts[at] == first;
    assert(has_first(source, copy, walk.firsts[at]));
    let k = choose|k: int| is_first(source, copy, first, k);
    assert(copy.made[k].rel == first.rel) by {
        assert(made_well(walk.entries[k], copy.made[k], walk.tasks));
    }
    assert(walk.entries[k] == source_entry(source, first.rel));
    assert(entry == source_entry(source, entry.rel));
    assert(agrees(source, first.rel, entry.rel));
    assert(one_file(walk.entries[k], entry));
    assert(made_well(now.walk.entries[n], now.made[n], now.walk.tasks));
    assert forall|i: int, j: int| 0 <= i < now.made.len() && 0 <= j < now.made.len() implies #[trigger] shared_well(
        now.walk.entries,
        now.made,
        i,
        j,
    ) by {
        if i < n && j < n {
            assert(shared_well(now.walk.entries, now.made, i, j));
        } else if i < n {
            assert(shared_well(now.walk.entries, now.made, i, k));
            assert(now.made[k] == copy.made[k]);
        } else if j < n {
            assert(shared_well(now.walk.entries, now.made, k, j));
            assert(now.made[k] == copy.made[k]);
        }
    }
}

proof fn lemma_closing_is_sound(source: Source, copy: Copy, now: Copy)
    requires
        sound(source, copy),
        copies(source, copy, now),
        copy.walk.tasks.last() is CloseDir,
    ensures
        sound(source, now),
{
    let walk = copy.walk;
    let rel = walk.tasks.last()->CloseDir_rel;
    let mode = walk.tasks.last()->CloseDir_mode;
    assert(walk.tasks[walk.tasks.len() - 1] == walk.tasks.last());
    let tasks = now.walk.tasks;
    assert forall|i: int| 0 <= i < tasks.len() implies is_quiet(#[trigger] tasks[i]) by {
        assert(is_quiet(walk.tasks.drop_last()[i]));
    }
    assert forall|i: int| 0 <= i < tasks.len() && (#[trigger] tasks[i]) is CloseDir implies tasks[i]->CloseDir_mode
        == (source.look)(tasks[i]->CloseDir_rel).mode by {
        assert(walk.tasks[i] == tasks[i]);
    }
    assert forall|i: int| 0 <= i < now.made.len() implies made_well(
        now.walk.entries[i],
        #[trigger] now.made[i],
        tasks,
    ) by {
        let entry = walk.entries[i];
        assert(made_well(entry, copy.made[i], walk.tasks));
        assert(entry == source_entry(source, entry.rel));
        let wanted = TaskView::CloseDir { rel: entry.rel, mode: entry.mode };
        if entry.is_dir() && entry.rel != rel && walk.tasks.contains(wanted) {
            let k = choose|k: int| 0 <= k < walk.tasks.len() && walk.tasks[k] == wanted;
            assert(tasks[k] == wanted);
        }
    }
    assert forall|i: int, j: int| 0 <= i < now.made.len() && 0 <= j < now.made.len() implies #[trigger] shared_well(
        now.walk.entries,
        now.made,
        i,
        j,
    ) by {
        assert(shared_well(walk.entries, copy.made, i, j));
        assert(number_of(now.made[i]) == number_of(copy.made[i]));
        assert(number_of(now.made[j]) == number_of(copy.made[j]));
    }
    assert forall|i: int| 0 <= i < walk.firsts.len() implies has_first(source, now, #[trigger] walk.firsts[i]) by {
        lemma_firsts_kept(source, copy, now, walk.firsts[i]);
    }
}

proof fn lemma_step_is_sound(source: Source, copy: Copy, now: Copy)
    requires
        is_consistent(source),
        sound(source, copy),
        copies(source, copy, now),
    ensures
        sound(source, now),
{
    match copy.walk.tasks.last() {
        TaskView::List { .. } => lemma_listing_is_sound(source, copy, now),
        TaskView::Examine { .. } => lemma_look_is_sound(source, copy, now),
        TaskView::MakeDir { .. } => lemma_making_is_sound(source, copy, now),
        TaskView::MakeLink { .. } => lemma_making_is_sound(source, copy, now),
        TaskView::CopyFile { .. } => lemma_copying_is_sound(source, copy, now),
        TaskView::LinkFile { .. } => lemma_linking_is_sound(source, copy, now),
        TaskView::CloseDir { .. } => lemma_closing_is_sound(source, copy, now),
    }
}

/// Do two lists have the same names, and do names that are one file in the first stand for one in the second,
/// and the other way round?
spec fn is_aligned(left: Seq<EntryView>, right: Seq<EntryView>) -> bool {
    &&& left.len() == right.len()
    &&& forall|i: int| 0 <= i < left.len() ==> #[trigger] right[i].rel == left[i].rel
    &&& forall|i: int|
        0 <= i < left.len() ==> (#[trigger] file_of(left[i]) is Some <==> file_of(right[i]) is Some)
    &&& forall|i: int, j: int|
        0 <= i < left.len() && 0 <= j < left.len() && file_of(left[i]) is Some && file_of(left[j]) is Some ==> (
        #[trigger] file_of(left[i]) == #[trigger] file_of(left[j]) <==> file_of(right[i]) == file_of(right[j]))
}

/// Is file `k` of the first list at the same places as file `k` of the second, and at one at least?
spec fn stands_alike(left: Seq<EntryView>, right: Seq<EntryView>, k: int) -> bool {
    &&& forall|i: int|
        0 <= i < left.len() ==> (#[trigger] file_of(left[i]) == Some(shared_files(left)[k]) <==> file_of(right[i])
            == Some(shared_files(right)[k]))
    &&& exists|i: int| 0 <= i < left.len() && #[trigger] file_of(left[i]) == Some(shared_files(left)[k])
}

proof fn lemma_aligned_front(left: Seq<EntryView>, right: Seq<EntryView>)
    requires
        is_aligned(left, right),
        left.len() > 0,
    ensures
        is_aligned(left.drop_last(), right.drop_last()),
{
    let a = left.drop_last();
    let b = right.drop_last();
    assert forall|i: int, j: int|
        0 <= i < a.len() && 0 <= j < a.len() && file_of(a[i]) is Some && file_of(a[j]) is Some implies (
    #[trigger] file_of(a[i]) == #[trigger] file_of(a[j]) <==> file_of(b[i]) == file_of(b[j])) by {
        assert(a[i] == left[i] && a[j] == left[j] && b[i] == right[i] && b[j] == right[j]);
        assert(file_of(left[i]) is Some && file_of(left[j]) is Some);
    }
    assert forall|i: int| 0 <= i < a.len() implies (#[trigger] file_of(a[i]) is Some <==> file_of(b[i]) is Some) by {
        assert(a[i] == left[i] && b[i] == right[i]);
        assert(file_of(left[i]) is Some <==> file_of(right[i]) is Some);
    }
    assert forall|i: int| 0 <= i < a.len() implies #[trigger] b[i].rel == a[i].rel by {
        assert(right[i].rel == left[i].rel);
    }
}

/// Every file with more than one name is among them.
proof fn lemma_shared_files_are_all(entries: Seq<EntryView>)
    ensures
        forall|i: int|
            0 <= i < entries.len() && #[trigger] file_of(entries[i]) is Some ==> shared_files(entries).contains(
                file_of(entries[i])->0,
            ),
    decreases entries.len(),
{
    if entries.len() > 0 {
        let front = entries.drop_last();
        let before = shared_files(front);
        lemma_shared_files_are_all(front);
        assert forall|i: int| 0 <= i < entries.len() && #[trigger] file_of(entries[i]) is Some implies shared_files(
            entries,
        ).contains(file_of(entries[i])->0) by {
            let all = shared_files(entries);
            let file = file_of(entries[i])->0;
            if i < front.len() {
                assert(front[i] == entries[i]);
                assert(file_of(front[i]) is Some);
                assert(before.contains(file));
                let k = choose|k: int| 0 <= k < before.len() && before[k] == file;
                assert(all[k] == file);
            } else if !before.contains(file) {
                assert(all[before.len() as int] == file);
            }
        }
    }
}

proof fn lemma_files_stand_alike(left: Seq<EntryView>, right: Seq<EntryView>)
    requires
        is_aligned(left, right),
    ensures
        shared_files(left).len() == shared_files(right).len(),
        forall|k: int| 0 <= k < shared_files(left).len() ==> #[trigger] stands_alike(left, right, k),
    decreases left.len(),
{
    if left.len() > 0 {
        let a = left.drop_last();
        let b = right.drop_last();
        let n = a.len() as int;
        let fa = shared_files(a);
        let fb = shared_files(b);
        lemma_aligned_front(left, right);
        lemma_files_stand_alike(a, b);
        lemma_shared_files_are_all(a);
        lemma_shared_files_are_all(b);
        assert(forall|i: int| 0 <= i < n ==> a[i] == #[trigger] left[i] && b[i] == right[i]);
        assert(file_of(left[n]) is Some <==> file_of(right[n]) is Some);
        if file_of(left[n]) is Some {
            let x = file_of(left[n])->0;
            let y = file_of(right[n])->0;
            if fa.contains(x) {
                let k = choose|k: int| 0 <= k < fa.len() && fa[k] == x;
                assert(stands_alike(a, b, k));
                let i = choose|i: int| 0 <= i < a.len() && #[trigger] file_of(a[i]) == Some(fa[k]);
                assert(left[i] == a[i]);
                assert(file_of(left[i]) == file_of(left[n]));
                assert(fb[k] == y);
            }
            if fb.contains(y) {
                let k = choose|k: int| 0 <= k < fb.len() && fb[k] == y;
                assert(stands_alike(a, b, k));
                let i = choose|i: int| 0 <= i < a.len() && #[trigger] file_of(a[i]) == Some(fa[k]);
                assert(left[i] == a[i]);
                assert(file_of(left[i]) is Some && file_of(left[n]) is Some);
                assert(fa[k] == x);
            }
            assert(fa.contains(x) <==> fb.contains(y));
        }
        assert forall|k: int| 0 <= k < shared_files(left).len() implies #[trigger] stands_alike(left, right, k) by {
            lemma_file_stands_alike(left, right, k);
        }
    }
}

proof fn lemma_file_stands_alike(left: Seq<EntryView>, right: Seq<EntryView>, k: int)
    requires
        is_aligned(left, right),
        left.len() > 0,
        0 <= k < shared_files(left).len(),
        shared_files(left).len() == shared_files(right).len(),
        shared_files(left.drop_last()).len() == shared_files(right.drop_last()).len(),
        k < shared_files(left.drop_last()).len() ==> stands_alike(left.drop_last(), right.drop_last(), k),
    ensures
        stands_alike(left, right, k),
{
    let a = left.drop_last();
    let b = right.drop_last();
    let n = a.len() as int;
    let x = shared_files(left)[k];
    let y = shared_files(right)[k];
    lemma_shared_files_are_all(a);
    lemma_shared_files_are_all(b);
    if k < shared_files(a).len() {
        assert(x == shared_files(a)[k] && y == shared_files(b)[k]);
        let m = choose|m: int| 0 <= m < a.len() && #[trigger] file_of(a[m]) == Some(x);
        assert(left[m] == a[m] && right[m] == b[m]);
        assert(file_of(left[m]) == Some(x) && file_of(right[m]) == Some(y));
        assert forall|i: int| 0 <= i < left.len() implies (#[trigger] file_of(left[i]) == Some(x) <==> file_of(
            right[i],
        ) == Some(y)) by {
            assert(file_of(left[i]) is Some <==> file_of(right[i]) is Some);
            if file_of(left[i]) is Some {
                assert(file_of(left[i]) == file_of(left[m]) <==> file_of(right[i]) == file_of(right[m]));
            }
        }
    } else {
        assert(file_of(left[n]) == Some(x) && file_of(right[n]) == Some(y));
        assert forall|i: int| 0 <= i < left.len() implies (#[trigger] file_of(left[i]) == Some(x) <==> file_of(
            right[i],
        ) == Some(y)) by {
            assert(file_of(left[i]) is Some <==> file_of(right[i]) is Some);
            if file_of(left[i]) is Some {
                assert(file_of(left[i]) == file_of(left[n]) <==> file_of(right[i]) == file_of(right[n]));
            }
        }
    }
}

proof fn lemma_names_alike(left: Seq<EntryView>, right: Seq<EntryView>, x: (u64, u64), y: (u64, u64))
    requires
        left.len() == right.len(),
        forall|i: int| 0 <= i < left.len() ==> #[trigger] right[i].rel == left[i].rel,
        forall|i: int|
            0 <= i < left.len() ==> (#[trigger] file_of(left[i]) == Some(x) <==> file_of(right[i]) == Some(y)),
    ensures
        names_of(left, x) == names_of(right, y),
    decreases left.len(),
{
    if left.len() > 0 {
        let a = left.drop_last();
        let b = right.drop_last();
        let n = a.len() as int;
        assert forall|i: int| 0 <= i < a.len() implies (#[trigger] file_of(a[i]) == Some(x) <==> file_of(b[i])
            == Some(y)) by {
            assert(file_of(left[i]) == Some(x) <==> file_of(right[i]) == Some(y));
        }
        assert forall|i: int| 0 <= i < a.len() implies #[trigger] b[i].rel == a[i].rel by {
            assert(right[i].rel == left[i].rel);
        }
        lemma_names_alike(a, b, x, y);
        assert(file_of(left[n]) == Some(x) <==> file_of(right[n]) == Some(y));
        assert(right[n].rel == left[n].rel);
    }
}

proof fn lemma_aligned_share_alike(left: Seq<EntryView>, right: Seq<EntryView>)
    requires
        is_aligned(left, right),
    ensures
        sharing(left) == sharing(right),
{
    let fa = shared_files(left);
    let fb = shared_files(right);
    lemma_files_stand_alike(left, right);
    assert forall|k: int| 0 <= k < fa.len() implies names_of(left, #[trigger] fa[k]) == names_of(right, fb[k]) by {
        assert(stands_alike(left, right, k));
        lemma_names_alike(left, right, fa[k], fb[k]);
    }
    assert(Seq::new(fa.len(), |i: int| names_of(left, fa[i])) =~= Seq::new(fb.len(), |i: int| names_of(right, fb[i])));
}

/// A task that is about a path that was not recorded yet.
spec fn is_visit(task: TaskView) -> bool {
    task is Examine || task is CopyFile
}

spec fn task_parts(task: TaskView) -> Seq<PartView> {
    match task {
        TaskView::Examine { rel, .. } => parts(rel),
        TaskView::CopyFile { rel, .. } => parts(rel),
        TaskView::List { rel, .. } => parts(rel),
        _ => Seq::empty(),
    }
}

/// The root, or a path that was recorded.
spec fn is_known(entries: Seq<EntryView>, path: Seq<PartView>) -> bool {
    path.len() == 0 || exists|i: int| 0 <= i < entries.len() && parts(#[trigger] entries[i].rel) == path
}

/// Is it a path below one that was recorded?
spec fn is_rooted(entries: Seq<EntryView>, path: Seq<PartView>) -> bool {
    path.len() > 0 && is_known(entries, path.drop_last())
}

/// Is it no name in the directory?
spec fn is_elsewhere(path: Seq<PartView>, dir: Seq<PartView>) -> bool {
    path.len() > 0 ==> path.drop_last() != dir
}

/// No path is recorded or to be looked at twice, and no directory is to be listed of which a name is known.
spec fn is_apart(walk: WalkView) -> bool {
    let tasks = walk.tasks;
    let entries = walk.entries;
    &&& distinct(entries)
    &&& forall|i: int, j: int|
        0 <= i < j < tasks.len() && is_visit(#[trigger] tasks[i]) && is_visit(#[trigger] tasks[j]) ==> task_parts(
            tasks[i],
        ) != task_parts(tasks[j])
    &&& forall|i: int, j: int|
        0 <= i < entries.len() && 0 <= j < tasks.len() && is_visit(#[trigger] tasks[j]) ==> parts(
            #[trigger] entries[i].rel,
        ) != task_parts(tasks[j])
    &&& forall|i: int, j: int|
        0 <= i < tasks.len() && 0 <= j < tasks.len() && is_visit(#[trigger] tasks[i]) && (#[trigger] tasks[j]) is List
            ==> is_elsewhere(task_parts(tasks[i]), task_parts(tasks[j]))
    &&& forall|i: int, j: int|
        0 <= i < entries.len() && 0 <= j < tasks.len() && (#[trigger] tasks[j]) is List ==> is_elsewhere(
            parts(#[trigger] entries[i].rel),
            task_parts(tasks[j]),
        )
    &&& forall|i: int, j: int|
        0 <= i < j < tasks.len() && (#[trigger] tasks[i]) is List && (#[trigger] tasks[j]) is List ==> task_parts(
            tasks[i],
        ) != task_parts(tasks[j])
    &&& forall|i: int|
        0 <= i < tasks.len() && (#[trigger] tasks[i]) is List ==> is_known(entries, task_parts(tasks[i]))
    &&& forall|i: int|
        0 <= i < tasks.len() && is_visit(#[trigger] tasks[i]) ==> is_rooted(entries, task_parts(tasks[i]))
    &&& forall|i: int| 0 <= i < entries.len() ==> is_rooted(entries, parts(#[trigger] entries[i].rel))
}

/// Are the names in each directory names, and does none stand there twice?
pub open spec fn names_differ(names: Names) -> bool {
    &&& forall|dir: Seq<u8>| (#[trigger] names(dir)).len() <= usize::MAX
    &&& forall|dir: Seq<u8>, i: int| 0 <= i < names(dir).len() ==> is_name(#[trigger] names(dir)[i])
    &&& forall|dir: Seq<u8>, i: int, j: int|
        0 <= i < j < names(dir).len() ==> #[trigger] names(dir)[i] != #[trigger] names(dir)[j]
}

proof fn lemma_start_is_apart(root: Seq<u8>)
    ensures
        is_apart(WalkView::start(root, true)),
{
    let walk = WalkView::start(root, true);
    let none = Seq::<u8>::empty();
    assert(split(none, 47) =~= seq![none]);
    assert(split(none, 47).drop_last() =~= Seq::empty());
    assert(parts_of(Seq::<Seq<u8>>::empty()) =~= Seq::empty());
    assert(parts(none) =~= Seq::empty());
    assert(task_parts(walk.tasks[0]).len() == 0);
}

/// The parts of the name of a child.
proof fn lemma_child_parts(dir: Seq<u8>, name: Seq<u8>)
    requires
        is_name(name),
    ensures
        parts(under(dir, name)) == parts(dir).push(PartView::Name(name)),
        parts(under(dir, name)).drop_last() == parts(dir),
{
    lemma_name_parts(name);
    law_join_adds_steps(dir, name);
    assert(parts(under(dir, name)) =~= parts(dir).push(PartView::Name(name)));
    assert(parts(dir).push(PartView::Name(name)).drop_last() =~= parts(dir));
}

/// What is known stays known as more is recorded.
proof fn lemma_still_known(entries: Seq<EntryView>, more: EntryView, path: Seq<PartView>)
    requires
        is_known(entries, path),
    ensures
        is_known(entries.push(more), path),
{
    if path.len() > 0 {
        let i = choose|i: int| 0 <= i < entries.len() && parts(#[trigger] entries[i].rel) == path;
        assert(entries.push(more)[i].rel == entries[i].rel);
    }
}

proof fn lemma_listing_is_apart(walk: WalkView, names: Names)
    requires
        is_apart(walk),
        walk.tasks.len() > 0,
        walk.tasks.last() is List,
        names_differ(names),
    ensures
        is_apart(walk.after_listing(names(walk.tasks.last().listed()))),
{
    let dir = walk.tasks.last()->List_rel;
    let depth = walk.tasks.last()->List_depth;
    let given = names(dir);
    let now = walk.after_listing(given);
    let entries = walk.entries;
    let top = walk.tasks.len() - 1;
    let tasks = now.tasks;
    let kids = children(dir, given);
    let keys = path_keys(kids);
    let places = order_of(keys);
    lemma_some_order(keys);
    assert(walk.tasks[top] == walk.tasks.last());
    assert(forall|i: int| 0 <= i < top ==> tasks[i] == #[trigger] walk.tasks[i]);
    assert forall|i: int| top <= i < tasks.len() implies is_visit(#[trigger] tasks[i]) && task_parts(
        tasks[i],
    ).len() > 0 && task_parts(tasks[i]).drop_last() == parts(dir) by {
        let place = places[places.len() - 1 - (i - top)] as int;
        assert(tasks[i] == child_tasks(dir, depth, given)[i - top]);
        assert(is_name(names(dir)[place]));
        lemma_child_parts(dir, given[place]);
    }
    assert forall|i: int, j: int|
        0 <= i < j < tasks.len() && is_visit(#[trigger] tasks[i]) && is_visit(#[trigger] tasks[j]) implies task_parts(
        tasks[i],
    ) != task_parts(tasks[j]) by {
        if j < top {
            assert(tasks[i] == walk.tasks[i] && tasks[j] == walk.tasks[j]);
        } else if i < top {
            assert(tasks[i] == walk.tasks[i]);
            assert(is_elsewhere(task_parts(walk.tasks[i]), task_parts(walk.tasks[top])));
        } else {
            let m = places.len() - 1 - (i - top);
            let n = places.len() - 1 - (j - top);
            let a = places[m] as int;
            let b = places[n] as int;
            assert(ahead(keys, places[n] as int, places[m] as int));
            lemma_before_irreflexive(keys[a]);
            assert(a != b);
            assert(tasks[i] == child_tasks(dir, depth, given)[i - top]);
            assert(tasks[j] == child_tasks(dir, depth, given)[j - top]);
            assert(names(dir)[a] != names(dir)[b]);
            assert(is_name(names(dir)[a]) && is_name(names(dir)[b]));
            lemma_child_parts(dir, given[a]);
            lemma_child_parts(dir, given[b]);
            assert(task_parts(tasks[i]).last() == PartView::Name(given[a]));
            assert(task_parts(tasks[j]).last() == PartView::Name(given[b]));
        }
    }
    assert forall|i: int, j: int|
        0 <= i < entries.len() && 0 <= j < tasks.len() && is_visit(#[trigger] tasks[j]) implies parts(
        #[trigger] entries[i].rel,
    ) != task_parts(tasks[j]) by {
        if j < top {
            assert(tasks[j] == walk.tasks[j]);
        } else {
            assert(is_elsewhere(parts(entries[i].rel), task_parts(walk.tasks[top])));
        }
    }
    assert forall|i: int, j: int|
        0 <= i < tasks.len() && 0 <= j < tasks.len() && is_visit(#[trigger] tasks[i]) && (#[trigger] tasks[j]) is List
        implies is_elsewhere(task_parts(tasks[i]), task_parts(tasks[j])) by {
        assert(j < top);
        assert(tasks[j] == walk.tasks[j]);
        if i < top {
            assert(tasks[i] == walk.tasks[i]);
        } else {
            assert(task_parts(walk.tasks[j]) != task_parts(walk.tasks[top]));
        }
    }
    assert forall|i: int, j: int|
        0 <= i < entries.len() && 0 <= j < tasks.len() && (#[trigger] tasks[j]) is List implies is_elsewhere(
        parts(#[trigger] entries[i].rel),
        task_parts(tasks[j]),
    ) by {
        assert(tasks[j] == walk.tasks[j]);
    }
    assert forall|i: int, j: int|
        0 <= i < j < tasks.len() && (#[trigger] tasks[i]) is List && (#[trigger] tasks[j]) is List implies task_parts(
        tasks[i],
    ) != task_parts(tasks[j]) by {
        assert(tasks[i] == walk.tasks[i] && tasks[j] == walk.tasks[j]);
    }
    assert forall|i: int| 0 <= i < tasks.len() && (#[trigger] tasks[i]) is List implies is_known(
        entries,
        task_parts(tasks[i]),
    ) by {
        assert(tasks[i] == walk.tasks[i]);
    }
    assert forall|i: int| 0 <= i < tasks.len() && is_visit(#[trigger] tasks[i]) implies is_rooted(
        entries,
        task_parts(tasks[i]),
    ) by {
        if i < top {
            assert(tasks[i] == walk.tasks[i]);
        } else {
            assert(is_known(entries, task_parts(walk.tasks[top])));
        }
    }
}

/// A step that records no path, and neither lists nor looks at another, leaves the paths apart.
proof fn lemma_popped_is_apart(walk: WalkView)
    requires
        is_apart(walk),
        walk.tasks.len() > 0,
    ensures
        is_apart(walk.popped()),
{
    let now = walk.popped();
    assert(forall|i: int| 0 <= i < now.tasks.len() ==> #[trigger] now.tasks[i] == walk.tasks[i]);
}

/// Is a path neither recorded nor to be looked at, and below one that was recorded?
spec fn is_free(walk: WalkView, path: Seq<PartView>) -> bool {
    &&& forall|i: int| 0 <= i < walk.entries.len() ==> parts(#[trigger] walk.entries[i].rel) != path
    &&& forall|i: int|
        0 <= i < walk.tasks.len() && is_visit(#[trigger] walk.tasks[i]) ==> task_parts(walk.tasks[i]) != path
    &&& forall|i: int|
        0 <= i < walk.tasks.len() && (#[trigger] walk.tasks[i]) is List ==> is_elsewhere(
            path,
            task_parts(walk.tasks[i]),
        )
    &&& is_rooted(walk.entries, path)
}

proof fn lemma_visited_is_free(walk: WalkView)
    requires
        is_apart(walk),
        walk.tasks.len() > 0,
        is_visit(walk.tasks.last()),
    ensures
        is_apart(walk.popped()),
        is_free(walk.popped(), task_parts(walk.tasks.last())),
{
    let now = walk.popped();
    let top = walk.tasks.len() - 1;
    lemma_popped_is_apart(walk);
    assert(walk.tasks[top] == walk.tasks.last());
    assert(forall|i: int| 0 <= i < now.tasks.len() ==> #[trigger] now.tasks[i] == walk.tasks[i]);
}

proof fn lemma_recorded_is_apart(walk: WalkView, entry: EntryView)
    requires
        is_apart(walk),
        is_free(walk, parts(entry.rel)),
    ensures
        is_apart(walk.recorded(entry)),
{
    let now = walk.recorded(entry);
    let n = walk.entries.len() as int;
    assert(now.entries[n] == entry);
    assert(forall|i: int| 0 <= i < n ==> #[trigger] now.entries[i] == walk.entries[i]);
    assert forall|i: int| 0 <= i < now.tasks.len() && (#[trigger] now.tasks[i]) is List implies is_known(
        now.entries,
        task_parts(now.tasks[i]),
    ) by {
        lemma_still_known(walk.entries, entry, task_parts(now.tasks[i]));
    }
    assert forall|i: int| 0 <= i < now.tasks.len() && is_visit(#[trigger] now.tasks[i]) implies is_rooted(
        now.entries,
        task_parts(now.tasks[i]),
    ) by {
        lemma_still_known(walk.entries, entry, task_parts(now.tasks[i]).drop_last());
    }
    assert forall|i: int| 0 <= i < now.entries.len() implies is_rooted(
        now.entries,
        parts(#[trigger] now.entries[i].rel),
    ) by {
        if i < n {
            assert(is_rooted(walk.entries, parts(walk.entries[i].rel)));
        }
        lemma_still_known(walk.entries, entry, parts(now.entries[i].rel).drop_last());
    }
}

/// Tasks that neither list nor look leave the paths apart.
proof fn lemma_pushed_is_apart(walk: WalkView, task: TaskView)
    requires
        is_apart(walk),
        !(task is List),
        is_visit(task) ==> is_free(walk, task_parts(task)),
    ensures
        is_apart(walk.pushed(task)),
{
    let now = walk.pushed(task);
    let n = walk.tasks.len() as int;
    assert(now.tasks[n] == task);
    assert(forall|i: int| 0 <= i < n ==> #[trigger] now.tasks[i] == walk.tasks[i]);
}

/// A directory that was recorded just now can be listed.
proof fn lemma_listed_is_apart(walk: WalkView, entry: EntryView, task: TaskView)
    requires
        is_apart(walk),
        is_free(walk, parts(entry.rel)),
        task is List,
        task->List_rel == entry.rel,
    ensures
        is_apart(walk.recorded(entry).pushed(task)),
{
    let path = parts(entry.rel);
    let middle = walk.recorded(entry);
    let now = middle.pushed(task);
    let n = walk.tasks.len() as int;
    lemma_recorded_is_apart(walk, entry);
    assert(now.tasks[n] == task);
    assert(forall|i: int| 0 <= i < n ==> #[trigger] now.tasks[i] == walk.tasks[i]);
    assert(middle.entries[walk.entries.len() as int] == entry);
    assert(forall|i: int| 0 <= i < walk.entries.len() ==> #[trigger] middle.entries[i] == walk.entries[i]);
    assert(path.len() > 0);
    assert(!is_known(walk.entries, path));
    assert forall|i: int| 0 <= i < n && is_visit(#[trigger] walk.tasks[i]) implies is_elsewhere(
        task_parts(walk.tasks[i]),
        path,
    ) by {
        assert(is_rooted(walk.entries, task_parts(walk.tasks[i])));
    }
    assert forall|i: int| 0 <= i < middle.entries.len() implies is_elsewhere(
        parts(#[trigger] middle.entries[i].rel),
        path,
    ) by {
        if i < walk.entries.len() {
            assert(is_rooted(walk.entries, parts(walk.entries[i].rel)));
        } else {
            assert(path.drop_last().len() != path.len());
        }
    }
    assert forall|i: int| 0 <= i < n && (#[trigger] walk.tasks[i]) is List implies task_parts(walk.tasks[i])
        != path by {
        assert(is_known(walk.entries, task_parts(walk.tasks[i])));
    }
}

proof fn lemma_look_is_apart(walk: WalkView, facts: FactsView)
    requires
        is_apart(walk),
        walk.copying,
        walk.tasks.len() > 0,
        walk.tasks.last() is Examine,
    ensures
        is_apart(walk.after_look(facts)),
{
    let rel = walk.tasks.last()->Examine_rel;
    let depth = walk.tasks.last()->Examine_depth;
    let now = walk.after_look(facts);
    let rest = walk.popped();
    lemma_visited_is_free(walk);
    match facts.found {
        FoundView::Other => {},
        FoundView::Dir => {
            let entry = entry_of(rel, facts);
            let close = TaskView::CloseDir { rel, mode: facts.mode };
            let list = TaskView::List { rel, depth: depth + 1 };
            let begun = rest.pushed(close);
            lemma_pushed_is_apart(rest, close);
            assert(is_free(begun, parts(rel))) by {
                assert(forall|i: int| 0 <= i < rest.tasks.len() ==> #[trigger] begun.tasks[i] == rest.tasks[i]);
                assert(begun.tasks[rest.tasks.len() as int] == close);
            }
            lemma_listed_is_apart(begun, entry, list);
            lemma_pushed_is_apart(begun.recorded(entry).pushed(list), TaskView::MakeDir { rel });
        },
        FoundView::Symlink { target } => {
            let entry = entry_of(rel, facts);
            lemma_recorded_is_apart(rest, entry);
            lemma_pushed_is_apart(rest.recorded(entry), TaskView::MakeLink { rel, target });
        },
        FoundView::File { size, links, identity, allocated, digest } => {
            if links > 1 && first_of(walk.firsts, identity) is Some {
                let entry = now.entries.last();
                assert(now.entries == rest.entries.push(entry));
                lemma_recorded_is_apart(rest, entry);
                lemma_pushed_is_apart(rest.recorded(entry), now.tasks.last());
            } else {
                lemma_pushed_is_apart(rest, now.tasks.last());
            }
        },
    }
}

proof fn lemma_copy_is_apart(walk: WalkView, digest: Seq<u8>)
    requires
        is_apart(walk),
        walk.tasks.len() > 0,
        walk.tasks.last() is CopyFile,
    ensures
        is_apart(walk.after_copy(digest)),
{
    let now = walk.after_copy(digest);
    let entry = now.entries.last();
    lemma_visited_is_free(walk);
    assert(now.entries == walk.entries.push(entry));
    lemma_recorded_is_apart(walk.popped(), entry);
}

/// Is it a copy from its beginning on, step by step?
pub open spec fn is_history(source: Source, root: Seq<u8>, history: Seq<Copy>) -> bool {
    &&& history.len() > 0
    &&& history[0] == begun(root)
    &&& forall|i: int| 0 < i < history.len() ==> copies(source, history[i - 1], #[trigger] history[i])
}

proof fn lemma_history_is_sound(source: Source, root: Seq<u8>, history: Seq<Copy>, n: int)
    requires
        is_consistent(source),
        is_history(source, root, history),
        0 <= n < history.len(),
        names_differ(source.names),
    ensures
        sound(source, history[n]),
        is_apart(history[n].walk),
        history[n].walk.misses_nothing(source.names),
        history[n].walk.follows_no_link(),
    decreases n,
{
    if n == 0 {
        lemma_begun_is_sound(source, root);
        lemma_start_is_apart(root);
        law_start_misses_nothing(root, true, source.names);
    } else {
        let copy = history[n - 1];
        let walk = copy.walk;
        lemma_history_is_sound(source, root, history, n - 1);
        assert(copies(source, copy, history[n]));
        lemma_step_is_sound(source, copy, history[n]);
        match walk.tasks.last() {
            TaskView::List { rel, .. } => {
                law_listing_misses_nothing(walk, source.names);
                lemma_listing_is_apart(walk, source.names);
            },
            TaskView::Examine { rel, .. } => {
                law_look_misses_nothing(walk, (source.look)(rel), source.names);
                lemma_look_is_apart(walk, (source.look)(rel));
            },
            TaskView::CopyFile { rel, .. } => {
                law_copy_misses_nothing(walk, (source.digest)(rel), source.names);
                lemma_copy_is_apart(walk, (source.digest)(rel));
            },
            _ => {
                law_making_misses_nothing(walk, source.names);
                lemma_popped_is_apart(walk);
            },
        }
    }
}

/// Does another entry that was made stand for the same file?
pub open spec fn has_twin(entries: Seq<EntryView>, i: int) -> bool {
    exists|j: int|
        0 <= j < entries.len() && j != i && (#[trigger] entries[j]).is_file() && number_of(entries[j])
            == number_of(entries[i])
}

/// Does an inventory show what was made? How many names a file has, it shows as well.
pub open spec fn shows(made: Seq<EntryView>, actual: Seq<EntryView>) -> bool {
    &&& actual.len() == made.len()
    &&& forall|i: int|
        0 <= i < made.len() ==> {
            &&& (#[trigger] actual[i]).rel == made[i].rel
            &&& actual[i].mode == made[i].mode
            &&& actual[i].mtime == made[i].mtime
            &&& match (made[i].kind, actual[i].kind) {
                (
                    KindView::File { size: a, digest: d, identity: x, .. },
                    KindView::File { size: b, digest: e, identity: y, links, .. },
                ) => a == b && d == e && x == y && (links > 1 <==> has_twin(made, i)),
                (a, b) => a == b,
            }
        }
}

/// Does no other name of a file in the tree lie outside of it?
pub open spec fn holds_its_links(entries: Seq<EntryView>) -> bool {
    forall|i: int| 0 <= i < entries.len() && (#[trigger] entries[i]).is_linked() ==> has_twin(entries, i)
}

proof fn lemma_shown_is_aligned(source: Source, copy: Copy, actual: Seq<EntryView>)
    requires
        is_consistent(source),
        sound(source, copy),
        copy.walk.tasks.len() == 0,
        holds_its_links(copy.walk.entries),
        shows(copy.made, actual),
    ensures
        is_aligned(copy.walk.entries, actual),
        forall|i: int|
            0 <= i < actual.len() ==> carried(copy.walk.entries[i], #[trigger] actual[i]) && actual[i].mtime
                == Some(given_time(copy.walk.entries[i].mtime)),
{
    let entries = copy.walk.entries;
    let made = copy.made;
    assert forall|i: int| 0 <= i < actual.len() implies carried(entries[i], #[trigger] actual[i]) && actual[i].mtime
        == Some(given_time(entries[i].mtime)) && actual[i].rel == entries[i].rel by {
        assert(made_well(entries[i], made[i], copy.walk.tasks));
        assert(shows(made, actual));
    }
    assert forall|i: int| 0 <= i < entries.len() implies (#[trigger] file_of(entries[i]) is Some <==> file_of(actual[i])
        is Some) by {
        assert(made_well(entries[i], made[i], copy.walk.tasks));
        assert(actual[i].rel == made[i].rel);
        if entries[i].is_linked() {
            let j = choose|j: int|
                0 <= j < entries.len() && j != i && (#[trigger] entries[j]).is_file() && number_of(entries[j])
                    == number_of(entries[i]);
            assert(made_well(entries[j], made[j], copy.walk.tasks));
            assert(agrees(source, entries[i].rel, entries[j].rel));
            assert(one_file(entries[i], entries[j]));
            assert(shared_well(entries, made, j, i));
            assert(one_file(entries[j], entries[i]));
            assert(made[j].is_file() && number_of(made[j]) == number_of(made[i]));
            assert(has_twin(made, i));
        } else if entries[i].is_file() && has_twin(made, i) {
            let j = choose|j: int|
                0 <= j < made.len() && j != i && (#[trigger] made[j]).is_file() && number_of(made[j]) == number_of(
                    made[i],
                );
            assert(made_well(entries[j], made[j], copy.walk.tasks));
            assert(shared_well(entries, made, j, i));
        }
    }
    assert forall|i: int, j: int|
        0 <= i < entries.len() && 0 <= j < entries.len() && file_of(entries[i]) is Some && file_of(entries[j]) is Some
        implies (#[trigger] file_of(entries[i]) == #[trigger] file_of(entries[j]) <==> file_of(actual[i]) == file_of(
        actual[j],
    )) by {
        assert(made_well(entries[i], made[i], copy.walk.tasks));
        assert(made_well(entries[j], made[j], copy.walk.tasks));
        assert(actual[i].rel == made[i].rel && actual[j].rel == made[j].rel);
        assert(shared_well(entries, made, i, j));
        assert(file_of(entries[i]) is Some <==> file_of(actual[i]) is Some);
        assert(file_of(entries[j]) is Some <==> file_of(actual[j]) is Some);
    }
}

/// What corresponds in two lists does so once both are in the order of the paths.
proof fn lemma_sorted_is_aligned(left: Seq<EntryView>, right: Seq<EntryView>)
    requires
        is_aligned(left, right),
        distinct(left),
        left.len() <= usize::MAX,
        forall|i: int| 0 <= i < right.len() ==> carried(left[i], #[trigger] right[i]),
    ensures
        is_aligned(by_path(left), by_path(right)),
        distinct(by_path(left)),
        forall|i: int| 0 <= i < by_path(right).len() ==> carried(by_path(left)[i], #[trigger] by_path(right)[i]),
{
    let a = by_path(left);
    let b = by_path(right);
    assert forall|i: int| 0 <= i < left.len() implies keys_of(left)[i] == keys_of(right)[i] by {
        assert(right[i].rel == left[i].rel);
    }
    assert(keys_of(left) =~= keys_of(right));
    let keys = keys_of(left);
    let places = order_of(keys);
    lemma_some_order(keys);
    assert forall|i: int| 0 <= i < a.len() implies #[trigger] b[i].rel == a[i].rel by {
        assert(right[places[i] as int].rel == left[places[i] as int].rel);
    }
    assert forall|i: int| 0 <= i < a.len() implies (#[trigger] file_of(a[i]) is Some <==> file_of(b[i]) is Some) by {
        assert(file_of(left[places[i] as int]) is Some <==> file_of(right[places[i] as int]) is Some);
    }
    assert forall|i: int, j: int|
        0 <= i < a.len() && 0 <= j < a.len() && file_of(a[i]) is Some && file_of(a[j]) is Some implies (
    #[trigger] file_of(a[i]) == #[trigger] file_of(a[j]) <==> file_of(b[i]) == file_of(b[j])) by {
        assert(file_of(left[places[i] as int]) is Some && file_of(left[places[j] as int]) is Some);
    }
    assert forall|i: int| 0 <= i < b.len() implies carried(a[i], #[trigger] b[i]) by {
        assert(carried(left[places[i] as int], right[places[i] as int]));
    }
    assert forall|i: int, j: int| 0 <= i < j < a.len() implies parts(#[trigger] a[i].rel) != parts(
        #[trigger] a[j].rel,
    ) by {
        let m = places[i] as int;
        let n = places[j] as int;
        assert(ahead(keys, places[i] as int, places[j] as int));
        lemma_before_irreflexive(keys[m]);
        assert(m != n);
        assert(parts(left[m].rel) != parts(left[n].rel));
    }
}

/// A copy that is through has made the tree: each name in the root and in each directory is there, each entry
/// is of its kind, with its contents or its link text, its permissions and, from 1970 on, its time, names that are
/// one file are one file, and an inventory of the copy passes against what was recorded. Another name of a file may not
/// lie outside the tree, since the copy has only the names inside.
pub proof fn law_copy_is_the_tree(source: Source, root: Seq<u8>, history: Seq<Copy>, actual: Seq<EntryView>)
    requires
        is_consistent(source),
        names_differ(source.names),
        is_history(source, root, history),
        history.last().walk.tasks.len() == 0,
        history.last().walk.entries.len() <= usize::MAX,
        holds_its_links(history.last().walk.entries),
        shows(history.last().made, actual),
    ensures
        ({
            let walk = history.last().walk;
            &&& forall|dir: Seq<u8>, k: int|
                walk.knows_dir(dir) && 0 <= k < (source.names)(dir).len() ==> walk.has_entry(
                    under(dir, #[trigger] (source.names)(dir)[k]),
                )
            &&& distinct(walk.entries)
            &&& actual.len() == walk.entries.len()
            &&& forall|i: int|
                0 <= i < actual.len() ==> {
                    let entry = source_entry(source, (#[trigger] actual[i]).rel);
                    &&& walk.entries[i] == entry
                    &&& carried(entry, actual[i])
                    &&& actual[i].mtime == Some(given_time(entry.mtime))
                    &&& entry.mtime is Some && entry.mtime->0.seconds >= 0 ==> actual[i].mtime == entry.mtime
                }
            &&& sharing(walk.entries) == sharing(actual)
            &&& copy_problems(by_path(walk.entries), by_path(actual)).len() == 0
        }),
{
    let copy = history.last();
    let entries = copy.walk.entries;
    lemma_history_is_sound(source, root, history, history.len() - 1);
    lemma_shown_is_aligned(source, copy, actual);
    lemma_aligned_share_alike(entries, actual);
    lemma_sorted_is_aligned(entries, actual);
    let a = by_path(entries);
    let b = by_path(actual);
    lemma_aligned_share_alike(a, b);
    assert forall|i: int, j: int| 0 <= i < j < b.len() implies parts(#[trigger] b[i].rel) != parts(
        #[trigger] b[j].rel,
    ) by {
        assert(b[i].rel == a[i].rel && b[j].rel == a[j].rel);
    }
    assert forall|i: int| 0 <= i < a.len() implies #[trigger] has_copy(a[i], b) by {
        assert(b[i].rel == a[i].rel);
    }
    assert forall|i: int| 0 <= i < b.len() implies #[trigger] has_path(b[i].rel, a) by {
        assert(parts(a[i].rel) == parts(b[i].rel));
    }
    law_matching_trees_pass(a, b);
    assert forall|dir: Seq<u8>, k: int| copy.walk.knows_dir(dir) && 0 <= k < (source.names)(dir).len() implies
        copy.walk.has_entry(under(dir, #[trigger] (source.names)(dir)[k])) by {
        law_finished_walk_has_everything(copy.walk, source.names, dir, k);
    }
}

/// What is seen at a path of the source by an inventory that reads contents.
pub open spec fn seen(source: Source, rel: Seq<u8>) -> FactsView {
    let facts = (source.look)(rel);
    FactsView {
        found: match facts.found {
            FoundView::File { size, links, identity, allocated, .. } => FoundView::File {
                size,
                links,
                identity,
                allocated,
                digest: Some((source.digest)(rel)),
            },
            found => found,
        },
        ..facts
    }
}

/// What a step makes of an inventory that reads contents.
pub open spec fn notes(source: Source, walk: WalkView, now: WalkView) -> bool {
    walk.tasks.len() > 0 && match walk.tasks.last() {
        TaskView::List { rel, .. } => now == walk.after_listing((source.names)(rel)),
        TaskView::Examine { rel, .. } => !(seen(source, rel).found is Other) && now == walk.after_look(
            seen(source, rel),
        ),
        _ => false,
    }
}

/// Is it an inventory from its beginning on, step by step?
pub open spec fn is_inventory(source: Source, root: Seq<u8>, walks: Seq<WalkView>) -> bool {
    &&& walks.len() > 0
    &&& walks[0] == WalkView::start(root, false)
    &&& forall|i: int| 0 < i < walks.len() ==> notes(source, walks[i - 1], #[trigger] walks[i])
}

/// The tasks of looking and listing.
spec fn looks(tasks: Seq<TaskView>) -> Seq<TaskView>
    decreases tasks.len(),
{
    if tasks.len() == 0 {
        Seq::empty()
    } else if tasks.last() is List || tasks.last() is Examine {
        looks(tasks.drop_last()).push(tasks.last())
    } else {
        looks(tasks.drop_last())
    }
}

proof fn lemma_looks_push(tasks: Seq<TaskView>, task: TaskView)
    ensures
        looks(tasks.push(task)) == if task is List || task is Examine {
            looks(tasks).push(task)
        } else {
            looks(tasks)
        },
{
    assert(tasks.push(task).drop_last() =~= tasks);
}

proof fn lemma_looks_add(tasks: Seq<TaskView>, more: Seq<TaskView>)
    requires
        forall|i: int| 0 <= i < more.len() ==> (#[trigger] more[i]) is Examine,
    ensures
        looks(tasks + more) == looks(tasks) + more,
    decreases more.len(),
{
    if more.len() == 0 {
        assert(tasks + more =~= tasks);
        assert(looks(tasks) + more =~= looks(tasks));
    } else {
        let front = more.drop_last();
        assert(more[more.len() - 1] is Examine);
        lemma_looks_add(tasks, front);
        assert(tasks + more =~= (tasks + front).push(more.last()));
        lemma_looks_push(tasks + front, more.last());
        assert((looks(tasks) + front).push(more.last()) =~= looks(tasks) + more);
    }
}

/// Is an inventory as far as a copy? It records a file when it sees it, and the copy when it has copied it.
spec fn keeps_pace(source: Source, walk: WalkView, other: WalkView) -> bool {
    &&& !other.copying
    &&& other.tasks == looks(walk.tasks)
    &&& other.entries == if walk.tasks.len() > 0 && walk.tasks.last() is CopyFile {
        walk.entries.push(source_entry(source, walk.tasks.last()->CopyFile_rel))
    } else {
        walk.entries
    }
}

/// Whatever step a copy takes, an inventory that is as far stays as far, with at most one step of its own.
proof fn lemma_pace_is_kept(source: Source, copy: Copy, now: Copy, other: WalkView, next: WalkView)
    requires
        is_consistent(source),
        sound(source, copy),
        sound(source, now),
        copies(source, copy, now),
        keeps_pace(source, copy.walk, other),
        copy.walk.tasks.last() is List || copy.walk.tasks.last() is Examine ==> notes(source, other, next),
        !(copy.walk.tasks.last() is List || copy.walk.tasks.last() is Examine) ==> next == other,
    ensures
        keeps_pace(source, now.walk, next),
{
    let walk = copy.walk;
    let rest = walk.tasks.drop_last();
    assert(walk.tasks == rest.push(walk.tasks.last()));
    lemma_looks_push(rest, walk.tasks.last());
    match walk.tasks.last() {
        TaskView::List { rel, depth } => {
            let more = child_tasks(rel, depth, (source.names)(rel));
            assert(other.tasks.drop_last() =~= looks(rest));
            lemma_looks_add(rest, more);
            assert forall|i: int| 0 <= i < now.walk.tasks.len() implies !((#[trigger] now.walk.tasks[i])
                is CopyFile) by {
                if i < rest.len() {
                    assert(is_quiet(rest[i]));
                }
            }
        },
        TaskView::Examine { rel, depth } => {
            let facts = (source.look)(rel);
            assert(other.tasks.drop_last() =~= looks(rest));
            assert(entry_of(rel, seen(source, rel)) == source_entry(source, rel));
            match facts.found {
                FoundView::Dir => {
                    let close = TaskView::CloseDir { rel, mode: facts.mode };
                    let list = TaskView::List { rel, depth: depth + 1 };
                    lemma_looks_push(rest, close);
                    lemma_looks_push(rest.push(close), list);
                    lemma_looks_push(rest.push(close).push(list), TaskView::MakeDir { rel });
                },
                FoundView::Symlink { target } => {
                    lemma_looks_push(rest, TaskView::MakeLink { rel, target });
                },
                FoundView::File { size, links, identity, allocated, digest } => {
                    lemma_looks_push(rest, now.walk.tasks.last());
                    if links > 1 && first_of(walk.firsts, identity) is Some {
                        let n = walk.entries.len() as int;
                        assert(now.walk.entries[n] == source_entry(source, now.walk.entries[n].rel));
                        assert(now.walk.entries == walk.entries.push(source_entry(source, rel)));
                    }
                },
                FoundView::Other => {},
            }
        },
        TaskView::CopyFile { rel, .. } => {
            let n = walk.entries.len() as int;
            assert(now.walk.entries[n] == source_entry(source, now.walk.entries[n].rel));
            assert(now.walk.entries == walk.entries.push(source_entry(source, rel)));
            if rest.len() > 0 {
                assert(is_quiet(rest[rest.len() - 1]));
            }
        },
        _ => {
            if rest.len() > 0 {
                assert(is_quiet(rest[rest.len() - 1]));
            }
        },
    }
}

/// As far as a copy is, a finished inventory once was.
proof fn lemma_inventory_keeps_pace(
    source: Source,
    root: Seq<u8>,
    history: Seq<Copy>,
    walks: Seq<WalkView>,
    n: int,
) -> (m: int)
    requires
        is_consistent(source),
        names_differ(source.names),
        is_history(source, root, history),
        is_inventory(source, root, walks),
        walks.last().tasks.len() == 0,
        0 <= n < history.len(),
    ensures
        0 <= m < walks.len(),
        keeps_pace(source, history[n].walk, walks[m]),
    decreases n,
{
    if n == 0 {
        let first = TaskView::List { rel: Seq::empty(), depth: 0 };
        assert(history[0].walk.tasks =~= Seq::<TaskView>::empty().push(first));
        lemma_looks_push(Seq::empty(), first);
        0
    } else {
        let copy = history[n - 1];
        let now = history[n];
        let m = lemma_inventory_keeps_pace(source, root, history, walks, n - 1);
        lemma_history_is_sound(source, root, history, n - 1);
        lemma_history_is_sound(source, root, history, n);
        assert(copies(source, copy, now));
        if copy.walk.tasks.last() is List || copy.walk.tasks.last() is Examine {
            assert(looks(copy.walk.tasks).len() > 0);
            assert(m + 1 < walks.len());
            let next = walks[m + 1];
            assert(notes(source, walks[m], next));
            lemma_pace_is_kept(source, copy, now, walks[m], next);
            m + 1
        } else {
            lemma_pace_is_kept(source, copy, now, walks[m], walks[m]);
            m
        }
    }
}

/// What a copy records is what an inventory of the tree that reads contents records, in the same order.
pub proof fn law_copy_records_the_inventory(
    source: Source,
    root: Seq<u8>,
    history: Seq<Copy>,
    walks: Seq<WalkView>,
)
    requires
        is_consistent(source),
        names_differ(source.names),
        is_history(source, root, history),
        history.last().walk.tasks.len() == 0,
        is_inventory(source, root, walks),
        walks.last().tasks.len() == 0,
    ensures
        history.last().walk.entries == walks.last().entries,
{
    let m = lemma_inventory_keeps_pace(source, root, history, walks, history.len() - 1);
    if m + 1 < walks.len() {
        assert(notes(source, walks[m], walks[m + 1]));
    }
}

} // verus!
