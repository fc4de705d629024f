//! What walking trees, looking at files and drawing pictures promises.

use vstd::prelude::*;

use crate::fsops::{by_path, given_time, keys_of, EntryView, KindView, Stamp};
use crate::path::ancestors_of;
use crate::path::{path_key, FilePath};
use crate::png::{average_at, channel_at, halved, high_first, png_of};
use crate::safefs::{
    is_same_directory, kind_of_mode, may_remove, real_way, resolves_beneath, Kind, OpenedView, Resolution,
};
use crate::sort::{ahead, before, lemma_some_order, order_of};
use crate::walk::{child_tasks, children, copy_tree, path_keys, FactsView, FoundView, TaskView, Walk, WalkView};

verus! {

/// A directory is listed unless it is more than 128 directories down, and what is in a directory is one further down.
pub proof fn law_trees_are_walked_128_deep(walk: WalkView, rel: Seq<u8>, depth: int, facts: FactsView)
    requires
        walk.tasks.len() > 0,
    ensures
        (TaskView::List { rel, depth }).lists_too_deep() <==> depth > 128,
        walk.tasks.last() == (TaskView::Examine { rel, depth }) && facts.found is Dir ==> walk.after_look(
            facts,
        ).tasks.contains(TaskView::List { rel, depth: depth + 1 }),
        WalkView::start(rel, true).tasks == seq![TaskView::List { rel: Seq::empty(), depth: 0 }],
        WalkView::start(rel, false).tasks == seq![TaskView::List { rel: Seq::empty(), depth: 0 }],
{
    if walk.tasks.last() == (TaskView::Examine { rel, depth }) && facts.found is Dir {
        let now = walk.after_look(facts).tasks;
        let n = walk.tasks.len() - 1;
        if walk.copying {
            assert(now[n + 1] == TaskView::List { rel, depth: depth + 1 });
        } else {
            assert(now[n] == TaskView::List { rel, depth: depth + 1 });
        }
    }
}

/// What is seen at a path is recorded as it is seen.
pub proof fn law_what_is_seen_is_recorded(walk: WalkView, facts: FactsView, rel: Seq<u8>, depth: int)
    requires
        walk.tasks.len() > 0,
        walk.tasks.last() == (TaskView::Examine { rel, depth }),
        !walk.copying,
        !(facts.found is Other),
    ensures
        ({
            let now = walk.after_look(facts);
            let entry = now.entries.last();
            &&& now.entries == walk.entries.push(entry)
            &&& entry.rel == rel
            &&& entry.mode == facts.mode
            &&& entry.mtime == facts.mtime
            &&& match facts.found {
                FoundView::Dir => entry.kind is Dir,
                FoundView::Symlink { target } => entry.kind == (KindView::Symlink { target }),
                FoundView::File { size, links, identity, allocated, digest } => entry.kind == (KindView::File {
                    size,
                    digest,
                    links,
                    identity,
                    allocated,
                }),
                FoundView::Other => false,
            }
        }),
{
}

/// Of the names in a directory the one that comes first by its path is looked at first.
pub proof fn law_names_are_visited_in_order(rel: Seq<u8>, depth: int, names: Seq<Seq<u8>>, i: int, j: int)
    requires
        names.len() <= usize::MAX,
        0 <= i < j < child_tasks(rel, depth, names).len(),
    ensures
        child_tasks(rel, depth, names).len() == names.len(),
        !before(
            path_key(child_tasks(rel, depth, names)[i]->Examine_rel),
            path_key(child_tasks(rel, depth, names)[j]->Examine_rel),
        ),
        child_tasks(rel, depth, names)[i]->Examine_depth == depth,
{
    let paths = children(rel, names);
    let keys = path_keys(paths);
    let places = order_of(keys);
    lemma_some_order(keys);
    let a = places[places.len() - 1 - i] as int;
    let b = places[places.len() - 1 - j] as int;
    assert(ahead(keys, places[places.len() - 1 - j] as int, places[places.len() - 1 - i] as int));
    assert(keys[a] == path_key(paths[a]) && keys[b] == path_key(paths[b]));
    lemma_not_both(keys[b], keys[a]);
}

proof fn lemma_not_both(a: Seq<u32>, b: Seq<u32>)
    requires
        before(a, b) || a == b,
    ensures
        !before(b, a),
    decreases a.len(),
{
    if a == b {
        crate::sort::lemma_before_irreflexive(a);
    } else if a.len() > 0 && b.len() > 0 && a[0] == b[0] {
        lemma_not_both(a.skip(1), b.skip(1));
    }
}

/// A tree is copied only where neither tree is known to hold the other, and over nothing.
pub proof fn law_trees_are_not_copied_into_themselves(
    source: &FilePath,
    target: &FilePath,
    holds: Result<bool, String>,
    held: Result<bool, String>,
    exists_: bool,
    started: Result<Walk, String>,
)
    requires
        call_ensures(copy_tree, (source, target, holds, held, exists_), started),
    ensures
        holds == Ok::<bool, String>(true) ==> started is Err,
        held == Ok::<bool, String>(true) ==> started is Err,
        holds is Err ==> started is Err,
        held is Err ==> started is Err,
        exists_ ==> started is Err,
        holds == Ok::<bool, String>(false) && held == Ok::<bool, String>(false) && !exists_ ==> started is Ok,
        started is Ok ==> started->Ok_0@.root == source@ && started->Ok_0@.copying,
{
}

/// What the mode of a file says it is, whatever its permissions.
pub proof fn law_modes_tell_kinds_apart(permissions: u32)
    requires
        permissions < 0o10000,
    ensures
        kind_of_mode(0o040000 | permissions) == Kind::Directory,
        kind_of_mode(0o100000 | permissions) == Kind::File,
        kind_of_mode(0o120000 | permissions) == Kind::Symlink,
        kind_of_mode(0o010000 | permissions) == Kind::Other,
        kind_of_mode(0o020000 | permissions) == Kind::Other,
        kind_of_mode(0o060000 | permissions) == Kind::Other,
        kind_of_mode(0o140000 | permissions) == Kind::Other,
{
    assert(permissions < 0o10000u32 ==> (0o040000u32 | permissions) & 0o170000u32 == 0o040000u32 && (0o100000u32
        | permissions) & 0o170000u32 == 0o100000u32 && (0o120000u32 | permissions) & 0o170000u32 == 0o120000u32 && (
    0o010000u32 | permissions) & 0o170000u32 == 0o010000u32 && (0o020000u32 | permissions) & 0o170000u32 == 0o020000u32
        && (0o060000u32 | permissions) & 0o170000u32 == 0o060000u32 && (0o140000u32 | permissions) & 0o170000u32
        == 0o140000u32) by (bit_vector);
}

/// Two directories are one exactly when both could be opened and have the same number on the same device; in whichever
/// order they are given.
pub proof fn law_one_directory_has_one_number(left: (u64, u64), right: (u64, u64), other: OpenedView)
    ensures
        is_same_directory(OpenedView::Is { identity: left }, OpenedView::Is { identity: right }) == Ok::<bool,
            Seq<char>>(
            left == right,
        ),
        is_same_directory(OpenedView::Closed, other) == Ok::<bool, Seq<char>>(false),
        is_same_directory(other, OpenedView::Closed) == Ok::<bool, Seq<char>>(false),
{
}

/// Nothing but a link is ever removed, and only what leads out of a directory is said to.
pub proof fn law_only_links_are_removed(
    dir: &FilePath,
    name: &FilePath,
    kind: Kind,
    verdict: Result<(), String>,
    resolution: &Resolution,
    answer: Result<bool, String>,
)
    requires
        call_ensures(may_remove, (dir, name, kind), verdict),
        call_ensures(resolves_beneath, (resolution,), answer),
    ensures
        verdict is Ok <==> kind == Kind::Symlink,
        answer == Ok::<bool, String>(false) <==> *resolution is Escapes,
        answer is Err <==> *resolution is Failed,
{
}

/// The directories on the way to a path are those of the nearest ancestor that could be resolved.
pub proof fn law_nearest_resolved_ancestor_leads(resolved: Seq<Option<Seq<u8>>>)
    ensures
        (forall|i: int| 0 <= i < resolved.len() ==> #[trigger] resolved[i] is None) ==> real_way(resolved).len() == 0,
        forall|i: int|
            0 <= i < resolved.len() && #[trigger] resolved[i] is Some && (forall|k: int|
                0 <= k < i ==> #[trigger] resolved[k] is None) ==> real_way(resolved) == ancestors_of(resolved[i]->0),
    decreases resolved.len(),
{
    if resolved.len() > 0 && resolved[0] is None {
        let rest = resolved.skip(1);
        law_nearest_resolved_ancestor_leads(rest);
        assert forall|i: int|
            0 <= i < resolved.len() && #[trigger] resolved[i] is Some && (forall|k: int|
                0 <= k < i ==> #[trigger] resolved[k] is None) implies real_way(resolved) == ancestors_of(
            resolved[i]->0,
        ) by {
            assert(rest[i - 1] == resolved[i]);
            assert forall|k: int| 0 <= k < i - 1 implies #[trigger] rest[k] is None by {
                assert(resolved[k + 1] is None);
            }
        }
        if forall|i: int| 0 <= i < resolved.len() ==> #[trigger] resolved[i] is None {
            assert forall|i: int| 0 <= i < rest.len() implies #[trigger] rest[i] is None by {
                assert(resolved[i + 1] is None);
            }
        }
    }
}

/// A point of the half-sized picture is between the darkest and the brightest of the four it is made of.
pub proof fn law_halving_stays_between(width: int, pixels: Seq<u8>, row: int, column: int, channel: int, low: u8,
    high: u8)
    requires
        forall|r: int, c: int|
            2 * row <= r <= 2 * row + 1 && 2 * column <= c <= 2 * column + 1 ==> low <= #[trigger] channel_at(
                width,
                pixels,
                r,
                c,
                channel,
            ) <= high,
    ensures
        low <= average_at(width, pixels, row, column, channel) <= high,
{
    let a = channel_at(width, pixels, 2 * row, 2 * column, channel) as int;
    let b = channel_at(width, pixels, 2 * row, 2 * column + 1, channel) as int;
    let c = channel_at(width, pixels, 2 * row + 1, 2 * column, channel) as int;
    let d = channel_at(width, pixels, 2 * row + 1, 2 * column + 1, channel) as int;
    assert(low <= a <= high && low <= b <= high && low <= c <= high && low <= d <= high);
    assert(4 * low <= a + b + c + d <= 4 * high);
    assert(low <= (a + b + c + d) / 4 <= high);
}

/// Halving a picture halves both its sides.
pub proof fn law_halving_halves_both_sides(width: int, height: int, pixels: Seq<u8>)
    requires
        width >= 0,
        height >= 0,
    ensures
        halved(width, height, pixels).len() == (height / 2) * ((width / 2) * 4),
{
    assert((height / 2) * ((width / 2) * 4) >= 0) by (nonlinear_arith)
        requires
            width >= 0,
            height >= 0,
    ;
}

/// A picture begins with the signature of its format and with its width and height.
pub proof fn law_pictures_say_how_large_they_are(width: usize, height: usize, pixels: Seq<u8>)
    ensures
        png_of(width, height, pixels).subrange(0, 8) == seq![0x89u8, 80, 78, 71, 0x0d, 0x0a, 0x1a, 0x0a],
        png_of(width, height, pixels).subrange(12, 16) == seq![73u8, 72, 68, 82],
        png_of(width, height, pixels).subrange(16, 20) == high_first(width as u32),
        png_of(width, height, pixels).subrange(20, 24) == high_first(height as u32),
        png_of(width, height, pixels).subrange(24, 29) == seq![8u8, 6, 0, 0, 0],
{
    let all = png_of(width, height, pixels);
    assert(all.subrange(0, 8) =~= seq![0x89u8, 80, 78, 71, 0x0d, 0x0a, 0x1a, 0x0a]);
    assert(all.subrange(12, 16) =~= seq![73u8, 72, 68, 82]);
    assert(all.subrange(16, 20) =~= high_first(width as u32));
    assert(all.subrange(20, 24) =~= high_first(height as u32));
    assert(all.subrange(24, 29) =~= seq![8u8, 6, 0, 0, 0]);
}

/// A copy has the time of its original from 1970 on, and the first moment of 1970 for any other.
pub proof fn law_copies_are_as_old_as_their_originals(stamp: Stamp)
    ensures
        stamp.seconds >= 0 ==> given_time(Some(stamp)) == stamp,
        stamp.seconds < 0 ==> given_time(Some(stamp)).seconds == 0 && given_time(Some(stamp)).nanos == 0,
        given_time(None).seconds == 0 && given_time(None).nanos == 0,
{
}

/// A list in the order of the paths has the same entries, each not after the next.
pub proof fn law_entries_are_in_the_order_of_their_paths(entries: Seq<EntryView>, i: int, j: int)
    requires
        entries.len() <= usize::MAX,
        0 <= i < j < entries.len(),
    ensures
        by_path(entries).len() == entries.len(),
        !before(path_key(by_path(entries)[j].rel), path_key(by_path(entries)[i].rel)),
        by_path(entries).contains(entries[i]),
        entries.contains(by_path(entries)[i]),
{
    let keys = keys_of(entries);
    let places = order_of(keys);
    let sorted = by_path(entries);
    lemma_some_order(keys);
    assert(places[i] < keys.len() && places[j] < keys.len());
    assert(ahead(keys, places[i] as int, places[j] as int));
    assert(keys[places[i] as int] == path_key(sorted[i].rel));
    assert(keys[places[j] as int] == path_key(sorted[j].rel));
    lemma_not_both(keys[places[i] as int], keys[places[j] as int]);
    assert(places.contains(i as usize));
    let m = choose|m: int| 0 <= m < places.len() && places[m] == i as usize;
    assert(sorted[m] == entries[i]);
    assert(entries[places[i] as int] == sorted[i]);
}

} // verus!
