//! What comparing trees promises.

use vstd::multiset::Multiset;
use vstd::prelude::*;

use crate::fsops::{
    carried, copy_problems, distinct, escapes, has_copy, has_path, in_53_bits, is_unchanged, law_changes_are_noticed,
    law_matching_trees_pass, law_verified_copy_is_complete, leads_to, nearest, normal, normal_path, path_of,
    permissions, size_text, spread, step_bytes, totals, tree_changes, unit_of, unit_size, EntryView, KindView,
};
use crate::links::{file_of, names_of, shared_files, sharing};
use crate::path::{
    absolute, is_name, law_join_adds_steps, law_keys_tell_paths_apart, law_parent_drops_the_last_step,
    lemma_name_parts, parent_of, parts, parts_of, path_key, under, PartView,
};
use crate::text::{decimal_text, split};

verus! {

/// What is counted of two lists together is counted of each: bytes, directories, files and links, and the files with more
/// than one name and those with holes are listed in their order.
pub proof fn law_totals_add_up(left: Seq<EntryView>, right: Seq<EntryView>)
    ensures
        totals(left + right).bytes == totals(left).bytes + totals(right).bytes,
        totals(left + right).dirs == totals(left).dirs + totals(right).dirs,
        totals(left + right).files == totals(left).files + totals(right).files,
        totals(left + right).symlinks == totals(left).symlinks + totals(right).symlinks,
        totals(left + right).sparse_saving == totals(left).sparse_saving + totals(right).sparse_saving,
        totals(left + right).hard_linked == totals(left).hard_linked + totals(right).hard_linked,
        totals(left + right).sparse == totals(left).sparse + totals(right).sparse,
    decreases right.len(),
{
    if right.len() == 0 {
        assert(left + right =~= left);
        assert(totals(left).hard_linked + totals(right).hard_linked =~= totals(left).hard_linked);
        assert(totals(left).sparse + totals(right).sparse =~= totals(left).sparse);
    } else {
        let front = right.drop_last();
        assert((left + right).drop_last() =~= left + front);
        assert((left + right).last() == right.last());
        law_totals_add_up(left, front);
        assert(totals(left + right).hard_linked =~= totals(left).hard_linked + totals(right).hard_linked);
        assert(totals(left + right).sparse =~= totals(left).sparse + totals(right).sparse);
    }
}

/// A file counts with its size, and a hole with the bytes that are not allocated; directories and links have no bytes.
pub proof fn law_one_entry_counts_once(entry: EntryView)
    ensures
        ({
            let all = totals(seq![entry]);
            match entry.kind {
                KindView::Dir => all.bytes == 0 && all.dirs == 1 && all.files == 0 && all.symlinks == 0
                    && all.sparse_saving == 0 && all.hard_linked.len() == 0 && all.sparse.len() == 0,
                KindView::Symlink { .. } => all.bytes == 0 && all.dirs == 0 && all.files == 0 && all.symlinks == 1
                    && all.sparse_saving == 0 && all.hard_linked.len() == 0 && all.sparse.len() == 0,
                KindView::File { size, links, allocated, .. } => {
                    &&& all.bytes == size
                    &&& all.dirs == 0
                    &&& all.files == 1
                    &&& all.symlinks == 0
                    &&& links > 1 <==> all.hard_linked == seq![entry.rel]
                    &&& links <= 1 <==> all.hard_linked.len() == 0
                    &&& allocated < size <==> all.sparse == seq![entry.rel]
                    &&& allocated >= size <==> all.sparse.len() == 0
                    &&& allocated < size ==> all.sparse_saving == size - allocated
                    &&& allocated >= size ==> all.sparse_saving == 0
                },
            }
        }),
{
    let one = seq![entry];
    assert(one.drop_last() =~= Seq::empty());
    assert(totals(one.drop_last()).hard_linked =~= Seq::empty());
    let none = Seq::<Seq<u8>>::empty();
    assert(none.push(entry.rel) =~= seq![entry.rel]);
    assert(none.push(entry.rel).len() == 1);
}

/// Is an entry the same as another, as far as a copy has to carry it?
pub open spec fn is_same_entry(want: EntryView, got: EntryView) -> bool {
    match want.kind {
        KindView::Dir => got.kind is Dir && want.mode & 0o7777 == got.mode & 0o7777,
        KindView::File { size, digest, .. } => got.kind is File && got.kind->File_size == size && got.kind->File_digest
            == digest && want.mode & 0o7777 == got.mode & 0o7777,
        KindView::Symlink { target } => got.kind is Symlink && parts(got.kind->Symlink_target) == parts(target),
    }
}

/// Where a copy passes, each of its entries is the one of the source at the same path: of its kind, with the same size,
/// contents, permissions or link text. One difference anywhere and it does not pass.
pub proof fn law_one_difference_is_enough(expected: Seq<EntryView>, actual: Seq<EntryView>, i: int, k: int)
    requires
        distinct(actual),
        0 <= i < expected.len(),
        0 <= k < actual.len(),
        parts(expected[i].rel) == parts(actual[k].rel),
        !is_same_entry(expected[i], actual[k]),
    ensures
        copy_problems(expected, actual).len() > 0,
{
    if copy_problems(expected, actual).len() == 0 {
        law_verified_copy_is_complete(expected, actual);
        assert(has_copy(expected[i], actual));
        let m = choose|m: int|
            0 <= m < actual.len() && parts(#[trigger] actual[m].rel) == parts(expected[i].rel) && carried(
                expected[i],
                actual[m],
            );
        if m < k {
            assert(parts(actual[m].rel) != parts(actual[k].rel));
        } else if k < m {
            assert(parts(actual[k].rel) != parts(actual[m].rel));
        }
    }
}

/// A path that only one of two trees has is enough for them not to pass.
pub proof fn law_missing_and_extra_entries_are_noticed(expected: Seq<EntryView>, actual: Seq<EntryView>, i: int)
    ensures
        0 <= i < expected.len() && (forall|k: int|
            0 <= k < actual.len() ==> parts((#[trigger] actual[k]).rel) != parts(expected[i].rel)) ==> copy_problems(
            expected,
            actual,
        ).len() > 0,
        0 <= i < actual.len() && (forall|k: int|
            0 <= k < expected.len() ==> parts((#[trigger] expected[k]).rel) != parts(actual[i].rel)) ==> copy_problems(
            expected,
            actual,
        ).len() > 0,
{
    if copy_problems(expected, actual).len() == 0 {
        law_verified_copy_is_complete(expected, actual);
        if 0 <= i < expected.len() {
            assert(has_copy(expected[i], actual));
        }
        if 0 <= i < actual.len() {
            assert(has_path(actual[i].rel, expected));
        }
    }
}

/// A tree passes against itself, and against one that differs only in times, allocation and file numbers where no file
/// has more than one name.
pub proof fn law_tree_passes_against_its_likes(expected: Seq<EntryView>, actual: Seq<EntryView>)
    requires
        distinct(expected),
        expected.len() == actual.len(),
        forall|i: int|
            0 <= i < expected.len() ==> (#[trigger] actual[i]).rel == expected[i].rel && is_same_entry(
                expected[i],
                actual[i],
            ),
        expected == actual || forall|i: int|
            0 <= i < expected.len() ==> !(#[trigger] expected[i]).is_linked() && !actual[i].is_linked(),
    ensures
        copy_problems(expected, actual).len() == 0,
{
    assert forall|i: int, j: int| 0 <= i < j < actual.len() implies parts(#[trigger] actual[i].rel) != parts(
        #[trigger] actual[j].rel,
    ) by {
        assert(actual[i].rel == expected[i].rel && actual[j].rel == expected[j].rel);
    }
    assert forall|i: int| 0 <= i < expected.len() implies #[trigger] has_copy(expected[i], actual) by {
        assert(actual[i].rel == expected[i].rel);
        assert(carried(expected[i], actual[i]));
    }
    assert forall|i: int| 0 <= i < actual.len() implies #[trigger] has_path(actual[i].rel, expected) by {
        assert(parts(expected[i].rel) == parts(actual[i].rel));
    }
    if expected != actual {
        lemma_nothing_shared(expected);
        lemma_nothing_shared(actual);
        assert(sharing(expected) =~= sharing(actual));
    }
    law_matching_trees_pass(expected, actual);
}

proof fn lemma_nothing_shared(entries: Seq<EntryView>)
    requires
        forall|i: int| 0 <= i < entries.len() ==> !(#[trigger] entries[i]).is_linked(),
    ensures
        shared_files(entries).len() == 0,
        sharing(entries) == Seq::<Multiset<Seq<u32>>>::empty().to_multiset(),
    decreases entries.len(),
{
    if entries.len() > 0 {
        assert forall|i: int| 0 <= i < entries.drop_last().len() implies !(#[trigger] entries.drop_last(
            )[i]).is_linked() by {
            assert(!entries[i].is_linked());
        }
        lemma_nothing_shared(entries.drop_last());
        assert(!entries[entries.len() - 1].is_linked());
    }
    assert(Seq::new(shared_files(entries).len(), |i: int| names_of(entries, shared_files(entries)[i])) =~= Seq::<
        Multiset<Seq<u32>>,
    >::empty());
}

/// Has what is at a path not changed: is it of the same kind, with the same size or link text, and as old?
pub open spec fn is_as_it_was(before: EntryView, after: EntryView) -> bool {
    before.mtime == after.mtime && match before.kind {
        KindView::Dir => after.kind is Dir,
        KindView::File { size, .. } => after.kind is File && after.kind->File_size == size,
        KindView::Symlink { target } => after.kind is Symlink && parts(after.kind->Symlink_target) == parts(target),
    }
}

/// A change of one entry is noticed.
pub proof fn law_one_change_is_noticed(before: Seq<EntryView>, after: Seq<EntryView>, i: int, k: int)
    requires
        distinct(after),
        0 <= i < before.len(),
        0 <= k < after.len(),
        parts(before[i].rel) == parts(after[k].rel),
        !is_as_it_was(before[i], after[k]),
    ensures
        tree_changes(before, after).len() > 0,
{
    if tree_changes(before, after).len() == 0 {
        law_changes_are_noticed(before, after);
        assert(is_unchanged(before[i], after));
        let m = choose|m: int|
            0 <= m < after.len() && parts(#[trigger] after[m].rel) == parts(before[i].rel) && crate::fsops::same_kind(
                before[i].kind,
                after[m].kind,
            ) && before[i].mtime == after[m].mtime;
        if m < k {
            assert(parts(after[m].rel) != parts(after[k].rel));
        } else if k < m {
            assert(parts(after[k].rel) != parts(after[m].rel));
        }
    }
}

/// Are two entries one file, by what the filesystem says of them?
pub open spec fn are_one_file(left: EntryView, right: EntryView) -> bool {
    &&& left.kind is File
    &&& right.kind is File
    &&& left.kind->File_links > 1
    &&& right.kind->File_links > 1
    &&& left.kind->File_identity == right.kind->File_identity
}

proof fn lemma_names_of(entries: Seq<EntryView>, file: (u64, u64), key: Seq<u32>)
    ensures
        names_of(entries, file).count(key) > 0 <==> exists|i: int|
            0 <= i < entries.len() && file_of(#[trigger] entries[i]) == Some(file) && path_key(entries[i].rel) == key,
    decreases entries.len(),
{
    if entries.len() > 0 {
        let front = entries.drop_last();
        lemma_names_of(front, file, key);
        assert(forall|i: int| 0 <= i < front.len() ==> #[trigger] front[i] == entries[i]);
        if names_of(entries, file).count(key) > 0 {
            if names_of(front, file).count(key) > 0 {
                let i = choose|i: int|
                    0 <= i < front.len() && file_of(#[trigger] front[i]) == Some(file) && path_key(front[i].rel) == key;
                assert(file_of(entries[i]) == Some(file));
            } else {
                assert(file_of(entries[entries.len() - 1]) == Some(file));
            }
        }
        if exists|i: int|
            0 <= i < entries.len() && file_of(#[trigger] entries[i]) == Some(file) && path_key(entries[i].rel) == key {
            let i = choose|i: int|
                0 <= i < entries.len() && file_of(#[trigger] entries[i]) == Some(file) && path_key(entries[i].rel)
                    == key;
            if i < front.len() {
                assert(file_of(front[i]) == Some(file) && path_key(front[i].rel) == key);
            }
        }
    }
}

proof fn lemma_is_shared(entries: Seq<EntryView>, i: int)
    requires
        0 <= i < entries.len(),
        file_of(entries[i]) is Some,
    ensures
        shared_files(entries).contains(file_of(entries[i])->0),
    decreases entries.len(),
{
    let front = entries.drop_last();
    let before = shared_files(front);
    let all = shared_files(entries);
    let file = file_of(entries[i])->0;
    if i < front.len() {
        assert(front[i] == entries[i]);
        lemma_is_shared(front, i);
        let n = choose|n: int| 0 <= n < before.len() && before[n] == file;
        assert(all[n] == file);
    } else if !before.contains(file) {
        assert(all[before.len() as int] == file);
    }
}

/// Names that are one file in a tree are one file in a copy that passes.
pub proof fn law_shared_names_stay_shared(expected: Seq<EntryView>, actual: Seq<EntryView>, i: int, j: int, k: int,
    l: int)
    requires
        copy_problems(expected, actual).len() == 0,
        distinct(actual),
        0 <= i < expected.len(),
        0 <= j < expected.len(),
        0 <= k < actual.len(),
        0 <= l < actual.len(),
        parts(actual[k].rel) == parts(expected[i].rel),
        parts(actual[l].rel) == parts(expected[j].rel),
        are_one_file(expected[i], expected[j]),
    ensures
        are_one_file(actual[k], actual[l]),
{
    law_verified_copy_is_complete(expected, actual);
    let file = file_of(expected[i])->0;
    let names = names_of(expected, file);
    let a = path_key(expected[i].rel);
    let b = path_key(expected[j].rel);
    lemma_is_shared(expected, i);
    let left = Seq::new(shared_files(expected).len(), |n: int| names_of(expected, shared_files(expected)[n]));
    let right = Seq::new(shared_files(actual).len(), |n: int| names_of(actual, shared_files(actual)[n]));
    let n = choose|n: int| 0 <= n < shared_files(expected).len() && shared_files(expected)[n] == file;
    assert(left[n] == names);
    left.to_multiset_ensures();
    right.to_multiset_ensures();
    assert(left.contains(names));
    assert(left.to_multiset().count(names) > 0);
    assert(right.to_multiset().count(names) > 0);
    assert(right.contains(names));
    let m = choose|m: int| 0 <= m < right.len() && right[m] == names;
    let other = shared_files(actual)[m];
    lemma_names_of(expected, file, a);
    lemma_names_of(expected, file, b);
    lemma_names_of(actual, other, a);
    lemma_names_of(actual, other, b);
    assert(file_of(expected[i]) == Some(file) && file_of(expected[j]) == Some(file));
    let x = choose|x: int| 0 <= x < actual.len() && file_of(#[trigger] actual[x]) == Some(other)
        && path_key(actual[x].rel) == a;
    let y = choose|y: int| 0 <= y < actual.len() && file_of(#[trigger] actual[y]) == Some(other)
        && path_key(actual[y].rel) == b;
    law_keys_tell_paths_apart(actual[x].rel, expected[i].rel);
    law_keys_tell_paths_apart(actual[y].rel, expected[j].rel);
    if x != k {
        if x < k {
            assert(parts(actual[x].rel) != parts(actual[k].rel));
        } else {
            assert(parts(actual[k].rel) != parts(actual[x].rel));
        }
    }
    if y != l {
        if y < l {
            assert(parts(actual[y].rel) != parts(actual[l].rel));
        } else {
            assert(parts(actual[l].rel) != parts(actual[y].rel));
        }
    }
}

/// A whole number of kibibytes, mebibytes, gibibytes or tebibytes below 1024 is shown as such, and fewer than 1024 bytes
/// as bytes.
pub proof fn law_sizes_are_shown_in_their_unit(n: nat, count: nat)
    requires
        1 <= count < 1024,
    ensures
        n < 1024 ==> size_text(n) == decimal_text(n) + " B"@,
        size_text(count * 1024) == decimal_text(count) + "."@ + decimal_text(0) + " KiB"@,
        size_text(count * 0x10_0000) == decimal_text(count) + "."@ + decimal_text(0) + " MiB"@,
        size_text(count * 0x4000_0000) == decimal_text(count) + "."@ + decimal_text(0) + " GiB"@,
        size_text(count * 0x100_0000_0000) == decimal_text(count) + "."@ + decimal_text(0) + " TiB"@,
{
    lemma_whole(count, 1024);
    lemma_whole(count, 0x10_0000);
    lemma_whole(count, 0x4000_0000);
    lemma_whole(count, 0x100_0000_0000);
}

proof fn lemma_whole(count: nat, unit: nat)
    requires
        1 <= count < 1024,
        unit == 1024 || unit == 0x10_0000 || unit == 0x4000_0000 || unit == 0x100_0000_0000,
    ensures
        nearest(10 * in_53_bits(count * unit), unit) == 10 * count,
        unit_size(unit_of(count * unit)) == unit,
        (10 * count) / 10 == count,
        (10 * count) % 10 == 0,
{
    let n = count * unit;
    assert(unit <= count * unit < 1024 * unit) by (nonlinear_arith)
        requires
            1 <= count < 1024,
            0 < unit,
    ;
    assert(spread(n, 1) == 1);
    assert(n / 1 == n && n % 1 == 0);
    assert(in_53_bits(n) == n);
    let ten = 10 * n;
    assert(ten == (10 * count) * unit) by (nonlinear_arith)
        requires
            ten == 10 * (count * unit),
    ;
    assert(ten / unit == 10 * count && ten % unit == 0) by (nonlinear_arith)
        requires
            ten == (10 * count) * unit,
            0 < unit,
    ;
}

/// Is it a name, or a step up?
pub open spec fn is_step(step: PartView) -> bool {
    match step {
        PartView::Name(name) => is_name(name),
        PartView::Up => true,
        _ => false,
    }
}

pub open spec fn all_steps(steps: Seq<PartView>) -> bool {
    forall|i: int| 0 <= i < steps.len() ==> is_step(#[trigger] steps[i])
}

pub open spec fn all_names(steps: Seq<PartView>) -> bool {
    forall|i: int| 0 <= i < steps.len() ==> is_step(#[trigger] steps[i]) && steps[i] is Name
}

proof fn lemma_one_step(base: Seq<u8>, step: PartView)
    requires
        is_step(step),
    ensures
        parts(under(base, step_bytes(step))) == parts(base).push(step),
        step_bytes(step).len() > 0,
        !absolute(step_bytes(step)),
        step_bytes(step).last() != 47,
{
    let bytes = step_bytes(step);
    match step {
        PartView::Name(name) => {
            lemma_name_parts(name);
            law_join_adds_steps(base, name);
            assert(!name.contains(47));
            assert(name[name.len() - 1] != 47);
            assert(parts(under(base, bytes)) =~= parts(base).push(step));
        },
        _ => {
            let up = seq![46u8, 46u8];
            let dot_ = seq![46u8];
            let none = Seq::<u8>::empty();
            assert(up.drop_last() =~= dot_);
            assert(dot_.drop_last() =~= none);
            assert(split(none, 47u8) =~= seq![none]);
            assert(split(dot_, 47u8) =~= seq![dot_]) by {
                assert(none.push(46u8) =~= dot_);
                assert(split(none, 47u8).drop_last().push(none.push(46u8)) =~= seq![dot_]);
            }
            assert(split(up, 47u8) =~= seq![up]) by {
                assert(dot_.push(46u8) =~= up);
                assert(split(dot_, 47u8).drop_last().push(dot_.push(46u8)) =~= seq![up]);
            }
            assert(parts(up) =~= seq![PartView::Up]) by {
                assert(seq![up].drop_last() =~= Seq::<Seq<u8>>::empty());
                assert(parts_of(Seq::<Seq<u8>>::empty()) =~= Seq::empty());
                assert(parts_of(seq![up]) =~= seq![PartView::Up]);
            }
            law_join_adds_steps(base, up);
            assert(parts(under(base, bytes)) =~= parts(base).push(step));
        },
    }
}

proof fn lemma_written_steps(base: Seq<u8>, steps: Seq<PartView>)
    requires
        all_steps(steps),
    ensures
        parts(under(base, path_of(steps))) == if steps.len() == 0 {
            parts(under(base, path_of(steps)))
        } else {
            parts(base) + steps
        },
        steps.len() > 0 ==> path_of(steps).len() > 0 && !absolute(path_of(steps)) && path_of(steps).last() != 47,
    decreases steps.len(),
{
    if steps.len() > 0 {
        let front = steps.drop_last();
        let last = steps.last();
        assert(is_step(steps[steps.len() - 1]));
        assert(all_steps(front)) by {
            assert forall|i: int| 0 <= i < front.len() implies is_step(#[trigger] front[i]) by {
                assert(is_step(steps[i]));
            }
        }
        lemma_written_steps(base, front);
        let before = path_of(front);
        let piece = step_bytes(last);
        lemma_one_step(under(base, before), last);
        lemma_one_step(base, last);
        if front.len() == 0 {
            assert(path_of(steps) =~= piece);
            assert(parts(base).push(last) =~= parts(base) + steps);
        } else {
            assert(under(base, under(before, piece)) =~= under(under(base, before), piece));
            assert((parts(base) + front).push(last) =~= parts(base) + steps);
        }
    }
}

/// A path that is written step by step has these steps.
proof fn lemma_path_of_absolute(steps: Seq<PartView>)
    requires
        steps.len() > 0,
        steps[0] == PartView::Root,
        all_steps(steps.skip(1)),
    ensures
        parts(path_of(steps)) == steps,
    decreases steps.len(),
{
    let front = steps.drop_last();
    if steps.len() == 1 {
        assert(front =~= Seq::empty());
        let root = seq![47u8];
        let none = Seq::<u8>::empty();
        assert(path_of(front) =~= none);
        assert(path_of(steps) =~= root);
        assert(root.drop_last() =~= none);
        assert(split(none, 47u8) =~= seq![none]);
        assert(split(root, 47u8) =~= seq![none, none]);
        let pieces = seq![none, none];
        assert(pieces.drop_last() =~= seq![none]);
        assert(seq![none].drop_last() =~= Seq::<Seq<u8>>::empty());
        assert(parts_of(Seq::<Seq<u8>>::empty()) =~= Seq::empty());
        assert(parts_of(seq![none]) =~= Seq::empty());
        assert(parts_of(pieces) =~= Seq::empty());
        assert(parts(root) =~= seq![PartView::Root]);
        assert(steps =~= seq![PartView::Root]);
    } else {
        let last = steps.last();
        assert(last == steps.skip(1)[steps.len() - 2]);
        assert(all_steps(front.skip(1))) by {
            assert forall|i: int| 0 <= i < front.skip(1).len() implies is_step(#[trigger] front.skip(1)[i]) by {
                assert(front.skip(1)[i] == steps.skip(1)[i]);
            }
        }
        lemma_path_of_absolute(front);
        lemma_one_step(path_of(front), last);
        assert(front.push(last) =~= steps);
    }
}

proof fn lemma_normal_names(steps: Seq<PartView>, more: Seq<PartView>)
    requires
        all_names(more),
    ensures
        normal(steps + more) == normal(steps) + more,
    decreases more.len(),
{
    if more.len() == 0 {
        assert(steps + more =~= steps);
        assert(normal(steps) + more =~= normal(steps));
    } else {
        let front = more.drop_last();
        assert((steps + more).drop_last() =~= steps + front);
        assert((steps + more).last() == more.last());
        assert(more[more.len() - 1] is Name);
        assert(all_names(front)) by {
            assert forall|i: int| 0 <= i < front.len() implies is_step(#[trigger] front[i]) && front[i] is Name by {
                assert(is_step(more[i]));
            }
        }
        lemma_normal_names(steps, front);
        assert((normal(steps) + front).push(more.last()) =~= normal(steps) + more);
    }
}

pub open spec fn ups(n: nat) -> Seq<PartView> {
    Seq::new(n, |i: int| PartView::Up)
}

proof fn lemma_normal_ups(steps: Seq<PartView>, n: nat)
    requires
        steps.len() > n,
        forall|i: int| 0 < i < steps.len() ==> #[trigger] steps[i] is Name,
        normal(steps) == steps,
    ensures
        normal(steps + ups(n)) == steps.take(steps.len() - n),
    decreases n,
{
    if n == 0 {
        assert(steps + ups(n) =~= steps);
        assert(steps.take(steps.len() as int) =~= steps);
    } else {
        lemma_normal_ups(steps, (n - 1) as nat);
        let whole = steps + ups(n);
        assert(whole.drop_last() =~= steps + ups((n - 1) as nat));
        assert(whole.last() == PartView::Up);
        let before = steps.take(steps.len() - (n - 1));
        assert(before.last() == steps[steps.len() - n]);
        assert(before.drop_last() =~= steps.take(steps.len() - n));
    }
}

/// A relative link leads out of a tree exactly when it goes up further than it is deep in the tree, and does not come
/// back in by the names of the tree's own directories. The tree is at the names `root` below `/`; the link is at the
/// names `rel` in it, and says to go up `up` times and then down the names `down`.
pub proof fn law_links_escape_by_going_up_too_far(
    root: Seq<PartView>,
    rel: Seq<PartView>,
    up: nat,
    down: Seq<PartView>,
    entry: EntryView,
)
    requires
        all_names(root),
        all_names(rel),
        all_names(down),
        rel.len() > 0,
        up + down.len() > 0,
        up < root.len() + rel.len(),
        entry.rel == path_of(rel),
        entry.kind == (KindView::Symlink { target: path_of(ups(up) + down) }),
    ensures
        up < rel.len() ==> !escapes(path_of(seq![PartView::Root] + root), entry),
        up >= rel.len() ==> (escapes(path_of(seq![PartView::Root] + root), entry) <==> !root.is_prefix_of(
            root.take(root.len() - (up - rel.len() + 1)) + down,
        )),
{
    let top = seq![PartView::Root];
    let place = path_of(top + root);
    assert((top + root).skip(1) =~= root);
    lemma_path_of_absolute(top + root);
    assert(normal(top) =~= top) by {
        assert(top.drop_last() =~= Seq::empty());
        assert(normal(top.drop_last()) =~= Seq::empty());
    }
    lemma_normal_names(top, root);
    assert(normal(parts(place)) == top + root);
    assert(normal_path(place) == place);
    let holder = under(place, path_of(rel));
    lemma_written_steps(place, rel);
    law_parent_drops_the_last_step(holder);
    let parent = parent_of(holder)->0;
    let above = rel.drop_last();
    assert((top + root + rel).drop_last() =~= top + root + above);
    assert(parts(parent) == top + root + above);
    let steps = ups(up) + down;
    assert(all_steps(steps)) by {
        assert forall|i: int| 0 <= i < steps.len() implies is_step(#[trigger] steps[i]) by {
            if i >= up {
                assert(is_step(down[i - up]));
            }
        }
    }
    lemma_written_steps(parent, steps);
    let all = top + root + above;
    assert(all_names(above)) by {
        assert forall|i: int| 0 <= i < above.len() implies is_step(#[trigger] above[i]) && above[i] is Name by {
            assert(is_step(rel[i]));
        }
    }
    lemma_normal_names(top + root, above);
    assert(normal(all) == all);
    assert forall|i: int| 0 < i < all.len() implies #[trigger] all[i] is Name by {
        if i - 1 < root.len() {
            assert(root[i - 1] is Name);
        } else {
            assert(above[i - 1 - root.len()] is Name);
        }
    }
    lemma_normal_ups(all, up);
    lemma_normal_names(all + ups(up), down);
    let cut = all.take(all.len() - up);
    assert(all + (ups(up) + down) =~= (all + ups(up)) + down);
    assert(normal(parts(under(parent, path_of(steps)))) == cut + down);
    let ends = cut + down;
    assert(ends[0] == PartView::Root);
    assert(all_steps(ends.skip(1))) by {
        assert forall|i: int| 0 <= i < ends.skip(1).len() implies is_step(#[trigger] ends.skip(1)[i]) by {
            if i + 1 < cut.len() {
                assert(ends.skip(1)[i] == all[i + 1]);
                if i < root.len() {
                    assert(is_step(root[i]));
                } else {
                    assert(is_step(above[i - root.len()]));
                }
            } else {
                assert(is_step(down[i + 1 - cut.len()]));
            }
        }
    }
    lemma_path_of_absolute(ends);
    assert(parts(leads_to(place, entry.rel, path_of(steps))) == ends);
    let base = top + root;
    if up < rel.len() {
        assert(ends.subrange(0, base.len() as int) =~= base);
    } else {
        let short = root.take(root.len() - (up - rel.len() + 1));
        assert(ends =~= top + (short + down));
        if root.is_prefix_of(short + down) {
            assert((short + down).subrange(0, root.len() as int) =~= root);
            assert(ends.subrange(0, base.len() as int) =~= base) by {
                assert forall|i: int| 0 <= i < base.len() implies ends[i] == base[i] by {
                    if i > 0 {
                        assert((short + down).subrange(0, root.len() as int)[i - 1] == root[i - 1]);
                    }
                }
            }
        }
        if base.is_prefix_of(ends) {
            assert(ends.subrange(0, base.len() as int) =~= base);
            assert((short + down).subrange(0, root.len() as int) =~= root) by {
                assert forall|i: int| 0 <= i < root.len() implies (short + down)[i] == root[i] by {
                    assert(ends.subrange(0, base.len() as int)[i + 1] == base[i + 1]);
                }
            }
        }
    }
}

/// The links that are found to lead out of a tree are exactly those that do, with what they say.
pub proof fn law_every_escaping_link_is_named(root: Seq<u8>, entries: Seq<EntryView>)
    ensures
        forall|i: int|
            0 <= i < entries.len() && escapes(root, #[trigger] entries[i]) ==> crate::fsops::escaping(
                root,
                entries,
            ).contains((entries[i].rel, entries[i].kind->Symlink_target)),
        forall|k: int|
            0 <= k < crate::fsops::escaping(root, entries).len() ==> is_escaping_in(
                root,
                entries,
                #[trigger] crate::fsops::escaping(root, entries)[k],
            ),
    decreases entries.len(),
{
    if entries.len() > 0 {
        let front = entries.drop_last();
        let before = crate::fsops::escaping(root, front);
        let all = crate::fsops::escaping(root, entries);
        law_every_escaping_link_is_named(root, front);
        assert forall|i: int| 0 <= i < entries.len() && escapes(root, #[trigger] entries[i]) implies all.contains(
            (entries[i].rel, entries[i].kind->Symlink_target),
        ) by {
            let pair = (entries[i].rel, entries[i].kind->Symlink_target);
            if i < front.len() {
                assert(front[i] == entries[i]);
                assert(before.contains(pair));
                let k = choose|k: int| 0 <= k < before.len() && before[k] == pair;
                assert(all[k] == pair);
            } else {
                assert(all[before.len() as int] == pair);
            }
        }
        assert forall|k: int| 0 <= k < all.len() implies is_escaping_in(root, entries, #[trigger] all[k]) by {
            if k < before.len() {
                assert(is_escaping_in(root, front, before[k]));
                let i = choose|i: int|
                    0 <= i < front.len() && escapes(root, #[trigger] front[i]) && before[k] == (
                    front[i].rel,
                    front[i].kind->Symlink_target);
                assert(escapes(root, entries[i]));
            } else {
                assert(escapes(root, entries[entries.len() - 1]));
            }
        }
    }
}

pub open spec fn is_escaping_in(root: Seq<u8>, entries: Seq<EntryView>, pair: (Seq<u8>, Seq<u8>)) -> bool {
    exists|i: int|
        0 <= i < entries.len() && escapes(root, #[trigger] entries[i]) && pair == (
        entries[i].rel,
        entries[i].kind->Symlink_target)
}

} // verus!
