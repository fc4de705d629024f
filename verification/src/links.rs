//! Which names of a tree lead to one file.

use std::collections::HashMap;

use vstd::multiset::Multiset;
use vstd::prelude::*;

use crate::fsops::{entries_view, Entry, EntryView, Kind, KindView};
use crate::path::{parts, parts_key, part_key, path_key, PartView};
use crate::sort::{
    arranged, ascending, before, keys_view, law_one_ascending_list, same_keys,
};

verus! {

/// The device and inode of a file that has more than one name.
pub open spec fn file_of(entry: EntryView) -> Option<(u64, u64)> {
    match entry.kind {
        KindView::File { links, identity, .. } => if links > 1 {
            Some(identity)
        } else {
            None
        },
        _ => None,
    }
}

/// The names under which a file stands in the entries.
pub open spec fn names_of(entries: Seq<EntryView>, file: (u64, u64)) -> Multiset<Seq<u32>>
    decreases entries.len(),
{
    if entries.len() == 0 {
        Multiset::empty()
    } else if file_of(entries.last()) == Some(file) {
        names_of(entries.drop_last(), file).insert(path_key(entries.last().rel))
    } else {
        names_of(entries.drop_last(), file)
    }
}

/// The files that have more than one name, in the order in which they first appear.
pub open spec fn shared_files(entries: Seq<EntryView>) -> Seq<(u64, u64)>
    decreases entries.len(),
{
    if entries.len() == 0 {
        Seq::empty()
    } else {
        let before = shared_files(entries.drop_last());
        match file_of(entries.last()) {
            Some(file) => if before.contains(file) {
                before
            } else {
                before.push(file)
            },
            None => before,
        }
    }
}

/// Which names belong together: for each file that has more than one name, its names.
pub open spec fn sharing(entries: Seq<EntryView>) -> Multiset<Multiset<Seq<u32>>> {
    let files = shared_files(entries);
    Seq::new(files.len(), |i: int| names_of(entries, files[i])).to_multiset()
}

/// Keys one behind the other, so that they can be told apart again.
spec fn flat(keys: Seq<Seq<u32>>) -> Seq<u32>
    decreases keys.len(),
{
    if keys.len() == 0 {
        Seq::empty()
    } else {
        flat(keys.drop_last()) + raised(keys.last()).push(0)
    }
}

spec fn raised(key: Seq<u32>) -> Seq<u32> {
    Seq::new(key.len(), |i: int| (key[i] + 1) as u32)
}

spec fn small_key(key: Seq<u32>) -> bool {
    forall|i: int| 0 <= i < key.len() ==> #[trigger] key[i] <= 1000
}

spec fn small(keys: Seq<Seq<u32>>) -> bool {
    forall|i: int| 0 <= i < keys.len() ==> small_key(#[trigger] keys[i])
}

proof fn lemma_small_parts_key(list: Seq<PartView>)
    ensures
        small_key(parts_key(list)),
    decreases list.len(),
{
    if list.len() > 0 {
        lemma_small_parts_key(list.drop_last());
        assert(small_key(part_key(list.last())));
    }
}

proof fn lemma_flat_front(keys: Seq<Seq<u32>>)
    requires
        keys.len() > 0,
    ensures
        flat(keys) == raised(keys[0]).push(0) + flat(keys.skip(1)),
    decreases keys.len(),
{
    if keys.len() == 1 {
        assert(keys.drop_last() =~= Seq::empty());
        assert(keys.skip(1) =~= Seq::empty());
        assert(flat(keys) =~= raised(keys[0]).push(0) + flat(keys.skip(1)));
    } else {
        lemma_flat_front(keys.drop_last());
        assert(keys.drop_last().skip(1) =~= keys.skip(1).drop_last());
        assert(flat(keys) =~= raised(keys[0]).push(0) + flat(keys.skip(1)));
    }
}

proof fn lemma_flat_injective(left: Seq<Seq<u32>>, right: Seq<Seq<u32>>)
    requires
        small(left),
        small(right),
        flat(left) == flat(right),
    ensures
        left == right,
    decreases left.len(),
{
    if left.len() > 0 {
        lemma_flat_front(left);
    }
    if right.len() > 0 {
        lemma_flat_front(right);
    }
    if left.len() > 0 && right.len() > 0 {
        let a = left[0];
        let b = right[0];
        let f = flat(left);
        assert(small_key(a) && small_key(b));
        assert(f[a.len() as int] == 0);
        assert(f[b.len() as int] == 0);
        if a.len() < b.len() {
            assert(f[a.len() as int] == (b[a.len() as int] + 1) as u32);
        }
        if b.len() < a.len() {
            assert(f[b.len() as int] == (a[b.len() as int] + 1) as u32);
        }
        assert forall|i: int| 0 <= i < a.len() implies a[i] == b[i] by {
            assert(f[i] == (a[i] + 1) as u32);
            assert(f[i] == (b[i] + 1) as u32);
        }
        assert(a =~= b);
        assert(f.skip(a.len() as int + 1) =~= flat(left.skip(1)));
        assert(f.skip(b.len() as int + 1) =~= flat(right.skip(1)));
        assert(small(left.skip(1))) by {
            assert forall|i: int| 0 <= i < left.skip(1).len() implies small_key(
                #[trigger] left.skip(1)[i],
            ) by {
                assert(small_key(left[i + 1]));
            }
        }
        assert(small(right.skip(1))) by {
            assert forall|i: int| 0 <= i < right.skip(1).len() implies small_key(
                #[trigger] right.skip(1)[i],
            ) by {
                assert(small_key(right[i + 1]));
            }
        }
        lemma_flat_injective(left.skip(1), right.skip(1));
        assert(left =~= seq![a] + left.skip(1));
        assert(right =~= seq![b] + right.skip(1));
    } else {
        assert(flat(Seq::<Seq<u32>>::empty()).len() == 0);
        assert(left.len() > 0 ==> flat(left).len() > 0);
        assert(right.len() > 0 ==> flat(right).len() > 0);
        assert(left.len() == 0 ==> left =~= Seq::<Seq<u32>>::empty());
        assert(right.len() == 0 ==> right =~= Seq::<Seq<u32>>::empty());
    }
}

/// Where equal things of one kind stand beside equal things of another, equal collections of the
/// first are equal collections of the second.
proof fn lemma_transfer<A, B>(x1: Seq<A>, y1: Seq<B>, x2: Seq<A>, y2: Seq<B>)
    requires
        x1.len() == y1.len(),
        x2.len() == y2.len(),
        forall|i: int, j: int|
            0 <= i < x1.len() && 0 <= j < x2.len() && #[trigger] x1[i] == #[trigger] x2[j] ==> y1[i]
                == y2[j],
        x1.to_multiset() == x2.to_multiset(),
    ensures
        y1.to_multiset() == y2.to_multiset(),
    decreases x1.len(),
{
    broadcast use vstd::seq_lib::group_to_multiset_ensures;
    broadcast use vstd::multiset::group_multiset_axioms;

    vstd::seq_lib::to_multiset_len(x1);
    vstd::seq_lib::to_multiset_len(x2);
    if x1.len() == 0 {
        assert(y1 =~= y2.take(0));
        assert(y2 =~= y1);
    } else {
        let n = x1.len() - 1;
        let last = x1[n];
        assert(x1.contains(last));
        vstd::seq_lib::to_multiset_contains(x1, last);
        vstd::seq_lib::to_multiset_contains(x2, last);
        let j = choose|j: int| 0 <= j < x2.len() && x2[j] == last;
        let xs = x1.remove(n);
        let ys = y1.remove(n);
        let xt = x2.remove(j);
        let yt = y2.remove(j);
        vstd::seq_lib::to_multiset_remove(x1, n);
        vstd::seq_lib::to_multiset_remove(x2, j);
        vstd::seq_lib::to_multiset_remove(y1, n);
        vstd::seq_lib::to_multiset_remove(y2, j);
        assert forall|i: int, k: int|
            0 <= i < xs.len() && 0 <= k < xt.len() && #[trigger] xs[i] == #[trigger] xt[k] implies ys[i]
            == yt[k] by {
            let k2 = if k < j {
                k
            } else {
                k + 1
            };
            assert(x1[i] == xs[i]);
            assert(x2[k2] == xt[k]);
        }
        lemma_transfer(xs, ys, xt, yt);
        assert(y1.contains(y1[n]));
        assert(y2.contains(y2[j]));
        vstd::seq_lib::to_multiset_contains(y1, y1[n]);
        vstd::seq_lib::to_multiset_contains(y2, y2[j]);
        assert(x1[n] == x2[j]);
        assert(y1.to_multiset() =~= ys.to_multiset().insert(y1[n]));
        assert(y2.to_multiset() =~= yt.to_multiset().insert(y2[j]));
    }
}

pub open spec fn file_number(file: (u64, u64)) -> u128 {
    (file.0 as int * 0x1_0000_0000_0000_0000 + file.1 as int) as u128
}

pub fn number_of(file: (u64, u64)) -> (number: u128)
    ensures
        number == file_number(file),
        number == file.0 as int * 0x1_0000_0000_0000_0000 + file.1 as int,
{
    file.0 as u128 * 0x1_0000_0000_0000_0000 + file.1 as u128
}

pub proof fn lemma_file_number(a: (u64, u64), b: (u64, u64))
    ensures
        file_number(a) == file_number(b) ==> a == b,
{
    assert(0 <= a.0 as int * 0x1_0000_0000_0000_0000 + a.1 as int <= u128::MAX);
    assert(0 <= b.0 as int * 0x1_0000_0000_0000_0000 + b.1 as int <= u128::MAX);
}

spec fn group_names(groups: Seq<Vec<Vec<u32>>>) -> Seq<Multiset<Seq<u32>>> {
    Seq::new(groups.len(), |i: int| keys_view(groups[i]@).to_multiset())
}

proof fn lemma_names_elsewhere(entries: Seq<EntryView>, file: (u64, u64))
    requires
        !shared_files(entries).contains(file),
    ensures
        names_of(entries, file) == Multiset::<Seq<u32>>::empty(),
    decreases entries.len(),
{
    if entries.len() > 0 {
        let before = shared_files(entries.drop_last());
        if before.contains(file) {
            let at = choose|at: int| 0 <= at < before.len() && before[at] == file;
            assert(shared_files(entries)[at] == file);
        }
        if file_of(entries.last()) == Some(file) {
            assert(before.push(file).last() == file);
            assert(before.push(file).contains(file));
        }
        lemma_names_elsewhere(entries.drop_last(), file);
    }
}

/// The names of each file that has more than one.
fn collect(entries: &Vec<Entry>) -> (groups: Vec<Vec<Vec<u32>>>)
    ensures
        group_names(groups@).to_multiset() == sharing(entries_view(entries@)),
        groups@.len() == shared_files(entries_view(entries@)).len(),
        forall|g: int| 0 <= g < groups@.len() ==> small(keys_view(#[trigger] groups@[g]@)),
{
    broadcast use vstd::std_specs::hash::group_hash_axioms;
    broadcast use vstd::seq_lib::group_to_multiset_ensures;
    broadcast use vstd::multiset::group_multiset_axioms;

    let ghost all = entries_view(entries@);
    let mut groups: Vec<Vec<Vec<u32>>> = Vec::new();
    let mut slots: HashMap<u128, usize> = HashMap::new();
    let mut i: usize = 0;
    assert(group_names(groups@) =~= Seq::empty());
    while i < entries.len()
        invariant
            i <= entries.len(),
            all == entries_view(entries@),
            groups@.len() == shared_files(all.take(i as int)).len(),
            forall|g: int|
                0 <= g < groups@.len() ==> keys_view(#[trigger] groups@[g]@).to_multiset()
                    == names_of(all.take(i as int), shared_files(all.take(i as int))[g]),
            forall|g: int| 0 <= g < groups@.len() ==> small(keys_view(#[trigger] groups@[g]@)),
            forall|n: u128| #[trigger]
                slots@.contains_key(n) ==> slots@[n] < groups@.len() && file_number(
                    shared_files(all.take(i as int))[slots@[n] as int],
                ) == n,
            forall|g: int|
                0 <= g < groups@.len() ==> slots@.contains_key(
                    file_number(#[trigger] shared_files(all.take(i as int))[g]),
                ),
            forall|a: int, b: int|
                0 <= a < b < groups@.len() ==> #[trigger] shared_files(all.take(i as int))[a]
                    != #[trigger] shared_files(all.take(i as int))[b],
        decreases entries.len() - i,
    {
        let ghost before = all.take(i as int);
        let ghost after = all.take(i + 1);
        let ghost files = shared_files(before);
        let ghost old_groups = groups@;
        proof {
            assert(after.drop_last() =~= before);
            assert(after.last() == entries@[i as int]@);
            lemma_small_parts_key(parts(entries@[i as int].rel@));
        }
        if let Kind::File { identity, links, .. } = &entries[i].kind {
            if *links > 1 {
                let file = *identity;
                let number = number_of(file);
                let key = entries[i].rel.key();
                let ghost name = key@;
                let found: Option<usize> = match slots.get(&number) {
                    Some(slot) => Some(*slot),
                    None => None,
                };
                match found {
                    Some(slot) => {
                        proof {
                            lemma_file_number(files[slot as int], file);
                            assert(files.contains(file));
                        }
                        let ghost group = groups@[slot as int]@;
                        groups[slot].push(key);
                        proof {
                            assert(keys_view(groups@[slot as int]@) =~= keys_view(group).push(name));
                            vstd::seq_lib::to_multiset_build(keys_view(group), name);
                            assert(keys_view(group).to_multiset() == names_of(before, file));
                            assert(names_of(after, file) == names_of(before, file).insert(name));
                            assert forall|g: int| 0 <= g < groups@.len() implies keys_view(
                                #[trigger] groups@[g]@,
                            ).to_multiset() == names_of(after, shared_files(after)[g]) by {
                                if g != slot {
                                    assert(groups@[g] == old_groups[g]);
                                    assert(files[g] != file) by {
                                        if g < slot {
                                            assert(files[g] != files[slot as int]);
                                        } else {
                                            assert(files[slot as int] != files[g]);
                                        }
                                    }
                                }
                            }
                            assert forall|g: int| 0 <= g < groups@.len() implies small(
                                keys_view(#[trigger] groups@[g]@),
                            ) by {
                                if g != slot {
                                    assert(groups@[g] == old_groups[g]);
                                } else {
                                    assert(small(keys_view(old_groups[g]@)));
                                    assert forall|k: int| 0 <= k < groups@[g]@.len() implies small_key(
                                        #[trigger] keys_view(groups@[g]@)[k],
                                    ) by {
                                        if k < group.len() {
                                            assert(small_key(keys_view(group)[k]));
                                        }
                                    }
                                }
                            }
                        }
                    },
                    None => {
                        proof {
                            if files.contains(file) {
                                let g = choose|g: int| 0 <= g < files.len() && files[g] == file;
                                assert(slots@.contains_key(file_number(files[g])));
                            }
                            lemma_names_elsewhere(before, file);
                        }
                        let slot: usize = groups.len();
                        let mut group: Vec<Vec<u32>> = Vec::new();
                        assert(keys_view(group@) =~= Seq::empty());
                        group.push(key);
                        proof {
                            let none = Seq::<Seq<u32>>::empty();
                            assert(keys_view(group@) =~= none.push(name));
                            vstd::seq_lib::to_multiset_build(none, name);
                            vstd::seq_lib::to_multiset_len(none);
                            vstd::multiset::lemma_multiset_empty_len(none.to_multiset());
                            assert(names_of(after, file) == names_of(before, file).insert(name));
                        }
                        groups.push(group);
                        slots.insert(number, slot);
                        proof {
                            assert(shared_files(after) == files.push(file));
                            assert forall|g: int| 0 <= g < groups@.len() implies keys_view(
                                #[trigger] groups@[g]@,
                            ).to_multiset() == names_of(after, shared_files(after)[g]) by {
                                if g < old_groups.len() {
                                    assert(groups@[g] == old_groups[g]);
                                    assert(files.contains(files[g]));
                                    assert(files[g] != file);
                                }
                            }
                            assert forall|g: int| 0 <= g < groups@.len() implies small(
                                keys_view(#[trigger] groups@[g]@),
                            ) by {
                                if g < old_groups.len() {
                                    assert(groups@[g] == old_groups[g]);
                                }
                            }
                            assert forall|a: int, b: int| 0 <= a < b < groups@.len() implies #[trigger] shared_files(
                                after,
                            )[a] != #[trigger] shared_files(after)[b] by {
                                if b < old_groups.len() {
                                    assert(files[a] != files[b]);
                                } else {
                                    assert(files.contains(files[a]));
                                }
                            }
                            assert forall|n: u128| #[trigger] slots@.contains_key(n) implies slots@[n]
                                < groups@.len() && file_number(
                                shared_files(after)[slots@[n] as int],
                            ) == n by {}
                            assert forall|g: int| 0 <= g < groups@.len() implies slots@.contains_key(
                                file_number(#[trigger] shared_files(after)[g]),
                            ) by {
                                if g < old_groups.len() {
                                    assert(slots@.contains_key(file_number(files[g])));
                                }
                            }
                        }
                    },
                }
            }
        }
        i = i + 1;
    }
    proof {
        assert(all.take(i as int) =~= all);
        let files = shared_files(all);
        assert(group_names(groups@) =~= Seq::new(files.len(), |g: int| names_of(all, files[g])));
    }
    groups
}

fn flatten(keys: &Vec<Vec<u32>>) -> (joined: Vec<u32>)
    requires
        small(keys_view(keys@)),
    ensures
        joined@ == flat(keys_view(keys@)),
{
    let ghost all = keys_view(keys@);
    let mut joined: Vec<u32> = Vec::new();
    let mut i: usize = 0;
    assert(joined@ =~= flat(all.take(0)));
    while i < keys.len()
        invariant
            i <= keys.len(),
            all == keys_view(keys@),
            small(all),
            joined@ == flat(all.take(i as int)),
        decreases keys.len() - i,
    {
        let ghost before = joined@;
        let ghost key = all[i as int];
        assert(all.take(i + 1).drop_last() =~= all.take(i as int));
        assert(small_key(all[i as int]));
        let mut k: usize = 0;
        while k < keys[i].len()
            invariant
                i < keys.len(),
                key == keys@[i as int]@,
                small_key(key),
                k <= key.len(),
                joined@ =~= before + raised(key).take(k as int),
            decreases key.len() - k,
        {
            assert(key[k as int] <= 1000);
            joined.push(keys[i][k] + 1);
            k = k + 1;
        }
        joined.push(0);
        assert(joined@ =~= before + raised(key).push(0));
        i = i + 1;
    }
    assert(all.take(i as int) =~= all);
    joined
}

/// A key for each group of names, the same for two groups exactly when they hold the same names.
fn group_keys(groups: &Vec<Vec<Vec<u32>>>) -> (keys: Vec<Vec<u32>>)
    requires
        forall|g: int| 0 <= g < groups@.len() ==> small(keys_view(#[trigger] groups@[g]@)),
    ensures
        keys@.len() == groups@.len(),
        forall|g: int| 0 <= g < groups@.len() ==> is_group_key(#[trigger] keys@[g]@, group_names(groups@)[g]),
{
    let mut keys: Vec<Vec<u32>> = Vec::new();
    let mut i: usize = 0;
    while i < groups.len()
        invariant
            i <= groups.len(),
            keys@.len() == i,
            forall|g: int| 0 <= g < groups@.len() ==> small(keys_view(#[trigger] groups@[g]@)),
            forall|g: int| 0 <= g < i ==> is_group_key(#[trigger] keys@[g]@, group_names(groups@)[g]),
        decreases groups.len() - i,
    {
        let sorted = arranged(&groups[i]);
        proof {
            let list = keys_view(sorted@);
            let given = keys_view(groups@[i as int]@);
            assert forall|k: int| 0 <= k < list.len() implies small_key(#[trigger] list[k]) by {
                broadcast use vstd::seq_lib::group_to_multiset_ensures;

                assert(list.contains(list[k]));
                vstd::seq_lib::to_multiset_contains(list, list[k]);
                vstd::seq_lib::to_multiset_contains(given, list[k]);
                let j = choose|j: int| 0 <= j < given.len() && given[j] == list[k];
                assert(small_key(given[j]));
            }
        }
        let key = flatten(&sorted);
        assert(is_group_key(key@, group_names(groups@)[i as int])) by {
            let list = keys_view(sorted@);
            assert(ascending(list) && small(list) && list.to_multiset() == group_names(groups@)[i as int]);
        }
        keys.push(key);
        i = i + 1;
    }
    keys
}

spec fn is_group_key(key: Seq<u32>, names: Multiset<Seq<u32>>) -> bool {
    exists|list: Seq<Seq<u32>>| #[trigger]
        flat(list) == key && ascending(list) && small(list) && list.to_multiset() == names
}

proof fn lemma_group_key(k1: Seq<u32>, n1: Multiset<Seq<u32>>, k2: Seq<u32>, n2: Multiset<Seq<u32>>)
    requires
        is_group_key(k1, n1),
        is_group_key(k2, n2),
    ensures
        k1 == k2 <==> n1 == n2,
{
    let a = choose|list: Seq<Seq<u32>>| #[trigger]
        flat(list) == k1 && ascending(list) && small(list) && list.to_multiset() == n1;
    let b = choose|list: Seq<Seq<u32>>| #[trigger]
        flat(list) == k2 && ascending(list) && small(list) && list.to_multiset() == n2;
    if k1 == k2 {
        lemma_flat_injective(a, b);
    }
    if n1 == n2 {
        law_one_ascending_list(a, b);
    }
}

/// How two trees compare in which names belong together.
pub struct Shares {
    pub same: bool,
    pub left: usize,
    pub right: usize,
}

/// Groups the entries of two trees by the file they are and compares the groups. A relationship,
/// not a checksum.
pub fn compare(left: &Vec<Entry>, right: &Vec<Entry>) -> (shares: Shares)
    ensures
        shares.same == (sharing(entries_view(left@)) == sharing(entries_view(right@))),
        shares.left == shared_files(entries_view(left@)).len(),
        shares.right == shared_files(entries_view(right@)).len(),
{
    let a = collect(left);
    let b = collect(right);
    let ka = group_keys(&a);
    let kb = group_keys(&b);
    let sa = arranged(&ka);
    let sb = arranged(&kb);
    let same = same_keys(&sa, &sb);
    proof {
        let na = group_names(a@);
        let nb = group_names(b@);
        let va = keys_view(ka@);
        let vb = keys_view(kb@);
        assert forall|i: int, j: int| 0 <= i < na.len() && 0 <= j < nb.len() implies (na[i] == nb[j]
            <==> va[i] == vb[j]) by {
            assert(is_group_key(ka@[i]@, na[i]));
            assert(is_group_key(kb@[j]@, nb[j]));
            lemma_group_key(va[i], na[i], vb[j], nb[j]);
        }
        if same {
            lemma_transfer(va, na, vb, nb);
        }
        if sharing(entries_view(left@)) == sharing(entries_view(right@)) {
            lemma_transfer(na, va, nb, vb);
            law_one_ascending_list(keys_view(sa@), keys_view(sb@));
        }
    }
    Shares { same, left: a.len(), right: b.len() }
}

} // verus!
