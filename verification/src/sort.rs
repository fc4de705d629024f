//! Sorting by keys, where equal keys keep the order they came in.

use vstd::prelude::*;

verus! {

/// Lexicographic order: the first number that differs decides, and a key that another one goes on
/// from comes first.
pub open spec fn before(a: Seq<u32>, b: Seq<u32>) -> bool
    decreases a.len(),
{
    if b.len() == 0 {
        false
    } else if a.len() == 0 {
        true
    } else if a[0] != b[0] {
        a[0] < b[0]
    } else {
        before(a.skip(1), b.skip(1))
    }
}

/// Place `i` of the keys comes before place `j`: by its key, or by standing first where the keys
/// are the same.
pub open spec fn ahead(keys: Seq<Seq<u32>>, i: int, j: int) -> bool {
    before(keys[i], keys[j]) || (keys[i] == keys[j] && i < j)
}

/// The places of the keys, each once, in the order of the keys.
pub open spec fn in_order(keys: Seq<Seq<u32>>, order: Seq<usize>) -> bool {
    &&& order.len() == keys.len()
    &&& forall|i: int| 0 <= i < order.len() ==> (#[trigger] order[i]) < keys.len()
    &&& forall|place: int| 0 <= place < keys.len() ==> #[trigger] order.contains(place as usize)
    &&& forall|i: int, j: int|
        0 <= i < j < order.len() ==> ahead(keys, #[trigger] order[i] as int, #[trigger] order[j] as int)
}

pub open spec fn keys_view(keys: Seq<Vec<u32>>) -> Seq<Seq<u32>> {
    Seq::new(keys.len(), |i: int| keys[i]@)
}

pub proof fn lemma_before_irreflexive(a: Seq<u32>)
    ensures
        !before(a, a),
    decreases a.len(),
{
    if a.len() > 0 {
        lemma_before_irreflexive(a.skip(1));
    }
}

pub proof fn lemma_before_total(a: Seq<u32>, b: Seq<u32>)
    ensures
        before(a, b) || a == b || before(b, a),
    decreases a.len(),
{
    if a.len() > 0 && b.len() > 0 && a[0] == b[0] {
        lemma_before_total(a.skip(1), b.skip(1));
        if a.skip(1) == b.skip(1) {
            assert(a =~= seq![a[0]] + a.skip(1));
            assert(b =~= seq![b[0]] + b.skip(1));
        }
    } else if a.len() == 0 && b.len() == 0 {
        assert(a =~= b);
    }
}

pub proof fn lemma_before_transitive(a: Seq<u32>, b: Seq<u32>, c: Seq<u32>)
    requires
        before(a, b),
        before(b, c),
    ensures
        before(a, c),
    decreases a.len(),
{
    if a.len() > 0 && a[0] == b[0] && b[0] == c[0] {
        lemma_before_transitive(a.skip(1), b.skip(1), c.skip(1));
    }
}

pub proof fn lemma_ahead_transitive(keys: Seq<Seq<u32>>, i: int, j: int, k: int)
    requires
        ahead(keys, i, j),
        ahead(keys, j, k),
    ensures
        ahead(keys, i, k),
{
    if before(keys[i], keys[j]) && before(keys[j], keys[k]) {
        lemma_before_transitive(keys[i], keys[j], keys[k]);
    }
}

/// Sorting puts the places into one order and no other.
pub proof fn law_order_is_unique(keys: Seq<Seq<u32>>, left: Seq<usize>, right: Seq<usize>)
    requires
        in_order(keys, left),
        in_order(keys, right),
    ensures
        left == right,
{
    assert forall|n: int| 0 <= n <= left.len() implies left.take(n) == right.take(n) by {
        lemma_same_start(keys, left, right, n);
    }
    assert(left.take(left.len() as int) =~= left);
    assert(right.take(right.len() as int) =~= right);
}

proof fn lemma_not_ahead_of_itself(keys: Seq<Seq<u32>>, i: int, j: int)
    requires
        ahead(keys, i, j),
    ensures
        i != j,
        !ahead(keys, j, i),
{
    lemma_before_irreflexive(keys[i]);
    if before(keys[i], keys[j]) && before(keys[j], keys[i]) {
        lemma_before_transitive(keys[i], keys[j], keys[i]);
    }
}

proof fn lemma_same_start(keys: Seq<Seq<u32>>, left: Seq<usize>, right: Seq<usize>, n: int)
    requires
        in_order(keys, left),
        in_order(keys, right),
        0 <= n <= left.len(),
    ensures
        left.take(n) == right.take(n),
    decreases n,
{
    if n > 0 {
        lemma_same_start(keys, left, right, n - 1);
        let at = n - 1;
        if left[at] != right[at] {
            assert(right.contains(left[at] as int as usize));
            assert(left.contains(right[at] as int as usize));
            let i = choose|i: int| 0 <= i < right.len() && right[i] == left[at];
            let j = choose|j: int| 0 <= j < left.len() && left[j] == right[at];
            if i < at {
                assert(left.take(at)[i] == right.take(at)[i]);
                assert(ahead(keys, left[i] as int, left[at] as int));
                lemma_not_ahead_of_itself(keys, left[i] as int, left[at] as int);
            }
            if j < at {
                assert(left.take(at)[j] == right.take(at)[j]);
                assert(ahead(keys, right[j] as int, right[at] as int));
                lemma_not_ahead_of_itself(keys, right[j] as int, right[at] as int);
            }
            assert(ahead(keys, right[at] as int, right[i] as int));
            assert(ahead(keys, left[at] as int, left[j] as int));
            lemma_not_ahead_of_itself(keys, left[at] as int, right[at] as int);
        }
        assert(left.take(n) =~= left.take(at).push(left[at]));
        assert(right.take(n) =~= right.take(at).push(right[at]));
    }
}

/// Is the first key no later than the second?
pub fn no_later(a: &Vec<u32>, b: &Vec<u32>) -> (is: bool)
    ensures
        is == (before(a@, b@) || a@ == b@),
{
    let mut i: usize = 0;
    assert(a@.skip(0) =~= a@);
    assert(b@.skip(0) =~= b@);
    while i < a.len() && i < b.len() && a[i] == b[i]
        invariant
            i <= a.len(),
            i <= b.len(),
            before(a@, b@) == before(a@.skip(i as int), b@.skip(i as int)),
            forall|k: int| 0 <= k < i ==> a@[k] == b@[k],
        decreases a.len() - i,
    {
        assert(a@.skip(i as int).skip(1) =~= a@.skip(i + 1));
        assert(b@.skip(i as int).skip(1) =~= b@.skip(i + 1));
        i = i + 1;
    }
    if i == a.len() {
        if i == b.len() {
            assert(a@ =~= b@);
        }
        true
    } else if i == b.len() {
        false
    } else {
        a[i] < b[i]
    }
}

/// The places `from` to `to`, each once, in the order of the keys.
spec fn part_in_order(keys: Seq<Seq<u32>>, from: int, to: int, order: Seq<usize>) -> bool {
    &&& order.len() == to - from
    &&& forall|i: int| 0 <= i < order.len() ==> from <= (#[trigger] order[i]) < to
    &&& forall|place: int| from <= place < to ==> #[trigger] order.contains(place as usize)
    &&& forall|i: int, j: int|
        0 <= i < j < order.len() ==> ahead(keys, #[trigger] order[i] as int, #[trigger] order[j] as int)
}

fn merge(
    keys: &Vec<Vec<u32>>,
    Ghost(from): Ghost<int>,
    Ghost(middle): Ghost<int>,
    Ghost(to): Ghost<int>,
    left: &Vec<usize>,
    right: &Vec<usize>,
) -> (order: Vec<usize>)
    requires
        0 <= from <= middle <= to <= keys.len(),
        part_in_order(keys_view(keys@), from, middle, left@),
        part_in_order(keys_view(keys@), middle, to, right@),
    ensures
        part_in_order(keys_view(keys@), from, to, order@),
{
    let ghost k = keys_view(keys@);
    let mut order: Vec<usize> = Vec::new();
    let mut a: usize = 0;
    let mut b: usize = 0;
    while a < left.len() || b < right.len()
        invariant
            0 <= from <= middle <= to <= keys.len(),
            k == keys_view(keys@),
            part_in_order(k, from, middle, left@),
            part_in_order(k, middle, to, right@),
            a <= left.len(),
            b <= right.len(),
            order.len() == a + b,
            forall|i: int| 0 <= i < order.len() ==> from <= (#[trigger] order@[i]) < to,
            forall|i: int| 0 <= i < a ==> order@.contains(#[trigger] left@[i]),
            forall|i: int| 0 <= i < b ==> order@.contains(#[trigger] right@[i]),
            forall|i: int, j: int|
                0 <= i < order.len() && a <= j < left.len() ==> ahead(
                    k,
                    #[trigger] order@[i] as int,
                    #[trigger] left@[j] as int,
                ),
            forall|i: int, j: int|
                0 <= i < order.len() && b <= j < right.len() ==> ahead(
                    k,
                    #[trigger] order@[i] as int,
                    #[trigger] right@[j] as int,
                ),
            forall|i: int, j: int|
                0 <= i < j < order.len() ==> ahead(
                    k,
                    #[trigger] order@[i] as int,
                    #[trigger] order@[j] as int,
                ),
        decreases left.len() - a + right.len() - b,
    {
        let ghost was = order@;
        let take_left = if a == left.len() {
            false
        } else if b == right.len() {
            true
        } else {
            no_later(&keys[left[a]], &keys[right[b]])
        };
        if take_left {
            proof {
                let l = left@[a as int] as int;
                if b < right.len() {
                    let r = right@[b as int] as int;
                    assert(ahead(k, l, r));
                    assert forall|j: int| b <= j < right.len() implies ahead(
                        k,
                        l,
                        #[trigger] right@[j] as int,
                    ) by {
                        if j > b {
                            lemma_ahead_transitive(k, l, r, right@[j] as int);
                        }
                    }
                }
            }
            order.push(left[a]);
            assert(order@ =~= was.push(left@[a as int]));
            a = a + 1;
        } else {
            proof {
                let r = right@[b as int] as int;
                if a < left.len() {
                    let l = left@[a as int] as int;
                    lemma_before_total(k[l], k[r]);
                    assert(ahead(k, r, l));
                    assert forall|j: int| a <= j < left.len() implies ahead(
                        k,
                        r,
                        #[trigger] left@[j] as int,
                    ) by {
                        if j > a {
                            lemma_ahead_transitive(k, r, l, left@[j] as int);
                        }
                    }
                }
            }
            order.push(right[b]);
            assert(order@ =~= was.push(right@[b as int]));
            b = b + 1;
        }
        proof {
            assert(order@.last() == order@[was.len() as int]);
            assert forall|i: int| 0 <= i < a implies order@.contains(#[trigger] left@[i]) by {
                if was.contains(left@[i]) {
                    let at = choose|at: int| 0 <= at < was.len() && was[at] == left@[i];
                    assert(order@[at] == left@[i]);
                }
            }
            assert forall|i: int| 0 <= i < b implies order@.contains(#[trigger] right@[i]) by {
                if was.contains(right@[i]) {
                    let at = choose|at: int| 0 <= at < was.len() && was[at] == right@[i];
                    assert(order@[at] == right@[i]);
                }
            }
        }
    }
    assert forall|place: int| from <= place < to implies #[trigger] order@.contains(
        place as usize,
    ) by {
        if place < middle {
            assert(left@.contains(place as usize));
            let at = choose|at: int| 0 <= at < left@.len() && left@[at] == place as usize;
            assert(order@.contains(left@[at]));
        } else {
            assert(right@.contains(place as usize));
            let at = choose|at: int| 0 <= at < right@.len() && right@[at] == place as usize;
            assert(order@.contains(right@[at]));
        }
    }
    order
}

fn order_part(keys: &Vec<Vec<u32>>, from: usize, to: usize) -> (order: Vec<usize>)
    requires
        from <= to <= keys.len(),
    ensures
        part_in_order(keys_view(keys@), from as int, to as int, order@),
    decreases to - from,
{
    let mut order: Vec<usize> = Vec::new();
    if to - from <= 1 {
        if from < to {
            order.push(from);
            assert(order@[0] == from);
        }
        return order;
    }
    let middle: usize = from + (to - from) / 2;
    let left = order_part(keys, from, middle);
    let right = order_part(keys, middle, to);
    merge(keys, Ghost(from as int), Ghost(middle as int), Ghost(to as int), &left, &right)
}

/// The places of the keys, sorted by the keys; places with the same key stay in their order.
pub fn order(keys: &Vec<Vec<u32>>) -> (order: Vec<usize>)
    ensures
        in_order(keys_view(keys@), order@),
{
    order_part(keys, 0, keys.len())
}

/// The last place that has the key.
pub open spec fn last_place(keys: Seq<Seq<u32>>, key: Seq<u32>) -> Option<int>
    decreases keys.len(),
{
    if keys.len() == 0 {
        None
    } else if keys.last() == key {
        Some(keys.len() - 1)
    } else {
        last_place(keys.drop_last(), key)
    }
}

/// The first place that has the key.
pub open spec fn first_place(keys: Seq<Seq<u32>>, key: Seq<u32>) -> Option<int>
    decreases keys.len(),
{
    if keys.len() == 0 {
        None
    } else if first_place(keys.drop_last(), key) is Some {
        first_place(keys.drop_last(), key)
    } else if keys.last() == key {
        Some(keys.len() - 1)
    } else {
        None
    }
}

pub proof fn lemma_last_place(keys: Seq<Seq<u32>>, key: Seq<u32>)
    ensures
        match last_place(keys, key) {
            Some(place) => 0 <= place < keys.len() && keys[place] == key && forall|k: int|
                place < k < keys.len() ==> #[trigger] keys[k] != key,
            None => forall|k: int| 0 <= k < keys.len() ==> #[trigger] keys[k] != key,
        },
    decreases keys.len(),
{
    if keys.len() > 0 && keys.last() != key {
        lemma_last_place(keys.drop_last(), key);
        assert forall|k: int| 0 <= k < keys.len() - 1 implies keys[k] == keys.drop_last()[k] by {}
    }
}

pub proof fn lemma_first_place(keys: Seq<Seq<u32>>, key: Seq<u32>)
    ensures
        match first_place(keys, key) {
            Some(place) => 0 <= place < keys.len() && keys[place] == key && forall|k: int|
                0 <= k < place ==> #[trigger] keys[k] != key,
            None => forall|k: int| 0 <= k < keys.len() ==> #[trigger] keys[k] != key,
        },
    decreases keys.len(),
{
    if keys.len() > 0 {
        lemma_first_place(keys.drop_last(), key);
        assert forall|k: int| 0 <= k < keys.len() - 1 implies keys[k] == keys.drop_last()[k] by {}
    }
}

/// Keys made ready for looking up.
pub struct Index {
    pub keys: Vec<Vec<u32>>,
    pub order: Vec<usize>,
}

impl Index {
    pub open spec fn wf(&self) -> bool {
        in_order(self.listed(), self.order@)
    }

    /// The keys, in the order they were given.
    pub open spec fn listed(&self) -> Seq<Seq<u32>> {
        keys_view(self.keys@)
    }

    pub fn new(keys: Vec<Vec<u32>>) -> (index: Index)
        ensures
            index.wf(),
            index.listed() == keys_view(keys@),
    {
        let order = order(&keys);
        Index { keys, order }
    }

    /// How many keys in order are no later than the given one.
    fn no_later_count(&self, key: &Vec<u32>) -> (count: usize)
        requires
            self.wf(),
        ensures
            count <= self.order.len(),
            forall|i: int|
                0 <= i < count ==> before(self.listed()[#[trigger] self.order@[i] as int], key@)
                    || self.listed()[self.order@[i] as int] == key@,
            forall|i: int|
                count <= i < self.order.len() ==> before(
                    key@,
                    self.listed()[#[trigger] self.order@[i] as int],
                ),
    {
        let ghost listed = self.listed();
        let mut low: usize = 0;
        let mut high: usize = self.order.len();
        while low < high
            invariant
                self.wf(),
                listed == self.listed(),
                low <= high <= self.order.len(),
                forall|i: int|
                    0 <= i < low ==> before(listed[#[trigger] self.order@[i] as int], key@)
                        || listed[self.order@[i] as int] == key@,
                forall|i: int|
                    high <= i < self.order.len() ==> before(
                        key@,
                        listed[#[trigger] self.order@[i] as int],
                    ),
            decreases high - low,
        {
            let middle: usize = low + (high - low) / 2;
            let ghost here = listed[self.order@[middle as int] as int];
            if no_later(&self.keys[self.order[middle]], key) {
                assert forall|i: int| 0 <= i < middle + 1 implies before(
                    listed[#[trigger] self.order@[i] as int],
                    key@,
                ) || listed[self.order@[i] as int] == key@ by {
                    if i < middle {
                        let one = listed[self.order@[i] as int];
                        assert(ahead(listed, self.order@[i] as int, self.order@[middle as int] as int));
                        if before(one, here) && before(here, key@) {
                            lemma_before_transitive(one, here, key@);
                        }
                    }
                }
                low = middle + 1;
            } else {
                proof {
                    lemma_before_total(here, key@);
                }
                assert forall|i: int| middle <= i < self.order.len() implies before(
                    key@,
                    listed[#[trigger] self.order@[i] as int],
                ) by {
                    if middle < i {
                        let one = listed[self.order@[i] as int];
                        assert(ahead(listed, self.order@[middle as int] as int, self.order@[i] as int));
                        if before(here, one) {
                            lemma_before_transitive(key@, here, one);
                        }
                    }
                }
                high = middle;
            }
        }
        low
    }

    /// The last place that has the key.
    pub fn find_last(&self, key: &Vec<u32>) -> (place: Option<usize>)
        requires
            self.wf(),
        ensures
            match last_place(self.listed(), key@) {
                Some(at) => place is Some && place->0 == at && at < self.keys@.len(),
                None => place is None,
            },
    {
        let length: usize = self.keys.len();
        let count = self.no_later_count(key);
        let ghost listed = self.listed();
        proof {
            lemma_last_place(listed, key@);
            lemma_before_irreflexive(key@);
            if let Some(at) = last_place(listed, key@) {
                assert(self.order@.contains(at as usize));
                let p = choose|p: int| 0 <= p < self.order@.len() && self.order@[p] == at as usize;
                assert(p < count);
                let one = self.order@[p] as int;
                let top = self.order@[count - 1] as int;
                if p < count - 1 {
                    assert(ahead(listed, one, top));
                    if before(key@, listed[top]) {
                        lemma_before_total(listed[top], key@);
                        if before(listed[top], key@) {
                            lemma_before_transitive(key@, listed[top], key@);
                        }
                    }
                    assert(listed[top] == key@ && one < top);
                }
            }
        }
        if count == 0 {
            return None;
        }
        let place: usize = self.order[count - 1];
        if no_later(key, &self.keys[place]) {
            proof {
                lemma_before_total(listed[place as int], key@);
                if before(key@, listed[place as int]) && before(listed[place as int], key@) {
                    lemma_before_transitive(key@, listed[place as int], key@);
                }
            }
            Some(place)
        } else {
            None
        }
    }

    /// The first place that has the key.
    pub fn find_first(&self, key: &Vec<u32>) -> (place: Option<usize>)
        requires
            self.wf(),
        ensures
            match first_place(self.listed(), key@) {
                Some(at) => place is Some && place->0 == at && at < self.keys@.len(),
                None => place is None,
            },
    {
        let length: usize = self.keys.len();
        let count = self.no_later_count(key);
        let ghost listed = self.listed();
        proof {
            lemma_first_place(listed, key@);
            lemma_before_irreflexive(key@);
        }
        let mut low: usize = 0;
        let mut high: usize = count;
        while low < high
            invariant
                self.wf(),
                listed == self.listed(),
                low <= high <= count <= self.order.len(),
                forall|i: int| 0 <= i < low ==> before(listed[#[trigger] self.order@[i] as int], key@),
                forall|i: int| high <= i < count ==> listed[#[trigger] self.order@[i] as int] == key@,
                forall|i: int|
                    0 <= i < count ==> before(listed[#[trigger] self.order@[i] as int], key@)
                        || listed[self.order@[i] as int] == key@,
            decreases high - low,
        {
            let middle: usize = low + (high - low) / 2;
            let ghost here = listed[self.order@[middle as int] as int];
            if no_later(key, &self.keys[self.order[middle]]) {
                proof {
                    lemma_before_irreflexive(key@);
                    if before(key@, here) && before(here, key@) {
                        lemma_before_transitive(key@, here, key@);
                    }
                }
                assert forall|i: int| middle <= i < count implies listed[#[trigger] self.order@[i] as int]
                    == key@ by {
                    if middle < i {
                        let one = listed[self.order@[i] as int];
                        assert(ahead(listed, self.order@[middle as int] as int, self.order@[i] as int));
                        if before(here, one) && before(one, key@) {
                            lemma_before_transitive(here, one, key@);
                        }
                    }
                }
                high = middle;
            } else {
                assert forall|i: int| 0 <= i < middle + 1 implies before(
                    listed[#[trigger] self.order@[i] as int],
                    key@,
                ) by {
                    if i < middle {
                        let one = listed[self.order@[i] as int];
                        assert(ahead(listed, self.order@[i] as int, self.order@[middle as int] as int));
                        if before(one, here) {
                            lemma_before_transitive(one, here, key@);
                        }
                    }
                }
                low = middle + 1;
            }
        }
        proof {
            if let Some(at) = first_place(listed, key@) {
                assert(self.order@.contains(at as usize));
                let p = choose|p: int| 0 <= p < self.order@.len() && self.order@[p] == at as usize;
                assert(low <= p < count);
                if low < p {
                    assert(ahead(listed, self.order@[low as int] as int, self.order@[p] as int));
                    assert(listed[self.order@[low as int] as int] == key@);
                }
            } else if low < count {
                assert(listed[self.order@[low as int] as int] == key@);
            }
        }
        if low < count {
            Some(self.order[low])
        } else {
            None
        }
    }
}

/// No key comes before an earlier one.
pub open spec fn ascending(keys: Seq<Seq<u32>>) -> bool {
    forall|i: int, j: int|
        0 <= i < j < keys.len() ==> before(#[trigger] keys[i], #[trigger] keys[j]) || keys[i]
            == keys[j]
}

/// Two ascending lists of the same keys are the same list.
pub proof fn law_one_ascending_list(left: Seq<Seq<u32>>, right: Seq<Seq<u32>>)
    requires
        ascending(left),
        ascending(right),
        left.to_multiset() == right.to_multiset(),
    ensures
        left == right,
{
    let leq = |a: Seq<u32>, b: Seq<u32>| before(a, b) || a == b;
    assert(vstd::relations::total_ordering(leq)) by {
        assert forall|a: Seq<u32>, b: Seq<u32>| #[trigger] leq(a, b) && #[trigger] leq(b, a) implies a
            == b by {
            if before(a, b) && before(b, a) {
                lemma_before_transitive(a, b, a);
                lemma_before_irreflexive(a);
            }
        }
        assert forall|a: Seq<u32>, b: Seq<u32>, c: Seq<u32>| #[trigger]
            leq(a, b) && #[trigger] leq(b, c) implies leq(a, c) by {
            if before(a, b) && before(b, c) {
                lemma_before_transitive(a, b, c);
            }
        }
        assert forall|a: Seq<u32>, b: Seq<u32>| #[trigger] leq(a, b) || #[trigger] leq(b, a) by {
            lemma_before_total(a, b);
        }
    }
    vstd::seq_lib::lemma_sorted_unique(left, right, leq);
}

/// Each place below `n` stands in the list, and so just once.
spec fn each_place(order: Seq<int>) -> bool {
    &&& forall|i: int| 0 <= i < order.len() ==> 0 <= #[trigger] order[i] < order.len()
    &&& forall|i: int, j: int| 0 <= i < j < order.len() ==> #[trigger] order[i] != #[trigger] order[j]
}

spec fn picked<A>(all: Seq<A>, order: Seq<int>) -> Seq<A> {
    Seq::new(order.len(), |i: int| all[order[i]])
}

proof fn lemma_picked<A>(all: Seq<A>, order: Seq<int>)
    requires
        order.len() == all.len(),
        each_place(order),
    ensures
        picked(all, order).to_multiset() == all.to_multiset(),
    decreases all.len(),
{
    broadcast use vstd::seq_lib::group_to_multiset_ensures;
    broadcast use vstd::multiset::group_multiset_axioms;

    if all.len() == 0 {
        assert(picked(all, order) =~= all);
    } else {
        let n = all.len() as int;
        let p = order.last();
        let rest = all.remove(p);
        let moved = Seq::new(
            (n - 1) as nat,
            |i: int|
                if order[i] > p {
                    order[i] - 1
                } else {
                    order[i]
                },
        );
        assert(order[n - 1] == p);
        assert forall|i: int| 0 <= i < moved.len() implies 0 <= #[trigger] moved[i] < moved.len() by {
            assert(order[i] != order[n - 1]);
        }
        assert forall|i: int, j: int| 0 <= i < j < moved.len() implies #[trigger] moved[i]
            != #[trigger] moved[j] by {
            assert(order[i] != order[j]);
            assert(order[i] != order[n - 1]);
            assert(order[j] != order[n - 1]);
        }
        lemma_picked(rest, moved);
        let short = picked(all, order).drop_last();
        assert forall|i: int| 0 <= i < n - 1 implies short[i] == picked(rest, moved)[i] by {
            assert(order[i] != order[n - 1]);
        }
        assert(short =~= picked(rest, moved));
        assert(picked(all, order) =~= short.push(all[p]));
        vstd::seq_lib::to_multiset_remove(all, p);
        vstd::seq_lib::to_multiset_contains(all, all[p]);
        assert(all.contains(all[p]));
        assert(picked(all, order).to_multiset() =~= all.to_multiset());
    }
}

pub fn copy_key(key: &Vec<u32>) -> (copy: Vec<u32>)
    ensures
        copy@ == key@,
{
    vstd::slice::slice_to_vec(key.as_slice())
}

/// The keys in ascending order.
pub fn arranged(keys: &Vec<Vec<u32>>) -> (sorted: Vec<Vec<u32>>)
    ensures
        ascending(keys_view(sorted@)),
        keys_view(sorted@).to_multiset() == keys_view(keys@).to_multiset(),
{
    let order = order(keys);
    let ghost all = keys_view(keys@);
    let mut sorted: Vec<Vec<u32>> = Vec::new();
    let mut i: usize = 0;
    while i < order.len()
        invariant
            i <= order.len(),
            all == keys_view(keys@),
            in_order(all, order@),
            sorted@.len() == i,
            forall|k: int| 0 <= k < i ==> #[trigger] sorted@[k]@ == all[order@[k] as int],
        decreases order.len() - i,
    {
        sorted.push(copy_key(&keys[order[i]]));
        i = i + 1;
    }
    proof {
        let places = Seq::new(order@.len(), |k: int| order@[k] as int);
        assert forall|a: int, b: int| 0 <= a < b < places.len() implies #[trigger] places[a]
            != #[trigger] places[b] by {
            assert(ahead(all, order@[a] as int, order@[b] as int));
            lemma_not_ahead_of_itself(all, order@[a] as int, order@[b] as int);
        }
        assert(keys_view(sorted@) =~= picked(all, places));
        lemma_picked(all, places);
        assert forall|a: int, b: int| 0 <= a < b < sorted@.len() implies before(
            #[trigger] keys_view(sorted@)[a],
            #[trigger] keys_view(sorted@)[b],
        ) || keys_view(sorted@)[a] == keys_view(sorted@)[b] by {
            assert(ahead(all, order@[a] as int, order@[b] as int));
        }
    }
    sorted
}

/// Do two lists hold the same keys in the same order?
pub fn same_keys(left: &Vec<Vec<u32>>, right: &Vec<Vec<u32>>) -> (equal: bool)
    ensures
        equal == (keys_view(left@) == keys_view(right@)),
{
    if left.len() != right.len() {
        assert(keys_view(left@).len() != keys_view(right@).len());
        return false;
    }
    let mut i: usize = 0;
    while i < left.len()
        invariant
            i <= left.len(),
            left.len() == right.len(),
            forall|k: int| 0 <= k < i ==> #[trigger] left@[k]@ == right@[k]@,
        decreases left.len() - i,
    {
        if !(no_later(&left[i], &right[i]) && no_later(&right[i], &left[i])) {
            proof {
                lemma_before_irreflexive(left@[i as int]@);
                assert(keys_view(left@)[i as int] != keys_view(right@)[i as int]);
            }
            return false;
        }
        proof {
            let a = left@[i as int]@;
            let b = right@[i as int]@;
            if before(a, b) && before(b, a) {
                lemma_before_transitive(a, b, a);
                lemma_before_irreflexive(a);
            }
        }
        i = i + 1;
    }
    assert(keys_view(left@) =~= keys_view(right@));
    true
}

/// The one order of the places that sorting gives.
pub open spec fn order_of(keys: Seq<Seq<u32>>) -> Seq<usize> {
    choose|order: Seq<usize>| in_order(keys, order)
}

pub proof fn lemma_order_of(keys: Seq<Seq<u32>>, order: Seq<usize>)
    requires
        in_order(keys, order),
    ensures
        order == order_of(keys),
{
    law_order_is_unique(keys, order, order_of(keys));
}

spec fn inserted(keys: Seq<Seq<u32>>, order: Seq<usize>, place: usize) -> Seq<usize>
    decreases order.len(),
{
    if order.len() > 0 && ahead(keys, place as int, order.last() as int) {
        inserted(keys, order.drop_last(), place).push(order.last())
    } else {
        order.push(place)
    }
}

proof fn lemma_inserted(keys: Seq<Seq<u32>>, order: Seq<usize>, place: usize)
    requires
        place < keys.len(),
        forall|i: int| 0 <= i < order.len() ==> (#[trigger] order[i]) < place,
        forall|i: int, j: int|
            0 <= i < j < order.len() ==> ahead(keys, #[trigger] order[i] as int, #[trigger] order[j] as int),
    ensures
        ({
            let next = inserted(keys, order, place);
            &&& next.len() == order.len() + 1
            &&& forall|i: int| 0 <= i < next.len() ==> (#[trigger] next[i]) <= place
            &&& forall|i: int|
                0 <= i < next.len() ==> (#[trigger] next[i]) == place || order.contains(next[i])
            &&& next.contains(place)
            &&& forall|p: usize| #[trigger] order.contains(p) ==> next.contains(p)
            &&& forall|i: int, j: int|
                0 <= i < j < next.len() ==> ahead(
                    keys,
                    #[trigger] next[i] as int,
                    #[trigger] next[j] as int,
                )
        }),
    decreases order.len(),
{
    let next = inserted(keys, order, place);
    if order.len() > 0 && ahead(keys, place as int, order.last() as int) {
        let short = order.drop_last();
        let inner = inserted(keys, short, place);
        assert forall|i: int, j: int| 0 <= i < j < short.len() implies ahead(
            keys,
            #[trigger] short[i] as int,
            #[trigger] short[j] as int,
        ) by {
            assert(ahead(keys, order[i] as int, order[j] as int));
        }
        lemma_inserted(keys, short, place);
        assert(next == inner.push(order.last()));
        assert(order.last() == order[order.len() - 1]);
        assert forall|i: int| 0 <= i < next.len() implies (#[trigger] next[i]) == place
            || order.contains(next[i]) by {
            if i < inner.len() && next[i] != place {
                assert(inner[i] == next[i]);
                assert(short.contains(inner[i]));
                let k = choose|k: int| 0 <= k < short.len() && short[k] == inner[i];
                assert(order[k] == next[i]);
            }
        }
        let at = choose|at: int| 0 <= at < inner.len() && inner[at] == place;
        assert(next[at] == place);
        assert forall|p: usize| #[trigger] order.contains(p) implies next.contains(p) by {
            let k = choose|k: int| 0 <= k < order.len() && order[k] == p;
            if k < short.len() {
                assert(short[k] == p);
                assert(short.contains(p));
                let m = choose|m: int| 0 <= m < inner.len() && inner[m] == p;
                assert(next[m] == p);
            } else {
                assert(next[inner.len() as int] == p);
            }
        }
        assert forall|i: int, j: int| 0 <= i < j < next.len() implies ahead(
            keys,
            #[trigger] next[i] as int,
            #[trigger] next[j] as int,
        ) by {
            if j < inner.len() {
                assert(ahead(keys, inner[i] as int, inner[j] as int));
            } else {
                assert(inner[i] == next[i]);
                if next[i] != place {
                    assert(short.contains(inner[i]));
                    let k = choose|k: int| 0 <= k < short.len() && short[k] == inner[i];
                    assert(ahead(keys, order[k] as int, order[order.len() - 1] as int));
                }
            }
        }
    } else {
        assert(next[order.len() as int] == place);
        assert forall|p: usize| #[trigger] order.contains(p) implies next.contains(p) by {
            let k = choose|k: int| 0 <= k < order.len() && order[k] == p;
            assert(next[k] == p);
        }
        assert forall|i: int, j: int| 0 <= i < j < next.len() implies ahead(
            keys,
            #[trigger] next[i] as int,
            #[trigger] next[j] as int,
        ) by {
            if j < order.len() {
                assert(ahead(keys, order[i] as int, order[j] as int));
            } else {
                let last = order[order.len() - 1] as int;
                lemma_before_total(keys[last], keys[place as int]);
                assert(ahead(keys, last, place as int));
                if i < order.len() - 1 {
                    assert(ahead(keys, order[i] as int, order[order.len() - 1] as int));
                    lemma_ahead_transitive(keys, order[i] as int, last, place as int);
                }
            }
        }
    }
}

proof fn lemma_order_upto(keys: Seq<Seq<u32>>, n: int) -> (order: Seq<usize>)
    requires
        0 <= n <= keys.len() <= usize::MAX,
    ensures
        order.len() == n,
        forall|i: int| 0 <= i < order.len() ==> (#[trigger] order[i]) < n,
        forall|place: int| 0 <= place < n ==> #[trigger] order.contains(place as usize),
        forall|i: int, j: int|
            0 <= i < j < order.len() ==> ahead(keys, #[trigger] order[i] as int, #[trigger] order[j] as int),
    decreases n,
{
    if n == 0 {
        Seq::empty()
    } else {
        let before = lemma_order_upto(keys, n - 1);
        let place = (n - 1) as usize;
        lemma_inserted(keys, before, place);
        let next = inserted(keys, before, place);
        assert forall|p: int| 0 <= p < n implies #[trigger] next.contains(p as usize) by {
            if p < n - 1 {
                assert(before.contains(p as usize));
            }
        }
        next
    }
}

/// Every list of keys can be put in order.
pub proof fn lemma_some_order(keys: Seq<Seq<u32>>)
    requires
        keys.len() <= usize::MAX,
    ensures
        in_order(keys, order_of(keys)),
{
    let order = lemma_order_upto(keys, keys.len() as int);
    assert(in_order(keys, order));
}

} // verus!
