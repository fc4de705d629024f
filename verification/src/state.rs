//! Reading a library's repair state straight off the disk.
//!
//! Because the repair never deletes anything, every state a crash can leave behind is distinguishable
//! with `lstat` on two paths. That is what replaces a journal or a transaction log.

use vstd::prelude::*;
use vstd::utf8::{encode_utf8, encode_utf8_decode_utf8};

use crate::path::{
    absolute, paths_view, parent_of, same_bytes, shown, under, under_text, FilePath,
};
use crate::sort::{in_order, keys_view, lemma_order_of, order, order_of};
use crate::steam::{optional_path, target_in_use, Library, LibraryView, STAGING_PREFIX};
use crate::text::{
    after_prefix, decimal, decimal_text, decimal_wide, law_decimal_reads_back, lemma_decimal_digits, lossy,
    parse_number, same, utf8_text,
};
use crate::walk::names_view;

verus! {

/// Where this tool keeps its own files.
pub open spec fn own_dir(xdg: Option<Seq<u8>>, home: Option<Seq<u8>>) -> Seq<u8> {
    let beside_home = under_text(
        match home {
            Some(home) => home,
            None => Seq::empty(),
        },
        ".local/share"@,
    );
    let base = match xdg {
        Some(dir) => if absolute(dir) {
            dir
        } else {
            beside_home
        },
        None => beside_home,
    };
    under_text(base, "librarybridge"@)
}

/// Where this tool keeps its own files, by `XDG_DATA_HOME` and `HOME`.
pub fn app_data_dir(xdg: Option<&FilePath>, home: Option<&FilePath>) -> (dir: FilePath)
    ensures
        dir@ == own_dir(optional_path(xdg), optional_path(home)),
{
    if let Some(dir) = xdg {
        if dir.is_absolute() {
            return dir.join_text("librarybridge");
        }
    }
    let base = match home {
        Some(home) => home.copy(),
        None => {
            let none: Vec<u8> = Vec::new();
            assert(none@ =~= Seq::<u8>::empty());
            FilePath { bytes: none }
        },
    };
    base.join_text(".local/share").join_text("librarybridge")
}

pub const BACKUP_PREFIX: &'static str = "compatdata.backup";

pub const RESTORE_STAGING: &'static str = "compatdata.restoring";

/// A destination left behind by an earlier repair that was undone.
pub const PREVIOUS_PREFIX: &'static str = "compatdata.previous";

/// A name that no other run of the tool uses: what it is for, the process, and a number from the clock.
pub open spec fn run_name(prefix: Seq<char>, process: u32, stamp: u32) -> Seq<char> {
    prefix + "-"@ + decimal_text(process as nat) + "-"@ + decimal_text(stamp as nat)
}

fn name_for_run(prefix: &str, process: u32, stamp: u32) -> (name: String)
    ensures
        name@ == run_name(prefix@, process, stamp),
{
    let mut name = prefix.to_string();
    name.push_str("-");
    name.push_str(decimal(process as u64).as_str());
    name.push_str("-");
    name.push_str(decimal(stamp as u64).as_str());
    name
}

/// A fresh restore directory, unique per run for the same reason the copy staging is: a leftover is never
/// assumed to be ours to remove.
pub fn new_restore_path(steamapps: &FilePath, process: u32, stamp: u32) -> (path: FilePath)
    ensures
        path@ == under_text(steamapps@, run_name("compatdata.restoring"@, process, stamp)),
{
    steamapps.join_text(name_for_run(RESTORE_STAGING, process, stamp).as_str())
}

/// A fresh staging directory for one copy, beside the destination.
///
/// The name is unique per operation, so a leftover from an interrupted run is never mistaken for this
/// run's own working directory and never removed to make room.
pub fn new_staging(target: &FilePath, process: u32, stamp: u32) -> (path: FilePath)
    ensures
        path@ == under_text(holder_of(target@), run_name("compatdata.incomplete"@, process, stamp)),
{
    let parent = match target.parent() {
        Some(parent) => parent,
        None => FilePath::new("/"),
    };
    parent.join_text(name_for_run(STAGING_PREFIX, process, stamp).as_str())
}

/// The directory a destination is in.
pub open spec fn holder_of(target: Seq<u8>) -> Seq<u8> {
    match parent_of(target) {
        Some(parent) => parent,
        None => encode_utf8("/"@),
    }
}

#[derive(Debug)]
pub enum State {
    /// The drive is not plugged in, so nothing can be said about it.
    Disconnected,
    /// No compatdata at all. Steam has not run a Proton game from here yet.
    NoCompatdata,
    /// A real directory on the game drive. This is what gets repaired.
    NotRepaired { prefixes: usize },
    /// Repaired, and the link points where this tool would put it.
    Repaired { target: FilePath, prefixes: usize },
    /// A symlink that resolves, but not to the path this tool derives. Somebody set this up by hand. It
    /// is left alone.
    LinkedElsewhere { target: FilePath },
    /// A symlink whose target is not there: the home drive is unmounted, or the destination was deleted.
    DanglingLink { target: FilePath },
    /// Interrupted between moving the original aside and creating the link.
    InterruptedAwaitingLink { backup: FilePath },
    /// Something that is not a directory or a symlink.
    Unusable { detail: String },
}

pub enum StateView {
    Disconnected,
    NoCompatdata,
    NotRepaired { prefixes: usize },
    Repaired { target: Seq<u8>, prefixes: usize },
    LinkedElsewhere { target: Seq<u8> },
    DanglingLink { target: Seq<u8> },
    InterruptedAwaitingLink { backup: Seq<u8> },
    Unusable { detail: Seq<char> },
}

impl View for State {
    type V = StateView;

    open spec fn view(&self) -> StateView {
        match *self {
            State::Disconnected => StateView::Disconnected,
            State::NoCompatdata => StateView::NoCompatdata,
            State::NotRepaired { prefixes } => StateView::NotRepaired { prefixes },
            State::Repaired { target, prefixes } => StateView::Repaired { target: target@, prefixes },
            State::LinkedElsewhere { target } => StateView::LinkedElsewhere { target: target@ },
            State::DanglingLink { target } => StateView::DanglingLink { target: target@ },
            State::InterruptedAwaitingLink { backup } => StateView::InterruptedAwaitingLink {
                backup: backup@,
            },
            State::Unusable { detail } => StateView::Unusable { detail: detail@ },
        }
    }
}

impl StateView {
    pub open spec fn headline(self) -> Seq<char> {
        match self {
            StateView::Disconnected => "Drive not connected"@,
            StateView::NoCompatdata => "No Proton data yet"@,
            StateView::NotRepaired { .. } => "Repair available"@,
            StateView::Repaired { .. } => "Repaired"@,
            StateView::LinkedElsewhere { .. } => "Already linked elsewhere"@,
            StateView::DanglingLink { .. } => "Link is broken"@,
            StateView::InterruptedAwaitingLink { .. } => "Interrupted, needs finishing"@,
            StateView::Unusable { .. } => "Needs attention"@,
        }
    }

    pub open spec fn code(self) -> Seq<char> {
        match self {
            StateView::Disconnected => "disconnected"@,
            StateView::NoCompatdata => "no_compatdata"@,
            StateView::NotRepaired { .. } => "repair_available"@,
            StateView::Repaired { .. } => "repaired"@,
            StateView::LinkedElsewhere { .. } => "linked_elsewhere"@,
            StateView::DanglingLink { .. } => "dangling_link"@,
            StateView::InterruptedAwaitingLink { .. } => "interrupted"@,
            StateView::Unusable { .. } => "unusable"@,
        }
    }
}

impl State {
    pub fn headline(&self) -> (text: &'static str)
        ensures
            text@ == self@.headline(),
    {
        match self {
            State::Disconnected => "Drive not connected",
            State::NoCompatdata => "No Proton data yet",
            State::NotRepaired { .. } => "Repair available",
            State::Repaired { .. } => "Repaired",
            State::LinkedElsewhere { .. } => "Already linked elsewhere",
            State::DanglingLink { .. } => "Link is broken",
            State::InterruptedAwaitingLink { .. } => "Interrupted, needs finishing",
            State::Unusable { .. } => "Needs attention",
        }
    }

    pub fn code(&self) -> (text: &'static str)
        ensures
            text@ == self@.code(),
    {
        match self {
            State::Disconnected => "disconnected",
            State::NoCompatdata => "no_compatdata",
            State::NotRepaired { .. } => "repair_available",
            State::Repaired { .. } => "repaired",
            State::LinkedElsewhere { .. } => "linked_elsewhere",
            State::DanglingLink { .. } => "dangling_link",
            State::InterruptedAwaitingLink { .. } => "interrupted",
            State::Unusable { .. } => "unusable",
        }
    }
}

#[derive(Debug)]
pub struct Report {
    pub state: State,
    /// Originals kept beside the library by earlier repairs.
    pub backups: Vec<FilePath>,
    /// A copy that was interrupted before it could be verified. Safe to remove, because the source it came
    /// from is still in place.
    pub abandoned_copy: Option<FilePath>,
    /// A copy-back that stopped part way, left beside the library.
    pub interrupted_restore: Option<FilePath>,
    /// Data already sitting at the destination while the library is not repaired. Either a leftover from
    /// an undone repair, or the migrated prefixes from a repair that was interrupted and then overtaken by
    /// Steam recreating compatdata.
    pub existing_destination: Option<FilePath>,
}

pub struct ReportView {
    pub state: StateView,
    pub backups: Seq<Seq<u8>>,
    pub abandoned_copy: Option<Seq<u8>>,
    pub interrupted_restore: Option<Seq<u8>>,
    pub existing_destination: Option<Seq<u8>>,
}

pub open spec fn held_path(path: Option<FilePath>) -> Option<Seq<u8>> {
    match path {
        Some(path) => Some(path@),
        None => None,
    }
}

impl View for Report {
    type V = ReportView;

    open spec fn view(&self) -> ReportView {
        ReportView {
            state: self.state@,
            backups: paths_view(self.backups@),
            abandoned_copy: held_path(self.abandoned_copy),
            interrupted_restore: held_path(self.interrupted_restore),
            existing_destination: held_path(self.existing_destination),
        }
    }
}

/// Where a link leads: its text, seen from the directory that holds it.
pub open spec fn link_target(link: Seq<u8>, text: Seq<u8>) -> Seq<u8> {
    if absolute(text) {
        text
    } else {
        under(
            match parent_of(link) {
                Some(parent) => parent,
                None => encode_utf8("."@),
            },
            text,
        )
    }
}

pub fn resolve_link(link: &FilePath, text: &FilePath) -> (target: FilePath)
    ensures
        target@ == link_target(link@, text@),
{
    if text.is_absolute() {
        return text.copy();
    }
    match link.parent() {
        Some(parent) => parent.join(text),
        None => FilePath::new(".").join(text),
    }
}

/// Is this the name of the backup of a number? `compatdata.backup` is the first, `compatdata.backup-2` the
/// second, and so on.
pub open spec fn names_backup(name: Seq<char>, n: u32) -> bool {
    n >= 1 && name == series_name("compatdata.backup"@, n as nat)
}

/// Which backup a directory is, by its name. Anything that is not in the series is none.
pub open spec fn number_of_backup(name: Seq<char>) -> Option<u32> {
    if exists|n: u32| names_backup(name, n) {
        Some(choose|n: u32| names_backup(name, n))
    } else {
        None
    }
}

/// No two numbers of a series have the same name.
pub proof fn lemma_series_differs(base: Seq<char>, m: nat, n: nat)
    requires
        1 <= m,
        1 <= n,
        series_name(base, m) == series_name(base, n),
    ensures
        m == n,
{
    reveal_strlit("-");
    let front = base.len() as int + 1;
    if m > 1 && n > 1 {
        lemma_decimal_digits(m);
        lemma_decimal_digits(n);
        assert(series_name(base, m).skip(front) =~= decimal_text(m));
        assert(series_name(base, n).skip(front) =~= decimal_text(n));
    } else if m != n {
        assert(series_name(base, m).len() != series_name(base, n).len());
    }
}

proof fn lemma_number_of_backup(name: Seq<char>, n: u32)
    requires
        names_backup(name, n),
    ensures
        number_of_backup(name) == Some(n),
{
    let m = choose|m: u32| names_backup(name, m);
    lemma_series_differs("compatdata.backup"@, m as nat, n as nat);
}

/// Which backup a directory is. A backup a person made by hand under the same name counts, which is what
/// you want: it is still the original data sitting beside the library, and treating it as one only ever
/// leads to it being listed and left alone.
pub fn backup_number(name: &str) -> (found: Option<u32>)
    ensures
        found == number_of_backup(name@),
        forall|n: u32|
            found == Some(n) <==> n >= 1 && name@ == #[trigger] series_name("compatdata.backup"@, n as nat),
{
    let number = series_number(name);
    proof {
        assert forall|n: u32| number == Some(n) <==> names_backup(name@, n) by {
            if names_backup(name@, n) {
                lemma_number_of_backup(name@, n);
            }
        }
        if number is Some {
            lemma_number_of_backup(name@, number->0);
        }
        assert forall|n: u32| number == Some(n) <==> n >= 1 && name@ == #[trigger] series_name(
            "compatdata.backup"@,
            n as nat,
        ) by {
            assert(number == Some(n) <==> names_backup(name@, n));
        }
    }
    number
}

fn series_number(name: &str) -> (found: Option<u32>)
    ensures
        forall|n: u32| found == Some(n) <==> #[trigger] names_backup(name@, n),
{
    let ghost base = "compatdata.backup"@;
    if same(name, BACKUP_PREFIX) {
        proof {
            assert forall|n: u32| #[trigger] names_backup(name@, n) <==> n == 1 by {
                if names_backup(name@, n) {
                    lemma_series_differs(base, n as nat, 1);
                }
            }
        }
        return Some(1);
    }
    let mut front = BACKUP_PREFIX.to_string();
    front.push_str("-");
    let ghost start = base + "-"@;
    proof {
        assert forall|n: u32| #[trigger] names_backup(name@, n) implies start.is_prefix_of(name@) && name@.skip(
            start.len() as int,
        ) == decimal_text(n as nat) && n > 1 by {
            assert(name@ =~= start + decimal_text(n as nat));
            assert(name@.skip(start.len() as int) =~= decimal_text(n as nat));
        }
    }
    let digits = match after_prefix(name, front.as_str()) {
        Some(digits) => digits,
        None => return None,
    };
    let value = parse_number(digits.as_str(), u32::MAX as u64);
    proof {
        assert forall|n: u32| #[trigger] names_backup(name@, n) implies value == Some(n as u64) by {
            law_decimal_reads_back(n as nat);
        }
    }
    match value {
        Some(n) => {
            if n >= 2 && same(digits.as_str(), decimal(n).as_str()) {
                assert(name@ =~= start + digits@);
                assert(names_backup(name@, n as u32));
                Some(n as u32)
            } else {
                None
            }
        },
        None => None,
    }
}

/// The backups among the names in a directory: their numbers and names.
pub open spec fn backups_among(names: Seq<Seq<u8>>) -> Seq<(u32, Seq<u8>)>
    decreases names.len(),
{
    if names.len() == 0 {
        Seq::empty()
    } else {
        let before = backups_among(names.drop_last());
        match number_of_backup(utf8_text(names.last())) {
            Some(n) => before.push((n, names.last())),
            None => before,
        }
    }
}

/// The sort keys by which higher numbers come first.
pub open spec fn newest_first(found: Seq<(u32, Seq<u8>)>) -> Seq<Seq<u32>> {
    Seq::new(found.len(), |i: int| seq![(u32::MAX - found[i].0) as u32])
}

/// The backups beside a library, newest first.
pub open spec fn backups_in(dir: Seq<u8>, names: Seq<Seq<u8>>) -> Seq<Seq<u8>> {
    let found = backups_among(names);
    let places = order_of(newest_first(found));
    Seq::new(places.len(), |i: int| under(dir, found[places[i] as int].1))
}

/// Backups beside a library, newest first, by the names in the directory.
pub fn find_backups(steamapps: &FilePath, names: &Vec<Vec<u8>>) -> (backups: Vec<FilePath>)
    ensures
        paths_view(backups@) == backups_in(steamapps@, names_view(names@)),
{
    let ghost all = names_view(names@);
    let mut found: Vec<FilePath> = Vec::new();
    let mut keys: Vec<Vec<u32>> = Vec::new();
    let mut i: usize = 0;
    while i < names.len()
        invariant
            i <= names.len(),
            all == names_view(names@),
            found@.len() == backups_among(all.take(i as int)).len(),
            keys@.len() == found@.len(),
            forall|k: int|
                0 <= k < found@.len() ==> (#[trigger] found@[k])@ == under(
                    steamapps@,
                    backups_among(all.take(i as int))[k].1,
                ),
            forall|k: int|
                0 <= k < keys@.len() ==> (#[trigger] keys@[k])@ == newest_first(
                    backups_among(all.take(i as int)),
                )[k],
        decreases names.len() - i,
    {
        assert(all.take(i + 1).drop_last() =~= all.take(i as int));
        assert(all.take(i + 1).last() == names@[i as int]@);
        let name = lossy(names[i].as_slice());
        if let Some(n) = backup_number(name.as_str()) {
            let rank: u32 = u32::MAX - n;
            let key: Vec<u32> = vec![rank];
            assert(key@ =~= seq![rank]);
            keys.push(key);
            found.push(steamapps.join(&FilePath::from_bytes(names[i].as_slice())));
        }
        i = i + 1;
    }
    assert(all.take(i as int) =~= all);
    let ghost list = backups_among(all);
    assert(keys_view(keys@) =~= newest_first(list));
    let places = order(&keys);
    proof {
        lemma_order_of(newest_first(list), places@);
    }
    let mut backups: Vec<FilePath> = Vec::new();
    let mut n: usize = 0;
    while n < places.len()
        invariant
            n <= places.len(),
            found@.len() == list.len(),
            in_order(newest_first(list), places@),
            forall|k: int| 0 <= k < found@.len() ==> (#[trigger] found@[k])@ == under(steamapps@, list[k].1),
            backups@.len() == n,
            forall|k: int|
                0 <= k < n ==> (#[trigger] backups@[k])@ == under(steamapps@, list[places@[k] as int].1),
        decreases places.len() - n,
    {
        assert(places@[n as int] < newest_first(list).len());
        backups.push(found[places[n]].copy());
        n = n + 1;
    }
    assert(paths_view(backups@) =~= backups_in(steamapps@, all));
    backups
}

/// Of two backups, the one listed first never has the lower number.
pub proof fn law_newest_backup_first(names: Seq<Seq<u8>>, i: int, j: int)
    requires
        names.len() <= usize::MAX,
        0 <= i < j < backups_among(names).len(),
    ensures
        ({
            let found = backups_among(names);
            let places = order_of(newest_first(found));
            &&& places.len() == found.len()
            &&& found[places[i] as int].0 >= found[places[j] as int].0
        }),
{
    let found = backups_among(names);
    let keys = newest_first(found);
    lemma_backups_fewer(names);
    crate::sort::lemma_some_order(keys);
    let places = order_of(keys);
    let a = places[i] as int;
    let b = places[j] as int;
    assert(crate::sort::ahead(keys, a, b));
    assert(keys[a][0] == u32::MAX - found[a].0);
    assert(keys[b][0] == u32::MAX - found[b].0);
    if keys[a][0] == keys[b][0] {
        assert(keys[a] =~= keys[b]);
    }
}

proof fn lemma_backups_fewer(names: Seq<Seq<u8>>)
    ensures
        backups_among(names).len() <= names.len(),
    decreases names.len(),
{
    if names.len() > 0 {
        lemma_backups_fewer(names.drop_last());
    }
}

/// The first name in a directory that starts with a prefix.
pub open spec fn named_in(names: Seq<Seq<u8>>, prefix: Seq<u8>) -> Option<Seq<u8>>
    decreases names.len(),
{
    if names.len() == 0 {
        None
    } else if prefix.is_prefix_of(names[0]) {
        Some(names[0])
    } else {
        named_in(names.skip(1), prefix)
    }
}

pub open spec fn path_named(dir: Seq<u8>, names: Seq<Seq<u8>>, prefix: Seq<char>) -> Option<Seq<u8>> {
    match named_in(names, encode_utf8(prefix)) {
        Some(name) => Some(under(dir, name)),
        None => None,
    }
}

pub fn find_named(dir: &FilePath, names: &Vec<Vec<u8>>, prefix: &str) -> (path: Option<FilePath>)
    ensures
        held_path(path) == path_named(dir@, names_view(names@), prefix@),
{
    let ghost all = names_view(names@);
    let start = prefix.as_bytes();
    let mut i: usize = 0;
    assert(all.skip(0) =~= all);
    while i < names.len()
        invariant
            i <= names.len(),
            all == names_view(names@),
            start@ == encode_utf8(prefix@),
            named_in(all, start@) == named_in(all.skip(i as int), start@),
        decreases names.len() - i,
    {
        assert(all.skip(i as int)[0] == names@[i as int]@);
        assert(all.skip(i as int).skip(1) =~= all.skip(i + 1));
        let name = names[i].as_slice();
        if name.len() >= start.len() && same_bytes(
            start,
            vstd::slice::slice_subrange(name, 0, start.len()),
        ) {
            return Some(dir.join(&FilePath::from_bytes(name)));
        }
        i = i + 1;
    }
    None
}

/// A copy left behind by an interrupted run, beside the destination; `names` are the names there.
pub fn find_staging(target: &FilePath, names: &Vec<Vec<u8>>) -> (path: Option<FilePath>)
    ensures
        held_path(path) == staging_beside(target@, names_view(names@)),
{
    match target.parent() {
        Some(parent) => find_named(&parent, names, STAGING_PREFIX),
        None => None,
    }
}

pub open spec fn staging_beside(target: Seq<u8>, names: Seq<Seq<u8>>) -> Option<Seq<u8>> {
    match parent_of(target) {
        Some(parent) => path_named(parent, names, "compatdata.incomplete"@),
        None => None,
    }
}

/// The names of a numbered series: the base, and the base with a number from 2 on.
pub open spec fn series_name(base: Seq<char>, n: nat) -> Seq<char> {
    if n <= 1 {
        base
    } else {
        base + "-"@ + decimal_text(n)
    }
}

pub open spec fn is_taken(names: Seq<Seq<u8>>, name: Seq<char>) -> bool {
    names.contains(encode_utf8(name))
}

/// Is this the number of the first free name of a series?
pub open spec fn is_first_free(names: Seq<Seq<u8>>, base: Seq<char>, n: nat) -> bool {
    &&& 1 <= n
    &&& !is_taken(names, series_name(base, n))
    &&& all_taken(names, base, n)
}

/// Are all names of a series before a number taken?
pub open spec fn all_taken(names: Seq<Seq<u8>>, base: Seq<char>, n: nat) -> bool {
    forall|k: nat| 1 <= k < n ==> is_taken(names, #[trigger] series_name(base, k))
}

/// The first free name of a series.
pub open spec fn free_name(names: Seq<Seq<u8>>, base: Seq<char>) -> Seq<char> {
    series_name(base, choose|n: nat| is_first_free(names, base, n))
}

proof fn lemma_first_free(names: Seq<Seq<u8>>, base: Seq<char>, n: nat)
    requires
        is_first_free(names, base, n),
    ensures
        free_name(names, base) == series_name(base, n),
{
    let m = choose|m: nat| is_first_free(names, base, m);
    if m < n {
        assert(is_taken(names, series_name(base, m)));
    } else if n < m {
        assert(is_taken(names, series_name(base, n)));
    }
}

/// A directory of so many names cannot have more of a series.
proof fn lemma_series_runs_out(names: Seq<Seq<u8>>, base: Seq<char>, n: nat)
    requires
        1 <= n,
        all_taken(names, base, n),
    ensures
        n <= names.len() + 1,
    decreases n,
{
    if n > 1 {
        let last = (n - 1) as nat;
        let name = encode_utf8(series_name(base, last));
        assert(is_taken(names, series_name(base, last)));
        let at = choose|at: int| 0 <= at < names.len() && names[at] == name;
        let rest = names.remove(at);
        assert forall|k: nat| 1 <= k < last implies is_taken(rest, #[trigger] series_name(base, k)) by {
            assert(is_taken(names, series_name(base, k)));
            let other = encode_utf8(series_name(base, k));
            let j = choose|j: int| 0 <= j < names.len() && names[j] == other;
            if other == name {
                encode_utf8_decode_utf8(series_name(base, k));
                encode_utf8_decode_utf8(series_name(base, last));
                lemma_series_differs(base, k, last);
            }
            if j < at {
                assert(rest[j] == other);
            } else {
                assert(rest[j - 1] == other);
            }
        }
        lemma_series_runs_out(rest, base, last);
    }
}

fn name_is_taken(names: &Vec<Vec<u8>>, name: &str) -> (is: bool)
    ensures
        is == is_taken(names_view(names@), name@),
{
    let bytes = name.as_bytes();
    let mut i: usize = 0;
    while i < names.len()
        invariant
            i <= names.len(),
            bytes@ == encode_utf8(name@),
            forall|k: int| 0 <= k < i ==> (#[trigger] names@[k])@ != bytes@,
        decreases names.len() - i,
    {
        if same_bytes(names[i].as_slice(), bytes) {
            assert(names_view(names@)[i as int] == bytes@);
            return true;
        }
        i = i + 1;
    }
    false
}

/// The next free name of a numbered series in `parent`, by the names there.
///
/// Counting beats a timestamp here: the name stays short enough to read at a glance, and the order is
/// still obvious.
pub fn next_free(parent: &FilePath, names: &Vec<Vec<u8>>, base: &str) -> (path: FilePath)
    ensures
        path@ == under_text(parent@, free_name(names_view(names@), base@)),
        !is_taken(names_view(names@), free_name(names_view(names@), base@)),
{
    let ghost all = names_view(names@);
    if !name_is_taken(names, base) {
        proof {
            assert(is_first_free(all, base@, 1));
            lemma_first_free(all, base@, 1);
        }
        return parent.join_text(base);
    }
    let length: usize = names.len();
    let mut n: u128 = 2;
    loop
        invariant
            2 <= n <= length + 1,
            length == names@.len(),
            all == names_view(names@),
            all_taken(all, base@, n as nat),
        decreases length + 2 - n,
    {
        let mut name = base.to_string();
        name.push_str("-");
        name.push_str(decimal_wide(n).as_str());
        assert(name@ == series_name(base@, n as nat));
        if !name_is_taken(names, name.as_str()) {
            proof {
                assert(is_first_free(all, base@, n as nat));
                lemma_first_free(all, base@, n as nat);
            }
            return parent.join_text(name.as_str());
        }
        proof {
            assert(all_taken(all, base@, (n + 1) as nat));
            lemma_series_runs_out(all, base@, (n + 1) as nat);
        }
        n = n + 1;
    }
}

/// The next free name is in the series, nothing has it, and everything before it in the series is taken,
/// however many names there are.
pub proof fn law_next_free_is_free(names: Seq<Seq<u8>>, base: Seq<char>)
    ensures
        !is_taken(names, free_name(names, base)),
        exists|n: nat| is_first_free(names, base, n) && free_name(names, base) == series_name(base, n),
{
    let n = lemma_some_is_free(names, base, 1);
    lemma_first_free(names, base, n);
}

proof fn lemma_some_is_free(names: Seq<Seq<u8>>, base: Seq<char>, from: nat) -> (n: nat)
    requires
        1 <= from,
        all_taken(names, base, from),
    ensures
        is_first_free(names, base, n),
    decreases names.len() + 2 - from,
{
    lemma_series_runs_out(names, base, from);
    if is_taken(names, series_name(base, from)) {
        assert(all_taken(names, base, from + 1));
        lemma_some_is_free(names, base, from + 1)
    } else {
        from
    }
}

/// The next free name for an original that is set aside.
pub fn new_backup_path(steamapps: &FilePath, names: &Vec<Vec<u8>>) -> (path: FilePath)
    ensures
        path@ == under_text(steamapps@, free_name(names_view(names@), "compatdata.backup"@)),
        !is_taken(names_view(names@), free_name(names_view(names@), "compatdata.backup"@)),
{
    next_free(steamapps, names, BACKUP_PREFIX)
}

/// What is at the place of compatdata, links not followed. Of a link: its text, and whether the place it
/// leads to exists, is a directory, and how many entries that has.
#[derive(Debug)]
pub enum Seen {
    Nothing,
    UnreadableLink { error: String },
    Link { text: FilePath, exists: bool, is_dir: bool, inside: usize },
    Dir { inside: usize },
    Other { file_type: String },
}

pub enum SeenView {
    Nothing,
    UnreadableLink { error: Seq<char> },
    Link { text: Seq<u8>, exists: bool, is_dir: bool, inside: usize },
    Dir { inside: usize },
    Other { file_type: Seq<char> },
}

/// What the disk shows of a library: the names in its steamapps, in the directory that holds
/// destinations and beside the destination, whether anything is at the destination, and what is at the
/// place of compatdata.
#[derive(Debug)]
pub struct Sight {
    pub steamapps_names: Vec<Vec<u8>>,
    pub root_names: Vec<Vec<u8>>,
    pub beside_names: Vec<Vec<u8>>,
    pub destination_exists: bool,
    pub compatdata: Seen,
}

pub struct SightView {
    pub steamapps_names: Seq<Seq<u8>>,
    pub root_names: Seq<Seq<u8>>,
    pub beside_names: Seq<Seq<u8>>,
    pub destination_exists: bool,
    pub compatdata: SeenView,
}

impl View for Seen {
    type V = SeenView;

    open spec fn view(&self) -> SeenView {
        match *self {
            Seen::Nothing => SeenView::Nothing,
            Seen::UnreadableLink { error } => SeenView::UnreadableLink { error: error@ },
            Seen::Link { text, exists, is_dir, inside } => SeenView::Link {
                text: text@,
                exists,
                is_dir,
                inside,
            },
            Seen::Dir { inside } => SeenView::Dir { inside },
            Seen::Other { file_type } => SeenView::Other { file_type: file_type@ },
        }
    }
}

impl View for Sight {
    type V = SightView;

    open spec fn view(&self) -> SightView {
        SightView {
            steamapps_names: names_view(self.steamapps_names@),
            root_names: names_view(self.root_names@),
            beside_names: names_view(self.beside_names@),
            destination_exists: self.destination_exists,
            compatdata: self.compatdata@,
        }
    }
}

/// The state of a link, by where it leads.
pub open spec fn link_state(
    library: LibraryView,
    target: Seq<u8>,
    exists: bool,
    is_dir: bool,
    inside: usize,
) -> StateView {
    if !exists {
        StateView::DanglingLink { target }
    } else if !is_dir {
        StateView::Unusable {
            detail: "compatdata is a link to "@ + shown(target) + ", which is not a directory"@,
        }
    } else if library.owns(target) {
        StateView::Repaired { target, prefixes: inside }
    } else {
        StateView::LinkedElsewhere { target }
    }
}

pub open spec fn state_of(
    library: LibraryView,
    backups: Seq<Seq<u8>>,
    compatdata: SeenView,
) -> StateView {
    if !library.connected {
        StateView::Disconnected
    } else {
        match compatdata {
            SeenView::Nothing => if backups.len() > 0 {
                StateView::InterruptedAwaitingLink { backup: backups[0] }
            } else {
                StateView::NoCompatdata
            },
            SeenView::UnreadableLink { error } => StateView::Unusable {
                detail: "cannot read the link: "@ + error,
            },
            SeenView::Link { text, exists, is_dir, inside } => link_state(
                library,
                link_target(library.compatdata, text),
                exists,
                is_dir,
                inside,
            ),
            SeenView::Dir { inside } => StateView::NotRepaired { prefixes: inside },
            SeenView::Other { file_type } => StateView::Unusable {
                detail: "compatdata is a "@ + file_type + ", not a directory or a link"@,
            },
        }
    }
}

/// What is to be said of a library, by what the disk shows.
pub open spec fn report_of(library: LibraryView, sight: SightView) -> ReportView {
    let target = target_in_use(library, sight.root_names);
    let backups = backups_in(library.steamapps, sight.steamapps_names);
    let state = state_of(library, backups, sight.compatdata);
    ReportView {
        state,
        backups,
        abandoned_copy: staging_beside(target, sight.beside_names),
        interrupted_restore: path_named(
            library.steamapps,
            sight.steamapps_names,
            "compatdata.restoring"@,
        ),
        // Once repaired, the destination is simply where the data lives.
        existing_destination: if sight.destination_exists && state !is Repaired {
            Some(target)
        } else {
            None
        },
    }
}

fn inspect_state(library: &Library, backups: &Vec<FilePath>, compatdata: &Seen) -> (state: State)
    ensures
        state@ == state_of(library@, paths_view(backups@), compatdata@),
{
    if !library.connected {
        return State::Disconnected;
    }
    match compatdata {
        Seen::Nothing => {
            if backups.len() > 0 {
                State::InterruptedAwaitingLink { backup: backups[0].copy() }
            } else {
                State::NoCompatdata
            }
        },
        Seen::UnreadableLink { error } => {
            let mut detail = "cannot read the link: ".to_string();
            detail.push_str(error.as_str());
            State::Unusable { detail }
        },
        Seen::Link { text, exists, is_dir, inside } => {
            let target = resolve_link(&library.compatdata, text);
            if !*exists {
                State::DanglingLink { target }
            } else if !*is_dir {
                // A link to a file is not a relocated compatdata, however much its name suggests
                // otherwise.
                let mut detail = "compatdata is a link to ".to_string();
                detail.push_str(target.display().as_str());
                detail.push_str(", which is not a directory");
                State::Unusable { detail }
            } else if library.owns(&target) {
                State::Repaired { target, prefixes: *inside }
            } else {
                State::LinkedElsewhere { target }
            }
        },
        Seen::Dir { inside } => State::NotRepaired { prefixes: *inside },
        Seen::Other { file_type } => {
            let mut detail = "compatdata is a ".to_string();
            detail.push_str(file_type.as_str());
            detail.push_str(", not a directory or a link");
            State::Unusable { detail }
        },
    }
}

pub fn inspect(library: &Library, sight: &Sight) -> (report: Report)
    ensures
        report@ == report_of(library@, sight@),
{
    let backups = find_backups(&library.steamapps, &sight.steamapps_names);
    let target = library.effective_target(&sight.root_names);
    let abandoned_copy = find_staging(&target, &sight.beside_names);
    let interrupted_restore = find_named(
        &library.steamapps,
        &sight.steamapps_names,
        RESTORE_STAGING,
    );
    let state = inspect_state(library, &backups, &sight.compatdata);
    let repaired = match &state {
        State::Repaired { .. } => true,
        _ => false,
    };
    let existing_destination = if sight.destination_exists && !repaired {
        Some(target)
    } else {
        None
    };
    Report { state, backups, abandoned_copy, interrupted_restore, existing_destination }
}

/// A library is called repaired exactly when its drive is there and its compatdata is a link to a
/// directory that carries its id.
pub proof fn law_repaired_means_linked(library: LibraryView, sight: SightView)
    ensures
        report_of(library, sight).state is Repaired <==> library.connected && match sight.compatdata {
            SeenView::Link { text, exists, is_dir, .. } => exists && is_dir && library.owns(
                link_target(library.compatdata, text),
            ),
            _ => false,
        },
{
}

/// An interruption between moving the original aside and making the link is told from a library that has
/// no data yet by the original beside it.
pub proof fn law_interruption_is_told_apart(library: LibraryView, sight: SightView)
    requires
        library.connected,
        sight.compatdata is Nothing,
    ensures
        ({
            let report = report_of(library, sight);
            &&& report.state is InterruptedAwaitingLink <==> report.backups.len() > 0
            &&& report.state is NoCompatdata <==> report.backups.len() == 0
        }),
{
}

} // verus!
