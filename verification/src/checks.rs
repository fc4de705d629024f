//! What the commands make of what they find.

use vstd::prelude::*;
use vstd::utf8::encode_utf8;

use crate::fsops::{
    copy_problems, human_bytes, lost, manifest_digest, not_carried, size_text, tree_digest, verify_against, EntryView,
    Manifest,
};
use crate::path::{inside, last_name, parts, paths_view, shown, FilePath};
use crate::protocol::Event;
use crate::reasons::{
    link_differs, link_differs_text, link_not_a_link, link_not_a_link_text, link_unreadable,
    link_unreadable_text, no_final_component, no_final_component_text, probe_differs,
    probe_differs_text, probe_not_a_link, probe_not_a_link_text, processes_running,
    processes_running_text, processes_unknown, processes_unknown_text, read_only, read_only_text,
};
use crate::record::Record;
use crate::state::run_name;
use crate::steam::Library;
use crate::system::{Capability, Mount, MountView};
use crate::text::{decimal, decimal_text, join, joined, same, texts, trim, trimmed};

verus! {

/// Which blocking processes run, or why that could not be told.
pub type Running = Result<Vec<String>, String>;

pub open spec fn optional_mount(mount: Option<&Mount>) -> Option<MountView> {
    match mount {
        Some(mount) => Some(mount@),
        None => None,
    }
}

pub open spec fn mounted_read_only(mount: Option<MountView>) -> bool {
    match mount {
        Some(mount) => mount.read_only,
        None => false,
    }
}

/// What a command hears of the processes and of the drive.
pub fn system_event(running: &Running, mount: Option<&Mount>) -> (event: Event)
    ensures
        event == (Event::System {
            listed: running is Ok,
            running: running matches Ok(names) && names@.len() > 0,
            read_only: mounted_read_only(optional_mount(mount)),
        }),
{
    let read_only = match mount {
        Some(mount) => mount.read_only,
        None => false,
    };
    match running {
        Ok(names) => Event::System { listed: true, running: names.len() > 0, read_only },
        Err(_) => Event::System { listed: false, running: false, read_only },
    }
}

/// What stands against changing a library now.
pub open spec fn preflight_refusal(running: Running, mount: Option<MountView>) -> Option<Seq<char>> {
    match running {
        Err(reason) => Some(processes_unknown_text(reason@)),
        Ok(names) => if names@.len() > 0 {
            Some(processes_running_text(joined(texts(names@), ", "@)))
        } else {
            match mount {
                Some(mount) => if mount.read_only {
                    Some(read_only_text(mount.mount_point))
                } else {
                    None
                },
                None => None,
            }
        },
    }
}

/// The checks every path that changes a library must pass, whether it is a repair, a recovery, a conflict
/// resolution or an undo.
pub fn preflight(running: &Running, mount: Option<&Mount>) -> (verdict: Result<(), String>)
    ensures
        verdict is Ok <==> preflight_refusal(*running, optional_mount(mount)) is None,
        verdict matches Err(text) ==> Some(text@) == preflight_refusal(
            *running,
            optional_mount(mount),
        ),
{
    let names = match running {
        Ok(names) => names,
        Err(reason) => return Err(processes_unknown(reason.as_str())),
    };
    if names.len() > 0 {
        return Err(processes_running(join(names, ", ").as_str()));
    }
    if let Some(mount) = mount {
        if mount.read_only {
            return Err(read_only(&mount.mount_point));
        }
    }
    Ok(())
}

pub open spec fn capability_if_known(mount: Option<MountView>) -> Option<Capability> {
    match mount {
        Some(mount) => Some(mount.capability),
        None => None,
    }
}

/// Are both filesystems known, and one?
pub open spec fn one_filesystem(source: Option<MountView>, target: Option<MountView>) -> bool {
    match (source, target) {
        (Some(source), Some(target)) => parts(source.mount_point) == parts(target.mount_point),
        _ => false,
    }
}

/// What a command hears of the filesystems of the library and of the destination.
pub fn mounts_event(source: Option<&Mount>, target: Option<&Mount>) -> (event: Event)
    ensures
        event == (Event::Mounts {
            source: capability_if_known(optional_mount(source)),
            target: capability_if_known(optional_mount(target)),
            same: one_filesystem(optional_mount(source), optional_mount(target)),
        }),
{
    let same = match (source, target) {
        (Some(source), Some(target)) => source.mount_point.same_as(&target.mount_point),
        _ => false,
    };
    Event::Mounts {
        source: match source {
            Some(mount) => Some(mount.capability),
            None => None,
        },
        target: match target {
            Some(mount) => Some(mount.capability),
            None => None,
        },
        same,
    }
}

pub open spec fn at_most_ten<T>(list: Seq<T>) -> Seq<T> {
    if list.len() > 10 {
        list.take(10)
    } else {
        list
    }
}

/// The first ten of a list, each on a line of its own.
pub fn first_ten(list: &Vec<String>) -> (text: String)
    ensures
        text@ == joined(at_most_ten(texts(list@)), "\n  "@),
{
    let mut firsts: Vec<String> = Vec::new();
    let mut i: usize = 0;
    while i < list.len() && i < 10
        invariant
            i <= list.len(),
            i <= 10,
            firsts@.len() == i,
            forall|k: int| 0 <= k < i ==> (#[trigger] firsts@[k])@ == list@[k]@,
        decreases list.len() - i,
    {
        firsts.push(list[i].clone());
        i = i + 1;
    }
    assert(texts(firsts@) =~= at_most_ten(texts(list@)));
    join(&firsts, "\n  ")
}

pub open spec fn link_line(link: (Seq<u8>, Seq<u8>)) -> Seq<char> {
    "  "@ + shown(link.0) + " -> "@ + shown(link.1)
}

pub open spec fn links_lines(links: Seq<(Seq<u8>, Seq<u8>)>) -> Seq<Seq<char>> {
    Seq::new(links.len(), |i: int| link_line(links[i]))
}

/// The first ten of a list of links, each on a line of its own.
pub fn list_links(links: &Vec<(FilePath, FilePath)>) -> (text: String)
    ensures
        text@ == joined(links_lines(at_most_ten(crate::fsops::link_pairs(links@))), "\n"@),
{
    let mut lines: Vec<String> = Vec::new();
    let mut i: usize = 0;
    while i < links.len() && i < 10
        invariant
            i <= links.len(),
            i <= 10,
            lines@.len() == i,
            forall|k: int| 0 <= k < i ==> (#[trigger] lines@[k])@ == link_line((links@[k].0@, links@[k].1@)),
        decreases links.len() - i,
    {
        let mut line = "  ".to_string();
        line.push_str(links[i].0.display().as_str());
        line.push_str(" -> ");
        line.push_str(links[i].1.display().as_str());
        lines.push(line);
        i = i + 1;
    }
    assert(texts(lines@) =~= links_lines(at_most_ten(crate::fsops::link_pairs(links@))));
    join(&lines, "\n")
}

/// What is wrong with a link that was made.
pub open spec fn link_fault(
    link: Seq<u8>,
    target: Seq<u8>,
    is_symlink: bool,
    read_back: Seq<u8>,
    readable: bool,
) -> Option<Seq<char>> {
    if !is_symlink {
        Some(link_not_a_link_text(link))
    } else if parts(read_back) != parts(target) {
        Some(link_differs_text(link, read_back, target))
    } else if !readable {
        Some(link_unreadable_text(link))
    } else {
        None
    }
}

/// Is the link that was made the one that was wanted: a link, to the target, through which a directory can
/// be read?
pub fn check_link(
    link: &FilePath,
    target: &FilePath,
    is_symlink: bool,
    read_back: &FilePath,
    readable: bool,
) -> (verdict: Result<(), String>)
    ensures
        verdict is Ok <==> link_fault(link@, target@, is_symlink, read_back@, readable) is None,
        verdict matches Err(text) ==> Some(text@) == link_fault(
            link@,
            target@,
            is_symlink,
            read_back@,
            readable,
        ),
{
    if !is_symlink {
        Err(link_not_a_link(link))
    } else if !read_back.same_as(target) {
        Err(link_differs(link, read_back, target))
    } else if !readable {
        Err(link_unreadable(link))
    } else {
        Ok(())
    }
}

/// The name under which a link is tried out, unique per run and never written over something already there.
pub fn probe_name(process: u32, stamp: u32) -> (name: String)
    ensures
        name@ == run_name(".librarybridge-probe"@, process, stamp),
{
    let mut name = ".librarybridge-probe".to_string();
    name.push_str("-");
    name.push_str(decimal(process as u64).as_str());
    name.push_str("-");
    name.push_str(decimal(stamp as u64).as_str());
    name
}

/// What a link that is only tried out points at.
pub const PROBE_TARGET: &'static str = "librarybridge-probe-target";

/// What is wrong with a link that was tried out.
pub open spec fn probe_fault(probe: Seq<u8>, is_symlink: bool, read_back: Seq<u8>) -> Option<Seq<char>> {
    let sentinel = encode_utf8("librarybridge-probe-target"@);
    if !is_symlink {
        Some(probe_not_a_link_text(probe))
    } else if parts(read_back) != parts(sentinel) {
        Some(probe_differs_text(probe, read_back, sentinel))
    } else {
        None
    }
}

/// Does the filesystem keep links? Judged by one that was made, looked at and read back.
pub fn check_probe(probe: &FilePath, is_symlink: bool, read_back: &FilePath) -> (verdict: Result<
    (),
    String,
>)
    ensures
        verdict is Ok <==> probe_fault(probe@, is_symlink, read_back@) is None,
        verdict matches Err(text) ==> Some(text@) == probe_fault(probe@, is_symlink, read_back@),
{
    let sentinel = FilePath::new(PROBE_TARGET);
    if !is_symlink {
        Err(probe_not_a_link(probe))
    } else if !read_back.same_as(&sentinel) {
        Err(probe_differs(probe, read_back, &sentinel))
    } else {
        Ok(())
    }
}

/// May the link that was tried out be removed? Only if it still is the link that was made.
pub fn is_own_probe(read_back: Option<&FilePath>) -> (is: bool)
    ensures
        is == (read_back matches Some(text) && parts(text@) == parts(
            encode_utf8("librarybridge-probe-target"@),
        )),
{
    match read_back {
        Some(text) => text.same_as(&FilePath::new(PROBE_TARGET)),
        None => false,
    }
}

/// Could two trees hold the same data, by how many entries and bytes they have? A mismatch settles it;
/// matching totals prove nothing on their own: two saves of the same length are why every file is then
/// hashed and every link text compared.
pub fn same_shape(left: &Manifest, right: &Manifest) -> (same: bool)
    ensures
        same == (left@.len() == right@.len() && left.bytes == right.bytes),
{
    left.entries.len() == right.entries.len() && left.bytes == right.bytes
}

/// Are two trees, every file of which has been hashed, the same data?
pub fn same_data(left: &Manifest, right: &Manifest) -> (same: bool)
    ensures
        same == (copy_problems(left@, right@).len() == 0),
{
    verify_against(left, right).is_ok()
}

/// A tree in words: where it is, how many files and how many bytes.
pub open spec fn tree_text(path: Seq<u8>, files: usize, bytes: u64) -> Seq<char> {
    shown(path) + " ("@ + decimal_text(files as nat) + " files, "@ + size_text(bytes as nat) + ")"@
}

fn describe_tree(path: &FilePath, manifest: &Manifest) -> (text: String)
    ensures
        text@ == tree_text(path@, manifest.files, manifest.bytes),
{
    let mut text = path.display();
    text.push_str(" (");
    text.push_str(decimal(manifest.files as u64).as_str());
    text.push_str(" files, ");
    text.push_str(human_bytes(manifest.bytes).as_str());
    text.push_str(")");
    text
}

/// What is said when two different sets of data exist.
pub open spec fn conflict_text(id: Seq<char>, there: Seq<char>, here: Seq<char>) -> Seq<char> {
    "two different sets of Proton data exist, and only you can say which one counts.\n\n  at the destination: "@
        + there + "\n  on the game drive:  "@ + here
        + "\n\nThis usually means an earlier repair was interrupted and Steam recreated\ncompatdata before it could be finished. If so, the destination holds your real\nprefixes and the game drive holds a fresh empty one.\n\nNothing has been changed. Look at both, then choose:\n\n  librarybridge fix "@
        + id
        + " --keep-destination     keep the destination, set the game drive copy aside\n  librarybridge fix "@
        + id
        + " --replace-destination  keep the game drive copy, set the destination aside\n\nEither way, both copies are kept."@
}

/// What is said when something other than the library's data is at the destination; `here` is the data of
/// the library, where it has any.
pub fn conflict_message(
    library: &Library,
    destination: &FilePath,
    there: &Manifest,
    here: Option<&Manifest>,
) -> (text: String)
    ensures
        text@ == conflict_text(
            library.id@,
            tree_text(destination@, there.files, there.bytes),
            match here {
                Some(here) => tree_text(library.compatdata@, here.files, here.bytes),
                None => shown(library.compatdata@) + " (nothing there)"@,
            },
        ),
{
    let other = match here {
        Some(here) => describe_tree(&library.compatdata, here),
        None => {
            let mut text = library.compatdata.display();
            text.push_str(" (nothing there)");
            text
        },
    };
    let mut text =
        "two different sets of Proton data exist, and only you can say which one counts.\n\n  at the destination: ".to_string();
    text.push_str(describe_tree(destination, there).as_str());
    text.push_str("\n  on the game drive:  ");
    text.push_str(other.as_str());
    text.push_str(
        "\n\nThis usually means an earlier repair was interrupted and Steam recreated\ncompatdata before it could be finished. If so, the destination holds your real\nprefixes and the game drive holds a fresh empty one.\n\nNothing has been changed. Look at both, then choose:\n\n  librarybridge fix ",
    );
    text.push_str(library.id.as_str());
    text.push_str(
        " --keep-destination     keep the destination, set the game drive copy aside\n  librarybridge fix ",
    );
    text.push_str(library.id.as_str());
    text.push_str(
        " --replace-destination  keep the game drive copy, set the destination aside\n\nEither way, both copies are kept.",
    );
    text
}

/// Is it a yes?
pub open spec fn says_yes(answer: Seq<char>) -> bool {
    let word = trimmed(answer);
    word == "y"@ || word == "Y"@ || word == "yes"@ || word == "Yes"@
}

pub fn is_yes(answer: &str) -> (yes: bool)
    ensures
        yes == says_yes(answer@),
{
    let word = trim(answer);
    same(word.as_str(), "y") || same(word.as_str(), "Y") || same(word.as_str(), "yes") || same(
        word.as_str(),
        "Yes",
    )
}

/// The first of a path's ancestors that exists, by which of them do; the root where none does.
pub open spec fn first_existing(list: Seq<Seq<u8>>, exists: Seq<bool>) -> Seq<u8>
    decreases list.len(),
{
    if list.len() == 0 || exists.len() == 0 {
        encode_utf8("/"@)
    } else if exists[0] {
        list[0]
    } else {
        first_existing(list.skip(1), exists.skip(1))
    }
}

pub fn existing_ancestor(list: &Vec<FilePath>, exists: &Vec<bool>) -> (path: FilePath)
    ensures
        path@ == first_existing(paths_view(list@), exists@),
{
    let ghost all = paths_view(list@);
    let mut i: usize = 0;
    assert(all.skip(0) =~= all);
    assert(exists@.skip(0) =~= exists@);
    while i < list.len() && i < exists.len()
        invariant
            i <= list.len(),
            i <= exists.len(),
            all == paths_view(list@),
            first_existing(all, exists@) == first_existing(
                all.skip(i as int),
                exists@.skip(i as int),
            ),
        decreases list.len() - i,
    {
        assert(all.skip(i as int)[0] == list@[i as int]@);
        assert(exists@.skip(i as int)[0] == exists@[i as int]);
        if exists[i] {
            return list[i].copy();
        }
        assert(all.skip(i as int).skip(1) =~= all.skip(i + 1));
        assert(exists@.skip(i as int).skip(1) =~= exists@.skip(i + 1));
        i = i + 1;
    }
    FilePath::new("/")
}

/// The last step of a path, which is what a call relative to a directory takes. A path with no last step
/// is a bug, not a user error.
pub fn file_name(path: &FilePath) -> (name: Result<FilePath, String>)
    ensures
        match last_name(path@) {
            Some(last) => name is Ok && name->Ok_0@ == last,
            None => name is Err && name->Err_0@ == no_final_component_text(path@),
        },
{
    match path.file_name() {
        Some(last) => Ok(FilePath { bytes: last }),
        None => Err(no_final_component(path)),
    }
}

/// What the checks before a change say is what the command hears: it goes on exactly when they pass.
pub proof fn law_preflight_decides(running: Running, mount: Option<MountView>)
    ensures
        preflight_refusal(running, mount) is None <==> (Event::System {
            listed: running is Ok,
            running: running matches Ok(names) && names@.len() > 0,
            read_only: mounted_read_only(mount),
        }) == (Event::System { listed: true, running: false, read_only: false }),
{
}

/// Is the plan the one that was reviewed? Where none was, any is.
pub fn plan_event(expected: Option<&str>, fingerprint: &str) -> (event: Event)
    ensures
        event == (Event::Plan { expected: expected is None || expected->0@ == fingerprint@ }),
{
    let expected = match expected {
        Some(expected) => same(expected, fingerprint),
        None => true,
    };
    Event::Plan { expected }
}

/// Is there a record of an interrupted run, and does it name the destination?
pub fn record_event(record: Option<&Record>, target: &FilePath) -> (event: Event)
    ensures
        event == (Event::Record {
            names_destination: record is Some && parts(record->0@.destination) == parts(target@),
        }),
{
    let names_destination = match record {
        Some(record) => record.destination.same_as(target),
        None => false,
    };
    Event::Record { names_destination }
}

/// Is the copy the one that the interrupted run verified, by its digest?
pub fn digest_event(record: Option<&Record>, copy: &Manifest) -> (event: Event)
    ensures
        event == Event::Answer(record is Some && record->0@.digest == tree_digest(copy@)),
{
    match record {
        Some(record) => Event::Answer(same(manifest_digest(copy).as_str(), record.digest.as_str())),
        None => Event::Answer(false),
    }
}

pub open spec fn manifests_view(list: Seq<Manifest>) -> Seq<Seq<EntryView>> {
    Seq::new(list.len(), |i: int| list[i]@)
}

/// The first of the originals that the live data does not carry.
pub open spec fn first_not_carried(originals: Seq<Seq<EntryView>>, live: Seq<EntryView>) -> Option<int>
    decreases originals.len(),
{
    if originals.len() == 0 {
        None
    } else if first_not_carried(originals.drop_last(), live) is Some {
        first_not_carried(originals.drop_last(), live)
    } else if lost(originals.last(), live).len() > 0 {
        Some(originals.len() - 1)
    } else {
        None
    }
}

proof fn lemma_not_carried_stays(originals: Seq<Seq<EntryView>>, live: Seq<EntryView>, n: int)
    requires
        0 <= n <= originals.len(),
        first_not_carried(originals.take(n), live) is Some,
    ensures
        first_not_carried(originals, live) == first_not_carried(originals.take(n), live),
    decreases originals.len(),
{
    if n == originals.len() {
        assert(originals.take(n) =~= originals);
    } else {
        assert(originals.drop_last().take(n) =~= originals.take(n));
        lemma_not_carried_stays(originals.drop_last(), live, n);
    }
}

/// An original that still holds the only copy of something: which it is, and of what.
#[derive(Debug)]
pub struct Lacking {
    pub original: usize,
    pub paths: Vec<FilePath>,
}

/// Compares the originals with the live data: which of them still holds the only copy of something.
pub fn compare_originals(originals: &Vec<Manifest>, live: &Manifest) -> (lacking: Option<Lacking>)
    ensures
        match first_not_carried(manifests_view(originals@), live@) {
            Some(at) => {
                &&& lacking is Some
                &&& lacking->0.original == at
                &&& 0 <= at < originals@.len()
                &&& paths_view(lacking->0.paths@) == lost(originals@[at]@, live@)
            },
            None => lacking is None,
        },
{
    let ghost all = manifests_view(originals@);
    let mut i: usize = 0;
    while i < originals.len()
        invariant
            i <= originals.len(),
            all == manifests_view(originals@),
            first_not_carried(all.take(i as int), live@) is None,
        decreases originals.len() - i,
    {
        assert(all.take(i + 1).drop_last() =~= all.take(i as int));
        assert(all.take(i + 1).last() == originals@[i as int]@);
        let missing = not_carried(&originals[i], live);
        assert(paths_view(missing@).len() == missing@.len());
        if missing.len() > 0 {
            proof {
                lemma_not_carried_stays(all, live@, i + 1);
            }
            return Some(Lacking { original: i, paths: missing });
        }
        i = i + 1;
    }
    assert(all.take(i as int) =~= all);
    None
}

/// Nothing is found lacking exactly when the live data carries all of every original.
pub proof fn law_nothing_lacks_when_all_is_carried(originals: Seq<Seq<EntryView>>, live: Seq<EntryView>)
    ensures
        first_not_carried(originals, live) is None <==> forall|i: int|
            0 <= i < originals.len() ==> lost(#[trigger] originals[i], live).len() == 0,
    decreases originals.len(),
{
    if originals.len() > 0 {
        let short = originals.drop_last();
        law_nothing_lacks_when_all_is_carried(short, live);
        assert forall|i: int| 0 <= i < short.len() implies #[trigger] short[i] == originals[i] by {}
        if first_not_carried(originals, live) is None {
            assert forall|i: int| 0 <= i < originals.len() implies lost(#[trigger] originals[i], live).len() == 0 by {
                if i < short.len() {
                    assert(lost(short[i], live).len() == 0);
                }
            }
        } else if forall|i: int| 0 <= i < originals.len() ==> lost(#[trigger] originals[i], live).len() == 0 {
            assert(lost(originals[originals.len() - 1], live).len() == 0);
            assert forall|i: int| 0 <= i < short.len() implies lost(#[trigger] short[i], live).len() == 0 by {
                assert(lost(originals[i], live).len() == 0);
            }
        }
    }
}

/// Two filesystems are taken for one exactly when both are known and each is mounted inside the other. So a known
/// one is one with itself, it does not matter which is asked about first, and a drive that is mounted somewhere
/// below another's mount point, or above it, is never taken for that other.
pub proof fn law_one_filesystem_has_one_mount_point(
    source: Option<&Mount>,
    target: Option<&Mount>,
    event: Event,
    turned: Event,
    own: Event,
)
    requires
        call_ensures(mounts_event, (source, target), event),
        call_ensures(mounts_event, (target, source), turned),
        call_ensures(mounts_event, (source, source), own),
    ensures
        event is Mounts && turned is Mounts && own is Mounts,
        event->Mounts_same <==> source is Some && target is Some && inside(
            source->0.mount_point@,
            target->0.mount_point@,
        ) && inside(target->0.mount_point@, source->0.mount_point@),
        event->Mounts_same == turned->Mounts_same,
        own->Mounts_same <==> source is Some,
        event->Mounts_source is Some <==> source is Some,
        event->Mounts_target is Some <==> target is Some,
        source matches Some(mount) ==> event->Mounts_source == Some(mount.capability),
        target matches Some(mount) ==> event->Mounts_target == Some(mount.capability),
        source is Some && target is Some && event->Mounts_same ==> forall|path: Seq<u8>|
            inside(source->0.mount_point@, path) <==> #[trigger] inside(target->0.mount_point@, path),
{
    if source is Some && target is Some {
        let a = parts(source->0.mount_point@);
        let b = parts(target->0.mount_point@);
        if a.is_prefix_of(b) && b.is_prefix_of(a) {
            assert(a =~= b);
        }
        assert(a == b ==> a.is_prefix_of(b));
    }
}

} // verus!
