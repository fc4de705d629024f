//! Why a command stops, in words.

use vstd::prelude::*;

use crate::fsops::{human_bytes, size_text};
use crate::path::{shown, FilePath};

verus! {

pub open spec fn wrong_state_text(library: Seq<u8>, headline: Seq<char>) -> Seq<char> {
    shown(library)
        + ": cannot repair while the library is in the state '"@
        + headline
        + "'. Run `librarybridge scan` for details."@
}

/// A library in this state cannot be repaired.
pub fn wrong_state(library: &FilePath, headline: &str) -> (text: String)
    ensures
        text@ == wrong_state_text(library@, headline@),
{
    let mut text = library.display();
    text.push_str(": cannot repair while the library is in the state '");
    text.push_str(headline);
    text.push_str("'. Run `librarybridge scan` for details.");
    text
}

pub open spec fn no_symlinks_text(library: Seq<u8>, fs_type: Seq<char>) -> Seq<char> {
    shown(library)
        + " is on "@
        + fs_type
        + ", which has no symlink support. This repair cannot work there. Use Steam to move the library to a Linux filesystem instead."@
}

/// The filesystem of the library cannot hold the link.
pub fn no_symlinks(library: &FilePath, fs_type: &str) -> (text: String)
    ensures
        text@ == no_symlinks_text(library@, fs_type@),
{
    let mut text = library.display();
    text.push_str(" is on ");
    text.push_str(fs_type);
    text.push_str(", which has no symlink support. This repair cannot work there. Use Steam to move the library to a Linux filesystem instead.");
    text
}

pub open spec fn nothing_to_repair_text(library: Seq<u8>, fs_type: Seq<char>) -> Seq<char> {
    shown(library)
        + " is already on "@
        + fs_type
        + ", a Linux filesystem. There is nothing to repair. Pass --force to do it anyway."@
}

/// The filesystem of the library is fine as it is.
pub fn nothing_to_repair(library: &FilePath, fs_type: &str) -> (text: String)
    ensures
        text@ == nothing_to_repair_text(library@, fs_type@),
{
    let mut text = library.display();
    text.push_str(" is already on ");
    text.push_str(fs_type);
    text.push_str(", a Linux filesystem. There is nothing to repair. Pass --force to do it anyway.");
    text
}

pub open spec fn unidentified_text(library: Seq<u8>) -> Seq<char> {
    "the filesystem under "@
        + shown(library)
        + " could not be identified, so there is no way to tell whether this repair applies or would even work. This is expected off Linux, where there is no mount table to read. Pass --force to proceed anyway."@
}

/// The filesystem of the library is not known.
pub fn unidentified(library: &FilePath) -> (text: String)
    ensures
        text@ == unidentified_text(library@),
{
    let mut text = "the filesystem under ".to_string();
    text.push_str(library.display().as_str());
    text.push_str(" could not be identified, so there is no way to tell whether this repair applies or would even work. This is expected off Linux, where there is no mount table to read. Pass --force to proceed anyway.");
    text
}

pub open spec fn same_filesystem_text(target: Seq<u8>) -> Seq<char> {
    "the destination "@
        + shown(target)
        + " is on the same filesystem as the library. Moving the data there would not fix anything."@
}

/// The destination is on the drive that the data is to leave.
pub fn same_filesystem(target: &FilePath) -> (text: String)
    ensures
        text@ == same_filesystem_text(target@),
{
    let mut text = "the destination ".to_string();
    text.push_str(target.display().as_str());
    text.push_str(" is on the same filesystem as the library. Moving the data there would not fix anything.");
    text
}

pub open spec fn unfit_destination_text(target: Seq<u8>, fs_type: Seq<char>) -> Seq<char> {
    "the destination "@
        + shown(target)
        + " is on "@
        + fs_type
        + ", which is not a Linux filesystem. Moving the data there would not fix anything."@
}

/// The destination is on a filesystem that is no better.
pub fn unfit_destination(target: &FilePath, fs_type: &str) -> (text: String)
    ensures
        text@ == unfit_destination_text(target@, fs_type@),
{
    let mut text = "the destination ".to_string();
    text.push_str(target.display().as_str());
    text.push_str(" is on ");
    text.push_str(fs_type);
    text.push_str(", which is not a Linux filesystem. Moving the data there would not fix anything.");
    text
}

pub open spec fn unknown_destination_text(target: Seq<u8>) -> Seq<char> {
    "the filesystem under the destination "@
        + shown(target)
        + " could not be identified, so there is no way to tell whether Proton data would work there. Choose a place on a Linux filesystem, or pass --force to proceed anyway."@
}

/// The filesystem of the destination is not known.
pub fn unknown_destination(target: &FilePath) -> (text: String)
    ensures
        text@ == unknown_destination_text(target@),
{
    let mut text = "the filesystem under the destination ".to_string();
    text.push_str(target.display().as_str());
    text.push_str(" could not be identified, so there is no way to tell whether Proton data would work there. Choose a place on a Linux filesystem, or pass --force to proceed anyway.");
    text
}

pub open spec fn same_directory_text(target: Seq<u8>) -> Seq<char> {
    "the destination "@
        + shown(target)
        + " is the same directory as the library itself. Moving the data there would not fix anything."@
}

/// The destination is the library.
pub fn same_directory(target: &FilePath) -> (text: String)
    ensures
        text@ == same_directory_text(target@),
{
    let mut text = "the destination ".to_string();
    text.push_str(target.display().as_str());
    text.push_str(" is the same directory as the library itself. Moving the data there would not fix anything.");
    text
}

pub open spec fn escaping_text(listed: Seq<char>) -> Seq<char> {
    "this prefix contains relative links that point outside it, and moving the tree would change where they lead:\n"@
        + listed
        + "\n\nCopying them unchanged would leave them pointing at the wrong place, and rewriting them is a separate decision this tool does not make on its own. Nothing was changed."@
}

/// Relative links lead out of the data that is to be moved.
pub fn escaping(listed: &str) -> (text: String)
    ensures
        text@ == escaping_text(listed@),
{
    let mut text = "this prefix contains relative links that point outside it, and moving the tree would change where they lead:\n".to_string();
    text.push_str(listed);
    text.push_str("\n\nCopying them unchanged would leave them pointing at the wrong place, and rewriting them is a separate decision this tool does not make on its own. Nothing was changed.");
    text
}

pub open spec fn escaping_back_text(listed: Seq<char>) -> Seq<char> {
    "this prefix contains relative links that point outside it, and moving the tree back would change where they lead:\n"@
        + listed
        + "\n\nNothing was changed. The repair is still in place and your data is still reachable through it."@
}

/// Relative links lead out of the data that is to be moved back.
pub fn escaping_back(listed: &str) -> (text: String)
    ensures
        text@ == escaping_back_text(listed@),
{
    let mut text = "this prefix contains relative links that point outside it, and moving the tree back would change where they lead:\n".to_string();
    text.push_str(listed);
    text.push_str("\n\nNothing was changed. The repair is still in place and your data is still reachable through it.");
    text
}

pub open spec fn no_room_text(holder: Seq<u8>, bytes: u64, reserve: u64, free: u64) -> Seq<char> {
    "not enough room at "@
        + shown(holder)
        + ". The copy needs "@
        + size_text(bytes as nat)
        + " plus "@
        + size_text(reserve as nat)
        + " spare, and only "@
        + size_text(free as nat)
        + " is free."@
}

/// There is too little room at the destination.
pub fn no_room(holder: &FilePath, bytes: u64, reserve: u64, free: u64) -> (text: String)
    ensures
        text@ == no_room_text(holder@, bytes, reserve, free),
{
    let mut text = "not enough room at ".to_string();
    text.push_str(holder.display().as_str());
    text.push_str(". The copy needs ");
    text.push_str(human_bytes(bytes).as_str());
    text.push_str(" plus ");
    text.push_str(human_bytes(reserve).as_str());
    text.push_str(" spare, and only ");
    text.push_str(human_bytes(free).as_str());
    text.push_str(" is free.");
    text
}

pub open spec fn no_room_back_text(bytes: u64, free: u64) -> Seq<char> {
    "not enough room on the game drive: "@
        + size_text(bytes as nat)
        + " needed, "@
        + size_text(free as nat)
        + " free."@
}

/// There is too little room on the game drive.
pub fn no_room_back(bytes: u64, free: u64) -> (text: String)
    ensures
        text@ == no_room_back_text(bytes, free),
{
    let mut text = "not enough room on the game drive: ".to_string();
    text.push_str(human_bytes(bytes).as_str());
    text.push_str(" needed, ");
    text.push_str(human_bytes(free).as_str());
    text.push_str(" free.");
    text
}

pub open spec fn plan_changed_text(expected: Seq<char>, fingerprint: Seq<char>) -> Seq<char> {
    "this library has changed since the plan was reviewed. It was "@
        + expected
        + " and is now "@
        + fingerprint
        + ". Nothing was done. Review it again."@
}

/// What would be done is not what was reviewed.
pub fn plan_changed(expected: &str, fingerprint: &str) -> (text: String)
    ensures
        text@ == plan_changed_text(expected@, fingerprint@),
{
    let mut text = "this library has changed since the plan was reviewed. It was ".to_string();
    text.push_str(expected);
    text.push_str(" and is now ");
    text.push_str(fingerprint);
    text.push_str(". Nothing was done. Review it again.");
    text
}

pub open spec fn copy_differs_text(problems: Seq<char>) -> Seq<char> {
    "the copy does not match the source, so nothing on the game drive was touched.\n  "@
        + problems
}

/// The copy is not what it was copied from.
pub fn copy_differs(problems: &str) -> (text: String)
    ensures
        text@ == copy_differs_text(problems@),
{
    let mut text = "the copy does not match the source, so nothing on the game drive was touched.\n  ".to_string();
    text.push_str(problems);
    text
}

pub open spec fn source_changed_text(changes: Seq<char>) -> Seq<char> {
    "the source changed while it was being copied, so nothing on the game drive was touched. Make sure Steam is closed and try again.\n  "@
        + changes
}

/// The source changed while it was copied.
pub fn source_changed(changes: &str) -> (text: String)
    ensures
        text@ == source_changed_text(changes@),
{
    let mut text = "the source changed while it was being copied, so nothing on the game drive was touched. Make sure Steam is closed and try again.\n  ".to_string();
    text.push_str(changes);
    text
}

pub open spec fn copy_back_differs_text(problems: Seq<char>) -> Seq<char> {
    "the copy back does not match, so the repair was left in place.\n  "@
        + problems
}

/// The copy back is not what it was copied from.
pub fn copy_back_differs(problems: &str) -> (text: String)
    ensures
        text@ == copy_back_differs_text(problems@),
{
    let mut text = "the copy back does not match, so the repair was left in place.\n  ".to_string();
    text.push_str(problems);
    text
}

pub open spec fn live_changed_text(changes: Seq<char>) -> Seq<char> {
    "the data changed while it was being copied back, so the repair was left in place. Make sure Steam is closed and try again.\n  "@
        + changes
}

/// The live data changed while it was copied back.
pub fn live_changed(changes: &str) -> (text: String)
    ensures
        text@ == live_changed_text(changes@),
{
    let mut text = "the data changed while it was being copied back, so the repair was left in place. Make sure Steam is closed and try again.\n  ".to_string();
    text.push_str(changes);
    text
}

pub open spec fn not_a_directory_text(compatdata: Seq<u8>, kind: Seq<char>) -> Seq<char> {
    shown(compatdata)
        + " is a "@
        + kind
        + " now, not a directory. Something changed it since this repair was planned, so nothing was moved."@
}

/// What is to be moved aside is no directory any more.
pub fn not_a_directory(compatdata: &FilePath, kind: &str) -> (text: String)
    ensures
        text@ == not_a_directory_text(compatdata@, kind@),
{
    let mut text = compatdata.display();
    text.push_str(" is a ");
    text.push_str(kind);
    text.push_str(" now, not a directory. Something changed it since this repair was planned, so nothing was moved.");
    text
}

pub open spec fn leads_away_text(compatdata: Seq<u8>, dir: Seq<u8>) -> Seq<char> {
    shown(compatdata)
        + " no longer resolves inside "@
        + shown(dir)
        + ". Something replaced a directory along that path since this repair was planned, so nothing was moved."@
}

/// The way to what is to be moved aside leads out of its directory.
pub fn leads_away(compatdata: &FilePath, dir: &FilePath) -> (text: String)
    ensures
        text@ == leads_away_text(compatdata@, dir@),
{
    let mut text = compatdata.display();
    text.push_str(" no longer resolves inside ");
    text.push_str(dir.display().as_str());
    text.push_str(". Something replaced a directory along that path since this repair was planned, so nothing was moved.");
    text
}

pub open spec fn move_failed_text(error: Seq<char>, target: Seq<u8>) -> Seq<char> {
    error
        + ". The copy is complete at "@
        + shown(target)
        + ", and the original is untouched."@
}

/// The original could not be moved aside.
pub fn move_failed(error: &str, target: &FilePath) -> (text: String)
    ensures
        text@ == move_failed_text(error@, target@),
{
    let mut text = error.to_string();
    text.push_str(". The copy is complete at ");
    text.push_str(target.display().as_str());
    text.push_str(", and the original is untouched.");
    text
}

pub open spec fn put_back_failed_text(error: Seq<char>, staging: Seq<u8>, target: Seq<u8>) -> Seq<char> {
    error
        + ". The data is safe at "@
        + shown(staging)
        + " and at "@
        + shown(target)
        + "."@
}

/// The copy could not be put in the place of the link.
pub fn put_back_failed(error: &str, staging: &FilePath, target: &FilePath) -> (text: String)
    ensures
        text@ == put_back_failed_text(error@, staging@, target@),
{
    let mut text = error.to_string();
    text.push_str(". The data is safe at ");
    text.push_str(staging.display().as_str());
    text.push_str(" and at ");
    text.push_str(target.display().as_str());
    text.push_str(".");
    text
}

pub open spec fn copy_missing_text(target: Seq<u8>, backup: Seq<u8>, compatdata: Seq<u8>) -> Seq<char> {
    "the copy at "@
        + shown(target)
        + " is missing, so this cannot be finished automatically. Your data is intact at "@
        + shown(backup)
        + ". Rename it back to "@
        + shown(compatdata)
        + " to return to the starting point."@
}

/// The copy of an interrupted repair is not there.
pub fn copy_missing(target: &FilePath, backup: &FilePath, compatdata: &FilePath) -> (text: String)
    ensures
        text@ == copy_missing_text(target@, backup@, compatdata@),
{
    let mut text = "the copy at ".to_string();
    text.push_str(target.display().as_str());
    text.push_str(" is missing, so this cannot be finished automatically. Your data is intact at ");
    text.push_str(backup.display().as_str());
    text.push_str(". Rename it back to ");
    text.push_str(compatdata.display().as_str());
    text.push_str(" to return to the starting point.");
    text
}

pub open spec fn no_proof_text(target: Seq<u8>) -> Seq<char> {
    "there is no way to tell whether the copy at "@
        + shown(target)
        + " is complete: no record of the interrupted run survived, and there is no original beside the library to compare it against. Nothing was changed."@
}

/// Nothing shows that the copy of an interrupted repair is complete.
pub fn no_proof(target: &FilePath) -> (text: String)
    ensures
        text@ == no_proof_text(target@),
{
    let mut text = "there is no way to tell whether the copy at ".to_string();
    text.push_str(target.display().as_str());
    text.push_str(" is complete: no record of the interrupted run survived, and there is no original beside the library to compare it against. Nothing was changed.");
    text
}

pub open spec fn copy_not_original_text(target: Seq<u8>, backup: Seq<u8>, compatdata: Seq<u8>) -> Seq<char> {
    "the copy at "@
        + shown(target)
        + " does not match the original at "@
        + shown(backup)
        + ", so it is not safe to point Steam at it. Nothing was changed. Compare them yourself, or rename the original back to "@
        + shown(compatdata)
        + " to return to the starting point."@
}

/// The copy of an interrupted repair is not the original.
pub fn copy_not_original(target: &FilePath, backup: &FilePath, compatdata: &FilePath) -> (text: String)
    ensures
        text@ == copy_not_original_text(target@, backup@, compatdata@),
{
    let mut text = "the copy at ".to_string();
    text.push_str(target.display().as_str());
    text.push_str(" does not match the original at ");
    text.push_str(backup.display().as_str());
    text.push_str(", so it is not safe to point Steam at it. Nothing was changed. Compare them yourself, or rename the original back to ");
    text.push_str(compatdata.display().as_str());
    text.push_str(" to return to the starting point.");
    text
}

pub open spec fn mid_repair_text(backup: Seq<u8>, id: Seq<char>) -> Seq<char> {
    "this library is mid-repair. Your original is at "@
        + shown(backup)
        + ". Either run `librarybridge fix "@
        + id
        + "` to finish, or rename that directory back to compatdata by hand."@
}

/// A repair that is not finished cannot be undone.
pub fn mid_repair(backup: &FilePath, id: &str) -> (text: String)
    ensures
        text@ == mid_repair_text(backup@, id@),
{
    let mut text = "this library is mid-repair. Your original is at ".to_string();
    text.push_str(backup.display().as_str());
    text.push_str(". Either run `librarybridge fix ");
    text.push_str(id);
    text.push_str("` to finish, or rename that directory back to compatdata by hand.");
    text
}

pub open spec fn nothing_to_undo_text(headline: Seq<char>) -> Seq<char> {
    "nothing to undo: this library is '"@
        + headline
        + "'."@
}

/// There is no repair to undo.
pub fn nothing_to_undo(headline: &str) -> (text: String)
    ensures
        text@ == nothing_to_undo_text(headline@),
{
    let mut text = "nothing to undo: this library is '".to_string();
    text.push_str(headline);
    text.push_str("'.");
    text
}

pub open spec fn not_deletable_text(headline: Seq<char>) -> Seq<char> {
    "nothing to delete: this library is '"@
        + headline
        + "', and originals are only removed once a repair is in place."@
}

/// Originals are only given up for a library that is repaired.
pub fn not_deletable(headline: &str) -> (text: String)
    ensures
        text@ == not_deletable_text(headline@),
{
    let mut text = "nothing to delete: this library is '".to_string();
    text.push_str(headline);
    text.push_str("', and originals are only removed once a repair is in place.");
    text
}

pub open spec fn no_originals_text(library: Seq<u8>) -> Seq<char> {
    "nothing to delete: there is no original beside "@
        + shown(library)
        + "."@
}

/// There are no originals.
pub fn no_originals(library: &FilePath) -> (text: String)
    ensures
        text@ == no_originals_text(library@),
{
    let mut text = "nothing to delete: there is no original beside ".to_string();
    text.push_str(library.display().as_str());
    text.push_str(".");
    text
}

pub open spec fn no_evidence_yet_text(id: Seq<char>) -> Seq<char> {
    "there is no evidence yet that a game works from the moved copy. Start one, load a save, then record it with `librarybridge evidence "@
        + id
        + " --record launch=yes` and `--record save=yes`. Nothing was deleted."@
}

/// It was not recorded that the game works.
pub fn no_evidence_yet(id: &str) -> (text: String)
    ensures
        text@ == no_evidence_yet_text(id@),
{
    let mut text = "there is no evidence yet that a game works from the moved copy. Start one, load a save, then record it with `librarybridge evidence ".to_string();
    text.push_str(id);
    text.push_str(" --record launch=yes` and `--record save=yes`. Nothing was deleted.");
    text
}

pub open spec fn not_carried_all_text(backup: Seq<u8>, live: Seq<u8>, listed: Seq<char>) -> Seq<char> {
    shown(backup)
        + " is not fully carried by "@
        + shown(live)
        + ", so it still holds the only copy of:\n  "@
        + listed
        + "\nNothing was deleted."@
}

/// The live data lacks something that an original has.
pub fn not_carried_all(backup: &FilePath, live: &FilePath, listed: &str) -> (text: String)
    ensures
        text@ == not_carried_all_text(backup@, live@, listed@),
{
    let mut text = backup.display();
    text.push_str(" is not fully carried by ");
    text.push_str(live.display().as_str());
    text.push_str(", so it still holds the only copy of:\n  ");
    text.push_str(listed);
    text.push_str("\nNothing was deleted.");
    text
}

pub open spec fn one_contains_the_other_text(source: Seq<u8>, target: Seq<u8>) -> Seq<char> {
    "refusing to copy "@
        + shown(source)
        + " into "@
        + shown(target)
        + ": one path contains the other"@
}

/// A tree cannot be copied into itself.
pub fn one_contains_the_other(source: &FilePath, target: &FilePath) -> (text: String)
    ensures
        text@ == one_contains_the_other_text(source@, target@),
{
    let mut text = "refusing to copy ".to_string();
    text.push_str(source.display().as_str());
    text.push_str(" into ");
    text.push_str(target.display().as_str());
    text.push_str(": one path contains the other");
    text
}

pub open spec fn already_exists_text(target: Seq<u8>) -> Seq<char> {
    shown(target)
        + ": already exists"@
}

/// A copy is made into a fresh directory.
pub fn already_exists(target: &FilePath) -> (text: String)
    ensures
        text@ == already_exists_text(target@),
{
    let mut text = target.display();
    text.push_str(": already exists");
    text
}

pub open spec fn no_final_component_text(path: Seq<u8>) -> Seq<char> {
    shown(path)
        + ": has no final component"@
}

/// A path that has no last step names nothing in a directory.
pub fn no_final_component(path: &FilePath) -> (text: String)
    ensures
        text@ == no_final_component_text(path@),
{
    let mut text = path.display();
    text.push_str(": has no final component");
    text
}

pub open spec fn probe_taken_text(probe: Seq<u8>) -> Seq<char> {
    shown(probe)
        + ": something is already at the name this check needs. Remove it yourself and try again; LibraryBridge will not delete a file it did not create."@
}

/// Something is at the name that trying out a link needs.
pub fn probe_taken(probe: &FilePath) -> (text: String)
    ensures
        text@ == probe_taken_text(probe@),
{
    let mut text = probe.display();
    text.push_str(": something is already at the name this check needs. Remove it yourself and try again; LibraryBridge will not delete a file it did not create.");
    text
}

pub open spec fn probe_failed_text(dir: Seq<u8>, error: Seq<char>) -> Seq<char> {
    "cannot create a symlink in "@
        + shown(dir)
        + ": "@
        + error
        + ". This filesystem cannot support the repair."@
}

/// A link could not be made.
pub fn probe_failed(dir: &FilePath, error: &str) -> (text: String)
    ensures
        text@ == probe_failed_text(dir@, error@),
{
    let mut text = "cannot create a symlink in ".to_string();
    text.push_str(dir.display().as_str());
    text.push_str(": ");
    text.push_str(error);
    text.push_str(". This filesystem cannot support the repair.");
    text
}

pub open spec fn probe_not_a_link_text(probe: Seq<u8>) -> Seq<char> {
    shown(probe)
        + ": the filesystem accepted a symlink but did not store it as one"@
}

/// A link that was made is none.
pub fn probe_not_a_link(probe: &FilePath) -> (text: String)
    ensures
        text@ == probe_not_a_link_text(probe@),
{
    let mut text = probe.display();
    text.push_str(": the filesystem accepted a symlink but did not store it as one");
    text
}

pub open spec fn probe_differs_text(probe: Seq<u8>, read_back: Seq<u8>, sentinel: Seq<u8>) -> Seq<char> {
    shown(probe)
        + ": symlink read back as "@
        + shown(read_back)
        + " instead of "@
        + shown(sentinel)
}

/// A link that was made reads back as another.
pub fn probe_differs(probe: &FilePath, read_back: &FilePath, sentinel: &FilePath) -> (text: String)
    ensures
        text@ == probe_differs_text(probe@, read_back@, sentinel@),
{
    let mut text = probe.display();
    text.push_str(": symlink read back as ");
    text.push_str(read_back.display().as_str());
    text.push_str(" instead of ");
    text.push_str(sentinel.display().as_str());
    text
}

pub open spec fn link_not_a_link_text(link: Seq<u8>) -> Seq<char> {
    shown(link)
        + ": did not end up as a symlink"@
}

/// The link is none.
pub fn link_not_a_link(link: &FilePath) -> (text: String)
    ensures
        text@ == link_not_a_link_text(link@),
{
    let mut text = link.display();
    text.push_str(": did not end up as a symlink");
    text
}

pub open spec fn link_differs_text(link: Seq<u8>, read_back: Seq<u8>, target: Seq<u8>) -> Seq<char> {
    shown(link)
        + ": link points at "@
        + shown(read_back)
        + " instead of "@
        + shown(target)
}

/// The link points elsewhere.
pub fn link_differs(link: &FilePath, read_back: &FilePath, target: &FilePath) -> (text: String)
    ensures
        text@ == link_differs_text(link@, read_back@, target@),
{
    let mut text = link.display();
    text.push_str(": link points at ");
    text.push_str(read_back.display().as_str());
    text.push_str(" instead of ");
    text.push_str(target.display().as_str());
    text
}

pub open spec fn link_unreadable_text(link: Seq<u8>) -> Seq<char> {
    shown(link)
        + ": the link was created but the destination is not readable through it"@
}

/// Nothing can be read through the link.
pub fn link_unreadable(link: &FilePath) -> (text: String)
    ensures
        text@ == link_unreadable_text(link@),
{
    let mut text = link.display();
    text.push_str(": the link was created but the destination is not readable through it");
    text
}

pub open spec fn processes_unknown_text(reason: Seq<char>) -> Seq<char> {
    reason
        + ". LibraryBridge will not change a library while it cannot tell whether Steam is running, because writes made during the move would be lost."@
}

/// Whether Steam is running could not be told.
pub fn processes_unknown(reason: &str) -> (text: String)
    ensures
        text@ == processes_unknown_text(reason@),
{
    let mut text = reason.to_string();
    text.push_str(". LibraryBridge will not change a library while it cannot tell whether Steam is running, because writes made during the move would be lost.");
    text
}

pub open spec fn processes_running_text(names: Seq<char>) -> Seq<char> {
    "these processes are running: "@
        + names
        + ". Close Steam and any running game first, otherwise writes made during the move would be lost."@
}

/// Steam or a game is running.
pub fn processes_running(names: &str) -> (text: String)
    ensures
        text@ == processes_running_text(names@),
{
    let mut text = "these processes are running: ".to_string();
    text.push_str(names);
    text.push_str(". Close Steam and any running game first, otherwise writes made during the move would be lost.");
    text
}

pub open spec fn read_only_text(mount_point: Seq<u8>) -> Seq<char> {
    shown(mount_point)
        + " is mounted read-only. Remount it writable and try again. A Windows fast-startup or hibernation state is the usual cause."@
}

/// The drive cannot be written.
pub fn read_only(mount_point: &FilePath) -> (text: String)
    ensures
        text@ == read_only_text(mount_point@),
{
    let mut text = mount_point.display();
    text.push_str(" is mounted read-only. Remount it writable and try again. A Windows fast-startup or hibernation state is the usual cause.");
    text
}

} // verus!
