//! A mutation lock, one per library.
//!
//! Two copies of this tool working on the same library at once can undo each other's work: one reads
//! the state, the other completes a repair, and the first then acts on what it read a minute ago.
//! Disabling a button in the window does nothing about a second window or a terminal.
//!
//! The lock is a file created exclusively. It records the process that holds it so a lock left behind by
//! a crash can be told apart from a live one.

use vstd::prelude::*;

use crate::path::{shown, under_text, FilePath};
use crate::text::{
    decimal, decimal_text, lemma_split_concat, lemma_split_some, lines, lines_of, number, parse_number,
    split, texts, trim, trimmed,
};

verus! {

/// A lock that is held: the file that says so.
#[derive(Debug)]
pub struct Lock {
    pub path: FilePath,
}

impl Lock {
    /// The lock of a library, among the tool's own files.
    pub fn of(app_data: &FilePath, library_id: &str) -> (lock: Lock)
        ensures
            lock.path@ == under_text(under_text(app_data@, "locks"@), library_id@ + ".lock"@),
    {
        let mut name = library_id.to_string();
        name.push_str(".lock");
        Lock { path: app_data.join_text("locks").join_text(name.as_str()) }
    }
}

/// What stands in a lock file.
pub open spec fn lock_text(process: u32) -> Seq<char> {
    decimal_text(process as nat) + "\n"@ + "librarybridge"@ + "\n"@
}

pub fn lock_contents(process: u32) -> (text: String)
    ensures
        text@ == lock_text(process),
{
    let mut text = decimal(process as u64);
    text.push_str("\n");
    text.push_str("librarybridge");
    text.push_str("\n");
    text
}

/// The process that a lock file names.
pub open spec fn holder_in(contents: Seq<char>) -> Option<u32> {
    let all = lines_of(contents);
    if all.len() == 0 {
        None
    } else {
        match number(trimmed(all[0])) {
            Some(n) => if n <= u32::MAX {
                Some(n as u32)
            } else {
                None
            },
            None => None,
        }
    }
}

pub fn holder(contents: &str) -> (process: Option<u32>)
    ensures
        process == holder_in(contents@),
{
    let all = lines(contents);
    if all.len() == 0 {
        return None;
    }
    assert(texts(all@)[0] == all@[0]@);
    match parse_number(trim(all[0].as_str()).as_str(), u32::MAX as u64) {
        Some(n) => Some(n as u32),
        None => None,
    }
}

/// What to do about a lock that is there already.
#[derive(Debug)]
pub enum Claim {
    /// Whoever held it is positively gone: take it over, once.
    Reclaim,
    Refuse { message: String },
}

pub open spec fn held_text(process: u32) -> Seq<char> {
    "another LibraryBridge operation is working on this library (process "@ + decimal_text(
        process as nat,
    ) + "). Wait for it to finish, or close the other window."@
}

pub open spec fn unsure_text(path: Seq<u8>) -> Seq<char> {
    "this library is locked by "@ + shown(path)
        + ", and whether that process is still running could not be determined. If nothing else is using LibraryBridge, delete that file and try again."@
}

/// Judges a lock that is there already: by the process it names, and by whether that is running, where
/// that could be told. A lock is only reclaimed on a definite answer.
pub fn judge(path: &FilePath, process: Option<u32>, running: Option<bool>) -> (claim: Claim)
    ensures
        claim is Reclaim <==> process is Some && running == Some(false),
        claim matches Claim::Refuse { message } ==> message@ == if process is Some && running == Some(
            true,
        ) {
            held_text(process->0)
        } else {
            unsure_text(path@)
        },
{
    match (process, running) {
        (Some(_), Some(false)) => Claim::Reclaim,
        (Some(process), Some(true)) => {
            let mut message =
                "another LibraryBridge operation is working on this library (process ".to_string();
            message.push_str(decimal(process as u64).as_str());
            message.push_str("). Wait for it to finish, or close the other window.");
            Claim::Refuse { message }
        },
        _ => {
            let mut message = "this library is locked by ".to_string();
            message.push_str(path.display().as_str());
            message.push_str(
                ", and whether that process is still running could not be determined. If nothing else is using LibraryBridge, delete that file and try again.",
            );
            Claim::Refuse { message }
        },
    }
}

proof fn lemma_digits_stay(text: Seq<char>)
    requires
        text.len() > 0,
        crate::text::all_digits(text),
    ensures
        trimmed(text) == text,
        !text.contains('\n'),
        text.last() != '\r',
{
    assert(crate::text::is_digit(text[0]));
    assert(crate::text::is_digit(text[text.len() - 1]));
    if text.contains('\n') {
        let i = choose|i: int| 0 <= i < text.len() && text[i] == '\n';
        assert(crate::text::is_digit(text[i]));
    }
}

/// A lock file names the process that wrote it.
pub proof fn law_lock_names_its_holder(process: u32)
    ensures
        holder_in(lock_text(process)) == Some(process),
{
    let first = decimal_text(process as nat);
    crate::text::law_decimal_reads_back(process as nat);
    crate::text::lemma_decimal_digits(process as nat);
    lemma_digits_stay(first);
    reveal_strlit("\n");
    let tail = "librarybridge"@ + "\n"@;
    let text = lock_text(process);
    assert(text =~= first + ("\n"@ + tail));
    let rest = "\n"@ + tail;
    lemma_split_concat(first, rest, '\n');
    crate::text::lemma_split_without(first, '\n');
    lemma_split_concat("\n"@, tail, '\n');
    lemma_split_some(tail, '\n');
    assert("\n"@.drop_last() =~= Seq::<char>::empty());
    assert(split(Seq::<char>::empty(), '\n') =~= seq![Seq::<char>::empty()]);
    assert(split("\n"@, '\n') =~= seq![Seq::<char>::empty(), Seq::<char>::empty()]);
    let pieces = split(text, '\n');
    assert(split(rest, '\n')[0] =~= Seq::<char>::empty());
    assert(split(rest, '\n').len() >= 2);
    assert(pieces[0] =~= first + Seq::<char>::empty());
    assert(pieces[0] =~= first);
    assert(pieces.len() >= 2);
    assert(lines_of(text)[0] == first);
}

} // verus!
