//! The steps that a command asks for, and what comes back.
//!
//! A command that changes a library decides one step at a time: it is told what came of the last step
//! and says what to do next. Nothing here touches a disk.

use vstd::prelude::*;

use crate::evidence::Result_;
use crate::record::Stage;
use crate::safefs::Kind;
use crate::system::Capability;

verus! {

/// Room left for the prefix to grow after the move, over and above the bytes being copied. A policy
/// choice, not a Proton requirement.
pub const GROWTH_RESERVE: u64 = 2_147_483_648;

/// What a command was told on its command line.
#[derive(Debug, Clone, Copy, PartialEq, Eq, Structural)]
pub struct Settings {
    pub json: bool,
    pub dry_run: bool,
    pub force: bool,
    pub assume_yes: bool,
    pub keep_destination: bool,
    pub replace_destination: bool,
}

/// The states of a library, as far as a command goes by them.
#[derive(Debug, Clone, Copy, PartialEq, Eq, Structural)]
pub enum Condition {
    NoCompatdata,
    NotRepaired,
    Repaired,
    Interrupted,
    /// Disconnected, linked elsewhere, a broken link, or not usable.
    Other,
}

/// What to do next.
#[derive(Debug, Clone, Copy, PartialEq, Eq, Structural)]
pub enum Action {
    // Questions. None of these changes anything.
    /// Read the state of the library.
    Inspect,
    /// Find out which processes run, and whether the drive can be written.
    CheckSystem,
    /// Read which filesystems the library and the destination are on.
    ReadMounts,
    /// Compare the directory of the library with that of the destination.
    CompareDirectories,
    /// Take the inventory of the data that is to be copied.
    TakeInventory,
    /// Compare the data of the library with what is at the destination.
    CompareData,
    /// Measure the room where the copy is to go.
    MeasureSpace,
    /// Put together what the plan says.
    DrawUpPlan,
    /// Ask the user.
    Confirm,
    /// Look whether the copy of an interrupted repair is a directory.
    LookForCopy,
    /// Read the record of an interrupted repair.
    LoadRecord,
    /// Digest the copy and compare it with the record.
    DigestCopy,
    /// Look whether the original of an interrupted repair is a directory.
    LookForBackup,
    /// Compare the original of an interrupted repair with the copy.
    CompareBackup,
    /// Check every file of the copy against what was copied.
    VerifyCopy,
    /// See whether what was copied changed meanwhile.
    RecheckSource,
    /// Look once more at what is to be moved aside, through the open directory.
    Precheck,
    /// Look at what is at the place of compatdata, through the open directory.
    LookAtCompatdata,
    /// Read what has been established about the library.
    LoadEvidence,
    /// See whether the live data has all that the originals hold.
    CompareOriginals,
    // Changes among the tool's own files.
    Lock,
    WriteRecord(Stage),
    ClearRecord,
    /// Note that the files were checked, and that all else has to be established again.
    RecordEvidence,
    /// Note that what a person reported has to be established again.
    OpenQuestions,
    // Changes where the moved data lives.
    /// Make the directory that holds the destination.
    MakeHolder,
    /// Rename what is at the destination.
    SetDestinationAside,
    /// Make an empty destination.
    CreateDestination,
    /// Copy the data into a fresh directory.
    CopyTree,
    /// Flush the copy.
    SyncCopy,
    /// Rename the copy onto the destination.
    PublishCopy,
    /// Flush the directory that holds the destination.
    SyncHolder,
    // Changes on the game drive.
    /// Make a link, read it back and remove it, to prove that links can be made.
    Probe,
    /// Rename the original to a backup.
    MoveOriginalAside,
    /// Make the link, and check it.
    MakeLink,
    /// Flush the library's directory.
    SyncLibrary,
    /// Copy the live data into a fresh directory beside the library.
    CopyBack,
    /// Remove the link, if it is one.
    RemoveLink,
    /// Rename the data that was copied back to compatdata.
    PutBack,
    /// Delete the originals.
    DeleteOriginals,
    // The end.
    Stop(Outcome),
}

/// How a command ends.
#[derive(Debug, Clone, Copy, PartialEq, Eq, Structural)]
pub enum Outcome {
    // Well.
    AlreadyRepaired,
    PlanShown,
    DryRun,
    Cancelled,
    Repaired,
    Recovered,
    Kept,
    Undone,
    Deleted,
    // Not.
    /// A step could not be done.
    Failed,
    /// What came back was no answer to what was asked.
    OutOfStep,
    ProcessesUnknown,
    ProcessesRunning,
    ReadOnly,
    WrongState,
    NoSymlinks,
    NothingToRepair,
    Unidentified,
    SameFilesystem,
    UnfitDestination,
    UnknownDestination,
    SameDirectory,
    EscapingLinks,
    Conflict,
    NoRoom,
    PlanChanged,
    CopyDiffers,
    SourceChanged,
    NotADirectory(Kind),
    NotALink(Kind),
    LeadsAway,
    LinkNotMade,
    CopyMissing,
    NoProof,
    CopyNotOriginal,
    MidRepair,
    NothingToUndo,
    NoOriginals,
    NoEvidenceYet,
    NotCarried,
}

/// What came of the last step.
#[derive(Debug, Clone, Copy, PartialEq, Eq, Structural)]
pub enum Event {
    Begin,
    /// What was to be done has been done.
    Done,
    Failed,
    /// The state of the library, whether anything is at the destination, and whether originals are kept
    /// beside the library.
    Inspected { condition: Condition, occupied: bool, originals: bool },
    /// Whether the processes could be listed, whether a blocking one runs, and whether the drive is
    /// mounted read-only.
    System { listed: bool, running: bool, read_only: bool },
    /// What the filesystems of the library and of the destination can do, where they could be found, and
    /// whether they are one.
    Mounts { source: Option<Capability>, target: Option<Capability>, same: bool },
    /// The answer to a question that is answered by yes or no.
    Answer(bool),
    /// Whether relative links lead out of the data, and how many bytes it has.
    Inventory { escaping: bool, bytes: u64 },
    /// The bytes that are free, where that could be measured.
    Space(Option<u64>),
    /// Whether the plan is the one that was reviewed, where one was.
    Plan { expected: bool },
    /// Whether there is a record, and whether it names the destination.
    Record { names_destination: bool },
    /// Whether there was anything at the destination when its holder was made ready.
    Ready { occupied: bool },
    /// What is at the place of compatdata, and whether it resolves without leaving its directory.
    Seen { kind: Kind, beneath: bool },
    /// What has been established about the game.
    Evidence { launch: Result_, save: Result_ },
}

impl Outcome {
    /// Does the command end well?
    pub open spec fn well(self) -> bool {
        match self {
            Outcome::AlreadyRepaired => true,
            Outcome::PlanShown => true,
            Outcome::DryRun => true,
            Outcome::Cancelled => true,
            Outcome::Repaired => true,
            Outcome::Recovered => true,
            Outcome::Kept => true,
            Outcome::Undone => true,
            Outcome::Deleted => true,
            _ => false,
        }
    }

    pub fn is_well(self) -> (well: bool)
        ensures
            well == self.well(),
    {
        match self {
            Outcome::AlreadyRepaired => true,
            Outcome::PlanShown => true,
            Outcome::DryRun => true,
            Outcome::Cancelled => true,
            Outcome::Repaired => true,
            Outcome::Recovered => true,
            Outcome::Kept => true,
            Outcome::Undone => true,
            Outcome::Deleted => true,
            _ => false,
        }
    }
}

impl Action {
    /// Does the step change anything on any disk?
    pub open spec fn changes(self) -> bool {
        self.changes_own_files() || self.changes_destination() || self.changes_game_drive()
    }

    pub open spec fn changes_own_files(self) -> bool {
        match self {
            Action::Lock => true,
            Action::WriteRecord(_) => true,
            Action::ClearRecord => true,
            Action::RecordEvidence => true,
            Action::OpenQuestions => true,
            _ => false,
        }
    }

    pub open spec fn changes_destination(self) -> bool {
        match self {
            Action::MakeHolder => true,
            Action::SetDestinationAside => true,
            Action::CreateDestination => true,
            Action::CopyTree => true,
            Action::SyncCopy => true,
            Action::PublishCopy => true,
            Action::SyncHolder => true,
            _ => false,
        }
    }

    pub open spec fn changes_game_drive(self) -> bool {
        match self {
            Action::Probe => true,
            Action::MoveOriginalAside => true,
            Action::MakeLink => true,
            Action::SyncLibrary => true,
            Action::CopyBack => true,
            Action::RemoveLink => true,
            Action::PutBack => true,
            Action::DeleteOriginals => true,
            _ => false,
        }
    }
}

} // verus!
