//! Repairing a library: the decisions of `fix`, one step at a time.
//!
//! The data is copied and checked before anything on the game drive is touched, each step is on disk
//! before the next one starts, and nothing is ever deleted. A run that is asked to change nothing never
//! asks for a change.

use vstd::prelude::*;

use crate::protocol::{Action, Condition, Event, Outcome, Settings, GROWTH_RESERVE};
use crate::record::Stage;
use crate::safefs::Kind;
use crate::system::Capability;

verus! {

/// What a run of `fix` turns out to be.
#[derive(Debug, Clone, Copy, PartialEq, Eq, Structural)]
pub enum Way {
    /// Moving the data of a library.
    Repair,
    /// Finishing a repair that was interrupted.
    Recovery,
    /// Keeping what is at the destination.
    Keep,
}

/// What a run is waiting to hear.
#[derive(Debug, Clone, Copy, PartialEq, Eq, Structural)]
pub enum Point {
    Start,
    Locking,
    Inspecting,
    Checking,
    Mounts,
    Directories,
    Inventory,
    Comparing,
    Space,
    Planning,
    Asking,
    Probing,
    Preparing,
    SettingAside,
    Copying,
    Verifying,
    Rechecking,
    RecordingVerified,
    SyncingCopy,
    Publishing,
    SyncingHolder,
    RecordingPublished,
    Prechecking,
    MovingAside,
    SyncingMove,
    RecordingBackedUp,
    Creating,
    SyncingCreated,
    Linking,
    SyncingLink,
    Clearing,
    Noting,
    FindingCopy,
    LoadingRecord,
    Digesting,
    FindingBackup,
    ComparingBackup,
    KeepLooking,
    KeepMoving,
    Stopped,
}

/// A run of `fix`.
#[derive(Debug, Clone, Copy, PartialEq, Eq, Structural)]
pub struct Repair {
    pub settings: Settings,
    pub point: Point,
    pub way: Way,
    pub condition: Condition,
    /// Is anything at the destination?
    pub occupied: bool,
    /// The bytes to copy.
    pub bytes: u64,
}

/// Goes on to a point, with something to do.
pub open spec fn to(run: Repair, point: Point, action: Action) -> (Repair, Action) {
    (Repair { point, ..run }, action)
}

/// Ends the run.
pub open spec fn stop(run: Repair, outcome: Outcome) -> (Repair, Action) {
    (Repair { point: Point::Stopped, ..run }, Action::Stop(outcome))
}

/// Ends the run because a step failed, or because what came back was no answer.
pub open spec fn missed(run: Repair, event: Event) -> (Repair, Action) {
    match event {
        Event::Failed => stop(run, Outcome::Failed),
        _ => stop(run, Outcome::OutOfStep),
    }
}

/// Why a library on one filesystem cannot be repaired with a destination on another.
pub open spec fn mount_refusal(
    force: bool,
    source: Option<Capability>,
    target: Option<Capability>,
    same: bool,
) -> Option<Outcome> {
    if source == Some(Capability::NoSymlinks) {
        Some(Outcome::NoSymlinks)
    } else if source == Some(Capability::Native) && !force {
        Some(Outcome::NothingToRepair)
    } else if (source is None || source == Some(Capability::Unknown)) && !force {
        Some(Outcome::Unidentified)
    } else if same {
        Some(Outcome::SameFilesystem)
    } else if target == Some(Capability::NoSymlinks) || target == Some(Capability::NeedsRepair) {
        Some(Outcome::UnfitDestination)
    } else if (target is None || target == Some(Capability::Unknown)) && !force {
        Some(Outcome::UnknownDestination)
    } else {
        None
    }
}

/// Is there too little room for the copy and for the prefixes to grow? Where the room could not be
/// measured, nothing is held against it.
pub open spec fn short_of_room(free: Option<u64>, bytes: u64) -> bool {
    match free {
        Some(free) => free < bytes + GROWTH_RESERVE,
        None => false,
    }
}

/// Something may already be at the destination. If it is the same tree that is about to be copied, it is
/// the leftover from an undone repair and can be set aside without a word. If it differs, an interrupted
/// repair was very likely overtaken by Steam recreating compatdata, and the destination holds the real
/// prefixes. Which one the user wants is never guessed.
pub open spec fn look_at_destination(run: Repair) -> (Repair, Action) {
    if !run.occupied {
        to(run, Point::Space, Action::MeasureSpace)
    } else {
        match run.condition {
            Condition::NotRepaired => to(run, Point::Comparing, Action::CompareData),
            _ => settle(run, false),
        }
    }
}

/// Goes on past a destination that is taken, where what is there is the same data or the user said which
/// of the two counts.
pub open spec fn settle(run: Repair, same: bool) -> (Repair, Action) {
    if !same && !run.settings.keep_destination && !run.settings.replace_destination {
        stop(run, Outcome::Conflict)
    } else if run.settings.keep_destination {
        consent(Repair { way: Way::Keep, ..run })
    } else {
        to(run, Point::Space, Action::MeasureSpace)
    }
}

/// Everything is known. A dry run ends here; without consent given beforehand the user is asked.
pub open spec fn consent(run: Repair) -> (Repair, Action) {
    if run.settings.dry_run {
        stop(run, Outcome::DryRun)
    } else if run.settings.assume_yes {
        apply(run)
    } else {
        to(run, Point::Asking, Action::Confirm)
    }
}

/// The first change.
pub open spec fn apply(run: Repair) -> (Repair, Action) {
    match run.way {
        Way::Repair => to(run, Point::Probing, Action::Probe),
        Way::Recovery => to(run, Point::Linking, Action::MakeLink),
        Way::Keep => to(run, Point::KeepLooking, Action::LookAtCompatdata),
    }
}

/// Fills the destination: with a copy of the data, where there is any.
pub open spec fn fill(run: Repair) -> (Repair, Action) {
    match run.condition {
        Condition::NotRepaired => to(run, Point::Copying, Action::CopyTree),
        _ => to(run, Point::Creating, Action::CreateDestination),
    }
}

/// While everything is looked at and nothing is changed yet.
pub open spec fn planning(run: Repair, event: Event) -> (Repair, Action) {
    match run.point {
        Point::Start => match event {
            Event::Begin => if run.settings.dry_run {
                to(run, Point::Inspecting, Action::Inspect)
            } else {
                to(run, Point::Locking, Action::Lock)
            },
            _ => missed(run, event),
        },
        Point::Locking => match event {
            Event::Done => to(run, Point::Inspecting, Action::Inspect),
            _ => missed(run, event),
        },
        Point::Inspecting => match event {
            Event::Inspected { condition, occupied, originals } => to(
                Repair { condition, occupied, ..run },
                Point::Checking,
                Action::CheckSystem,
            ),
            _ => missed(run, event),
        },
        Point::Checking => match event {
            Event::System { listed, running, read_only } => if !listed {
                stop(run, Outcome::ProcessesUnknown)
            } else if running {
                stop(run, Outcome::ProcessesRunning)
            } else if read_only {
                stop(run, Outcome::ReadOnly)
            } else {
                match run.condition {
                    Condition::Repaired => stop(run, Outcome::AlreadyRepaired),
                    Condition::Interrupted => to(
                        Repair { way: Way::Recovery, ..run },
                        Point::FindingCopy,
                        Action::LookForCopy,
                    ),
                    Condition::NotRepaired => to(run, Point::Mounts, Action::ReadMounts),
                    Condition::NoCompatdata => to(run, Point::Mounts, Action::ReadMounts),
                    Condition::Other => stop(run, Outcome::WrongState),
                }
            },
            _ => missed(run, event),
        },
        Point::Mounts => match event {
            Event::Mounts { source, target, same } => match mount_refusal(run.settings.force, source, target, same) {
                Some(outcome) => stop(run, outcome),
                None => to(run, Point::Directories, Action::CompareDirectories),
            },
            _ => missed(run, event),
        },
        Point::Directories => match event {
            Event::Answer(same) => if same {
                stop(run, Outcome::SameDirectory)
            } else {
                match run.condition {
                    Condition::NotRepaired => to(run, Point::Inventory, Action::TakeInventory),
                    _ => look_at_destination(run),
                }
            },
            _ => missed(run, event),
        },
        Point::Inventory => match event {
            Event::Inventory { escaping, bytes } => if escaping {
                stop(run, Outcome::EscapingLinks)
            } else {
                look_at_destination(Repair { bytes, ..run })
            },
            _ => missed(run, event),
        },
        Point::Comparing => match event {
            Event::Answer(same) => settle(run, same),
            _ => missed(run, event),
        },
        Point::Space => match event {
            Event::Space(free) => if short_of_room(free, run.bytes) {
                stop(run, Outcome::NoRoom)
            } else {
                to(run, Point::Planning, Action::DrawUpPlan)
            },
            _ => missed(run, event),
        },
        Point::Planning => match event {
            Event::Plan { expected } => if run.settings.json {
                stop(run, Outcome::PlanShown)
            } else if !expected {
                stop(run, Outcome::PlanChanged)
            } else {
                consent(run)
            },
            _ => missed(run, event),
        },
        Point::Asking => match event {
            Event::Answer(yes) => if yes {
                apply(run)
            } else {
                stop(run, Outcome::Cancelled)
            },
            _ => missed(run, event),
        },
        _ => stop(run, Outcome::OutOfStep),
    }
}

/// While the destination is filled.
pub open spec fn copying(run: Repair, event: Event) -> (Repair, Action) {
    match run.point {
        Point::Probing => match event {
            Event::Done => to(run, Point::Preparing, Action::MakeHolder),
            _ => missed(run, event),
        },
        Point::Preparing => match event {
            Event::Ready { occupied } => if occupied {
                to(run, Point::SettingAside, Action::SetDestinationAside)
            } else {
                fill(run)
            },
            _ => missed(run, event),
        },
        Point::SettingAside => match event {
            Event::Done => fill(run),
            _ => missed(run, event),
        },
        Point::Copying => match event {
            Event::Done => to(run, Point::Verifying, Action::VerifyCopy),
            _ => missed(run, event),
        },
        Point::Verifying => match event {
            Event::Answer(matches) => if matches {
                to(run, Point::Rechecking, Action::RecheckSource)
            } else {
                stop(run, Outcome::CopyDiffers)
            },
            _ => missed(run, event),
        },
        Point::Rechecking => match event {
            Event::Answer(unchanged) => if unchanged {
                to(run, Point::RecordingVerified, Action::WriteRecord(Stage::Verified))
            } else {
                stop(run, Outcome::SourceChanged)
            },
            _ => missed(run, event),
        },
        Point::Creating => match event {
            Event::Done => to(run, Point::SyncingCreated, Action::SyncHolder),
            _ => missed(run, event),
        },
        Point::SyncingCreated => match event {
            Event::Done => to(run, Point::Linking, Action::MakeLink),
            _ => missed(run, event),
        },
        _ => stop(run, Outcome::OutOfStep),
    }
}

/// From the verified copy to the moved original, each step on disk before the next.
pub open spec fn switching(run: Repair, event: Event) -> (Repair, Action) {
    match run.point {
        Point::RecordingVerified => match event {
            Event::Done => to(run, Point::SyncingCopy, Action::SyncCopy),
            _ => missed(run, event),
        },
        Point::SyncingCopy => match event {
            Event::Done => to(run, Point::Publishing, Action::PublishCopy),
            _ => missed(run, event),
        },
        Point::Publishing => match event {
            Event::Done => to(run, Point::SyncingHolder, Action::SyncHolder),
            _ => missed(run, event),
        },
        Point::SyncingHolder => match event {
            Event::Done => to(run, Point::RecordingPublished, Action::WriteRecord(Stage::Published)),
            _ => missed(run, event),
        },
        Point::RecordingPublished => match event {
            Event::Done => to(run, Point::Prechecking, Action::Precheck),
            _ => missed(run, event),
        },
        Point::Prechecking => match event {
            Event::Seen { kind, beneath } => match kind {
                Kind::Directory => if beneath {
                    to(run, Point::MovingAside, Action::MoveOriginalAside)
                } else {
                    stop(run, Outcome::LeadsAway)
                },
                _ => stop(run, Outcome::NotADirectory(kind)),
            },
            _ => missed(run, event),
        },
        Point::MovingAside => match event {
            Event::Done => to(run, Point::SyncingMove, Action::SyncLibrary),
            _ => missed(run, event),
        },
        Point::SyncingMove => match event {
            Event::Done => to(run, Point::RecordingBackedUp, Action::WriteRecord(Stage::BackedUp)),
            _ => missed(run, event),
        },
        Point::RecordingBackedUp => match event {
            Event::Done => to(run, Point::Linking, Action::MakeLink),
            _ => missed(run, event),
        },
        _ => stop(run, Outcome::OutOfStep),
    }
}

/// The last steps, whatever led to them.
pub open spec fn linking(run: Repair, event: Event) -> (Repair, Action) {
    match run.point {
        Point::Linking => match event {
            Event::Answer(stands) => if stands {
                to(run, Point::SyncingLink, Action::SyncLibrary)
            } else {
                stop(run, Outcome::LinkNotMade)
            },
            _ => missed(run, event),
        },
        Point::SyncingLink => match event {
            Event::Done => match run.way {
                Way::Keep => to(run, Point::Noting, Action::OpenQuestions),
                _ => to(run, Point::Clearing, Action::ClearRecord),
            },
            _ => missed(run, event),
        },
        Point::Clearing => match event {
            Event::Done => to(run, Point::Noting, Action::RecordEvidence),
            _ => missed(run, event),
        },
        Point::Noting => match event {
            Event::Done => match run.way {
                Way::Repair => stop(run, Outcome::Repaired),
                Way::Recovery => stop(run, Outcome::Recovered),
                Way::Keep => stop(run, Outcome::Kept),
            },
            _ => missed(run, event),
        },
        _ => stop(run, Outcome::OutOfStep),
    }
}

/// A repair that was interrupted: the copy has to be shown good before Steam is pointed at it. A
/// record left by the interrupted run is the cheap proof; comparing the copy against the original
/// beside it is the authoritative one, and is what happens when there is no record or it does not
/// match.
pub open spec fn recovering(run: Repair, event: Event) -> (Repair, Action) {
    match run.point {
        Point::FindingCopy => match event {
            Event::Answer(there) => if there {
                to(run, Point::LoadingRecord, Action::LoadRecord)
            } else {
                stop(run, Outcome::CopyMissing)
            },
            _ => missed(run, event),
        },
        Point::LoadingRecord => match event {
            Event::Record { names_destination } => if names_destination {
                to(run, Point::Digesting, Action::DigestCopy)
            } else {
                to(run, Point::FindingBackup, Action::LookForBackup)
            },
            _ => missed(run, event),
        },
        Point::Digesting => match event {
            Event::Answer(matches) => if matches {
                consent(run)
            } else {
                to(run, Point::FindingBackup, Action::LookForBackup)
            },
            _ => missed(run, event),
        },
        Point::FindingBackup => match event {
            Event::Answer(there) => if there {
                to(run, Point::ComparingBackup, Action::CompareBackup)
            } else {
                stop(run, Outcome::NoProof)
            },
            _ => missed(run, event),
        },
        Point::ComparingBackup => match event {
            Event::Answer(same) => if same {
                consent(run)
            } else {
                stop(run, Outcome::CopyNotOriginal)
            },
            _ => missed(run, event),
        },
        _ => stop(run, Outcome::OutOfStep),
    }
}

/// The destination is kept: what the library has now is set aside.
pub open spec fn keeping(run: Repair, event: Event) -> (Repair, Action) {
    match run.point {
        Point::KeepLooking => match event {
            Event::Seen { kind, beneath } => match kind {
                Kind::Absent => to(run, Point::Linking, Action::MakeLink),
                _ => to(run, Point::KeepMoving, Action::MoveOriginalAside),
            },
            _ => missed(run, event),
        },
        Point::KeepMoving => match event {
            Event::Done => to(run, Point::Linking, Action::MakeLink),
            _ => missed(run, event),
        },
        _ => stop(run, Outcome::OutOfStep),
    }
}

/// What a run does when it hears something.
pub open spec fn next(run: Repair, event: Event) -> (Repair, Action) {
    match run.point {
        Point::Start => planning(run, event),
        Point::Locking => planning(run, event),
        Point::Inspecting => planning(run, event),
        Point::Checking => planning(run, event),
        Point::Mounts => planning(run, event),
        Point::Directories => planning(run, event),
        Point::Inventory => planning(run, event),
        Point::Comparing => planning(run, event),
        Point::Space => planning(run, event),
        Point::Planning => planning(run, event),
        Point::Asking => planning(run, event),
        Point::Probing => copying(run, event),
        Point::Preparing => copying(run, event),
        Point::SettingAside => copying(run, event),
        Point::Copying => copying(run, event),
        Point::Verifying => copying(run, event),
        Point::Rechecking => copying(run, event),
        Point::Creating => copying(run, event),
        Point::SyncingCreated => copying(run, event),
        Point::RecordingVerified => switching(run, event),
        Point::SyncingCopy => switching(run, event),
        Point::Publishing => switching(run, event),
        Point::SyncingHolder => switching(run, event),
        Point::RecordingPublished => switching(run, event),
        Point::Prechecking => switching(run, event),
        Point::MovingAside => switching(run, event),
        Point::SyncingMove => switching(run, event),
        Point::RecordingBackedUp => switching(run, event),
        Point::Linking => linking(run, event),
        Point::SyncingLink => linking(run, event),
        Point::Clearing => linking(run, event),
        Point::Noting => linking(run, event),
        Point::FindingCopy => recovering(run, event),
        Point::LoadingRecord => recovering(run, event),
        Point::Digesting => recovering(run, event),
        Point::FindingBackup => recovering(run, event),
        Point::ComparingBackup => recovering(run, event),
        Point::KeepLooking => keeping(run, event),
        Point::KeepMoving => keeping(run, event),
        Point::Stopped => stop(run, Outcome::OutOfStep),
    }
}

/// A run that has not begun.
pub open spec fn fresh(settings: Settings) -> Repair {
    Repair {
        settings,
        point: Point::Start,
        way: Way::Repair,
        condition: Condition::Other,
        occupied: false,
        bytes: 0,
    }
}

fn go(run: Repair, point: Point, action: Action) -> (out: (Repair, Action))
    ensures
        out == to(run, point, action),
{
    (Repair { point, ..run }, action)
}

fn halt(run: Repair, outcome: Outcome) -> (out: (Repair, Action))
    ensures
        out == stop(run, outcome),
{
    (Repair { point: Point::Stopped, ..run }, Action::Stop(outcome))
}

fn miss(run: Repair, event: Event) -> (out: (Repair, Action))
    ensures
        out == missed(run, event),
{
    match event {
        Event::Failed => halt(run, Outcome::Failed),
        _ => halt(run, Outcome::OutOfStep),
    }
}

fn go_to_destination(run: Repair) -> (out: (Repair, Action))
    ensures
        out == look_at_destination(run),
{
    if !run.occupied {
        go(run, Point::Space, Action::MeasureSpace)
    } else {
        match run.condition {
            Condition::NotRepaired => go(run, Point::Comparing, Action::CompareData),
            _ => go_settle(run, false),
        }
    }
}

fn go_settle(run: Repair, same: bool) -> (out: (Repair, Action))
    ensures
        out == settle(run, same),
{
    if !same && !run.settings.keep_destination && !run.settings.replace_destination {
        halt(run, Outcome::Conflict)
    } else if run.settings.keep_destination {
        go_consent(Repair { way: Way::Keep, ..run })
    } else {
        go(run, Point::Space, Action::MeasureSpace)
    }
}

fn go_consent(run: Repair) -> (out: (Repair, Action))
    ensures
        out == consent(run),
{
    if run.settings.dry_run {
        halt(run, Outcome::DryRun)
    } else if run.settings.assume_yes {
        go_apply(run)
    } else {
        go(run, Point::Asking, Action::Confirm)
    }
}

fn go_apply(run: Repair) -> (out: (Repair, Action))
    ensures
        out == apply(run),
{
    match run.way {
        Way::Repair => go(run, Point::Probing, Action::Probe),
        Way::Recovery => go(run, Point::Linking, Action::MakeLink),
        Way::Keep => go(run, Point::KeepLooking, Action::LookAtCompatdata),
    }
}

fn go_fill(run: Repair) -> (out: (Repair, Action))
    ensures
        out == fill(run),
{
    match run.condition {
        Condition::NotRepaired => go(run, Point::Copying, Action::CopyTree),
        _ => go(run, Point::Creating, Action::CreateDestination),
    }
}

fn refuse_mounts(
    force: bool,
    source: Option<Capability>,
    target: Option<Capability>,
    same: bool,
) -> (outcome: Option<Outcome>)
    ensures
        outcome == mount_refusal(force, source, target, same),
{
    match source {
        Some(Capability::NoSymlinks) => return Some(Outcome::NoSymlinks),
        Some(Capability::Native) => if !force {
            return Some(Outcome::NothingToRepair);
        },
        // Repairing something that cannot be identified is how a tool reports success without
        // establishing that it fixed anything.
        None | Some(Capability::Unknown) => if !force {
            return Some(Outcome::Unidentified);
        },
        Some(Capability::NeedsRepair) => {},
    }
    if same {
        return Some(Outcome::SameFilesystem);
    }
    match target {
        Some(Capability::NoSymlinks) | Some(Capability::NeedsRepair) => Some(
            Outcome::UnfitDestination,
        ),
        None | Some(Capability::Unknown) => if force {
            None
        } else {
            Some(Outcome::UnknownDestination)
        },
        Some(Capability::Native) => None,
    }
}

fn is_short_of_room(free: Option<u64>, bytes: u64) -> (short: bool)
    ensures
        short == short_of_room(free, bytes),
{
    match free {
        Some(free) => (free as u128) < bytes as u128 + GROWTH_RESERVE as u128,
        None => false,
    }
}

fn go_planning(run: Repair, event: Event) -> (out: (Repair, Action))
    ensures
        out == planning(run, event),
{
    match run.point {
        Point::Start => match event {
            Event::Begin => if run.settings.dry_run {
                go(run, Point::Inspecting, Action::Inspect)
            } else {
                go(run, Point::Locking, Action::Lock)
            },
            _ => miss(run, event),
        },
        Point::Locking => match event {
            Event::Done => go(run, Point::Inspecting, Action::Inspect),
            _ => miss(run, event),
        },
        Point::Inspecting => match event {
            Event::Inspected { condition, occupied, originals } => go(
                Repair { condition, occupied, ..run },
                Point::Checking,
                Action::CheckSystem,
            ),
            _ => miss(run, event),
        },
        Point::Checking => match event {
            Event::System { listed, running, read_only } => if !listed {
                halt(run, Outcome::ProcessesUnknown)
            } else if running {
                halt(run, Outcome::ProcessesRunning)
            } else if read_only {
                halt(run, Outcome::ReadOnly)
            } else {
                match run.condition {
                    Condition::Repaired => halt(run, Outcome::AlreadyRepaired),
                    Condition::Interrupted => go(
                        Repair { way: Way::Recovery, ..run },
                        Point::FindingCopy,
                        Action::LookForCopy,
                    ),
                    Condition::NotRepaired => go(run, Point::Mounts, Action::ReadMounts),
                    Condition::NoCompatdata => go(run, Point::Mounts, Action::ReadMounts),
                    Condition::Other => halt(run, Outcome::WrongState),
                }
            },
            _ => miss(run, event),
        },
        Point::Mounts => match event {
            Event::Mounts { source, target, same } => match refuse_mounts(run.settings.force, source, target, same) {
                Some(outcome) => halt(run, outcome),
                None => go(run, Point::Directories, Action::CompareDirectories),
            },
            _ => miss(run, event),
        },
        Point::Directories => match event {
            Event::Answer(same) => if same {
                halt(run, Outcome::SameDirectory)
            } else {
                match run.condition {
                    Condition::NotRepaired => go(run, Point::Inventory, Action::TakeInventory),
                    _ => go_to_destination(run),
                }
            },
            _ => miss(run, event),
        },
        Point::Inventory => match event {
            Event::Inventory { escaping, bytes } => if escaping {
                halt(run, Outcome::EscapingLinks)
            } else {
                go_to_destination(Repair { bytes, ..run })
            },
            _ => miss(run, event),
        },
        Point::Comparing => match event {
            Event::Answer(same) => go_settle(run, same),
            _ => miss(run, event),
        },
        Point::Space => match event {
            Event::Space(free) => if is_short_of_room(free, run.bytes) {
                halt(run, Outcome::NoRoom)
            } else {
                go(run, Point::Planning, Action::DrawUpPlan)
            },
            _ => miss(run, event),
        },
        Point::Planning => match event {
            Event::Plan { expected } => if run.settings.json {
                halt(run, Outcome::PlanShown)
            } else if !expected {
                halt(run, Outcome::PlanChanged)
            } else {
                go_consent(run)
            },
            _ => miss(run, event),
        },
        Point::Asking => match event {
            Event::Answer(yes) => if yes {
                go_apply(run)
            } else {
                halt(run, Outcome::Cancelled)
            },
            _ => miss(run, event),
        },
        _ => halt(run, Outcome::OutOfStep),
    }
}

fn go_copying(run: Repair, event: Event) -> (out: (Repair, Action))
    ensures
        out == copying(run, event),
{
    match run.point {
        Point::Probing => match event {
            Event::Done => go(run, Point::Preparing, Action::MakeHolder),
            _ => miss(run, event),
        },
        Point::Preparing => match event {
            Event::Ready { occupied } => if occupied {
                go(run, Point::SettingAside, Action::SetDestinationAside)
            } else {
                go_fill(run)
            },
            _ => miss(run, event),
        },
        Point::SettingAside => match event {
            Event::Done => go_fill(run),
            _ => miss(run, event),
        },
        Point::Copying => match event {
            Event::Done => go(run, Point::Verifying, Action::VerifyCopy),
            _ => miss(run, event),
        },
        Point::Verifying => match event {
            Event::Answer(matches) => if matches {
                go(run, Point::Rechecking, Action::RecheckSource)
            } else {
                halt(run, Outcome::CopyDiffers)
            },
            _ => miss(run, event),
        },
        Point::Rechecking => match event {
            Event::Answer(unchanged) => if unchanged {
                go(run, Point::RecordingVerified, Action::WriteRecord(Stage::Verified))
            } else {
                halt(run, Outcome::SourceChanged)
            },
            _ => miss(run, event),
        },
        Point::Creating => match event {
            Event::Done => go(run, Point::SyncingCreated, Action::SyncHolder),
            _ => miss(run, event),
        },
        Point::SyncingCreated => match event {
            Event::Done => go(run, Point::Linking, Action::MakeLink),
            _ => miss(run, event),
        },
        _ => halt(run, Outcome::OutOfStep),
    }
}

fn go_switching(run: Repair, event: Event) -> (out: (Repair, Action))
    ensures
        out == switching(run, event),
{
    match run.point {
        Point::RecordingVerified => match event {
            Event::Done => go(run, Point::SyncingCopy, Action::SyncCopy),
            _ => miss(run, event),
        },
        Point::SyncingCopy => match event {
            Event::Done => go(run, Point::Publishing, Action::PublishCopy),
            _ => miss(run, event),
        },
        Point::Publishing => match event {
            Event::Done => go(run, Point::SyncingHolder, Action::SyncHolder),
            _ => miss(run, event),
        },
        Point::SyncingHolder => match event {
            Event::Done => go(run, Point::RecordingPublished, Action::WriteRecord(Stage::Published)),
            _ => miss(run, event),
        },
        Point::RecordingPublished => match event {
            Event::Done => go(run, Point::Prechecking, Action::Precheck),
            _ => miss(run, event),
        },
        Point::Prechecking => match event {
            Event::Seen { kind, beneath } => match kind {
                Kind::Directory => if beneath {
                    go(run, Point::MovingAside, Action::MoveOriginalAside)
                } else {
                    halt(run, Outcome::LeadsAway)
                },
                _ => halt(run, Outcome::NotADirectory(kind)),
            },
            _ => miss(run, event),
        },
        Point::MovingAside => match event {
            Event::Done => go(run, Point::SyncingMove, Action::SyncLibrary),
            _ => miss(run, event),
        },
        Point::SyncingMove => match event {
            Event::Done => go(run, Point::RecordingBackedUp, Action::WriteRecord(Stage::BackedUp)),
            _ => miss(run, event),
        },
        Point::RecordingBackedUp => match event {
            Event::Done => go(run, Point::Linking, Action::MakeLink),
            _ => miss(run, event),
        },
        _ => halt(run, Outcome::OutOfStep),
    }
}

fn go_linking(run: Repair, event: Event) -> (out: (Repair, Action))
    ensures
        out == linking(run, event),
{
    match run.point {
        Point::Linking => match event {
            Event::Answer(stands) => if stands {
                go(run, Point::SyncingLink, Action::SyncLibrary)
            } else {
                halt(run, Outcome::LinkNotMade)
            },
            _ => miss(run, event),
        },
        Point::SyncingLink => match event {
            Event::Done => match run.way {
                Way::Keep => go(run, Point::Noting, Action::OpenQuestions),
                _ => go(run, Point::Clearing, Action::ClearRecord),
            },
            _ => miss(run, event),
        },
        Point::Clearing => match event {
            Event::Done => go(run, Point::Noting, Action::RecordEvidence),
            _ => miss(run, event),
        },
        Point::Noting => match event {
            Event::Done => match run.way {
                Way::Repair => halt(run, Outcome::Repaired),
                Way::Recovery => halt(run, Outcome::Recovered),
                Way::Keep => halt(run, Outcome::Kept),
            },
            _ => miss(run, event),
        },
        _ => halt(run, Outcome::OutOfStep),
    }
}

fn go_recovering(run: Repair, event: Event) -> (out: (Repair, Action))
    ensures
        out == recovering(run, event),
{
    match run.point {
        Point::FindingCopy => match event {
            Event::Answer(there) => if there {
                go(run, Point::LoadingRecord, Action::LoadRecord)
            } else {
                halt(run, Outcome::CopyMissing)
            },
            _ => miss(run, event),
        },
        Point::LoadingRecord => match event {
            Event::Record { names_destination } => if names_destination {
                go(run, Point::Digesting, Action::DigestCopy)
            } else {
                go(run, Point::FindingBackup, Action::LookForBackup)
            },
            _ => miss(run, event),
        },
        Point::Digesting => match event {
            Event::Answer(matches) => if matches {
                go_consent(run)
            } else {
                go(run, Point::FindingBackup, Action::LookForBackup)
            },
            _ => miss(run, event),
        },
        Point::FindingBackup => match event {
            Event::Answer(there) => if there {
                go(run, Point::ComparingBackup, Action::CompareBackup)
            } else {
                halt(run, Outcome::NoProof)
            },
            _ => miss(run, event),
        },
        Point::ComparingBackup => match event {
            Event::Answer(same) => if same {
                go_consent(run)
            } else {
                halt(run, Outcome::CopyNotOriginal)
            },
            _ => miss(run, event),
        },
        _ => halt(run, Outcome::OutOfStep),
    }
}

fn go_keeping(run: Repair, event: Event) -> (out: (Repair, Action))
    ensures
        out == keeping(run, event),
{
    match run.point {
        Point::KeepLooking => match event {
            Event::Seen { kind, beneath } => match kind {
                Kind::Absent => go(run, Point::Linking, Action::MakeLink),
                _ => go(run, Point::KeepMoving, Action::MoveOriginalAside),
            },
            _ => miss(run, event),
        },
        Point::KeepMoving => match event {
            Event::Done => go(run, Point::Linking, Action::MakeLink),
            _ => miss(run, event),
        },
        _ => halt(run, Outcome::OutOfStep),
    }
}

fn advance(run: Repair, event: Event) -> (out: (Repair, Action))
    ensures
        out == next(run, event),
{
    match run.point {
        Point::Start => go_planning(run, event),
        Point::Locking => go_planning(run, event),
        Point::Inspecting => go_planning(run, event),
        Point::Checking => go_planning(run, event),
        Point::Mounts => go_planning(run, event),
        Point::Directories => go_planning(run, event),
        Point::Inventory => go_planning(run, event),
        Point::Comparing => go_planning(run, event),
        Point::Space => go_planning(run, event),
        Point::Planning => go_planning(run, event),
        Point::Asking => go_planning(run, event),
        Point::Probing => go_copying(run, event),
        Point::Preparing => go_copying(run, event),
        Point::SettingAside => go_copying(run, event),
        Point::Copying => go_copying(run, event),
        Point::Verifying => go_copying(run, event),
        Point::Rechecking => go_copying(run, event),
        Point::Creating => go_copying(run, event),
        Point::SyncingCreated => go_copying(run, event),
        Point::RecordingVerified => go_switching(run, event),
        Point::SyncingCopy => go_switching(run, event),
        Point::Publishing => go_switching(run, event),
        Point::SyncingHolder => go_switching(run, event),
        Point::RecordingPublished => go_switching(run, event),
        Point::Prechecking => go_switching(run, event),
        Point::MovingAside => go_switching(run, event),
        Point::SyncingMove => go_switching(run, event),
        Point::RecordingBackedUp => go_switching(run, event),
        Point::Linking => go_linking(run, event),
        Point::SyncingLink => go_linking(run, event),
        Point::Clearing => go_linking(run, event),
        Point::Noting => go_linking(run, event),
        Point::FindingCopy => go_recovering(run, event),
        Point::LoadingRecord => go_recovering(run, event),
        Point::Digesting => go_recovering(run, event),
        Point::FindingBackup => go_recovering(run, event),
        Point::ComparingBackup => go_recovering(run, event),
        Point::KeepLooking => go_keeping(run, event),
        Point::KeepMoving => go_keeping(run, event),
        Point::Stopped => halt(run, Outcome::OutOfStep),
    }
}

impl Repair {
    pub fn new(settings: Settings) -> (run: Repair)
        ensures
            run == fresh(settings),
    {
        Repair {
            settings,
            point: Point::Start,
            way: Way::Repair,
            condition: Condition::Other,
            occupied: false,
            bytes: 0,
        }
    }

    /// Tells the run what came of the last step, and hears what to do next.
    pub fn step(&mut self, event: Event) -> (action: Action)
        ensures
            (*final(self), action) == next(*old(self), event),
    {
        let (run, action) = advance(*self, event);
        *self = run;
        action
    }
}

/// The run after it heard the first `n` events.
pub open spec fn after(settings: Settings, events: Seq<Event>, n: int) -> Repair
    decreases n,
{
    if n <= 0 {
        fresh(settings)
    } else {
        next(after(settings, events, n - 1), events[n - 1]).0
    }
}

/// What the run asks for when it hears event `i`.
pub open spec fn asked(settings: Settings, events: Seq<Event>, i: int) -> Action {
    next(after(settings, events, i), events[i]).1
}

/// Did the run, among its first `n` events, hear the given one at the given point?
pub open spec fn heard(settings: Settings, events: Seq<Event>, n: int, point: Point, event: Event) -> bool {
    exists|i: int|
        0 <= i < n && (#[trigger] after(settings, events, i)).point == point && events[i] == event
}

/// The answers that later steps rest on.
struct Answers {
    locked: bool,
    yes: bool,
    verified: bool,
    unchanged: bool,
    published: bool,
    digest: bool,
    original: bool,
}

spec fn answers(settings: Settings, events: Seq<Event>, n: int) -> Answers {
    Answers {
        locked: heard(settings, events, n, Point::Locking, Event::Done),
        yes: heard(settings, events, n, Point::Asking, Event::Answer(true)),
        verified: heard(settings, events, n, Point::Verifying, Event::Answer(true)),
        unchanged: heard(settings, events, n, Point::Rechecking, Event::Answer(true)),
        published: heard(settings, events, n, Point::RecordingPublished, Event::Done),
        digest: heard(settings, events, n, Point::Digesting, Event::Answer(true)),
        original: heard(settings, events, n, Point::ComparingBackup, Event::Answer(true)),
    }
}

/// Points at which nothing has been changed, the lock aside.
pub open spec fn quiet(point: Point) -> bool {
    match point {
        Point::Start => true,
        Point::Inspecting => true,
        Point::Checking => true,
        Point::Mounts => true,
        Point::Directories => true,
        Point::Inventory => true,
        Point::Comparing => true,
        Point::Space => true,
        Point::Planning => true,
        Point::FindingCopy => true,
        Point::LoadingRecord => true,
        Point::Digesting => true,
        Point::FindingBackup => true,
        Point::ComparingBackup => true,
        Point::Stopped => true,
        _ => false,
    }
}

spec fn early(point: Point) -> bool {
    quiet(point) && !recovering_points(point) && point != Point::Stopped || point == Point::Locking
}

spec fn filling(point: Point) -> bool {
    match point {
        Point::Probing => true,
        Point::Preparing => true,
        Point::SettingAside => true,
        Point::Copying => true,
        Point::Verifying => true,
        Point::Rechecking => true,
        Point::Creating => true,
        Point::SyncingCreated => true,
        _ => false,
    }
}

spec fn verified_points(point: Point) -> bool {
    match point {
        Point::Rechecking => true,
        _ => switching_points(point),
    }
}

spec fn switching_points(point: Point) -> bool {
    match point {
        Point::RecordingVerified => true,
        Point::SyncingCopy => true,
        Point::Publishing => true,
        Point::SyncingHolder => true,
        Point::RecordingPublished => true,
        _ => moving_points(point),
    }
}

spec fn moving_points(point: Point) -> bool {
    match point {
        Point::Prechecking => true,
        Point::MovingAside => true,
        Point::SyncingMove => true,
        Point::RecordingBackedUp => true,
        _ => false,
    }
}

spec fn linking_points(point: Point) -> bool {
    match point {
        Point::Linking => true,
        Point::SyncingLink => true,
        Point::Clearing => true,
        Point::Noting => true,
        _ => false,
    }
}

spec fn recovering_points(point: Point) -> bool {
    match point {
        Point::FindingCopy => true,
        Point::LoadingRecord => true,
        Point::Digesting => true,
        Point::FindingBackup => true,
        Point::ComparingBackup => true,
        _ => false,
    }
}

spec fn keeping_points(point: Point) -> bool {
    point == Point::KeepLooking || point == Point::KeepMoving
}

/// What holds of every run, by the answers it has heard.
spec fn sound(run: Repair, settings: Settings, heard: Answers) -> bool {
    &&& run.settings == settings
    &&& settings.dry_run ==> quiet(run.point)
    &&& !settings.dry_run && run.point != Point::Start && run.point != Point::Locking && run.point
        != Point::Stopped ==> heard.locked
    &&& !quiet(run.point) && run.point != Point::Locking && run.point != Point::Asking
        ==> settings.assume_yes || heard.yes
    &&& early(run.point) || filling(run.point) || switching_points(run.point) ==> run.way
        == Way::Repair
    &&& keeping_points(run.point) ==> run.way == Way::Keep
    &&& recovering_points(run.point) ==> run.way == Way::Recovery
    &&& run.way == Way::Keep ==> settings.keep_destination
    &&& verified_points(run.point) ==> run.condition == Condition::NotRepaired && heard.verified
    &&& run.point == Point::Copying || run.point == Point::Verifying ==> run.condition
        == Condition::NotRepaired
    &&& run.point == Point::Creating || run.point == Point::SyncingCreated ==> run.condition
        != Condition::NotRepaired
    &&& switching_points(run.point) ==> heard.unchanged
    &&& moving_points(run.point) ==> heard.published
    &&& linking_points(run.point) && run.way == Way::Repair && run.condition == Condition::NotRepaired
        ==> heard.verified && heard.unchanged && heard.published
    &&& (linking_points(run.point) || run.point == Point::Asking) && run.way == Way::Recovery
        ==> heard.digest || heard.original
}

/// One event more, and the answers that then have been heard.
spec fn hears(before: Answers, run: Repair, event: Event, now: Answers) -> bool {
    &&& now.locked == (before.locked || (run.point == Point::Locking && event == Event::Done))
    &&& now.yes == (before.yes || (run.point == Point::Asking && event == Event::Answer(true)))
    &&& now.verified == (before.verified || (run.point == Point::Verifying && event == Event::Answer(
        true,
    )))
    &&& now.unchanged == (before.unchanged || (run.point == Point::Rechecking && event
        == Event::Answer(true)))
    &&& now.published == (before.published || (run.point == Point::RecordingPublished && event
        == Event::Done))
    &&& now.digest == (before.digest || (run.point == Point::Digesting && event == Event::Answer(
        true,
    )))
    &&& now.original == (before.original || (run.point == Point::ComparingBackup && event
        == Event::Answer(true)))
}

/// What holds of what a run asks for.
spec fn fair(run: Repair, settings: Settings, heard: Answers, action: Action) -> bool {
    &&& settings.dry_run ==> !action.changes()
    &&& action.changes() && action != Action::Lock ==> settings.assume_yes || heard.yes
    &&& action == Action::Inspect && !settings.dry_run ==> heard.locked
    &&& action == Action::MoveOriginalAside ==> (run.way == Way::Repair && heard.verified
        && heard.unchanged && heard.published) || (run.way == Way::Keep && settings.keep_destination)
    &&& action == Action::MakeLink ==> match run.way {
        Way::Repair => run.condition == Condition::NotRepaired ==> heard.verified && heard.unchanged
            && heard.published,
        Way::Recovery => heard.digest || heard.original,
        Way::Keep => settings.keep_destination,
    }
    &&& action != Action::RemoveLink && action != Action::PutBack && action
        != Action::DeleteOriginals && action != Action::CopyBack
    &&& action.changes_game_drive() && run.way == Way::Repair && run.condition
        == Condition::NotRepaired && action != Action::Probe ==> heard.verified && heard.unchanged
}

proof fn lemma_sound_step(run: Repair, event: Event, settings: Settings, before: Answers, now: Answers)
    requires
        sound(run, settings, before),
        hears(before, run, event, now),
    ensures
        sound(next(run, event).0, settings, now),
        fair(next(run, event).0, settings, now, next(run, event).1),
{
}

proof fn lemma_run_is_sound(settings: Settings, events: Seq<Event>, n: int)
    requires
        0 <= n <= events.len(),
    ensures
        sound(after(settings, events, n), settings, answers(settings, events, n)),
    decreases n,
{
    if n > 0 {
        lemma_run_is_sound(settings, events, n - 1);
        lemma_hears(settings, events, n - 1);
        lemma_sound_step(
            after(settings, events, n - 1),
            events[n - 1],
            settings,
            answers(settings, events, n - 1),
            answers(settings, events, n),
        );
    }
}

proof fn lemma_heard_more(settings: Settings, events: Seq<Event>, n: int, point: Point, event: Event)
    requires
        0 <= n < events.len(),
    ensures
        heard(settings, events, n + 1, point, event) == (heard(settings, events, n, point, event) || (
        after(settings, events, n).point == point && events[n] == event)),
{
    if heard(settings, events, n + 1, point, event) {
        let i = choose|i: int|
            0 <= i < n + 1 && (#[trigger] after(settings, events, i)).point == point && events[i]
                == event;
        if i < n {
            assert(after(settings, events, i).point == point);
        }
    }
    if heard(settings, events, n, point, event) {
        let i = choose|i: int|
            0 <= i < n && (#[trigger] after(settings, events, i)).point == point && events[i] == event;
        assert(after(settings, events, i).point == point && i < n + 1);
    }
}

proof fn lemma_hears(settings: Settings, events: Seq<Event>, n: int)
    requires
        0 <= n < events.len(),
    ensures
        hears(
            answers(settings, events, n),
            after(settings, events, n),
            events[n],
            answers(settings, events, n + 1),
        ),
{
    lemma_heard_more(settings, events, n, Point::Locking, Event::Done);
    lemma_heard_more(settings, events, n, Point::Asking, Event::Answer(true));
    lemma_heard_more(settings, events, n, Point::Verifying, Event::Answer(true));
    lemma_heard_more(settings, events, n, Point::Rechecking, Event::Answer(true));
    lemma_heard_more(settings, events, n, Point::RecordingPublished, Event::Done);
    lemma_heard_more(settings, events, n, Point::Digesting, Event::Answer(true));
    lemma_heard_more(settings, events, n, Point::ComparingBackup, Event::Answer(true));
}

proof fn lemma_asked_is_fair(settings: Settings, events: Seq<Event>, i: int)
    requires
        0 <= i < events.len(),
    ensures
        fair(
            after(settings, events, i + 1),
            settings,
            answers(settings, events, i + 1),
            asked(settings, events, i),
        ),
{
    lemma_run_is_sound(settings, events, i);
    lemma_hears(settings, events, i);
    lemma_sound_step(
        after(settings, events, i),
        events[i],
        settings,
        answers(settings, events, i),
        answers(settings, events, i + 1),
    );
}

/// A dry run never asks for a change, whatever it hears.
pub proof fn law_dry_run_changes_nothing(settings: Settings, events: Seq<Event>, i: int)
    requires
        settings.dry_run,
        0 <= i < events.len(),
    ensures
        !asked(settings, events, i).changes(),
{
    lemma_asked_is_fair(settings, events, i);
}

/// Nothing but the lock is changed without consent: given beforehand, or by the answer to the question.
pub proof fn law_changes_need_consent(settings: Settings, events: Seq<Event>, i: int)
    requires
        0 <= i < events.len(),
        asked(settings, events, i).changes(),
        asked(settings, events, i) != Action::Lock,
    ensures
        settings.assume_yes || heard(
            settings,
            events,
            i + 1,
            Point::Asking,
            Event::Answer(true),
        ),
{
    lemma_asked_is_fair(settings, events, i);
}

/// The state of a library is read under the lock, unless nothing can come of it.
pub proof fn law_state_is_read_under_the_lock(settings: Settings, events: Seq<Event>, i: int)
    requires
        !settings.dry_run,
        0 <= i < events.len(),
        asked(settings, events, i) == Action::Inspect,
    ensures
        heard(settings, events, i + 1, Point::Locking, Event::Done),
{
    lemma_asked_is_fair(settings, events, i);
}

/// A repair that has data to move touches the game drive, but for trying out a link, only after every
/// file of the copy was found to match and the source was found unchanged.
pub proof fn law_copy_is_verified_before_the_library_changes(
    settings: Settings,
    events: Seq<Event>,
    i: int,
)
    requires
        0 <= i < events.len(),
        asked(settings, events, i).changes_game_drive(),
        asked(settings, events, i) != Action::Probe,
        after(settings, events, i + 1).way == Way::Repair,
        after(settings, events, i + 1).condition == Condition::NotRepaired,
    ensures
        heard(settings, events, i + 1, Point::Verifying, Event::Answer(true)),
        heard(settings, events, i + 1, Point::Rechecking, Event::Answer(true)),
{
    lemma_asked_is_fair(settings, events, i);
}

/// The original is only ever renamed, and only when the verified copy is at the destination and recorded
/// there, or when the user chose to keep the destination.
pub proof fn law_original_moves_last(settings: Settings, events: Seq<Event>, i: int)
    requires
        0 <= i < events.len(),
        asked(settings, events, i) == Action::MoveOriginalAside,
    ensures
        settings.keep_destination || (heard(
            settings,
            events,
            i + 1,
            Point::Verifying,
            Event::Answer(true),
        ) && heard(settings, events, i + 1, Point::RecordingPublished, Event::Done)),
{
    lemma_asked_is_fair(settings, events, i);
}

/// An interrupted repair is only finished with a copy that was shown good: it has the digest that was
/// recorded, or it matches the original.
pub proof fn law_recovery_needs_proof(settings: Settings, events: Seq<Event>, i: int)
    requires
        0 <= i < events.len(),
        asked(settings, events, i) == Action::MakeLink,
        after(settings, events, i + 1).way == Way::Recovery,
    ensures
        heard(settings, events, i + 1, Point::Digesting, Event::Answer(true)) || heard(
            settings,
            events,
            i + 1,
            Point::ComparingBackup,
            Event::Answer(true),
        ),
{
    lemma_asked_is_fair(settings, events, i);
}

/// A repair deletes nothing and removes nothing: what is in the way is renamed.
pub proof fn law_repair_deletes_nothing(settings: Settings, events: Seq<Event>, i: int)
    requires
        0 <= i < events.len(),
    ensures
        asked(settings, events, i) != Action::DeleteOriginals,
        asked(settings, events, i) != Action::RemoveLink,
{
    lemma_asked_is_fair(settings, events, i);
}

/// Data is only moved off a drive that links can be made on, to another filesystem, and not to one that is
/// known to be no better; without being forced, only off one that is known to need it, and to a Linux
/// filesystem.
pub proof fn law_data_goes_to_a_fit_filesystem(
    force: bool,
    source: Option<Capability>,
    target: Option<Capability>,
    same: bool,
)
    requires
        mount_refusal(force, source, target, same) is None,
    ensures
        !same,
        source != Some(Capability::NoSymlinks),
        target != Some(Capability::NoSymlinks),
        target != Some(Capability::NeedsRepair),
        !force ==> source == Some(Capability::NeedsRepair) && target == Some(Capability::Native),
{
}

/// How many steps a run can still take.
pub open spec fn steps_left(point: Point) -> nat {
    match point {
        Point::Start => 40,
        Point::Locking => 39,
        Point::Inspecting => 38,
        Point::Checking => 37,
        Point::Mounts => 36,
        Point::Directories => 35,
        Point::Inventory => 34,
        Point::Comparing => 33,
        Point::Space => 32,
        Point::Planning => 31,
        Point::FindingCopy => 36,
        Point::LoadingRecord => 35,
        Point::Digesting => 34,
        Point::FindingBackup => 33,
        Point::ComparingBackup => 32,
        Point::Asking => 30,
        Point::Probing => 29,
        Point::Preparing => 28,
        Point::SettingAside => 27,
        Point::Copying => 26,
        Point::Verifying => 25,
        Point::Rechecking => 24,
        Point::RecordingVerified => 23,
        Point::SyncingCopy => 22,
        Point::Publishing => 21,
        Point::SyncingHolder => 20,
        Point::RecordingPublished => 19,
        Point::Prechecking => 18,
        Point::MovingAside => 17,
        Point::SyncingMove => 16,
        Point::RecordingBackedUp => 15,
        Point::Creating => 14,
        Point::SyncingCreated => 13,
        Point::KeepLooking => 12,
        Point::KeepMoving => 11,
        Point::Linking => 10,
        Point::SyncingLink => 9,
        Point::Clearing => 8,
        Point::Noting => 7,
        Point::Stopped => 0,
    }
}

proof fn lemma_step_comes_closer(run: Repair, event: Event)
    ensures
        run.point != Point::Stopped ==> steps_left(next(run, event).0.point) < steps_left(run.point),
        run.point == Point::Stopped ==> next(run, event).0.point == Point::Stopped,
{
}

/// Every run ends, whatever it hears: after at most 40 events it asks for nothing more.
pub proof fn law_every_repair_ends(settings: Settings, events: Seq<Event>, n: int)
    requires
        0 <= n <= events.len(),
    ensures
        n >= 40 ==> after(settings, events, n).point == Point::Stopped,
        after(settings, events, n).point == Point::Stopped || steps_left(
            after(settings, events, n).point,
        ) + n <= 40,
    decreases n,
{
    if n > 0 {
        law_every_repair_ends(settings, events, n - 1);
        lemma_step_comes_closer(after(settings, events, n - 1), events[n - 1]);
    }
    let point = after(settings, events, n).point;
    assert(point != Point::Stopped ==> steps_left(point) > 0);
}

/// Is there no question which data counts: nothing is at the destination, or it can be compared with what
/// the library has, or the user said?
pub open spec fn undisputed(run: Repair) -> bool {
    !run.occupied || run.condition == Condition::NotRepaired || run.settings.keep_destination
        || run.settings.replace_destination
}

/// An answer that speaks for going on.
pub open spec fn favourable(run: Repair, event: Event) -> bool {
    match run.point {
        Point::Start => event == Event::Begin,
        Point::Inspecting => event matches Event::Inspected { .. },
        Point::Checking => event == (Event::System { listed: true, running: false, read_only: false })
            && run.condition != Condition::Other,
        Point::Mounts => event matches Event::Mounts { source, target, same } && source == Some(
            Capability::NeedsRepair,
        ) && !same && target == Some(Capability::Native),
        Point::Directories => event == Event::Answer(false) && undisputed(run),
        Point::Inventory => event matches Event::Inventory { escaping, .. } && !escaping && undisputed(
            run,
        ),
        Point::Space => event matches Event::Space(free) && !short_of_room(free, run.bytes),
        Point::Planning => event == (Event::Plan { expected: true }),
        Point::Asking => event matches Event::Answer(_),
        Point::Preparing => event matches Event::Ready { .. },
        Point::Prechecking => event == (Event::Seen { kind: Kind::Directory, beneath: true }),
        Point::KeepLooking => event matches Event::Seen { .. },
        Point::LoadingRecord => event matches Event::Record { .. },
        Point::Digesting => event matches Event::Answer(_),
        Point::Comparing => event == Event::Answer(true),
        Point::Verifying => event == Event::Answer(true),
        Point::Rechecking => event == Event::Answer(true),
        Point::Linking => event == Event::Answer(true),
        Point::FindingCopy => event == Event::Answer(true),
        Point::FindingBackup => event == Event::Answer(true),
        Point::ComparingBackup => event == Event::Answer(true),
        Point::Stopped => false,
        _ => event == Event::Done,
    }
}

/// A run that hears only answers that speak for going on either goes on or ends well.
pub proof fn law_good_answers_lead_on(run: Repair, event: Event)
    requires
        favourable(run, event),
    ensures
        next(run, event).1 matches Action::Stop(outcome) ==> outcome.well(),
{
}

} // verus!
