//! What the commands do to the disk, step by step.
//!
//! A command decides from what it hears. Here its steps are followed on a disk: what each of them changes
//! when it succeeds, what may be left when it does not, and what can truthfully be answered to each
//! question. A history may end after any step, as when the power goes out. Nothing else writes meanwhile:
//! Steam is closed, and the lock is held.

use vstd::prelude::*;

use crate::backup::{self, Disposal};
use crate::fsops::{
    copy_problems, distinct, is_carried, law_carried_means_all_there, law_copy_of_a_copy, lost, EntryView,
};
use crate::protocol::{Action, Condition, Event, Outcome, Settings};
use crate::record::Stage;
use crate::repair::{self, next, Point, Repair, Way};
use crate::safefs::Kind;
use crate::undo::{self, Undo};

verus! {

pub type Tree = Seq<EntryView>;

/// What is at the place of compatdata.
pub enum Place {
    Nothing,
    Data(Tree),
    /// A link to the destination.
    Link,
    /// Anything else.
    Other,
}

/// What is on disk for a library.
pub struct Disk {
    pub compatdata: Place,
    /// The originals that were kept, the newest last.
    pub backups: Seq<Tree>,
    pub destination: Option<Tree>,
    /// What was at the destination before, and was set aside.
    pub previous: Seq<Tree>,
    /// A copy on its way to the destination.
    pub staging: Option<Tree>,
    /// A copy on its way back to the library.
    pub restoring: Option<Tree>,
}

/// Is a copy found to match what it was made of?
pub open spec fn same(original: Tree, copy: Tree) -> bool {
    copy_problems(original, copy).len() == 0
}

/// Is a tree kept, at one of the places where data lives?
pub open spec fn holds(disk: Disk, tree: Tree) -> bool {
    ||| disk.compatdata == Place::Data(tree)
    ||| disk.backups.contains(tree)
    ||| disk.destination == Some(tree)
    ||| disk.previous.contains(tree)
}

/// The state that a library is found in.
pub open spec fn condition(disk: Disk) -> Condition {
    match disk.compatdata {
        Place::Nothing => if disk.backups.len() > 0 {
            Condition::Interrupted
        } else {
            Condition::NoCompatdata
        },
        Place::Data(_) => Condition::NotRepaired,
        Place::Link => if disk.destination is Some {
            Condition::Repaired
        } else {
            Condition::Other
        },
        Place::Other => Condition::Other,
    }
}

/// Is a name what is said of it?
pub open spec fn seen_as(place: Place, kind: Kind) -> bool {
    match place {
        Place::Nothing => kind == Kind::Absent,
        Place::Data(_) => kind == Kind::Directory,
        Place::Link => kind == Kind::Symlink,
        Place::Other => kind != Kind::Absent,
    }
}

/// Is the answer to a question true of the disk?
pub open spec fn truthful(disk: Disk, action: Action, event: Event) -> bool {
    match (action, event) {
        (Action::Inspect, Event::Inspected { condition: seen, occupied, originals }) => {
            &&& seen == condition(disk)
            &&& seen != Condition::Repaired ==> occupied == (disk.destination is Some)
            &&& originals == (disk.backups.len() > 0)
        },
        (Action::MakeHolder, Event::Ready { occupied }) => occupied == (disk.destination is Some),
        (Action::LookForCopy, Event::Answer(there)) => there == (disk.destination is Some),
        (Action::LookForBackup, Event::Answer(there)) => there == (disk.backups.len() > 0),
        (Action::LookAtCompatdata, Event::Seen { kind, .. }) => seen_as(disk.compatdata, kind),
        (Action::Precheck, Event::Seen { kind, .. }) => seen_as(disk.compatdata, kind),
        (Action::CompareOriginals, Event::Answer(carried)) => carried == all_carried(disk),
        (Action::CompareBackup, Event::Answer(matches)) => disk.backups.len() > 0 && disk.destination is Some
            && matches == same(disk.backups.last(), disk.destination->0),
        _ => true,
    }
}

/// Is a check of a copy that says it matches true of the disk? What is copied is what the library has, or,
/// on the way back, what is at the destination.
pub open spec fn checked(disk: Disk, back: bool, event: Event) -> bool {
    event == Event::Answer(true) ==> if back {
        disk.destination is Some && disk.restoring is Some && same(disk.destination->0, disk.restoring->0)
    } else {
        disk.compatdata is Data && disk.staging is Some && same(disk.compatdata->Data_0, disk.staging->0)
    }
}

/// Is a check that the live data has all that the originals hold true of the disk?
pub open spec fn all_carried(disk: Disk) -> bool {
    disk.destination is Some && forall|i: int|
        0 <= i < disk.backups.len() ==> lost(#[trigger] disk.backups[i], disk.destination->0).len() == 0
}

/// What a step leaves on the disk, by what is heard of it. A rename either happens or does not, and does not
/// replace anything; a copy that did not come through may leave part of itself; of originals that could not
/// all be deleted some may be left.
pub open spec fn leaves(disk: Disk, action: Action, event: Event, now: Disk) -> bool {
    match action {
        Action::CopyTree => {
            &&& now == Disk { staging: now.staging, ..disk }
            &&& event == Event::Done ==> now.staging is Some
        },
        Action::CopyBack => {
            &&& now == Disk { restoring: now.restoring, ..disk }
            &&& event == Event::Done ==> now.restoring is Some
        },
        Action::SetDestinationAside => if event == Event::Done {
            &&& disk.destination is Some
            &&& now == Disk {
                destination: None,
                previous: disk.previous.push(disk.destination->0),
                ..disk
            }
        } else {
            now == disk
        },
        Action::CreateDestination => if disk.destination is None {
            now == Disk { destination: now.destination, ..disk }
        } else {
            now == disk
        },
        Action::PublishCopy => if event == Event::Done {
            &&& disk.staging is Some
            &&& disk.destination is None
            &&& now == Disk { destination: disk.staging, staging: None, ..disk }
        } else {
            now == disk
        },
        Action::MoveOriginalAside => if event == Event::Done {
            &&& disk.compatdata is Data
            &&& now == Disk {
                compatdata: Place::Nothing,
                backups: disk.backups.push(disk.compatdata->Data_0),
                ..disk
            }
        } else {
            now == disk
        },
        Action::MakeLink => {
            ||| now == disk && event != Event::Answer(true)
            ||| disk.compatdata is Nothing && now == Disk { compatdata: Place::Link, ..disk }
        },
        Action::RemoveLink => if event == Event::Done {
            &&& disk.compatdata is Link
            &&& now == Disk { compatdata: Place::Nothing, ..disk }
        } else {
            now == disk
        },
        Action::PutBack => if event == Event::Done {
            &&& disk.compatdata is Nothing
            &&& disk.restoring is Some
            &&& now == Disk {
                compatdata: Place::Data(disk.restoring->0),
                restoring: None,
                ..disk
            }
        } else {
            now == disk
        },
        Action::DeleteOriginals => now == Disk { backups: now.backups, ..disk },
        _ => now == disk && truthful(disk, action, event),
    }
}

/// A history of a repair: what was heard, and the disk when it was heard.
pub open spec fn repairs(settings: Settings, events: Seq<Event>, disks: Seq<Disk>) -> bool {
    &&& events.len() == disks.len()
    &&& forall|i: int| 0 < i < events.len() ==> #[trigger] repair_step_at(settings, events, disks, i)
}

pub open spec fn repair_step_at(settings: Settings, events: Seq<Event>, disks: Seq<Disk>, i: int) -> bool {
    repair_step(disks[i - 1], repair::asked(settings, events, i - 1), events[i], disks[i])
}

pub open spec fn repair_step(disk: Disk, action: Action, event: Event, now: Disk) -> bool {
    leaves(disk, action, event, now) && (action == Action::VerifyCopy ==> checked(disk, false, event))
}

/// A history of an undo.
pub open spec fn undoes(settings: Settings, events: Seq<Event>, disks: Seq<Disk>) -> bool {
    &&& events.len() == disks.len()
    &&& forall|i: int| 0 < i < events.len() ==> #[trigger] undo_step_at(settings, events, disks, i)
}

pub open spec fn undo_step_at(settings: Settings, events: Seq<Event>, disks: Seq<Disk>, i: int) -> bool {
    undo_step(disks[i - 1], undo::asked(settings, events, i - 1), events[i], disks[i])
}

pub open spec fn undo_step(disk: Disk, action: Action, event: Event, now: Disk) -> bool {
    leaves(disk, action, event, now) && (action == Action::VerifyCopy ==> checked(disk, true, event))
}

proof fn lemma_step_keeps(disk: Disk, action: Action, event: Event, now: Disk, tree: Tree)
    requires
        leaves(disk, action, event, now),
        action != Action::DeleteOriginals,
        holds(disk, tree),
    ensures
        holds(now, tree),
{
    match action {
        Action::SetDestinationAside => {
            if event == Event::Done {
                let gone = disk.destination->0;
                assert(now.previous.last() == gone);
                assert(now.previous.contains(gone));
                if disk.previous.contains(tree) {
                    let i = choose|i: int| 0 <= i < disk.previous.len() && disk.previous[i] == tree;
                    assert(now.previous[i] == tree);
                }
            }
        },
        Action::MoveOriginalAside => {
            if event == Event::Done {
                let moved = disk.compatdata->Data_0;
                assert(now.backups.last() == moved);
                assert(now.backups.contains(moved));
                if disk.backups.contains(tree) {
                    let i = choose|i: int| 0 <= i < disk.backups.len() && disk.backups[i] == tree;
                    assert(now.backups[i] == tree);
                }
            }
        },
        _ => {},
    }
}

/// A repair loses nothing: wherever it stops, every tree that was kept when it began is still kept.
pub proof fn law_repair_loses_nothing(
    settings: Settings,
    events: Seq<Event>,
    disks: Seq<Disk>,
    i: int,
    tree: Tree,
)
    requires
        repairs(settings, events, disks),
        0 <= i < disks.len(),
        holds(disks[0], tree),
    ensures
        holds(disks[i], tree),
    decreases i,
{
    if i > 0 {
        law_repair_loses_nothing(settings, events, disks, i - 1, tree);
        repair::law_repair_deletes_nothing(settings, events, i - 1);
        assert(repair_step_at(settings, events, disks, i));
        lemma_step_keeps(
            disks[i - 1],
            repair::asked(settings, events, i - 1),
            events[i],
            disks[i],
            tree,
        );
    }
}

/// The step that a run waits to hear of.
spec fn pending(run: Repair) -> Action {
    match run.point {
        Point::Start => Action::Stop(Outcome::OutOfStep),
        Point::Locking => Action::Lock,
        Point::Inspecting => Action::Inspect,
        Point::Checking => Action::CheckSystem,
        Point::Mounts => Action::ReadMounts,
        Point::Directories => Action::CompareDirectories,
        Point::Inventory => Action::TakeInventory,
        Point::Comparing => Action::CompareData,
        Point::Space => Action::MeasureSpace,
        Point::Planning => Action::DrawUpPlan,
        Point::Asking => Action::Confirm,
        Point::Probing => Action::Probe,
        Point::Preparing => Action::MakeHolder,
        Point::SettingAside => Action::SetDestinationAside,
        Point::Copying => Action::CopyTree,
        Point::Verifying => Action::VerifyCopy,
        Point::Rechecking => Action::RecheckSource,
        Point::RecordingVerified => Action::WriteRecord(Stage::Verified),
        Point::SyncingCopy => Action::SyncCopy,
        Point::Publishing => Action::PublishCopy,
        Point::SyncingHolder => Action::SyncHolder,
        Point::RecordingPublished => Action::WriteRecord(Stage::Published),
        Point::Prechecking => Action::Precheck,
        Point::MovingAside => Action::MoveOriginalAside,
        Point::SyncingMove => Action::SyncLibrary,
        Point::RecordingBackedUp => Action::WriteRecord(Stage::BackedUp),
        Point::Creating => Action::CreateDestination,
        Point::SyncingCreated => Action::SyncHolder,
        Point::Linking => Action::MakeLink,
        Point::SyncingLink => Action::SyncLibrary,
        Point::Clearing => Action::ClearRecord,
        Point::Noting => match run.way {
            Way::Keep => Action::OpenQuestions,
            _ => Action::RecordEvidence,
        },
        Point::FindingCopy => Action::LookForCopy,
        Point::LoadingRecord => Action::LoadRecord,
        Point::Digesting => Action::DigestCopy,
        Point::FindingBackup => Action::LookForBackup,
        Point::ComparingBackup => Action::CompareBackup,
        Point::KeepLooking => Action::LookAtCompatdata,
        Point::KeepMoving => Action::MoveOriginalAside,
        Point::Stopped => Action::Stop(Outcome::OutOfStep),
    }
}

proof fn lemma_pending(run: Repair, event: Event)
    requires
        run.point == Point::Clearing ==> run.way != Way::Keep,
    ensures
        next(run, event).0.point != Point::Stopped ==> next(run, event).1 == pending(next(run, event).0),
        next(run, event).0.point == Point::Stopped ==> next(run, event).1 is Stop,
        next(run, event).0.settings == run.settings,
{
}

/// A copy that matches the original is at the destination.
pub open spec fn copied(disk: Disk, original: Tree) -> bool {
    disk.destination is Some && same(original, disk.destination->0)
}

/// The original is kept as the newest backup, and its copy is at the destination.
pub open spec fn moved(disk: Disk, original: Tree) -> bool {
    &&& disk.backups.len() > 0
    &&& disk.backups.last() == original
    &&& copied(disk, original)
}

/// Either the library still has its data as it was, or it was moved: then the library has the link, or lacks
/// nothing but the link.
pub open spec fn recoverable(disk: Disk, original: Tree) -> bool {
    ||| disk.compatdata == Place::Data(original)
    ||| moved(disk, original) && (disk.compatdata is Nothing || disk.compatdata is Link)
}

/// What holds of the disk while a library's data is moved.
spec fn stands(run: Repair, disk: Disk, original: Tree) -> bool {
    match run.point {
        Point::Start | Point::Locking | Point::Inspecting => disk.compatdata == Place::Data(original) && run.way
            == Way::Repair,
        Point::Checking | Point::Mounts | Point::Directories | Point::Inventory | Point::Comparing
        | Point::Space | Point::Planning | Point::Asking | Point::Probing | Point::Preparing
        | Point::SettingAside | Point::Copying | Point::Verifying => disk.compatdata == Place::Data(original)
            && ours(run),
        Point::Rechecking | Point::RecordingVerified | Point::SyncingCopy | Point::Publishing => {
            &&& disk.compatdata == Place::Data(original)
            &&& disk.staging is Some
            &&& same(original, disk.staging->0)
            &&& ours(run)
        },
        Point::SyncingHolder | Point::RecordingPublished | Point::Prechecking | Point::MovingAside => {
            &&& disk.compatdata == Place::Data(original)
            &&& copied(disk, original)
            &&& ours(run)
        },
        Point::SyncingMove | Point::RecordingBackedUp | Point::Linking => {
            &&& disk.compatdata is Nothing
            &&& moved(disk, original)
            &&& ours(run)
        },
        Point::SyncingLink | Point::Clearing | Point::Noting => {
            &&& disk.compatdata is Link
            &&& moved(disk, original)
            &&& ours(run)
        },
        Point::Stopped => recoverable(disk, original),
        _ => false,
    }
}

spec fn ours(run: Repair) -> bool {
    run.way == Way::Repair && run.condition == Condition::NotRepaired
}

proof fn lemma_stands_while_planning(run: Repair, disk: Disk, event: Event, original: Tree)
    requires
        !run.settings.keep_destination,
        stands(run, disk, original),
        truthful(disk, pending(run), event),
        run.point == Point::Start || run.point == Point::Locking || run.point == Point::Inspecting || run.point
            == Point::Checking || run.point == Point::Mounts || run.point == Point::Directories || run.point
            == Point::Inventory || run.point == Point::Comparing || run.point == Point::Space || run.point
            == Point::Planning || run.point == Point::Asking,
    ensures
        stands(repair::planning(run, event).0, disk, original),
{
}

proof fn lemma_stands_while_copying(run: Repair, disk: Disk, event: Event, now: Disk, original: Tree)
    requires
        stands(run, disk, original),
        repair_step(disk, pending(run), event, now),
        run.point == Point::Probing || run.point == Point::Preparing || run.point == Point::SettingAside
            || run.point == Point::Copying || run.point == Point::Verifying || run.point == Point::Rechecking,
    ensures
        stands(repair::copying(run, event).0, now, original),
{
}

proof fn lemma_stands_while_switching(run: Repair, disk: Disk, event: Event, now: Disk, original: Tree)
    requires
        stands(run, disk, original),
        repair_step(disk, pending(run), event, now),
        run.point == Point::RecordingVerified || run.point == Point::SyncingCopy || run.point
            == Point::Publishing || run.point == Point::SyncingHolder || run.point == Point::RecordingPublished
            || run.point == Point::Prechecking || run.point == Point::MovingAside || run.point
            == Point::SyncingMove || run.point == Point::RecordingBackedUp,
    ensures
        stands(repair::switching(run, event).0, now, original),
{
    if run.point == Point::MovingAside && event == Event::Done {
        assert(now.backups.last() == original);
    }
}

proof fn lemma_stands_while_linking(run: Repair, disk: Disk, event: Event, now: Disk, original: Tree)
    requires
        stands(run, disk, original),
        repair_step(disk, pending(run), event, now),
        run.point == Point::Linking || run.point == Point::SyncingLink || run.point == Point::Clearing
            || run.point == Point::Noting,
    ensures
        stands(repair::linking(run, event).0, now, original),
{
}

proof fn lemma_still_stands(run: Repair, disk: Disk, event: Event, now: Disk, original: Tree)
    requires
        !run.settings.keep_destination,
        stands(run, disk, original),
        run.point != Point::Stopped,
        repair_step(disk, pending(run), event, now),
    ensures
        stands(next(run, event).0, now, original),
{
    match run.point {
        Point::Start | Point::Locking | Point::Inspecting | Point::Checking | Point::Mounts | Point::Directories
        | Point::Inventory | Point::Comparing | Point::Space | Point::Planning | Point::Asking => {
            assert(now == disk);
            lemma_stands_while_planning(run, disk, event, original);
        },
        Point::Probing | Point::Preparing | Point::SettingAside | Point::Copying | Point::Verifying
        | Point::Rechecking => lemma_stands_while_copying(run, disk, event, now, original),
        Point::Linking | Point::SyncingLink | Point::Clearing | Point::Noting => lemma_stands_while_linking(
            run,
            disk,
            event,
            now,
            original,
        ),
        _ => lemma_stands_while_switching(run, disk, event, now, original),
    }
}

#[verifier::rlimit(40)]
proof fn lemma_stands(settings: Settings, events: Seq<Event>, disks: Seq<Disk>, i: int, original: Tree)
    requires
        !settings.keep_destination,
        repairs(settings, events, disks),
        disks[0].compatdata == Place::Data(original),
        0 <= i < disks.len(),
    ensures
        stands(repair::after(settings, events, i + 1), disks[i], original),
        repair::after(settings, events, i + 1).settings == settings,
        ({
            let run = repair::after(settings, events, i + 1);
            &&& run.point != Point::Stopped ==> repair::asked(settings, events, i) == pending(run)
            &&& run.point == Point::Stopped ==> repair::asked(settings, events, i) is Stop
        }),
        repair::asked(settings, events, i) == Action::Stop(Outcome::Repaired) ==> moved(disks[i], original)
            && disks[i].compatdata is Link,
    decreases i,
{
    let before = repair::after(settings, events, i);
    if i > 0 {
        lemma_stands(settings, events, disks, i - 1, original);
        lemma_pending(before, events[i]);
        assert(repair_step_at(settings, events, disks, i));
        if before.point != Point::Stopped {
            lemma_still_stands(before, disks[i - 1], events[i], disks[i], original);
        }
    } else {
        assert(before == repair::fresh(settings));
        lemma_pending(before, events[0]);
        lemma_still_stands(before, disks[0], events[0], disks[0], original);
    }
}

/// Wherever a repair is interrupted, the library has its data as it was, or a copy of it that was found to
/// match is at the destination and the original beside the library, with the link or with nothing but the link
/// missing.
pub proof fn law_interruption_leaves_a_way_on(
    settings: Settings,
    events: Seq<Event>,
    disks: Seq<Disk>,
    i: int,
    original: Tree,
)
    requires
        !settings.keep_destination,
        repairs(settings, events, disks),
        0 <= i < disks.len(),
        disks[0].compatdata == Place::Data(original),
    ensures
        recoverable(disks[i], original),
{
    lemma_stands(settings, events, disks, i, original);
}

/// A repair that ends well has moved the data: the library has a link, a copy that was found to match is where
/// it leads, and the original is kept.
pub proof fn law_repair_moves_the_data(
    settings: Settings,
    events: Seq<Event>,
    disks: Seq<Disk>,
    i: int,
    original: Tree,
)
    requires
        !settings.keep_destination,
        repairs(settings, events, disks),
        0 <= i < disks.len(),
        disks[0].compatdata == Place::Data(original),
        repair::asked(settings, events, i) == Action::Stop(Outcome::Repaired),
    ensures
        disks[i].compatdata is Link,
        moved(disks[i], original),
{
    lemma_stands(settings, events, disks, i, original);
}

/// Does an end of a run come from outside: was something not possible, not allowed, or not wanted?
pub open spec fn from_outside(outcome: Outcome) -> bool {
    match outcome {
        Outcome::Failed => true,
        Outcome::OutOfStep => true,
        Outcome::ProcessesUnknown => true,
        Outcome::ProcessesRunning => true,
        Outcome::ReadOnly => true,
        Outcome::LinkNotMade => true,
        Outcome::Cancelled => true,
        Outcome::DryRun => true,
        _ => false,
    }
}

/// What holds of the disk while an interrupted repair is finished.
spec fn resumes(run: Repair, disk: Disk, original: Tree) -> bool {
    match run.point {
        Point::Start | Point::Locking | Point::Inspecting => disk.compatdata is Nothing && moved(
            disk,
            original,
        ) && run.way == Way::Repair,
        Point::Checking => disk.compatdata is Nothing && moved(disk, original) && run.condition
            == Condition::Interrupted,
        Point::FindingCopy | Point::LoadingRecord | Point::Digesting | Point::FindingBackup
        | Point::ComparingBackup | Point::Asking | Point::Linking => {
            &&& disk.compatdata is Nothing
            &&& moved(disk, original)
            &&& run.way == Way::Recovery
        },
        Point::SyncingLink | Point::Clearing | Point::Noting => {
            &&& disk.compatdata is Link
            &&& moved(disk, original)
            &&& run.way == Way::Recovery
        },
        Point::Stopped => moved(disk, original) && (disk.compatdata is Nothing || disk.compatdata is Link),
        _ => false,
    }
}

#[verifier::rlimit(40)]
proof fn lemma_still_resumes(run: Repair, disk: Disk, event: Event, now: Disk, original: Tree)
    requires
        resumes(run, disk, original),
        run.point != Point::Stopped,
        repair_step(disk, pending(run), event, now),
    ensures
        resumes(next(run, event).0, now, original),
        next(run, event).1 matches Action::Stop(outcome) ==> from_outside(outcome) || outcome
            == Outcome::Recovered && now.compatdata is Link,
{
}

/// An interrupted repair can be resumed: of a library that lacks nothing but the link, `fix` makes the link
/// unless something outside stops it, and never finds that there is nothing to go on.
pub proof fn law_interrupted_repair_is_finished(
    settings: Settings,
    events: Seq<Event>,
    disks: Seq<Disk>,
    i: int,
    original: Tree,
)
    requires
        repairs(settings, events, disks),
        0 <= i < disks.len(),
        disks[0].compatdata is Nothing,
        moved(disks[0], original),
    ensures
        moved(disks[i], original),
        repair::after(settings, events, i).point != Point::Stopped ==> match repair::asked(
            settings,
            events,
            i,
        ) {
            Action::Stop(outcome) => from_outside(outcome) || outcome == Outcome::Recovered
                && disks[i].compatdata is Link,
            _ => true,
        },
{
    lemma_resumes(settings, events, disks, i, original);
}

#[verifier::rlimit(40)]
proof fn lemma_resumes(settings: Settings, events: Seq<Event>, disks: Seq<Disk>, i: int, original: Tree)
    requires
        repairs(settings, events, disks),
        disks[0].compatdata is Nothing,
        moved(disks[0], original),
        0 <= i < disks.len(),
    ensures
        resumes(repair::after(settings, events, i + 1), disks[i], original),
        ({
            let run = repair::after(settings, events, i + 1);
            &&& run.point != Point::Stopped ==> repair::asked(settings, events, i) == pending(run)
            &&& run.point == Point::Stopped ==> repair::asked(settings, events, i) is Stop
        }),
        repair::after(settings, events, i).point != Point::Stopped ==> match repair::asked(
            settings,
            events,
            i,
        ) {
            Action::Stop(outcome) => from_outside(outcome) || outcome == Outcome::Recovered
                && disks[i].compatdata is Link,
            _ => true,
        },
    decreases i,
{
    let before = repair::after(settings, events, i);
    if i > 0 {
        lemma_resumes(settings, events, disks, i - 1, original);
        lemma_pending(before, events[i]);
        assert(repair_step_at(settings, events, disks, i));
        if before.point != Point::Stopped {
            lemma_still_resumes(before, disks[i - 1], events[i], disks[i], original);
        }
    } else {
        assert(before == repair::fresh(settings));
        lemma_pending(before, events[0]);
        lemma_still_resumes(before, disks[0], events[0], disks[0], original);
    }
}

/// What holds of the disk while the destination is kept.
spec fn keeps(run: Repair, disk: Disk, here: Tree, there: Tree) -> bool {
    disk.destination == Some(there) && match run.point {
        Point::Start | Point::Locking | Point::Inspecting => disk.compatdata == Place::Data(here) && run.way
            == Way::Repair,
        Point::Checking | Point::Mounts | Point::Directories | Point::Inventory | Point::Comparing => {
            &&& disk.compatdata == Place::Data(here)
            &&& ours(run)
            &&& run.occupied
        },
        Point::Asking | Point::KeepLooking | Point::KeepMoving => {
            &&& disk.compatdata == Place::Data(here)
            &&& run.way == Way::Keep
        },
        Point::Linking => {
            &&& disk.compatdata is Nothing
            &&& disk.backups.contains(here)
            &&& run.way == Way::Keep
        },
        Point::SyncingLink | Point::Noting => {
            &&& disk.compatdata is Link
            &&& disk.backups.contains(here)
            &&& run.way == Way::Keep
        },
        Point::Stopped => disk.compatdata == Place::Data(here) || disk.backups.contains(here),
        _ => false,
    }
}

#[verifier::rlimit(40)]
proof fn lemma_still_keeps(run: Repair, disk: Disk, event: Event, now: Disk, here: Tree, there: Tree)
    requires
        run.settings.keep_destination,
        keeps(run, disk, here, there),
        run.point != Point::Stopped,
        repair_step(disk, pending(run), event, now),
    ensures
        keeps(next(run, event).0, now, here, there),
        next(run, event).1 == Action::Stop(Outcome::Kept) ==> now.compatdata is Link && now.backups.contains(
            here,
        ),
{
    if run.point == Point::KeepMoving && event == Event::Done {
        assert(now.backups.last() == here);
    }
}

/// Where both the library and the destination have data and the destination is to be kept, it stays what it
/// is, and what the library had is kept beside it; when the run ends well the library links to the destination.
pub proof fn law_keeping_keeps_both(
    settings: Settings,
    events: Seq<Event>,
    disks: Seq<Disk>,
    i: int,
    here: Tree,
    there: Tree,
)
    requires
        settings.keep_destination,
        repairs(settings, events, disks),
        0 <= i < disks.len(),
        disks[0].compatdata == Place::Data(here),
        disks[0].destination == Some(there),
    ensures
        disks[i].destination == Some(there),
        disks[i].compatdata == Place::Data(here) || disks[i].backups.contains(here),
        repair::asked(settings, events, i) == Action::Stop(Outcome::Kept) ==> disks[i].compatdata is Link,
{
    lemma_keeps(settings, events, disks, i, here, there);
}

#[verifier::rlimit(40)]
proof fn lemma_keeps(
    settings: Settings,
    events: Seq<Event>,
    disks: Seq<Disk>,
    i: int,
    here: Tree,
    there: Tree,
)
    requires
        settings.keep_destination,
        repairs(settings, events, disks),
        disks[0].compatdata == Place::Data(here),
        disks[0].destination == Some(there),
        0 <= i < disks.len(),
    ensures
        keeps(repair::after(settings, events, i + 1), disks[i], here, there),
        repair::after(settings, events, i + 1).settings == settings,
        ({
            let run = repair::after(settings, events, i + 1);
            &&& run.point != Point::Stopped ==> repair::asked(settings, events, i) == pending(run)
            &&& run.point == Point::Stopped ==> repair::asked(settings, events, i) is Stop
        }),
        repair::asked(settings, events, i) == Action::Stop(Outcome::Kept) ==> disks[i].compatdata is Link
            && disks[i].backups.contains(here),
    decreases i,
{
    let before = repair::after(settings, events, i);
    if i > 0 {
        lemma_keeps(settings, events, disks, i - 1, here, there);
        lemma_pending(before, events[i]);
        assert(repair_step_at(settings, events, disks, i));
        if before.point != Point::Stopped {
            lemma_still_keeps(before, disks[i - 1], events[i], disks[i], here, there);
        }
    } else {
        assert(before == repair::fresh(settings));
        lemma_pending(before, events[0]);
        lemma_still_keeps(before, disks[0], events[0], disks[0], here, there);
    }
}

// ----------------------------------------------------------------------- undo

/// An undo loses nothing: wherever it stops, every tree that was kept when it began is still kept.
pub proof fn law_undo_loses_nothing(
    settings: Settings,
    events: Seq<Event>,
    disks: Seq<Disk>,
    i: int,
    tree: Tree,
)
    requires
        undoes(settings, events, disks),
        0 <= i < disks.len(),
        holds(disks[0], tree),
    ensures
        holds(disks[i], tree),
    decreases i,
{
    if i > 0 {
        law_undo_loses_nothing(settings, events, disks, i - 1, tree);
        undo::law_undo_keeps_both_copies(settings, events, i - 1);
        assert(undo_step_at(settings, events, disks, i));
        lemma_step_keeps(
            disks[i - 1],
            undo::asked(settings, events, i - 1),
            events[i],
            disks[i],
            tree,
        );
    }
}

spec fn pending_undo(run: Undo) -> Action {
    match run.point {
        undo::Point::Start => Action::Stop(Outcome::OutOfStep),
        undo::Point::Locking => Action::Lock,
        undo::Point::Inspecting => Action::Inspect,
        undo::Point::Checking => Action::CheckSystem,
        undo::Point::Inventory => Action::TakeInventory,
        undo::Point::Space => Action::MeasureSpace,
        undo::Point::Asking => Action::Confirm,
        undo::Point::Copying => Action::CopyBack,
        undo::Point::Verifying => Action::VerifyCopy,
        undo::Point::Rechecking => Action::RecheckSource,
        undo::Point::Looking => Action::LookAtCompatdata,
        undo::Point::Removing => Action::RemoveLink,
        undo::Point::PuttingBack => Action::PutBack,
        undo::Point::Syncing => Action::SyncLibrary,
        undo::Point::Noting => Action::OpenQuestions,
        undo::Point::Stopped => Action::Stop(Outcome::OutOfStep),
    }
}

proof fn lemma_pending_undo(run: Undo, event: Event)
    ensures
        undo::next(run, event).0.point != undo::Point::Stopped ==> undo::next(run, event).1 == pending_undo(
            undo::next(run, event).0,
        ),
        undo::next(run, event).0.point == undo::Point::Stopped ==> undo::next(run, event).1 is Stop,
        run.point == undo::Point::Stopped ==> undo::next(run, event) == undo::stop(run, Outcome::OutOfStep),
{
}

/// What holds of the disk while data is copied back.
spec fn goes_back(run: Undo, disk: Disk, live: Tree) -> bool {
    disk.destination == Some(live) && match run.point {
        undo::Point::Looking | undo::Point::Removing => disk.compatdata is Link && disk.restoring is Some && same(
            live,
            disk.restoring->0,
        ),
        undo::Point::Rechecking => disk.compatdata is Link && disk.restoring is Some && same(
            live,
            disk.restoring->0,
        ),
        undo::Point::PuttingBack => disk.compatdata is Nothing && disk.restoring is Some && same(
            live,
            disk.restoring->0,
        ),
        undo::Point::Syncing | undo::Point::Noting => disk.compatdata is Data && same(
            live,
            disk.compatdata->Data_0,
        ),
        undo::Point::Stopped => true,
        _ => disk.compatdata is Link,
    }
}

#[verifier::rlimit(40)]
proof fn lemma_still_goes_back(run: Undo, disk: Disk, event: Event, now: Disk, live: Tree)
    requires
        goes_back(run, disk, live),
        run.point != undo::Point::Stopped,
        undo_step(disk, pending_undo(run), event, now),
    ensures
        goes_back(undo::next(run, event).0, now, live),
        undo::next(run, event).1 == Action::Stop(Outcome::Undone) ==> now.compatdata is Data && same(
            live,
            now.compatdata->Data_0,
        ),
{
}

#[verifier::rlimit(40)]
proof fn lemma_goes_back(settings: Settings, events: Seq<Event>, disks: Seq<Disk>, i: int, live: Tree)
    requires
        undoes(settings, events, disks),
        disks[0].compatdata is Link,
        disks[0].destination == Some(live),
        0 <= i < disks.len(),
    ensures
        goes_back(undo::after(settings, events, i + 1), disks[i], live),
        ({
            let run = undo::after(settings, events, i + 1);
            &&& run.point != undo::Point::Stopped ==> undo::asked(settings, events, i) == pending_undo(run)
            &&& run.point == undo::Point::Stopped ==> undo::asked(settings, events, i) is Stop
        }),
        undo::asked(settings, events, i) == Action::Stop(Outcome::Undone) ==> disks[i].compatdata is Data && same(
            live,
            disks[i].compatdata->Data_0,
        ),
    decreases i,
{
    let before = undo::after(settings, events, i);
    lemma_pending_undo(before, events[i]);
    if i > 0 {
        lemma_goes_back(settings, events, disks, i - 1, live);
        assert(undo_step_at(settings, events, disks, i));
        if before.point != undo::Point::Stopped {
            lemma_still_goes_back(before, disks[i - 1], events[i], disks[i], live);
        }
    } else {
        assert(before == undo::fresh(settings));
        lemma_still_goes_back(before, disks[0], events[0], disks[0], live);
    }
}

/// Undoing gives the library the data that is in use, saves made since the repair with it: when it ends well the
/// library has a copy that was found to match. The data in use stays where it is, wherever it stops.
pub proof fn law_undo_brings_back_the_data_in_use(
    settings: Settings,
    events: Seq<Event>,
    disks: Seq<Disk>,
    i: int,
    live: Tree,
)
    requires
        undoes(settings, events, disks),
        0 <= i < disks.len(),
        disks[0].compatdata is Link,
        disks[0].destination == Some(live),
    ensures
        disks[i].destination == Some(live),
        undo::asked(settings, events, i) == Action::Stop(Outcome::Undone) ==> disks[i].compatdata is Data && same(
            live,
            disks[i].compatdata->Data_0,
        ),
{
    lemma_goes_back(settings, events, disks, i, live);
}

/// What a repair moved and an undo brought back, with nothing written in between, is as it was.
pub proof fn law_undo_undoes_a_repair(original: Tree, moved_to: Disk, back: Disk)
    requires
        distinct(original),
        moved(moved_to, original),
        back.compatdata is Data,
        distinct(back.compatdata->Data_0),
        same(moved_to.destination->0, back.compatdata->Data_0),
    ensures
        same(original, back.compatdata->Data_0),
{
    law_copy_of_a_copy(original, moved_to.destination->0, back.compatdata->Data_0);
}

// --------------------------------------------------------------------- backup

/// A history of deleting originals.
pub open spec fn disposes(settings: Settings, events: Seq<Event>, disks: Seq<Disk>) -> bool {
    &&& events.len() == disks.len()
    &&& forall|i: int| 0 < i < events.len() ==> #[trigger] dispose_step_at(settings, events, disks, i)
}

pub open spec fn dispose_step_at(settings: Settings, events: Seq<Event>, disks: Seq<Disk>, i: int) -> bool {
    leaves(disks[i - 1], backup::asked(settings, events, i - 1), events[i], disks[i])
}

spec fn pending_disposal(run: Disposal) -> Action {
    match run.point {
        backup::Point::Start => Action::Stop(Outcome::OutOfStep),
        backup::Point::Locking => Action::Lock,
        backup::Point::Inspecting => Action::Inspect,
        backup::Point::Checking => Action::CheckSystem,
        backup::Point::Judging => Action::LoadEvidence,
        backup::Point::Comparing => Action::CompareOriginals,
        backup::Point::Asking => Action::Confirm,
        backup::Point::Deleting => Action::DeleteOriginals,
        backup::Point::Syncing => Action::SyncLibrary,
        backup::Point::Stopped => Action::Stop(Outcome::OutOfStep),
    }
}

proof fn lemma_pending_disposal(run: Disposal, event: Event)
    ensures
        backup::next(run, event).0.point != backup::Point::Stopped ==> backup::next(run, event).1
            == pending_disposal(backup::next(run, event).0),
        backup::next(run, event).0.point == backup::Point::Stopped ==> backup::next(run, event).1 is Stop,
        run.point == backup::Point::Stopped ==> backup::next(run, event) == backup::stop(run, Outcome::OutOfStep),
{
}

/// What holds of the disk while originals are disposed of: they are all there, or all that they held is in the
/// data that is in use.
spec fn disposing(run: Disposal, disk: Disk, first: Disk) -> bool {
    &&& disk == Disk { backups: disk.backups, ..first }
    &&& match run.point {
        backup::Point::Asking | backup::Point::Deleting => disk == first && all_carried(first),
        backup::Point::Syncing => all_carried(first),
        backup::Point::Stopped => disk == first || all_carried(first),
        _ => disk == first,
    }
}

proof fn lemma_still_disposing(run: Disposal, disk: Disk, event: Event, now: Disk, first: Disk)
    requires
        disposing(run, disk, first),
        run.point != backup::Point::Stopped,
        leaves(disk, pending_disposal(run), event, now),
    ensures
        disposing(backup::next(run, event).0, now, first),
{
}

#[verifier::rlimit(40)]
proof fn lemma_disposing(settings: Settings, events: Seq<Event>, disks: Seq<Disk>, i: int)
    requires
        disposes(settings, events, disks),
        0 <= i < disks.len(),
    ensures
        disposing(backup::after(settings, events, i + 1), disks[i], disks[0]),
        ({
            let run = backup::after(settings, events, i + 1);
            &&& run.point != backup::Point::Stopped ==> backup::asked(settings, events, i) == pending_disposal(run)
            &&& run.point == backup::Point::Stopped ==> backup::asked(settings, events, i) is Stop
        }),
    decreases i,
{
    let before = backup::after(settings, events, i);
    lemma_pending_disposal(before, events[i]);
    if i > 0 {
        lemma_disposing(settings, events, disks, i - 1);
        assert(dispose_step_at(settings, events, disks, i));
        if before.point != backup::Point::Stopped {
            lemma_still_disposing(before, disks[i - 1], events[i], disks[i], disks[0]);
        }
    } else {
        assert(before == backup::fresh(settings));
        lemma_still_disposing(before, disks[0], events[0], disks[0], disks[0]);
    }
}

/// Originals are all that is ever deleted, and none is unless everything that any of them holds is in the data
/// in use: whatever path an original had is there.
pub proof fn law_deleted_originals_are_carried(
    settings: Settings,
    events: Seq<Event>,
    disks: Seq<Disk>,
    i: int,
    k: int,
    m: int,
)
    requires
        disposes(settings, events, disks),
        0 <= i < disks.len(),
        disks[i].backups != disks[0].backups,
        0 <= k < disks[0].backups.len(),
        0 <= m < disks[0].backups[k].len(),
    ensures
        disks[i] == (Disk { backups: disks[i].backups, ..disks[0] }),
        disks[0].destination is Some,
        is_carried(disks[0].backups[k][m], disks[0].destination->0),
{
    lemma_disposing(settings, events, disks, i);
    law_carried_means_all_there(disks[0].backups[k], disks[0].destination->0);
}

} // verus!
