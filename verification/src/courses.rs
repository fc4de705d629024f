//! The courses that the commands take.

use vstd::prelude::*;

use crate::evidence::Result_;
use crate::protocol::{Action, Condition, Event, Outcome, Settings};
use crate::record::Stage;
use crate::safefs::Kind;
use crate::system::Capability;
use crate::{backup, repair, undo};

verus! {

/// Is there room for a copy and for two gibibytes more, as far as is known?
pub open spec fn has_room(free: Option<u64>, bytes: u64) -> bool {
    free is None || free->0 >= bytes + 2 * 1024 * 1024 * 1024
}

/// Once links are known to be possible, a repair copies the data, verifies the copy and looks at the source again, puts
/// the copy in its place, only then moves the original aside, makes the link, and ends well. Each stage is recorded and
/// on disk before the next.
#[verifier::spinoff_prover]
pub proof fn law_copy_is_verified_then_switched_in(run: repair::Repair)
    requires
        run.point == repair::Point::Probing,
        run.way == repair::Way::Repair,
        run.condition == Condition::NotRepaired,
    ensures
        ({
            let s0 = repair::next(run, Event::Done);
            let s1 = repair::next(s0.0, Event::Ready { occupied: false });
            let s2 = repair::next(s1.0, Event::Done);
            let s3 = repair::next(s2.0, Event::Answer(true));
            let s4 = repair::next(s3.0, Event::Answer(true));
            let s5 = repair::next(s4.0, Event::Done);
            let s6 = repair::next(s5.0, Event::Done);
            let s7 = repair::next(s6.0, Event::Done);
            let s8 = repair::next(s7.0, Event::Done);
            let s9 = repair::next(s8.0, Event::Done);
            let s10 = repair::next(s9.0, Event::Seen { kind: Kind::Directory, beneath: true });
            let s11 = repair::next(s10.0, Event::Done);
            let s12 = repair::next(s11.0, Event::Done);
            let s13 = repair::next(s12.0, Event::Done);
            let s14 = repair::next(s13.0, Event::Answer(true));
            let s15 = repair::next(s14.0, Event::Done);
            let s16 = repair::next(s15.0, Event::Done);
            let s17 = repair::next(s16.0, Event::Done);
            &&& s0.1 == Action::MakeHolder
            &&& s1.1 == Action::CopyTree
            &&& s2.1 == Action::VerifyCopy
            &&& s3.1 == Action::RecheckSource
            &&& s4.1 == Action::WriteRecord(Stage::Verified)
            &&& s5.1 == Action::SyncCopy
            &&& s6.1 == Action::PublishCopy
            &&& s7.1 == Action::SyncHolder
            &&& s8.1 == Action::WriteRecord(Stage::Published)
            &&& s9.1 == Action::Precheck
            &&& s10.1 == Action::MoveOriginalAside
            &&& s11.1 == Action::SyncLibrary
            &&& s12.1 == Action::WriteRecord(Stage::BackedUp)
            &&& s13.1 == Action::MakeLink
            &&& s14.1 == Action::SyncLibrary
            &&& s15.1 == Action::ClearRecord
            &&& s16.1 == Action::RecordEvidence
            &&& s17.1 == Action::Stop(Outcome::Repaired)
        }),
{
    let r0 = repair::Repair { point: repair::Point::Preparing, ..run };
    assert(repair::next(run, Event::Done) == (r0, Action::MakeHolder));
    let r1 = repair::Repair { point: repair::Point::Copying, ..run };
    assert(repair::next(r0, Event::Ready { occupied: false }) == (r1, Action::CopyTree));
    let r2 = repair::Repair { point: repair::Point::Verifying, ..run };
    assert(repair::next(r1, Event::Done) == (r2, Action::VerifyCopy));
    let r3 = repair::Repair { point: repair::Point::Rechecking, ..run };
    assert(repair::next(r2, Event::Answer(true)) == (r3, Action::RecheckSource));
    let r4 = repair::Repair { point: repair::Point::RecordingVerified, ..run };
    assert(repair::next(r3, Event::Answer(true)) == (r4, Action::WriteRecord(Stage::Verified)));
    let r5 = repair::Repair { point: repair::Point::SyncingCopy, ..run };
    assert(repair::next(r4, Event::Done) == (r5, Action::SyncCopy));
    let r6 = repair::Repair { point: repair::Point::Publishing, ..run };
    assert(repair::next(r5, Event::Done) == (r6, Action::PublishCopy));
    let r7 = repair::Repair { point: repair::Point::SyncingHolder, ..run };
    assert(repair::next(r6, Event::Done) == (r7, Action::SyncHolder));
    let r8 = repair::Repair { point: repair::Point::RecordingPublished, ..run };
    assert(repair::next(r7, Event::Done) == (r8, Action::WriteRecord(Stage::Published)));
    let r9 = repair::Repair { point: repair::Point::Prechecking, ..run };
    assert(repair::next(r8, Event::Done) == (r9, Action::Precheck));
    let r10 = repair::Repair { point: repair::Point::MovingAside, ..run };
    assert(repair::next(r9, Event::Seen { kind: Kind::Directory, beneath: true }) == (r10, Action::MoveOriginalAside));
    let r11 = repair::Repair { point: repair::Point::SyncingMove, ..run };
    assert(repair::next(r10, Event::Done) == (r11, Action::SyncLibrary));
    let r12 = repair::Repair { point: repair::Point::RecordingBackedUp, ..run };
    assert(repair::next(r11, Event::Done) == (r12, Action::WriteRecord(Stage::BackedUp)));
    let r13 = repair::Repair { point: repair::Point::Linking, ..run };
    assert(repair::next(r12, Event::Done) == (r13, Action::MakeLink));
    let r14 = repair::Repair { point: repair::Point::SyncingLink, ..run };
    assert(repair::next(r13, Event::Answer(true)) == (r14, Action::SyncLibrary));
    let r15 = repair::Repair { point: repair::Point::Clearing, ..run };
    assert(repair::next(r14, Event::Done) == (r15, Action::ClearRecord));
    let r16 = repair::Repair { point: repair::Point::Noting, ..run };
    assert(repair::next(r15, Event::Done) == (r16, Action::RecordEvidence));
    let r17 = repair::Repair { point: repair::Point::Stopped, ..run };
    assert(repair::next(r16, Event::Done) == (r17, Action::Stop(Outcome::Repaired)));
}

/// What is at the destination by then is set aside, not deleted, and the course is the same.
#[verifier::spinoff_prover]
pub proof fn law_destination_in_the_way_is_set_aside(run: repair::Repair)
    requires
        run.point == repair::Point::Probing,
        run.way == repair::Way::Repair,
        run.condition == Condition::NotRepaired,
    ensures
        ({
            let s0 = repair::next(run, Event::Done);
            let s1 = repair::next(s0.0, Event::Ready { occupied: true });
            let s2 = repair::next(s1.0, Event::Done);
            let s3 = repair::next(s2.0, Event::Done);
            let s4 = repair::next(s3.0, Event::Answer(true));
            let s5 = repair::next(s4.0, Event::Answer(true));
            let s6 = repair::next(s5.0, Event::Done);
            let s7 = repair::next(s6.0, Event::Done);
            let s8 = repair::next(s7.0, Event::Done);
            let s9 = repair::next(s8.0, Event::Done);
            let s10 = repair::next(s9.0, Event::Done);
            let s11 = repair::next(s10.0, Event::Seen { kind: Kind::Directory, beneath: true });
            let s12 = repair::next(s11.0, Event::Done);
            let s13 = repair::next(s12.0, Event::Done);
            let s14 = repair::next(s13.0, Event::Done);
            let s15 = repair::next(s14.0, Event::Answer(true));
            let s16 = repair::next(s15.0, Event::Done);
            let s17 = repair::next(s16.0, Event::Done);
            let s18 = repair::next(s17.0, Event::Done);
            &&& s0.1 == Action::MakeHolder
            &&& s1.1 == Action::SetDestinationAside
            &&& s2.1 == Action::CopyTree
            &&& s3.1 == Action::VerifyCopy
            &&& s4.1 == Action::RecheckSource
            &&& s5.1 == Action::WriteRecord(Stage::Verified)
            &&& s6.1 == Action::SyncCopy
            &&& s7.1 == Action::PublishCopy
            &&& s8.1 == Action::SyncHolder
            &&& s9.1 == Action::WriteRecord(Stage::Published)
            &&& s10.1 == Action::Precheck
            &&& s11.1 == Action::MoveOriginalAside
            &&& s12.1 == Action::SyncLibrary
            &&& s13.1 == Action::WriteRecord(Stage::BackedUp)
            &&& s14.1 == Action::MakeLink
            &&& s15.1 == Action::SyncLibrary
            &&& s16.1 == Action::ClearRecord
            &&& s17.1 == Action::RecordEvidence
            &&& s18.1 == Action::Stop(Outcome::Repaired)
        }),
{
    let r0 = repair::Repair { point: repair::Point::Preparing, ..run };
    assert(repair::next(run, Event::Done) == (r0, Action::MakeHolder));
    let r1 = repair::Repair { point: repair::Point::SettingAside, ..run };
    assert(repair::next(r0, Event::Ready { occupied: true }) == (r1, Action::SetDestinationAside));
    let r2 = repair::Repair { point: repair::Point::Copying, ..run };
    assert(repair::next(r1, Event::Done) == (r2, Action::CopyTree));
    let r3 = repair::Repair { point: repair::Point::Verifying, ..run };
    assert(repair::next(r2, Event::Done) == (r3, Action::VerifyCopy));
    let r4 = repair::Repair { point: repair::Point::Rechecking, ..run };
    assert(repair::next(r3, Event::Answer(true)) == (r4, Action::RecheckSource));
    let r5 = repair::Repair { point: repair::Point::RecordingVerified, ..run };
    assert(repair::next(r4, Event::Answer(true)) == (r5, Action::WriteRecord(Stage::Verified)));
    let r6 = repair::Repair { point: repair::Point::SyncingCopy, ..run };
    assert(repair::next(r5, Event::Done) == (r6, Action::SyncCopy));
    let r7 = repair::Repair { point: repair::Point::Publishing, ..run };
    assert(repair::next(r6, Event::Done) == (r7, Action::PublishCopy));
    let r8 = repair::Repair { point: repair::Point::SyncingHolder, ..run };
    assert(repair::next(r7, Event::Done) == (r8, Action::SyncHolder));
    let r9 = repair::Repair { point: repair::Point::RecordingPublished, ..run };
    assert(repair::next(r8, Event::Done) == (r9, Action::WriteRecord(Stage::Published)));
    let r10 = repair::Repair { point: repair::Point::Prechecking, ..run };
    assert(repair::next(r9, Event::Done) == (r10, Action::Precheck));
    let r11 = repair::Repair { point: repair::Point::MovingAside, ..run };
    assert(repair::next(r10, Event::Seen { kind: Kind::Directory, beneath: true }) == (r11, Action::MoveOriginalAside));
    let r12 = repair::Repair { point: repair::Point::SyncingMove, ..run };
    assert(repair::next(r11, Event::Done) == (r12, Action::SyncLibrary));
    let r13 = repair::Repair { point: repair::Point::RecordingBackedUp, ..run };
    assert(repair::next(r12, Event::Done) == (r13, Action::WriteRecord(Stage::BackedUp)));
    let r14 = repair::Repair { point: repair::Point::Linking, ..run };
    assert(repair::next(r13, Event::Done) == (r14, Action::MakeLink));
    let r15 = repair::Repair { point: repair::Point::SyncingLink, ..run };
    assert(repair::next(r14, Event::Answer(true)) == (r15, Action::SyncLibrary));
    let r16 = repair::Repair { point: repair::Point::Clearing, ..run };
    assert(repair::next(r15, Event::Done) == (r16, Action::ClearRecord));
    let r17 = repair::Repair { point: repair::Point::Noting, ..run };
    assert(repair::next(r16, Event::Done) == (r17, Action::RecordEvidence));
    let r18 = repair::Repair { point: repair::Point::Stopped, ..run };
    assert(repair::next(r17, Event::Done) == (r18, Action::Stop(Outcome::Repaired)));
}

/// A repair that nothing speaks against looks at everything, asks, and then tries out whether links can be made.
#[verifier::spinoff_prover]
pub proof fn law_repair_asks_before_it_changes_anything(
    settings: Settings,
    originals: bool,
    bytes: u64,
    free: Option<u64>,
)
    requires
        !settings.json,
        !settings.dry_run,
        !settings.assume_yes,
        has_room(free, bytes),
    ensures
        ({
            let run = repair::fresh(settings);
            let s0 = repair::next(run, Event::Begin);
            let s1 = repair::next(s0.0, Event::Done);
            let s2 = repair::next(s1.0, Event::Inspected { condition: Condition::NotRepaired, occupied: false,
                originals });
            let s3 = repair::next(s2.0, Event::System { listed: true, running: false, read_only: false });
            let s4 = repair::next(s3.0, Event::Mounts { source: Some(Capability::NeedsRepair),
                target: Some(Capability::Native), same: false });
            let s5 = repair::next(s4.0, Event::Answer(false));
            let s6 = repair::next(s5.0, Event::Inventory { escaping: false, bytes });
            let s7 = repair::next(s6.0, Event::Space(free));
            let s8 = repair::next(s7.0, Event::Plan { expected: true });
            let s9 = repair::next(s8.0, Event::Answer(true));
            &&& s0.1 == Action::Lock
            &&& s1.1 == Action::Inspect
            &&& s2.1 == Action::CheckSystem
            &&& s3.1 == Action::ReadMounts
            &&& s4.1 == Action::CompareDirectories
            &&& s5.1 == Action::TakeInventory
            &&& s6.1 == Action::MeasureSpace
            &&& s7.1 == Action::DrawUpPlan
            &&& s8.1 == Action::Confirm
            &&& s9.1 == Action::Probe
            &&& s9.0.point == repair::Point::Probing
            &&& s9.0.way == repair::Way::Repair
            &&& s9.0.condition == Condition::NotRepaired
        }),
{
    let run = repair::fresh(settings);
    let r0 = repair::Repair {
        settings,
        point: repair::Point::Locking,
        way: repair::Way::Repair,
        condition: Condition::Other,
        occupied: false,
        bytes: 0,
    };
    assert(repair::next(run, Event::Begin) == (r0, Action::Lock));
    let r1 = repair::Repair {
        settings,
        point: repair::Point::Inspecting,
        way: repair::Way::Repair,
        condition: Condition::Other,
        occupied: false,
        bytes: 0,
    };
    assert(repair::next(r0, Event::Done) == (r1, Action::Inspect));
    let r2 = repair::Repair {
        settings,
        point: repair::Point::Checking,
        way: repair::Way::Repair,
        condition: Condition::NotRepaired,
        occupied: false,
        bytes: 0,
    };
    assert(repair::next(r1, Event::Inspected { condition: Condition::NotRepaired, occupied: false, originals })
        == (r2, Action::CheckSystem));
    let r3 = repair::Repair {
        settings,
        point: repair::Point::Mounts,
        way: repair::Way::Repair,
        condition: Condition::NotRepaired,
        occupied: false,
        bytes: 0,
    };
    assert(repair::next(r2, Event::System { listed: true, running: false, read_only: false }) == (r3,
        Action::ReadMounts));
    let r4 = repair::Repair {
        settings,
        point: repair::Point::Directories,
        way: repair::Way::Repair,
        condition: Condition::NotRepaired,
        occupied: false,
        bytes: 0,
    };
    assert(repair::next(r3, Event::Mounts { source: Some(Capability::NeedsRepair), target: Some(Capability::Native),
        same: false }) == (r4, Action::CompareDirectories));
    let r5 = repair::Repair {
        settings,
        point: repair::Point::Inventory,
        way: repair::Way::Repair,
        condition: Condition::NotRepaired,
        occupied: false,
        bytes: 0,
    };
    assert(repair::next(r4, Event::Answer(false)) == (r5, Action::TakeInventory));
    let r6 = repair::Repair {
        settings,
        point: repair::Point::Space,
        way: repair::Way::Repair,
        condition: Condition::NotRepaired,
        occupied: false,
        bytes,
    };
    assert(repair::next(r5, Event::Inventory { escaping: false, bytes }) == (r6, Action::MeasureSpace));
    let r7 = repair::Repair {
        settings,
        point: repair::Point::Planning,
        way: repair::Way::Repair,
        condition: Condition::NotRepaired,
        occupied: false,
        bytes,
    };
    assert(repair::next(r6, Event::Space(free)) == (r7, Action::DrawUpPlan));
    let r8 = repair::Repair {
        settings,
        point: repair::Point::Asking,
        way: repair::Way::Repair,
        condition: Condition::NotRepaired,
        occupied: false,
        bytes,
    };
    assert(repair::next(r7, Event::Plan { expected: true }) == (r8, Action::Confirm));
    let r9 = repair::Repair {
        settings,
        point: repair::Point::Probing,
        way: repair::Way::Repair,
        condition: Condition::NotRepaired,
        occupied: false,
        bytes,
    };
    assert(repair::next(r8, Event::Answer(true)) == (r9, Action::Probe));
}

/// The same without the question, where consent was given beforehand.
#[verifier::spinoff_prover]
pub proof fn law_consent_given_beforehand_is_enough(
    settings: Settings,
    originals: bool,
    bytes: u64,
    free: Option<u64>,
)
    requires
        !settings.json,
        !settings.dry_run,
        settings.assume_yes,
        has_room(free, bytes),
    ensures
        ({
            let run = repair::fresh(settings);
            let s0 = repair::next(run, Event::Begin);
            let s1 = repair::next(s0.0, Event::Done);
            let s2 = repair::next(s1.0, Event::Inspected { condition: Condition::NotRepaired, occupied: false,
                originals });
            let s3 = repair::next(s2.0, Event::System { listed: true, running: false, read_only: false });
            let s4 = repair::next(s3.0, Event::Mounts { source: Some(Capability::NeedsRepair),
                target: Some(Capability::Native), same: false });
            let s5 = repair::next(s4.0, Event::Answer(false));
            let s6 = repair::next(s5.0, Event::Inventory { escaping: false, bytes });
            let s7 = repair::next(s6.0, Event::Space(free));
            let s8 = repair::next(s7.0, Event::Plan { expected: true });
            &&& s0.1 == Action::Lock
            &&& s1.1 == Action::Inspect
            &&& s2.1 == Action::CheckSystem
            &&& s3.1 == Action::ReadMounts
            &&& s4.1 == Action::CompareDirectories
            &&& s5.1 == Action::TakeInventory
            &&& s6.1 == Action::MeasureSpace
            &&& s7.1 == Action::DrawUpPlan
            &&& s8.1 == Action::Probe
            &&& s8.0.point == repair::Point::Probing
            &&& s8.0.way == repair::Way::Repair
            &&& s8.0.condition == Condition::NotRepaired
        }),
{
    let run = repair::fresh(settings);
    let r0 = repair::Repair {
        settings,
        point: repair::Point::Locking,
        way: repair::Way::Repair,
        condition: Condition::Other,
        occupied: false,
        bytes: 0,
    };
    assert(repair::next(run, Event::Begin) == (r0, Action::Lock));
    let r1 = repair::Repair {
        settings,
        point: repair::Point::Inspecting,
        way: repair::Way::Repair,
        condition: Condition::Other,
        occupied: false,
        bytes: 0,
    };
    assert(repair::next(r0, Event::Done) == (r1, Action::Inspect));
    let r2 = repair::Repair {
        settings,
        point: repair::Point::Checking,
        way: repair::Way::Repair,
        condition: Condition::NotRepaired,
        occupied: false,
        bytes: 0,
    };
    assert(repair::next(r1, Event::Inspected { condition: Condition::NotRepaired, occupied: false, originals })
        == (r2, Action::CheckSystem));
    let r3 = repair::Repair {
        settings,
        point: repair::Point::Mounts,
        way: repair::Way::Repair,
        condition: Condition::NotRepaired,
        occupied: false,
        bytes: 0,
    };
    assert(repair::next(r2, Event::System { listed: true, running: false, read_only: false }) == (r3,
        Action::ReadMounts));
    let r4 = repair::Repair {
        settings,
        point: repair::Point::Directories,
        way: repair::Way::Repair,
        condition: Condition::NotRepaired,
        occupied: false,
        bytes: 0,
    };
    assert(repair::next(r3, Event::Mounts { source: Some(Capability::NeedsRepair), target: Some(Capability::Native),
        same: false }) == (r4, Action::CompareDirectories));
    let r5 = repair::Repair {
        settings,
        point: repair::Point::Inventory,
        way: repair::Way::Repair,
        condition: Condition::NotRepaired,
        occupied: false,
        bytes: 0,
    };
    assert(repair::next(r4, Event::Answer(false)) == (r5, Action::TakeInventory));
    let r6 = repair::Repair {
        settings,
        point: repair::Point::Space,
        way: repair::Way::Repair,
        condition: Condition::NotRepaired,
        occupied: false,
        bytes,
    };
    assert(repair::next(r5, Event::Inventory { escaping: false, bytes }) == (r6, Action::MeasureSpace));
    let r7 = repair::Repair {
        settings,
        point: repair::Point::Planning,
        way: repair::Way::Repair,
        condition: Condition::NotRepaired,
        occupied: false,
        bytes,
    };
    assert(repair::next(r6, Event::Space(free)) == (r7, Action::DrawUpPlan));
    let r8 = repair::Repair {
        settings,
        point: repair::Point::Probing,
        way: repair::Way::Repair,
        condition: Condition::NotRepaired,
        occupied: false,
        bytes,
    };
    assert(repair::next(r7, Event::Plan { expected: true }) == (r8, Action::Probe));
}

/// A dry run looks at everything, shows what would be done, and ends.
#[verifier::spinoff_prover]
pub proof fn law_dry_run_ends_with_the_plan(
    settings: Settings,
    originals: bool,
    bytes: u64,
    free: Option<u64>,
)
    requires
        !settings.json,
        settings.dry_run,
        has_room(free, bytes),
    ensures
        ({
            let run = repair::fresh(settings);
            let s0 = repair::next(run, Event::Begin);
            let s1 = repair::next(s0.0, Event::Inspected { condition: Condition::NotRepaired, occupied: false,
                originals });
            let s2 = repair::next(s1.0, Event::System { listed: true, running: false, read_only: false });
            let s3 = repair::next(s2.0, Event::Mounts { source: Some(Capability::NeedsRepair),
                target: Some(Capability::Native), same: false });
            let s4 = repair::next(s3.0, Event::Answer(false));
            let s5 = repair::next(s4.0, Event::Inventory { escaping: false, bytes });
            let s6 = repair::next(s5.0, Event::Space(free));
            let s7 = repair::next(s6.0, Event::Plan { expected: true });
            &&& s0.1 == Action::Inspect
            &&& s1.1 == Action::CheckSystem
            &&& s2.1 == Action::ReadMounts
            &&& s3.1 == Action::CompareDirectories
            &&& s4.1 == Action::TakeInventory
            &&& s5.1 == Action::MeasureSpace
            &&& s6.1 == Action::DrawUpPlan
            &&& s7.1 == Action::Stop(Outcome::DryRun)
        }),
{
    let run = repair::fresh(settings);
    let r0 = repair::Repair {
        settings,
        point: repair::Point::Inspecting,
        way: repair::Way::Repair,
        condition: Condition::Other,
        occupied: false,
        bytes: 0,
    };
    assert(repair::next(run, Event::Begin) == (r0, Action::Inspect));
    let r1 = repair::Repair {
        settings,
        point: repair::Point::Checking,
        way: repair::Way::Repair,
        condition: Condition::NotRepaired,
        occupied: false,
        bytes: 0,
    };
    assert(repair::next(r0, Event::Inspected { condition: Condition::NotRepaired, occupied: false, originals })
        == (r1, Action::CheckSystem));
    let r2 = repair::Repair {
        settings,
        point: repair::Point::Mounts,
        way: repair::Way::Repair,
        condition: Condition::NotRepaired,
        occupied: false,
        bytes: 0,
    };
    assert(repair::next(r1, Event::System { listed: true, running: false, read_only: false }) == (r2,
        Action::ReadMounts));
    let r3 = repair::Repair {
        settings,
        point: repair::Point::Directories,
        way: repair::Way::Repair,
        condition: Condition::NotRepaired,
        occupied: false,
        bytes: 0,
    };
    assert(repair::next(r2, Event::Mounts { source: Some(Capability::NeedsRepair), target: Some(Capability::Native),
        same: false }) == (r3, Action::CompareDirectories));
    let r4 = repair::Repair {
        settings,
        point: repair::Point::Inventory,
        way: repair::Way::Repair,
        condition: Condition::NotRepaired,
        occupied: false,
        bytes: 0,
    };
    assert(repair::next(r3, Event::Answer(false)) == (r4, Action::TakeInventory));
    let r5 = repair::Repair {
        settings,
        point: repair::Point::Space,
        way: repair::Way::Repair,
        condition: Condition::NotRepaired,
        occupied: false,
        bytes,
    };
    assert(repair::next(r4, Event::Inventory { escaping: false, bytes }) == (r5, Action::MeasureSpace));
    let r6 = repair::Repair {
        settings,
        point: repair::Point::Planning,
        way: repair::Way::Repair,
        condition: Condition::NotRepaired,
        occupied: false,
        bytes,
    };
    assert(repair::next(r5, Event::Space(free)) == (r6, Action::DrawUpPlan));
    let r7 = repair::Repair {
        settings,
        point: repair::Point::Stopped,
        way: repair::Way::Repair,
        condition: Condition::NotRepaired,
        occupied: false,
        bytes,
    };
    assert(repair::next(r6, Event::Plan { expected: true }) == (r7, Action::Stop(Outcome::DryRun)));
}

/// For the window, a run ends with the plan, whatever was expected.
#[verifier::spinoff_prover]
pub proof fn law_plan_is_shown_to_the_window(
    settings: Settings,
    originals: bool,
    bytes: u64,
    free: Option<u64>,
    expected: bool,
)
    requires
        settings.json,
        settings.dry_run,
        has_room(free, bytes),
    ensures
        ({
            let run = repair::fresh(settings);
            let s0 = repair::next(run, Event::Begin);
            let s1 = repair::next(s0.0, Event::Inspected { condition: Condition::NotRepaired, occupied: false,
                originals });
            let s2 = repair::next(s1.0, Event::System { listed: true, running: false, read_only: false });
            let s3 = repair::next(s2.0, Event::Mounts { source: Some(Capability::NeedsRepair),
                target: Some(Capability::Native), same: false });
            let s4 = repair::next(s3.0, Event::Answer(false));
            let s5 = repair::next(s4.0, Event::Inventory { escaping: false, bytes });
            let s6 = repair::next(s5.0, Event::Space(free));
            let s7 = repair::next(s6.0, Event::Plan { expected });
            &&& s0.1 == Action::Inspect
            &&& s1.1 == Action::CheckSystem
            &&& s2.1 == Action::ReadMounts
            &&& s3.1 == Action::CompareDirectories
            &&& s4.1 == Action::TakeInventory
            &&& s5.1 == Action::MeasureSpace
            &&& s6.1 == Action::DrawUpPlan
            &&& s7.1 == Action::Stop(Outcome::PlanShown)
        }),
{
    let run = repair::fresh(settings);
    let r0 = repair::Repair {
        settings,
        point: repair::Point::Inspecting,
        way: repair::Way::Repair,
        condition: Condition::Other,
        occupied: false,
        bytes: 0,
    };
    assert(repair::next(run, Event::Begin) == (r0, Action::Inspect));
    let r1 = repair::Repair {
        settings,
        point: repair::Point::Checking,
        way: repair::Way::Repair,
        condition: Condition::NotRepaired,
        occupied: false,
        bytes: 0,
    };
    assert(repair::next(r0, Event::Inspected { condition: Condition::NotRepaired, occupied: false, originals })
        == (r1, Action::CheckSystem));
    let r2 = repair::Repair {
        settings,
        point: repair::Point::Mounts,
        way: repair::Way::Repair,
        condition: Condition::NotRepaired,
        occupied: false,
        bytes: 0,
    };
    assert(repair::next(r1, Event::System { listed: true, running: false, read_only: false }) == (r2,
        Action::ReadMounts));
    let r3 = repair::Repair {
        settings,
        point: repair::Point::Directories,
        way: repair::Way::Repair,
        condition: Condition::NotRepaired,
        occupied: false,
        bytes: 0,
    };
    assert(repair::next(r2, Event::Mounts { source: Some(Capability::NeedsRepair), target: Some(Capability::Native),
        same: false }) == (r3, Action::CompareDirectories));
    let r4 = repair::Repair {
        settings,
        point: repair::Point::Inventory,
        way: repair::Way::Repair,
        condition: Condition::NotRepaired,
        occupied: false,
        bytes: 0,
    };
    assert(repair::next(r3, Event::Answer(false)) == (r4, Action::TakeInventory));
    let r5 = repair::Repair {
        settings,
        point: repair::Point::Space,
        way: repair::Way::Repair,
        condition: Condition::NotRepaired,
        occupied: false,
        bytes,
    };
    assert(repair::next(r4, Event::Inventory { escaping: false, bytes }) == (r5, Action::MeasureSpace));
    let r6 = repair::Repair {
        settings,
        point: repair::Point::Planning,
        way: repair::Way::Repair,
        condition: Condition::NotRepaired,
        occupied: false,
        bytes,
    };
    assert(repair::next(r5, Event::Space(free)) == (r6, Action::DrawUpPlan));
    let r7 = repair::Repair {
        settings,
        point: repair::Point::Stopped,
        way: repair::Way::Repair,
        condition: Condition::NotRepaired,
        occupied: false,
        bytes,
    };
    assert(repair::next(r6, Event::Plan { expected }) == (r7, Action::Stop(Outcome::PlanShown)));
}

/// A library without data is prepared: an empty destination and the link.
#[verifier::spinoff_prover]
pub proof fn law_empty_library_is_prepared(
    settings: Settings,
    originals: bool,
    free: Option<u64>,
)
    requires
        !settings.json,
        !settings.dry_run,
        settings.assume_yes,
        has_room(free, 0),
    ensures
        ({
            let run = repair::fresh(settings);
            let s0 = repair::next(run, Event::Begin);
            let s1 = repair::next(s0.0, Event::Done);
            let s2 = repair::next(s1.0, Event::Inspected { condition: Condition::NoCompatdata, occupied: false,
                originals });
            let s3 = repair::next(s2.0, Event::System { listed: true, running: false, read_only: false });
            let s4 = repair::next(s3.0, Event::Mounts { source: Some(Capability::NeedsRepair),
                target: Some(Capability::Native), same: false });
            let s5 = repair::next(s4.0, Event::Answer(false));
            let s6 = repair::next(s5.0, Event::Space(free));
            let s7 = repair::next(s6.0, Event::Plan { expected: true });
            let s8 = repair::next(s7.0, Event::Done);
            let s9 = repair::next(s8.0, Event::Ready { occupied: false });
            let s10 = repair::next(s9.0, Event::Done);
            let s11 = repair::next(s10.0, Event::Done);
            let s12 = repair::next(s11.0, Event::Answer(true));
            let s13 = repair::next(s12.0, Event::Done);
            let s14 = repair::next(s13.0, Event::Done);
            let s15 = repair::next(s14.0, Event::Done);
            &&& s0.1 == Action::Lock
            &&& s1.1 == Action::Inspect
            &&& s2.1 == Action::CheckSystem
            &&& s3.1 == Action::ReadMounts
            &&& s4.1 == Action::CompareDirectories
            &&& s5.1 == Action::MeasureSpace
            &&& s6.1 == Action::DrawUpPlan
            &&& s7.1 == Action::Probe
            &&& s8.1 == Action::MakeHolder
            &&& s9.1 == Action::CreateDestination
            &&& s10.1 == Action::SyncHolder
            &&& s11.1 == Action::MakeLink
            &&& s12.1 == Action::SyncLibrary
            &&& s13.1 == Action::ClearRecord
            &&& s14.1 == Action::RecordEvidence
            &&& s15.1 == Action::Stop(Outcome::Repaired)
        }),
{
    let run = repair::fresh(settings);
    let r0 = repair::Repair {
        settings,
        point: repair::Point::Locking,
        way: repair::Way::Repair,
        condition: Condition::Other,
        occupied: false,
        bytes: 0,
    };
    assert(repair::next(run, Event::Begin) == (r0, Action::Lock));
    let r1 = repair::Repair {
        settings,
        point: repair::Point::Inspecting,
        way: repair::Way::Repair,
        condition: Condition::Other,
        occupied: false,
        bytes: 0,
    };
    assert(repair::next(r0, Event::Done) == (r1, Action::Inspect));
    let r2 = repair::Repair {
        settings,
        point: repair::Point::Checking,
        way: repair::Way::Repair,
        condition: Condition::NoCompatdata,
        occupied: false,
        bytes: 0,
    };
    assert(repair::next(r1, Event::Inspected { condition: Condition::NoCompatdata, occupied: false, originals })
        == (r2, Action::CheckSystem));
    let r3 = repair::Repair {
        settings,
        point: repair::Point::Mounts,
        way: repair::Way::Repair,
        condition: Condition::NoCompatdata,
        occupied: false,
        bytes: 0,
    };
    assert(repair::next(r2, Event::System { listed: true, running: false, read_only: false }) == (r3,
        Action::ReadMounts));
    let r4 = repair::Repair {
        settings,
        point: repair::Point::Directories,
        way: repair::Way::Repair,
        condition: Condition::NoCompatdata,
        occupied: false,
        bytes: 0,
    };
    assert(repair::next(r3, Event::Mounts { source: Some(Capability::NeedsRepair), target: Some(Capability::Native),
        same: false }) == (r4, Action::CompareDirectories));
    let r5 = repair::Repair {
        settings,
        point: repair::Point::Space,
        way: repair::Way::Repair,
        condition: Condition::NoCompatdata,
        occupied: false,
        bytes: 0,
    };
    assert(repair::next(r4, Event::Answer(false)) == (r5, Action::MeasureSpace));
    let r6 = repair::Repair {
        settings,
        point: repair::Point::Planning,
        way: repair::Way::Repair,
        condition: Condition::NoCompatdata,
        occupied: false,
        bytes: 0,
    };
    assert(repair::next(r5, Event::Space(free)) == (r6, Action::DrawUpPlan));
    let r7 = repair::Repair {
        settings,
        point: repair::Point::Probing,
        way: repair::Way::Repair,
        condition: Condition::NoCompatdata,
        occupied: false,
        bytes: 0,
    };
    assert(repair::next(r6, Event::Plan { expected: true }) == (r7, Action::Probe));
    let r8 = repair::Repair {
        settings,
        point: repair::Point::Preparing,
        way: repair::Way::Repair,
        condition: Condition::NoCompatdata,
        occupied: false,
        bytes: 0,
    };
    assert(repair::next(r7, Event::Done) == (r8, Action::MakeHolder));
    let r9 = repair::Repair {
        settings,
        point: repair::Point::Creating,
        way: repair::Way::Repair,
        condition: Condition::NoCompatdata,
        occupied: false,
        bytes: 0,
    };
    assert(repair::next(r8, Event::Ready { occupied: false }) == (r9, Action::CreateDestination));
    let r10 = repair::Repair {
        settings,
        point: repair::Point::SyncingCreated,
        way: repair::Way::Repair,
        condition: Condition::NoCompatdata,
        occupied: false,
        bytes: 0,
    };
    assert(repair::next(r9, Event::Done) == (r10, Action::SyncHolder));
    let r11 = repair::Repair {
        settings,
        point: repair::Point::Linking,
        way: repair::Way::Repair,
        condition: Condition::NoCompatdata,
        occupied: false,
        bytes: 0,
    };
    assert(repair::next(r10, Event::Done) == (r11, Action::MakeLink));
    let r12 = repair::Repair {
        settings,
        point: repair::Point::SyncingLink,
        way: repair::Way::Repair,
        condition: Condition::NoCompatdata,
        occupied: false,
        bytes: 0,
    };
    assert(repair::next(r11, Event::Answer(true)) == (r12, Action::SyncLibrary));
    let r13 = repair::Repair {
        settings,
        point: repair::Point::Clearing,
        way: repair::Way::Repair,
        condition: Condition::NoCompatdata,
        occupied: false,
        bytes: 0,
    };
    assert(repair::next(r12, Event::Done) == (r13, Action::ClearRecord));
    let r14 = repair::Repair {
        settings,
        point: repair::Point::Noting,
        way: repair::Way::Repair,
        condition: Condition::NoCompatdata,
        occupied: false,
        bytes: 0,
    };
    assert(repair::next(r13, Event::Done) == (r14, Action::RecordEvidence));
    let r15 = repair::Repair {
        settings,
        point: repair::Point::Stopped,
        way: repair::Way::Repair,
        condition: Condition::NoCompatdata,
        occupied: false,
        bytes: 0,
    };
    assert(repair::next(r14, Event::Done) == (r15, Action::Stop(Outcome::Repaired)));
}

/// What is at the destination does not stop a repair where it is the same data or the user said to replace it.
#[verifier::spinoff_prover]
pub proof fn law_leftover_does_not_stop_a_repair(
    settings: Settings,
    originals: bool,
    bytes: u64,
    free: Option<u64>,
    same: bool,
)
    requires
        !settings.json,
        !settings.dry_run,
        settings.assume_yes,
        !settings.keep_destination,
        same || settings.replace_destination,
        has_room(free, bytes),
    ensures
        ({
            let run = repair::fresh(settings);
            let s0 = repair::next(run, Event::Begin);
            let s1 = repair::next(s0.0, Event::Done);
            let s2 = repair::next(s1.0, Event::Inspected { condition: Condition::NotRepaired, occupied: true,
                originals });
            let s3 = repair::next(s2.0, Event::System { listed: true, running: false, read_only: false });
            let s4 = repair::next(s3.0, Event::Mounts { source: Some(Capability::NeedsRepair),
                target: Some(Capability::Native), same: false });
            let s5 = repair::next(s4.0, Event::Answer(false));
            let s6 = repair::next(s5.0, Event::Inventory { escaping: false, bytes });
            let s7 = repair::next(s6.0, Event::Answer(same));
            let s8 = repair::next(s7.0, Event::Space(free));
            let s9 = repair::next(s8.0, Event::Plan { expected: true });
            &&& s0.1 == Action::Lock
            &&& s1.1 == Action::Inspect
            &&& s2.1 == Action::CheckSystem
            &&& s3.1 == Action::ReadMounts
            &&& s4.1 == Action::CompareDirectories
            &&& s5.1 == Action::TakeInventory
            &&& s6.1 == Action::CompareData
            &&& s7.1 == Action::MeasureSpace
            &&& s8.1 == Action::DrawUpPlan
            &&& s9.1 == Action::Probe
            &&& s9.0.point == repair::Point::Probing
            &&& s9.0.way == repair::Way::Repair
            &&& s9.0.condition == Condition::NotRepaired
        }),
{
    let run = repair::fresh(settings);
    let r0 = repair::Repair {
        settings,
        point: repair::Point::Locking,
        way: repair::Way::Repair,
        condition: Condition::Other,
        occupied: false,
        bytes: 0,
    };
    assert(repair::next(run, Event::Begin) == (r0, Action::Lock));
    let r1 = repair::Repair {
        settings,
        point: repair::Point::Inspecting,
        way: repair::Way::Repair,
        condition: Condition::Other,
        occupied: false,
        bytes: 0,
    };
    assert(repair::next(r0, Event::Done) == (r1, Action::Inspect));
    let r2 = repair::Repair {
        settings,
        point: repair::Point::Checking,
        way: repair::Way::Repair,
        condition: Condition::NotRepaired,
        occupied: true,
        bytes: 0,
    };
    assert(repair::next(r1, Event::Inspected { condition: Condition::NotRepaired, occupied: true, originals }) == (r2,
        Action::CheckSystem));
    let r3 = repair::Repair {
        settings,
        point: repair::Point::Mounts,
        way: repair::Way::Repair,
        condition: Condition::NotRepaired,
        occupied: true,
        bytes: 0,
    };
    assert(repair::next(r2, Event::System { listed: true, running: false, read_only: false }) == (r3,
        Action::ReadMounts));
    let r4 = repair::Repair {
        settings,
        point: repair::Point::Directories,
        way: repair::Way::Repair,
        condition: Condition::NotRepaired,
        occupied: true,
        bytes: 0,
    };
    assert(repair::next(r3, Event::Mounts { source: Some(Capability::NeedsRepair), target: Some(Capability::Native),
        same: false }) == (r4, Action::CompareDirectories));
    let r5 = repair::Repair {
        settings,
        point: repair::Point::Inventory,
        way: repair::Way::Repair,
        condition: Condition::NotRepaired,
        occupied: true,
        bytes: 0,
    };
    assert(repair::next(r4, Event::Answer(false)) == (r5, Action::TakeInventory));
    let r6 = repair::Repair {
        settings,
        point: repair::Point::Comparing,
        way: repair::Way::Repair,
        condition: Condition::NotRepaired,
        occupied: true,
        bytes,
    };
    assert(repair::next(r5, Event::Inventory { escaping: false, bytes }) == (r6, Action::CompareData));
    let r7 = repair::Repair {
        settings,
        point: repair::Point::Space,
        way: repair::Way::Repair,
        condition: Condition::NotRepaired,
        occupied: true,
        bytes,
    };
    assert(repair::next(r6, Event::Answer(same)) == (r7, Action::MeasureSpace));
    let r8 = repair::Repair {
        settings,
        point: repair::Point::Planning,
        way: repair::Way::Repair,
        condition: Condition::NotRepaired,
        occupied: true,
        bytes,
    };
    assert(repair::next(r7, Event::Space(free)) == (r8, Action::DrawUpPlan));
    let r9 = repair::Repair {
        settings,
        point: repair::Point::Probing,
        way: repair::Way::Repair,
        condition: Condition::NotRepaired,
        occupied: true,
        bytes,
    };
    assert(repair::next(r8, Event::Plan { expected: true }) == (r9, Action::Probe));
}

/// Where the user said to keep what is at the destination, nothing is copied: what the library has is set aside, and the
/// link is made. What was established has to be established again.
#[verifier::spinoff_prover]
pub proof fn law_destination_is_kept_on_request(
    settings: Settings,
    originals: bool,
    bytes: u64,
    same: bool,
    beneath: bool,
)
    requires
        !settings.json,
        !settings.dry_run,
        settings.assume_yes,
        settings.keep_destination,
    ensures
        ({
            let run = repair::fresh(settings);
            let s0 = repair::next(run, Event::Begin);
            let s1 = repair::next(s0.0, Event::Done);
            let s2 = repair::next(s1.0, Event::Inspected { condition: Condition::NotRepaired, occupied: true,
                originals });
            let s3 = repair::next(s2.0, Event::System { listed: true, running: false, read_only: false });
            let s4 = repair::next(s3.0, Event::Mounts { source: Some(Capability::NeedsRepair),
                target: Some(Capability::Native), same: false });
            let s5 = repair::next(s4.0, Event::Answer(false));
            let s6 = repair::next(s5.0, Event::Inventory { escaping: false, bytes });
            let s7 = repair::next(s6.0, Event::Answer(same));
            let s8 = repair::next(s7.0, Event::Seen { kind: Kind::Directory, beneath });
            let s9 = repair::next(s8.0, Event::Done);
            let s10 = repair::next(s9.0, Event::Answer(true));
            let s11 = repair::next(s10.0, Event::Done);
            let s12 = repair::next(s11.0, Event::Done);
            &&& s0.1 == Action::Lock
            &&& s1.1 == Action::Inspect
            &&& s2.1 == Action::CheckSystem
            &&& s3.1 == Action::ReadMounts
            &&& s4.1 == Action::CompareDirectories
            &&& s5.1 == Action::TakeInventory
            &&& s6.1 == Action::CompareData
            &&& s7.1 == Action::LookAtCompatdata
            &&& s8.1 == Action::MoveOriginalAside
            &&& s9.1 == Action::MakeLink
            &&& s10.1 == Action::SyncLibrary
            &&& s11.1 == Action::OpenQuestions
            &&& s12.1 == Action::Stop(Outcome::Kept)
        }),
{
    let run = repair::fresh(settings);
    let r0 = repair::Repair {
        settings,
        point: repair::Point::Locking,
        way: repair::Way::Repair,
        condition: Condition::Other,
        occupied: false,
        bytes: 0,
    };
    assert(repair::next(run, Event::Begin) == (r0, Action::Lock));
    let r1 = repair::Repair {
        settings,
        point: repair::Point::Inspecting,
        way: repair::Way::Repair,
        condition: Condition::Other,
        occupied: false,
        bytes: 0,
    };
    assert(repair::next(r0, Event::Done) == (r1, Action::Inspect));
    let r2 = repair::Repair {
        settings,
        point: repair::Point::Checking,
        way: repair::Way::Repair,
        condition: Condition::NotRepaired,
        occupied: true,
        bytes: 0,
    };
    assert(repair::next(r1, Event::Inspected { condition: Condition::NotRepaired, occupied: true, originals }) == (r2,
        Action::CheckSystem));
    let r3 = repair::Repair {
        settings,
        point: repair::Point::Mounts,
        way: repair::Way::Repair,
        condition: Condition::NotRepaired,
        occupied: true,
        bytes: 0,
    };
    assert(repair::next(r2, Event::System { listed: true, running: false, read_only: false }) == (r3,
        Action::ReadMounts));
    let r4 = repair::Repair {
        settings,
        point: repair::Point::Directories,
        way: repair::Way::Repair,
        condition: Condition::NotRepaired,
        occupied: true,
        bytes: 0,
    };
    assert(repair::next(r3, Event::Mounts { source: Some(Capability::NeedsRepair), target: Some(Capability::Native),
        same: false }) == (r4, Action::CompareDirectories));
    let r5 = repair::Repair {
        settings,
        point: repair::Point::Inventory,
        way: repair::Way::Repair,
        condition: Condition::NotRepaired,
        occupied: true,
        bytes: 0,
    };
    assert(repair::next(r4, Event::Answer(false)) == (r5, Action::TakeInventory));
    let r6 = repair::Repair {
        settings,
        point: repair::Point::Comparing,
        way: repair::Way::Repair,
        condition: Condition::NotRepaired,
        occupied: true,
        bytes,
    };
    assert(repair::next(r5, Event::Inventory { escaping: false, bytes }) == (r6, Action::CompareData));
    let r7 = repair::Repair {
        settings,
        point: repair::Point::KeepLooking,
        way: repair::Way::Keep,
        condition: Condition::NotRepaired,
        occupied: true,
        bytes,
    };
    assert(repair::next(r6, Event::Answer(same)) == (r7, Action::LookAtCompatdata));
    let r8 = repair::Repair {
        settings,
        point: repair::Point::KeepMoving,
        way: repair::Way::Keep,
        condition: Condition::NotRepaired,
        occupied: true,
        bytes,
    };
    assert(repair::next(r7, Event::Seen { kind: Kind::Directory, beneath }) == (r8, Action::MoveOriginalAside));
    let r9 = repair::Repair {
        settings,
        point: repair::Point::Linking,
        way: repair::Way::Keep,
        condition: Condition::NotRepaired,
        occupied: true,
        bytes,
    };
    assert(repair::next(r8, Event::Done) == (r9, Action::MakeLink));
    let r10 = repair::Repair {
        settings,
        point: repair::Point::SyncingLink,
        way: repair::Way::Keep,
        condition: Condition::NotRepaired,
        occupied: true,
        bytes,
    };
    assert(repair::next(r9, Event::Answer(true)) == (r10, Action::SyncLibrary));
    let r11 = repair::Repair {
        settings,
        point: repair::Point::Noting,
        way: repair::Way::Keep,
        condition: Condition::NotRepaired,
        occupied: true,
        bytes,
    };
    assert(repair::next(r10, Event::Done) == (r11, Action::OpenQuestions));
    let r12 = repair::Repair {
        settings,
        point: repair::Point::Stopped,
        way: repair::Way::Keep,
        condition: Condition::NotRepaired,
        occupied: true,
        bytes,
    };
    assert(repair::next(r11, Event::Done) == (r12, Action::Stop(Outcome::Kept)));
}

/// An interrupted repair whose copy has the digest that was recorded is finished with the link.
#[verifier::spinoff_prover]
pub proof fn law_recorded_copy_finishes_the_repair(
    settings: Settings,
    occupied: bool,
    originals: bool,
)
    requires
        !settings.dry_run,
        settings.assume_yes,
    ensures
        ({
            let run = repair::fresh(settings);
            let s0 = repair::next(run, Event::Begin);
            let s1 = repair::next(s0.0, Event::Done);
            let s2 = repair::next(s1.0, Event::Inspected { condition: Condition::Interrupted, occupied, originals });
            let s3 = repair::next(s2.0, Event::System { listed: true, running: false, read_only: false });
            let s4 = repair::next(s3.0, Event::Answer(true));
            let s5 = repair::next(s4.0, Event::Record { names_destination: true });
            let s6 = repair::next(s5.0, Event::Answer(true));
            let s7 = repair::next(s6.0, Event::Answer(true));
            let s8 = repair::next(s7.0, Event::Done);
            let s9 = repair::next(s8.0, Event::Done);
            let s10 = repair::next(s9.0, Event::Done);
            &&& s0.1 == Action::Lock
            &&& s1.1 == Action::Inspect
            &&& s2.1 == Action::CheckSystem
            &&& s3.1 == Action::LookForCopy
            &&& s4.1 == Action::LoadRecord
            &&& s5.1 == Action::DigestCopy
            &&& s6.1 == Action::MakeLink
            &&& s7.1 == Action::SyncLibrary
            &&& s8.1 == Action::ClearRecord
            &&& s9.1 == Action::RecordEvidence
            &&& s10.1 == Action::Stop(Outcome::Recovered)
        }),
{
    let run = repair::fresh(settings);
    let r0 = repair::Repair {
        settings,
        point: repair::Point::Locking,
        way: repair::Way::Repair,
        condition: Condition::Other,
        occupied: false,
        bytes: 0,
    };
    assert(repair::next(run, Event::Begin) == (r0, Action::Lock));
    let r1 = repair::Repair {
        settings,
        point: repair::Point::Inspecting,
        way: repair::Way::Repair,
        condition: Condition::Other,
        occupied: false,
        bytes: 0,
    };
    assert(repair::next(r0, Event::Done) == (r1, Action::Inspect));
    let r2 = repair::Repair {
        settings,
        point: repair::Point::Checking,
        way: repair::Way::Repair,
        condition: Condition::Interrupted,
        occupied,
        bytes: 0,
    };
    assert(repair::next(r1, Event::Inspected { condition: Condition::Interrupted, occupied, originals }) == (r2,
        Action::CheckSystem));
    let r3 = repair::Repair {
        settings,
        point: repair::Point::FindingCopy,
        way: repair::Way::Recovery,
        condition: Condition::Interrupted,
        occupied,
        bytes: 0,
    };
    assert(repair::next(r2, Event::System { listed: true, running: false, read_only: false }) == (r3,
        Action::LookForCopy));
    let r4 = repair::Repair {
        settings,
        point: repair::Point::LoadingRecord,
        way: repair::Way::Recovery,
        condition: Condition::Interrupted,
        occupied,
        bytes: 0,
    };
    assert(repair::next(r3, Event::Answer(true)) == (r4, Action::LoadRecord));
    let r5 = repair::Repair {
        settings,
        point: repair::Point::Digesting,
        way: repair::Way::Recovery,
        condition: Condition::Interrupted,
        occupied,
        bytes: 0,
    };
    assert(repair::next(r4, Event::Record { names_destination: true }) == (r5, Action::DigestCopy));
    let r6 = repair::Repair {
        settings,
        point: repair::Point::Linking,
        way: repair::Way::Recovery,
        condition: Condition::Interrupted,
        occupied,
        bytes: 0,
    };
    assert(repair::next(r5, Event::Answer(true)) == (r6, Action::MakeLink));
    let r7 = repair::Repair {
        settings,
        point: repair::Point::SyncingLink,
        way: repair::Way::Recovery,
        condition: Condition::Interrupted,
        occupied,
        bytes: 0,
    };
    assert(repair::next(r6, Event::Answer(true)) == (r7, Action::SyncLibrary));
    let r8 = repair::Repair {
        settings,
        point: repair::Point::Clearing,
        way: repair::Way::Recovery,
        condition: Condition::Interrupted,
        occupied,
        bytes: 0,
    };
    assert(repair::next(r7, Event::Done) == (r8, Action::ClearRecord));
    let r9 = repair::Repair {
        settings,
        point: repair::Point::Noting,
        way: repair::Way::Recovery,
        condition: Condition::Interrupted,
        occupied,
        bytes: 0,
    };
    assert(repair::next(r8, Event::Done) == (r9, Action::RecordEvidence));
    let r10 = repair::Repair {
        settings,
        point: repair::Point::Stopped,
        way: repair::Way::Recovery,
        condition: Condition::Interrupted,
        occupied,
        bytes: 0,
    };
    assert(repair::next(r9, Event::Done) == (r10, Action::Stop(Outcome::Recovered)));
}

/// An interrupted repair without a record is finished where the copy matches the original.
#[verifier::spinoff_prover]
pub proof fn law_copy_like_the_original_finishes_the_repair(
    settings: Settings,
    occupied: bool,
    originals: bool,
)
    requires
        !settings.dry_run,
        settings.assume_yes,
    ensures
        ({
            let run = repair::fresh(settings);
            let s0 = repair::next(run, Event::Begin);
            let s1 = repair::next(s0.0, Event::Done);
            let s2 = repair::next(s1.0, Event::Inspected { condition: Condition::Interrupted, occupied, originals });
            let s3 = repair::next(s2.0, Event::System { listed: true, running: false, read_only: false });
            let s4 = repair::next(s3.0, Event::Answer(true));
            let s5 = repair::next(s4.0, Event::Record { names_destination: false });
            let s6 = repair::next(s5.0, Event::Answer(true));
            let s7 = repair::next(s6.0, Event::Answer(true));
            let s8 = repair::next(s7.0, Event::Answer(true));
            let s9 = repair::next(s8.0, Event::Done);
            let s10 = repair::next(s9.0, Event::Done);
            let s11 = repair::next(s10.0, Event::Done);
            &&& s0.1 == Action::Lock
            &&& s1.1 == Action::Inspect
            &&& s2.1 == Action::CheckSystem
            &&& s3.1 == Action::LookForCopy
            &&& s4.1 == Action::LoadRecord
            &&& s5.1 == Action::LookForBackup
            &&& s6.1 == Action::CompareBackup
            &&& s7.1 == Action::MakeLink
            &&& s8.1 == Action::SyncLibrary
            &&& s9.1 == Action::ClearRecord
            &&& s10.1 == Action::RecordEvidence
            &&& s11.1 == Action::Stop(Outcome::Recovered)
        }),
{
    let run = repair::fresh(settings);
    let r0 = repair::Repair {
        settings,
        point: repair::Point::Locking,
        way: repair::Way::Repair,
        condition: Condition::Other,
        occupied: false,
        bytes: 0,
    };
    assert(repair::next(run, Event::Begin) == (r0, Action::Lock));
    let r1 = repair::Repair {
        settings,
        point: repair::Point::Inspecting,
        way: repair::Way::Repair,
        condition: Condition::Other,
        occupied: false,
        bytes: 0,
    };
    assert(repair::next(r0, Event::Done) == (r1, Action::Inspect));
    let r2 = repair::Repair {
        settings,
        point: repair::Point::Checking,
        way: repair::Way::Repair,
        condition: Condition::Interrupted,
        occupied,
        bytes: 0,
    };
    assert(repair::next(r1, Event::Inspected { condition: Condition::Interrupted, occupied, originals }) == (r2,
        Action::CheckSystem));
    let r3 = repair::Repair {
        settings,
        point: repair::Point::FindingCopy,
        way: repair::Way::Recovery,
        condition: Condition::Interrupted,
        occupied,
        bytes: 0,
    };
    assert(repair::next(r2, Event::System { listed: true, running: false, read_only: false }) == (r3,
        Action::LookForCopy));
    let r4 = repair::Repair {
        settings,
        point: repair::Point::LoadingRecord,
        way: repair::Way::Recovery,
        condition: Condition::Interrupted,
        occupied,
        bytes: 0,
    };
    assert(repair::next(r3, Event::Answer(true)) == (r4, Action::LoadRecord));
    let r5 = repair::Repair {
        settings,
        point: repair::Point::FindingBackup,
        way: repair::Way::Recovery,
        condition: Condition::Interrupted,
        occupied,
        bytes: 0,
    };
    assert(repair::next(r4, Event::Record { names_destination: false }) == (r5, Action::LookForBackup));
    let r6 = repair::Repair {
        settings,
        point: repair::Point::ComparingBackup,
        way: repair::Way::Recovery,
        condition: Condition::Interrupted,
        occupied,
        bytes: 0,
    };
    assert(repair::next(r5, Event::Answer(true)) == (r6, Action::CompareBackup));
    let r7 = repair::Repair {
        settings,
        point: repair::Point::Linking,
        way: repair::Way::Recovery,
        condition: Condition::Interrupted,
        occupied,
        bytes: 0,
    };
    assert(repair::next(r6, Event::Answer(true)) == (r7, Action::MakeLink));
    let r8 = repair::Repair {
        settings,
        point: repair::Point::SyncingLink,
        way: repair::Way::Recovery,
        condition: Condition::Interrupted,
        occupied,
        bytes: 0,
    };
    assert(repair::next(r7, Event::Answer(true)) == (r8, Action::SyncLibrary));
    let r9 = repair::Repair {
        settings,
        point: repair::Point::Clearing,
        way: repair::Way::Recovery,
        condition: Condition::Interrupted,
        occupied,
        bytes: 0,
    };
    assert(repair::next(r8, Event::Done) == (r9, Action::ClearRecord));
    let r10 = repair::Repair {
        settings,
        point: repair::Point::Noting,
        way: repair::Way::Recovery,
        condition: Condition::Interrupted,
        occupied,
        bytes: 0,
    };
    assert(repair::next(r9, Event::Done) == (r10, Action::RecordEvidence));
    let r11 = repair::Repair {
        settings,
        point: repair::Point::Stopped,
        way: repair::Way::Recovery,
        condition: Condition::Interrupted,
        occupied,
        bytes: 0,
    };
    assert(repair::next(r10, Event::Done) == (r11, Action::Stop(Outcome::Recovered)));
}

/// An undo asks, copies the data in use back, verifies the copy and looks at its source again, and only then removes the
/// link and puts the data in its place.
#[verifier::spinoff_prover]
pub proof fn law_undo_takes_its_course(
    settings: Settings,
    occupied: bool,
    originals: bool,
    bytes: u64,
    free: Option<u64>,
    beneath: bool,
)
    requires
        !settings.dry_run,
        !settings.assume_yes,
        free is None || free->0 >= bytes,
    ensures
        ({
            let run = undo::fresh(settings);
            let s0 = undo::next(run, Event::Begin);
            let s1 = undo::next(s0.0, Event::Done);
            let s2 = undo::next(s1.0, Event::Inspected { condition: Condition::Repaired, occupied, originals });
            let s3 = undo::next(s2.0, Event::System { listed: true, running: false, read_only: false });
            let s4 = undo::next(s3.0, Event::Inventory { escaping: false, bytes });
            let s5 = undo::next(s4.0, Event::Space(free));
            let s6 = undo::next(s5.0, Event::Answer(true));
            let s7 = undo::next(s6.0, Event::Done);
            let s8 = undo::next(s7.0, Event::Answer(true));
            let s9 = undo::next(s8.0, Event::Answer(true));
            let s10 = undo::next(s9.0, Event::Seen { kind: Kind::Symlink, beneath });
            let s11 = undo::next(s10.0, Event::Done);
            let s12 = undo::next(s11.0, Event::Done);
            let s13 = undo::next(s12.0, Event::Done);
            let s14 = undo::next(s13.0, Event::Done);
            &&& s0.1 == Action::Lock
            &&& s1.1 == Action::Inspect
            &&& s2.1 == Action::CheckSystem
            &&& s3.1 == Action::TakeInventory
            &&& s4.1 == Action::MeasureSpace
            &&& s5.1 == Action::Confirm
            &&& s6.1 == Action::CopyBack
            &&& s7.1 == Action::VerifyCopy
            &&& s8.1 == Action::RecheckSource
            &&& s9.1 == Action::LookAtCompatdata
            &&& s10.1 == Action::RemoveLink
            &&& s11.1 == Action::PutBack
            &&& s12.1 == Action::SyncLibrary
            &&& s13.1 == Action::OpenQuestions
            &&& s14.1 == Action::Stop(Outcome::Undone)
        }),
{
    let run = undo::fresh(settings);
    let s0 = undo::next(run, Event::Begin);
    assert(s0.1 == Action::Lock);
    let s1 = undo::next(s0.0, Event::Done);
    assert(s1.1 == Action::Inspect);
    let s2 = undo::next(s1.0, Event::Inspected { condition: Condition::Repaired, occupied, originals });
    assert(s2.1 == Action::CheckSystem);
    let s3 = undo::next(s2.0, Event::System { listed: true, running: false, read_only: false });
    assert(s3.1 == Action::TakeInventory);
    let s4 = undo::next(s3.0, Event::Inventory { escaping: false, bytes });
    assert(s4.1 == Action::MeasureSpace);
    let s5 = undo::next(s4.0, Event::Space(free));
    assert(s5.1 == Action::Confirm);
    let s6 = undo::next(s5.0, Event::Answer(true));
    assert(s6.1 == Action::CopyBack);
    let s7 = undo::next(s6.0, Event::Done);
    assert(s7.1 == Action::VerifyCopy);
    let s8 = undo::next(s7.0, Event::Answer(true));
    assert(s8.1 == Action::RecheckSource);
    let s9 = undo::next(s8.0, Event::Answer(true));
    assert(s9.1 == Action::LookAtCompatdata);
    let s10 = undo::next(s9.0, Event::Seen { kind: Kind::Symlink, beneath });
    assert(s10.1 == Action::RemoveLink);
    let s11 = undo::next(s10.0, Event::Done);
    assert(s11.1 == Action::PutBack);
    let s12 = undo::next(s11.0, Event::Done);
    assert(s12.1 == Action::SyncLibrary);
    let s13 = undo::next(s12.0, Event::Done);
    assert(s13.1 == Action::OpenQuestions);
    let s14 = undo::next(s13.0, Event::Done);
    assert(s14.1 == Action::Stop(Outcome::Undone));
}

/// An undo for which consent was given beforehand takes the same course without the question.
#[verifier::spinoff_prover]
pub proof fn law_undo_with_consent_given_beforehand(
    settings: Settings,
    occupied: bool,
    originals: bool,
    bytes: u64,
    free: Option<u64>,
    beneath: bool,
)
    requires
        !settings.dry_run,
        settings.assume_yes,
        free is None || free->0 >= bytes,
    ensures
        ({
            let run = undo::fresh(settings);
            let s0 = undo::next(run, Event::Begin);
            let s1 = undo::next(s0.0, Event::Done);
            let s2 = undo::next(s1.0, Event::Inspected { condition: Condition::Repaired, occupied, originals });
            let s3 = undo::next(s2.0, Event::System { listed: true, running: false, read_only: false });
            let s4 = undo::next(s3.0, Event::Inventory { escaping: false, bytes });
            let s5 = undo::next(s4.0, Event::Space(free));
            let s6 = undo::next(s5.0, Event::Done);
            let s7 = undo::next(s6.0, Event::Answer(true));
            let s8 = undo::next(s7.0, Event::Answer(true));
            let s9 = undo::next(s8.0, Event::Seen { kind: Kind::Symlink, beneath });
            let s10 = undo::next(s9.0, Event::Done);
            let s11 = undo::next(s10.0, Event::Done);
            let s12 = undo::next(s11.0, Event::Done);
            let s13 = undo::next(s12.0, Event::Done);
            &&& s0.1 == Action::Lock
            &&& s1.1 == Action::Inspect
            &&& s2.1 == Action::CheckSystem
            &&& s3.1 == Action::TakeInventory
            &&& s4.1 == Action::MeasureSpace
            &&& s5.1 == Action::CopyBack
            &&& s6.1 == Action::VerifyCopy
            &&& s7.1 == Action::RecheckSource
            &&& s8.1 == Action::LookAtCompatdata
            &&& s9.1 == Action::RemoveLink
            &&& s10.1 == Action::PutBack
            &&& s11.1 == Action::SyncLibrary
            &&& s12.1 == Action::OpenQuestions
            &&& s13.1 == Action::Stop(Outcome::Undone)
        }),
{
    let run = undo::fresh(settings);
    let s0 = undo::next(run, Event::Begin);
    assert(s0.1 == Action::Lock);
    let s1 = undo::next(s0.0, Event::Done);
    assert(s1.1 == Action::Inspect);
    let s2 = undo::next(s1.0, Event::Inspected { condition: Condition::Repaired, occupied, originals });
    assert(s2.1 == Action::CheckSystem);
    let s3 = undo::next(s2.0, Event::System { listed: true, running: false, read_only: false });
    assert(s3.1 == Action::TakeInventory);
    let s4 = undo::next(s3.0, Event::Inventory { escaping: false, bytes });
    assert(s4.1 == Action::MeasureSpace);
    let s5 = undo::next(s4.0, Event::Space(free));
    assert(s5.1 == Action::CopyBack);
    let s6 = undo::next(s5.0, Event::Done);
    assert(s6.1 == Action::VerifyCopy);
    let s7 = undo::next(s6.0, Event::Answer(true));
    assert(s7.1 == Action::RecheckSource);
    let s8 = undo::next(s7.0, Event::Answer(true));
    assert(s8.1 == Action::LookAtCompatdata);
    let s9 = undo::next(s8.0, Event::Seen { kind: Kind::Symlink, beneath });
    assert(s9.1 == Action::RemoveLink);
    let s10 = undo::next(s9.0, Event::Done);
    assert(s10.1 == Action::PutBack);
    let s11 = undo::next(s10.0, Event::Done);
    assert(s11.1 == Action::SyncLibrary);
    let s12 = undo::next(s11.0, Event::Done);
    assert(s12.1 == Action::OpenQuestions);
    let s13 = undo::next(s12.0, Event::Done);
    assert(s13.1 == Action::Stop(Outcome::Undone));
}

/// A dry run of an undo ends before the copy.
#[verifier::spinoff_prover]
pub proof fn law_dry_undo_ends_before_the_copy(
    settings: Settings,
    occupied: bool,
    originals: bool,
    bytes: u64,
    free: Option<u64>,
)
    requires
        settings.dry_run,
        free is None || free->0 >= bytes,
    ensures
        ({
            let run = undo::fresh(settings);
            let s0 = undo::next(run, Event::Begin);
            let s1 = undo::next(s0.0, Event::Inspected { condition: Condition::Repaired, occupied, originals });
            let s2 = undo::next(s1.0, Event::System { listed: true, running: false, read_only: false });
            let s3 = undo::next(s2.0, Event::Inventory { escaping: false, bytes });
            let s4 = undo::next(s3.0, Event::Space(free));
            &&& s0.1 == Action::Inspect
            &&& s1.1 == Action::CheckSystem
            &&& s2.1 == Action::TakeInventory
            &&& s3.1 == Action::MeasureSpace
            &&& s4.1 == Action::Stop(Outcome::DryRun)
        }),
{
    let run = undo::fresh(settings);
    let s0 = undo::next(run, Event::Begin);
    assert(s0.1 == Action::Inspect);
    let s1 = undo::next(s0.0, Event::Inspected { condition: Condition::Repaired, occupied, originals });
    assert(s1.1 == Action::CheckSystem);
    let s2 = undo::next(s1.0, Event::System { listed: true, running: false, read_only: false });
    assert(s2.1 == Action::TakeInventory);
    let s3 = undo::next(s2.0, Event::Inventory { escaping: false, bytes });
    assert(s3.1 == Action::MeasureSpace);
    let s4 = undo::next(s3.0, Event::Space(free));
    assert(s4.1 == Action::Stop(Outcome::DryRun));
}

/// Originals of which everything is carried are deleted once it is recorded that a game starts and that a save loads, and
/// the user agrees.
#[verifier::spinoff_prover]
pub proof fn law_needless_originals_are_deleted(
    settings: Settings,
    occupied: bool,
)
    requires
        !settings.dry_run,
        !settings.assume_yes,
    ensures
        ({
            let run = backup::fresh(settings);
            let s0 = backup::next(run, Event::Begin);
            let s1 = backup::next(s0.0, Event::Done);
            let s2 = backup::next(s1.0, Event::Inspected { condition: Condition::Repaired, occupied, originals: true });
            let s3 = backup::next(s2.0, Event::System { listed: true, running: false, read_only: false });
            let s4 = backup::next(s3.0, Event::Evidence { launch: Result_::Worked, save: Result_::Worked });
            let s5 = backup::next(s4.0, Event::Answer(true));
            let s6 = backup::next(s5.0, Event::Answer(true));
            let s7 = backup::next(s6.0, Event::Done);
            let s8 = backup::next(s7.0, Event::Done);
            &&& s0.1 == Action::Lock
            &&& s1.1 == Action::Inspect
            &&& s2.1 == Action::CheckSystem
            &&& s3.1 == Action::LoadEvidence
            &&& s4.1 == Action::CompareOriginals
            &&& s5.1 == Action::Confirm
            &&& s6.1 == Action::DeleteOriginals
            &&& s7.1 == Action::SyncLibrary
            &&& s8.1 == Action::Stop(Outcome::Deleted)
        }),
{
    let run = backup::fresh(settings);
    let s0 = backup::next(run, Event::Begin);
    assert(s0.1 == Action::Lock);
    let s1 = backup::next(s0.0, Event::Done);
    assert(s1.1 == Action::Inspect);
    let s2 = backup::next(s1.0, Event::Inspected { condition: Condition::Repaired, occupied, originals: true });
    assert(s2.1 == Action::CheckSystem);
    let s3 = backup::next(s2.0, Event::System { listed: true, running: false, read_only: false });
    assert(s3.1 == Action::LoadEvidence);
    let s4 = backup::next(s3.0, Event::Evidence { launch: Result_::Worked, save: Result_::Worked });
    assert(s4.1 == Action::CompareOriginals);
    let s5 = backup::next(s4.0, Event::Answer(true));
    assert(s5.1 == Action::Confirm);
    let s6 = backup::next(s5.0, Event::Answer(true));
    assert(s6.1 == Action::DeleteOriginals);
    let s7 = backup::next(s6.0, Event::Done);
    assert(s7.1 == Action::SyncLibrary);
    let s8 = backup::next(s7.0, Event::Done);
    assert(s8.1 == Action::Stop(Outcome::Deleted));
}

/// The same without the question, where consent was given beforehand.
#[verifier::spinoff_prover]
pub proof fn law_needless_originals_are_deleted_with_consent(
    settings: Settings,
    occupied: bool,
)
    requires
        !settings.dry_run,
        settings.assume_yes,
    ensures
        ({
            let run = backup::fresh(settings);
            let s0 = backup::next(run, Event::Begin);
            let s1 = backup::next(s0.0, Event::Done);
            let s2 = backup::next(s1.0, Event::Inspected { condition: Condition::Repaired, occupied, originals: true });
            let s3 = backup::next(s2.0, Event::System { listed: true, running: false, read_only: false });
            let s4 = backup::next(s3.0, Event::Evidence { launch: Result_::Worked, save: Result_::Worked });
            let s5 = backup::next(s4.0, Event::Answer(true));
            let s6 = backup::next(s5.0, Event::Done);
            let s7 = backup::next(s6.0, Event::Done);
            &&& s0.1 == Action::Lock
            &&& s1.1 == Action::Inspect
            &&& s2.1 == Action::CheckSystem
            &&& s3.1 == Action::LoadEvidence
            &&& s4.1 == Action::CompareOriginals
            &&& s5.1 == Action::DeleteOriginals
            &&& s6.1 == Action::SyncLibrary
            &&& s7.1 == Action::Stop(Outcome::Deleted)
        }),
{
    let run = backup::fresh(settings);
    let s0 = backup::next(run, Event::Begin);
    assert(s0.1 == Action::Lock);
    let s1 = backup::next(s0.0, Event::Done);
    assert(s1.1 == Action::Inspect);
    let s2 = backup::next(s1.0, Event::Inspected { condition: Condition::Repaired, occupied, originals: true });
    assert(s2.1 == Action::CheckSystem);
    let s3 = backup::next(s2.0, Event::System { listed: true, running: false, read_only: false });
    assert(s3.1 == Action::LoadEvidence);
    let s4 = backup::next(s3.0, Event::Evidence { launch: Result_::Worked, save: Result_::Worked });
    assert(s4.1 == Action::CompareOriginals);
    let s5 = backup::next(s4.0, Event::Answer(true));
    assert(s5.1 == Action::DeleteOriginals);
    let s6 = backup::next(s5.0, Event::Done);
    assert(s6.1 == Action::SyncLibrary);
    let s7 = backup::next(s6.0, Event::Done);
    assert(s7.1 == Action::Stop(Outcome::Deleted));
}

/// A dry run ends before anything is deleted.
#[verifier::spinoff_prover]
pub proof fn law_dry_disposal_ends_before_deleting(
    settings: Settings,
    occupied: bool,
)
    requires
        settings.dry_run,
    ensures
        ({
            let run = backup::fresh(settings);
            let s0 = backup::next(run, Event::Begin);
            let s1 = backup::next(s0.0, Event::Inspected { condition: Condition::Repaired, occupied, originals: true });
            let s2 = backup::next(s1.0, Event::System { listed: true, running: false, read_only: false });
            let s3 = backup::next(s2.0, Event::Evidence { launch: Result_::Worked, save: Result_::Worked });
            let s4 = backup::next(s3.0, Event::Answer(true));
            &&& s0.1 == Action::Inspect
            &&& s1.1 == Action::CheckSystem
            &&& s2.1 == Action::LoadEvidence
            &&& s3.1 == Action::CompareOriginals
            &&& s4.1 == Action::Stop(Outcome::DryRun)
        }),
{
    let run = backup::fresh(settings);
    let s0 = backup::next(run, Event::Begin);
    assert(s0.1 == Action::Inspect);
    let s1 = backup::next(s0.0, Event::Inspected { condition: Condition::Repaired, occupied, originals: true });
    assert(s1.1 == Action::CheckSystem);
    let s2 = backup::next(s1.0, Event::System { listed: true, running: false, read_only: false });
    assert(s2.1 == Action::LoadEvidence);
    let s3 = backup::next(s2.0, Event::Evidence { launch: Result_::Worked, save: Result_::Worked });
    assert(s3.1 == Action::CompareOriginals);
    let s4 = backup::next(s3.0, Event::Answer(true));
    assert(s4.1 == Action::Stop(Outcome::DryRun));
}

/// What stops a repair, and what is said of it. A step that fails always stops it.
pub proof fn law_repair_refuses_for_a_reason(run: repair::Repair, event: Event, kind: Kind, beneath: bool)
    ensures
        event == Event::Failed && run.point != repair::Point::Stopped ==> repair::next(run, event).1 == Action::Stop(
            Outcome::Failed,
        ),
        run.point == repair::Point::Checking ==> match event {
            Event::System { listed, running, read_only } => {
                let action = repair::next(run, event).1;
                &&& !listed ==> action == Action::Stop(Outcome::ProcessesUnknown)
                &&& listed && running ==> action == Action::Stop(Outcome::ProcessesRunning)
                &&& listed && !running && read_only ==> action == Action::Stop(Outcome::ReadOnly)
                &&& listed && !running && !read_only && run.condition == Condition::Repaired ==> action == Action::Stop(
                    Outcome::AlreadyRepaired,
                )
                &&& listed && !running && !read_only && run.condition == Condition::Other ==> action == Action::Stop(
                    Outcome::WrongState,
                )
            },
            _ => true,
        },
        run.point == repair::Point::Directories && event == Event::Answer(true) ==> repair::next(run, event).1
            == Action::Stop(Outcome::SameDirectory),
        run.point == repair::Point::Inventory ==> match event {
            Event::Inventory { escaping, .. } => escaping ==> repair::next(run, event).1 == Action::Stop(
                Outcome::EscapingLinks,
            ),
            _ => true,
        },
        run.point == repair::Point::Comparing && event == Event::Answer(false) && !run.settings.keep_destination
            && !run.settings.replace_destination ==> repair::next(run, event).1 == Action::Stop(Outcome::Conflict),
        run.point == repair::Point::Space ==> match event {
            Event::Space(free) => repair::next(run, event).1 == if has_room(free, run.bytes) {
                Action::DrawUpPlan
            } else {
                Action::Stop(Outcome::NoRoom)
            },
            _ => true,
        },
        run.point == repair::Point::Planning && event == (Event::Plan { expected: false }) && !run.settings.json
            ==> repair::next(run, event).1 == Action::Stop(Outcome::PlanChanged),
        run.point == repair::Point::Asking && event == Event::Answer(false) ==> repair::next(run, event).1
            == Action::Stop(Outcome::Cancelled),
        run.point == repair::Point::Verifying && event == Event::Answer(false) ==> repair::next(run, event).1
            == Action::Stop(Outcome::CopyDiffers),
        run.point == repair::Point::Rechecking && event == Event::Answer(false) ==> repair::next(run, event).1
            == Action::Stop(Outcome::SourceChanged),
        run.point == repair::Point::Prechecking && kind != Kind::Directory && event == (Event::Seen { kind, beneath })
            ==> repair::next(run, event).1 == Action::Stop(Outcome::NotADirectory(kind)),
        run.point == repair::Point::Prechecking && event == (Event::Seen { kind: Kind::Directory, beneath: false })
            ==> repair::next(run, event).1 == Action::Stop(Outcome::LeadsAway),
        run.point == repair::Point::Linking && event == Event::Answer(false) ==> repair::next(run, event).1
            == Action::Stop(Outcome::LinkNotMade),
        run.point == repair::Point::FindingCopy && event == Event::Answer(false) ==> repair::next(run, event).1
            == Action::Stop(Outcome::CopyMissing),
        run.point == repair::Point::Digesting && event == Event::Answer(false) ==> repair::next(run, event).1
            == Action::LookForBackup,
        run.point == repair::Point::FindingBackup && event == Event::Answer(false) ==> repair::next(run, event).1
            == Action::Stop(Outcome::NoProof),
        run.point == repair::Point::ComparingBackup && event == Event::Answer(false) ==> repair::next(run, event).1
            == Action::Stop(Outcome::CopyNotOriginal),
        run.point == repair::Point::KeepLooking && event == (Event::Seen { kind: Kind::Absent, beneath })
            ==> repair::next(run, event).1 == Action::MakeLink,
{
}

/// A library can be repaired exactly when it is on another filesystem than the destination, on one that can have links,
/// and the destination is not on NTFS or on one that cannot. Without being forced it has to be on NTFS, and the
/// destination on a filesystem of Linux. A refusal names the first of these that fails.
pub proof fn law_only_fit_filesystems_are_accepted(
    force: bool,
    source: Option<Capability>,
    target: Option<Capability>,
    same: bool,
)
    ensures
        ({
            let refusal = repair::mount_refusal(force, source, target, same);
            &&& refusal is None <==> !same && source != Some(Capability::NoSymlinks) && target != Some(
                Capability::NoSymlinks,
            ) && target != Some(Capability::NeedsRepair) && (force || source == Some(Capability::NeedsRepair) && target
                == Some(Capability::Native))
            &&& source == Some(Capability::NoSymlinks) ==> refusal == Some(Outcome::NoSymlinks)
            &&& source == Some(Capability::Native) && !force ==> refusal == Some(Outcome::NothingToRepair)
            &&& (source is None || source == Some(Capability::Unknown)) && !force ==> refusal == Some(
                Outcome::Unidentified,
            )
            &&& source == Some(Capability::NeedsRepair) && same ==> refusal == Some(Outcome::SameFilesystem)
            &&& source == Some(Capability::NeedsRepair) && !same && (target == Some(Capability::NoSymlinks) || target
                == Some(Capability::NeedsRepair)) ==> refusal == Some(Outcome::UnfitDestination)
            &&& source == Some(Capability::NeedsRepair) && !same && !force && (target is None || target == Some(
                Capability::Unknown,
            )) ==> refusal == Some(Outcome::UnknownDestination)
        }),
{
    match source {
        Some(Capability::Native) => {},
        Some(Capability::NeedsRepair) => {},
        Some(Capability::NoSymlinks) => {},
        Some(Capability::Unknown) => {},
        None => {},
    }
    match target {
        Some(Capability::Native) => {},
        Some(Capability::NeedsRepair) => {},
        Some(Capability::NoSymlinks) => {},
        Some(Capability::Unknown) => {},
        None => {},
    }
}

/// What stops an undo, and what is said of it.
pub proof fn law_undo_refuses_for_a_reason(run: undo::Undo, event: Event, kind: Kind, beneath: bool)
    ensures
        event == Event::Failed && run.point != undo::Point::Stopped ==> undo::next(run, event).1 == Action::Stop(
            Outcome::Failed,
        ),
        run.point == undo::Point::Checking ==> match event {
            Event::System { listed, running, read_only } => {
                let action = undo::next(run, event).1;
                &&& !listed ==> action == Action::Stop(Outcome::ProcessesUnknown)
                &&& listed && running ==> action == Action::Stop(Outcome::ProcessesRunning)
                &&& listed && !running && read_only ==> action == Action::Stop(Outcome::ReadOnly)
                &&& listed && !running && !read_only && run.condition == Condition::Interrupted ==> action
                    == Action::Stop(Outcome::MidRepair)
                &&& listed && !running && !read_only && run.condition != Condition::Interrupted && run.condition
                    != Condition::Repaired ==> action == Action::Stop(Outcome::NothingToUndo)
            },
            _ => true,
        },
        run.point == undo::Point::Inventory ==> match event {
            Event::Inventory { escaping, .. } => escaping ==> undo::next(run, event).1 == Action::Stop(
                Outcome::EscapingLinks,
            ),
            _ => true,
        },
        run.point == undo::Point::Space ==> match event {
            Event::Space(free) => free is Some && free->0 < run.bytes <==> undo::next(run, event).1 == Action::Stop(
                Outcome::NoRoom,
            ),
            _ => true,
        },
        run.point == undo::Point::Asking && event == Event::Answer(false) ==> undo::next(run, event).1 == Action::Stop(
            Outcome::Cancelled,
        ),
        run.point == undo::Point::Verifying && event == Event::Answer(false) ==> undo::next(run, event).1
            == Action::Stop(Outcome::CopyDiffers),
        run.point == undo::Point::Rechecking && event == Event::Answer(false) ==> undo::next(run, event).1
            == Action::Stop(Outcome::SourceChanged),
        run.point == undo::Point::Looking && kind != Kind::Symlink && event == (Event::Seen { kind, beneath })
            ==> undo::next(run, event).1 == Action::Stop(Outcome::NotALink(kind)),
{
}

/// What stops originals from being deleted, and what is said of it.
pub proof fn law_disposal_refuses_for_a_reason(run: backup::Disposal, event: Event)
    ensures
        event == Event::Failed && run.point != backup::Point::Stopped ==> backup::next(run, event).1 == Action::Stop(
            Outcome::Failed,
        ),
        run.point == backup::Point::Checking ==> match event {
            Event::System { listed, running, read_only } => {
                let action = backup::next(run, event).1;
                &&& !listed ==> action == Action::Stop(Outcome::ProcessesUnknown)
                &&& listed && running ==> action == Action::Stop(Outcome::ProcessesRunning)
                &&& listed && !running && read_only ==> action == Action::Stop(Outcome::ReadOnly)
                &&& listed && !running && !read_only && run.condition != Condition::Repaired ==> action == Action::Stop(
                    Outcome::WrongState,
                )
                &&& listed && !running && !read_only && run.condition == Condition::Repaired && !run.originals
                    ==> action == Action::Stop(Outcome::NoOriginals)
            },
            _ => true,
        },
        run.point == backup::Point::Judging ==> match event {
            Event::Evidence { launch, save } => launch != Result_::Worked || save != Result_::Worked <==> backup::next(
                run,
                event,
            ).1 == Action::Stop(Outcome::NoEvidenceYet),
            _ => true,
        },
        run.point == backup::Point::Comparing && event == Event::Answer(false) ==> backup::next(run, event).1
            == Action::Stop(Outcome::NotCarried),
        run.point == backup::Point::Asking && event == Event::Answer(false) ==> backup::next(run, event).1
            == Action::Stop(Outcome::Cancelled),
{
}

/// A run keeps what it was told and what it saw, and takes it for nothing else.
pub proof fn law_runs_remember_what_they_saw(settings: Settings, condition: Condition, occupied: bool, originals: bool)
    ensures
        ({
            let event = Event::Inspected { condition, occupied, originals };
            let fix = repair::Repair { point: repair::Point::Inspecting, ..repair::fresh(settings) };
            let back = undo::Undo { point: undo::Point::Inspecting, ..undo::fresh(settings) };
            let disposal = backup::Disposal { point: backup::Point::Inspecting, ..backup::fresh(settings) };
            &&& repair::next(fix, event).0.condition == condition
            &&& repair::next(fix, event).0.occupied == occupied
            &&& repair::next(fix, event).0.settings == settings
            &&& undo::next(back, event).0.condition == condition
            &&& undo::next(back, event).0.settings == settings
            &&& backup::next(disposal, event).0.condition == condition
            &&& backup::next(disposal, event).0.originals == originals
            &&& backup::next(disposal, event).0.settings == settings
        }),
{
}

/// A command ends well when it did what it was asked, or showed it, or was called off; not when it refused or failed.
pub proof fn law_what_ends_well(outcome: Outcome)
    ensures
        outcome.well() <==> seq![
            Outcome::AlreadyRepaired,
            Outcome::PlanShown,
            Outcome::DryRun,
            Outcome::Cancelled,
            Outcome::Repaired,
            Outcome::Recovered,
            Outcome::Kept,
            Outcome::Undone,
            Outcome::Deleted,
        ].contains(outcome),
{
    let all = seq![
        Outcome::AlreadyRepaired,
        Outcome::PlanShown,
        Outcome::DryRun,
        Outcome::Cancelled,
        Outcome::Repaired,
        Outcome::Recovered,
        Outcome::Kept,
        Outcome::Undone,
        Outcome::Deleted,
    ];
    assert(all[0] == Outcome::AlreadyRepaired && all[1] == Outcome::PlanShown && all[2] == Outcome::DryRun && all[3]
        == Outcome::Cancelled && all[4] == Outcome::Repaired && all[5] == Outcome::Recovered && all[6] == Outcome::Kept
        && all[7] == Outcome::Undone && all[8] == Outcome::Deleted);
}

/// Asking changes nothing; every step that writes, renames, links, copies or deletes does.
pub proof fn law_what_changes_something(action: Action)
    ensures
        !action.changes() <==> match action {
            Action::Lock => false,
            Action::WriteRecord(_) => false,
            Action::ClearRecord => false,
            Action::RecordEvidence => false,
            Action::OpenQuestions => false,
            Action::MakeHolder => false,
            Action::SetDestinationAside => false,
            Action::CreateDestination => false,
            Action::CopyTree => false,
            Action::SyncCopy => false,
            Action::PublishCopy => false,
            Action::SyncHolder => false,
            Action::Probe => false,
            Action::MoveOriginalAside => false,
            Action::MakeLink => false,
            Action::SyncLibrary => false,
            Action::CopyBack => false,
            Action::RemoveLink => false,
            Action::PutBack => false,
            Action::DeleteOriginals => false,
            _ => true,
        },
        action == Action::MoveOriginalAside || action == Action::MakeLink || action == Action::CopyBack || action
            == Action::RemoveLink || action == Action::PutBack || action == Action::DeleteOriginals || action
            == Action::Probe || action == Action::SyncLibrary <==> action.changes_game_drive(),
{
}

/// Where the library has no data and something is at the destination, the user has to say which counts: it is never
/// guessed.
#[verifier::spinoff_prover]
pub proof fn law_occupied_destination_is_never_guessed(run: repair::Repair)
    requires
        run.point == repair::Point::Directories,
        run.condition == Condition::NoCompatdata,
        run.occupied,
    ensures
        ({
            let action = repair::next(run, Event::Answer(false)).1;
            &&& !run.settings.keep_destination && !run.settings.replace_destination ==> action == Action::Stop(
                Outcome::Conflict,
            )
            &&& !run.settings.keep_destination && run.settings.replace_destination ==> action == Action::MeasureSpace
            &&& run.settings.keep_destination && run.settings.dry_run ==> action == Action::Stop(Outcome::DryRun)
            &&& run.settings.keep_destination && !run.settings.dry_run && !run.settings.assume_yes ==> action
                == Action::Confirm
            &&& run.settings.keep_destination && !run.settings.dry_run && run.settings.assume_yes ==> action
                == Action::LookAtCompatdata
        }),
{
}

/// An interrupted repair whose copy is proven good is finished only with consent, and not in a dry run.
#[verifier::spinoff_prover]
pub proof fn law_recovery_asks_too(run: repair::Repair)
    requires
        run.way == repair::Way::Recovery,
        run.point == repair::Point::Digesting || run.point == repair::Point::ComparingBackup,
    ensures
        ({
            let action = repair::next(run, Event::Answer(true)).1;
            &&& run.settings.dry_run ==> action == Action::Stop(Outcome::DryRun)
            &&& !run.settings.dry_run && !run.settings.assume_yes ==> action == Action::Confirm
            &&& !run.settings.dry_run && run.settings.assume_yes ==> action == Action::MakeLink
        }),
{
}

} // verus!
