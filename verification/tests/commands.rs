use librarybridge::backup::Disposal;
use librarybridge::closing::{end_of_backup, end_of_fix, end_of_undo, keeping, Facts};
use librarybridge::evidence::{parse_answer, Evidence, Result_};
use librarybridge::protocol::{Action, Condition, Event, Outcome, Settings, GROWTH_RESERVE};
use librarybridge::record::Stage;
use librarybridge::path::FilePath;
use librarybridge::repair::{Repair, Way};
use librarybridge::safefs::Kind;
use librarybridge::system::Capability;
use librarybridge::undo::Undo;

fn settings() -> Settings {
    Settings {
        json: false,
        dry_run: false,
        force: false,
        assume_yes: true,
        keep_destination: false,
        replace_destination: false,
    }
}

/// What a run that goes well is told.
#[derive(Clone)]
struct World {
    condition: Condition,
    occupied: bool,
    same_data: bool,
    bytes: u64,
    free: Option<u64>,
    record: bool,
    digest: bool,
    original: bool,
    seen: Kind,
    launch: Result_,
    refuse: Option<(Action, Event)>,
}

fn world(condition: Condition) -> World {
    World {
        condition,
        occupied: false,
        same_data: false,
        bytes: 100,
        free: None,
        record: true,
        digest: true,
        original: true,
        seen: Kind::Directory,
        launch: Result_::Worked,
        refuse: None,
    }
}

fn answer(world: &World, action: Action) -> Event {
    if let Some((at, event)) = world.refuse {
        if at == action {
            return event;
        }
    }
    match action {
        Action::Inspect => {
            Event::Inspected { condition: world.condition, occupied: world.occupied, originals: world.original }
        }
        Action::CheckSystem => Event::System { listed: true, running: false, read_only: false },
        Action::ReadMounts => {
            Event::Mounts { source: Some(Capability::NeedsRepair), target: Some(Capability::Native), same: false }
        }
        Action::CompareDirectories => Event::Answer(false),
        Action::TakeInventory => Event::Inventory { escaping: false, bytes: world.bytes },
        Action::CompareData => Event::Answer(world.same_data),
        Action::MeasureSpace => Event::Space(world.free),
        Action::DrawUpPlan => Event::Plan { expected: true },
        Action::Confirm => Event::Answer(true),
        Action::MakeHolder => Event::Ready { occupied: world.occupied },
        Action::LoadRecord => Event::Record { names_destination: world.record },
        Action::DigestCopy => Event::Answer(world.digest),
        Action::LookForBackup => Event::Answer(world.original),
        Action::LookForCopy
        | Action::CompareBackup
        | Action::VerifyCopy
        | Action::RecheckSource
        | Action::MakeLink
        | Action::CompareOriginals => Event::Answer(true),
        Action::Precheck | Action::LookAtCompatdata => Event::Seen { kind: world.seen, beneath: true },
        Action::LoadEvidence => Event::Evidence { launch: world.launch, save: Result_::Worked },
        _ => Event::Done,
    }
}

fn repair(settings: Settings, world: &World) -> (Vec<Action>, Outcome) {
    let mut run = Repair::new(settings);
    let mut done = Vec::new();
    let mut event = Event::Begin;
    loop {
        let action = run.step(event);
        if let Action::Stop(outcome) = action {
            return (done, outcome);
        }
        done.push(action);
        event = answer(world, action);
    }
}

fn undo(settings: Settings, world: &World) -> (Vec<Action>, Outcome) {
    let mut run = Undo::new(settings);
    let mut done = Vec::new();
    let mut event = Event::Begin;
    loop {
        let action = run.step(event);
        if let Action::Stop(outcome) = action {
            return (done, outcome);
        }
        done.push(action);
        event = answer(world, action);
    }
}

fn dispose(settings: Settings, world: &World) -> (Vec<Action>, Outcome) {
    let mut run = Disposal::new(settings);
    let mut done = Vec::new();
    let mut event = Event::Begin;
    loop {
        let action = run.step(event);
        if let Action::Stop(outcome) = action {
            return (done, outcome);
        }
        done.push(action);
        event = answer(world, action);
    }
}

fn place(done: &[Action], action: Action) -> usize {
    done.iter().position(|a| *a == action).unwrap()
}

#[test]
fn fix_moves_the_data_and_keeps_the_original() {
    let (done, outcome) = repair(settings(), &world(Condition::NotRepaired));
    assert_eq!(outcome, Outcome::Repaired);
    assert_eq!(done[..2], [Action::Lock, Action::Inspect]);
    let tail: Vec<Action> = done[place(&done, Action::Probe)..].to_vec();
    assert_eq!(
        tail,
        [
            Action::Probe,
            Action::MakeHolder,
            Action::CopyTree,
            Action::VerifyCopy,
            Action::RecheckSource,
            Action::WriteRecord(Stage::Verified),
            Action::SyncCopy,
            Action::PublishCopy,
            Action::SyncHolder,
            Action::WriteRecord(Stage::Published),
            Action::Precheck,
            Action::MoveOriginalAside,
            Action::SyncLibrary,
            Action::WriteRecord(Stage::BackedUp),
            Action::MakeLink,
            Action::SyncLibrary,
            Action::ClearRecord,
            Action::RecordEvidence,
        ]
    );
    assert!(!done.contains(&Action::DeleteOriginals));
}

#[test]
fn a_dry_run_writes_nothing_at_all() {
    let mut dry = settings();
    dry.dry_run = true;
    for condition in [Condition::NotRepaired, Condition::NoCompatdata, Condition::Interrupted, Condition::Repaired] {
        let asks = |action: &Action| {
            matches!(
                action,
                Action::Inspect
                    | Action::CheckSystem
                    | Action::ReadMounts
                    | Action::CompareDirectories
                    | Action::TakeInventory
                    | Action::MeasureSpace
                    | Action::DrawUpPlan
                    | Action::LookForCopy
                    | Action::LoadRecord
                    | Action::DigestCopy
                    | Action::LoadEvidence
                    | Action::CompareOriginals
            )
        };
        let (done, outcome) = repair(dry, &world(condition));
        assert!(done.iter().all(asks), "{done:?}");
        assert!(outcome.is_well());
        let (done, _) = undo(dry, &world(condition));
        assert!(done.iter().all(asks), "{done:?}");
        let (done, _) = dispose(dry, &world(condition));
        assert!(done.iter().all(asks), "{done:?}");
    }
}

#[test]
fn fix_is_idempotent() {
    assert_eq!(repair(settings(), &world(Condition::Repaired)).1, Outcome::AlreadyRepaired);
}

#[test]
fn a_library_with_no_proton_data_is_linked_for_later() {
    let (done, outcome) = repair(settings(), &world(Condition::NoCompatdata));
    assert_eq!(outcome, Outcome::Repaired);
    assert!(done.contains(&Action::CreateDestination));
    assert!(!done.contains(&Action::CopyTree));
    assert!(!done.contains(&Action::MoveOriginalAside));
}

#[test]
fn an_interrupted_repair_is_finished_not_restarted() {
    let (done, outcome) = repair(settings(), &world(Condition::Interrupted));
    assert_eq!(outcome, Outcome::Recovered);
    assert!(done.contains(&Action::DigestCopy));
    assert!(!done.contains(&Action::CopyTree));
    let mut unrecorded = world(Condition::Interrupted);
    unrecorded.record = false;
    let (done, outcome) = repair(settings(), &unrecorded);
    assert_eq!(outcome, Outcome::Recovered);
    assert!(done.contains(&Action::CompareBackup));
}

#[test]
fn recovery_without_evidence_stops() {
    let mut lost = world(Condition::Interrupted);
    lost.digest = false;
    lost.original = false;
    let (done, outcome) = repair(settings(), &lost);
    assert_eq!(outcome, Outcome::NoProof);
    assert!(!done.contains(&Action::MakeLink));
}

#[test]
fn recovery_refuses_a_copy_that_does_not_match_the_original() {
    let mut other = world(Condition::Interrupted);
    other.record = false;
    other.refuse = Some((Action::CompareBackup, Event::Answer(false)));
    assert_eq!(repair(settings(), &other).1, Outcome::CopyNotOriginal);
    other.refuse = Some((Action::LookForCopy, Event::Answer(false)));
    assert_eq!(repair(settings(), &other).1, Outcome::CopyMissing);
}

#[test]
fn a_competing_writer_after_an_interrupted_repair_is_a_conflict() {
    let mut taken = world(Condition::NotRepaired);
    taken.occupied = true;
    assert_eq!(repair(settings(), &taken).1, Outcome::Conflict);
    taken.condition = Condition::NoCompatdata;
    assert_eq!(repair(settings(), &taken).1, Outcome::Conflict);
}

#[test]
fn keeping_the_destination_restores_the_migrated_saves() {
    let mut taken = world(Condition::NotRepaired);
    taken.occupied = true;
    let mut keep = settings();
    keep.keep_destination = true;
    let (done, outcome) = repair(keep, &taken);
    assert_eq!(outcome, Outcome::Kept);
    assert!(place(&done, Action::MoveOriginalAside) < place(&done, Action::MakeLink));
    assert!(!done.contains(&Action::CopyTree));
    assert!(done.contains(&Action::OpenQuestions));
    taken.seen = Kind::Absent;
    let (done, _) = repair(keep, &taken);
    assert!(!done.contains(&Action::MoveOriginalAside));
}

#[test]
fn replacing_the_destination_keeps_the_old_one_too() {
    let mut taken = world(Condition::NotRepaired);
    taken.occupied = true;
    let mut replace = settings();
    replace.replace_destination = true;
    let (done, outcome) = repair(replace, &taken);
    assert_eq!(outcome, Outcome::Repaired);
    assert!(place(&done, Action::SetDestinationAside) < place(&done, Action::CopyTree));
}

#[test]
fn a_second_repair_after_an_undo_sets_the_old_copy_aside() {
    let mut again = world(Condition::NotRepaired);
    again.occupied = true;
    again.same_data = true;
    let (done, outcome) = repair(settings(), &again);
    assert_eq!(outcome, Outcome::Repaired);
    assert!(done.contains(&Action::SetDestinationAside));
}

#[test]
fn refusals_of_a_repair() {
    let mounts = |source: Option<Capability>, target: Option<Capability>, same: bool| {
        Some((Action::ReadMounts, Event::Mounts { source, target, same }))
    };
    let needs = Some(Capability::NeedsRepair);
    let cases = [
        (
            Some((Action::CheckSystem, Event::System { listed: false, running: false, read_only: false })),
            Outcome::ProcessesUnknown,
        ),
        (
            Some((Action::CheckSystem, Event::System { listed: true, running: true, read_only: false })),
            Outcome::ProcessesRunning,
        ),
        (
            Some((Action::CheckSystem, Event::System { listed: true, running: false, read_only: true })),
            Outcome::ReadOnly,
        ),
        (mounts(Some(Capability::NoSymlinks), None, false), Outcome::NoSymlinks),
        (mounts(Some(Capability::Native), None, false), Outcome::NothingToRepair),
        (mounts(None, None, false), Outcome::Unidentified),
        (mounts(Some(Capability::Unknown), None, false), Outcome::Unidentified),
        (mounts(needs, needs, true), Outcome::SameFilesystem),
        (mounts(needs, Some(Capability::NoSymlinks), false), Outcome::UnfitDestination),
        (mounts(needs, needs, false), Outcome::UnfitDestination),
        (mounts(needs, None, false), Outcome::UnknownDestination),
        (mounts(needs, Some(Capability::Unknown), false), Outcome::UnknownDestination),
        (Some((Action::CompareDirectories, Event::Answer(true))), Outcome::SameDirectory),
        (Some((Action::TakeInventory, Event::Inventory { escaping: true, bytes: 0 })), Outcome::EscapingLinks),
        (Some((Action::DrawUpPlan, Event::Plan { expected: false })), Outcome::PlanChanged),
        (Some((Action::VerifyCopy, Event::Answer(false))), Outcome::CopyDiffers),
        (Some((Action::RecheckSource, Event::Answer(false))), Outcome::SourceChanged),
        (
            Some((Action::Precheck, Event::Seen { kind: Kind::Symlink, beneath: true })),
            Outcome::NotADirectory(Kind::Symlink),
        ),
        (Some((Action::Precheck, Event::Seen { kind: Kind::Directory, beneath: false })), Outcome::LeadsAway),
        (Some((Action::MakeLink, Event::Answer(false))), Outcome::LinkNotMade),
        (Some((Action::CopyTree, Event::Failed)), Outcome::Failed),
        (Some((Action::CopyTree, Event::Begin)), Outcome::OutOfStep),
    ];
    for (refuse, wanted) in cases {
        let mut world = world(Condition::NotRepaired);
        world.refuse = refuse;
        let (done, outcome) = repair(settings(), &world);
        assert_eq!(outcome, wanted);
        assert!(!outcome.is_well());
        if wanted != Outcome::LinkNotMade {
            assert!(!done.contains(&Action::MoveOriginalAside), "{wanted:?}");
        }
    }
    assert_eq!(repair(settings(), &world(Condition::Other)).1, Outcome::WrongState);
    let mut forced = settings();
    forced.force = true;
    let mut unknown = world(Condition::NotRepaired);
    unknown.refuse = mounts(None, None, false);
    assert_eq!(repair(forced, &unknown).1, Outcome::Repaired);
}

#[test]
fn recovery_refuses_while_steam_is_running() {
    let mut busy = world(Condition::Interrupted);
    busy.refuse = Some((Action::CheckSystem, Event::System { listed: true, running: true, read_only: false }));
    assert_eq!(repair(settings(), &busy).1, Outcome::ProcessesRunning);
}

#[test]
fn room_is_kept_for_growth() {
    let mut tight = world(Condition::NotRepaired);
    tight.free = Some(100 + GROWTH_RESERVE - 1);
    assert_eq!(repair(settings(), &tight).1, Outcome::NoRoom);
    tight.free = Some(100 + GROWTH_RESERVE);
    assert_eq!(repair(settings(), &tight).1, Outcome::Repaired);
    tight.bytes = u64::MAX;
    tight.free = Some(u64::MAX);
    assert_eq!(repair(settings(), &tight).1, Outcome::NoRoom);
}

#[test]
fn nothing_is_changed_without_consent() {
    let mut ask = settings();
    ask.assume_yes = false;
    let mut no = world(Condition::NotRepaired);
    no.refuse = Some((Action::Confirm, Event::Answer(false)));
    let (done, outcome) = repair(ask, &no);
    assert_eq!(outcome, Outcome::Cancelled);
    assert!(!done.contains(&Action::Probe));
    let mut shown = settings();
    shown.json = true;
    assert_eq!(repair(shown, &world(Condition::NotRepaired)).1, Outcome::PlanShown);
}

#[test]
fn undo_keeps_saves_written_after_the_repair() {
    let mut repaired = world(Condition::Repaired);
    repaired.seen = Kind::Symlink;
    let (done, outcome) = undo(settings(), &repaired);
    assert_eq!(outcome, Outcome::Undone);
    let tail: Vec<Action> = done[place(&done, Action::CopyBack)..].to_vec();
    assert_eq!(
        tail,
        [
            Action::CopyBack,
            Action::VerifyCopy,
            Action::RecheckSource,
            Action::LookAtCompatdata,
            Action::RemoveLink,
            Action::PutBack,
            Action::SyncLibrary,
            Action::OpenQuestions,
        ]
    );
}

#[test]
fn refusals_of_an_undo() {
    let mut repaired = world(Condition::Repaired);
    repaired.seen = Kind::Directory;
    assert_eq!(undo(settings(), &repaired).1, Outcome::NotALink(Kind::Directory));
    assert_eq!(undo(settings(), &world(Condition::Interrupted)).1, Outcome::MidRepair);
    assert_eq!(undo(settings(), &world(Condition::NotRepaired)).1, Outcome::NothingToUndo);
    repaired.refuse = Some((Action::TakeInventory, Event::Inventory { escaping: true, bytes: 0 }));
    assert_eq!(undo(settings(), &repaired).1, Outcome::EscapingLinks);
    repaired.refuse = Some((Action::VerifyCopy, Event::Answer(false)));
    assert_eq!(undo(settings(), &repaired).1, Outcome::CopyDiffers);
    repaired.refuse = Some((Action::RecheckSource, Event::Answer(false)));
    assert_eq!(undo(settings(), &repaired).1, Outcome::SourceChanged);
    repaired.refuse = None;
    repaired.free = Some(99);
    assert_eq!(undo(settings(), &repaired).1, Outcome::NoRoom);
    repaired.free = Some(100);
    repaired.seen = Kind::Symlink;
    assert_eq!(undo(settings(), &repaired).1, Outcome::Undone);
}

#[test]
fn backup_delete_refuses_without_recorded_evidence() {
    let mut unproven = world(Condition::Repaired);
    unproven.launch = Result_::NotChecked;
    let (done, outcome) = dispose(settings(), &unproven);
    assert_eq!(outcome, Outcome::NoEvidenceYet);
    assert!(!done.contains(&Action::DeleteOriginals));
}

#[test]
fn backup_delete_removes_the_original_after_confirmation() {
    let mut ask = settings();
    ask.assume_yes = false;
    let (done, outcome) = dispose(ask, &world(Condition::Repaired));
    assert_eq!(outcome, Outcome::Deleted);
    assert!(place(&done, Action::Confirm) < place(&done, Action::DeleteOriginals));
    let mut no = world(Condition::Repaired);
    no.refuse = Some((Action::Confirm, Event::Answer(false)));
    assert_eq!(dispose(ask, &no).1, Outcome::Cancelled);
}

#[test]
fn backup_delete_refuses_when_the_moved_copy_is_missing_data() {
    let mut lacking = world(Condition::Repaired);
    lacking.refuse = Some((Action::CompareOriginals, Event::Answer(false)));
    assert_eq!(dispose(settings(), &lacking).1, Outcome::NotCarried);
    let mut none = world(Condition::Repaired);
    none.original = false;
    assert_eq!(dispose(settings(), &none).1, Outcome::NoOriginals);
    assert_eq!(dispose(settings(), &world(Condition::NotRepaired)).1, Outcome::WrongState);
}

#[test]
fn moving_the_data_again_clears_answers_about_the_game() {
    let mut evidence = Evidence::load(None);
    assert_eq!(evidence.get("launch").result, Result_::NotChecked);
    let (field, result) = parse_answer("launch=yes").unwrap();
    evidence.record(&field, result, 10, false).unwrap();
    evidence.record("files", Result_::Worked, 11, true).unwrap();
    assert_eq!(evidence.get("launch").result, Result_::Worked);
    evidence.invalidate(12);
    assert_eq!(evidence.get("launch").result, Result_::NotChecked);
    assert_eq!(evidence.get("launch").when, 12);
    assert_eq!(evidence.get("files").result, Result_::Worked);
    assert!(evidence.get("files").by_tool);
}

fn facts() -> Facts {
    let path = |text: &str| FilePath::new(text);
    Facts {
        library: path("/mnt/g"),
        id: "abcd1234".to_string(),
        steamapps: path("/mnt/g/steamapps"),
        compatdata: path("/mnt/g/steamapps/compatdata"),
        name: path("compatdata"),
        target: path("/d/compatdata"),
        holder: path("/d"),
        backup: path("/mnt/g/steamapps/compatdata.backup"),
        backups: vec![path("/mnt/g/steamapps/compatdata.backup")],
        headline: "Link is broken".to_string(),
        library_type: "exfat".to_string(),
        target_type: "vfat".to_string(),
        links: "  a -> ../b".to_string(),
        bytes: 2048,
        free: 1024,
        expected: "old".to_string(),
        fingerprint: "new".to_string(),
        copied: true,
        lacking: "1/save".to_string(),
        words: "what went wrong".to_string(),
    }
}

#[test]
fn every_end_of_a_repair_has_its_words() {
    let fix = |outcome: Outcome| end_of_fix(outcome, Way::Repair, &facts());
    assert_eq!(
        fix(Outcome::AlreadyRepaired).unwrap(),
        ["State       already repaired, pointing at /d/compatdata", "Nothing to do."]
    );
    assert!(fix(Outcome::PlanShown).unwrap().is_empty());
    assert_eq!(fix(Outcome::DryRun).unwrap(), ["", "Dry run. Nothing was changed."]);
    assert_eq!(
        end_of_fix(Outcome::DryRun, Way::Recovery, &facts()).unwrap()[1],
        "Dry run. The remaining step is to create the link."
    );
    assert_eq!(end_of_fix(Outcome::DryRun, Way::Keep, &facts()).unwrap()[..2], keeping(&facts())[..]);
    assert_eq!(fix(Outcome::Cancelled).unwrap(), ["Cancelled. Nothing was changed."]);
    assert_eq!(fix(Outcome::Repaired).unwrap().len(), 7);
    assert_eq!(fix(Outcome::Repaired).unwrap()[2], "  Proton data now lives at   /d/compatdata");
    assert_eq!(fix(Outcome::Recovered).unwrap()[1], "Done. The original is still at /mnt/g/steamapps/compatdata.backup");
    assert_eq!(fix(Outcome::Kept).unwrap()[1], "Done. Steam reads the data at /d/compatdata");
    let refusals = [
        (Outcome::WrongState, "in the state 'Link is broken'"),
        (Outcome::NoSymlinks, "/mnt/g is on exfat, which has no symlink support"),
        (Outcome::NothingToRepair, "There is nothing to repair"),
        (Outcome::Unidentified, "could not be identified"),
        (Outcome::SameFilesystem, "is on the same filesystem as the library"),
        (Outcome::UnfitDestination, "vfat"),
        (Outcome::UnknownDestination, "the filesystem under the destination /d/compatdata could not be identified"),
        (Outcome::SameDirectory, "is the same directory as the library itself"),
        (Outcome::EscapingLinks, "  a -> ../b"),
        (Outcome::NoRoom, "The copy needs 2.0 KiB plus 2.0 GiB spare, and only 1.0 KiB is free."),
        (Outcome::PlanChanged, "It was old and is now new."),
        (Outcome::NotADirectory(Kind::File), "is a file now, not a directory"),
        (Outcome::LeadsAway, "no longer resolves inside /mnt/g/steamapps"),
        (Outcome::CopyMissing, "the copy at /d/compatdata is missing"),
        (Outcome::NoProof, "there is no way to tell whether the copy at /d/compatdata is complete"),
        (Outcome::CopyNotOriginal, "does not match the original"),
        (Outcome::Conflict, "what went wrong"),
        (Outcome::Failed, "what went wrong"),
    ];
    for (outcome, words) in refusals {
        let said = fix(outcome).unwrap_err();
        assert!(said.contains(words), "{outcome:?}: {said}");
    }
}

#[test]
fn every_end_of_an_undo_and_of_a_deletion_has_its_words() {
    let undo = |outcome: Outcome| end_of_undo(outcome, &facts());
    assert_eq!(
        undo(Outcome::Undone).unwrap()[3..],
        ["    /d/compatdata".to_string(), "    /mnt/g/steamapps/compatdata.backup".to_string()]
    );
    assert!(undo(Outcome::MidRepair).unwrap_err().contains("librarybridge fix abcd1234"));
    assert_eq!(undo(Outcome::NothingToUndo).unwrap_err(), "nothing to undo: this library is 'Link is broken'.");
    assert!(undo(Outcome::EscapingLinks).unwrap_err().contains("  a -> ../b"));
    assert_eq!(
        undo(Outcome::NoRoom).unwrap_err(),
        "not enough room on the game drive: 2.0 KiB needed, 1.0 KiB free."
    );
    assert_eq!(
        undo(Outcome::NotALink(Kind::Directory)).unwrap_err(),
        "/mnt/g/steamapps/compatdata: expected a symlink and found a directory. Nothing was removed."
    );
    assert_eq!(undo(Outcome::SourceChanged).unwrap_err(), "what went wrong");
    let delete = |outcome: Outcome| end_of_backup(outcome, &facts());
    assert_eq!(delete(Outcome::Deleted).unwrap()[1], "Done. The data in use is at /d/compatdata");
    assert_eq!(delete(Outcome::DryRun).unwrap()[1], "Dry run. Nothing was changed.");
    assert!(delete(Outcome::NoEvidenceYet).unwrap_err().contains("no evidence yet"));
    assert!(delete(Outcome::NotCarried).unwrap_err().contains("not fully carried by"));
    assert!(delete(Outcome::NotCarried).unwrap_err().contains("1/save"));
    assert!(delete(Outcome::WrongState).is_err() && delete(Outcome::NoOriginals).is_err());
}
