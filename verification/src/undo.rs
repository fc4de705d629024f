//! Undoing a repair: the decisions of `undo`, one step at a time.
//!
//! The live data is copied back, never the old backup: saves made since the repair are the ones that
//! matter. The link is removed only when the copy beside it has been checked file by file.

use vstd::prelude::*;

use crate::protocol::{Action, Condition, Event, Outcome, Settings};
use crate::safefs::Kind;

verus! {

/// What a run is waiting to hear.
#[derive(Debug, Clone, Copy, PartialEq, Eq, Structural)]
pub enum Point {
    Start,
    Locking,
    Inspecting,
    Checking,
    Inventory,
    Space,
    Asking,
    Copying,
    Verifying,
    Rechecking,
    Looking,
    Removing,
    PuttingBack,
    Syncing,
    Noting,
    Stopped,
}

/// A run of `undo`.
#[derive(Debug, Clone, Copy, PartialEq, Eq, Structural)]
pub struct Undo {
    pub settings: Settings,
    pub point: Point,
    pub condition: Condition,
    /// The bytes to copy back.
    pub bytes: u64,
}

/// Goes on to a point, with something to do.
pub open spec fn to(run: Undo, point: Point, action: Action) -> (Undo, Action) {
    (Undo { point, ..run }, action)
}

/// Ends the run.
pub open spec fn stop(run: Undo, outcome: Outcome) -> (Undo, Action) {
    (Undo { point: Point::Stopped, ..run }, Action::Stop(outcome))
}

/// Ends the run because a step failed, or because what came back was no answer.
pub open spec fn missed(run: Undo, event: Event) -> (Undo, Action) {
    match event {
        Event::Failed => stop(run, Outcome::Failed),
        _ => stop(run, Outcome::OutOfStep),
    }
}

/// Is there too little room to copy the data back?
pub open spec fn short_of_room(free: Option<u64>, bytes: u64) -> bool {
    match free {
        Some(free) => free < bytes,
        None => false,
    }
}

/// What a run does when it hears something.
pub open spec fn next(run: Undo, event: Event) -> (Undo, Action) {
    match run.point {
        Point::Start => match event {
            Event::Begin => if run.settings.dry_run {
                to(run, Point::Inspecting, Action::Inspect)
            } else {
                to(run, Point::Locking, Action::Lock)
            },
            _ => missed(run, event),
        },
        Point::Locking => match event {
            Event::Done => to(run, Point::Inspecting, Action::Inspect),
            _ => missed(run, event),
        },
        Point::Inspecting => match event {
            Event::Inspected { condition, occupied, originals } => to(
                Undo { condition, ..run },
                Point::Checking,
                Action::CheckSystem,
            ),
            _ => missed(run, event),
        },
        Point::Checking => match event {
            Event::System { listed, running, read_only } => if !listed {
                stop(run, Outcome::ProcessesUnknown)
            } else if running {
                stop(run, Outcome::ProcessesRunning)
            } else if read_only {
                stop(run, Outcome::ReadOnly)
            } else {
                match run.condition {
                    Condition::Repaired => to(run, Point::Inventory, Action::TakeInventory),
                    Condition::Interrupted => stop(run, Outcome::MidRepair),
                    _ => stop(run, Outcome::NothingToUndo),
                }
            },
            _ => missed(run, event),
        },
        Point::Inventory => match event {
            Event::Inventory { escaping, bytes } => if escaping {
                stop(run, Outcome::EscapingLinks)
            } else {
                to(Undo { bytes, ..run }, Point::Space, Action::MeasureSpace)
            },
            _ => missed(run, event),
        },
        Point::Space => match event {
            Event::Space(free) => if short_of_room(free, run.bytes) {
                stop(run, Outcome::NoRoom)
            } else if run.settings.dry_run {
                stop(run, Outcome::DryRun)
            } else if run.settings.assume_yes {
                to(run, Point::Copying, Action::CopyBack)
            } else {
                to(run, Point::Asking, Action::Confirm)
            },
            _ => missed(run, event),
        },
        Point::Asking => match event {
            Event::Answer(yes) => if yes {
                to(run, Point::Copying, Action::CopyBack)
            } else {
                stop(run, Outcome::Cancelled)
            },
            _ => missed(run, event),
        },
        Point::Copying => match event {
            Event::Done => to(run, Point::Verifying, Action::VerifyCopy),
            _ => missed(run, event),
        },
        Point::Verifying => match event {
            Event::Answer(matches) => if matches {
                to(run, Point::Rechecking, Action::RecheckSource)
            } else {
                stop(run, Outcome::CopyDiffers)
            },
            _ => missed(run, event),
        },
        Point::Rechecking => match event {
            Event::Answer(unchanged) => if unchanged {
                to(run, Point::Looking, Action::LookAtCompatdata)
            } else {
                stop(run, Outcome::SourceChanged)
            },
            _ => missed(run, event),
        },
        Point::Looking => match event {
            Event::Seen { kind, beneath } => match kind {
                Kind::Symlink => to(run, Point::Removing, Action::RemoveLink),
                _ => stop(run, Outcome::NotALink(kind)),
            },
            _ => missed(run, event),
        },
        Point::Removing => match event {
            Event::Done => to(run, Point::PuttingBack, Action::PutBack),
            _ => missed(run, event),
        },
        Point::PuttingBack => match event {
            Event::Done => to(run, Point::Syncing, Action::SyncLibrary),
            _ => missed(run, event),
        },
        Point::Syncing => match event {
            Event::Done => to(run, Point::Noting, Action::OpenQuestions),
            _ => missed(run, event),
        },
        Point::Noting => match event {
            Event::Done => stop(run, Outcome::Undone),
            _ => missed(run, event),
        },
        Point::Stopped => stop(run, Outcome::OutOfStep),
    }
}

/// A run that has not begun.
pub open spec fn fresh(settings: Settings) -> Undo {
    Undo { settings, point: Point::Start, condition: Condition::Other, bytes: 0 }
}

fn go(run: Undo, point: Point, action: Action) -> (out: (Undo, Action))
    ensures
        out == to(run, point, action),
{
    (Undo { point, ..run }, action)
}

fn halt(run: Undo, outcome: Outcome) -> (out: (Undo, Action))
    ensures
        out == stop(run, outcome),
{
    (Undo { point: Point::Stopped, ..run }, Action::Stop(outcome))
}

fn miss(run: Undo, event: Event) -> (out: (Undo, Action))
    ensures
        out == missed(run, event),
{
    match event {
        Event::Failed => halt(run, Outcome::Failed),
        _ => halt(run, Outcome::OutOfStep),
    }
}

fn is_short_of_room(free: Option<u64>, bytes: u64) -> (short: bool)
    ensures
        short == short_of_room(free, bytes),
{
    match free {
        Some(free) => free < bytes,
        None => false,
    }
}

fn advance(run: Undo, event: Event) -> (out: (Undo, Action))
    ensures
        out == next(run, event),
{
    match run.point {
        Point::Start => match event {
            Event::Begin => if run.settings.dry_run {
                go(run, Point::Inspecting, Action::Inspect)
            } else {
                go(run, Point::Locking, Action::Lock)
            },
            _ => miss(run, event),
        },
        Point::Locking => match event {
            Event::Done => go(run, Point::Inspecting, Action::Inspect),
            _ => miss(run, event),
        },
        Point::Inspecting => match event {
            Event::Inspected { condition, occupied, originals } => go(
                Undo { condition, ..run },
                Point::Checking,
                Action::CheckSystem,
            ),
            _ => miss(run, event),
        },
        Point::Checking => match event {
            Event::System { listed, running, read_only } => if !listed {
                halt(run, Outcome::ProcessesUnknown)
            } else if running {
                halt(run, Outcome::ProcessesRunning)
            } else if read_only {
                halt(run, Outcome::ReadOnly)
            } else {
                match run.condition {
                    Condition::Repaired => go(run, Point::Inventory, Action::TakeInventory),
                    Condition::Interrupted => halt(run, Outcome::MidRepair),
                    _ => halt(run, Outcome::NothingToUndo),
                }
            },
            _ => miss(run, event),
        },
        Point::Inventory => match event {
            Event::Inventory { escaping, bytes } => if escaping {
                halt(run, Outcome::EscapingLinks)
            } else {
                go(Undo { bytes, ..run }, Point::Space, Action::MeasureSpace)
            },
            _ => miss(run, event),
        },
        Point::Space => match event {
            Event::Space(free) => if is_short_of_room(free, run.bytes) {
                halt(run, Outcome::NoRoom)
            } else if run.settings.dry_run {
                halt(run, Outcome::DryRun)
            } else if run.settings.assume_yes {
                go(run, Point::Copying, Action::CopyBack)
            } else {
                go(run, Point::Asking, Action::Confirm)
            },
            _ => miss(run, event),
        },
        Point::Asking => match event {
            Event::Answer(yes) => if yes {
                go(run, Point::Copying, Action::CopyBack)
            } else {
                halt(run, Outcome::Cancelled)
            },
            _ => miss(run, event),
        },
        Point::Copying => match event {
            Event::Done => go(run, Point::Verifying, Action::VerifyCopy),
            _ => miss(run, event),
        },
        Point::Verifying => match event {
            Event::Answer(matches) => if matches {
                go(run, Point::Rechecking, Action::RecheckSource)
            } else {
                halt(run, Outcome::CopyDiffers)
            },
            _ => miss(run, event),
        },
        Point::Rechecking => match event {
            Event::Answer(unchanged) => if unchanged {
                go(run, Point::Looking, Action::LookAtCompatdata)
            } else {
                halt(run, Outcome::SourceChanged)
            },
            _ => miss(run, event),
        },
        Point::Looking => match event {
            Event::Seen { kind, beneath } => match kind {
                Kind::Symlink => go(run, Point::Removing, Action::RemoveLink),
                _ => halt(run, Outcome::NotALink(kind)),
            },
            _ => miss(run, event),
        },
        Point::Removing => match event {
            Event::Done => go(run, Point::PuttingBack, Action::PutBack),
            _ => miss(run, event),
        },
        Point::PuttingBack => match event {
            Event::Done => go(run, Point::Syncing, Action::SyncLibrary),
            _ => miss(run, event),
        },
        Point::Syncing => match event {
            Event::Done => go(run, Point::Noting, Action::OpenQuestions),
            _ => miss(run, event),
        },
        Point::Noting => match event {
            Event::Done => halt(run, Outcome::Undone),
            _ => miss(run, event),
        },
        Point::Stopped => halt(run, Outcome::OutOfStep),
    }
}

impl Undo {
    pub fn new(settings: Settings) -> (run: Undo)
        ensures
            run == fresh(settings),
    {
        Undo { settings, point: Point::Start, condition: Condition::Other, bytes: 0 }
    }

    /// Tells the run what came of the last step, and hears what to do next.
    pub fn step(&mut self, event: Event) -> (action: Action)
        ensures
            (*final(self), action) == next(*old(self), event),
    {
        let (run, action) = advance(*self, event);
        *self = run;
        action
    }
}

/// The run after it heard the first `n` events.
pub open spec fn after(settings: Settings, events: Seq<Event>, n: int) -> Undo
    decreases n,
{
    if n <= 0 {
        fresh(settings)
    } else {
        next(after(settings, events, n - 1), events[n - 1]).0
    }
}

/// What the run asks for when it hears event `i`.
pub open spec fn asked(settings: Settings, events: Seq<Event>, i: int) -> Action {
    next(after(settings, events, i), events[i]).1
}

/// Did the run, among its first `n` events, hear the given one at the given point?
pub open spec fn heard(settings: Settings, events: Seq<Event>, n: int, point: Point, event: Event) -> bool {
    exists|i: int|
        0 <= i < n && (#[trigger] after(settings, events, i)).point == point && events[i] == event
}

struct Answers {
    locked: bool,
    yes: bool,
    verified: bool,
    unchanged: bool,
    link: bool,
}

spec fn answers(settings: Settings, events: Seq<Event>, n: int) -> Answers {
    Answers {
        locked: heard(settings, events, n, Point::Locking, Event::Done),
        yes: heard(settings, events, n, Point::Asking, Event::Answer(true)),
        verified: heard(settings, events, n, Point::Verifying, Event::Answer(true)),
        unchanged: heard(settings, events, n, Point::Rechecking, Event::Answer(true)),
        link: heard_link(settings, events, n),
    }
}

/// Was a link seen at the place of compatdata?
pub open spec fn heard_link(settings: Settings, events: Seq<Event>, n: int) -> bool {
    exists|i: int|
        0 <= i < n && (#[trigger] after(settings, events, i)).point == Point::Looking && is_link(
            events[i],
        )
}

pub open spec fn is_link(event: Event) -> bool {
    match event {
        Event::Seen { kind, .. } => kind == Kind::Symlink,
        _ => false,
    }
}

spec fn quiet(point: Point) -> bool {
    match point {
        Point::Start => true,
        Point::Inspecting => true,
        Point::Checking => true,
        Point::Inventory => true,
        Point::Space => true,
        Point::Stopped => true,
        _ => false,
    }
}

spec fn checked(point: Point) -> bool {
    match point {
        Point::Looking => true,
        _ => removed(point),
    }
}

spec fn removed(point: Point) -> bool {
    match point {
        Point::Removing => true,
        Point::PuttingBack => true,
        Point::Syncing => true,
        Point::Noting => true,
        _ => false,
    }
}

spec fn sound(run: Undo, settings: Settings, heard: Answers) -> bool {
    &&& run.settings == settings
    &&& settings.dry_run ==> quiet(run.point)
    &&& !settings.dry_run && run.point != Point::Start && run.point != Point::Locking && run.point
        != Point::Stopped ==> heard.locked
    &&& !quiet(run.point) && run.point != Point::Locking && run.point != Point::Asking
        ==> settings.assume_yes || heard.yes
    &&& run.point == Point::Rechecking || checked(run.point) ==> heard.verified
    &&& checked(run.point) ==> heard.unchanged
    &&& removed(run.point) ==> heard.link
}

spec fn hears(before: Answers, run: Undo, event: Event, now: Answers) -> bool {
    &&& now.locked == (before.locked || (run.point == Point::Locking && event == Event::Done))
    &&& now.yes == (before.yes || (run.point == Point::Asking && event == Event::Answer(true)))
    &&& now.verified == (before.verified || (run.point == Point::Verifying && event == Event::Answer(
        true,
    )))
    &&& now.unchanged == (before.unchanged || (run.point == Point::Rechecking && event
        == Event::Answer(true)))
    &&& now.link == (before.link || (run.point == Point::Looking && is_link(event)))
}

spec fn fair(settings: Settings, heard: Answers, action: Action) -> bool {
    &&& settings.dry_run ==> !action.changes()
    &&& action.changes() && action != Action::Lock ==> settings.assume_yes || heard.yes
    &&& action == Action::RemoveLink || action == Action::PutBack ==> heard.verified
        && heard.unchanged && heard.link
    &&& action != Action::DeleteOriginals && action != Action::MoveOriginalAside
    &&& !action.changes_destination()
}

proof fn lemma_sound_step(run: Undo, event: Event, settings: Settings, before: Answers, now: Answers)
    requires
        sound(run, settings, before),
        hears(before, run, event, now),
    ensures
        sound(next(run, event).0, settings, now),
        fair(settings, now, next(run, event).1),
{
}

proof fn lemma_heard_more(settings: Settings, events: Seq<Event>, n: int, point: Point, event: Event)
    requires
        0 <= n < events.len(),
    ensures
        heard(settings, events, n + 1, point, event) == (heard(settings, events, n, point, event) || (
        after(settings, events, n).point == point && events[n] == event)),
{
    if heard(settings, events, n + 1, point, event) {
        let i = choose|i: int|
            0 <= i < n + 1 && (#[trigger] after(settings, events, i)).point == point && events[i]
                == event;
        if i < n {
            assert(after(settings, events, i).point == point);
        }
    }
    if heard(settings, events, n, point, event) {
        let i = choose|i: int|
            0 <= i < n && (#[trigger] after(settings, events, i)).point == point && events[i] == event;
        assert(after(settings, events, i).point == point && i < n + 1);
    }
}

proof fn lemma_hears(settings: Settings, events: Seq<Event>, n: int)
    requires
        0 <= n < events.len(),
    ensures
        hears(
            answers(settings, events, n),
            after(settings, events, n),
            events[n],
            answers(settings, events, n + 1),
        ),
{
    lemma_heard_more(settings, events, n, Point::Locking, Event::Done);
    lemma_heard_more(settings, events, n, Point::Asking, Event::Answer(true));
    lemma_heard_more(settings, events, n, Point::Verifying, Event::Answer(true));
    lemma_heard_more(settings, events, n, Point::Rechecking, Event::Answer(true));
    if heard_link(settings, events, n + 1) {
        let i = choose|i: int|
            0 <= i < n + 1 && (#[trigger] after(settings, events, i)).point == Point::Looking
                && is_link(events[i]);
        if i < n {
            assert(after(settings, events, i).point == Point::Looking);
        }
    }
    if heard_link(settings, events, n) {
        let i = choose|i: int|
            0 <= i < n && (#[trigger] after(settings, events, i)).point == Point::Looking && is_link(
                events[i],
            );
        assert(after(settings, events, i).point == Point::Looking && i < n + 1);
    }
    if after(settings, events, n).point == Point::Looking && is_link(events[n]) {
        assert(heard_link(settings, events, n + 1));
    }
}

proof fn lemma_run_is_sound(settings: Settings, events: Seq<Event>, n: int)
    requires
        0 <= n <= events.len(),
    ensures
        sound(after(settings, events, n), settings, answers(settings, events, n)),
    decreases n,
{
    if n > 0 {
        lemma_run_is_sound(settings, events, n - 1);
        lemma_hears(settings, events, n - 1);
        lemma_sound_step(
            after(settings, events, n - 1),
            events[n - 1],
            settings,
            answers(settings, events, n - 1),
            answers(settings, events, n),
        );
    }
}

proof fn lemma_asked_is_fair(settings: Settings, events: Seq<Event>, i: int)
    requires
        0 <= i < events.len(),
    ensures
        fair(settings, answers(settings, events, i + 1), asked(settings, events, i)),
{
    lemma_run_is_sound(settings, events, i);
    lemma_hears(settings, events, i);
    lemma_sound_step(
        after(settings, events, i),
        events[i],
        settings,
        answers(settings, events, i),
        answers(settings, events, i + 1),
    );
}

/// A dry run never asks for a change, whatever it hears.
pub proof fn law_dry_run_changes_nothing(settings: Settings, events: Seq<Event>, i: int)
    requires
        settings.dry_run,
        0 <= i < events.len(),
    ensures
        !asked(settings, events, i).changes(),
{
    lemma_asked_is_fair(settings, events, i);
}

/// Nothing but the lock is changed without consent: given beforehand, or by the answer to the question.
pub proof fn law_changes_need_consent(settings: Settings, events: Seq<Event>, i: int)
    requires
        0 <= i < events.len(),
        asked(settings, events, i).changes(),
        asked(settings, events, i) != Action::Lock,
    ensures
        settings.assume_yes || heard(
            settings,
            events,
            i + 1,
            Point::Asking,
            Event::Answer(true),
        ),
{
    lemma_asked_is_fair(settings, events, i);
}

/// The link is removed, and the copy put in its place, only after every file of the copy was found to
/// match, the live data was found unchanged, and what is to be removed was seen to be a link.
pub proof fn law_link_stays_until_the_copy_is_checked(settings: Settings, events: Seq<Event>, i: int)
    requires
        0 <= i < events.len(),
        asked(settings, events, i) == Action::RemoveLink || asked(settings, events, i)
            == Action::PutBack,
    ensures
        heard(settings, events, i + 1, Point::Verifying, Event::Answer(true)),
        heard(settings, events, i + 1, Point::Rechecking, Event::Answer(true)),
        heard_link(settings, events, i + 1),
{
    lemma_asked_is_fair(settings, events, i);
}

/// Undoing deletes no data: the originals and the moved data stay where they are.
pub proof fn law_undo_keeps_both_copies(settings: Settings, events: Seq<Event>, i: int)
    requires
        0 <= i < events.len(),
    ensures
        asked(settings, events, i) != Action::DeleteOriginals,
        !asked(settings, events, i).changes_destination(),
{
    lemma_asked_is_fair(settings, events, i);
}

/// How many steps a run can still take.
pub open spec fn steps_left(point: Point) -> nat {
    match point {
        Point::Start => 15,
        Point::Locking => 14,
        Point::Inspecting => 13,
        Point::Checking => 12,
        Point::Inventory => 11,
        Point::Space => 10,
        Point::Asking => 9,
        Point::Copying => 8,
        Point::Verifying => 7,
        Point::Rechecking => 6,
        Point::Looking => 5,
        Point::Removing => 4,
        Point::PuttingBack => 3,
        Point::Syncing => 2,
        Point::Noting => 1,
        Point::Stopped => 0,
    }
}

/// Every run ends, whatever it hears: after at most 15 events it asks for nothing more.
pub proof fn law_every_undo_ends(settings: Settings, events: Seq<Event>, n: int)
    requires
        0 <= n <= events.len(),
    ensures
        n >= 15 ==> after(settings, events, n).point == Point::Stopped,
        after(settings, events, n).point == Point::Stopped || steps_left(
            after(settings, events, n).point,
        ) + n <= 15,
    decreases n,
{
    if n > 0 {
        law_every_undo_ends(settings, events, n - 1);
        let run = after(settings, events, n - 1);
        assert(steps_left(next(run, events[n - 1]).0.point) < steps_left(run.point) || run.point
            == Point::Stopped);
    }
    let point = after(settings, events, n).point;
    assert(point != Point::Stopped ==> steps_left(point) > 0);
}

/// An answer that speaks for going on.
pub open spec fn favourable(run: Undo, event: Event) -> bool {
    match run.point {
        Point::Start => event == Event::Begin,
        Point::Inspecting => event matches Event::Inspected { .. },
        Point::Checking => event == (Event::System { listed: true, running: false, read_only: false })
            && run.condition == Condition::Repaired,
        Point::Inventory => event matches Event::Inventory { escaping, .. } && !escaping,
        Point::Space => event matches Event::Space(free) && !short_of_room(free, run.bytes),
        Point::Asking => event matches Event::Answer(_),
        Point::Verifying => event == Event::Answer(true),
        Point::Rechecking => event == Event::Answer(true),
        Point::Looking => is_link(event),
        Point::Stopped => false,
        _ => event == Event::Done,
    }
}

/// A run that hears only answers that speak for going on either goes on or ends well.
pub proof fn law_good_answers_lead_on(run: Undo, event: Event)
    requires
        favourable(run, event),
    ensures
        next(run, event).1 matches Action::Stop(outcome) ==> outcome.well(),
{
}

} // verus!
