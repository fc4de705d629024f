//! Giving back the room that originals take: the decisions of `backup`, one step at a time.
//!
//! This is the only command that deletes anything. It does so when a person has reported that a game
//! starts and that a save loads, and when the live data has everything that the originals hold.

use vstd::prelude::*;

use crate::evidence::Result_;
use crate::protocol::{Action, Condition, Event, Outcome, Settings};

verus! {

/// What a run is waiting to hear.
#[derive(Debug, Clone, Copy, PartialEq, Eq, Structural)]
pub enum Point {
    Start,
    Locking,
    Inspecting,
    Checking,
    Judging,
    Comparing,
    Asking,
    Deleting,
    Syncing,
    Stopped,
}

/// A run of `backup`.
#[derive(Debug, Clone, Copy, PartialEq, Eq, Structural)]
pub struct Disposal {
    pub settings: Settings,
    pub point: Point,
    pub condition: Condition,
    /// Are there originals beside the library?
    pub originals: bool,
}

/// Goes on to a point, with something to do.
pub open spec fn to(run: Disposal, point: Point, action: Action) -> (Disposal, Action) {
    (Disposal { point, ..run }, action)
}

/// Ends the run.
pub open spec fn stop(run: Disposal, outcome: Outcome) -> (Disposal, Action) {
    (Disposal { point: Point::Stopped, ..run }, Action::Stop(outcome))
}

/// Ends the run because a step failed, or because what came back was no answer.
pub open spec fn missed(run: Disposal, event: Event) -> (Disposal, Action) {
    match event {
        Event::Failed => stop(run, Outcome::Failed),
        _ => stop(run, Outcome::OutOfStep),
    }
}

/// What a run does when it hears something.
pub open spec fn next(run: Disposal, event: Event) -> (Disposal, Action) {
    match run.point {
        Point::Start => match event {
            Event::Begin => if run.settings.dry_run {
                to(run, Point::Inspecting, Action::Inspect)
            } else {
                to(run, Point::Locking, Action::Lock)
            },
            _ => missed(run, event),
        },
        Point::Locking => match event {
            Event::Done => to(run, Point::Inspecting, Action::Inspect),
            _ => missed(run, event),
        },
        Point::Inspecting => match event {
            Event::Inspected { condition, occupied, originals } => to(
                Disposal { condition, originals, ..run },
                Point::Checking,
                Action::CheckSystem,
            ),
            _ => missed(run, event),
        },
        Point::Checking => match event {
            Event::System { listed, running, read_only } => if !listed {
                stop(run, Outcome::ProcessesUnknown)
            } else if running {
                stop(run, Outcome::ProcessesRunning)
            } else if read_only {
                stop(run, Outcome::ReadOnly)
            } else {
                match run.condition {
                    Condition::Repaired => if run.originals {
                        to(run, Point::Judging, Action::LoadEvidence)
                    } else {
                        stop(run, Outcome::NoOriginals)
                    },
                    _ => stop(run, Outcome::WrongState),
                }
            },
            _ => missed(run, event),
        },
        Point::Judging => match event {
            Event::Evidence { launch, save } => match (launch, save) {
                (Result_::Worked, Result_::Worked) => to(
                    run,
                    Point::Comparing,
                    Action::CompareOriginals,
                ),
                _ => stop(run, Outcome::NoEvidenceYet),
            },
            _ => missed(run, event),
        },
        Point::Comparing => match event {
            Event::Answer(carried) => if !carried {
                stop(run, Outcome::NotCarried)
            } else if run.settings.dry_run {
                stop(run, Outcome::DryRun)
            } else if run.settings.assume_yes {
                to(run, Point::Deleting, Action::DeleteOriginals)
            } else {
                to(run, Point::Asking, Action::Confirm)
            },
            _ => missed(run, event),
        },
        Point::Asking => match event {
            Event::Answer(yes) => if yes {
                to(run, Point::Deleting, Action::DeleteOriginals)
            } else {
                stop(run, Outcome::Cancelled)
            },
            _ => missed(run, event),
        },
        Point::Deleting => match event {
            Event::Done => to(run, Point::Syncing, Action::SyncLibrary),
            _ => missed(run, event),
        },
        Point::Syncing => match event {
            Event::Done => stop(run, Outcome::Deleted),
            _ => missed(run, event),
        },
        Point::Stopped => stop(run, Outcome::OutOfStep),
    }
}

/// A run that has not begun.
pub open spec fn fresh(settings: Settings) -> Disposal {
    Disposal { settings, point: Point::Start, condition: Condition::Other, originals: false }
}

fn go(run: Disposal, point: Point, action: Action) -> (out: (Disposal, Action))
    ensures
        out == to(run, point, action),
{
    (Disposal { point, ..run }, action)
}

fn halt(run: Disposal, outcome: Outcome) -> (out: (Disposal, Action))
    ensures
        out == stop(run, outcome),
{
    (Disposal { point: Point::Stopped, ..run }, Action::Stop(outcome))
}

fn miss(run: Disposal, event: Event) -> (out: (Disposal, Action))
    ensures
        out == missed(run, event),
{
    match event {
        Event::Failed => halt(run, Outcome::Failed),
        _ => halt(run, Outcome::OutOfStep),
    }
}

fn advance(run: Disposal, event: Event) -> (out: (Disposal, Action))
    ensures
        out == next(run, event),
{
    match run.point {
        Point::Start => match event {
            Event::Begin => if run.settings.dry_run {
                go(run, Point::Inspecting, Action::Inspect)
            } else {
                go(run, Point::Locking, Action::Lock)
            },
            _ => miss(run, event),
        },
        Point::Locking => match event {
            Event::Done => go(run, Point::Inspecting, Action::Inspect),
            _ => miss(run, event),
        },
        Point::Inspecting => match event {
            Event::Inspected { condition, occupied, originals } => go(
                Disposal { condition, originals, ..run },
                Point::Checking,
                Action::CheckSystem,
            ),
            _ => miss(run, event),
        },
        Point::Checking => match event {
            Event::System { listed, running, read_only } => if !listed {
                halt(run, Outcome::ProcessesUnknown)
            } else if running {
                halt(run, Outcome::ProcessesRunning)
            } else if read_only {
                halt(run, Outcome::ReadOnly)
            } else {
                match run.condition {
                    Condition::Repaired => if run.originals {
                        go(run, Point::Judging, Action::LoadEvidence)
                    } else {
                        halt(run, Outcome::NoOriginals)
                    },
                    _ => halt(run, Outcome::WrongState),
                }
            },
            _ => miss(run, event),
        },
        Point::Judging => match event {
            Event::Evidence { launch, save } => match (launch, save) {
                (Result_::Worked, Result_::Worked) => go(
                    run,
                    Point::Comparing,
                    Action::CompareOriginals,
                ),
                _ => halt(run, Outcome::NoEvidenceYet),
            },
            _ => miss(run, event),
        },
        Point::Comparing => match event {
            Event::Answer(carried) => if !carried {
                halt(run, Outcome::NotCarried)
            } else if run.settings.dry_run {
                halt(run, Outcome::DryRun)
            } else if run.settings.assume_yes {
                go(run, Point::Deleting, Action::DeleteOriginals)
            } else {
                go(run, Point::Asking, Action::Confirm)
            },
            _ => miss(run, event),
        },
        Point::Asking => match event {
            Event::Answer(yes) => if yes {
                go(run, Point::Deleting, Action::DeleteOriginals)
            } else {
                halt(run, Outcome::Cancelled)
            },
            _ => miss(run, event),
        },
        Point::Deleting => match event {
            Event::Done => go(run, Point::Syncing, Action::SyncLibrary),
            _ => miss(run, event),
        },
        Point::Syncing => match event {
            Event::Done => halt(run, Outcome::Deleted),
            _ => miss(run, event),
        },
        Point::Stopped => halt(run, Outcome::OutOfStep),
    }
}

impl Disposal {
    pub fn new(settings: Settings) -> (run: Disposal)
        ensures
            run == fresh(settings),
    {
        Disposal { settings, point: Point::Start, condition: Condition::Other, originals: false }
    }

    /// Tells the run what came of the last step, and hears what to do next.
    pub fn step(&mut self, event: Event) -> (action: Action)
        ensures
            (*final(self), action) == next(*old(self), event),
    {
        let (run, action) = advance(*self, event);
        *self = run;
        action
    }
}

/// The run after it heard the first `n` events.
pub open spec fn after(settings: Settings, events: Seq<Event>, n: int) -> Disposal
    decreases n,
{
    if n <= 0 {
        fresh(settings)
    } else {
        next(after(settings, events, n - 1), events[n - 1]).0
    }
}

/// What the run asks for when it hears event `i`.
pub open spec fn asked(settings: Settings, events: Seq<Event>, i: int) -> Action {
    next(after(settings, events, i), events[i]).1
}

/// Did the run, among its first `n` events, hear the given one at the given point?
pub open spec fn heard(settings: Settings, events: Seq<Event>, n: int, point: Point, event: Event) -> bool {
    exists|i: int|
        0 <= i < n && (#[trigger] after(settings, events, i)).point == point && events[i] == event
}

struct Answers {
    yes: bool,
    established: bool,
    carried: bool,
}

/// Was it heard that a game starts and that a save loads?
pub open spec fn heard_evidence(settings: Settings, events: Seq<Event>, n: int) -> bool {
    heard(
        settings,
        events,
        n,
        Point::Judging,
        Event::Evidence { launch: Result_::Worked, save: Result_::Worked },
    )
}

spec fn answers(settings: Settings, events: Seq<Event>, n: int) -> Answers {
    Answers {
        yes: heard(settings, events, n, Point::Asking, Event::Answer(true)),
        established: heard_evidence(settings, events, n),
        carried: heard(settings, events, n, Point::Comparing, Event::Answer(true)),
    }
}

spec fn sound(run: Disposal, settings: Settings, heard: Answers) -> bool {
    &&& run.settings == settings
    &&& settings.dry_run ==> run.point != Point::Locking && run.point != Point::Asking && run.point
        != Point::Deleting && run.point != Point::Syncing
    &&& run.point == Point::Comparing || run.point == Point::Asking || run.point == Point::Deleting
        || run.point == Point::Syncing ==> heard.established
    &&& run.point == Point::Asking || run.point == Point::Deleting || run.point == Point::Syncing
        ==> heard.carried
    &&& run.point == Point::Deleting || run.point == Point::Syncing ==> settings.assume_yes
        || heard.yes
}

spec fn hears(before: Answers, run: Disposal, event: Event, now: Answers) -> bool {
    &&& now.yes == (before.yes || (run.point == Point::Asking && event == Event::Answer(true)))
    &&& now.established == (before.established || (run.point == Point::Judging && event == (
    Event::Evidence { launch: Result_::Worked, save: Result_::Worked })))
    &&& now.carried == (before.carried || (run.point == Point::Comparing && event == Event::Answer(
        true,
    )))
}

spec fn fair(settings: Settings, heard: Answers, action: Action) -> bool {
    &&& settings.dry_run ==> !action.changes()
    &&& action.changes() && action != Action::Lock ==> settings.assume_yes || heard.yes
    &&& action.changes() && action != Action::Lock ==> heard.established && heard.carried
}

proof fn lemma_sound_step(run: Disposal, event: Event, settings: Settings, before: Answers, now: Answers)
    requires
        sound(run, settings, before),
        hears(before, run, event, now),
    ensures
        sound(next(run, event).0, settings, now),
        fair(settings, now, next(run, event).1),
{
}

proof fn lemma_heard_more(settings: Settings, events: Seq<Event>, n: int, point: Point, event: Event)
    requires
        0 <= n < events.len(),
    ensures
        heard(settings, events, n + 1, point, event) == (heard(settings, events, n, point, event) || (
        after(settings, events, n).point == point && events[n] == event)),
{
    if heard(settings, events, n + 1, point, event) {
        let i = choose|i: int|
            0 <= i < n + 1 && (#[trigger] after(settings, events, i)).point == point && events[i]
                == event;
        if i < n {
            assert(after(settings, events, i).point == point);
        }
    }
    if heard(settings, events, n, point, event) {
        let i = choose|i: int|
            0 <= i < n && (#[trigger] after(settings, events, i)).point == point && events[i] == event;
        assert(after(settings, events, i).point == point && i < n + 1);
    }
}

proof fn lemma_hears(settings: Settings, events: Seq<Event>, n: int)
    requires
        0 <= n < events.len(),
    ensures
        hears(
            answers(settings, events, n),
            after(settings, events, n),
            events[n],
            answers(settings, events, n + 1),
        ),
{
    lemma_heard_more(settings, events, n, Point::Asking, Event::Answer(true));
    lemma_heard_more(settings, events, n, Point::Comparing, Event::Answer(true));
    lemma_heard_more(
        settings,
        events,
        n,
        Point::Judging,
        Event::Evidence { launch: Result_::Worked, save: Result_::Worked },
    );
}

proof fn lemma_run_is_sound(settings: Settings, events: Seq<Event>, n: int)
    requires
        0 <= n <= events.len(),
    ensures
        sound(after(settings, events, n), settings, answers(settings, events, n)),
    decreases n,
{
    if n > 0 {
        lemma_run_is_sound(settings, events, n - 1);
        lemma_hears(settings, events, n - 1);
        lemma_sound_step(
            after(settings, events, n - 1),
            events[n - 1],
            settings,
            answers(settings, events, n - 1),
            answers(settings, events, n),
        );
    }
}

proof fn lemma_asked_is_fair(settings: Settings, events: Seq<Event>, i: int)
    requires
        0 <= i < events.len(),
    ensures
        fair(settings, answers(settings, events, i + 1), asked(settings, events, i)),
{
    lemma_run_is_sound(settings, events, i);
    lemma_hears(settings, events, i);
    lemma_sound_step(
        after(settings, events, i),
        events[i],
        settings,
        answers(settings, events, i),
        answers(settings, events, i + 1),
    );
}

/// A dry run never asks for a change, whatever it hears.
pub proof fn law_dry_run_changes_nothing(settings: Settings, events: Seq<Event>, i: int)
    requires
        settings.dry_run,
        0 <= i < events.len(),
    ensures
        !asked(settings, events, i).changes(),
{
    lemma_asked_is_fair(settings, events, i);
}

/// Nothing but the lock is changed without consent: given beforehand, or by the answer to the question.
pub proof fn law_changes_need_consent(settings: Settings, events: Seq<Event>, i: int)
    requires
        0 <= i < events.len(),
        asked(settings, events, i).changes(),
        asked(settings, events, i) != Action::Lock,
    ensures
        settings.assume_yes || heard(
            settings,
            events,
            i + 1,
            Point::Asking,
            Event::Answer(true),
        ),
{
    lemma_asked_is_fair(settings, events, i);
}

/// Originals are only deleted when it was recorded that a game starts and that a save loads, and the live
/// data was found to have everything they hold.
pub proof fn law_originals_stay_until_proven_needless(settings: Settings, events: Seq<Event>, i: int)
    requires
        0 <= i < events.len(),
        asked(settings, events, i) == Action::DeleteOriginals,
    ensures
        heard_evidence(settings, events, i + 1),
        heard(settings, events, i + 1, Point::Comparing, Event::Answer(true)),
        settings.assume_yes || heard(
            settings,
            events,
            i + 1,
            Point::Asking,
            Event::Answer(true),
        ),
{
    lemma_asked_is_fair(settings, events, i);
}

/// How many steps a run can still take.
pub open spec fn steps_left(point: Point) -> nat {
    match point {
        Point::Start => 9,
        Point::Locking => 8,
        Point::Inspecting => 7,
        Point::Checking => 6,
        Point::Judging => 5,
        Point::Comparing => 4,
        Point::Asking => 3,
        Point::Deleting => 2,
        Point::Syncing => 1,
        Point::Stopped => 0,
    }
}

/// Every run ends, whatever it hears: after at most nine events it asks for nothing more.
pub proof fn law_every_disposal_ends(settings: Settings, events: Seq<Event>, n: int)
    requires
        0 <= n <= events.len(),
    ensures
        n >= 9 ==> after(settings, events, n).point == Point::Stopped,
        after(settings, events, n).point == Point::Stopped || steps_left(
            after(settings, events, n).point,
        ) + n <= 9,
    decreases n,
{
    if n > 0 {
        law_every_disposal_ends(settings, events, n - 1);
        let run = after(settings, events, n - 1);
        assert(steps_left(next(run, events[n - 1]).0.point) < steps_left(run.point) || run.point
            == Point::Stopped);
    }
    let point = after(settings, events, n).point;
    assert(point != Point::Stopped ==> steps_left(point) > 0);
}

/// An answer that speaks for going on.
pub open spec fn favourable(run: Disposal, event: Event) -> bool {
    match run.point {
        Point::Start => event == Event::Begin,
        Point::Inspecting => event matches Event::Inspected { .. },
        Point::Checking => event == (Event::System { listed: true, running: false, read_only: false })
            && run.condition == Condition::Repaired && run.originals,
        Point::Judging => event == (Event::Evidence { launch: Result_::Worked, save: Result_::Worked }),
        Point::Comparing => event == Event::Answer(true),
        Point::Asking => event matches Event::Answer(_),
        Point::Stopped => false,
        _ => event == Event::Done,
    }
}

/// A run that hears only answers that speak for going on either goes on or ends well.
pub proof fn law_good_answers_lead_on(run: Disposal, event: Event)
    requires
        favourable(run, event),
    ensures
        next(run, event).1 matches Action::Stop(outcome) ==> outcome.well(),
{
}

} // verus!
