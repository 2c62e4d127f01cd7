//! The deletion engine as a state machine.
//!
//! The engine never touches the file system. It is told what happened (an
//! [`Event`]) and answers with what to do next (an [`Action`]). A driver
//! performs each action and reports back with the matching event, beginning
//! with [`Event::Begin`] and ending when it is handed [`Action::Finish`].
//!
//! ```text
//! Idle ─Begin→ Probing ─missing→ Finished(NotFound)
//!                      ─file───→ RemovingFile ─→ Finished
//!                      ─dir────→ Scanning ─spoiled→ Finished(Scan failure)
//!                                         ─ok─→ Sweeping ─root gone──→ Finished(Success)
//!                                                        ─root there→ Surveying
//! Surveying ─ok─────→ Repairing ─→ Retrying ─→ Finished
//!           ─spoiled→ Retrying
//! ```

use vstd::prelude::*;
use crate::entry::EntryKind;
use crate::outcome::{Failure, Outcome};
use crate::plan::{bucketize, groups, DeletionPlan};
use crate::scan::{collect_entries, found, paths_of, readable, repair_targets, WalkItem};

verus! {

/// Where the deletion of one target stands.
#[derive(Clone, Copy, Debug, PartialEq, Eq, Structural)]
pub enum Phase {
    /// Nothing has been asked of the driver yet.
    Idle,
    /// Waiting to learn what is at the root path.
    Probing,
    /// Waiting for the removal of a root that is a single file.
    RemovingFile,
    /// Waiting for the walk of the tree.
    Scanning,
    /// Waiting for every removal task of the plan to end.
    Sweeping,
    /// Waiting for the walk that precedes a repair.
    Surveying,
    /// Waiting for read-only attributes to be cleared.
    Repairing,
    /// Waiting for the one removal of the root that follows a repair.
    Retrying,
    /// The outcome has been handed out.
    Finished,
}

/// What the driver reports.
#[derive(Debug)]
pub enum Event<P, E> {
    /// The driver is ready to start on a target.
    Begin,
    /// What is at the root path: nothing, or a node of the given kind.
    RootProbed(Option<EntryKind>),
    /// The items of a walk of the tree.
    Scanned(Vec<WalkItem<P>>),
    /// All removal tasks have ended; `root_remains` says whether the root
    /// path still exists.
    Swept { root_remains: bool },
    /// The items of a second walk, made to find what to repair.
    Surveyed(Vec<WalkItem<P>>),
    /// The attributes of every repair target have been dealt with.
    Cleared,
    /// How a removal of the root went.
    Removed(Result<(), E>),
}

/// What the engine asks of the driver.
#[derive(Debug, PartialEq, Eq)]
pub enum Action<P, E> {
    /// Find out what is at the root path. Answer: [`Event::RootProbed`].
    ProbeRoot,
    /// Clear the read-only attribute of the root and remove it as a file.
    /// Answer: [`Event::Removed`].
    RemoveFile,
    /// Walk the tree below the root. Answer: [`Event::Scanned`].
    Scan,
    /// Submit one removal task per bucket, in the plan's order, drop the
    /// errors of single removals, wait for all tasks, then look whether the
    /// root is still there. Answer: [`Event::Swept`].
    Sweep(DeletionPlan<P>),
    /// Walk what is left below the root. Answer: [`Event::Surveyed`].
    Survey,
    /// Clear the read-only attribute of each path. Answer: [`Event::Cleared`].
    ClearReadOnly(Vec<P>),
    /// Remove the root and all that is left below it in one recursive
    /// removal. Answer: [`Event::Removed`].
    RemoveTree,
    /// Stop: this is the outcome for the target.
    Finish(Outcome<E>),
}

impl<P, E> Action<P, E> {
    /// Whether carrying out this action changes anything on disk.
    pub open spec fn mutates(self) -> bool {
        self is RemoveFile || self is Sweep || self is ClearReadOnly || self is RemoveTree
    }

    /// Whether carrying out this action changes anything on disk.
    pub fn changes_disk(&self) -> (yes: bool)
        ensures
            yes == self.mutates(),
    {
        match self {
            Action::RemoveFile => true,
            Action::Sweep(_) => true,
            Action::ClearReadOnly(_) => true,
            Action::RemoveTree => true,
            _ => false,
        }
    }
}

/// The phase that follows `phase` when `event` is reported in it, or `None`
/// if `event` is not an answer to what was asked in `phase`.
pub open spec fn next_phase<P, E>(phase: Phase, event: Event<P, E>) -> Option<Phase> {
    match (phase, event) {
        (Phase::Idle, Event::Begin) => Some(Phase::Probing),
        (Phase::Probing, Event::RootProbed(None)) => Some(Phase::Finished),
        (Phase::Probing, Event::RootProbed(Some(EntryKind::File))) => Some(Phase::RemovingFile),
        (Phase::Probing, Event::RootProbed(Some(EntryKind::Directory))) => Some(Phase::Scanning),
        (Phase::RemovingFile, Event::Removed(_)) => Some(Phase::Finished),
        (Phase::Scanning, Event::Scanned(items)) => if readable(items@) {
            Some(Phase::Sweeping)
        } else {
            Some(Phase::Finished)
        },
        (Phase::Sweeping, Event::Swept { root_remains }) => if root_remains {
            Some(Phase::Surveying)
        } else {
            Some(Phase::Finished)
        },
        (Phase::Surveying, Event::Surveyed(items)) => if readable(items@) {
            Some(Phase::Repairing)
        } else {
            Some(Phase::Retrying)
        },
        (Phase::Repairing, Event::Cleared) => Some(Phase::Retrying),
        (Phase::Retrying, Event::Removed(_)) => Some(Phase::Finished),
        _ => None,
    }
}

/// `action` is what the engine asks for when `event` is reported in `phase`.
/// For every accepted pair of phase and event exactly one action fits.
pub open spec fn answers<P, E>(phase: Phase, event: Event<P, E>, action: Action<P, E>) -> bool {
    match (phase, event) {
        (Phase::Idle, Event::Begin) => action is ProbeRoot,
        (Phase::Probing, Event::RootProbed(None)) => action == Action::<P, E>::Finish(
            Outcome::NotFound,
        ),
        (Phase::Probing, Event::RootProbed(Some(EntryKind::File))) => action is RemoveFile,
        (Phase::Probing, Event::RootProbed(Some(EntryKind::Directory))) => action is Scan,
        (Phase::RemovingFile, Event::Removed(Ok(_))) => action == Action::<P, E>::Finish(
            Outcome::Success,
        ),
        (Phase::RemovingFile, Event::Removed(Err(e))) => action == Action::<P, E>::Finish(
            Outcome::PartialFailure(Failure::File(e)),
        ),
        (Phase::Scanning, Event::Scanned(items)) => if readable(items@) {
            action matches Action::Sweep(plan) && groups(plan@, found(items@))
        } else {
            action == Action::<P, E>::Finish(Outcome::PartialFailure(Failure::Scan))
        },
        (Phase::Sweeping, Event::Swept { root_remains }) => if root_remains {
            action is Survey
        } else {
            action == Action::<P, E>::Finish(Outcome::Success)
        },
        (Phase::Surveying, Event::Surveyed(items)) => if readable(items@) {
            action matches Action::ClearReadOnly(paths) && paths@ == paths_of(found(items@))
        } else {
            action is RemoveTree
        },
        (Phase::Repairing, Event::Cleared) => action is RemoveTree,
        (Phase::Retrying, Event::Removed(Ok(_))) => action == Action::<P, E>::Finish(
            Outcome::Success,
        ),
        (Phase::Retrying, Event::Removed(Err(e))) => action == Action::<P, E>::Finish(
            Outcome::PartialFailure(Failure::Residual(e)),
        ),
        _ => false,
    }
}

/// The deletion of one target, from the first probe to the outcome.
#[derive(Debug)]
pub struct Engine {
    phase: Phase,
}

impl Engine {
    /// The phase the engine is in.
    pub closed spec fn spec_phase(&self) -> Phase {
        self.phase
    }

    /// An engine for one target, with nothing asked yet.
    pub fn new() -> (engine: Engine)
        ensures
            engine.phase() == Phase::Idle,
    {
        Engine { phase: Phase::Idle }
    }

    /// The phase the engine is in.
    #[verifier::when_used_as_spec(spec_phase)]
    pub fn phase(&self) -> (phase: Phase)
        ensures
            phase == self.spec_phase(),
    {
        self.phase
    }

    /// Takes what the driver reports and says what to do next.
    ///
    /// An event that does not answer what was last asked is refused: the
    /// result is `None` and the engine stays as it was.
    pub fn step<P, E>(&mut self, event: Event<P, E>) -> (action: Option<Action<P, E>>)
        ensures
            match next_phase(old(self).phase(), event) {
                Some(next) => {
                    &&& final(self).phase() == next
                    &&& action matches Some(asked) && answers(old(self).phase(), event, asked)
                },
                None => final(self).phase() == old(self).phase() && action is None,
            },
    {
        match (self.phase, event) {
            (Phase::Idle, Event::Begin) => {
                self.phase = Phase::Probing;
                Some(Action::ProbeRoot)
            },
            (Phase::Probing, Event::RootProbed(None)) => {
                self.phase = Phase::Finished;
                Some(Action::Finish(Outcome::NotFound))
            },
            (Phase::Probing, Event::RootProbed(Some(EntryKind::File))) => {
                self.phase = Phase::RemovingFile;
                Some(Action::RemoveFile)
            },
            (Phase::Probing, Event::RootProbed(Some(EntryKind::Directory))) => {
                self.phase = Phase::Scanning;
                Some(Action::Scan)
            },
            (Phase::RemovingFile, Event::Removed(result)) => {
                self.phase = Phase::Finished;
                match result {
                    Ok(_) => Some(Action::Finish(Outcome::Success)),
                    Err(e) => Some(Action::Finish(Outcome::PartialFailure(Failure::File(e)))),
                }
            },
            (Phase::Scanning, Event::Scanned(items)) => {
                match collect_entries(items) {
                    Some(entries) => {
                        self.phase = Phase::Sweeping;
                        Some(Action::Sweep(bucketize(entries)))
                    },
                    None => {
                        self.phase = Phase::Finished;
                        Some(Action::Finish(Outcome::PartialFailure(Failure::Scan)))
                    },
                }
            },
            (Phase::Sweeping, Event::Swept { root_remains }) => {
                if root_remains {
                    self.phase = Phase::Surveying;
                    Some(Action::Survey)
                } else {
                    self.phase = Phase::Finished;
                    Some(Action::Finish(Outcome::Success))
                }
            },
            (Phase::Surveying, Event::Surveyed(items)) => {
                match repair_targets(items) {
                    Some(paths) => {
                        self.phase = Phase::Repairing;
                        Some(Action::ClearReadOnly(paths))
                    },
                    None => {
                        self.phase = Phase::Retrying;
                        Some(Action::RemoveTree)
                    },
                }
            },
            (Phase::Repairing, Event::Cleared) => {
                self.phase = Phase::Retrying;
                Some(Action::RemoveTree)
            },
            (Phase::Retrying, Event::Removed(result)) => {
                self.phase = Phase::Finished;
                match result {
                    Ok(_) => Some(Action::Finish(Outcome::Success)),
                    Err(e) => Some(Action::Finish(Outcome::PartialFailure(Failure::Residual(e)))),
                }
            },
            _ => None,
        }
    }
}

/// How far a phase lies from the start. Every accepted event leads to a
/// phase of higher rank.
pub open spec fn rank(phase: Phase) -> nat {
    match phase {
        Phase::Idle => 0,
        Phase::Probing => 1,
        Phase::RemovingFile => 2,
        Phase::Scanning => 2,
        Phase::Sweeping => 3,
        Phase::Surveying => 4,
        Phase::Repairing => 5,
        Phase::Retrying => 6,
        Phase::Finished => 7,
    }
}

/// The phase reached from `start` when `events` are reported one after the
/// other, or `None` if one of them is refused.
pub open spec fn phase_after<P, E>(start: Phase, events: Seq<Event<P, E>>) -> Option<Phase>
    decreases events.len(),
{
    if events.len() == 0 {
        Some(start)
    } else {
        match phase_after(start, events.drop_last()) {
            Some(phase) => next_phase(phase, events.last()),
            None => None,
        }
    }
}

/// The phase in which a fresh engine receives `events[at]`.
pub open spec fn phase_at<P, E>(events: Seq<Event<P, E>>, at: int) -> Option<Phase> {
    phase_after(Phase::Idle, events.take(at))
}

/// `actions[at]` is the engine's answer to `events[at]`.
pub open spec fn answered<P, E>(
    events: Seq<Event<P, E>>,
    actions: Seq<Action<P, E>>,
    at: int,
) -> bool {
    phase_at(events, at) matches Some(phase) && answers(phase, events[at], actions[at])
}

/// `events` is what a driver reported to a fresh engine, every event
/// accepted, and `actions` is what the engine asked in answer, one action
/// for each event.
pub open spec fn is_run<P, E>(events: Seq<Event<P, E>>, actions: Seq<Action<P, E>>) -> bool {
    &&& actions.len() == events.len()
    &&& forall|at: int| 0 <= at < events.len() ==> #[trigger] answered(events, actions, at)
}

/// The phase after one more event is the next phase of the phase before it.
proof fn lemma_phase_at_next<P, E>(events: Seq<Event<P, E>>, at: int)
    requires
        0 <= at < events.len(),
    ensures
        phase_at(events, 0) == Some(Phase::Idle),
        phase_at(events, at + 1) == match phase_at(events, at) {
            Some(phase) => next_phase(phase, events[at]),
            None => None,
        },
{
    assert(events.take(at + 1).drop_last() =~= events.take(at));
    assert(events.take(at + 1).last() == events[at]);
}

/// In a run, each event moves the engine at least one rank up.
proof fn lemma_rank_climbs<P, E>(events: Seq<Event<P, E>>, actions: Seq<Action<P, E>>, at: int)
    requires
        is_run(events, actions),
        0 <= at <= events.len(),
    ensures
        phase_at(events, at) matches Some(phase) && rank(phase) >= at,
    decreases at,
{
    if at > 0 {
        lemma_rank_climbs(events, actions, at - 1);
        lemma_phase_at_next(events, at - 1);
        assert(answered(events, actions, at - 1));
    }
}

/// Every accepted event takes the engine strictly closer to its end, so a
/// deletion is over after at most seven events: there is one sweep, at most
/// one repair and at most one retry.
pub proof fn law_runs_are_short<P, E>(events: Seq<Event<P, E>>, actions: Seq<Action<P, E>>)
    requires
        is_run(events, actions),
    ensures
        events.len() <= 7,
        forall|phase: Phase, event: Event<P, E>|
            #![trigger next_phase(phase, event)]
            next_phase(phase, event) matches Some(next) ==> rank(next) > rank(phase),
{
    lemma_rank_climbs(events, actions, events.len() as int);
}

/// Success is reported only on the driver's word that the root is gone:
/// either a removal of the root went through, or the root was found missing
/// once the sweep had ended.
pub proof fn law_success_is_observed<P, E>(events: Seq<Event<P, E>>, actions: Seq<Action<P, E>>)
    requires
        is_run(events, actions),
        events.len() > 0,
        actions.last() == Action::<P, E>::Finish(Outcome::Success),
    ensures
        events.last() matches Event::Removed(Ok(_)) || events.last() == (Event::<P, E>::Swept {
            root_remains: false,
        }),
{
    assert(answered(events, actions, events.len() - 1));
}

/// Deleting what is not there changes nothing: the engine asks for the
/// probe, reports `NotFound` and is done, without having asked for anything
/// that changes the disk.
pub proof fn law_missing_root_is_left_alone<P, E>(
    events: Seq<Event<P, E>>,
    actions: Seq<Action<P, E>>,
)
    requires
        is_run(events, actions),
        events.len() >= 2,
        events[1] == Event::<P, E>::RootProbed(None),
    ensures
        events.len() == 2,
        actions[1] == Action::<P, E>::Finish(Outcome::NotFound),
        forall|at: int| 0 <= at < actions.len() ==> !(#[trigger] actions[at]).mutates(),
{
    lemma_phase_at_next(events, 0);
    lemma_phase_at_next(events, 1);
    assert(answered(events, actions, 0));
    assert(answered(events, actions, 1));
    if events.len() > 2 {
        assert(answered(events, actions, 2));
    }
}

/// A root that is a single file is removed directly: the engine asks for
/// that one removal and reports how it went. It never asks for a walk, a
/// sweep or a repair.
pub proof fn law_single_file_is_removed_directly<P, E>(
    events: Seq<Event<P, E>>,
    actions: Seq<Action<P, E>>,
)
    requires
        is_run(events, actions),
        events.len() >= 2,
        events[1] == Event::<P, E>::RootProbed(Some(EntryKind::File)),
    ensures
        actions[1] is RemoveFile,
        events.len() <= 3,
        events.len() == 3 ==> match events[2] {
            Event::Removed(Ok(_)) => actions[2] == Action::<P, E>::Finish(Outcome::Success),
            Event::Removed(Err(e)) => actions[2] == Action::<P, E>::Finish(
                Outcome::PartialFailure(Failure::File(e)),
            ),
            _ => false,
        },
        forall|at: int|
            0 <= at < actions.len() ==> {
                let asked = #[trigger] actions[at];
                asked is ProbeRoot || asked is RemoveFile || asked is Finish
            },
{
    lemma_phase_at_next(events, 0);
    lemma_phase_at_next(events, 1);
    assert(answered(events, actions, 0));
    assert(answered(events, actions, 1));
    if events.len() > 2 {
        lemma_phase_at_next(events, 2);
        assert(answered(events, actions, 2));
        if events.len() > 3 {
            assert(answered(events, actions, 3));
        }
    }
}

/// A root that outlives the sweep is not given up. The engine asks for a
/// survey of what is left; if the survey is readable it asks for the
/// read-only attribute to be cleared on every path surveyed; then, spoiled
/// survey or not, it asks for one recursive removal of the root, and that
/// removal alone decides between success and failure. There is no second
/// retry.
pub proof fn law_residue_is_repaired_and_retried_once<P, E>(
    events: Seq<Event<P, E>>,
    actions: Seq<Action<P, E>>,
)
    requires
        is_run(events, actions),
        events.len() > 0,
        exists|at: int|
            0 <= at < events.len() && #[trigger] events[at] == (Event::<P, E>::Swept {
                root_remains: true,
            }),
        actions.last() is Finish,
    ensures
        events[3] == (Event::<P, E>::Swept { root_remains: true }),
        actions[3] is Survey,
        match events[4] {
            Event::Surveyed(items) => if readable(items@) {
                &&& events.len() == 7
                &&& actions[4] matches Action::ClearReadOnly(paths) && paths@ == paths_of(
                    found(items@),
                )
                &&& actions[5] is RemoveTree
            } else {
                &&& events.len() == 6
                &&& actions[4] is RemoveTree
            },
            _ => false,
        },
        match events.last() {
            Event::Removed(Ok(_)) => actions.last() == Action::<P, E>::Finish(Outcome::Success),
            Event::Removed(Err(e)) => actions.last() == Action::<P, E>::Finish(
                Outcome::PartialFailure(Failure::Residual(e)),
            ),
            _ => false,
        },
{
    let hit = choose|at: int|
        0 <= at < events.len() && #[trigger] events[at] == (Event::<P, E>::Swept {
            root_remains: true,
        });
    law_runs_are_short(events, actions);
    lemma_phase_at_next(events, 0);
    assert(answered(events, actions, 0));
    assert(answered(events, actions, events.len() - 1));
    assert(answered(events, actions, hit));
    if events.len() > 1 {
        lemma_phase_at_next(events, 1);
        assert(answered(events, actions, 1));
    }
    if events.len() > 2 {
        lemma_phase_at_next(events, 2);
        assert(answered(events, actions, 2));
    }
    if events.len() > 3 {
        lemma_phase_at_next(events, 3);
        assert(answered(events, actions, 3));
    }
    if events.len() > 4 {
        lemma_phase_at_next(events, 4);
        assert(answered(events, actions, 4));
    }
    if events.len() > 5 {
        lemma_phase_at_next(events, 5);
        assert(answered(events, actions, 5));
    }
    if events.len() > 6 {
        lemma_phase_at_next(events, 6);
        assert(answered(events, actions, 6));
    }
}

} // verus!
