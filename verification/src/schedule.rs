//! The annealing schedule: which step of the search comes next, and what
//! each observation does to the search.
//!
//! The search itself works on energies and a temperature that the caller
//! holds. The schedule never sees them. It is told the outcome of each
//! comparison the search makes, and answers with what to do to the current
//! state or to the temperature, and with the phase that says what to
//! observe next.

use vstd::prelude::*;

verus! {

/// Number of trial moves in one sweep at a fixed temperature.
pub const TRIALS_PER_SWEEP: u32 = 150;

/// Where the search stands, and so which observation it waits for.
#[derive(Clone, Copy, Debug, PartialEq, Eq)]
pub enum Phase {
    /// Before a sweep: waits for `Event::Temperature`.
    Gauge,
    /// In a sweep with `done` trials behind it: waits for a candidate and
    /// its `Event::Energies`.
    Compare { done: u32 },
    /// The candidate of trial `done` is no improvement: waits for the
    /// `Event::Drawn` of the acceptance test.
    Draw { done: u32 },
    /// After the last trial of a sweep: waits for `Event::Flipped`.
    Coin,
    /// The search is over.
    Finished,
}

/// One observation made by the search.
#[derive(Clone, Copy, Debug, PartialEq, Eq)]
pub enum Event {
    /// Whether the temperature is still above the stopping threshold.
    Temperature { above_threshold: bool },
    /// Whether the candidate's energy is strictly below the current one.
    Energies { improves: bool },
    /// Whether a uniform draw fell below the acceptance probability of a
    /// candidate that is no improvement.
    Drawn { below: bool },
    /// Whether the fair coin that decides on cooling came up heads.
    Flipped { heads: bool },
}

/// What the search does in answer to an observation.
#[derive(Clone, Copy, Debug, PartialEq, Eq)]
pub enum Action {
    /// Nothing changes.
    Proceed,
    /// The candidate becomes the current state.
    Adopt,
    /// The candidate is dropped.
    Discard,
    /// The temperature is lowered by the cooling rate.
    Cool,
    /// The temperature stays as it is.
    Hold,
    /// The search ends and returns the current state.
    Halt,
    /// The observation is not the one the phase waits for: nothing
    /// changes, the phase included.
    OutOfTurn,
}

impl Phase {
    /// A phase inside a sweep counts fewer trials than a sweep has.
    pub open spec fn wf(self) -> bool {
        match self {
            Phase::Compare { done } => done < TRIALS_PER_SWEEP,
            Phase::Draw { done } => done < TRIALS_PER_SWEEP,
            _ => true,
        }
    }

    /// Whether `event` is the observation that the phase waits for.
    pub open spec fn awaits(self, event: Event) -> bool {
        match (self, event) {
            (Phase::Gauge, Event::Temperature { .. }) => true,
            (Phase::Compare { .. }, Event::Energies { .. }) => true,
            (Phase::Draw { .. }, Event::Drawn { .. }) => true,
            (Phase::Coin, Event::Flipped { .. }) => true,
            _ => false,
        }
    }

    /// The phase in which every search begins.
    pub fn start() -> (phase: Phase)
        ensures
            phase == Phase::Gauge,
    {
        Phase::Gauge
    }
}

/// The phase after trial number `done` has been decided: the next trial,
/// or the coin once the sweep is complete.
pub open spec fn after_trial(done: u32) -> Phase {
    if done + 1 < TRIALS_PER_SWEEP {
        Phase::Compare { done: (done + 1) as u32 }
    } else {
        Phase::Coin
    }
}

/// The schedule as a function: the next phase and the action for an
/// observation made in `phase`.
pub open spec fn step_spec(phase: Phase, event: Event) -> (Phase, Action) {
    match (phase, event) {
        (Phase::Gauge, Event::Temperature { above_threshold }) => if above_threshold {
            (Phase::Compare { done: 0 }, Action::Proceed)
        } else {
            (Phase::Finished, Action::Halt)
        },
        (Phase::Compare { done }, Event::Energies { improves }) => if improves {
            (after_trial(done), Action::Adopt)
        } else {
            (Phase::Draw { done }, Action::Proceed)
        },
        (Phase::Draw { done }, Event::Drawn { below }) => if below {
            (after_trial(done), Action::Adopt)
        } else {
            (after_trial(done), Action::Discard)
        },
        (Phase::Coin, Event::Flipped { heads }) => if heads {
            (Phase::Gauge, Action::Cool)
        } else {
            (Phase::Gauge, Action::Hold)
        },
        _ => (phase, Action::OutOfTurn),
    }
}

/// The phase reached from `phase` after the observations `events`, in
/// order.
pub open spec fn run(phase: Phase, events: Seq<Event>) -> Phase
    decreases events.len(),
{
    if events.len() == 0 {
        phase
    } else {
        step_spec(run(phase, events.drop_last()), events.last()).0
    }
}

/// The actions given from `phase` on for the observations `events`, one
/// for each, in order.
pub open spec fn decisions(phase: Phase, events: Seq<Event>) -> Seq<Action>
    decreases events.len(),
{
    if events.len() == 0 {
        Seq::empty()
    } else {
        decisions(phase, events.drop_last()).push(
            step_spec(run(phase, events.drop_last()), events.last()).1,
        )
    }
}

/// The phase after trial number `done` has been decided.
fn next_trial(done: u32) -> (phase: Phase)
    ensures
        phase == after_trial(done),
{
    if done < TRIALS_PER_SWEEP - 1 {
        Phase::Compare { done: done + 1 }
    } else {
        Phase::Coin
    }
}

/// Advances the schedule by one observation: returns the next phase and
/// what the search does now.
pub fn step(phase: Phase, event: Event) -> (next: (Phase, Action))
    ensures
        next == step_spec(phase, event),
        phase.wf() ==> next.0.wf(),
        next.1 == Action::OutOfTurn <==> !phase.awaits(event),
{
    match (phase, event) {
        (Phase::Gauge, Event::Temperature { above_threshold }) => {
            if above_threshold {
                (Phase::Compare { done: 0 }, Action::Proceed)
            } else {
                (Phase::Finished, Action::Halt)
            }
        },
        (Phase::Compare { done }, Event::Energies { improves }) => {
            if improves {
                (next_trial(done), Action::Adopt)
            } else {
                (Phase::Draw { done }, Action::Proceed)
            }
        },
        (Phase::Draw { done }, Event::Drawn { below }) => {
            if below {
                (next_trial(done), Action::Adopt)
            } else {
                (next_trial(done), Action::Discard)
            }
        },
        (Phase::Coin, Event::Flipped { heads }) => {
            if heads {
                (Phase::Gauge, Action::Cool)
            } else {
                (Phase::Gauge, Action::Hold)
            }
        },
        _ => (phase, Action::OutOfTurn),
    }
}

/// An observation is answered out of turn exactly when the phase does not
/// wait for it, and then the phase stays as it is.
pub proof fn lemma_out_of_turn_keeps_phase(phase: Phase, event: Event)
    ensures
        step_spec(phase, event).1 == Action::OutOfTurn <==> !phase.awaits(event),
        !phase.awaits(event) ==> step_spec(phase, event).0 == phase,
{
}

/// A candidate with strictly lower energy is always adopted: at once, in
/// any trial, with no draw made and no regard to the temperature.
pub proof fn lemma_improvement_is_adopted(done: u32)
    ensures
        step_spec(Phase::Compare { done }, Event::Energies { improves: true }).1 == Action::Adopt,
        !(step_spec(Phase::Compare { done }, Event::Energies { improves: true }).0 is Draw),
{
}

/// A candidate that is no improvement is adopted exactly when the draw
/// fell below its acceptance probability.
pub proof fn lemma_worsening_goes_by_the_draw(done: u32, below: bool)
    ensures
        step_spec(Phase::Compare { done }, Event::Energies { improves: false }) == (
            Phase::Draw { done },
            Action::Proceed,
        ),
        step_spec(Phase::Draw { done }, Event::Drawn { below }).1 == if below {
            Action::Adopt
        } else {
            Action::Discard
        },
{
}

/// A sweep holds exactly `TRIALS_PER_SWEEP` trials: deciding a trial
/// leads to the next one, and to the coin exactly when it was the last of
/// the sweep.
pub proof fn lemma_sweep_ends_after_last_trial(done: u32)
    requires
        done < TRIALS_PER_SWEEP,
    ensures
        step_spec(Phase::Gauge, Event::Temperature { above_threshold: true }).0
            == (Phase::Compare { done: 0 }),
        done + 1 < TRIALS_PER_SWEEP ==> after_trial(done) == (Phase::Compare {
            done: (done + 1) as u32,
        }),
        after_trial(done) == Phase::Coin <==> done + 1 == TRIALS_PER_SWEEP,
{
}

/// The search halts on one observation only: a temperature that is no
/// longer above the threshold, read before a sweep.
pub proof fn lemma_halts_only_when_cold(phase: Phase, event: Event)
    ensures
        step_spec(phase, event).1 == Action::Halt <==> phase == Phase::Gauge && event
            == (Event::Temperature { above_threshold: false }),
        step_spec(phase, event).0 == Phase::Finished <==> phase == Phase::Finished || (phase
            == Phase::Gauge && event == (Event::Temperature { above_threshold: false })),
{
}

/// The search that makes the observations `events` stands before a sweep
/// after the first `k` of them, reads there a temperature that is not
/// above the threshold, and is finished by that reading.
pub open spec fn halted_at(events: Seq<Event>, k: int) -> bool {
    &&& 0 <= k < events.len()
    &&& events[k] == (Event::Temperature { above_threshold: false })
    &&& run(Phase::Gauge, events.subrange(0, k)) == Phase::Gauge
    &&& run(Phase::Gauge, events.subrange(0, k + 1)) == Phase::Finished
}

/// A search that has finished stood before a sweep at some point, read
/// there a temperature that was not above the threshold, and finished on
/// that reading.
pub proof fn lemma_finished_run_read_cold(events: Seq<Event>)
    requires
        run(Phase::Gauge, events) == Phase::Finished,
    ensures
        exists|k: int| #[trigger] halted_at(events, k),
    decreases events.len(),
{
    if events.len() > 0 {
        let before = events.drop_last();
        if run(Phase::Gauge, before) == Phase::Finished {
            lemma_finished_run_read_cold(before);
            let k = choose|k: int| #[trigger] halted_at(before, k);
            assert(events[k] == before[k]);
            assert(events.subrange(0, k) =~= before.subrange(0, k));
            assert(events.subrange(0, k + 1) =~= before.subrange(0, k + 1));
            assert(halted_at(events, k));
        } else {
            let k = events.len() - 1;
            lemma_halts_only_when_cold(run(Phase::Gauge, before), events.last());
            assert(events[k] == (Event::Temperature { above_threshold: false }));
            assert(events.subrange(0, k) =~= before);
            assert(events.subrange(0, k + 1) =~= events);
            assert(halted_at(events, k));
        }
    }
}

/// Once finished, the search stays finished: every further observation is
/// out of turn.
pub proof fn lemma_finished_is_final(events: Seq<Event>)
    ensures
        run(Phase::Finished, events) == Phase::Finished,
        decisions(Phase::Finished, events).len() == events.len(),
        forall|k: int|
            0 <= k < events.len() ==> decisions(Phase::Finished, events)[k] == Action::OutOfTurn,
    decreases events.len(),
{
    if events.len() > 0 {
        lemma_finished_is_final(events.drop_last());
    }
}

/// The schedule keeps its phases well formed along any run.
pub proof fn lemma_run_keeps_wf(phase: Phase, events: Seq<Event>)
    requires
        phase.wf(),
    ensures
        run(phase, events).wf(),
    decreases events.len(),
{
    if events.len() > 0 {
        lemma_run_keeps_wf(phase, events.drop_last());
    }
}

/// The schedule decides by the observations alone: two searches that
/// start in the same phase and make the same observations in the same
/// order reach the same phase by the same actions.
pub proof fn lemma_same_events_same_decisions(phase: Phase, a: Seq<Event>, b: Seq<Event>)
    requires
        a.len() == b.len(),
        forall|k: int| 0 <= k < a.len() ==> a[k] == b[k],
    ensures
        run(phase, a) == run(phase, b),
        decisions(phase, a) == decisions(phase, b),
{
    assert(a =~= b);
}

} // verus!
