//! The bounce loop of the path integrator, as a state machine. The caller
//! traces the ray, reports what happened at each bounce, and is told whether to
//! go on, to return the background seen by the ray, or to return black.
use vstd::prelude::*;

verus! {

/// What happened to the ray at one bounce.
#[derive(Clone, Copy, Debug, PartialEq, Eq, Structural)]
pub enum Event {
    /// No object was hit.
    Missed,
    /// An object was hit and its material absorbed the ray.
    Absorbed,
    /// An object was hit and its material scattered the ray.
    Scattered,
}

/// What the caller does next.
#[derive(Clone, Copy, Debug, PartialEq, Eq, Structural)]
pub enum Step {
    /// Return the product of the attenuations so far and the background color.
    Background,
    /// Return black.
    Black,
    /// Trace the scattered ray at the next bounce.
    Continue,
}

pub open spec fn step_spec(depth: nat, max_bounces: nat, event: Event) -> Step {
    match event {
        Event::Missed => Step::Background,
        Event::Absorbed => Step::Black,
        Event::Scattered => if depth + 1 < max_bounces { Step::Continue } else { Step::Black },
    }
}

/// Whether bounce `depth` is traced at all: only while the budget lasts.
pub fn bounce_allowed(depth: u32, max_bounces: u32) -> (r: bool)
    ensures
        r == (depth < max_bounces),
{
    depth < max_bounces
}

/// The step after the event at bounce `depth` of a path with `max_bounces` bounces.
pub fn next_step(depth: u32, max_bounces: u32, event: Event) -> (r: Step)
    requires
        depth < max_bounces,
    ensures
        r == step_spec(depth as nat, max_bounces as nat, event),
{
    match event {
        Event::Missed => Step::Background,
        Event::Absorbed => Step::Black,
        Event::Scattered => if depth + 1 < max_bounces { Step::Continue } else { Step::Black },
    }
}

/// How a path ends: the first event that does not scatter decides, if it comes
/// within the bounce budget: a miss sees the background, an absorption is
/// black. A path that scatters through its whole budget is black.
pub open spec fn path_end(events: Seq<Event>, budget: nat) -> Step
    decreases events.len(),
{
    if budget == 0 || events.len() == 0 {
        Step::Black
    } else {
        match events[0] {
            Event::Missed => Step::Background,
            Event::Absorbed => Step::Black,
            Event::Scattered => path_end(events.drop_first(), (budget - 1) as nat),
        }
    }
}

/// The result of driving the state machine over `events` from bounce `depth`.
pub open spec fn run(events: Seq<Event>, depth: nat, max_bounces: nat) -> Step
    decreases max_bounces - depth,
{
    if depth >= max_bounces {
        Step::Black
    } else {
        match step_spec(depth, max_bounces, events[depth as int]) {
            Step::Continue => run(events, depth + 1, max_bounces),
            s => s,
        }
    }
}

/// Driving `next_step` bounce by bounce, from the first bounce while it says
/// `Continue`, ends as `path_end` says.
pub proof fn lemma_steps_reach_path_end(events: Seq<Event>, max_bounces: nat)
    requires
        events.len() >= max_bounces,
    ensures
        run(events, 0, max_bounces) == path_end(events, max_bounces),
{
    lemma_run_from(events, 0, max_bounces);
    assert(events.subrange(0, events.len() as int) =~= events);
}

proof fn lemma_run_from(events: Seq<Event>, depth: nat, max_bounces: nat)
    requires
        events.len() >= max_bounces,
        depth <= max_bounces,
    ensures
        run(events, depth, max_bounces)
            == path_end(events.subrange(depth as int, events.len() as int), (max_bounces - depth) as nat),
    decreases max_bounces - depth,
{
    let rest = events.subrange(depth as int, events.len() as int);
    if depth < max_bounces {
        lemma_run_from(events, depth + 1, max_bounces);
        assert(rest.drop_first() =~= events.subrange((depth + 1) as int, events.len() as int));
    }
}

/// A path whose every event within the budget scatters ends black: the bounce
/// budget cuts it off.
pub proof fn lemma_cutoff_is_black(events: Seq<Event>, max_bounces: nat)
    requires
        events.len() >= max_bounces,
        forall|j: int| 0 <= j < max_bounces ==> events[j] == Event::Scattered,
    ensures
        path_end(events, max_bounces) == Step::Black,
    decreases max_bounces,
{
    if max_bounces > 0 {
        let rest = events.drop_first();
        assert forall|j: int| 0 <= j < max_bounces - 1 implies rest[j] == Event::Scattered by {
            assert(rest[j] == events[j + 1]);
        }
        lemma_cutoff_is_black(rest, (max_bounces - 1) as nat);
    }
}

} // verus!
