//! State of the automatic explorer, which walks the player towards the
//! down staircase one timed step at a time.
use vstd::prelude::*;
use std::time::{Duration, Instant};
use crate::geometry::{Direction, Position, delta_of};

verus! {

/// A point in time of the machine's monotonic clock; opaque to proofs.
#[verifier::external_type_specification]
#[verifier::external_body]
pub struct ExInstant(Instant);

/// Relies on `Instant::now`: the current time. Nothing is promised of it.
#[verifier::external_body]
fn current_time() -> Instant {
    Instant::now()
}

/// Relies on `Instant::elapsed`: the time gone by since `t`. Nothing is
/// promised of it.
#[verifier::external_body]
fn time_since(t: &Instant) -> Duration {
    t.elapsed()
}

/// Relies on `Duration::as_millis`: the whole milliseconds of a duration.
/// Nothing is promised of a duration that proofs cannot see.
#[verifier::external_body]
fn whole_millis(d: &Duration) -> u128 {
    d.as_millis()
}

/// Whether the explorer is on, the path it follows and its pace.
#[derive(Debug, Clone)]
pub struct AutoexploreState {
    pub enabled: bool,
    /// Cells still to walk, the next one first.
    pub current_path: Vec<Position>,
    pub target: Option<Position>,
    /// When the last step was taken.
    pub last_action_time: Option<Instant>,
    /// Pause between two steps.
    pub action_delay_ms: u64,
}

/// Whether a step may be taken, given the milliseconds since the last step
/// if there was one.
pub open spec fn ready(elapsed_ms: Option<u128>, delay_ms: u64) -> bool {
    match elapsed_ms {
        None => true,
        Some(ms) => ms >= delay_ms,
    }
}

impl AutoexploreState {
    /// A switched-off explorer with no path, pacing steps fifty
    /// milliseconds apart.
    pub fn new() -> (r: AutoexploreState)
        ensures
            !r.enabled,
            r.current_path@.len() == 0,
            r.target is None,
            r.last_action_time is None,
            r.action_delay_ms == 50,
    {
        AutoexploreState {
            enabled: false,
            current_path: Vec::new(),
            target: None,
            last_action_time: None,
            action_delay_ms: 50,
        }
    }

    /// Switches the explorer on or off and returns whether it is now on;
    /// switching off forgets the path, the target and the last step.
    pub fn toggle(&mut self) -> (r: bool)
        ensures
            r == final(self).enabled,
            final(self).enabled == !old(self).enabled,
            final(self).action_delay_ms == old(self).action_delay_ms,
            !final(self).enabled ==> final(self).current_path@.len() == 0
                && final(self).target is None && final(self).last_action_time is None,
            final(self).enabled ==> final(self).current_path@ == old(self).current_path@
                && final(self).target == old(self).target && final(self).last_action_time
                == old(self).last_action_time,
    {
        self.enabled = !self.enabled;
        if !self.enabled {
            self.current_path.clear();
            self.target = None;
            self.last_action_time = None;
        }
        self.enabled
    }

    /// Whether a step may be taken, from the milliseconds since the last
    /// step, if there was one.
    pub fn ready_after(&self, elapsed_ms: Option<u128>) -> (r: bool)
        ensures
            r == ready(elapsed_ms, self.action_delay_ms),
    {
        match elapsed_ms {
            None => true,
            Some(ms) => ms >= self.action_delay_ms as u128,
        }
    }

    /// Whether enough time has gone by since the last step; always before
    /// the first step.
    pub fn can_perform_action(&self) -> (r: bool)
        ensures
            self.last_action_time is None ==> r,
    {
        match &self.last_action_time {
            None => self.ready_after(None),
            Some(last_time) => {
                let elapsed = time_since(last_time);
                self.ready_after(Some(whole_millis(&elapsed)))
            },
        }
    }

    /// Records that a step was just taken.
    pub fn mark_action_performed(&mut self)
        ensures
            final(self).last_action_time is Some,
            final(self).enabled == old(self).enabled,
            final(self).current_path@ == old(self).current_path@,
            final(self).target == old(self).target,
            final(self).action_delay_ms == old(self).action_delay_ms,
    {
        self.last_action_time = Some(current_time());
    }

    /// The direction of the step from `from` to `to`, when they share an
    /// edge.
    pub fn get_direction_to_position(&self, from: Position, to: Position) -> (r: Option<Direction>)
        requires
            i32::MIN <= to.x - from.x <= i32::MAX,
            i32::MIN <= to.y - from.y <= i32::MAX,
        ensures
            match r {
                Some(d) => delta_of(d) == (to.x - from.x, to.y - from.y),
                None => forall|d: Direction| delta_of(d) != (to.x - from.x, to.y - from.y),
            },
    {
        let delta = to - from;
        Direction::from_delta(delta)
    }
}

} // verus!
