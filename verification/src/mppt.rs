//! Perturb-and-observe state of the maximum power point tracker.
//!
//! After each cycle of the control loop the tracker, when it is switched on
//! and the output current is below its target, compares the input power with
//! the power it saw at its last observation: where the power rose it keeps
//! perturbing in the same direction, and otherwise it turns round. The
//! perturbation has a fixed size of [`PERTURBATION_STEP`].
//!
//! The power is carried as an opaque value of the caller's type `P`; the
//! caller compares two of them and hands over the outcome.

use vstd::prelude::*;

verus! {

/// The fixed size of a perturbation of the duty cycle.
pub const PERTURBATION_STEP: u16 = 2;

/// The largest duty count of the PWM: 95% of its period of 200 counts.
pub const MAX_DUTY_COUNT: u16 = 190;

/// The direction in which the duty cycle is perturbed.
#[derive(Debug, Clone, Copy, PartialEq, Eq, Structural)]
pub enum Direction {
    Negative,
    Positive,
}

/// The other direction.
pub open spec fn reversed(d: Direction) -> Direction {
    match d {
        Direction::Negative => Direction::Positive,
        Direction::Positive => Direction::Negative,
    }
}

/// The direction after an observation that found the power risen
/// (`power_rose`) or not.
pub open spec fn next_direction(d: Direction, power_rose: bool) -> Direction {
    if power_rose {
        d
    } else {
        reversed(d)
    }
}

impl Direction {
    /// The other direction.
    pub fn reverse(self) -> (r: Direction)
        ensures
            r == reversed(self),
    {
        match self {
            Direction::Negative => Direction::Positive,
            Direction::Positive => Direction::Negative,
        }
    }
}

/// The state of the perturb-and-observe tracker.
pub struct Perturbation<P> {
    /// The direction of the next perturbation.
    pub direction: Direction,
    /// The size of the next perturbation.
    pub magnitude: u16,
    /// The input power at the last observation.
    pub initial_power: P,
}

impl<P: Copy> Perturbation<P> {
    /// The tracker before any observation: perturbing upwards by nothing,
    /// with `initial_power` as the power to compare against.
    pub fn new(initial_power: P) -> (s: Self)
        ensures
            s.direction == Direction::Positive,
            s.magnitude == 0,
            s.initial_power == initial_power,
    {
        Perturbation { direction: Direction::Positive, magnitude: 0, initial_power }
    }

    /// Observes the input power `power_in`; `power_rose` tells whether it
    /// is greater than [`Perturbation::initial_power`].
    pub fn observe(&mut self, power_in: P, power_rose: bool)
        ensures
            final(self).direction == next_direction(old(self).direction, power_rose),
            final(self).magnitude == PERTURBATION_STEP,
            final(self).initial_power == power_in,
    {
        self.direction = if power_rose {
            self.direction
        } else {
            self.direction.reverse()
        };
        self.magnitude = PERTURBATION_STEP;
        self.initial_power = power_in;
    }

    /// One cycle of the tracker: observes `power_in` where tracking is
    /// switched on and the output current is below its target, and leaves
    /// the state as it was otherwise. Returns whether it observed.
    pub fn step(
        &mut self,
        tracking_on: bool,
        current_below_target: bool,
        power_in: P,
        power_rose: bool,
    ) -> (observed: bool)
        ensures
            observed == (tracking_on && current_below_target),
            observed ==> final(self).direction == next_direction(old(self).direction, power_rose)
                && final(self).magnitude == PERTURBATION_STEP && final(self).initial_power
                == power_in,
            !observed ==> *final(self) == *old(self),
    {
        if tracking_on && current_below_target {
            self.observe(power_in, power_rose);
            true
        } else {
            false
        }
    }
}

/// `duty` moved by the perturbation `p`: up by its magnitude where it
/// points in the positive direction, down where it points in the negative
/// one, and kept within `0..=MAX_DUTY_COUNT`.
pub open spec fn perturbed(duty: int, direction: Direction, magnitude: int) -> int {
    let moved = match direction {
        Direction::Positive => duty + magnitude,
        Direction::Negative => duty - magnitude,
    };
    if moved < 0 {
        0
    } else if moved > MAX_DUTY_COUNT {
        MAX_DUTY_COUNT as int
    } else {
        moved
    }
}

impl<P> Perturbation<P> {
    /// The duty count `duty` perturbed by this tracker: its magnitude added
    /// in the positive direction and subtracted in the negative one, the
    /// result kept within `0..=MAX_DUTY_COUNT`.
    pub fn perturb_duty(&self, duty: u16) -> (r: u16)
        ensures
            r == perturbed(duty as int, self.direction, self.magnitude as int),
            r <= MAX_DUTY_COUNT,
    {
        let moved: u32 = match self.direction {
            Direction::Positive => duty as u32 + self.magnitude as u32,
            Direction::Negative => if duty >= self.magnitude {
                (duty - self.magnitude) as u32
            } else {
                0
            },
        };
        if moved > MAX_DUTY_COUNT as u32 {
            MAX_DUTY_COUNT
        } else {
            moved as u16
        }
    }
}

/// What a perturbation does to a duty count within range, in plain
/// arithmetic: in the negative direction the count drops by the magnitude,
/// or to 0 where the magnitude exceeds it; in the positive direction it
/// rises by the magnitude, or to `MAX_DUTY_COUNT` where that would pass it.
/// The result always lies within `0..=MAX_DUTY_COUNT`.
pub proof fn lemma_perturbed_moves_by_magnitude(duty: int, magnitude: int)
    requires
        0 <= duty <= MAX_DUTY_COUNT,
        0 <= magnitude,
    ensures
        magnitude <= duty ==> perturbed(duty, Direction::Negative, magnitude) + magnitude == duty,
        magnitude > duty ==> perturbed(duty, Direction::Negative, magnitude) == 0,
        duty + magnitude <= MAX_DUTY_COUNT ==> perturbed(duty, Direction::Positive, magnitude)
            == duty + magnitude,
        duty + magnitude > MAX_DUTY_COUNT ==> perturbed(duty, Direction::Positive, magnitude)
            == MAX_DUTY_COUNT,
        0 <= perturbed(duty, Direction::Negative, magnitude) <= duty,
        duty <= perturbed(duty, Direction::Positive, magnitude) <= MAX_DUTY_COUNT,
{
}

/// The direction after observations whose outcomes are `rises`, in order,
/// starting from `d`.
pub open spec fn direction_after(d: Direction, rises: Seq<bool>) -> Direction
    decreases rises.len(),
{
    if rises.len() == 0 {
        d
    } else {
        next_direction(direction_after(d, rises.drop_last()), rises.last())
    }
}

/// The number of observations in `rises` that found no rise in power.
pub open spec fn falls(rises: Seq<bool>) -> nat
    decreases rises.len(),
{
    if rises.len() == 0 {
        0
    } else {
        falls(rises.drop_last()) + if rises.last() {
            0nat
        } else {
            1nat
        }
    }
}

/// Turning round twice faces the original direction.
pub proof fn lemma_reverse_twice(d: Direction)
    ensures
        reversed(reversed(d)) == d,
{
}

/// While the power keeps rising the tracker keeps its direction, and each
/// observation without a rise turns it round: after any run of
/// observations it faces its first direction exactly when an even number of
/// them found no rise.
pub proof fn lemma_direction_after_observations(d: Direction, rises: Seq<bool>)
    ensures
        direction_after(d, rises) == if falls(rises) % 2 == 0 {
            d
        } else {
            reversed(d)
        },
    decreases rises.len(),
{
    if rises.len() > 0 {
        lemma_direction_after_observations(d, rises.drop_last());
    }
}

} // verus!
