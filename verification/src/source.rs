//! Where the readings come from: the choice made at startup, and the
//! synthetic source that stands in for a sensor.

use vstd::prelude::*;

verus! {

/// The source of readings that the program goes on with.
#[derive(Clone, Copy, Debug, PartialEq, Eq, Structural)]
pub enum SourceChoice {
    /// The sensor's port.
    Port,
    /// Made-up readings, with a warning.
    Synthetic,
    /// None: the program ends with a failure status.
    GiveUp,
}

/// The choice for a port that opened or did not: an open port is used; a
/// failure to open it is fatal unless the synthetic fallback is allowed.
pub open spec fn source_choice(port_opened: bool, allow_synthetic_fallback: bool) -> SourceChoice {
    if port_opened {
        SourceChoice::Port
    } else if allow_synthetic_fallback {
        SourceChoice::Synthetic
    } else {
        SourceChoice::GiveUp
    }
}

/// Chooses the source of readings at startup.
pub fn choose_source(port_opened: bool, allow_synthetic_fallback: bool) -> (r: SourceChoice)
    ensures
        r == source_choice(port_opened, allow_synthetic_fallback),
{
    if port_opened {
        SourceChoice::Port
    } else if allow_synthetic_fallback {
        SourceChoice::Synthetic
    } else {
        SourceChoice::GiveUp
    }
}

/// The smallest step of the synthetic source.
pub const STEP_LOW: i32 = -2;

/// The end of the range of steps of the synthetic source: no step reaches it.
pub const STEP_END: i32 = 3;

/// Calls `nannou_core::rand::random_range`, which draws from the thread's
/// random number generator a value between its two arguments: the smaller
/// one may come out, the larger one never does. It swaps the arguments if the
/// first is the larger, and panics on an empty range, so equal arguments are
/// left out.
#[verifier::external_body]
fn random_between(min: i32, max: i32) -> (r: i32)
    requires
        min != max,
    ensures
        min < max ==> min <= r < max,
        max < min ==> max <= r < min,
{
    nannou_core::rand::random_range(min, max)
}

/// A random walk that starts at zero and moves by a small step per reading.
#[derive(Clone, Copy, Debug, PartialEq, Eq, Structural)]
pub struct SyntheticSource {
    value: i32,
}

impl View for SyntheticSource {
    type V = int;

    closed spec fn view(&self) -> int {
        self.value as int
    }
}

impl SyntheticSource {
    /// A walk at zero.
    pub fn new() -> (r: Self)
        ensures
            r@ == 0,
    {
        SyntheticSource { value: 0 }
    }

    /// Where the walk stands.
    pub fn current(&self) -> (r: i32)
        ensures
            r == self@,
    {
        self.value
    }

    /// Whether every step of the walk leads to a value that fits 32 bits.
    pub open spec fn has_room(&self) -> bool {
        i32::MIN - STEP_LOW <= self@ <= i32::MAX - (STEP_END - 1)
    }

    /// Executable test for [`SyntheticSource::has_room`].
    pub fn room_for_step(&self) -> (r: bool)
        ensures
            r == self.has_room(),
    {
        i32::MIN - STEP_LOW <= self.value && self.value <= i32::MAX - (STEP_END - 1)
    }

    /// Moves the walk by `step` and gives the new value.
    pub fn move_by(&mut self, step: i32) -> (r: i32)
        requires
            i32::MIN <= old(self)@ + step <= i32::MAX,
        ensures
            final(self)@ == old(self)@ + step,
            r == final(self)@,
    {
        self.value = self.value + step;
        self.value
    }

    /// Draws a step at random and moves the walk by it. Which step is drawn
    /// is not determined; it lies from `STEP_LOW` up to, not including,
    /// `STEP_END`.
    pub fn next_value(&mut self) -> (r: i32)
        requires
            old(self).has_room(),
        ensures
            STEP_LOW <= final(self)@ - old(self)@ < STEP_END,
            r == final(self)@,
    {
        let step = random_between(STEP_LOW, STEP_END);
        self.move_by(step)
    }
}

} // verus!
