//! Small records: stock of resources, loop cadence and tick counting.

use vstd::prelude::*;
use std::time::Instant;

verus! {

#[verifier::external_type_specification]
#[verifier::external_body]
pub struct ExInstant(std::time::Instant);

/// Relies on `std::time::Instant::now`: the current instant of the
/// monotonic clock.
#[verifier::external_body]
fn instant_now() -> Instant {
    Instant::now()
}

/// A stock of resources.
#[derive(Clone, Copy, Debug, PartialEq, Eq, Structural)]
pub struct Resource {
    pub energy: i32,
    pub metal: i32,
    pub knowledge: i32,
}

impl Resource {
    /// The starting stock: 100 energy, 100 metal, no knowledge.
    pub fn new() -> (r: Resource)
        ensures
            r == (Resource { energy: 100, metal: 100, knowledge: 0 }),
    {
        Resource { energy: 100, metal: 100, knowledge: 0 }
    }
}

/// The cadence of a game loop, in ticks a second.
#[derive(Clone, Copy, Debug, PartialEq, Eq, Structural)]
pub struct GameLoop {
    tick_rate: u32,
}

impl GameLoop {
    /// The ticks a second of this loop.
    pub closed spec fn rate(&self) -> u32 {
        self.tick_rate
    }

    /// A loop running at `tick_rate` ticks a second.
    pub fn new(tick_rate: u32) -> (g: GameLoop)
        ensures
            g.rate() == tick_rate,
    {
        GameLoop { tick_rate }
    }

    /// The ticks a second of this loop.
    pub fn tick_rate(&self) -> (r: u32)
        ensures
            r == self.rate(),
    {
        self.tick_rate
    }
}

/// Counts ticks since a start instant.
#[derive(Clone, Copy, Debug)]
pub struct Metrics {
    pub start_time: Instant,
    pub tick_count: u64,
}

impl Metrics {
    /// Starts counting now, from zero ticks.
    pub fn new() -> (m: Metrics)
        ensures
            m.tick_count == 0,
    {
        Metrics { start_time: instant_now(), tick_count: 0 }
    }
}

} // verus!
