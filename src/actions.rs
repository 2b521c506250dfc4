//! The one discrete action a unit takes in a turn.

use vstd::prelude::*;

verus! {

/// What a unit asks to do this turn: nothing, or a step `(dq, dr)`.
///
/// Any delta may be requested; movement treats a delta that is not one of
/// the six unit steps as `Stay`.
#[derive(Clone, Copy, Debug, PartialEq, Eq, Structural)]
pub enum Action {
    Stay,
    Move(i32, i32),
}

} // verus!
