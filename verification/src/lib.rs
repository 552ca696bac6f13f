//! A falling-block puzzle simulation: a 20x10 grid, one active piece,
//! per-tick gravity, collision detection, row clearing, and a fixed
//! cyclic piece succession.

use vstd::prelude::*;

pub mod game_state;
pub mod laws;
pub mod piece;

verus! {

/// One message consumed per step of a driver loop: either a key intent
/// to forward to the simulation, or a clock tick.
pub enum Iteration {
    /// A key press event to be handled
    Event(crate::game_state::Event),
    /// A clock tick
    Tick,
}

} // verus!
