//! The event vocabulary that drives the engine: a resolved input, or one
//! period of the gravity timer. Producing events (keyboard, timers) is the
//! surrounding program's job.

use vstd::prelude::*;

verus! {

/// One command delivered to the game loop: either an input event carrying a
/// resolved key, or a tick of the gravity timer.
pub enum Event<I> {
    Input(I),
    Tick,
}

} // verus!
