//! Sound events the game can trigger.

use vstd::prelude::*;

verus! {

/// A sound the game asks the audio engine to play.
#[derive(Copy, Clone, Debug, PartialEq, Eq, Structural)]
pub enum AudioEvent {
    Click,
    BuildComplete,
    CarHorn,
    AmbientOn,
    AmbientOff,
}

} // verus!
