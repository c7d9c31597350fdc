//! Sound events the game can trigger.
use vstd::prelude::*;

verus! {

/// Sound events that can be triggered in the game.
#[derive(Clone, Copy, Debug, PartialEq, Eq, Structural)]
pub enum SoundEvent {
    BlockBreak,
    BlockPlace,
    Footstep,
    Jump,
    Splash,
    Hit,
    Death,
    UIClick,
}

} // verus!
