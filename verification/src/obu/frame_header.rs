//! What the parser keeps of frame headers between units.
use vstd::prelude::*;

verus! {

/// The kind of a frame, as kept for each reference slot.
#[derive(Debug, Clone, Copy, PartialEq, Eq, Structural)]
pub enum FrameType {
    KeyFrame,
    InterFrame,
    IntraOnlyFrame,
    SwitchFrame,
}

} // verus!
