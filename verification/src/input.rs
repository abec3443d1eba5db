//! States reported by momentary input controls.

use vstd::prelude::*;

verus! {

/// The two states a momentary button reports: it is held down or it is not.
#[derive(Clone, Copy, Debug, PartialEq, Eq, Structural)]
pub enum ButtonState {
    /// The button is held down.
    Pressed,
    /// The button is up.
    Released,
}

} // verus!
