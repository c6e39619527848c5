use vstd::prelude::*;

verus! {

/// Minimal output pin abstraction used by reset/standby control.
pub trait GpsOutput {
    /// Drives the output high.
    fn set_high(&mut self);

    /// Drives the output low.
    fn set_low(&mut self);
}

} // verus!
