//! Module layout for GPS support.
//! - `gps_interfases`: common traits for state machines and output pins.
//! - `l76k`: the Quectel L76K receiver.
//! - `l76k::pcas`: encoder for PCAS configuration commands.

pub mod gps_interfases;
pub mod l76k;
