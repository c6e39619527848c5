//! Configuration and data model for the Quectel L76K GPS receiver: the PCAS
//! command encoder, the fix record handed to consumers, and the contracts of
//! the driver-facing traits.

pub mod gps;
pub mod types;
