//! L76K-specific command encoder.

pub mod pcas;
