//! PCAS command models and encoder for L76K configuration.

pub mod models;
pub mod laws;
pub mod request;

pub use models::{
    EncodedCommand, FixedBuf, Pcas03, PcasBaudrate, PcasBuildError, PcasGnssMode,
    PcasRestartMode, PcasSentenceRate,
};
pub use request::{encode_pcas, PcasCommand};
