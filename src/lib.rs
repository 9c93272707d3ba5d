//! Local, deterministic analysis of WAV audio: fingerprint, level statistics,
//! edit candidates and a reduced waveform, all exact in integer sample units.
pub mod signal;
pub mod decode;
pub mod analysis;
pub mod report;
