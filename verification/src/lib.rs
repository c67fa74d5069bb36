//! Verified control core for a single-axis tensile-testing instrument.
//!
//! The instrument is driven over a line-oriented serial protocol: the host
//! sends G-code-like commands (home, absolute move, start test) and the
//! device streams back telemetry lines carrying position and force samples
//! plus `ok` acknowledgments.  This crate holds the verified heart of that
//! control layer: the command encoder, the telemetry line parser, and the
//! driver state machine that gates which commands may legally be sent.
//!
//! Byte I/O itself (opening a serial endpoint, writing and reading bytes)
//! is left to the embedding application: commands queue their encoded bytes
//! in an outgoing buffer for the transport owner to write, and each poll
//! tick hands the driver whatever bytes the transport produced.

pub mod codec;
pub mod config;
pub mod driver;
pub mod error;
pub mod fixed;
