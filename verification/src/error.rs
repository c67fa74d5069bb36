//! Error kinds reported by the driver core.

use vstd::prelude::*;

verus! {

/// The error kinds of the control layer.
///
/// `ConnectionError`, `DiscoveryError` and `TransportError` originate in the
/// transport owner (opening an endpoint, enumerating endpoints, writing or
/// reading bytes); the driver core itself produces the remaining kinds.
#[derive(Clone, Copy, Debug, PartialEq, Eq, Structural)]
pub enum DriverError {
    /// Opening the serial endpoint failed (bad name, port busy, bad baud).
    ConnectionError,
    /// The endpoint-enumeration facility itself failed.
    DiscoveryError,
    /// A command was issued while another one was still unacknowledged.
    BusyError,
    /// A motion or test command was issued before a homing cycle.
    NotHomedError,
    /// A command was issued while no connection was open.
    NotConnectedError,
    /// Writing to or flushing an otherwise-open connection failed.
    TransportError,
    /// A telemetry token carried a malformed numeric payload.
    ParseError,
}

impl DriverError {
    /// A short operator-readable description of the error, suitable for a
    /// transient notification.
    pub fn message(&self) -> (r: String)
        ensures
            r@ == (match *self {
                DriverError::ConnectionError => "Failed to open the serial endpoint"@,
                DriverError::DiscoveryError => "Failed to enumerate serial endpoints"@,
                DriverError::BusyError => "homing/command in progress"@,
                DriverError::NotHomedError => "Tensile tester not homed, please home first"@,
                DriverError::NotConnectedError => "No serial interface initialized"@,
                DriverError::TransportError => "Failed to write to the serial connection"@,
                DriverError::ParseError => "Malformed telemetry payload"@,
            }),
    {
        match self {
            DriverError::ConnectionError => "Failed to open the serial endpoint".to_owned(),
            DriverError::DiscoveryError => "Failed to enumerate serial endpoints".to_owned(),
            DriverError::BusyError => "homing/command in progress".to_owned(),
            DriverError::NotHomedError => "Tensile tester not homed, please home first".to_owned(),
            DriverError::NotConnectedError => "No serial interface initialized".to_owned(),
            DriverError::TransportError => "Failed to write to the serial connection".to_owned(),
            DriverError::ParseError => "Malformed telemetry payload".to_owned(),
        }
    }
}

} // verus!
