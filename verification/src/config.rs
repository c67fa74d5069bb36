//! Connection and test-run settings shared with the operator interface.
//!
//! The rendering of panels and buttons is an external collaborator's
//! concern; these are the plain state and configuration values it reads
//! and writes, kept here so that the rules about them are checked.

use vstd::prelude::*;
use crate::fixed::Fixed;

verus! {

/// The connection state shown to the operator.
#[derive(Clone, Copy, Debug, PartialEq, Eq, Structural)]
pub enum ConnectionState {
    /// An open attempt is underway.
    Connecting,
    /// The driver holds an open connection.
    Connected,
    /// No connection is open.
    Disconnected,
}

impl ConnectionState {
    /// The state's display name.
    pub fn label(&self) -> (r: &'static str)
        ensures
            r@ == (match *self {
                ConnectionState::Connecting => "Connecting"@,
                ConnectionState::Connected => "Connected"@,
                ConnectionState::Disconnected => "Disconnected"@,
            }),
    {
        match self {
            ConnectionState::Connecting => "Connecting",
            ConnectionState::Connected => "Connected",
            ConnectionState::Disconnected => "Disconnected",
        }
    }
}

/// Whether the given connection state counts as an established serial
/// connection.
pub fn is_serial_connected(connection_state: &ConnectionState) -> (r: bool)
    ensures
        r == (connection_state is Connected),
{
    match connection_state {
        ConnectionState::Connected => true,
        _ => false,
    }
}

/// The fixed set of baud rates offered to the operator.  The driver itself
/// does not validate a rate; an unsupported one is rejected by the
/// transport when the connection is opened.
#[derive(Clone, Copy, Debug, PartialEq, Eq, Structural)]
pub enum BaudRate {
    /// 9600 baud.
    B9600,
    /// 19200 baud.
    B19200,
    /// 38400 baud.
    B38400,
    /// 57600 baud.
    B57600,
    /// 115200 baud.
    B115200,
    /// 230400 baud.
    B230400,
    /// 250000 baud.
    B250000,
}

impl BaudRate {
    /// The numeric rate, as handed to the transport.
    pub fn value(&self) -> (r: u32)
        ensures
            r == (match *self {
                BaudRate::B9600 => 9600u32,
                BaudRate::B19200 => 19200u32,
                BaudRate::B38400 => 38400u32,
                BaudRate::B57600 => 57600u32,
                BaudRate::B115200 => 115200u32,
                BaudRate::B230400 => 230400u32,
                BaudRate::B250000 => 250000u32,
            }),
    {
        match self {
            BaudRate::B9600 => 9600,
            BaudRate::B19200 => 19200,
            BaudRate::B38400 => 38400,
            BaudRate::B57600 => 57600,
            BaudRate::B115200 => 115200,
            BaudRate::B230400 => 230400,
            BaudRate::B250000 => 250000,
        }
    }

    /// The rate's display name: the decimal digits of `value`.
    pub fn label(&self) -> (r: &'static str)
        ensures
            r@ == (match *self {
                BaudRate::B9600 => "9600"@,
                BaudRate::B19200 => "19200"@,
                BaudRate::B38400 => "38400"@,
                BaudRate::B57600 => "57600"@,
                BaudRate::B115200 => "115200"@,
                BaudRate::B230400 => "230400"@,
                BaudRate::B250000 => "250000"@,
            }),
    {
        match self {
            BaudRate::B9600 => "9600",
            BaudRate::B19200 => "19200",
            BaudRate::B38400 => "38400",
            BaudRate::B57600 => "57600",
            BaudRate::B115200 => "115200",
            BaudRate::B230400 => "230400",
            BaudRate::B250000 => "250000",
        }
    }
}

/// The operator's persisted preferences.
#[derive(Clone, Copy, Debug, PartialEq, Eq, Structural)]
pub struct UserPreferences {
    /// Keep the chosen endpoint and baud rate across sessions.
    pub save_connection_settings: bool,
    /// Open the connection as soon as the application starts.
    pub auto_connect_on_startup: bool,
}

impl Default for UserPreferences {
    /// Connection settings are saved by default; auto-connect is off.
    fn default() -> (r: UserPreferences)
        ensures
            r.save_connection_settings,
            !r.auto_connect_on_startup,
    {
        UserPreferences { save_connection_settings: true, auto_connect_on_startup: false }
    }
}

/// The parameters of a test run, as configured by the operator.
#[derive(Clone, Copy, Debug, PartialEq, Eq, Structural)]
pub struct TestParamters {
    /// The test speed, in hundredths of a millimetre per second.
    pub speed: Fixed,
    /// The specimen's cross-section area, in hundredths of a square
    /// millimetre.
    pub area: Fixed,
    /// The maximum travel distance, in hundredths of a millimetre.
    pub max_distance: Fixed,
}

impl Default for TestParamters {
    /// One millimetre per second, with area and travel still unset.
    fn default() -> (r: TestParamters)
        ensures
            r.speed.as_int() == 100,
            r.area.as_int() == 0,
            r.max_distance.as_int() == 0,
    {
        TestParamters {
            speed: Fixed { hundredths: 100 },
            area: Fixed { hundredths: 0 },
            max_distance: Fixed { hundredths: 0 },
        }
    }
}

/// The visual emphasis of an interface button.
#[derive(Clone, Copy, Debug, PartialEq, Eq, Structural)]
pub enum ButtonVariant {
    /// The highlighted main action.
    Primary,
    /// An ordinary action.
    Secondary,
}

} // verus!
