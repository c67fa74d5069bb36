use tensile_driver::config::{
    is_serial_connected, BaudRate, ButtonVariant, ConnectionState, TestParamters, UserPreferences,
};
use tensile_driver::error::DriverError;
use tensile_driver::fixed::Fixed;

#[test]
fn connection_state_labels() {
    assert_eq!(ConnectionState::Connecting.label(), "Connecting");
    assert_eq!(ConnectionState::Connected.label(), "Connected");
    assert_eq!(ConnectionState::Disconnected.label(), "Disconnected");
}

#[test]
fn serial_connected_only_in_connected_state() {
    assert!(is_serial_connected(&ConnectionState::Connected));
    assert!(!is_serial_connected(&ConnectionState::Connecting));
    assert!(!is_serial_connected(&ConnectionState::Disconnected));
}

#[test]
fn baud_rate_values_and_labels() {
    let rates = [
        (BaudRate::B9600, 9600u32, "9600"),
        (BaudRate::B19200, 19200, "19200"),
        (BaudRate::B38400, 38400, "38400"),
        (BaudRate::B57600, 57600, "57600"),
        (BaudRate::B115200, 115200, "115200"),
        (BaudRate::B230400, 230400, "230400"),
        (BaudRate::B250000, 250000, "250000"),
    ];
    for (rate, value, label) in rates {
        assert_eq!(rate.value(), value);
        assert_eq!(rate.label(), label);
        assert_eq!(rate.label(), value.to_string());
    }
}

#[test]
fn user_preferences_defaults() {
    let p = UserPreferences::default();
    assert!(p.save_connection_settings);
    assert!(!p.auto_connect_on_startup);
}

#[test]
fn test_parameters_defaults() {
    let t = TestParamters::default();
    assert_eq!(t.speed, Fixed { hundredths: 100 });
    assert_eq!(t.area, Fixed { hundredths: 0 });
    assert_eq!(t.max_distance, Fixed { hundredths: 0 });
}

#[test]
fn button_variants_are_distinct() {
    assert_ne!(ButtonVariant::Primary, ButtonVariant::Secondary);
}

#[test]
fn error_messages() {
    assert_eq!(
        DriverError::ConnectionError.message(),
        "Failed to open the serial endpoint"
    );
    assert_eq!(
        DriverError::DiscoveryError.message(),
        "Failed to enumerate serial endpoints"
    );
    assert_eq!(DriverError::BusyError.message(), "homing/command in progress");
    assert_eq!(
        DriverError::NotHomedError.message(),
        "Tensile tester not homed, please home first"
    );
    assert_eq!(
        DriverError::NotConnectedError.message(),
        "No serial interface initialized"
    );
    assert_eq!(
        DriverError::TransportError.message(),
        "Failed to write to the serial connection"
    );
    assert_eq!(
        DriverError::ParseError.message(),
        "Malformed telemetry payload"
    );
}
