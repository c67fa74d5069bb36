use tensile_driver::driver::{jog_target, SerialDriver, Values};
use tensile_driver::error::DriverError;
use tensile_driver::fixed::Fixed;

fn fx(hundredths: i64) -> Fixed {
    Fixed { hundredths }
}

/// Opens a driver on a mocked endpoint name; no real transport exists in
/// these tests, the driver only records the transition.
fn opened() -> SerialDriver {
    let mut d = SerialDriver::new();
    d.open(&"COM_TEST".to_string(), 115200).unwrap();
    d
}

/// Opens and completes a homing handshake: home, then feed the `ok`.
fn homed() -> SerialDriver {
    let mut d = opened();
    d.start_home().unwrap();
    d.take_outgoing();
    d.update(&b"ok\r\n".to_vec());
    d
}

#[test]
fn new_driver_is_disconnected_with_zero_values() {
    let d = SerialDriver::new();
    assert!(!d.is_connected());
    assert!(!d.is_homed());
    assert!(!d.is_acknowledge_pending());
    let v = d.values();
    assert_eq!(v.sample, 0);
    assert_eq!(v.position, fx(0));
    assert_eq!(v.tensile, 0);
    assert_eq!(v, Values::default());
}

#[test]
fn jog_disconnected_fails_without_writing() {
    let mut d = SerialDriver::new();
    let before = d.values();
    assert_eq!(d.jog(fx(100)), Err(DriverError::NotConnectedError));
    assert_eq!(d.values(), before);
    assert_eq!(d.take_outgoing(), Vec::<u8>::new());
}

#[test]
fn jog_unhomed_fails_without_writing() {
    let mut d = opened();
    assert_eq!(d.jog(fx(100)), Err(DriverError::NotHomedError));
    assert_eq!(d.jog(fx(-100)), Err(DriverError::NotHomedError));
    assert!(!d.is_homed());
    assert_eq!(d.take_outgoing(), Vec::<u8>::new());
}

#[test]
fn busy_driver_rejects_jog() {
    let mut d = homed();
    d.start_test(fx(250)).unwrap();
    d.take_outgoing();
    let before = d.values();
    assert_eq!(d.jog(fx(100)), Err(DriverError::BusyError));
    assert_eq!(d.values(), before);
    assert_eq!(d.take_outgoing(), Vec::<u8>::new());
}

#[test]
fn start_test_while_pending_fails_with_busy() {
    // start_test(2.5) while an acknowledgment is pending: BusyError,
    // values unchanged, no bytes queued for the transport.
    let mut d = opened();
    d.update(&b"X:3.00 T:7\r\n".to_vec());
    d.start_home().unwrap();
    d.take_outgoing();
    assert!(d.is_acknowledge_pending());
    let before = d.values();
    assert_eq!(d.start_test(fx(250)), Err(DriverError::BusyError));
    assert_eq!(d.values(), before);
    assert!(d.is_acknowledge_pending());
    assert_eq!(d.take_outgoing(), Vec::<u8>::new());
}

#[test]
fn start_home_while_pending_fails_with_busy() {
    let mut d = opened();
    d.start_home().unwrap();
    d.take_outgoing();
    assert_eq!(d.start_home(), Err(DriverError::BusyError));
    assert_eq!(d.take_outgoing(), Vec::<u8>::new());
}

#[test]
fn close_twice_is_a_no_op_the_second_time() {
    let mut d = opened();
    d.start_home().unwrap();
    d.update(&b"X:4.20 T:9\r\n".to_vec());
    d.close();
    assert!(!d.is_connected());
    assert!(!d.is_homed());
    assert!(!d.is_acknowledge_pending());
    let after_first = d.values();
    let outbox_after_first = d.take_outgoing();
    assert_eq!(outbox_after_first, Vec::<u8>::new());
    d.close();
    assert!(!d.is_connected());
    assert!(!d.is_homed());
    assert!(!d.is_acknowledge_pending());
    assert_eq!(d.values(), after_first);
    assert_eq!(d.take_outgoing(), Vec::<u8>::new());
}

#[test]
fn close_retains_last_values() {
    let mut d = opened();
    d.update(&b"X:4.20 T:9\r\n".to_vec());
    d.close();
    assert_eq!(d.values().position, fx(420));
    assert_eq!(d.values().tensile, 9);
}

#[test]
fn jog_clamps_target_at_zero() {
    let mut d = homed();
    d.update(&b"X:5.00\r\n".to_vec());
    assert_eq!(d.values().position, fx(500));
    // current_position + delta < 0: the move target is exactly zero.
    d.jog(fx(-700)).unwrap();
    assert_eq!(d.take_outgoing(), b"G0 X0.00\r\n".to_vec());
}

#[test]
fn jog_targets_sum_when_non_negative() {
    let mut d = homed();
    d.update(&b"X:5.00\r\n".to_vec());
    d.jog(fx(-150)).unwrap();
    assert_eq!(d.take_outgoing(), b"G0 X3.50\r\n".to_vec());
}

#[test]
fn jog_target_clamps() {
    assert_eq!(jog_target(fx(500), fx(-700)), fx(0));
    assert_eq!(jog_target(fx(500), fx(-500)), fx(0));
    assert_eq!(jog_target(fx(500), fx(250)), fx(750));
    assert_eq!(jog_target(fx(0), fx(-1)), fx(0));
    assert_eq!(jog_target(fx(i64::MAX), fx(1)), fx(i64::MAX));
    assert_eq!(jog_target(fx(i64::MIN), fx(-1)), fx(0));
}

#[test]
fn jog_counts_as_a_command_and_sets_pending() {
    let mut d = homed();
    assert!(!d.is_acknowledge_pending());
    d.jog(fx(100)).unwrap();
    assert!(d.is_acknowledge_pending());
    assert_eq!(d.jog(fx(100)), Err(DriverError::BusyError));
}

#[test]
fn home_then_acknowledge_scenario() {
    // open with endpoint "COM_TEST" and baud 115200 (mocked transport):
    // homing succeeds, the homed flag rises at once, and the pending flag
    // stays up until an "ok" line is fed into the poll step.
    let mut d = SerialDriver::new();
    d.open(&"COM_TEST".to_string(), 115200).unwrap();
    assert!(d.is_connected());
    assert!(d.start_home().is_ok());
    assert!(d.is_homed());
    assert!(d.is_acknowledge_pending());
    assert_eq!(d.take_outgoing(), b"G28\r\n".to_vec());
    d.update(&b"".to_vec());
    assert!(d.is_acknowledge_pending());
    d.update(&b"ok\r\n".to_vec());
    assert!(!d.is_acknowledge_pending());
    assert!(d.is_homed());
}

#[test]
fn poll_parses_position_and_tensile() {
    let mut d = opened();
    let v = d.update(&b"X:12.50 T:340\r\n".to_vec()).unwrap();
    assert_eq!(v.position, fx(1250));
    assert_eq!(v.tensile, 340);
    assert_eq!(d.values().position, fx(1250));
    assert_eq!(d.values().tensile, 340);
}

#[test]
fn poll_skips_unparseable_line() {
    let mut d = opened();
    d.update(&b"X:12.50 T:340\r\n".to_vec());
    let before = d.values();
    let after = d.update(&b"garbage\r\n".to_vec()).unwrap();
    assert_eq!(after, before);
    assert_eq!(d.values(), before);
}

#[test]
fn poll_skips_malformed_payload_but_keeps_rest_of_line() {
    let mut d = opened();
    let v = d.update(&b"X:oops T:11\r\n".to_vec()).unwrap();
    assert_eq!(v.position, fx(0));
    assert_eq!(v.tensile, 11);
}

#[test]
fn poll_keeps_partial_line_across_ticks() {
    let mut d = opened();
    d.update(&b"X:1".to_vec());
    assert_eq!(d.values().position, fx(0));
    let v = d.update(&b"2.50\r\nT:7\r\n".to_vec()).unwrap();
    assert_eq!(v.position, fx(1250));
    assert_eq!(v.tensile, 7);
}

#[test]
fn poll_applies_every_buffered_line_in_one_tick() {
    let mut d = opened();
    d.start_home().unwrap();
    d.take_outgoing();
    let v = d.update(&b"ok\r\nX:1.00 T:2\r\nX:3.00\r\n".to_vec()).unwrap();
    assert!(!d.is_acknowledge_pending());
    assert_eq!(v.position, fx(300));
    assert_eq!(v.tensile, 2);
}

#[test]
fn poll_disconnected_returns_none() {
    let mut d = SerialDriver::new();
    assert_eq!(d.update(&b"X:1.00\r\n".to_vec()), None);
    assert_eq!(d.values().position, fx(0));
}

#[test]
fn poll_never_touches_sample_counter() {
    let mut d = opened();
    d.update(&b"X:12.50 T:340\r\nok\r\n".to_vec());
    assert_eq!(d.values().sample, 0);
}

#[test]
fn send_message_requires_connection() {
    let mut d = SerialDriver::new();
    assert_eq!(
        d.send_message(&b"M115\r\n".to_vec()),
        Err(DriverError::NotConnectedError)
    );
    let mut d = opened();
    assert_eq!(d.send_message(&b"M115\r\n".to_vec()), Ok(()));
    assert_eq!(d.take_outgoing(), b"M115\r\n".to_vec());
}

#[test]
fn take_outgoing_drains_the_queue() {
    let mut d = opened();
    d.start_home().unwrap();
    assert_eq!(d.take_outgoing(), b"G28\r\n".to_vec());
    assert_eq!(d.take_outgoing(), Vec::<u8>::new());
}

#[test]
fn commands_queue_in_order() {
    let mut d = homed();
    d.start_test(fx(250)).unwrap();
    d.update(&b"ok\r\n".to_vec());
    d.jog(fx(125)).unwrap();
    assert_eq!(d.take_outgoing(), b"M700 S2.50\r\nG0 X1.25\r\n".to_vec());
}

#[test]
fn start_test_queues_speed_command() {
    let mut d = homed();
    d.start_test(fx(250)).unwrap();
    assert!(d.is_acknowledge_pending());
    assert_eq!(d.take_outgoing(), b"M700 S2.50\r\n".to_vec());
}

#[test]
fn start_test_unhomed_fails() {
    let mut d = opened();
    assert_eq!(d.start_test(fx(250)), Err(DriverError::NotHomedError));
    assert_eq!(d.take_outgoing(), Vec::<u8>::new());
}

#[test]
fn cancel_test_issues_homing_when_idle() {
    let mut d = homed();
    d.cancel_test();
    assert!(d.is_acknowledge_pending());
    assert_eq!(d.take_outgoing(), b"G28\r\n".to_vec());
}

#[test]
fn cancel_test_is_best_effort_while_pending() {
    let mut d = homed();
    d.start_test(fx(250)).unwrap();
    d.take_outgoing();
    d.cancel_test();
    assert_eq!(d.take_outgoing(), Vec::<u8>::new());
    assert!(d.is_acknowledge_pending());
}

#[test]
fn open_resets_flags_but_keeps_values() {
    let mut d = opened();
    d.start_home().unwrap();
    d.update(&b"X:9.99\r\n".to_vec());
    d.open(&"COM_OTHER".to_string(), 9600).unwrap();
    assert!(d.is_connected());
    assert!(!d.is_homed());
    assert!(!d.is_acknowledge_pending());
    assert_eq!(d.values().position, fx(999));
    assert_eq!(d.take_outgoing(), Vec::<u8>::new());
}
