use tensile_driver::codec::{
    classify_token, encode_home, encode_move_absolute, encode_start_test, parse_line, tokenize,
    TelemetryEvent,
};
use tensile_driver::error::DriverError;
use tensile_driver::fixed::{format_fixed, parse_fixed, parse_i32, Fixed};

fn fx(hundredths: i64) -> Fixed {
    Fixed { hundredths }
}

#[test]
fn encode_home_bytes() {
    assert_eq!(encode_home(), b"G28\r\n".to_vec());
}

#[test]
fn encode_move_bytes() {
    assert_eq!(encode_move_absolute(fx(1250)), b"G0 X12.50\r\n".to_vec());
    assert_eq!(encode_move_absolute(fx(0)), b"G0 X0.00\r\n".to_vec());
    assert_eq!(encode_move_absolute(fx(-307)), b"G0 X-3.07\r\n".to_vec());
    assert_eq!(encode_move_absolute(fx(10)), b"G0 X0.10\r\n".to_vec());
}

#[test]
fn encode_start_test_bytes() {
    assert_eq!(encode_start_test(fx(250)), b"M700 S2.50\r\n".to_vec());
    assert_eq!(encode_start_test(fx(100)), b"M700 S1.00\r\n".to_vec());
}

#[test]
fn format_renders_two_fraction_digits() {
    assert_eq!(format_fixed(fx(0)), b"0.00".to_vec());
    assert_eq!(format_fixed(fx(5)), b"0.05".to_vec());
    assert_eq!(format_fixed(fx(1250)), b"12.50".to_vec());
    assert_eq!(format_fixed(fx(-1)), b"-0.01".to_vec());
    assert_eq!(format_fixed(fx(i64::MAX)), b"92233720368547758.07".to_vec());
    assert_eq!(format_fixed(fx(i64::MIN)), b"-92233720368547758.08".to_vec());
}

#[test]
fn parse_fixed_accepts_plain_numbers() {
    assert_eq!(parse_fixed(&b"12.50".to_vec()), Ok(fx(1250)));
    assert_eq!(parse_fixed(&b"0".to_vec()), Ok(fx(0)));
    assert_eq!(parse_fixed(&b"7".to_vec()), Ok(fx(700)));
    assert_eq!(parse_fixed(&b"-3.25".to_vec()), Ok(fx(-325)));
    assert_eq!(parse_fixed(&b"007.5".to_vec()), Ok(fx(750)));
    assert_eq!(parse_fixed(&b"12.".to_vec()), Ok(fx(1200)));
}

#[test]
fn parse_fixed_truncates_extra_fraction_digits() {
    assert_eq!(parse_fixed(&b"12.505".to_vec()), Ok(fx(1250)));
    assert_eq!(parse_fixed(&b"-0.009".to_vec()), Ok(fx(0)));
}

#[test]
fn parse_fixed_rejects_malformed_tokens() {
    assert_eq!(parse_fixed(&b"".to_vec()), Err(DriverError::ParseError));
    assert_eq!(parse_fixed(&b"-".to_vec()), Err(DriverError::ParseError));
    assert_eq!(parse_fixed(&b".5".to_vec()), Err(DriverError::ParseError));
    assert_eq!(parse_fixed(&b"1.2.3".to_vec()), Err(DriverError::ParseError));
    assert_eq!(parse_fixed(&b"12a".to_vec()), Err(DriverError::ParseError));
    assert_eq!(parse_fixed(&b"+5".to_vec()), Err(DriverError::ParseError));
    assert_eq!(parse_fixed(&b"1 2".to_vec()), Err(DriverError::ParseError));
}

#[test]
fn parse_fixed_range_limits() {
    assert_eq!(
        parse_fixed(&b"92233720368547758.07".to_vec()),
        Ok(fx(i64::MAX))
    );
    assert_eq!(
        parse_fixed(&b"92233720368547758.08".to_vec()),
        Err(DriverError::ParseError)
    );
    assert_eq!(
        parse_fixed(&b"-92233720368547758.08".to_vec()),
        Ok(fx(i64::MIN))
    );
    assert_eq!(
        parse_fixed(&b"-92233720368547758.09".to_vec()),
        Err(DriverError::ParseError)
    );
    assert_eq!(
        parse_fixed(&b"99999999999999999999999".to_vec()),
        Err(DriverError::ParseError)
    );
}

#[test]
fn parse_i32_basics() {
    assert_eq!(parse_i32(&b"340".to_vec()), Ok(340));
    assert_eq!(parse_i32(&b"0".to_vec()), Ok(0));
    assert_eq!(parse_i32(&b"-17".to_vec()), Ok(-17));
    assert_eq!(parse_i32(&b"2147483647".to_vec()), Ok(i32::MAX));
    assert_eq!(parse_i32(&b"-2147483648".to_vec()), Ok(i32::MIN));
}

#[test]
fn parse_i32_rejects_malformed_tokens() {
    assert_eq!(parse_i32(&b"".to_vec()), Err(DriverError::ParseError));
    assert_eq!(parse_i32(&b"-".to_vec()), Err(DriverError::ParseError));
    assert_eq!(parse_i32(&b"1.5".to_vec()), Err(DriverError::ParseError));
    assert_eq!(parse_i32(&b"abc".to_vec()), Err(DriverError::ParseError));
    assert_eq!(parse_i32(&b"2147483648".to_vec()), Err(DriverError::ParseError));
    assert_eq!(
        parse_i32(&b"-2147483649".to_vec()),
        Err(DriverError::ParseError)
    );
}

#[test]
fn fixed_roundtrip_through_wire_format() {
    for v in [
        0i64,
        1,
        -1,
        99,
        100,
        1250,
        -325,
        123456789,
        i64::MAX,
        i64::MIN,
    ] {
        let rendered = format_fixed(fx(v));
        assert_eq!(parse_fixed(&rendered), Ok(fx(v)), "value {v}");
    }
}

#[test]
fn tokenize_splits_on_whitespace() {
    let toks = tokenize(&b"X:1.00 \t T:2\r".to_vec());
    assert_eq!(toks, vec![b"X:1.00".to_vec(), b"T:2".to_vec()]);
    assert_eq!(tokenize(&b"".to_vec()), Vec::<Vec<u8>>::new());
    assert_eq!(tokenize(&b"   ".to_vec()), Vec::<Vec<u8>>::new());
    assert_eq!(tokenize(&b"one".to_vec()), vec![b"one".to_vec()]);
}

#[test]
fn classify_token_recognizes_tags() {
    assert_eq!(
        classify_token(&b"ok".to_vec()),
        Ok(Some(TelemetryEvent::Acknowledge))
    );
    assert_eq!(
        classify_token(&b"X:12.50".to_vec()),
        Ok(Some(TelemetryEvent::Position(fx(1250))))
    );
    assert_eq!(
        classify_token(&b"T:340".to_vec()),
        Ok(Some(TelemetryEvent::Tensile(340)))
    );
    // Unrecognized tokens are ignored, not errors.
    assert_eq!(classify_token(&b"garbage".to_vec()), Ok(None));
    assert_eq!(classify_token(&b"okay".to_vec()), Ok(None));
    assert_eq!(classify_token(&b"x:1".to_vec()), Ok(None));
    // A recognized tag with a malformed payload is a parse error.
    assert_eq!(
        classify_token(&b"X:zz".to_vec()),
        Err(DriverError::ParseError)
    );
    assert_eq!(
        classify_token(&b"T:1.5".to_vec()),
        Err(DriverError::ParseError)
    );
    assert_eq!(
        classify_token(&b"X:".to_vec()),
        Err(DriverError::ParseError)
    );
}

#[test]
fn parse_line_collects_recognized_events_in_order() {
    assert_eq!(
        parse_line(&b"X:12.50 T:340".to_vec()),
        vec![
            TelemetryEvent::Position(fx(1250)),
            TelemetryEvent::Tensile(340)
        ]
    );
    assert_eq!(
        parse_line(&b"ok".to_vec()),
        vec![TelemetryEvent::Acknowledge]
    );
    assert_eq!(parse_line(&b"garbage".to_vec()), vec![]);
    assert_eq!(parse_line(&b"".to_vec()), vec![]);
    // Malformed payloads are skipped; the rest of the line still counts.
    assert_eq!(
        parse_line(&b"X:abc T:5".to_vec()),
        vec![TelemetryEvent::Tensile(5)]
    );
    assert_eq!(
        parse_line(&b"noise X:1.00 more".to_vec()),
        vec![TelemetryEvent::Position(fx(100))]
    );
    assert_eq!(
        parse_line(&b"ok X:2.00".to_vec()),
        vec![
            TelemetryEvent::Acknowledge,
            TelemetryEvent::Position(fx(200))
        ]
    );
}

#[test]
fn move_command_payload_reparses_to_same_position() {
    // The move command for position p and a telemetry line carrying the
    // same rendering of p agree exactly.
    let p = fx(1250);
    let cmd = encode_move_absolute(p);
    // Strip "G0 X" and "\r\n" to recover the rendered number.
    let payload = cmd[4..cmd.len() - 2].to_vec();
    let mut line = b"X:".to_vec();
    line.extend_from_slice(&payload);
    line.extend_from_slice(b" T:0");
    assert_eq!(
        parse_line(&line),
        vec![TelemetryEvent::Position(p), TelemetryEvent::Tensile(0)]
    );
}
