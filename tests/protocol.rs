use agilent6612c::command::Command;
use agilent6612c::decimal::Decimal;
use agilent6612c::error::{Error, Shape, TransportError};
use agilent6612c::exchange::finish_exchange;
use agilent6612c::params::{Baudrate, ConnectionParameters, FlowControl, Parity, StopBits};
use agilent6612c::response::{number_literal, CommandResult};

fn wire(c: Command) -> String {
    c.serialize().unwrap()
}

fn dec(negative: bool, mantissa: u128, scale: usize) -> Decimal {
    Decimal { negative, mantissa, scale }
}

#[test]
fn serializes_fixed_mnemonics() {
    assert_eq!(wire(Command::GetDeviceModelName), "*idn?\r\n");
    assert_eq!(wire(Command::GetFirmwareVersion), "syst:vers?\r\n");
    assert_eq!(wire(Command::GetMaximumSupportedVoltage), "volt? max\r\n");
    assert_eq!(wire(Command::GetMaximumSupportedCurrent), "curr? max\r\n");
    assert_eq!(wire(Command::GetOutput), "output?\r\n");
    assert_eq!(wire(Command::MeasureVoltage), "meas:volt?\r\n");
    assert_eq!(wire(Command::MeasureCurrent), "meas:curr?\r\n");
    assert_eq!(wire(Command::GetOutputVoltage), "voltage?\r\n");
    assert_eq!(wire(Command::GetOutputCurrent), "current?\r\n");
    assert_eq!(wire(Command::GetOverCurrentProtectionStatus), "curr:prot:stat?\r\n");
}

#[test]
fn serializes_boolean_payloads_as_on_off() {
    assert_eq!(wire(Command::SetOutput(true)), "output on\r\n");
    assert_eq!(wire(Command::SetOutput(false)), "output off\r\n");
    assert_eq!(wire(Command::SetOverCurrentProtection(true)), "curr:prot:stat on\r\n");
    assert_eq!(wire(Command::SetOverCurrentProtection(false)), "curr:prot:stat off\r\n");
}

#[test]
fn serialization_is_deterministic_and_terminated_once() {
    let cmds = vec![
        Command::GetDeviceModelName,
        Command::SetOutput(true),
        Command::SetOutputVoltage(dec(true, 12345, 3), 2),
        Command::SetOutputCurrent(dec(false, 10, 3), 0),
    ];
    for c in cmds {
        let a = wire(c);
        let b = wire(c);
        assert_eq!(a, b);
        assert!(a.ends_with("\r\n"));
        assert_eq!(a.matches('\r').count(), 1);
        assert_eq!(a.matches('\n').count(), 1);
    }
}

#[test]
fn precision_pads_with_zeros() {
    assert_eq!(wire(Command::SetOutputVoltage(dec(false, 1, 0), 4)), "voltage 1.0000\r\n");
    assert_eq!(wire(Command::SetOutputCurrent(dec(false, 10, 3), 4)), "current 0.0100\r\n");
    assert_eq!(wire(Command::SetOutputVoltage(dec(true, 25, 1), 3)), "voltage -2.500\r\n");
    assert_eq!(wire(Command::SetOutputVoltage(dec(false, 123456, 2), 1)), "voltage 1234.6\r\n");
}

#[test]
fn precision_zero_has_no_point() {
    assert_eq!(wire(Command::SetOutputVoltage(dec(false, 35, 1), 0)), "voltage 4\r\n");
    assert_eq!(wire(Command::SetOutputVoltage(dec(false, 0, 0), 0)), "voltage 0\r\n");
}

#[test]
fn rounding_ties_go_to_even() {
    assert_eq!(wire(Command::SetOutputVoltage(dec(false, 25, 2), 1)), "voltage 0.2\r\n");
    assert_eq!(wire(Command::SetOutputVoltage(dec(false, 35, 2), 1)), "voltage 0.4\r\n");
    assert_eq!(wire(Command::SetOutputVoltage(dec(false, 251, 3), 1)), "voltage 0.3\r\n");
}

#[test]
fn precision_at_the_largest_size() {
    let v = dec(false, u64::MAX as u128, 18);
    assert_eq!(wire(Command::SetOutputVoltage(v, 18)), "voltage 18.446744073709551615\r\n");
    let s = wire(Command::SetOutputCurrent(dec(true, u64::MAX as u128, 0), 18));
    let frac = s.trim_end().split('.').nth(1).unwrap();
    assert_eq!(frac.len(), 18);
    assert!(s.starts_with("current -18446744073709551615."));
}

#[test]
fn any_precision_and_scale_are_written() {
    assert_eq!(
        wire(Command::SetOutputVoltage(dec(false, 1, 0), 19)),
        "voltage 1.0000000000000000000\r\n"
    );
    assert_eq!(wire(Command::SetOutputCurrent(dec(false, 1, 19), 4)), "current 0.0000\r\n");
    assert_eq!(
        wire(Command::SetOutputCurrent(dec(false, 1, 19), 19)),
        "current 0.0000000000000000001\r\n"
    );
    assert_eq!(
        wire(Command::SetOutputVoltage(dec(false, 5, 19), 18)),
        "voltage 0.000000000000000000\r\n"
    );
    assert_eq!(
        wire(Command::SetOutputVoltage(dec(false, 15, 19), 18)),
        "voltage 0.000000000000000002\r\n"
    );
    assert_eq!(
        wire(Command::SetOutputVoltage(dec(true, 1, 0), 40)),
        "voltage -1.0000000000000000000000000000000000000000\r\n"
    );
}

#[test]
fn largest_mantissa_at_any_scale() {
    assert_eq!(
        wire(Command::SetOutputVoltage(dec(false, u128::MAX, 0), 2)),
        "voltage 340282366920938463463374607431768211455.00\r\n"
    );
    assert_eq!(
        wire(Command::SetOutputVoltage(dec(false, u128::MAX, 50), 10)),
        "voltage 0.0000000000\r\n"
    );
    assert_eq!(
        wire(Command::SetOutputVoltage(dec(false, u128::MAX, 50), 60)),
        "voltage 0.000000000003402823669209384634633746074317682114550000000000\r\n"
    );
    assert_eq!(
        wire(Command::SetOutputVoltage(dec(false, u128::MAX, 1), 0)),
        "voltage 34028236692093846346337460743176821146\r\n"
    );
}

#[test]
fn flag_digits_decode_as_booleans() {
    assert_eq!(CommandResult::parse_line(b"1", false), Ok(CommandResult::Boolean(true)));
    assert_eq!(CommandResult::parse_line(b"0\r\n", false), Ok(CommandResult::Boolean(false)));
    assert_eq!(CommandResult::parse_line(b"1\r\n", true), Ok(CommandResult::Boolean(true)));
}

#[test]
fn decoding_fallback_order() {
    assert_eq!(
        CommandResult::parse_line(b"3.30\r\n", false),
        Ok(CommandResult::Number("3.30".to_string()))
    );
    assert_eq!(
        CommandResult::parse_line(b"IDN,MODEL,1.0\r\n", false),
        Ok(CommandResult::Text("IDN,MODEL,1.0".to_string()))
    );
    assert_eq!(CommandResult::parse_line(b"\r\n", true), Ok(CommandResult::Nothing));
    assert_eq!(CommandResult::parse_line(b"", true), Ok(CommandResult::Nothing));
}

#[test]
fn empty_line_is_an_error_when_a_reply_is_owed() {
    assert_eq!(CommandResult::parse_line(b"\r\n", false), Err(Error::EmptyResponse));
}

#[test]
fn numbers_in_exponent_notation() {
    assert_eq!(
        CommandResult::parse_line(b"+2.5E-3\r\n", false),
        Ok(CommandResult::Number("+2.5E-3".to_string()))
    );
    assert_eq!(
        CommandResult::parse_line(b"10\r\n", false),
        Ok(CommandResult::Number("10".to_string()))
    );
    for ok in ["1.", ".5", "-0.25", "1e9", "7E+2"] {
        assert!(number_literal(ok.as_bytes()), "{ok}");
        assert!(ok.parse::<f32>().is_ok());
    }
    for bad in [".", "-", "e5", "1e", "1.2.3", "1e+", " 1", "0x10", "1,5"] {
        assert!(!number_literal(bad.as_bytes()), "{bad}");
    }
}

#[test]
fn only_one_terminator_is_stripped() {
    assert_eq!(
        CommandResult::parse_line(b"abc\r\n\r\n", false),
        Ok(CommandResult::Text("abc\r\n".to_string()))
    );
    assert_eq!(
        CommandResult::parse_line(b"abc\n", false),
        Ok(CommandResult::Text("abc\n".to_string()))
    );
}

#[test]
fn invalid_utf8_is_malformed_encoding() {
    assert_eq!(
        CommandResult::parse_line(&[0x49, 0xff, 0x0d, 0x0a], false),
        Err(Error::MalformedResponseEncoding)
    );
    assert_eq!(CommandResult::parse_line(&[0xc3], true), Err(Error::MalformedResponseEncoding));
}

#[test]
fn utf8_text_is_kept_whole() {
    assert_eq!(
        CommandResult::parse_line("µA\r\n".as_bytes(), false),
        Ok(CommandResult::Text("µA".to_string()))
    );
}

#[test]
fn coercion_matches_shape() {
    assert_eq!(CommandResult::Boolean(true).try_into_bool(), Ok(true));
    assert_eq!(CommandResult::Number("3.30".to_string()).try_into_number(), Ok("3.30".to_string()));
    assert_eq!(CommandResult::Text("x".to_string()).try_into_text(), Ok("x".to_string()));
}

#[test]
fn coercion_to_another_shape_fails() {
    assert_eq!(
        CommandResult::Number("1.5".to_string()).try_into_bool(),
        Err(Error::UnexpectedResponseShape { expected: Shape::Boolean, actual: Shape::Number })
    );
    assert_eq!(
        CommandResult::Boolean(false).try_into_number(),
        Err(Error::UnexpectedResponseShape { expected: Shape::Number, actual: Shape::Boolean })
    );
    assert_eq!(
        CommandResult::Number("2".to_string()).try_into_text(),
        Err(Error::UnexpectedResponseShape { expected: Shape::Text, actual: Shape::Number })
    );
    assert_eq!(
        CommandResult::Nothing.try_into_text(),
        Err(Error::UnexpectedResponseShape { expected: Shape::Text, actual: Shape::Nothing })
    );
    assert_eq!(CommandResult::Nothing.shape(), Shape::Nothing);
}

#[test]
fn round_trip_output_enable() {
    assert_eq!(wire(Command::SetOutput(true)), "output on\r\n");
    let query = Command::GetOutput;
    assert_eq!(wire(query), "output?\r\n");
    let reply = finish_exchange(Ok(b"1\r\n".to_vec()), query.allows_absent_response());
    assert_eq!(reply, Ok(CommandResult::Boolean(true)));
}

#[test]
fn timeout_without_allowance_is_an_error() {
    let query = Command::MeasureVoltage;
    assert!(!query.allows_absent_response());
    assert_eq!(
        finish_exchange(Err(TransportError::TimedOut), query.allows_absent_response()),
        Err(Error::Transport(TransportError::TimedOut))
    );
}

#[test]
fn timeout_with_allowance_is_nothing() {
    let set = Command::SetOutput(false);
    assert!(set.allows_absent_response());
    assert_eq!(finish_exchange(Err(TransportError::TimedOut), true), Ok(CommandResult::Nothing));
    assert_eq!(
        finish_exchange(Err(TransportError::Disconnected), true),
        Err(Error::Transport(TransportError::Disconnected))
    );
}

#[test]
fn exchange_surfaces_malformed_bytes() {
    assert_eq!(
        finish_exchange(Ok(vec![0xfe, 0xfe, b'\r', b'\n']), false),
        Err(Error::MalformedResponseEncoding)
    );
}

#[test]
fn absent_response_allowance_per_command() {
    assert!(Command::SetOverCurrentProtection(true).allows_absent_response());
    assert!(Command::SetOutputVoltage(dec(false, 1, 0), 4).allows_absent_response());
    assert!(Command::SetOutputCurrent(dec(false, 1, 0), 4).allows_absent_response());
    assert!(!Command::GetOutput.allows_absent_response());
    assert!(!Command::GetOverCurrentProtectionStatus.allows_absent_response());
    assert!(!Command::GetDeviceModelName.allows_absent_response());
}

#[test]
fn baudrate_values() {
    assert_eq!(u32::from(Baudrate::Baud300), 300);
    assert_eq!(u32::from(Baudrate::Baud600), 600);
    assert_eq!(u32::from(Baudrate::Baud1200), 1200);
    assert_eq!(u32::from(Baudrate::Baud2400), 2400);
    assert_eq!(u32::from(Baudrate::Baud4800), 4800);
    assert_eq!(u32::from(Baudrate::Baud9600), 9600);
}

#[test]
fn default_connection_parameters() {
    let p = ConnectionParameters::default();
    assert_eq!(p.baudrate, Baudrate::Baud9600);
    assert_eq!(p.parity, Parity::Off);
    assert_eq!(p.flow, FlowControl::Off);
    assert_eq!(p.stop_bits, StopBits::One);
}

#[test]
fn plain_decimal_text_parses() {
    assert_eq!(Decimal::parse_plain(b"1"), Some(dec(false, 1, 0)));
    assert_eq!(Decimal::parse_plain(b"0.01"), Some(dec(false, 1, 2)));
    assert_eq!(Decimal::parse_plain(b"-12.500"), Some(dec(true, 12500, 3)));
    assert_eq!(Decimal::parse_plain(b"18446744073709551616"), Some(dec(false, 1 << 64, 0)));
    assert_eq!(Decimal::parse_plain(b"0.0000000000000000001"), Some(dec(false, 1, 19)));
    assert_eq!(
        Decimal::parse_plain(b"0.000000000000000001"),
        Some(dec(false, 1, 18))
    );
}

#[test]
fn plain_decimal_text_refuses_others() {
    for bad in ["", "-", ".5", "1.", "1e3", "+1", "1.2.3", "NaN", "inf", " 1", "1 "] {
        assert_eq!(Decimal::parse_plain(bad.as_bytes()), None, "{bad}");
    }
    assert_eq!(Decimal::parse_plain(b"340282366920938463463374607431768211456"), None);
}

#[test]
fn float_display_text_becomes_set_point() {
    let v = Decimal::parse_plain(1.0f32.to_string().as_bytes()).unwrap();
    assert_eq!(wire(Command::SetOutputVoltage(v, 4)), "voltage 1.0000\r\n");
    let i = Decimal::parse_plain(0.010f32.to_string().as_bytes()).unwrap();
    assert_eq!(wire(Command::SetOutputCurrent(i, 4)), "current 0.0100\r\n");
    let cases = [
        (f32::MAX, "340282350000000000000000000000000000000.0000"),
        (f32::MIN_POSITIVE, "0.0000"),
        (1e-19f32, "0.0000"),
        (1e20f32, "100000000000000000000.0000"),
        (-3.25f32, "-3.2500"),
    ];
    for (x, text) in cases {
        let d = Decimal::parse_plain(x.to_string().as_bytes()).unwrap();
        assert_eq!(wire(Command::SetOutputVoltage(d, 4)), format!("voltage {text}\r\n"));
    }
}
