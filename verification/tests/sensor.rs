use fanctrl::sensor::{
    decode_raw, interpret_readout, millikelvin_from_millicelsius, parse, rebase, Channel,
    SensorError, SensorReadError, MILLIKELVIN_AT_ZERO_CELSIUS,
};

#[test]
fn parse_reads_the_leading_digits() {
    assert_eq!(parse(b"45000\n"), (45000, 5));
    assert_eq!(parse(b""), (0, 0));
    assert_eq!(parse(b"abc"), (0, 0));
    assert_eq!(parse(b"007"), (7, 3));
    assert_eq!(parse(b"12345678"), (12345678, 8));
    assert_eq!(parse(b"42x7"), (42, 2));
}

#[test]
fn decode_rejects_bad_readouts() {
    assert_eq!(decode_raw(b""), Err(SensorError::Empty));
    assert_eq!(decode_raw(b"123456789"), Err(SensorError::TooLong));
    assert_eq!(decode_raw(b"x123"), Err(SensorError::Invalid));
    assert_eq!(decode_raw(b"\n"), Err(SensorError::Invalid));
    assert_eq!(decode_raw(b"45000\n"), Ok(45000));
}

#[test]
fn readout_without_offset_rebases_to_millikelvin() {
    assert_eq!(interpret_readout(b"45000\n", None), Ok(45000 + MILLIKELVIN_AT_ZERO_CELSIUS));
}

#[test]
fn readout_with_offset_subtracts_it() {
    assert_eq!(
        interpret_readout(b"45000\n", Some(b"2000\n")),
        Ok(43000 + MILLIKELVIN_AT_ZERO_CELSIUS)
    );
}

#[test]
fn readout_errors_name_their_channel() {
    assert_eq!(
        interpret_readout(b"", Some(b"2000")),
        Err(SensorReadError { channel: Channel::Temp, kind: SensorError::Empty })
    );
    assert_eq!(
        interpret_readout(b"45000", Some(b"oops")),
        Err(SensorReadError { channel: Channel::Offset, kind: SensorError::Invalid })
    );
}

#[test]
fn readout_below_absolute_zero_is_out_of_range() {
    assert_eq!(
        interpret_readout(b"0", Some(b"99999999")),
        Err(SensorReadError { channel: Channel::Temp, kind: SensorError::OutOfRange })
    );
    assert_eq!(rebase(0, MILLIKELVIN_AT_ZERO_CELSIUS), Ok(0));
    assert_eq!(
        rebase(0, MILLIKELVIN_AT_ZERO_CELSIUS + 1),
        Err(SensorReadError { channel: Channel::Temp, kind: SensorError::OutOfRange })
    );
}

#[test]
fn celsius_conversion_floors_at_absolute_zero() {
    assert_eq!(millikelvin_from_millicelsius(40000), Some(313150));
    assert_eq!(millikelvin_from_millicelsius(0), Some(MILLIKELVIN_AT_ZERO_CELSIUS));
    assert_eq!(millikelvin_from_millicelsius(-273150), Some(0));
    assert_eq!(millikelvin_from_millicelsius(-273151), None);
    assert_eq!(millikelvin_from_millicelsius(i32::MAX), Some(i32::MAX as u32 + 273150));
}
