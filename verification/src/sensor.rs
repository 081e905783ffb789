//! Pure interpretation of the thermal sensor's readouts: parsing the leading
//! decimal number out of a raw device read, and rebasing the
//! millidegree-Celsius difference of reading and offset onto the controller's
//! millikelvin scale.

use vstd::prelude::*;

verus! {

/// The millikelvin value of 0 °C; raw sensor values are millidegrees Celsius.
pub const MILLIKELVIN_AT_ZERO_CELSIUS: u32 = 273150;

/// Why a raw readout was rejected.
#[derive(Debug, Clone, Copy, PartialEq, Eq, Structural)]
pub enum SensorError {
    /// The device handed back no bytes at all.
    Empty,
    /// The device handed back more bytes than a readout can hold.
    TooLong,
    /// The readout does not begin with a decimal digit.
    Invalid,
    /// Reading minus offset lies outside the representable temperature range.
    OutOfRange,
}

/// Which of the device's two readouts a rejection concerns.
#[derive(Debug, Clone, Copy, PartialEq, Eq, Structural)]
pub enum Channel {
    Temp,
    Offset,
}

/// A rejected sensor read: which readout, and why.
#[derive(Debug, Clone, Copy, PartialEq, Eq, Structural)]
pub struct SensorReadError {
    pub channel: Channel,
    pub kind: SensorError,
}

pub open spec fn is_ascii_digit(c: u8) -> bool {
    48 <= c <= 57
}

/// The length of the readout's leading run of decimal digits.
pub open spec fn digits_len(s: Seq<u8>) -> nat
    decreases s.len(),
{
    if s.len() == 0 || !is_ascii_digit(s[0]) {
        0
    } else {
        1 + digits_len(s.drop_first())
    }
}

/// The number written by a sequence of decimal digits, most significant
/// first.
pub open spec fn decimal_value(s: Seq<u8>) -> int
    decreases s.len(),
{
    if s.len() == 0 {
        0
    } else {
        decimal_value(s.drop_last()) * 10 + (s.last() - 48)
    }
}

/// Ten to the `n`.
pub open spec fn pow10(n: nat) -> int
    decreases n,
{
    if n == 0 {
        1
    } else {
        10 * pow10((n - 1) as nat)
    }
}

proof fn lemma_pow10_pos(n: nat)
    ensures
        pow10(n) > 0,
    decreases n,
{
    if n > 0 {
        lemma_pow10_pos((n - 1) as nat);
    }
}

proof fn lemma_pow10_monotone(a: nat, b: nat)
    requires
        a <= b,
    ensures
        pow10(a) <= pow10(b),
    decreases b,
{
    if a < b {
        lemma_pow10_monotone(a, (b - 1) as nat);
        lemma_pow10_pos((b - 1) as nat);
    }
}

/// A run of `n` digits writes a number under ten to the `n`.
proof fn lemma_decimal_value_bound(s: Seq<u8>)
    requires
        forall|j: int| 0 <= j < s.len() ==> is_ascii_digit(#[trigger] s[j]),
    ensures
        0 <= decimal_value(s) < pow10(s.len()),
    decreases s.len(),
{
    if s.len() > 0 {
        lemma_decimal_value_bound(s.drop_last());
    }
}

/// The leading digit run ends exactly where the first non-digit stands.
proof fn lemma_digits_len_at(s: Seq<u8>, i: int)
    requires
        0 <= i <= s.len(),
        forall|j: int| 0 <= j < i ==> is_ascii_digit(#[trigger] s[j]),
        i < s.len() ==> !is_ascii_digit(s[i]),
    ensures
        digits_len(s) == i,
    decreases s.len(),
{
    if i == 0 {
    } else {
        lemma_digits_len_at(s.drop_first(), i - 1);
    }
}

/// Parses the leading run of decimal digits of a raw readout: the number it
/// writes, and how many bytes it spans (zero when the readout starts with a
/// non-digit).
pub fn parse(buf: &[u8]) -> (r: (u32, usize))
    requires
        buf@.len() <= 8,
    ensures
        r.1 == digits_len(buf@),
        r.0 == decimal_value(buf@.take(r.1 as int)),
{
    let ghost s = buf@;
    let mut i: usize = 0;
    let mut num: u32 = 0;
    while i < buf.len()
        invariant
            s == buf@,
            s.len() <= 8,
            i <= s.len(),
            forall|j: int| 0 <= j < i ==> is_ascii_digit(#[trigger] s[j]),
            num == decimal_value(s.take(i as int)),
            num < pow10(i as nat),
        decreases buf@.len() - i,
    {
        let c = buf[i];
        if c < 48 || c > 57 {
            proof {
                lemma_digits_len_at(s, i as int);
            }
            return (num, i);
        }
        proof {
            assert(s.take(i + 1).drop_last() =~= s.take(i as int));
            assert(s.take(i + 1).last() == s[i as int]);
            lemma_pow10_monotone(i as nat, 7);
            assert(pow10(7) == 10000000) by {
                reveal_with_fuel(pow10, 9);
            }
        }
        num = num * 10 + ((c - 48) as u32);
        i = i + 1;
    }
    proof {
        lemma_digits_len_at(s, i as int);
    }
    (num, i)
}

/// A raw readout decoded: rejected when empty, oversized, or not starting
/// with a digit; otherwise the number its leading digits write.
pub open spec fn spec_decode(s: Seq<u8>) -> Result<u32, SensorError> {
    if s.len() == 0 {
        Result::Err(SensorError::Empty)
    } else if s.len() > 8 {
        Result::Err(SensorError::TooLong)
    } else if digits_len(s) == 0 {
        Result::Err(SensorError::Invalid)
    } else {
        Result::Ok(decimal_value(s.take(digits_len(s) as int)) as u32)
    }
}

/// Decodes one raw readout, exactly as [`spec_decode`] says.
pub fn decode_raw(buf: &[u8]) -> (r: Result<u32, SensorError>)
    ensures
        r == spec_decode(buf@),
{
    if buf.len() == 0 {
        return Err(SensorError::Empty);
    }
    if buf.len() > 8 {
        return Err(SensorError::TooLong);
    }
    let (num, span) = parse(buf);
    if span == 0 {
        Err(SensorError::Invalid)
    } else {
        proof {
            assert(forall|j: int|
                0 <= j < buf@.take(digits_len(buf@) as int).len() ==> is_ascii_digit(
                    #[trigger] buf@.take(digits_len(buf@) as int)[j],
                )) by {
                lemma_digits_prefix(buf@);
            }
            lemma_decimal_value_bound(buf@.take(digits_len(buf@) as int));
        }
        Ok(num)
    }
}

/// Every byte of the leading digit run is a digit.
proof fn lemma_digits_prefix(s: Seq<u8>)
    ensures
        forall|j: int| 0 <= j < digits_len(s) ==> is_ascii_digit(#[trigger] s[j]),
        digits_len(s) <= s.len(),
    decreases s.len(),
{
    if s.len() > 0 && is_ascii_digit(s[0]) {
        lemma_digits_prefix(s.drop_first());
        assert forall|j: int| 0 <= j < digits_len(s) implies is_ascii_digit(#[trigger] s[j]) by {
            if j > 0 {
                assert(s[j] == s.drop_first()[j - 1]);
            }
        }
    }
}

/// `raw - offset`, both millidegrees Celsius, rebased to millikelvin;
/// rejected when the difference leaves the representable range.
pub open spec fn spec_rebase(raw: u32, offset: u32) -> Result<u32, SensorReadError> {
    let v = raw - offset + MILLIKELVIN_AT_ZERO_CELSIUS;
    if 0 <= v <= u32::MAX {
        Result::Ok(v as u32)
    } else {
        Result::Err(SensorReadError { channel: Channel::Temp, kind: SensorError::OutOfRange })
    }
}

/// Rebases a decoded reading and offset onto the millikelvin scale, exactly
/// as [`spec_rebase`] says.
pub fn rebase(raw: u32, offset: u32) -> (r: Result<u32, SensorReadError>)
    ensures
        r == spec_rebase(raw, offset),
{
    let v: i64 = raw as i64 - offset as i64 + MILLIKELVIN_AT_ZERO_CELSIUS as i64;
    if 0 <= v && v <= u32::MAX as i64 {
        Ok(v as u32)
    } else {
        Err(SensorReadError { channel: Channel::Temp, kind: SensorError::OutOfRange })
    }
}

/// A whole sensor read interpreted: decode the temperature readout, decode
/// the offset readout when the device has one (zero otherwise), and rebase
/// their difference to millikelvin.
pub open spec fn spec_reading(t: Seq<u8>, o: Option<Seq<u8>>) -> Result<u32, SensorReadError> {
    match spec_decode(t) {
        Result::Err(e) => Result::Err(SensorReadError { channel: Channel::Temp, kind: e }),
        Result::Ok(raw) => match o {
            Option::None => spec_rebase(raw, 0),
            Option::Some(ob) => match spec_decode(ob) {
                Result::Err(e) => Result::Err(
                    SensorReadError { channel: Channel::Offset, kind: e },
                ),
                Result::Ok(off) => spec_rebase(raw, off),
            },
        },
    }
}

/// Interprets the bytes read from the device's temperature file and, when
/// present, its offset file, exactly as [`spec_reading`] says.
pub fn interpret_readout(temp_buf: &[u8], offset_buf: Option<&[u8]>) -> (r: Result<
    u32,
    SensorReadError,
>)
    ensures
        r == spec_reading(
            temp_buf@,
            match offset_buf {
                Option::Some(b) => Option::Some(b@),
                Option::None => Option::None,
            },
        ),
{
    let raw = match decode_raw(temp_buf) {
        Ok(v) => v,
        Err(e) => {
            return Err(SensorReadError { channel: Channel::Temp, kind: e });
        },
    };
    let offset = match offset_buf {
        Some(ob) => match decode_raw(ob) {
            Ok(v) => v,
            Err(e) => {
                return Err(SensorReadError { channel: Channel::Offset, kind: e });
            },
        },
        None => 0,
    };
    rebase(raw, offset)
}

/// The millikelvin value of a temperature in millidegrees Celsius; nothing
/// below absolute zero.
pub fn millikelvin_from_millicelsius(mc: i32) -> (r: Option<u32>)
    ensures
        r matches Some(mk) ==> mk == mc + MILLIKELVIN_AT_ZERO_CELSIUS,
        r is Some <==> mc + MILLIKELVIN_AT_ZERO_CELSIUS >= 0,
{
    let v: i64 = mc as i64 + MILLIKELVIN_AT_ZERO_CELSIUS as i64;
    if v >= 0 {
        Some(v as u32)
    } else {
        None
    }
}

} // verus!
