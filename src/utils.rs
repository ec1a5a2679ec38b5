use vstd::prelude::*;

verus! {

/// The little-endian value of two bytes, low byte first.
pub open spec fn le16(lo: u8, hi: u8) -> int {
    lo as int + 256 * (hi as int)
}

/// The little-endian value of four bytes, lowest byte first.
pub open spec fn le32(b0: u8, b1: u8, b2: u8, b3: u8) -> int {
    le16(b0, b1) + 65536 * le16(b2, b3)
}

/// The signed reading of a 16-bit word (two's complement).
pub open spec fn signed16(w: int) -> int {
    if w < 32768 { w } else { w - 65536 }
}

/// A reader ran out of input before its field was complete.
#[derive(Clone, Copy, Debug, PartialEq, Eq)]
pub enum CodecError {
    InsufficientData,
}

/// A fixed-point physical quantity: `units / divisor`.
#[derive(Clone, Copy, Debug, PartialEq, Eq)]
pub struct Scaled {
    pub units: i64,
    pub divisor: u32,
}

/// Seconds since the Unix epoch.
#[derive(Clone, Copy, Debug, PartialEq, Eq)]
pub struct UnixTime(pub i64);

/// Where the current time comes from: the system clock, or a fixed instant
/// chosen at construction (for reproducible telemetry).
#[derive(Clone, Copy, Debug, PartialEq, Eq)]
pub enum Clock {
    System,
    Fixed(i64),
}

/// Relies on chrono::Utc::now and DateTime::timestamp: the wall-clock time in
/// whole seconds since the epoch. Nothing is promised of its value.
#[verifier::external_body]
fn system_unix_seconds() -> (r: i64) {
    chrono::Utc::now().timestamp()
}

impl Clock {
    /// The current time by this clock; a fixed clock always gives its instant.
    pub fn now(&self) -> (r: UnixTime)
        ensures
            self matches Clock::Fixed(t) ==> r.0 == t,
    {
        match self {
            Clock::System => UnixTime(system_unix_seconds()),
            Clock::Fixed(t) => UnixTime(*t),
        }
    }
}

/// Relies on nom::number::complete::le_i16: with two or more bytes it reads
/// the first two little-endian as a two's complement value and returns the
/// input after them; with fewer it fails.
#[verifier::external_body]
fn nom_le_i16(input: &[u8]) -> (r: Option<(&[u8], i16)>)
    ensures
        match r {
            Some((rest, v)) => input@.len() >= 2 && rest@ == input@.skip(2)
                && v as int == signed16(le16(input@[0], input@[1])),
            None => input@.len() < 2,
        },
{
    match nom::number::complete::le_i16::<&[u8], nom::error::Error<&[u8]>>(input) {
        Ok((rest, v)) => Some((rest, v)),
        Err(_) => None,
    }
}

/// Relies on nom::number::complete::le_u32: with four or more bytes it reads
/// the first four little-endian and returns the input after them; with fewer
/// it fails.
#[verifier::external_body]
fn nom_le_u32(input: &[u8]) -> (r: Option<(&[u8], u32)>)
    ensures
        match r {
            Some((rest, v)) => input@.len() >= 4 && rest@ == input@.skip(4)
                && v as int == le32(input@[0], input@[1], input@[2], input@[3]),
            None => input@.len() < 4,
        },
{
    match nom::number::complete::le_u32::<&[u8], nom::error::Error<&[u8]>>(input) {
        Ok((rest, v)) => Some((rest, v)),
        Err(_) => None,
    }
}

/// What a scaled signed 16-bit reader gives on `input`.
pub open spec fn scaled_i16_result(input: Seq<u8>, divisor: u32) -> Option<(Seq<u8>, Scaled)> {
    if input.len() < 2 {
        None
    } else {
        Some((input.skip(2), Scaled { units: signed16(le16(input[0], input[1])) as i64, divisor }))
    }
}

/// The contract shared by the scaled readers.
pub open spec fn scaled_reads_as(
    input: Seq<u8>,
    r: Result<(&[u8], Scaled), CodecError>,
    expected: Option<(Seq<u8>, Scaled)>,
) -> bool {
    match r {
        Ok((rest, v)) => expected == Some((rest@, v)),
        Err(e) => expected is None && e == CodecError::InsufficientData,
    }
}

/// The contract shared by the optional scaled readers: they always succeed.
pub open spec fn opt_scaled_reads_as(
    input: Seq<u8>,
    r: Result<(&[u8], Option<Scaled>), CodecError>,
    expected: Option<(Seq<u8>, Scaled)>,
) -> bool {
    match r {
        Ok((rest, v)) => match expected {
            Some((erest, ev)) => rest@ == erest && v == Some(ev),
            None => rest@ == input && v is None,
        },
        Err(_) => false,
    }
}

/// Binary field readers. Each takes the unconsumed input and gives the value
/// together with what is left after it.
pub struct Utils;

impl Utils {
    /// The signed little-endian word at `offset`.
    pub fn i16ify(array: &[u8], offset: usize) -> (r: i16)
        requires
            offset + 1 < array@.len(),
        ensures
            r as int == signed16(le16(array@[offset as int], array@[offset + 1])),
    {
        let lo = array[offset];
        let hi = array[offset + 1];
        let w: u16 = (lo as u16) + (hi as u16) * 256;
        if w < 32768 {
            w as i16
        } else {
            ((w as i32) - 65536) as i16
        }
    }

    /// The unsigned little-endian word at `offset`.
    pub fn u16ify(array: &[u8], offset: usize) -> (r: u16)
        requires
            offset + 1 < array@.len(),
        ensures
            r as int == le16(array@[offset as int], array@[offset + 1]),
    {
        let lo = array[offset];
        let hi = array[offset + 1];
        (lo as u16) + (hi as u16) * 256
    }

    fn scaled_i16(input: &[u8], divisor: u32) -> (r: Result<(&[u8], Scaled), CodecError>)
        ensures
            scaled_reads_as(input@, r, scaled_i16_result(input@, divisor)),
    {
        match nom_le_i16(input) {
            Some((rest, n)) => Ok((rest, Scaled { units: n as i64, divisor })),
            None => Err(CodecError::InsufficientData),
        }
    }

    fn opt_scaled_i16(input: &[u8], divisor: u32) -> (r: Result<(&[u8], Option<Scaled>), CodecError>)
        ensures
            opt_scaled_reads_as(input@, r, scaled_i16_result(input@, divisor)),
    {
        match nom_le_i16(input) {
            Some((rest, n)) => Ok((rest, Some(Scaled { units: n as i64, divisor }))),
            None => Ok((input, None)),
        }
    }

    /// A signed word in tenths; absent input gives `None` rather than failing.
    pub fn opt_le_i16_div10(input: &[u8]) -> (r: Result<(&[u8], Option<Scaled>), CodecError>)
        ensures
            opt_scaled_reads_as(input@, r, scaled_i16_result(input@, 10)),
    {
        Self::opt_scaled_i16(input, 10)
    }

    /// A signed word in tenths.
    pub fn le_i16_div10(input: &[u8]) -> (r: Result<(&[u8], Scaled), CodecError>)
        ensures
            scaled_reads_as(input@, r, scaled_i16_result(input@, 10)),
    {
        Self::scaled_i16(input, 10)
    }

    /// A signed word in hundredths; absent input gives `None` rather than failing.
    pub fn opt_le_i16_div100(input: &[u8]) -> (r: Result<(&[u8], Option<Scaled>), CodecError>)
        ensures
            opt_scaled_reads_as(input@, r, scaled_i16_result(input@, 100)),
    {
        Self::opt_scaled_i16(input, 100)
    }

    /// A signed word in hundredths.
    pub fn le_i16_div100(input: &[u8]) -> (r: Result<(&[u8], Scaled), CodecError>)
        ensures
            scaled_reads_as(input@, r, scaled_i16_result(input@, 100)),
    {
        Self::scaled_i16(input, 100)
    }

    /// A signed word in thousandths.
    pub fn le_i16_div1000(input: &[u8]) -> (r: Result<(&[u8], Scaled), CodecError>)
        ensures
            scaled_reads_as(input@, r, scaled_i16_result(input@, 1000)),
    {
        Self::scaled_i16(input, 1000)
    }

    /// An unsigned double word in tenths.
    pub fn le_u32_div10(input: &[u8]) -> (r: Result<(&[u8], Scaled), CodecError>)
        ensures
            match r {
                Ok((rest, v)) => input@.len() >= 4 && rest@ == input@.skip(4) && v == (Scaled {
                    units: le32(input@[0], input@[1], input@[2], input@[3]) as i64,
                    divisor: 10,
                }),
                Err(e) => input@.len() < 4 && e == CodecError::InsufficientData,
            },
    {
        match nom_le_u32(input) {
            Some((rest, n)) => Ok((rest, Scaled { units: n as i64, divisor: 10 })),
            None => Err(CodecError::InsufficientData),
        }
    }

    /// A zero-width reader: consumes nothing and stamps the time of receipt.
    pub fn current_time_for_nom<'a>(input: &'a [u8], clock: &Clock) -> (r: Result<(&'a [u8], UnixTime), CodecError>)
        ensures
            r matches Ok((rest, t)) && rest@ == input@ && (clock matches Clock::Fixed(f) ==> t.0 == f),
    {
        Ok((input, clock.now()))
    }
}

} // verus!
