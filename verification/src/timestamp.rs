//! Validated timestamps and timezone offsets, and their git-format
//! rendering as embedded in revision and release manifests.

use vstd::prelude::*;

use crate::encoding::{dec_digits, dec_i64, dec_int, dec_u64_pad, push_bytes, zero_pad};
use crate::error::SwhidError;

verus! {

/// A validated seconds-and-microseconds pair.
///
/// Validation happens at construction: no out-of-range timestamp exists.
#[derive(Debug, Clone, PartialEq, Eq, Hash)]
pub struct Timestamp {
    pub seconds: i64,
    pub microseconds: u32,
}

impl Timestamp {
    /// The earliest representable second (0001-01-02T00:00:00).
    pub const MIN_SECONDS: i64 = -62135510961;

    /// The latest representable second (9999-12-31T23:59:59).
    pub const MAX_SECONDS: i64 = 253402297199;

    pub const MIN_MICROSECONDS: u32 = 0;

    pub const MAX_MICROSECONDS: u32 = 999999;

    /// The range every constructed timestamp lies in.
    pub open spec fn wf(&self) -> bool {
        -62135510961 <= self.seconds <= 253402297199 && self.microseconds <= 999999
    }

    /// Builds a timestamp, rejecting out-of-range seconds or microseconds.
    pub fn new(seconds: i64, microseconds: u32) -> (r: Result<Self, SwhidError>)
        ensures
            r is Ok <==> (-62135510961 <= seconds <= 253402297199 && microseconds <= 999999),
            r matches Ok(t) ==> t.seconds == seconds && t.microseconds == microseconds && t.wf(),
            r matches Err(e) ==> e == SwhidError::InvalidFormat,
    {
        if seconds < Self::MIN_SECONDS || seconds > Self::MAX_SECONDS {
            return Err(SwhidError::InvalidFormat);
        }
        if microseconds > Self::MAX_MICROSECONDS {
            return Err(SwhidError::InvalidFormat);
        }
        Ok(Timestamp { seconds, microseconds })
    }

    /// Builds a timestamp from whole seconds since the epoch.
    pub fn from_unix(seconds: i64) -> (r: Result<Self, SwhidError>)
        ensures
            r is Ok <==> -62135510961 <= seconds <= 253402297199,
            r matches Ok(t) ==> t.seconds == seconds && t.microseconds == 0 && t.wf(),
            r matches Err(e) ==> e == SwhidError::InvalidFormat,
    {
        Self::new(seconds, 0)
    }

    /// Builds a timestamp from seconds and microseconds since the epoch.
    pub fn from_unix_with_microseconds(seconds: i64, microseconds: u32) -> (r: Result<
        Self,
        SwhidError,
    >)
        ensures
            r is Ok <==> (-62135510961 <= seconds <= 253402297199 && microseconds <= 999999),
            r matches Ok(t) ==> t.seconds == seconds && t.microseconds == microseconds && t.wf(),
            r matches Err(e) ==> e == SwhidError::InvalidFormat,
    {
        Self::new(seconds, microseconds)
    }

    /// Renders the timestamp for a git manifest: the seconds in decimal,
    /// then—only when the microseconds are not zero—a dot and six
    /// zero-padded digits.
    pub fn format_for_git(&self) -> (r: Vec<u8>)
        requires
            self.wf(),
        ensures
            r@ == ts_git_bytes(self.seconds as int, self.microseconds as nat),
    {
        let mut r = dec_i64(self.seconds);
        if self.microseconds != 0 {
            r.push(46);
            let micros = dec_u64_pad(self.microseconds as u64, 6);
            push_bytes(&mut r, micros.as_slice());
        }
        assert(r@ =~= ts_git_bytes(self.seconds as int, self.microseconds as nat));
        r
    }
}

/// The git rendering of a seconds-and-microseconds pair.
pub open spec fn ts_git_bytes(seconds: int, micros: nat) -> Seq<u8> {
    if micros == 0 {
        dec_int(seconds)
    } else {
        dec_int(seconds) + seq![46u8] + zero_pad(dec_digits(micros), 6)
    }
}

/// A timestamp paired with the raw bytes of a `±HH:MM` timezone-offset
/// token.  The token is kept verbatim; it is validated only when its value
/// is asked for.
#[derive(Debug, Clone, PartialEq, Eq, Hash)]
pub struct TimestampWithTimezone {
    pub timestamp: Timestamp,
    pub offset_bytes: Vec<u8>,
}

/// The offset token built from a minute count and a sign.
pub open spec fn offset_token(offset: int, negative_utc: bool) -> Seq<u8> {
    let sign: u8 = if negative_utc {
        45u8
    } else {
        43u8
    };
    seq![sign] + zero_pad(dec_digits((offset / 60) as nat), 2) + seq![58u8] + zero_pad(
        dec_digits((offset % 60) as nat),
        2,
    )
}

/// The signed minute count named by an offset token, when the token is
/// exactly six bytes shaped `[+-]HH:MM`.
pub open spec fn spec_offset_minutes(b: Seq<u8>) -> Option<int> {
    if b.len() == 6 && (b[0] == 43 || b[0] == 45) && is_ascii_digit(b[1]) && is_ascii_digit(b[2])
        && b[3] == 58 && is_ascii_digit(b[4]) && is_ascii_digit(b[5]) {
        let hours = (b[1] - 48) * 10 + (b[2] - 48);
        let minutes = (b[4] - 48) * 10 + (b[5] - 48);
        if b[0] == 43 {
            Some(hours * 60 + minutes)
        } else {
            Some(-(hours * 60 + minutes))
        }
    } else {
        None
    }
}

/// An ASCII decimal digit byte.
pub open spec fn is_ascii_digit(b: u8) -> bool {
    48 <= b <= 57
}

/// The git rendering of a timestamp with its offset token: the timestamp,
/// then the token verbatim.
pub open spec fn tstz_git_bytes(t: &TimestampWithTimezone) -> Seq<u8> {
    ts_git_bytes(t.timestamp.seconds as int, t.timestamp.microseconds as nat) + t.offset_bytes@
}

impl TimestampWithTimezone {
    /// Pairs a timestamp with raw offset-token bytes.
    pub fn new(timestamp: Timestamp, offset_bytes: Vec<u8>) -> (r: Self)
        ensures
            r.timestamp == timestamp,
            r.offset_bytes@ == offset_bytes@,
    {
        TimestampWithTimezone { timestamp, offset_bytes }
    }

    /// Builds the offset token from a non-negative minute count and a
    /// sign flag (`negative_utc` marks `-00:00`-style offsets).
    pub fn from_numeric_offset(timestamp: Timestamp, offset: i32, negative_utc: bool) -> (r: Self)
        requires
            0 <= offset,
        ensures
            r.timestamp == timestamp,
            r.offset_bytes@ == offset_token(offset as int, negative_utc),
    {
        let mut b: Vec<u8> = Vec::new();
        b.push(if negative_utc {
            45
        } else {
            43
        });
        let hours = dec_u64_pad((offset / 60) as u64, 2);
        push_bytes(&mut b, hours.as_slice());
        b.push(58);
        let minutes = dec_u64_pad((offset % 60) as u64, 2);
        push_bytes(&mut b, minutes.as_slice());
        assert(b@ =~= offset_token(offset as int, negative_utc));
        TimestampWithTimezone { timestamp, offset_bytes: b }
    }

    /// Reads the offset token back as signed minutes; fails on any token
    /// not shaped `[+-]HH:MM`.
    pub fn offset_minutes(&self) -> (r: Result<i32, SwhidError>)
        ensures
            r matches Ok(m) ==> spec_offset_minutes(self.offset_bytes@) == Some(m as int),
            r is Ok <==> spec_offset_minutes(self.offset_bytes@) is Some,
            r matches Err(e) ==> e == SwhidError::InvalidFormat,
    {
        let b = &self.offset_bytes;
        if b.len() != 6 {
            return Err(SwhidError::InvalidFormat);
        }
        let sign_byte = b[0];
        if sign_byte != 43 && sign_byte != 45 {
            return Err(SwhidError::InvalidFormat);
        }
        let (h1, h2, colon, m1, m2) = (b[1], b[2], b[3], b[4], b[5]);
        if !(48 <= h1 && h1 <= 57) || !(48 <= h2 && h2 <= 57) {
            return Err(SwhidError::InvalidFormat);
        }
        if colon != 58 {
            return Err(SwhidError::InvalidFormat);
        }
        if !(48 <= m1 && m1 <= 57) || !(48 <= m2 && m2 <= 57) {
            return Err(SwhidError::InvalidFormat);
        }
        let hours: i32 = (h1 - 48) as i32 * 10 + (h2 - 48) as i32;
        let minutes: i32 = (m1 - 48) as i32 * 10 + (m2 - 48) as i32;
        let total: i32 = hours * 60 + minutes;
        assert(b@[0] == sign_byte && b@[1] == h1 && b@[2] == h2 && b@[3] == colon && b@[4] == m1
            && b@[5] == m2);
        assert(hours == (b@[1] - 48) * 10 + (b@[2] - 48));
        assert(minutes == (b@[4] - 48) * 10 + (b@[5] - 48));
        if sign_byte == 43 {
            assert(spec_offset_minutes(self.offset_bytes@) == Some(total as int));
            Ok(total)
        } else {
            assert(spec_offset_minutes(self.offset_bytes@) == Some(-total as int));
            Ok(-total)
        }
    }

    /// The timestamp shifted to UTC by the token's offset: the seconds
    /// minus sixty times the offset minutes.
    pub fn utc_seconds(&self) -> (r: Result<i64, SwhidError>)
        requires
            self.timestamp.wf(),
        ensures
            r matches Ok(u) ==> spec_offset_minutes(self.offset_bytes@) matches Some(m)
                && u == self.timestamp.seconds - 60 * m,
            r is Ok <==> spec_offset_minutes(self.offset_bytes@) is Some,
            r matches Err(e) ==> e == SwhidError::InvalidFormat,
    {
        let m = self.offset_minutes()?;
        Ok(self.timestamp.seconds - 60 * (m as i64))
    }

    /// Renders the timestamp and the offset token for a git manifest.
    pub fn format_for_git(&self) -> (r: Vec<u8>)
        requires
            self.timestamp.wf(),
        ensures
            r@ == tstz_git_bytes(self),
    {
        let mut r = self.timestamp.format_for_git();
        push_bytes(&mut r, self.offset_bytes.as_slice());
        assert(r@ =~= tstz_git_bytes(self));
        r
    }
}

} // verus!
