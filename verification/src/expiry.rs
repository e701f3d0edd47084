//! The expiry policy.
//!
//! A registration may carry a declarative expiry: an absolute RFC 3339
//! instant, or a relative number of seconds from now. Backends differ in the
//! time-to-live mechanism they accept — one takes an absolute instant it
//! evaluates server-side, another only "expire after N seconds from now" — so
//! this module resolves every specification into one canonical form, the
//! absolute instant in seconds since the Unix epoch, and converts back to a
//! relative delta at write time for backends that need one. A delta for an
//! instant already past is clamped to zero rather than dropped, so such a
//! record expires immediately instead of living forever.
//!
//! The parser accepts UTC instants of the fixed form `YYYY-MM-DDThh:mm:ssZ`,
//! from 1970 through 9999, without fractional seconds or numeric offsets;
//! anything else is rejected as unparsable.

use vstd::prelude::*;

use crate::directive::{expiry_option_view, ExpirySpec, ExpirySpecView};
use crate::errors::StoreError;

verus! {

/// Whether `c` is an ASCII decimal digit.
pub open spec fn is_digit(c: char) -> bool {
    48 <= c as u32 && c as u32 <= 57
}

/// The numeric value of an ASCII decimal digit.
pub open spec fn digit_val(c: char) -> int {
    c as u32 - 48
}

/// The number denoted by the two digits at `i` and `i + 1`.
pub open spec fn two_digit(s: Seq<char>, i: int) -> int {
    10 * digit_val(s[i]) + digit_val(s[i + 1])
}

/// The number denoted by the four digits starting at `i`.
pub open spec fn four_digit(s: Seq<char>, i: int) -> int {
    1000 * digit_val(s[i]) + 100 * digit_val(s[i + 1]) + 10 * digit_val(s[i + 2]) + digit_val(
        s[i + 3],
    )
}

/// Whether `y` is a leap year in the proleptic Gregorian calendar.
pub open spec fn is_leap_year(y: int) -> bool {
    y % 4 == 0 && (y % 100 != 0 || y % 400 == 0)
}

/// The number of days in month `m` of year `y`.
pub open spec fn days_in_month(y: int, m: int) -> int {
    if m == 2 {
        if is_leap_year(y) {
            29
        } else {
            28
        }
    } else if m == 4 || m == 6 || m == 9 || m == 11 {
        30
    } else {
        31
    }
}

/// Days from 1970-01-01 up to the first day of year `y`: the sum of the
/// lengths of the years before it.
pub open spec fn days_before_year(y: int) -> int
    decreases y - 1970,
{
    if y <= 1970 {
        0
    } else {
        days_before_year(y - 1) + if is_leap_year(y - 1) {
            366int
        } else {
            365int
        }
    }
}

/// Days from the first day of year `y` up to the first day of its month `m`.
pub open spec fn days_before_month(y: int, m: int) -> int {
    let feb: int = if is_leap_year(y) {
        29
    } else {
        28
    };
    if m <= 1 {
        0
    } else if m == 2 {
        31
    } else if m == 3 {
        31 + feb
    } else if m == 4 {
        62 + feb
    } else if m == 5 {
        92 + feb
    } else if m == 6 {
        123 + feb
    } else if m == 7 {
        153 + feb
    } else if m == 8 {
        184 + feb
    } else if m == 9 {
        215 + feb
    } else if m == 10 {
        245 + feb
    } else if m == 11 {
        276 + feb
    } else {
        306 + feb
    }
}

/// Seconds since the Unix epoch of the given calendar fields.
pub open spec fn epoch_of(y: int, mo: int, d: int, hh: int, mi: int, ss: int) -> int {
    (days_before_year(y) + days_before_month(y, mo) + (d - 1)) * 86400 + hh * 3600 + mi * 60 + ss
}

/// The year, month, day, hour, minute and second fields of a timestamp of
/// the accepted shape.
pub open spec fn ts_year(s: Seq<char>) -> int {
    four_digit(s, 0)
}

pub open spec fn ts_month(s: Seq<char>) -> int {
    two_digit(s, 5)
}

pub open spec fn ts_day(s: Seq<char>) -> int {
    two_digit(s, 8)
}

pub open spec fn ts_hour(s: Seq<char>) -> int {
    two_digit(s, 11)
}

pub open spec fn ts_minute(s: Seq<char>) -> int {
    two_digit(s, 14)
}

pub open spec fn ts_second(s: Seq<char>) -> int {
    two_digit(s, 17)
}

/// The fixed shape `YYYY-MM-DDThh:mm:ssZ`: twenty characters, digits and
/// separators in their places.
pub open spec fn valid_timestamp_shape(s: Seq<char>) -> bool {
    &&& s.len() == 20
    &&& is_digit(s[0])
    &&& is_digit(s[1])
    &&& is_digit(s[2])
    &&& is_digit(s[3])
    &&& s[4] == '-'
    &&& is_digit(s[5])
    &&& is_digit(s[6])
    &&& s[7] == '-'
    &&& is_digit(s[8])
    &&& is_digit(s[9])
    &&& s[10] == 'T'
    &&& is_digit(s[11])
    &&& is_digit(s[12])
    &&& s[13] == ':'
    &&& is_digit(s[14])
    &&& is_digit(s[15])
    &&& s[16] == ':'
    &&& is_digit(s[17])
    &&& is_digit(s[18])
    &&& s[19] == 'Z'
}

/// A parsable timestamp: the fixed shape with every field in range. Years
/// before 1970 denote instants this store cannot represent and are rejected.
pub open spec fn valid_timestamp(s: Seq<char>) -> bool {
    &&& valid_timestamp_shape(s)
    &&& 1970 <= ts_year(s) <= 9999
    &&& 1 <= ts_month(s) <= 12
    &&& 1 <= ts_day(s) <= days_in_month(ts_year(s), ts_month(s))
    &&& ts_hour(s) <= 23
    &&& ts_minute(s) <= 59
    &&& ts_second(s) <= 59
}

/// The instant a valid timestamp denotes, in seconds since the Unix epoch.
pub open spec fn timestamp_instant(s: Seq<char>) -> int {
    epoch_of(ts_year(s), ts_month(s), ts_day(s), ts_hour(s), ts_minute(s), ts_second(s))
}

/// Reads the decimal digit at position `i`.
fn digit_at(s: &str, i: usize) -> (r: Option<u64>)
    requires
        i < s@.len(),
    ensures
        r is Some <==> is_digit(s@[i as int]),
        r matches Some(v) ==> v == digit_val(s@[i as int]) && v <= 9,
{
    let c = s.get_char(i);
    let u = c as u32;
    if 48 <= u && u <= 57 {
        Some((u - 48) as u64)
    } else {
        None
    }
}

/// Reads the two-digit number at positions `i` and `i + 1`.
fn two_digit_at(s: &str, i: usize) -> (r: Option<u64>)
    requires
        i + 1 < s@.len(),
        s@.len() <= usize::MAX,
    ensures
        r is Some <==> is_digit(s@[i as int]) && is_digit(s@[i as int + 1]),
        r matches Some(v) ==> v == two_digit(s@, i as int) && v <= 99,
{
    let d1 = match digit_at(s, i) {
        Some(v) => v,
        None => {
            return None;
        },
    };
    let d2 = match digit_at(s, i + 1) {
        Some(v) => v,
        None => {
            return None;
        },
    };
    Some(10 * d1 + d2)
}

/// Reads the four-digit number starting at position `i`.
fn four_digit_at(s: &str, i: usize) -> (r: Option<u64>)
    requires
        i + 3 < s@.len(),
        s@.len() <= usize::MAX,
    ensures
        r is Some <==> is_digit(s@[i as int]) && is_digit(s@[i as int + 1]) && is_digit(
            s@[i as int + 2],
        ) && is_digit(s@[i as int + 3]),
        r matches Some(v) ==> v == four_digit(s@, i as int) && v <= 9999,
{
    let d1 = match digit_at(s, i) {
        Some(v) => v,
        None => {
            return None;
        },
    };
    let d2 = match digit_at(s, i + 1) {
        Some(v) => v,
        None => {
            return None;
        },
    };
    let d3 = match digit_at(s, i + 2) {
        Some(v) => v,
        None => {
            return None;
        },
    };
    let d4 = match digit_at(s, i + 3) {
        Some(v) => v,
        None => {
            return None;
        },
    };
    Some(1000 * d1 + 100 * d2 + 10 * d3 + d4)
}

/// Decides `is_leap_year`.
fn is_leap_year_exec(y: u64) -> (r: bool)
    ensures
        r == is_leap_year(y as int),
{
    y % 4 == 0 && (y % 100 != 0 || y % 400 == 0)
}

/// Computes `days_in_month`.
fn days_in_month_exec(y: u64, m: u64) -> (r: u64)
    requires
        1 <= m <= 12,
    ensures
        r == days_in_month(y as int, m as int),
        28 <= r <= 31,
{
    if m == 2 {
        if is_leap_year_exec(y) {
            29
        } else {
            28
        }
    } else if m == 4 || m == 6 || m == 9 || m == 11 {
        30
    } else {
        31
    }
}

/// Computes `days_before_year` by summing year lengths.
fn days_before_year_exec(y: u64) -> (r: u64)
    requires
        1970 <= y <= 9999,
    ensures
        r == days_before_year(y as int),
        r <= 366 * (y - 1970),
{
    let mut acc: u64 = 0;
    let mut i: u64 = 1970;
    while i < y
        invariant
            1970 <= i <= y,
            y <= 9999,
            acc == days_before_year(i as int),
            acc <= 366 * (i - 1970),
        decreases y - i,
    {
        acc = acc + if is_leap_year_exec(i) {
            366
        } else {
            365
        };
        i = i + 1;
    }
    acc
}

/// Computes `days_before_month`.
fn days_before_month_exec(y: u64, m: u64) -> (r: u64)
    requires
        1 <= m <= 12,
    ensures
        r == days_before_month(y as int, m as int),
        r <= 337,
{
    let feb: u64 = if is_leap_year_exec(y) {
        29
    } else {
        28
    };
    if m == 1 {
        0
    } else if m == 2 {
        31
    } else if m == 3 {
        31 + feb
    } else if m == 4 {
        62 + feb
    } else if m == 5 {
        92 + feb
    } else if m == 6 {
        123 + feb
    } else if m == 7 {
        153 + feb
    } else if m == 8 {
        184 + feb
    } else if m == 9 {
        215 + feb
    } else if m == 10 {
        245 + feb
    } else if m == 11 {
        276 + feb
    } else {
        306 + feb
    }
}

/// Parses a UTC RFC 3339 timestamp of the form `YYYY-MM-DDThh:mm:ssZ` into
/// seconds since the Unix epoch. Returns `None` exactly on inputs that
/// `valid_timestamp` rejects.
pub fn parse_rfc3339_utc(s: &str) -> (r: Option<u64>)
    ensures
        r is Some <==> valid_timestamp(s@),
        r matches Some(t) ==> t == timestamp_instant(s@),
{
    let n = s.unicode_len();
    if n != 20 {
        return None;
    }
    if s.get_char(4) != '-' || s.get_char(7) != '-' || s.get_char(10) != 'T' || s.get_char(13)
        != ':' || s.get_char(16) != ':' || s.get_char(19) != 'Z' {
        return None;
    }
    let y = match four_digit_at(s, 0) {
        Some(v) => v,
        None => {
            return None;
        },
    };
    let mo = match two_digit_at(s, 5) {
        Some(v) => v,
        None => {
            return None;
        },
    };
    let d = match two_digit_at(s, 8) {
        Some(v) => v,
        None => {
            return None;
        },
    };
    let hh = match two_digit_at(s, 11) {
        Some(v) => v,
        None => {
            return None;
        },
    };
    let mi = match two_digit_at(s, 14) {
        Some(v) => v,
        None => {
            return None;
        },
    };
    let ss = match two_digit_at(s, 17) {
        Some(v) => v,
        None => {
            return None;
        },
    };
    if y < 1970 || y > 9999 {
        return None;
    }
    if mo < 1 || mo > 12 {
        return None;
    }
    if d < 1 || d > days_in_month_exec(y, mo) {
        return None;
    }
    if hh > 23 || mi > 59 || ss > 59 {
        return None;
    }
    let days = days_before_year_exec(y) + days_before_month_exec(y, mo) + (d - 1);
    let t = days * 86400 + hh * 3600 + mi * 60 + ss;
    Some(t)
}

/// What `resolve` returns for each declarative expiry at time `now`.
pub open spec fn spec_resolve(e: Option<ExpirySpecView>, now: u64) -> Result<
    Option<u64>,
    StoreError,
> {
    match e {
        None => Ok(None),
        Some(ExpirySpecView::At(s)) => if valid_timestamp(s) {
            Ok(Some(timestamp_instant(s) as u64))
        } else {
            Err(StoreError::InvalidExpiryFormat)
        },
        Some(ExpirySpecView::Seconds(n)) => if n <= u64::MAX - now {
            Ok(Some((now + n) as u64))
        } else {
            Err(StoreError::InvalidExpiryFormat)
        },
    }
}

/// Resolves a declarative expiry at time `now` into the canonical absolute
/// instant, or `None` when the directive should live until deleted. An
/// absolute instant that does not parse, and a relative delta whose target
/// does not fit in 64 bits, are rejected as `InvalidExpiryFormat`.
pub fn resolve(e: &Option<ExpirySpec>, now: u64) -> (r: Result<Option<u64>, StoreError>)
    ensures
        r == spec_resolve(expiry_option_view(*e), now),
{
    match e {
        None => Ok(None),
        Some(ExpirySpec::At(s)) => match parse_rfc3339_utc(s.as_str()) {
            Some(t) => Ok(Some(t)),
            None => Err(StoreError::InvalidExpiryFormat),
        },
        Some(ExpirySpec::Seconds(n)) => {
            if *n <= u64::MAX - now {
                Ok(Some(now + *n))
            } else {
                Err(StoreError::InvalidExpiryFormat)
            }
        },
    }
}

/// Days before a year stay within the calendar's envelope.
proof fn lemma_days_before_year_bounds(y: int)
    requires
        1970 <= y,
    ensures
        0 <= days_before_year(y) <= 366 * (y - 1970),
    decreases y - 1970,
{
    if y > 1970 {
        lemma_days_before_year_bounds(y - 1);
    }
}

/// A valid timestamp denotes a nonnegative instant below the year-10000
/// envelope; in particular it fits in 64 bits.
pub proof fn lemma_timestamp_instant_bounds(s: Seq<char>)
    requires
        valid_timestamp(s),
    ensures
        0 <= timestamp_instant(s) < 253928044800,
{
    lemma_days_before_year_bounds(ts_year(s));
}

/// What `delta_seconds` computes: the distance to the expiry instant,
/// clamped at zero once the instant is past.
pub open spec fn spec_delta(expire_at: u64, now: u64) -> u64 {
    if expire_at > now {
        (expire_at - now) as u64
    } else {
        0
    }
}

/// Law (expiry conversion): an absolute expiry specification resolves to
/// exactly the instant its timestamp denotes, whatever the backend family;
/// a backend that only accepts "expire after N seconds from now" is handed
/// precisely the distance from `now` to that instant. Nothing is lost in
/// the conversion: the stored expiry read back at registration time yields
/// the requested delta to the second.
pub proof fn lemma_expiry_conversion(s: Seq<char>, now: u64)
    requires
        valid_timestamp(s),
    ensures
        spec_resolve(Some(ExpirySpecView::At(s)), now) == Ok::<Option<u64>, StoreError>(
            Some(timestamp_instant(s) as u64),
        ),
        timestamp_instant(s) as u64 == timestamp_instant(s),
        now <= timestamp_instant(s) ==> spec_delta(timestamp_instant(s) as u64, now)
            == timestamp_instant(s) - now,
        timestamp_instant(s) < now ==> spec_delta(timestamp_instant(s) as u64, now) == 0,
{
    lemma_timestamp_instant_bounds(s);
}

/// The relative time-to-live, in seconds, that a backend accepting only
/// "expire after N seconds from now" must be given at time `now` for a
/// record that expires at the absolute instant `expire_at`. An instant
/// already past is clamped to zero so the record expires immediately.
pub fn delta_seconds(expire_at: u64, now: u64) -> (r: u64)
    ensures
        r == spec_delta(expire_at, now),
{
    if expire_at > now {
        expire_at - now
    } else {
        0
    }
}

} // verus!
