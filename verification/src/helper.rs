//! Shared decoding helpers: checksums, BCD digits, calendar times, bit tests
//! and device identifiers.

use chrono::TimeZone;
use std::hash::{Hash, Hasher};
use vstd::prelude::*;

verus! {

// ─── CRC-16/X-25 ────────────────────────────────────────────────────

/// One shift of the reflected CRC register with polynomial 0x1021
/// (reflected: 0x8408).
pub open spec fn crc_x25_shift(c: u16) -> u16 {
    if c & 1 == 1 {
        (c >> 1) ^ 0x8408
    } else {
        c >> 1
    }
}

pub open spec fn crc_x25_shifts(c: u16, n: nat) -> u16
    decreases n,
{
    if n == 0 {
        c
    } else {
        crc_x25_shift(crc_x25_shifts(c, (n - 1) as nat))
    }
}

/// The register after one more byte.
pub open spec fn crc_x25_byte(c: u16, b: u8) -> u16 {
    crc_x25_shifts(c ^ (b as u16), 8)
}

/// The register after all the bytes, starting from `0xFFFF`.
pub open spec fn crc_x25_register(data: Seq<u8>) -> u16
    decreases data.len(),
{
    if data.len() == 0 {
        0xFFFF
    } else {
        crc_x25_byte(crc_x25_register(data.drop_last()), data.last())
    }
}

/// CRC-16/X-25: reflected, polynomial 0x1021, initial value and final XOR
/// 0xFFFF.
pub open spec fn crc16_x25_spec(data: Seq<u8>) -> u16 {
    crc_x25_register(data) ^ 0xFFFF
}

pub fn crc16_x25(data: &[u8]) -> (crc: u16)
    ensures
        crc == crc16_x25_spec(data@),
{
    let mut c: u16 = 0xFFFF;
    let mut i: usize = 0;
    while i < data.len()
        invariant
            i <= data.len(),
            c == crc_x25_register(data@.take(i as int)),
        decreases data.len() - i,
    {
        let start: u16 = c ^ (data[i] as u16);
        let mut r: u16 = start;
        let mut k: u32 = 0;
        while k < 8
            invariant
                k <= 8,
                r == crc_x25_shifts(start, k as nat),
            decreases 8 - k,
        {
            if r & 1 == 1 {
                r = (r >> 1) ^ 0x8408;
            } else {
                r = r >> 1;
            }
            k = k + 1;
        }
        assert(data@.take(i as int + 1).drop_last() =~= data@.take(i as int));
        c = r;
        i = i + 1;
    }
    assert(data@.take(data.len() as int) =~= data@);
    c ^ 0xFFFF
}

// ─── BCD and hexadecimal digits ─────────────────────────────────────

/// The lowercase hexadecimal digit of a nibble.
pub open spec fn hex_digit_lower(n: int) -> char {
    if n < 10 {
        ((n + 48) as u8) as char
    } else {
        ((n + 87) as u8) as char
    }
}

/// Two lowercase hexadecimal digits per byte, high nibble first.
pub open spec fn hex_lower(data: Seq<u8>) -> Seq<char>
    decreases data.len(),
{
    if data.len() == 0 {
        Seq::empty()
    } else {
        hex_lower(data.drop_last()).push(hex_digit_lower(data.last() as int / 16)).push(
            hex_digit_lower(data.last() as int % 16),
        )
    }
}

pub proof fn lemma_hex_lower_len(data: Seq<u8>)
    ensures
        hex_lower(data).len() == 2 * data.len(),
    decreases data.len(),
{
    if data.len() > 0 {
        lemma_hex_lower_len(data.drop_last());
    }
}

/// `hex::encode`: each byte becomes two lowercase hexadecimal digits, high
/// nibble first.
#[verifier::external_body]
pub(crate) fn hex_encode(data: &[u8]) -> (s: String)
    ensures
        s@ == hex_lower(data@),
{
    hex::encode(data)
}

/// The decimal value of a byte read as two BCD digits.
pub open spec fn bcd_value(b: u8) -> int {
    (b as int / 16) * 10 + b as int % 16
}

// ─── Calendar times ─────────────────────────────────────────────────

/// Two-digit years are years of this century.
pub open spec fn correct_year_spec(year: int) -> int {
    if year < 100 {
        year + 2000
    } else {
        year
    }
}

pub fn correct_year(year: i32) -> (y: i32)
    ensures
        y == correct_year_spec(year as int),
{
    if year < 100 {
        year + 2000
    } else {
        year
    }
}

pub open spec fn is_leap_year(y: int) -> bool {
    (y % 4 == 0 && y % 100 != 0) || y % 400 == 0
}

pub open spec fn days_in_month(y: int, m: int) -> int {
    if m == 2 {
        if is_leap_year(y) {
            29
        } else {
            28
        }
    } else if m == 4 || m == 6 || m == 9 || m == 11 {
        30
    } else {
        31
    }
}

/// A date and time of day that the proleptic Gregorian calendar has.
pub open spec fn valid_civil(y: int, mo: int, d: int, h: int, mi: int, s: int) -> bool {
    &&& 1 <= mo <= 12
    &&& 1 <= d <= days_in_month(y, mo)
    &&& 0 <= h < 24
    &&& 0 <= mi < 60
    &&& 0 <= s < 60
}

/// Days from 1970-01-01 to the date.
pub open spec fn days_from_civil(y: int, m: int, d: int) -> int {
    let yy = if m <= 2 {
        y - 1
    } else {
        y
    };
    let era = yy / 400;
    let yoe = yy - era * 400;
    let mp = if m > 2 {
        m - 3
    } else {
        m + 9
    };
    let doy = (153 * mp + 2) / 5 + d - 1;
    let doe = yoe * 365 + yoe / 4 - yoe / 100 + doy;
    era * 146097 + doe - 719468
}

/// Milliseconds from the Unix epoch to the UTC date and time.
pub open spec fn unix_millis(y: int, mo: int, d: int, h: int, mi: int, s: int) -> int {
    (days_from_civil(y, mo, d) * 86400 + h * 3600 + mi * 60 + s) * 1000
}

/// `Utc.with_ymd_and_hms(..)` then `timestamp_millis`: a time exists exactly
/// when the calendar has the date and the time of day is within range (no
/// leap second), and its timestamp counts the days of the proleptic
/// Gregorian calendar from 1970-01-01.
#[verifier::external_body]
pub(crate) fn utc_millis_of(year: i32, month: u32, day: u32, hour: u32, min: u32, sec: u32) -> (r: Option<
    i64,
>)
    requires
        0 <= year <= 9999,
    ensures
        r is Some <==> valid_civil(
            year as int,
            month as int,
            day as int,
            hour as int,
            min as int,
            sec as int,
        ),
        r matches Some(t) ==> t == unix_millis(
            year as int,
            month as int,
            day as int,
            hour as int,
            min as int,
            sec as int,
        ),
{
    chrono::Utc.with_ymd_and_hms(year, month, day, hour, min, sec).single().map(
        |t| t.timestamp_millis(),
    )
}

/// The fix time of a message's date and time fields, when they name one.
pub open spec fn make_time_spec(y: int, mo: int, d: int, h: int, mi: int, s: int) -> Option<i64> {
    if valid_civil(y, mo, d, h, mi, s) {
        Some(unix_millis(y, mo, d, h, mi, s) as i64)
    } else {
        None
    }
}

pub fn make_time(year: i32, month: u32, day: u32, hour: u32, min: u32, sec: u32) -> (r: Option<
    i64,
>)
    requires
        0 <= year <= 9999,
    ensures
        r == make_time_spec(
            year as int,
            month as int,
            day as int,
            hour as int,
            min as int,
            sec as int,
        ),
{
    utc_millis_of(year, month, day, hour, min, sec)
}

/// `SystemTime::now().duration_since(UNIX_EPOCH)` in milliseconds: `Ok`
/// with the time since the epoch, or `Err` with the time before it where the
/// clock reads earlier. Nothing is stated of the value: it is the clock's.
#[verifier::external_body]
fn system_clock_millis() -> (r: Result<u128, u128>) {
    match std::time::SystemTime::now().duration_since(std::time::UNIX_EPOCH) {
        Ok(d) => Ok(d.as_millis()),
        Err(e) => Err(e.duration().as_millis()),
    }
}

/// The current time in milliseconds since the Unix epoch, negative before
/// it, held to the range of `i64` (beyond `i64::MIN + 1 ..= i64::MAX` it is
/// cut to the nearest end). It never fails, whatever the clock reads.
pub(crate) fn utc_now_millis() -> (t: i64)
    ensures
        t > i64::MIN,
{
    match system_clock_millis() {
        Ok(ms) => if ms <= 0x7FFF_FFFF_FFFF_FFFF {
            ms as i64
        } else {
            i64::MAX
        },
        Err(ms) => if ms <= 0x7FFF_FFFF_FFFF_FFFF {
            -(ms as i64)
        } else {
            -i64::MAX
        },
    }
}

// ─── Bits ───────────────────────────────────────────────────────────

pub open spec fn bit_set(v: i64, bit: u32) -> bool {
    (v >> bit) & 1 == 1
}

/// Whether bit `bit` of `v` is set.
pub fn bit_check(v: i64, bit: u32) -> (r: bool)
    requires
        bit < 64,
    ensures
        r == bit_set(v, bit),
{
    (v >> bit) & 1 == 1
}

// ─── Device identifiers ─────────────────────────────────────────────

/// What `DefaultHasher::new()`, `str::hash` and `finish` give for the
/// string. The standard library fixes no algorithm for it across releases;
/// within one build it is a function of the string alone (the hasher is not
/// seeded at random).
pub uninterp spec fn default_str_hash(s: Seq<char>) -> u64;

/// `DefaultHasher::new()`, `str::hash` and `finish`: the 64-bit hash of the
/// string, left to the name `default_str_hash`.
#[verifier::external_body]
fn default_hash_str(s: &str) -> (h: u64)
    ensures
        h == default_str_hash(s@),
{
    let mut hasher = std::collections::hash_map::DefaultHasher::new();
    s.hash(&mut hasher);
    hasher.finish()
}

/// The device identifier of a 64-bit hash: the hash with its top bit
/// cleared, read as a (never negative) `i64`.
pub open spec fn hash_device_id(h: u64) -> i64 {
    (h & 0x7FFF_FFFF_FFFF_FFFF) as i64
}

/// The device identifier of a hash, as `simple_device_id` takes it.
pub fn device_id_of_hash(h: u64) -> (id: i64)
    ensures
        id == hash_device_id(h),
        id >= 0,
{
    let m = h & 0x7FFF_FFFF_FFFF_FFFF;
    assert(m <= 0x7FFF_FFFF_FFFF_FFFF) by (bit_vector)
        requires
            m == h & 0x7FFF_FFFF_FFFF_FFFF,
    ;
    m as i64
}

/// The device identifier derived from a unique identifier: the string's hash
/// with its top bit cleared, so never negative.
pub fn simple_device_id(unique_id: &str) -> (id: i64)
    ensures
        id == hash_device_id(default_str_hash(unique_id@)),
        id >= 0,
{
    let h = default_hash_str(unique_id);
    device_id_of_hash(h)
}

} // verus!

verus! {

// ─── Big-endian fields ──────────────────────────────────────────────

pub open spec fn be16(s: Seq<u8>, i: int) -> int {
    s[i] as int * 256 + s[i + 1] as int
}

pub open spec fn be24(s: Seq<u8>, i: int) -> int {
    s[i] as int * 65536 + s[i + 1] as int * 256 + s[i + 2] as int
}

pub open spec fn be32(s: Seq<u8>, i: int) -> int {
    s[i] as int * 16777216 + s[i + 1] as int * 65536 + s[i + 2] as int * 256 + s[i + 3] as int
}

pub fn read_be16(s: &[u8], i: usize) -> (v: u16)
    requires
        i + 2 <= s@.len(),
    ensures
        v as int == be16(s@, i as int),
{
    (s[i] as u16) * 256 + (s[i + 1] as u16)
}

pub fn read_be24(s: &[u8], i: usize) -> (v: u32)
    requires
        i + 3 <= s@.len(),
    ensures
        v as int == be24(s@, i as int),
{
    (s[i] as u32) * 65536 + (s[i + 1] as u32) * 256 + (s[i + 2] as u32)
}

pub fn read_be32(s: &[u8], i: usize) -> (v: u32)
    requires
        i + 4 <= s@.len(),
    ensures
        v as int == be32(s@, i as int),
{
    (s[i] as u32) * 16777216 + (s[i + 1] as u32) * 65536 + (s[i + 2] as u32) * 256 + (s[i
        + 3] as u32)
}

} // verus!

verus! {

/// The bytes `s[from..to]`, copied.
pub fn copy_range(s: &[u8], from: usize, to: usize) -> (r: Vec<u8>)
    requires
        from <= to <= s@.len(),
    ensures
        r@ == s@.subrange(from as int, to as int),
{
    let mut r: Vec<u8> = Vec::new();
    let mut i: usize = from;
    while i < to
        invariant
            from <= i <= to <= s@.len(),
            r@ == s@.subrange(from as int, i as int),
        decreases to - i,
    {
        r.push(s[i]);
        i = i + 1;
        assert(r@ =~= s@.subrange(from as int, i as int));
    }
    r
}

} // verus!

verus! {

/// What `DateTime::parse_from_rfc3339` reads from the text, in milliseconds
/// since the Unix epoch.
pub uninterp spec fn rfc3339_millis(s: Seq<char>) -> Option<i64>;

/// What `NaiveDateTime::parse_from_str` reads from the text with the format
/// `%Y-%m-%d %H:%M:%S`, taken as UTC, in milliseconds since the Unix epoch.
pub uninterp spec fn naive_datetime_millis(s: Seq<char>) -> Option<i64>;

/// `DateTime::parse_from_rfc3339`, then `timestamp_millis`; none when the
/// text is not an RFC 3339 date and time.
#[verifier::external_body]
pub(crate) fn parse_rfc3339_millis(s: &str) -> (r: Option<i64>)
    ensures
        r == rfc3339_millis(s@),
{
    chrono::DateTime::parse_from_rfc3339(s).ok().map(|d| d.timestamp_millis())
}

/// `NaiveDateTime::parse_from_str(s, "%Y-%m-%d %H:%M:%S")` read as UTC,
/// then `timestamp_millis`; none when the text does not match the format.
#[verifier::external_body]
pub(crate) fn parse_naive_datetime_millis(s: &str) -> (r: Option<i64>)
    ensures
        r == naive_datetime_millis(s@),
{
    chrono::NaiveDateTime::parse_from_str(s, "%Y-%m-%d %H:%M:%S").ok().map(
        |n| n.and_utc().timestamp_millis(),
    )
}

/// Seconds since the Unix epoch, in milliseconds, when that fits.
pub open spec fn secs_to_millis(ts: int) -> Option<i64> {
    if i64::MIN <= ts * 1000 <= i64::MAX {
        Some((ts * 1000) as i64)
    } else {
        None
    }
}

pub fn from_unix_secs(ts: i64) -> (r: Option<i64>)
    ensures
        r == secs_to_millis(ts as int),
{
    ts.checked_mul(1000)
}

} // verus!
