//! H02: the text protocol `*HQ,IMEI,V1,HHMMSS,A,lat,N,lon,E,speed,course,DDMMYY,status#`
//! of many trackers, and its binary form starting with `$`.

use bytes::{Bytes, BytesMut};
use vstd::prelude::*;
use vstd::utf8::encode_utf8;

use crate::buffer::{bytes_from_string, bytes_mut_as_slice, bytes_mut_view};
use crate::codec::{
    apply_decision, delimiter_decision, delimiter_from, frame_outcome,
    lemma_delimiter_decision_fits, lemma_earliest_delimiter_at, DelimiterConfig,
    DelimiterFrameDecoder, FrameDecision,
};
use crate::registry::{
    command_names, ProtocolDefinition, ProtocolDefinitionModel, ProtocolRegistry, Transport,
};
use crate::helper::{
    default_str_hash, hash_device_id,
    bcd_value, be32, bit_check, bit_set, copy_range, correct_year, correct_year_spec, hex_encode,
    hex_lower, lemma_hex_lower_len, make_time, make_time_spec, read_be32, simple_device_id,
    utc_now_millis,
};
use crate::model::{
    attr, command_attribute, decode_outcome, encode_outcome, new_position, Command,
    EncodeOutcome, KEY_FREQUENCY, TYPE_ALARM_ARM, TYPE_ALARM_DISARM, TYPE_ENGINE_RESUME,
    TYPE_ENGINE_STOP, TYPE_POSITION_PERIODIC, TYPE_POWER_OFF, single, whole, whole_quantity, Alarm, AttrKey,
    AttrKeyModel, AttrValue, AttrValueModel, DecodeOutcome, DeviceSession,
    Position, PositionModel, ProtocolError, ProtocolErrorModel, ProtocolKind, Quantity,
    QuantityModel, SpeedUnit,
};
use crate::numbers::{
    dec_digit_char, dec_digits, dec_text, f64_syntax, f64_syntax_of, parse_dec_i64, parse_dec_i64_of,
    parse_hex_u32, parse_hex_u32_of, push_dec, push_two_digits,
};
use crate::text::{
    chars_eq_str, chars_of, from_utf8_lossy, push_str, hex_digit_upper, pieces_view, push_hex_upper, split_chars,
    split_on, string_from_chars, string_from_str, take_chars, trim_chars, trim_end_set,
    trim_start_set, utf8_lossy, TrimSet,
};

verus! {

pub const PROTOCOL_NAME: &'static str = "h02";

pub const DEFAULT_PORT: u16 = 5013;

// ─── Status word and battery ────────────────────────────────────────

/// The alarm a status word reports: the first cleared bit among vibration
/// (0), SOS (1 or 18), overspeed (2) and power cut (19).
pub open spec fn h02_status_alarm(status: i64) -> Option<Alarm> {
    if !bit_set(status, 0) {
        Some(Alarm::Vibration)
    } else if !bit_set(status, 1) || !bit_set(status, 18) {
        Some(Alarm::Sos)
    } else if !bit_set(status, 2) {
        Some(Alarm::Overspeed)
    } else if !bit_set(status, 19) {
        Some(Alarm::PowerCut)
    } else {
        None
    }
}

/// The position with the status word applied: its alarm, the ignition
/// (bit 10) and the word itself.
pub open spec fn with_status(p: PositionModel, status: i64) -> PositionModel {
    PositionModel {
        alarms: match h02_status_alarm(status) {
            Some(a) => p.alarms.push(a),
            None => p.alarms,
        },
        attributes: p.attributes + seq![
            attr(AttrKeyModel::Ignition, AttrValueModel::Bool(bit_set(status, 10))),
            attr(AttrKeyModel::Status, AttrValueModel::Int(status)),
        ],
        ..p
    }
}

/// Applies a status word to a position.
pub fn process_status(position: &mut Position, status: i64)
    ensures
        final(position)@ == with_status(old(position)@, status),
{
    if !bit_check(status, 0) {
        position.add_alarm(Alarm::Vibration);
    } else if !bit_check(status, 1) || !bit_check(status, 18) {
        position.add_alarm(Alarm::Sos);
    } else if !bit_check(status, 2) {
        position.add_alarm(Alarm::Overspeed);
    } else if !bit_check(status, 19) {
        position.add_alarm(Alarm::PowerCut);
    }
    let ghost mid = position@;
    position.set(AttrKey::Ignition, AttrValue::Bool(bit_check(status, 10)));
    position.set(AttrKey::Status, AttrValue::Int(status));
    assert(position@.attributes =~= with_status(old(position)@, status).attributes);
}

/// The battery level a battery byte reports: 1 to 3 in steps of ten from
/// zero, 4 to 6 in steps of twenty from sixty, 7 to 100 as they are, and
/// 0xF1 to 0xF6 as 1 to 6; anything else reports none.
pub open spec fn battery_level(value: i64) -> Option<i64> {
    if value == 0 {
        None
    } else if value <= 3 {
        Some(((value - 1) * 10) as i64)
    } else if value <= 6 {
        Some(((value - 1) * 20) as i64)
    } else if value <= 100 {
        Some(value)
    } else if 0xF1 <= value <= 0xF6 {
        Some((value - 0xF0) as i64)
    } else {
        None
    }
}

pub fn decode_battery(value: i64) -> (r: Option<i64>)
    requires
        value > 3 || (value - 1) * 10 >= i64::MIN,
    ensures
        r == battery_level(value),
{
    if value == 0 {
        None
    } else if value <= 3 {
        Some((value - 1) * 10)
    } else if value <= 6 {
        Some((value - 1) * 20)
    } else if value <= 100 {
        Some(value)
    } else if 0xF1 <= value && value <= 0xF6 {
        Some(value - 0xF0)
    } else {
        None
    }
}

/// A byte's two BCD digits as a number: `0x45` is 45.
pub fn bcd_byte(b: u8) -> (r: u8)
    ensures
        r as int == bcd_value(b),
{
    let hi: u8 = (b >> 4) & 0x0F;
    let lo: u8 = b & 0x0F;
    assert(hi == b / 16 && lo == b % 16) by (bit_vector)
        requires
            hi == (b >> 4) & 0x0F,
            lo == b & 0x0F,
    ;
    hi * 10 + lo
}

} // verus!

verus! {

// ─── Binary messages ────────────────────────────────────────────────

/// Where the fields after the identifier start: a 42-byte message carries an
/// eight-byte identifier, others a five-byte one.
pub open spec fn h02_binary_start(s: Seq<u8>) -> int {
    if s.len() == 42 {
        9
    } else {
        6
    }
}

/// The identifier of a binary message: its BCD digits (fifteen of sixteen
/// for the long form).
pub open spec fn h02_binary_id(s: Seq<u8>) -> Seq<char> {
    if s.len() == 42 {
        hex_lower(s.subrange(1, 9)).take(15)
    } else {
        hex_lower(s.subrange(1, 6))
    }
}

/// The speed field, `hundreds-and-tens` then `units-and-tenths`, fits the
/// byte arithmetic of the decoder (which panics when it does not).
pub open spec fn h02_binary_speed_fits(s: Seq<u8>) -> bool {
    let p = h02_binary_start(s);
    s.len() < 32 || bcd_value(s[p + 16]) * 10 + bcd_value(s[p + 17]) / 10 <= 255
}

/// The position of a binary message whose fields start at `p`.
pub open spec fn h02_binary_position(s: Seq<u8>, p: int, device_id: i64) -> PositionModel {
    let flags = s[p + 15] & 0x0F;
    let lat = bcd_value(s[p + 6]) * 600000 + bcd_value(s[p + 7]) * 10000 + bcd_value(s[p + 8])
        * 100 + bcd_value(s[p + 9]);
    let lon = (bcd_value(s[p + 11]) * 10 + s[p + 12] as int / 16) * 60000 + (s[p + 12] as int
        % 16) * 10000 + bcd_value(s[p + 13]) * 100 + bcd_value(s[p + 14]);
    let base = PositionModel {
        fix_time: make_time_spec(
            correct_year_spec(bcd_value(s[p + 5])),
            bcd_value(s[p + 4]),
            bcd_value(s[p + 3]),
            bcd_value(s[p]),
            bcd_value(s[p + 1]),
            bcd_value(s[p + 2]),
        ),
        attributes: match battery_level(s[p + 10] as i64) {
            Some(l) => seq![attr(AttrKeyModel::BatteryLevel, AttrValueModel::Int(l))],
            None => Seq::empty(),
        },
        valid: flags & 0x02 != 0,
        latitude: QuantityModel::Scaled {
            value: (if flags & 0x04 != 0 {
                lat
            } else {
                -lat
            }) as i64,
            scale: 600000,
        },
        longitude: QuantityModel::Scaled {
            value: (if flags & 0x08 != 0 {
                lon
            } else {
                -lon
            }) as i64,
            scale: 60000,
        },
        speed: whole(bcd_value(s[p + 16]) * 10 + bcd_value(s[p + 17]) / 10),
        speed_unit: SpeedUnit::Knots,
        course: whole((s[p + 18] as int % 16) * 100 + bcd_value(s[p + 19])),
        ..new_position(ProtocolKind::H02, device_id)
    };
    if p + 24 <= s.len() {
        with_status(base, be32(s, p + 20) as i64)
    } else {
        base
    }
}

/// The answer to a binary message, given the device identifier that its
/// identifier hashed to.
pub open spec fn h02_binary_outcome(s: Seq<u8>, device_id: i64) -> DecodeOutcome {
    if s.len() < 32 {
        DecodeOutcome::Failed(ProtocolErrorModel::InsufficientData)
    } else if device_id == 0 {
        DecodeOutcome::Failed(ProtocolErrorModel::UnknownDevice(h02_binary_id(s)))
    } else {
        DecodeOutcome::Positions(seq![h02_binary_position(s, h02_binary_start(s), device_id)])
    }
}

fn h02_binary_position_of(s: &[u8], p: usize, device_id: i64) -> (pos: Position)
    requires
        s@.len() >= 32,
        p == h02_binary_start(s@),
        h02_binary_speed_fits(s@),
    ensures
        pos@ == h02_binary_position(s@, p as int, device_id),
{
    let mut pos = Position::new(ProtocolKind::H02, device_id);
    let hour = bcd_byte(s[p]);
    let minute = bcd_byte(s[p + 1]);
    let second = bcd_byte(s[p + 2]);
    let day = bcd_byte(s[p + 3]);
    let month = bcd_byte(s[p + 4]);
    let year = correct_year(bcd_byte(s[p + 5]) as i32);
    pos.fix_time = make_time(year, month as u32, day as u32, hour as u32, minute as u32, second as u32);
    let lat: i64 = (bcd_byte(s[p + 6]) as i64) * 600000 + (bcd_byte(s[p + 7]) as i64) * 10000
        + (bcd_byte(s[p + 8]) as i64) * 100 + (bcd_byte(s[p + 9]) as i64);
    match decode_battery(s[p + 10] as i64) {
        Some(level) => pos.set(AttrKey::BatteryLevel, AttrValue::Int(level)),
        None => {},
    }
    let lon_deg: i64 = (bcd_byte(s[p + 11]) as i64) * 10 + ((s[p + 12] / 16) as i64);
    let lon: i64 = lon_deg * 60000 + ((s[p + 12] % 16) as i64) * 10000 + (bcd_byte(s[p + 13]) as i64)
        * 100 + (bcd_byte(s[p + 14]) as i64);
    let flags: u8 = s[p + 15] & 0x0F;
    pos.valid = (flags & 0x02) != 0;
    pos.latitude = Quantity::Scaled {
        value: if (flags & 0x04) != 0 {
            lat
        } else {
            -lat
        },
        scale: 600000,
    };
    pos.longitude = Quantity::Scaled {
        value: if (flags & 0x08) != 0 {
            lon
        } else {
            -lon
        },
        scale: 60000,
    };
    let speed_high = bcd_byte(s[p + 16]);
    let speed_low = bcd_byte(s[p + 17]);
    let speed: u8 = speed_high * 10 + speed_low / 10;
    pos.speed = whole_quantity(speed as i64);
    pos.speed_unit = SpeedUnit::Knots;
    let cb: u8 = s[p + 18];
    let course_high: u8 = cb & 0x0F;
    assert(course_high == cb % 16) by (bit_vector)
        requires
            course_high == cb & 0x0F,
    ;
    pos.course = whole_quantity((course_high as i64) * 100 + (bcd_byte(s[p + 19]) as i64));
    let ghost base = pos@;
    assert(base.attributes =~= h02_binary_position(s@, p as int, device_id).attributes || p + 24
        <= s@.len());
    if p + 24 <= s.len() {
        let status = read_be32(s, p + 20);
        process_status(&mut pos, status as i64);
    }
    pos
}

// ─── Text messages ──────────────────────────────────────────────────

/// The comma-separated fields of a text message, framing characters trimmed.
pub open spec fn h02_fields(b: Seq<u8>) -> Seq<Seq<char>> {
    split_on(
        trim_end_set(trim_start_set(utf8_lossy(b), TrimSet::H02Frame), TrimSet::H02Frame),
        ',',
    )
}

pub open spec fn is_digit_byte(b: u8) -> bool {
    48 <= b <= 57
}

/// `str::parse::<u32>()` of the two bytes at `i`.
pub open spec fn two_digit_u32(b: Seq<u8>, i: int) -> Option<int> {
    if b[i] == 43 {
        if is_digit_byte(b[i + 1]) {
            Some(b[i + 1] as int - 48)
        } else {
            None
        }
    } else if is_digit_byte(b[i]) && is_digit_byte(b[i + 1]) {
        Some((b[i] as int - 48) * 10 + b[i + 1] as int - 48)
    } else {
        None
    }
}

/// `str::parse::<i32>()` of the two bytes at `i`.
pub open spec fn two_digit_i32(b: Seq<u8>, i: int) -> Option<int> {
    if b[i] == 45 {
        if is_digit_byte(b[i + 1]) {
            Some(48 - b[i + 1] as int)
        } else {
            None
        }
    } else {
        two_digit_u32(b, i)
    }
}

pub open spec fn or_default(o: Option<int>, d: int) -> int {
    match o {
        Some(v) => v,
        None => d,
    }
}

/// A byte offset of UTF-8 text where a character starts, or its end.
pub open spec fn utf8_boundary(b: Seq<u8>, k: int) -> bool {
    k == b.len() || (0 <= k < b.len() && !(0x80 <= b[k] <= 0xBF))
}

/// Whether bytes 0..2, 2..4 and 4..6 of the field can be sliced.
pub open spec fn windows_ok(b: Seq<u8>) -> bool {
    utf8_boundary(b, 2) && utf8_boundary(b, 4) && utf8_boundary(b, 6)
}

/// The time of a text message: `HHMMSS` and `DDMMYY`, when both fields have
/// six bytes at least; unreadable parts default to zero hours, minutes and
/// seconds, day one, month one, year 2000.
pub open spec fn h02_text_time(tb: Seq<u8>, db: Seq<u8>) -> Option<i64> {
    if tb.len() >= 6 && db.len() >= 6 {
        make_time_spec(
            correct_year_spec(or_default(two_digit_i32(db, 4), 0)),
            or_default(two_digit_u32(db, 2), 1),
            or_default(two_digit_u32(db, 0), 1),
            or_default(two_digit_u32(tb, 0), 0),
            or_default(two_digit_u32(tb, 2), 0),
            or_default(two_digit_u32(tb, 4), 0),
        )
    } else {
        None
    }
}

pub open spec fn is_location_type(t: Seq<char>) -> bool {
    t.len() > 0 && t[0] == 'V'
}

/// The decoder slices the time and date fields of a location message only
/// where it can (it panics where it cannot).
pub open spec fn h02_text_slices_ok(parts: Seq<Seq<char>>) -> bool {
    (parts.len() >= 12 && is_location_type(parts[2]) && encode_utf8(parts[3]).len() >= 6
        && encode_utf8(parts[11]).len() >= 6) ==> windows_ok(encode_utf8(parts[3])) && windows_ok(
        encode_utf8(parts[11]),
    )
}

/// The position of a location text message.
pub open spec fn h02_text_position(parts: Seq<Seq<char>>, device_id: i64) -> PositionModel {
    let p1 = PositionModel {
        fix_time: h02_text_time(encode_utf8(parts[3]), encode_utf8(parts[11])),
        valid: parts[4] == seq!['A'],
        ..new_position(ProtocolKind::H02, device_id)
    };
    let p2 = if f64_syntax(parts[5]) {
        PositionModel {
            latitude: QuantityModel::DegreesMinutes {
                text: parts[5],
                negative: parts[6] == seq!['S'],
            },
            ..p1
        }
    } else {
        p1
    };
    let p3 = if f64_syntax(parts[7]) {
        PositionModel {
            longitude: QuantityModel::DegreesMinutes {
                text: parts[7],
                negative: parts[8] == seq!['W'],
            },
            ..p2
        }
    } else {
        p2
    };
    let p4 = if f64_syntax(parts[9]) {
        PositionModel {
            speed: QuantityModel::Decimal(parts[9]),
            speed_unit: SpeedUnit::Kph,
            ..p3
        }
    } else {
        p3
    };
    let p5 = if f64_syntax(parts[10]) {
        PositionModel { course: QuantityModel::Decimal(parts[10]), ..p4 }
    } else {
        p4
    };
    if parts.len() > 12 && parse_hex_u32(parts[12]) is Some {
        with_status(p5, parse_hex_u32(parts[12]).unwrap() as i64)
    } else {
        p5
    }
}

/// The answer to a text message's fields, given the device identifier that
/// its IMEI hashed to.
pub open spec fn h02_text_outcome(parts: Seq<Seq<char>>, device_id: i64) -> DecodeOutcome {
    if parts.len() < 3 {
        DecodeOutcome::Failed(ProtocolErrorModel::InvalidData("H02 text too short"@))
    } else if !is_location_type(parts[2]) || parts.len() < 12 {
        DecodeOutcome::Nothing
    } else if device_id == 0 {
        DecodeOutcome::Failed(ProtocolErrorModel::UnknownDevice(parts[1]))
    } else {
        DecodeOutcome::Positions(seq![h02_text_position(parts, device_id)])
    }
}

fn two_digit_u32_of(b: &[u8], i: usize) -> (r: Option<u32>)
    requires
        i + 2 <= b@.len(),
    ensures
        match r {
            Some(v) => two_digit_u32(b@, i as int) == Some(v as int),
            None => two_digit_u32(b@, i as int) is None,
        },
{
    let c0 = b[i];
    let c1 = b[i + 1];
    if c0 == 43 {
        if 48 <= c1 && c1 <= 57 {
            Some((c1 - 48) as u32)
        } else {
            None
        }
    } else if 48 <= c0 && c0 <= 57 && 48 <= c1 && c1 <= 57 {
        Some(((c0 - 48) as u32) * 10 + ((c1 - 48) as u32))
    } else {
        None
    }
}

fn two_digit_i32_of(b: &[u8], i: usize) -> (r: Option<i32>)
    requires
        i + 2 <= b@.len(),
    ensures
        match r {
            Some(v) => two_digit_i32(b@, i as int) == Some(v as int),
            None => two_digit_i32(b@, i as int) is None,
        },
{
    if b[i] == 45 {
        if 48 <= b[i + 1] && b[i + 1] <= 57 {
            Some(48 - (b[i + 1] as i32))
        } else {
            None
        }
    } else {
        match two_digit_u32_of(b, i) {
            Some(v) => Some(v as i32),
            None => None,
        }
    }
}

fn h02_text_time_of(tb: &[u8], db: &[u8]) -> (r: Option<i64>)
    ensures
        r == h02_text_time(tb@, db@),
{
    if tb.len() >= 6 && db.len() >= 6 {
        let hour = match two_digit_u32_of(tb, 0) {
            Some(v) => v,
            None => 0,
        };
        let min = match two_digit_u32_of(tb, 2) {
            Some(v) => v,
            None => 0,
        };
        let sec = match two_digit_u32_of(tb, 4) {
            Some(v) => v,
            None => 0,
        };
        let day = match two_digit_u32_of(db, 0) {
            Some(v) => v,
            None => 1,
        };
        let month = match two_digit_u32_of(db, 2) {
            Some(v) => v,
            None => 1,
        };
        let yy = match two_digit_i32_of(db, 4) {
            Some(v) => v,
            None => 0,
        };
        make_time(correct_year(yy), month, day, hour, min, sec)
    } else {
        None
    }
}

fn is_single(v: &Vec<char>, c: char) -> (r: bool)
    ensures
        r == (v@ == seq![c]),
{
    if v.len() == 1 && v[0] == c {
        assert(v@ =~= seq![c]);
        true
    } else {
        assert(v@.len() != 1 ==> v@ != seq![c]);
        false
    }
}

fn h02_text_position_of(parts: &Vec<Vec<char>>, device_id: i64) -> (pos: Position)
    requires
        parts@.len() >= 12,
        is_location_type(parts@[2]@),
        h02_text_slices_ok(pieces_view(parts@)),
    ensures
        pos@ == h02_text_position(pieces_view(parts@), device_id),
{
    let ghost ps = pieces_view(parts@);
    assert(forall|i: int| 0 <= i < parts@.len() ==> ps[i] == #[trigger] parts@[i]@);
    let mut pos = Position::new(ProtocolKind::H02, device_id);
    let ts = string_from_chars(&parts[3]);
    let ds = string_from_chars(&parts[11]);
    pos.fix_time = h02_text_time_of(ts.as_str().as_bytes(), ds.as_str().as_bytes());
    pos.valid = is_single(&parts[4], 'A');
    if f64_syntax_of(&parts[5]) {
        pos.latitude = Quantity::DegreesMinutes {
            text: string_from_chars(&parts[5]),
            negative: is_single(&parts[6], 'S'),
        };
    }
    if f64_syntax_of(&parts[7]) {
        pos.longitude = Quantity::DegreesMinutes {
            text: string_from_chars(&parts[7]),
            negative: is_single(&parts[8], 'W'),
        };
    }
    if f64_syntax_of(&parts[9]) {
        pos.speed = Quantity::Decimal(string_from_chars(&parts[9]));
        pos.speed_unit = SpeedUnit::Kph;
    }
    if f64_syntax_of(&parts[10]) {
        pos.course = Quantity::Decimal(string_from_chars(&parts[10]));
    }
    if parts.len() > 12 {
        match parse_hex_u32_of(&parts[12]) {
            Some(status) => process_status(&mut pos, status as i64),
            None => {},
        }
    }
    pos
}

pub struct H02Decoder;

impl H02Decoder {
    /// A binary message: the identifier names the device; the fields give
    /// the position.
    fn decode_binary(&self, s: &[u8], session: &mut DeviceSession) -> (r: Result<
        Option<Vec<Position>>,
        ProtocolError,
    >)
        requires
            h02_binary_speed_fits(s@),
        ensures
            s@.len() < 32 ==> *final(session) == *old(session),
            s@.len() >= 32 ==> final(session).unique_id@ == h02_binary_id(s@),
            s@.len() >= 32 ==> final(session).device_id == hash_device_id(default_str_hash(final(session).unique_id@)),
            final(session).protocol == old(session).protocol,
            decode_outcome(r) == h02_binary_outcome(s@, final(session).device_id),
    {
        if s.len() < 32 {
            return Err(ProtocolError::InsufficientData);
        }
        let long_id = s.len() == 42;
        let p: usize = if long_id {
            9
        } else {
            6
        };
        let raw = copy_range(s, 1, p);
        let hex = hex_encode(raw.as_slice());
        proof {
            lemma_hex_lower_len(raw@);
        }
        let digits = chars_of(hex.as_str());
        let id_chars = if long_id {
            take_chars(&digits, 15)
        } else {
            digits
        };
        let id = string_from_chars(&id_chars);
        session.unique_id = string_from_chars(&id_chars);
        session.device_id = simple_device_id(session.unique_id.as_str());
        if session.device_id == 0 {
            return Err(ProtocolError::UnknownDevice(id));
        }
        let pos = h02_binary_position_of(s, p, session.device_id);
        Ok(Some(single(pos)))
    }

    /// A text message: the IMEI names the device; location messages (type
    /// starting with `V`) with all twelve fields give the position.
    fn decode_text(&self, s: &[u8], session: &mut DeviceSession) -> (r: Result<
        Option<Vec<Position>>,
        ProtocolError,
    >)
        requires
            h02_text_slices_ok(h02_fields(s@)),
        ensures
            h02_fields(s@).len() < 3 ==> *final(session) == *old(session),
            h02_fields(s@).len() >= 3 ==> final(session).unique_id@ == h02_fields(s@)[1],
            h02_fields(s@).len() >= 3 ==> final(session).device_id == hash_device_id(default_str_hash(final(session).unique_id@)),
            final(session).protocol == old(session).protocol,
            decode_outcome(r) == h02_text_outcome(h02_fields(s@), final(session).device_id),
    {
        let data = from_utf8_lossy(s);
        let chars = chars_of(data.as_str());
        let trimmed = trim_chars(&chars, &TrimSet::H02Frame);
        let parts = split_chars(&trimmed, ',');
        let ghost ps = pieces_view(parts@);
        assert(ps == h02_fields(s@));
        if parts.len() < 3 {
            return Err(ProtocolError::InvalidData(string_from_str("H02 text too short")));
        }
        assert(ps[1] == parts@[1]@ && ps[2] == parts@[2]@);
        session.unique_id = string_from_chars(&parts[1]);
        session.device_id = simple_device_id(session.unique_id.as_str());
        let t = &parts[2];
        if !(t.len() > 0 && t[0] == 'V') || parts.len() < 12 {
            return Ok(None);
        }
        if session.device_id == 0 {
            return Err(ProtocolError::UnknownDevice(string_from_chars(&parts[1])));
        }
        let pos = h02_text_position_of(&parts, session.device_id);
        Ok(Some(single(pos)))
    }
}

} // verus!

verus! {

pub open spec fn h02_start_error(b: u8) -> Seq<char> {
    "Invalid H02 start byte: 0x"@ + seq![hex_digit_upper(b as int / 16), hex_digit_upper(b as int % 16)]
}

/// The inputs on which the H02 decoder runs to an answer (elsewhere it
/// panics): a binary speed that fits its byte arithmetic, and text whose
/// time and date fields can be sliced.
pub open spec fn h02_decodable(s: Seq<u8>) -> bool {
    &&& (s.len() > 0 && s[0] == 36) ==> h02_binary_speed_fits(s)
    &&& (s.len() > 0 && s[0] == 42) ==> h02_text_slices_ok(h02_fields(s))
}

/// The H02 decoder's answer and its effect on the session.
pub open spec fn h02_decoded(
    s: Seq<u8>,
    before: DeviceSession,
    after: DeviceSession,
    out: DecodeOutcome,
) -> bool {
    if s.len() == 0 {
        after == before && out == DecodeOutcome::Nothing
    } else if s[0] == 36 {
        &&& after.protocol == before.protocol
        &&& s.len() < 32 ==> after == before
        &&& s.len() >= 32 ==> after.unique_id@ == h02_binary_id(s) && after.device_id == hash_device_id(default_str_hash(after.unique_id@))
        &&& out == h02_binary_outcome(s, after.device_id)
    } else if s[0] == 42 {
        &&& after.protocol == before.protocol
        &&& h02_fields(s).len() < 3 ==> after == before
        &&& h02_fields(s).len() >= 3 ==> after.unique_id@ == h02_fields(s)[1] && after.device_id
            == hash_device_id(default_str_hash(after.unique_id@))
        &&& out == h02_text_outcome(h02_fields(s), after.device_id)
    } else {
        after == before && out == DecodeOutcome::Failed(
            ProtocolErrorModel::InvalidData(h02_start_error(s[0])),
        )
    }
}

impl H02Decoder {
    /// Decodes one frame: binary when it starts with `$`, text when it
    /// starts with `*`.
    pub fn decode(&self, buf: &BytesMut, session: &mut DeviceSession) -> (r: Result<
        Option<Vec<Position>>,
        ProtocolError,
    >)
        requires
            h02_decodable(bytes_mut_view(*buf)),
        ensures
            h02_decoded(bytes_mut_view(*buf), *old(session), *final(session), decode_outcome(r)),
    {
        let s = bytes_mut_as_slice(buf);
        if s.len() == 0 {
            return Ok(None);
        }
        let first = s[0];
        if first == 36 {
            self.decode_binary(s, session)
        } else if first == 42 {
            self.decode_text(s, session)
        } else {
            let mut msg = string_from_str("Invalid H02 start byte: 0x");
            push_hex_upper(&mut msg, first);
            Err(ProtocolError::InvalidData(msg))
        }
    }

    /// Decodes one frame where the decoder runs to an answer; answers none,
    /// leaving the session as it was, where it would panic.
    pub fn decode_checked(&self, buf: &BytesMut, session: &mut DeviceSession) -> (r: Option<
        Result<Option<Vec<Position>>, ProtocolError>,
    >)
        ensures
            r is None <==> !h02_decodable(bytes_mut_view(*buf)),
            r is None ==> *final(session) == *old(session),
            r matches Some(x) ==> h02_decoded(
                bytes_mut_view(*buf),
                *old(session),
                *final(session),
                decode_outcome(x),
            ),
    {
        if h02_decodable_of(bytes_mut_as_slice(buf)) {
            Some(self.decode(buf, session))
        } else {
            None
        }
    }
}

fn utf8_boundary_of(b: &[u8], k: usize) -> (r: bool)
    ensures
        r == utf8_boundary(b@, k as int),
{
    k == b.len() || (k < b.len() && !(0x80 <= b[k] && b[k] <= 0xBF))
}

fn windows_ok_of(b: &[u8]) -> (r: bool)
    ensures
        r == windows_ok(b@),
{
    utf8_boundary_of(b, 2) && utf8_boundary_of(b, 4) && utf8_boundary_of(b, 6)
}

/// Whether the H02 decoder runs to an answer on the bytes.
pub fn h02_decodable_of(s: &[u8]) -> (r: bool)
    ensures
        r == h02_decodable(s@),
{
    if s.len() == 0 {
        return true;
    }
    if s[0] == 36 {
        if s.len() < 32 {
            return true;
        }
        let p: usize = if s.len() == 42 {
            9
        } else {
            6
        };
        let v: u32 = (bcd_byte(s[p + 16]) as u32) * 10 + (bcd_byte(s[p + 17]) as u32) / 10;
        return v <= 255;
    }
    if s[0] != 42 {
        return true;
    }
    let data = from_utf8_lossy(s);
    let chars = chars_of(data.as_str());
    let trimmed = trim_chars(&chars, &TrimSet::H02Frame);
    let parts = split_chars(&trimmed, ',');
    let ghost ps = pieces_view(parts@);
    assert(ps == h02_fields(s@));
    if parts.len() < 12 {
        return true;
    }
    assert(ps[2] == parts@[2]@ && ps[3] == parts@[3]@ && ps[11] == parts@[11]@);
    let t = &parts[2];
    if !(t.len() > 0 && t[0] == 'V') {
        return true;
    }
    let ts = string_from_chars(&parts[3]);
    let ds = string_from_chars(&parts[11]);
    let tb = ts.as_str().as_bytes();
    let db = ds.as_str().as_bytes();
    if tb.len() >= 6 && db.len() >= 6 {
        windows_ok_of(tb) && windows_ok_of(db)
    } else {
        true
    }
}

// ─── Encoding ───────────────────────────────────────────────────────

/// `HHMMSS` of a UTC instant given in milliseconds since the Unix epoch.
pub open spec fn h02_time_text(now_ms: i64) -> Seq<char> {
    let sod = (now_ms as int / 1000) % 86400;
    seq![
        dec_digit_char(sod / 3600 / 10),
        dec_digit_char(sod / 3600 % 10),
        dec_digit_char(sod % 3600 / 60 / 10),
        dec_digit_char(sod % 3600 / 60 % 10),
        dec_digit_char(sod % 60 / 10),
        dec_digit_char(sod % 60 % 10),
    ]
}

/// The reporting interval of a periodic-position command: its `frequency`
/// attribute as an integer, else 60.
pub open spec fn h02_frequency(c: Command) -> i64 {
    match command_attribute(c.attributes@, KEY_FREQUENCY@) {
        Some(v) => match parse_dec_i64(v) {
            Some(f) => f,
            None => 60,
        },
        None => 60,
    }
}

/// The text of a command for the device, at the time of day `t`.
pub open spec fn h02_command_text(c: Command, id: Seq<char>, t: Seq<char>) -> Option<Seq<char>> {
    let ty = c.command_type@;
    let head = "*HQ,"@ + id;
    if ty == TYPE_ALARM_ARM@ {
        Some(head + ",SCF,"@ + t + ",0,0#"@)
    } else if ty == TYPE_ALARM_DISARM@ {
        Some(head + ",SCF,"@ + t + ",1,1#"@)
    } else if ty == TYPE_POSITION_PERIODIC@ {
        Some(head + ",S71,"@ + t + ","@ + dec_text(h02_frequency(c) as int) + "#"@)
    } else if ty == TYPE_ENGINE_STOP@ {
        Some(head + ",S20,"@ + t + ",1,3,0,0,0#"@)
    } else if ty == TYPE_ENGINE_RESUME@ {
        Some(head + ",S20,"@ + t + ",1,1,0,0,0#"@)
    } else if ty == TYPE_POWER_OFF@ {
        Some(head + ",S06,"@ + t + ",0#"@)
    } else {
        None
    }
}

/// What the H02 encoder answers at the instant `now_ms`.
pub open spec fn h02_encode_outcome(c: Command, id: Seq<char>, now_ms: i64) -> EncodeOutcome {
    match h02_command_text(c, id, h02_time_text(now_ms)) {
        Some(m) => EncodeOutcome::Bytes(encode_utf8(m)),
        None => EncodeOutcome::Failed(ProtocolErrorModel::UnsupportedCommand(c.command_type@)),
    }
}

fn h02_time_text_of(now_ms: i64) -> (s: String)
    ensures
        s@ == h02_time_text(now_ms),
{
    let x: i128 = (now_ms as i128) + 86_400_000i128 * 110_000_000_000i128;
    let secs: i128 = x / 1000;
    let sod: i128 = secs % 86400;
    assert(sod == (now_ms as int / 1000) % 86400) by (nonlinear_arith)
        requires
            x == now_ms as int + 86_400_000 * 110_000_000_000,
            x >= 0,
            secs == x / 1000,
            sod == secs % 86400,
    ;
    let h: u64 = (sod / 3600) as u64;
    let m: u64 = (sod % 3600 / 60) as u64;
    let sec: u64 = (sod % 60) as u64;
    let mut s = String::new();
    push_two_digits(&mut s, h);
    push_two_digits(&mut s, m);
    push_two_digits(&mut s, sec);
    assert(s@ =~= h02_time_text(now_ms));
    s
}

pub struct H02Encoder;

impl H02Encoder {
    /// The command's message for the device at the instant `now_ms`.
    pub fn encode_at(&self, command: &Command, unique_id: &str, now_ms: i64) -> (r: Result<
        Bytes,
        ProtocolError,
    >)
        ensures
            encode_outcome(r) == h02_encode_outcome(*command, unique_id@, now_ms),
    {
        let t = h02_time_text_of(now_ms);
        let ty = chars_of(command.command_type.as_str());
        let mut m = string_from_str("*HQ,");
        push_str(&mut m, unique_id);
        let ghost head = m@;
        if chars_eq_str(&ty, TYPE_ALARM_ARM) {
            push_str(&mut m, ",SCF,");
            push_str(&mut m, t.as_str());
            push_str(&mut m, ",0,0#");
        } else if chars_eq_str(&ty, TYPE_ALARM_DISARM) {
            push_str(&mut m, ",SCF,");
            push_str(&mut m, t.as_str());
            push_str(&mut m, ",1,1#");
        } else if chars_eq_str(&ty, TYPE_POSITION_PERIODIC) {
            let freq: i64 = match command.get_string(KEY_FREQUENCY) {
                Some(v) => {
                    let vc = chars_of(v.as_str());
                    match parse_dec_i64_of(&vc) {
                        Some(f) => f,
                        None => 60,
                    }
                },
                None => 60,
            };
            push_str(&mut m, ",S71,");
            push_str(&mut m, t.as_str());
            push_str(&mut m, ",");
            push_dec(&mut m, freq);
            push_str(&mut m, "#");
        } else if chars_eq_str(&ty, TYPE_ENGINE_STOP) {
            push_str(&mut m, ",S20,");
            push_str(&mut m, t.as_str());
            push_str(&mut m, ",1,3,0,0,0#");
        } else if chars_eq_str(&ty, TYPE_ENGINE_RESUME) {
            push_str(&mut m, ",S20,");
            push_str(&mut m, t.as_str());
            push_str(&mut m, ",1,1,0,0,0#");
        } else if chars_eq_str(&ty, TYPE_POWER_OFF) {
            push_str(&mut m, ",S06,");
            push_str(&mut m, t.as_str());
            push_str(&mut m, ",0#");
        } else {
            return Err(ProtocolError::UnsupportedCommand(string_from_str(command.command_type.as_str())));
        }
        proof {
            let spec_m = h02_command_text(*command, unique_id@, t@);
            assert(spec_m is Some);
            assert(m@ =~= spec_m.unwrap());
        }
        Ok(bytes_from_string(m))
    }

    /// The command's message for the device, stamped with the current time.
    pub fn encode(&self, command: &Command, unique_id: &str) -> (r: Result<Bytes, ProtocolError>)
        ensures
            exists|t: i64| encode_outcome(r) == h02_encode_outcome(*command, unique_id@, t),
    {
        let now = utc_now_millis();
        self.encode_at(command, unique_id, now)
    }

    /// The command types this encoder accepts.
    pub fn supported_commands(&self) -> (r: Vec<&'static str>)
        ensures
            r@ == seq![
                TYPE_ALARM_ARM,
                TYPE_ALARM_DISARM,
                TYPE_POSITION_PERIODIC,
                TYPE_ENGINE_STOP,
                TYPE_ENGINE_RESUME,
                TYPE_POWER_OFF,
            ],
    {
        let r = vec![
            TYPE_ALARM_ARM,
            TYPE_ALARM_DISARM,
            TYPE_POSITION_PERIODIC,
            TYPE_ENGINE_STOP,
            TYPE_ENGINE_RESUME,
            TYPE_POWER_OFF,
        ];
        assert(r@ =~= seq![
            TYPE_ALARM_ARM,
            TYPE_ALARM_DISARM,
            TYPE_POSITION_PERIODIC,
            TYPE_ENGINE_STOP,
            TYPE_ENGINE_RESUME,
            TYPE_POWER_OFF,
        ]);
        r
    }
}

// ─── Framing ────────────────────────────────────────────────────────

/// The text framer of H02: frames end at `#` or at CR LF (kept), at most
/// 2048 bytes.
pub open spec fn h02_text_framing() -> DelimiterConfig {
    DelimiterConfig {
        max_frame_length: 2048,
        strip_delimiter: false,
        delimiters: seq![seq![35u8], seq![13u8, 10u8]],
    }
}

/// What the H02 framer does: binary frames (starting with `$`) are 42 bytes
/// when that many are buffered, else 32; text frames end at a delimiter.
pub open spec fn h02_frame_decision(s: Seq<u8>) -> FrameDecision {
    if s.len() == 0 {
        FrameDecision::Wait
    } else if s[0] == 36 {
        let n: int = if s.len() >= 42 {
            42
        } else {
            32
        };
        if s.len() >= n {
            FrameDecision::Frame(n as usize)
        } else {
            FrameDecision::Wait
        }
    } else {
        delimiter_decision(s, h02_text_framing())
    }
}

/// Cuts H02 frames, binary and text.
pub struct H02FrameDecoder {
    text_decoder: DelimiterFrameDecoder,
}

impl H02FrameDecoder {
    #[verifier::type_invariant]
    spec fn inv(self) -> bool {
        self.text_decoder@ == h02_text_framing()
    }

    /// The settings of the framer for text messages.
    pub closed spec fn text_framing(&self) -> DelimiterConfig {
        self.text_decoder@
    }

    /// A framer whose text messages end at `#` or CR LF, the delimiter kept,
    /// at most 2048 bytes before it.
    pub fn new() -> (r: H02FrameDecoder)
        ensures
            r.text_framing() == h02_text_framing(),
    {
        let delims: [&str; 2] = ["#", "\r\n"];
        let d = DelimiterFrameDecoder::from_strings(2048, false, &delims);
        proof {
            reveal_strlit("#");
            reveal_strlit("\r\n");
            assert(delims@[0]@ == "#"@ && delims@[1]@ == "\r\n"@);
            assert("#"@ =~= seq!['#']);
            assert("\r\n"@ =~= seq!['\r', '\n']);
            vstd::utf8::is_ascii_chars_encode_utf8("#"@);
            vstd::utf8::is_ascii_chars_encode_utf8("\r\n"@);
            assert(d@.delimiters[0] =~= seq![35u8]);
            assert(d@.delimiters[1] =~= seq![13u8, 10u8]);
            assert(d@.delimiters =~= h02_text_framing().delimiters);
        }
        H02FrameDecoder { text_decoder: d }
    }

    pub fn decode(&mut self, buf: &mut BytesMut) -> (r: Option<BytesMut>)
        ensures
            frame_outcome(
                bytes_mut_view(*old(buf)),
                h02_frame_decision(bytes_mut_view(*old(buf))),
                r,
                bytes_mut_view(*final(buf)),
            ),
    {
        proof {
            use_type_invariant(&*self);
        }
        let d = {
            let s = bytes_mut_as_slice(buf);
            let ghost n = s.len();
            assert(s@.len() == n);
            if s.len() == 0 {
                FrameDecision::Wait
            } else if s[0] == 36 {
                let n: usize = if s.len() >= 42 {
                    42
                } else {
                    32
                };
                if s.len() >= n {
                    FrameDecision::Frame(n)
                } else {
                    FrameDecision::Wait
                }
            } else {
                proof {
                    lemma_delimiter_decision_fits(s@, self.text_decoder@);
                }
                self.text_decoder.decision(s)
            }
        };
        apply_decision(buf, d)
    }
}

// ─── Registration ───────────────────────────────────────────────────

/// The H02 protocol definition: TCP and UDP on port 5013, with the
/// encoder's command types.
pub fn register(registry: &mut ProtocolRegistry)
    ensures
        final(registry)@ == old(registry)@.insert(
            PROTOCOL_NAME@,
            ProtocolDefinitionModel {
                name: PROTOCOL_NAME@,
                transport: Transport::Both,
                default_port: DEFAULT_PORT,
                kind: ProtocolKind::H02,
                supported_commands: seq![
                    TYPE_ALARM_ARM@,
                    TYPE_ALARM_DISARM@,
                    TYPE_POSITION_PERIODIC@,
                    TYPE_ENGINE_STOP@,
                    TYPE_ENGINE_RESUME@,
                    TYPE_POWER_OFF@,
                ],
            },
        ),
{
    let encoder = H02Encoder;
    let names = encoder.supported_commands();
    let supported = command_names(&names);
    let def = ProtocolDefinition {
        name: string_from_str(PROTOCOL_NAME),
        transport: Transport::Both,
        default_port: DEFAULT_PORT,
        kind: ProtocolKind::H02,
        supported_commands: supported,
    };
    assert(def@.supported_commands =~= seq![
        TYPE_ALARM_ARM@,
        TYPE_ALARM_DISARM@,
        TYPE_POSITION_PERIODIC@,
        TYPE_ENGINE_STOP@,
        TYPE_ENGINE_RESUME@,
        TYPE_POWER_OFF@,
    ]);
    registry.register(def);
}

} // verus!

verus! {

/// Text that can stand inside an H02 message: ASCII, with no `#` and no
/// carriage return.
pub open spec fn inline_text(s: Seq<char>) -> bool {
    vstd::utf8::is_ascii_chars(s) && forall|i: int| 0 <= i < s.len() ==> s[i] != '#' && s[i] != '\r'
}

proof fn lemma_inline_concat(a: Seq<char>, b: Seq<char>)
    requires
        inline_text(a),
        inline_text(b),
    ensures
        inline_text(a + b),
{
    assert forall|i: int| 0 <= i < (a + b).len() implies '\0' <= #[trigger] (a + b)[i] <= '\u{7f}'
        && (a + b)[i] != '#' && (a + b)[i] != '\r' by {
        if i < a.len() {
            assert((a + b)[i] == a[i]);
        } else {
            assert((a + b)[i] == b[i - a.len()]);
        }
    }
}

proof fn lemma_digit_inline(d: int)
    requires
        0 <= d <= 9,
    ensures
        inline_text(seq![dec_digit_char(d)]),
{
    let c = dec_digit_char(d);
    assert(c as u32 == d + 48);
}

pub open spec fn ten_pow(k: nat) -> nat
    decreases k,
{
    if k == 0 {
        1
    } else {
        10 * ten_pow((k - 1) as nat)
    }
}

proof fn lemma_dec_digits_inline(v: nat, k: nat)
    requires
        v < ten_pow(k),
        k >= 1,
    ensures
        inline_text(dec_digits(v)),
        dec_digits(v).len() <= k,
    decreases k,
{
    if v < 10 {
        lemma_digit_inline(v as int);
    } else {
        if k == 1 {
            assert(ten_pow(1) == 10 * ten_pow(0));
            assert(false);
        }
        let p = ten_pow((k - 1) as nat);
        assert(v < 10 * p);
        assert(v / 10 < p) by (nonlinear_arith)
            requires
                v < 10 * p,
        ;
        lemma_dec_digits_inline(v / 10, (k - 1) as nat);
        lemma_digit_inline((v % 10) as int);
        lemma_inline_concat(dec_digits(v / 10), seq![dec_digit_char((v % 10) as int)]);
        assert(dec_digits(v) =~= dec_digits(v / 10) + seq![dec_digit_char((v % 10) as int)]);
    }
}

proof fn lemma_dec_text_inline(v: i64)
    ensures
        inline_text(dec_text(v as int)),
        dec_text(v as int).len() <= 20,
{
    reveal_with_fuel(ten_pow, 20);
    assert(ten_pow(19) == 10_000_000_000_000_000_000);
    if v < 0 {
        lemma_dec_digits_inline((-(v as int)) as nat, 19);
        lemma_inline_concat(seq!['-'], dec_digits((-(v as int)) as nat));
    } else {
        lemma_dec_digits_inline(v as nat, 19);
    }
}

proof fn lemma_time_text_inline(now_ms: i64)
    ensures
        inline_text(h02_time_text(now_ms)),
        h02_time_text(now_ms).len() == 6,
{
    let sod = (now_ms as int / 1000) % 86400;
    assert(0 <= sod < 86400);
    let t = h02_time_text(now_ms);
    assert forall|i: int| 0 <= i < 6 implies '\0' <= #[trigger] t[i] <= '\u{7f}' && t[i] != '#'
        && t[i] != '\r' by {
        let d: int = if i == 0 {
            sod / 3600 / 10
        } else if i == 1 {
            sod / 3600 % 10
        } else if i == 2 {
            sod % 3600 / 60 / 10
        } else if i == 3 {
            sod % 3600 / 60 % 10
        } else if i == 4 {
            sod % 60 / 10
        } else {
            sod % 60 % 10
        };
        assert(t[i] == dec_digit_char(d));
        assert(dec_digit_char(d) as u32 == d + 48);
    }
}

/// A message of inline text and a closing `#`, with the text at most 2048
/// characters and starting with `*`, is one whole frame to the H02 framer,
/// whatever follows it.
proof fn lemma_text_message_framed(body: Seq<char>, rest: Seq<u8>)
    requires
        inline_text(body),
        1 <= body.len() <= 2048,
        body[0] == '*',
    ensures
        encode_utf8(body.push('#')).len() == body.len() + 1,
        h02_frame_decision(encode_utf8(body.push('#')) + rest) == FrameDecision::Frame(
            (body.len() + 1) as usize,
        ),
{
    let m = body.push('#');
    assert(vstd::utf8::is_ascii_chars(m)) by {
        assert forall|i: int| 0 <= i < m.len() implies '\0' <= #[trigger] m[i] <= '\u{7f}' by {
            if i < body.len() {
                assert(m[i] == body[i]);
            }
        }
    }
    vstd::utf8::is_ascii_chars_encode_utf8(m);
    let b = encode_utf8(m);
    let s = b + rest;
    let k = body.len() as int;
    let ds = h02_text_framing().delimiters;
    assert(s[0] == b[0]);
    assert(b[0] == m[0] as u8);
    assert(m[0] == '*');
    assert forall|j: int| 0 <= j < k implies #[trigger] delimiter_from(s, j, ds, 0) is None by {
        assert(s[j] == b[j]);
        assert(b[j] == m[j] as u8);
        assert(m[j] == body[j]);
        assert(m[j] as u32 != 35 && m[j] as u32 != 13);
        assert(s.subrange(j, j + 1)[0] == s[j]);
        if j + 2 <= s.len() {
            assert(s.subrange(j, j + 2)[0] == s[j]);
        }
        reveal_with_fuel(delimiter_from, 3);
    }
    assert(s[k] == b[k]);
    assert(b[k] == m[k] as u8);
    assert(s.subrange(k, k + 1) =~= seq![35u8]);
    assert(delimiter_from(s, k, ds, 0) == Some(0int));
    lemma_earliest_delimiter_at(s, ds, 0, k, 0);
}

/// A command message that the H02 encoder builds, for a device identifier
/// of at most 2000 ASCII characters with no `#` and no carriage return, is
/// one whole frame to the H02 framer, whatever follows it.
pub proof fn lemma_command_message_framed(c: Command, id: Seq<char>, now_ms: i64, rest: Seq<u8>)
    requires
        inline_text(id),
        id.len() <= 2000,
        h02_encode_outcome(c, id, now_ms) is Bytes,
    ensures
        h02_encode_outcome(c, id, now_ms) matches EncodeOutcome::Bytes(b) && h02_frame_decision(
            b + rest,
        ) == FrameDecision::Frame(b.len() as usize),
{
    let t = h02_time_text(now_ms);
    lemma_time_text_inline(now_ms);
    reveal_strlit("*HQ,");
    reveal_strlit(",SCF,");
    reveal_strlit(",0,0#");
    reveal_strlit(",1,1#");
    reveal_strlit(",S71,");
    reveal_strlit(",");
    reveal_strlit("#");
    reveal_strlit(",S20,");
    reveal_strlit(",1,3,0,0,0#");
    reveal_strlit(",1,1,0,0,0#");
    reveal_strlit(",S06,");
    reveal_strlit(",0#");
    let head = "*HQ,"@ + id;
    assert(inline_text("*HQ,"@));
    lemma_inline_concat("*HQ,"@, id);
    let ty = c.command_type@;
    let (mid, tail): (Seq<char>, Seq<char>) = if ty == TYPE_ALARM_ARM@ {
        (",SCF,"@, ",0,0"@)
    } else if ty == TYPE_ALARM_DISARM@ {
        (",SCF,"@, ",1,1"@)
    } else if ty == TYPE_POSITION_PERIODIC@ {
        (",S71,"@, ","@ + dec_text(h02_frequency(c) as int))
    } else if ty == TYPE_ENGINE_STOP@ {
        (",S20,"@, ",1,3,0,0,0"@)
    } else if ty == TYPE_ENGINE_RESUME@ {
        (",S20,"@, ",1,1,0,0,0"@)
    } else {
        (",S06,"@, ",0"@)
    };
    reveal_strlit(",0,0");
    reveal_strlit(",1,1");
    reveal_strlit(",1,3,0,0,0");
    reveal_strlit(",1,1,0,0,0");
    reveal_strlit(",0");
    lemma_dec_text_inline(h02_frequency(c));
    lemma_inline_concat(","@, dec_text(h02_frequency(c) as int));
    assert(inline_text(mid));
    assert(inline_text(tail));
    let body = head + mid + t + tail;
    lemma_inline_concat(head, mid);
    lemma_inline_concat(head + mid, t);
    lemma_inline_concat(head + mid + t, tail);
    let m = h02_command_text(c, id, t).unwrap();
    assert(m =~= body.push('#'));
    assert(body[0] == '*');
    lemma_text_message_framed(body, rest);
    assert(h02_encode_outcome(c, id, now_ms) == EncodeOutcome::Bytes(encode_utf8(body.push('#'))));
}

} // verus!

verus! {

/// The two decimal digits of a BCD byte, read as a number.
pub open spec fn two_digits(b: u8) -> int {
    10 * (b as int / 16) + b as int % 16
}

/// The hemispheres of a binary H02 fix. The latitude is degrees and minutes
/// in BCD (`dd mm mm mm`, in units of 1/600000 degree); with flag bit 0x04 it
/// stands as read (north, never negative), without it it is negated
/// (south). Likewise the longitude (`ddd mm.mmmm`, in 1/60000 degree) with
/// flag bit 0x08 (east) or without it (west).
pub proof fn lemma_binary_hemispheres(s: Seq<u8>, device_id: i64)
    requires
        s.len() >= 32,
        device_id != 0,
    ensures
        ({
            let p: int = if s.len() == 42 {
                9
            } else {
                6
            };
            let f = s[p + 15];
            let lat = two_digits(s[p + 6]) * 600000 + two_digits(s[p + 7]) * 10000 + two_digits(
                s[p + 8],
            ) * 100 + two_digits(s[p + 9]);
            let lon = (two_digits(s[p + 11]) * 10 + s[p + 12] as int / 16) * 60000 + (s[p + 12]
                as int % 16) * 10000 + two_digits(s[p + 13]) * 100 + two_digits(s[p + 14]);
            &&& h02_binary_outcome(s, device_id) matches DecodeOutcome::Positions(ps)
            &&& ps.len() == 1
            &&& ps[0].latitude matches QuantityModel::Scaled { value: la, scale: ls }
            &&& ps[0].longitude matches QuantityModel::Scaled { value: lo, scale: os }
            &&& ls == 600000 && os == 60000
            &&& lat >= 0 && lon >= 0
            &&& f & 0x04 != 0 ==> la == lat
            &&& f & 0x04 == 0 ==> la == -lat
            &&& f & 0x08 != 0 ==> lo == lon
            &&& f & 0x08 == 0 ==> lo == -lon
        }),
{
    let p: int = if s.len() == 42 {
        9
    } else {
        6
    };
    let f = s[p + 15];
    assert((f & 0x0F) & 0x04 == f & 0x04 && (f & 0x0F) & 0x08 == f & 0x08) by (bit_vector);
}

/// The alarm commands of the H02 encoder: arming sends `SCF` with `0,0`,
/// disarming `SCF` with `1,1`, each after the device identifier and the time
/// of day.
pub proof fn lemma_alarm_commands(c: Command, id: Seq<char>, now_ms: i64)
    ensures
        c.command_type@ == "alarmArm"@ ==> h02_encode_outcome(c, id, now_ms) == EncodeOutcome::Bytes(
            encode_utf8("*HQ,"@ + id + ",SCF,"@ + h02_time_text(now_ms) + ",0,0#"@),
        ),
        c.command_type@ == "alarmDisarm"@ ==> h02_encode_outcome(c, id, now_ms)
            == EncodeOutcome::Bytes(
            encode_utf8("*HQ,"@ + id + ",SCF,"@ + h02_time_text(now_ms) + ",1,1#"@),
        ),
{
    reveal_strlit("alarmArm");
    reveal_strlit("alarmDisarm");
    assert("alarmArm"@.len() != "alarmDisarm"@.len());
}

} // verus!
