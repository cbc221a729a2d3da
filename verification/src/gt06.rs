//! GT06: a binary protocol of many trackers.
//!
//! Frame: start marker `78 78` (one length byte) or `79 79` (two length
//! bytes), the length, the message type, the data, a serial number, a
//! CRC-16/X-25, and the end marker `0D 0A`.

use bytes::{Bytes, BytesMut};
use vstd::prelude::*;
use vstd::utf8::encode_utf8;

use crate::buffer::{bytes_from_vec, bytes_mut_as_slice, bytes_mut_view, bytes_view};
use crate::codec::{apply_decision, frame_outcome, FrameDecision};
use crate::helper::{
    default_str_hash, hash_device_id,
    be16, be24, be32, copy_range, correct_year, correct_year_spec, crc16_x25, crc16_x25_spec,
    hex_encode, hex_lower, make_time, make_time_spec, read_be16, read_be24, read_be32,
    simple_device_id,
};
use crate::model::{
    attr, command_attribute, decode_outcome, new_position, single, whole, whole_quantity, Alarm,
    AttrKey, AttrKeyModel, AttrValue, AttrValueModel, AttributeModel, Command, DecodeOutcome,
    DeviceSession, EncodeOutcome, encode_outcome, Position, PositionModel, ProtocolError, ProtocolErrorModel, ProtocolKind,
    Quantity, QuantityModel, SpeedUnit, KEY_DATA, TYPE_CUSTOM, TYPE_ENGINE_RESUME,
    TYPE_ENGINE_STOP,
};
use crate::registry::{command_names, ProtocolDefinition, ProtocolRegistry, Transport};
use crate::text::{
    chars_eq_str, chars_of, hex_digit_upper, push_hex_upper, string_from_chars, string_from_str,
    take_chars, trim_start_chars, trim_start_set, TrimSet,
};

verus! {

pub const PROTOCOL_NAME: &'static str = "gt06";

pub const DEFAULT_PORT: u16 = 5023;

pub const MSG_LOGIN: u8 = 0x01;

pub const MSG_GPS: u8 = 0x10;

pub const MSG_GPS_LBS_6: u8 = 0x11;

pub const MSG_GPS_LBS_1: u8 = 0x12;

pub const MSG_GPS_LBS_2: u8 = 0x22;

pub const MSG_GPS_LBS_3: u8 = 0x37;

pub const MSG_GPS_LBS_4: u8 = 0x2D;

pub const MSG_STATUS: u8 = 0x13;

pub const MSG_SATELLITE: u8 = 0x14;

pub const MSG_STRING: u8 = 0x15;

pub const MSG_GPS_LBS_STATUS_1: u8 = 0x16;

pub const MSG_GPS_LBS_STATUS_2: u8 = 0x26;

pub const MSG_GPS_LBS_STATUS_3: u8 = 0x27;

pub const MSG_LBS_EXTEND: u8 = 0x18;

pub const MSG_LBS_STATUS: u8 = 0x19;

pub const MSG_GPS_PHONE: u8 = 0x1A;

pub const MSG_HEARTBEAT: u8 = 0x23;

pub const MSG_GPS_LBS_STATUS_4: u8 = 0x32;

pub const MSG_GPS_LBS_5: u8 = 0x31;

pub const MSG_GPS_LBS_7: u8 = 0xA0;

pub const MSG_COMMAND_0: u8 = 0x80;

pub const MSG_COMMAND_1: u8 = 0x81;

pub const MSG_COMMAND_2: u8 = 0x82;

pub const MSG_TIME_REQUEST: u8 = 0x8A;

pub const MSG_INFO: u8 = 0x94;

pub const MSG_ALARM: u8 = 0x95;

// ─── Framing ────────────────────────────────────────────────────────

/// The end of the first CR LF pair at or after `i`.
pub open spec fn first_crlf_end(s: Seq<u8>, i: int) -> Option<int>
    decreases s.len() - i,
{
    if i < 0 || i + 1 >= s.len() {
        None
    } else if s[i] == 0x0D && s[i + 1] == 0x0A {
        Some(i + 2)
    } else {
        first_crlf_end(s, i + 1)
    }
}

/// With a frame of `len` bytes announced: wait for it, take it when it ends
/// with CR LF, else take up to the first CR LF after the start marker.
pub open spec fn gt06_check_end(s: Seq<u8>, len: int) -> FrameDecision {
    if s.len() < len {
        FrameDecision::Wait
    } else if s[len - 2] == 0x0D && s[len - 1] == 0x0A {
        FrameDecision::Frame(len as usize)
    } else {
        match first_crlf_end(s, 2) {
            Some(e) => FrameDecision::Frame(e as usize),
            None => FrameDecision::Wait,
        }
    }
}

/// What the GT06 framer does with a buffer.
pub open spec fn gt06_frame_decision(s: Seq<u8>) -> FrameDecision {
    if s.len() < 5 {
        FrameDecision::Wait
    } else if s[0] == 0x78 {
        gt06_check_end(s, 5 + s[2] as int)
    } else if s[0] == 0x79 {
        if s.len() < 6 {
            FrameDecision::Wait
        } else {
            gt06_check_end(s, 6 + be16(s, 2))
        }
    } else {
        FrameDecision::Skip(1)
    }
}

proof fn lemma_first_crlf_end(s: Seq<u8>, i: int)
    requires
        0 <= i,
    ensures
        first_crlf_end(s, i) matches Some(e) ==> i + 2 <= e <= s.len() && s[e - 2] == 0x0D
            && s[e - 1] == 0x0A,
    decreases s.len() - i,
{
    if i + 1 < s.len() && !(s[i] == 0x0D && s[i + 1] == 0x0A) {
        lemma_first_crlf_end(s, i + 1);
    }
}

fn find_crlf_end(s: &[u8], start: usize) -> (r: Option<usize>)
    ensures
        r matches Some(e) ==> first_crlf_end(s@, start as int) == Some(e as int),
        r is None ==> first_crlf_end(s@, start as int) is None,
{
    if start >= s.len() {
        return None;
    }
    let mut i: usize = start;
    while i < s.len() - 1
        invariant
            start <= i <= s@.len(),
            s@.len() >= 1,
            first_crlf_end(s@, start as int) == first_crlf_end(s@, i as int),
        decreases s.len() - i,
    {
        if s[i] == 0x0D && s[i + 1] == 0x0A {
            return Some(i + 2);
        }
        i = i + 1;
    }
    None
}

fn gt06_check_end_of(s: &[u8], len: usize) -> (d: FrameDecision)
    requires
        len >= 5,
    ensures
        d == gt06_check_end(s@, len as int),
{
    if s.len() < len {
        FrameDecision::Wait
    } else if s[len - 2] == 0x0D && s[len - 1] == 0x0A {
        FrameDecision::Frame(len)
    } else {
        proof {
            lemma_first_crlf_end(s@, 2);
        }
        match find_crlf_end(s, 2) {
            Some(e) => FrameDecision::Frame(e),
            None => FrameDecision::Wait,
        }
    }
}

/// The GT06 framer's decision for the bytes.
pub fn gt06_frame_decision_of(s: &[u8]) -> (d: FrameDecision)
    ensures
        d == gt06_frame_decision(s@),
{
    if s.len() < 5 {
        FrameDecision::Wait
    } else if s[0] == 0x78 {
        gt06_check_end_of(s, 5 + s[2] as usize)
    } else if s[0] == 0x79 {
        if s.len() < 6 {
            FrameDecision::Wait
        } else {
            let n = read_be16(s, 2);
            gt06_check_end_of(s, 6 + n as usize)
        }
    } else {
        FrameDecision::Skip(1)
    }
}

/// A GT06 frame starts with a start marker, ends with CR LF, and is a prefix
/// of the buffer; a byte is skipped only when the buffer starts with no
/// start marker.
pub proof fn lemma_gt06_frame_shape(s: Seq<u8>)
    requires
        s.len() <= usize::MAX,
    ensures
        gt06_frame_decision(s) matches FrameDecision::Frame(n) ==> 4 <= n <= s.len() && (s[0]
            == 0x78 || s[0] == 0x79) && s[n - 2] == 0x0D && s[n - 1] == 0x0A,
        gt06_frame_decision(s) matches FrameDecision::Skip(n) ==> n == 1 && s[0] != 0x78 && s[0]
            != 0x79,
{
    lemma_first_crlf_end(s, 2);
}

/// Cuts GT06 frames, with one-byte (`78 78`) or two-byte (`79 79`) lengths.
pub struct Gt06FrameDecoder;

impl Gt06FrameDecoder {
    pub fn decode(&mut self, buf: &mut BytesMut) -> (r: Option<BytesMut>)
        ensures
            frame_outcome(
                bytes_mut_view(*old(buf)),
                gt06_frame_decision(bytes_mut_view(*old(buf))),
                r,
                bytes_mut_view(*final(buf)),
            ),
    {
        let d = {
            let s = bytes_mut_as_slice(buf);
            let ghost n = s.len();
            assert(s@.len() == n);
            proof {
                lemma_gt06_frame_shape(s@);
            }
            gt06_frame_decision_of(s)
        };
        apply_decision(buf, d)
    }
}

// ─── Message types ──────────────────────────────────────────────────

pub open spec fn is_gps_message_spec(t: u8) -> bool {
    t == MSG_GPS || t == MSG_GPS_LBS_6 || t == MSG_GPS_LBS_1 || t == MSG_GPS_LBS_2 || t
        == MSG_GPS_LBS_3 || t == MSG_GPS_LBS_4 || t == MSG_GPS_LBS_5 || t == MSG_GPS_LBS_7 || t
        == MSG_GPS_LBS_STATUS_1 || t == MSG_GPS_LBS_STATUS_2 || t == MSG_GPS_LBS_STATUS_3 || t
        == MSG_GPS_LBS_STATUS_4 || t == MSG_GPS_PHONE
}

pub open spec fn has_lbs_spec(t: u8) -> bool {
    t == MSG_GPS_LBS_6 || t == MSG_GPS_LBS_1 || t == MSG_GPS_LBS_2 || t == MSG_GPS_LBS_3 || t
        == MSG_GPS_LBS_4 || t == MSG_GPS_LBS_5 || t == MSG_GPS_LBS_7 || t == MSG_GPS_LBS_STATUS_1
        || t == MSG_GPS_LBS_STATUS_2 || t == MSG_GPS_LBS_STATUS_3 || t == MSG_GPS_LBS_STATUS_4
}

pub open spec fn has_status_spec(t: u8) -> bool {
    t == MSG_GPS_LBS_STATUS_1 || t == MSG_GPS_LBS_STATUS_2 || t == MSG_GPS_LBS_STATUS_3 || t
        == MSG_GPS_LBS_STATUS_4
}

/// Whether the message type carries a GPS fix.
pub fn is_gps_message(t: u8) -> (r: bool)
    ensures
        r == is_gps_message_spec(t),
{
    t == MSG_GPS || t == MSG_GPS_LBS_6 || t == MSG_GPS_LBS_1 || t == MSG_GPS_LBS_2 || t
        == MSG_GPS_LBS_3 || t == MSG_GPS_LBS_4 || t == MSG_GPS_LBS_5 || t == MSG_GPS_LBS_7 || t
        == MSG_GPS_LBS_STATUS_1 || t == MSG_GPS_LBS_STATUS_2 || t == MSG_GPS_LBS_STATUS_3 || t
        == MSG_GPS_LBS_STATUS_4 || t == MSG_GPS_PHONE
}

/// Whether the message type carries cell tower (LBS) data after the fix.
pub fn has_lbs(t: u8) -> (r: bool)
    ensures
        r == has_lbs_spec(t),
{
    t == MSG_GPS_LBS_6 || t == MSG_GPS_LBS_1 || t == MSG_GPS_LBS_2 || t == MSG_GPS_LBS_3 || t
        == MSG_GPS_LBS_4 || t == MSG_GPS_LBS_5 || t == MSG_GPS_LBS_7 || t == MSG_GPS_LBS_STATUS_1
        || t == MSG_GPS_LBS_STATUS_2 || t == MSG_GPS_LBS_STATUS_3 || t == MSG_GPS_LBS_STATUS_4
}

/// Whether the message type carries device status after the LBS data.
pub fn has_status(t: u8) -> (r: bool)
    ensures
        r == has_status_spec(t),
{
    t == MSG_GPS_LBS_STATUS_1 || t == MSG_GPS_LBS_STATUS_2 || t == MSG_GPS_LBS_STATUS_3 || t
        == MSG_GPS_LBS_STATUS_4
}

pub open spec fn alarm_of_byte(b: u8) -> Option<Alarm> {
    if b == 0x01 {
        Some(Alarm::Sos)
    } else if b == 0x02 {
        Some(Alarm::PowerCut)
    } else if b == 0x03 {
        Some(Alarm::Vibration)
    } else if b == 0x04 {
        Some(Alarm::GeofenceEnter)
    } else if b == 0x05 {
        Some(Alarm::GeofenceExit)
    } else if b == 0x06 {
        Some(Alarm::Overspeed)
    } else if b == 0x09 {
        Some(Alarm::Movement)
    } else if b == 0x0E {
        Some(Alarm::LowBattery)
    } else if b == 0x0F {
        Some(Alarm::PowerCut)
    } else if b == 0x11 {
        Some(Alarm::PowerOff)
    } else if b == 0x13 {
        Some(Alarm::Tampering)
    } else if b == 0x14 {
        Some(Alarm::Door)
    } else if b == 0x23 {
        Some(Alarm::Removing)
    } else {
        None
    }
}

/// The alarm that a status alarm byte reports, if any.
pub fn decode_alarm_byte(b: u8) -> (r: Option<Alarm>)
    ensures
        r == alarm_of_byte(b),
{
    match b {
        0x01 => Some(Alarm::Sos),
        0x02 => Some(Alarm::PowerCut),
        0x03 => Some(Alarm::Vibration),
        0x04 => Some(Alarm::GeofenceEnter),
        0x05 => Some(Alarm::GeofenceExit),
        0x06 => Some(Alarm::Overspeed),
        0x09 => Some(Alarm::Movement),
        0x0E => Some(Alarm::LowBattery),
        0x0F => Some(Alarm::PowerCut),
        0x11 => Some(Alarm::PowerOff),
        0x13 => Some(Alarm::Tampering),
        0x14 => Some(Alarm::Door),
        0x23 => Some(Alarm::Removing),
        _ => None,
    }
}

// ─── Decoding ───────────────────────────────────────────────────────

/// The IMEI of a login message: the BCD digits of the eight identifier bytes,
/// leading zeros dropped, at most fifteen digits.
pub open spec fn gt06_imei(id: Seq<u8>) -> Seq<char> {
    let t = trim_start_set(hex_lower(id), TrimSet::Zeros);
    if t.len() > 15 {
        t.take(15)
    } else {
        t
    }
}

/// A coordinate in units of 1/30000 minute, negated when `negative`.
pub open spec fn gt06_coordinate(raw: int, negative: bool) -> QuantityModel {
    QuantityModel::Scaled {
        value: (if negative {
            -raw
        } else {
            raw
        }) as i64,
        scale: 1_800_000,
    }
}

/// Date, satellites, coordinates, speed, course and flags of a fix whose
/// data starts at `p`.
pub open spec fn gt06_fix(s: Seq<u8>, p: int, device_id: i64) -> PositionModel {
    let cs = be16(s, p + 16) as u16;
    PositionModel {
        fix_time: make_time_spec(
            correct_year_spec(s[p] as int),
            s[p + 1] as int,
            s[p + 2] as int,
            s[p + 3] as int,
            s[p + 4] as int,
            s[p + 5] as int,
        ),
        valid: cs & 0x2000 != 0 && cs & 0x1000 != 0,
        latitude: gt06_coordinate(be32(s, p + 7), cs & 0x0400 != 0),
        longitude: gt06_coordinate(be32(s, p + 11), cs & 0x0800 != 0),
        speed: whole(s[p + 15] as int),
        speed_unit: SpeedUnit::Kph,
        course: whole((cs & 0x03FF) as int),
        attributes: seq![
            attr(AttrKeyModel::Satellites, AttrValueModel::Int((s[p + 6] & 0x0F) as i64)),
        ],
        ..new_position(ProtocolKind::Gt06, device_id)
    }
}

/// Country code, network code, area code and cell of the LBS block at `q`.
pub open spec fn gt06_lbs_attributes(s: Seq<u8>, q: int) -> Seq<AttributeModel> {
    seq![
        attr(AttrKeyModel::Mcc, AttrValueModel::Int(be16(s, q) as i64)),
        attr(AttrKeyModel::Mnc, AttrValueModel::Int(s[q + 2] as i64)),
        attr(AttrKeyModel::Lac, AttrValueModel::Int(be16(s, q + 3) as i64)),
        attr(AttrKeyModel::CellId, AttrValueModel::Int(be24(s, q + 5) as i64)),
    ]
}

/// The position of a location message of type `t` whose data starts at `p`.
pub open spec fn gt06_position(s: Seq<u8>, p: int, t: u8, device_id: i64) -> PositionModel {
    let fix = gt06_fix(s, p, device_id);
    let q = p + 18;
    let lbs = has_lbs_spec(t) && q + 8 <= s.len();
    let q1 = if lbs {
        q + 8
    } else {
        q
    };
    let a1 = if lbs {
        fix.attributes + gt06_lbs_attributes(s, q)
    } else {
        fix.attributes
    };
    if has_status_spec(t) && q1 + 1 <= s.len() {
        let info = s[q1];
        let a2 = a1 + seq![
            attr(AttrKeyModel::Status, AttrValueModel::Int(info as i64)),
            attr(AttrKeyModel::Ignition, AttrValueModel::Bool(info & 0x02 != 0)),
        ];
        let q2 = q1 + 1;
        let power = q2 + 2 <= s.len();
        let a3 = if power {
            a2 + seq![
                attr(AttrKeyModel::Power, AttrValueModel::Number(whole(s[q2] as int))),
                attr(AttrKeyModel::Rssi, AttrValueModel::Int(s[q2 + 1] as i64)),
            ]
        } else {
            a2
        };
        let q3 = if power {
            q2 + 2
        } else {
            q2
        };
        let alarms = if q3 < s.len() {
            match alarm_of_byte(s[q3]) {
                Some(a) => seq![a],
                None => Seq::empty(),
            }
        } else {
            Seq::empty()
        };
        PositionModel { attributes: a3, alarms, ..fix }
    } else {
        PositionModel { attributes: a1, ..fix }
    }
}

/// The answer to a location message of type `t` after a header of `hs`
/// bytes, from a session with the device identifier.
pub open spec fn gt06_location_outcome(s: Seq<u8>, hs: int, t: u8, device_id: i64) -> DecodeOutcome {
    if device_id == 0 {
        DecodeOutcome::Failed(ProtocolErrorModel::UnknownDevice("Device not logged in"@))
    } else if s.len() < hs + 19 {
        DecodeOutcome::Failed(ProtocolErrorModel::InsufficientData)
    } else {
        DecodeOutcome::Positions(seq![gt06_position(s, hs + 1, t, device_id)])
    }
}

pub open spec fn gt06_start_error(b: u8) -> Seq<char> {
    "Invalid GT06 start byte: 0x"@ + seq![hex_digit_upper(b as int / 16), hex_digit_upper(b as int % 16)]
}

/// The header size of a message with a start marker, else none.
pub open spec fn gt06_header_size(s: Seq<u8>) -> int {
    if s[0] == 0x78 {
        3
    } else {
        4
    }
}

/// Whether the message is a login that carries its eight identifier bytes.
pub open spec fn gt06_is_login(s: Seq<u8>) -> bool {
    &&& s.len() >= 5
    &&& (s[0] == 0x78 || (s[0] == 0x79 && s.len() >= 6))
    &&& s[gt06_header_size(s)] == MSG_LOGIN
    &&& s.len() >= gt06_header_size(s) + 9
}

/// What the GT06 decoder answers to a frame, from a session with the device
/// identifier.
pub open spec fn gt06_decode_outcome(s: Seq<u8>, device_id: i64) -> DecodeOutcome {
    if s.len() < 5 {
        DecodeOutcome::Nothing
    } else if s[0] != 0x78 && s[0] != 0x79 {
        DecodeOutcome::Failed(ProtocolErrorModel::InvalidData(gt06_start_error(s[0])))
    } else if s[0] == 0x79 && s.len() < 6 {
        DecodeOutcome::Nothing
    } else {
        let hs = gt06_header_size(s);
        let t = s[hs];
        if t == MSG_LOGIN {
            if s.len() < hs + 9 {
                DecodeOutcome::Failed(ProtocolErrorModel::InsufficientData)
            } else {
                DecodeOutcome::Nothing
            }
        } else if is_gps_message_spec(t) || t == MSG_ALARM {
            gt06_location_outcome(s, hs, t, device_id)
        } else {
            DecodeOutcome::Nothing
        }
    }
}

pub struct Gt06Decoder;

impl Gt06Decoder {
    /// Decodes one frame. A login message identifies the device in the
    /// session; location and alarm messages give a position.
    pub fn decode(&self, buf: &BytesMut, session: &mut DeviceSession) -> (r: Result<
        Option<Vec<Position>>,
        ProtocolError,
    >)
        ensures
            decode_outcome(r) == gt06_decode_outcome(bytes_mut_view(*buf), old(session).device_id),
            gt06_is_login(bytes_mut_view(*buf)) ==> final(session).unique_id@ == gt06_imei(
                bytes_mut_view(*buf).subrange(
                    gt06_header_size(bytes_mut_view(*buf)) + 1,
                    gt06_header_size(bytes_mut_view(*buf)) + 9,
                ),
            ) && final(session).device_id == hash_device_id(default_str_hash(final(session).unique_id@)) && final(session).protocol == old(
                session,
            ).protocol,
            !gt06_is_login(bytes_mut_view(*buf)) ==> *final(session) == *old(session),
    {
        let s = bytes_mut_as_slice(buf);
        if s.len() < 5 {
            return Ok(None);
        }
        let first = s[0];
        let hs: usize = if first == 0x78 {
            3
        } else if first == 0x79 {
            if s.len() < 6 {
                return Ok(None);
            }
            4
        } else {
            let mut msg = string_from_str("Invalid GT06 start byte: 0x");
            push_hex_upper(&mut msg, first);
            return Err(ProtocolError::InvalidData(msg));
        };
        let t = s[hs];
        if t == MSG_LOGIN {
            self.decode_login(s, hs, session)
        } else if is_gps_message(t) || t == MSG_ALARM {
            self.decode_location(s, hs, t, session.device_id)
        } else {
            Ok(None)
        }
    }

    /// A login message: the session takes the IMEI and its device identifier.
    fn decode_login(&self, s: &[u8], hs: usize, session: &mut DeviceSession) -> (r: Result<
        Option<Vec<Position>>,
        ProtocolError,
    >)
        requires
            hs == 3 || hs == 4,
        ensures
            s@.len() < hs + 9 ==> r == Err::<Option<Vec<Position>>, ProtocolError>(
                ProtocolError::InsufficientData,
            ) && *final(session) == *old(session),
            s@.len() >= hs + 9 ==> r == Ok::<Option<Vec<Position>>, ProtocolError>(None)
                && final(session).unique_id@ == gt06_imei(
                s@.subrange(hs + 1, hs + 9),
            ) && final(session).device_id == hash_device_id(default_str_hash(final(session).unique_id@)) && final(session).protocol == old(
                session,
            ).protocol,
    {
        let ds = hs + 1;
        if s.len() < ds + 8 {
            return Err(ProtocolError::InsufficientData);
        }
        let id = copy_range(s, ds, ds + 8);
        let hex = hex_encode(id.as_slice());
        let digits = chars_of(hex.as_str());
        let trimmed = trim_start_chars(&digits, &TrimSet::Zeros);
        let imei = take_chars(&trimmed, 15);
        session.unique_id = string_from_chars(&imei);
        session.device_id = simple_device_id(session.unique_id.as_str());
        Ok(None)
    }

    /// A location message: the fix, then LBS and status data when the type
    /// carries them and the frame holds them.
    fn decode_location(&self, s: &[u8], hs: usize, t: u8, device_id: i64) -> (r: Result<
        Option<Vec<Position>>,
        ProtocolError,
    >)
        requires
            hs == 3 || hs == 4,
        ensures
            decode_outcome(r) == gt06_location_outcome(s@, hs as int, t, device_id),
    {
        if device_id == 0 {
            let m = string_from_str("Device not logged in");
            return Err(ProtocolError::UnknownDevice(m));
        }
        let p = hs + 1;
        if s.len() < p + 18 {
            return Err(ProtocolError::InsufficientData);
        }
        let pos = gt06_position_of(s, p, t, device_id);
        Ok(Some(single(pos)))
    }
}

fn gt06_fix_of(s: &[u8], p: usize, device_id: i64) -> (pos: Position)
    requires
        p + 18 <= s@.len(),
        p <= 5,
    ensures
        pos@ == gt06_fix(s@, p as int, device_id),
{
    let mut pos = Position::new(ProtocolKind::Gt06, device_id);
    let year = correct_year(s[p] as i32);
    pos.fix_time = make_time(
        year,
        s[p + 1] as u32,
        s[p + 2] as u32,
        s[p + 3] as u32,
        s[p + 4] as u32,
        s[p + 5] as u32,
    );
    let sats: u8 = s[p + 6] & 0x0F;
    pos.set(AttrKey::Satellites, AttrValue::Int(sats as i64));
    let lat_raw = read_be32(s, p + 7);
    let lon_raw = read_be32(s, p + 11);
    pos.speed = whole_quantity(s[p + 15] as i64);
    pos.speed_unit = SpeedUnit::Kph;
    let cs = read_be16(s, p + 16);
    pos.course = whole_quantity((cs & 0x03FF) as i64);
    pos.valid = (cs & 0x2000) != 0 && (cs & 0x1000) != 0;
    let south = (cs & 0x0400) != 0;
    let west = (cs & 0x0800) != 0;
    let lat: i64 = if south {
        -(lat_raw as i64)
    } else {
        lat_raw as i64
    };
    let lon: i64 = if west {
        -(lon_raw as i64)
    } else {
        lon_raw as i64
    };
    pos.latitude = Quantity::Scaled { value: lat, scale: 1_800_000 };
    pos.longitude = Quantity::Scaled { value: lon, scale: 1_800_000 };
    assert(pos@.attributes =~= gt06_fix(s@, p as int, device_id).attributes);
    pos
}

fn gt06_position_of(s: &[u8], p: usize, t: u8, device_id: i64) -> (pos: Position)
    requires
        p + 18 <= s@.len(),
        p <= 5,
    ensures
        pos@ == gt06_position(s@, p as int, t, device_id),
{
    let mut pos = gt06_fix_of(s, p, device_id);
    let ghost fix = pos@;
    let mut q = p + 18;
    if has_lbs(t) && q + 8 <= s.len() {
        let mcc = read_be16(s, q);
        let lac = read_be16(s, q + 3);
        let cell = read_be24(s, q + 5);
        pos.set(AttrKey::Mcc, AttrValue::Int(mcc as i64));
        pos.set(AttrKey::Mnc, AttrValue::Int(s[q + 2] as i64));
        pos.set(AttrKey::Lac, AttrValue::Int(lac as i64));
        pos.set(AttrKey::CellId, AttrValue::Int(cell as i64));
        assert(pos@.attributes =~= fix.attributes + gt06_lbs_attributes(s@, q as int));
        q = q + 8;
    }
    if has_status(t) && q + 1 <= s.len() {
        let info = s[q];
        pos.set(AttrKey::Status, AttrValue::Int(info as i64));
        pos.set(AttrKey::Ignition, AttrValue::Bool((info & 0x02) != 0));
        q = q + 1;
        if q + 2 <= s.len() {
            pos.set(AttrKey::Power, AttrValue::Number(whole_quantity(s[q] as i64)));
            pos.set(AttrKey::Rssi, AttrValue::Int(s[q + 1] as i64));
            q = q + 2;
        }
        if q < s.len() {
            match decode_alarm_byte(s[q]) {
                Some(a) => pos.add_alarm(a),
                None => {},
            }
        }
    }
    assert(pos@.attributes =~= gt06_position(s@, p as int, t, device_id).attributes);
    assert(pos@.alarms =~= gt06_position(s@, p as int, t, device_id).alarms);
    pos
}

// ─── Encoding ───────────────────────────────────────────────────────

/// A server command frame: start marker, length, type `0x80`, four zero
/// server-flag bytes, the content length and content, serial number 1, the
/// CRC-16/X-25 of the bytes from the length through the serial number, and
/// the end marker.
pub open spec fn gt06_command_packet(content: Seq<u8>) -> Seq<u8> {
    let body = seq![((content.len() + 10) % 256) as u8, MSG_COMMAND_0, 0u8, 0u8, 0u8, 0u8, (
    content.len() % 256) as u8] + content + seq![0x00u8, 0x01u8];
    let crc = crc16_x25_spec(body);
    seq![0x78u8, 0x78u8] + body + seq![(crc / 256) as u8, (crc % 256) as u8, 0x0Du8, 0x0Au8]
}

/// `Relay,1#` (cut the engine) or `Relay,0#` (resume it).
pub open spec fn relay_content(stop: bool) -> Seq<u8> {
    seq![0x52u8, 0x65u8, 0x6Cu8, 0x61u8, 0x79u8, 0x2Cu8, if stop {
        0x31u8
    } else {
        0x30u8
    }, 0x23u8]
}

/// What the GT06 encoder answers to a command.
pub open spec fn gt06_encode_outcome(c: Command) -> EncodeOutcome {
    let t = c.command_type@;
    if t == TYPE_ENGINE_STOP@ {
        EncodeOutcome::Bytes(gt06_command_packet(relay_content(true)))
    } else if t == TYPE_ENGINE_RESUME@ {
        EncodeOutcome::Bytes(gt06_command_packet(relay_content(false)))
    } else if t == TYPE_CUSTOM@ {
        match command_attribute(c.attributes@, KEY_DATA@) {
            Some(data) => EncodeOutcome::Bytes(gt06_command_packet(encode_utf8(data))),
            None => EncodeOutcome::Failed(ProtocolErrorModel::Encode("Missing data attribute"@)),
        }
    } else {
        EncodeOutcome::Failed(ProtocolErrorModel::UnsupportedCommand(t))
    }
}

pub struct Gt06Encoder;

impl Gt06Encoder {
    pub fn encode(&self, command: &Command, unique_id: &str) -> (r: Result<Bytes, ProtocolError>)
        ensures
            encode_outcome(r) == gt06_encode_outcome(*command),
    {
        let t = chars_of(command.command_type.as_str());
        if chars_eq_str(&t, TYPE_ENGINE_STOP) {
            let c: Vec<u8> = vec![0x52, 0x65, 0x6C, 0x61, 0x79, 0x2C, 0x31, 0x23];
            assert(c@ =~= relay_content(true));
            Ok(self.build_command_packet(c.as_slice()))
        } else if chars_eq_str(&t, TYPE_ENGINE_RESUME) {
            let c: Vec<u8> = vec![0x52, 0x65, 0x6C, 0x61, 0x79, 0x2C, 0x30, 0x23];
            assert(c@ =~= relay_content(false));
            Ok(self.build_command_packet(c.as_slice()))
        } else if chars_eq_str(&t, TYPE_CUSTOM) {
            match command.get_string(KEY_DATA) {
                Some(data) => Ok(self.build_command_packet(data.as_str().as_bytes())),
                None => Err(ProtocolError::Encode(string_from_str("Missing data attribute"))),
            }
        } else {
            Err(ProtocolError::UnsupportedCommand(string_from_str(command.command_type.as_str())))
        }
    }

    /// The command types this encoder accepts.
    pub fn supported_commands(&self) -> (r: Vec<&'static str>)
        ensures
            r@ == seq![TYPE_ENGINE_STOP, TYPE_ENGINE_RESUME, TYPE_CUSTOM],
    {
        let r = vec![TYPE_ENGINE_STOP, TYPE_ENGINE_RESUME, TYPE_CUSTOM];
        assert(r@ =~= seq![TYPE_ENGINE_STOP, TYPE_ENGINE_RESUME, TYPE_CUSTOM]);
        r
    }

    fn build_command_packet(&self, content: &[u8]) -> (b: Bytes)
        ensures
            bytes_view(b) == gt06_command_packet(content@),
    {
        let n = content.len();
        let m: usize = n % 256;
        let len_byte: u8 = if m < 246 {
            (m + 10) as u8
        } else {
            (m - 246) as u8
        };
        assert(len_byte == ((n as int + 10) % 256) as u8) by (nonlinear_arith)
            requires
                m == n as int % 256,
                len_byte == (if m < 246 {
                    m + 10
                } else {
                    m - 246
                }),
                n >= 0,
        ;
        let content_len_byte: u8 = (n % 256) as u8;
        let mut v: Vec<u8> = Vec::new();
        v.push(0x78);
        v.push(0x78);
        v.push(len_byte);
        v.push(MSG_COMMAND_0);
        v.push(0);
        v.push(0);
        v.push(0);
        v.push(0);
        v.push(content_len_byte);
        let mut i: usize = 0;
        while i < n
            invariant
                i <= n == content@.len(),
                v@ == seq![0x78u8, 0x78u8, len_byte, MSG_COMMAND_0, 0u8, 0u8, 0u8, 0u8, content_len_byte]
                    + content@.take(i as int),
            decreases n - i,
        {
            v.push(content[i]);
            i = i + 1;
            assert(v@ =~= seq![0x78u8, 0x78u8, len_byte, MSG_COMMAND_0, 0u8, 0u8, 0u8, 0u8, content_len_byte]
                + content@.take(i as int));
        }
        v.push(0x00);
        v.push(0x01);
        let body = copy_range(v.as_slice(), 2, v.len());
        let ghost body_spec = seq![len_byte, MSG_COMMAND_0, 0u8, 0u8, 0u8, 0u8, content_len_byte]
            + content@ + seq![0x00u8, 0x01u8];
        assert(content@.take(n as int) =~= content@);
        assert(body@ =~= body_spec);
        let crc = crc16_x25(body.as_slice());
        v.push((crc / 256) as u8);
        v.push((crc % 256) as u8);
        v.push(0x0D);
        v.push(0x0A);
        assert(v@ =~= gt06_command_packet(content@));
        bytes_from_vec(v)
    }
}

// ─── Registration ───────────────────────────────────────────────────

/// The GT06 protocol definition: TCP on port 5023, with the encoder's
/// command types.
pub fn register(registry: &mut ProtocolRegistry)
    ensures
        final(registry)@.contains_key(PROTOCOL_NAME@),
        final(registry)@[PROTOCOL_NAME@].name == PROTOCOL_NAME@,
        final(registry)@[PROTOCOL_NAME@].transport == Transport::Tcp,
        final(registry)@[PROTOCOL_NAME@].default_port == DEFAULT_PORT,
        final(registry)@[PROTOCOL_NAME@].kind == ProtocolKind::Gt06,
        final(registry)@[PROTOCOL_NAME@].supported_commands == seq![
            TYPE_ENGINE_STOP@,
            TYPE_ENGINE_RESUME@,
            TYPE_CUSTOM@,
        ],
        forall|k: Seq<char>| k != PROTOCOL_NAME@ ==> #[trigger] final(registry)@.contains_key(k)
            == old(registry)@.contains_key(k) && final(registry)@[k] == old(registry)@[k],
{
    let encoder = Gt06Encoder;
    let names = encoder.supported_commands();
    let supported = command_names(&names);
    let def = ProtocolDefinition {
        name: string_from_str(PROTOCOL_NAME),
        transport: Transport::Tcp,
        default_port: DEFAULT_PORT,
        kind: ProtocolKind::Gt06,
        supported_commands: supported,
    };
    assert(def@.supported_commands =~= seq![
        TYPE_ENGINE_STOP@,
        TYPE_ENGINE_RESUME@,
        TYPE_CUSTOM@,
    ]);
    registry.register(def);
}

} // verus!

verus! {

/// A command packet that the encoder builds, with at most 245 content
/// bytes, is one whole frame to the GT06 framer, whatever follows it.
pub proof fn lemma_command_packet_framed(content: Seq<u8>, rest: Seq<u8>)
    requires
        content.len() <= 245,
    ensures
        gt06_frame_decision(gt06_command_packet(content) + rest) == FrameDecision::Frame(
            (content.len() + 15) as usize,
        ),
{
    let c: int = content.len() as int;
    let body = seq![((c + 10) % 256) as u8, MSG_COMMAND_0, 0u8, 0u8, 0u8, 0u8, (c % 256) as u8]
        + content + seq![0x00u8, 0x01u8];
    let crc = crc16_x25_spec(body);
    let tail = seq![(crc / 256) as u8, (crc % 256) as u8, 0x0Du8, 0x0Au8];
    let p = seq![0x78u8, 0x78u8] + body + tail;
    assert(p == gt06_command_packet(content));
    assert(body.len() == c + 9);
    assert(p.len() == c + 15);
    let s = p + rest;
    assert(s[0] == p[0]);
    assert(s[2] == body[0]);
    assert(s[2] == c + 10);
    assert(s[c + 13] == p[c + 13]);
    assert(p[c + 13] == tail[2]);
    assert(s[c + 14] == p[c + 14]);
    assert(p[c + 14] == tail[3]);
}

} // verus!

verus! {

/// A location (or alarm) message, from a logged-in session, with the fix
/// complete, gives one position of that device: valid when the course word
/// has both its real-time and positioned bits, the course in its low ten
/// bits, latitude and longitude in 1/30000 minute, south and west (bits 10
/// and 11) negative, and the speed byte in km/h.
pub proof fn lemma_location_fields(s: Seq<u8>, device_id: i64)
    requires
        s.len() >= 5,
        s[0] == 0x78 || (s[0] == 0x79 && s.len() >= 6),
        is_gps_message_spec(s[gt06_header_size(s)]) || s[gt06_header_size(s)] == MSG_ALARM,
        s.len() >= gt06_header_size(s) + 19,
        device_id != 0,
    ensures
        ({
            let p = gt06_header_size(s) + 1;
            let cs = be16(s, p + 16) as u16;
            &&& gt06_decode_outcome(s, device_id) matches DecodeOutcome::Positions(ps)
            &&& ps.len() == 1
            &&& ps[0].device_id == device_id
            &&& ps[0].protocol == ProtocolKind::Gt06
            &&& ps[0].valid == (cs & 0x2000 != 0 && cs & 0x1000 != 0)
            &&& ps[0].course == whole((cs & 0x03FF) as int)
            &&& ps[0].latitude == gt06_coordinate(be32(s, p + 7), cs & 0x0400 != 0)
            &&& ps[0].longitude == gt06_coordinate(be32(s, p + 11), cs & 0x0800 != 0)
            &&& ps[0].speed == whole(s[p + 15] as int)
            &&& ps[0].speed_unit == SpeedUnit::Kph
        }),
{
    assert(s[gt06_header_size(s)] != MSG_LOGIN);
}

/// The GT06 encoder accepts exactly its supported commands: engine stop and
/// resume always, a custom command when it has a `data` attribute; any
/// other command type is refused as unsupported.
pub proof fn lemma_encode_supported(c: Command)
    ensures
        gt06_encode_outcome(c) is Bytes ==> (c.command_type@ == TYPE_ENGINE_STOP@
            || c.command_type@ == TYPE_ENGINE_RESUME@ || c.command_type@ == TYPE_CUSTOM@),
        !(c.command_type@ == TYPE_ENGINE_STOP@ || c.command_type@ == TYPE_ENGINE_RESUME@
            || c.command_type@ == TYPE_CUSTOM@) ==> gt06_encode_outcome(c)
            == EncodeOutcome::Failed(ProtocolErrorModel::UnsupportedCommand(c.command_type@)),
{
}

/// The layout of a command packet with at most 245 content bytes: start
/// marker, length (content + 10), command type 0x80, four zero bytes, the
/// content's length and the content, serial number 1, the CRC-16/X-25 of
/// the bytes from the length field through the serial number (high byte
/// first), and CR LF.
pub proof fn lemma_command_packet_layout(content: Seq<u8>)
    requires
        content.len() <= 245,
    ensures
        ({
            let b = gt06_command_packet(content);
            let n = content.len() as int;
            let crc = crc16_x25_spec(b.subrange(2, n + 11));
            &&& b.len() == n + 15
            &&& b[0] == 0x78 && b[1] == 0x78
            &&& b[2] == n + 10
            &&& b[3] == MSG_COMMAND_0
            &&& b[4] == 0 && b[5] == 0 && b[6] == 0 && b[7] == 0
            &&& b[8] == n
            &&& b.subrange(9, 9 + n) == content
            &&& b[n + 9] == 0 && b[n + 10] == 1
            &&& b[n + 11] == crc / 256 && b[n + 12] == crc % 256
            &&& b[n + 13] == 0x0D && b[n + 14] == 0x0A
        }),
{
    let n: int = content.len() as int;
    let body = seq![((n + 10) % 256) as u8, MSG_COMMAND_0, 0u8, 0u8, 0u8, 0u8, (n % 256) as u8]
        + content + seq![0x00u8, 0x01u8];
    let crc = crc16_x25_spec(body);
    let tail = seq![(crc / 256) as u8, (crc % 256) as u8, 0x0Du8, 0x0Au8];
    let b = seq![0x78u8, 0x78u8] + body + tail;
    assert(b == gt06_command_packet(content));
    assert(b.subrange(2, n + 11) =~= body);
    assert(b.subrange(9, 9 + n) =~= content);
    assert(b[n + 9] == body[n + 7]);
    assert(b[n + 10] == body[n + 8]);
    assert(b[n + 11] == tail[0]);
    assert(b[n + 12] == tail[1]);
    assert(b[n + 13] == tail[2]);
    assert(b[n + 14] == tail[3]);
}

} // verus!

verus! {

/// The satellite count of a GT06 fix is the low four bits of its GPS-info
/// byte (the high four bits are the length of the GPS data); it is the
/// position's first attribute.
pub proof fn lemma_location_satellites(s: Seq<u8>, device_id: i64)
    requires
        s.len() >= 5,
        s[0] == 0x78 || (s[0] == 0x79 && s.len() >= 6),
        is_gps_message_spec(s[gt06_header_size(s)]) || s[gt06_header_size(s)] == MSG_ALARM,
        s.len() >= gt06_header_size(s) + 19,
        device_id != 0,
    ensures
        ({
            let info = s[gt06_header_size(s) + 7];
            &&& gt06_decode_outcome(s, device_id) matches DecodeOutcome::Positions(ps)
            &&& ps.len() == 1
            &&& ps[0].attributes.len() >= 1
            &&& ps[0].attributes[0] == attr(
                AttrKeyModel::Satellites,
                AttrValueModel::Int((info as int % 16) as i64),
            )
            &&& 0 <= info as int % 16 <= 15
        }),
{
    let info = s[gt06_header_size(s) + 7];
    assert(info & 0x0F == info % 16) by (bit_vector);
    assert(s[gt06_header_size(s)] != MSG_LOGIN);
    let p = gt06_header_size(s) + 1;
    let t = s[gt06_header_size(s)];
    let pos = gt06_position(s, p, t, device_id);
    let fix = gt06_fix(s, p, device_id);
    assert(fix.attributes[0] == attr(AttrKeyModel::Satellites, AttrValueModel::Int((info & 0x0F) as i64)));
    if has_lbs_spec(t) && p + 18 + 8 <= s.len() {
        assert((fix.attributes + gt06_lbs_attributes(s, p + 18))[0] == fix.attributes[0]);
    }
    let q1: int = if has_lbs_spec(t) && p + 18 + 8 <= s.len() { p + 26 } else { p + 18 };
    let a1 = if has_lbs_spec(t) && p + 18 + 8 <= s.len() {
        fix.attributes + gt06_lbs_attributes(s, p + 18)
    } else {
        fix.attributes
    };
    assert(a1[0] == fix.attributes[0]);
    if has_status_spec(t) && q1 + 1 <= s.len() {
        let info2 = s[q1];
        let a2 = a1 + seq![
            attr(AttrKeyModel::Status, AttrValueModel::Int(info2 as i64)),
            attr(AttrKeyModel::Ignition, AttrValueModel::Bool(info2 & 0x02 != 0)),
        ];
        assert(a2[0] == a1[0]);
        if q1 + 3 <= s.len() {
            let a3 = a2 + seq![
                attr(AttrKeyModel::Power, AttrValueModel::Number(whole(s[q1 + 1] as int))),
                attr(AttrKeyModel::Rssi, AttrValueModel::Int(s[q1 + 2] as i64)),
            ];
            assert(a3[0] == a2[0]);
        }
    }
}

} // verus!
