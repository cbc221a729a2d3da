//! Teltonika: binary AVL records (codec 8 and 8 extended), after an IMEI
//! login packet.

use bytes::{Bytes, BytesMut};
use vstd::prelude::*;

use crate::buffer::{bytes_mut_as_slice, bytes_mut_view};
use crate::helper::{be16, be32, copy_range, read_be16, read_be32};
use crate::model::{
    attr, decode_outcome, encode_outcome, new_position, whole, whole_quantity, AttrKey,
    AttrKeyModel, AttrValue, AttrValueModel, Command, DecodeOutcome, DeviceSession,
    EncodeOutcome, Position, PositionModel, ProtocolError, ProtocolErrorModel, ProtocolKind,
    Quantity, QuantityModel, SpeedUnit, positions_view,
};
use crate::registry::{ProtocolDefinition, ProtocolDefinitionModel, ProtocolRegistry, Transport};
use crate::text::{from_utf8_lossy, string_from_str, utf8_lossy};

verus! {

pub const PROTOCOL_NAME: &'static str = "teltonika";

pub const DEFAULT_PORT: u16 = 5027;

pub open spec fn be64(s: Seq<u8>, i: int) -> int {
    be32(s, i) * 4294967296 + be32(s, i + 4)
}

/// A two's complement reading of an unsigned value of `bits` bits.
pub open spec fn signed(v: int, bits: nat) -> int {
    if v >= vstd::arithmetic::power2::pow2((bits - 1) as nat) {
        v - vstd::arithmetic::power2::pow2(bits)
    } else {
        v
    }
}

/// The position of the 24-byte AVL record at `q`: timestamp (ms), priority,
/// longitude and latitude (1e-7 degrees), altitude, course, satellites,
/// speed (km/h); valid with at least one satellite.
pub open spec fn avl_position(s: Seq<u8>, q: int, device_id: i64) -> PositionModel {
    let sats = s[q + 21];
    PositionModel {
        fix_time: Some((if be64(s, q) >= 0x8000_0000_0000_0000 {
            be64(s, q) - 0x1_0000_0000_0000_0000
        } else {
            be64(s, q)
        }) as i64),
        longitude: QuantityModel::Scaled {
            value: (if be32(s, q + 9) >= 0x8000_0000 {
                be32(s, q + 9) - 0x1_0000_0000
            } else {
                be32(s, q + 9)
            }) as i64,
            scale: 10_000_000,
        },
        latitude: QuantityModel::Scaled {
            value: (if be32(s, q + 13) >= 0x8000_0000 {
                be32(s, q + 13) - 0x1_0000_0000
            } else {
                be32(s, q + 13)
            }) as i64,
            scale: 10_000_000,
        },
        altitude: whole(
            if be16(s, q + 17) >= 0x8000 {
                be16(s, q + 17) - 0x1_0000
            } else {
                be16(s, q + 17)
            },
        ),
        course: whole(be16(s, q + 19)),
        attributes: seq![attr(AttrKeyModel::Satellites, AttrValueModel::Int(sats as i64))],
        speed: whole(be16(s, q + 22)),
        speed_unit: SpeedUnit::Kph,
        valid: sats > 0,
        ..new_position(ProtocolKind::Teltonika, device_id)
    }
}

/// An unsigned field of `w` (1 or 2) bytes.
pub open spec fn field(s: Seq<u8>, q: int, w: int) -> int {
    if w == 2 {
        be16(s, q)
    } else {
        s[q] as int
    }
}

/// The end of an IO group at `q`: a count of `w` bytes, then that many
/// elements of a `w`-byte identifier and a `size`-byte value; none when the
/// buffer ends first.
pub open spec fn io_group_end(s: Seq<u8>, q: int, w: int, size: int) -> Option<int> {
    if q + w > s.len() {
        None
    } else if q + w + field(s, q, w) * (w + size) > s.len() {
        None
    } else {
        Some(q + w + field(s, q, w) * (w + size))
    }
}

/// The end of a record's IO data at `q`: for codec 8 (one-byte fields) and
/// 0x8E (two-byte fields), the event identifier, the total count and the
/// groups of 1-, 2-, 4- and 8-byte values; for other codecs nothing.
pub open spec fn io_end(s: Seq<u8>, q: int, codec: u8) -> Option<int> {
    if codec != 8 && codec != 0x8E {
        Some(q)
    } else {
        let w: int = if codec == 0x8E {
            2
        } else {
            1
        };
        if q + 2 * w > s.len() {
            None
        } else {
            match io_group_end(s, q + 2 * w, w, 1) {
                None => None,
                Some(a) => match io_group_end(s, a, w, 2) {
                    None => None,
                    Some(b) => match io_group_end(s, b, w, 4) {
                        None => None,
                        Some(c) => io_group_end(s, c, w, 8),
                    },
                },
            }
        }
    }
}

/// Up to `k` records from `q`, stopping early when fewer than 24 bytes
/// remain; none when IO data runs past the end of the buffer (where the
/// decoder panics).
pub open spec fn avl_records(s: Seq<u8>, q: int, codec: u8, k: nat, device_id: i64) -> Option<
    Seq<PositionModel>,
>
    decreases k,
{
    if k == 0 || s.len() - q < 24 {
        Some(Seq::empty())
    } else {
        match io_end(s, q + 24, codec) {
            None => None,
            Some(next) => match avl_records(s, next, codec, (k - 1) as nat, device_id) {
                Some(rest) => Some(seq![avl_position(s, q, device_id)] + rest),
                None => None,
            },
        }
    }
}

/// Whether the packet is an IMEI login: a length from 1 to 19 first.
pub open spec fn is_imei_packet(s: Seq<u8>) -> bool {
    s.len() >= 4 && 0 < be16(s, 0) < 20
}

/// What the Teltonika decoder answers; none where it panics (a data packet
/// too short for its length field, or IO data past the end).
pub open spec fn teltonika_outcome(s: Seq<u8>, device_id: i64) -> Option<DecodeOutcome> {
    if s.len() < 4 || is_imei_packet(s) {
        Some(DecodeOutcome::Nothing)
    } else if be32(s, 0) != 0 {
        Some(DecodeOutcome::Failed(ProtocolErrorModel::InvalidData("Invalid Teltonika preamble"@)))
    } else if s.len() < 8 {
        None
    } else if s.len() - 8 < be32(s, 4) + 4 {
        Some(DecodeOutcome::Nothing)
    } else {
        match avl_records(s, 10, s[8], s[9] as nat, device_id) {
            None => None,
            Some(ps) => if ps.len() == 0 {
                Some(DecodeOutcome::Nothing)
            } else {
                Some(DecodeOutcome::Positions(ps))
            },
        }
    }
}

/// The IMEI of a login packet, when the packet holds all of it.
pub open spec fn teltonika_imei(s: Seq<u8>) -> Option<Seq<char>> {
    if is_imei_packet(s) && s.len() - 2 >= be16(s, 0) {
        Some(utf8_lossy(s.subrange(2, 2 + be16(s, 0))))
    } else {
        None
    }
}

fn read_field(s: &[u8], q: usize, w: usize) -> (v: usize)
    requires
        w == 1 || w == 2,
        q + w <= s@.len(),
    ensures
        v as int == field(s@, q as int, w as int),
{
    if w == 2 {
        read_be16(s, q) as usize
    } else {
        s[q] as usize
    }
}

fn io_group_end_of(s: &[u8], q: usize, w: usize, size: usize) -> (r: Option<usize>)
    requires
        w == 1 || w == 2,
        size <= 8,
        q <= s@.len(),
    ensures
        match r {
            Some(e) => io_group_end(s@, q as int, w as int, size as int) == Some(e as int),
            None => io_group_end(s@, q as int, w as int, size as int) is None,
        },
{
    if w > s.len() - q {
        return None;
    }
    let n = read_field(s, q, w);
    let per: usize = w + size;
    assert(n <= 65535);
    assert(n * per <= 65535 * 10) by (nonlinear_arith)
        requires
            n <= 65535,
            per <= 10,
    ;
    let total: usize = n * per;
    if total > s.len() - q - w {
        None
    } else {
        Some(q + w + total)
    }
}

fn io_end_of(s: &[u8], q: usize, codec: u8) -> (r: Option<usize>)
    requires
        q <= s@.len(),
    ensures
        match r {
            Some(e) => io_end(s@, q as int, codec) == Some(e as int) && q <= e <= s@.len(),
            None => io_end(s@, q as int, codec) is None,
        },
{
    if codec != 8 && codec != 0x8E {
        return Some(q);
    }
    let w: usize = if codec == 0x8E {
        2
    } else {
        1
    };
    if 2 * w > s.len() - q {
        return None;
    }
    let a = match io_group_end_of(s, q + 2 * w, w, 1) {
        Some(a) => a,
        None => return None,
    };
    let b = match io_group_end_of(s, a, w, 2) {
        Some(b) => b,
        None => return None,
    };
    let c = match io_group_end_of(s, b, w, 4) {
        Some(c) => c,
        None => return None,
    };
    io_group_end_of(s, c, w, 8)
}

fn avl_position_of(s: &[u8], q: usize, device_id: i64) -> (p: Position)
    requires
        q + 24 <= s@.len(),
    ensures
        p@ == avl_position(s@, q as int, device_id),
{
    let len = s.len();
    let mut p = Position::new(ProtocolKind::Teltonika, device_id);
    let hi = read_be32(s, q);
    let lo = read_be32(s, q + 4);
    let ts: u64 = (hi as u64) * 4294967296 + (lo as u64);
    let tsi: i64 = if ts >= 0x8000_0000_0000_0000 {
        (ts - 0x8000_0000_0000_0000) as i64 - 0x4000_0000_0000_0000 - 0x4000_0000_0000_0000
    } else {
        ts as i64
    };
    p.fix_time = Some(tsi);
    let lon_u = read_be32(s, q + 9);
    let lon: i64 = if lon_u >= 0x8000_0000 {
        (lon_u as i64) - 0x1_0000_0000
    } else {
        lon_u as i64
    };
    let lat_u = read_be32(s, q + 13);
    let lat: i64 = if lat_u >= 0x8000_0000 {
        (lat_u as i64) - 0x1_0000_0000
    } else {
        lat_u as i64
    };
    p.longitude = Quantity::Scaled { value: lon, scale: 10_000_000 };
    p.latitude = Quantity::Scaled { value: lat, scale: 10_000_000 };
    let alt_u = read_be16(s, q + 17);
    let alt: i64 = if alt_u >= 0x8000 {
        (alt_u as i64) - 0x1_0000
    } else {
        alt_u as i64
    };
    p.altitude = whole_quantity(alt);
    p.course = whole_quantity(read_be16(s, q + 19) as i64);
    let sats = s[q + 21];
    p.set(AttrKey::Satellites, AttrValue::Int(sats as i64));
    p.speed = whole_quantity(read_be16(s, q + 22) as i64);
    p.speed_unit = SpeedUnit::Kph;
    p.valid = sats > 0;
    assert(p@.attributes =~= avl_position(s@, q as int, device_id).attributes);
    p
}

/// Whether the Teltonika decoder runs to an answer on the bytes.
pub fn teltonika_decodable_of(s: &[u8], device_id: i64) -> (r: bool)
    ensures
        r == teltonika_outcome(s@, device_id) is Some,
{
    if s.len() < 4 {
        return true;
    }
    let first_two = read_be16(s, 0);
    if first_two > 0 && first_two < 20 {
        return true;
    }
    if read_be32(s, 0) != 0 {
        return true;
    }
    if s.len() < 8 {
        return false;
    }
    let data_length = read_be32(s, 4) as u64;
    if ((s.len() - 8) as u64) < data_length + 4 {
        return true;
    }
    let codec = s[8];
    let count = s[9];
    let mut q: usize = 10;
    let mut k: u8 = 0;
    while k < count
        invariant
            10 <= q <= s@.len(),
            k <= count,
            (teltonika_outcome(s@, device_id) is Some) == (avl_records(s@, 10, codec, count as nat, device_id) is Some),
            avl_records(s@, 10, codec, count as nat, device_id) is Some <==> avl_records(
                s@,
                q as int,
                codec,
                (count - k) as nat,
                device_id,
            ) is Some,
        decreases count - k,
    {
        if s.len() - q < 24 {
            return true;
        }
        match io_end_of(s, q + 24, codec) {
            Some(e) => {
                q = e;
            },
            None => {
                return false;
            },
        }
        k = k + 1;
    }
    true
}

pub struct TeltonikaDecoder;

impl TeltonikaDecoder {
    /// Decodes one packet: an IMEI login names the device in the session; a
    /// data packet gives its AVL records.
    pub fn decode(&self, buf: &BytesMut, session: &mut DeviceSession) -> (r: Result<
        Option<Vec<Position>>,
        ProtocolError,
    >)
        requires
            teltonika_outcome(bytes_mut_view(*buf), old(session).device_id) is Some,
        ensures
            Some(decode_outcome(r)) == teltonika_outcome(
                bytes_mut_view(*buf),
                old(session).device_id,
            ),
            teltonika_imei(bytes_mut_view(*buf)) is Some ==> final(session).unique_id@ == teltonika_imei(bytes_mut_view(*buf)).unwrap(),
            teltonika_imei(bytes_mut_view(*buf)) is Some ==> final(session).device_id == old(session).device_id,
            teltonika_imei(bytes_mut_view(*buf)) is Some ==> final(session).protocol == old(session).protocol,
            teltonika_imei(bytes_mut_view(*buf)) is None ==> *final(session) == *old(session),
    {
        let s = bytes_mut_as_slice(buf);
        if s.len() < 4 {
            return Ok(None);
        }
        let first_two = read_be16(s, 0);
        if first_two > 0 && first_two < 20 {
            let n = first_two as usize;
            if s.len() - 2 < n {
                return Ok(None);
            }
            let id = copy_range(s, 2, 2 + n);
            session.unique_id = from_utf8_lossy(id.as_slice());
            return Ok(None);
        }
        let preamble = read_be32(s, 0);
        if preamble != 0 {
            return Err(ProtocolError::InvalidData(string_from_str("Invalid Teltonika preamble")));
        }
        let data_length = read_be32(s, 4) as u64;
        if ((s.len() - 8) as u64) < data_length + 4 {
            return Ok(None);
        }
        let codec = s[8];
        let count = s[9];
        let ghost dev = session.device_id;
        let mut positions: Vec<Position> = Vec::new();
        let mut q: usize = 10;
        let mut k: u8 = 0;
        while k < count
            invariant
                10 <= q <= s@.len(),
                k <= count,
                dev == session.device_id,
                avl_records(s@, 10, codec, count as nat, dev) == match avl_records(
                    s@,
                    q as int,
                    codec,
                    (count - k) as nat,
                    dev,
                ) {
                    Some(rest) => Some(positions_view(positions@) + rest),
                    None => None,
                },
                avl_records(s@, 10, codec, count as nat, dev) is Some,
            ensures
                10 <= q <= s@.len(),
                k <= count,
                k == count || s@.len() - q < 24,
                avl_records(s@, 10, codec, count as nat, dev) == match avl_records(
                    s@,
                    q as int,
                    codec,
                    (count - k) as nat,
                    dev,
                ) {
                    Some(rest) => Some(positions_view(positions@) + rest),
                    None => None,
                },
            decreases count - k,
        {
            if s.len() - q < 24 {
                break;
            }
            let p = avl_position_of(s, q, session.device_id);
            let next = match io_end_of(s, q + 24, codec) {
                Some(e) => e,
                None => {
                    return Ok(None);
                },
            };
            let ghost before = positions_view(positions@);
            positions.push(p);
            assert(positions_view(positions@) =~= before.push(p@));
            proof {
                let rest = avl_records(s@, next as int, codec, (count - k - 1) as nat, dev);
                if let Some(r) = rest {
                    assert(before + (seq![p@] + r) =~= before.push(p@) + r);
                }
            }
            q = next;
            k = k + 1;
        }
        assert(avl_records(s@, q as int, codec, (count - k) as nat, dev) == Some(
            Seq::<PositionModel>::empty(),
        ));
        assert(positions_view(positions@) + Seq::<PositionModel>::empty() =~= positions_view(
            positions@,
        ));
        if positions.len() == 0 {
            Ok(None)
        } else {
            Ok(Some(positions))
        }
    }
}

impl TeltonikaDecoder {
    /// Decodes one packet where the decoder runs to an answer; answers none,
    /// leaving the session as it was, where it would panic.
    pub fn decode_checked(&self, buf: &BytesMut, session: &mut DeviceSession) -> (r: Option<
        Result<Option<Vec<Position>>, ProtocolError>,
    >)
        ensures
            r is None <==> teltonika_outcome(bytes_mut_view(*buf), old(session).device_id) is None,
            r is None ==> *final(session) == *old(session),
            r matches Some(x) ==> Some(decode_outcome(x)) == teltonika_outcome(
                bytes_mut_view(*buf),
                old(session).device_id,
            ),
    {
        if teltonika_decodable_of(bytes_mut_as_slice(buf), session.device_id) {
            Some(self.decode(buf, session))
        } else {
            None
        }
    }
}

pub struct TeltonikaEncoder;

impl TeltonikaEncoder {
    /// Commands for Teltonika devices are not supported: every one is
    /// refused.
    pub fn encode(&self, command: &Command, unique_id: &str) -> (r: Result<Bytes, ProtocolError>)
        ensures
            encode_outcome(r) == EncodeOutcome::Failed(
                ProtocolErrorModel::UnsupportedCommand("Teltonika commands not yet implemented"@),
            ),
    {
        Err(ProtocolError::UnsupportedCommand(string_from_str("Teltonika commands not yet implemented")))
    }
}

/// The Teltonika protocol definition: TCP on port 5027, no commands.
pub fn register(registry: &mut ProtocolRegistry)
    ensures
        final(registry)@ == old(registry)@.insert(
            PROTOCOL_NAME@,
            ProtocolDefinitionModel {
                name: PROTOCOL_NAME@,
                transport: Transport::Tcp,
                default_port: DEFAULT_PORT,
                kind: ProtocolKind::Teltonika,
                supported_commands: Seq::empty(),
            },
        ),
{
    let def = ProtocolDefinition {
        name: string_from_str(PROTOCOL_NAME),
        transport: Transport::Tcp,
        default_port: DEFAULT_PORT,
        kind: ProtocolKind::Teltonika,
        supported_commands: Vec::new(),
    };
    assert(def@.supported_commands =~= Seq::<Seq<char>>::empty());
    registry.register(def);
}

} // verus!

verus! {

/// The IO block of a record with no IO elements, after its event id and
/// total count: codec 8 has four one-byte group counts (six bytes in all),
/// codec 0x8E four two-byte counts (twelve bytes in all).
pub proof fn lemma_io_empty(s: Seq<u8>, q: int, codec: u8)
    requires
        0 <= q,
        codec == 8 || codec == 0x8E,
        codec == 8 ==> q + 6 <= s.len() && forall|j: int| q + 2 <= j < q + 6 ==> s[j] == 0,
        codec == 0x8E ==> q + 12 <= s.len() && forall|j: int| q + 4 <= j < q + 12 ==> s[j] == 0,
    ensures
        codec == 8 ==> io_end(s, q, codec) == Some(q + 6),
        codec == 0x8E ==> io_end(s, q, codec) == Some(q + 12),
{
    if codec == 0x8E {
        assert(s[q + 4] == 0 && s[q + 5] == 0 && s[q + 6] == 0 && s[q + 7] == 0);
        assert(s[q + 8] == 0 && s[q + 9] == 0 && s[q + 10] == 0 && s[q + 11] == 0);
        assert(field(s, q + 4, 2) == 0);
        assert(io_group_end(s, q + 4, 2, 1) == Some(q + 6));
        assert(field(s, q + 6, 2) == 0);
        assert(io_group_end(s, q + 6, 2, 2) == Some(q + 8));
        assert(field(s, q + 8, 2) == 0);
        assert(io_group_end(s, q + 8, 2, 4) == Some(q + 10));
        assert(field(s, q + 10, 2) == 0);
        assert(io_group_end(s, q + 10, 2, 8) == Some(q + 12));
    } else {
        assert(s[q + 2] == 0 && s[q + 3] == 0 && s[q + 4] == 0 && s[q + 5] == 0);
    }
}

/// The `i`th 36-byte record from `q` has all four of its two-byte IO group
/// counts zero.
pub open spec fn record_io_empty(s: Seq<u8>, q: int, i: int) -> bool {
    forall|j: int| q + 36 * i + 28 <= j < q + 36 * i + 36 ==> s[j] == 0
}

/// Records of codec 0x8E with no IO elements are 36 bytes each (24 of data,
/// 12 of IO block): `k` of them from `q` give the records at `q`, `q + 36`,
/// and so on.
pub proof fn lemma_records_empty_io(s: Seq<u8>, q: int, k: nat, device_id: i64)
    requires
        0 <= q,
        q + 36 * k <= s.len(),
        forall|i: int| 0 <= i < k ==> #[trigger] record_io_empty(s, q, i),
    ensures
        avl_records(s, q, 0x8E, k, device_id) == Some(
            Seq::new(k, |i: int| avl_position(s, q + 36 * i, device_id)),
        ),
    decreases k,
{
    if k > 0 {
        assert(record_io_empty(s, q, 0));
        lemma_io_empty(s, q + 24, 0x8E);
        assert forall|i: int| 0 <= i < k - 1 implies #[trigger] record_io_empty(s, q + 36, i) by {
            assert(record_io_empty(s, q, i + 1));
        }
        lemma_records_empty_io(s, q + 36, (k - 1) as nat, device_id);
        assert(seq![avl_position(s, q, device_id)] + Seq::new(
            (k - 1) as nat,
            |i: int| avl_position(s, q + 36 + 36 * i, device_id),
        ) =~= Seq::new(k, |i: int| avl_position(s, q + 36 * i, device_id)));
    }
}

/// A codec 0x8E data packet whose `k` records (k from its count byte, at
/// least one) carry no IO elements decodes to exactly those records, read at
/// offsets 10, 46, 82, and so on.
pub proof fn lemma_codec8e_packet(s: Seq<u8>, device_id: i64)
    requires
        s.len() >= 12,
        s[0] == 0 && s[1] == 0 && s[2] == 0 && s[3] == 0,
        s.len() - 8 >= be32(s, 4) + 4,
        s[8] == 0x8E,
        s[9] >= 1,
        10 + 36 * s[9] <= s.len(),
        forall|i: int| 0 <= i < s[9] ==> #[trigger] record_io_empty(s, 10, i),
    ensures
        teltonika_outcome(s, device_id) == Some(
            DecodeOutcome::Positions(
                Seq::new(s[9] as nat, |i: int| avl_position(s, 10 + 36 * i, device_id)),
            ),
        ),
{
    lemma_records_empty_io(s, 10, s[9] as nat, device_id);
}

} // verus!
