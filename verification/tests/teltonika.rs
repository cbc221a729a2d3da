use bytes::{BufMut, BytesMut};
use traccar::framing::{frame_decoder_for, FrameDecoder};
use traccar::model::{AttrKey, AttrValue, Command, DeviceSession, ProtocolError, ProtocolKind, Quantity, SpeedUnit};
use traccar::teltonika::{register, teltonika_decodable_of, TeltonikaDecoder, TeltonikaEncoder};
use traccar::registry::ProtocolRegistry;

fn record(buf: &mut BytesMut, ts: u64, lon: i32, lat: i32, sats: u8, speed: u16) {
    buf.put_u64(ts);
    buf.put_u8(1);
    buf.put_i32(lon);
    buf.put_i32(lat);
    buf.put_i16(-12);
    buf.put_u16(90);
    buf.put_u8(sats);
    buf.put_u16(speed);
}

fn codec8_packet() -> BytesMut {
    let mut data = BytesMut::new();
    data.put_u8(8);
    data.put_u8(2);
    record(&mut data, 1710498645000, 254_000_000, 547_000_000, 7, 40);
    data.put_u8(0);
    data.put_u8(1);
    data.put_u8(1);
    data.put_u8(21);
    data.put_u8(3);
    data.put_u8(0);
    data.put_u8(0);
    data.put_u8(0);
    record(&mut data, 1710498650000, -1_000_000, -2_000_000, 0, 0);
    data.put_u8(0);
    data.put_u8(0);
    data.put_u8(0);
    data.put_u8(0);
    data.put_u8(0);
    data.put_u8(0);
    data.put_u8(2);
    let mut buf = BytesMut::new();
    buf.put_u32(0);
    buf.put_u32(data.len() as u32);
    buf.put_slice(&data);
    buf.put_u32(0);
    buf
}

#[test]
fn teltonika_login_sets_imei() {
    let decoder = TeltonikaDecoder;
    let mut session = DeviceSession::unauthenticated(ProtocolKind::Teltonika);
    let mut buf = BytesMut::new();
    buf.put_u16(15);
    buf.put_slice(b"356307042441013");
    assert_eq!(decoder.decode(&buf, &mut session), Ok(None));
    assert_eq!(session.unique_id, "356307042441013");
}

#[test]
fn teltonika_records() {
    let decoder = TeltonikaDecoder;
    let mut session = DeviceSession::new(9, "x".to_string(), ProtocolKind::Teltonika);
    let buf = codec8_packet();
    assert!(teltonika_decodable_of(&buf[..], 9));
    let positions = decoder.decode(&buf, &mut session).unwrap().unwrap();
    assert_eq!(positions.len(), 2);
    let p = &positions[0];
    assert_eq!(p.device_id, 9);
    assert_eq!(p.fix_time, Some(1710498645000));
    assert_eq!(p.longitude, Quantity::Scaled { value: 254_000_000, scale: 10_000_000 });
    assert_eq!(p.latitude, Quantity::Scaled { value: 547_000_000, scale: 10_000_000 });
    assert_eq!(p.altitude, Quantity::Scaled { value: -12, scale: 1 });
    assert_eq!(p.course, Quantity::Scaled { value: 90, scale: 1 });
    assert_eq!(p.speed, Quantity::Scaled { value: 40, scale: 1 });
    assert_eq!(p.speed_unit, SpeedUnit::Kph);
    assert!(p.valid);
    assert_eq!(p.attributes[0].key, AttrKey::Satellites);
    assert_eq!(p.attributes[0].value, AttrValue::Int(7));
    let q = &positions[1];
    assert_eq!(q.latitude, Quantity::Scaled { value: -2_000_000, scale: 10_000_000 });
    assert!(!q.valid);
}

#[test]
fn teltonika_bad_preamble() {
    let decoder = TeltonikaDecoder;
    let mut session = DeviceSession::unauthenticated(ProtocolKind::Teltonika);
    let buf = BytesMut::from(&[0u8, 0, 0xFF, 1, 0, 0, 0, 0][..]);
    assert_eq!(
        decoder.decode(&buf, &mut session),
        Err(ProtocolError::InvalidData("Invalid Teltonika preamble".to_string()))
    );
}

#[test]
fn teltonika_truncated_io_is_refused_by_the_check() {
    let decoder = TeltonikaDecoder;
    let mut session = DeviceSession::unauthenticated(ProtocolKind::Teltonika);
    let full = codec8_packet();
    let mut cut = BytesMut::from(&full[..40]);
    cut[4..8].copy_from_slice(&[0, 0, 0, 20]);
    assert!(!teltonika_decodable_of(&cut[..], 0));
    assert_eq!(decoder.decode_checked(&cut, &mut session), None);
    let short = BytesMut::from(&[0u8, 0, 0, 0, 0, 0, 0, 100][..]);
    assert_eq!(decoder.decode(&short, &mut session), Ok(None));
}

#[test]
fn teltonika_commands_refused() {
    let encoder = TeltonikaEncoder;
    let c = Command { id: 0, device_id: 1, command_type: "engineStop".to_string(), description: None, attributes: vec![] };
    assert_eq!(
        encoder.encode(&c, "x"),
        Err(ProtocolError::UnsupportedCommand("Teltonika commands not yet implemented".to_string()))
    );
}

#[test]
fn teltonika_framing_and_registry() {
    let mut framer = frame_decoder_for(ProtocolKind::Teltonika);
    let packet = codec8_packet();
    let mut buf = BytesMut::from(&packet[..]);
    buf.put_u8(0xAB);
    let frame = framer.decode(&mut buf).unwrap();
    assert_eq!(&frame[..], &packet[..]);
    assert_eq!(&buf[..], &[0xABu8][..]);
    assert!(matches!(framer, FrameDecoder::LengthField(_)));
    let mut registry = ProtocolRegistry::new();
    register(&mut registry);
    assert_eq!(registry.get("teltonika").unwrap().default_port, 5027);
}
