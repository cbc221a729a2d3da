use bytes::{BufMut, BytesMut};
use traccar::codec::FrameDecision;
use traccar::gt06::{
    decode_alarm_byte, gt06_frame_decision_of, has_lbs, has_status, is_gps_message, register,
    Gt06Decoder, Gt06Encoder, Gt06FrameDecoder, MSG_COMMAND_0, MSG_GPS_LBS_1, MSG_LOGIN,
};
use traccar::helper::{crc16_x25, device_id_of_hash, simple_device_id};
use traccar::model::{Alarm, Command, CommandAttribute, DeviceSession, ProtocolError, ProtocolKind, Quantity};
use traccar::registry::{ProtocolRegistry, Transport};

fn login_packet() -> BytesMut {
    let mut buf = BytesMut::new();
    buf.put_u8(0x78);
    buf.put_u8(0x78);
    buf.put_u8(0x0D);
    buf.put_u8(MSG_LOGIN);
    buf.put_slice(&[0x03, 0x59, 0x58, 0x60, 0x15, 0x82, 0x98, 0x02]);
    buf.put_u16(0x0001);
    buf.put_u16(0x0000);
    buf.put_u8(0x0D);
    buf.put_u8(0x0A);
    buf
}

fn location_packet() -> BytesMut {
    let mut buf = BytesMut::new();
    buf.put_u8(0x78);
    buf.put_u8(0x78);
    buf.put_u8(0x1F);
    buf.put_u8(MSG_GPS_LBS_1);
    buf.put_u8(24);
    buf.put_u8(3);
    buf.put_u8(15);
    buf.put_u8(10);
    buf.put_u8(30);
    buf.put_u8(45);
    buf.put_u8(0xC8);
    buf.put_u32(40500000);
    buf.put_u32(205200000);
    buf.put_u8(60);
    buf.put_u16(0x30B4);
    buf.put_u16(460);
    buf.put_u8(0);
    buf.put_u16(1234);
    buf.put_u8(0);
    buf.put_u16(5678);
    buf.put_u16(0x0001);
    buf.put_u16(0x0000);
    buf.put_u8(0x0D);
    buf.put_u8(0x0A);
    buf
}

fn command(kind: &str) -> Command {
    Command {
        id: 0,
        device_id: 1,
        command_type: kind.to_string(),
        description: None,
        attributes: vec![],
    }
}

fn scaled(q: &Quantity) -> f64 {
    match q {
        Quantity::Scaled { value, scale } => *value as f64 / *scale as f64,
        Quantity::Decimal(t) => t.parse::<f64>().unwrap(),
        Quantity::DegreesMinutes { .. } => panic!("unexpected degrees and minutes"),
    }
}

#[test]
fn test_gt06_frame_decoder() {
    let mut decoder = Gt06FrameDecoder;
    let mut buf = login_packet();
    let frame = decoder.decode(&mut buf);
    assert!(frame.is_some());
    let frame = frame.unwrap();
    assert_eq!(frame[0], 0x78);
    assert_eq!(frame[1], 0x78);
    assert_eq!(frame[frame.len() - 2], 0x0D);
    assert_eq!(frame[frame.len() - 1], 0x0A);
}

#[test]
fn test_decode_login() {
    let decoder = Gt06Decoder;
    let mut session = DeviceSession::unauthenticated(ProtocolKind::Gt06);
    let buf = login_packet();
    let result = decoder.decode(&buf, &mut session);
    assert!(result.is_ok());
    assert!(result.unwrap().is_none());
    assert!(!session.unique_id.is_empty());
    assert!(session.device_id != 0);
}

#[test]
fn test_decode_location() {
    let decoder = Gt06Decoder;
    let mut session = DeviceSession::new(
        simple_device_id("359586015829802"),
        "359586015829802".to_string(),
        ProtocolKind::Gt06,
    );
    let buf = location_packet();
    let result = decoder.decode(&buf, &mut session);
    assert!(result.is_ok());
    let positions = result.unwrap();
    assert!(positions.is_some());
    let positions = positions.unwrap();
    assert_eq!(positions.len(), 1);
    assert_eq!(positions[0].protocol, ProtocolKind::Gt06);
    assert!(positions[0].valid);
}

#[test]
fn gt06_test_encode_engine_stop() {
    let encoder = Gt06Encoder;
    let result = encoder.encode(&command("engineStop"), "test");
    assert!(result.is_ok());
    let bytes = result.unwrap();
    assert_eq!(bytes[0], 0x78);
    assert_eq!(bytes[1], 0x78);
    assert_eq!(bytes[3], MSG_COMMAND_0);
    assert_eq!(bytes[bytes.len() - 2], 0x0D);
    assert_eq!(bytes[bytes.len() - 1], 0x0A);
}

#[test]
fn test_alarm_decode() {
    assert_eq!(decode_alarm_byte(0x01), Some(Alarm::Sos));
    assert_eq!(decode_alarm_byte(0x06), Some(Alarm::Overspeed));
    assert_eq!(decode_alarm_byte(0xFF), None);
}

#[test]
fn gt06_login_imei_is_bcd_digits() {
    let decoder = Gt06Decoder;
    let mut session = DeviceSession::unauthenticated(ProtocolKind::Gt06);
    decoder.decode(&login_packet(), &mut session).unwrap();
    assert_eq!(session.unique_id, "359586015829802");
    assert_eq!(session.protocol, ProtocolKind::Gt06);
}

#[test]
fn gt06_location_fields() {
    let decoder = Gt06Decoder;
    let mut session = DeviceSession::new(7, "x".to_string(), ProtocolKind::Gt06);
    let positions = decoder.decode(&location_packet(), &mut session).unwrap().unwrap();
    let p = &positions[0];
    assert_eq!(p.device_id, 7);
    assert_eq!(p.fix_time, Some(1710498645000));
    assert!((scaled(&p.latitude) - 22.5).abs() < 1e-9);
    assert!((scaled(&p.longitude) - 114.0).abs() < 1e-9);
    assert!((scaled(&p.course) - 180.0).abs() < 1e-9);
}

#[test]
fn gt06_short_buffer_waits() {
    let decoder = Gt06Decoder;
    let mut session = DeviceSession::unauthenticated(ProtocolKind::Gt06);
    let buf = BytesMut::from(&[0x78u8, 0x78][..]);
    assert_eq!(decoder.decode(&buf, &mut session), Ok(None));
    let mut framer = Gt06FrameDecoder;
    let mut b = BytesMut::from(&[0x78u8, 0x78, 0x0D][..]);
    assert!(framer.decode(&mut b).is_none());
    assert_eq!(b.len(), 3);
}

#[test]
fn gt06_framer_skips_noise() {
    assert_eq!(gt06_frame_decision_of(&[0x00, 1, 2, 3, 4, 5]), FrameDecision::Skip(1));
    let mut framer = Gt06FrameDecoder;
    let mut b = BytesMut::from(&[0x00u8, 1, 2, 3, 4, 5][..]);
    assert!(framer.decode(&mut b).is_none());
    assert_eq!(&b[..], &[1u8, 2, 3, 4, 5][..]);
}

#[test]
fn gt06_encoded_packet_is_framed_whole() {
    let encoder = Gt06Encoder;
    let bytes = encoder.encode(&command("engineResume"), "test").unwrap();
    let mut buf = BytesMut::from(&bytes[..]);
    buf.put_slice(&[0x78, 0x78]);
    let mut framer = Gt06FrameDecoder;
    let frame = framer.decode(&mut buf).unwrap();
    assert_eq!(&frame[..], &bytes[..]);
    assert_eq!(&buf[..], &[0x78u8, 0x78][..]);
    assert_eq!(bytes.len(), 8 + 15);
}

#[test]
fn gt06_packet_crc() {
    assert_eq!(crc16_x25(b"123456789"), 0x906E);
    let encoder = Gt06Encoder;
    let bytes = encoder.encode(&command("engineStop"), "test").unwrap();
    let n = bytes.len();
    let crc = crc16_x25(&bytes[2..n - 4]);
    assert_eq!(bytes[n - 4], (crc >> 8) as u8);
    assert_eq!(bytes[n - 3], (crc & 0xFF) as u8);
    assert_eq!(&bytes[9..17], b"Relay,1#");
}

#[test]
fn gt06_custom_and_unsupported_commands() {
    let encoder = Gt06Encoder;
    let mut c = command("custom");
    assert_eq!(
        encoder.encode(&c, "test"),
        Err(ProtocolError::Encode("Missing data attribute".to_string()))
    );
    c.attributes.push(CommandAttribute { key: "data".to_string(), value: "STATUS#".to_string() });
    let bytes = encoder.encode(&c, "test").unwrap();
    assert_eq!(&bytes[9..16], b"STATUS#");
    assert_eq!(
        encoder.encode(&command("powerOff"), "test"),
        Err(ProtocolError::UnsupportedCommand("powerOff".to_string()))
    );
}

#[test]
fn gt06_message_classes() {
    assert!(is_gps_message(MSG_GPS_LBS_1));
    assert!(!is_gps_message(MSG_LOGIN));
    assert!(has_lbs(MSG_GPS_LBS_1));
    assert!(!has_lbs(0x10));
    assert!(has_status(0x16));
    assert!(!has_status(MSG_GPS_LBS_1));
}

#[test]
fn gt06_register_definition() {
    let mut registry = ProtocolRegistry::new();
    register(&mut registry);
    let d = registry.get("gt06").unwrap();
    assert_eq!(d.default_port, 5023);
    assert_eq!(d.transport, Transport::Tcp);
    assert_eq!(d.kind, ProtocolKind::Gt06);
    assert!(registry.get("h02").is_none());
}

#[test]
fn device_id_clears_top_bit() {
    assert_eq!(device_id_of_hash(u64::MAX), i64::MAX);
    assert_eq!(device_id_of_hash(0x8000_0000_0000_0005), 5);
    assert_eq!(device_id_of_hash(42), 42);
    assert_eq!(simple_device_id("359586015829802"), simple_device_id("359586015829802"));
    assert!(simple_device_id("abc") >= 0);
}

#[test]
fn gt06_login_device_id_is_hash_of_imei() {
    let decoder = Gt06Decoder;
    let mut session = DeviceSession::unauthenticated(ProtocolKind::Gt06);
    decoder.decode(&login_packet(), &mut session).unwrap();
    assert_eq!(session.device_id, simple_device_id("359586015829802"));
    let positions = decoder.decode(&location_packet(), &mut session).unwrap().unwrap();
    assert_eq!(positions[0].device_id, simple_device_id("359586015829802"));
}
