use bytes::BytesMut;
use traccar::h02::{bcd_byte, decode_battery, process_status, register, H02Decoder, H02Encoder, H02FrameDecoder};
use traccar::model::{
    Alarm, AttrKey, AttrValue, Command, DeviceSession, Position, ProtocolError, ProtocolKind, Quantity,
};
use traccar::registry::ProtocolRegistry;

fn degrees(q: &Quantity) -> f64 {
    match q {
        Quantity::DegreesMinutes { text, negative } => {
            let v: f64 = text.parse().unwrap();
            let d = (v / 100.0).floor();
            let deg = d + (v - d * 100.0) / 60.0;
            if *negative {
                -deg
            } else {
                deg
            }
        }
        Quantity::Scaled { value, scale } => *value as f64 / *scale as f64,
        Quantity::Decimal(t) => t.parse().unwrap(),
    }
}

fn command(kind: &str) -> Command {
    Command { id: 0, device_id: 1, command_type: kind.to_string(), description: None, attributes: vec![] }
}

fn decode_text(msg: &str) -> (Result<Option<Vec<Position>>, ProtocolError>, DeviceSession) {
    let decoder = H02Decoder;
    let mut session = DeviceSession::unauthenticated(ProtocolKind::H02);
    let buf = BytesMut::from(msg);
    let r = decoder.decode(&buf, &mut session);
    (r, session)
}

#[test]
fn test_decode_text_v1() {
    let (result, _) = decode_text(
        "*HQ,123456789012345,V1,121500,A,2234.5678,N,11404.5678,E,60.5,270.3,150324,FFFFFFFF#",
    );
    assert!(result.is_ok());
    let positions = result.unwrap();
    assert!(positions.is_some());
    let positions = positions.unwrap();
    assert_eq!(positions.len(), 1);
    let pos = &positions[0];
    assert_eq!(pos.protocol, ProtocolKind::H02);
    assert!(pos.valid);
    assert!(degrees(&pos.latitude) > 22.0 && degrees(&pos.latitude) < 23.0);
    assert!(degrees(&pos.longitude) > 114.0 && degrees(&pos.longitude) < 115.0);
}

#[test]
fn test_decode_text_invalid() {
    let (result, _) = decode_text(
        "*HQ,123456789012345,V1,121500,V,2234.5678,N,11404.5678,E,0,0,150324,00000000#",
    );
    assert!(result.is_ok());
    let positions = result.unwrap().unwrap();
    assert!(!positions[0].valid);
}

#[test]
fn test_decode_text_south_west() {
    let (result, _) = decode_text(
        "*HQ,123456789012345,V1,121500,A,2234.5678,S,11404.5678,W,50,180,150324,00000000#",
    );
    assert!(result.is_ok());
    let positions = result.unwrap().unwrap();
    assert!(degrees(&positions[0].latitude) < 0.0);
    assert!(degrees(&positions[0].longitude) < 0.0);
}

#[test]
fn h02_test_encode_engine_stop() {
    let encoder = H02Encoder;
    let result = encoder.encode(&command("engineStop"), "123456789012345").unwrap();
    let msg = String::from_utf8(result.to_vec()).unwrap();
    assert!(msg.starts_with("*HQ,123456789012345,S20,"));
    assert!(msg.ends_with("#"));
    assert!(msg.contains(",1,3,0,0,0#"));
}

#[test]
fn test_bcd_byte() {
    assert_eq!(bcd_byte(0x45), 45);
    assert_eq!(bcd_byte(0x12), 12);
    assert_eq!(bcd_byte(0x00), 0);
    assert_eq!(bcd_byte(0x99), 99);
}

#[test]
fn test_decode_battery() {
    assert_eq!(decode_battery(0), None);
    assert_eq!(decode_battery(1), Some(0));
    assert_eq!(decode_battery(3), Some(20));
    assert_eq!(decode_battery(6), Some(100));
    assert_eq!(decode_battery(50), Some(50));
    assert_eq!(decode_battery(0xF1), Some(1));
}

#[test]
fn test_process_status() {
    let mut pos = Position::new(ProtocolKind::H02, 0);
    let status: i64 = 0xFFFFFFFF;
    process_status(&mut pos, status);
    let ignition = pos.attributes.iter().rev().find(|a| a.key == AttrKey::Ignition).map(|a| a.value.clone());
    assert_eq!(ignition, Some(AttrValue::Bool(true)));
}

#[test]
fn h02_status_alarms() {
    let mut pos = Position::new(ProtocolKind::H02, 0);
    process_status(&mut pos, 0xFFFFFFFE);
    assert_eq!(pos.alarms, vec![Alarm::Vibration]);
    let mut pos = Position::new(ProtocolKind::H02, 0);
    process_status(&mut pos, 0xFFFFFFFB);
    assert_eq!(pos.alarms, vec![Alarm::Overspeed]);
    let ignition = pos.attributes.iter().find(|a| a.key == AttrKey::Ignition).map(|a| a.value.clone());
    assert_eq!(ignition, Some(AttrValue::Bool(true)));
}

#[test]
fn h02_battery_edges() {
    assert_eq!(decode_battery(4), Some(60));
    assert_eq!(decode_battery(100), Some(100));
    assert_eq!(decode_battery(101), None);
    assert_eq!(decode_battery(0xF6), Some(6));
    assert_eq!(decode_battery(0xF7), None);
}

#[test]
fn h02_text_fields() {
    let (result, session) = decode_text(
        "*HQ,123456789012345,V1,121500,A,2234.5678,N,11404.5678,E,60.5,270.3,150324,FFFFFFFF#",
    );
    let p = &result.unwrap().unwrap()[0];
    assert_eq!(session.unique_id, "123456789012345");
    assert_eq!(p.fix_time, Some(1710504900000));
    assert!((degrees(&p.latitude) - (22.0 + 34.5678 / 60.0)).abs() < 1e-9);
}

#[test]
fn h02_bad_start_byte() {
    let (result, _) = decode_text("#abc");
    assert_eq!(result, Err(ProtocolError::InvalidData("Invalid H02 start byte: 0x23".to_string())));
}

#[test]
fn h02_encode_at_fixed_time() {
    let encoder = H02Encoder;
    let r = encoder.encode_at(&command("engineResume"), "42", 1710498645000).unwrap();
    assert_eq!(&r[..], b"*HQ,42,S20,103045,1,1,0,0,0#");
    assert_eq!(
        encoder.encode(&command("custom"), "42"),
        Err(ProtocolError::UnsupportedCommand("custom".to_string()))
    );
}

#[test]
fn h02_frames_text_messages() {
    let mut framer = H02FrameDecoder::new();
    let mut buf = BytesMut::from("*HQ,1,V1#*HQ,2");
    let f = framer.decode(&mut buf).unwrap();
    assert_eq!(&f[..], b"*HQ,1,V1#");
    assert_eq!(&buf[..], b"*HQ,2");
    assert!(framer.decode(&mut buf).is_none());
}

#[test]
fn h02_register_definition() {
    let mut registry = ProtocolRegistry::new();
    register(&mut registry);
    let d = registry.get("h02").unwrap();
    assert_eq!(d.default_port, 5013);
    assert_eq!(d.kind, ProtocolKind::H02);
}

#[test]
fn h02_encoded_command_is_framed_whole() {
    let encoder = H02Encoder;
    let mut c = command("positionPeriodic");
    c.attributes.push(traccar::model::CommandAttribute { key: "frequency".to_string(), value: "-30".to_string() });
    let bytes = encoder.encode_at(&c, "123456789012345", 0).unwrap();
    assert_eq!(&bytes[..], b"*HQ,123456789012345,S71,000000,-30#");
    let mut buf = BytesMut::from(&bytes[..]);
    buf.extend_from_slice(b"*HQ,");
    let mut framer = H02FrameDecoder::new();
    let frame = framer.decode(&mut buf).unwrap();
    assert_eq!(&frame[..], &bytes[..]);
    assert_eq!(&buf[..], b"*HQ,");
}

#[test]
fn h02_device_id_is_hash_of_unique_id() {
    let (result, session) = decode_text(
        "*HQ,123456789012345,V1,121500,A,2234.5678,N,11404.5678,E,60.5,270.3,150324,FFFFFFFF#",
    );
    let p = &result.unwrap().unwrap()[0];
    assert_eq!(session.device_id, traccar::helper::simple_device_id("123456789012345"));
    assert_eq!(p.device_id, session.device_id);
}
