use bytes::BytesMut;
use traccar::json::{JsonDocument, JsonEntry, JsonKind};
use traccar::model::{
    AttrKey, AttrValue, Command, DeviceSession, Position, ProtocolError, ProtocolKind, Quantity,
};
use traccar::osmand::{
    extract_query_string, parse_query_string, parse_timestamp, register, url_decode,
    OsmAndDecoder, OsmAndEncoder, OsmAndRequest,
};
use traccar::registry::ProtocolRegistry;

fn number(q: &Quantity) -> f64 {
    match q {
        Quantity::Decimal(t) => t.parse().unwrap(),
        Quantity::Scaled { value, scale } => *value as f64 / *scale as f64,
        Quantity::DegreesMinutes { .. } => panic!("unexpected degrees and minutes"),
    }
}

fn attribute(p: &Position, key: AttrKey) -> Option<AttrValue> {
    p.attributes.iter().rev().find(|a| a.key == key).map(|a| a.value.clone())
}

fn decode(msg: &str) -> (Result<Option<Vec<Position>>, ProtocolError>, DeviceSession) {
    let decoder = OsmAndDecoder;
    let mut session = DeviceSession::unauthenticated(ProtocolKind::OsmAnd);
    let buf = BytesMut::from(msg);
    let r = decoder.decode(&buf, &mut session);
    (r, session)
}

#[test]
fn test_decode_get_request() {
    let (result, _) = decode(
        "GET /?id=123456&timestamp=1710500000&lat=22.54&lon=114.06&speed=10&bearing=180&altitude=50 HTTP/1.1\r\n",
    );
    assert!(result.is_ok());
    let positions = result.unwrap();
    assert!(positions.is_some());
    let positions = positions.unwrap();
    assert_eq!(positions.len(), 1);
    let pos = &positions[0];
    assert_eq!(pos.protocol, ProtocolKind::OsmAnd);
    assert!(pos.valid);
    assert!((number(&pos.latitude) - 22.54).abs() < 0.001);
    assert!((number(&pos.longitude) - 114.06).abs() < 0.001);
    assert!((number(&pos.altitude) - 50.0).abs() < 0.001);
    assert!((number(&pos.course) - 180.0).abs() < 0.001);
}

#[test]
fn test_decode_raw_params() {
    let (result, session) =
        decode("id=test_device&lat=-33.8688&lon=151.2093&speed=5&altitude=100&accuracy=10");
    assert!(result.is_ok());
    let positions = result.unwrap().unwrap();
    let pos = &positions[0];
    assert_eq!(session.unique_id, "test_device");
    assert!((number(&pos.latitude) - (-33.8688)).abs() < 0.001);
    assert!((number(&pos.longitude) - 151.2093).abs() < 0.001);
    assert!((number(&pos.accuracy) - 10.0).abs() < 0.001);
}

#[test]
fn test_decode_with_battery() {
    let (result, _) = decode("id=dev1&lat=0&lon=0&batt=85&hdop=1.2");
    assert!(result.is_ok());
    let positions = result.unwrap().unwrap();
    let pos = &positions[0];
    match attribute(pos, AttrKey::BatteryLevel) {
        Some(AttrValue::Number(q)) => assert_eq!(number(&q), 85.0),
        other => panic!("battery level: {:?}", other),
    }
    match attribute(pos, AttrKey::Hdop) {
        Some(AttrValue::Number(q)) => assert_eq!(number(&q), 1.2),
        other => panic!("hdop: {:?}", other),
    }
}

#[test]
fn test_decode_json_post() {
    let json = r#"{"device_id":"myphone","location":{"timestamp":"2024-03-15T10:30:00Z","coords":{"latitude":51.5074,"longitude":-0.1278,"speed":2.5,"heading":90,"accuracy":5,"altitude":15}}}"#;
    let (result, session) = decode(json);
    assert!(result.is_ok());
    let positions = result.unwrap().unwrap();
    let pos = &positions[0];
    assert_eq!(session.unique_id, "myphone");
    assert!(pos.valid);
    assert!((number(&pos.latitude) - 51.5074).abs() < 0.001);
    assert!((number(&pos.longitude) - (-0.1278)).abs() < 0.001);
    assert_eq!(pos.fix_time, Some(1710498600000));
}

#[test]
fn test_decode_missing_id() {
    let (result, session) = decode("lat=22.54&lon=114.06");
    assert!(result.is_ok());
    assert!(result.unwrap().is_none());
    assert_eq!(session.unique_id, "");
}

#[test]
fn test_parse_query_string() {
    let params = parse_query_string("id=123&lat=22.5&lon=114.0");
    assert_eq!(params.get("id").unwrap(), "123");
    assert_eq!(params.get("lat").unwrap(), "22.5");
}

#[test]
fn test_url_decode() {
    assert_eq!(url_decode("hello%20world"), "hello world");
    assert_eq!(url_decode("test+value"), "test value");
    assert_eq!(url_decode("plain"), "plain");
}

#[test]
fn test_parse_timestamp_unix() {
    let t = parse_timestamp("1710500000").unwrap();
    assert_eq!(t / 1000, 1710500000);
}

#[test]
fn test_parse_timestamp_iso() {
    let t = parse_timestamp("2024-03-15T10:30:00Z").unwrap();
    assert_eq!(t / 1000, 1710498600);
}

#[test]
fn test_encode_unsupported() {
    let encoder = OsmAndEncoder;
    let command = Command {
        id: 0,
        device_id: 1,
        command_type: "custom".to_string(),
        description: None,
        attributes: vec![],
    };
    assert!(encoder.encode(&command, "test").is_err());
}

#[test]
fn osmand_later_key_wins() {
    let params = parse_query_string("id=1&id=2&x=%41");
    assert_eq!(params.get("id").unwrap(), "2");
    assert_eq!(params.get("x").unwrap(), "A");
    assert_eq!(params.len(), 2);
    assert!(params.get("y").is_none());
}

#[test]
fn osmand_url_decode_edges() {
    assert_eq!(url_decode("%zz"), "%zz");
    assert_eq!(url_decode("100%"), "100%");
    assert_eq!(url_decode("a%2Bb"), "a+b");
}

#[test]
fn osmand_timestamps() {
    assert_eq!(parse_timestamp("1710500000123"), Some(1710500000123));
    assert_eq!(parse_timestamp("2024-03-15 10:30:00"), Some(1710498600000));
    assert_eq!(parse_timestamp("yesterday"), None);
}

#[test]
fn osmand_query_extraction() {
    assert_eq!(extract_query_string("GET /?a=1&b=2 HTTP/1.1\r\n"), "a=1&b=2");
    assert_eq!(extract_query_string("  a=1  "), "a=1");
    assert_eq!(extract_query_string("hello"), "");
}

#[test]
fn osmand_request_kinds() {
    let decoder = OsmAndDecoder;
    assert_eq!(decoder.request(&BytesMut::from("")), OsmAndRequest::Nothing);
    assert_eq!(decoder.request(&BytesMut::from("  {\"id\":1}")), OsmAndRequest::Json("  {\"id\":1}".to_string()));
    assert_eq!(decoder.request(&BytesMut::from("id=5")), OsmAndRequest::Params("id=5".to_string()));
}

#[test]
fn osmand_bad_json_is_an_error() {
    let (result, session) = decode("{not json");
    match result {
        Err(ProtocolError::Decode(m)) => assert!(m.starts_with("JSON parse error: ")),
        other => panic!("unexpected: {:?}", other),
    }
    assert_eq!(session.unique_id, "");
}

#[test]
fn osmand_json_document_by_hand() {
    let decoder = OsmAndDecoder;
    let mut session = DeviceSession::unauthenticated(ProtocolKind::OsmAnd);
    let doc = JsonDocument {
        entries: vec![
            JsonEntry { path: vec![], kind: JsonKind::Object },
            JsonEntry { path: vec!["id".to_string()], kind: JsonKind::Str("p1".to_string()) },
            JsonEntry { path: vec!["location".to_string()], kind: JsonKind::Object },
            JsonEntry {
                path: vec!["location".to_string(), "is_moving".to_string()],
                kind: JsonKind::Bool(true),
            },
        ],
    };
    let positions = decoder.decode_json(&doc, &mut session).unwrap().unwrap();
    assert_eq!(session.unique_id, "p1");
    assert_eq!(attribute(&positions[0], AttrKey::Motion), Some(AttrValue::Bool(true)));
}

#[test]
fn osmand_register_definition() {
    let mut registry = ProtocolRegistry::new();
    register(&mut registry);
    let d = registry.get("osmand").unwrap();
    assert_eq!(d.default_port, 5055);
    assert!(d.supported_commands.is_empty());
}

#[test]
fn osmand_device_id_is_hash_of_unique_id() {
    let (result, session) =
        decode("id=test_device&lat=-33.8688&lon=151.2093&speed=5&altitude=100&accuracy=10");
    let positions = result.unwrap().unwrap();
    assert_eq!(session.device_id, traccar::helper::simple_device_id("test_device"));
    assert_eq!(positions[0].device_id, session.device_id);
    assert_eq!(positions[0].speed, Quantity::Decimal("5".to_string()));
    assert!(positions[0].valid);
    assert_eq!(positions[0].altitude, Quantity::Decimal("100".to_string()));
}
