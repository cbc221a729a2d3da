use traccar::broadcast::{BroadcastError, MulticastBroadcast, NullBroadcast, RedisBroadcast, UpdateKind};

#[test]
fn broadcast_constructors() {
    let _ = NullBroadcast::new();
    let _ = NullBroadcast::default();
    let m = MulticastBroadcast::default();
    assert_eq!(m.multicast_group, "224.0.0.114");
    assert_eq!(m.port, 9443);
    let m = MulticastBroadcast::new("239.1.1.1", 1);
    assert_eq!(m.multicast_group, "239.1.1.1");
    let r = RedisBroadcast::new("redis://localhost", "traccar");
    assert_eq!(r.url, "redis://localhost");
    assert_eq!(r.channel, "traccar");
}

#[test]
fn broadcast_redis_message() {
    let r = RedisBroadcast::new("redis://localhost", "c");
    assert_eq!(r.message(UpdateKind::Position, "{\"id\":1}"), "{\"data\":{\"id\":1},\"type\":\"position\"}");
    assert_eq!(r.message(UpdateKind::Event, "null"), "{\"data\":null,\"type\":\"event\"}");
}

#[test]
fn broadcast_error_messages() {
    assert_eq!(BroadcastError::Send("x".to_string()).message(), "Broadcast error: x");
    assert_eq!(BroadcastError::Io("y".to_string()).message(), "IO error: y");
}
