//! Sharing position and event updates between server instances: the
//! services' settings, their errors and the messages they publish.

use vstd::prelude::*;

use crate::text::{push_str, string_from_str};

verus! {

/// A failure to broadcast an update.
#[derive(Debug, Clone, PartialEq)]
pub enum BroadcastError {
    Send(String),
    Io(String),
}

pub open spec fn broadcast_error_text(e: BroadcastError) -> Seq<char> {
    match e {
        BroadcastError::Send(m) => "Broadcast error: "@ + m@,
        BroadcastError::Io(m) => "IO error: "@ + m@,
    }
}

impl BroadcastError {
    /// The error's message.
    pub fn message(&self) -> (s: String)
        ensures
            s@ == broadcast_error_text(*self),
    {
        match self {
            BroadcastError::Send(m) => {
                let mut s = string_from_str("Broadcast error: ");
                push_str(&mut s, m.as_str());
                s
            },
            BroadcastError::Io(m) => {
                let mut s = string_from_str("IO error: ");
                push_str(&mut s, m.as_str());
                s
            },
        }
    }
}

/// The broadcast of a single-instance deployment: it sends nothing.
#[derive(Debug, Clone, Copy, PartialEq, Eq, Structural)]
pub struct NullBroadcast;

impl NullBroadcast {
    pub fn new() -> (b: NullBroadcast) {
        NullBroadcast
    }
}

impl Default for NullBroadcast {
    fn default() -> (b: NullBroadcast) {
        NullBroadcast::new()
    }
}

/// The default multicast group and port.
pub const DEFAULT_MULTICAST_GROUP: &'static str = "224.0.0.114";

pub const DEFAULT_MULTICAST_PORT: u16 = 9443;

/// Broadcast over UDP multicast.
#[derive(Debug, Clone, PartialEq)]
pub struct MulticastBroadcast {
    pub multicast_group: String,
    pub port: u16,
}

impl MulticastBroadcast {
    pub fn new(group: &str, port: u16) -> (b: MulticastBroadcast)
        ensures
            b.multicast_group@ == group@,
            b.port == port,
    {
        MulticastBroadcast { multicast_group: string_from_str(group), port }
    }
}

impl Default for MulticastBroadcast {
    /// Group 224.0.0.114, port 9443.
    fn default() -> (b: MulticastBroadcast)
        ensures
            b.multicast_group@ == DEFAULT_MULTICAST_GROUP@,
            b.port == DEFAULT_MULTICAST_PORT,
    {
        MulticastBroadcast::new(DEFAULT_MULTICAST_GROUP, DEFAULT_MULTICAST_PORT)
    }
}

/// Broadcast over Redis publish/subscribe.
#[derive(Debug, Clone, PartialEq)]
pub struct RedisBroadcast {
    pub url: String,
    pub channel: String,
}

impl RedisBroadcast {
    pub fn new(url: &str, channel: &str) -> (b: RedisBroadcast)
        ensures
            b.url@ == url@,
            b.channel@ == channel@,
    {
        RedisBroadcast { url: string_from_str(url), channel: string_from_str(channel) }
    }
}

/// What an update carries.
#[derive(Debug, Clone, Copy, PartialEq, Eq, Structural)]
pub enum UpdateKind {
    Position,
    Event,
}

pub open spec fn update_kind_name(k: UpdateKind) -> Seq<char> {
    match k {
        UpdateKind::Position => "position"@,
        UpdateKind::Event => "event"@,
    }
}

/// The message published to Redis: a JSON object whose `data` member is
/// the serialized update and whose `type` member names its kind, members in
/// the order `serde_json` writes them.
pub open spec fn redis_message(kind: UpdateKind, data: Seq<char>) -> Seq<char> {
    "{\"data\":"@ + data + ",\"type\":\""@ + update_kind_name(kind) + "\"}"@
}

impl RedisBroadcast {
    /// Wraps a serialized position or event (JSON text) for publishing.
    pub fn message(&self, kind: UpdateKind, data: &str) -> (s: String)
        ensures
            s@ == redis_message(kind, data@),
    {
        let mut s = string_from_str("{\"data\":");
        push_str(&mut s, data);
        push_str(&mut s, ",\"type\":\"");
        match kind {
            UpdateKind::Position => push_str(&mut s, "position"),
            UpdateKind::Event => push_str(&mut s, "event"),
        }
        push_str(&mut s, "\"}");
        s
    }
}

} // verus!
