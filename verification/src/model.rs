//! The data that decoders produce and encoders consume: positions, device
//! sessions, commands and protocol errors.

use bytes::Bytes;
use vstd::prelude::*;

use crate::buffer::bytes_view;

use crate::text::{chars_eq, chars_of, string_from_str};

verus! {

/// The device protocols of this library.
#[derive(Debug, Clone, Copy, PartialEq, Eq, Structural)]
pub enum ProtocolKind {
    Gt06,
    H02,
    OsmAnd,
    Teltonika,
}

/// The protocol's name, as positions and registries carry it.
pub open spec fn protocol_name(p: ProtocolKind) -> Seq<char> {
    match p {
        ProtocolKind::Gt06 => "gt06"@,
        ProtocolKind::H02 => "h02"@,
        ProtocolKind::OsmAnd => "osmand"@,
        ProtocolKind::Teltonika => "teltonika"@,
    }
}

impl ProtocolKind {
    pub fn name(&self) -> (s: &'static str)
        ensures
            s@ == protocol_name(*self),
    {
        match self {
            ProtocolKind::Gt06 => "gt06",
            ProtocolKind::H02 => "h02",
            ProtocolKind::OsmAnd => "osmand",
            ProtocolKind::Teltonika => "teltonika",
        }
    }
}

/// Unit of a speed value.
#[derive(Debug, Clone, Copy, PartialEq, Eq, Structural)]
pub enum SpeedUnit {
    Knots,
    Kph,
    MetersPerSecond,
}

/// A measured quantity, kept exact: either a ratio of integers, or the
/// decimal text the device sent.
#[derive(Debug, Clone, PartialEq)]
pub enum Quantity {
    /// The value `value / scale`.
    Scaled { value: i64, scale: u64 },
    /// A decimal number in the syntax that `f64`'s parser accepts.
    Decimal(String),
    /// A `ddmm.mmmm` number (degrees times one hundred plus minutes), in the
    /// syntax that `f64`'s parser accepts; the value in degrees is negated
    /// when `negative` holds.
    DegreesMinutes { text: String, negative: bool },
}

pub enum QuantityModel {
    Scaled { value: i64, scale: u64 },
    Decimal(Seq<char>),
    DegreesMinutes { text: Seq<char>, negative: bool },
}

impl View for Quantity {
    type V = QuantityModel;

    open spec fn view(&self) -> QuantityModel {
        match self {
            Quantity::Scaled { value, scale } => QuantityModel::Scaled {
                value: *value,
                scale: *scale,
            },
            Quantity::Decimal(t) => QuantityModel::Decimal(t@),
            Quantity::DegreesMinutes { text, negative } => QuantityModel::DegreesMinutes {
                text: text@,
                negative: *negative,
            },
        }
    }
}

/// The integer `v`, as a quantity.
pub open spec fn whole(v: int) -> QuantityModel {
    QuantityModel::Scaled { value: v as i64, scale: 1 }
}

/// Alarms that a position can carry.
#[derive(Debug, Clone, Copy, PartialEq, Eq, Structural)]
pub enum Alarm {
    Sos,
    PowerCut,
    Vibration,
    GeofenceEnter,
    GeofenceExit,
    Overspeed,
    Movement,
    LowBattery,
    PowerOff,
    Tampering,
    Door,
    Removing,
}

pub open spec fn alarm_key(a: Alarm) -> Seq<char> {
    match a {
        Alarm::Sos => "sos"@,
        Alarm::PowerCut => "powerCut"@,
        Alarm::Vibration => "vibration"@,
        Alarm::GeofenceEnter => "geofenceEnter"@,
        Alarm::GeofenceExit => "geofenceExit"@,
        Alarm::Overspeed => "overspeed"@,
        Alarm::Movement => "movement"@,
        Alarm::LowBattery => "lowBattery"@,
        Alarm::PowerOff => "powerOff"@,
        Alarm::Tampering => "tampering"@,
        Alarm::Door => "door"@,
        Alarm::Removing => "removing"@,
    }
}

impl Alarm {
    /// The alarm's name in a position's `alarm` attribute.
    pub fn key(&self) -> (s: &'static str)
        ensures
            s@ == alarm_key(*self),
    {
        match self {
            Alarm::Sos => "sos",
            Alarm::PowerCut => "powerCut",
            Alarm::Vibration => "vibration",
            Alarm::GeofenceEnter => "geofenceEnter",
            Alarm::GeofenceExit => "geofenceExit",
            Alarm::Overspeed => "overspeed",
            Alarm::Movement => "movement",
            Alarm::LowBattery => "lowBattery",
            Alarm::PowerOff => "powerOff",
            Alarm::Tampering => "tampering",
            Alarm::Door => "door",
            Alarm::Removing => "removing",
        }
    }
}

/// Keys of position attributes.
#[derive(Debug, Clone, PartialEq)]
pub enum AttrKey {
    Satellites,
    Status,
    Ignition,
    Power,
    Rssi,
    BatteryLevel,
    Hdop,
    DriverUniqueId,
    Charge,
    Event,
    Motion,
    Odometer,
    Mcc,
    Mnc,
    Lac,
    CellId,
    /// Any other key, by name.
    Custom(String),
}

pub enum AttrKeyModel {
    Satellites,
    Status,
    Ignition,
    Power,
    Rssi,
    BatteryLevel,
    Hdop,
    DriverUniqueId,
    Charge,
    Event,
    Motion,
    Odometer,
    Mcc,
    Mnc,
    Lac,
    CellId,
    Custom(Seq<char>),
}

impl View for AttrKey {
    type V = AttrKeyModel;

    open spec fn view(&self) -> AttrKeyModel {
        match self {
            AttrKey::Satellites => AttrKeyModel::Satellites,
            AttrKey::Status => AttrKeyModel::Status,
            AttrKey::Ignition => AttrKeyModel::Ignition,
            AttrKey::Power => AttrKeyModel::Power,
            AttrKey::Rssi => AttrKeyModel::Rssi,
            AttrKey::BatteryLevel => AttrKeyModel::BatteryLevel,
            AttrKey::Hdop => AttrKeyModel::Hdop,
            AttrKey::DriverUniqueId => AttrKeyModel::DriverUniqueId,
            AttrKey::Charge => AttrKeyModel::Charge,
            AttrKey::Event => AttrKeyModel::Event,
            AttrKey::Motion => AttrKeyModel::Motion,
            AttrKey::Odometer => AttrKeyModel::Odometer,
            AttrKey::Mcc => AttrKeyModel::Mcc,
            AttrKey::Mnc => AttrKeyModel::Mnc,
            AttrKey::Lac => AttrKeyModel::Lac,
            AttrKey::CellId => AttrKeyModel::CellId,
            AttrKey::Custom(s) => AttrKeyModel::Custom(s@),
        }
    }
}

pub open spec fn attr_key_name(k: AttrKeyModel) -> Seq<char> {
    match k {
        AttrKeyModel::Satellites => "sat"@,
        AttrKeyModel::Status => "status"@,
        AttrKeyModel::Ignition => "ignition"@,
        AttrKeyModel::Power => "power"@,
        AttrKeyModel::Rssi => "rssi"@,
        AttrKeyModel::BatteryLevel => "batteryLevel"@,
        AttrKeyModel::Hdop => "hdop"@,
        AttrKeyModel::DriverUniqueId => "driverUniqueId"@,
        AttrKeyModel::Charge => "charge"@,
        AttrKeyModel::Event => "event"@,
        AttrKeyModel::Motion => "motion"@,
        AttrKeyModel::Odometer => "odometer"@,
        AttrKeyModel::Mcc => "mcc"@,
        AttrKeyModel::Mnc => "mnc"@,
        AttrKeyModel::Lac => "lac"@,
        AttrKeyModel::CellId => "cellId"@,
        AttrKeyModel::Custom(s) => s,
    }
}

impl AttrKey {
    /// The key's name in a position's attribute map.
    pub fn name(&self) -> (s: String)
        ensures
            s@ == attr_key_name(self@),
    {
        match self {
            AttrKey::Satellites => string_from_str("sat"),
            AttrKey::Status => string_from_str("status"),
            AttrKey::Ignition => string_from_str("ignition"),
            AttrKey::Power => string_from_str("power"),
            AttrKey::Rssi => string_from_str("rssi"),
            AttrKey::BatteryLevel => string_from_str("batteryLevel"),
            AttrKey::Hdop => string_from_str("hdop"),
            AttrKey::DriverUniqueId => string_from_str("driverUniqueId"),
            AttrKey::Charge => string_from_str("charge"),
            AttrKey::Event => string_from_str("event"),
            AttrKey::Motion => string_from_str("motion"),
            AttrKey::Odometer => string_from_str("odometer"),
            AttrKey::Mcc => string_from_str("mcc"),
            AttrKey::Mnc => string_from_str("mnc"),
            AttrKey::Lac => string_from_str("lac"),
            AttrKey::CellId => string_from_str("cellId"),
            AttrKey::Custom(s) => string_from_str(s.as_str()),
        }
    }
}

/// Values of position attributes.
#[derive(Debug, Clone, PartialEq)]
pub enum AttrValue {
    Int(i64),
    Bool(bool),
    Text(String),
    Number(Quantity),
    /// An integer percentage of a fraction written as a decimal (in the
    /// syntax that `f64`'s parser accepts): `(x * 100.0) as i64`.
    Percent(String),
}

pub enum AttrValueModel {
    Int(i64),
    Bool(bool),
    Text(Seq<char>),
    Number(QuantityModel),
    Percent(Seq<char>),
}

impl View for AttrValue {
    type V = AttrValueModel;

    open spec fn view(&self) -> AttrValueModel {
        match self {
            AttrValue::Int(v) => AttrValueModel::Int(*v),
            AttrValue::Bool(b) => AttrValueModel::Bool(*b),
            AttrValue::Text(s) => AttrValueModel::Text(s@),
            AttrValue::Number(q) => AttrValueModel::Number(q@),
            AttrValue::Percent(s) => AttrValueModel::Percent(s@),
        }
    }
}

/// One attribute of a position.
#[derive(Debug, Clone, PartialEq)]
pub struct Attribute {
    pub key: AttrKey,
    pub value: AttrValue,
}

pub struct AttributeModel {
    pub key: AttrKeyModel,
    pub value: AttrValueModel,
}

impl View for Attribute {
    type V = AttributeModel;

    open spec fn view(&self) -> AttributeModel {
        AttributeModel { key: self.key@, value: self.value@ }
    }
}

pub open spec fn attr(key: AttrKeyModel, value: AttrValueModel) -> AttributeModel {
    AttributeModel { key, value }
}

/// A decoded position report.
#[derive(Debug, Clone, PartialEq)]
pub struct Position {
    pub protocol: ProtocolKind,
    pub device_id: i64,
    pub valid: bool,
    /// Fix time in milliseconds since the Unix epoch; `None` when the message
    /// carried none, and the time of receipt stands for it.
    pub fix_time: Option<i64>,
    /// Degrees, north positive.
    pub latitude: Quantity,
    /// Degrees, east positive.
    pub longitude: Quantity,
    /// Meters.
    pub altitude: Quantity,
    pub speed: Quantity,
    pub speed_unit: SpeedUnit,
    /// Degrees.
    pub course: Quantity,
    /// Meters.
    pub accuracy: Quantity,
    /// Attributes in the order they were set; a later one of the same key
    /// replaces an earlier one.
    pub attributes: Vec<Attribute>,
    pub alarms: Vec<Alarm>,
}

pub struct PositionModel {
    pub protocol: ProtocolKind,
    pub device_id: i64,
    pub valid: bool,
    pub fix_time: Option<i64>,
    pub latitude: QuantityModel,
    pub longitude: QuantityModel,
    pub altitude: QuantityModel,
    pub speed: QuantityModel,
    pub speed_unit: SpeedUnit,
    pub course: QuantityModel,
    pub accuracy: QuantityModel,
    pub attributes: Seq<AttributeModel>,
    pub alarms: Seq<Alarm>,
}

impl View for Position {
    type V = PositionModel;

    open spec fn view(&self) -> PositionModel {
        PositionModel {
            protocol: self.protocol,
            device_id: self.device_id,
            valid: self.valid,
            fix_time: self.fix_time,
            latitude: self.latitude@,
            longitude: self.longitude@,
            altitude: self.altitude@,
            speed: self.speed@,
            speed_unit: self.speed_unit,
            course: self.course@,
            accuracy: self.accuracy@,
            attributes: self.attributes@.map_values(|a: Attribute| a@),
            alarms: self.alarms@,
        }
    }
}

/// A fresh position: invalid, no fix time, every quantity zero, speed in
/// knots, no attributes and no alarms.
pub open spec fn new_position(protocol: ProtocolKind, device_id: i64) -> PositionModel {
    PositionModel {
        protocol,
        device_id,
        valid: false,
        fix_time: None,
        latitude: whole(0),
        longitude: whole(0),
        altitude: whole(0),
        speed: whole(0),
        speed_unit: SpeedUnit::Knots,
        course: whole(0),
        accuracy: whole(0),
        attributes: Seq::empty(),
        alarms: Seq::empty(),
    }
}

pub fn zero() -> (q: Quantity)
    ensures
        q@ == whole(0),
{
    Quantity::Scaled { value: 0, scale: 1 }
}

pub fn whole_quantity(v: i64) -> (q: Quantity)
    ensures
        q@ == whole(v as int),
{
    Quantity::Scaled { value: v, scale: 1 }
}

impl Position {
    pub fn new(protocol: ProtocolKind, device_id: i64) -> (p: Position)
        ensures
            p@ == new_position(protocol, device_id),
    {
        let p = Position {
            protocol,
            device_id,
            valid: false,
            fix_time: None,
            latitude: zero(),
            longitude: zero(),
            altitude: zero(),
            speed: zero(),
            speed_unit: SpeedUnit::Knots,
            course: zero(),
            accuracy: zero(),
            attributes: Vec::new(),
            alarms: Vec::new(),
        };
        assert(p@.attributes =~= Seq::<AttributeModel>::empty());
        p
    }

    /// Sets an attribute.
    pub fn set(&mut self, key: AttrKey, value: AttrValue)
        ensures
            final(self)@ == (PositionModel {
                attributes: old(self)@.attributes.push(attr(key@, value@)),
                ..old(self)@
            }),
    {
        let a = Attribute { key, value };
        self.attributes.push(a);
        assert(self@.attributes =~= old(self)@.attributes.push(attr(key@, value@)));
    }

    /// Adds an alarm.
    pub fn add_alarm(&mut self, alarm: Alarm)
        ensures
            final(self)@ == (PositionModel { alarms: old(self)@.alarms.push(alarm), ..old(self)@ }),
    {
        self.alarms.push(alarm);
    }
}

/// What the server knows of the device on one connection.
#[derive(Debug, Clone, PartialEq)]
pub struct DeviceSession {
    pub device_id: i64,
    pub unique_id: String,
    pub protocol: ProtocolKind,
}

impl DeviceSession {
    pub fn new(device_id: i64, unique_id: String, protocol: ProtocolKind) -> (s: DeviceSession)
        ensures
            s.device_id == device_id,
            s.unique_id == unique_id,
            s.protocol == protocol,
    {
        DeviceSession { device_id, unique_id, protocol }
    }

    /// A session of a device that has not identified itself yet.
    pub fn unauthenticated(protocol: ProtocolKind) -> (s: DeviceSession)
        ensures
            s.device_id == 0,
            s.unique_id@ == Seq::<char>::empty(),
            s.protocol == protocol,
    {
        DeviceSession { device_id: 0, unique_id: String::new(), protocol }
    }
}

/// A string attribute of a command.
#[derive(Debug, Clone, PartialEq)]
pub struct CommandAttribute {
    pub key: String,
    pub value: String,
}

/// A command for a device.
#[derive(Debug, Clone, PartialEq)]
pub struct Command {
    pub id: i64,
    pub device_id: i64,
    pub command_type: String,
    pub description: Option<String>,
    /// The command's string-valued attributes.
    pub attributes: Vec<CommandAttribute>,
}

pub const TYPE_ENGINE_STOP: &'static str = "engineStop";

pub const TYPE_ENGINE_RESUME: &'static str = "engineResume";

pub const TYPE_CUSTOM: &'static str = "custom";

pub const TYPE_ALARM_ARM: &'static str = "alarmArm";

pub const TYPE_ALARM_DISARM: &'static str = "alarmDisarm";

pub const TYPE_POSITION_PERIODIC: &'static str = "positionPeriodic";

pub const TYPE_POWER_OFF: &'static str = "powerOff";

pub const KEY_DATA: &'static str = "data";

pub const KEY_FREQUENCY: &'static str = "frequency";

/// The value of the first attribute with the key, if any.
pub open spec fn command_attribute(attrs: Seq<CommandAttribute>, key: Seq<char>) -> Option<Seq<char>>
    decreases attrs.len(),
{
    if attrs.len() == 0 {
        None
    } else if attrs[0].key@ == key {
        Some(attrs[0].value@)
    } else {
        command_attribute(attrs.drop_first(), key)
    }
}

impl Command {
    /// The string attribute with the key.
    pub fn get_string(&self, key: &str) -> (r: Option<&String>)
        ensures
            match r {
                Some(v) => command_attribute(self.attributes@, key@) == Some(v@),
                None => command_attribute(self.attributes@, key@) is None,
            },
    {
        let k = chars_of(key);
        let mut i: usize = 0;
        assert(self.attributes@.skip(0) =~= self.attributes@);
        while i < self.attributes.len()
            invariant
                i <= self.attributes.len(),
                command_attribute(self.attributes@, key@) == command_attribute(
                    self.attributes@.skip(i as int),
                    key@,
                ),
                k@ == key@,
            decreases self.attributes.len() - i,
        {
            let a = &self.attributes[i];
            let ka = chars_of(a.key.as_str());
            if chars_eq(&ka, &k) {
                return Some(&a.value);
            }
            assert(self.attributes@.skip(i as int).drop_first() =~= self.attributes@.skip(
                i as int + 1,
            ));
            i = i + 1;
        }
        None
    }
}

/// Errors of decoders and encoders.
#[derive(Debug, Clone, PartialEq)]
pub enum ProtocolError {
    InvalidData(String),
    InsufficientData,
    UnknownDevice(String),
    Decode(String),
    Encode(String),
    UnsupportedCommand(String),
}

} // verus!

verus! {

pub enum ProtocolErrorModel {
    InvalidData(Seq<char>),
    InsufficientData,
    UnknownDevice(Seq<char>),
    Decode(Seq<char>),
    Encode(Seq<char>),
    UnsupportedCommand(Seq<char>),
}

impl View for ProtocolError {
    type V = ProtocolErrorModel;

    open spec fn view(&self) -> ProtocolErrorModel {
        match self {
            ProtocolError::InvalidData(s) => ProtocolErrorModel::InvalidData(s@),
            ProtocolError::InsufficientData => ProtocolErrorModel::InsufficientData,
            ProtocolError::UnknownDevice(s) => ProtocolErrorModel::UnknownDevice(s@),
            ProtocolError::Decode(s) => ProtocolErrorModel::Decode(s@),
            ProtocolError::Encode(s) => ProtocolErrorModel::Encode(s@),
            ProtocolError::UnsupportedCommand(s) => ProtocolErrorModel::UnsupportedCommand(s@),
        }
    }
}

/// What a decoder answered: no position, some positions, or an error.
pub enum DecodeOutcome {
    Nothing,
    Positions(Seq<PositionModel>),
    Failed(ProtocolErrorModel),
}

pub open spec fn positions_view(v: Seq<Position>) -> Seq<PositionModel> {
    v.map_values(|p: Position| p@)
}

pub open spec fn decode_outcome(r: Result<Option<Vec<Position>>, ProtocolError>) -> DecodeOutcome {
    match r {
        Ok(None) => DecodeOutcome::Nothing,
        Ok(Some(v)) => DecodeOutcome::Positions(positions_view(v@)),
        Err(e) => DecodeOutcome::Failed(e@),
    }
}

/// A one-element vector holding the position.
pub fn single(p: Position) -> (v: Vec<Position>)
    ensures
        positions_view(v@) == seq![p@],
{
    let mut v: Vec<Position> = Vec::new();
    v.push(p);
    assert(positions_view(v@) =~= seq![p@]);
    v
}

} // verus!

verus! {

/// What an encoder answered: the bytes to send, or an error.
pub enum EncodeOutcome {
    Bytes(Seq<u8>),
    Failed(ProtocolErrorModel),
}

pub open spec fn encode_outcome(r: Result<Bytes, ProtocolError>) -> EncodeOutcome {
    match r {
        Ok(b) => EncodeOutcome::Bytes(bytes_view(b)),
        Err(e) => EncodeOutcome::Failed(e@),
    }
}

} // verus!
