//! Telemetry configuration and schema description.
//!
//! Device/build constants, the `DataEndpoint` and `DataType` enums, and the
//! per-endpoint / per-type metadata tables.
use vstd::prelude::*;

use crate::{
    EndpointMeta, EndpointsBroadcastMode, MessageClass, MessageDataType, MessageElement,
    MessageMeta, ReliableMode,
};

verus! {

/// Device identifier string attached to every packet built by this node.
pub const DEVICE_IDENTIFIER: &'static str = "TEST_PLATFORM";

/// Maximum number of recent received packet IDs tracked for duplicate detection.
pub const MAX_RECENT_RX_IDS: usize = 128;

/// Starting number of recent received packet IDs tracked for duplicate detection.
pub const STARTING_RECENT_RX_IDS: usize = 32;

/// Starting size of the internal router and relay queues in bytes.
pub const STARTING_QUEUE_SIZE: usize = 64;

/// Maximum size of the internal router and relay queues in bytes.
pub const MAX_QUEUE_SIZE: usize = 51200;

/// Queue growth multiplier, as the ratio `QUEUE_GROW_NUM / QUEUE_GROW_DEN`.
pub const QUEUE_GROW_NUM: usize = 3276;

/// Denominator of the queue growth multiplier.
pub const QUEUE_GROW_DEN: usize = 1024;

/// Minimum payload size (in bytes) before compression is considered.
pub const PAYLOAD_COMPRESS_THRESHOLD: usize = 16;

/// Compression level used when compressing payloads (0-10).
pub const PAYLOAD_COMPRESSION_LEVEL: u8 = 10;

/// Maximum length, in bytes, of a static UTF-8 string payload.
pub const STATIC_STRING_LENGTH: usize = 1024;

/// Maximum length, in bytes, of a static binary payload.
pub const STATIC_HEX_LENGTH: usize = 1024;

/// Maximum number of fractional digits used when rendering floats.
pub const STRING_PRECISION: usize = 8;

/// Payloads up to this many bytes are kept inline.
pub const STACK_PAYLOAD_SIZE: usize = 64;

/// Number of attempts made for a local handler before giving up.
pub const MAX_HANDLER_RETRIES: usize = 3;

/// Reliable retransmit timeout in milliseconds.
pub const RELIABLE_RETRANSMIT_MS: u64 = 200;

/// Maximum number of retransmit attempts.
pub const RELIABLE_MAX_RETRIES: u32 = 8;

/// Maximum pending reliable packets per (link, data type) stream.
pub const RELIABLE_MAX_PENDING: usize = 16;

/// Largest `DataEndpoint` discriminant.
pub const MAX_VALUE_DATA_ENDPOINT: u32 = 6;

/// Largest `DataType` discriminant.
pub const MAX_VALUE_DATA_TYPE: u32 = 14;

/// Destination endpoints of telemetry packets.
#[derive(Debug, Clone, Copy, PartialEq, Eq, Hash, PartialOrd, Ord, Structural)]
pub enum DataEndpoint {
    /// On-board SD card logger.
    SdCard,
    /// Ground station.
    GroundStation,
    /// Flight controller.
    FlightController,
    /// Radio link.
    Radio,
    /// Time sync routing endpoint.
    TimeSync,
    /// Discovery control endpoint.
    Discovery,
    /// Encoded telemetry error text.
    TelemetryError,
}

/// Logical message types.
#[derive(Debug, Clone, Copy, PartialEq, Eq, Hash, PartialOrd, Ord, Structural)]
pub enum DataType {
    /// GPS fix (2 x f32).
    GpsData,
    /// IMU sample (6 x f32).
    ImuData,
    /// Battery voltage (1 x f32).
    BatteryVoltage,
    /// Battery status (2 x f32).
    BatteryStatus,
    /// System status flags (8 x u8).
    SystemStatus,
    /// Barometer sample (3 x f32).
    BarometerData,
    /// Free-form text message.
    MessageData,
    /// Time source announce (priority, time_ms).
    TimeSyncAnnounce,
    /// Time sync request (seq, t1_ms).
    TimeSyncRequest,
    /// Time sync response (seq, t1_ms, t2_ms, t3_ms).
    TimeSyncResponse,
    /// Endpoint discovery advertisement.
    DiscoveryAnnounce,
    /// Time sync source discovery advertisement.
    DiscoveryTimeSyncSources,
    /// Reliable-delivery acknowledgement (type, seq).
    ReliableAck,
    /// Reliable-delivery retransmit request (type, seq).
    ReliablePacketRequest,
    /// Encoded telemetry error text.
    TelemetryError,
}

impl DataEndpoint {
    /// Discriminant of the endpoint.
    pub open spec fn spec_to_u32(self) -> u32 {
        match self {
            DataEndpoint::SdCard => 0,
            DataEndpoint::GroundStation => 1,
            DataEndpoint::FlightController => 2,
            DataEndpoint::Radio => 3,
            DataEndpoint::TimeSync => 4,
            DataEndpoint::Discovery => 5,
            DataEndpoint::TelemetryError => 6,
        }
    }

    /// Endpoint with discriminant `x`, if any.
    pub open spec fn spec_from_u32(x: u32) -> Option<DataEndpoint> {
        if x == 0 {
            Some(DataEndpoint::SdCard)
        } else if x == 1 {
            Some(DataEndpoint::GroundStation)
        } else if x == 2 {
            Some(DataEndpoint::FlightController)
        } else if x == 3 {
            Some(DataEndpoint::Radio)
        } else if x == 4 {
            Some(DataEndpoint::TimeSync)
        } else if x == 5 {
            Some(DataEndpoint::Discovery)
        } else if x == 6 {
            Some(DataEndpoint::TelemetryError)
        } else {
            None
        }
    }

    /// The numeric discriminant of this endpoint.
    pub fn to_u32(&self) -> (r: u32)
        ensures
            r == self.spec_to_u32(),
            r <= MAX_VALUE_DATA_ENDPOINT,
    {
        match self {
            DataEndpoint::SdCard => 0,
            DataEndpoint::GroundStation => 1,
            DataEndpoint::FlightController => 2,
            DataEndpoint::Radio => 3,
            DataEndpoint::TimeSync => 4,
            DataEndpoint::Discovery => 5,
            DataEndpoint::TelemetryError => 6,
        }
    }

    /// Convert a raw discriminant to an endpoint; `None` when out of range.
    pub fn try_from_u32(x: u32) -> (r: Option<DataEndpoint>)
        ensures
            r == DataEndpoint::spec_from_u32(x),
            r is Some <==> x <= MAX_VALUE_DATA_ENDPOINT,
            r matches Some(ep) ==> ep.spec_to_u32() == x,
    {
        if x == 0 {
            Some(DataEndpoint::SdCard)
        } else if x == 1 {
            Some(DataEndpoint::GroundStation)
        } else if x == 2 {
            Some(DataEndpoint::FlightController)
        } else if x == 3 {
            Some(DataEndpoint::Radio)
        } else if x == 4 {
            Some(DataEndpoint::TimeSync)
        } else if x == 5 {
            Some(DataEndpoint::Discovery)
        } else if x == 6 {
            Some(DataEndpoint::TelemetryError)
        } else {
            None
        }
    }
}

/// Decoding a discriminant gives back the endpoint that produced it.
pub proof fn lemma_endpoint_u32_roundtrip(ep: DataEndpoint)
    ensures
        DataEndpoint::spec_from_u32(ep.spec_to_u32()) == Some(ep),
        ep.spec_to_u32() <= MAX_VALUE_DATA_ENDPOINT,
{
}

/// Two endpoints with the same discriminant are the same endpoint.
pub proof fn lemma_endpoint_u32_injective(a: DataEndpoint, b: DataEndpoint)
    ensures
        a.spec_to_u32() == b.spec_to_u32() <==> a == b,
{
}

impl DataType {
    /// Discriminant of the data type.
    pub open spec fn spec_to_u32(self) -> u32 {
        match self {
            DataType::GpsData => 0,
            DataType::ImuData => 1,
            DataType::BatteryVoltage => 2,
            DataType::BatteryStatus => 3,
            DataType::SystemStatus => 4,
            DataType::BarometerData => 5,
            DataType::MessageData => 6,
            DataType::TimeSyncAnnounce => 7,
            DataType::TimeSyncRequest => 8,
            DataType::TimeSyncResponse => 9,
            DataType::DiscoveryAnnounce => 10,
            DataType::DiscoveryTimeSyncSources => 11,
            DataType::ReliableAck => 12,
            DataType::ReliablePacketRequest => 13,
            DataType::TelemetryError => 14,
        }
    }

    /// Data type with discriminant `x`, if any.
    pub open spec fn spec_from_u32(x: u32) -> Option<DataType> {
        if x == 0 {
            Some(DataType::GpsData)
        } else if x == 1 {
            Some(DataType::ImuData)
        } else if x == 2 {
            Some(DataType::BatteryVoltage)
        } else if x == 3 {
            Some(DataType::BatteryStatus)
        } else if x == 4 {
            Some(DataType::SystemStatus)
        } else if x == 5 {
            Some(DataType::BarometerData)
        } else if x == 6 {
            Some(DataType::MessageData)
        } else if x == 7 {
            Some(DataType::TimeSyncAnnounce)
        } else if x == 8 {
            Some(DataType::TimeSyncRequest)
        } else if x == 9 {
            Some(DataType::TimeSyncResponse)
        } else if x == 10 {
            Some(DataType::DiscoveryAnnounce)
        } else if x == 11 {
            Some(DataType::DiscoveryTimeSyncSources)
        } else if x == 12 {
            Some(DataType::ReliableAck)
        } else if x == 13 {
            Some(DataType::ReliablePacketRequest)
        } else if x == 14 {
            Some(DataType::TelemetryError)
        } else {
            None
        }
    }

    /// The numeric discriminant of this data type.
    pub fn to_u32(&self) -> (r: u32)
        ensures
            r == self.spec_to_u32(),
            r <= MAX_VALUE_DATA_TYPE,
    {
        match self {
            DataType::GpsData => 0,
            DataType::ImuData => 1,
            DataType::BatteryVoltage => 2,
            DataType::BatteryStatus => 3,
            DataType::SystemStatus => 4,
            DataType::BarometerData => 5,
            DataType::MessageData => 6,
            DataType::TimeSyncAnnounce => 7,
            DataType::TimeSyncRequest => 8,
            DataType::TimeSyncResponse => 9,
            DataType::DiscoveryAnnounce => 10,
            DataType::DiscoveryTimeSyncSources => 11,
            DataType::ReliableAck => 12,
            DataType::ReliablePacketRequest => 13,
            DataType::TelemetryError => 14,
        }
    }

    /// Convert a raw discriminant to a data type; `None` when out of range.
    pub fn try_from_u32(x: u32) -> (r: Option<DataType>)
        ensures
            r == DataType::spec_from_u32(x),
            r is Some <==> x <= MAX_VALUE_DATA_TYPE,
            r matches Some(t) ==> t.spec_to_u32() == x,
    {
        if x == 0 {
            Some(DataType::GpsData)
        } else if x == 1 {
            Some(DataType::ImuData)
        } else if x == 2 {
            Some(DataType::BatteryVoltage)
        } else if x == 3 {
            Some(DataType::BatteryStatus)
        } else if x == 4 {
            Some(DataType::SystemStatus)
        } else if x == 5 {
            Some(DataType::BarometerData)
        } else if x == 6 {
            Some(DataType::MessageData)
        } else if x == 7 {
            Some(DataType::TimeSyncAnnounce)
        } else if x == 8 {
            Some(DataType::TimeSyncRequest)
        } else if x == 9 {
            Some(DataType::TimeSyncResponse)
        } else if x == 10 {
            Some(DataType::DiscoveryAnnounce)
        } else if x == 11 {
            Some(DataType::DiscoveryTimeSyncSources)
        } else if x == 12 {
            Some(DataType::ReliableAck)
        } else if x == 13 {
            Some(DataType::ReliablePacketRequest)
        } else if x == 14 {
            Some(DataType::TelemetryError)
        } else {
            None
        }
    }
}

/// Decoding a discriminant gives back the data type that produced it.
pub proof fn lemma_data_type_u32_roundtrip(t: DataType)
    ensures
        DataType::spec_from_u32(t.spec_to_u32()) == Some(t),
        t.spec_to_u32() <= MAX_VALUE_DATA_TYPE,
{
}

/// Metadata of each endpoint, as a specification.
pub open spec fn spec_endpoint_meta(ep: DataEndpoint) -> EndpointMeta {
    match ep {
        DataEndpoint::SdCard => EndpointMeta { name: "SD_CARD", broadcast_mode: EndpointsBroadcastMode::Default },
        DataEndpoint::GroundStation => EndpointMeta { name: "GROUND_STATION", broadcast_mode: EndpointsBroadcastMode::Default },
        DataEndpoint::FlightController => EndpointMeta { name: "FLIGHT_CONTROLLER", broadcast_mode: EndpointsBroadcastMode::Default },
        DataEndpoint::Radio => EndpointMeta { name: "RADIO", broadcast_mode: EndpointsBroadcastMode::Default },
        DataEndpoint::TimeSync => EndpointMeta { name: "TIME_SYNC", broadcast_mode: EndpointsBroadcastMode::Default },
        DataEndpoint::Discovery => EndpointMeta { name: "DISCOVERY", broadcast_mode: EndpointsBroadcastMode::Default },
        DataEndpoint::TelemetryError => EndpointMeta { name: "TELEMETRY_ERROR", broadcast_mode: EndpointsBroadcastMode::Default },
    }
}

/// Metadata (name and broadcast mode) of an endpoint.
pub fn get_endpoint_meta(ep: DataEndpoint) -> (r: EndpointMeta)
    ensures
        r == spec_endpoint_meta(ep),
{
    match ep {
        DataEndpoint::SdCard => EndpointMeta { name: "SD_CARD", broadcast_mode: EndpointsBroadcastMode::Default },
        DataEndpoint::GroundStation => EndpointMeta { name: "GROUND_STATION", broadcast_mode: EndpointsBroadcastMode::Default },
        DataEndpoint::FlightController => EndpointMeta { name: "FLIGHT_CONTROLLER", broadcast_mode: EndpointsBroadcastMode::Default },
        DataEndpoint::Radio => EndpointMeta { name: "RADIO", broadcast_mode: EndpointsBroadcastMode::Default },
        DataEndpoint::TimeSync => EndpointMeta { name: "TIME_SYNC", broadcast_mode: EndpointsBroadcastMode::Default },
        DataEndpoint::Discovery => EndpointMeta { name: "DISCOVERY", broadcast_mode: EndpointsBroadcastMode::Default },
        DataEndpoint::TelemetryError => EndpointMeta { name: "TELEMETRY_ERROR", broadcast_mode: EndpointsBroadcastMode::Default },
    }
}

/// Element description of each data type, as a specification.
pub open spec fn spec_message_element(ty: DataType) -> MessageElement {
    match ty {
        DataType::GpsData => MessageElement::Static(2, MessageDataType::Float32, MessageClass::Data),
        DataType::ImuData => MessageElement::Static(6, MessageDataType::Float32, MessageClass::Data),
        DataType::BatteryVoltage => MessageElement::Static(1, MessageDataType::Float32, MessageClass::Data),
        DataType::BatteryStatus => MessageElement::Static(2, MessageDataType::Float32, MessageClass::Data),
        DataType::SystemStatus => MessageElement::Static(8, MessageDataType::UInt8, MessageClass::Data),
        DataType::BarometerData => MessageElement::Static(3, MessageDataType::Float32, MessageClass::Data),
        DataType::MessageData => MessageElement::Dynamic(MessageDataType::String, MessageClass::Data),
        DataType::TimeSyncAnnounce => MessageElement::Static(2, MessageDataType::UInt64, MessageClass::Data),
        DataType::TimeSyncRequest => MessageElement::Static(2, MessageDataType::UInt64, MessageClass::Data),
        DataType::TimeSyncResponse => MessageElement::Static(4, MessageDataType::UInt64, MessageClass::Data),
        DataType::DiscoveryAnnounce => MessageElement::Dynamic(MessageDataType::UInt32, MessageClass::Data),
        DataType::DiscoveryTimeSyncSources => MessageElement::Dynamic(MessageDataType::UInt8, MessageClass::Data),
        DataType::ReliableAck => MessageElement::Static(2, MessageDataType::UInt32, MessageClass::Data),
        DataType::ReliablePacketRequest => MessageElement::Static(2, MessageDataType::UInt32, MessageClass::Data),
        DataType::TelemetryError => MessageElement::Dynamic(MessageDataType::String, MessageClass::Error),
    }
}

/// Schema name of each data type, as a specification.
pub open spec fn spec_message_name(ty: DataType) -> &'static str {
    match ty {
        DataType::GpsData => "GPS_DATA",
        DataType::ImuData => "IMU_DATA",
        DataType::BatteryVoltage => "BATTERY_VOLTAGE",
        DataType::BatteryStatus => "BATTERY_STATUS",
        DataType::SystemStatus => "SYSTEM_STATUS",
        DataType::BarometerData => "BAROMETER_DATA",
        DataType::MessageData => "MESSAGE_DATA",
        DataType::TimeSyncAnnounce => "TIME_SYNC_ANNOUNCE",
        DataType::TimeSyncRequest => "TIME_SYNC_REQUEST",
        DataType::TimeSyncResponse => "TIME_SYNC_RESPONSE",
        DataType::DiscoveryAnnounce => "DISCOVERY_ANNOUNCE",
        DataType::DiscoveryTimeSyncSources => "DISCOVERY_TIMESYNC_SOURCES",
        DataType::ReliableAck => "RELIABLE_ACK",
        DataType::ReliablePacketRequest => "RELIABLE_PACKET_REQUEST",
        DataType::TelemetryError => "TELEMETRY_ERROR",
    }
}

/// Default destination endpoints of each data type, as a specification.
pub open spec fn spec_default_endpoints(ty: DataType) -> Seq<DataEndpoint> {
    match ty {
        DataType::TimeSyncAnnounce | DataType::TimeSyncRequest | DataType::TimeSyncResponse => seq![DataEndpoint::TimeSync],
        DataType::DiscoveryAnnounce | DataType::DiscoveryTimeSyncSources => seq![DataEndpoint::Discovery],
        DataType::ReliableAck | DataType::ReliablePacketRequest | DataType::TelemetryError => seq![DataEndpoint::TelemetryError],
        DataType::SystemStatus => seq![DataEndpoint::SdCard],
        _ => seq![DataEndpoint::SdCard, DataEndpoint::GroundStation],
    }
}

/// Reliable delivery mode of each data type, as a specification.
pub open spec fn spec_reliable_mode(ty: DataType) -> ReliableMode {
    match ty {
        DataType::TelemetryError => ReliableMode::Ordered,
        _ => ReliableMode::Disabled,
    }
}

/// Default destination endpoints of a data type, freshly allocated.
pub fn default_endpoints(ty: DataType) -> (r: Vec<DataEndpoint>)
    ensures
        r@ == spec_default_endpoints(ty),
{
    match ty {
        DataType::TimeSyncAnnounce | DataType::TimeSyncRequest | DataType::TimeSyncResponse => vec![DataEndpoint::TimeSync],
        DataType::DiscoveryAnnounce | DataType::DiscoveryTimeSyncSources => vec![DataEndpoint::Discovery],
        DataType::ReliableAck | DataType::ReliablePacketRequest | DataType::TelemetryError => vec![DataEndpoint::TelemetryError],
        DataType::SystemStatus => vec![DataEndpoint::SdCard],
        _ => vec![DataEndpoint::SdCard, DataEndpoint::GroundStation],
    }
}

/// Full schema metadata of a data type.
pub fn get_message_meta(ty: DataType) -> (r: MessageMeta)
    ensures
        r.spec_matches(ty),
{
    let element = match ty {
        DataType::GpsData => MessageElement::Static(2, MessageDataType::Float32, MessageClass::Data),
        DataType::ImuData => MessageElement::Static(6, MessageDataType::Float32, MessageClass::Data),
        DataType::BatteryVoltage => MessageElement::Static(1, MessageDataType::Float32, MessageClass::Data),
        DataType::BatteryStatus => MessageElement::Static(2, MessageDataType::Float32, MessageClass::Data),
        DataType::SystemStatus => MessageElement::Static(8, MessageDataType::UInt8, MessageClass::Data),
        DataType::BarometerData => MessageElement::Static(3, MessageDataType::Float32, MessageClass::Data),
        DataType::MessageData => MessageElement::Dynamic(MessageDataType::String, MessageClass::Data),
        DataType::TimeSyncAnnounce => MessageElement::Static(2, MessageDataType::UInt64, MessageClass::Data),
        DataType::TimeSyncRequest => MessageElement::Static(2, MessageDataType::UInt64, MessageClass::Data),
        DataType::TimeSyncResponse => MessageElement::Static(4, MessageDataType::UInt64, MessageClass::Data),
        DataType::DiscoveryAnnounce => MessageElement::Dynamic(MessageDataType::UInt32, MessageClass::Data),
        DataType::DiscoveryTimeSyncSources => MessageElement::Dynamic(MessageDataType::UInt8, MessageClass::Data),
        DataType::ReliableAck => MessageElement::Static(2, MessageDataType::UInt32, MessageClass::Data),
        DataType::ReliablePacketRequest => MessageElement::Static(2, MessageDataType::UInt32, MessageClass::Data),
        DataType::TelemetryError => MessageElement::Dynamic(MessageDataType::String, MessageClass::Error),
    };
    let name = match ty {
        DataType::GpsData => "GPS_DATA",
        DataType::ImuData => "IMU_DATA",
        DataType::BatteryVoltage => "BATTERY_VOLTAGE",
        DataType::BatteryStatus => "BATTERY_STATUS",
        DataType::SystemStatus => "SYSTEM_STATUS",
        DataType::BarometerData => "BAROMETER_DATA",
        DataType::MessageData => "MESSAGE_DATA",
        DataType::TimeSyncAnnounce => "TIME_SYNC_ANNOUNCE",
        DataType::TimeSyncRequest => "TIME_SYNC_REQUEST",
        DataType::TimeSyncResponse => "TIME_SYNC_RESPONSE",
        DataType::DiscoveryAnnounce => "DISCOVERY_ANNOUNCE",
        DataType::DiscoveryTimeSyncSources => "DISCOVERY_TIMESYNC_SOURCES",
        DataType::ReliableAck => "RELIABLE_ACK",
        DataType::ReliablePacketRequest => "RELIABLE_PACKET_REQUEST",
        DataType::TelemetryError => "TELEMETRY_ERROR",
    };
    let reliable = match ty {
        DataType::TelemetryError => ReliableMode::Ordered,
        _ => ReliableMode::Disabled,
    };
    MessageMeta { name, element, endpoints: default_endpoints(ty), reliable }
}

/// Endpoint with discriminant `i` (for `i <= MAX_VALUE_DATA_ENDPOINT`).
pub open spec fn endpoint_at(i: nat) -> DataEndpoint {
    DataEndpoint::spec_from_u32(i as u32).unwrap()
}

/// The distinct members of `eps` among the first `n` discriminants, in
/// ascending discriminant order.
pub open spec fn canonical_upto(eps: Seq<DataEndpoint>, n: nat) -> Seq<DataEndpoint>
    decreases n,
{
    if n == 0 {
        Seq::empty()
    } else if eps.contains(endpoint_at((n - 1) as nat)) {
        canonical_upto(eps, (n - 1) as nat).push(endpoint_at((n - 1) as nat))
    } else {
        canonical_upto(eps, (n - 1) as nat)
    }
}

/// The distinct endpoints of `eps` in ascending discriminant order.
pub open spec fn spec_canonical_endpoints(eps: Seq<DataEndpoint>) -> Seq<DataEndpoint> {
    canonical_upto(eps, (MAX_VALUE_DATA_ENDPOINT + 1) as nat)
}

/// Whether `ep` occurs in `eps`.
pub fn contains_endpoint(eps: &[DataEndpoint], ep: DataEndpoint) -> (r: bool)
    ensures
        r == eps@.contains(ep),
{
    let mut i: usize = 0;
    while i < eps.len()
        invariant
            i <= eps.len(),
            forall|j: int| 0 <= j < i ==> eps@[j] != ep,
        decreases eps.len() - i,
    {
        if eps[i] == ep {
            assert(eps@[i as int] == ep);
            return true;
        }
        i = i + 1;
    }
    false
}

/// The distinct endpoints of `eps`, sorted by discriminant.
pub fn canonical_endpoints(eps: &[DataEndpoint]) -> (r: Vec<DataEndpoint>)
    ensures
        r@ == spec_canonical_endpoints(eps@),
{
    let mut out: Vec<DataEndpoint> = Vec::new();
    let mut i: u32 = 0;
    while i <= MAX_VALUE_DATA_ENDPOINT
        invariant
            i <= MAX_VALUE_DATA_ENDPOINT + 1,
            out@ == canonical_upto(eps@, i as nat),
        decreases MAX_VALUE_DATA_ENDPOINT + 1 - i,
    {
        let ep = DataEndpoint::try_from_u32(i).unwrap();
        if contains_endpoint(eps, ep) {
            out.push(ep);
        }
        i = i + 1;
    }
    out
}

/// An endpoint is among the first `n` canonical endpoints exactly when it
/// occurs in `eps` and its discriminant is below `n`; there are at most `n`.
pub proof fn lemma_canonical_upto_contains(eps: Seq<DataEndpoint>, n: nat, ep: DataEndpoint)
    requires
        n <= MAX_VALUE_DATA_ENDPOINT + 1,
    ensures
        canonical_upto(eps, n).contains(ep) <==> (eps.contains(ep) && ep.spec_to_u32() < n),
        canonical_upto(eps, n).len() <= n,
    decreases n,
{
    if n > 0 {
        lemma_canonical_upto_contains(eps, (n - 1) as nat, ep);
        let prev = canonical_upto(eps, (n - 1) as nat);
        let last = endpoint_at((n - 1) as nat);
        assert(last.spec_to_u32() == n - 1);
        if eps.contains(last) {
            assert(prev.push(last).last() == last);
            assert(prev.push(last).contains(ep) <==> (prev.contains(ep) || ep == last)) by {
                if prev.push(last).contains(ep) {
                    let k = choose|k: int| 0 <= k < prev.push(last).len() && prev.push(last)[k] == ep;
                    if k < prev.len() {
                        assert(prev[k] == ep);
                    }
                }
                if prev.contains(ep) {
                    let k = choose|k: int| 0 <= k < prev.len() && prev[k] == ep;
                    assert(prev.push(last)[k] == ep);
                }
            }
        }
    }
}

/// Canonical endpoints hold exactly the members of `eps`, at most one per
/// discriminant.
pub proof fn lemma_canonical_contains(eps: Seq<DataEndpoint>, ep: DataEndpoint)
    ensures
        spec_canonical_endpoints(eps).contains(ep) <==> eps.contains(ep),
        spec_canonical_endpoints(eps).len() <= MAX_VALUE_DATA_ENDPOINT + 1,
        eps.len() > 0 ==> spec_canonical_endpoints(eps).len() > 0,
{
    lemma_canonical_upto_contains(eps, (MAX_VALUE_DATA_ENDPOINT + 1) as nat, ep);
    if eps.len() > 0 {
        lemma_canonical_upto_contains(eps, (MAX_VALUE_DATA_ENDPOINT + 1) as nat, eps[0]);
        assert(eps.contains(eps[0]));
    }
}

/// Canonicalizing twice changes nothing.
pub proof fn lemma_canonical_idempotent(eps: Seq<DataEndpoint>)
    ensures
        spec_canonical_endpoints(spec_canonical_endpoints(eps)) == spec_canonical_endpoints(eps),
{
    let c = spec_canonical_endpoints(eps);
    assert forall|i: nat| i < MAX_VALUE_DATA_ENDPOINT + 1 implies (c.contains(
        #[trigger] endpoint_at(i),
    ) <==> eps.contains(endpoint_at(i))) by {
        lemma_canonical_contains(eps, endpoint_at(i));
    }
    lemma_canonical_upto_same(c, eps, (MAX_VALUE_DATA_ENDPOINT + 1) as nat);
}

/// Two endpoint lists with the same members have the same canonical prefix.
pub proof fn lemma_canonical_upto_same(a: Seq<DataEndpoint>, b: Seq<DataEndpoint>, n: nat)
    requires
        n <= MAX_VALUE_DATA_ENDPOINT + 1,
        forall|i: nat| i < n ==> (a.contains(#[trigger] endpoint_at(i)) <==> b.contains(endpoint_at(i))),
    ensures
        canonical_upto(a, n) == canonical_upto(b, n),
    decreases n,
{
    if n > 0 {
        lemma_canonical_upto_same(a, b, (n - 1) as nat);
        assert(a.contains(endpoint_at((n - 1) as nat)) <==> b.contains(endpoint_at((n - 1) as nat)));
    }
}

} // verus!
