//! The telemetry router: named sides with transmit handlers, local endpoint
//! handlers, receive and transmit queues, duplicate suppression, relaying,
//! error reporting, discovery and time synchronization.
use vstd::prelude::*;
use std::io::Write;
use vstd::std_specs::cmp::PartialEqSpec;
use vstd::string::StringSliceAdditionalSpecFns;

use crate::config::{
    canonical_endpoints, contains_endpoint, spec_canonical_endpoints, spec_default_endpoints,
    spec_message_element, DataEndpoint, DataType, DEVICE_IDENTIFIER, MAX_HANDLER_RETRIES,
    MAX_QUEUE_SIZE, MAX_RECENT_RX_IDS, QUEUE_GROW_DEN, QUEUE_GROW_NUM, STARTING_QUEUE_SIZE,
    STARTING_RECENT_RX_IDS,
};
use crate::discovery::{
    self, DiscoveryCadenceState, TopologySideRoute, TopologySnapshot, DISCOVERY_ROUTE_TTL_MS,
};
use crate::le_bytes::{encode_slice_le, hash_bytes_u64, spec_encode_le, LeBytes, HASH_SEED};
use crate::queue::{
    lemma_suffix_push, lemma_suffix_refl, lemma_suffix_trans_append, lemma_suffix_trans_push, suffix_of,
    BoundedDeque, ByteCost,
};
use crate::serialize;
use crate::telemetry_packet::{spec_new, spec_packet_cost, view_result, PacketModel, TelemetryPacket};
use crate::text::{chars_to_string, push_quoted, push_str, push_u64, quoted_chars, str_eq};
use crate::timesync::{
    self, spec_advance, spec_partial_of, spec_to_network_time, spec_upsert, spec_without,
    ClockSourceModel, NetworkClock, NetworkTimeReading, PartialNetworkTime, SlewedNetworkClock,
    TimeSyncConfig, TimeSyncLeader, TimeSyncTracker,
};
use crate::{MessageElement, TelemetryError, TelemetryResult};

verus! {

/// How the router treats received packets.
#[derive(Debug, Clone, Copy, PartialEq, Eq, Structural)]
pub enum RouterMode {
    /// Local handlers are called, and packets with endpoints that need remote
    /// delivery are forwarded once to the other sides.
    Relay,
    /// Only local handlers are called.
    Sink,
}

/// Index of a router side.
pub type RouterSideId = usize;

/// Handles packets (a local endpoint or a side that takes packets).
pub trait PacketHandler {
    /// Handle one packet.
    fn handle_packet(&self, pkt: &TelemetryPacket) -> TelemetryResult<()>;
}

/// Handles wire bytes (a local endpoint or a side that takes bytes).
pub trait SerializedHandler {
    /// Handle one serialized packet.
    fn handle_bytes(&self, bytes: &[u8]) -> TelemetryResult<()>;
}

/// A monotonic time source.
pub trait Clock {
    /// Current time in milliseconds.
    fn now_ms(&self) -> u64;

    /// Current time in nanoseconds.
    fn now_ns(&self) -> u64;
}

/// A local endpoint handler: on packets or on wire bytes.
pub enum EndpointHandlerFn {
    Packet(Box<dyn PacketHandler>),
    Serialized(Box<dyn SerializedHandler>),
}

/// A handler registered for one local endpoint.
pub struct EndpointHandler {
    endpoint: DataEndpoint,
    handler: EndpointHandlerFn,
}

impl EndpointHandler {
    /// A handler that receives packets.
    pub fn new_packet_handler(endpoint: DataEndpoint, f: Box<dyn PacketHandler>) -> (r: Self)
        ensures
            r.spec_endpoint() == endpoint,
            r.spec_takes_packets(),
    {
        EndpointHandler { endpoint, handler: EndpointHandlerFn::Packet(f) }
    }

    /// A handler that receives wire bytes.
    pub fn new_serialized_handler(endpoint: DataEndpoint, f: Box<dyn SerializedHandler>) -> (r: Self)
        ensures
            r.spec_endpoint() == endpoint,
            !r.spec_takes_packets(),
    {
        EndpointHandler { endpoint, handler: EndpointHandlerFn::Serialized(f) }
    }

    /// The endpoint of the handler.
    pub closed spec fn spec_endpoint(&self) -> DataEndpoint {
        self.endpoint
    }

    /// Whether the handler takes packets (rather than bytes).
    pub closed spec fn spec_takes_packets(&self) -> bool {
        self.handler is Packet
    }

    /// The endpoint the handler is registered for.
    pub fn get_endpoint(&self) -> (r: DataEndpoint)
        ensures
            r == self.spec_endpoint(),
    {
        self.endpoint
    }

    /// The handler function.
    pub fn get_handler(&self) -> (r: &EndpointHandlerFn)
        ensures
            (r is Packet) == self.spec_takes_packets(),
    {
        &self.handler
    }
}

/// The transmit handler of a side.
pub enum RouterTxHandlerFn {
    Serialized(Box<dyn SerializedHandler>),
    Packet(Box<dyn PacketHandler>),
}

/// Options of a side.
#[derive(Debug, Clone, Copy, PartialEq, Eq, Structural)]
pub struct RouterSideOptions {
    /// Reliable delivery requested for the side.
    pub reliable_enabled: bool,
    /// Link-local-only endpoints may be sent over this side.
    pub link_local_enabled: bool,
}

impl Default for RouterSideOptions {
    fn default() -> (r: Self)
        ensures
            !r.reliable_enabled,
            !r.link_local_enabled,
    {
        RouterSideOptions { reliable_enabled: false, link_local_enabled: false }
    }
}

/// One side of the router: a name, a transmit handler and options.
pub struct RouterSide {
    pub name: &'static str,
    pub tx_handler: RouterTxHandlerFn,
    pub opts: RouterSideOptions,
}

/// Local handlers and options of a router.
pub struct RouterConfig {
    handlers: Vec<EndpointHandler>,
    reliable_enabled: bool,
    timesync: Option<TimeSyncConfig>,
}

/// Endpoints of a list of handlers.
pub open spec fn handler_endpoints(h: Seq<EndpointHandler>) -> Seq<DataEndpoint> {
    h.map_values(|x: EndpointHandler| x.spec_endpoint())
}

impl RouterConfig {
    /// A configuration with the given local handlers, reliable delivery on
    /// and no time synchronization.
    pub fn new(handlers: Vec<EndpointHandler>) -> (r: Self)
        ensures
            r.spec_handlers() == handlers@,
            r.spec_reliable(),
            r.spec_timesync() is None,
    {
        RouterConfig { handlers, reliable_enabled: true, timesync: None }
    }

    /// The local handlers.
    pub closed spec fn spec_handlers(&self) -> Seq<EndpointHandler> {
        self.handlers@
    }

    /// Whether reliable delivery is enabled.
    pub closed spec fn spec_reliable(&self) -> bool {
        self.reliable_enabled
    }

    /// The time sync configuration.
    pub closed spec fn spec_timesync(&self) -> Option<TimeSyncConfig> {
        self.timesync
    }

    /// The same configuration with reliable delivery set.
    pub fn with_reliable_enabled(self, enabled: bool) -> (r: Self)
        ensures
            r.spec_handlers() == self.spec_handlers(),
            r.spec_reliable() == enabled,
            r.spec_timesync() == self.spec_timesync(),
    {
        RouterConfig { reliable_enabled: enabled, ..self }
    }

    /// The same configuration with time synchronization enabled.
    pub fn with_timesync(self, cfg: TimeSyncConfig) -> (r: Self)
        ensures
            r.spec_handlers() == self.spec_handlers(),
            r.spec_reliable() == self.spec_reliable(),
            r.spec_timesync() == Some(cfg),
    {
        RouterConfig { timesync: Some(cfg), ..self }
    }

    /// Whether some handler serves `ep`.
    pub fn is_local_endpoint(&self, ep: DataEndpoint) -> (r: bool)
        ensures
            r == handler_endpoints(self.spec_handlers()).contains(ep),
    {
        let mut i: usize = 0;
        while i < self.handlers.len()
            invariant
                i <= self.handlers@.len(),
                forall|j: int| 0 <= j < i ==> self.handlers@[j].spec_endpoint() != ep,
            decreases self.handlers@.len() - i,
        {
            if self.handlers[i].endpoint == ep {
                assert(handler_endpoints(self.handlers@)[i as int] == ep);
                return true;
            }
            i = i + 1;
        }
        proof {
            if handler_endpoints(self.handlers@).contains(ep) {
                let k = choose|k: int| 0 <= k < handler_endpoints(self.handlers@).len()
                    && handler_endpoints(self.handlers@)[k] == ep;
                assert(self.handlers@[k].spec_endpoint() == ep);
            }
        }
        false
    }

    fn has_handler_kind(&self, ep: DataEndpoint, packets: bool) -> (r: bool)
        ensures
            r == exists|j: int|
                0 <= j < self.spec_handlers().len() && self.spec_handlers()[j].spec_endpoint() == ep
                    && self.spec_handlers()[j].spec_takes_packets() == packets,
    {
        let mut i: usize = 0;
        while i < self.handlers.len()
            invariant
                i <= self.handlers@.len(),
                forall|j: int|
                    0 <= j < i ==> !(self.handlers@[j].spec_endpoint() == ep
                        && self.handlers@[j].spec_takes_packets() == packets),
            decreases self.handlers@.len() - i,
        {
            let is_packet = match &self.handlers[i].handler {
                EndpointHandlerFn::Packet(_) => true,
                EndpointHandlerFn::Serialized(_) => false,
            };
            if self.handlers[i].endpoint == ep && is_packet == packets {
                return true;
            }
            i = i + 1;
        }
        false
    }
}

impl Default for RouterConfig {
    fn default() -> (r: Self)
        ensures
            r.spec_handlers() == Seq::<EndpointHandler>::empty(),
            r.spec_reliable(),
            r.spec_timesync() is None,
    {
        RouterConfig { handlers: Vec::new(), reliable_enabled: true, timesync: None }
    }
}

// ---------------------------------------------------------------------------
// Items and queues
// ---------------------------------------------------------------------------

/// A unit of routed data: a packet or its wire bytes.
pub enum RouterItem {
    Packet(TelemetryPacket),
    Serialized(Vec<u8>),
}

/// Model of a routed item.
pub enum ItemModel {
    Packet(PacketModel),
    Serialized(Seq<u8>),
}

impl View for RouterItem {
    type V = ItemModel;

    open spec fn view(&self) -> ItemModel {
        match self {
            RouterItem::Packet(p) => ItemModel::Packet(p@),
            RouterItem::Serialized(b) => ItemModel::Serialized(b@),
        }
    }
}

impl Clone for RouterItem {
    fn clone(&self) -> (r: Self)
        ensures
            r@ == self@,
    {
        match self {
            RouterItem::Packet(p) => RouterItem::Packet(p.clone()),
            RouterItem::Serialized(b) => RouterItem::Serialized(b.clone()),
        }
    }
}

/// Queue cost of wire bytes: a fixed part plus their length.
pub open spec fn bytes_cost(n: nat) -> nat {
    if 16 + n > usize::MAX {
        usize::MAX as nat
    } else {
        16 + n
    }
}

/// Queue cost of an item.
pub open spec fn item_cost(m: ItemModel) -> nat {
    match m {
        ItemModel::Packet(p) => spec_packet_cost(p),
        ItemModel::Serialized(b) => bytes_cost(b.len()),
    }
}

fn item_byte_cost(d: &RouterItem) -> (r: usize)
    ensures
        r == item_cost(d@),
{
    match d {
        RouterItem::Packet(p) => p.byte_cost(),
        RouterItem::Serialized(b) => 16usize.saturating_add(b.len()),
    }
}

/// A received item and the side it came from.
pub struct RouterRxItem {
    pub src: Option<RouterSideId>,
    pub data: RouterItem,
}

impl ByteCost for RouterRxItem {
    open spec fn spec_byte_cost(&self) -> nat {
        item_cost(self.data@)
    }

    fn byte_cost(&self) -> (r: usize) {
        item_byte_cost(&self.data)
    }
}

/// An item to transmit: to every side that needs it, or to one side.
pub enum RouterTxItem {
    Broadcast(RouterItem),
    ToSide { dst: RouterSideId, data: RouterItem },
}

/// A queued transmission and whether local handlers are skipped for it.
pub struct TxQueued {
    pub item: RouterTxItem,
    pub ignore_local: bool,
}

/// The data of a transmission.
pub open spec fn tx_data(t: RouterTxItem) -> ItemModel {
    match t {
        RouterTxItem::Broadcast(d) => d@,
        RouterTxItem::ToSide { data, .. } => data@,
    }
}

impl ByteCost for TxQueued {
    open spec fn spec_byte_cost(&self) -> nat {
        let c = item_cost(tx_data(self.item));
        if c + 2 > usize::MAX {
            usize::MAX as nat
        } else {
            c + 2
        }
    }

    fn byte_cost(&self) -> (r: usize) {
        let c = match &self.item {
            RouterTxItem::Broadcast(d) => item_byte_cost(d),
            RouterTxItem::ToSide { data, .. } => item_byte_cost(data),
        };
        c.saturating_add(2)
    }
}

// ---------------------------------------------------------------------------
// Error reports
// ---------------------------------------------------------------------------

/// Debug name of an endpoint.
pub open spec fn endpoint_debug(ep: DataEndpoint) -> Seq<char> {
    match ep {
        DataEndpoint::SdCard => "SdCard"@,
        DataEndpoint::GroundStation => "GroundStation"@,
        DataEndpoint::FlightController => "FlightController"@,
        DataEndpoint::Radio => "Radio"@,
        DataEndpoint::TimeSync => "TimeSync"@,
        DataEndpoint::Discovery => "Discovery"@,
        DataEndpoint::TelemetryError => "TelemetryError"@,
    }
}

fn push_endpoint_debug(out: &mut Vec<char>, ep: DataEndpoint)
    ensures
        final(out)@ == old(out)@ + endpoint_debug(ep),
{
    match ep {
        DataEndpoint::SdCard => push_str(out, "SdCard"),
        DataEndpoint::GroundStation => push_str(out, "GroundStation"),
        DataEndpoint::FlightController => push_str(out, "FlightController"),
        DataEndpoint::Radio => push_str(out, "Radio"),
        DataEndpoint::TimeSync => push_str(out, "TimeSync"),
        DataEndpoint::Discovery => push_str(out, "Discovery"),
        DataEndpoint::TelemetryError => push_str(out, "TelemetryError"),
    }
}

/// Debug rendering of `Name("text")`.
pub open spec fn tuple_str(name: Seq<char>, s: &'static str) -> Seq<char> {
    name + "("@ + quoted_chars(s@) + ")"@
}

/// Debug rendering of `Name { expected: e, got: g }`.
pub open spec fn struct_sizes(name: Seq<char>, e: usize, g: usize) -> Seq<char> {
    name + " { expected: "@ + crate::text::decimal_chars(e as nat) + ", got: "@
        + crate::text::decimal_chars(g as nat) + " }"@
}

/// Debug rendering of an error.
pub open spec fn error_debug(e: TelemetryError) -> Seq<char> {
    match e {
        TelemetryError::GenericError(m) => match m {
            Some(s) => "GenericError(Some("@ + quoted_chars(s@) + "))"@,
            None => "GenericError(None)"@,
        },
        TelemetryError::InvalidType => "InvalidType"@,
        TelemetryError::SizeMismatch { expected, got } => struct_sizes("SizeMismatch"@, expected, got),
        TelemetryError::SizeMismatchError => "SizeMismatchError"@,
        TelemetryError::EmptyEndpoints => "EmptyEndpoints"@,
        TelemetryError::TimestampInvalid => "TimestampInvalid"@,
        TelemetryError::MissingPayload => "MissingPayload"@,
        TelemetryError::HandlerError(s) => tuple_str("HandlerError"@, s),
        TelemetryError::BadArg => "BadArg"@,
        TelemetryError::Serialize(s) => tuple_str("Serialize"@, s),
        TelemetryError::Deserialize(s) => tuple_str("Deserialize"@, s),
        TelemetryError::Io(s) => tuple_str("Io"@, s),
        TelemetryError::InvalidUtf8 => "InvalidUtf8"@,
        TelemetryError::TypeMismatch { expected, got } => struct_sizes("TypeMismatch"@, expected, got),
        TelemetryError::InvalidLinkId(s) => tuple_str("InvalidLinkId"@, s),
        TelemetryError::PacketTooLarge(s) => tuple_str("PacketTooLarge"@, s),
    }
}

fn push_tuple_str(out: &mut Vec<char>, name: &str, s: &'static str)
    ensures
        final(out)@ == old(out)@ + name@ + "("@ + quoted_chars(s@) + ")"@,
{
    let ghost start = out@;
    push_str(out, name);
    push_str(out, "(");
    push_quoted(out, s);
    push_str(out, ")");
    assert(out@ =~= start + name@ + "("@ + quoted_chars(s@) + ")"@);
}

fn push_struct_sizes(out: &mut Vec<char>, name: &str, e: usize, g: usize)
    ensures
        final(out)@ == old(out)@ + struct_sizes(name@, e, g),
{
    let ghost start = out@;
    push_str(out, name);
    push_str(out, " { expected: ");
    push_u64(out, e as u64);
    push_str(out, ", got: ");
    push_u64(out, g as u64);
    push_str(out, " }");
    assert(out@ =~= start + struct_sizes(name@, e, g));
}

fn push_error_debug(out: &mut Vec<char>, e: &TelemetryError)
    ensures
        final(out)@ == old(out)@ + error_debug(*e),
{
    let ghost start = out@;
    match e {
        TelemetryError::GenericError(m) => match m {
            Some(s) => {
                push_str(out, "GenericError(Some(");
                push_quoted(out, s.as_str());
                push_str(out, "))");
                assert(out@ =~= start + error_debug(*e));
            },
            None => push_str(out, "GenericError(None)"),
        },
        TelemetryError::InvalidType => push_str(out, "InvalidType"),
        TelemetryError::SizeMismatch { expected, got } => push_struct_sizes(out, "SizeMismatch", *expected, *got),
        TelemetryError::SizeMismatchError => push_str(out, "SizeMismatchError"),
        TelemetryError::EmptyEndpoints => push_str(out, "EmptyEndpoints"),
        TelemetryError::TimestampInvalid => push_str(out, "TimestampInvalid"),
        TelemetryError::MissingPayload => push_str(out, "MissingPayload"),
        TelemetryError::HandlerError(s) => push_tuple_str(out, "HandlerError", s),
        TelemetryError::BadArg => push_str(out, "BadArg"),
        TelemetryError::Serialize(s) => push_tuple_str(out, "Serialize", s),
        TelemetryError::Deserialize(s) => push_tuple_str(out, "Deserialize", s),
        TelemetryError::Io(s) => push_tuple_str(out, "Io", s),
        TelemetryError::InvalidUtf8 => push_str(out, "InvalidUtf8"),
        TelemetryError::TypeMismatch { expected, got } => push_struct_sizes(out, "TypeMismatch", *expected, *got),
        TelemetryError::InvalidLinkId(s) => push_tuple_str(out, "InvalidLinkId", s),
        TelemetryError::PacketTooLarge(s) => push_tuple_str(out, "PacketTooLarge", s),
    }
}

/// Text of the error report for a failed handler: for a local endpoint
/// `Handler for endpoint E failed on device "ID": ERR`, for a transmit
/// handler `TX Handler failed on device "ID": ERR`.
pub open spec fn handler_error_text(dest: Option<DataEndpoint>, e: TelemetryError) -> Seq<char> {
    match dest {
        Some(ep) => "Handler for endpoint "@ + endpoint_debug(ep) + " failed on device "@
            + quoted_chars(DEVICE_IDENTIFIER@) + ": "@ + error_debug(e),
        None => "TX Handler failed on device "@ + quoted_chars(DEVICE_IDENTIFIER@) + ": "@
            + error_debug(e),
    }
}

/// Text of the error report built from a packet header: the endpoint is
/// shown as an option (`Some(E)` or `None`).
pub open spec fn envelope_error_text(dest: Option<DataEndpoint>, e: TelemetryError) -> Seq<char> {
    "Handler for endpoint "@ + match dest {
        Some(ep) => "Some("@ + endpoint_debug(ep) + ")"@,
        None => "None"@,
    } + " failed on device "@ + quoted_chars(DEVICE_IDENTIFIER@) + ": "@ + error_debug(e)
}

/// Build the report text of a failed handler.
pub fn handler_error_message(dest: Option<DataEndpoint>, e: &TelemetryError) -> (r: String)
    ensures
        r@ == handler_error_text(dest, *e),
{
    let mut out: Vec<char> = Vec::new();
    match dest {
        Some(ep) => {
            push_str(&mut out, "Handler for endpoint ");
            push_endpoint_debug(&mut out, ep);
            push_str(&mut out, " failed on device ");
        },
        None => {
            push_str(&mut out, "TX Handler failed on device ");
        },
    }
    push_quoted(&mut out, DEVICE_IDENTIFIER);
    push_str(&mut out, ": ");
    push_error_debug(&mut out, e);
    proof {
        assert(out@ =~= handler_error_text(dest, *e));
    }
    chars_to_string(out)
}

/// Build the report text of a failed handler from a packet header.
pub fn envelope_error_message(dest: Option<DataEndpoint>, e: &TelemetryError) -> (r: String)
    ensures
        r@ == envelope_error_text(dest, *e),
{
    let mut out: Vec<char> = Vec::new();
    push_str(&mut out, "Handler for endpoint ");
    match dest {
        Some(ep) => {
            push_str(&mut out, "Some(");
            push_endpoint_debug(&mut out, ep);
            push_str(&mut out, ")");
        },
        None => push_str(&mut out, "None"),
    }
    push_str(&mut out, " failed on device ");
    push_quoted(&mut out, DEVICE_IDENTIFIER);
    push_str(&mut out, ": ");
    push_error_debug(&mut out, e);
    proof {
        assert(out@ =~= envelope_error_text(dest, *e));
    }
    chars_to_string(out)
}

/// Payload of an error report: the text's bytes, or for a static error type
/// the text cut or NUL-padded to the static size.
pub open spec fn spec_error_payload(msg: Seq<u8>) -> Seq<u8> {
    match spec_message_element(DataType::TelemetryError) {
        MessageElement::Static(_, _, _) => {
            let max = crate::spec_needed_message_size(DataType::TelemetryError);
            if msg.len() >= max {
                msg.take(max as int)
            } else {
                msg + Seq::new((max - msg.len()) as nat, |i: int| 0u8)
            }
        },
        MessageElement::Dynamic(_, _) => msg,
    }
}

fn make_error_payload(msg: &str) -> (r: Vec<u8>)
    ensures
        r@ == spec_error_payload(msg.spec_bytes()),
{
    let bytes = msg.as_bytes();
    match crate::get_message_meta(DataType::TelemetryError).element {
        MessageElement::Static(_, _, _) => {
            let max = crate::get_needed_message_size(DataType::TelemetryError);
            let mut out: Vec<u8> = Vec::new();
            let mut i: usize = 0;
            while i < max
                invariant
                    i <= max,
                    bytes@ == msg.spec_bytes(),
                    out@.len() == i,
                    forall|j: int| 0 <= j < i ==> out@[j] == (if j < bytes@.len() { bytes@[j] } else { 0u8 }),
                decreases max - i,
            {
                if i < bytes.len() {
                    out.push(bytes[i]);
                } else {
                    out.push(0u8);
                }
                i = i + 1;
            }
            proof {
                let m = bytes@;
                if m.len() >= max {
                    assert(out@ =~= m.take(max as int));
                } else {
                    assert(out@ =~= m + Seq::new((max - m.len()) as nat, |i: int| 0u8));
                }
            }
            out
        },
        MessageElement::Dynamic(_, _) => vstd::slice::slice_to_vec(bytes),
    }
}

/// The error report with text `text`, stamped `ts`, that sender `sender`
/// addresses to `recipients`.
pub open spec fn error_report(
    recipients: Seq<DataEndpoint>,
    sender: Seq<char>,
    ts: u64,
    text: Seq<char>,
) -> TelemetryResult<PacketModel> {
    crate::telemetry_packet::spec_new(
        DataType::TelemetryError,
        recipients,
        sender,
        ts,
        spec_error_payload(vstd::utf8::encode_utf8(text)),
    )
}

/// Recipients of an error report about a packet with endpoints `eps`: its
/// distinct local endpoints other than the failed one; when none is left,
/// its distinct endpoints other than the failed one.
pub open spec fn spec_error_recipients(
    eps: Seq<DataEndpoint>,
    local: Seq<DataEndpoint>,
    dest: Option<DataEndpoint>,
) -> Seq<DataEndpoint> {
    let locals = spec_canonical_endpoints(eps).filter(|ep: DataEndpoint| local.contains(ep) && Some(ep) != dest);
    if locals.len() > 0 {
        locals
    } else {
        spec_canonical_endpoints(eps).filter(|ep: DataEndpoint| Some(ep) != dest)
    }
}

fn filter_endpoints(eps: &Vec<DataEndpoint>, cfg: &RouterConfig, only_local: bool, dest: Option<DataEndpoint>) -> (r: Vec<DataEndpoint>)
    ensures
        only_local ==> r@ == eps@.filter(|ep: DataEndpoint| handler_endpoints(cfg.spec_handlers()).contains(ep) && Some(ep) != dest),
        !only_local ==> r@ == eps@.filter(|ep: DataEndpoint| Some(ep) != dest),
{
    let ghost local = handler_endpoints(cfg.spec_handlers());
    let ghost f1 = |ep: DataEndpoint| local.contains(ep) && Some(ep) != dest;
    let ghost f2 = |ep: DataEndpoint| Some(ep) != dest;
    let mut out: Vec<DataEndpoint> = Vec::new();
    let mut i: usize = 0;
    assert(eps@.take(0) =~= Seq::<DataEndpoint>::empty());
    proof {
        reveal(Seq::filter);
    }
    while i < eps.len()
        invariant
            i <= eps@.len(),
            local == handler_endpoints(cfg.spec_handlers()),
            f1 == (|ep: DataEndpoint| local.contains(ep) && Some(ep) != dest),
            f2 == (|ep: DataEndpoint| Some(ep) != dest),
            only_local ==> out@ == eps@.take(i as int).filter(f1),
            !only_local ==> out@ == eps@.take(i as int).filter(f2),
        decreases eps@.len() - i,
    {
        let ep = eps[i];
        let not_failed = match dest {
            Some(d) => ep != d,
            None => true,
        };
        let keep = not_failed && (!only_local || cfg.is_local_endpoint(ep));
        proof {
            assert(eps@.take(i + 1).drop_last() =~= eps@.take(i as int));
            assert(eps@.take(i + 1).last() == ep);
            assert(only_local ==> keep == f1(ep));
            assert(!only_local ==> keep == f2(ep));
            let t = eps@.take(i + 1);
            reveal(Seq::filter);
            assert(t.filter(f1) == (if f1(t.last()) {
                t.drop_last().filter(f1).push(t.last())
            } else {
                t.drop_last().filter(f1)
            }));
            assert(t.filter(f2) == (if f2(t.last()) {
                t.drop_last().filter(f2).push(t.last())
            } else {
                t.drop_last().filter(f2)
            }));
        }
        if keep {
            out.push(ep);
        }
        i = i + 1;
    }
    assert(eps@.take(i as int) =~= eps@);
    out
}

/// Recipients of an error report (see `spec_error_recipients`).
pub fn error_recipients(eps: &[DataEndpoint], cfg: &RouterConfig, dest: Option<DataEndpoint>) -> (r: Vec<DataEndpoint>)
    ensures
        r@ == spec_error_recipients(eps@, handler_endpoints(cfg.spec_handlers()), dest),
{
    let canon = canonical_endpoints(eps);
    let locals = filter_endpoints(&canon, cfg, true, dest);
    if locals.len() > 0 {
        locals
    } else {
        filter_endpoints(&canon, cfg, false, dest)
    }
}

// ---------------------------------------------------------------------------
// Logging
// ---------------------------------------------------------------------------

/// Outcome of building a logged packet from `n` values of width `w`:
/// a static type needs exactly its payload size, a dynamic one a whole
/// number of values; then the packet is built with the schema's endpoints.
pub open spec fn spec_log_packet<T: LeBytes>(
    sender: Seq<char>,
    ty: DataType,
    data: Seq<T>,
    timestamp: u64,
) -> TelemetryResult<PacketModel> {
    let got = data.len() * T::spec_width();
    match spec_message_element(ty) {
        MessageElement::Static(_, _, _) => if got != crate::spec_needed_message_size(ty) {
            Err(
                TelemetryError::SizeMismatch {
                    expected: crate::spec_needed_message_size(ty) as usize,
                    got: got as usize,
                },
            )
        } else {
            spec_new(ty, spec_default_endpoints(ty), sender, timestamp, spec_encode_le(data))
        },
        MessageElement::Dynamic(_, _) => spec_new(
            ty,
            spec_default_endpoints(ty),
            sender,
            timestamp,
            spec_encode_le(data),
        ),
    }
}

/// Logging `data` as `ty` stamped `ts` took `a` to `b` with outcome `r`:
/// a refused payload leaves the transmit queue as it was, an accepted one
/// is queued last for broadcast.
pub open spec fn log_queued<T: LeBytes>(
    a: &Router,
    b: &Router,
    r: TelemetryResult<()>,
    ty: DataType,
    data: Seq<T>,
    ts: u64,
) -> bool {
    &&& spec_log_packet(DEVICE_IDENTIFIER@, ty, data, ts) matches Err(e) ==> (r == Err::<(), TelemetryError>(e)
        && b.tx_queue_view() == a.tx_queue_view())
    &&& spec_log_packet(DEVICE_IDENTIFIER@, ty, data, ts) matches Ok(p) ==> (r is Ok ==> b.tx_queue_view().last()
        == (TxModel { to_side: None, data: ItemModel::Packet(p), ignore_local: false }))
}

/// Logging `data` as `ty` stamped `ts` took `a` to `b` with outcome `r`: a
/// refused payload is reported and changes nothing.
pub open spec fn log_refused<T: LeBytes>(
    a: &Router,
    b: &Router,
    r: TelemetryResult<()>,
    ty: DataType,
    data: Seq<T>,
    ts: u64,
) -> bool {
    spec_log_packet(DEVICE_IDENTIFIER@, ty, data, ts) matches Err(e) ==> (r == Err::<(), TelemetryError>(e)
        && same_routing(a, b))
}

/// When logging `data` as `ty` stamped `ts` succeeds, the built packet has
/// been handed to every local handler registered for one of its endpoints.
pub open spec fn log_handed<T: LeBytes>(
    a: &Router,
    b: &Router,
    r: TelemetryResult<()>,
    ty: DataType,
    data: Seq<T>,
    ts: u64,
) -> bool {
    spec_log_packet(DEVICE_IDENTIFIER@, ty, data, ts) matches Ok(p) ==> (r is Ok ==> (!carries_discovery(
        ItemModel::Packet(p),
    ) ==> local_handoffs_made(a, b, ItemModel::Packet(p))) && sides_handed(b, ItemModel::Packet(p)) && routed_as_planned(
        b,
        ItemModel::Packet(p),
    ))
}

/// When item `d` is flooded from `r` (see `flood_planned`), every side of
/// `r` has been handed it.
pub open spec fn sides_handed(r: &Router, d: ItemModel) -> bool {
    flood_planned(r, d) ==> forall|s: int| 0 <= s < r.num_sides() ==> #[trigger] side_delivered(r, s, d)
}

/// Build the packet that logging `data` as `ty` sends.
pub fn log_packet<T: LeBytes>(sender: &str, ty: DataType, data: &[T], timestamp: u64) -> (r: TelemetryResult<TelemetryPacket>)
    requires
        data@.len() * T::spec_width() <= usize::MAX,
    ensures
        view_result(r) == spec_log_packet(sender@, ty, data@, timestamp),
{
    let got = data.len() * T::width();
    let meta = crate::get_message_meta(ty);
    match meta.element {
        MessageElement::Static(_, _, _) => {
            let need = crate::get_needed_message_size(ty);
            if got != need {
                return Err(TelemetryError::SizeMismatch { expected: need, got });
            }
        },
        MessageElement::Dynamic(_, _) => {},
    }
    let payload = encode_slice_le(data);
    TelemetryPacket::new(ty, meta.endpoints.as_slice(), sender, timestamp, payload.as_slice())
}

// ---------------------------------------------------------------------------
// Clock
// ---------------------------------------------------------------------------

#[verifier::external_type_specification]
#[verifier::external_body]
pub struct ExInstant(std::time::Instant);

/// The current instant (`std::time::Instant::now`); nothing is claimed of it.
#[verifier::external_body]
fn instant_now() -> std::time::Instant {
    std::time::Instant::now()
}

/// Milliseconds elapsed since `start` (`Instant::elapsed`), saturated to
/// `u64`; nothing is claimed of the value, which depends on the time.
#[verifier::external_body]
fn elapsed_ms(start: &std::time::Instant) -> u64 {
    u64::try_from(start.elapsed().as_millis()).unwrap_or(u64::MAX)
}

/// Nanoseconds elapsed since `start` (`Instant::elapsed`), saturated to
/// `u64`; nothing is claimed of the value, which depends on the time.
#[verifier::external_body]
fn elapsed_ns(start: &std::time::Instant) -> u64 {
    u64::try_from(start.elapsed().as_nanos()).unwrap_or(u64::MAX)
}

/// Monotonic clock counting from its creation.
pub struct StdMonotonicClock {
    start: std::time::Instant,
}

impl StdMonotonicClock {
    /// A clock starting now.
    pub fn new() -> (r: Self) {
        StdMonotonicClock { start: instant_now() }
    }
}

impl Clock for StdMonotonicClock {
    fn now_ms(&self) -> u64 {
        elapsed_ms(&self.start)
    }

    fn now_ns(&self) -> u64 {
        elapsed_ns(&self.start)
    }
}

/// `ms * 1_000_000`, saturating.
pub fn ms_to_ns_saturating(ms: u64) -> (r: u64)
    ensures
        r == (if ms * 1_000_000 > u64::MAX {
            u64::MAX
        } else {
            (ms * 1_000_000) as u64
        }),
{
    if ms > u64::MAX / 1_000_000 {
        u64::MAX
    } else {
        ms * 1_000_000
    }
}

// ---------------------------------------------------------------------------
// Router state
// ---------------------------------------------------------------------------

/// What a side has announced through discovery.
pub struct DiscoverySideState {
    reachable: Vec<DataEndpoint>,
    reachable_timesync_sources: Vec<String>,
    last_seen_ms: u64,
}

impl DiscoverySideState {
    fn empty() -> (r: Self)
        ensures
            r.reachable@.len() == 0,
            r.reachable_timesync_sources@.len() == 0,
            r.last_seen_ms == 0,
    {
        DiscoverySideState { reachable: Vec::new(), reachable_timesync_sources: Vec::new(), last_seen_ms: 0 }
    }

    fn clone_state(&self) -> (r: Self)
        ensures
            r.reachable@ == self.reachable@,
            r.reachable_timesync_sources@.map_values(|s: String| s@) == self.reachable_timesync_sources@.map_values(|s: String| s@),
            r.last_seen_ms == self.last_seen_ms,
    {
        DiscoverySideState {
            reachable: vstd::slice::slice_to_vec(self.reachable.as_slice()),
            reachable_timesync_sources: clone_strings(&self.reachable_timesync_sources),
            last_seen_ms: self.last_seen_ms,
        }
    }
}

pub(crate) fn clone_strings(v: &Vec<String>) -> (r: Vec<String>)
    ensures
        r@.map_values(|s: String| s@) == v@.map_values(|s: String| s@),
{
    let mut out: Vec<String> = Vec::new();
    let mut i: usize = 0;
    while i < v.len()
        invariant
            i <= v@.len(),
            out@.len() == i,
            forall|j: int| 0 <= j < i ==> out@[j]@ == v@[j]@,
        decreases v@.len() - i,
    {
        let c = v[i].clone();
        out.push(c);
        i = i + 1;
    }
    assert(out@.map_values(|s: String| s@) =~= v@.map_values(|s: String| s@));
    out
}

/// A learned route.
struct RouteEntry {
    side: RouterSideId,
    state: DiscoverySideState,
}

/// A time sync request awaiting its response.
struct PendingTimeSyncRequest {
    seq: u64,
    t1_mono_ms: u64,
    source: String,
}

/// Latest sample from a remote time source.
struct RemoteTimeSyncSource {
    name: String,
    priority: u64,
    last_sample_mono_ms: u64,
    sample_unix_ms: u64,
}

/// Time synchronization state of a router.
struct TimeSyncRuntime {
    cfg: Option<TimeSyncConfig>,
    tracker: Option<TimeSyncTracker>,
    clock: NetworkClock,
    disciplined_clock: SlewedNetworkClock,
    remote_sources: Vec<RemoteTimeSyncSource>,
    next_seq: u64,
    next_announce_mono_ms: u64,
    next_request_mono_ms: u64,
    pending_request: Option<PendingTimeSyncRequest>,
}

fn slew_ppm(cfg: Option<TimeSyncConfig>) -> (r: u32)
    ensures
        r == (match cfg {
            Some(c) => c.max_slew_ppm,
            None => 50_000,
        }),
{
    match cfg {
        Some(c) => c.max_slew_ppm,
        None => TimeSyncConfig::default().max_slew_ppm,
    }
}

impl TimeSyncRuntime {
    fn new(cfg: Option<TimeSyncConfig>) -> (r: Self)
        ensures
            r.cfg == cfg,
            r.next_seq == 1,
            r.pending_request is None,
    {
        let tracker = match cfg {
            Some(c) => Some(TimeSyncTracker::new(c)),
            None => None,
        };
        TimeSyncRuntime {
            cfg,
            tracker,
            clock: NetworkClock::default(),
            disciplined_clock: SlewedNetworkClock::new(slew_ppm(cfg)),
            remote_sources: Vec::new(),
            next_seq: 1,
            next_announce_mono_ms: 0,
            next_request_mono_ms: 0,
            pending_request: None,
        }
    }
}

/// The telemetry router.
pub struct Router {
    sender: &'static str,
    mode: RouterMode,
    cfg: RouterConfig,
    sides: Vec<RouterSide>,
    received_queue: BoundedDeque<RouterRxItem>,
    transmit_queue: BoundedDeque<TxQueued>,
    recent_rx: BoundedDeque<u64>,
    routes: Vec<RouteEntry>,
    cadence: DiscoveryCadenceState,
    clock: Box<dyn Clock>,
    ts: TimeSyncRuntime,
    handed: Ghost<Seq<Delivery>>,
}

/// A hand-off of an item to a handler, in the order the router makes them.
pub enum Delivery {
    /// To the local handler registered at index `handler`.
    Local { handler: usize, data: ItemModel },
    /// To the transmit handler of side `side`.
    Side { side: usize, data: ItemModel },
}

/// Model of a received item in the queue.
pub struct RxModel {
    pub src: Option<RouterSideId>,
    pub data: ItemModel,
}

/// Model of a queued transmission.
pub struct TxModel {
    pub to_side: Option<RouterSideId>,
    pub data: ItemModel,
    pub ignore_local: bool,
}

/// Model of a received item.
pub open spec fn rx_model(x: RouterRxItem) -> RxModel {
    RxModel { src: x.src, data: x.data@ }
}

/// Model of a transmission.
pub open spec fn tx_model(x: TxQueued) -> TxModel {
    match x.item {
        RouterTxItem::Broadcast(d) => TxModel { to_side: None, data: d@, ignore_local: x.ignore_local },
        RouterTxItem::ToSide { dst, data } => TxModel { to_side: Some(dst), data: data@, ignore_local: x.ignore_local },
    }
}

/// De-duplication identifier of an item: the packet identifier, read from
/// the wire for bytes, or the byte hash of malformed bytes.
pub open spec fn spec_item_id(d: ItemModel) -> u64 {
    match d {
        ItemModel::Packet(p) => crate::telemetry_packet::spec_packet_id(p),
        ItemModel::Serialized(b) => match serialize::spec_packet_id_from_wire(b) {
            Ok(id) => id,
            Err(_) => crate::le_bytes::spec_hash_bytes(HASH_SEED, b),
        },
    }
}

impl Router {
    /// Internal consistency of the queues.
    pub closed spec fn wf(&self) -> bool {
        &&& self.sender == DEVICE_IDENTIFIER
        &&& self.received_queue.wf()
        &&& self.transmit_queue.wf()
        &&& self.recent_rx.wf()
        &&& self.recent_rx.spec_max_bytes() == MAX_RECENT_RX_IDS * 8
        &&& self.received_queue.spec_max_bytes() == MAX_QUEUE_SIZE
        &&& self.transmit_queue.spec_max_bytes() == MAX_QUEUE_SIZE
    }

    /// The receive queue, front first.
    pub closed spec fn rx_queue_view(&self) -> Seq<RxModel> {
        self.received_queue@.map_values(|x: RouterRxItem| rx_model(x))
    }

    /// The transmit queue, front first.
    pub closed spec fn tx_queue_view(&self) -> Seq<TxModel> {
        self.transmit_queue@.map_values(|x: TxQueued| tx_model(x))
    }

    /// Identifiers of recently seen items, oldest first.
    pub closed spec fn recent_ids(&self) -> Seq<u64> {
        self.recent_rx@
    }

    /// Number of sides.
    pub closed spec fn num_sides(&self) -> nat {
        self.sides@.len()
    }

    /// The mode of the router.
    pub closed spec fn spec_mode(&self) -> RouterMode {
        self.mode
    }

    /// The local handlers of the router.
    pub closed spec fn handlers_view(&self) -> Seq<EndpointHandler> {
        self.cfg.spec_handlers()
    }

    /// The network time read at monotonic time `now_ns`: the disciplined
    /// clock's Unix time where it has one, else the time sources' reading.
    pub closed spec fn time_reading_at(&self, now_ns: u64) -> Option<NetworkTimeReading> {
        match timesync::spec_read_unix_ms(self.ts.disciplined_clock@, now_ns) {
            Some(unix_ms) => Some(
                NetworkTimeReading {
                    time: timesync::spec_partial_of(timesync::spec_from_unix_ns(unix_ms * 1_000_000).unwrap()),
                    unix_time_ms: Some(unix_ms),
                },
            ),
            None => timesync::spec_current_time(self.ts.clock@, now_ns),
        }
    }

    /// `ms` can stamp a packet: it is the network's Unix time at some
    /// instant, or some instant has no network Unix time (the monotonic
    /// clock then gives the stamp).
    #[verifier::opaque]
    pub closed spec fn stamp_candidate(&self, ms: u64) -> bool {
        (exists|now_ns: u64| #[trigger] self.time_reading_at(now_ns) matches Some(t) && t.unix_time_ms == Some(ms))
            || exists|now_ns: u64| !(#[trigger] self.time_reading_at(now_ns) matches Some(t) && t.unix_time_ms is Some)
    }

    /// The number of routes learned from discovery.
    pub closed spec fn route_count(&self) -> nat {
        self.routes@.len()
    }

    /// The side of learned route `i`.
    pub closed spec fn route_side(&self, i: int) -> RouterSideId {
        self.routes@[i].side
    }

    /// The endpoints learned route `i` reaches.
    pub closed spec fn route_reachable(&self, i: int) -> Seq<DataEndpoint> {
        self.routes@[i].state.reachable@
    }

    /// When learned route `i` was last heard.
    pub closed spec fn route_last_seen(&self, i: int) -> u64 {
        self.routes@[i].state.last_seen_ms
    }

    /// The time sources learned route `i` reaches.
    pub closed spec fn route_sources(&self, i: int) -> Seq<Seq<char>> {
        self.routes@[i].state.reachable_timesync_sources@.map_values(|x: String| x@)
    }

    /// Whether side `s` allows link-local traffic.
    pub closed spec fn side_link_local(&self, s: int) -> bool {
        self.sides@[s].opts.link_local_enabled
    }

    /// `self` has the sides, learned routes and configuration of `other`.
    pub closed spec fn same_topology(&self, other: &Router) -> bool {
        &&& self.sides == other.sides
        &&& self.routes == other.routes
        &&& self.cfg == other.cfg
    }

    /// Whether the transmit handler of side `s` takes packets (else bytes).
    pub closed spec fn side_takes_packets(&self, s: int) -> bool {
        self.sides@[s].tx_handler is Packet
    }

    /// The hand-offs of items to handlers made so far, oldest first.
    pub closed spec fn deliveries(&self) -> Seq<Delivery> {
        self.handed@
    }

    /// The time sync configuration in force.
    pub closed spec fn timesync_cfg(&self) -> Option<TimeSyncConfig> {
        self.ts.cfg
    }

    /// The network time sources, in insertion order.
    pub closed spec fn time_sources(&self) -> Seq<ClockSourceModel> {
        self.ts.clock@
    }

    /// A router with the given mode, configuration and clock.
    pub fn new_with_clock(mode: RouterMode, cfg: RouterConfig, clock: Box<dyn Clock>) -> (r: Self)
        ensures
            r.wf(),
            r.spec_mode() == mode,
            r.num_sides() == 0,
            r.rx_queue_view().len() == 0,
            r.tx_queue_view().len() == 0,
            r.recent_ids().len() == 0,
    {
        let ts_cfg = cfg.timesync;
        let r = Router {
            sender: DEVICE_IDENTIFIER,
            mode,
            cfg,
            sides: Vec::new(),
            received_queue: BoundedDeque::new(MAX_QUEUE_SIZE, STARTING_QUEUE_SIZE, QUEUE_GROW_NUM, QUEUE_GROW_DEN),
            transmit_queue: BoundedDeque::new(MAX_QUEUE_SIZE, STARTING_QUEUE_SIZE, QUEUE_GROW_NUM, QUEUE_GROW_DEN),
            recent_rx: BoundedDeque::new(MAX_RECENT_RX_IDS * 8, STARTING_RECENT_RX_IDS * 8, QUEUE_GROW_NUM, QUEUE_GROW_DEN),
            routes: Vec::new(),
            cadence: DiscoveryCadenceState::default(),
            clock,
            ts: TimeSyncRuntime::new(ts_cfg),
            handed: Ghost(Seq::empty()),
        };
        assert(r.rx_queue_view() =~= Seq::<RxModel>::empty());
        assert(r.tx_queue_view() =~= Seq::<TxModel>::empty());
        r
    }

    /// A router with the given mode and configuration, timed by a monotonic
    /// clock started now.
    pub fn new(mode: RouterMode, cfg: RouterConfig) -> (r: Self)
        ensures
            r.wf(),
            r.spec_mode() == mode,
            r.num_sides() == 0,
            r.rx_queue_view().len() == 0,
            r.tx_queue_view().len() == 0,
            r.recent_ids().len() == 0,
    {
        Router::new_with_clock(mode, cfg, Box::new(StdMonotonicClock::new()))
    }

    fn add_side(&mut self, name: &'static str, tx_handler: RouterTxHandlerFn, opts: RouterSideOptions) -> (r: RouterSideId)
        requires
            old(self).wf(),
        ensures
            final(self).deliveries() == old(self).deliveries(),
            final(self).wf(),
            r == old(self).num_sides(),
            final(self).num_sides() == old(self).num_sides() + 1,
            final(self).rx_queue_view() == old(self).rx_queue_view(),
            final(self).tx_queue_view() == old(self).tx_queue_view(),
            final(self).recent_ids() == old(self).recent_ids(),
            final(self).spec_mode() == old(self).spec_mode(),
    {
        let id = self.sides.len();
        self.sides.push(RouterSide { name, tx_handler, opts });
        let now = self.clock.now_ms();
        self.cadence.on_topology_change(now);
        id
    }

    /// Add a side whose transmit handler takes wire bytes; returns its index.
    pub fn add_side_serialized(&mut self, name: &'static str, tx: Box<dyn SerializedHandler>) -> (r: RouterSideId)
        requires
            old(self).wf(),
        ensures
            final(self).deliveries() == old(self).deliveries(),
            final(self).wf(),
            r == old(self).num_sides(),
            final(self).num_sides() == old(self).num_sides() + 1,
            final(self).rx_queue_view() == old(self).rx_queue_view(),
            final(self).tx_queue_view() == old(self).tx_queue_view(),
    {
        self.add_side(name, RouterTxHandlerFn::Serialized(tx), RouterSideOptions::default())
    }

    /// Add a byte side with explicit options; returns its index.
    pub fn add_side_serialized_with_options(&mut self, name: &'static str, tx: Box<dyn SerializedHandler>, opts: RouterSideOptions) -> (r: RouterSideId)
        requires
            old(self).wf(),
        ensures
            final(self).deliveries() == old(self).deliveries(),
            final(self).wf(),
            r == old(self).num_sides(),
            final(self).num_sides() == old(self).num_sides() + 1,
            final(self).rx_queue_view() == old(self).rx_queue_view(),
            final(self).tx_queue_view() == old(self).tx_queue_view(),
    {
        self.add_side(name, RouterTxHandlerFn::Serialized(tx), opts)
    }

    /// Add a side whose transmit handler takes packets; returns its index.
    pub fn add_side_packet(&mut self, name: &'static str, tx: Box<dyn PacketHandler>) -> (r: RouterSideId)
        requires
            old(self).wf(),
        ensures
            final(self).deliveries() == old(self).deliveries(),
            final(self).wf(),
            r == old(self).num_sides(),
            final(self).num_sides() == old(self).num_sides() + 1,
            final(self).rx_queue_view() == old(self).rx_queue_view(),
            final(self).tx_queue_view() == old(self).tx_queue_view(),
    {
        self.add_side(name, RouterTxHandlerFn::Packet(tx), RouterSideOptions::default())
    }

    /// Add a packet side with explicit options; returns its index.
    pub fn add_side_packet_with_options(&mut self, name: &'static str, tx: Box<dyn PacketHandler>, opts: RouterSideOptions) -> (r: RouterSideId)
        requires
            old(self).wf(),
        ensures
            final(self).deliveries() == old(self).deliveries(),
            final(self).wf(),
            r == old(self).num_sides(),
            final(self).num_sides() == old(self).num_sides() + 1,
            final(self).rx_queue_view() == old(self).rx_queue_view(),
            final(self).tx_queue_view() == old(self).tx_queue_view(),
    {
        self.add_side(name, RouterTxHandlerFn::Packet(tx), opts)
    }

    // ----- queues -----

    /// Empty both queues without processing them.
    pub fn clear_queues(&mut self)
        requires
            old(self).wf(),
        ensures
            final(self).deliveries() == old(self).deliveries(),
            final(self).wf(),
            final(self).rx_queue_view().len() == 0,
            final(self).tx_queue_view().len() == 0,
            final(self).recent_ids() == old(self).recent_ids(),
    {
        self.transmit_queue.clear();
        self.received_queue.clear();
    }

    /// Empty the receive queue without processing it.
    pub fn clear_rx_queue(&mut self)
        requires
            old(self).wf(),
        ensures
            final(self).deliveries() == old(self).deliveries(),
            final(self).wf(),
            final(self).rx_queue_view().len() == 0,
            final(self).tx_queue_view() == old(self).tx_queue_view(),
    {
        self.received_queue.clear();
    }

    /// Empty the transmit queue without processing it.
    pub fn clear_tx_queue(&mut self)
        requires
            old(self).wf(),
        ensures
            final(self).deliveries() == old(self).deliveries(),
            final(self).wf(),
            final(self).tx_queue_view().len() == 0,
            final(self).rx_queue_view() == old(self).rx_queue_view(),
    {
        self.transmit_queue.clear();
    }

    fn push_rx(&mut self, src: Option<RouterSideId>, data: RouterItem) -> (r: TelemetryResult<()>)
        requires
            old(self).wf(),
        ensures
            final(self).deliveries() == old(self).deliveries(),
            final(self).wf(),
            final(self).tx_queue_view() == old(self).tx_queue_view(),
            final(self).recent_ids() == old(self).recent_ids(),
            final(self).num_sides() == old(self).num_sides(),
            final(self).spec_mode() == old(self).spec_mode(),
            final(self).handlers_view() == old(self).handlers_view(),
            item_cost(data@) > MAX_QUEUE_SIZE ==> (r matches Err(TelemetryError::PacketTooLarge(m))
                && final(self).rx_queue_view() == old(self).rx_queue_view()),
            item_cost(data@) <= MAX_QUEUE_SIZE ==> (r is Ok && final(self).rx_queue_view().last()
                == (RxModel { src, data: data@ }) && final(self).rx_queue_view().len() >= 1
                && final(self).rx_queue_view().len() <= old(self).rx_queue_view().len() + 1),
    {
        let item = RouterRxItem { src, data };
        let ghost m = rx_model(item);
        let r = self.received_queue.push_back(item);
        proof {
            let s = self.received_queue@;
            if item_cost(data@) <= MAX_QUEUE_SIZE {
                assert(self.rx_queue_view().last() == rx_model(s.last()));
                assert(self.rx_queue_view().len() == s.len());
            } else {
                assert(self.rx_queue_view() =~= old(self).rx_queue_view());
            }
        }
        r
    }

    /// Queue a packet for receive processing (local source).
    pub fn rx_queue(&mut self, pkt: TelemetryPacket) -> (r: TelemetryResult<()>)
        requires
            old(self).wf(),
        ensures
            final(self).deliveries() == old(self).deliveries(),
            final(self).wf(),
            final(self).tx_queue_view() == old(self).tx_queue_view(),
            spec_packet_cost(pkt@) <= MAX_QUEUE_SIZE ==> (r is Ok && final(self).rx_queue_view().last()
                == (RxModel { src: None, data: ItemModel::Packet(pkt@) })),
            spec_packet_cost(pkt@) > MAX_QUEUE_SIZE ==> (r is Err && final(self).rx_queue_view() == old(self).rx_queue_view()),
    {
        self.push_rx(None, RouterItem::Packet(pkt))
    }

    /// Queue a packet for receive processing; the queue cannot be contended
    /// here, so this is `rx_queue`.
    pub fn rx_queue_isr(&mut self, pkt: TelemetryPacket) -> (r: TelemetryResult<()>)
        requires
            old(self).wf(),
        ensures
            final(self).deliveries() == old(self).deliveries(),
            final(self).wf(),
            final(self).tx_queue_view() == old(self).tx_queue_view(),
            spec_packet_cost(pkt@) <= MAX_QUEUE_SIZE ==> (r is Ok && final(self).rx_queue_view().last()
                == (RxModel { src: None, data: ItemModel::Packet(pkt@) })),
            spec_packet_cost(pkt@) > MAX_QUEUE_SIZE ==> (r is Err && final(self).rx_queue_view() == old(self).rx_queue_view()),
    {
        self.rx_queue(pkt)
    }

    /// Queue a packet received on `side`.
    pub fn rx_queue_from_side(&mut self, pkt: TelemetryPacket, side: RouterSideId) -> (r: TelemetryResult<()>)
        requires
            old(self).wf(),
        ensures
            final(self).deliveries() == old(self).deliveries(),
            final(self).wf(),
            final(self).tx_queue_view() == old(self).tx_queue_view(),
            spec_packet_cost(pkt@) <= MAX_QUEUE_SIZE ==> (r is Ok && final(self).rx_queue_view().last()
                == (RxModel { src: Some(side), data: ItemModel::Packet(pkt@) })),
            spec_packet_cost(pkt@) > MAX_QUEUE_SIZE ==> (r is Err && final(self).rx_queue_view() == old(self).rx_queue_view()),
    {
        self.push_rx(Some(side), RouterItem::Packet(pkt))
    }

    /// Queue a packet received on `side` (see `rx_queue_isr`).
    pub fn rx_queue_from_side_isr(&mut self, pkt: TelemetryPacket, side: RouterSideId) -> (r: TelemetryResult<()>)
        requires
            old(self).wf(),
        ensures
            final(self).deliveries() == old(self).deliveries(),
            final(self).wf(),
            final(self).tx_queue_view() == old(self).tx_queue_view(),
            spec_packet_cost(pkt@) <= MAX_QUEUE_SIZE ==> (r is Ok && final(self).rx_queue_view().last()
                == (RxModel { src: Some(side), data: ItemModel::Packet(pkt@) })),
            spec_packet_cost(pkt@) > MAX_QUEUE_SIZE ==> (r is Err && final(self).rx_queue_view() == old(self).rx_queue_view()),
    {
        self.rx_queue_from_side(pkt, side)
    }

    fn push_rx_bytes(&mut self, src: Option<RouterSideId>, bytes: &[u8]) -> (r: TelemetryResult<()>)
        requires
            old(self).wf(),
        ensures
            final(self).deliveries() == old(self).deliveries(),
            final(self).wf(),
            final(self).tx_queue_view() == old(self).tx_queue_view(),
            serialize::spec_peek(bytes@) matches Err(e) ==> (r == Err::<(), TelemetryError>(e)
                && final(self).rx_queue_view() == old(self).rx_queue_view()),
            serialize::spec_peek(bytes@) is Ok && bytes_cost(bytes@.len()) <= MAX_QUEUE_SIZE ==> (r is Ok
                && final(self).rx_queue_view().last() == (RxModel { src, data: ItemModel::Serialized(bytes@) })),
            serialize::spec_peek(bytes@) is Ok && bytes_cost(bytes@.len()) > MAX_QUEUE_SIZE ==> (r is Err
                && final(self).rx_queue_view() == old(self).rx_queue_view()),
    {
        match serialize::peek_envelope(bytes) {
            Err(e) => {
                return Err(e);
            },
            Ok(_) => {},
        }
        self.push_rx(src, RouterItem::Serialized(vstd::slice::slice_to_vec(bytes)))
    }

    /// Queue wire bytes for receive processing (local source); malformed
    /// headers are refused.
    pub fn rx_serialized_queue(&mut self, bytes: &[u8]) -> (r: TelemetryResult<()>)
        requires
            old(self).wf(),
        ensures
            final(self).deliveries() == old(self).deliveries(),
            final(self).wf(),
            final(self).tx_queue_view() == old(self).tx_queue_view(),
            serialize::spec_peek(bytes@) matches Err(e) ==> (r == Err::<(), TelemetryError>(e)
                && final(self).rx_queue_view() == old(self).rx_queue_view()),
            serialize::spec_peek(bytes@) is Ok && bytes_cost(bytes@.len()) <= MAX_QUEUE_SIZE ==> (r is Ok
                && final(self).rx_queue_view().last() == (RxModel { src: None, data: ItemModel::Serialized(bytes@) })),
    {
        self.push_rx_bytes(None, bytes)
    }

    /// Queue wire bytes for receive processing (see `rx_queue_isr`).
    pub fn rx_serialized_queue_isr(&mut self, bytes: &[u8]) -> (r: TelemetryResult<()>)
        requires
            old(self).wf(),
        ensures
            final(self).deliveries() == old(self).deliveries(),
            final(self).wf(),
            final(self).tx_queue_view() == old(self).tx_queue_view(),
            serialize::spec_peek(bytes@) matches Err(e) ==> (r == Err::<(), TelemetryError>(e)
                && final(self).rx_queue_view() == old(self).rx_queue_view()),
            serialize::spec_peek(bytes@) is Ok && bytes_cost(bytes@.len()) <= MAX_QUEUE_SIZE ==> (r is Ok
                && final(self).rx_queue_view().last() == (RxModel { src: None, data: ItemModel::Serialized(bytes@) })),
    {
        self.push_rx_bytes(None, bytes)
    }

    /// Queue wire bytes received on `side`.
    pub fn rx_serialized_queue_from_side(&mut self, bytes: &[u8], side: RouterSideId) -> (r: TelemetryResult<()>)
        requires
            old(self).wf(),
        ensures
            final(self).deliveries() == old(self).deliveries(),
            final(self).wf(),
            final(self).tx_queue_view() == old(self).tx_queue_view(),
            serialize::spec_peek(bytes@) matches Err(e) ==> (r == Err::<(), TelemetryError>(e)
                && final(self).rx_queue_view() == old(self).rx_queue_view()),
            serialize::spec_peek(bytes@) is Ok && bytes_cost(bytes@.len()) <= MAX_QUEUE_SIZE ==> (r is Ok
                && final(self).rx_queue_view().last() == (RxModel { src: Some(side), data: ItemModel::Serialized(bytes@) })),
    {
        self.push_rx_bytes(Some(side), bytes)
    }

    /// Queue wire bytes received on `side` (see `rx_queue_isr`).
    pub fn rx_serialized_queue_from_side_isr(&mut self, bytes: &[u8], side: RouterSideId) -> (r: TelemetryResult<()>)
        requires
            old(self).wf(),
        ensures
            final(self).deliveries() == old(self).deliveries(),
            final(self).wf(),
            final(self).tx_queue_view() == old(self).tx_queue_view(),
            serialize::spec_peek(bytes@) matches Err(e) ==> (r == Err::<(), TelemetryError>(e)
                && final(self).rx_queue_view() == old(self).rx_queue_view()),
            serialize::spec_peek(bytes@) is Ok && bytes_cost(bytes@.len()) <= MAX_QUEUE_SIZE ==> (r is Ok
                && final(self).rx_queue_view().last() == (RxModel { src: Some(side), data: ItemModel::Serialized(bytes@) })),
    {
        self.push_rx_bytes(Some(side), bytes)
    }

    fn push_tx(&mut self, item: RouterTxItem, ignore_local: bool) -> (r: TelemetryResult<()>)
        requires
            old(self).wf(),
        ensures
            final(self).same_topology(old(self)),
            final(self).deliveries() == old(self).deliveries(),
            final(self).wf(),
            final(self).rx_queue_view() == old(self).rx_queue_view(),
            final(self).recent_ids() == old(self).recent_ids(),
            final(self).num_sides() == old(self).num_sides(),
            final(self).spec_mode() == old(self).spec_mode(),
            final(self).handlers_view() == old(self).handlers_view(),
            r is Ok ==> final(self).tx_queue_view().len() >= 1,
            r is Ok ==> final(self).tx_queue_view().last() == tx_model(TxQueued { item, ignore_local }),
            r is Err ==> final(self).tx_queue_view() == old(self).tx_queue_view(),
            r is Ok <==> (TxQueued { item, ignore_local }).spec_byte_cost() <= MAX_QUEUE_SIZE,
            r is Ok ==> suffix_of(final(self).tx_queue_view(), old(self).tx_queue_view().push(tx_model(TxQueued { item, ignore_local }))),
            final(self).timesync_cfg() == old(self).timesync_cfg(),
    {
        let q = TxQueued { item, ignore_local };
        let r = self.transmit_queue.push_back(q);
        proof {
            if r is Err {
                assert(self.tx_queue_view() =~= old(self).tx_queue_view());
            } else {
                let o = old(self).transmit_queue@;
                let e = crate::queue::push_evictions(o, q.spec_byte_cost(),
                    old(self).transmit_queue.spec_max_bytes(), old(self).transmit_queue.spec_max_elems());
                let ov = old(self).tx_queue_view();
                lemma_suffix_refl(ov);
                lemma_suffix_push(ov, ov, e as int, tx_model(q));
                assert(self.tx_queue_view() =~= ov.skip(e as int).push(tx_model(q)));
            }
        }
        r
    }

    /// Queue a packet for transmission to every side that needs it (and to
    /// local handlers).
    pub fn tx_queue(&mut self, pkt: TelemetryPacket) -> (r: TelemetryResult<()>)
        requires
            old(self).wf(),
        ensures
            final(self).deliveries() == old(self).deliveries(),
            final(self).wf(),
            final(self).rx_queue_view() == old(self).rx_queue_view(),
            r is Ok ==> final(self).tx_queue_view().last() == (TxModel { to_side: None, data: ItemModel::Packet(pkt@), ignore_local: false }),
            r is Err ==> final(self).tx_queue_view() == old(self).tx_queue_view(),
            r is Ok <==> item_cost(ItemModel::Packet(pkt@)) + 2 <= MAX_QUEUE_SIZE,
    {
        self.push_tx(RouterTxItem::Broadcast(RouterItem::Packet(pkt)), false)
    }

    /// Queue wire bytes for transmission (see `tx_queue`).
    pub fn tx_serialized_queue(&mut self, data: Vec<u8>) -> (r: TelemetryResult<()>)
        requires
            old(self).wf(),
        ensures
            final(self).deliveries() == old(self).deliveries(),
            final(self).wf(),
            final(self).rx_queue_view() == old(self).rx_queue_view(),
            r is Ok ==> final(self).tx_queue_view().last() == (TxModel { to_side: None, data: ItemModel::Serialized(data@), ignore_local: false }),
            r is Err ==> final(self).tx_queue_view() == old(self).tx_queue_view(),
            r is Ok <==> item_cost(ItemModel::Serialized(data@)) + 2 <= MAX_QUEUE_SIZE,
    {
        self.push_tx(RouterTxItem::Broadcast(RouterItem::Serialized(data)), false)
    }

    // ----- de-duplication -----

    fn get_hash(item: &RouterItem) -> (r: u64)
        ensures
            r == spec_item_id(item@),
    {
        match item {
            RouterItem::Packet(p) => p.packet_id(),
            RouterItem::Serialized(b) => match serialize::packet_id_from_wire(b.as_slice()) {
                Ok(id) => id,
                Err(_) => hash_bytes_u64(HASH_SEED, b.as_slice()),
            },
        }
    }

    /// Whether the item was seen recently; if not, it is recorded.
    fn is_duplicate_pkt(&mut self, item: &RouterItem) -> (r: TelemetryResult<bool>)
        requires
            old(self).wf(),
        ensures
            final(self).same_topology(old(self)),
            final(self).deliveries() == old(self).deliveries(),
            final(self).wf(),
            final(self).rx_queue_view() == old(self).rx_queue_view(),
            final(self).tx_queue_view() == old(self).tx_queue_view(),
            final(self).num_sides() == old(self).num_sides(),
            final(self).spec_mode() == old(self).spec_mode(),
            final(self).handlers_view() == old(self).handlers_view(),
            final(self).routes == old(self).routes,
            r is Ok,
            old(self).recent_ids().contains(spec_item_id(item@)) ==> (r == Ok::<bool, TelemetryError>(true)
                && final(self).recent_ids() == old(self).recent_ids()),
            !old(self).recent_ids().contains(spec_item_id(item@)) ==> (r == Ok::<bool, TelemetryError>(false)
                && final(self).recent_ids().last() == spec_item_id(item@)),
    {
        let id = Self::get_hash(item);
        if self.recent_rx.contains(&id) {
            proof {
                let k = choose|i: int| 0 <= i < self.recent_rx@.len() && self.recent_rx@[i].eq_spec(&id);
                assert(self.recent_rx@[k] == id);
            }
            return Ok(true);
        }
        proof {
            if old(self).recent_ids().contains(id) {
                let k = choose|i: int| 0 <= i < self.recent_rx@.len() && self.recent_rx@[i] == id;
                assert(self.recent_rx@[k].eq_spec(&id));
            }
        }
        match self.recent_rx.push_back(id) {
            Ok(()) => Ok(false),
            Err(e) => Ok(false),
        }
    }

    /// Forget the item's identifier so that it may be processed again.
    fn remove_pkt_id(&mut self, item: &RouterItem)
        requires
            old(self).wf(),
        ensures
            final(self).same_topology(old(self)),
            final(self).deliveries() == old(self).deliveries(),
            final(self).wf(),
            final(self).rx_queue_view() == old(self).rx_queue_view(),
            final(self).tx_queue_view() == old(self).tx_queue_view(),
            final(self).num_sides() == old(self).num_sides(),
            final(self).spec_mode() == old(self).spec_mode(),
            final(self).handlers_view() == old(self).handlers_view(),
            !old(self).recent_ids().contains(spec_item_id(item@)) ==> final(self).recent_ids() == old(self).recent_ids(),
            forall|i: int|
                0 <= i < old(self).recent_ids().len() && old(self).recent_ids()[i] == spec_item_id(item@) && (forall|j: int|
                    0 <= j < i ==> old(self).recent_ids()[j] != spec_item_id(item@)) ==> final(self).recent_ids()
                    == old(self).recent_ids().remove(i),
    {
        let id = Self::get_hash(item);
        self.recent_rx.remove_value(&id);
    }
}

// ---------------------------------------------------------------------------
// Time synchronization
// ---------------------------------------------------------------------------

/// A transmission of a discovery packet to an existing side, past the
/// local handlers.
pub open spec fn discovery_tx(m: TxModel, num_sides: nat) -> bool {
    &&& m.to_side matches Some(s) && s < num_sides
    &&& m.ignore_local
    &&& m.data matches ItemModel::Packet(p) && (p.ty == DataType::DiscoveryAnnounce || p.ty
        == DataType::DiscoveryTimeSyncSources)
}

/// The transmit queue of `b` is what remains of that of `a` followed by
/// discovery transmissions, after dropping items from its front.
pub open spec fn discovery_queued(a: &Router, b: &Router) -> bool {
    exists|added: Seq<TxModel>|
        #![trigger a.tx_queue_view() + added]
        suffix_of(b.tx_queue_view(), a.tx_queue_view() + added) && forall|i: int|
            0 <= i < added.len() ==> discovery_tx(#[trigger] added[i], b.num_sides())
}

/// A transmission of a time sync packet.
pub open spec fn timesync_tx(m: TxModel) -> bool {
    m.data matches ItemModel::Packet(p) && (p.ty == DataType::TimeSyncAnnounce || p.ty
        == DataType::TimeSyncRequest || p.ty == DataType::TimeSyncResponse)
}

/// The transmit queue of `b` is what remains of that of `a` followed by
/// time sync transmissions, after dropping items from its front.
pub open spec fn timesync_queued(a: &Router, b: &Router) -> bool {
    exists|added: Seq<TxModel>|
        #![trigger a.tx_queue_view() + added]
        suffix_of(b.tx_queue_view(), a.tx_queue_view() + added) && forall|i: int|
            0 <= i < added.len() ==> timesync_tx(#[trigger] added[i])
}

/// The packet an item carries: itself, or its decoded bytes.
pub open spec fn item_packet(d: ItemModel) -> TelemetryResult<PacketModel> {
    match d {
        ItemModel::Packet(p) => Ok(p),
        ItemModel::Serialized(b) => serialize::spec_deserialize(b),
    }
}

/// Transmission `m` reaches no handler and no side of `r`: a packet sent
/// to every side of a router without sides, routes or local handlers.
pub open spec fn reaches_nothing(r: &Router, m: TxModel) -> bool {
    &&& m.to_side is None
    &&& m.data is Packet
    &&& r.num_sides() == 0
    &&& r.route_count() == 0
    &&& r.handlers_view().len() == 0
}

/// No handler is registered for any endpoint of `eps`.
pub open spec fn no_handler_for(eps: Seq<DataEndpoint>, h: Seq<EndpointHandler>) -> bool {
    forall|i: int, j: int| 0 <= i < eps.len() && 0 <= j < h.len() ==> #[trigger] h[j].spec_endpoint() != #[trigger] eps[i]
}

/// Handlers absent for some endpoints are absent for their canonical form.
proof fn lemma_no_handler_canonical(eps: Seq<DataEndpoint>, h: Seq<EndpointHandler>)
    ensures
        no_handler_for(eps, h) ==> no_handler_for(spec_canonical_endpoints(eps), h),
{
    if no_handler_for(eps, h) {
        let c = spec_canonical_endpoints(eps);
        assert forall|i: int, j: int| 0 <= i < c.len() && 0 <= j < h.len() implies #[trigger] h[j].spec_endpoint()
            != #[trigger] c[i] by {
            crate::config::lemma_canonical_contains(eps, c[i]);
            assert(c.contains(c[i]));
            let k = choose|k: int| 0 <= k < eps.len() && eps[k] == c[i];
            assert(h[j].spec_endpoint() != eps[k]);
        }
    }
}

/// A copy of `d` queued for one side, past the local handlers.
pub open spec fn copy_tx(m: TxModel, d: ItemModel) -> bool {
    m.to_side is Some && m.data == d && m.ignore_local
}

/// The transmit queue of `b` is what remains of that of `a` followed by
/// copies of `d` for single sides, after dropping items from its front.
pub open spec fn copies_queued(a: &Router, b: &Router, d: ItemModel) -> bool {
    exists|added: Seq<TxModel>|
        #![trigger a.tx_queue_view() + added]
        suffix_of(b.tx_queue_view(), a.tx_queue_view() + added) && forall|i: int|
            0 <= i < added.len() ==> copy_tx(#[trigger] added[i], d)
}

/// Leaving the transmit queue as it was queues no copy.
proof fn lemma_no_copies_queued(a: &Router, b: &Router, d: ItemModel)
    requires
        b.tx_queue_view() == a.tx_queue_view(),
    ensures
        copies_queued(a, b, d),
{
    let added = Seq::<TxModel>::empty();
    lemma_suffix_refl(a.tx_queue_view());
    assert(a.tx_queue_view() + added =~= a.tx_queue_view());
}

/// Leaving the transmit queue as it was queues no time sync transmission.
proof fn lemma_no_timesync_queued(a: &Router, b: &Router)
    requires
        b.tx_queue_view() == a.tx_queue_view(),
    ensures
        timesync_queued(a, b),
{
    let added = Seq::<TxModel>::empty();
    lemma_suffix_refl(a.tx_queue_view());
    assert(a.tx_queue_view() + added =~= a.tx_queue_view());
}

/// Time sync transmissions queued in two steps.
proof fn lemma_timesync_queued_trans(a: &Router, b: &Router, c: &Router)
    requires
        timesync_queued(a, b),
        timesync_queued(b, c),
    ensures
        timesync_queued(a, c),
{
    let x = choose|added: Seq<TxModel>|
        #![trigger a.tx_queue_view() + added]
        suffix_of(b.tx_queue_view(), a.tx_queue_view() + added) && forall|i: int|
            0 <= i < added.len() ==> timesync_tx(#[trigger] added[i]);
    let y = choose|added: Seq<TxModel>|
        #![trigger b.tx_queue_view() + added]
        suffix_of(c.tx_queue_view(), b.tx_queue_view() + added) && forall|i: int|
            0 <= i < added.len() ==> timesync_tx(#[trigger] added[i]);
    lemma_suffix_trans_append(c.tx_queue_view(), b.tx_queue_view(), a.tx_queue_view() + x, y);
    assert(a.tx_queue_view() + x + y =~= a.tx_queue_view() + (x + y));
    assert forall|i: int| 0 <= i < (x + y).len() implies timesync_tx(#[trigger] (x + y)[i]) by {
        if i < x.len() {
            assert((x + y)[i] == x[i]);
        } else {
            assert((x + y)[i] == y[i - x.len()]);
        }
    }
}

/// One pushed time sync transmission.
proof fn lemma_timesync_queued_push(a: &Router, b: &Router, m: TxModel)
    requires
        timesync_tx(m),
        suffix_of(b.tx_queue_view(), a.tx_queue_view().push(m)),
    ensures
        timesync_queued(a, b),
{
    let added = seq![m];
    assert(a.tx_queue_view().push(m) =~= a.tx_queue_view() + added);
}

/// Leaving the transmit queue as it was queues no discovery transmission.
proof fn lemma_no_discovery_queued(a: &Router, b: &Router)
    requires
        b.tx_queue_view() == a.tx_queue_view(),
    ensures
        discovery_queued(a, b),
{
    let added = Seq::<TxModel>::empty();
    lemma_suffix_refl(a.tx_queue_view());
    assert(a.tx_queue_view() + added =~= a.tx_queue_view());
}

/// `b` keeps the queues, sides and mode of `a`.
pub open spec fn same_routing(a: &Router, b: &Router) -> bool {
    &&& same_rx(a, b)
    &&& b.tx_queue_view() == a.tx_queue_view()
    &&& b.recent_ids() == a.recent_ids()
}

/// What a local handler `h` is handed when called with `bytes` and `pkt`:
/// the packet for a handler of packets, the bytes for one of bytes.
pub open spec fn handler_input(h: EndpointHandler, bytes: Option<Seq<u8>>, pkt: Option<PacketModel>) -> Option<ItemModel> {
    if h.spec_takes_packets() {
        match pkt {
            Some(p) => Some(ItemModel::Packet(p)),
            None => None,
        }
    } else {
        match bytes {
            Some(b) => Some(ItemModel::Serialized(b)),
            None => None,
        }
    }
}

/// What a side's transmit handler is handed for item `d`: a handler of
/// packets gets the packet (decoded from wire bytes), a handler of bytes
/// gets the bytes (encoded from a packet); `None` where decoding fails.
pub open spec fn side_handoff(takes_packets: bool, d: ItemModel) -> Option<ItemModel> {
    match d {
        ItemModel::Packet(p) => if takes_packets {
            Some(ItemModel::Packet(p))
        } else {
            Some(ItemModel::Serialized(serialize::spec_serialize(p)))
        },
        ItemModel::Serialized(b) => if takes_packets {
            match serialize::spec_deserialize(b) {
                Ok(q) => Some(ItemModel::Packet(q)),
                Err(_) => None,
            }
        } else {
            Some(ItemModel::Serialized(b))
        },
    }
}

/// Side `s` of `r` has been handed item `d` (in the form its transmit
/// handler takes).
pub open spec fn side_delivered(r: &Router, s: int, d: ItemModel) -> bool {
    match side_handoff(r.side_takes_packets(s), d) {
        Some(x) => r.deliveries().contains(Delivery::Side { side: s as usize, data: x }),
        None => false,
    }
}

/// Broadcasting item `d` from router `a` floods it to every side: it is a
/// discovery message, or no route is learned and the plan for its header
/// is to flood.
pub closed spec fn flood_planned(a: &Router, d: ItemModel) -> bool {
    match item_header(d) {
        Some(h) => discovery_type(h.1) || (a.routes@.len() == 0 && plan_without_routes(a, h.0, h.1, None) is None),
        None => false,
    }
}

/// Received item `m`, when queued locally (no source side), has been handed
/// to the local handlers registered for its endpoints (see `rx_handed`).
#[verifier::opaque]
pub open spec fn rx_queued_handed(a: &Router, b: &Router, m: RxModel) -> bool {
    m.src is None ==> rx_handed(a, b, m.data)
}

/// What receiving made of the hand-offs stays made, whichever state of
/// the same handlers it is taken from.
proof fn lemma_rx_handed_rebase(a: &Router, a2: &Router, b: &Router, c: &Router, d: ItemModel)
    requires
        rx_handed(a, b, d),
        a.handlers_view() == a2.handlers_view(),
        handed_grows(b, c),
        b.handlers_view() == c.handlers_view(),
    ensures
        rx_handed(a2, c, d),
{
    match d {
        ItemModel::Packet(p) => {
            if !spec_timesync_type(p.ty) && !carries_discovery(d) {
                lemma_handoffs_keep(a, b, c, d);
            }
        },
        ItemModel::Serialized(bytes) => {
            if let Ok(env) = serialize::spec_peek(bytes) {
                if !spec_timesync_type(env.ty) && !carries_discovery(d) {
                    lemma_handoffs_keep(a, b, c, d);
                }
            }
        },
    }
}

/// Whether a received item was handed on does not depend on which state of
/// the same handlers it is judged from.
proof fn lemma_rx_queued_rebase(a: &Router, a2: &Router, b: &Router, m: RxModel)
    requires
        rx_queued_handed(a, b, m),
        a.handlers_view() == a2.handlers_view(),
    ensures
        rx_queued_handed(a2, b, m),
{
    reveal(rx_queued_handed);
    if m.src is None {
        lemma_rx_handed_rebase(a, a2, b, b, m.data);
    }
}

/// A received item handed on stays handed on.
proof fn lemma_rx_queued_handed_keeps(a: &Router, b: &Router, c: &Router, m: RxModel)
    requires
        rx_queued_handed(a, b, m),
        handed_grows(b, c),
        b.handlers_view() == c.handlers_view(),
    ensures
        rx_queued_handed(a, c, m),
{
    reveal(rx_queued_handed);
    if m.src is None {
        lemma_rx_handed_rebase(a, a, b, c, m.data);
    }
}

/// Queued transmission `m` has been handed on: to its side, or (when
/// flooded) to every side.
#[verifier::opaque]
pub open spec fn queued_handed(r: &Router, m: TxModel) -> bool {
    match m.to_side {
        Some(s) => s < r.num_sides() && side_delivered(r, s as int, m.data),
        None => sides_handed(r, m.data),
    }
}

/// A transmission handed on stays handed on.
proof fn lemma_queued_handed_keeps(a: &Router, b: &Router, m: TxModel)
    requires
        handed_grows(a, b),
        b.same_topology(a),
        b.num_sides() == a.num_sides(),
        queued_handed(a, m),
    ensures
        queued_handed(b, m),
{
    reveal(queued_handed);
    match m.to_side {
        Some(s) => lemma_side_delivered_keeps(a, b, s as int, m.data),
        None => {
            if flood_planned(b, m.data) {
                assert(flood_planned(a, m.data));
                assert forall|s: int| 0 <= s < b.num_sides() implies #[trigger] side_delivered(b, s, m.data) by {
                    lemma_side_delivered_keeps(a, b, s, m.data);
                }
            }
        },
    }
}

/// A hand-off made to a side stays made.
proof fn lemma_side_delivered_keeps(a: &Router, b: &Router, s: int, d: ItemModel)
    requires
        handed_grows(a, b),
        a.sides == b.sides,
        side_delivered(a, s, d),
    ensures
        side_delivered(b, s, d),
{
    let x = side_handoff(a.side_takes_packets(s), d)->Some_0;
    lemma_handed_keeps(a, b, Delivery::Side { side: s as usize, data: x });
}

/// The view of an optional byte slice.
pub open spec fn opt_bytes(b: Option<&[u8]>) -> Option<Seq<u8>> {
    match b {
        Some(x) => Some(x@),
        None => None,
    }
}

/// The view of an optional packet.
pub open spec fn opt_packet(p: Option<&TelemetryPacket>) -> Option<PacketModel> {
    match p {
        Some(x) => Some(x@),
        None => None,
    }
}

/// A hand-off made before stays among the hand-offs.
pub proof fn lemma_handed_keeps(a: &Router, b: &Router, x: Delivery)
    requires
        handed_grows(a, b),
        a.deliveries().contains(x),
    ensures
        b.deliveries().contains(x),
{
    let i = choose|i: int| 0 <= i < a.deliveries().len() && a.deliveries()[i] == x;
    assert(b.deliveries()[i] == a.deliveries()[i]);
}

/// What the local handler `h` is handed when the handlers are run with
/// `bytes` and `pkt`: a handler of packets gets the packet (decoded from
/// the bytes when only they are given), a handler of bytes gets the bytes
/// (encoded from the packet when only it is given).
pub open spec fn local_handoff(h: EndpointHandler, bytes: Option<Seq<u8>>, pkt: Option<PacketModel>) -> Option<ItemModel> {
    if h.spec_takes_packets() {
        match pkt {
            Some(p) => Some(ItemModel::Packet(p)),
            None => match bytes {
                Some(b) => match serialize::spec_deserialize(b) {
                    Ok(q) => Some(ItemModel::Packet(q)),
                    Err(_) => None,
                },
                None => None,
            },
        }
    } else {
        match bytes {
            Some(b) => Some(ItemModel::Serialized(b)),
            None => match pkt {
                Some(p) => Some(ItemModel::Serialized(serialize::spec_serialize(p))),
                None => None,
            },
        }
    }
}

/// Local handler `j` of `r` has been handed what running the handlers with
/// `bytes` and `pkt` hands it.
pub open spec fn locally_handed(r: &Router, j: int, bytes: Option<Seq<u8>>, pkt: Option<PacketModel>) -> bool {
    match local_handoff(r.handlers_view()[j], bytes, pkt) {
        Some(d) => r.deliveries().contains(Delivery::Local { handler: j as usize, data: d }),
        None => true,
    }
}

/// Tracker model `t` once the sources silent at `now_ms` are dropped and the
/// current source is chosen again.
pub open spec fn refreshed(t: timesync::TrackerModel, now_ms: u64) -> timesync::TrackerModel {
    let kept = timesync::TrackerModel {
        sources: timesync::spec_active_only(t.sources, now_ms, t.cfg.source_timeout_ms),
        ..t
    };
    timesync::TrackerModel { current: timesync::spec_selected(kept, now_ms), ..kept }
}

/// The leader that polling router `r` at `now_ms`/`now_ns` elects.
pub closed spec fn poll_leader(r: &Router, now_ms: u64, now_ns: u64) -> Option<timesync::LeaderModel> {
    match r.ts.tracker {
        Some(t) => timesync::spec_leader(refreshed(t@, now_ms), now_ms, usable_at(r, now_ms, now_ns)),
        None => None,
    }
}

/// The priority that polling router `r` at `now_ms`/`now_ns` announces
/// itself with: where it leads and its announce time has come.
pub closed spec fn poll_announce(r: &Router, now_ms: u64, now_ns: u64) -> Option<u64> {
    match r.ts.tracker {
        Some(t) => match timesync::spec_announce_priority(refreshed(t@, now_ms), now_ms, usable_at(r, now_ms, now_ns)) {
            Some(p) => if now_ms >= r.ts.next_announce_mono_ms {
                Some(p)
            } else {
                None
            },
            None => None,
        },
        None => None,
    }
}

/// Whether polling router `r` at `now_ms`/`now_ns` requests the time: a
/// remote source leads, no request to it is outstanding, and the request
/// time has come (at once when an outstanding request to another source is
/// dropped).
pub closed spec fn poll_requests(r: &Router, now_ms: u64, now_ns: u64) -> bool {
    match poll_leader(r, now_ms, now_ns) {
        Some(timesync::LeaderModel::Remote(remote)) => {
            let kept = match r.ts.pending_request {
                Some(p) => p.source@ == remote.sender,
                None => false,
            };
            !kept && (r.ts.pending_request is Some || now_ms >= r.ts.next_request_mono_ms)
        },
        _ => false,
    }
}

/// The sequence number the next time request of `r` carries.
pub closed spec fn next_request_seq(r: &Router) -> u64 {
    r.ts.next_seq
}

/// Queue entry of a time sync message of type `ty` with payload words
/// `words`, stamped `ts`, from this router to every side.
pub open spec fn timesync_entry(ty: DataType, words: Seq<u64>, ts: u64) -> TxModel {
    TxModel {
        to_side: None,
        data: ItemModel::Packet(spec_log_packet(DEVICE_IDENTIFIER@, ty, words, ts)->Ok_0),
        ignore_local: false,
    }
}

/// Queue entry of a time announce with priority `p` at time `ts`.
pub open spec fn announce_entry(p: u64, ts: u64) -> TxModel {
    timesync_entry(DataType::TimeSyncAnnounce, seq![p, ts], ts)
}

/// Queue entry of a time request with sequence number `seq` sent at `t1`,
/// stamped `ts`.
pub open spec fn request_entry(seq: u64, t1: u64, ts: u64) -> TxModel {
    timesync_entry(DataType::TimeSyncRequest, seq![seq, t1], ts)
}

/// `added` is what a poll queues: an announce with priority `a` (if any),
/// then a request with sequence number `seq` sent at `now_ms` (if `q`).
pub open spec fn poll_queued(added: Seq<TxModel>, a: Option<u64>, q: bool, seq: u64, now_ms: u64) -> bool {
    let n_a: int = if a is Some { 1 } else { 0 };
    &&& added.len() == n_a + if q { 1int } else { 0int }
    &&& a matches Some(p) ==> exists|ts: u64| #[trigger] announce_entry(p, ts) == added[0]
    &&& q ==> exists|ts: u64| #[trigger] request_entry(seq, now_ms, ts) == added[n_a]
}

/// Whether router `r` has usable network time at monotonic times
/// `now_ms`/`now_ns`, once the clock sources expired at `now_ms` are dropped.
pub closed spec fn usable_at(r: &Router, now_ms: u64, now_ns: u64) -> bool {
    timesync::spec_read_unix_ms(r.ts.disciplined_clock@, now_ns) is Some || (timesync::spec_current_time(
        timesync::spec_unexpired(r.ts.clock@, now_ms),
        now_ns,
    ) matches Some(x) && x.unix_time_ms is Some)
}

/// Whether router `r` answers time requests at `now_ms`/`now_ns`: its
/// tracker would announce itself as a time source then.
pub closed spec fn serves_requests_at(r: &Router, now_ms: u64, now_ns: u64) -> bool {
    match r.ts.tracker {
        Some(t) => timesync::spec_announce_priority(t@, now_ms, usable_at(r, now_ms, now_ns)) is Some,
        None => false,
    }
}

/// What handling time request `pkt` (from side `src`) at `now_ms`/`now_ns`
/// does, from `a` to `b` with result `r`: a router that does not serve
/// leaves its queue as it was and accepts the packet; one that serves
/// queues a response with the request's sequence number and send time, or
/// returns the decoding error.
pub open spec fn request_handled(
    a: &Router,
    b: &Router,
    pkt: PacketModel,
    src: Option<RouterSideId>,
    r: TelemetryResult<bool>,
    now_ms: u64,
    now_ns: u64,
) -> bool {
    if !serves_requests_at(a, now_ms, now_ns) {
        r == Ok::<bool, TelemetryError>(true) && b.tx_queue_view() == a.tx_queue_view()
    } else {
        match timesync::spec_decode_request(pkt) {
            Err(e) => r == Err::<bool, TelemetryError>(e) && b.tx_queue_view() == a.tx_queue_view(),
            Ok(req) => (r is Ok ==> exists|x: u64| #[trigger] response_last(b, src, req.seq, req.t1_ms, x, x)) && (r is Err
                ==> b.tx_queue_view() == a.tx_queue_view()),
        }
    }
}

/// The last queued transmission of `b` is a time sync response to `dst`
/// (or to every side) carrying `seq`, `t1`, `t2` and `t3`.
pub open spec fn response_last(b: &Router, dst: Option<RouterSideId>, seq: u64, t1: u64, t2: u64, t3: u64) -> bool {
    &&& b.tx_queue_view().len() > 0
    &&& b.tx_queue_view().last().to_side == dst
    &&& b.tx_queue_view().last().data matches ItemModel::Packet(p)
    &&& p.ty == DataType::TimeSyncResponse
    &&& p.payload == spec_encode_le(seq![seq, t1, t2, t3])
}

/// Item `d` is a discovery message.
pub open spec fn carries_discovery(d: ItemModel) -> bool {
    match d {
        ItemModel::Packet(p) => p.ty == DataType::DiscoveryAnnounce || p.ty == DataType::DiscoveryTimeSyncSources,
        ItemModel::Serialized(b) => match serialize::spec_peek(b) {
            Ok(env) => env.ty == DataType::DiscoveryAnnounce || env.ty == DataType::DiscoveryTimeSyncSources,
            Err(_) => false,
        },
    }
}

/// `b` has handed item `d` to every local handler of `a` registered for one
/// of its endpoints (internal control messages reach none).
pub open spec fn local_handoffs_made(a: &Router, b: &Router, d: ItemModel) -> bool {
    match d {
        ItemModel::Packet(p) => !spec_internal_control(p.ty) ==> forall|j: int|
            0 <= j < a.handlers_view().len() && spec_canonical_endpoints(p.endpoints).contains(a.handlers_view()[j].spec_endpoint())
                ==> #[trigger] locally_handed(b, j, None, Some(p)),
        ItemModel::Serialized(bytes) => match serialize::spec_peek(bytes) {
            Ok(env) => !spec_internal_control(env.ty) ==> forall|j: int|
                0 <= j < a.handlers_view().len() && spec_canonical_endpoints(env.endpoints).contains(
                    a.handlers_view()[j].spec_endpoint(),
                ) ==> #[trigger] locally_handed(b, j, Some(bytes), None),
            Err(_) => true,
        },
    }
}

/// Receiving item `d` (other than a time sync or discovery message) has
/// handed it to every local handler registered for one of its endpoints.
pub open spec fn rx_handed(a: &Router, b: &Router, d: ItemModel) -> bool {
    match d {
        ItemModel::Packet(p) => !spec_timesync_type(p.ty) && !carries_discovery(d) ==> local_handoffs_made(a, b, d),
        ItemModel::Serialized(bytes) => match serialize::spec_peek(bytes) {
            Ok(env) => !spec_timesync_type(env.ty) && !carries_discovery(d) ==> local_handoffs_made(a, b, d),
            Err(_) => true,
        },
    }
}

/// Hand-offs to the local handlers stay made as more are made.
pub proof fn lemma_handoffs_keep(a: &Router, b: &Router, c: &Router, d: ItemModel)
    requires
        local_handoffs_made(a, b, d),
        handed_grows(b, c),
        b.handlers_view() == c.handlers_view(),
    ensures
        local_handoffs_made(a, c, d),
{
    match d {
        ItemModel::Packet(p) => {
            if !spec_internal_control(p.ty) {
                assert forall|j: int|
                    0 <= j < a.handlers_view().len() && spec_canonical_endpoints(p.endpoints).contains(
                        a.handlers_view()[j].spec_endpoint(),
                    ) implies #[trigger] locally_handed(c, j, None, Some(p)) by {
                    lemma_locally_handed_keeps(b, c, j, None, Some(p));
                }
            }
        },
        ItemModel::Serialized(bytes) => {
            if let Ok(env) = serialize::spec_peek(bytes) {
                if !spec_internal_control(env.ty) {
                    assert forall|j: int|
                        0 <= j < a.handlers_view().len() && spec_canonical_endpoints(env.endpoints).contains(
                            a.handlers_view()[j].spec_endpoint(),
                        ) implies #[trigger] locally_handed(c, j, Some(bytes), None) by {
                        lemma_locally_handed_keeps(b, c, j, Some(bytes), None);
                    }
                }
            }
        },
    }
}

/// Hand-offs made to a local handler stay made.
proof fn lemma_locally_handed_keeps(a: &Router, b: &Router, j: int, bytes: Option<Seq<u8>>, pkt: Option<PacketModel>)
    requires
        handed_grows(a, b),
        a.handlers_view() == b.handlers_view(),
        locally_handed(a, j, bytes, pkt),
    ensures
        locally_handed(b, j, bytes, pkt),
{
    if let Some(d) = local_handoff(a.handlers_view()[j], bytes, pkt) {
        lemma_handed_keeps(a, b, Delivery::Local { handler: j as usize, data: d });
    }
}

/// `b` keeps the hand-offs of `a`, and may have made more after them.
pub open spec fn handed_grows(a: &Router, b: &Router) -> bool {
    &&& a.deliveries().len() <= b.deliveries().len()
    &&& forall|i: int| 0 <= i < a.deliveries().len() ==> #[trigger] b.deliveries()[i] == a.deliveries()[i]
}

/// `b` keeps the receive queue, sides and mode of `a`, and the hand-offs
/// made so far.
pub open spec fn same_rx(a: &Router, b: &Router) -> bool {
    &&& b.wf()
    &&& handed_grows(a, b)
    &&& b.rx_queue_view() == a.rx_queue_view()
    &&& b.num_sides() == a.num_sides()
    &&& b.spec_mode() == a.spec_mode()
    &&& b.handlers_view() == a.handlers_view()
}

/// `b` keeps the queues of `a` except the recent identifiers.
pub open spec fn same_queues(a: &Router, b: &Router) -> bool {
    &&& same_rx(a, b)
    &&& b.tx_queue_view() == a.tx_queue_view()
    &&& b.same_topology(a)
}

/// A remote source sampled within `timeout_ms` of `now_ms`.
spec fn remote_fresh(x: RemoteTimeSyncSource, now_ms: u64, timeout_ms: u64) -> bool {
    (if now_ms >= x.last_sample_mono_ms { now_ms - x.last_sample_mono_ms } else { 0 }) <= timeout_ms
}

/// The remote sources of `s` sampled within `timeout_ms` of `now_ms`.
spec fn fresh_remotes(s: Seq<RemoteTimeSyncSource>, now_ms: u64, timeout_ms: u64) -> Seq<RemoteTimeSyncSource> {
    s.filter(|x: RemoteTimeSyncSource| remote_fresh(x, now_ms, timeout_ms))
}

/// Index of the first remote source named `name`, if any.
spec fn first_remote(v: Seq<RemoteTimeSyncSource>, name: Seq<char>) -> Option<int> {
    if exists|i: int| 0 <= i < v.len() && (#[trigger] v[i]).name@ == name {
        Some(choose|i: int| 0 <= i < v.len() && (#[trigger] v[i]).name@ == name && forall|j: int|
            0 <= j < i ==> (#[trigger] v[j]).name@ != name)
    } else {
        None
    }
}

/// The remote source `name` recorded with the given sample in `new`: its
/// first entry in `old` replaced, or a new entry at the end.
spec fn remote_put(
    old: Seq<RemoteTimeSyncSource>,
    new: Seq<RemoteTimeSyncSource>,
    name: Seq<char>,
    priority: u64,
    last_sample_mono_ms: u64,
    sample_unix_ms: u64,
) -> bool {
    let i = match first_remote(old, name) {
        Some(i) => i,
        None => old.len() as int,
    };
    &&& new.len() == (if i < old.len() { old.len() } else { old.len() + 1 })
    &&& forall|j: int| 0 <= j < old.len() && j != i ==> #[trigger] new[j] == old[j]
    &&& new[i].name@ == name
    &&& new[i].priority == priority
    &&& new[i].last_sample_mono_ms == last_sample_mono_ms
    &&& new[i].sample_unix_ms == sample_unix_ms
}

/// First index of `name` as `find_remote` gives it.
/// Where `name` occurs in `v`, its first occurrence.
proof fn lemma_first_remote_index(v: Seq<RemoteTimeSyncSource>, name: Seq<char>, k: int) -> (m: int)
    requires
        0 <= k < v.len(),
        v[k].name@ == name,
    ensures
        0 <= m <= k,
        v[m].name@ == name,
        forall|j: int| 0 <= j < m ==> (#[trigger] v[j]).name@ != name,
    decreases k,
{
    if exists|j: int| 0 <= j < k && (#[trigger] v[j]).name@ == name {
        let j = choose|j: int| 0 <= j < k && (#[trigger] v[j]).name@ == name;
        lemma_first_remote_index(v, name, j)
    } else {
        k
    }
}

/// The first occurrence that `first_remote` gives is an entry named `name`.
proof fn lemma_first_remote_some(v: Seq<RemoteTimeSyncSource>, name: Seq<char>)
    ensures
        first_remote(v, name) matches Some(i) ==> 0 <= i < v.len() && v[i].name@ == name,
{
    if exists|i: int| 0 <= i < v.len() && (#[trigger] v[i]).name@ == name {
        let k = choose|i: int| 0 <= i < v.len() && (#[trigger] v[i]).name@ == name;
        let m = lemma_first_remote_index(v, name, k);
        lemma_first_remote(v, name, m);
    }
}

proof fn lemma_first_remote(v: Seq<RemoteTimeSyncSource>, name: Seq<char>, i: int)
    requires
        0 <= i < v.len(),
        v[i].name@ == name,
        forall|j: int| 0 <= j < i ==> (#[trigger] v[j]).name@ != name,
    ensures
        first_remote(v, name) == Some(i),
{
    let c = choose|c: int| 0 <= c < v.len() && (#[trigger] v[c]).name@ == name && forall|j: int|
        0 <= j < c ==> (#[trigger] v[j]).name@ != name;
    if c < i {
        assert(v[c].name@ != name);
    } else if c > i {
        assert(v[i].name@ != name);
    }
}

fn find_remote(v: &Vec<RemoteTimeSyncSource>, name: &str) -> (r: Option<usize>)
    ensures
        r matches Some(i) ==> i < v@.len() && v@[i as int].name@ == name@ && forall|j: int|
            0 <= j < i ==> (#[trigger] v@[j]).name@ != name@,
        r is None ==> forall|j: int| 0 <= j < v@.len() ==> (#[trigger] v@[j]).name@ != name@,
{
    let mut i: usize = 0;
    while i < v.len()
        invariant
            i <= v@.len(),
            forall|j: int| 0 <= j < i ==> (#[trigger] v@[j]).name@ != name@,
        decreases v@.len() - i,
    {
        if str_eq(v[i].name.as_str(), name) {
            return Some(i);
        }
        i = i + 1;
    }
    None
}

fn put_remote(v: &mut Vec<RemoteTimeSyncSource>, name: &str, priority: u64, last_sample_mono_ms: u64, sample_unix_ms: u64)
    ensures
        remote_put(old(v)@, final(v)@, name@, priority, last_sample_mono_ms, sample_unix_ms),
{
    let e = RemoteTimeSyncSource { name: name.to_owned(), priority, last_sample_mono_ms, sample_unix_ms };
    match find_remote(v, name) {
        Some(i) => {
            proof {
                lemma_first_remote(v@, name@, i as int);
            }
            v.set(i, e);
        },
        None => {
            v.push(e);
        },
    }
}

fn retain_recent_remotes(v: &mut Vec<RemoteTimeSyncSource>, now_ms: u64, timeout_ms: u64)
    ensures
        final(v)@ == fresh_remotes(old(v)@, now_ms, timeout_ms),
{
    let ghost orig = v@;
    let ghost pred = |x: RemoteTimeSyncSource| remote_fresh(x, now_ms, timeout_ms);
    let n = v.len();
    let mut kept: Vec<RemoteTimeSyncSource> = Vec::new();
    let mut old_v: Vec<RemoteTimeSyncSource> = Vec::new();
    std::mem::swap(&mut old_v, v);
    let mut k: usize = 0;
    assert(orig.take(0).filter(pred) =~= Seq::<RemoteTimeSyncSource>::empty());
    assert(orig.skip(0) =~= orig);
    while old_v.len() > 0
        invariant
            orig.len() == n,
            k + old_v@.len() == orig.len(),
            old_v@ == orig.skip(k as int),
            kept@ == orig.take(k as int).filter(pred),
            pred == (|x: RemoteTimeSyncSource| remote_fresh(x, now_ms, timeout_ms)),
        decreases old_v@.len(),
    {
        let x = old_v.remove(0);
        proof {
            assert(x == orig[k as int]);
            assert(orig.take(k + 1) =~= orig.take(k as int).push(x));
            orig.take(k as int).lemma_filter_push(x, pred);
            assert(old_v@ =~= orig.skip(k + 1));
        }
        if now_ms.saturating_sub(x.last_sample_mono_ms) <= timeout_ms {
            kept.push(x);
        }
        k = k + 1;
    }
    assert(orig.take(k as int) =~= orig);
    *v = kept;
}

impl TimeSyncRuntime {
    fn has_usable_time(&self, now_mono_ns: u64) -> (r: bool)
        ensures
            r == (timesync::spec_read_unix_ms(self.disciplined_clock@, now_mono_ns) is Some || (timesync::spec_current_time(
                self.clock@,
                now_mono_ns,
            ) matches Some(x) && x.unix_time_ms is Some)),
    {
        if self.disciplined_clock.read_unix_ms(now_mono_ns).is_some() {
            return true;
        }
        match self.clock.current_time(now_mono_ns) {
            Some(reading) => reading.unix_time_ms.is_some(),
            None => false,
        }
    }

    fn prune(&mut self, now_ms: u64)
        ensures
            final(self).cfg == old(self).cfg,
            final(self).clock@ == timesync::spec_unexpired(old(self).clock@, now_ms),
            final(self).remote_sources@ == fresh_remotes(old(self).remote_sources@, now_ms, match old(self).cfg {
                Some(c) => c.source_timeout_ms,
                None => 0,
            }),
            final(self).tracker == old(self).tracker,
            final(self).disciplined_clock == old(self).disciplined_clock,
            final(self).next_seq == old(self).next_seq,
            final(self).next_announce_mono_ms == old(self).next_announce_mono_ms,
            final(self).next_request_mono_ms == old(self).next_request_mono_ms,
            final(self).pending_request == old(self).pending_request,
    {
        self.clock.prune_expired(now_ms);
        let timeout_ms = match self.cfg {
            Some(c) => c.source_timeout_ms,
            None => 0,
        };
        retain_recent_remotes(&mut self.remote_sources, now_ms, timeout_ms);
    }

    fn reconcile_pending(&mut self, leader: &Option<TimeSyncLeader>, now_ms: u64)
        ensures
            final(self).cfg == old(self).cfg,
            final(self).clock == old(self).clock,
            final(self).remote_sources == old(self).remote_sources,
            final(self).tracker == old(self).tracker,
            final(self).disciplined_clock == old(self).disciplined_clock,
            final(self).next_seq == old(self).next_seq,
            final(self).next_announce_mono_ms == old(self).next_announce_mono_ms,
            ({
                let clear = match old(self).pending_request {
                    Some(p) => match *leader {
                        Some(TimeSyncLeader::Remote(remote)) => p.source@ != remote.sender@,
                        _ => true,
                    },
                    None => false,
                };
                if clear {
                    final(self).pending_request is None && final(self).next_request_mono_ms == now_ms
                } else {
                    final(self).pending_request == old(self).pending_request && final(self).next_request_mono_ms
                        == old(self).next_request_mono_ms
                }
            }),
    {
        let clear = match &self.pending_request {
            Some(p) => match leader {
                Some(TimeSyncLeader::Remote(remote)) => !str_eq(p.source.as_str(), remote.sender.as_str()),
                _ => true,
            },
            None => false,
        };
        if clear {
            self.pending_request = None;
            self.next_request_mono_ms = now_ms;
        }
    }

    fn steer_to_remote_leader(&mut self, leader: &Option<TimeSyncLeader>, now_ns: u64)
        ensures
            final(self).cfg == old(self).cfg,
            final(self).clock == old(self).clock,
            final(self).remote_sources == old(self).remote_sources,
            final(self).tracker == old(self).tracker,
            final(self).next_seq == old(self).next_seq,
            final(self).next_announce_mono_ms == old(self).next_announce_mono_ms,
            final(self).next_request_mono_ms == old(self).next_request_mono_ms,
            final(self).pending_request == old(self).pending_request,
            final(self).disciplined_clock@ == (match *leader {
                Some(TimeSyncLeader::Remote(remote)) => match first_remote(old(self).remote_sources@, remote.sender@) {
                    Some(i) => timesync::spec_steer(
                        old(self).disciplined_clock@,
                        now_ns,
                        old(self).remote_sources@[i].sample_unix_ms,
                    ),
                    None => old(self).disciplined_clock@,
                },
                _ => old(self).disciplined_clock@,
            }),
    {
        match leader {
            Some(TimeSyncLeader::Remote(remote)) => match find_remote(&self.remote_sources, remote.sender.as_str()) {
                Some(i) => {
                    proof {
                        lemma_first_remote(self.remote_sources@, remote.sender@, i as int);
                    }
                    let target = self.remote_sources[i].sample_unix_ms;
                    self.disciplined_clock.steer_unix_ms(now_ns, target);
                },
                None => {},
            },
            _ => {},
        }
    }

    fn remove_local_sources(&mut self)
        ensures
            final(self).cfg == old(self).cfg,
            final(self).clock@ == without_local_sources(old(self).clock@),
    {
        self.clock.remove_source(timesync::LOCAL_TIMESYNC_FULL_SOURCE_ID);
        self.clock.remove_source(timesync::LOCAL_TIMESYNC_DATE_SOURCE_ID);
        self.clock.remove_source(timesync::LOCAL_TIMESYNC_TOD_SOURCE_ID);
        self.clock.remove_source(timesync::LOCAL_TIMESYNC_SUBSEC_SOURCE_ID);
    }
}

/// The text of an optional string.
spec fn opt_text(o: Option<String>) -> Option<Seq<char>> {
    match o {
        Some(x) => Some(x@),
        None => None,
    }
}

/// The time source that routing a time sync item of type `ty` prefers:
/// the sender of an announce or a response; for this router's own
/// request, the source its tracker currently follows.
spec fn spec_preferred(r: &Router, d: ItemModel, ty: DataType) -> TelemetryResult<Option<Seq<char>>> {
    if !spec_timesync_type(ty) {
        Ok(None)
    } else {
        match item_packet(d) {
            Err(e) => Err(e),
            Ok(p) => if ty == DataType::TimeSyncRequest {
                if p.sender != r.sender@ {
                    Ok(None)
                } else {
                    match r.ts.tracker {
                        None => Ok(None),
                        Some(t) => match t@.current {
                            Some(name) => match timesync::spec_find_source(t@.sources, name) {
                                Some(i) => Ok(Some(t@.sources[i].sender)),
                                None => Ok(None),
                            },
                            None => Ok(None),
                        },
                    }
                }
            } else {
                Ok(Some(p.sender))
            },
        }
    }
}

/// A learned route that is still fresh at `now_ms`.
spec fn route_fresh(x: RouteEntry, now_ms: u64) -> bool {
    (if now_ms >= x.state.last_seen_ms { now_ms - x.state.last_seen_ms } else { 0 }) <= DISCOVERY_ROUTE_TTL_MS
}

/// Route `x` may carry the item at `now_ms`: its side is not excluded,
/// it is fresh, and, for an item with link-local-only endpoints, its side
/// exists and allows link-local traffic.
spec fn route_allowed(r: &Router, x: RouteEntry, exclude: Option<RouterSideId>, restrict_ll: bool, now_ms: u64) -> bool {
    &&& exclude != Some(x.side)
    &&& route_fresh(x, now_ms)
    &&& !(restrict_ll && (x.side >= r.sides@.len() || !r.sides@[x.side as int].opts.link_local_enabled))
}

/// Route `x` reaches the preferred time source `pref`.
spec fn route_exact(x: RouteEntry, pref: Option<Seq<char>>) -> bool {
    match pref {
        Some(src) => exists|j: int|
            0 <= j < x.state.reachable_timesync_sources@.len() && #[trigger] x.state.reachable_timesync_sources@[j]@ == src,
        None => false,
    }
}

/// Route `x` reaches one of the endpoints `eps`.
spec fn route_knows(x: RouteEntry, eps: Seq<DataEndpoint>) -> bool {
    exists|k: int| 0 <= k < eps.len() && x.state.reachable@.contains(#[trigger] eps[k])
}

/// The sides of the allowed routes that reach the preferred source, in
/// route order.
spec fn exact_sides(
    r: &Router,
    pref: Option<Seq<char>>,
    exclude: Option<RouterSideId>,
    restrict_ll: bool,
    now_ms: u64,
) -> Seq<RouterSideId> {
    r.routes@.filter(|x: RouteEntry| route_allowed(r, x, exclude, restrict_ll, now_ms) && route_exact(x, pref)).map_values(
        |x: RouteEntry| x.side,
    )
}

/// The sides of the other allowed routes that reach one of `eps`, in
/// route order.
spec fn generic_sides(
    r: &Router,
    eps: Seq<DataEndpoint>,
    pref: Option<Seq<char>>,
    exclude: Option<RouterSideId>,
    restrict_ll: bool,
    now_ms: u64,
) -> Seq<RouterSideId> {
    r.routes@.filter(
        |x: RouteEntry| route_allowed(r, x, exclude, restrict_ll, now_ms) && !route_exact(x, pref) && route_knows(x, eps),
    ).map_values(|x: RouteEntry| x.side)
}

/// The sides allowing link-local traffic, other than `exclude`.
spec fn ll_sides(r: &Router, exclude: Option<RouterSideId>) -> Seq<RouterSideId> {
    Seq::new(r.sides@.len(), |s: int| s as usize).filter(
        |s: usize| Some(s) != exclude && r.sides@[s as int].opts.link_local_enabled,
    )
}

/// The side plan of an item with endpoints `eps` at `now_ms` (`None`:
/// flood): the sides whose routes reach the preferred source, else those
/// whose routes reach an endpoint, else the link-local sides for a
/// link-local-only item, else flood when `flood_fallback`, else none.
pub closed spec fn spec_routed_plan(
    r: &Router,
    eps: Seq<DataEndpoint>,
    pref: Option<Seq<char>>,
    exclude: Option<RouterSideId>,
    restrict_ll: bool,
    flood_fallback: bool,
    now_ms: u64,
) -> Option<Seq<RouterSideId>> {
    let ex = exact_sides(r, pref, exclude, restrict_ll, now_ms);
    let ge = generic_sides(r, eps, pref, exclude, restrict_ll, now_ms);
    if ex.len() > 0 {
        Some(ex)
    } else if ge.len() > 0 {
        Some(ge)
    } else if restrict_ll {
        Some(ll_sides(r, exclude))
    } else if flood_fallback {
        None
    } else {
        Some(Seq::empty())
    }
}

/// Learned route `i` of `r` may carry an item at `now_ms`: its side is not
/// `exclude`, it was heard within the route lifetime, and, for an item
/// with link-local-only endpoints, its side exists and allows link-local
/// traffic.
pub open spec fn plan_may_use(r: &Router, i: int, exclude: Option<RouterSideId>, restrict_ll: bool, now_ms: u64) -> bool {
    &&& exclude != Some(r.route_side(i))
    &&& (if now_ms >= r.route_last_seen(i) { now_ms - r.route_last_seen(i) } else { 0 }) <= DISCOVERY_ROUTE_TTL_MS
    &&& !(restrict_ll && (r.route_side(i) >= r.num_sides() || !r.side_link_local(r.route_side(i) as int)))
}

/// Learned route `i` of `r` reaches one of the endpoints `eps`.
pub open spec fn plan_route_reaches(r: &Router, i: int, eps: Seq<DataEndpoint>) -> bool {
    exists|k: int| 0 <= k < eps.len() && r.route_reachable(i).contains(#[trigger] eps[k])
}

/// Route `i` of `r` as the side plan reads it.
proof fn lemma_route_reading(
    r: &Router,
    i: int,
    eps: Seq<DataEndpoint>,
    pref: Option<Seq<char>>,
    exclude: Option<RouterSideId>,
    restrict_ll: bool,
    now_ms: u64,
)
    requires
        0 <= i < r.route_count(),
    ensures
        route_allowed(r, r.routes@[i], exclude, restrict_ll, now_ms) == plan_may_use(r, i, exclude, restrict_ll, now_ms),
        route_knows(r.routes@[i], eps) == plan_route_reaches(r, i, eps),
        route_exact(r.routes@[i], pref) == (pref matches Some(src) && r.route_sources(i).contains(src)),
{
    if let Some(src) = pref {
        let ss = r.routes@[i].state.reachable_timesync_sources@;
        if route_exact(r.routes@[i], pref) {
            let j = choose|j: int| 0 <= j < ss.len() && #[trigger] ss[j]@ == src;
            assert(r.route_sources(i)[j] == src);
        }
        if r.route_sources(i).contains(src) {
            let j = choose|j: int| 0 <= j < r.route_sources(i).len() && r.route_sources(i)[j] == src;
            assert(ss[j]@ == src);
        }
    }
}

/// The side plan follows the learned routes: when no usable route reaches
/// the preferred time source and some usable route reaches an endpoint of
/// the item, the plan lists sides, each the side of a usable route that
/// reaches one of the item's endpoints, and it lists the side of every
/// usable route that reaches one.
#[verifier::spinoff_prover]
pub proof fn lemma_plan_follows_routes(
    r: &Router,
    eps: Seq<DataEndpoint>,
    pref: Option<Seq<char>>,
    exclude: Option<RouterSideId>,
    restrict_ll: bool,
    flood_fallback: bool,
    now_ms: u64,
)
    requires
        forall|i: int|
            0 <= i < r.route_count() && #[trigger] plan_may_use(r, i, exclude, restrict_ll, now_ms) ==> !(pref matches Some(
                src,
            ) && r.route_sources(i).contains(src)),
        exists|i: int|
            0 <= i < r.route_count() && #[trigger] plan_may_use(r, i, exclude, restrict_ll, now_ms) && plan_route_reaches(
                r,
                i,
                eps,
            ),
    ensures
        spec_routed_plan(r, eps, pref, exclude, restrict_ll, flood_fallback, now_ms) matches Some(t) && (forall|m: int|
            #![trigger t[m]]
            0 <= m < t.len() ==> exists|i: int|
                0 <= i < r.route_count() && #[trigger] r.route_side(i) == t[m] && plan_may_use(
                    r,
                    i,
                    exclude,
                    restrict_ll,
                    now_ms,
                ) && plan_route_reaches(r, i, eps)) && (forall|i: int|
            0 <= i < r.route_count() && plan_may_use(r, i, exclude, restrict_ll, now_ms) && plan_route_reaches(r, i, eps)
                ==> t.contains(#[trigger] r.route_side(i))),
{
    let rs = r.routes@;
    let pe = |x: RouteEntry| route_allowed(r, x, exclude, restrict_ll, now_ms) && route_exact(x, pref);
    let pg = |x: RouteEntry| route_allowed(r, x, exclude, restrict_ll, now_ms) && !route_exact(x, pref) && route_knows(x, eps);
    let side_of = |x: RouteEntry| x.side;
    let fe = rs.filter(pe);
    if fe.len() > 0 {
        rs.lemma_filter_pred(pe, 0);
        rs.lemma_filter_contains_rev(pe, fe[0]);
        let i = choose|i: int| 0 <= i < rs.len() && rs[i] == fe[0];
        lemma_route_reading(r, i, eps, pref, exclude, restrict_ll, now_ms);
        assert(route_allowed(r, rs[i], exclude, restrict_ll, now_ms) && route_exact(rs[i], pref));
        assert(plan_may_use(r, i, exclude, restrict_ll, now_ms));
        assert(pref matches Some(src) && r.route_sources(i).contains(src));
        assert(false);
    }
    let i0 = choose|i: int|
        0 <= i < r.route_count() && #[trigger] plan_may_use(r, i, exclude, restrict_ll, now_ms) && plan_route_reaches(r, i, eps);
    let fg = rs.filter(pg);
    lemma_route_reading(r, i0, eps, pref, exclude, restrict_ll, now_ms);
    rs.lemma_filter_contains(pg, i0);
    assert(fg.len() > 0);
    let t = fg.map_values(side_of);
    assert(spec_routed_plan(r, eps, pref, exclude, restrict_ll, flood_fallback, now_ms) == Some(t));
    assert forall|m: int| #![trigger t[m]] 0 <= m < t.len() implies exists|i: int|
        0 <= i < r.route_count() && #[trigger] r.route_side(i) == t[m] && plan_may_use(r, i, exclude, restrict_ll, now_ms)
            && plan_route_reaches(r, i, eps) by {
        rs.lemma_filter_pred(pg, m);
        rs.lemma_filter_contains_rev(pg, fg[m]);
        let i = choose|i: int| 0 <= i < rs.len() && rs[i] == fg[m];
        lemma_route_reading(r, i, eps, pref, exclude, restrict_ll, now_ms);
        assert(r.route_side(i) == t[m]);
    }
    assert forall|i: int|
        0 <= i < r.route_count() && plan_may_use(r, i, exclude, restrict_ll, now_ms) && plan_route_reaches(r, i, eps)
            implies t.contains(#[trigger] r.route_side(i)) by {
        lemma_route_reading(r, i, eps, pref, exclude, restrict_ll, now_ms);
        rs.lemma_filter_contains(pg, i);
        let k = choose|k: int| 0 <= k < fg.len() && fg[k] == rs[i];
        assert(t[k] == r.route_side(i));
    }
}

/// An item with endpoints `eps` and type `ty` is flooded when no route
/// takes it: it has an endpoint without a local handler, or it is a time
/// sync message.
spec fn falls_back_to_flood(r: &Router, eps: Seq<DataEndpoint>, ty: DataType) -> bool {
    spec_has_nonlocal(eps, handler_endpoints(r.handlers_view())) || spec_timesync_type(ty)
}

/// Plan `p` sends to no side of `r` other than `exclude`.
spec fn plan_reaches_none(r: &Router, p: Option<Seq<RouterSideId>>, exclude: Option<RouterSideId>) -> bool {
    match p {
        None => match exclude {
            None => r.sides@.len() == 0,
            Some(x) => r.sides@.len() == 0 || (r.sides@.len() == 1 && x == 0),
        },
        Some(t) => t.len() == 0,
    }
}

/// Every side that plan `p` names (every side of `r`, for a flood) has
/// been handed item `d`.
spec fn delivered_per_plan(r: &Router, d: ItemModel, p: Option<Seq<RouterSideId>>) -> bool {
    match p {
        None => forall|s: int| 0 <= s < r.sides@.len() ==> #[trigger] side_delivered(r, s, d),
        Some(t) => forall|i: int| 0 <= i < t.len() ==> #[trigger] side_delivered(r, t[i] as int, d),
    }
}

/// The routing law of a broadcast from `r`: item `d` (other than a
/// discovery message) has been handed to every side that the side plan
/// names for it at some instant: the sides whose fresh routes reach its
/// preferred source, else those whose fresh routes reach one of its
/// endpoints, else the link-local sides, else every side or none.
pub closed spec fn routed_as_planned(r: &Router, d: ItemModel) -> bool {
    match item_header(d) {
        Some(h) => !discovery_type(h.1) ==> (spec_preferred(r, d, h.1) matches Ok(pref) && exists|now_ms: u64|
            delivered_per_plan(
                r,
                d,
                #[trigger] spec_routed_plan(
                    r,
                    h.0,
                    pref,
                    None,
                    spec_all_link_local(h.0),
                    falls_back_to_flood(r, h.0, h.1),
                    now_ms,
                ),
            )),
        None => true,
    }
}

/// The side plan depends on a router only through its sides and routes.
proof fn lemma_plan_same(
    a: &Router,
    b: &Router,
    eps: Seq<DataEndpoint>,
    pref: Option<Seq<char>>,
    exclude: Option<RouterSideId>,
    restrict_ll: bool,
    flood_fallback: bool,
    now_ms: u64,
)
    requires
        a.routes == b.routes,
        a.sides == b.sides,
    ensures
        spec_routed_plan(a, eps, pref, exclude, restrict_ll, flood_fallback, now_ms) == spec_routed_plan(
            b,
            eps,
            pref,
            exclude,
            restrict_ll,
            flood_fallback,
            now_ms,
        ),
{
    assert((|x: RouteEntry| route_allowed(a, x, exclude, restrict_ll, now_ms) && route_exact(x, pref)) =~= (|x: RouteEntry|
        route_allowed(b, x, exclude, restrict_ll, now_ms) && route_exact(x, pref)));
    assert((|x: RouteEntry|
        route_allowed(a, x, exclude, restrict_ll, now_ms) && !route_exact(x, pref) && route_knows(x, eps)) =~= (|x: RouteEntry|
        route_allowed(b, x, exclude, restrict_ll, now_ms) && !route_exact(x, pref) && route_knows(x, eps)));
    assert((|s: usize| Some(s) != exclude && a.sides@[s as int].opts.link_local_enabled) =~= (|s: usize|
        Some(s) != exclude && b.sides@[s as int].opts.link_local_enabled));
}

/// A side plan as a value: `None` to flood, else the target sides.
spec fn plan_view(p: RemoteSidePlan) -> Option<Seq<RouterSideId>> {
    match p {
        RemoteSidePlan::Flood => None,
        RemoteSidePlan::Target(v) => Some(v@),
    }
}

/// A discovery message type.
spec fn discovery_type(ty: DataType) -> bool {
    ty == DataType::DiscoveryAnnounce || ty == DataType::DiscoveryTimeSyncSources
}

/// The endpoints (sorted without repeats) and type in the header of item
/// `d`, where it can be read.
spec fn item_header(d: ItemModel) -> Option<(Seq<DataEndpoint>, DataType)> {
    match d {
        ItemModel::Packet(p) => Some((spec_canonical_endpoints(p.endpoints), p.ty)),
        ItemModel::Serialized(b) => match serialize::spec_peek(b) {
            Ok(env) => Some((spec_canonical_endpoints(env.endpoints), env.ty)),
            Err(_) => None,
        },
    }
}

/// The plan that routing an item with endpoints `eps` and type `ty` takes
/// while no route has been learned, where its header reads.
spec fn plan_without_routes(r: &Router, eps: Seq<DataEndpoint>, ty: DataType, exclude: Option<RouterSideId>) -> Option<Seq<RouterSideId>> {
    if discovery_type(ty) {
        None
    } else if spec_all_link_local(eps) {
        Some(Seq::new(r.sides@.len(), |s: int| s as usize).filter(
            |s: usize| Some(s) != exclude && r.sides@[s as int].opts.link_local_enabled,
        ))
    } else if spec_has_nonlocal(eps, handler_endpoints(r.cfg.spec_handlers())) || spec_timesync_type(ty) {
        None
    } else {
        Some(Seq::empty())
    }
}

/// The error that reading the header of item `d` gives, if any.
spec fn header_error(d: ItemModel) -> Option<TelemetryError> {
    match d {
        ItemModel::Serialized(b) => match serialize::spec_peek(b) {
            Err(e) => Some(e),
            Ok(_) => None,
        },
        ItemModel::Packet(_) => None,
    }
}

/// One of the first `n` routes is fresh and reaches time source `y`.
spec fn fresh_route_source(routes: Seq<RouteEntry>, now_ms: u64, n: int, y: Seq<char>) -> bool {
    exists|i: int, k: int|
        0 <= i < n && route_fresh(routes[i], now_ms) && 0 <= k < routes[i].state.reachable_timesync_sources@.len()
            && #[trigger] routes[i].state.reachable_timesync_sources@[k]@ == y
}

/// `new` keeps every route of `old` for a side other than `side`, and has
/// a route for `side`.
spec fn route_learned(old: Seq<RouteEntry>, new: Seq<RouteEntry>, side: RouterSideId) -> bool {
    &&& forall|j: int| 0 <= j < old.len() && (#[trigger] old[j]).side != side ==> new.contains(old[j])
    &&& exists|i: int| 0 <= i < new.len() && (#[trigger] new[i]).side == side
}

/// `i` is where a route for `side` goes: after every route of a smaller
/// side.
spec fn route_slot(s: Seq<RouteEntry>, side: RouterSideId, i: int) -> bool {
    &&& 0 <= i <= s.len()
    &&& forall|j: int| 0 <= j < i ==> (#[trigger] s[j]).side < side
    &&& i < s.len() ==> s[i].side >= side
}

/// The date fields of `t`.
pub open spec fn date_part(t: PartialNetworkTime) -> PartialNetworkTime {
    PartialNetworkTime { year: t.year, month: t.month, day: t.day, hour: None, minute: None, second: None, nanosecond: None }
}

/// The time-of-day fields of `t`.
pub open spec fn tod_part(t: PartialNetworkTime) -> PartialNetworkTime {
    PartialNetworkTime { year: None, month: None, day: None, hour: t.hour, minute: t.minute, second: t.second, nanosecond: t.nanosecond }
}

/// `ms` milliseconds as nanoseconds, saturating at `u32::MAX`.
pub open spec fn millis_as_nanos(ms: u16) -> u32 {
    if ms * 1_000_000 > u32::MAX {
        u32::MAX
    } else {
        (ms * 1_000_000) as u32
    }
}

/// `s` without the locally supplied sources.
pub open spec fn without_local_sources(s: Seq<ClockSourceModel>) -> Seq<ClockSourceModel> {
    spec_without(
        spec_without(
            spec_without(spec_without(s, timesync::LOCAL_TIMESYNC_FULL_SOURCE_ID@), timesync::LOCAL_TIMESYNC_DATE_SOURCE_ID@),
            timesync::LOCAL_TIMESYNC_TOD_SOURCE_ID@,
        ),
        timesync::LOCAL_TIMESYNC_SUBSEC_SOURCE_ID@,
    )
}

/// The sub-second field of `t`.
pub open spec fn subsec_part(t: PartialNetworkTime) -> PartialNetworkTime {
    PartialNetworkTime { year: None, month: None, day: None, hour: None, minute: None, second: None, nanosecond: t.nanosecond }
}

/// Whether `t` carries a complete date and time of day.
pub open spec fn complete_date_time(t: PartialNetworkTime) -> bool {
    &&& t.year is Some
    &&& t.month is Some
    &&& t.day is Some
    &&& t.hour is Some
    &&& t.minute is Some
    &&& t.second is Some
}

/// Priority of locally supplied time under a time sync configuration.
pub open spec fn local_time_priority(cfg: Option<TimeSyncConfig>) -> u64 {
    match cfg {
        Some(c) => c.priority,
        None => 0,
    }
}

/// `time` moved forward by `elapsed_ns` when it is a complete time that can
/// be advanced; else `time` itself.
pub open spec fn advanced_partial(time: PartialNetworkTime, elapsed_ns: u64) -> PartialNetworkTime {
    match spec_to_network_time(time) {
        Some(base) => match spec_advance(base, elapsed_ns) {
            Some(a) => spec_partial_of(a),
            None => time,
        },
        None => time,
    }
}

/// `t` is `s` with the source `name` set, at some clock reading, to `time`
/// advanced by the time taken to record it.
pub open spec fn source_recorded(
    s: Seq<ClockSourceModel>,
    t: Seq<ClockSourceModel>,
    name: Seq<char>,
    priority: u64,
    time: PartialNetworkTime,
    ttl_ms: Option<u64>,
) -> bool {
    exists|u: u64, a: u64, e: u64|
        #![trigger advanced_partial(time, e), spec_upsert(s, ClockSourceModel { name, priority, updated_mono_ms: u, anchor_mono_ns: a, ttl_ms, time: advanced_partial(time, e) })]
        t == spec_upsert(
            s,
            ClockSourceModel { name, priority, updated_mono_ms: u, anchor_mono_ns: a, ttl_ms, time: advanced_partial(time, e) },
        )
}

/// The time sources `t` after setting the local time `time` with
/// `priority` on the sources `s`: a complete date and time replaces the
/// local sources by one full source; otherwise the full source goes and
/// the date, time-of-day and sub-second parts that are present each set
/// their own source.
pub open spec fn local_time_recorded(
    s: Seq<ClockSourceModel>,
    t: Seq<ClockSourceModel>,
    time: PartialNetworkTime,
    priority: u64,
) -> bool {
    if complete_date_time(time) {
        exists|s1: Seq<ClockSourceModel>|
            #[trigger] source_recorded(s, s1, timesync::LOCAL_TIMESYNC_FULL_SOURCE_ID@, priority, time, None)
                && t == spec_without(
                spec_without(
                    spec_without(s1, timesync::LOCAL_TIMESYNC_DATE_SOURCE_ID@),
                    timesync::LOCAL_TIMESYNC_TOD_SOURCE_ID@,
                ),
                timesync::LOCAL_TIMESYNC_SUBSEC_SOURCE_ID@,
            )
    } else {
        let s0 = spec_without(s, timesync::LOCAL_TIMESYNC_FULL_SOURCE_ID@);
        exists|s1: Seq<ClockSourceModel>, s2: Seq<ClockSourceModel>|
            #![trigger date_step(s0, s1, time, priority), tod_step(s1, s2, time, priority)]
            date_step(s0, s1, time, priority) && tod_step(s1, s2, time, priority) && subsec_step(s2, t, time, priority)
    }
}

/// The date step of setting a partial local time.
pub open spec fn date_step(s: Seq<ClockSourceModel>, t: Seq<ClockSourceModel>, time: PartialNetworkTime, priority: u64) -> bool {
    if time.year is Some || time.month is Some || time.day is Some {
        source_recorded(s, t, timesync::LOCAL_TIMESYNC_DATE_SOURCE_ID@, priority, date_part(time), None)
    } else {
        t == s
    }
}

/// The time-of-day step of setting a partial local time.
pub open spec fn tod_step(s: Seq<ClockSourceModel>, t: Seq<ClockSourceModel>, time: PartialNetworkTime, priority: u64) -> bool {
    if time.hour is Some || time.minute is Some || time.second is Some {
        source_recorded(s, t, timesync::LOCAL_TIMESYNC_TOD_SOURCE_ID@, priority, tod_part(time), None)
    } else {
        t == s
    }
}

/// The sub-second step of setting a partial local time.
pub open spec fn subsec_step(s: Seq<ClockSourceModel>, t: Seq<ClockSourceModel>, time: PartialNetworkTime, priority: u64) -> bool {
    if time.nanosecond is Some {
        source_recorded(s, t, timesync::LOCAL_TIMESYNC_SUBSEC_SOURCE_ID@, priority, subsec_part(time), None)
    } else {
        t == s
    }
}

fn millis_to_nanos(ms: u16) -> (r: u32)
    ensures
        r == millis_as_nanos(ms),
{
    if ms as u32 > u32::MAX / 1_000_000 {
        u32::MAX
    } else {
        (ms as u32) * 1_000_000
    }
}

impl Router {
    #[verifier::rlimit(40)]
    fn refresh_timesync_state(&mut self, now_mono_ms: u64)
        requires
            old(self).wf(),
        ensures
            final(self).same_topology(old(self)),
            final(self).deliveries() == old(self).deliveries(),
            same_routing(old(self), final(self)),
            final(self).timesync_cfg() == old(self).timesync_cfg(),
            final(self).ts.cfg == old(self).ts.cfg,
            final(self).ts.clock@ == timesync::spec_unexpired(old(self).ts.clock@, now_mono_ms),
            final(self).ts.remote_sources@ == fresh_remotes(old(self).ts.remote_sources@, now_mono_ms, match old(self).ts.cfg {
                Some(c) => c.source_timeout_ms,
                None => 0,
            }),
            final(self).ts.next_seq == old(self).ts.next_seq,
            final(self).ts.next_announce_mono_ms == old(self).ts.next_announce_mono_ms,
            match (old(self).ts.tracker, final(self).ts.tracker) {
                (None, None) => true,
                (Some(t0), Some(t1)) => t1@.sources == timesync::spec_active_only(
                    t0@.sources,
                    now_mono_ms,
                    t0@.cfg.source_timeout_ms,
                ) && t1@.cfg == t0@.cfg && t1@.local_id == t0@.local_id && t1@.current == timesync::spec_selected(
                    t1@,
                    now_mono_ms,
                ),
                _ => false,
            },
            (final(self).ts.pending_request == old(self).ts.pending_request && final(self).ts.next_request_mono_ms
                == old(self).ts.next_request_mono_ms) || (old(self).ts.pending_request is Some
                && final(self).ts.pending_request is None && final(self).ts.next_request_mono_ms == now_mono_ms),
            final(self).ts.disciplined_clock@ == old(self).ts.disciplined_clock@ || exists|ns: u64, i: int|
                0 <= i < final(self).ts.remote_sources@.len() && final(self).ts.disciplined_clock@ == #[trigger] timesync::spec_steer(
                    old(self).ts.disciplined_clock@,
                    ns,
                    final(self).ts.remote_sources@[i].sample_unix_ms,
                ),
    {
        let now_ns = self.clock.now_ns();
        self.ts.prune(now_mono_ms);
        let usable = self.ts.has_usable_time(now_ns);
        let leader = match &mut self.ts.tracker {
            Some(t) => {
                let _ = t.refresh(now_mono_ms);
                t.leader(now_mono_ms, usable)
            },
            None => None,
        };
        self.ts.reconcile_pending(&leader, now_mono_ms);
        let ghost rs = self.ts.remote_sources@;
        self.ts.steer_to_remote_leader(&leader, now_ns);
        proof {
            match leader {
                Some(TimeSyncLeader::Remote(remote)) => match first_remote(rs, remote.sender@) {
                    Some(i) => {
                        lemma_first_remote_some(rs, remote.sender@);
                        assert(self.ts.disciplined_clock@ == timesync::spec_steer(
                            old(self).ts.disciplined_clock@,
                            now_ns,
                            self.ts.remote_sources@[i].sample_unix_ms,
                        ));
                    },
                    None => {},
                },
                _ => {},
            }
        }
    }

    /// Insert or replace a named network time source (with an optional
    /// lifetime); a complete time also steers the disciplined clock.
    pub fn update_network_time_source(&mut self, source: &str, priority: u64, time: PartialNetworkTime, ttl_ms: Option<u64>)
        requires
            old(self).wf(),
        ensures
            same_routing(old(self), final(self)),
            final(self).timesync_cfg() == old(self).timesync_cfg(),
            exists|u: u64, a: u64|
                final(self).time_sources() == #[trigger] spec_upsert(
                    old(self).time_sources(),
                    ClockSourceModel { name: source@, priority, updated_mono_ms: u, anchor_mono_ns: a, ttl_ms, time },
                ),
    {
        let now_ms = self.clock.now_ms();
        let now_ns = self.clock.now_ns();
        self.ts.clock.update_source(source, priority, time, now_ms, now_ns, ttl_ms);
        match time.to_network_time() {
            Some(t) => match t.as_unix_ms() {
                Some(unix_ms) => self.ts.disciplined_clock.steer_unix_ms(now_ns, unix_ms),
                None => {},
            },
            None => {},
        }
        assert(self.time_sources() == spec_upsert(
            old(self).time_sources(),
            ClockSourceModel { name: source@, priority, updated_mono_ms: now_ms, anchor_mono_ns: now_ns, ttl_ms, time },
        ));
    }

    fn set_network_time_source_impl(&mut self, source: &str, priority: u64, time: PartialNetworkTime, ttl_ms: Option<u64>)
        requires
            old(self).wf(),
        ensures
            same_routing(old(self), final(self)),
            final(self).timesync_cfg() == old(self).timesync_cfg(),
            source_recorded(old(self).time_sources(), final(self).time_sources(), source@, priority, time, ttl_ms),
    {
        let observed_ms = self.clock.now_ms();
        let observed_ns = self.clock.now_ns();
        let commit_ms = self.clock.now_ms();
        let commit_ns = self.clock.now_ns();
        let adjusted = match time.to_network_time() {
            Some(base) => match timesync::advance_network_time(base, commit_ns.saturating_sub(observed_ns)) {
                Some(a) => PartialNetworkTime::from(a),
                None => time,
            },
            None => time,
        };
        let adjusted_ms = observed_ms.saturating_add(commit_ms.saturating_sub(observed_ms));
        let stamp = if commit_ms < adjusted_ms {
            adjusted_ms
        } else {
            commit_ms
        };
        let elapsed = commit_ns.saturating_sub(observed_ns);
        assert(adjusted == advanced_partial(time, elapsed));
        self.ts.clock.update_source(source, priority, adjusted, stamp, commit_ns, ttl_ms);
        match adjusted.to_network_time() {
            Some(t) => match t.as_unix_ms() {
                Some(unix_ms) => self.ts.disciplined_clock.steer_unix_ms(commit_ns, unix_ms),
                None => {},
            },
            None => {},
        }
    }

    fn local_network_time_priority(&self) -> (r: u64)
        ensures
            r == local_time_priority(self.timesync_cfg()),
    {
        match self.ts.cfg {
            Some(c) => c.priority,
            None => 0,
        }
    }

    /// Set this node's network time from any combination of date, time of
    /// day and sub-second fields: a complete date and time replaces the
    /// partial local sources; otherwise the date, time-of-day and sub-second
    /// parts each replace their own local source.
    pub fn set_local_network_time(&mut self, time: PartialNetworkTime)
        requires
            old(self).wf(),
        ensures
            same_routing(old(self), final(self)),
            final(self).timesync_cfg() == old(self).timesync_cfg(),
            local_time_recorded(old(self).time_sources(), final(self).time_sources(), time, local_time_priority(old(self).timesync_cfg())),
    {
        let priority = self.local_network_time_priority();
        let ghost s = self.ts.clock@;
        if time.is_complete_date() && time.is_complete_time() {
            self.set_network_time_source_impl(timesync::LOCAL_TIMESYNC_FULL_SOURCE_ID, priority, time, None);
            let ghost s1 = self.ts.clock@;
            self.ts.clock.remove_source(timesync::LOCAL_TIMESYNC_DATE_SOURCE_ID);
            self.ts.clock.remove_source(timesync::LOCAL_TIMESYNC_TOD_SOURCE_ID);
            self.ts.clock.remove_source(timesync::LOCAL_TIMESYNC_SUBSEC_SOURCE_ID);
            assert(source_recorded(s, s1, timesync::LOCAL_TIMESYNC_FULL_SOURCE_ID@, priority, time, None));
            return;
        }
        self.ts.clock.remove_source(timesync::LOCAL_TIMESYNC_FULL_SOURCE_ID);
        let ghost s0 = self.ts.clock@;
        if time.year.is_some() || time.month.is_some() || time.day.is_some() {
            let d = PartialNetworkTime { year: time.year, month: time.month, day: time.day, hour: None, minute: None, second: None, nanosecond: None };
            self.set_network_time_source_impl(timesync::LOCAL_TIMESYNC_DATE_SOURCE_ID, priority, d, None);
        }
        let ghost s1 = self.ts.clock@;
        assert(date_step(s0, s1, time, priority));
        if time.hour.is_some() || time.minute.is_some() || time.second.is_some() {
            let t = PartialNetworkTime { year: None, month: None, day: None, hour: time.hour, minute: time.minute, second: time.second, nanosecond: time.nanosecond };
            self.set_network_time_source_impl(timesync::LOCAL_TIMESYNC_TOD_SOURCE_ID, priority, t, None);
        }
        let ghost s2 = self.ts.clock@;
        assert(tod_step(s1, s2, time, priority));
        if time.nanosecond.is_some() {
            let n = PartialNetworkTime { year: None, month: None, day: None, hour: None, minute: None, second: None, nanosecond: time.nanosecond };
            self.set_network_time_source_impl(timesync::LOCAL_TIMESYNC_SUBSEC_SOURCE_ID, priority, n, None);
        }
        assert(subsec_step(s2, self.ts.clock@, time, priority));
    }

    /// Remove every locally supplied time source.
    pub fn clear_local_network_time(&mut self)
        requires
            old(self).wf(),
        ensures
            same_routing(old(self), final(self)),
            final(self).timesync_cfg() == old(self).timesync_cfg(),
            final(self).time_sources() == without_local_sources(old(self).time_sources()),
    {
        self.ts.remove_local_sources();
    }

    /// Set the local date.
    pub fn set_local_network_date(&mut self, year: i32, month: u8, day: u8)
        requires
            old(self).wf(),
        ensures
            same_routing(old(self), final(self)),
            final(self).timesync_cfg() == old(self).timesync_cfg(),
            local_time_recorded(
                old(self).time_sources(),
                final(self).time_sources(),
                (PartialNetworkTime { year: Some(year), month: Some(month), day: Some(day), hour: None, minute: None, second: None, nanosecond: None }),
                local_time_priority(old(self).timesync_cfg()),
            ),
    {
        self.set_local_network_time(PartialNetworkTime { year: Some(year), month: Some(month), day: Some(day), hour: None, minute: None, second: None, nanosecond: None });
    }

    /// Set the local time of day to the minute.
    pub fn set_local_network_time_hm(&mut self, hour: u8, minute: u8)
        requires
            old(self).wf(),
        ensures
            same_routing(old(self), final(self)),
            final(self).timesync_cfg() == old(self).timesync_cfg(),
            local_time_recorded(
                old(self).time_sources(),
                final(self).time_sources(),
                (PartialNetworkTime { year: None, month: None, day: None, hour: Some(hour), minute: Some(minute), second: None, nanosecond: None }),
                local_time_priority(old(self).timesync_cfg()),
            ),
    {
        self.set_local_network_time(PartialNetworkTime { year: None, month: None, day: None, hour: Some(hour), minute: Some(minute), second: None, nanosecond: None });
    }

    /// Set the local time of day to the second.
    pub fn set_local_network_time_hms(&mut self, hour: u8, minute: u8, second: u8)
        requires
            old(self).wf(),
        ensures
            same_routing(old(self), final(self)),
            final(self).timesync_cfg() == old(self).timesync_cfg(),
            local_time_recorded(
                old(self).time_sources(),
                final(self).time_sources(),
                (PartialNetworkTime { year: None, month: None, day: None, hour: Some(hour), minute: Some(minute), second: Some(second), nanosecond: None }),
                local_time_priority(old(self).timesync_cfg()),
            ),
    {
        self.set_local_network_time(PartialNetworkTime { year: None, month: None, day: None, hour: Some(hour), minute: Some(minute), second: Some(second), nanosecond: None });
    }

    /// Set the local time of day to the millisecond.
    pub fn set_local_network_time_hms_millis(&mut self, hour: u8, minute: u8, second: u8, millisecond: u16)
        requires
            old(self).wf(),
        ensures
            same_routing(old(self), final(self)),
            final(self).timesync_cfg() == old(self).timesync_cfg(),
            local_time_recorded(
                old(self).time_sources(),
                final(self).time_sources(),
                (PartialNetworkTime { year: None, month: None, day: None, hour: Some(hour), minute: Some(minute), second: Some(second), nanosecond: Some(millis_as_nanos(millisecond)) }),
                local_time_priority(old(self).timesync_cfg()),
            ),
    {
        let ns = millis_to_nanos(millisecond);
        self.set_local_network_time(PartialNetworkTime { year: None, month: None, day: None, hour: Some(hour), minute: Some(minute), second: Some(second), nanosecond: Some(ns) });
    }

    /// Set the local time of day to the nanosecond.
    pub fn set_local_network_time_hms_nanos(&mut self, hour: u8, minute: u8, second: u8, nanosecond: u32)
        requires
            old(self).wf(),
        ensures
            same_routing(old(self), final(self)),
            final(self).timesync_cfg() == old(self).timesync_cfg(),
            local_time_recorded(
                old(self).time_sources(),
                final(self).time_sources(),
                (PartialNetworkTime { year: None, month: None, day: None, hour: Some(hour), minute: Some(minute), second: Some(second), nanosecond: Some(nanosecond) }),
                local_time_priority(old(self).timesync_cfg()),
            ),
    {
        self.set_local_network_time(PartialNetworkTime { year: None, month: None, day: None, hour: Some(hour), minute: Some(minute), second: Some(second), nanosecond: Some(nanosecond) });
    }

    /// Set the local date and time to the second.
    pub fn set_local_network_datetime(&mut self, year: i32, month: u8, day: u8, hour: u8, minute: u8, second: u8)
        requires
            old(self).wf(),
        ensures
            same_routing(old(self), final(self)),
            final(self).timesync_cfg() == old(self).timesync_cfg(),
            local_time_recorded(
                old(self).time_sources(),
                final(self).time_sources(),
                (PartialNetworkTime { year: Some(year), month: Some(month), day: Some(day), hour: Some(hour), minute: Some(minute), second: Some(second), nanosecond: None }),
                local_time_priority(old(self).timesync_cfg()),
            ),
    {
        self.set_local_network_time(PartialNetworkTime { year: Some(year), month: Some(month), day: Some(day), hour: Some(hour), minute: Some(minute), second: Some(second), nanosecond: None });
    }

    /// Set the local date and time to the millisecond.
    pub fn set_local_network_datetime_millis(&mut self, year: i32, month: u8, day: u8, hour: u8, minute: u8, second: u8, millisecond: u16)
        requires
            old(self).wf(),
        ensures
            same_routing(old(self), final(self)),
            final(self).timesync_cfg() == old(self).timesync_cfg(),
            local_time_recorded(
                old(self).time_sources(),
                final(self).time_sources(),
                (PartialNetworkTime { year: Some(year), month: Some(month), day: Some(day), hour: Some(hour), minute: Some(minute), second: Some(second), nanosecond: Some(millis_as_nanos(millisecond)) }),
                local_time_priority(old(self).timesync_cfg()),
            ),
    {
        let ns = millis_to_nanos(millisecond);
        self.set_local_network_time(PartialNetworkTime { year: Some(year), month: Some(month), day: Some(day), hour: Some(hour), minute: Some(minute), second: Some(second), nanosecond: Some(ns) });
    }

    /// Set the local date and time to the nanosecond.
    pub fn set_local_network_datetime_nanos(&mut self, year: i32, month: u8, day: u8, hour: u8, minute: u8, second: u8, nanosecond: u32)
        requires
            old(self).wf(),
        ensures
            same_routing(old(self), final(self)),
            final(self).timesync_cfg() == old(self).timesync_cfg(),
            local_time_recorded(
                old(self).time_sources(),
                final(self).time_sources(),
                (PartialNetworkTime { year: Some(year), month: Some(month), day: Some(day), hour: Some(hour), minute: Some(minute), second: Some(second), nanosecond: Some(nanosecond) }),
                local_time_priority(old(self).timesync_cfg()),
            ),
    {
        self.set_local_network_time(PartialNetworkTime { year: Some(year), month: Some(month), day: Some(day), hour: Some(hour), minute: Some(minute), second: Some(second), nanosecond: Some(nanosecond) });
    }

    /// Remove a named network time source.
    pub fn clear_network_time_source(&mut self, source: &str)
        requires
            old(self).wf(),
        ensures
            same_routing(old(self), final(self)),
            final(self).timesync_cfg() == old(self).timesync_cfg(),
            final(self).time_sources() == spec_without(old(self).time_sources(), source@),
    {
        self.ts.clock.remove_source(source);
    }

    /// Replace the time sync configuration and reset the state derived from
    /// it, dropping remote and local time sources.
    pub fn set_timesync_config(&mut self, cfg: Option<TimeSyncConfig>)
        requires
            old(self).wf(),
        ensures
            same_routing(old(self), final(self)),
            final(self).timesync_cfg() == cfg,
    {
        self.ts.cfg = cfg;
        self.ts.tracker = match cfg {
            Some(c) => Some(TimeSyncTracker::new(c)),
            None => None,
        };
        self.ts.disciplined_clock = SlewedNetworkClock::new(slew_ppm(cfg));
        let mut stale: Vec<RemoteTimeSyncSource> = Vec::new();
        std::mem::swap(&mut stale, &mut self.ts.remote_sources);
        self.ts.next_seq = 1;
        self.ts.next_announce_mono_ms = 0;
        self.ts.next_request_mono_ms = 0;
        self.ts.pending_request = None;
        self.ts.clock.remove_source(timesync::INTERNAL_TIMESYNC_SOURCE_ID);
        let mut i: usize = 0;
        while i < stale.len()
            invariant
                i <= stale@.len(),
                same_routing(old(self), self),
                self.ts.cfg == cfg,
            decreases stale@.len() - i,
        {
            self.ts.clock.remove_source(stale[i].name.as_str());
            i = i + 1;
        }
        self.ts.remove_local_sources();
    }

    /// The best known network time: the disciplined clock when it runs,
    /// else the assembled clock reading.
    pub fn network_time(&mut self) -> (r: Option<NetworkTimeReading>)
        requires
            old(self).wf(),
        ensures
            final(self).same_topology(old(self)),
            final(self).deliveries() == old(self).deliveries(),
            same_routing(old(self), final(self)),
            final(self).timesync_cfg() == old(self).timesync_cfg(),
            exists|now_ns: u64| r == #[trigger] final(self).time_reading_at(now_ns),
    {
        let now_ms = self.clock.now_ms();
        let now_ns = self.clock.now_ns();
        self.refresh_timesync_state(now_ms);
        let r = match self.ts.disciplined_clock.read_unix_ms(now_ns) {
            Some(unix_ms) => Some(NetworkTimeReading { time: PartialNetworkTime::from_unix_ms(unix_ms), unix_time_ms: Some(unix_ms) }),
            None => self.ts.clock.current_time(now_ns),
        };
        assert(r == self.time_reading_at(now_ns));
        r
    }

    /// The network time in Unix milliseconds, when known.
    pub fn network_time_ms(&mut self) -> (r: Option<u64>)
        requires
            old(self).wf(),
        ensures
            final(self).same_topology(old(self)),
            final(self).deliveries() == old(self).deliveries(),
            same_routing(old(self), final(self)),
            final(self).timesync_cfg() == old(self).timesync_cfg(),
            exists|now_ns: u64| r == match #[trigger] final(self).time_reading_at(now_ns) {
                Some(t) => t.unix_time_ms,
                None => None,
            },
    {
        match self.network_time() {
            Some(t) => t.unix_time_ms,
            None => None,
        }
    }

    fn packet_timestamp_ms(&mut self) -> (r: u64)
        requires
            old(self).wf(),
        ensures
            final(self).same_topology(old(self)),
            final(self).deliveries() == old(self).deliveries(),
            same_routing(old(self), final(self)),
            final(self).timesync_cfg() == old(self).timesync_cfg(),
            final(self).stamp_candidate(r),
    {
        proof {
            reveal(Router::stamp_candidate);
        }
        match self.network_time_ms() {
            Some(t) => t,
            None => self.clock.now_ms(),
        }
    }

    fn log_queue_impl<T: LeBytes>(&mut self, ty: DataType, timestamp: u64, data: &[T], ignore_local: bool) -> (r: TelemetryResult<()>)
        requires
            old(self).wf(),
            data@.len() * T::spec_width() <= usize::MAX,
        ensures
            final(self).same_topology(old(self)),
            final(self).deliveries() == old(self).deliveries(),
            final(self).wf(),
            final(self).rx_queue_view() == old(self).rx_queue_view(),
            final(self).recent_ids() == old(self).recent_ids(),
            final(self).num_sides() == old(self).num_sides(),
            final(self).spec_mode() == old(self).spec_mode(),
            final(self).handlers_view() == old(self).handlers_view(),
            spec_log_packet(DEVICE_IDENTIFIER@, ty, data@, timestamp) matches Err(e) ==> (r
                == Err::<(), TelemetryError>(e) && final(self).tx_queue_view() == old(self).tx_queue_view()),
            spec_log_packet(DEVICE_IDENTIFIER@, ty, data@, timestamp) matches Ok(p) ==> (r is Ok ==> final(self).tx_queue_view().last()
                == (TxModel { to_side: None, data: ItemModel::Packet(p), ignore_local })),
            final(self).timesync_cfg() == old(self).timesync_cfg(),
            r is Ok ==> final(self).tx_queue_view().len() >= 1,
            r is Ok ==> (spec_log_packet(DEVICE_IDENTIFIER@, ty, data@, timestamp) matches Ok(p) && suffix_of(
                final(self).tx_queue_view(),
                old(self).tx_queue_view().push(TxModel { to_side: None, data: ItemModel::Packet(p), ignore_local }),
            )),
            r is Err ==> final(self).tx_queue_view() == old(self).tx_queue_view(),
    {
        let pkt = match log_packet(self.sender, ty, data, timestamp) {
            Ok(p) => p,
            Err(e) => {
                return Err(e);
            },
        };
        self.push_tx(RouterTxItem::Broadcast(RouterItem::Packet(pkt)), ignore_local)
    }

    /// Build a packet from `data` stamped `timestamp` and queue it for
    /// transmission.
    pub fn log_queue_ts<T: LeBytes>(&mut self, ty: DataType, timestamp: u64, data: &[T]) -> (r: TelemetryResult<()>)
        requires
            old(self).wf(),
            data@.len() * T::spec_width() <= usize::MAX,
        ensures
            final(self).deliveries() == old(self).deliveries(),
            final(self).wf(),
            final(self).rx_queue_view() == old(self).rx_queue_view(),
            spec_log_packet(DEVICE_IDENTIFIER@, ty, data@, timestamp) matches Err(e) ==> (r
                == Err::<(), TelemetryError>(e) && final(self).tx_queue_view() == old(self).tx_queue_view()),
            spec_log_packet(DEVICE_IDENTIFIER@, ty, data@, timestamp) matches Ok(p) ==> (r is Ok ==> final(self).tx_queue_view().last()
                == (TxModel { to_side: None, data: ItemModel::Packet(p), ignore_local: false })),
    {
        self.log_queue_impl(ty, timestamp, data, false)
    }

    /// Build a packet from `data` stamped with the network time (or the
    /// monotonic time) and queue it for transmission.
    pub fn log_queue<T: LeBytes>(&mut self, ty: DataType, data: &[T]) -> (r: TelemetryResult<()>)
        requires
            old(self).wf(),
            data@.len() * T::spec_width() <= usize::MAX,
        ensures
            final(self).deliveries() == old(self).deliveries(),
            final(self).wf(),
            final(self).rx_queue_view() == old(self).rx_queue_view(),
            exists|ts: u64| #[trigger] log_queued(old(self), final(self), r, ty, data@, ts),
    {
        let ts = self.packet_timestamp_ms();
        let r = self.log_queue_impl(ty, ts, data, false);
        assert(log_queued(old(self), self, r, ty, data@, ts));
        r
    }

    fn queue_internal_timesync_response(&mut self, seq: u64, t1: u64, t2: u64, t3: u64, dst: Option<RouterSideId>) -> (r: TelemetryResult<()>)
        requires
            old(self).wf(),
        ensures
            same_rx(old(self), final(self)),
            final(self).recent_ids() == old(self).recent_ids(),
            timesync_queued(old(self), final(self)),
            r is Ok ==> response_last(final(self), dst, seq, t1, t2, t3),
            r is Err ==> final(self).tx_queue_view() == old(self).tx_queue_view(),
            final(self).deliveries() == old(self).deliveries(),
    {
        let ts = self.packet_timestamp_ms();
        let words = [seq, t1, t2, t3];
        let payload = encode_slice_le(&words);
        let eps = [DataEndpoint::TimeSync];
        let pkt = match TelemetryPacket::new(DataType::TimeSyncResponse, &eps, self.sender, ts, payload.as_slice()) {
            Ok(p) => p,
            Err(e) => {
                proof {
                    lemma_no_timesync_queued(old(self), self);
                }
                return Err(e);
            },
        };
        let ghost mid = *self;
        let ghost pm = pkt@;
        assert(pm.ty == DataType::TimeSyncResponse);
        let r = match dst {
            Some(d) => self.push_tx(RouterTxItem::ToSide { dst: d, data: RouterItem::Packet(pkt) }, true),
            None => self.push_tx(RouterTxItem::Broadcast(RouterItem::Packet(pkt)), true),
        };
        proof {
            if r is Ok {
                let m = TxModel { to_side: dst, data: ItemModel::Packet(pm), ignore_local: true };
                assert(mid.tx_queue_view() == old(self).tx_queue_view());
                lemma_timesync_queued_push(old(self), self, m);
            } else {
                lemma_no_timesync_queued(old(self), self);
            }
        }
        r
    }

    /// Run one time sync cycle: prune stale sources, follow the leader, and
    /// queue an announce (when leading and due) and a request (when
    /// following and due); returns whether anything was queued.
    #[verifier::rlimit(40)]
    pub fn poll_timesync(&mut self) -> (r: TelemetryResult<bool>)
        requires
            old(self).wf(),
        ensures
            final(self).same_topology(old(self)),
            same_rx(old(self), final(self)),
            final(self).recent_ids() == old(self).recent_ids(),
            final(self).timesync_cfg() == old(self).timesync_cfg(),
            final(self).deliveries() == old(self).deliveries(),
            old(self).timesync_cfg() is None ==> r == Ok::<bool, TelemetryError>(false),
            r == Ok::<bool, TelemetryError>(false) ==> final(self).tx_queue_view() == old(self).tx_queue_view(),
            r == Ok::<bool, TelemetryError>(true) ==> ({
                let q = final(self).tx_queue_view();
                &&& q.len() > 0
                &&& q.last().to_side is None
                &&& !q.last().ignore_local
                &&& q.last().data matches ItemModel::Packet(p)
                &&& (p.ty == DataType::TimeSyncAnnounce || p.ty == DataType::TimeSyncRequest)
            }),
            timesync_queued(old(self), final(self)),
    {
        let now_ms = self.clock.now_ms();
        let now_ns = self.clock.now_ns();
        self.poll_timesync_at(now_ms, now_ns)
    }

    /// Run the time sync cadence at monotonic time `now_ms` (`now_ns`):
    /// drop silent sources, elect the leader, announce when this router leads
    /// and its announce interval has passed, request the time from a remote
    /// leader when its request interval has passed and no request to it is
    /// outstanding. Returns whether anything was queued.
    #[verifier::rlimit(80)]
    #[verifier::spinoff_prover]
    pub fn poll_timesync_at(&mut self, now_ms: u64, now_ns: u64) -> (r: TelemetryResult<bool>)
        requires
            old(self).wf(),
        ensures
            final(self).same_topology(old(self)),
            same_rx(old(self), final(self)),
            final(self).recent_ids() == old(self).recent_ids(),
            final(self).timesync_cfg() == old(self).timesync_cfg(),
            final(self).deliveries() == old(self).deliveries(),
            old(self).timesync_cfg() is None ==> r == Ok::<bool, TelemetryError>(false),
            r == Ok::<bool, TelemetryError>(false) ==> final(self).tx_queue_view() == old(self).tx_queue_view(),
            r == Ok::<bool, TelemetryError>(true) ==> ({
                let q = final(self).tx_queue_view();
                &&& q.len() > 0
                &&& q.last().to_side is None
                &&& !q.last().ignore_local
                &&& q.last().data matches ItemModel::Packet(p)
                &&& (p.ty == DataType::TimeSyncAnnounce || p.ty == DataType::TimeSyncRequest)
            }),
            timesync_queued(old(self), final(self)),
            old(self).timesync_cfg() is Some && r is Ok ==> r == Ok::<bool, TelemetryError>(
                poll_announce(old(self), now_ms, now_ns) is Some || poll_requests(old(self), now_ms, now_ns),
            ),
            old(self).timesync_cfg() is Some && poll_announce(old(self), now_ms, now_ns) is None && !poll_requests(
                old(self),
                now_ms,
                now_ns,
            ) ==> r == Ok::<bool, TelemetryError>(false),
            old(self).timesync_cfg() is Some && r is Ok ==> exists|added: Seq<TxModel>|
                #![trigger old(self).tx_queue_view() + added]
                suffix_of(final(self).tx_queue_view(), old(self).tx_queue_view() + added) && poll_queued(
                    added,
                    poll_announce(old(self), now_ms, now_ns),
                    poll_requests(old(self), now_ms, now_ns),
                    next_request_seq(old(self)),
                    now_ms,
                ),
    {
        self.ts.prune(now_ms);
        let cfg = match self.ts.cfg {
            Some(c) => c,
            None => {
                proof {
                    lemma_no_timesync_queued(old(self), self);
                }
                return Ok(false);
            },
        };
        let usable = self.ts.has_usable_time(now_ns);
        assert(usable == usable_at(old(self), now_ms, now_ns));
        let (leader, announce_prio) = match &mut self.ts.tracker {
            Some(t) => {
                let ghost t0 = *t;
                let _ = t.refresh(now_ms);
                assert(t@ == refreshed(t0@, now_ms));
                (t.leader(now_ms, usable), t.local_announce_priority(now_ms, usable))
            },
            None => (None, None),
        };
        let ghost lv: Option<timesync::LeaderModel> = match &leader {
            Some(l) => Some(l@),
            None => None,
        };
        assert(lv == poll_leader(old(self), now_ms, now_ns));
        assert(announce_prio == match old(self).ts.tracker {
            Some(t) => timesync::spec_announce_priority(refreshed(t@, now_ms), now_ms, usable_at(old(self), now_ms, now_ns)),
            None => None,
        });
        self.ts.reconcile_pending(&leader, now_ms);
        self.ts.steer_to_remote_leader(&leader, now_ns);
        let mut announce: Option<u64> = None;
        match announce_prio {
            Some(p) => {
                if now_ms >= self.ts.next_announce_mono_ms {
                    announce = Some(p);
                    self.ts.next_announce_mono_ms = now_ms.saturating_add(cfg.announce_interval_ms);
                }
            },
            None => {},
        }
        let mut request: Option<(u64, u64)> = None;
        match leader {
            Some(TimeSyncLeader::Remote(remote)) => {
                if now_ms >= self.ts.next_request_mono_ms && self.ts.pending_request.is_none() {
                    let seq = self.ts.next_seq;
                    self.ts.next_seq = if seq == u64::MAX { 1 } else { seq + 1 };
                    self.ts.next_request_mono_ms = now_ms.saturating_add(cfg.request_interval_ms);
                    self.ts.pending_request = Some(PendingTimeSyncRequest { seq, t1_mono_ms: now_ms, source: remote.sender });
                    request = Some((seq, now_ms));
                }
            },
            _ => {},
        }
        assert(announce == poll_announce(old(self), now_ms, now_ns));
        assert(request is Some == poll_requests(old(self), now_ms, now_ns));
        assert(request is Some ==> request->Some_0 == (next_request_seq(old(self)), now_ms));
        let mut queued = false;
        let ghost mut added: Seq<TxModel> = Seq::empty();
        proof {
            lemma_no_timesync_queued(old(self), self);
            assert(old(self).tx_queue_view() + added =~= self.tx_queue_view());
            lemma_suffix_refl(self.tx_queue_view());
        }
        match announce {
            Some(p) => {
                let time_ms = self.packet_timestamp_ms();
                let words = [p, time_ms];
                let ghost pre = *self;
                match self.log_queue_impl(DataType::TimeSyncAnnounce, time_ms, &words, false) {
                    Ok(()) => {},
                    Err(e) => {
                        return Err(e);
                    },
                }
                proof {
                    let pk = spec_log_packet(DEVICE_IDENTIFIER@, DataType::TimeSyncAnnounce, words@, time_ms)->Ok_0;
                    lemma_timesync_queued_push(&pre, self, TxModel { to_side: None, data: ItemModel::Packet(pk), ignore_local: false });
                    lemma_timesync_queued_trans(old(self), &pre, self);
                    assert(words@ =~= seq![p, time_ms]);
                    let m = announce_entry(p, time_ms);
                    lemma_suffix_trans_push(self.tx_queue_view(), pre.tx_queue_view(), old(self).tx_queue_view() + added, m);
                    assert((old(self).tx_queue_view() + added).push(m) =~= old(self).tx_queue_view() + added.push(m));
                    added = added.push(m);
                }
                queued = true;
            },
            None => {},
        }
        match request {
            Some((seq, t1)) => {
                let ts = self.packet_timestamp_ms();
                let words = [seq, t1];
                let ghost pre = *self;
                match self.log_queue_impl(DataType::TimeSyncRequest, ts, &words, false) {
                    Ok(()) => {},
                    Err(e) => {
                        return Err(e);
                    },
                }
                proof {
                    let pk = spec_log_packet(DEVICE_IDENTIFIER@, DataType::TimeSyncRequest, words@, ts)->Ok_0;
                    lemma_timesync_queued_push(&pre, self, TxModel { to_side: None, data: ItemModel::Packet(pk), ignore_local: false });
                    lemma_timesync_queued_trans(old(self), &pre, self);
                    assert(words@ =~= seq![seq, t1]);
                    let m = request_entry(seq, t1, ts);
                    lemma_suffix_trans_push(self.tx_queue_view(), pre.tx_queue_view(), old(self).tx_queue_view() + added, m);
                    assert((old(self).tx_queue_view() + added).push(m) =~= old(self).tx_queue_view() + added.push(m));
                    added = added.push(m);
                }
                queued = true;
            },
            None => {},
        }
        proof {
            assert(poll_queued(
                added,
                poll_announce(old(self), now_ms, now_ns),
                poll_requests(old(self), now_ms, now_ns),
                next_request_seq(old(self)),
                now_ms,
            ));
        }
        Ok(queued)
    }
}

// ---------------------------------------------------------------------------
// Routing decisions
// ---------------------------------------------------------------------------

/// Where remote copies of an item go.
pub enum RemoteSidePlan {
    /// To every side (except the ingress side).
    Flood,
    /// To these sides.
    Target(Vec<RouterSideId>),
}

/// Whether `ty` is handled by the router itself (time sync and discovery
/// announces).
pub open spec fn spec_internal_control(ty: DataType) -> bool {
    ty == DataType::TimeSyncAnnounce || ty == DataType::TimeSyncRequest || ty == DataType::TimeSyncResponse
        || ty == DataType::DiscoveryAnnounce
}

fn is_internal_control_type(ty: DataType) -> (r: bool)
    ensures
        r == spec_internal_control(ty),
{
    match ty {
        DataType::TimeSyncAnnounce | DataType::TimeSyncRequest | DataType::TimeSyncResponse | DataType::DiscoveryAnnounce => true,
        _ => false,
    }
}

/// Whether `ty` is a time sync message.
pub open spec fn spec_timesync_type(ty: DataType) -> bool {
    ty == DataType::TimeSyncAnnounce || ty == DataType::TimeSyncRequest || ty == DataType::TimeSyncResponse
}

fn is_timesync_type(ty: DataType) -> (r: bool)
    ensures
        r == spec_timesync_type(ty),
{
    match ty {
        DataType::TimeSyncAnnounce | DataType::TimeSyncRequest | DataType::TimeSyncResponse => true,
        _ => false,
    }
}

/// Whether some endpoint is neither local nor link-local only.
pub open spec fn spec_has_nonlocal(eps: Seq<DataEndpoint>, local: Seq<DataEndpoint>) -> bool {
    exists|i: int| 0 <= i < eps.len() && !local.contains(eps[i]) && !eps[i].spec_link_local_only()
}

fn has_nonlocal_endpoint(eps: &[DataEndpoint], cfg: &RouterConfig) -> (r: bool)
    ensures
        r == spec_has_nonlocal(eps@, handler_endpoints(cfg.spec_handlers())),
{
    let mut i: usize = 0;
    while i < eps.len()
        invariant
            i <= eps@.len(),
            forall|j: int| 0 <= j < i ==> !(!handler_endpoints(cfg.spec_handlers()).contains(eps@[j]) && !eps@[j].spec_link_local_only()),
        decreases eps@.len() - i,
    {
        if !cfg.is_local_endpoint(eps[i]) && !eps[i].is_link_local_only() {
            return true;
        }
        i = i + 1;
    }
    false
}

/// Whether every endpoint (of at least one) is link-local only.
pub open spec fn spec_all_link_local(eps: Seq<DataEndpoint>) -> bool {
    eps.len() > 0 && forall|i: int| 0 <= i < eps.len() ==> eps[i].spec_link_local_only()
}

pub(crate) fn endpoints_are_link_local_only(eps: &[DataEndpoint]) -> (r: bool)
    ensures
        r == spec_all_link_local(eps@),
{
    if eps.len() == 0 {
        return false;
    }
    let mut i: usize = 0;
    while i < eps.len()
        invariant
            i <= eps@.len(),
            forall|j: int| 0 <= j < i ==> eps@[j].spec_link_local_only(),
        decreases eps@.len() - i,
    {
        if !eps[i].is_link_local_only() {
            return false;
        }
        i = i + 1;
    }
    true
}

pub(crate) fn same_endpoints(a: &Vec<DataEndpoint>, b: &Vec<DataEndpoint>) -> (r: bool)
    ensures
        r == (a@ == b@),
{
    if a.len() != b.len() {
        return false;
    }
    let mut i: usize = 0;
    while i < a.len()
        invariant
            i <= a@.len(),
            a@.len() == b@.len(),
            forall|j: int| 0 <= j < i ==> a@[j] == b@[j],
        decreases a@.len() - i,
    {
        if a[i] != b[i] {
            return false;
        }
        i = i + 1;
    }
    assert(a@ =~= b@);
    true
}

pub(crate) fn same_strings(a: &Vec<String>, b: &Vec<String>) -> (r: bool)
    ensures
        r == (a@.map_values(|s: String| s@) == b@.map_values(|s: String| s@)),
{
    if a.len() != b.len() {
        assert(a@.map_values(|s: String| s@).len() != b@.map_values(|s: String| s@).len());
        return false;
    }
    let mut i: usize = 0;
    while i < a.len()
        invariant
            i <= a@.len(),
            a@.len() == b@.len(),
            forall|j: int| 0 <= j < i ==> a@[j]@ == b@[j]@,
        decreases a@.len() - i,
    {
        if !str_eq(a[i].as_str(), b[i].as_str()) {
            assert(a@.map_values(|s: String| s@)[i as int] != b@.map_values(|s: String| s@)[i as int]);
            return false;
        }
        i = i + 1;
    }
    assert(a@.map_values(|s: String| s@) =~= b@.map_values(|s: String| s@));
    true
}

pub(crate) fn contains_string(v: &Vec<String>, x: &str) -> (r: bool)
    ensures
        r == exists|j: int| 0 <= j < v@.len() && (#[trigger] v@[j])@ == x@,
{
    let mut i: usize = 0;
    while i < v.len()
        invariant
            i <= v@.len(),
            forall|j: int| 0 <= j < i ==> (#[trigger] v@[j])@ != x@,
        decreases v@.len() - i,
    {
        if str_eq(v[i].as_str(), x) {
            return true;
        }
        i = i + 1;
    }
    false
}

/// Write `msg` to standard error (`std::io::stderr`); nothing is claimed.
#[verifier::external_body]
fn fallback_stdout(msg: &str) {
    let _ = writeln!(std::io::stderr(), "{}", msg);
}

impl Router {
    fn item_route_info(&self, data: &RouterItem) -> (r: TelemetryResult<(Vec<DataEndpoint>, DataType)>)
        ensures
            match data@ {
                ItemModel::Packet(p) => r matches Ok(x) && x.0@ == spec_canonical_endpoints(p.endpoints) && x.1 == p.ty,
                ItemModel::Serialized(b) => match serialize::spec_peek(b) {
                    Ok(env) => r matches Ok(x) && x.0@ == spec_canonical_endpoints(env.endpoints) && x.1 == env.ty,
                    Err(e) => r == Err::<(Vec<DataEndpoint>, DataType), TelemetryError>(e),
                },
            },
    {
        match data {
            RouterItem::Packet(pkt) => {
                let eps = canonical_endpoints(pkt.endpoints());
                Ok((eps, pkt.data_type()))
            },
            RouterItem::Serialized(bytes) => {
                let env = serialize::peek_envelope(bytes.as_slice())?;
                let eps = canonical_endpoints(env.endpoints.as_slice());
                Ok((eps, env.ty))
            },
        }
    }

    fn preferred_timesync_source(&self, data: &RouterItem, ty: DataType) -> (r: TelemetryResult<Option<String>>)
        ensures
            !spec_timesync_type(ty) ==> (r matches Ok(o) && o is None),
            spec_timesync_type(ty) ==> match item_packet(data@) {
                Err(e) => r == Err::<Option<String>, TelemetryError>(e),
                Ok(p) => if ty == DataType::TimeSyncRequest {
                    if p.sender != self.sender@ {
                        r matches Ok(o) && o is None
                    } else {
                        match self.ts.tracker {
                            None => r matches Ok(o) && o is None,
                            Some(t) => match t@.current {
                                Some(name) => match timesync::spec_find_source(t@.sources, name) {
                                    Some(i) => r matches Ok(Some(x)) && x@ == t@.sources[i].sender,
                                    None => r matches Ok(o) && o is None,
                                },
                                None => r matches Ok(o) && o is None,
                            },
                        }
                    }
                } else {
                    r matches Ok(Some(x)) && x@ == p.sender
                },
            },
            r matches Ok(o) ==> spec_preferred(self, data@, ty) == Ok::<Option<Seq<char>>, TelemetryError>(opt_text(o)),
    {
        if !is_timesync_type(ty) {
            return Ok(None);
        }
        let owned: TelemetryPacket;
        let pkt: &TelemetryPacket = match data {
            RouterItem::Packet(p) => p,
            RouterItem::Serialized(bytes) => {
                owned = match serialize::deserialize_packet(bytes.as_slice()) {
                    Ok(p) => p,
                    Err(e) => {
                        return Err(e);
                    },
                };
                &owned
            },
        };
        match ty {
            DataType::TimeSyncRequest => {
                if str_eq(pkt.sender(), self.sender) {
                    match &self.ts.tracker {
                        Some(t) => match t.current_source() {
                            Some(src) => Ok(Some(src.sender.clone())),
                            None => Ok(None),
                        },
                        None => Ok(None),
                    }
                } else {
                    Ok(None)
                }
            },
            DataType::TimeSyncAnnounce | DataType::TimeSyncResponse => Ok(Some(pkt.sender().to_owned())),
            _ => Ok(None),
        }
    }

    fn link_local_sides(&self, exclude: Option<RouterSideId>) -> (r: Vec<RouterSideId>)
        ensures
            forall|i: int| 0 <= i < r@.len() ==> r@[i] < self.sides@.len(),
            r@ == Seq::new(self.sides@.len(), |s: int| s as usize).filter(
                |s: usize| Some(s) != exclude && self.sides@[s as int].opts.link_local_enabled,
            ),
    {
        let ghost all = Seq::new(self.sides@.len(), |s: int| s as usize);
        let ghost pred = |s: usize| Some(s) != exclude && self.sides@[s as int].opts.link_local_enabled;
        let mut out: Vec<RouterSideId> = Vec::new();
        let mut i: usize = 0;
        assert(all.take(0).filter(pred) =~= Seq::<usize>::empty());
        while i < self.sides.len()
            invariant
                i <= self.sides@.len(),
                all == Seq::new(self.sides@.len(), |s: int| s as usize),
                pred == (|s: usize| Some(s) != exclude && self.sides@[s as int].opts.link_local_enabled),
                out@ == all.take(i as int).filter(pred),
                forall|k: int| 0 <= k < out@.len() ==> out@[k] < self.sides@.len(),
            decreases self.sides@.len() - i,
        {
            let excluded = match exclude {
                Some(x) => x == i,
                None => false,
            };
            proof {
                assert(all.take(i + 1) =~= all.take(i as int).push(i));
                all.take(i as int).lemma_filter_push(i, pred);
            }
            if !excluded && self.sides[i].opts.link_local_enabled {
                out.push(i);
            }
            i = i + 1;
        }
        assert(all.take(i as int) =~= all);
        out
    }

    /// Which sides need a remote copy of `data`, excluding `exclude`.
    fn remote_side_plan(&self, data: &RouterItem, exclude: Option<RouterSideId>) -> (r: TelemetryResult<RemoteSidePlan>)
        ensures
            item_header(data@) matches Some(h) && discovery_type(h.1) ==> r matches Ok(RemoteSidePlan::Flood),
            match item_header(data@) {
                Some(h) => self.routes@.len() == 0 && r is Ok ==> match plan_without_routes(self, h.0, h.1, exclude) {
                    None => r matches Ok(RemoteSidePlan::Flood),
                    Some(t) => r matches Ok(RemoteSidePlan::Target(v)) && v@ == t,
                },
                None => true,
            },
            match item_header(data@) {
                Some(h) => !discovery_type(h.1) ==> (r matches Ok(plan) ==> spec_preferred(self, data@, h.1) matches Ok(
                    pref,
                ) && exists|now_ms: u64|
                    plan_view(plan) == #[trigger] spec_routed_plan(
                        self,
                        h.0,
                        pref,
                        exclude,
                        spec_all_link_local(h.0),
                        falls_back_to_flood(self, h.0, h.1),
                        now_ms,
                    )),
                None => true,
            },
            match data@ {
                ItemModel::Packet(p) => r is Ok,
                ItemModel::Serialized(b) => match serialize::spec_peek(b) {
                    Err(e) => r == Err::<RemoteSidePlan, TelemetryError>(e),
                    Ok(env) => if spec_timesync_type(env.ty) {
                        match item_packet(data@) {
                            Err(e) => r == Err::<RemoteSidePlan, TelemetryError>(e),
                            Ok(_) => r is Ok,
                        }
                    } else {
                        r is Ok
                    },
                },
            },
    {
        let (eps, ty) = self.item_route_info(data)?;
        if discovery::is_discovery_type(ty) {
            return Ok(RemoteSidePlan::Flood);
        }
        let bootstrap = is_timesync_type(ty);
        let preferred = self.preferred_timesync_source(data, ty)?;
        let has_nonlocal = has_nonlocal_endpoint(eps.as_slice(), &self.cfg);
        let restrict_ll = endpoints_are_link_local_only(eps.as_slice());
        let ghost pref = opt_text(preferred);
        let ghost ff = has_nonlocal || bootstrap;
        assert(ff == falls_back_to_flood(self, eps@, ty));
        if self.routes.len() == 0 {
            proof {
                self.routes@.filter(|x: RouteEntry| route_allowed(self, x, exclude, restrict_ll, 0) && route_exact(x, pref)).filter_lemma(
                    |x: RouteEntry| route_allowed(self, x, exclude, restrict_ll, 0) && route_exact(x, pref),
                );
                self.routes@.filter_lemma(|x: RouteEntry| route_allowed(self, x, exclude, restrict_ll, 0) && route_exact(x, pref));
                self.routes@.filter_lemma(
                    |x: RouteEntry|
                        route_allowed(self, x, exclude, restrict_ll, 0) && !route_exact(x, pref) && route_knows(x, eps@),
                );
                assert(exact_sides(self, pref, exclude, restrict_ll, 0).len() == 0);
                assert(generic_sides(self, eps@, pref, exclude, restrict_ll, 0).len() == 0);
            }
            if restrict_ll {
                let t = self.link_local_sides(exclude);
                proof {
                    assert(plan_view(RemoteSidePlan::Target(t)) == spec_routed_plan(self, eps@, pref, exclude, restrict_ll, ff, 0));
                }
                return Ok(RemoteSidePlan::Target(t));
            }
            return if has_nonlocal || bootstrap {
                assert(plan_view(RemoteSidePlan::Flood) == spec_routed_plan(self, eps@, pref, exclude, restrict_ll, ff, 0));
                Ok(RemoteSidePlan::Flood)
            } else {
                let t: Vec<RouterSideId> = Vec::new();
                assert(plan_view(RemoteSidePlan::Target(t)) == spec_routed_plan(self, eps@, pref, exclude, restrict_ll, ff, 0));
                Ok(RemoteSidePlan::Target(t))
            };
        }
        let now_ms = self.clock.now_ms();
        let plan = self.routed_plan(&eps, &preferred, exclude, restrict_ll, has_nonlocal || bootstrap, now_ms);
        Ok(plan)
    }

    /// The side plan of an item with endpoints `eps` at `now_ms` (see
    /// `spec_routed_plan`).
    fn routed_plan(
        &self,
        eps: &Vec<DataEndpoint>,
        preferred: &Option<String>,
        exclude: Option<RouterSideId>,
        restrict_ll: bool,
        flood_fallback: bool,
        now_ms: u64,
    ) -> (r: RemoteSidePlan)
        ensures
            plan_view(r) == spec_routed_plan(self, eps@, opt_text(*preferred), exclude, restrict_ll, flood_fallback, now_ms),
    {
        let ghost pref = opt_text(*preferred);
        let ghost pe = |x: RouteEntry| route_allowed(self, x, exclude, restrict_ll, now_ms) && route_exact(x, pref);
        let ghost pg = |x: RouteEntry|
            route_allowed(self, x, exclude, restrict_ll, now_ms) && !route_exact(x, pref) && route_knows(x, eps@);
        let ghost side_of = |x: RouteEntry| x.side;
        let mut exact: Vec<RouterSideId> = Vec::new();
        let mut generic: Vec<RouterSideId> = Vec::new();
        let mut i: usize = 0;
        assert(self.routes@.take(0).filter(pe).map_values(side_of) =~= Seq::<RouterSideId>::empty());
        assert(self.routes@.take(0).filter(pg).map_values(side_of) =~= Seq::<RouterSideId>::empty());
        while i < self.routes.len()
            invariant
                i <= self.routes@.len(),
                pref == opt_text(*preferred),
                pe == (|x: RouteEntry| route_allowed(self, x, exclude, restrict_ll, now_ms) && route_exact(x, pref)),
                pg == (|x: RouteEntry|
                    route_allowed(self, x, exclude, restrict_ll, now_ms) && !route_exact(x, pref) && route_knows(x, eps@)),
                side_of == (|x: RouteEntry| x.side),
                exact@ == self.routes@.take(i as int).filter(pe).map_values(side_of),
                generic@ == self.routes@.take(i as int).filter(pg).map_values(side_of),
            decreases self.routes@.len() - i,
        {
            let route = &self.routes[i];
            let side = route.side;
            let ghost x = self.routes@[i as int];
            proof {
                assert(self.routes@.take(i + 1) =~= self.routes@.take(i as int).push(x));
                self.routes@.take(i as int).lemma_filter_push(x, pe);
                self.routes@.take(i as int).lemma_filter_push(x, pg);
            }
            let excluded = match exclude {
                Some(e) => e == side,
                None => false,
            };
            let stale = now_ms.saturating_sub(route.state.last_seen_ms) > DISCOVERY_ROUTE_TTL_MS;
            let ll_blocked = restrict_ll && (side >= self.sides.len() || !self.sides[side].opts.link_local_enabled);
            let allowed = !excluded && !stale && !ll_blocked;
            assert(allowed == route_allowed(self, x, exclude, restrict_ll, now_ms));
            let is_exact = match preferred {
                Some(src) => contains_string(&route.state.reachable_timesync_sources, src.as_str()),
                None => false,
            };
            assert(is_exact == route_exact(x, pref));
            let mut known = false;
            if allowed && !is_exact {
                let mut k: usize = 0;
                while k < eps.len()
                    invariant
                        k <= eps@.len(),
                        i < self.routes@.len(),
                        x == self.routes@[i as int],
                        known == exists|k2: int| 0 <= k2 < k && x.state.reachable@.contains(#[trigger] eps@[k2]),
                    decreases eps@.len() - k,
                {
                    if contains_endpoint(self.routes[i].state.reachable.as_slice(), eps[k]) {
                        known = true;
                    }
                    k = k + 1;
                }
                assert(known == route_knows(x, eps@));
            }
            let ghost ex0 = exact@;
            let ghost ge0 = generic@;
            if allowed && is_exact {
                exact.push(side);
            } else if allowed && known {
                generic.push(side);
            }
            proof {
                assert(exact@ =~= self.routes@.take(i + 1).filter(pe).map_values(side_of));
                assert(generic@ =~= self.routes@.take(i + 1).filter(pg).map_values(side_of));
            }
            i = i + 1;
        }
        proof {
            assert(self.routes@.take(i as int) =~= self.routes@);
            assert(exact@ == exact_sides(self, pref, exclude, restrict_ll, now_ms));
            assert(generic@ == generic_sides(self, eps@, pref, exclude, restrict_ll, now_ms));
        }
        if exact.len() > 0 {
            RemoteSidePlan::Target(exact)
        } else if generic.len() > 0 {
            RemoteSidePlan::Target(generic)
        } else if restrict_ll {
            RemoteSidePlan::Target(self.link_local_sides(exclude))
        } else if flood_fallback {
            RemoteSidePlan::Flood
        } else {
            RemoteSidePlan::Target(Vec::new())
        }
    }

    fn should_route_remote(&self, data: &RouterItem, exclude: Option<RouterSideId>) -> (r: TelemetryResult<bool>)
        ensures
            match item_header(data@) {
                Some(h) => (discovery_type(h.1) || self.routes@.len() == 0) && r is Ok ==> r == Ok::<bool, TelemetryError>(
                    match plan_without_routes(self, h.0, h.1, exclude) {
                        None => match exclude {
                            None => self.sides@.len() > 0,
                            Some(x) => self.sides@.len() > 1 || (self.sides@.len() == 1 && x != 0),
                        },
                        Some(t) => t.len() > 0,
                    },
                ),
                None => true,
            },
            match item_header(data@) {
                Some(h) => !discovery_type(h.1) && r == Ok::<bool, TelemetryError>(false) ==> (spec_preferred(self, data@, h.1)
                    matches Ok(pref) && exists|now_ms: u64|
                    plan_reaches_none(
                        self,
                        #[trigger] spec_routed_plan(
                            self,
                            h.0,
                            pref,
                            exclude,
                            spec_all_link_local(h.0),
                            falls_back_to_flood(self, h.0, h.1),
                            now_ms,
                        ),
                        exclude,
                    )),
                None => true,
            },
            match data@ {
                ItemModel::Packet(p) => r is Ok,
                ItemModel::Serialized(b) => match serialize::spec_peek(b) {
                    Err(e) => r == Err::<bool, TelemetryError>(e),
                    Ok(env) => if spec_timesync_type(env.ty) {
                        match item_packet(data@) {
                            Err(e) => r == Err::<bool, TelemetryError>(e),
                            Ok(_) => r is Ok,
                        }
                    } else {
                        r is Ok
                    },
                },
            },
    {
        let plan = match self.remote_side_plan(data, exclude) {
            Ok(p) => p,
            Err(e) => {
                return Err(e);
            },
        };
        match plan {
            RemoteSidePlan::Target(sides) => Ok(sides.len() > 0),
            RemoteSidePlan::Flood => {
                let mut i: usize = 0;
                while i < self.sides.len()
                    invariant
                        i <= self.sides@.len(),
                        match data@ {
                            ItemModel::Packet(_) => true,
                            ItemModel::Serialized(b) => serialize::spec_peek(b) matches Ok(env) && (spec_timesync_type(env.ty)
                                ==> item_packet(data@) is Ok),
                        },
                        match item_header(data@) {
                            Some(h) => (discovery_type(h.1) || self.routes@.len() == 0) ==> plan_without_routes(
                                self,
                                h.0,
                                h.1,
                                exclude,
                            ) is None,
                            None => true,
                        },
                        i == 0 || (i == 1 && exclude == Some(0usize)),
                        match item_header(data@) {
                            Some(h) => !discovery_type(h.1) ==> (spec_preferred(self, data@, h.1) matches Ok(pref)
                                && exists|now_ms: u64|
                                #[trigger] spec_routed_plan(
                                    self,
                                    h.0,
                                    pref,
                                    exclude,
                                    spec_all_link_local(h.0),
                                    falls_back_to_flood(self, h.0, h.1),
                                    now_ms,
                                ) is None),
                            None => true,
                        },
                    decreases self.sides@.len() - i,
                {
                    let excluded = match exclude {
                        Some(x) => x == i,
                        None => false,
                    };
                    if !excluded {
                        return Ok(true);
                    }
                    i = i + 1;
                }
                Ok(false)
            },
        }
    }

    fn item_is_internal(data: &RouterItem) -> (r: bool)
        ensures
            r == (match data@ {
                ItemModel::Packet(p) => spec_internal_control(p.ty),
                ItemModel::Serialized(b) => match serialize::spec_peek(b) {
                    Ok(env) => spec_internal_control(env.ty),
                    Err(_) => false,
                },
            }),
    {
        match data {
            RouterItem::Packet(p) => is_internal_control_type(p.data_type()),
            RouterItem::Serialized(b) => match serialize::peek_envelope(b.as_slice()) {
                Ok(env) => is_internal_control_type(env.ty),
                Err(_) => false,
            },
        }
    }

    fn item_is_discovery(data: &RouterItem) -> (r: bool)
        ensures
            r == (match data@ {
                ItemModel::Packet(p) => p.ty == DataType::DiscoveryAnnounce || p.ty == DataType::DiscoveryTimeSyncSources,
                ItemModel::Serialized(b) => match serialize::spec_peek(b) {
                    Ok(env) => env.ty == DataType::DiscoveryAnnounce || env.ty == DataType::DiscoveryTimeSyncSources,
                    Err(_) => false,
                },
            }),
    {
        match data {
            RouterItem::Packet(p) => discovery::is_discovery_type(p.data_type()),
            RouterItem::Serialized(b) => match serialize::peek_envelope(b.as_slice()) {
                Ok(env) => discovery::is_discovery_type(env.ty),
                Err(_) => false,
            },
        }
    }

    /// Hand `data` to the transmit handler of `side`, converting between
    /// packets and bytes as the handler needs.
    fn send_to_side(&mut self, side: RouterSideId, data: &RouterItem) -> (r: TelemetryResult<()>)
        ensures
            side >= old(self).num_sides() ==> r == Err::<(), TelemetryError>(
                TelemetryError::HandlerError("router: invalid side id"),
            ),
            *final(self) == (Router { handed: final(self).handed, ..*old(self) }),
            r is Ok ==> side < old(self).num_sides() && side_handoff(old(self).side_takes_packets(side as int), data@) is Some,
            final(self).deliveries() == old(self).deliveries() + match (side < old(self).num_sides(), side_handoff(
                old(self).side_takes_packets(side as int),
                data@,
            )) {
                (true, Some(d)) => seq![Delivery::Side { side, data: d }],
                _ => Seq::<Delivery>::empty(),
            },
    {
        if side >= self.sides.len() {
            assert(self.deliveries() =~= old(self).deliveries() + Seq::<Delivery>::empty());
            return Err(TelemetryError::HandlerError("router: invalid side id"));
        }
        proof {
            match side_handoff(self.side_takes_packets(side as int), data@) {
                Some(d) => {
                    self.handed@ = self.handed@.push(Delivery::Side { side, data: d });
                },
                None => {
                    assert(self.handed@ =~= self.handed@ + Seq::<Delivery>::empty());
                },
            }
        }
        match (&self.sides[side].tx_handler, data) {
            (RouterTxHandlerFn::Serialized(f), RouterItem::Serialized(bytes)) => f.handle_bytes(bytes.as_slice()),
            (RouterTxHandlerFn::Packet(f), RouterItem::Packet(pkt)) => f.handle_packet(pkt),
            (RouterTxHandlerFn::Serialized(f), RouterItem::Packet(pkt)) => {
                let bytes = serialize::serialize_packet(pkt);
                f.handle_bytes(bytes.as_slice())
            },
            (RouterTxHandlerFn::Packet(f), RouterItem::Serialized(bytes)) => {
                let pkt = serialize::deserialize_packet(bytes.as_slice())?;
                f.handle_packet(&pkt)
            },
        }
    }

    /// Call a local handler up to `MAX_HANDLER_RETRIES` times; the first
    /// success wins, else the last error is returned.
    fn retry_handler(&self, hidx: usize, bytes: Option<&[u8]>, pkt: Option<&TelemetryPacket>) -> (r: TelemetryResult<()>)
        requires
            hidx < self.cfg.spec_handlers().len(),
        ensures
            (self.handlers_view()[hidx as int].spec_takes_packets() && pkt is None) || (
            !self.handlers_view()[hidx as int].spec_takes_packets() && bytes is None) ==> r == Ok::<(), TelemetryError>(()),
    {
        let mut last: TelemetryResult<()> = Ok(());
        let mut k: usize = 0;
        while k < MAX_HANDLER_RETRIES
            invariant
                hidx < self.cfg.spec_handlers().len(),
                (self.handlers_view()[hidx as int].spec_takes_packets() && pkt is None) || (
                !self.handlers_view()[hidx as int].spec_takes_packets() && bytes is None) ==> last == Ok::<
                    (),
                    TelemetryError,
                >(()),
            decreases MAX_HANDLER_RETRIES - k,
        {
            let res = match &self.cfg.handlers[hidx].handler {
                EndpointHandlerFn::Packet(f) => match pkt {
                    Some(p) => f.handle_packet(p),
                    None => Ok(()),
                },
                EndpointHandlerFn::Serialized(f) => match bytes {
                    Some(b) => f.handle_bytes(b),
                    None => Ok(()),
                },
            };
            match res {
                Ok(()) => {
                    return Ok(());
                },
                Err(e) => {
                    last = Err(e);
                },
            }
            k = k + 1;
        }
        last
    }

    /// Report a failed handler with an error packet to the packet's other
    /// (preferably local) endpoints; with none left, print the report.
    fn handle_callback_error(&mut self, pkt: &TelemetryPacket, dest: Option<DataEndpoint>, e: TelemetryError, depth: u32) -> (r: TelemetryResult<()>)
        requires
            old(self).wf(),
        ensures
            same_queues(old(self), final(self)),
            spec_error_recipients(pkt@.endpoints, handler_endpoints(old(self).handlers_view()), dest).len() == 0 ==> r == Ok::<
                (),
                TelemetryError,
            >(()) && *final(self) == *old(self),
            spec_error_recipients(pkt@.endpoints, handler_endpoints(old(self).handlers_view()), dest).len() > 0 && (depth == 0
                || crate::telemetry_packet::spec_payload_check(
                DataType::TelemetryError,
                spec_error_payload(vstd::utf8::encode_utf8(handler_error_text(dest, e))),
            ) is Err) ==> r == crate::telemetry_packet::spec_payload_check(
                DataType::TelemetryError,
                spec_error_payload(vstd::utf8::encode_utf8(handler_error_text(dest, e))),
            ),
            spec_error_recipients(pkt@.endpoints, handler_endpoints(old(self).handlers_view()), dest).len() > 0 && depth > 0
                && r is Ok ==> exists|ts: u64|
                #[trigger] error_report(
                    spec_error_recipients(pkt@.endpoints, handler_endpoints(old(self).handlers_view()), dest),
                    old(self).sender@,
                    ts,
                    handler_error_text(dest, e),
                ) matches Ok(p) && routed_as_planned(final(self), ItemModel::Packet(p)),
        decreases depth, 1nat,
    {
        let msg = handler_error_message(dest, &e);
        let recipients = error_recipients(pkt.endpoints(), &self.cfg, dest);
        if recipients.len() == 0 {
            fallback_stdout(msg.as_str());
            return Ok(());
        }
        let payload = make_error_payload(msg.as_str());
        let ts = self.packet_timestamp_ms();
        let err_pkt = TelemetryPacket::new(DataType::TelemetryError, recipients.as_slice(), self.sender, ts, payload.as_slice())?;
        if depth == 0 {
            return Ok(());
        }
        let ghost ep = err_pkt@;
        assert(error_report(recipients@, old(self).sender@, ts, handler_error_text(dest, e)) == Ok::<PacketModel, TelemetryError>(ep));
        self.tx_item_impl(RouterTxItem::Broadcast(RouterItem::Packet(err_pkt)), false, depth - 1)
    }

    /// Report a failed handler from the header of wire bytes.
    fn handle_callback_error_from_env(&mut self, env: &serialize::TelemetryEnvelope, dest: Option<DataEndpoint>, e: TelemetryError, depth: u32) -> (r: TelemetryResult<()>)
        requires
            old(self).wf(),
        ensures
            same_queues(old(self), final(self)),
            spec_error_recipients(env.endpoints@, handler_endpoints(old(self).handlers_view()), dest).len() == 0 ==> r == Ok::<
                (),
                TelemetryError,
            >(()) && *final(self) == *old(self),
            spec_error_recipients(env.endpoints@, handler_endpoints(old(self).handlers_view()), dest).len() > 0 && (depth == 0
                || crate::telemetry_packet::spec_payload_check(
                DataType::TelemetryError,
                spec_error_payload(vstd::utf8::encode_utf8(envelope_error_text(dest, e))),
            ) is Err) ==> r == crate::telemetry_packet::spec_payload_check(
                DataType::TelemetryError,
                spec_error_payload(vstd::utf8::encode_utf8(envelope_error_text(dest, e))),
            ),
            spec_error_recipients(env.endpoints@, handler_endpoints(old(self).handlers_view()), dest).len() > 0 && depth > 0
                && r is Ok ==> (error_report(
                spec_error_recipients(env.endpoints@, handler_endpoints(old(self).handlers_view()), dest),
                env.sender@,
                env.timestamp_ms,
                envelope_error_text(dest, e),
            ) matches Ok(p) && routed_as_planned(final(self), ItemModel::Packet(p))),
        decreases depth, 1nat,
    {
        let recipients = error_recipients(env.endpoints.as_slice(), &self.cfg, dest);
        let msg = envelope_error_message(dest, &e);
        if recipients.len() == 0 {
            fallback_stdout(msg.as_str());
            return Ok(());
        }
        let payload = make_error_payload(msg.as_str());
        let err_pkt = TelemetryPacket::new(DataType::TelemetryError, recipients.as_slice(), env.sender.as_str(), env.timestamp_ms, payload.as_slice())?;
        if depth == 0 {
            return Ok(());
        }
        self.tx_item_impl(RouterTxItem::Broadcast(RouterItem::Packet(err_pkt)), false, depth - 1)
    }

    /// Call a local handler with retries; when every attempt fails, forget
    /// the item's identifier, report the failure, and return
    /// `HandlerError("local handler failed")`.
    fn call_handler_with_retries(
        &mut self,
        dest: DataEndpoint,
        hidx: usize,
        bytes: Option<&[u8]>,
        pkt: Option<&TelemetryPacket>,
        env: Option<&serialize::TelemetryEnvelope>,
        depth: u32,
    ) -> (r: TelemetryResult<()>)
        requires
            old(self).wf(),
            hidx < old(self).handlers_view().len(),
        ensures
            same_queues(old(self), final(self)),
            r is Err ==> r == Err::<(), TelemetryError>(TelemetryError::HandlerError("local handler failed")),
            (bytes is None && pkt is None) || (old(self).handlers_view()[hidx as int].spec_takes_packets() && pkt is None) || (
            !old(self).handlers_view()[hidx as int].spec_takes_packets() && bytes is None) ==> r == Ok::<(), TelemetryError>(())
                && *final(self) == *old(self),
            handler_input(old(self).handlers_view()[hidx as int], opt_bytes(bytes), opt_packet(pkt)) matches Some(d)
                ==> final(self).deliveries().contains(Delivery::Local { handler: hidx, data: d }),
        decreases depth, 2nat,
    {
        let ctx: RouterItem = match (bytes, pkt) {
            (Some(d), _) => RouterItem::Serialized(vstd::slice::slice_to_vec(d)),
            (None, Some(p)) => RouterItem::Packet(p.clone()),
            (None, None) => {
                return Ok(());
            },
        };
        let ghost pre = *self;
        proof {
            if let Some(d) = handler_input(self.handlers_view()[hidx as int], opt_bytes(bytes), opt_packet(pkt)) {
                self.handed@ = self.handed@.push(Delivery::Local { handler: hidx, data: d });
                assert(self.deliveries()[pre.deliveries().len() as int] == Delivery::Local { handler: hidx, data: d });
            }
            assert(handed_grows(&pre, self));
        }
        let ghost mid = *self;
        match self.retry_handler(hidx, bytes, pkt) {
            Ok(()) => Ok(()),
            Err(e) => {
                self.remove_pkt_id(&ctx);
                match pkt {
                    Some(p) => {
                        let _ = self.handle_callback_error(p, Some(dest), e, depth);
                    },
                    None => match env {
                        Some(en) => {
                            let _ = self.handle_callback_error_from_env(en, Some(dest), e, depth);
                        },
                        None => {},
                    },
                }
                proof {
                    if let Some(d) = handler_input(old(self).handlers_view()[hidx as int], opt_bytes(bytes), opt_packet(pkt)) {
                        lemma_handed_keeps(&mid, self, Delivery::Local { handler: hidx, data: d });
                    }
                }
                Err(TelemetryError::HandlerError("local handler failed"))
            },
        }
    }

    /// Call the local handlers of each endpoint of `eps`, in order; with
    /// `propagate`, the first failure is returned.
    fn run_local_handlers(
        &mut self,
        eps: &Vec<DataEndpoint>,
        pkt: Option<&TelemetryPacket>,
        bytes: Option<&[u8]>,
        env: Option<&serialize::TelemetryEnvelope>,
        propagate: bool,
        depth: u32,
    ) -> (r: TelemetryResult<()>)
        requires
            old(self).wf(),
        ensures
            same_queues(old(self), final(self)),
            no_handler_for(eps@, old(self).handlers_view()) ==> r is Ok && same_routing(old(self), final(self))
                && final(self).routes == old(self).routes,
            !propagate && pkt is Some ==> r is Ok,
            r is Ok ==> forall|j: int|
                0 <= j < old(self).handlers_view().len() && eps@.contains(old(self).handlers_view()[j].spec_endpoint())
                    ==> #[trigger] locally_handed(final(self), j, opt_bytes(bytes), opt_packet(pkt)),
            !propagate && r is Err ==> pkt is None && exists|j: int|
                0 <= j < old(self).handlers_view().len() && eps@.contains(old(self).handlers_view()[j].spec_endpoint())
                    && (#[trigger] old(self).handlers_view()[j]).spec_takes_packets(),
        decreases depth, 3nat,
    {
        let mut d: usize = 0;
        assert(eps@.take(0) =~= Seq::<DataEndpoint>::empty());
        while d < eps.len()
            invariant
                same_queues(old(self), self),
                d <= eps@.len(),
                forall|j: int|
                    0 <= j < self.handlers_view().len() && eps@.take(d as int).contains(self.handlers_view()[j].spec_endpoint())
                        ==> #[trigger] locally_handed(self, j, opt_bytes(bytes), opt_packet(pkt)),
                no_handler_for(eps@, old(self).handlers_view()) ==> same_routing(old(self), self) && self.routes
                    == old(self).routes,
            decreases eps@.len() - d,
        {
            let dest = eps[d];
            let mut i: usize = 0;
            while i < self.cfg.handlers.len()
                invariant
                    same_queues(old(self), self),
                    i <= self.handlers_view().len(),
                    d < eps@.len(),
                    dest == eps@[d as int],
                    self.handlers_view() == self.cfg.handlers@,
                    no_handler_for(eps@, old(self).handlers_view()) ==> same_routing(old(self), self) && self.routes
                        == old(self).routes,
                    forall|j: int|
                        0 <= j < self.handlers_view().len() && (eps@.take(d as int).contains(
                            self.handlers_view()[j].spec_endpoint(),
                        ) || (j < i && self.handlers_view()[j].spec_endpoint() == dest))
                            ==> #[trigger] locally_handed(self, j, opt_bytes(bytes), opt_packet(pkt)),
                decreases self.handlers_view().len() - i,
            {
                let ghost before = *self;
                proof {
                    if no_handler_for(eps@, old(self).handlers_view()) {
                        assert(old(self).handlers_view()[i as int].spec_endpoint() != eps@[d as int]);
                    }
                }
                if self.cfg.handlers[i].endpoint == dest {
                    let takes_packets = match &self.cfg.handlers[i].handler {
                        EndpointHandlerFn::Packet(_) => true,
                        EndpointHandlerFn::Serialized(_) => false,
                    };
                    let res = if takes_packets {
                        match pkt {
                            Some(p) => self.call_handler_with_retries(dest, i, None, Some(p), env, depth),
                            None => match bytes {
                                Some(b) => {
                                    let owned = serialize::deserialize_packet(b)?;
                                    self.call_handler_with_retries(dest, i, None, Some(&owned), env, depth)
                                },
                                None => Ok(()),
                            },
                        }
                    } else {
                        match bytes {
                            Some(b) => self.call_handler_with_retries(dest, i, Some(b), pkt, env, depth),
                            None => match pkt {
                                Some(p) => {
                                    let owned = serialize::serialize_packet(p);
                                    self.call_handler_with_retries(dest, i, Some(owned.as_slice()), pkt, env, depth)
                                },
                                None => Ok(()),
                            },
                        }
                    };
                    proof {
                        assert forall|j: int|
                            0 <= j < self.handlers_view().len() && (eps@.take(d as int).contains(
                                self.handlers_view()[j].spec_endpoint(),
                            ) || (j < i + 1 && self.handlers_view()[j].spec_endpoint() == dest))
                                implies #[trigger] locally_handed(self, j, opt_bytes(bytes), opt_packet(pkt)) by {
                            if j != i {
                                lemma_locally_handed_keeps(&before, self, j, opt_bytes(bytes), opt_packet(pkt));
                            }
                        }
                    }
                    if propagate {
                        match res {
                            Ok(()) => {},
                            Err(e) => {
                                return Err(e);
                            },
                        }
                    }
                }
                i = i + 1;
            }
            proof {
                assert(eps@.take(d + 1) =~= eps@.take(d as int).push(dest));
                assert forall|j: int|
                    0 <= j < self.handlers_view().len() && eps@.take(d + 1).contains(self.handlers_view()[j].spec_endpoint())
                        implies #[trigger] locally_handed(self, j, opt_bytes(bytes), opt_packet(pkt)) by {
                    let ep = self.handlers_view()[j].spec_endpoint();
                    if !eps@.take(d as int).contains(ep) {
                        let k = choose|k: int| 0 <= k < eps@.take(d + 1).len() && #[trigger] eps@.take(d + 1)[k] == ep;
                        if k < d {
                            assert(eps@.take(d as int)[k] == ep);
                        }
                        assert(ep == dest);
                    }
                }
            }
            d = d + 1;
        }
        assert(eps@.take(d as int) =~= eps@);
        Ok(())
    }

    fn any_handler(&self, eps: &[DataEndpoint], packets: bool) -> (r: bool)
        ensures
            r == exists|i: int, j: int|
                0 <= i < eps@.len() && 0 <= j < self.handlers_view().len() && #[trigger] self.handlers_view()[j].spec_endpoint()
                    == #[trigger] eps@[i] && self.handlers_view()[j].spec_takes_packets() == packets,
    {
        let mut i: usize = 0;
        while i < eps.len()
            invariant
                i <= eps@.len(),
                forall|a: int, j: int|
                    0 <= a < i && 0 <= j < self.handlers_view().len() ==> !(#[trigger] self.handlers_view()[j].spec_endpoint()
                        == #[trigger] eps@[a] && self.handlers_view()[j].spec_takes_packets() == packets),
            decreases eps@.len() - i,
        {
            if self.cfg.has_handler_kind(eps[i], packets) {
                return true;
            }
            i = i + 1;
        }
        false
    }

    /// Call the local handlers of an item's endpoints (internal control
    /// messages excepted); the first handler failure is returned.
    fn dispatch_local_for_item(&mut self, item: &RouterItem, depth: u32) -> (r: TelemetryResult<()>)
        requires
            old(self).wf(),
        ensures
            same_queues(old(self), final(self)),
            match item@ {
                ItemModel::Packet(p) => (spec_internal_control(p.ty) || no_handler_for(p.endpoints, old(self).handlers_view()))
                    ==> r is Ok && same_routing(old(self), final(self)) && final(self).routes == old(self).routes,
                ItemModel::Serialized(b) => match serialize::spec_peek(b) {
                    Err(e) => r == Err::<(), TelemetryError>(e) && same_routing(old(self), final(self)),
                    Ok(env) => (spec_internal_control(env.ty) || no_handler_for(env.endpoints, old(self).handlers_view()))
                        ==> r is Ok && same_routing(old(self), final(self)) && final(self).routes == old(self).routes,
                },
            },
            r is Ok ==> local_handoffs_made(old(self), final(self), item@),
        decreases depth, 4nat,
    {
        match item {
            RouterItem::Packet(pkt) => {
                if is_internal_control_type(pkt.data_type()) {
                    return Ok(());
                }
                let eps = canonical_endpoints(pkt.endpoints());
                proof {
                    lemma_no_handler_canonical(pkt@.endpoints, self.handlers_view());
                }
                let bytes: Option<Vec<u8>> = if self.any_handler(eps.as_slice(), false) {
                    Some(serialize::serialize_packet(pkt))
                } else {
                    None
                };
                let r = match &bytes {
                    Some(b) => self.run_local_handlers(&eps, Some(pkt), Some(b.as_slice()), None, true, depth),
                    None => self.run_local_handlers(&eps, Some(pkt), None, None, true, depth),
                };
                proof {
                    if r is Ok {
                        assert forall|j: int|
                            0 <= j < old(self).handlers_view().len() && spec_canonical_endpoints(pkt@.endpoints).contains(
                                old(self).handlers_view()[j].spec_endpoint(),
                            ) implies #[trigger] locally_handed(self, j, None, Some(pkt@)) by {
                            match &bytes {
                                Some(b) => {
                                    assert(locally_handed(self, j, Some(b@), Some(pkt@)));
                                },
                                None => {
                                    assert(locally_handed(self, j, None, Some(pkt@)));
                                },
                            }
                        }
                    }
                }
                r
            },
            RouterItem::Serialized(bytes) => {
                let env = match serialize::peek_envelope(bytes.as_slice()) {
                    Ok(v) => v,
                    Err(e) => {
                        return Err(e);
                    },
                };
                if is_internal_control_type(env.ty) {
                    return Ok(());
                }
                proof {
                    lemma_no_handler_canonical(env.endpoints@, self.handlers_view());
                }
                let pkt_opt: Option<TelemetryPacket> = if self.any_handler(env.endpoints.as_slice(), true) {
                    Some(serialize::deserialize_packet(bytes.as_slice())?)
                } else {
                    None
                };
                let eps = canonical_endpoints(env.endpoints.as_slice());
                let r = match &pkt_opt {
                    Some(p) => self.run_local_handlers(&eps, Some(p), Some(bytes.as_slice()), Some(&env), true, depth),
                    None => self.run_local_handlers(&eps, None, Some(bytes.as_slice()), Some(&env), true, depth),
                };
                proof {
                    if r is Ok {
                        assert forall|j: int|
                            0 <= j < old(self).handlers_view().len() && spec_canonical_endpoints(env.endpoints@).contains(
                                old(self).handlers_view()[j].spec_endpoint(),
                            ) implies #[trigger] locally_handed(self, j, Some(bytes@), None) by {
                            match &pkt_opt {
                                Some(p) => {
                                    assert(locally_handed(self, j, Some(bytes@), Some(p@)));
                                },
                                None => {
                                    assert(locally_handed(self, j, Some(bytes@), None));
                                },
                            }
                        }
                    }
                }
                r
            },
        }
    }

    fn report_tx_failure(&mut self, data: &RouterItem, e: TelemetryError, depth: u32)
        requires
            old(self).wf(),
        ensures
            same_queues(old(self), final(self)),
            match data@ {
                ItemModel::Packet(p) => spec_error_recipients(p.endpoints, handler_endpoints(old(self).handlers_view()), None).len()
                    == 0,
                ItemModel::Serialized(b) => match serialize::spec_peek(b) {
                    Err(_) => true,
                    Ok(env) => spec_error_recipients(env.endpoints, handler_endpoints(old(self).handlers_view()), None).len()
                        == 0,
                },
            } ==> *final(self) == *old(self),
        decreases depth, 2nat,
    {
        match data {
            RouterItem::Packet(pkt) => {
                let _ = self.handle_callback_error(pkt, None, e, depth);
            },
            RouterItem::Serialized(bytes) => match serialize::peek_envelope(bytes.as_slice()) {
                Ok(env) => {
                    let _ = self.handle_callback_error_from_env(&env, None, e, depth);
                },
                Err(_) => {},
            },
        }
    }

    /// Transmit an item: its identifier is remembered (so that an echo from
    /// a side is recognized), local handlers run first (unless
    /// `ignore_local`, and never for internal control messages), then the
    /// sides that need it get it. A failing side is reported and gives
    /// `HandlerError("tx handler failed")`.
    #[verifier::rlimit(100)]
    #[verifier::spinoff_prover]
    fn tx_item_impl(&mut self, item: RouterTxItem, ignore_local: bool, depth: u32) -> (r: TelemetryResult<()>)
        requires
            old(self).wf(),
        ensures
            same_queues(old(self), final(self)),
            match item {
                RouterTxItem::Broadcast(data) => match data@ {
                    ItemModel::Packet(p) => old(self).num_sides() == 0 && old(self).routes@.len() == 0 && no_handler_for(
                        p.endpoints,
                        old(self).handlers_view(),
                    ) ==> r is Ok,
                    ItemModel::Serialized(b) => match serialize::spec_peek(b) {
                        Ok(env) => old(self).num_sides() == 0 && old(self).routes@.len() == 0 && no_handler_for(
                            env.endpoints,
                            old(self).handlers_view(),
                        ) && !spec_timesync_type(env.ty) ==> r is Ok,
                        Err(_) => true,
                    },
                },
                RouterTxItem::ToSide { dst, data } => true,
            },
            match item {
                RouterTxItem::Broadcast(data) => header_error(data@) matches Some(e) ==> r == Err::<(), TelemetryError>(e),
                RouterTxItem::ToSide { dst, data } => !ignore_local ==> (header_error(data@) matches Some(e) ==> r == Err::<
                    (),
                    TelemetryError,
                >(e)),
            },
            match item {
                RouterTxItem::Broadcast(data) => r is Ok ==> routed_as_planned(final(self), data@),
                RouterTxItem::ToSide { dst, data } => true,
            },
            match item {
                RouterTxItem::Broadcast(data) => r is Ok && flood_planned(final(self), data@) ==> forall|s: int|
                    0 <= s < final(self).num_sides() ==> #[trigger] side_delivered(final(self), s, data@),
                RouterTxItem::ToSide { dst, data } => r is Ok ==> dst < final(self).num_sides() && side_delivered(
                    final(self),
                    dst as int,
                    data@,
                ),
            },
            match item {
                RouterTxItem::Broadcast(data) => !ignore_local && !carries_discovery(data@) && r is Ok ==> local_handoffs_made(
                    old(self),
                    final(self),
                    data@,
                ),
                RouterTxItem::ToSide { dst, data } => !ignore_local && r is Ok ==> local_handoffs_made(
                    old(self),
                    final(self),
                    data@,
                ),
            },
        decreases depth, 5nat,
    {
        match item {
            RouterTxItem::Broadcast(data) => {
                let is_discovery = Self::item_is_discovery(&data);
                if !ignore_local {
                    let _seen = self.is_duplicate_pkt(&data)?;
                    if !is_discovery && !Self::item_is_internal(&data) {
                        self.dispatch_local_for_item(&data, depth)?;
                    }
                }
                match &data {
                    RouterItem::Serialized(bytes) => {
                        serialize::peek_envelope(bytes.as_slice())?;
                    },
                    RouterItem::Packet(_) => {},
                }
                if !self.should_route_remote(&data, None)? {
                    proof {
                        if let Some(h) = item_header(data@) {
                            if !discovery_type(h.1) {
                                let pref = spec_preferred(self, data@, h.1)->Ok_0;
                                let now = choose|now_ms: u64|
                                    plan_reaches_none(
                                        self,
                                        #[trigger] spec_routed_plan(
                                            self,
                                            h.0,
                                            pref,
                                            None,
                                            spec_all_link_local(h.0),
                                            falls_back_to_flood(self, h.0, h.1),
                                            now_ms,
                                        ),
                                        None,
                                    );
                                assert(delivered_per_plan(
                                    self,
                                    data@,
                                    spec_routed_plan(
                                        self,
                                        h.0,
                                        pref,
                                        None,
                                        spec_all_link_local(h.0),
                                        falls_back_to_flood(self, h.0, h.1),
                                        now,
                                    ),
                                ));
                            }
                        }
                        assert(routed_as_planned(self, data@));
                    }
                    return Ok(());
                }
                let plan = self.remote_side_plan(&data, None)?;
                let ghost pv = plan_view(plan);
                let targets: Vec<RouterSideId> = match plan {
                    RemoteSidePlan::Flood => {
                        let mut all: Vec<RouterSideId> = Vec::new();
                        let mut s: usize = 0;
                        while s < self.sides.len()
                            invariant
                                s <= self.sides@.len(),
                                all@ == Seq::new(s as nat, |i: int| i as usize),
                            decreases self.sides@.len() - s,
                        {
                            all.push(s);
                            s = s + 1;
                            assert(all@ =~= Seq::new(s as nat, |i: int| i as usize));
                        }
                        all
                    },
                    RemoteSidePlan::Target(t) => {
                        proof {
                            assert(!flood_planned(self, data@));
                        }
                        t
                    },
                };
                let ghost planned = *self;
                let mut k: usize = 0;
                while k < targets.len()
                    invariant
                        same_queues(old(self), self),
                        k <= targets@.len(),
                        header_error(data@) is None,
                        item == RouterTxItem::Broadcast(data),
                        !ignore_local && !carries_discovery(data@) ==> local_handoffs_made(old(self), self, data@),
                        self.routes == planned.routes,
                        self.sides == planned.sides,
                        self.cfg == planned.cfg,
                        *self == (Router { handed: self.handed, ..planned }),
                        pv is None ==> targets@ == Seq::new(self.sides@.len(), |i: int| i as usize),
                        pv matches Some(t) ==> targets@ == t,
                        match item_header(data@) {
                            Some(h) => !discovery_type(h.1) ==> (spec_preferred(&planned, data@, h.1) matches Ok(pref)
                                && exists|now_ms: u64|
                                pv == #[trigger] spec_routed_plan(
                                    &planned,
                                    h.0,
                                    pref,
                                    None,
                                    spec_all_link_local(h.0),
                                    falls_back_to_flood(&planned, h.0, h.1),
                                    now_ms,
                                )),
                            None => true,
                        },
                        flood_planned(&planned, data@) ==> targets@ == Seq::new(self.sides@.len(), |i: int| i as usize),
                        forall|kk: int| 0 <= kk < k ==> #[trigger] side_delivered(self, targets@[kk] as int, data@),
                        match data@ {
                            ItemModel::Packet(p) => !(old(self).num_sides() == 0 && old(self).routes@.len() == 0 && no_handler_for(
                                p.endpoints,
                                old(self).handlers_view(),
                            )),
                            ItemModel::Serialized(b) => match serialize::spec_peek(b) {
                                Ok(env) => !(old(self).num_sides() == 0 && old(self).routes@.len() == 0 && no_handler_for(
                                    env.endpoints,
                                    old(self).handlers_view(),
                                ) && !spec_timesync_type(env.ty)),
                                Err(_) => true,
                            },
                        },
                    decreases targets@.len() - k,
                {
                    let ghost pre = *self;
                    match self.send_to_side(targets[k], &data) {
                        Ok(()) => {},
                        Err(e) => {
                            self.report_tx_failure(&data, e, depth);
                            return Err(TelemetryError::HandlerError("tx handler failed"));
                        },
                    }
                    proof {
                        assert(handed_grows(&pre, self));
                        if !ignore_local && !carries_discovery(data@) {
                            lemma_handoffs_keep(old(self), &pre, self, data@);
                        }
                        assert forall|kk: int| 0 <= kk < k + 1 implies #[trigger] side_delivered(self, targets@[kk] as int, data@) by {
                            if kk < k {
                                lemma_side_delivered_keeps(&pre, self, targets@[kk] as int, data@);
                            } else {
                                let x = side_handoff(self.side_takes_packets(targets@[kk] as int), data@)->Some_0;
                                assert(self.deliveries()[pre.deliveries().len() as int] == Delivery::Side {
                                    side: targets@[kk],
                                    data: x,
                                });
                            }
                        }
                    }
                    k = k + 1;
                }
                proof {
                    if flood_planned(self, data@) {
                        assert forall|sd: int| 0 <= sd < self.num_sides() implies #[trigger] side_delivered(self, sd, data@) by {
                            assert(targets@[sd] as int == sd);
                        }
                    }
                    if let Some(h) = item_header(data@) {
                        if !discovery_type(h.1) {
                            let pref = spec_preferred(&planned, data@, h.1)->Ok_0;
                            let now = choose|now_ms: u64|
                                pv == #[trigger] spec_routed_plan(
                                    &planned,
                                    h.0,
                                    pref,
                                    None,
                                    spec_all_link_local(h.0),
                                    falls_back_to_flood(&planned, h.0, h.1),
                                    now_ms,
                                );
                            lemma_plan_same(
                                &planned,
                                self,
                                h.0,
                                pref,
                                None,
                                spec_all_link_local(h.0),
                                falls_back_to_flood(&planned, h.0, h.1),
                                now,
                            );
                            assert(falls_back_to_flood(&planned, h.0, h.1) == falls_back_to_flood(self, h.0, h.1));
                            assert(spec_preferred(self, data@, h.1) == spec_preferred(&planned, data@, h.1));
                            match pv {
                                None => {
                                    assert forall|sd: int| 0 <= sd < self.sides@.len() implies #[trigger] side_delivered(
                                        self,
                                        sd,
                                        data@,
                                    ) by {
                                        assert(targets@[sd] as int == sd);
                                    }
                                },
                                Some(t) => {
                                    assert forall|i: int| 0 <= i < t.len() implies #[trigger] side_delivered(
                                        self,
                                        t[i] as int,
                                        data@,
                                    ) by {
                                        assert(targets@[i] == t[i]);
                                    }
                                },
                            }
                            assert(delivered_per_plan(
                                self,
                                data@,
                                spec_routed_plan(
                                    self,
                                    h.0,
                                    pref,
                                    None,
                                    spec_all_link_local(h.0),
                                    falls_back_to_flood(self, h.0, h.1),
                                    now,
                                ),
                            ));
                        }
                    }
                    assert(routed_as_planned(self, data@));
                }
                Ok(())
            },
            RouterTxItem::ToSide { dst, data } => {
                if !ignore_local {
                    let _seen = self.is_duplicate_pkt(&data)?;
                    if !Self::item_is_internal(&data) {
                        self.dispatch_local_for_item(&data, depth)?;
                    }
                }
                let ghost pre = *self;
                match self.send_to_side(dst, &data) {
                    Ok(()) => {
                        proof {
                            if !ignore_local {
                                lemma_handoffs_keep(old(self), &pre, self, data@);
                            }
                            let x = side_handoff(self.side_takes_packets(dst as int), data@)->Some_0;
                            assert(self.deliveries()[pre.deliveries().len() as int] == Delivery::Side { side: dst, data: x });
                        }
                        Ok(())
                    },
                    Err(e) => {
                        self.report_tx_failure(&data, e, depth);
                        Err(TelemetryError::HandlerError("tx handler failed"))
                    },
                }
            },
        }
    }
}

// ---------------------------------------------------------------------------
// Discovery, relaying and receiving
// ---------------------------------------------------------------------------

/// How many reports about failed reports are sent in turn. A report that
/// fails again is reported again (a failing side handler would otherwise
/// be reported to forever); past this depth the report is built but not
/// sent, as the handlers' contracts state.
pub const ERROR_REPORT_DEPTH: u32 = 8;


impl Router {
    fn local_discovery_endpoints(&self) -> (r: Vec<DataEndpoint>)
        ensures
            !r@.contains(DataEndpoint::Discovery),
            r@ == spec_canonical_endpoints(r@),
            forall|x: DataEndpoint| #[trigger] r@.contains(x) <==> ((handler_endpoints(self.handlers_view()).contains(x) && x
                != DataEndpoint::Discovery) || (x == DataEndpoint::TimeSync && self.cfg.timesync is Some)),
    {
        let ghost h = handler_endpoints(self.handlers_view());
        let mut eps: Vec<DataEndpoint> = Vec::new();
        let mut i: usize = 0;
        while i < self.cfg.handlers.len()
            invariant
                i <= self.cfg.handlers@.len(),
                h == handler_endpoints(self.handlers_view()),
                self.handlers_view() == self.cfg.handlers@,
                !eps@.contains(DataEndpoint::Discovery),
                forall|x: DataEndpoint| #[trigger] eps@.contains(x) <==> (h.take(i as int).contains(x) && x != DataEndpoint::Discovery),
            decreases self.cfg.handlers@.len() - i,
        {
            let ep = self.cfg.handlers[i].endpoint;
            let ghost before = eps@;
            proof {
                assert(h.take(i + 1) =~= h.take(i as int).push(ep));
                assert forall|x: DataEndpoint| #[trigger] h.take(i + 1).contains(x) <==> (h.take(i as int).contains(x) || x == ep) by {
                    if h.take(i + 1).contains(x) {
                        let j = choose|j: int| 0 <= j < h.take(i + 1).len() && #[trigger] h.take(i + 1)[j] == x;
                        if j < i {
                            assert(h.take(i as int)[j] == x);
                        }
                    }
                    if h.take(i as int).contains(x) {
                        let j = choose|j: int| 0 <= j < h.take(i as int).len() && #[trigger] h.take(i as int)[j] == x;
                        assert(h.take(i + 1)[j] == x);
                    }
                    if x == ep {
                        assert(h.take(i + 1)[i as int] == x);
                    }
                }
            }
            if !discovery::is_discovery_endpoint(ep) {
                eps.push(ep);
                proof {
                    assert forall|x: DataEndpoint| #[trigger] eps@.contains(x) <==> (before.contains(x) || x == ep) by {
                        if eps@.contains(x) {
                            let j = choose|j: int| 0 <= j < eps@.len() && #[trigger] eps@[j] == x;
                            if j < before.len() {
                                assert(before[j] == x);
                            }
                        }
                        if before.contains(x) {
                            let j = choose|j: int| 0 <= j < before.len() && #[trigger] before[j] == x;
                            assert(eps@[j] == x);
                        }
                        if x == ep {
                            assert(eps@[before.len() as int] == x);
                        }
                    }
                }
            }
            i = i + 1;
        }
        assert(h.take(i as int) =~= h);
        let ghost before_ts = eps@;
        if self.cfg.timesync.is_some() {
            eps.push(DataEndpoint::TimeSync);
            proof {
                assert forall|x: DataEndpoint| #[trigger] eps@.contains(x) <==> (before_ts.contains(x) || x == DataEndpoint::TimeSync) by {
                    if eps@.contains(x) {
                        let j = choose|j: int| 0 <= j < eps@.len() && #[trigger] eps@[j] == x;
                        if j < before_ts.len() {
                            assert(before_ts[j] == x);
                        }
                    }
                    if before_ts.contains(x) {
                        let j = choose|j: int| 0 <= j < before_ts.len() && #[trigger] before_ts[j] == x;
                        assert(eps@[j] == x);
                    }
                    if x == DataEndpoint::TimeSync {
                        assert(eps@[before_ts.len() as int] == x);
                    }
                }
            }
        }
        let r = canonical_endpoints(eps.as_slice());
        proof {
            crate::config::lemma_canonical_idempotent(eps@);
            assert forall|x: DataEndpoint| #[trigger] r@.contains(x) <==> eps@.contains(x) by {
                crate::config::lemma_canonical_contains(eps@, x);
            }
        }
        r
    }

    fn local_discovery_timesync_sources(&mut self, now_ms: u64) -> (r: Vec<String>)
        requires
            old(self).wf(),
        ensures
            same_routing(old(self), final(self)),
            final(self).routes == old(self).routes,
            r@.len() <= 1,
            r@.len() == 1 ==> r@[0]@ == DEVICE_IDENTIFIER@,
            match old(self).ts.tracker {
                None => r@.len() == 0,
                Some(t) => (r@.len() == 1 ==> exists|u: bool| timesync::spec_announce_priority(t@, now_ms, u) is Some)
                    && ((forall|u: bool| timesync::spec_announce_priority(t@, now_ms, u) is Some) ==> r@.len() == 1),
            },
    {
        let now_ns = self.clock.now_ns();
        let usable = self.ts.has_usable_time(now_ns);
        let serve = match &self.ts.tracker {
            Some(t) => t.should_serve(now_ms, usable),
            None => false,
        };
        let mut out: Vec<String> = Vec::new();
        if serve {
            out.push(self.sender.to_owned());
        }
        out
    }

    fn prune_discovery_routes(&mut self, now_ms: u64) -> (r: bool)
        requires
            old(self).wf(),
        ensures
            same_routing(old(self), final(self)),
            final(self).routes@ == old(self).routes@.filter(|x: RouteEntry| route_fresh(x, now_ms)),
            r == (final(self).routes@.len() != old(self).routes@.len()),
            final(self).cadence == old(self).cadence,
    {
        let ghost orig = self.routes@;
        let ghost pred = |x: RouteEntry| route_fresh(x, now_ms);
        let before = self.routes.len();
        let mut kept: Vec<RouteEntry> = Vec::new();
        let mut old_routes: Vec<RouteEntry> = Vec::new();
        std::mem::swap(&mut old_routes, &mut self.routes);
        let mut k: usize = 0;
        assert(orig.take(0).filter(pred) =~= Seq::<RouteEntry>::empty());
        assert(orig.skip(0) =~= orig);
        while old_routes.len() > 0
            invariant
                k <= orig.len(),
                k + old_routes@.len() == orig.len(),
                orig.len() == before,
                old_routes@ == orig.skip(k as int),
                kept@ == orig.take(k as int).filter(pred),
                pred == (|x: RouteEntry| route_fresh(x, now_ms)),
            decreases old_routes@.len(),
        {
            let x = old_routes.remove(0);
            proof {
                assert(x == orig[k as int]);
                assert(orig.take(k + 1) =~= orig.take(k as int).push(x));
                orig.take(k as int).lemma_filter_push(x, pred);
                assert(old_routes@ =~= orig.skip(k + 1));
            }
            if now_ms.saturating_sub(x.state.last_seen_ms) <= DISCOVERY_ROUTE_TTL_MS {
                kept.push(x);
            }
            k = k + 1;
        }
        assert(orig.take(k as int) =~= orig);
        let after = kept.len();
        self.routes = kept;
        before != after
    }

    fn note_topology_change(&mut self, now_ms: u64)
        requires
            old(self).wf(),
        ensures
            same_routing(old(self), final(self)),
            final(self).cadence == (DiscoveryCadenceState {
                current_interval_ms: discovery::DISCOVERY_FAST_INTERVAL_MS,
                next_announce_ms: now_ms,
            }),
            final(self).routes == old(self).routes,
    {
        self.cadence.on_topology_change(now_ms);
    }

    fn advertised_endpoints(&self, now_ms: u64, link_local_enabled: bool) -> (r: Vec<DataEndpoint>)
        ensures
            r@ == spec_canonical_endpoints(r@),
            !r@.contains(DataEndpoint::Discovery),
            !link_local_enabled ==> forall|i: int| 0 <= i < r@.len() ==> !(#[trigger] r@[i]).spec_link_local_only(),
    {
        let local = self.local_discovery_endpoints();
        let mut eps: Vec<DataEndpoint> = Vec::new();
        let mut i: usize = 0;
        while i < local.len()
            invariant
                i <= local@.len(),
                !local@.contains(DataEndpoint::Discovery),
                !eps@.contains(DataEndpoint::Discovery),
                !link_local_enabled ==> forall|j: int| 0 <= j < eps@.len() ==> !(#[trigger] eps@[j]).spec_link_local_only(),
            decreases local@.len() - i,
        {
            if link_local_enabled || !local[i].is_link_local_only() {
                let ghost before = eps@;
                let ep = local[i];
                assert(local@.contains(ep) ==> ep != DataEndpoint::Discovery);
                assert(local@[i as int] == ep);
                eps.push(ep);
                proof {
                    assert forall|x: DataEndpoint| eps@.contains(x) implies before.contains(x) || x == ep by {
                        let j = choose|j: int| 0 <= j < eps@.len() && eps@[j] == x;
                        if j < before.len() {
                            assert(before[j] == x);
                        }
                    }
                }
            }
            i = i + 1;
        }
        let mut r: usize = 0;
        while r < self.routes.len()
            invariant
                r <= self.routes@.len(),
                !eps@.contains(DataEndpoint::Discovery),
                !link_local_enabled ==> forall|j: int| 0 <= j < eps@.len() ==> !(#[trigger] eps@[j]).spec_link_local_only(),
            decreases self.routes@.len() - r,
        {
            let route = &self.routes[r];
            if now_ms.saturating_sub(route.state.last_seen_ms) <= DISCOVERY_ROUTE_TTL_MS {
                let mut k: usize = 0;
                while k < route.state.reachable.len()
                    invariant
                        k <= route.state.reachable@.len(),
                        !eps@.contains(DataEndpoint::Discovery),
                        !link_local_enabled ==> forall|j: int| 0 <= j < eps@.len() ==> !(#[trigger] eps@[j]).spec_link_local_only(),
                    decreases route.state.reachable@.len() - k,
                {
                    let ep = route.state.reachable[k];
                    if !discovery::is_discovery_endpoint(ep) && (link_local_enabled || !ep.is_link_local_only()) {
                        let ghost before = eps@;
                        eps.push(ep);
                        proof {
                            assert forall|x: DataEndpoint| eps@.contains(x) implies before.contains(x) || x == ep by {
                                let j = choose|j: int| 0 <= j < eps@.len() && eps@[j] == x;
                                if j < before.len() {
                                    assert(before[j] == x);
                                }
                            }
                        }
                    }
                    k = k + 1;
                }
            }
            r = r + 1;
        }
        let out = canonical_endpoints(eps.as_slice());
        proof {
            crate::config::lemma_canonical_idempotent(eps@);
            crate::config::lemma_canonical_contains(eps@, DataEndpoint::Discovery);
            if !link_local_enabled {
                assert forall|i: int| 0 <= i < out@.len() implies !(#[trigger] out@[i]).spec_link_local_only() by {
                    crate::config::lemma_canonical_contains(eps@, out@[i]);
                    assert(out@.contains(out@[i]));
                    let j = choose|j: int| 0 <= j < eps@.len() && eps@[j] == out@[i];
                }
            }
        }
        out
    }

    fn advertised_sources(&mut self, now_ms: u64) -> (r: Vec<String>)
        requires
            old(self).wf(),
        ensures
            same_routing(old(self), final(self)),
            discovery::strictly_sorted(r@.map_values(|s: String| s@)),
            forall|y: Seq<char>|
                fresh_route_source(old(self).routes@, now_ms, old(self).routes@.len() as int, y)
                    ==> #[trigger] discovery::string_views(r@).contains(y),
            forall|y: Seq<char>|
                #[trigger] discovery::string_views(r@).contains(y) ==> fresh_route_source(
                    old(self).routes@,
                    now_ms,
                    old(self).routes@.len() as int,
                    y,
                ) || (y == DEVICE_IDENTIFIER@ && match old(self).ts.tracker {
                    None => false,
                    Some(t) => exists|u: bool| timesync::spec_announce_priority(t@, now_ms, u) is Some,
                }),
            match old(self).ts.tracker {
                None => true,
                Some(t) => (forall|u: bool| timesync::spec_announce_priority(t@, now_ms, u) is Some)
                    ==> discovery::string_views(r@).contains(DEVICE_IDENTIFIER@),
            },
    {
        let local = self.local_discovery_timesync_sources(now_ms);
        let mut out: Vec<String> = Vec::new();
        assert(out@.map_values(|s: String| s@) =~= Seq::<Seq<char>>::empty());
        let mut i: usize = 0;
        while i < local.len()
            invariant
                i <= local@.len(),
                local@.len() <= 1,
                local@.len() == 1 ==> local@[0]@ == DEVICE_IDENTIFIER@,
                discovery::strictly_sorted(out@.map_values(|s: String| s@)),
                forall|y: Seq<char>| #[trigger] discovery::string_views(out@).contains(y) <==> (exists|j: int|
                    0 <= j < i && #[trigger] local@[j]@ == y),
            decreases local@.len() - i,
        {
            let ghost before = discovery::string_views(out@);
            discovery::insert_sorted(&mut out, local[i].as_str());
            proof {
                let x = local@[i as int]@;
                discovery::lemma_ins_sorted(before, x);
                assert(discovery::string_views(out@) == discovery::ins_sorted(before, x));
                assert forall|y: Seq<char>| #[trigger] discovery::string_views(out@).contains(y) <==> (exists|j: int|
                    0 <= j < i + 1 && #[trigger] local@[j]@ == y) by {
                    if y == x {
                        assert(local@[i as int]@ == y);
                    }
                    if exists|j: int| 0 <= j < i + 1 && #[trigger] local@[j]@ == y {
                        let j = choose|j: int| 0 <= j < i + 1 && #[trigger] local@[j]@ == y;
                        if j < i {
                            assert(before.contains(y));
                        }
                    }
                }
            }
            i = i + 1;
        }
        let ghost lv = discovery::string_views(out@);
        proof {
            if local@.len() == 1 {
                assert(local@[0]@ == DEVICE_IDENTIFIER@);
                assert(lv.contains(DEVICE_IDENTIFIER@));
            }
            assert forall|y: Seq<char>| #[trigger] lv.contains(y) implies y == DEVICE_IDENTIFIER@ && local@.len() == 1 by {
                let j = choose|j: int| 0 <= j < i && #[trigger] local@[j]@ == y;
            }
        }
        let mut r: usize = 0;
        while r < self.routes.len()
            invariant
                r <= self.routes@.len(),
                discovery::strictly_sorted(out@.map_values(|s: String| s@)),
                forall|y: Seq<char>| #[trigger] discovery::string_views(out@).contains(y) <==> (lv.contains(y)
                    || fresh_route_source(self.routes@, now_ms, r as int, y)),
            decreases self.routes@.len() - r,
        {
            if now_ms.saturating_sub(self.routes[r].state.last_seen_ms) <= DISCOVERY_ROUTE_TTL_MS {
                let mut k: usize = 0;
                while k < self.routes[r].state.reachable_timesync_sources.len()
                    invariant
                        r < self.routes@.len(),
                        route_fresh(self.routes@[r as int], now_ms),
                        k <= self.routes@[r as int].state.reachable_timesync_sources@.len(),
                        discovery::strictly_sorted(out@.map_values(|s: String| s@)),
                        forall|y: Seq<char>| #[trigger] discovery::string_views(out@).contains(y) <==> (lv.contains(y)
                            || fresh_route_source(self.routes@, now_ms, r as int, y) || exists|k2: int|
                            0 <= k2 < k && #[trigger] self.routes@[r as int].state.reachable_timesync_sources@[k2]@ == y),
                    decreases self.routes@[r as int].state.reachable_timesync_sources@.len() - k,
                {
                    let ghost before = discovery::string_views(out@);
                    discovery::insert_sorted(&mut out, self.routes[r].state.reachable_timesync_sources[k].as_str());
                    proof {
                        let x = self.routes@[r as int].state.reachable_timesync_sources@[k as int]@;
                        discovery::lemma_ins_sorted(before, x);
                        assert(discovery::string_views(out@) == discovery::ins_sorted(before, x));
                        assert forall|y: Seq<char>| #[trigger] discovery::string_views(out@).contains(y) <==> (lv.contains(y)
                            || fresh_route_source(self.routes@, now_ms, r as int, y) || exists|k2: int|
                            0 <= k2 < k + 1 && #[trigger] self.routes@[r as int].state.reachable_timesync_sources@[k2]@ == y) by {
                            if y == x {
                                assert(self.routes@[r as int].state.reachable_timesync_sources@[k as int]@ == y);
                            }
                            if exists|k2: int| 0 <= k2 < k + 1 && #[trigger] self.routes@[r as int].state.reachable_timesync_sources@[k2]@ == y {
                                let k2 = choose|k2: int| 0 <= k2 < k + 1 && #[trigger] self.routes@[r as int].state.reachable_timesync_sources@[k2]@ == y;
                                if k2 < k {
                                    assert(before.contains(y));
                                }
                            }
                        }
                    }
                    k = k + 1;
                }
                proof {
                    assert forall|y: Seq<char>| #[trigger] discovery::string_views(out@).contains(y) <==> (lv.contains(y)
                        || fresh_route_source(self.routes@, now_ms, r + 1, y)) by {
                        if fresh_route_source(self.routes@, now_ms, r + 1, y) {
                            let (i2, k2) = choose|i2: int, k2: int| 0 <= i2 < r + 1 && route_fresh(self.routes@[i2], now_ms)
                                && 0 <= k2 < self.routes@[i2].state.reachable_timesync_sources@.len()
                                && #[trigger] self.routes@[i2].state.reachable_timesync_sources@[k2]@ == y;
                            if i2 == r {
                                assert(self.routes@[r as int].state.reachable_timesync_sources@[k2]@ == y);
                            } else {
                                assert(fresh_route_source(self.routes@, now_ms, r as int, y));
                            }
                        }
                        if exists|k2: int| 0 <= k2 < k && #[trigger] self.routes@[r as int].state.reachable_timesync_sources@[k2]@ == y {
                            let k2 = choose|k2: int| 0 <= k2 < k && #[trigger] self.routes@[r as int].state.reachable_timesync_sources@[k2]@ == y;
                            assert(fresh_route_source(self.routes@, now_ms, r + 1, y));
                        }
                        if fresh_route_source(self.routes@, now_ms, r as int, y) {
                            let (i2, k2) = choose|i2: int, k2: int| 0 <= i2 < r && route_fresh(self.routes@[i2], now_ms)
                                && 0 <= k2 < self.routes@[i2].state.reachable_timesync_sources@.len()
                                && #[trigger] self.routes@[i2].state.reachable_timesync_sources@[k2]@ == y;
                            assert(fresh_route_source(self.routes@, now_ms, r + 1, y));
                        }
                    }
                }
            } else {
                proof {
                    assert forall|y: Seq<char>| #[trigger] discovery::string_views(out@).contains(y) <==> (lv.contains(y)
                        || fresh_route_source(self.routes@, now_ms, r + 1, y)) by {
                        if fresh_route_source(self.routes@, now_ms, r + 1, y) {
                            let (i2, k2) = choose|i2: int, k2: int| 0 <= i2 < r + 1 && route_fresh(self.routes@[i2], now_ms)
                                && 0 <= k2 < self.routes@[i2].state.reachable_timesync_sources@.len()
                                && #[trigger] self.routes@[i2].state.reachable_timesync_sources@[k2]@ == y;
                            assert(i2 != r);
                            assert(fresh_route_source(self.routes@, now_ms, r as int, y));
                        }
                        if fresh_route_source(self.routes@, now_ms, r as int, y) {
                            let (i2, k2) = choose|i2: int, k2: int| 0 <= i2 < r && route_fresh(self.routes@[i2], now_ms)
                                && 0 <= k2 < self.routes@[i2].state.reachable_timesync_sources@.len()
                                && #[trigger] self.routes@[i2].state.reachable_timesync_sources@[k2]@ == y;
                            assert(fresh_route_source(self.routes@, now_ms, r + 1, y));
                        }
                    }
                }
            }
            r = r + 1;
        }
        out
    }

    /// Queue discovery announces (endpoints and time sources) to every side.
    fn queue_discovery_announce(&mut self) -> (r: TelemetryResult<()>)
        requires
            old(self).wf(),
        ensures
            same_rx(old(self), final(self)),
            final(self).recent_ids() == old(self).recent_ids(),
            discovery_queued(old(self), final(self)),
    {
        let now_ms = self.clock.now_ms();
        if self.prune_discovery_routes(now_ms) {
            self.note_topology_change(now_ms);
        }
        let ghost start = self.tx_queue_view();
        let ghost mut added: Seq<TxModel> = Seq::empty();
        proof {
            lemma_suffix_refl(start);
            assert(start + added =~= start);
            lemma_no_discovery_queued(old(self), self);
        }
        if self.sides.len() == 0 {
            return Ok(());
        }
        self.cadence.on_announce_sent(now_ms);
        let n = self.sides.len();
        let mut side: usize = 0;
        while side < n
            invariant
                same_rx(old(self), self),
                self.recent_ids() == old(self).recent_ids(),
                n == self.num_sides(),
                side <= n,
                start == old(self).tx_queue_view(),
                suffix_of(self.tx_queue_view(), start + added),
                forall|i: int| 0 <= i < added.len() ==> discovery_tx(#[trigger] added[i], n as nat),
            decreases n - side,
        {
            let ll = self.sides[side].opts.link_local_enabled;
            let eps = self.advertised_endpoints(now_ms, ll);
            let sources = self.advertised_sources(now_ms);
            if eps.len() > 0 {
                let pkt = discovery::build_discovery_announce(self.sender, now_ms, eps.as_slice())?;
                let ghost before = self.tx_queue_view();
                let ghost m = TxModel { to_side: Some(side), data: ItemModel::Packet(pkt@), ignore_local: true };
                self.push_tx(RouterTxItem::ToSide { dst: side, data: RouterItem::Packet(pkt) }, true)?;
                proof {
                    lemma_suffix_trans_push(self.tx_queue_view(), before, start + added, m);
                    assert((start + added).push(m) =~= start + added.push(m));
                    added = added.push(m);
                }
            }
            if sources.len() > 0 {
                let pkt = discovery::build_discovery_timesync_sources(self.sender, now_ms, sources.as_slice())?;
                let ghost before = self.tx_queue_view();
                let ghost m = TxModel { to_side: Some(side), data: ItemModel::Packet(pkt@), ignore_local: true };
                self.push_tx(RouterTxItem::ToSide { dst: side, data: RouterItem::Packet(pkt) }, true)?;
                proof {
                    lemma_suffix_trans_push(self.tx_queue_view(), before, start + added, m);
                    assert((start + added).push(m) =~= start + added.push(m));
                    added = added.push(m);
                }
            }
            side = side + 1;
        }
        Ok(())
    }

    /// Queue a discovery announce of this router's endpoints now.
    pub fn announce_discovery(&mut self) -> (r: TelemetryResult<()>)
        requires
            old(self).wf(),
        ensures
            same_rx(old(self), final(self)),
            final(self).recent_ids() == old(self).recent_ids(),
            discovery_queued(old(self), final(self)),
    {
        self.queue_discovery_announce()
    }

    /// Queue a discovery announce when one is due and there is something to
    /// advertise; returns whether one was queued.
    pub fn poll_discovery(&mut self) -> (r: TelemetryResult<bool>)
        requires
            old(self).wf(),
        ensures
            same_rx(old(self), final(self)),
            final(self).recent_ids() == old(self).recent_ids(),
            old(self).num_sides() == 0 ==> r == Ok::<bool, TelemetryError>(false) && final(self).tx_queue_view() == old(self).tx_queue_view(),
            r == Ok::<bool, TelemetryError>(false) ==> final(self).tx_queue_view() == old(self).tx_queue_view(),
            discovery_queued(old(self), final(self)),
    {
        let now_ms = self.clock.now_ms();
        if self.prune_discovery_routes(now_ms) {
            self.note_topology_change(now_ms);
        }
        let mut has_any = false;
        let mut side: usize = 0;
        while side < self.sides.len()
            invariant
                same_routing(old(self), self),
                side <= self.num_sides(),
            decreases self.num_sides() - side,
        {
            let ll = self.sides[side].opts.link_local_enabled;
            let eps = self.advertised_endpoints(now_ms, ll);
            let sources = self.advertised_sources(now_ms);
            if eps.len() > 0 || sources.len() > 0 {
                has_any = true;
            }
            side = side + 1;
        }
        if self.sides.len() == 0 || !has_any {
            proof {
                lemma_no_discovery_queued(old(self), self);
            }
            return Ok(false);
        }
        if !self.cadence.due(now_ms) {
            proof {
                lemma_no_discovery_queued(old(self), self);
            }
            return Ok(false);
        }
        self.queue_discovery_announce()?;
        Ok(true)
    }

    fn insert_route(&mut self, side: RouterSideId, state: DiscoverySideState)
        requires
            old(self).wf(),
        ensures
            same_routing(old(self), final(self)),
            final(self).cadence == old(self).cadence,
            exists|i: int| #[trigger] route_slot(old(self).routes@, side, i) && final(self).routes@ == (if i < old(self).routes@.len()
                && old(self).routes@[i].side == side {
                old(self).routes@.update(i, RouteEntry { side, state })
            } else {
                old(self).routes@.insert(i, RouteEntry { side, state })
            }),
    {
        let mut i: usize = 0;
        while i < self.routes.len() && self.routes[i].side < side
            invariant
                i <= self.routes@.len(),
                forall|j: int| 0 <= j < i ==> (#[trigger] self.routes@[j]).side < side,
            decreases self.routes@.len() - i,
        {
            i = i + 1;
        }
        assert(route_slot(self.routes@, side, i as int));
        if i < self.routes.len() && self.routes[i].side == side {
            self.routes.set(i, RouteEntry { side, state });
        } else {
            self.routes.insert(i, RouteEntry { side, state });
        }
    }

    /// Learn routes from a discovery packet received on `src`; returns
    /// whether the packet was a discovery packet.
    fn learn_discovery_packet(&mut self, pkt: &TelemetryPacket, src: Option<RouterSideId>) -> (r: TelemetryResult<bool>)
        requires
            old(self).wf(),
        ensures
            same_routing(old(self), final(self)),
            !(pkt@.ty == DataType::DiscoveryAnnounce || pkt@.ty == DataType::DiscoveryTimeSyncSources) ==> r == Ok::<bool, TelemetryError>(false),
            (pkt@.ty == DataType::DiscoveryAnnounce || pkt@.ty == DataType::DiscoveryTimeSyncSources) ==> match src {
                None => r == Ok::<bool, TelemetryError>(true) && final(self).routes == old(self).routes,
                Some(side) => if pkt@.sender == DEVICE_IDENTIFIER@ {
                    r == Ok::<bool, TelemetryError>(true) && final(self).routes == old(self).routes
                } else if pkt@.ty == DataType::DiscoveryAnnounce {
                    match discovery::spec_decode_discovery_payload(pkt@.payload) {
                        Err(e) => r == Err::<bool, TelemetryError>(e) && final(self).routes == old(self).routes,
                        Ok(eps) => r == Ok::<bool, TelemetryError>(true) && route_learned(old(self).routes@, final(self).routes@, side)
                            && exists|i: int| 0 <= i < final(self).routes@.len() && (#[trigger] final(self).routes@[i]).side == side
                                && final(self).routes@[i].state.reachable@ == eps,
                    }
                } else {
                    match discovery::spec_decode_sources_payload(pkt@.payload) {
                        Err(e) => r == Err::<bool, TelemetryError>(e) && final(self).routes == old(self).routes,
                        Ok(names) => r == Ok::<bool, TelemetryError>(true) && route_learned(old(self).routes@, final(self).routes@, side)
                            && exists|i: int| 0 <= i < final(self).routes@.len() && (#[trigger] final(self).routes@[i]).side == side
                                && final(self).routes@[i].state.reachable_timesync_sources@.map_values(|x: String| x@) == names,
                    }
                },
            },
    {
        if !discovery::is_discovery_type(pkt.data_type()) {
            return Ok(false);
        }
        let side = match src {
            Some(s) => s,
            None => {
                return Ok(true);
            },
        };
        if str_eq(pkt.sender(), self.sender) {
            return Ok(true);
        }
        let now_ms = self.clock.now_ms();
        let mut route = DiscoverySideState::empty();
        let mut i: usize = 0;
        while i < self.routes.len()
            invariant
                i <= self.routes@.len(),
            decreases self.routes@.len() - i,
        {
            if self.routes[i].side == side {
                route = self.routes[i].state.clone_state();
            }
            i = i + 1;
        }
        let changed = match pkt.data_type() {
            DataType::DiscoveryAnnounce => {
                let reachable = discovery::decode_discovery_announce(pkt)?;
                let changed = !same_endpoints(&route.reachable, &reachable);
                route.reachable = reachable;
                changed
            },
            DataType::DiscoveryTimeSyncSources => {
                let sources = discovery::decode_discovery_timesync_sources(pkt)?;
                let changed = !same_strings(&route.reachable_timesync_sources, &sources);
                route.reachable_timesync_sources = sources;
                changed
            },
            _ => false,
        };
        route.last_seen_ms = now_ms;
        let ghost before = self.routes@;
        let ghost st = route;
        self.insert_route(side, route);
        proof {
            let i = choose|i: int| #[trigger] route_slot(before, side, i) && self.routes@ == (if i < before.len()
                && before[i].side == side {
                before.update(i, RouteEntry { side, state: st })
            } else {
                before.insert(i, RouteEntry { side, state: st })
            });
            assert(self.routes@[i].side == side);
            assert(self.routes@[i].state == st);
            assert forall|j: int| 0 <= j < before.len() && (#[trigger] before[j]).side != side implies self.routes@.contains(
                before[j],
            ) by {
                if i < before.len() && before[i].side == side {
                    assert(self.routes@[j] == before[j]);
                } else if j < i {
                    assert(self.routes@[j] == before[j]);
                } else {
                    assert(self.routes@[j + 1] == before[j]);
                }
            }
        }
        if changed {
            self.note_topology_change(now_ms);
        }
        Ok(true)
    }

    /// The current discovery view: what this router advertises and the
    /// routes it has learned (stale routes are dropped first).
    pub fn export_topology(&mut self) -> (r: TopologySnapshot)
        requires
            old(self).wf(),
        ensures
            same_routing(old(self), final(self)),
            r.advertised_endpoints@ == spec_canonical_endpoints(r.advertised_endpoints@),
            !r.advertised_endpoints@.contains(DataEndpoint::Discovery),
            forall|i: int| 0 <= i < r.routes@.len() ==> #[trigger] r.routes@[i].side_id < final(self).num_sides(),
            discovery::strictly_sorted(r.advertised_timesync_sources@.map_values(|s: String| s@)),
    {
        let now_ms = self.clock.now_ms();
        if self.prune_discovery_routes(now_ms) {
            self.note_topology_change(now_ms);
        }
        let mut routes: Vec<TopologySideRoute> = Vec::new();
        let mut i: usize = 0;
        while i < self.routes.len()
            invariant
                i <= self.routes@.len(),
                forall|j: int| 0 <= j < routes@.len() ==> #[trigger] routes@[j].side_id < self.sides@.len(),
            decreases self.routes@.len() - i,
        {
            let side_id = self.routes[i].side;
            if side_id < self.sides.len() {
                let st = self.routes[i].state.clone_state();
                routes.push(TopologySideRoute {
                    side_id,
                    side_name: self.sides[side_id].name,
                    reachable_endpoints: st.reachable,
                    reachable_timesync_sources: st.reachable_timesync_sources,
                    last_seen_ms: st.last_seen_ms,
                    age_ms: now_ms.saturating_sub(st.last_seen_ms),
                });
            }
            i = i + 1;
        }
        let advertised_endpoints = self.advertised_endpoints(now_ms, true);
        let advertised_timesync_sources = self.advertised_sources(now_ms);
        TopologySnapshot {
            advertised_endpoints,
            advertised_timesync_sources,
            routes,
            current_announce_interval_ms: self.cadence.current_interval_ms,
            next_announce_ms: self.cadence.next_announce_ms,
        }
    }

    /// Queue copies of `data` to the sides that need it (see
    /// `remote_side_plan`), skipping local handlers.
    fn enqueue_to_sides(&mut self, data: &RouterItem, exclude: Option<RouterSideId>) -> (r: TelemetryResult<()>)
        requires
            old(self).wf(),
        ensures
            same_rx(old(self), final(self)),
            final(self).recent_ids() == old(self).recent_ids(),
            copies_queued(old(self), final(self), data@),
            data@ matches ItemModel::Serialized(b) ==> (serialize::spec_peek(b) matches Err(e) ==> r == Err::<(), TelemetryError>(e)
                && final(self).tx_queue_view() == old(self).tx_queue_view()),
            match item_header(data@) {
                Some(h) => item_cost(data@) + 2 <= MAX_QUEUE_SIZE && (spec_timesync_type(h.1) ==> item_packet(data@) is Ok)
                    ==> r is Ok,
                None => true,
            },
    {
        let plan = match self.remote_side_plan(data, exclude) {
            Ok(p) => p,
            Err(e) => {
                proof {
                    lemma_no_copies_queued(old(self), self, data@);
                }
                return Err(e);
            },
        };
        let ghost start = self.tx_queue_view();
        let ghost mut added: Seq<TxModel> = Seq::empty();
        proof {
            lemma_suffix_refl(start);
            assert(start + added =~= start);
        }
        let targets: Vec<RouterSideId> = match plan {
            RemoteSidePlan::Flood => {
                let mut all: Vec<RouterSideId> = Vec::new();
                let mut s: usize = 0;
                while s < self.sides.len()
                    invariant
                        s <= self.sides@.len(),
                    decreases self.sides@.len() - s,
                {
                    let excluded = match exclude {
                        Some(x) => x == s,
                        None => false,
                    };
                    if !excluded {
                        all.push(s);
                    }
                    s = s + 1;
                }
                all
            },
            RemoteSidePlan::Target(t) => t,
        };
        let mut k: usize = 0;
        while k < targets.len()
            invariant
                same_rx(old(self), self),
                self.recent_ids() == old(self).recent_ids(),
                k <= targets@.len(),
                start == old(self).tx_queue_view(),
                suffix_of(self.tx_queue_view(), start + added),
                forall|i: int| 0 <= i < added.len() ==> copy_tx(#[trigger] added[i], data@),
                data@ matches ItemModel::Serialized(b) ==> serialize::spec_peek(b) is Ok,
            decreases targets@.len() - k,
        {
            let copy = data.clone();
            let ghost before = self.tx_queue_view();
            let ghost m = TxModel { to_side: Some(targets@[k as int]), data: data@, ignore_local: true };
            let pushed = self.push_tx(RouterTxItem::ToSide { dst: targets[k], data: copy }, true);
            match pushed {
                Ok(()) => {
                    proof {
                        lemma_suffix_trans_push(self.tx_queue_view(), before, start + added, m);
                        assert((start + added).push(m) =~= start + added.push(m));
                        added = added.push(m);
                    }
                },
                Err(e) => {
                    return Err(e);
                },
            }
            k = k + 1;
        }
        Ok(())
    }

    /// Forward `data` to the sides that need it, except its ingress side:
    /// queued when processing the receive queue, sent at once otherwise.
    fn relay_send(&mut self, data: &RouterItem, src: Option<RouterSideId>, called_from_queue: bool, depth: u32) -> (r: TelemetryResult<()>)
        requires
            old(self).wf(),
        ensures
            same_rx(old(self), final(self)),
            !called_from_queue ==> final(self).tx_queue_view() == old(self).tx_queue_view(),
            called_from_queue ==> final(self).recent_ids() == old(self).recent_ids() && copies_queued(old(self), final(self), data@),
            called_from_queue ==> match item_header(data@) {
                Some(h) => item_cost(data@) + 2 <= MAX_QUEUE_SIZE && (spec_timesync_type(h.1) ==> item_packet(data@) is Ok)
                    ==> r is Ok,
                None => true,
            },
            header_error(data@) matches Some(e) ==> r == Err::<(), TelemetryError>(e) && final(self).tx_queue_view()
                == old(self).tx_queue_view(),
        decreases depth, 6nat,
    {
        if called_from_queue {
            return self.enqueue_to_sides(data, src);
        }
        let targets: Vec<RouterSideId> = match self.remote_side_plan(data, src)? {
            RemoteSidePlan::Flood => {
                let mut all: Vec<RouterSideId> = Vec::new();
                let mut s: usize = 0;
                while s < self.sides.len()
                    invariant
                        s <= self.sides@.len(),
                    decreases self.sides@.len() - s,
                {
                    let excluded = match src {
                        Some(x) => x == s,
                        None => false,
                    };
                    if !excluded {
                        all.push(s);
                    }
                    s = s + 1;
                }
                all
            },
            RemoteSidePlan::Target(t) => t,
        };
        let mut k: usize = 0;
        while k < targets.len()
            invariant
                same_queues(old(self), self),
                k <= targets@.len(),
                !called_from_queue,
                header_error(data@) is None,
            decreases targets@.len() - k,
        {
            let copy = data.clone();
            self.tx_item_impl(RouterTxItem::ToSide { dst: targets[k], data: copy }, true, depth)?;
            k = k + 1;
        }
        Ok(())
    }

    /// Handle a time sync packet (announce, request or response), then relay
    /// it in relay mode.
    fn handle_internal_timesync_packet(&mut self, pkt: &TelemetryPacket, src: Option<RouterSideId>, called_from_queue: bool, depth: u32) -> (r: TelemetryResult<bool>)
        requires
            old(self).wf(),
        ensures
            same_rx(old(self), final(self)),
            old(self).spec_mode() != RouterMode::Relay ==> timesync_queued(old(self), final(self)),
            old(self).spec_mode() != RouterMode::Relay && old(self).cfg.timesync is None ==> r == Ok::<bool, TelemetryError>(true)
                && *final(self) == *old(self),
            old(self).spec_mode() != RouterMode::Relay && old(self).cfg.timesync is Some && (old(self).ts.tracker is None || !(
            pkt@.ty == DataType::TimeSyncAnnounce || pkt@.ty == DataType::TimeSyncRequest || pkt@.ty
                == DataType::TimeSyncResponse)) ==> r == Ok::<bool, TelemetryError>(true) && same_routing(old(self), final(self)),
            old(self).spec_mode() != RouterMode::Relay && old(self).cfg.timesync is Some && old(self).ts.tracker is Some
                && pkt@.ty == DataType::TimeSyncResponse ==> final(self).tx_queue_view() == old(self).tx_queue_view()
                && final(self).recent_ids() == old(self).recent_ids() && match timesync::spec_decode_response(pkt@) {
                Err(e) => r == Err::<bool, TelemetryError>(e),
                Ok(resp) => r == Ok::<bool, TelemetryError>(true) && (match old(self).ts.pending_request {
                    Some(p) => p.seq == resp.seq && p.source@ == pkt@.sender,
                    None => false,
                } ==> final(self).ts.pending_request is None),
            },
            old(self).spec_mode() != RouterMode::Relay && pkt@.ty == DataType::TimeSyncRequest && r is Ok
                && final(self).tx_queue_view() != old(self).tx_queue_view() ==> (timesync::spec_decode_request(pkt@) matches Ok(
                req,
            ) && exists|x: u64| #[trigger] response_last(final(self), src, req.seq, req.t1_ms, x, x)),
            r is Ok ==> r == Ok::<bool, TelemetryError>(true),
            old(self).spec_mode() != RouterMode::Relay ==> final(self).deliveries() == old(self).deliveries(),
            old(self).spec_mode() != RouterMode::Relay && old(self).cfg.timesync is Some && old(self).ts.tracker is Some
                && pkt@.ty == DataType::TimeSyncAnnounce ==> match timesync::spec_decode_announce(pkt@) {
                Err(e) => r == Err::<bool, TelemetryError>(e) && final(self).tx_queue_view() == old(self).tx_queue_view(),
                Ok(_) => true,
            },
            old(self).spec_mode() != RouterMode::Relay && old(self).cfg.timesync is Some && old(self).ts.tracker is Some
                && pkt@.ty == DataType::TimeSyncRequest ==> exists|now_ms: u64, now_ns: u64|
                #[trigger] request_handled(old(self), final(self), pkt@, src, r, now_ms, now_ns),
        decreases depth, 7nat,
    {
        let cfg = match self.cfg.timesync {
            Some(c) => c,
            None => {
                if self.mode == RouterMode::Relay {
                    self.relay_send(&RouterItem::Packet(pkt.clone()), src, called_from_queue, depth)?;
                }
                proof {
                    if old(self).spec_mode() != RouterMode::Relay {
                        lemma_no_timesync_queued(old(self), self);
                    }
                }
                return Ok(true);
            },
        };
        let now_ms = self.clock.now_ms();
        let now_ns = self.clock.now_ns();
        self.ts.prune(now_ms);
        let usable = self.ts.has_usable_time(now_ns);
        if self.ts.tracker.is_none() {
            proof {
                lemma_no_timesync_queued(old(self), self);
            }
            return Ok(true);
        }
        let mut response: Option<(u64, u64, u64, u64)> = None;
        let mut poll_after = false;
        match pkt.data_type() {
            DataType::TimeSyncAnnounce => {
                let ann = match timesync::decode_timesync_announce(pkt) {
                    Ok(a) => a,
                    Err(e) => {
                        proof {
                            lemma_no_timesync_queued(old(self), self);
                        }
                        return Err(e);
                    },
                };
                let steer = match &mut self.ts.tracker {
                    Some(t) => {
                        match t.handle_announce(pkt, now_ms) {
                            Ok(_) => {},
                            Err(e) => {
                                proof {
                                    lemma_no_timesync_queued(old(self), self);
                                }
                                return Err(e);
                            },
                        }
                        match t.leader(now_ms, usable) {
                            Some(TimeSyncLeader::Remote(remote)) => str_eq(remote.sender.as_str(), pkt.sender()),
                            _ => false,
                        }
                    },
                    None => false,
                };
                put_remote(&mut self.ts.remote_sources, pkt.sender(), ann.priority, now_ms, ann.time_ms);
                self.ts.clock.update_source(pkt.sender(), ann.priority, PartialNetworkTime::from_unix_ms(ann.time_ms), now_ms, now_ns, Some(cfg.source_timeout_ms));
                if steer {
                    self.ts.disciplined_clock.steer_unix_ms(now_ns, ann.time_ms);
                }
                poll_after = true;
            },
            DataType::TimeSyncRequest => {
                let serve = match &self.ts.tracker {
                    Some(t) => t.should_serve(now_ms, usable),
                    None => false,
                };
                assert(serve == serves_requests_at(old(self), now_ms, now_ns));
                if serve {
                    let req = match timesync::decode_timesync_request(pkt) {
                        Ok(q) => q,
                        Err(e) => {
                            proof {
                                lemma_no_timesync_queued(old(self), self);
                                assert(request_handled(old(self), self, pkt@, src, Err(e), now_ms, now_ns));
                            }
                            return Err(e);
                        },
                    };
                    let network_now = match self.ts.disciplined_clock.read_unix_ms(now_ns) {
                        Some(v) => v,
                        None => match self.ts.clock.current_time(now_ns) {
                            Some(t) => match t.unix_time_ms {
                                Some(v) => v,
                                None => now_ms,
                            },
                            None => now_ms,
                        },
                    };
                    response = Some((req.seq, req.t1_ms, network_now, network_now));
                }
            },
            DataType::TimeSyncResponse => {
                let resp = match timesync::decode_timesync_response(pkt) {
                    Ok(q) => q,
                    Err(e) => {
                        proof {
                            lemma_no_timesync_queued(old(self), self);
                        }
                        return Err(e);
                    },
                };
                let matches_pending = match &self.ts.pending_request {
                    Some(p) => p.seq == resp.seq && str_eq(p.source.as_str(), pkt.sender()),
                    None => false,
                };
                if matches_pending {
                    let t1 = match &self.ts.pending_request {
                        Some(p) => p.t1_mono_ms,
                        None => 0,
                    };
                    let best = match &self.ts.tracker {
                        Some(t) => match t.best_active_source(now_ms) {
                            Some(s) => Some(s.priority),
                            None => None,
                        },
                        None => None,
                    };
                    let priority = match best {
                        Some(p) => p,
                        None => match find_remote(&self.ts.remote_sources, pkt.sender()) {
                            Some(i) => self.ts.remote_sources[i].priority,
                            None => cfg.priority,
                        },
                    };
                    let (estimate, _delay) = timesync::compute_network_time_sample(t1, resp.t2_ms, resp.t3_ms, now_ms);
                    put_remote(&mut self.ts.remote_sources, pkt.sender(), priority, now_ms, estimate);
                    self.ts.clock.update_source(pkt.sender(), priority, PartialNetworkTime::from_unix_ms(estimate), now_ms, now_ns, Some(cfg.source_timeout_ms));
                    self.ts.disciplined_clock.steer_unix_ms(now_ns, estimate);
                    self.ts.pending_request = None;
                }
            },
            _ => {},
        }
        proof {
            lemma_no_timesync_queued(old(self), self);
        }
        match response {
            Some((seq, t1, t2, t3)) => {
                let ghost pre = *self;
                let q = self.queue_internal_timesync_response(seq, t1, t2, t3, src);
                proof {
                    lemma_timesync_queued_trans(old(self), &pre, self);
                }
                match q {
                    Ok(()) => {},
                    Err(e) => {
                        proof {
                            if pkt@.ty == DataType::TimeSyncRequest {
                                assert(request_handled(old(self), self, pkt@, src, Err(e), now_ms, now_ns));
                            }
                        }
                        return Err(e);
                    },
                }
            },
            None => {},
        }
        proof {
            if pkt@.ty == DataType::TimeSyncRequest && self.mode != RouterMode::Relay {
                match response {
                    Some((seq, t1, t2, t3)) => {
                        assert(response_last(self, src, seq, t1, t2, t3));
                    },
                    None => {},
                }
                assert(request_handled(old(self), self, pkt@, src, Ok(true), now_ms, now_ns));
            }
        }
        if poll_after {
            let ghost pre = *self;
            let p = self.poll_timesync();
            proof {
                lemma_timesync_queued_trans(old(self), &pre, self);
            }
            let _ = p?;
        }
        if self.mode == RouterMode::Relay {
            self.relay_send(&RouterItem::Packet(pkt.clone()), src, called_from_queue, depth)?;
        }
        Ok(true)
    }

    /// Whether a received item may be suppressed as a repeat: items that
    /// came from a side (packets, and bytes whose header reads and whose side
    /// exists).
    pub open spec fn dedup_applies(&self, src: Option<RouterSideId>, d: ItemModel) -> bool {
        match src {
            None => false,
            Some(side) => match d {
                ItemModel::Packet(_) => true,
                ItemModel::Serialized(b) => serialize::spec_peek(b) is Ok && side < self.num_sides(),
            },
        }
    }

    /// Receive an item: its identifier is remembered, and repeats that came
    /// from a side are dropped; time sync and discovery packets
    /// are handled by the router; the local handlers of its endpoints are
    /// called (their failures are reported, not returned); in relay mode it
    /// is forwarded to the sides that need it.
    #[verifier::rlimit(60)]
    #[verifier::spinoff_prover]
    fn rx_item(&mut self, item: &RouterRxItem, called_from_queue: bool, depth: u32) -> (r: TelemetryResult<()>)
        requires
            old(self).wf(),
        ensures
            same_rx(old(self), final(self)),
            old(self).dedup_applies(item.src, item.data@) && old(self).recent_ids().contains(spec_item_id(item.data@))
                ==> r is Ok && same_routing(old(self), final(self)),
            old(self).spec_mode() != RouterMode::Relay && (item.data@ matches ItemModel::Packet(p) && spec_timesync_type(p.ty))
                ==> timesync_queued(old(self), final(self)),
            match (item.src, item.data@) {
                (Some(side), ItemModel::Serialized(b)) => if side >= old(self).num_sides() {
                    r == Err::<(), TelemetryError>(TelemetryError::HandlerError("router: invalid side id")) && same_routing(
                        old(self),
                        final(self),
                    )
                } else {
                    match serialize::spec_peek(b) {
                        Err(e) => r == Err::<(), TelemetryError>(e) && same_routing(old(self), final(self)),
                        Ok(_) => true,
                    }
                },
                _ => true,
            },
            !(item.src is Some && old(self).recent_ids().contains(spec_item_id(item.data@))) && r is Ok ==> rx_handed(
                old(self),
                final(self),
                item.data@,
            ),
        decreases depth, 8nat,
    {
        match (item.src, &item.data) {
            (Some(side), RouterItem::Serialized(bytes)) => {
                if side >= self.sides.len() {
                    return Err(TelemetryError::HandlerError("router: invalid side id"));
                }
                serialize::peek_envelope(bytes.as_slice())?;
            },
            _ => {},
        }
        let seen = self.is_duplicate_pkt(&item.data)?;
        if seen && item.src.is_some() {
            proof {
                lemma_no_timesync_queued(old(self), self);
            }
            return Ok(());
        }
        match &item.data {
            RouterItem::Packet(pkt) => {
                if is_timesync_type(pkt.data_type()) {
                    let ghost pre = *self;
                    let h = self.handle_internal_timesync_packet(pkt, item.src, called_from_queue, depth);
                    proof {
                        if old(self).spec_mode() != RouterMode::Relay {
                            lemma_no_timesync_queued(old(self), &pre);
                            lemma_timesync_queued_trans(old(self), &pre, self);
                        }
                    }
                    h?;
                    return Ok(());
                }
                if self.learn_discovery_packet(pkt, item.src)? {
                    if self.mode == RouterMode::Relay {
                        self.relay_send(&item.data, item.src, called_from_queue, depth)?;
                    }
                    return Ok(());
                }
                let eps = canonical_endpoints(pkt.endpoints());
                let has_remote = if self.mode == RouterMode::Relay {
                    self.should_route_remote(&item.data, item.src)?
                } else {
                    false
                };
                let bytes: Option<Vec<u8>> = if self.any_handler(eps.as_slice(), false) {
                    Some(serialize::serialize_packet(pkt))
                } else {
                    None
                };
                match &bytes {
                    Some(b) => {
                        let _ = self.run_local_handlers(&eps, Some(pkt), Some(b.as_slice()), None, false, depth);
                    },
                    None => {
                        let _ = self.run_local_handlers(&eps, Some(pkt), None, None, false, depth);
                    },
                }
                proof {
                    if !spec_internal_control(pkt@.ty) {
                        assert forall|j: int|
                            0 <= j < old(self).handlers_view().len() && spec_canonical_endpoints(pkt@.endpoints).contains(
                                old(self).handlers_view()[j].spec_endpoint(),
                            ) implies #[trigger] locally_handed(self, j, None, Some(pkt@)) by {
                            match &bytes {
                                Some(b) => {
                                    assert(locally_handed(self, j, Some(b@), Some(pkt@)));
                                },
                                None => {
                                    assert(locally_handed(self, j, None, Some(pkt@)));
                                },
                            }
                        }
                    }
                    assert(local_handoffs_made(old(self), self, item.data@));
                }
                let ghost after_run = *self;
                if self.mode == RouterMode::Relay && has_remote {
                    self.relay_send(&item.data, item.src, called_from_queue, depth)?;
                    proof {
                        lemma_handoffs_keep(old(self), &after_run, self, item.data@);
                    }
                }
                Ok(())
            },
            RouterItem::Serialized(bytes) => {
                let env = serialize::peek_envelope(bytes.as_slice())?;
                if is_timesync_type(env.ty) {
                    let pkt = serialize::deserialize_packet(bytes.as_slice())?;
                    self.handle_internal_timesync_packet(&pkt, item.src, called_from_queue, depth)?;
                    return Ok(());
                }
                if discovery::is_discovery_type(env.ty) {
                    let pkt = serialize::deserialize_packet(bytes.as_slice())?;
                    let _ = self.learn_discovery_packet(&pkt, item.src)?;
                    if self.mode == RouterMode::Relay {
                        self.relay_send(&RouterItem::Packet(pkt), item.src, called_from_queue, depth)?;
                    }
                    return Ok(());
                }
                let pkt_opt: Option<TelemetryPacket> = if self.any_handler(env.endpoints.as_slice(), true) {
                    Some(serialize::deserialize_packet(bytes.as_slice())?)
                } else {
                    None
                };
                let eps = canonical_endpoints(env.endpoints.as_slice());
                let has_remote = if self.mode == RouterMode::Relay {
                    self.should_route_remote(&item.data, item.src)?
                } else {
                    false
                };
                let ghost pre_run = *self;
                match &pkt_opt {
                    Some(p) => {
                        let _ = self.run_local_handlers(&eps, Some(p), Some(bytes.as_slice()), Some(&env), false, depth);
                    },
                    None => {
                        let rr = self.run_local_handlers(&eps, None, Some(bytes.as_slice()), Some(&env), false, depth);
                        proof {
                            if rr is Err {
                                let j = choose|j: int|
                                    0 <= j < pre_run.handlers_view().len() && eps@.contains(pre_run.handlers_view()[j].spec_endpoint())
                                        && (#[trigger] pre_run.handlers_view()[j]).spec_takes_packets();
                                crate::config::lemma_canonical_contains(env.endpoints@, pre_run.handlers_view()[j].spec_endpoint());
                                let i = choose|i: int| 0 <= i < env.endpoints@.len() && env.endpoints@[i] == pre_run.handlers_view()[j].spec_endpoint();
                                assert(pre_run.handlers_view()[j].spec_endpoint() == env.endpoints@[i]);
                            }
                        }
                    },
                }
                proof {
                    if !spec_internal_control(env.ty) {
                        assert forall|j: int|
                            0 <= j < old(self).handlers_view().len() && spec_canonical_endpoints(env.endpoints@).contains(
                                old(self).handlers_view()[j].spec_endpoint(),
                            ) implies #[trigger] locally_handed(self, j, Some(bytes@), None) by {
                            match &pkt_opt {
                                Some(p) => {
                                    assert(locally_handed(self, j, Some(bytes@), Some(p@)));
                                },
                                None => {
                                    assert(locally_handed(self, j, Some(bytes@), None));
                                },
                            }
                        }
                    }
                    assert(local_handoffs_made(old(self), self, item.data@));
                }
                let ghost after_run = *self;
                if self.mode == RouterMode::Relay && has_remote {
                    let relay_item = match &pkt_opt {
                        Some(p) => RouterItem::Packet(p.clone()),
                        None => RouterItem::Serialized(bytes.clone()),
                    };
                    self.relay_send(&relay_item, item.src, called_from_queue, depth)?;
                    proof {
                        lemma_handoffs_keep(old(self), &after_run, self, item.data@);
                    }
                }
                Ok(())
            },
        }
    }

    // ----- immediate receive -----

    /// Receive wire bytes now (local source).
    pub fn rx_serialized(&mut self, bytes: &[u8]) -> (r: TelemetryResult<()>)
        requires
            old(self).wf(),
        ensures
            same_rx(old(self), final(self)),
            serialize::spec_peek(bytes@) matches Err(e) ==> r == Err::<(), TelemetryError>(e) && same_routing(old(self), final(self)),
            r is Ok ==> rx_handed(old(self), final(self), ItemModel::Serialized(bytes@)),
    {
        serialize::peek_envelope(bytes)?;
        let item = RouterRxItem { src: None, data: RouterItem::Serialized(vstd::slice::slice_to_vec(bytes)) };
        self.rx_item(&item, false, ERROR_REPORT_DEPTH)
    }

    /// Receive a packet now (local source).
    pub fn rx(&mut self, pkt: &TelemetryPacket) -> (r: TelemetryResult<()>)
        requires
            old(self).wf(),
        ensures
            same_rx(old(self), final(self)),
            old(self).spec_mode() != RouterMode::Relay && spec_timesync_type(pkt@.ty) ==> timesync_queued(old(self), final(self)),
            r is Ok ==> rx_handed(old(self), final(self), ItemModel::Packet(pkt@)),
    {
        let item = RouterRxItem { src: None, data: RouterItem::Packet(pkt.clone()) };
        self.rx_item(&item, false, ERROR_REPORT_DEPTH)
    }

    /// Receive a packet now, from `side`.
    pub fn rx_from_side(&mut self, pkt: &TelemetryPacket, side: RouterSideId) -> (r: TelemetryResult<()>)
        requires
            old(self).wf(),
        ensures
            same_rx(old(self), final(self)),
            old(self).spec_mode() != RouterMode::Relay && spec_timesync_type(pkt@.ty) ==> timesync_queued(old(self), final(self)),
            old(self).recent_ids().contains(spec_item_id(ItemModel::Packet(pkt@))) ==> r is Ok
                && same_routing(old(self), final(self)),
            !old(self).recent_ids().contains(spec_item_id(ItemModel::Packet(pkt@))) && r is Ok ==> rx_handed(
                old(self),
                final(self),
                ItemModel::Packet(pkt@),
            ),
    {
        let item = RouterRxItem { src: Some(side), data: RouterItem::Packet(pkt.clone()) };
        self.rx_item(&item, false, ERROR_REPORT_DEPTH)
    }

    /// Receive wire bytes now, from `side`.
    pub fn rx_serialized_from_side(&mut self, bytes: &[u8], side: RouterSideId) -> (r: TelemetryResult<()>)
        requires
            old(self).wf(),
        ensures
            same_rx(old(self), final(self)),
            serialize::spec_peek(bytes@) is Ok && side < old(self).num_sides()
                && old(self).recent_ids().contains(spec_item_id(ItemModel::Serialized(bytes@))) ==> r is Ok
                && same_routing(old(self), final(self)),
            serialize::spec_peek(bytes@) matches Err(e) ==> r == Err::<(), TelemetryError>(e) && same_routing(
                old(self),
                final(self),
            ),
            serialize::spec_peek(bytes@) is Ok && side >= old(self).num_sides() ==> r == Err::<(), TelemetryError>(
                TelemetryError::HandlerError("router: invalid side id"),
            ) && same_routing(old(self), final(self)),
            !old(self).recent_ids().contains(spec_item_id(ItemModel::Serialized(bytes@))) && r is Ok ==> rx_handed(
                old(self),
                final(self),
                ItemModel::Serialized(bytes@),
            ),
    {
        serialize::peek_envelope(bytes)?;
        let item = RouterRxItem { src: Some(side), data: RouterItem::Serialized(vstd::slice::slice_to_vec(bytes)) };
        self.rx_item(&item, false, ERROR_REPORT_DEPTH)
    }

    // ----- immediate transmit -----

    /// Transmit a packet now: local handlers, then the sides that need it.
    pub fn tx(&mut self, pkt: TelemetryPacket) -> (r: TelemetryResult<()>)
        requires
            old(self).wf(),
        ensures
            same_queues(old(self), final(self)),
            old(self).num_sides() == 0 && old(self).route_count() == 0 && no_handler_for(pkt@.endpoints, old(self).handlers_view())
                ==> r is Ok,
            !carries_discovery(ItemModel::Packet(pkt@)) && r is Ok ==> local_handoffs_made(
                old(self),
                final(self),
                ItemModel::Packet(pkt@),
            ),
            r is Ok ==> sides_handed(final(self), ItemModel::Packet(pkt@)),
            r is Ok ==> routed_as_planned(final(self), ItemModel::Packet(pkt@)),
    {
        self.tx_item_impl(RouterTxItem::Broadcast(RouterItem::Packet(pkt)), false, ERROR_REPORT_DEPTH)
    }

    /// Transmit wire bytes now (see `tx`).
    pub fn tx_serialized(&mut self, bytes: Vec<u8>) -> (r: TelemetryResult<()>)
        requires
            old(self).wf(),
        ensures
            same_queues(old(self), final(self)),
            match serialize::spec_peek(bytes@) {
                Err(e) => r == Err::<(), TelemetryError>(e),
                Ok(env) => old(self).num_sides() == 0 && old(self).route_count() == 0 && no_handler_for(
                    env.endpoints,
                    old(self).handlers_view(),
                ) && !spec_timesync_type(env.ty) ==> r is Ok,
            },
            !carries_discovery(ItemModel::Serialized(bytes@)) && r is Ok ==> local_handoffs_made(
                old(self),
                final(self),
                ItemModel::Serialized(bytes@),
            ),
            r is Ok ==> sides_handed(final(self), ItemModel::Serialized(bytes@)),
            r is Ok ==> routed_as_planned(final(self), ItemModel::Serialized(bytes@)),
    {
        self.tx_item_impl(RouterTxItem::Broadcast(RouterItem::Serialized(bytes)), false, ERROR_REPORT_DEPTH)
    }

    /// Build a packet from `data` (stamped with the network time, or the
    /// monotonic time) and transmit it now.
    pub fn log<T: LeBytes>(&mut self, ty: DataType, data: &[T]) -> (r: TelemetryResult<()>)
        requires
            old(self).wf(),
            data@.len() * T::spec_width() <= usize::MAX,
        ensures
            same_queues(old(self), final(self)),
            exists|ts: u64| #[trigger] log_refused(old(self), final(self), r, ty, data@, ts) && log_handed(
                old(self),
                final(self),
                r,
                ty,
                data@,
                ts,
            ),
    {
        let ts = self.packet_timestamp_ms();
        let r = self.log_ts(ty, ts, data);
        assert(log_refused(old(self), self, r, ty, data@, ts));
        assert(log_handed(old(self), self, r, ty, data@, ts));
        r
    }

    /// Build a packet from `data` stamped `timestamp` and transmit it now;
    /// a payload that does not fit the schema is refused.
    pub fn log_ts<T: LeBytes>(&mut self, ty: DataType, timestamp: u64, data: &[T]) -> (r: TelemetryResult<()>)
        requires
            old(self).wf(),
            data@.len() * T::spec_width() <= usize::MAX,
        ensures
            same_queues(old(self), final(self)),
            match spec_log_packet(DEVICE_IDENTIFIER@, ty, data@, timestamp) {
                Err(e) => r == Err::<(), TelemetryError>(e) && same_routing(old(self), final(self)),
                Ok(p) => old(self).num_sides() == 0 && old(self).route_count() == 0 && no_handler_for(
                    p.endpoints,
                    old(self).handlers_view(),
                ) ==> r is Ok,
            },
            log_handed(old(self), final(self), r, ty, data@, timestamp),
    {
        let pkt = match log_packet(self.sender, ty, data, timestamp) {
            Ok(p) => p,
            Err(e) => {
                return Err(e);
            },
        };
        self.tx_item_impl(RouterTxItem::Broadcast(RouterItem::Packet(pkt)), false, ERROR_REPORT_DEPTH)
    }

    // ----- queue processing -----

    #[verifier::rlimit(80)]
    fn process_tx_queue_impl(&mut self, timeout_ms: u32) -> (r: TelemetryResult<()>)
        requires
            old(self).wf(),
        ensures
            same_rx(old(self), final(self)),
            timeout_ms == 0 && r is Ok ==> final(self).tx_queue_view().len() == 0,
            old(self).tx_queue_view().len() == 0 ==> r is Ok && same_routing(old(self), final(self)),
            final(self).same_topology(old(self)),
            timeout_ms == 0 && r is Ok ==> forall|i: int|
                0 <= i < old(self).tx_queue_view().len() ==> #[trigger] queued_handed(final(self), old(self).tx_queue_view()[i]),
    {
        let start = self.clock.now_ms();
        let ghost q0 = self.tx_queue_view();
        let ghost mut k: int = 0;
        loop
            invariant
                same_rx(old(self), self),
                old(self).tx_queue_view().len() == 0 ==> same_routing(old(self), self),
                self.same_topology(old(self)),
                q0 == old(self).tx_queue_view(),
                0 <= k <= q0.len(),
                self.tx_queue_view() == q0.skip(k),
                forall|i: int| 0 <= i < k ==> #[trigger] queued_handed(self, q0[i]),
            decreases self.tx_queue_view().len(),
        {
            let ghost before = self.tx_queue_view();
            let ghost pre = *self;
            proof {
                assert(forall|i: int| 0 <= i < k ==> #[trigger] queued_handed(&pre, q0[i]));
            }
            let q = match self.transmit_queue.pop_front() {
                Some(q) => q,
                None => {
                    proof {
                        assert(k == q0.len());
                        assert(self.deliveries() == pre.deliveries());
                        assert forall|i: int| 0 <= i < k implies #[trigger] queued_handed(self, q0[i]) by {
                            lemma_queued_handed_keeps(&pre, self, q0[i]);
                        }
                    }
                    return Ok(());
                },
            };
            proof {
                assert(self.tx_queue_view() =~= before.drop_first());
                assert(before[0] == tx_model(q));
                assert(q0.skip(k)[0] == q0[k]);
            }
            let ghost mid = *self;
            assert(mid.deliveries() == pre.deliveries());
            assert(mid.same_topology(&pre));
            self.tx_item_impl(q.item, q.ignore_local, ERROR_REPORT_DEPTH)?;
            proof {
                assert(queued_handed(self, q0[k])) by {
                    reveal(queued_handed);
                }
                assert forall|i: int| 0 <= i < k + 1 implies #[trigger] queued_handed(self, q0[i]) by {
                    if i < k {
                        lemma_queued_handed_keeps(&pre, self, q0[i]);
                    }
                }
                assert(self.tx_queue_view() =~= q0.skip(k + 1));
                k = k + 1;
            }
            if timeout_ms != 0 && self.clock.now_ms().wrapping_sub(start) >= timeout_ms as u64 {
                return Ok(());
            }
        }
    }

    /// Transmit queued items for up to `timeout_ms` milliseconds (0: until
    /// the queue is empty), after a time sync cycle.
    pub fn process_tx_queue_with_timeout(&mut self, timeout_ms: u32) -> (r: TelemetryResult<()>)
        requires
            old(self).wf(),
        ensures
            same_rx(old(self), final(self)),
            timeout_ms == 0 && r is Ok ==> final(self).tx_queue_view().len() == 0,
            old(self).timesync_cfg() is None && old(self).tx_queue_view().len() == 0 ==> r is Ok && same_routing(old(self), final(self)),
            old(self).timesync_cfg() is None && timeout_ms == 0 && r is Ok ==> forall|i: int|
                0 <= i < old(self).tx_queue_view().len() ==> #[trigger] queued_handed(final(self), old(self).tx_queue_view()[i]),
    {
        let _ = self.poll_timesync()?;
        self.process_tx_queue_impl(timeout_ms)
    }

    /// Transmit every queued item.
    pub fn process_tx_queue(&mut self) -> (r: TelemetryResult<()>)
        requires
            old(self).wf(),
        ensures
            same_rx(old(self), final(self)),
            r is Ok ==> final(self).tx_queue_view().len() == 0,
            old(self).timesync_cfg() is None && old(self).tx_queue_view().len() == 0 ==> r is Ok && same_routing(old(self), final(self)),
            old(self).timesync_cfg() is None && r is Ok ==> forall|i: int|
                0 <= i < old(self).tx_queue_view().len() ==> #[trigger] queued_handed(final(self), old(self).tx_queue_view()[i]),
    {
        self.process_tx_queue_with_timeout(0)
    }

    fn process_rx_queue_impl(&mut self, timeout_ms: u32) -> (r: TelemetryResult<()>)
        requires
            old(self).wf(),
        ensures
            final(self).wf(),
            final(self).num_sides() == old(self).num_sides(),
            final(self).spec_mode() == old(self).spec_mode(),
            final(self).handlers_view() == old(self).handlers_view(),
            final(self).rx_queue_view().len() <= old(self).rx_queue_view().len(),
            timeout_ms == 0 && r is Ok ==> final(self).rx_queue_view().len() == 0,
            old(self).rx_queue_view().len() == 0 ==> r is Ok && same_routing(old(self), final(self)),
            timeout_ms == 0 && r is Ok ==> forall|i: int|
                0 <= i < old(self).rx_queue_view().len() ==> #[trigger] rx_queued_handed(
                    old(self),
                    final(self),
                    old(self).rx_queue_view()[i],
                ),
    {
        let start = self.clock.now_ms();
        let ghost q0 = self.rx_queue_view();
        let ghost mut k: int = 0;
        loop
            invariant
                self.wf(),
                self.num_sides() == old(self).num_sides(),
                self.spec_mode() == old(self).spec_mode(),
                self.handlers_view() == old(self).handlers_view(),
                self.rx_queue_view().len() <= old(self).rx_queue_view().len(),
                old(self).rx_queue_view().len() == 0 ==> same_routing(old(self), self),
                q0 == old(self).rx_queue_view(),
                0 <= k <= q0.len(),
                self.rx_queue_view() == q0.skip(k),
                forall|i: int| 0 <= i < k ==> #[trigger] rx_queued_handed(old(self), self, q0[i]),
            decreases self.rx_queue_view().len(),
        {
            let ghost before = self.rx_queue_view();
            let ghost pre = *self;
            let item = match self.received_queue.pop_front() {
                Some(it) => it,
                None => {
                    assert(self.rx_queue_view().len() == 0);
                    proof {
                        assert(k == q0.len());
                        assert forall|i: int| 0 <= i < k implies #[trigger] rx_queued_handed(old(self), self, q0[i]) by {
                            lemma_rx_queued_handed_keeps(old(self), &pre, self, q0[i]);
                        }
                    }
                    return Ok(());
                },
            };
            proof {
                assert(self.rx_queue_view() =~= before.drop_first());
                assert(before[0] == rx_model(item));
                assert(q0.skip(k)[0] == q0[k]);
            }
            let ghost mid = *self;
            assert(mid.deliveries() == pre.deliveries());
            self.rx_item(&item, true, ERROR_REPORT_DEPTH)?;
            proof {
                assert(rx_queued_handed(old(self), self, q0[k])) by {
                    reveal(rx_queued_handed);
                    if q0[k].src is None {
                        lemma_rx_handed_rebase(&mid, old(self), self, self, q0[k].data);
                    }
                }
                assert forall|i: int| 0 <= i < k + 1 implies #[trigger] rx_queued_handed(old(self), self, q0[i]) by {
                    if i < k {
                        lemma_rx_queued_handed_keeps(old(self), &pre, self, q0[i]);
                    }
                }
                assert(self.rx_queue_view() =~= q0.skip(k + 1));
                k = k + 1;
            }
            if timeout_ms != 0 && self.clock.now_ms().wrapping_sub(start) >= timeout_ms as u64 {
                return Ok(());
            }
        }
    }

    /// Process received items for up to `timeout_ms` milliseconds (0: until
    /// the queue is empty), after a time sync cycle.
    pub fn process_rx_queue_with_timeout(&mut self, timeout_ms: u32) -> (r: TelemetryResult<()>)
        requires
            old(self).wf(),
        ensures
            final(self).wf(),
            final(self).num_sides() == old(self).num_sides(),
            final(self).rx_queue_view().len() <= old(self).rx_queue_view().len(),
            timeout_ms == 0 && r is Ok ==> final(self).rx_queue_view().len() == 0,
            old(self).timesync_cfg() is None && old(self).rx_queue_view().len() == 0 ==> r is Ok && same_routing(old(self), final(self)),
            old(self).timesync_cfg() is None && timeout_ms == 0 && r is Ok ==> forall|i: int|
                0 <= i < old(self).rx_queue_view().len() ==> #[trigger] rx_queued_handed(
                    old(self),
                    final(self),
                    old(self).rx_queue_view()[i],
                ),
    {
        let _ = self.poll_timesync()?;
        let ghost mid = *self;
        let r = self.process_rx_queue_impl(timeout_ms);
        proof {
            if old(self).timesync_cfg() is None && timeout_ms == 0 && r is Ok {
                assert forall|i: int| 0 <= i < old(self).rx_queue_view().len() implies #[trigger] rx_queued_handed(
                    old(self),
                    self,
                    old(self).rx_queue_view()[i],
                ) by {
                    assert(rx_queued_handed(&mid, self, mid.rx_queue_view()[i]));
                    lemma_rx_queued_rebase(&mid, old(self), self, old(self).rx_queue_view()[i]);
                }
            }
        }
        r
    }

    /// Process every received item; on success the receive queue is empty.
    pub fn process_rx_queue(&mut self) -> (r: TelemetryResult<()>)
        requires
            old(self).wf(),
        ensures
            final(self).wf(),
            final(self).rx_queue_view().len() <= old(self).rx_queue_view().len(),
            r is Ok ==> final(self).rx_queue_view().len() == 0,
            old(self).timesync_cfg() is None && old(self).rx_queue_view().len() == 0 ==> r is Ok && same_routing(old(self), final(self)),
            old(self).timesync_cfg() is None && r is Ok ==> forall|i: int|
                0 <= i < old(self).rx_queue_view().len() ==> #[trigger] rx_queued_handed(
                    old(self),
                    final(self),
                    old(self).rx_queue_view()[i],
                ),
    {
        self.process_rx_queue_with_timeout(0)
    }

    /// Pop and transmit the front queued item; returns whether there was one.
    fn send_front(&mut self) -> (r: TelemetryResult<bool>)
        requires
            old(self).wf(),
        ensures
            same_rx(old(self), final(self)),
            final(self).same_topology(old(self)),
            old(self).tx_queue_view().len() == 0 ==> r == Ok::<bool, TelemetryError>(false) && same_routing(
                old(self),
                final(self),
            ),
            old(self).tx_queue_view().len() > 0 ==> final(self).tx_queue_view() == old(self).tx_queue_view().drop_first()
                && (r is Ok ==> r == Ok::<bool, TelemetryError>(true) && queued_handed(final(self), old(self).tx_queue_view()[0])),
            old(self).tx_queue_view().len() > 0 && reaches_nothing(old(self), old(self).tx_queue_view()[0]) ==> r
                == Ok::<bool, TelemetryError>(true),
    {
        let ghost tx0 = self.tx_queue_view();
        match self.transmit_queue.pop_front() {
            Some(q) => {
                proof {
                    assert(self.tx_queue_view() =~= tx0.drop_first());
                    assert(tx0[0] == tx_model(q));
                }
                self.tx_item_impl(q.item, q.ignore_local, ERROR_REPORT_DEPTH)?;
                proof {
                    assert(queued_handed(self, tx0[0])) by {
                        reveal(queued_handed);
                    }
                }
                Ok(true)
            },
            None => {
                assert(self.tx_queue_view() =~= tx0);
                Ok(false)
            },
        }
    }

    /// Pop and receive the front queued item; returns whether there was one.
    fn receive_front(&mut self) -> (r: TelemetryResult<bool>)
        requires
            old(self).wf(),
        ensures
            final(self).wf(),
            final(self).num_sides() == old(self).num_sides(),
            final(self).spec_mode() == old(self).spec_mode(),
            final(self).handlers_view() == old(self).handlers_view(),
            handed_grows(old(self), final(self)),
            old(self).rx_queue_view().len() == 0 ==> r == Ok::<bool, TelemetryError>(false) && same_routing(
                old(self),
                final(self),
            ) && final(self).same_topology(old(self)),
            old(self).rx_queue_view().len() > 0 ==> final(self).rx_queue_view() == old(self).rx_queue_view().drop_first()
                && (r is Ok ==> r == Ok::<bool, TelemetryError>(true) && rx_queued_handed(
                old(self),
                final(self),
                old(self).rx_queue_view()[0],
            )),
    {
        let ghost rx0 = self.rx_queue_view();
        match self.received_queue.pop_front() {
            Some(item) => {
                proof {
                    assert(self.rx_queue_view() =~= rx0.drop_first());
                    assert(rx0[0] == rx_model(item));
                }
                let ghost mid = *self;
                self.rx_item(&item, true, ERROR_REPORT_DEPTH)?;
                proof {
                    assert(rx_queued_handed(old(self), self, rx0[0])) by {
                        reveal(rx_queued_handed);
                        if rx0[0].src is None {
                            lemma_rx_handed_rebase(&mid, old(self), self, self, rx0[0].data);
                        }
                    }
                }
                Ok(true)
            },
            None => {
                assert(self.rx_queue_view() =~= rx0);
                Ok(false)
            },
        }
    }

    fn process_all_queues_impl(&mut self, timeout_ms: u32) -> (r: TelemetryResult<()>)
        requires
            old(self).wf(),
        ensures
            final(self).wf(),
            final(self).num_sides() == old(self).num_sides(),
            final(self).spec_mode() == old(self).spec_mode(),
            final(self).handlers_view() == old(self).handlers_view(),
            handed_grows(old(self), final(self)),
            timeout_ms == 0 && r is Ok ==> final(self).rx_queue_view().len() == 0
                && final(self).tx_queue_view().len() == 0,
            old(self).rx_queue_view().len() == 0 && old(self).tx_queue_view().len() == 0 ==> r is Ok && same_routing(old(self), final(self)),
            suffix_of(final(self).rx_queue_view(), old(self).rx_queue_view()),
            timeout_ms == 0 && r is Ok ==> forall|i: int|
                0 <= i < old(self).rx_queue_view().len() ==> #[trigger] rx_queued_handed(
                    old(self),
                    final(self),
                    old(self).rx_queue_view()[i],
                ),
            timeout_ms == 0 && r is Ok && old(self).rx_queue_view().len() == 0 ==> forall|i: int|
                0 <= i < old(self).tx_queue_view().len() ==> #[trigger] queued_handed(final(self), old(self).tx_queue_view()[i]),
            old(self).rx_queue_view().len() == 0 && (forall|i: int|
                0 <= i < old(self).tx_queue_view().len() ==> #[trigger] reaches_nothing(old(self), old(self).tx_queue_view()[i]))
                ==> r is Ok,
    {
        let drain_fully = timeout_ms == 0;
        let start = if drain_fully {
            0
        } else {
            self.clock.now_ms()
        };
        let ghost q0 = self.rx_queue_view();
        let ghost t0 = self.tx_queue_view();
        let ghost mut k: int = 0;
        let ghost mut j: int = 0;
        proof {
            assert(q0.skip(0) =~= q0);
            assert(t0.skip(0) =~= t0);
        }
        loop
            invariant
                self.wf(),
                self.num_sides() == old(self).num_sides(),
                self.spec_mode() == old(self).spec_mode(),
                self.handlers_view() == old(self).handlers_view(),
                handed_grows(old(self), self),
                drain_fully == (timeout_ms == 0),
                old(self).rx_queue_view().len() == 0 && old(self).tx_queue_view().len() == 0 ==> same_routing(old(self), self),
                q0 == old(self).rx_queue_view(),
                t0 == old(self).tx_queue_view(),
                0 <= k <= q0.len(),
                self.rx_queue_view() == q0.skip(k),
                suffix_of(self.rx_queue_view(), q0),
                forall|i: int| 0 <= i < k ==> #[trigger] rx_queued_handed(old(self), self, q0[i]),
                q0.len() == 0 ==> 0 <= j <= t0.len() && self.tx_queue_view() == t0.skip(j) && self.same_topology(old(self))
                    && forall|i: int| 0 <= i < j ==> #[trigger] queued_handed(self, t0[i]),
            decreases self.rx_queue_view().len(), self.tx_queue_view().len(),
        {
            let ghost pre = *self;
            proof {
                if q0.len() == 0 && t0.len() > j && (forall|i: int| 0 <= i < t0.len() ==> #[trigger] reaches_nothing(old(self), t0[i])) {
                    assert(t0.skip(j)[0] == t0[j]);
                    assert(reaches_nothing(old(self), t0[j]));
                    assert(self.route_count() == old(self).route_count());
                    assert(reaches_nothing(self, self.tx_queue_view()[0]));
                }
            }
            let sent = self.send_front()?;
            proof {
                assert forall|i: int| 0 <= i < k implies #[trigger] rx_queued_handed(old(self), self, q0[i]) by {
                    lemma_rx_queued_handed_keeps(old(self), &pre, self, q0[i]);
                }
                if q0.len() == 0 && sent {
                    assert(t0.skip(j)[0] == t0[j]);
                    assert forall|i: int| 0 <= i < j + 1 implies #[trigger] queued_handed(self, t0[i]) by {
                        if i < j {
                            lemma_queued_handed_keeps(&pre, self, t0[i]);
                        }
                    }
                    assert(self.tx_queue_view() =~= t0.skip(j + 1));
                    j = j + 1;
                } else if q0.len() == 0 {
                    assert forall|i: int| 0 <= i < j implies #[trigger] queued_handed(self, t0[i]) by {
                        lemma_queued_handed_keeps(&pre, self, t0[i]);
                    }
                }
            }
            if !drain_fully && self.clock.now_ms().wrapping_sub(start) >= timeout_ms as u64 {
                return Ok(());
            }
            let ghost pre2 = *self;
            let ghost tx1 = self.tx_queue_view();
            let received = match self.receive_front() {
                Ok(b) => b,
                Err(e) => {
                    proof {
                        if q0.len() > k {
                            assert(self.rx_queue_view() =~= q0.skip(k + 1));
                            assert(q0.skip(k + 1) =~= q0.skip(q0.len() - self.rx_queue_view().len()));
                        }
                    }
                    return Err(e);
                },
            };
            proof {
                if received {
                    assert(q0.skip(k)[0] == q0[k]);
                    assert forall|i: int| 0 <= i < k + 1 implies #[trigger] rx_queued_handed(old(self), self, q0[i]) by {
                        if i < k {
                            lemma_rx_queued_handed_keeps(old(self), &pre2, self, q0[i]);
                        } else {
                            lemma_rx_queued_rebase(&pre2, old(self), self, q0[i]);
                        }
                    }
                    assert(self.rx_queue_view() =~= q0.skip(k + 1));
                    assert(q0.skip(k + 1) =~= q0.skip(q0.len() - self.rx_queue_view().len()));
                    k = k + 1;
                } else {
                    assert(self.tx_queue_view() == tx1);
                    assert forall|i: int| 0 <= i < k implies #[trigger] rx_queued_handed(old(self), self, q0[i]) by {
                        lemma_rx_queued_handed_keeps(old(self), &pre2, self, q0[i]);
                    }
                    if q0.len() == 0 {
                        assert forall|i: int| 0 <= i < j implies #[trigger] queued_handed(self, t0[i]) by {
                            lemma_queued_handed_keeps(&pre2, self, t0[i]);
                        }
                    }
                }
            }
            if !drain_fully && self.clock.now_ms().wrapping_sub(start) >= timeout_ms as u64 {
                return Ok(());
            }
            if !sent && !received {
                proof {
                    assert(k == q0.len());
                }
                return Ok(());
            }
        }
    }

    /// Process both queues (transmit first, alternating) for up to
    /// `timeout_ms` milliseconds (0: until both are empty), after a time
    /// sync cycle.
    pub fn process_all_queues_with_timeout(&mut self, timeout_ms: u32) -> (r: TelemetryResult<()>)
        requires
            old(self).wf(),
        ensures
            final(self).wf(),
            final(self).num_sides() == old(self).num_sides(),
            timeout_ms == 0 && r is Ok ==> final(self).rx_queue_view().len() == 0
                && final(self).tx_queue_view().len() == 0,
            old(self).timesync_cfg() is None && old(self).rx_queue_view().len() == 0 && old(self).tx_queue_view().len() == 0
                ==> r is Ok && same_routing(old(self), final(self)),
            suffix_of(final(self).rx_queue_view(), old(self).rx_queue_view()),
            old(self).timesync_cfg() is None && timeout_ms == 0 && r is Ok ==> forall|i: int|
                0 <= i < old(self).rx_queue_view().len() ==> #[trigger] rx_queued_handed(
                    old(self),
                    final(self),
                    old(self).rx_queue_view()[i],
                ),
            old(self).timesync_cfg() is None && timeout_ms == 0 && r is Ok && old(self).rx_queue_view().len() == 0
                ==> forall|i: int|
                0 <= i < old(self).tx_queue_view().len() ==> #[trigger] queued_handed(final(self), old(self).tx_queue_view()[i]),
            old(self).timesync_cfg() is None && old(self).rx_queue_view().len() == 0 && (forall|i: int|
                0 <= i < old(self).tx_queue_view().len() ==> #[trigger] reaches_nothing(old(self), old(self).tx_queue_view()[i]))
                ==> r is Ok && (timeout_ms == 0 ==> final(self).tx_queue_view().len() == 0),
    {
        let ghost q0 = self.rx_queue_view();
        match self.poll_timesync() {
            Ok(_) => {},
            Err(e) => {
                proof {
                    lemma_suffix_refl(q0);
                }
                return Err(e);
            },
        }
        let ghost mid = *self;
        proof {
            if old(self).timesync_cfg() is None && old(self).rx_queue_view().len() == 0 && (forall|i: int|
                0 <= i < old(self).tx_queue_view().len() ==> #[trigger] reaches_nothing(old(self), old(self).tx_queue_view()[i])) {
                assert(mid.tx_queue_view() == old(self).tx_queue_view());
                assert(mid.route_count() == old(self).route_count());
                assert forall|i: int| 0 <= i < mid.tx_queue_view().len() implies #[trigger] reaches_nothing(
                    &mid,
                    mid.tx_queue_view()[i],
                ) by {
                    assert(reaches_nothing(old(self), old(self).tx_queue_view()[i]));
                }
            }
        }
        let r = self.process_all_queues_impl(timeout_ms);
        proof {
            if old(self).timesync_cfg() is None && timeout_ms == 0 && r is Ok {
                assert forall|i: int| 0 <= i < old(self).rx_queue_view().len() implies #[trigger] rx_queued_handed(
                    old(self),
                    self,
                    old(self).rx_queue_view()[i],
                ) by {
                    assert(rx_queued_handed(&mid, self, mid.rx_queue_view()[i]));
                    lemma_rx_queued_rebase(&mid, old(self), self, old(self).rx_queue_view()[i]);
                }
            }
        }
        r
    }

    /// Process both queues until they are empty.
    pub fn process_all_queues(&mut self) -> (r: TelemetryResult<()>)
        requires
            old(self).wf(),
        ensures
            final(self).wf(),
            final(self).num_sides() == old(self).num_sides(),
            r is Ok ==> final(self).rx_queue_view().len() == 0 && final(self).tx_queue_view().len() == 0,
            old(self).timesync_cfg() is None && old(self).rx_queue_view().len() == 0 && old(self).tx_queue_view().len() == 0
                ==> r is Ok && same_routing(old(self), final(self)),
            suffix_of(final(self).rx_queue_view(), old(self).rx_queue_view()),
            old(self).timesync_cfg() is None && r is Ok ==> forall|i: int|
                0 <= i < old(self).rx_queue_view().len() ==> #[trigger] rx_queued_handed(
                    old(self),
                    final(self),
                    old(self).rx_queue_view()[i],
                ),
            old(self).timesync_cfg() is None && r is Ok && old(self).rx_queue_view().len() == 0 ==> forall|i: int|
                0 <= i < old(self).tx_queue_view().len() ==> #[trigger] queued_handed(final(self), old(self).tx_queue_view()[i]),
            old(self).timesync_cfg() is None && old(self).rx_queue_view().len() == 0 && (forall|i: int|
                0 <= i < old(self).tx_queue_view().len() ==> #[trigger] reaches_nothing(old(self), old(self).tx_queue_view()[i]))
                ==> r is Ok && final(self).tx_queue_view().len() == 0,
    {
        self.process_all_queues_with_timeout(0)
    }

    /// One maintenance cycle: time sync, discovery, then both queues for up
    /// to `timeout_ms` milliseconds.
    pub fn periodic(&mut self, timeout_ms: u32) -> (r: TelemetryResult<()>)
        requires
            old(self).wf(),
        ensures
            final(self).wf(),
            final(self).num_sides() == old(self).num_sides(),
            timeout_ms == 0 && r is Ok ==> final(self).rx_queue_view().len() == 0
                && final(self).tx_queue_view().len() == 0,
            old(self).timesync_cfg() is None && old(self).num_sides() == 0 && old(self).rx_queue_view().len() == 0
                && old(self).tx_queue_view().len() == 0 ==> r is Ok && same_routing(old(self), final(self)),
    {
        let _ = self.poll_timesync()?;
        let _ = self.poll_discovery()?;
        self.process_all_queues_impl(timeout_ms)
    }

    /// One maintenance cycle without time sync: discovery, then both queues.
    pub fn periodic_no_timesync(&mut self, timeout_ms: u32) -> (r: TelemetryResult<()>)
        requires
            old(self).wf(),
        ensures
            final(self).wf(),
            final(self).num_sides() == old(self).num_sides(),
            timeout_ms == 0 && r is Ok ==> final(self).rx_queue_view().len() == 0
                && final(self).tx_queue_view().len() == 0,
            old(self).num_sides() == 0 && old(self).rx_queue_view().len() == 0 && old(self).tx_queue_view().len() == 0
                ==> r is Ok && same_routing(old(self), final(self)),
    {
        let _ = self.poll_discovery()?;
        self.process_all_queues_impl(timeout_ms)
    }
}

} // verus!
