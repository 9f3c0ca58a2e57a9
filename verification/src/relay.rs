//! The relay: packets received on one side are fanned out to the other
//! sides, through a receive and a transmit queue, with duplicate suppression,
//! discovery-driven routing and end-to-end acknowledgement tracking.
use vstd::prelude::*;
use vstd::std_specs::cmp::PartialEqSpec;
use vstd::string::StringSliceAdditionalSpecFns;

use crate::config::{
    canonical_endpoints, contains_endpoint, spec_canonical_endpoints, DataEndpoint, DataType,
    MAX_QUEUE_SIZE, MAX_RECENT_RX_IDS, QUEUE_GROW_DEN, QUEUE_GROW_NUM, STARTING_QUEUE_SIZE,
    STARTING_RECENT_RX_IDS,
};
use crate::discovery::{
    self, read_u32_le, DiscoveryCadenceState, TopologySideRoute, TopologySnapshot,
    DISCOVERY_ROUTE_TTL_MS,
};
use crate::le_bytes::{hash_bytes_u64, le_value, spec_hash_bytes, HASH_SEED};
use crate::queue::{
    lemma_suffix_drop_first, lemma_suffix_push, lemma_suffix_refl, lemma_suffix_trans_push, suffix_of, BoundedDeque, ByteCost,
};
use crate::router::{
    side_handoff, spec_all_link_local, spec_item_id, Clock, Delivery, ItemModel, PacketHandler, RemoteSidePlan,
    RouterItem, SerializedHandler,
};
use crate::serialize;
use crate::telemetry_packet::{spec_packet_cost, PacketModel, TelemetryPacket};
use crate::text::str_eq;
use crate::{is_reliable_type, TelemetryError, TelemetryResult};

verus! {

/// Index of a relay side.
pub type RelaySideId = usize;

/// The transmit handler of a relay side: on wire bytes or on packets.
pub enum RelayTxHandlerFn {
    Serialized(Box<dyn SerializedHandler>),
    Packet(Box<dyn PacketHandler>),
}

/// Options of a relay side.
#[derive(Debug, Clone, Copy, PartialEq, Eq, Structural)]
pub struct RelaySideOptions {
    /// Reliable delivery requested for the side.
    pub reliable_enabled: bool,
    /// Link-local-only endpoints may be sent over this side.
    pub link_local_enabled: bool,
}

impl Default for RelaySideOptions {
    fn default() -> (r: Self)
        ensures
            !r.reliable_enabled,
            !r.link_local_enabled,
    {
        RelaySideOptions { reliable_enabled: false, link_local_enabled: false }
    }
}

/// One side of the relay: a name, a transmit handler and options.
pub struct RelaySide {
    pub name: &'static str,
    pub tx_handler: RelayTxHandlerFn,
    pub opts: RelaySideOptions,
}

/// A unit of relayed data: a packet or its wire bytes.
pub type RelayItem = RouterItem;

/// Queue cost of a relayed item: the packet cost, or the length of the bytes.
pub open spec fn relay_item_cost(m: ItemModel) -> nat {
    match m {
        ItemModel::Packet(p) => spec_packet_cost(p),
        ItemModel::Serialized(b) => b.len(),
    }
}

fn relay_item_byte_cost(d: &RelayItem) -> (r: usize)
    ensures
        r == relay_item_cost(d@),
{
    match d {
        RouterItem::Packet(p) => p.byte_cost(),
        RouterItem::Serialized(b) => b.len(),
    }
}

/// An item received from a side.
struct RelayRxItem {
    src: RelaySideId,
    data: RelayItem,
}

/// An item to transmit on one side.
struct RelayTxItem {
    dst: RelaySideId,
    data: RelayItem,
}

impl ByteCost for RelayRxItem {
    closed spec fn spec_byte_cost(&self) -> nat {
        relay_item_cost(self.data@)
    }

    fn byte_cost(&self) -> (r: usize) {
        relay_item_byte_cost(&self.data)
    }
}

impl ByteCost for RelayTxItem {
    closed spec fn spec_byte_cost(&self) -> nat {
        relay_item_cost(self.data@)
    }

    fn byte_cost(&self) -> (r: usize) {
        relay_item_byte_cost(&self.data)
    }
}

/// Model of a queued received item.
pub struct RelayRxModel {
    pub src: RelaySideId,
    pub data: ItemModel,
}

/// Model of a queued transmission.
pub struct RelayTxModel {
    pub dst: RelaySideId,
    pub data: ItemModel,
}

spec fn rx_item_model(x: RelayRxItem) -> RelayRxModel {
    RelayRxModel { src: x.src, data: x.data@ }
}

spec fn tx_item_model(x: RelayTxItem) -> RelayTxModel {
    RelayTxModel { dst: x.dst, data: x.data@ }
}

// ---------------------------------------------------------------------------
// End-to-end acknowledgements
// ---------------------------------------------------------------------------

/// Sender name of the relay's own packets.
pub const RELAY_SENDER: &'static str = "RELAY";

/// Bytes of `E2EACK`, the sender of an end-to-end acknowledgement.
pub open spec fn e2e_ack_sender_bytes() -> Seq<u8> {
    seq![69u8, 50u8, 69u8, 65u8, 67u8, 75u8]
}

/// Bytes of `E2EACK:`, the prefix of a named end-to-end acknowledger.
pub open spec fn e2e_ack_prefix_bytes() -> Seq<u8> {
    seq![69u8, 50u8, 69u8, 65u8, 67u8, 75u8, 58u8]
}

/// Whether a sender (as UTF-8 bytes) marks an end-to-end acknowledgement:
/// it is `E2EACK` or starts with `E2EACK:`.
pub open spec fn spec_is_e2e_ack_sender(s: Seq<u8>) -> bool {
    s == e2e_ack_sender_bytes() || (s.len() >= 7 && s.take(7) == e2e_ack_prefix_bytes())
}

/// Hash seed of acknowledging sender names.
pub const SENDER_HASH_SEED: u64 = 0x517C_C1B7_2722_0A95u64;

/// Identifier of the acknowledging destination named after `E2EACK:`, if a
/// non-empty name follows the prefix.
pub open spec fn spec_e2e_ack_sender_hash(s: Seq<u8>) -> Option<u64> {
    if s.len() > 7 && s.take(7) == e2e_ack_prefix_bytes() {
        Some(spec_hash_bytes(SENDER_HASH_SEED, s.skip(7)))
    } else {
        None
    }
}

/// The acknowledged packet identifier carried by an end-to-end
/// acknowledgement payload (8 little-endian bytes).
pub open spec fn spec_decode_e2e_ack(payload: Seq<u8>) -> TelemetryResult<u64> {
    if payload.len() != 8 {
        Err(TelemetryError::Deserialize("bad reliable e2e ack payload"))
    } else {
        Ok(le_value(payload) as u64)
    }
}

fn has_e2e_prefix(b: &[u8]) -> (r: bool)
    ensures
        r == (b@.len() >= 7 && b@.take(7) == e2e_ack_prefix_bytes()),
{
    if b.len() < 7 {
        return false;
    }
    let r = b[0] == 69 && b[1] == 50 && b[2] == 69 && b[3] == 65 && b[4] == 67 && b[5] == 75
        && b[6] == 58;
    proof {
        if r {
            assert(b@.take(7) =~= e2e_ack_prefix_bytes());
        } else {
            if b@.take(7) == e2e_ack_prefix_bytes() {
                assert(b@.take(7)[0] == b@[0]);
                assert(b@.take(7)[1] == b@[1]);
                assert(b@.take(7)[2] == b@[2]);
                assert(b@.take(7)[3] == b@[3]);
                assert(b@.take(7)[4] == b@[4]);
                assert(b@.take(7)[5] == b@[5]);
                assert(b@.take(7)[6] == b@[6]);
            }
        }
    }
    r
}

/// Whether `sender` marks an end-to-end acknowledgement.
fn is_end_to_end_ack_sender(sender: &str) -> (r: bool)
    ensures
        r == spec_is_e2e_ack_sender(sender.spec_bytes()),
{
    let b = sender.as_bytes();
    let exact = b.len() == 6 && b[0] == 69 && b[1] == 50 && b[2] == 69 && b[3] == 65 && b[4] == 67
        && b[5] == 75;
    proof {
        if exact {
            assert(b@ =~= e2e_ack_sender_bytes());
        } else if b@ == e2e_ack_sender_bytes() {
            assert(b@[0] == 69u8 && b@[1] == 50u8 && b@[2] == 69u8);
            assert(b@[3] == 65u8 && b@[4] == 67u8 && b@[5] == 75u8);
        }
    }
    exact || has_e2e_prefix(b)
}

/// Hash of an acknowledging sender name.
fn sender_hash(sender: &[u8]) -> (r: u64)
    ensures
        r == spec_hash_bytes(SENDER_HASH_SEED, sender@),
{
    hash_bytes_u64(SENDER_HASH_SEED, sender)
}

/// The destination identifier named by an `E2EACK:<name>` sender.
fn decode_end_to_end_ack_sender_hash(sender: &str) -> (r: Option<u64>)
    ensures
        r == spec_e2e_ack_sender_hash(sender.spec_bytes()),
{
    let b = sender.as_bytes();
    if b.len() > 7 && has_e2e_prefix(b) {
        let rest = vstd::slice::slice_subrange(b, 7, b.len());
        assert(rest@ =~= b@.skip(7));
        Some(sender_hash(rest))
    } else {
        None
    }
}

/// The packet identifier acknowledged by an end-to-end acknowledgement.
fn decode_end_to_end_reliable_ack(payload: &[u8]) -> (r: TelemetryResult<u64>)
    ensures
        r == spec_decode_e2e_ack(payload@),
{
    if payload.len() != 8 {
        return Err(TelemetryError::Deserialize("bad reliable e2e ack payload"));
    }
    let v = crate::le_bytes::read_u64_le(payload, 0);
    assert(payload@.subrange(0, 8) =~= payload@);
    Ok(v)
}

/// Whether `sender` names a destination that acknowledges end to end: not
/// the relay itself and not an acknowledgement sender.
fn is_end_to_end_destination_sender(sender: &str) -> (r: bool)
    ensures
        r == (sender@ != RELAY_SENDER@ && !spec_is_e2e_ack_sender(sender.spec_bytes())),
{
    !str_eq(sender, RELAY_SENDER) && !is_end_to_end_ack_sender(sender)
}

/// Whether `ty` is a control message that the relay consumes or that is
/// never acknowledged end to end.
pub open spec fn spec_relay_control(ty: DataType) -> bool {
    ty == DataType::ReliableAck || ty == DataType::ReliablePacketRequest
        || ty == DataType::TimeSyncAnnounce || ty == DataType::TimeSyncRequest
        || ty == DataType::TimeSyncResponse || ty == DataType::DiscoveryAnnounce
}

fn is_internal_control_type(ty: DataType) -> (r: bool)
    ensures
        r == spec_relay_control(ty),
{
    match ty {
        DataType::ReliableAck | DataType::ReliablePacketRequest | DataType::TimeSyncAnnounce
        | DataType::TimeSyncRequest | DataType::TimeSyncResponse | DataType::DiscoveryAnnounce => true,
        _ => false,
    }
}

/// The packet that an end-to-end acknowledgement item acknowledges:
/// `None` unless the item is a `ReliableAck` from an acknowledgement sender.
pub open spec fn spec_ack_target_of_packet(p: PacketModel) -> TelemetryResult<Option<u64>> {
    if p.ty != DataType::ReliableAck || !spec_is_e2e_ack_sender(p.sender_bytes()) {
        Ok(None)
    } else {
        match spec_decode_e2e_ack(p.payload) {
            Ok(id) => Ok(Some(id)),
            Err(e) => Err(e),
        }
    }
}

/// [`spec_ack_target_of_packet`] of a relayed item; wire bytes are decoded
/// first.
pub open spec fn spec_ack_target(d: ItemModel) -> TelemetryResult<Option<u64>> {
    match d {
        ItemModel::Packet(p) => spec_ack_target_of_packet(p),
        ItemModel::Serialized(b) => match serialize::spec_deserialize(b) {
            Ok(p) => spec_ack_target_of_packet(p),
            Err(e) => Err(e),
        },
    }
}

fn ack_target_of_packet(pkt: &TelemetryPacket) -> (r: TelemetryResult<Option<u64>>)
    ensures
        r == spec_ack_target_of_packet(pkt@),
{
    if pkt.data_type() != DataType::ReliableAck || !is_end_to_end_ack_sender(pkt.sender()) {
        return Ok(None);
    }
    match decode_end_to_end_reliable_ack(pkt.payload()) {
        Ok(id) => Ok(Some(id)),
        Err(e) => Err(e),
    }
}

fn reliable_control_target_packet_id(data: &RelayItem) -> (r: TelemetryResult<Option<u64>>)
    ensures
        r == spec_ack_target(data@),
{
    match data {
        RouterItem::Packet(pkt) => ack_target_of_packet(pkt),
        RouterItem::Serialized(bytes) => {
            let pkt = serialize::deserialize_packet(bytes.as_slice())?;
            ack_target_of_packet(&pkt)
        },
    }
}

// ---------------------------------------------------------------------------
// Relay state
// ---------------------------------------------------------------------------

/// What one announcer behind a side has advertised.
struct AnnouncerState {
    sender: String,
    reachable: Vec<DataEndpoint>,
    sources: Vec<String>,
    last_seen_ms: u64,
}

/// An announcer that is an end-to-end destination whose sender hashes to
/// `h`.
spec fn active_announcer(a: AnnouncerState, h: u64) -> bool {
    &&& a.sender@ != RELAY_SENDER@
    &&& !spec_is_e2e_ack_sender(vstd::utf8::encode_utf8(a.sender@))
    &&& spec_hash_bytes(SENDER_HASH_SEED, vstd::utf8::encode_utf8(a.sender@)) == h
}

/// Identifier of a relayed item for end-to-end acknowledgements.
spec fn e2e_packet_id(d: ItemModel) -> TelemetryResult<u64> {
    match d {
        ItemModel::Packet(p) => Ok(crate::telemetry_packet::spec_packet_id(p)),
        ItemModel::Serialized(b) => serialize::spec_packet_id_from_wire(b),
    }
}

/// A learned route: the announcers behind a side and the union of what
/// they advertise.
struct RelayRoute {
    side: RelaySideId,
    announcers: Vec<AnnouncerState>,
    reachable: Vec<DataEndpoint>,
    sources: Vec<String>,
    last_seen_ms: u64,
}

/// `i` is where a route for `side` goes: after every route of a smaller
/// side.
spec fn relay_route_slot(s: Seq<RelayRoute>, side: RelaySideId, i: int) -> bool {
    &&& 0 <= i <= s.len()
    &&& forall|j: int| 0 <= j < i ==> (#[trigger] s[j]).side < side
    &&& i < s.len() ==> s[i].side >= side
}

/// `new` is `old` with the end-to-end acknowledgement of packet `id` by the
/// destination whose sender hashes to `h` recorded: added to the first
/// entry for `id` (once), or in a new entry at the end.
spec fn ack_recorded(old: Seq<AckedDestinations>, new: Seq<AckedDestinations>, id: u64, h: u64) -> bool {
    if exists|i: int| 0 <= i < old.len() && (#[trigger] old[i]).packet_id == id {
        let i = choose|i: int| 0 <= i < old.len() && (#[trigger] old[i]).packet_id == id && forall|j: int|
            0 <= j < i ==> (#[trigger] old[j]).packet_id != id;
        &&& new.len() == old.len()
        &&& forall|j: int| 0 <= j < old.len() && j != i ==> #[trigger] new[j] == old[j]
        &&& new[i].packet_id == id
        &&& new[i].senders@ == (if old[i].senders@.contains(h) { old[i].senders@ } else { old[i].senders@.push(h) })
    } else {
        &&& new.len() == old.len() + 1
        &&& new.take(old.len() as int) == old
        &&& new[old.len() as int].packet_id == id
        &&& new[old.len() as int].senders@ == seq![h]
    }
}

/// The side on which a reliable packet arrived, for routing its
/// acknowledgement back.
struct ReturnRoute {
    packet_id: u64,
    side: RelaySideId,
}

/// The destinations that acknowledged a packet end to end.
struct AckedDestinations {
    packet_id: u64,
    senders: Vec<u64>,
}

/// The relay.
pub struct Relay {
    sides: Vec<RelaySide>,
    rx_queue: BoundedDeque<RelayRxItem>,
    tx_queue: BoundedDeque<RelayTxItem>,
    recent_rx: BoundedDeque<u64>,
    routes: Vec<RelayRoute>,
    return_routes: Vec<ReturnRoute>,
    acked: Vec<AckedDestinations>,
    cadence: DiscoveryCadenceState,
    clock: Box<dyn Clock>,
    handed: Ghost<Seq<Delivery>>,
}

impl Relay {
    /// Internal consistency: queue budgets, and every queued item, learned
    /// route and return route names an existing side.
    pub closed spec fn wf(&self) -> bool {
        &&& self.rx_queue.wf()
        &&& self.tx_queue.wf()
        &&& self.recent_rx.wf()
        &&& self.rx_queue.spec_max_bytes() == MAX_QUEUE_SIZE
        &&& self.tx_queue.spec_max_bytes() == MAX_QUEUE_SIZE
        &&& self.recent_rx.spec_max_bytes() == MAX_RECENT_RX_IDS * 8
        &&& forall|i: int| 0 <= i < self.rx_queue@.len() ==> #[trigger] self.rx_queue@[i].src < self.sides@.len()
        &&& forall|i: int| 0 <= i < self.tx_queue@.len() ==> #[trigger] self.tx_queue@[i].dst < self.sides@.len()
        &&& forall|i: int| 0 <= i < self.routes@.len() ==> #[trigger] self.routes@[i].side < self.sides@.len()
        &&& forall|i: int|
            0 <= i < self.return_routes@.len() ==> #[trigger] self.return_routes@[i].side < self.sides@.len()
    }

    /// The receive queue, front first.
    pub closed spec fn rx_queue_view(&self) -> Seq<RelayRxModel> {
        self.rx_queue@.map_values(|x: RelayRxItem| rx_item_model(x))
    }

    /// The transmit queue, front first.
    pub closed spec fn tx_queue_view(&self) -> Seq<RelayTxModel> {
        self.tx_queue@.map_values(|x: RelayTxItem| tx_item_model(x))
    }

    /// Identifiers of recently relayed items, oldest first.
    pub closed spec fn recent_ids(&self) -> Seq<u64> {
        self.recent_rx@
    }

    /// Number of sides.
    pub closed spec fn num_sides(&self) -> nat {
        self.sides@.len()
    }

    /// The side of learned route `i`.
    pub closed spec fn learned_side(&self, i: int) -> RelaySideId {
        self.routes@[i].side
    }

    /// The endpoints learned route `i` reaches.
    pub closed spec fn learned_reachable(&self, i: int) -> Seq<DataEndpoint> {
        self.routes@[i].reachable@
    }

    /// When learned route `i` was last heard.
    pub closed spec fn learned_last_seen(&self, i: int) -> u64 {
        self.routes@[i].last_seen_ms
    }

    /// The time sources learned route `i` reaches.
    pub closed spec fn learned_sources(&self, i: int) -> Seq<Seq<char>> {
        self.routes@[i].sources@.map_values(|x: String| x@)
    }

    /// Whether side `s` allows link-local traffic.
    pub closed spec fn side_link_local(&self, s: int) -> bool {
        self.sides@[s].opts.link_local_enabled
    }

    /// The hand-offs of items to side transmit handlers made so far, oldest
    /// first.
    pub closed spec fn deliveries(&self) -> Seq<Delivery> {
        self.handed@
    }

    /// The transmit handler of side `s` takes packets (not bytes).
    pub closed spec fn side_takes_packets(&self, s: int) -> bool {
        self.sides@[s].tx_handler is Packet
    }

    /// Every queued transmission names an existing side.
    pub proof fn lemma_tx_targets_exist(&self)
        requires
            self.wf(),
        ensures
            forall|i: int| 0 <= i < self.tx_queue_view().len() ==> #[trigger] self.tx_queue_view()[i].dst < self.num_sides(),
            forall|i: int| 0 <= i < self.rx_queue_view().len() ==> #[trigger] self.rx_queue_view()[i].src < self.num_sides(),
    {
    }

    /// A relay timed by `clock`, with no sides and empty queues.
    pub fn new(clock: Box<dyn Clock>) -> (r: Self)
        ensures
            r.wf(),
            r.num_sides() == 0,
            r.rx_queue_view().len() == 0,
            r.tx_queue_view().len() == 0,
            r.recent_ids().len() == 0,
    {
        let r = Relay {
            sides: Vec::new(),
            rx_queue: BoundedDeque::new(MAX_QUEUE_SIZE, STARTING_QUEUE_SIZE, QUEUE_GROW_NUM, QUEUE_GROW_DEN),
            tx_queue: BoundedDeque::new(MAX_QUEUE_SIZE, STARTING_QUEUE_SIZE, QUEUE_GROW_NUM, QUEUE_GROW_DEN),
            recent_rx: BoundedDeque::new(MAX_RECENT_RX_IDS * 8, STARTING_RECENT_RX_IDS * 8, QUEUE_GROW_NUM, QUEUE_GROW_DEN),
            routes: Vec::new(),
            return_routes: Vec::new(),
            acked: Vec::new(),
            cadence: DiscoveryCadenceState::default(),
            clock,
            handed: Ghost(Seq::empty()),
        };
        assert(r.rx_queue_view() =~= Seq::<RelayRxModel>::empty());
        assert(r.tx_queue_view() =~= Seq::<RelayTxModel>::empty());
        r
    }

    fn add_side(&mut self, name: &'static str, tx_handler: RelayTxHandlerFn, opts: RelaySideOptions) -> (r: RelaySideId)
        requires
            old(self).wf(),
        ensures
            final(self).wf(),
            r == old(self).num_sides(),
            final(self).num_sides() == old(self).num_sides() + 1,
            final(self).rx_queue_view() == old(self).rx_queue_view(),
            final(self).tx_queue_view() == old(self).tx_queue_view(),
            final(self).recent_ids() == old(self).recent_ids(),
    {
        let id = self.sides.len();
        self.sides.push(RelaySide { name, tx_handler, opts });
        let now = self.clock.now_ms();
        self.cadence.on_topology_change(now);
        proof {
            assert forall|i: int| 0 <= i < self.tx_queue@.len() implies #[trigger] self.tx_queue@[i].dst < self.sides@.len() by {
                assert(old(self).tx_queue@[i].dst < old(self).sides@.len());
            }
            assert forall|i: int| 0 <= i < self.rx_queue@.len() implies #[trigger] self.rx_queue@[i].src < self.sides@.len() by {
                assert(old(self).rx_queue@[i].src < old(self).sides@.len());
            }
            assert forall|i: int| 0 <= i < self.routes@.len() implies #[trigger] self.routes@[i].side < self.sides@.len() by {
                assert(old(self).routes@[i].side < old(self).sides@.len());
            }
            assert forall|i: int| 0 <= i < self.return_routes@.len() implies #[trigger] self.return_routes@[i].side < self.sides@.len() by {
                assert(old(self).return_routes@[i].side < old(self).sides@.len());
            }
        }
        id
    }

    /// Add a side whose transmit handler takes wire bytes; returns its index.
    pub fn add_side_serialized(&mut self, name: &'static str, tx: Box<dyn SerializedHandler>) -> (r: RelaySideId)
        requires
            old(self).wf(),
        ensures
            final(self).wf(),
            r == old(self).num_sides(),
            final(self).num_sides() == old(self).num_sides() + 1,
            final(self).rx_queue_view() == old(self).rx_queue_view(),
            final(self).tx_queue_view() == old(self).tx_queue_view(),
            final(self).recent_ids() == old(self).recent_ids(),
    {
        self.add_side(name, RelayTxHandlerFn::Serialized(tx), RelaySideOptions::default())
    }

    /// Add a byte side with explicit options; returns its index.
    pub fn add_side_serialized_with_options(&mut self, name: &'static str, tx: Box<dyn SerializedHandler>, opts: RelaySideOptions) -> (r: RelaySideId)
        requires
            old(self).wf(),
        ensures
            final(self).wf(),
            r == old(self).num_sides(),
            final(self).num_sides() == old(self).num_sides() + 1,
            final(self).rx_queue_view() == old(self).rx_queue_view(),
            final(self).tx_queue_view() == old(self).tx_queue_view(),
            final(self).recent_ids() == old(self).recent_ids(),
    {
        self.add_side(name, RelayTxHandlerFn::Serialized(tx), opts)
    }

    /// Add a side whose transmit handler takes packets; returns its index.
    pub fn add_side_packet(&mut self, name: &'static str, tx: Box<dyn PacketHandler>) -> (r: RelaySideId)
        requires
            old(self).wf(),
        ensures
            final(self).wf(),
            r == old(self).num_sides(),
            final(self).num_sides() == old(self).num_sides() + 1,
            final(self).rx_queue_view() == old(self).rx_queue_view(),
            final(self).tx_queue_view() == old(self).tx_queue_view(),
            final(self).recent_ids() == old(self).recent_ids(),
    {
        self.add_side(name, RelayTxHandlerFn::Packet(tx), RelaySideOptions::default())
    }

    /// Add a packet side with explicit options; returns its index.
    pub fn add_side_packet_with_options(&mut self, name: &'static str, tx: Box<dyn PacketHandler>, opts: RelaySideOptions) -> (r: RelaySideId)
        requires
            old(self).wf(),
        ensures
            final(self).wf(),
            r == old(self).num_sides(),
            final(self).num_sides() == old(self).num_sides() + 1,
            final(self).rx_queue_view() == old(self).rx_queue_view(),
            final(self).tx_queue_view() == old(self).tx_queue_view(),
            final(self).recent_ids() == old(self).recent_ids(),
    {
        self.add_side(name, RelayTxHandlerFn::Packet(tx), opts)
    }

    /// Empty both queues without processing them.
    pub fn clear_queues(&mut self)
        requires
            old(self).wf(),
        ensures
            final(self).wf(),
            final(self).num_sides() == old(self).num_sides(),
            final(self).rx_queue_view().len() == 0,
            final(self).tx_queue_view().len() == 0,
            final(self).recent_ids() == old(self).recent_ids(),
    {
        self.rx_queue.clear();
        self.tx_queue.clear();
    }

    /// Empty the receive queue without processing it.
    pub fn clear_rx_queue(&mut self)
        requires
            old(self).wf(),
        ensures
            final(self).wf(),
            final(self).num_sides() == old(self).num_sides(),
            final(self).rx_queue_view().len() == 0,
            final(self).tx_queue_view() == old(self).tx_queue_view(),
            final(self).recent_ids() == old(self).recent_ids(),
    {
        self.rx_queue.clear();
    }

    /// Empty the transmit queue without processing it.
    pub fn clear_tx_queue(&mut self)
        requires
            old(self).wf(),
        ensures
            final(self).wf(),
            final(self).num_sides() == old(self).num_sides(),
            final(self).tx_queue_view().len() == 0,
            final(self).rx_queue_view() == old(self).rx_queue_view(),
            final(self).recent_ids() == old(self).recent_ids(),
    {
        self.tx_queue.clear();
    }

    fn push_rx(&mut self, src: RelaySideId, data: RelayItem) -> (r: TelemetryResult<()>)
        requires
            old(self).wf(),
            src < old(self).num_sides(),
        ensures
            final(self).wf(),
            final(self).num_sides() == old(self).num_sides(),
            final(self).tx_queue_view() == old(self).tx_queue_view(),
            final(self).recent_ids() == old(self).recent_ids(),
            relay_item_cost(data@) > MAX_QUEUE_SIZE ==> (r matches Err(TelemetryError::PacketTooLarge(m))
                && final(self).rx_queue_view() == old(self).rx_queue_view()),
            relay_item_cost(data@) <= MAX_QUEUE_SIZE ==> (r is Ok && final(self).rx_queue_view().last()
                == (RelayRxModel { src, data: data@ }) && final(self).rx_queue_view().len() >= 1
                && final(self).rx_queue_view().len() <= old(self).rx_queue_view().len() + 1),
    {
        let item = RelayRxItem { src, data };
        let r = self.rx_queue.push_back(item);
        proof {
            let s = self.rx_queue@;
            if relay_item_cost(data@) <= MAX_QUEUE_SIZE {
                assert(self.rx_queue_view().last() == rx_item_model(s.last()));
                assert(self.rx_queue_view().len() == s.len());
                let e = crate::queue::push_evictions(old(self).rx_queue@, item.spec_byte_cost(),
                    old(self).rx_queue.spec_max_bytes(), old(self).rx_queue.spec_max_elems());
                assert forall|i: int| 0 <= i < s.len() implies #[trigger] s[i].src < self.sides@.len() by {
                    if i < s.len() - 1 {
                        assert(s[i] == old(self).rx_queue@[i + e]);
                    }
                }
            } else {
                assert(self.rx_queue_view() =~= old(self).rx_queue_view());
            }
        }
        r
    }

    /// Queue wire bytes received on side `src`.
    ///
    /// Fails with `HandlerError("relay: invalid side id")` for an unknown
    /// side, with the header decoding error for bytes whose header does not
    /// decode, and with `PacketTooLarge` for bytes longer than the queue
    /// budget.
    pub fn rx_serialized_from_side(&mut self, src: RelaySideId, bytes: &[u8]) -> (r: TelemetryResult<()>)
        requires
            old(self).wf(),
        ensures
            final(self).wf(),
            final(self).num_sides() == old(self).num_sides(),
            final(self).tx_queue_view() == old(self).tx_queue_view(),
            final(self).recent_ids() == old(self).recent_ids(),
            src >= old(self).num_sides() ==> r == Err::<(), TelemetryError>(TelemetryError::HandlerError("relay: invalid side id"))
                && final(self).rx_queue_view() == old(self).rx_queue_view(),
            src < old(self).num_sides() ==> match serialize::spec_peek(bytes@) {
                Err(e) => r == Err::<(), TelemetryError>(e) && final(self).rx_queue_view() == old(self).rx_queue_view(),
                Ok(_) => if bytes@.len() <= MAX_QUEUE_SIZE {
                    r is Ok && final(self).rx_queue_view().last() == (RelayRxModel { src, data: ItemModel::Serialized(bytes@) })
                } else {
                    r is Err && final(self).rx_queue_view() == old(self).rx_queue_view()
                },
            },
    {
        if src >= self.sides.len() {
            return Err(TelemetryError::HandlerError("relay: invalid side id"));
        }
        let _ = serialize::peek_envelope(bytes)?;
        let data = RouterItem::Serialized(vstd::slice::slice_to_vec(bytes));
        self.push_rx(src, data)
    }

    /// Queue a packet received on side `src`.
    ///
    /// Fails with `HandlerError("relay: invalid side id")` for an unknown
    /// side and with `PacketTooLarge` for a packet costing more than the
    /// queue budget.
    pub fn rx_from_side(&mut self, src: RelaySideId, packet: TelemetryPacket) -> (r: TelemetryResult<()>)
        requires
            old(self).wf(),
        ensures
            final(self).wf(),
            final(self).num_sides() == old(self).num_sides(),
            final(self).tx_queue_view() == old(self).tx_queue_view(),
            final(self).recent_ids() == old(self).recent_ids(),
            src >= old(self).num_sides() ==> r == Err::<(), TelemetryError>(TelemetryError::HandlerError("relay: invalid side id"))
                && final(self).rx_queue_view() == old(self).rx_queue_view(),
            src < old(self).num_sides() && spec_packet_cost(packet@) <= MAX_QUEUE_SIZE ==> r is Ok
                && final(self).rx_queue_view().last() == (RelayRxModel { src, data: ItemModel::Packet(packet@) }),
            src < old(self).num_sides() && spec_packet_cost(packet@) > MAX_QUEUE_SIZE ==> r is Err
                && final(self).rx_queue_view() == old(self).rx_queue_view(),
    {
        if src >= self.sides.len() {
            return Err(TelemetryError::HandlerError("relay: invalid side id"));
        }
        self.push_rx(src, RouterItem::Packet(packet))
    }
}


// ---------------------------------------------------------------------------
// Transmit queue and fan-out
// ---------------------------------------------------------------------------


/// `b` has the queues and recent identifiers of `a`.
pub open spec fn idle_unchanged(a: &Relay, b: &Relay) -> bool {
    &&& b.rx_queue_view() == a.rx_queue_view()
    &&& b.tx_queue_view() == a.tx_queue_view()
    &&& b.recent_ids() == a.recent_ids()
}

/// A transmission of a discovery packet.
pub open spec fn relay_discovery_tx(m: RelayTxModel) -> bool {
    m.data matches ItemModel::Packet(p) && (p.ty == DataType::DiscoveryAnnounce || p.ty
        == DataType::DiscoveryTimeSyncSources)
}

/// Queue entry of the discovery announce of endpoints `eps` to side `d`,
/// stamped `now_ms`.
pub open spec fn announce_tx(d: RelaySideId, now_ms: u64, eps: Seq<DataEndpoint>) -> RelayTxModel {
    RelayTxModel {
        dst: d,
        data: ItemModel::Packet(
            crate::telemetry_packet::spec_new(
                DataType::DiscoveryAnnounce,
                seq![DataEndpoint::Discovery],
                RELAY_SENDER@,
                now_ms,
                crate::le_bytes::spec_encode_le(discovery::endpoint_words(eps)),
            )->Ok_0,
        ),
    }
}

/// Queue entry of the time source list `srcs` sent to side `d`, stamped
/// `now_ms`.
pub open spec fn sources_tx(d: RelaySideId, now_ms: u64, srcs: Seq<Seq<char>>) -> RelayTxModel {
    RelayTxModel {
        dst: d,
        data: ItemModel::Packet(
            crate::telemetry_packet::spec_new(
                DataType::DiscoveryTimeSyncSources,
                seq![DataEndpoint::Discovery],
                RELAY_SENDER@,
                now_ms,
                discovery::sources_payload(discovery::sort_dedup(srcs)),
            )->Ok_0,
        ),
    }
}

/// What an announce round at `now_ms` queues for side `d` of `r`: the
/// announce of the endpoints advertised to it, where there are any, then
/// the time source list `srcs`, where it is not empty.
pub closed spec fn side_round(r: &Relay, now_ms: u64, srcs: Seq<Seq<char>>, d: int) -> Seq<RelayTxModel> {
    let eps = advertised_for(r, now_ms, r.sides@[d].opts.link_local_enabled);
    (if eps.len() > 0 {
        seq![announce_tx(d as usize, now_ms, eps)]
    } else {
        Seq::empty()
    }) + (if srcs.len() > 0 {
        seq![sources_tx(d as usize, now_ms, srcs)]
    } else {
        Seq::empty()
    })
}

/// What an announce round at `now_ms` queues for the first `n` sides of
/// `r`, side after side.
pub open spec fn round_items(r: &Relay, now_ms: u64, srcs: Seq<Seq<char>>, n: nat) -> Seq<RelayTxModel>
    decreases n,
{
    if n == 0 {
        Seq::empty()
    } else {
        round_items(r, now_ms, srcs, (n - 1) as nat) + side_round(r, now_ms, srcs, n - 1)
    }
}

/// An announce round depends on the sides and routes alone.
proof fn lemma_round_items_same(a: &Relay, b: &Relay, now_ms: u64, srcs: Seq<Seq<char>>, n: nat)
    requires
        a.sides == b.sides,
        a.routes == b.routes,
    ensures
        round_items(a, now_ms, srcs, n) == round_items(b, now_ms, srcs, n),
    decreases n,
{
    if n > 0 {
        lemma_round_items_same(a, b, now_ms, srcs, (n - 1) as nat);
        assert(side_round(a, now_ms, srcs, n - 1) == side_round(b, now_ms, srcs, n - 1));
    }
}

/// The time sources the fresh routes of `r` name at `now_ms`, sorted
/// without repeats, are `srcs`.
pub closed spec fn fresh_sources_are(r: &Relay, now_ms: u64, srcs: Seq<Seq<char>>) -> bool {
    &&& discovery::strictly_sorted(srcs)
    &&& forall|y: Seq<char>| #[trigger] srcs.contains(y) <==> fresh_source(r.routes@, now_ms, r.routes@.len() as int, y)
}

/// From `a` to `b`, one announce round at `now_ms` was queued in full,
/// with `srcs` the time sources of the fresh routes.
pub open spec fn announce_round(a: &Relay, b: &Relay, now_ms: u64, srcs: Seq<Seq<char>>) -> bool {
    &&& fresh_sources_are(b, now_ms, srcs)
    &&& suffix_of(b.tx_queue_view(), a.tx_queue_view() + round_items(b, now_ms, srcs, b.num_sides()))
}

/// The transmit queue of `b` is what remains of that of `a` followed by
/// discovery transmissions, after dropping items from its front.
pub open spec fn relay_discovery_queued(a: &Relay, b: &Relay) -> bool {
    exists|added: Seq<RelayTxModel>|
        #![trigger a.tx_queue_view() + added]
        suffix_of(b.tx_queue_view(), a.tx_queue_view() + added) && forall|i: int|
            0 <= i < added.len() ==> relay_discovery_tx(#[trigger] added[i])
}

/// Leaving the transmit queue as it was queues no discovery transmission.
proof fn lemma_no_relay_discovery_queued(a: &Relay, b: &Relay)
    requires
        b.tx_queue_view() == a.tx_queue_view(),
    ensures
        relay_discovery_queued(a, b),
{
    let added = Seq::<RelayTxModel>::empty();
    lemma_suffix_refl(a.tx_queue_view());
    assert(a.tx_queue_view() + added =~= a.tx_queue_view());
}

/// Discovery transmissions queued after a state with the same transmit
/// queue were queued after this one too.
proof fn lemma_relay_discovery_queued_from(a: &Relay, a2: &Relay, b: &Relay)
    requires
        a.tx_queue_view() == a2.tx_queue_view(),
        relay_discovery_queued(a2, b),
    ensures
        relay_discovery_queued(a, b),
{
    let added = choose|added: Seq<RelayTxModel>|
        #![trigger a2.tx_queue_view() + added]
        suffix_of(b.tx_queue_view(), a2.tx_queue_view() + added) && forall|i: int|
            0 <= i < added.len() ==> relay_discovery_tx(#[trigger] added[i]);
    assert(suffix_of(b.tx_queue_view(), a.tx_queue_view() + added));
}

/// The transmissions of one item to each side of `dsts`, in order.
pub open spec fn fanout_models(dsts: Seq<RelaySideId>, d: ItemModel) -> Seq<RelayTxModel> {
    dsts.map_values(|x: RelaySideId| RelayTxModel { dst: x, data: d })
}

/// Sides `0..n` except `src`, ascending.
pub open spec fn flood_targets(n: nat, src: RelaySideId) -> Seq<RelaySideId>
    decreases n,
{
    if n == 0 {
        Seq::empty()
    } else if (n - 1) as usize == src || n - 1 > usize::MAX {
        flood_targets((n - 1) as nat, src)
    } else {
        flood_targets((n - 1) as nat, src).push((n - 1) as usize)
    }
}

/// A flood never returns an item to the side it came from, and reaches
/// exactly the other sides.
pub proof fn lemma_flood_targets(n: nat, src: RelaySideId)
    requires
        n <= usize::MAX + 1,
    ensures
        forall|i: int| 0 <= i < flood_targets(n, src).len() ==> #[trigger] flood_targets(n, src)[i] != src
            && flood_targets(n, src)[i] < n,
        forall|x: RelaySideId| x < n && x != src ==> flood_targets(n, src).contains(x),
    decreases n,
{
    if n > 0 {
        lemma_flood_targets((n - 1) as nat, src);
        let prev = flood_targets((n - 1) as nat, src);
        if (n - 1) as usize != src && n - 1 <= usize::MAX {
            assert(flood_targets(n, src) == prev.push((n - 1) as usize));
        } else {
            assert(flood_targets(n, src) == prev);
        }
        assert forall|x: RelaySideId| x < n && x != src implies flood_targets(n, src).contains(x) by {
            if x < n - 1 {
                assert(prev.contains(x));
                let k = choose|k: int| 0 <= k < prev.len() && prev[k] == x;
                if (n - 1) as usize == src {
                } else {
                    assert(flood_targets(n, src)[k] == x);
                }
            } else {
                assert(flood_targets(n, src).last() == x);
            }
        }
    }
}

impl Relay {
    fn push_tx(&mut self, dst: RelaySideId, data: RelayItem) -> (r: TelemetryResult<()>)
        requires
            old(self).wf(),
            dst < old(self).num_sides(),
        ensures
            final(self).wf(),
            final(self).sides == old(self).sides,
            final(self).routes == old(self).routes,
            final(self).num_sides() == old(self).num_sides(),
            final(self).rx_queue_view() == old(self).rx_queue_view(),
            final(self).recent_ids() == old(self).recent_ids(),
            relay_item_cost(data@) > MAX_QUEUE_SIZE ==> (r matches Err(TelemetryError::PacketTooLarge(m))
                && final(self).tx_queue_view() == old(self).tx_queue_view()),
            relay_item_cost(data@) <= MAX_QUEUE_SIZE ==> (r is Ok && suffix_of(
                final(self).tx_queue_view(),
                old(self).tx_queue_view().push(RelayTxModel { dst, data: data@ }),
            ) && final(self).tx_queue_view().len() >= 1
                && final(self).tx_queue_view().last() == (RelayTxModel { dst, data: data@ })),
    {
        let item = RelayTxItem { dst, data };
        let r = self.tx_queue.push_back(item);
        proof {
            let s = self.tx_queue@;
            let o = old(self).tx_queue@;
            if relay_item_cost(data@) <= MAX_QUEUE_SIZE {
                let e = crate::queue::push_evictions(o, item.spec_byte_cost(),
                    old(self).tx_queue.spec_max_bytes(), old(self).tx_queue.spec_max_elems());
                assert forall|i: int| 0 <= i < s.len() implies #[trigger] s[i].dst < self.sides@.len() by {
                    if i < s.len() - 1 {
                        assert(s[i] == o[i + e]);
                    }
                }
                let ov = old(self).tx_queue_view();
                let m = RelayTxModel { dst, data: data@ };
                lemma_suffix_refl(ov);
                lemma_suffix_push(ov, ov, e as int, m);
                assert(self.tx_queue_view() =~= ov.skip(e as int).push(m));
            } else {
                assert(self.tx_queue_view() =~= old(self).tx_queue_view());
            }
        }
        r
    }

    /// Queue one copy of `data` for each side of `dsts`, in order.
    fn push_to_sides(&mut self, dsts: &Vec<RelaySideId>, data: &RelayItem) -> (r: TelemetryResult<()>)
        requires
            old(self).wf(),
            forall|i: int| 0 <= i < dsts@.len() ==> #[trigger] dsts@[i] < old(self).num_sides(),
        ensures
            final(self).wf(),
            final(self).num_sides() == old(self).num_sides(),
            final(self).rx_queue_view() == old(self).rx_queue_view(),
            final(self).recent_ids() == old(self).recent_ids(),
            relay_item_cost(data@) <= MAX_QUEUE_SIZE ==> r is Ok && suffix_of(
                final(self).tx_queue_view(),
                old(self).tx_queue_view() + fanout_models(dsts@, data@),
            ),
            relay_item_cost(data@) > MAX_QUEUE_SIZE && dsts@.len() > 0 ==> r is Err,
            dsts@.len() == 0 ==> r is Ok && final(self).tx_queue_view() == old(self).tx_queue_view(),
    {
        let mut k: usize = 0;
        proof {
            lemma_suffix_refl(self.tx_queue_view());
            assert(old(self).tx_queue_view() + fanout_models(dsts@.take(0), data@) =~= old(self).tx_queue_view());
        }
        while k < dsts.len()
            invariant
                self.wf(),
                self.num_sides() == old(self).num_sides(),
                self.rx_queue_view() == old(self).rx_queue_view(),
                self.recent_ids() == old(self).recent_ids(),
                k <= dsts@.len(),
                forall|i: int| 0 <= i < dsts@.len() ==> #[trigger] dsts@[i] < old(self).num_sides(),
                suffix_of(self.tx_queue_view(), old(self).tx_queue_view() + fanout_models(dsts@.take(k as int), data@)),
                k == 0 ==> self.tx_queue_view() == old(self).tx_queue_view(),
                relay_item_cost(data@) > MAX_QUEUE_SIZE ==> k == 0,
            decreases dsts@.len() - k,
        {
            let copy = data.clone();
            let ghost before = self.tx_queue_view();
            let ghost full = old(self).tx_queue_view() + fanout_models(dsts@.take(k as int), data@);
            self.push_tx(dsts[k], copy)?;
            proof {
                let m = RelayTxModel { dst: dsts@[k as int], data: data@ };
                let after = self.tx_queue_view();
                let e = before.len() + 1 - after.len();
                assert(after == before.push(m).skip(e));
                assert(before.push(m).skip(e) =~= before.skip(e).push(m));
                lemma_suffix_push(before, full, e, m);
                assert(fanout_models(dsts@.take(k + 1), data@) =~= fanout_models(dsts@.take(k as int), data@).push(m));
                assert(full.push(m) =~= old(self).tx_queue_view() + fanout_models(dsts@.take(k + 1), data@));
            }
            k = k + 1;
        }
        assert(dsts@.take(k as int) =~= dsts@);
        Ok(())
    }
}

// ---------------------------------------------------------------------------
// Discovery
// ---------------------------------------------------------------------------

fn clone_endpoints(v: &Vec<DataEndpoint>) -> (r: Vec<DataEndpoint>)
    ensures
        r@ == v@,
{
    vstd::slice::slice_to_vec(v.as_slice())
}

impl AnnouncerState {
    fn empty(sender: &str) -> (r: Self)
        ensures
            r.sender@ == sender@,
    {
        AnnouncerState { sender: sender.to_owned(), reachable: Vec::new(), sources: Vec::new(), last_seen_ms: 0 }
    }
}

/// `x` was announced no longer ago than the route lifetime.
spec fn relay_route_fresh(x: RelayRoute, now_ms: u64) -> bool {
    (if now_ms >= x.last_seen_ms { now_ms - x.last_seen_ms } else { 0 }) <= DISCOVERY_ROUTE_TTL_MS
}

/// The endpoints route `x` advertises at `now_ms`, where fresh: those it
/// reaches other than discovery itself, link-local-only ones only where
/// `ll`.
spec fn route_advertises(x: RelayRoute, now_ms: u64, ll: bool) -> Seq<DataEndpoint> {
    if relay_route_fresh(x, now_ms) {
        x.reachable@.filter(|ep: DataEndpoint| ep != DataEndpoint::Discovery && (ll || !ep.spec_link_local_only()))
    } else {
        Seq::empty()
    }
}

/// The endpoints the routes `routes` advertise, route after route.
spec fn advertised_raw(routes: Seq<RelayRoute>, now_ms: u64, ll: bool) -> Seq<DataEndpoint>
    decreases routes.len(),
{
    if routes.len() == 0 {
        Seq::empty()
    } else {
        advertised_raw(routes.drop_last(), now_ms, ll) + route_advertises(routes.last(), now_ms, ll)
    }
}

/// The endpoints relay `r` advertises at `now_ms` to a side (that allows
/// link-local traffic where `ll`): those of its fresh routes other than
/// discovery, sorted without repeats.
pub closed spec fn advertised_for(r: &Relay, now_ms: u64, ll: bool) -> Seq<DataEndpoint> {
    spec_canonical_endpoints(advertised_raw(r.routes@, now_ms, ll))
}

/// One of the first `n` routes is fresh and names time source `y`.
spec fn fresh_source(routes: Seq<RelayRoute>, now_ms: u64, n: int, y: Seq<char>) -> bool {
    exists|i: int, k: int|
        0 <= i < n && relay_route_fresh(routes[i], now_ms) && 0 <= k < routes[i].sources@.len()
            && #[trigger] routes[i].sources@[k]@ == y
}

/// The endpoints of the announcers, in order.
spec fn announcers_reachable(anns: Seq<AnnouncerState>) -> Seq<DataEndpoint>
    decreases anns.len(),
{
    if anns.len() == 0 {
        Seq::empty()
    } else {
        announcers_reachable(anns.drop_last()) + anns.last().reachable@
    }
}

/// `l` with each text of `xs` put in its sorted place, in order.
spec fn ins_all(l: Seq<Seq<char>>, xs: Seq<String>) -> Seq<Seq<char>>
    decreases xs.len(),
{
    if xs.len() == 0 {
        l
    } else {
        discovery::ins_sorted(ins_all(l, xs.drop_last()), xs.last()@)
    }
}

/// The time sources of the announcers, sorted without repeats.
spec fn announcers_sources(anns: Seq<AnnouncerState>) -> Seq<Seq<char>>
    decreases anns.len(),
{
    if anns.len() == 0 {
        Seq::empty()
    } else {
        ins_all(announcers_sources(anns.drop_last()), anns.last().sources@)
    }
}

/// The latest announce time of the announcers, or 0.
spec fn announcers_last_seen(anns: Seq<AnnouncerState>) -> u64
    decreases anns.len(),
{
    if anns.len() == 0 {
        0
    } else {
        let rest = announcers_last_seen(anns.drop_last());
        if anns.last().last_seen_ms > rest {
            anns.last().last_seen_ms
        } else {
            rest
        }
    }
}

/// Announcer `a` was heard no longer ago than the route lifetime.
spec fn announcer_fresh(a: AnnouncerState, now_ms: u64) -> bool {
    (if now_ms >= a.last_seen_ms { now_ms - a.last_seen_ms } else { 0 }) <= DISCOVERY_ROUTE_TTL_MS
}

/// The announcers of `x` that are still fresh.
spec fn fresh_announcers(x: RelayRoute, now_ms: u64) -> Seq<AnnouncerState> {
    x.announcers@.filter(|a: AnnouncerState| announcer_fresh(a, now_ms))
}

/// Route `x` keeps at least one fresh announcer.
spec fn route_survives(x: RelayRoute, now_ms: u64) -> bool {
    fresh_announcers(x, now_ms).len() > 0
}

/// Pruning changes route `x`: an announcer of it is stale, or it has none.
spec fn route_loses(x: RelayRoute, now_ms: u64) -> bool {
    fresh_announcers(x, now_ms).len() < x.announcers@.len() || x.announcers@.len() == 0
}

/// `y` is route `x` with only its fresh announcers, recomputed from them.
spec fn route_pruned_from(y: RelayRoute, x: RelayRoute, now_ms: u64) -> bool {
    &&& y.side == x.side
    &&& y.announcers@ == fresh_announcers(x, now_ms)
    &&& y.reachable@ == spec_canonical_endpoints(announcers_reachable(y.announcers@))
    &&& y.sources@.map_values(|s: String| s@) == announcers_sources(y.announcers@)
    &&& y.last_seen_ms == announcers_last_seen(y.announcers@)
}

/// Some route has an announcer that acknowledges end to end under hash `h`.
spec fn destination_active(routes: Seq<RelayRoute>, h: u64) -> bool {
    exists|i: int, k: int|
        0 <= i < routes.len() && 0 <= k < routes[i].announcers@.len() && #[trigger] active_announcer(
            routes[i].announcers@[k],
            h,
        )
}

/// The acknowledging destinations of `e` that are still announced.
spec fn active_senders(e: AckedDestinations, routes: Seq<RelayRoute>) -> Seq<u64> {
    e.senders@.filter(|h: u64| destination_active(routes, h))
}

/// Entry `e` keeps at least one announced destination.
spec fn acked_survives(e: AckedDestinations, routes: Seq<RelayRoute>) -> bool {
    active_senders(e, routes).len() > 0
}

/// `y` is entry `x` with only its still-announced destinations.
spec fn acked_reconciled_from(y: AckedDestinations, x: AckedDestinations, routes: Seq<RelayRoute>) -> bool {
    &&& y.packet_id == x.packet_id
    &&& y.senders@ == active_senders(x, routes)
}

impl RelayRoute {
    /// Recompute the union of the announcers: endpoints and sources sorted
    /// without repeats, and the latest announce time.
    fn recompute(&mut self)
        ensures
            final(self).side == old(self).side,
            final(self).announcers == old(self).announcers,
            final(self).reachable@ == spec_canonical_endpoints(announcers_reachable(old(self).announcers@)),
            final(self).sources@.map_values(|s: String| s@) == announcers_sources(old(self).announcers@),
            final(self).last_seen_ms == announcers_last_seen(old(self).announcers@),
    {
        let mut eps: Vec<DataEndpoint> = Vec::new();
        let mut sources: Vec<String> = Vec::new();
        let mut last: u64 = 0;
        let mut i: usize = 0;
        let ghost anns = self.announcers@;
        assert(anns.take(0) =~= Seq::<AnnouncerState>::empty());
        assert(sources@.map_values(|s: String| s@) =~= Seq::<Seq<char>>::empty());
        while i < self.announcers.len()
            invariant
                i <= self.announcers@.len(),
                anns == self.announcers@,
                self.side == old(self).side,
                self.announcers == old(self).announcers,
                eps@ == announcers_reachable(anns.take(i as int)),
                sources@.map_values(|s: String| s@) == announcers_sources(anns.take(i as int)),
                last == announcers_last_seen(anns.take(i as int)),
            decreases self.announcers@.len() - i,
        {
            let a = &self.announcers[i];
            let ghost eps0 = eps@;
            let ghost src0 = sources@.map_values(|s: String| s@);
            assert(anns.take(i + 1).drop_last() =~= anns.take(i as int));
            assert(anns.take(i + 1).last() == anns[i as int]);
            let mut k: usize = 0;
            assert(a.reachable@.take(0) =~= Seq::<DataEndpoint>::empty());
            while k < a.reachable.len()
                invariant
                    k <= a.reachable@.len(),
                    eps@ == eps0 + a.reachable@.take(k as int),
                decreases a.reachable@.len() - k,
            {
                eps.push(a.reachable[k]);
                assert(a.reachable@.take(k + 1) =~= a.reachable@.take(k as int).push(a.reachable@[k as int]));
                assert(eps@ =~= eps0 + a.reachable@.take(k + 1));
                k = k + 1;
            }
            assert(a.reachable@.take(k as int) =~= a.reachable@);
            let mut j: usize = 0;
            assert(a.sources@.take(0) =~= Seq::<String>::empty());
            while j < a.sources.len()
                invariant
                    j <= a.sources@.len(),
                    sources@.map_values(|s: String| s@) == ins_all(src0, a.sources@.take(j as int)),
                decreases a.sources@.len() - j,
            {
                discovery::insert_sorted(&mut sources, a.sources[j].as_str());
                assert(a.sources@.take(j + 1).drop_last() =~= a.sources@.take(j as int));
                assert(a.sources@.take(j + 1).last() == a.sources@[j as int]);
                j = j + 1;
            }
            assert(a.sources@.take(j as int) =~= a.sources@);
            if a.last_seen_ms > last {
                last = a.last_seen_ms;
            }
            i = i + 1;
        }
        assert(anns.take(i as int) =~= anns);
        self.reachable = canonical_endpoints(eps.as_slice());
        self.sources = sources;
        self.last_seen_ms = last;
    }
}

impl Relay {
    fn note_topology_change(&mut self, now_ms: u64)
        ensures
            final(self).sides == old(self).sides,
            final(self).rx_queue == old(self).rx_queue,
            final(self).tx_queue == old(self).tx_queue,
            final(self).recent_rx == old(self).recent_rx,
            final(self).routes == old(self).routes,
            final(self).return_routes == old(self).return_routes,
            final(self).acked == old(self).acked,
            final(self).cadence == (DiscoveryCadenceState {
                current_interval_ms: discovery::DISCOVERY_FAST_INTERVAL_MS,
                next_announce_ms: now_ms,
            }),
    {
        self.cadence.on_topology_change(now_ms);
    }

    /// Drop stale announcers, and routes left without announcers; returns
    /// whether anything was dropped.
    fn prune_discovery_routes(&mut self, now_ms: u64) -> (r: bool)
        requires
            old(self).wf(),
        ensures
            final(self).wf(),
            final(self).sides == old(self).sides,
            final(self).rx_queue == old(self).rx_queue,
            final(self).tx_queue == old(self).tx_queue,
            final(self).recent_rx == old(self).recent_rx,
            final(self).return_routes == old(self).return_routes,
            final(self).acked == old(self).acked,
            final(self).cadence == old(self).cadence,
            final(self).routes@.len() == old(self).routes@.filter(|x: RelayRoute| route_survives(x, now_ms)).len(),
            forall|i: int|
                0 <= i < final(self).routes@.len() ==> route_pruned_from(
                    #[trigger] final(self).routes@[i],
                    old(self).routes@.filter(|x: RelayRoute| route_survives(x, now_ms))[i],
                    now_ms,
                ),
            r == exists|i: int| 0 <= i < old(self).routes@.len() && route_loses(#[trigger] old(self).routes@[i], now_ms),
    {
        let ghost orig = self.routes@;
        let ghost surv = |x: RelayRoute| route_survives(x, now_ms);
        let ghost fresh = |a: AnnouncerState| announcer_fresh(a, now_ms);
        let mut old_routes: Vec<RelayRoute> = Vec::new();
        std::mem::swap(&mut old_routes, &mut self.routes);
        let n = self.sides.len();
        let mut changed = false;
        let mut routes: Vec<RelayRoute> = Vec::new();
        let total: usize = old_routes.len();
        let mut k: usize = 0;
        assert(orig.take(0).filter(surv) =~= Seq::<RelayRoute>::empty());
        assert(orig.skip(0) =~= orig);
        while old_routes.len() > 0
            invariant
                n == self.sides@.len(),
                k + old_routes@.len() == orig.len(),
                total == orig.len(),
                old_routes@ == orig.skip(k as int),
                orig == old(self).routes@,
                forall|i: int| 0 <= i < orig.len() ==> #[trigger] orig[i].side < n,
                forall|i: int| 0 <= i < routes@.len() ==> #[trigger] routes@[i].side < n,
                surv == (|x: RelayRoute| route_survives(x, now_ms)),
                fresh == (|a: AnnouncerState| announcer_fresh(a, now_ms)),
                routes@.len() == orig.take(k as int).filter(surv).len(),
                forall|i: int|
                    0 <= i < routes@.len() ==> route_pruned_from(#[trigger] routes@[i], orig.take(k as int).filter(surv)[i], now_ms),
                changed == exists|i: int| 0 <= i < k && route_loses(#[trigger] orig[i], now_ms),
                self.sides == old(self).sides,
                self.rx_queue == old(self).rx_queue,
                self.tx_queue == old(self).tx_queue,
                self.recent_rx == old(self).recent_rx,
                self.return_routes == old(self).return_routes,
                self.acked == old(self).acked,
                self.cadence == old(self).cadence,
            decreases old_routes@.len(),
        {
            let mut route = old_routes.remove(0);
            let ghost x = route;
            proof {
                assert(x == orig[k as int]);
                assert(orig.take(k + 1) =~= orig.take(k as int).push(x));
                orig.take(k as int).lemma_filter_push(x, surv);
                assert(old_routes@ =~= orig.skip(k + 1));
            }
            let ghost anns = route.announcers@;
            let ghost changed0 = changed;
            let mut kept: Vec<AnnouncerState> = Vec::new();
            let count: usize = route.announcers.len();
            let mut m: usize = 0;
            assert(anns.take(0).filter(fresh) =~= Seq::<AnnouncerState>::empty());
            assert(anns.skip(0) =~= anns);
            while route.announcers.len() > 0
                invariant
                    route.side == x.side,
                    m + route.announcers@.len() == anns.len(),
                    count == anns.len(),
                    route.announcers@ == anns.skip(m as int),
                    kept@ == anns.take(m as int).filter(fresh),
                    kept@.len() <= m,
                    fresh == (|a: AnnouncerState| announcer_fresh(a, now_ms)),
                    changed == (changed0 || kept@.len() < m),
                decreases route.announcers@.len(),
            {
                let a = route.announcers.remove(0);
                proof {
                    assert(a == anns[m as int]);
                    assert(anns.take(m + 1) =~= anns.take(m as int).push(a));
                    anns.take(m as int).lemma_filter_push(a, fresh);
                    assert(route.announcers@ =~= anns.skip(m + 1));
                }
                if now_ms.saturating_sub(a.last_seen_ms) <= DISCOVERY_ROUTE_TTL_MS {
                    kept.push(a);
                } else {
                    changed = true;
                }
                m = m + 1;
            }
            assert(anns.take(m as int) =~= anns);
            route.announcers = kept;
            route.recompute();
            if route.announcers.len() > 0 {
                let ghost routes0 = routes@;
                routes.push(route);
                proof {
                    assert forall|i: int|
                        0 <= i < routes@.len() implies route_pruned_from(
                            #[trigger] routes@[i],
                            orig.take(k + 1).filter(surv)[i],
                            now_ms,
                        ) by {
                        if i < routes@.len() - 1 {
                            assert(routes@[i] == routes0[i]);
                        }
                    }
                }
            } else {
                changed = true;
            }
            proof {
                assert(route_loses(x, now_ms) == (kept@.len() < anns.len() || kept@.len() == 0));
                if changed {
                    if !changed0 {
                        assert(route_loses(orig[k as int], now_ms));
                    }
                }
                assert(changed == exists|i: int| 0 <= i < k + 1 && route_loses(#[trigger] orig[i], now_ms));
            }
            k = k + 1;
        }
        assert(orig.take(k as int) =~= orig);
        self.routes = routes;
        changed
    }

    /// Whether some route has an announcer `sender` whose hash is `h` and
    /// that acknowledges end to end.
    fn is_active_destination(&self, h: u64) -> (r: bool)
        ensures
            r == exists|i: int, k: int|
                0 <= i < self.routes@.len() && 0 <= k < self.routes@[i].announcers@.len() && #[trigger] active_announcer(
                    self.routes@[i].announcers@[k],
                    h,
                ),
    {
        let mut i: usize = 0;
        while i < self.routes.len()
            invariant
                i <= self.routes@.len(),
                forall|a: int, k: int|
                    0 <= a < i && 0 <= k < self.routes@[a].announcers@.len() ==> !#[trigger] active_announcer(
                        self.routes@[a].announcers@[k],
                        h,
                    ),
            decreases self.routes@.len() - i,
        {
            let mut k: usize = 0;
            while k < self.routes[i].announcers.len()
                invariant
                    i < self.routes@.len(),
                    k <= self.routes@[i as int].announcers@.len(),
                    forall|a: int, k2: int|
                        0 <= a < i && 0 <= k2 < self.routes@[a].announcers@.len() ==> !#[trigger] active_announcer(
                            self.routes@[a].announcers@[k2],
                            h,
                        ),
                    forall|k2: int| 0 <= k2 < k ==> !#[trigger] active_announcer(self.routes@[i as int].announcers@[k2], h),
                decreases self.routes@[i as int].announcers@.len() - k,
            {
                let s = self.routes[i].announcers[k].sender.as_str();
                let b = s.as_bytes();
                proof {
                    assert(b@ == vstd::utf8::encode_utf8(self.routes@[i as int].announcers@[k as int].sender@));
                }
                if is_end_to_end_destination_sender(s) && sender_hash(b) == h {
                    assert(active_announcer(self.routes@[i as int].announcers@[k as int], h));
                    return true;
                }
                k = k + 1;
            }
            i = i + 1;
        }
        false
    }

    /// Forget acknowledgements from destinations no longer announced, and
    /// packets left with none.
    fn reconcile_acked_destinations(&mut self)
        requires
            old(self).wf(),
        ensures
            final(self).wf(),
            final(self).sides == old(self).sides,
            final(self).rx_queue == old(self).rx_queue,
            final(self).tx_queue == old(self).tx_queue,
            final(self).recent_rx == old(self).recent_rx,
            final(self).routes == old(self).routes,
            final(self).return_routes == old(self).return_routes,
            final(self).cadence == old(self).cadence,
            final(self).acked@.len() == old(self).acked@.filter(|e: AckedDestinations| acked_survives(e, old(self).routes@)).len(),
            forall|i: int|
                0 <= i < final(self).acked@.len() ==> acked_reconciled_from(
                    #[trigger] final(self).acked@[i],
                    old(self).acked@.filter(|e: AckedDestinations| acked_survives(e, old(self).routes@))[i],
                    old(self).routes@,
                ),
    {
        let ghost routes = self.routes@;
        let ghost surv = |e: AckedDestinations| acked_survives(e, routes);
        let ghost act = |h: u64| destination_active(routes, h);
        let mut old_acked: Vec<AckedDestinations> = Vec::new();
        std::mem::swap(&mut old_acked, &mut self.acked);
        let ghost orig = old_acked@;
        let mut out: Vec<AckedDestinations> = Vec::new();
        let mut i: usize = 0;
        assert(orig.take(0).filter(surv) =~= Seq::<AckedDestinations>::empty());
        while i < old_acked.len()
            invariant
                i <= old_acked@.len(),
                orig == old_acked@,
                orig == old(self).acked@,
                routes == self.routes@,
                surv == (|e: AckedDestinations| acked_survives(e, routes)),
                act == (|h: u64| destination_active(routes, h)),
                out@.len() == orig.take(i as int).filter(surv).len(),
                forall|j: int|
                    0 <= j < out@.len() ==> acked_reconciled_from(#[trigger] out@[j], orig.take(i as int).filter(surv)[j], routes),
                self.sides == old(self).sides,
                self.rx_queue == old(self).rx_queue,
                self.tx_queue == old(self).tx_queue,
                self.recent_rx == old(self).recent_rx,
                self.routes == old(self).routes,
                self.return_routes == old(self).return_routes,
                self.cadence == old(self).cadence,
            decreases old_acked@.len() - i,
        {
            let mut senders: Vec<u64> = Vec::new();
            let ghost hs = old_acked@[i as int].senders@;
            let mut k: usize = 0;
            assert(hs.take(0).filter(act) =~= Seq::<u64>::empty());
            while k < old_acked[i].senders.len()
                invariant
                    i < old_acked@.len(),
                    hs == old_acked@[i as int].senders@,
                    k <= hs.len(),
                    routes == self.routes@,
                    act == (|h: u64| destination_active(routes, h)),
                    senders@ == hs.take(k as int).filter(act),
                decreases old_acked@[i as int].senders@.len() - k,
            {
                let h = old_acked[i].senders[k];
                proof {
                    assert(hs.take(k + 1) =~= hs.take(k as int).push(h));
                    hs.take(k as int).lemma_filter_push(h, act);
                }
                if self.is_active_destination(h) {
                    senders.push(h);
                }
                k = k + 1;
            }
            assert(hs.take(k as int) =~= hs);
            let ghost e = orig[i as int];
            proof {
                assert(orig.take(i + 1) =~= orig.take(i as int).push(e));
                orig.take(i as int).lemma_filter_push(e, surv);
            }
            if senders.len() > 0 {
                let ghost out0 = out@;
                out.push(AckedDestinations { packet_id: old_acked[i].packet_id, senders });
                proof {
                    assert forall|j: int|
                        0 <= j < out@.len() implies acked_reconciled_from(
                            #[trigger] out@[j],
                            orig.take(i + 1).filter(surv)[j],
                            routes,
                        ) by {
                        if j < out@.len() - 1 {
                            assert(out@[j] == out0[j]);
                        }
                    }
                }
            }
            i = i + 1;
        }
        assert(orig.take(i as int) =~= orig);
        self.acked = out;
    }

    /// Prune stale routes; on a change, reconcile acknowledgements and
    /// restart the announce cadence.
    fn refresh_discovery(&mut self, now_ms: u64)
        requires
            old(self).wf(),
        ensures
            final(self).wf(),
            final(self).sides == old(self).sides,
            final(self).rx_queue == old(self).rx_queue,
            final(self).tx_queue == old(self).tx_queue,
            final(self).recent_rx == old(self).recent_rx,
            final(self).return_routes == old(self).return_routes,
            final(self).routes@.len() == old(self).routes@.filter(|x: RelayRoute| route_survives(x, now_ms)).len(),
            forall|i: int|
                0 <= i < final(self).routes@.len() ==> route_pruned_from(
                    #[trigger] final(self).routes@[i],
                    old(self).routes@.filter(|x: RelayRoute| route_survives(x, now_ms))[i],
                    now_ms,
                ),
            if exists|i: int| 0 <= i < old(self).routes@.len() && route_loses(#[trigger] old(self).routes@[i], now_ms) {
                &&& final(self).acked@.len() == old(self).acked@.filter(
                    |e: AckedDestinations| acked_survives(e, final(self).routes@),
                ).len()
                &&& forall|i: int|
                    0 <= i < final(self).acked@.len() ==> acked_reconciled_from(
                        #[trigger] final(self).acked@[i],
                        old(self).acked@.filter(|e: AckedDestinations| acked_survives(e, final(self).routes@))[i],
                        final(self).routes@,
                    )
                &&& final(self).cadence == (DiscoveryCadenceState {
                    current_interval_ms: discovery::DISCOVERY_FAST_INTERVAL_MS,
                    next_announce_ms: now_ms,
                })
            } else {
                final(self).acked == old(self).acked && final(self).cadence == old(self).cadence
            },
    {
        if self.prune_discovery_routes(now_ms) {
            self.reconcile_acked_destinations();
            self.note_topology_change(now_ms);
        }
    }

    /// Endpoints learned from fresh routes, for announcing on a side:
    /// without the discovery endpoint, and without link-local-only
    /// endpoints unless the side allows them; sorted without repeats.
    fn advertised_endpoints(&self, now_ms: u64, link_local_enabled: bool) -> (r: Vec<DataEndpoint>)
        ensures
            r@ == advertised_for(self, now_ms, link_local_enabled),
            r@ == spec_canonical_endpoints(r@),
            !r@.contains(DataEndpoint::Discovery),
            !link_local_enabled ==> forall|i: int| 0 <= i < r@.len() ==> !(#[trigger] r@[i]).spec_link_local_only(),
    {
        let mut eps: Vec<DataEndpoint> = Vec::new();
        let mut i: usize = 0;
        let ghost pred = |ep: DataEndpoint| ep != DataEndpoint::Discovery && (link_local_enabled || !ep.spec_link_local_only());
        assert(self.routes@.take(0) =~= Seq::<RelayRoute>::empty());
        assert(eps@ =~= advertised_raw(self.routes@.take(0), now_ms, link_local_enabled));
        while i < self.routes.len()
            invariant
                i <= self.routes@.len(),
                pred == (|ep: DataEndpoint| ep != DataEndpoint::Discovery && (link_local_enabled || !ep.spec_link_local_only())),
                eps@ == advertised_raw(self.routes@.take(i as int), now_ms, link_local_enabled),
                !eps@.contains(DataEndpoint::Discovery),
                !link_local_enabled ==> forall|j: int| 0 <= j < eps@.len() ==> !(#[trigger] eps@[j]).spec_link_local_only(),
            decreases self.routes@.len() - i,
        {
            let route = &self.routes[i];
            let ghost base = eps@;
            proof {
                let t = self.routes@.take(i + 1);
                assert(t.drop_last() =~= self.routes@.take(i as int));
                assert(t.last() == self.routes@[i as int]);
            }
            if now_ms.saturating_sub(route.last_seen_ms) <= DISCOVERY_ROUTE_TTL_MS {
                let mut k: usize = 0;
                assert(route.reachable@.take(0).filter(pred) =~= Seq::<DataEndpoint>::empty());
                assert(base + route.reachable@.take(0).filter(pred) =~= base);
                while k < route.reachable.len()
                    invariant
                        k <= route.reachable@.len(),
                        pred == (|ep: DataEndpoint| ep != DataEndpoint::Discovery && (link_local_enabled || !ep.spec_link_local_only())),
                        eps@ == base + route.reachable@.take(k as int).filter(pred),
                        !eps@.contains(DataEndpoint::Discovery),
                        !link_local_enabled ==> forall|j: int| 0 <= j < eps@.len() ==> !(#[trigger] eps@[j]).spec_link_local_only(),
                    decreases route.reachable@.len() - k,
                {
                    let ep = route.reachable[k];
                    proof {
                        assert(route.reachable@.take(k + 1) =~= route.reachable@.take(k as int).push(ep));
                        route.reachable@.take(k as int).lemma_filter_push(ep, pred);
                    }
                    if !discovery::is_discovery_endpoint(ep) && (link_local_enabled || !ep.is_link_local_only()) {
                        let ghost before = eps@;
                        eps.push(ep);
                        proof {
                            assert forall|x: DataEndpoint| eps@.contains(x) implies before.contains(x) || x == ep by {
                                let j = choose|j: int| 0 <= j < eps@.len() && eps@[j] == x;
                                if j < before.len() {
                                    assert(before[j] == x);
                                }
                            }
                            assert(eps@ =~= base + route.reachable@.take(k + 1).filter(pred));
                        }
                    } else {
                        assert(eps@ =~= base + route.reachable@.take(k + 1).filter(pred));
                    }
                    k = k + 1;
                }
                assert(route.reachable@.take(k as int) =~= route.reachable@);
                assert(eps@ =~= advertised_raw(self.routes@.take(i + 1), now_ms, link_local_enabled));
            } else {
                assert(eps@ =~= advertised_raw(self.routes@.take(i + 1), now_ms, link_local_enabled));
            }
            i = i + 1;
        }
        assert(self.routes@.take(i as int) =~= self.routes@);
        let r = canonical_endpoints(eps.as_slice());
        proof {
            crate::config::lemma_canonical_idempotent(eps@);
            crate::config::lemma_canonical_contains(eps@, DataEndpoint::Discovery);
            if !link_local_enabled {
                assert forall|i: int| 0 <= i < r@.len() implies !(#[trigger] r@[i]).spec_link_local_only() by {
                    crate::config::lemma_canonical_contains(eps@, r@[i]);
                    assert(r@.contains(r@[i]));
                    let j = choose|j: int| 0 <= j < eps@.len() && eps@[j] == r@[i];
                }
            }
        }
        r
    }

    /// Time sources learned from fresh routes, sorted without repeats.
    fn advertised_sources(&self, now_ms: u64) -> (r: Vec<String>)
        ensures
            discovery::strictly_sorted(r@.map_values(|s: String| s@)),
            forall|y: Seq<char>| #[trigger] discovery::string_views(r@).contains(y) <==> fresh_source(
                self.routes@,
                now_ms,
                self.routes@.len() as int,
                y,
            ),
    {
        let mut out: Vec<String> = Vec::new();
        assert(out@.map_values(|s: String| s@) =~= Seq::<Seq<char>>::empty());
        let mut i: usize = 0;
        while i < self.routes.len()
            invariant
                i <= self.routes@.len(),
                discovery::strictly_sorted(out@.map_values(|s: String| s@)),
                forall|y: Seq<char>| #[trigger] discovery::string_views(out@).contains(y) <==> fresh_source(
                    self.routes@,
                    now_ms,
                    i as int,
                    y,
                ),
            decreases self.routes@.len() - i,
        {
            if now_ms.saturating_sub(self.routes[i].last_seen_ms) <= DISCOVERY_ROUTE_TTL_MS {
                let mut k: usize = 0;
                while k < self.routes[i].sources.len()
                    invariant
                        i < self.routes@.len(),
                        relay_route_fresh(self.routes@[i as int], now_ms),
                        k <= self.routes@[i as int].sources@.len(),
                        discovery::strictly_sorted(out@.map_values(|s: String| s@)),
                        forall|y: Seq<char>| #[trigger] discovery::string_views(out@).contains(y) <==> (fresh_source(
                            self.routes@,
                            now_ms,
                            i as int,
                            y,
                        ) || exists|k2: int| 0 <= k2 < k && #[trigger] self.routes@[i as int].sources@[k2]@ == y),
                    decreases self.routes@[i as int].sources@.len() - k,
                {
                    let ghost before = discovery::string_views(out@);
                    discovery::insert_sorted(&mut out, self.routes[i].sources[k].as_str());
                    proof {
                        let x = self.routes@[i as int].sources@[k as int]@;
                        discovery::lemma_ins_sorted(before, x);
                        assert(discovery::string_views(out@) == discovery::ins_sorted(before, x));
                        assert forall|y: Seq<char>| #[trigger] discovery::string_views(out@).contains(y) <==> (fresh_source(
                            self.routes@,
                            now_ms,
                            i as int,
                            y,
                        ) || exists|k2: int| 0 <= k2 < k + 1 && #[trigger] self.routes@[i as int].sources@[k2]@ == y) by {
                            if y == x {
                                assert(self.routes@[i as int].sources@[k as int]@ == y);
                            }
                            if exists|k2: int| 0 <= k2 < k + 1 && #[trigger] self.routes@[i as int].sources@[k2]@ == y {
                                let k2 = choose|k2: int| 0 <= k2 < k + 1 && #[trigger] self.routes@[i as int].sources@[k2]@ == y;
                                if k2 < k {
                                    assert(before.contains(y));
                                }
                            }
                        }
                    }
                    k = k + 1;
                }
                proof {
                    assert forall|y: Seq<char>| #[trigger] discovery::string_views(out@).contains(y) <==> fresh_source(
                        self.routes@,
                        now_ms,
                        i + 1,
                        y,
                    ) by {
                        if fresh_source(self.routes@, now_ms, i + 1, y) {
                            let (i2, k2) = choose|i2: int, k2: int| 0 <= i2 < i + 1 && relay_route_fresh(self.routes@[i2], now_ms)
                                && 0 <= k2 < self.routes@[i2].sources@.len() && #[trigger] self.routes@[i2].sources@[k2]@ == y;
                            if i2 == i {
                                assert(self.routes@[i as int].sources@[k2]@ == y);
                            } else {
                                assert(fresh_source(self.routes@, now_ms, i as int, y));
                            }
                        }
                        if exists|k2: int| 0 <= k2 < k && #[trigger] self.routes@[i as int].sources@[k2]@ == y {
                            let k2 = choose|k2: int| 0 <= k2 < k && #[trigger] self.routes@[i as int].sources@[k2]@ == y;
                            assert(fresh_source(self.routes@, now_ms, i + 1, y));
                        }
                        if fresh_source(self.routes@, now_ms, i as int, y) {
                            let (i2, k2) = choose|i2: int, k2: int| 0 <= i2 < i && relay_route_fresh(self.routes@[i2], now_ms)
                                && 0 <= k2 < self.routes@[i2].sources@.len() && #[trigger] self.routes@[i2].sources@[k2]@ == y;
                            assert(fresh_source(self.routes@, now_ms, i + 1, y));
                        }
                    }
                }
            } else {
                proof {
                    assert forall|y: Seq<char>| #[trigger] discovery::string_views(out@).contains(y) <==> fresh_source(
                        self.routes@,
                        now_ms,
                        i + 1,
                        y,
                    ) by {
                        if fresh_source(self.routes@, now_ms, i + 1, y) {
                            let (i2, k2) = choose|i2: int, k2: int| 0 <= i2 < i + 1 && relay_route_fresh(self.routes@[i2], now_ms)
                                && 0 <= k2 < self.routes@[i2].sources@.len() && #[trigger] self.routes@[i2].sources@[k2]@ == y;
                            assert(i2 != i);
                            assert(fresh_source(self.routes@, now_ms, i as int, y));
                        }
                        if fresh_source(self.routes@, now_ms, i as int, y) {
                            let (i2, k2) = choose|i2: int, k2: int| 0 <= i2 < i && relay_route_fresh(self.routes@[i2], now_ms)
                                && 0 <= k2 < self.routes@[i2].sources@.len() && #[trigger] self.routes@[i2].sources@[k2]@ == y;
                            assert(fresh_source(self.routes@, now_ms, i + 1, y));
                        }
                    }
                }
            }
            i = i + 1;
        }
        out
    }
}


/// Announcer `a` is a destination that acknowledges end to end.
spec fn e2e_destination(a: AnnouncerState) -> bool {
    a.sender@ != RELAY_SENDER@ && !spec_is_e2e_ack_sender(vstd::utf8::encode_utf8(a.sender@))
}

/// Announcer `a` is a destination that reaches one of `eps` and has not
/// acknowledged (its hash is not among `acked`).
spec fn announcer_awaits(a: AnnouncerState, eps: Seq<DataEndpoint>, acked: Seq<u64>) -> bool {
    &&& e2e_destination(a)
    &&& exists|i: int| 0 <= i < eps.len() && a.reachable@.contains(#[trigger] eps[i])
    &&& !acked.contains(spec_hash_bytes(SENDER_HASH_SEED, vstd::utf8::encode_utf8(a.sender@)))
}

/// Route `rt` still needs the item: a destination behind it awaits it, or
/// it has no destination at all.
spec fn route_awaits(rt: RelayRoute, eps: Seq<DataEndpoint>, acked: Seq<u64>) -> bool {
    (exists|k: int| 0 <= k < rt.announcers@.len() && announcer_awaits(#[trigger] rt.announcers@[k], eps, acked))
        || !(exists|k: int| 0 <= k < rt.announcers@.len() && e2e_destination(#[trigger] rt.announcers@[k]))
}

/// Side `side` still needs the item: it has no route, or its first route
/// still needs it.
spec fn side_awaits(routes: Seq<RelayRoute>, side: RelaySideId, eps: Seq<DataEndpoint>, acked: Seq<u64>) -> bool {
    forall|ri: int|
        0 <= ri < routes.len() && (#[trigger] routes[ri]).side == side && (forall|j: int|
            0 <= j < ri ==> (#[trigger] routes[j]).side != side) ==> route_awaits(routes[ri], eps, acked)
}

/// Some route of `side` has an announcer named `sender`.
spec fn announcer_on_side(routes: Seq<RelayRoute>, side: RelaySideId, p: PacketModel, ll: bool) -> bool {
    exists|i: int, k: int|
        0 <= i < routes.len() && routes[i].side == side && 0 <= k < routes[i].announcers@.len()
            && #[trigger] announcer_learned(routes[i].announcers@[k], p, ll)
}

/// Some route of `side` has an announcer holding what discovery packet `p`
/// announces, last heard at `now_ms`, and the route's endpoints are those
/// of its announcers, sorted without repeats.
spec fn announcer_heard(routes: Seq<RelayRoute>, side: RelaySideId, p: PacketModel, ll: bool, now_ms: u64) -> bool {
    exists|i: int, k: int|
        0 <= i < routes.len() && routes[i].side == side && 0 <= k < routes[i].announcers@.len()
            && #[trigger] announcer_learned(routes[i].announcers@[k], p, ll) && routes[i].announcers@[k].last_seen_ms
            == now_ms && routes[i].reachable@ == spec_canonical_endpoints(announcers_reachable(routes[i].announcers@))
}

/// The discovery packet item `d` carries, if it carries one that reads.
pub open spec fn discovery_packet_of(d: ItemModel) -> Option<PacketModel> {
    match d {
        ItemModel::Packet(p) => if spec_is_discovery_type(p.ty) {
            Some(p)
        } else {
            None
        },
        ItemModel::Serialized(b) => match serialize::spec_peek(b) {
            Ok(env) => if spec_is_discovery_type(env.ty) {
                match serialize::spec_deserialize(b) {
                    Ok(p) => Some(p),
                    Err(_) => None,
                }
            } else {
                None
            },
            Err(_) => None,
        },
    }
}

/// Announcer `a` holds what discovery packet `p` announces: its sender,
/// and the endpoints it names (without link-local-only ones unless `ll`)
/// or the time sources it names.
spec fn announcer_learned(a: AnnouncerState, p: PacketModel, ll: bool) -> bool {
    &&& a.sender@ == p.sender
    &&& p.ty == DataType::DiscoveryAnnounce ==> (discovery::spec_decode_discovery_payload(p.payload) matches Ok(eps)
        && a.reachable@ == eps.filter(|e: DataEndpoint| ll || !e.spec_link_local_only()))
    &&& p.ty == DataType::DiscoveryTimeSyncSources ==> (discovery::spec_decode_sources_payload(p.payload) matches Ok(
        names,
    ) && discovery::string_views(a.sources@) == names)
}

/// What learning from discovery packet `p` answers: the error of decoding
/// its payload, if any.
pub open spec fn spec_learn_result(p: PacketModel) -> TelemetryResult<()> {
    if p.ty == DataType::DiscoveryAnnounce {
        match discovery::spec_decode_discovery_payload(p.payload) {
            Ok(_) => Ok(()),
            Err(e) => Err(e),
        }
    } else if p.ty == DataType::DiscoveryTimeSyncSources {
        match discovery::spec_decode_sources_payload(p.payload) {
            Ok(_) => Ok(()),
            Err(e) => Err(e),
        }
    } else {
        Ok(())
    }
}

impl Relay {
    /// Put a route back in side order.
    fn insert_route(&mut self, route: RelayRoute)
        requires
            old(self).wf(),
            route.side < old(self).sides@.len(),
        ensures
            final(self).wf(),
            final(self).sides == old(self).sides,
            final(self).rx_queue == old(self).rx_queue,
            final(self).tx_queue == old(self).tx_queue,
            final(self).recent_rx == old(self).recent_rx,
            final(self).return_routes == old(self).return_routes,
            final(self).acked == old(self).acked,
            final(self).cadence == old(self).cadence,
            exists|i: int| #[trigger] relay_route_slot(old(self).routes@, route.side, i) && final(self).routes@
                == old(self).routes@.insert(i, route),
    {
        let mut i: usize = 0;
        while i < self.routes.len() && self.routes[i].side < route.side
            invariant
                i <= self.routes@.len(),
                forall|j: int| 0 <= j < i ==> (#[trigger] self.routes@[j]).side < route.side,
            decreases self.routes@.len() - i,
        {
            i = i + 1;
        }
        assert(relay_route_slot(self.routes@, route.side, i as int));
        let ghost before = self.routes@;
        self.routes.insert(i, route);
        proof {
            assert forall|j: int| 0 <= j < self.routes@.len() implies #[trigger] self.routes@[j].side < self.sides@.len() by {
                if j < i {
                    assert(self.routes@[j] == before[j]);
                } else if j > i {
                    assert(self.routes@[j] == before[j - 1]);
                }
            }
        }
    }

    /// Take the route of `side` out of the table, or start an empty one.
    fn take_route(&mut self, side: RelaySideId) -> (r: RelayRoute)
        requires
            old(self).wf(),
        ensures
            final(self).wf(),
            r.side == side,
            final(self).sides == old(self).sides,
            final(self).rx_queue == old(self).rx_queue,
            final(self).tx_queue == old(self).tx_queue,
            final(self).recent_rx == old(self).recent_rx,
            final(self).return_routes == old(self).return_routes,
            final(self).acked == old(self).acked,
    {
        let mut i: usize = 0;
        while i < self.routes.len()
            invariant
                i <= self.routes@.len(),
                *self == *old(self),
                self.wf(),
            decreases self.routes@.len() - i,
        {
            if self.routes[i].side == side {
                let ghost before = self.routes@;
                let r = self.routes.remove(i);
                proof {
                    assert forall|j: int| 0 <= j < self.routes@.len() implies #[trigger] self.routes@[j].side < self.sides@.len() by {
                        if j < i {
                            assert(self.routes@[j] == before[j]);
                        } else {
                            assert(self.routes@[j] == before[j + 1]);
                        }
                    }
                }
                return r;
            }
            i = i + 1;
        }
        RelayRoute { side, announcers: Vec::new(), reachable: Vec::new(), sources: Vec::new(), last_seen_ms: 0 }
    }

    /// Learn from a discovery packet received on `src`: record what its
    /// sender advertises behind that side. Other items are ignored.
    #[verifier::rlimit(60)]
    #[verifier::spinoff_prover]
    fn learn_discovery_item(&mut self, src: RelaySideId, data: &RelayItem) -> (r: TelemetryResult<()>)
        requires
            old(self).wf(),
            src < old(self).num_sides(),
        ensures
            final(self).wf(),
            final(self).sides == old(self).sides,
            final(self).rx_queue == old(self).rx_queue,
            final(self).tx_queue == old(self).tx_queue,
            final(self).recent_rx == old(self).recent_rx,
            final(self).return_routes == old(self).return_routes,
            r is Err ==> *final(self) == *old(self),
            match data@ {
                ItemModel::Packet(p) => if spec_is_discovery_type(p.ty) {
                    r == spec_learn_result(p) && (r is Ok ==> announcer_on_side(
                        final(self).routes@,
                        src,
                        p,
                        old(self).sides@[src as int].opts.link_local_enabled,
                    ))
                } else {
                    r is Ok && *final(self) == *old(self)
                },
                ItemModel::Serialized(b) => match serialize::spec_peek(b) {
                    Err(e) => r == Err::<(), TelemetryError>(e),
                    Ok(env) => if spec_is_discovery_type(env.ty) {
                        match serialize::spec_deserialize(b) {
                            Err(e) => r == Err::<(), TelemetryError>(e),
                            Ok(p) => r == spec_learn_result(p) && (r is Ok ==> announcer_on_side(
                                final(self).routes@,
                                src,
                                p,
                                old(self).sides@[src as int].opts.link_local_enabled,
                            )),
                        }
                    } else {
                        r is Ok && *final(self) == *old(self)
                    },
                },
            },
            r is Ok && discovery_packet_of(data@) is Some ==> exists|now_ms: u64|
                #[trigger] announcer_heard(
                    final(self).routes@,
                    src,
                    discovery_packet_of(data@)->Some_0,
                    old(self).sides@[src as int].opts.link_local_enabled,
                    now_ms,
                ),
    {
        let owned: TelemetryPacket;
        let pkt: &TelemetryPacket = match data {
            RouterItem::Packet(p) => {
                if !discovery::is_discovery_type(p.data_type()) {
                    return Ok(());
                }
                p
            },
            RouterItem::Serialized(b) => {
                let env = serialize::peek_envelope(b.as_slice())?;
                if !discovery::is_discovery_type(env.ty) {
                    return Ok(());
                }
                owned = serialize::deserialize_packet(b.as_slice())?;
                &owned
            },
        };
        let mut new_eps: Option<Vec<DataEndpoint>> = None;
        let mut new_sources: Option<Vec<String>> = None;
        match pkt.data_type() {
            DataType::DiscoveryAnnounce => {
                new_eps = Some(discovery::decode_discovery_announce(pkt)?);
            },
            DataType::DiscoveryTimeSyncSources => {
                new_sources = Some(discovery::decode_discovery_timesync_sources(pkt)?);
            },
            _ => {},
        }
        let now_ms = self.clock.now_ms();
        let ll = self.sides[src].opts.link_local_enabled;
        let mut route = self.take_route(src);
        let mut a = AnnouncerState::empty(pkt.sender());
        let mut i: usize = 0;
        while i < route.announcers.len()
            invariant
                i <= route.announcers@.len(),
                route.side == src,
                a.sender@ == pkt@.sender,
            decreases route.announcers@.len() - i,
        {
            if str_eq(route.announcers[i].sender.as_str(), pkt.sender()) {
                a = route.announcers.remove(i);
                break;
            }
            i = i + 1;
        }
        let mut changed = false;
        let ghost pred = |e: DataEndpoint| ll || !e.spec_link_local_only();
        match new_eps {
            Some(eps) => {
                let mut kept: Vec<DataEndpoint> = Vec::new();
                let mut k: usize = 0;
                assert(eps@.take(0).filter(pred) =~= Seq::<DataEndpoint>::empty());
                while k < eps.len()
                    invariant
                        k <= eps@.len(),
                        pred == (|e: DataEndpoint| ll || !e.spec_link_local_only()),
                        kept@ == eps@.take(k as int).filter(pred),
                    decreases eps@.len() - k,
                {
                    proof {
                        assert(eps@.take(k + 1) =~= eps@.take(k as int).push(eps@[k as int]));
                        eps@.take(k as int).lemma_filter_push(eps@[k as int], pred);
                    }
                    if ll || !eps[k].is_link_local_only() {
                        kept.push(eps[k]);
                    }
                    k = k + 1;
                }
                assert(eps@.take(k as int) =~= eps@);
                changed = !crate::router::same_endpoints(&a.reachable, &kept);
                a.reachable = kept;
            },
            None => {},
        }
        match new_sources {
            Some(sources) => {
                changed = !crate::router::same_strings(&a.sources, &sources);
                a.sources = sources;
            },
            None => {},
        }
        a.last_seen_ms = now_ms;
        let ghost am = a;
        assert(announcer_learned(am, pkt@, ll));
        route.announcers.push(a);
        route.recompute();
        let ghost rt = route;
        let ghost before_ins = self.routes@;
        self.insert_route(route);
        let ghost i0 = choose|i: int| #[trigger] relay_route_slot(before_ins, rt.side, i) && self.routes@
            == before_ins.insert(i, rt);
        if changed {
            self.note_topology_change(now_ms);
        }
        let ghost pre = self.routes@;
        let _ = self.prune_discovery_routes(now_ms);
        proof {
            assert(pre[i0] == rt);
            let k0 = rt.announcers@.len() - 1;
            assert(rt.announcers@[k0] == am);
            assert(announcer_fresh(am, now_ms));
            rt.announcers@.lemma_filter_contains(|x: AnnouncerState| announcer_fresh(x, now_ms), k0);
            assert(fresh_announcers(rt, now_ms).contains(am));
            assert(route_survives(rt, now_ms));
            pre.lemma_filter_contains(|x: RelayRoute| route_survives(x, now_ms), i0);
            let fl = pre.filter(|x: RelayRoute| route_survives(x, now_ms));
            assert(fl.contains(rt));
            let j = choose|j: int| 0 <= j < fl.len() && fl[j] == rt;
            assert(route_pruned_from(self.routes@[j], rt, now_ms));
            let k = choose|k: int| 0 <= k < fresh_announcers(rt, now_ms).len() && fresh_announcers(rt, now_ms)[k] == am;
            assert(self.routes@[j].announcers@[k] == am);
            assert(am.sender@ == pkt@.sender);
            assert(self.routes@[j].side == src);
            assert(self.routes@[j].announcers@[k].sender@ == pkt@.sender);
            assert(announcer_learned(self.routes@[j].announcers@[k], pkt@, ll));
            assert(announcer_on_side(self.routes@, src, pkt@, ll));
            assert(self.routes@[j].announcers@[k].last_seen_ms == now_ms);
            assert(announcer_heard(self.routes@, src, pkt@, ll, now_ms));
            assert(discovery_packet_of(data@) == Some(pkt@));
        }
        self.reconcile_acked_destinations();
        assert(announcer_heard(self.routes@, src, discovery_packet_of(data@)->Some_0, old(self).sides@[src as int].opts.link_local_enabled, now_ms));
        Ok(())
    }

    /// Queue discovery announces to every side: the endpoints and time
    /// sources learned from the other sides, sent as `RELAY`.
    fn queue_discovery_announce(&mut self) -> (r: TelemetryResult<()>)
        requires
            old(self).wf(),
        ensures
            final(self).wf(),
            final(self).num_sides() == old(self).num_sides(),
            final(self).rx_queue_view() == old(self).rx_queue_view(),
            final(self).recent_ids() == old(self).recent_ids(),
            old(self).num_sides() == 0 ==> r is Ok && final(self).tx_queue_view() == old(self).tx_queue_view(),
            relay_discovery_queued(old(self), final(self)),
            r is Ok && old(self).num_sides() > 0 ==> exists|now_ms: u64, srcs: Seq<Seq<char>>|
                #[trigger] announce_round(old(self), final(self), now_ms, srcs),
    {
        let now_ms = self.clock.now_ms();
        self.refresh_discovery(now_ms);
        let ghost start = self.tx_queue_view();
        let ghost mut added: Seq<RelayTxModel> = Seq::empty();
        proof {
            lemma_suffix_refl(start);
            assert(start + added =~= start);
            lemma_no_relay_discovery_queued(old(self), self);
        }
        if self.sides.len() == 0 {
            return Ok(());
        }
        self.cadence.on_announce_sent(now_ms);
        let n = self.sides.len();
        let mut side: usize = 0;
        let sources = self.advertised_sources(now_ms);
        let ghost srcs = discovery::string_views(sources@);
        let ghost sides0 = self.sides;
        let ghost routes0 = self.routes;
        let ghost r0 = *self;
        assert(fresh_sources_are(self, now_ms, srcs));
        assert(added =~= round_items(&r0, now_ms, srcs, 0));
        while side < n
            invariant
                self.wf(),
                self.num_sides() == old(self).num_sides(),
                self.rx_queue_view() == old(self).rx_queue_view(),
                self.recent_ids() == old(self).recent_ids(),
                n == self.num_sides(),
                side <= n,
                start == old(self).tx_queue_view(),
                suffix_of(self.tx_queue_view(), start + added),
                forall|i: int| 0 <= i < added.len() ==> relay_discovery_tx(#[trigger] added[i]),
                self.sides == sides0,
                self.routes == routes0,
                srcs == discovery::string_views(sources@),
                fresh_sources_are(&r0, now_ms, srcs),
                r0.sides == sides0 && r0.routes == routes0,
                added == round_items(&r0, now_ms, srcs, side as nat),
            decreases n - side,
        {
            let ll = self.sides[side].opts.link_local_enabled;
            let eps = self.advertised_endpoints(now_ms, ll);
            let ghost added0 = added;
            if eps.len() > 0 {
                let pkt = discovery::build_discovery_announce(RELAY_SENDER, now_ms, eps.as_slice())?;
                let ghost before = self.tx_queue_view();
                let ghost m = RelayTxModel { dst: side, data: ItemModel::Packet(pkt@) };
                self.push_tx(side, RouterItem::Packet(pkt))?;
                proof {
                    lemma_suffix_trans_push(self.tx_queue_view(), before, start + added, m);
                    assert((start + added).push(m) =~= start + added.push(m));
                    added = added.push(m);
                }
            }
            if sources.len() > 0 {
                let pkt = discovery::build_discovery_timesync_sources(RELAY_SENDER, now_ms, sources.as_slice())?;
                let ghost before = self.tx_queue_view();
                let ghost m = RelayTxModel { dst: side, data: ItemModel::Packet(pkt@) };
                self.push_tx(side, RouterItem::Packet(pkt))?;
                proof {
                    lemma_suffix_trans_push(self.tx_queue_view(), before, start + added, m);
                    assert((start + added).push(m) =~= start + added.push(m));
                    added = added.push(m);
                }
            }
            proof {
                assert(side_round(self, now_ms, srcs, side as int) == side_round(&r0, now_ms, srcs, side as int));
                assert(added =~= added0 + side_round(&r0, now_ms, srcs, side as int));
                assert(added =~= round_items(&r0, now_ms, srcs, (side + 1) as nat));
            }
            side = side + 1;
        }
        proof {
            lemma_round_items_same(&r0, self, now_ms, srcs, self.num_sides());
            assert(fresh_sources_are(self, now_ms, srcs));
        }
        assert(announce_round(old(self), self, now_ms, srcs));
        Ok(())
    }

    /// Queue discovery announces to every side now.
    pub fn announce_discovery(&mut self) -> (r: TelemetryResult<()>)
        requires
            old(self).wf(),
        ensures
            final(self).wf(),
            final(self).num_sides() == old(self).num_sides(),
            final(self).rx_queue_view() == old(self).rx_queue_view(),
            final(self).recent_ids() == old(self).recent_ids(),
            old(self).num_sides() == 0 ==> r is Ok && final(self).tx_queue_view() == old(self).tx_queue_view(),
            relay_discovery_queued(old(self), final(self)),
            r is Ok && old(self).num_sides() > 0 ==> exists|now_ms: u64, srcs: Seq<Seq<char>>|
                #[trigger] announce_round(old(self), final(self), now_ms, srcs),
    {
        self.queue_discovery_announce()
    }

    /// Queue discovery announces when one is due and some side has
    /// something to advertise; returns whether they were queued.
    pub fn poll_discovery(&mut self) -> (r: TelemetryResult<bool>)
        requires
            old(self).wf(),
        ensures
            final(self).wf(),
            final(self).num_sides() == old(self).num_sides(),
            final(self).rx_queue_view() == old(self).rx_queue_view(),
            final(self).recent_ids() == old(self).recent_ids(),
            old(self).num_sides() == 0 ==> r == Ok::<bool, TelemetryError>(false)
                && final(self).tx_queue_view() == old(self).tx_queue_view(),
            r == Ok::<bool, TelemetryError>(false) ==> final(self).tx_queue_view() == old(self).tx_queue_view(),
            relay_discovery_queued(old(self), final(self)),
    {
        let now_ms = self.clock.now_ms();
        self.refresh_discovery(now_ms);
        let mut has_any = false;
        let mut side: usize = 0;
        while side < self.sides.len()
            invariant
                side <= self.sides@.len(),
            decreases self.sides@.len() - side,
        {
            let ll = self.sides[side].opts.link_local_enabled;
            let eps = self.advertised_endpoints(now_ms, ll);
            let sources = self.advertised_sources(now_ms);
            if eps.len() > 0 || sources.len() > 0 {
                has_any = true;
            }
            side = side + 1;
        }
        if self.sides.len() == 0 || !has_any {
            proof {
                lemma_no_relay_discovery_queued(old(self), self);
            }
            return Ok(false);
        }
        if !self.cadence.due(now_ms) {
            proof {
                lemma_no_relay_discovery_queued(old(self), self);
            }
            return Ok(false);
        }
        let ghost mid = *self;
        let r = self.queue_discovery_announce();
        proof {
            lemma_relay_discovery_queued_from(old(self), &mid, self);
        }
        r?;
        Ok(true)
    }

    /// The current discovery view: what the relay advertises and the routes
    /// it has learned, after dropping stale ones.
    pub fn export_topology(&mut self) -> (r: TopologySnapshot)
        requires
            old(self).wf(),
        ensures
            final(self).wf(),
            final(self).num_sides() == old(self).num_sides(),
            final(self).rx_queue_view() == old(self).rx_queue_view(),
            final(self).tx_queue_view() == old(self).tx_queue_view(),
            final(self).recent_ids() == old(self).recent_ids(),
            r.advertised_endpoints@ == spec_canonical_endpoints(r.advertised_endpoints@),
            !r.advertised_endpoints@.contains(DataEndpoint::Discovery),
            forall|i: int| 0 <= i < r.routes@.len() ==> #[trigger] r.routes@[i].side_id < final(self).num_sides(),
            discovery::strictly_sorted(r.advertised_timesync_sources@.map_values(|s: String| s@)),
    {
        let now_ms = self.clock.now_ms();
        self.refresh_discovery(now_ms);
        let mut routes: Vec<TopologySideRoute> = Vec::new();
        let mut i: usize = 0;
        while i < self.routes.len()
            invariant
                i <= self.routes@.len(),
                forall|j: int| 0 <= j < routes@.len() ==> #[trigger] routes@[j].side_id < self.sides@.len(),
            decreases self.routes@.len() - i,
        {
            let side_id = self.routes[i].side;
            if side_id < self.sides.len() {
                let last = self.routes[i].last_seen_ms;
                routes.push(TopologySideRoute {
                    side_id,
                    side_name: self.sides[side_id].name,
                    reachable_endpoints: clone_endpoints(&self.routes[i].reachable),
                    reachable_timesync_sources: crate::router::clone_strings(&self.routes[i].sources),
                    last_seen_ms: last,
                    age_ms: now_ms.saturating_sub(last),
                });
            }
            i = i + 1;
        }
        let advertised_endpoints = self.advertised_endpoints(now_ms, true);
        let advertised_timesync_sources = self.advertised_sources(now_ms);
        TopologySnapshot {
            advertised_endpoints,
            advertised_timesync_sources,
            routes,
            current_announce_interval_ms: self.cadence.current_interval_ms,
            next_announce_ms: self.cadence.next_announce_ms,
        }
    }
}


// ---------------------------------------------------------------------------
// Routing
// ---------------------------------------------------------------------------

/// First side recorded for `id` in a return-route table.
spec fn lookup_return(s: Seq<ReturnRoute>, id: u64) -> Option<RelaySideId>
    decreases s.len(),
{
    if s.len() == 0 {
        None
    } else if s[0].packet_id == id {
        Some(s[0].side)
    } else {
        lookup_return(s.drop_first(), id)
    }
}

proof fn lemma_lookup_return_valid(s: Seq<ReturnRoute>, id: u64, n: nat)
    requires
        forall|i: int| 0 <= i < s.len() ==> #[trigger] s[i].side < n,
    ensures
        lookup_return(s, id) matches Some(x) ==> x < n,
    decreases s.len(),
{
    if s.len() > 0 {
        assert(s[0].side < n);
        assert forall|i: int| 0 <= i < s.drop_first().len() implies #[trigger] s.drop_first()[i].side < n by {
            assert(s.drop_first()[i] == s[i + 1]);
        }
        lemma_lookup_return_valid(s.drop_first(), id, n);
    }
}

/// The route targets of an acknowledgement for `id`: its return side, if
/// one was recorded.
pub open spec fn ack_route(side: Option<RelaySideId>) -> Seq<RelaySideId> {
    match side {
        Some(x) => seq![x],
        None => Seq::empty(),
    }
}

/// Whether a data type is relayed to every side regardless of routes.
pub open spec fn spec_is_discovery_type(ty: DataType) -> bool {
    ty == DataType::DiscoveryAnnounce || ty == DataType::DiscoveryTimeSyncSources
}

fn contains_u64(v: &Vec<u64>, x: u64) -> (r: bool)
    ensures
        r == v@.contains(x),
{
    let mut i: usize = 0;
    while i < v.len()
        invariant
            i <= v@.len(),
            forall|j: int| 0 <= j < i ==> v@[j] != x,
        decreases v@.len() - i,
    {
        if v[i] == x {
            return true;
        }
        i = i + 1;
    }
    false
}

fn any_common_endpoint(a: &Vec<DataEndpoint>, b: &Vec<DataEndpoint>) -> (r: bool)
    ensures
        r == exists|i: int| 0 <= i < a@.len() && b@.contains(#[trigger] a@[i]),
{
    let mut i: usize = 0;
    while i < a.len()
        invariant
            i <= a@.len(),
            forall|j: int| 0 <= j < i ==> !b@.contains(#[trigger] a@[j]),
        decreases a@.len() - i,
    {
        if contains_endpoint(b.as_slice(), a[i]) {
            return true;
        }
        i = i + 1;
    }
    false
}

impl Relay {
    /// Side on which the reliable packet `id` arrived, if recorded.
    pub closed spec fn return_side(&self, id: u64) -> Option<RelaySideId> {
        lookup_return(self.return_routes@, id)
    }

    /// Number of learned routes.
    pub closed spec fn num_routes(&self) -> nat {
        self.routes@.len()
    }

    fn find_return_route(&self, id: u64) -> (r: Option<RelaySideId>)
        requires
            self.wf(),
        ensures
            r == self.return_side(id),
            r matches Some(x) ==> x < self.num_sides(),
    {
        proof {
            lemma_lookup_return_valid(self.return_routes@, id, self.sides@.len());
            assert(self.return_routes@.skip(0) =~= self.return_routes@);
        }
        let mut i: usize = 0;
        while i < self.return_routes.len()
            invariant
                self.wf(),
                i <= self.return_routes@.len(),
                lookup_return(self.return_routes@, id) == lookup_return(self.return_routes@.skip(i as int), id),
            decreases self.return_routes@.len() - i,
        {
            proof {
                assert(self.return_routes@.skip(i as int)[0] == self.return_routes@[i as int]);
                assert(self.return_routes@.skip(i as int).drop_first() =~= self.return_routes@.skip(i + 1));
            }
            if self.return_routes[i].packet_id == id {
                return Some(self.return_routes[i].side);
            }
            i = i + 1;
        }
        None
    }

    /// Remember that the reliable packet `id` arrived on `side`.
    fn note_return_route(&mut self, side: RelaySideId, id: u64)
        requires
            old(self).wf(),
            side < old(self).num_sides(),
        ensures
            final(self).wf(),
            final(self).return_side(id) == Some(side),
            final(self).sides == old(self).sides,
            final(self).rx_queue == old(self).rx_queue,
            final(self).tx_queue == old(self).tx_queue,
            final(self).recent_rx == old(self).recent_rx,
            final(self).routes == old(self).routes,
            final(self).acked == old(self).acked,
    {
        let ghost s0 = self.return_routes@;
        let mut i: usize = 0;
        proof {
            assert(s0.skip(0) =~= s0);
        }
        while i < self.return_routes.len()
            invariant
                *self == *old(self),
                self.wf(),
                side < old(self).sides@.len(),
                i <= s0.len(),
                s0 == self.return_routes@,
                forall|j: int| 0 <= j < i ==> s0[j].packet_id != id,
            decreases s0.len() - i,
        {
            if self.return_routes[i].packet_id == id {
                self.return_routes.set(i, ReturnRoute { packet_id: id, side });
                proof {
                    let s1 = self.return_routes@;
                    assert forall|j: int| 0 <= j < s1.len() implies #[trigger] s1[j].side < self.sides@.len() by {
                        if j != i {
                            assert(s1[j] == s0[j]);
                        }
                    }
                    lemma_lookup_prefix_miss(s1, id, i as int);
                }
                return;
            }
            i = i + 1;
        }
        self.return_routes.push(ReturnRoute { packet_id: id, side });
        proof {
            let s1 = self.return_routes@;
            assert forall|j: int| 0 <= j < s1.len() implies #[trigger] s1[j].side < self.sides@.len() by {
                if j < s0.len() {
                    assert(s1[j] == s0[j]);
                }
            }
            assert forall|j: int| 0 <= j < s0.len() implies s1[j].packet_id != id by {
                assert(s1[j] == s0[j]);
            }
            lemma_lookup_prefix_miss(s1, id, s0.len() as int);
        }
    }

    /// Record that the destination `h` acknowledged packet `id`.
    fn record_ack(&mut self, id: u64, h: u64)
        requires
            old(self).wf(),
        ensures
            final(self).wf(),
            final(self).sides == old(self).sides,
            final(self).rx_queue == old(self).rx_queue,
            final(self).tx_queue == old(self).tx_queue,
            final(self).recent_rx == old(self).recent_rx,
            final(self).routes == old(self).routes,
            final(self).return_routes == old(self).return_routes,
            ack_recorded(old(self).acked@, final(self).acked@, id, h),
    {
        let mut i: usize = 0;
        while i < self.acked.len()
            invariant
                *self == *old(self),
                self.wf(),
                i <= self.acked@.len(),
                forall|j: int| 0 <= j < i ==> (#[trigger] self.acked@[j]).packet_id != id,
            decreases self.acked@.len() - i,
        {
            if self.acked[i].packet_id == id {
                let ghost o = self.acked@;
                let mut senders = vstd::slice::slice_to_vec(self.acked[i].senders.as_slice());
                if !contains_u64(&senders, h) {
                    senders.push(h);
                }
                self.acked.set(i, AckedDestinations { packet_id: id, senders });
                proof {
                    let c = choose|c: int| 0 <= c < o.len() && (#[trigger] o[c]).packet_id == id && forall|j: int|
                        0 <= j < c ==> (#[trigger] o[j]).packet_id != id;
                    assert(c == i) by {
                        if c < i {
                            assert(o[c].packet_id != id);
                        } else if c > i {
                            assert(o[i as int].packet_id != id);
                        }
                    }
                    assert(ack_recorded(o, self.acked@, id, h));
                }
                return;
            }
            i = i + 1;
        }
        let ghost o = self.acked@;
        let mut senders: Vec<u64> = Vec::new();
        senders.push(h);
        self.acked.push(AckedDestinations { packet_id: id, senders });
        proof {
            assert(self.acked@.take(o.len() as int) =~= o);
            assert(senders@ =~= seq![h]);
        }
    }

    fn find_acked(&self, id: u64) -> (r: Option<usize>)
        ensures
            r matches Some(i) ==> i < self.acked@.len() && self.acked@[i as int].packet_id == id && forall|j: int|
                0 <= j < i ==> (#[trigger] self.acked@[j]).packet_id != id,
            r is None ==> forall|j: int| 0 <= j < self.acked@.len() ==> (#[trigger] self.acked@[j]).packet_id != id,
    {
        let mut i: usize = 0;
        while i < self.acked.len()
            invariant
                i <= self.acked@.len(),
                forall|j: int| 0 <= j < i ==> (#[trigger] self.acked@[j]).packet_id != id,
            decreases self.acked@.len() - i,
        {
            if self.acked[i].packet_id == id {
                return Some(i);
            }
            i = i + 1;
        }
        None
    }

    fn find_route(&self, side: RelaySideId) -> (r: Option<usize>)
        ensures
            r matches Some(i) ==> i < self.routes@.len() && self.routes@[i as int].side == side && forall|j: int|
                0 <= j < i ==> (#[trigger] self.routes@[j]).side != side,
            r is None ==> forall|j: int| 0 <= j < self.routes@.len() ==> (#[trigger] self.routes@[j]).side != side,
    {
        let mut i: usize = 0;
        while i < self.routes.len()
            invariant
                i <= self.routes@.len(),
                forall|j: int| 0 <= j < i ==> (#[trigger] self.routes@[j]).side != side,
            decreases self.routes@.len() - i,
        {
            if self.routes[i].side == side {
                return Some(i);
            }
            i = i + 1;
        }
        None
    }

    /// Drop, for a reliable item, the sides behind which every destination
    /// that can take it has already acknowledged it end to end.
    fn filter_e2e_satisfied(&self, data: &RelayItem, sides: Vec<RelaySideId>, eps: &Vec<DataEndpoint>, ty: DataType) -> (r: TelemetryResult<Vec<RelaySideId>>)
        ensures
            r matches Ok(v) ==> forall|i: int| 0 <= i < v@.len() ==> sides@.contains(#[trigger] v@[i]),
            crate::config::spec_reliable_mode(ty) == crate::ReliableMode::Disabled ==> (r matches Ok(v) && v@ == sides@),
            crate::config::spec_reliable_mode(ty) != crate::ReliableMode::Disabled ==> match spec_ack_target(data@) {
                Err(e) => r == Err::<Vec<RelaySideId>, TelemetryError>(e),
                Ok(Some(_)) => r matches Ok(v) && v@ == sides@,
                Ok(None) => match e2e_packet_id(data@) {
                    Err(e) => r == Err::<Vec<RelaySideId>, TelemetryError>(e),
                    Ok(id) => r is Ok && ((forall|j: int| 0 <= j < self.acked@.len() ==> (#[trigger] self.acked@[j]).packet_id
                        != id) ==> (r matches Ok(v) && v@ == sides@)) && forall|ai: int|
                        #![trigger self.acked@[ai]]
                        0 <= ai < self.acked@.len() && self.acked@[ai].packet_id == id && (forall|j: int|
                            0 <= j < ai ==> (#[trigger] self.acked@[j]).packet_id != id) ==> (r matches Ok(v) && v@
                            == sides@.filter(|s: RelaySideId| side_awaits(self.routes@, s, eps@, self.acked@[ai].senders@))),
                },
            },
            e2e_outcome(self, data@, sides@, eps@, ty, match r {
                Ok(v) => Ok::<Option<Seq<RelaySideId>>, TelemetryError>(Some(v@)),
                Err(e) => Err(e),
            }),
    {
        if !is_reliable_type(ty) {
            return Ok(sides);
        }
        if reliable_control_target_packet_id(data)?.is_some() {
            return Ok(sides);
        }
        let packet_id = match data {
            RouterItem::Packet(p) => p.packet_id(),
            RouterItem::Serialized(b) => serialize::packet_id_from_wire(b.as_slice())?,
        };
        let ai = match self.find_acked(packet_id) {
            Some(ai) => ai,
            None => {
                return Ok(sides);
            },
        };
        let acked = &self.acked[ai].senders;
        let ghost keep = |s: RelaySideId| side_awaits(self.routes@, s, eps@, acked@);
        let mut filtered: Vec<RelaySideId> = Vec::new();
        let mut k: usize = 0;
        assert(sides@.take(0).filter(keep) =~= Seq::<RelaySideId>::empty());
        while k < sides.len()
            invariant
                k <= sides@.len(),
                forall|i: int| 0 <= i < filtered@.len() ==> sides@.contains(#[trigger] filtered@[i]),
                keep == (|s: RelaySideId| side_awaits(self.routes@, s, eps@, acked@)),
                filtered@ == sides@.take(k as int).filter(keep),
            decreases sides@.len() - k,
        {
            let side = sides[k];
            proof {
                assert(sides@.take(k + 1) =~= sides@.take(k as int).push(side));
                sides@.take(k as int).lemma_filter_push(side, keep);
            }
            match self.find_route(side) {
                None => {
                    filtered.push(side);
                    proof {
                        assert(sides@[k as int] == side);
                        assert(side_awaits(self.routes@, side, eps@, acked@));
                    }
                },
                Some(ri) => {
                    let route = &self.routes[ri];
                    let mut pending = false;
                    let mut had_dest = false;
                    let mut j: usize = 0;
                    while j < route.announcers.len() && !pending
                        invariant
                            j <= route.announcers@.len(),
                            had_dest == exists|k2: int| 0 <= k2 < j && e2e_destination(#[trigger] route.announcers@[k2]),
                            pending == exists|k2: int| 0 <= k2 < j && announcer_awaits(#[trigger] route.announcers@[k2], eps@, acked@),
                        decreases route.announcers@.len() - j,
                    {
                        let a = &route.announcers[j];
                        let ghost was = had_dest;
                        if is_end_to_end_destination_sender(a.sender.as_str()) {
                            had_dest = true;
                            let b = a.sender.as_str().as_bytes();
                            proof {
                                assert(b@ == vstd::utf8::encode_utf8(a.sender@));
                            }
                            if any_common_endpoint(eps, &a.reachable) && !contains_u64(acked, sender_hash(b)) {
                                pending = true;
                            }
                        }
                        proof {
                            if pending {
                                assert(announcer_awaits(route.announcers@[j as int], eps@, acked@));
                            } else {
                                assert(!announcer_awaits(route.announcers@[j as int], eps@, acked@));
                            }
                            if had_dest && !was {
                                assert(e2e_destination(route.announcers@[j as int]));
                            }
                        }
                        j = j + 1;
                    }
                    proof {
                        assert(route_awaits(*route, eps@, acked@) == (pending || !had_dest));
                        assert forall|ri2: int|
                            0 <= ri2 < self.routes@.len() && (#[trigger] self.routes@[ri2]).side == side && (forall|j2: int|
                                0 <= j2 < ri2 ==> (#[trigger] self.routes@[j2]).side != side) implies ri2 == ri as int by {
                            if ri2 < ri as int {
                                assert(self.routes@[ri2].side != side);
                            }
                            if ri2 > ri as int {
                                assert(self.routes@[ri as int].side != side);
                            }
                        }
                        assert(side_awaits(self.routes@, side, eps@, acked@) == route_awaits(*route, eps@, acked@));
                    }
                    if pending || !had_dest {
                        filtered.push(side);
                        proof {
                            assert(sides@[k as int] == side);
                        }
                    }
                },
            }
            k = k + 1;
        }
        assert(sides@.take(k as int) =~= sides@);
        Ok(filtered)
    }

    fn link_local_sides(&self, exclude: RelaySideId) -> (r: Vec<RelaySideId>)
        ensures
            forall|i: int| 0 <= i < r@.len() ==> #[trigger] r@[i] < self.sides@.len() && r@[i] != exclude,
            r@ == Seq::new(self.sides@.len(), |s: int| s as usize).filter(
                |s: usize| s != exclude && self.sides@[s as int].opts.link_local_enabled,
            ),
    {
        let ghost all = Seq::new(self.sides@.len(), |s: int| s as usize);
        let ghost pred = |s: usize| s != exclude && self.sides@[s as int].opts.link_local_enabled;
        let mut out: Vec<RelaySideId> = Vec::new();
        let mut i: usize = 0;
        assert(all.take(0).filter(pred) =~= Seq::<usize>::empty());
        while i < self.sides.len()
            invariant
                i <= self.sides@.len(),
                all == Seq::new(self.sides@.len(), |s: int| s as usize),
                pred == (|s: usize| s != exclude && self.sides@[s as int].opts.link_local_enabled),
                out@ == all.take(i as int).filter(pred),
                forall|k: int| 0 <= k < out@.len() ==> #[trigger] out@[k] < self.sides@.len() && out@[k] != exclude,
            decreases self.sides@.len() - i,
        {
            proof {
                assert(all.take(i + 1) =~= all.take(i as int).push(i));
                all.take(i as int).lemma_filter_push(i, pred);
            }
            if i != exclude && self.sides[i].opts.link_local_enabled {
                out.push(i);
            }
            i = i + 1;
        }
        assert(all.take(i as int) =~= all);
        out
    }

    /// Which sides get a copy of `data` received on `exclude`.
    ///
    /// An end-to-end acknowledgement goes back on the side its packet came
    /// from (nowhere if unknown); discovery messages, and any item while no
    /// routes are known, flood every side (link-local-only items only the
    /// sides that allow them); otherwise the fresh routes that lead to the
    /// preferred time source, else those that reach an endpoint of the item,
    /// minus sides whose destinations all acknowledged it end to end.
    #[verifier::rlimit(80)]
    #[verifier::spinoff_prover]
    fn remote_side_plan(&self, data: &RelayItem, exclude: RelaySideId) -> (r: TelemetryResult<RemoteSidePlan>)
        requires
            self.wf(),
        ensures
            r matches Ok(RemoteSidePlan::Target(t)) ==> forall|i: int| 0 <= i < t@.len() ==> #[trigger] t@[i] < self.num_sides(),
            spec_ack_target(data@) == Ok::<Option<u64>, TelemetryError>(None) ==> (r matches Ok(RemoteSidePlan::Target(t))
                ==> forall|i: int| 0 <= i < t@.len() ==> #[trigger] t@[i] != exclude),
            data@ matches ItemModel::Packet(p) ==> match spec_ack_target_of_packet(p) {
                Err(e) => r == Err::<RemoteSidePlan, TelemetryError>(e),
                Ok(Some(id)) => r matches Ok(RemoteSidePlan::Target(t)) && t@ == ack_route(self.return_side(id)),
                Ok(None) => {
                    &&& spec_is_discovery_type(p.ty) ==> (r matches Ok(RemoteSidePlan::Flood))
                    &&& self.num_routes() == 0 && !spec_all_link_local(spec_canonical_endpoints(p.endpoints))
                        ==> (r matches Ok(RemoteSidePlan::Flood))
                    &&& !spec_is_discovery_type(p.ty) && self.num_routes() == 0 && spec_all_link_local(
                        spec_canonical_endpoints(p.endpoints),
                    ) ==> (r matches Ok(RemoteSidePlan::Target(t)) && t@ == Seq::new(
                        self.sides@.len(),
                        |s: int| s as usize,
                    ).filter(|s: usize| s != exclude && self.sides@[s as int].opts.link_local_enabled))
                },
            },
            match relay_item_header(data@) {
                Some(h) => match spec_ack_target(data@) {
                    Err(e) => r == Err::<RemoteSidePlan, TelemetryError>(e),
                    Ok(Some(id)) => r matches Ok(RemoteSidePlan::Target(t)) && t@ == ack_route(self.return_side(id)),
                    Ok(None) => if spec_is_discovery_type(h.1) {
                        r matches Ok(RemoteSidePlan::Flood)
                    } else {
                        exists|now_ms: u64| #[trigger] relay_plan_outcome(self, data@, h.0, h.1, exclude, now_ms, plan_result(r))
                    },
                },
                None => r is Err,
            },
    {
        let (eps, ty) = match data {
            RouterItem::Packet(pkt) => (canonical_endpoints(pkt.endpoints()), pkt.data_type()),
            RouterItem::Serialized(bytes) => {
                let env = serialize::peek_envelope(bytes.as_slice())?;
                (canonical_endpoints(env.endpoints.as_slice()), env.ty)
            },
        };
        match reliable_control_target_packet_id(data)? {
            Some(id) => {
                let t = match self.find_return_route(id) {
                    Some(side) => {
                        let mut v: Vec<RelaySideId> = Vec::new();
                        v.push(side);
                        v
                    },
                    None => Vec::new(),
                };
                proof {
                    assert(t@ =~= ack_route(self.return_side(id)));
                }
                return Ok(RemoteSidePlan::Target(t));
            },
            None => {},
        }
        if discovery::is_discovery_type(ty) {
            return Ok(RemoteSidePlan::Flood);
        }
        let preferred: Option<String> = if ty == DataType::TimeSyncAnnounce || ty == DataType::TimeSyncResponse {
            match data {
                RouterItem::Packet(p) => Some(p.sender().to_owned()),
                RouterItem::Serialized(b) => match serialize::deserialize_packet(b.as_slice()) {
                    Ok(q) => Some(q.sender().to_owned()),
                    Err(e) => {
                        assert(relay_plan_outcome(self, data@, eps@, ty, exclude, 0, Err(e)));
                        assert(relay_item_header(data@) == Some((eps@, ty)));
                        return Err(e);
                    },
                },
            }
        } else {
            None
        };
        let restrict_ll = crate::router::endpoints_are_link_local_only(eps.as_slice());
        let ghost pref: Option<Seq<char>> = match &preferred {
            Some(x) => Some(x@),
            None => None,
        };
        assert(relay_preferred(data@, ty) == Ok::<Option<Seq<char>>, TelemetryError>(relay_opt_text(preferred)));
        assert(relay_item_header(data@) == Some((eps@, ty)));
        if self.routes.len() == 0 {
            let res = if restrict_ll {
                let t = self.link_local_sides(exclude);
                proof {
                    lemma_ll_sides(self, exclude, t@);
                }
                Ok(RemoteSidePlan::Target(t))
            } else {
                Ok(RemoteSidePlan::Flood)
            };
            assert(restrict_ll == spec_all_link_local(eps@));
            assert(self.routes@.len() == 0);
            assert(plan_result(res) == Ok::<Option<Seq<RelaySideId>>, TelemetryError>(
                if restrict_ll {
                    Some(relay_ll_sides(self, exclude))
                } else {
                    None
                },
            ));
            assert(relay_plan_outcome(self, data@, eps@, ty, exclude, 0, plan_result(res)));
            proof {
                let h = relay_item_header(data@)->Some_0;
                assert(h.0 == eps@ && h.1 == ty);
                assert(relay_plan_outcome(self, data@, h.0, h.1, exclude, 0, plan_result(res)));
            }
            return res;
        }
        let now_ms = self.clock.now_ms();
        let (exact, generic) = self.routed_candidates(&eps, &preferred, exclude, restrict_ll, now_ms);
        let ghost ex = exact@;
        let ghost ge = generic@;
        let res = if exact.len() > 0 {
            match self.filter_e2e_satisfied(data, exact, &eps, ty) {
                Ok(t) => Ok(RemoteSidePlan::Target(t)),
                Err(e) => Err(e),
            }
        } else if generic.len() > 0 {
            match self.filter_e2e_satisfied(data, generic, &eps, ty) {
                Ok(t) => Ok(RemoteSidePlan::Target(t)),
                Err(e) => Err(e),
            }
        } else if restrict_ll {
            let t = self.link_local_sides(exclude);
            proof {
                lemma_ll_sides(self, exclude, t@);
            }
            Ok(RemoteSidePlan::Target(t))
        } else {
            Ok(RemoteSidePlan::Flood)
        };
        proof {
            let pref = relay_opt_text(preferred);
            assert(ex == relay_exact_sides(self, pref, exclude, spec_all_link_local(eps@), now_ms));
            assert(ge == relay_generic_sides(self, eps@, pref, exclude, spec_all_link_local(eps@), now_ms));
        }
        proof {
            let h = relay_item_header(data@)->Some_0;
            assert(h.0 == eps@ && h.1 == ty);
            assert(relay_plan_outcome(self, data@, h.0, h.1, exclude, now_ms, plan_result(res)));
        }
        res
    }

    /// The sides of the allowed routes at `now_ms` that reach the preferred
    /// source, and those of the others that reach one of `eps`, in route
    /// order.
    fn routed_candidates(
        &self,
        eps: &Vec<DataEndpoint>,
        preferred: &Option<String>,
        exclude: RelaySideId,
        restrict_ll: bool,
        now_ms: u64,
    ) -> (r: (Vec<RelaySideId>, Vec<RelaySideId>))
        requires
            self.wf(),
        ensures
            r.0@ == relay_exact_sides(self, relay_opt_text(*preferred), exclude, restrict_ll, now_ms),
            r.1@ == relay_generic_sides(self, eps@, relay_opt_text(*preferred), exclude, restrict_ll, now_ms),
            forall|k: int| 0 <= k < r.0@.len() ==> #[trigger] r.0@[k] < self.sides@.len() && r.0@[k] != exclude,
            forall|k: int| 0 <= k < r.1@.len() ==> #[trigger] r.1@[k] < self.sides@.len() && r.1@[k] != exclude,
    {
        let ghost pref = relay_opt_text(*preferred);
        let ghost pe = |x: RelayRoute| relay_allowed(self, x, exclude, restrict_ll, now_ms) && relay_exact(x, pref);
        let ghost pg = |x: RelayRoute|
            relay_allowed(self, x, exclude, restrict_ll, now_ms) && !relay_exact(x, pref) && relay_knows(x, eps@);
        let ghost side_of = |x: RelayRoute| x.side;
        let mut exact: Vec<RelaySideId> = Vec::new();
        let mut generic: Vec<RelaySideId> = Vec::new();
        let mut i: usize = 0;
        assert(self.routes@.take(0).filter(pe).map_values(side_of) =~= Seq::<RelaySideId>::empty());
        assert(self.routes@.take(0).filter(pg).map_values(side_of) =~= Seq::<RelaySideId>::empty());
        while i < self.routes.len()
            invariant
                self.wf(),
                i <= self.routes@.len(),
                pref == relay_opt_text(*preferred),
                pe == (|x: RelayRoute| relay_allowed(self, x, exclude, restrict_ll, now_ms) && relay_exact(x, pref)),
                pg == (|x: RelayRoute|
                    relay_allowed(self, x, exclude, restrict_ll, now_ms) && !relay_exact(x, pref) && relay_knows(x, eps@)),
                side_of == (|x: RelayRoute| x.side),
                exact@ == self.routes@.take(i as int).filter(pe).map_values(side_of),
                generic@ == self.routes@.take(i as int).filter(pg).map_values(side_of),
                forall|k: int| 0 <= k < exact@.len() ==> #[trigger] exact@[k] < self.sides@.len() && exact@[k] != exclude,
                forall|k: int| 0 <= k < generic@.len() ==> #[trigger] generic@[k] < self.sides@.len() && generic@[k] != exclude,
            decreases self.routes@.len() - i,
        {
            let route = &self.routes[i];
            let side = route.side;
            let ghost x = self.routes@[i as int];
            assert(x.side < self.sides@.len());
            proof {
                assert(self.routes@.take(i + 1) =~= self.routes@.take(i as int).push(x));
                self.routes@.take(i as int).lemma_filter_push(x, pe);
                self.routes@.take(i as int).lemma_filter_push(x, pg);
            }
            let stale = now_ms.saturating_sub(route.last_seen_ms) > DISCOVERY_ROUTE_TTL_MS;
            let ll_blocked = restrict_ll && !self.sides[side].opts.link_local_enabled;
            let allowed = side != exclude && !stale && !ll_blocked;
            assert(allowed == relay_allowed(self, x, exclude, restrict_ll, now_ms));
            let is_exact = match preferred {
                Some(src) => crate::router::contains_string(&route.sources, src.as_str()),
                None => false,
            };
            assert(is_exact == relay_exact(x, pref));
            let ghost ex0 = exact@;
            let ghost ge0 = generic@;
            if allowed && is_exact {
                exact.push(side);
            } else if allowed && any_common_endpoint(&eps, &route.reachable) {
                generic.push(side);
            }
            proof {
                assert(exact@ =~= self.routes@.take(i + 1).filter(pe).map_values(side_of));
                assert(generic@ =~= self.routes@.take(i + 1).filter(pg).map_values(side_of));
            }
            i = i + 1;
        }
        assert(self.routes@.take(i as int) =~= self.routes@);
        (exact, generic)
    }
}

/// The endpoints (sorted without repeats) and type in the header of item
/// `d`, where it can be read.
pub open spec fn relay_item_header(d: ItemModel) -> Option<(Seq<DataEndpoint>, DataType)> {
    match d {
        ItemModel::Packet(p) => Some((spec_canonical_endpoints(p.endpoints), p.ty)),
        ItemModel::Serialized(b) => match serialize::spec_peek(b) {
            Ok(env) => Some((spec_canonical_endpoints(env.endpoints), env.ty)),
            Err(_) => None,
        },
    }
}

/// The text of an optional string.
pub open spec fn relay_opt_text(o: Option<String>) -> Option<Seq<char>> {
    match o {
        Some(x) => Some(x@),
        None => None,
    }
}

/// The time source that relaying an item of type `ty` prefers: the sender
/// of a time sync announce or response.
pub open spec fn relay_preferred(d: ItemModel, ty: DataType) -> TelemetryResult<Option<Seq<char>>> {
    if ty == DataType::TimeSyncAnnounce || ty == DataType::TimeSyncResponse {
        match crate::router::item_packet(d) {
            Ok(p) => Ok(Some(p.sender)),
            Err(e) => Err(e),
        }
    } else {
        Ok(None)
    }
}

/// Route `x` may carry an item at `now_ms`: not the excluded side, fresh,
/// and, for a link-local-only item, on a side allowing link-local traffic.
spec fn relay_allowed(r: &Relay, x: RelayRoute, exclude: RelaySideId, restrict_ll: bool, now_ms: u64) -> bool {
    &&& x.side != exclude
    &&& relay_route_fresh(x, now_ms)
    &&& !(restrict_ll && !r.sides@[x.side as int].opts.link_local_enabled)
}

/// Route `x` names the preferred time source `pref`.
spec fn relay_exact(x: RelayRoute, pref: Option<Seq<char>>) -> bool {
    match pref {
        Some(src) => exists|j: int| 0 <= j < x.sources@.len() && #[trigger] x.sources@[j]@ == src,
        None => false,
    }
}

/// Route `x` reaches one of the endpoints `eps`.
spec fn relay_knows(x: RelayRoute, eps: Seq<DataEndpoint>) -> bool {
    exists|i: int| 0 <= i < eps.len() && x.reachable@.contains(#[trigger] eps[i])
}

/// The sides of the allowed routes that name the preferred source.
spec fn relay_exact_sides(
    r: &Relay,
    pref: Option<Seq<char>>,
    exclude: RelaySideId,
    restrict_ll: bool,
    now_ms: u64,
) -> Seq<RelaySideId> {
    r.routes@.filter(|x: RelayRoute| relay_allowed(r, x, exclude, restrict_ll, now_ms) && relay_exact(x, pref)).map_values(
        |x: RelayRoute| x.side,
    )
}

/// The sides of the other allowed routes that reach one of `eps`.
spec fn relay_generic_sides(
    r: &Relay,
    eps: Seq<DataEndpoint>,
    pref: Option<Seq<char>>,
    exclude: RelaySideId,
    restrict_ll: bool,
    now_ms: u64,
) -> Seq<RelaySideId> {
    r.routes@.filter(
        |x: RelayRoute| relay_allowed(r, x, exclude, restrict_ll, now_ms) && !relay_exact(x, pref) && relay_knows(x, eps),
    ).map_values(|x: RelayRoute| x.side)
}

/// The sides allowing link-local traffic, other than `exclude`.
spec fn relay_ll_sides(r: &Relay, exclude: RelaySideId) -> Seq<RelaySideId> {
    Seq::new(r.sides@.len(), |s: int| s as usize).filter(ll_pred(r, exclude))
}

/// Side `s` is not `exclude` and allows link-local traffic.
spec fn ll_pred(r: &Relay, exclude: RelaySideId) -> spec_fn(usize) -> bool {
    |s: usize| s != exclude && r.sides@[s as int].opts.link_local_enabled
}

/// The link-local sides, as `link_local_sides` states them.
proof fn lemma_ll_sides(r: &Relay, exclude: RelaySideId, t: Seq<RelaySideId>)
    requires
        t == Seq::new(r.sides@.len(), |s: int| s as usize).filter(
            |s: usize| s != exclude && r.sides@[s as int].opts.link_local_enabled,
        ),
    ensures
        t == relay_ll_sides(r, exclude),
{
    let a = Seq::new(r.sides@.len(), |s: int| s as usize);
    let f = |s: usize| s != exclude && r.sides@[s as int].opts.link_local_enabled;
    assert(t == a.filter(f));
    assert(f =~= ll_pred(r, exclude));
    assert(a =~= Seq::new(r.sides@.len(), |s: int| s as usize));
}

/// The sides a plan sends to: every side other than `src` for a flood,
/// else the listed sides.
pub open spec fn plan_sides(n: nat, src: RelaySideId, pv: Option<Seq<RelaySideId>>) -> Seq<RelaySideId> {
    match pv {
        None => flood_targets(n, src),
        Some(t) => t,
    }
}

/// `res` is what dropping, from candidate sides `c`, those whose every
/// destination has acknowledged item `d` end to end gives.
spec fn e2e_outcome(
    r: &Relay,
    d: ItemModel,
    c: Seq<RelaySideId>,
    eps: Seq<DataEndpoint>,
    ty: DataType,
    res: TelemetryResult<Option<Seq<RelaySideId>>>,
) -> bool {
    &&& crate::config::spec_reliable_mode(ty) == crate::ReliableMode::Disabled ==> res == Ok::<
        Option<Seq<RelaySideId>>,
        TelemetryError,
    >(Some(c))
    &&& crate::config::spec_reliable_mode(ty) != crate::ReliableMode::Disabled ==> match spec_ack_target(d) {
        Err(e) => res == Err::<Option<Seq<RelaySideId>>, TelemetryError>(e),
        Ok(Some(_)) => res == Ok::<Option<Seq<RelaySideId>>, TelemetryError>(Some(c)),
        Ok(None) => match e2e_packet_id(d) {
            Err(e) => res == Err::<Option<Seq<RelaySideId>>, TelemetryError>(e),
            Ok(id) => ((forall|j: int| 0 <= j < r.acked@.len() ==> (#[trigger] r.acked@[j]).packet_id != id) ==> res
                == Ok::<Option<Seq<RelaySideId>>, TelemetryError>(Some(c))) && forall|ai: int|
                #![trigger r.acked@[ai]]
                0 <= ai < r.acked@.len() && r.acked@[ai].packet_id == id && (forall|j: int|
                    0 <= j < ai ==> (#[trigger] r.acked@[j]).packet_id != id) ==> res == Ok::<
                    Option<Seq<RelaySideId>>,
                    TelemetryError,
                >(Some(c.filter(|s: RelaySideId| side_awaits(r.routes@, s, eps, r.acked@[ai].senders@)))),
        },
    }
}

/// A side plan result as a value: `None` to flood, else the target sides.
pub open spec fn plan_result(r: TelemetryResult<RemoteSidePlan>) -> TelemetryResult<Option<Seq<RelaySideId>>> {
    match r {
        Ok(RemoteSidePlan::Flood) => Ok(None),
        Ok(RemoteSidePlan::Target(v)) => Ok(Some(v@)),
        Err(e) => Err(e),
    }
}

/// `res` is the relay's side plan for item `d` (endpoints `eps`, type `ty`,
/// ingress side `exclude`) at `now_ms`: with no learned route, the
/// link-local sides for a link-local-only item, else flood; otherwise the
/// sides whose fresh routes name the preferred source, else those whose
/// fresh routes reach an endpoint (both without the sides whose
/// destinations all acknowledged it end to end), else the link-local
/// sides for a link-local-only item, else flood.
pub closed spec fn relay_plan_outcome(
    r: &Relay,
    d: ItemModel,
    eps: Seq<DataEndpoint>,
    ty: DataType,
    exclude: RelaySideId,
    now_ms: u64,
    res: TelemetryResult<Option<Seq<RelaySideId>>>,
) -> bool {
    let ll = spec_all_link_local(eps);
    match relay_preferred(d, ty) {
        Err(e) => res == Err::<Option<Seq<RelaySideId>>, TelemetryError>(e),
        Ok(pref) => if r.routes@.len() == 0 {
            res == Ok::<Option<Seq<RelaySideId>>, TelemetryError>(
                if ll {
                    Some(relay_ll_sides(r, exclude))
                } else {
                    None
                },
            )
        } else {
            let ex = relay_exact_sides(r, pref, exclude, ll, now_ms);
            let ge = relay_generic_sides(r, eps, pref, exclude, ll, now_ms);
            if ex.len() > 0 {
                e2e_outcome(r, d, ex, eps, ty, res)
            } else if ge.len() > 0 {
                e2e_outcome(r, d, ge, eps, ty, res)
            } else {
                res == Ok::<Option<Seq<RelaySideId>>, TelemetryError>(
                    if ll {
                        Some(relay_ll_sides(r, exclude))
                    } else {
                        None
                    },
                )
            }
        },
    }
}

/// Learned route `i` of relay `r` may carry an item at `now_ms`: its side is
/// not `exclude`, it was heard within the route lifetime, and, for an item
/// with link-local-only endpoints, its side allows link-local traffic.
pub open spec fn relay_may_use(r: &Relay, i: int, exclude: RelaySideId, restrict_ll: bool, now_ms: u64) -> bool {
    &&& r.learned_side(i) != exclude
    &&& (if now_ms >= r.learned_last_seen(i) { now_ms - r.learned_last_seen(i) } else { 0 }) <= DISCOVERY_ROUTE_TTL_MS
    &&& !(restrict_ll && !r.side_link_local(r.learned_side(i) as int))
}

/// Learned route `i` of relay `r` reaches one of the endpoints `eps`.
pub open spec fn relay_route_reaches(r: &Relay, i: int, eps: Seq<DataEndpoint>) -> bool {
    exists|k: int| 0 <= k < eps.len() && r.learned_reachable(i).contains(#[trigger] eps[k])
}

/// Route `i` of `r` as the side plan reads it.
proof fn lemma_relay_route_reading(
    r: &Relay,
    i: int,
    eps: Seq<DataEndpoint>,
    pref: Option<Seq<char>>,
    exclude: RelaySideId,
    restrict_ll: bool,
    now_ms: u64,
)
    requires
        0 <= i < r.num_routes(),
    ensures
        relay_allowed(r, r.routes@[i], exclude, restrict_ll, now_ms) == relay_may_use(r, i, exclude, restrict_ll, now_ms),
        relay_knows(r.routes@[i], eps) == relay_route_reaches(r, i, eps),
        relay_exact(r.routes@[i], pref) == (pref matches Some(src) && r.learned_sources(i).contains(src)),
{
    if let Some(src) = pref {
        let ss = r.routes@[i].sources@;
        if relay_exact(r.routes@[i], pref) {
            let j = choose|j: int| 0 <= j < ss.len() && #[trigger] ss[j]@ == src;
            assert(r.learned_sources(i)[j] == src);
        }
        if r.learned_sources(i).contains(src) {
            let j = choose|j: int| 0 <= j < r.learned_sources(i).len() && r.learned_sources(i)[j] == src;
            assert(ss[j]@ == src);
        }
    }
}

/// When an acknowledgement entry for `id` exists, a first one does.
#[verifier::spinoff_prover]
proof fn lemma_first_acked(a: Seq<AckedDestinations>, id: u64)
    requires
        exists|j: int| 0 <= j < a.len() && #[trigger] a[j].packet_id == id,
    ensures
        exists|ai: int|
            0 <= ai < a.len() && #[trigger] a[ai].packet_id == id && forall|j: int| 0 <= j < ai ==> a[j].packet_id != id,
    decreases a.len(),
{
    let n = a.len() - 1;
    let p = a.drop_last();
    if exists|j: int| 0 <= j < n && #[trigger] a[j].packet_id == id {
        let j1 = choose|j: int| 0 <= j < n && #[trigger] a[j].packet_id == id;
        assert(p[j1].packet_id == id);
        lemma_first_acked(p, id);
        let ai = choose|ai: int|
            0 <= ai < p.len() && #[trigger] p[ai].packet_id == id && forall|j: int| 0 <= j < ai ==> p[j].packet_id != id;
        assert(a[ai].packet_id == id);
        assert forall|j: int| 0 <= j < ai implies a[j].packet_id != id by {
            assert(p[j] == a[j]);
        }
    } else {
        let j0 = choose|j: int| 0 <= j < a.len() && #[trigger] a[j].packet_id == id;
        assert(j0 == n);
        assert(a[n].packet_id == id);
    }
}

/// The relay's side plan follows its learned routes: when no usable route
/// reaches the item's preferred time source and some usable route reaches
/// one of its endpoints, every side the plan names is the side of a usable
/// route reaching one of those endpoints; and without end-to-end
/// acknowledgement tracking for the item's type, the plan names the side of
/// every such route.
#[verifier::spinoff_prover]
pub proof fn lemma_relay_plan_follows_routes(
    r: &Relay,
    d: ItemModel,
    eps: Seq<DataEndpoint>,
    ty: DataType,
    exclude: RelaySideId,
    now_ms: u64,
    res: TelemetryResult<Option<Seq<RelaySideId>>>,
)
    requires
        relay_plan_outcome(r, d, eps, ty, exclude, now_ms, res),
        relay_preferred(d, ty) matches Ok(pref) && forall|i: int|
            0 <= i < r.num_routes() && #[trigger] relay_may_use(r, i, exclude, spec_all_link_local(eps), now_ms) ==> !(
            pref matches Some(src) && r.learned_sources(i).contains(src)),
        exists|i: int|
            0 <= i < r.num_routes() && #[trigger] relay_may_use(r, i, exclude, spec_all_link_local(eps), now_ms)
                && relay_route_reaches(r, i, eps),
    ensures
        res matches Ok(Some(t)) ==> forall|m: int|
            #![trigger t[m]]
            0 <= m < t.len() ==> exists|i: int|
                0 <= i < r.num_routes() && #[trigger] r.learned_side(i) == t[m] && relay_may_use(
                    r,
                    i,
                    exclude,
                    spec_all_link_local(eps),
                    now_ms,
                ) && relay_route_reaches(r, i, eps),
        crate::config::spec_reliable_mode(ty) == crate::ReliableMode::Disabled ==> (res matches Ok(Some(t)) && forall|
            i: int,
        |
            0 <= i < r.num_routes() && relay_may_use(r, i, exclude, spec_all_link_local(eps), now_ms)
                && relay_route_reaches(r, i, eps) ==> t.contains(#[trigger] r.learned_side(i))),
{
    let ll = spec_all_link_local(eps);
    let pref = relay_preferred(d, ty)->Ok_0;
    let rs = r.routes@;
    let pe = |x: RelayRoute| relay_allowed(r, x, exclude, ll, now_ms) && relay_exact(x, pref);
    let pg = |x: RelayRoute| relay_allowed(r, x, exclude, ll, now_ms) && !relay_exact(x, pref) && relay_knows(x, eps);
    let side_of = |x: RelayRoute| x.side;
    let fe = rs.filter(pe);
    if fe.len() > 0 {
        rs.lemma_filter_pred(pe, 0);
        rs.lemma_filter_contains_rev(pe, fe[0]);
        let i = choose|i: int| 0 <= i < rs.len() && rs[i] == fe[0];
        lemma_relay_route_reading(r, i, eps, pref, exclude, ll, now_ms);
        assert(relay_may_use(r, i, exclude, ll, now_ms));
        assert(false);
    }
    let i0 = choose|i: int|
        0 <= i < r.num_routes() && #[trigger] relay_may_use(r, i, exclude, ll, now_ms) && relay_route_reaches(r, i, eps);
    let fg = rs.filter(pg);
    lemma_relay_route_reading(r, i0, eps, pref, exclude, ll, now_ms);
    rs.lemma_filter_contains(pg, i0);
    assert(fg.len() > 0);
    let ge = fg.map_values(side_of);
    assert(relay_exact_sides(r, pref, exclude, ll, now_ms).len() == 0);
    assert(relay_generic_sides(r, eps, pref, exclude, ll, now_ms) == ge);
    assert(e2e_outcome(r, d, ge, eps, ty, res));
    // Every side of `ge` is the side of a usable route reaching `eps`.
    assert forall|m: int| #![trigger ge[m]] 0 <= m < ge.len() implies exists|i: int|
        0 <= i < r.num_routes() && #[trigger] r.learned_side(i) == ge[m] && relay_may_use(r, i, exclude, ll, now_ms)
            && relay_route_reaches(r, i, eps) by {
        rs.lemma_filter_pred(pg, m);
        rs.lemma_filter_contains_rev(pg, fg[m]);
        let i = choose|i: int| 0 <= i < rs.len() && rs[i] == fg[m];
        lemma_relay_route_reading(r, i, eps, pref, exclude, ll, now_ms);
        assert(r.learned_side(i) == ge[m]);
    }
    if let Ok(Some(t)) = res {
        // The plan is `ge`, or `ge` with sides dropped.
        assert(t == ge || exists|g: spec_fn(RelaySideId) -> bool| t == ge.filter(g)) by {
            if crate::config::spec_reliable_mode(ty) != crate::ReliableMode::Disabled {
                if let Ok(None) = spec_ack_target(d) {
                    if let Ok(id) = e2e_packet_id(d) {
                        if exists|j: int| 0 <= j < r.acked@.len() && r.acked@[j].packet_id == id {
                            lemma_first_acked(r.acked@, id);
                            let ai = choose|ai: int|
                                0 <= ai < r.acked@.len() && #[trigger] r.acked@[ai].packet_id == id && forall|j: int|
                                    0 <= j < ai ==> r.acked@[j].packet_id != id;
                            let g = |s: RelaySideId| side_awaits(r.routes@, s, eps, r.acked@[ai].senders@);
                            assert(t == ge.filter(g));
                        }
                    }
                }
            }
        }
        assert forall|m: int| #![trigger t[m]] 0 <= m < t.len() implies exists|i: int|
            0 <= i < r.num_routes() && #[trigger] r.learned_side(i) == t[m] && relay_may_use(r, i, exclude, ll, now_ms)
                && relay_route_reaches(r, i, eps) by {
            if t != ge {
                let g = choose|g: spec_fn(RelaySideId) -> bool| t == ge.filter(g);
                ge.lemma_filter_contains_rev(g, t[m]);
                let k = choose|k: int| 0 <= k < ge.len() && ge[k] == t[m];
                assert(exists|i: int|
                    0 <= i < r.num_routes() && #[trigger] r.learned_side(i) == ge[k] && relay_may_use(r, i, exclude, ll, now_ms)
                        && relay_route_reaches(r, i, eps));
            } else {
                assert(exists|i: int|
                    0 <= i < r.num_routes() && #[trigger] r.learned_side(i) == ge[m] && relay_may_use(r, i, exclude, ll, now_ms)
                        && relay_route_reaches(r, i, eps));
            }
        }
    }
    assert forall|i: int|
        0 <= i < r.num_routes() && relay_may_use(r, i, exclude, ll, now_ms) && relay_route_reaches(r, i, eps) implies ge.contains(
        #[trigger] r.learned_side(i),
    ) by {
        lemma_relay_route_reading(r, i, eps, pref, exclude, ll, now_ms);
        rs.lemma_filter_contains(pg, i);
        let k = choose|k: int| 0 <= k < fg.len() && fg[k] == rs[i];
        assert(ge[k] == r.learned_side(i));
    }
}

/// Looking `id` up in `s` gives the entry at `i` when no earlier entry
/// has that identifier.
proof fn lemma_lookup_prefix_miss(s: Seq<ReturnRoute>, id: u64, i: int)
    requires
        0 <= i < s.len(),
        s[i].packet_id == id,
        forall|j: int| 0 <= j < i ==> s[j].packet_id != id,
    ensures
        lookup_return(s, id) == Some(s[i].side),
    decreases i,
{
    if i > 0 {
        assert forall|j: int| 0 <= j < i - 1 implies s.drop_first()[j].packet_id != id by {
            assert(s.drop_first()[j] == s[j + 1]);
        }
        lemma_lookup_prefix_miss(s.drop_first(), id, i - 1);
    }
}


// ---------------------------------------------------------------------------
// Receive processing
// ---------------------------------------------------------------------------

/// The payload check of a hop-by-hop reliable control message: two
/// little-endian `u32`, a known data type and a sequence number.
pub open spec fn spec_check_reliable_control(payload: Seq<u8>) -> TelemetryResult<()> {
    if payload.len() != 8 {
        Err(TelemetryError::Deserialize("bad reliable control payload"))
    } else if le_value(payload.subrange(0, 4)) > crate::config::MAX_VALUE_DATA_TYPE {
        Err(TelemetryError::InvalidType)
    } else {
        Ok(())
    }
}

fn check_reliable_control(payload: &[u8]) -> (r: TelemetryResult<()>)
    ensures
        r == spec_check_reliable_control(payload@),
{
    if payload.len() != 8 {
        return Err(TelemetryError::Deserialize("bad reliable control payload"));
    }
    let t = read_u32_le(payload, 0);
    match DataType::try_from_u32(t) {
        Some(_) => Ok(()),
        None => Err(TelemetryError::InvalidType),
    }
}

/// Sides `0..n` except `src`, ascending.
fn flood_list(n: usize, src: RelaySideId) -> (r: Vec<RelaySideId>)
    ensures
        r@ == flood_targets(n as nat, src),
{
    let mut out: Vec<RelaySideId> = Vec::new();
    let mut i: usize = 0;
    while i < n
        invariant
            i <= n,
            out@ == flood_targets(i as nat, src),
        decreases n - i,
    {
        if i != src {
            out.push(i);
        }
        i = i + 1;
    }
    out
}

/// Whether a received item is flooded to every other side: a packet that is
/// not a reliable control message or a discovery message, whose endpoints
/// are not all link-local only, that fits the queue, that was not seen
/// recently, while the relay knows no routes.
pub open spec fn floods(relay: &Relay, m: RelayRxModel) -> bool {
    &&& m.data matches ItemModel::Packet(p)
    &&& p.ty != DataType::ReliableAck
    &&& p.ty != DataType::ReliablePacketRequest
    &&& !spec_is_discovery_type(p.ty)
    &&& !spec_all_link_local(spec_canonical_endpoints(p.endpoints))
    &&& relay_item_cost(m.data) <= MAX_QUEUE_SIZE
    &&& relay.num_routes() == 0
    &&& !relay.recent_ids().contains(spec_item_id(m.data))
}

/// Whether a received item is a packet relayed recently (which is then
/// dropped).
pub open spec fn repeats(relay: &Relay, m: RelayRxModel) -> bool {
    &&& m.data is Packet
    &&& relay.recent_ids().contains(spec_item_id(m.data))
}

impl Relay {
    fn get_hash(data: &RelayItem) -> (r: u64)
        ensures
            r == spec_item_id(data@),
    {
        match data {
            RouterItem::Packet(p) => p.packet_id(),
            RouterItem::Serialized(b) => match serialize::packet_id_from_wire(b.as_slice()) {
                Ok(id) => id,
                Err(_) => hash_bytes_u64(HASH_SEED, b.as_slice()),
            },
        }
    }

    /// Whether the item was relayed recently; if not, it is recorded.
    fn is_duplicate(&mut self, data: &RelayItem) -> (r: bool)
        requires
            old(self).wf(),
        ensures
            final(self).wf(),
            final(self).sides == old(self).sides,
            final(self).rx_queue == old(self).rx_queue,
            final(self).tx_queue == old(self).tx_queue,
            final(self).routes == old(self).routes,
            final(self).return_routes == old(self).return_routes,
            final(self).acked == old(self).acked,
            old(self).recent_ids().contains(spec_item_id(data@)) ==> r && final(self).recent_ids() == old(self).recent_ids(),
            !old(self).recent_ids().contains(spec_item_id(data@)) ==> !r && final(self).recent_ids().last() == spec_item_id(data@),
    {
        let id = Self::get_hash(data);
        if self.recent_rx.contains(&id) {
            proof {
                let k = choose|i: int| 0 <= i < self.recent_rx@.len() && self.recent_rx@[i].eq_spec(&id);
                assert(self.recent_rx@[k] == id);
            }
            return true;
        }
        proof {
            if old(self).recent_ids().contains(id) {
                let k = choose|i: int| 0 <= i < self.recent_rx@.len() && self.recent_rx@[i] == id;
                assert(self.recent_rx@[k].eq_spec(&id));
            }
        }
        let _ = self.recent_rx.push_back(id);
        false
    }

    /// Relay one item received on `src`: reliable control messages are
    /// consumed (end-to-end acknowledgements are recorded and relayed),
    /// discovery messages are learned from, and copies go to the sides of
    /// the routing plan.
    fn dispatch_item(&mut self, src: RelaySideId, data: &RelayItem) -> (r: TelemetryResult<()>)
        requires
            old(self).wf(),
            src < old(self).num_sides(),
        ensures
            final(self).wf(),
            final(self).num_sides() == old(self).num_sides(),
            final(self).rx_queue_view() == old(self).rx_queue_view(),
            final(self).recent_ids() == old(self).recent_ids(),
            data@ matches ItemModel::Packet(p) && p.ty != DataType::ReliableAck && p.ty != DataType::ReliablePacketRequest
                && !spec_is_discovery_type(p.ty) && old(self).num_routes() == 0
                && !spec_all_link_local(spec_canonical_endpoints(p.endpoints))
                && relay_item_cost(data@) <= MAX_QUEUE_SIZE
                ==> r is Ok && suffix_of(
                    final(self).tx_queue_view(),
                    old(self).tx_queue_view() + fanout_models(flood_targets(old(self).num_sides(), src), data@),
                ),
            data@ matches ItemModel::Packet(p) && spec_is_discovery_type(p.ty) && r is Ok
                ==> suffix_of(
                    final(self).tx_queue_view(),
                    old(self).tx_queue_view() + fanout_models(flood_targets(old(self).num_sides(), src), data@),
                ),
            match relay_item_header(data@) {
                Some(h) => h.1 != DataType::ReliableAck && h.1 != DataType::ReliablePacketRequest && !spec_is_discovery_type(h.1)
                    && spec_ack_target(data@) == Ok::<Option<u64>, TelemetryError>(None) && r is Ok ==> exists|
                    now_ms: u64,
                    pv: Option<Seq<RelaySideId>>,
                |
                    #[trigger] relay_plan_outcome(old(self), data@, h.0, h.1, src, now_ms, Ok(pv)) && suffix_of(
                        final(self).tx_queue_view(),
                        old(self).tx_queue_view() + fanout_models(plan_sides(old(self).num_sides(), src, pv), data@),
                    ),
                None => true,
            },
        decreases (if data@ is Serialized { 1nat } else { 0nat }),
    {
        match data {
            RouterItem::Packet(p) => {
                let ty = p.data_type();
                if ty == DataType::ReliableAck || ty == DataType::ReliablePacketRequest {
                    let e2e = ty == DataType::ReliableAck && is_end_to_end_ack_sender(p.sender())
                        && decode_end_to_end_reliable_ack(p.payload()).is_ok();
                    if e2e {
                        match decode_end_to_end_reliable_ack(p.payload()) {
                            Ok(id) => match decode_end_to_end_ack_sender_hash(p.sender()) {
                                Some(h) => self.record_ack(id, h),
                                None => {},
                            },
                            Err(_) => {},
                        }
                    } else {
                        check_reliable_control(p.payload())?;
                        return Ok(());
                    }
                }
            },
            RouterItem::Serialized(b) => {
                let env = serialize::peek_envelope(b.as_slice())?;
                if env.ty == DataType::ReliableAck || env.ty == DataType::ReliablePacketRequest {
                    let pkt = serialize::deserialize_packet(b.as_slice())?;
                    return self.dispatch_item(src, &RouterItem::Packet(pkt));
                }
            },
        }
        let ghost mid = *self;
        self.learn_discovery_item(src, data)?;
        let ghost learned = *self;
        let plan = self.remote_side_plan(data, src)?;
        let targets = match plan {
            RemoteSidePlan::Flood => {
                let v = flood_list(self.sides.len(), src);
                proof {
                    lemma_flood_targets(self.sides@.len(), src);
                }
                v
            },
            RemoteSidePlan::Target(t) => t,
        };
        let ghost before = self.tx_queue_view();
        let r = self.push_to_sides(&targets, data);
        proof {
            if targets@.len() == 0 {
                assert(before + fanout_models(targets@, data@) =~= before);
                lemma_suffix_refl(before);
            }
        }
        r
    }

    /// Process one received item: remember the return side of reliable
    /// packets, drop repeats, then relay it.
    fn process_rx_item(&mut self, item: RelayRxItem) -> (r: TelemetryResult<()>)
        requires
            old(self).wf(),
            item.data@ is Packet ==> item.src < old(self).num_sides(),
        ensures
            item.data@ is Serialized && item.src >= old(self).num_sides() ==> r == Err::<(), TelemetryError>(
                TelemetryError::HandlerError("relay: invalid side id"),
            ) && *final(self) == *old(self),
            final(self).wf(),
            final(self).num_sides() == old(self).num_sides(),
            final(self).rx_queue_view() == old(self).rx_queue_view(),
            item.data@ is Packet && old(self).recent_ids().contains(spec_item_id(item.data@)) ==> r is Ok
                && final(self).tx_queue_view() == old(self).tx_queue_view()
                && final(self).recent_ids() == old(self).recent_ids(),
            floods(old(self), rx_item_model(item)) ==> r is Ok && suffix_of(
                final(self).tx_queue_view(),
                old(self).tx_queue_view() + fanout_models(flood_targets(old(self).num_sides(), item.src), item.data@),
            ),
    {
        match &item.data {
            RouterItem::Packet(p) => {
                let ty = p.data_type();
                if is_reliable_type(ty) && !is_internal_control_type(ty) {
                    let id = p.packet_id();
                    self.note_return_route(item.src, id);
                }
            },
            RouterItem::Serialized(b) => {
                if item.src >= self.sides.len() {
                    return Err(TelemetryError::HandlerError("relay: invalid side id"));
                }
                let env = serialize::peek_envelope(b.as_slice())?;
                if is_reliable_type(env.ty) && !is_internal_control_type(env.ty) {
                    match serialize::packet_id_from_wire(b.as_slice()) {
                        Ok(id) => self.note_return_route(item.src, id),
                        Err(_) => {},
                    }
                }
            },
        }
        if self.is_duplicate(&item.data) {
            return Ok(());
        }
        self.dispatch_item(item.src, &item.data)
    }
}


// ---------------------------------------------------------------------------
// Transmit processing and the processing loops
// ---------------------------------------------------------------------------

impl Relay {
    /// Hand `data` to the transmit handler of side `dst`, converting
    /// between packets and bytes as the handler needs.
    ///
    /// Frames go out as they are: hop-by-hop reliable sequencing, which
    /// needs the reliable frame header, is not part of this wire format.
    fn call_tx_handler(&mut self, dst: RelaySideId, data: &RelayItem) -> (r: TelemetryResult<()>)
        ensures
            dst >= old(self).num_sides() ==> r == Err::<(), TelemetryError>(
                TelemetryError::HandlerError("relay: invalid side id"),
            ),
            *final(self) == (Relay { handed: final(self).handed, ..*old(self) }),
            r is Ok ==> dst < old(self).num_sides() && side_handoff(old(self).side_takes_packets(dst as int), data@) is Some,
            final(self).deliveries() == old(self).deliveries() + match (dst < old(self).num_sides(), side_handoff(
                old(self).side_takes_packets(dst as int),
                data@,
            )) {
                (true, Some(d)) => seq![Delivery::Side { side: dst, data: d }],
                _ => Seq::<Delivery>::empty(),
            },
    {
        if dst >= self.sides.len() {
            assert(self.deliveries() =~= old(self).deliveries() + Seq::<Delivery>::empty());
            return Err(TelemetryError::HandlerError("relay: invalid side id"));
        }
        proof {
            match side_handoff(self.side_takes_packets(dst as int), data@) {
                Some(d) => {
                    self.handed@ = self.handed@.push(Delivery::Side { side: dst, data: d });
                },
                None => {
                    assert(self.handed@ =~= self.handed@ + Seq::<Delivery>::empty());
                },
            }
        }
        match (&self.sides[dst].tx_handler, data) {
            (RelayTxHandlerFn::Serialized(f), RouterItem::Serialized(bytes)) => f.handle_bytes(bytes.as_slice()),
            (RelayTxHandlerFn::Packet(f), RouterItem::Packet(pkt)) => f.handle_packet(pkt),
            (RelayTxHandlerFn::Serialized(f), RouterItem::Packet(pkt)) => {
                let bytes = serialize::serialize_packet(pkt);
                f.handle_bytes(bytes.as_slice())
            },
            (RelayTxHandlerFn::Packet(f), RouterItem::Serialized(bytes)) => {
                let pkt = serialize::deserialize_packet(bytes.as_slice())?;
                f.handle_packet(&pkt)
            },
        }
    }

    /// Pop and send the front transmission; returns whether there was one.
    fn send_one(&mut self) -> (r: TelemetryResult<bool>)
        requires
            old(self).wf(),
        ensures
            final(self).wf(),
            final(self).num_sides() == old(self).num_sides(),
            final(self).rx_queue_view() == old(self).rx_queue_view(),
            final(self).recent_ids() == old(self).recent_ids(),
            old(self).tx_queue_view().len() == 0 ==> r == Ok::<bool, TelemetryError>(false)
                && final(self).tx_queue_view() == old(self).tx_queue_view(),
            old(self).tx_queue_view().len() > 0 ==> (r is Err || r == Ok::<bool, TelemetryError>(true))
                && final(self).tx_queue_view() == old(self).tx_queue_view().drop_first(),
            old(self).tx_queue_view().len() == 0 ==> final(self).deliveries() == old(self).deliveries(),
            old(self).tx_queue_view().len() > 0 ==> ({
                let it = old(self).tx_queue_view()[0];
                final(self).deliveries() == old(self).deliveries() + match side_handoff(
                    old(self).side_takes_packets(it.dst as int),
                    it.data,
                ) {
                    Some(d) => seq![Delivery::Side { side: it.dst, data: d }],
                    None => Seq::<Delivery>::empty(),
                }
            }),
            old(self).tx_queue_view().len() > 0 && r is Ok ==> side_handoff(
                old(self).side_takes_packets(old(self).tx_queue_view()[0].dst as int),
                old(self).tx_queue_view()[0].data,
            ) is Some,
    {
        let ghost ov = self.tx_queue_view();
        match self.tx_queue.pop_front() {
            Some(item) => {
                proof {
                    assert(self.tx_queue_view() =~= ov.drop_first());
                    assert(old(self).tx_queue@[0] == item);
                    assert forall|i: int| 0 <= i < self.tx_queue@.len() implies #[trigger] self.tx_queue@[i].dst < self.sides@.len() by {
                        assert(self.tx_queue@[i] == old(self).tx_queue@[i + 1]);
                    }
                }
                self.call_tx_handler(item.dst, &item.data)?;
                Ok(true)
            },
            None => Ok(false),
        }
    }

    /// Pop and process the front received item; returns whether there was
    /// one.
    fn receive_one(&mut self) -> (r: TelemetryResult<bool>)
        requires
            old(self).wf(),
        ensures
            final(self).wf(),
            final(self).num_sides() == old(self).num_sides(),
            old(self).rx_queue_view().len() == 0 ==> r == Ok::<bool, TelemetryError>(false)
                && final(self).rx_queue_view() == old(self).rx_queue_view()
                && final(self).tx_queue_view() == old(self).tx_queue_view()
                && final(self).recent_ids() == old(self).recent_ids()
                && final(self).num_routes() == old(self).num_routes(),
            old(self).rx_queue_view().len() > 0 ==> (r is Err || r == Ok::<bool, TelemetryError>(true))
                && final(self).rx_queue_view() == old(self).rx_queue_view().drop_first(),
            old(self).rx_queue_view().len() > 0 && repeats(old(self), old(self).rx_queue_view()[0]) ==> r == Ok::<bool, TelemetryError>(true)
                && final(self).tx_queue_view() == old(self).tx_queue_view()
                && final(self).recent_ids() == old(self).recent_ids(),
            old(self).rx_queue_view().len() > 0 && floods(old(self), old(self).rx_queue_view()[0]) ==> r == Ok::<bool, TelemetryError>(true)
                && suffix_of(
                    final(self).tx_queue_view(),
                    old(self).tx_queue_view() + fanout_models(
                        flood_targets(old(self).num_sides(), old(self).rx_queue_view()[0].src),
                        old(self).rx_queue_view()[0].data,
                    ),
                ),
    {
        let ghost ov = self.rx_queue_view();
        match self.rx_queue.pop_front() {
            Some(item) => {
                proof {
                    assert(self.rx_queue_view() =~= ov.drop_first());
                    assert(old(self).rx_queue@[0] == item);
                    assert(ov[0] == rx_item_model(item));
                    assert(item.src < self.sides@.len());
                    assert forall|i: int| 0 <= i < self.rx_queue@.len() implies #[trigger] self.rx_queue@[i].src < self.sides@.len() by {
                        assert(self.rx_queue@[i] == old(self).rx_queue@[i + 1]);
                    }
                }
                self.process_rx_item(item)?;
                Ok(true)
            },
            None => Ok(false),
        }
    }

    /// Relay received items for up to `timeout_ms` milliseconds (0: until
    /// the receive queue is empty).
    ///
    /// A lone received packet that [`floods`] is queued once for every other
    /// side, in side order; a lone repeat is dropped.
    pub fn process_rx_queue_with_timeout(&mut self, timeout_ms: u32) -> (r: TelemetryResult<()>)
        requires
            old(self).wf(),
        ensures
            final(self).wf(),
            final(self).num_sides() == old(self).num_sides(),
            final(self).rx_queue_view().len() <= old(self).rx_queue_view().len(),
            timeout_ms == 0 && r is Ok ==> final(self).rx_queue_view().len() == 0,
            old(self).rx_queue_view().len() == 1 && floods(old(self), old(self).rx_queue_view()[0]) ==> r is Ok
                && final(self).rx_queue_view().len() == 0 && suffix_of(
                    final(self).tx_queue_view(),
                    old(self).tx_queue_view() + fanout_models(
                        flood_targets(old(self).num_sides(), old(self).rx_queue_view()[0].src),
                        old(self).rx_queue_view()[0].data,
                    ),
                ),
            old(self).rx_queue_view().len() == 1 && repeats(old(self), old(self).rx_queue_view()[0]) ==> r is Ok
                && final(self).rx_queue_view().len() == 0 && final(self).tx_queue_view() == old(self).tx_queue_view(),
    {
        let start = self.clock.now_ms();
        let ghost dup = old(self).rx_queue_view().len() == 1 && repeats(old(self), old(self).rx_queue_view()[0]);
        let ghost single = old(self).rx_queue_view().len() == 1 && floods(old(self), old(self).rx_queue_view()[0]);
        let ghost expected = old(self).tx_queue_view() + fanout_models(
            flood_targets(old(self).num_sides(), old(self).rx_queue_view()[0].src),
            old(self).rx_queue_view()[0].data,
        );
        let ghost mut first = true;
        loop
            invariant
                self.wf(),
                self.num_sides() == old(self).num_sides(),
                self.rx_queue_view().len() <= old(self).rx_queue_view().len(),
                first ==> self.rx_queue_view() == old(self).rx_queue_view()
                    && self.tx_queue_view() == old(self).tx_queue_view()
                    && self.recent_ids() == old(self).recent_ids()
                    && self.num_routes() == old(self).num_routes(),
                single && !first ==> self.rx_queue_view().len() == 0
                    && suffix_of(self.tx_queue_view(), expected),
                dup && !first ==> self.rx_queue_view().len() == 0
                    && self.tx_queue_view() == old(self).tx_queue_view(),
                single == (old(self).rx_queue_view().len() == 1 && floods(old(self), old(self).rx_queue_view()[0])),
                dup == (old(self).rx_queue_view().len() == 1 && repeats(old(self), old(self).rx_queue_view()[0])),
                expected == old(self).tx_queue_view() + fanout_models(
                    flood_targets(old(self).num_sides(), old(self).rx_queue_view()[0].src),
                    old(self).rx_queue_view()[0].data,
                ),
            decreases self.rx_queue_view().len(),
        {
            let got = self.receive_one()?;
            if !got {
                return Ok(());
            }
            proof {
                first = false;
            }
            if timeout_ms != 0 && self.clock.now_ms().wrapping_sub(start) >= timeout_ms as u64 {
                return Ok(());
            }
        }
    }

    /// Relay every received item.
    pub fn process_rx_queue(&mut self) -> (r: TelemetryResult<()>)
        requires
            old(self).wf(),
        ensures
            final(self).wf(),
            final(self).num_sides() == old(self).num_sides(),
            r is Ok ==> final(self).rx_queue_view().len() == 0,
            old(self).rx_queue_view().len() == 1 && repeats(old(self), old(self).rx_queue_view()[0]) ==> r is Ok
                && final(self).rx_queue_view().len() == 0 && final(self).tx_queue_view() == old(self).tx_queue_view(),
            old(self).rx_queue_view().len() == 1 && floods(old(self), old(self).rx_queue_view()[0]) ==> r is Ok
                && final(self).rx_queue_view().len() == 0 && suffix_of(
                    final(self).tx_queue_view(),
                    old(self).tx_queue_view() + fanout_models(
                        flood_targets(old(self).num_sides(), old(self).rx_queue_view()[0].src),
                        old(self).rx_queue_view()[0].data,
                    ),
                ),
    {
        self.process_rx_queue_with_timeout(0)
    }

    /// Send queued transmissions for up to `timeout_ms` milliseconds (0:
    /// until the transmit queue is empty). The receive queue is untouched;
    /// a failing handler's error is returned.
    pub fn process_tx_queue_with_timeout(&mut self, timeout_ms: u32) -> (r: TelemetryResult<()>)
        requires
            old(self).wf(),
        ensures
            final(self).wf(),
            final(self).num_sides() == old(self).num_sides(),
            final(self).rx_queue_view() == old(self).rx_queue_view(),
            final(self).recent_ids() == old(self).recent_ids(),
            final(self).tx_queue_view().len() <= old(self).tx_queue_view().len(),
            timeout_ms == 0 && r is Ok ==> final(self).tx_queue_view().len() == 0,
            old(self).tx_queue_view().len() == 0 ==> r is Ok && final(self).tx_queue_view() == old(self).tx_queue_view(),
    {
        let start = self.clock.now_ms();
        loop
            invariant
                self.wf(),
                self.num_sides() == old(self).num_sides(),
                self.rx_queue_view() == old(self).rx_queue_view(),
                self.recent_ids() == old(self).recent_ids(),
                self.tx_queue_view().len() <= old(self).tx_queue_view().len(),
                old(self).tx_queue_view().len() == 0 ==> self.tx_queue_view() == old(self).tx_queue_view(),
            decreases self.tx_queue_view().len(),
        {
            let sent = self.send_one()?;
            if !sent {
                return Ok(());
            }
            if timeout_ms != 0 && self.clock.now_ms().wrapping_sub(start) >= timeout_ms as u64 {
                return Ok(());
            }
        }
    }

    /// Send every queued transmission.
    pub fn process_tx_queue(&mut self) -> (r: TelemetryResult<()>)
        requires
            old(self).wf(),
        ensures
            final(self).wf(),
            final(self).num_sides() == old(self).num_sides(),
            final(self).rx_queue_view() == old(self).rx_queue_view(),
            final(self).recent_ids() == old(self).recent_ids(),
            r is Ok ==> final(self).tx_queue_view().len() == 0,
            old(self).tx_queue_view().len() == 0 ==> r is Ok && final(self).tx_queue_view() == old(self).tx_queue_view(),
    {
        self.process_tx_queue_with_timeout(0)
    }

    /// Alternate receive and transmit processing for up to `timeout_ms`
    /// milliseconds (0: until both queues are empty).
    pub fn process_all_queues_with_timeout(&mut self, timeout_ms: u32) -> (r: TelemetryResult<()>)
        requires
            old(self).wf(),
        ensures
            final(self).wf(),
            final(self).num_sides() == old(self).num_sides(),
            timeout_ms == 0 && r is Ok ==> final(self).rx_queue_view().len() == 0
                && final(self).tx_queue_view().len() == 0,
            old(self).rx_queue_view().len() == 0 && old(self).tx_queue_view().len() == 0 ==> r is Ok && idle_unchanged(
                old(self),
                final(self),
            ),
            suffix_of(final(self).rx_queue_view(), old(self).rx_queue_view()),
            old(self).rx_queue_view().len() == 0 ==> suffix_of(final(self).tx_queue_view(), old(self).tx_queue_view()),
    {
        let drain_fully = timeout_ms == 0;
        let start = if drain_fully {
            0
        } else {
            self.clock.now_ms()
        };
        proof {
            lemma_suffix_refl(self.rx_queue_view());
            lemma_suffix_refl(self.tx_queue_view());
        }
        loop
            invariant
                self.wf(),
                self.num_sides() == old(self).num_sides(),
                drain_fully == (timeout_ms == 0),
                old(self).rx_queue_view().len() == 0 && old(self).tx_queue_view().len() == 0 ==> idle_unchanged(old(self), self),
                suffix_of(self.rx_queue_view(), old(self).rx_queue_view()),
                old(self).rx_queue_view().len() == 0 ==> suffix_of(self.tx_queue_view(), old(self).tx_queue_view()),
            decreases self.rx_queue_view().len(), self.tx_queue_view().len(),
        {
            let ghost rx0 = self.rx_queue_view();
            let ghost tx0 = self.tx_queue_view();
            let rr = self.receive_one();
            proof {
                if rx0.len() > 0 {
                    lemma_suffix_drop_first(rx0, old(self).rx_queue_view());
                }
            }
            let did_rx = rr?;
            if !drain_fully && self.clock.now_ms().wrapping_sub(start) >= timeout_ms as u64 {
                return Ok(());
            }
            let ghost tx1 = self.tx_queue_view();
            let sr = self.send_one();
            proof {
                if tx1.len() > 0 && old(self).rx_queue_view().len() == 0 {
                    lemma_suffix_drop_first(tx1, old(self).tx_queue_view());
                }
            }
            let did_tx = sr?;
            if !drain_fully && self.clock.now_ms().wrapping_sub(start) >= timeout_ms as u64 {
                return Ok(());
            }
            if !did_rx && !did_tx {
                return Ok(());
            }
        }
    }

    /// Process both queues until they are empty.
    pub fn process_all_queues(&mut self) -> (r: TelemetryResult<()>)
        requires
            old(self).wf(),
        ensures
            final(self).wf(),
            final(self).num_sides() == old(self).num_sides(),
            r is Ok ==> final(self).rx_queue_view().len() == 0 && final(self).tx_queue_view().len() == 0,
            old(self).rx_queue_view().len() == 0 && old(self).tx_queue_view().len() == 0 ==> r is Ok && idle_unchanged(
                old(self),
                final(self),
            ),
            suffix_of(final(self).rx_queue_view(), old(self).rx_queue_view()),
            old(self).rx_queue_view().len() == 0 ==> suffix_of(final(self).tx_queue_view(), old(self).tx_queue_view()),
    {
        self.process_all_queues_with_timeout(0)
    }

    /// One maintenance cycle: discovery, then both queues for up to
    /// `timeout_ms` milliseconds.
    pub fn periodic(&mut self, timeout_ms: u32) -> (r: TelemetryResult<()>)
        requires
            old(self).wf(),
        ensures
            final(self).wf(),
            final(self).num_sides() == old(self).num_sides(),
            timeout_ms == 0 && r is Ok ==> final(self).rx_queue_view().len() == 0
                && final(self).tx_queue_view().len() == 0,
            old(self).num_sides() == 0 && old(self).rx_queue_view().len() == 0 && old(self).tx_queue_view().len() == 0 ==> r is Ok
                && idle_unchanged(old(self), final(self)),
    {
        let _ = self.poll_discovery()?;
        self.process_all_queues_with_timeout(timeout_ms)
    }
}

} // verus!
