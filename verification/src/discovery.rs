//! Endpoint and time source discovery: announce cadence, topology records,
//! and the discovery packets.
use vstd::prelude::*;
use vstd::slice::slice_subrange;
use vstd::string::StringSliceAdditionalSpecFns;

use crate::config::{canonical_endpoints, spec_canonical_endpoints, DataEndpoint, DataType, MAX_VALUE_DATA_ENDPOINT};
use crate::le_bytes::{le_bytes, le_value, spec_encode_le, LeBytes};
use crate::telemetry_packet::{spec_new, view_result, TelemetryPacket};
use crate::text::{bytes_lt, str_eq, str_from_utf8, str_lt};
use crate::{TelemetryError, TelemetryResult};

verus! {

/// How long a learned route stays valid without a new announce.
pub const DISCOVERY_ROUTE_TTL_MS: u64 = 30_000;

/// Announce interval right after a topology change.
pub const DISCOVERY_FAST_INTERVAL_MS: u64 = 250;

/// Longest announce interval.
pub const DISCOVERY_SLOW_INTERVAL_MS: u64 = 5_000;

/// Announce schedule: the interval doubles after each announce up to the
/// slow interval, and resets to the fast one on a topology change.
#[derive(Debug, Clone, Copy, PartialEq, Eq, Structural)]
pub struct DiscoveryCadenceState {
    /// Current interval between announces.
    pub current_interval_ms: u64,
    /// Time of the next announce.
    pub next_announce_ms: u64,
}

impl Default for DiscoveryCadenceState {
    fn default() -> (r: Self)
        ensures
            r == (DiscoveryCadenceState { current_interval_ms: DISCOVERY_FAST_INTERVAL_MS, next_announce_ms: 0 }),
    {
        DiscoveryCadenceState { current_interval_ms: DISCOVERY_FAST_INTERVAL_MS, next_announce_ms: 0 }
    }
}

impl DiscoveryCadenceState {
    /// Announce now, and speed up to the fast interval.
    pub fn on_topology_change(&mut self, now_ms: u64)
        ensures
            *final(self) == (DiscoveryCadenceState {
                current_interval_ms: DISCOVERY_FAST_INTERVAL_MS,
                next_announce_ms: now_ms,
            }),
    {
        self.current_interval_ms = DISCOVERY_FAST_INTERVAL_MS;
        self.next_announce_ms = now_ms;
    }

    /// Schedule the next announce one interval from now, then double the
    /// interval up to the slow interval (saturating).
    pub fn on_announce_sent(&mut self, now_ms: u64)
        ensures
            final(self).next_announce_ms == (if now_ms + old(self).current_interval_ms > u64::MAX {
                u64::MAX
            } else {
                (now_ms + old(self).current_interval_ms) as u64
            }),
            final(self).current_interval_ms == (if 2 * old(self).current_interval_ms
                < DISCOVERY_SLOW_INTERVAL_MS {
                (2 * old(self).current_interval_ms) as u64
            } else {
                DISCOVERY_SLOW_INTERVAL_MS
            }),
    {
        self.next_announce_ms = now_ms.saturating_add(self.current_interval_ms);
        self.current_interval_ms = if self.current_interval_ms < DISCOVERY_SLOW_INTERVAL_MS / 2 + 1
            && 2 * self.current_interval_ms < DISCOVERY_SLOW_INTERVAL_MS {
            2 * self.current_interval_ms
        } else {
            DISCOVERY_SLOW_INTERVAL_MS
        };
    }

    /// Whether an announce is due.
    pub fn due(&self, now_ms: u64) -> (r: bool)
        ensures
            r == (now_ms >= self.next_announce_ms),
    {
        now_ms >= self.next_announce_ms
    }
}

/// What one side of a node can reach.
#[derive(Debug, Clone)]
pub struct TopologySideRoute {
    /// Side index.
    pub side_id: usize,
    /// Side name.
    pub side_name: &'static str,
    /// Endpoints reachable through the side.
    pub reachable_endpoints: Vec<DataEndpoint>,
    /// Time sources reachable through the side.
    pub reachable_timesync_sources: Vec<String>,
    /// When the side last announced.
    pub last_seen_ms: u64,
    /// Age of that announce.
    pub age_ms: u64,
}

/// What a node advertises and the routes it has learned.
#[derive(Debug, Clone)]
pub struct TopologySnapshot {
    /// Endpoints this node advertises.
    pub advertised_endpoints: Vec<DataEndpoint>,
    /// Time sources this node advertises.
    pub advertised_timesync_sources: Vec<String>,
    /// Learned routes, one per side.
    pub routes: Vec<TopologySideRoute>,
    /// Current announce interval.
    pub current_announce_interval_ms: u64,
    /// Time of the next announce.
    pub next_announce_ms: u64,
}

/// Whether `ep` is the discovery endpoint.
pub fn is_discovery_endpoint(ep: DataEndpoint) -> (r: bool)
    ensures
        r == (ep == DataEndpoint::Discovery),
{
    match ep {
        DataEndpoint::Discovery => true,
        _ => false,
    }
}

/// Whether `ty` is a discovery message type.
pub fn is_discovery_type(ty: DataType) -> (r: bool)
    ensures
        r == (ty == DataType::DiscoveryAnnounce || ty == DataType::DiscoveryTimeSyncSources),
{
    match ty {
        DataType::DiscoveryAnnounce | DataType::DiscoveryTimeSyncSources => true,
        _ => false,
    }
}

/// Discriminants of endpoints.
pub open spec fn endpoint_words(eps: Seq<DataEndpoint>) -> Seq<u32> {
    eps.map_values(|e: DataEndpoint| e.spec_to_u32())
}

/// A discovery announce listing `endpoints` (as little-endian `u32`
/// discriminants), addressed to the discovery endpoint.
pub fn build_discovery_announce(sender: &str, timestamp_ms: u64, endpoints: &[DataEndpoint]) -> (r: TelemetryResult<TelemetryPacket>)
    ensures
        view_result(r) == spec_new(
            DataType::DiscoveryAnnounce,
            seq![DataEndpoint::Discovery],
            sender@,
            timestamp_ms,
            spec_encode_le(endpoint_words(endpoints@)),
        ),
{
    let mut words: Vec<u32> = Vec::new();
    let mut i: usize = 0;
    while i < endpoints.len()
        invariant
            i <= endpoints.len(),
            words@ == endpoint_words(endpoints@.take(i as int)),
        decreases endpoints.len() - i,
    {
        words.push(endpoints[i].to_u32());
        i = i + 1;
        proof {
            assert(words@ =~= endpoint_words(endpoints@.take(i as int)));
        }
    }
    assert(endpoints@.take(i as int) =~= endpoints@);
    let payload = crate::le_bytes::encode_slice_le(words.as_slice());
    let eps = [DataEndpoint::Discovery];
    assert(eps@ =~= seq![DataEndpoint::Discovery]);
    TelemetryPacket::new(DataType::DiscoveryAnnounce, &eps, sender, timestamp_ms, payload.as_slice())
}

/// The `u32` at word `k` of a payload.
pub open spec fn word_at(b: Seq<u8>, k: int) -> nat {
    le_value(b.subrange(4 * k, 4 * k + 4))
}

/// The endpoints named by the words of `b`, skipping the discovery endpoint.
pub open spec fn named_endpoints(b: Seq<u8>, n: nat) -> Seq<DataEndpoint>
    decreases n,
{
    if n == 0 {
        Seq::empty()
    } else {
        let rest = named_endpoints(b, (n - 1) as nat);
        let ep = DataEndpoint::spec_from_u32(word_at(b, n - 1) as u32).unwrap();
        if ep == DataEndpoint::Discovery {
            rest
        } else {
            rest.push(ep)
        }
    }
}

/// The endpoints of a discovery announce payload: a whole number of `u32`
/// words, each a valid discriminant; the discovery endpoint is dropped and
/// the rest are returned distinct and in ascending order.
pub open spec fn spec_decode_discovery_payload(b: Seq<u8>) -> TelemetryResult<Seq<DataEndpoint>> {
    if b.len() % 4 != 0 {
        Err(TelemetryError::Deserialize("discovery payload width"))
    } else if exists|k: int| 0 <= k < b.len() / 4 && word_at(b, k) > MAX_VALUE_DATA_ENDPOINT {
        Err(TelemetryError::Deserialize("bad discovery endpoint"))
    } else {
        Ok(spec_canonical_endpoints(named_endpoints(b, b.len() / 4)))
    }
}

/// The little-endian `u32` stored at `start`.
pub fn read_u32_le(b: &[u8], start: usize) -> (r: u32)
    requires
        start + 4 <= b@.len(),
    ensures
        r == le_value(b@.subrange(start as int, start + 4)),
{
    let ghost c = b@.subrange(start as int, start + 4);
    reveal_with_fuel(le_value, 5);
    assert(c.drop_first().drop_first().drop_first().drop_first() =~= Seq::<u8>::empty());
    assert(c[0] == b@[start as int]);
    assert(c.drop_first()[0] == b@[start + 1]);
    assert(c.drop_first().drop_first()[0] == b@[start + 2]);
    assert(c.drop_first().drop_first().drop_first()[0] == b@[start + 3]);
    b[start] as u32 + 256 * (b[start + 1] as u32 + 256 * (b[start + 2] as u32 + 256 * (b[start + 3] as u32)))
}

/// The endpoints listed by a discovery announce payload.
pub fn decode_discovery_payload(payload: &[u8]) -> (r: TelemetryResult<Vec<DataEndpoint>>)
    ensures
        match (r, spec_decode_discovery_payload(payload@)) {
            (Ok(v), Ok(sv)) => v@ == sv,
            (Err(e), Err(se)) => e == se,
            _ => false,
        },
{
    if payload.len() % 4 != 0 {
        return Err(TelemetryError::Deserialize("discovery payload width"));
    }
    let n = payload.len() / 4;
    let mut eps: Vec<DataEndpoint> = Vec::new();
    let mut k: usize = 0;
    while k < n
        invariant
            k <= n,
            n == payload@.len() / 4,
            payload@.len() % 4 == 0,
            payload@.len() == payload.len(),
            eps@ == named_endpoints(payload@, k as nat),
            forall|j: int| 0 <= j < k ==> word_at(payload@, j) <= MAX_VALUE_DATA_ENDPOINT,
        decreases n - k,
    {
        let raw = read_u32_le(payload, 4 * k);
        match DataEndpoint::try_from_u32(raw) {
            None => {
                assert(word_at(payload@, k as int) > MAX_VALUE_DATA_ENDPOINT);
                return Err(TelemetryError::Deserialize("bad discovery endpoint"));
            },
            Some(ep) => {
                if !is_discovery_endpoint(ep) {
                    eps.push(ep);
                }
            },
        }
        k = k + 1;
    }
    Ok(canonical_endpoints(eps.as_slice()))
}

/// The endpoints of `eps` other than the discovery endpoint, in order.
pub open spec fn without_discovery(eps: Seq<DataEndpoint>) -> Seq<DataEndpoint>
    decreases eps.len(),
{
    if eps.len() == 0 {
        Seq::empty()
    } else if eps.last() == DataEndpoint::Discovery {
        without_discovery(eps.drop_last())
    } else {
        without_discovery(eps.drop_last()).push(eps.last())
    }
}

proof fn lemma_word_at_encode(eps: Seq<DataEndpoint>)
    ensures
        spec_encode_le(endpoint_words(eps)).len() == 4 * eps.len(),
        forall|k: int| 0 <= k < eps.len() ==> word_at(spec_encode_le(endpoint_words(eps)), k) == (#[trigger] eps[k]).spec_to_u32(),
    decreases eps.len(),
{
    let w = endpoint_words(eps);
    crate::le_bytes::lemma_encode_le_len(w);
    if eps.len() > 0 {
        lemma_word_at_encode(eps.drop_last());
        let pre = spec_encode_le(endpoint_words(eps.drop_last()));
        let all = spec_encode_le(w);
        assert(w.drop_last() =~= endpoint_words(eps.drop_last()));
        assert(all == pre + le_bytes(w.last() as nat, 4));
        reveal_with_fuel(crate::le_bytes::p256, 5);
        crate::le_bytes::lemma_le_roundtrip(w.last() as nat, 4);
        assert forall|k: int| 0 <= k < eps.len() implies word_at(all, k) == (#[trigger] eps[k]).spec_to_u32() by {
            if k < eps.len() - 1 {
                assert(all.subrange(4 * k, 4 * k + 4) =~= pre.subrange(4 * k, 4 * k + 4));
                assert(eps.drop_last()[k] == eps[k]);
            } else {
                assert(all.subrange(4 * k, 4 * k + 4) =~= le_bytes(w.last() as nat, 4));
            }
        }
    }
}

proof fn lemma_named_endpoints_encode(eps: Seq<DataEndpoint>, n: nat)
    requires
        n <= eps.len(),
    ensures
        named_endpoints(spec_encode_le(endpoint_words(eps)), n) == without_discovery(eps.take(n as int)),
    decreases n,
{
    lemma_word_at_encode(eps);
    if n > 0 {
        lemma_named_endpoints_encode(eps, (n - 1) as nat);
        assert(eps.take(n as int).drop_last() =~= eps.take(n - 1));
        assert(eps.take(n as int).last() == eps[n - 1]);
        crate::config::lemma_endpoint_u32_roundtrip(eps[n - 1]);
    }
}

/// Decoding the payload of an announce built from `eps` gives back the
/// endpoints of `eps` other than the discovery endpoint, distinct and in
/// ascending order.
pub proof fn lemma_discovery_payload_roundtrip(eps: Seq<DataEndpoint>)
    ensures
        spec_decode_discovery_payload(spec_encode_le(endpoint_words(eps)))
            == Ok::<Seq<DataEndpoint>, TelemetryError>(spec_canonical_endpoints(without_discovery(eps))),
{
    let b = spec_encode_le(endpoint_words(eps));
    lemma_word_at_encode(eps);
    assert(b.len() / 4 == eps.len());
    assert forall|k: int| 0 <= k < b.len() / 4 implies word_at(b, k) <= MAX_VALUE_DATA_ENDPOINT by {
        assert(word_at(b, k) == eps[k].spec_to_u32());
        crate::config::lemma_endpoint_u32_roundtrip(eps[k]);
    }
    lemma_named_endpoints_encode(eps, eps.len());
    assert(eps.take(eps.len() as int) =~= eps);
}

/// Endpoints of a discovery announce; `InvalidType` for another type.
pub fn decode_discovery_announce(pkt: &TelemetryPacket) -> (r: TelemetryResult<Vec<DataEndpoint>>)
    ensures
        pkt@.ty != DataType::DiscoveryAnnounce ==> (r matches Err(e) && e == TelemetryError::InvalidType),
        pkt@.ty == DataType::DiscoveryAnnounce ==> match (r, spec_decode_discovery_payload(pkt@.payload)) {
            (Ok(v), Ok(sv)) => v@ == sv,
            (Err(e), Err(se)) => e == se,
            _ => false,
        },
{
    if pkt.data_type() != DataType::DiscoveryAnnounce {
        return Err(TelemetryError::InvalidType);
    }
    decode_discovery_payload(pkt.payload())
}

// ---------------------------------------------------------------------------
// Time source lists
// ---------------------------------------------------------------------------

/// The text of each string of `v`.
pub open spec fn string_views(v: Seq<String>) -> Seq<Seq<char>> {
    v.map_values(|s: String| s@)
}

/// `x` put into a list sorted by byte order without duplicates.
pub open spec fn ins_sorted(l: Seq<Seq<char>>, x: Seq<char>) -> Seq<Seq<char>>
    decreases l.len(),
{
    if l.len() == 0 {
        seq![x]
    } else if l[0] == x {
        l
    } else if bytes_lt(vstd::utf8::encode_utf8(x), vstd::utf8::encode_utf8(l[0])) {
        seq![x] + l
    } else {
        seq![l[0]] + ins_sorted(l.drop_first(), x)
    }
}

/// The strings of `s`, sorted by byte order, without duplicates.
pub open spec fn sort_dedup(s: Seq<Seq<char>>) -> Seq<Seq<char>>
    decreases s.len(),
{
    if s.len() == 0 {
        Seq::empty()
    } else {
        ins_sorted(sort_dedup(s.drop_last()), s.last())
    }
}

/// Insert `x` into a list sorted by byte order, unless it is already there.
pub fn insert_sorted(out: &mut Vec<String>, x: &str)
    ensures
        final(out)@.map_values(|s: String| s@) == ins_sorted(old(out)@.map_values(|s: String| s@), x@),
{
    let ghost l = out@.map_values(|s: String| s@);
    let mut i: usize = 0;
    assert(l.skip(0) =~= l);
    assert(l.take(0) + ins_sorted(l.skip(0), x@) =~= ins_sorted(l, x@));
    while i < out.len()
        invariant
            i <= out@.len(),
            l == out@.map_values(|s: String| s@),
            l == old(out)@.map_values(|s: String| s@),
            ins_sorted(l, x@) == l.take(i as int) + ins_sorted(l.skip(i as int), x@),
        decreases out@.len() - i,
    {
        let same = str_eq(out[i].as_str(), x);
        assert(l.skip(i as int)[0] == l[i as int]);
        assert(l[i as int] == out@[i as int]@);
        if same {
            proof {
                assert(l.skip(i as int).len() > 0);
                assert(ins_sorted(l.skip(i as int), x@) == l.skip(i as int));
                assert(l.take(i as int) + l.skip(i as int) =~= l);
            }
            return;
        }
        if str_lt(x, out[i].as_str()) {
            let ghost before = out@;
            out.insert(i, x.to_owned());
            proof {
                assert(ins_sorted(l.skip(i as int), x@) == seq![x@] + l.skip(i as int));
                assert(out@ == before.insert(i as int, out@[i as int]));
                assert(out@.map_values(|s: String| s@) =~= l.take(i as int) + (seq![x@] + l.skip(i as int)));
            }
            return;
        }
        proof {
            assert(l.skip(i as int).drop_first() =~= l.skip(i + 1));
            assert(l.take(i + 1) =~= l.take(i as int) + seq![l[i as int]]);
        }
        i = i + 1;
    }
    out.push(x.to_owned());
    proof {
        assert(l.skip(i as int) =~= Seq::<Seq<char>>::empty());
        assert(l.take(i as int) =~= l);
        assert(out@.map_values(|s: String| s@) =~= l.push(x@));
    }
}

/// The payload listing time sources: a `u32` count, then for each source
/// its `u32` byte length and its bytes.
pub open spec fn sources_payload(s: Seq<Seq<char>>) -> Seq<u8> {
    le_bytes((s.len() as u32) as nat, 4) + sources_body(s)
}

/// Length-prefixed bytes of each source.
pub open spec fn sources_body(s: Seq<Seq<char>>) -> Seq<u8>
    decreases s.len(),
{
    if s.len() == 0 {
        Seq::empty()
    } else {
        sources_body(s.drop_last()) + le_bytes(vstd::utf8::encode_utf8(s.last()).len(), 4)
            + vstd::utf8::encode_utf8(s.last())
    }
}

/// Whether some source is longer than `u32::MAX` bytes.
pub open spec fn some_source_too_long(s: Seq<Seq<char>>) -> bool {
    exists|i: int| 0 <= i < s.len() && vstd::utf8::encode_utf8(#[trigger] s[i]).len() > u32::MAX
}

/// A discovery packet listing time sources (sorted, without duplicates),
/// addressed to the discovery endpoint.
pub fn build_discovery_timesync_sources(sender: &str, timestamp_ms: u64, sources: &[String]) -> (r: TelemetryResult<TelemetryPacket>)
    ensures
        some_source_too_long(sort_dedup(sources@.map_values(|s: String| s@))) ==> (r matches Err(e)
            && e == TelemetryError::Serialize("discovery source id too long")),
        !some_source_too_long(sort_dedup(sources@.map_values(|s: String| s@))) ==> view_result(r)
            == spec_new(
            DataType::DiscoveryTimeSyncSources,
            seq![DataEndpoint::Discovery],
            sender@,
            timestamp_ms,
            sources_payload(sort_dedup(sources@.map_values(|s: String| s@))),
        ),
{
    let ghost all = sources@.map_values(|s: String| s@);
    let mut sorted: Vec<String> = Vec::new();
    let mut i: usize = 0;
    assert(all.take(0) =~= Seq::<Seq<char>>::empty());
    while i < sources.len()
        invariant
            i <= sources@.len(),
            all == sources@.map_values(|s: String| s@),
            sorted@.map_values(|s: String| s@) == sort_dedup(all.take(i as int)),
        decreases sources@.len() - i,
    {
        insert_sorted(&mut sorted, sources[i].as_str());
        proof {
            assert(all.take(i + 1).drop_last() =~= all.take(i as int));
            assert(all.take(i + 1).last() == all[i as int]);
        }
        i = i + 1;
    }
    assert(all.take(i as int) =~= all);
    let ghost d = sorted@.map_values(|s: String| s@);
    let mut body: Vec<u8> = Vec::new();
    let mut j: usize = 0;
    assert(d.take(0) =~= Seq::<Seq<char>>::empty());
    while j < sorted.len()
        invariant
            j <= sorted@.len(),
            d == sorted@.map_values(|s: String| s@),
            d == sort_dedup(sources@.map_values(|s: String| s@)),
            body@ == sources_body(d.take(j as int)),
            forall|k: int| 0 <= k < j ==> vstd::utf8::encode_utf8(#[trigger] d[k]).len() <= u32::MAX,
        decreases sorted@.len() - j,
    {
        let bytes = sorted[j].as_str().as_bytes();
        if bytes.len() > 0xFFFF_FFFF {
            proof {
                assert(d[j as int] == sorted@[j as int]@);
                assert(vstd::utf8::encode_utf8(d[j as int]).len() > u32::MAX);
            }
            return Err(TelemetryError::Serialize("discovery source id too long"));
        }
        (bytes.len() as u32).write_le(&mut body);
        let mut t: usize = 0;
        let ghost mid = body@;
        while t < bytes.len()
            invariant
                t <= bytes@.len(),
                body@ == mid + bytes@.take(t as int),
            decreases bytes@.len() - t,
        {
            body.push(bytes[t]);
            t = t + 1;
            proof {
                assert(bytes@.take(t as int) =~= bytes@.take(t - 1).push(bytes@[t - 1]));
            }
        }
        proof {
            assert(bytes@.take(t as int) =~= bytes@);
            assert(d.take(j + 1).drop_last() =~= d.take(j as int));
            assert(d.take(j + 1).last() == d[j as int]);
            assert(body@ =~= sources_body(d.take(j + 1)));
        }
        j = j + 1;
    }
    assert(d.take(j as int) =~= d);
    let mut payload: Vec<u8> = Vec::new();
    (sorted.len() as u32).write_le(&mut payload);
    let mut t: usize = 0;
    let ghost head = payload@;
    while t < body.len()
        invariant
            t <= body@.len(),
            payload@ == head + body@.take(t as int),
        decreases body@.len() - t,
    {
        payload.push(body[t]);
        t = t + 1;
        proof {
            assert(body@.take(t as int) =~= body@.take(t - 1).push(body@[t - 1]));
        }
    }
    proof {
        assert(body@.take(t as int) =~= body@);
    }
    let eps = [DataEndpoint::Discovery];
    assert(eps@ =~= seq![DataEndpoint::Discovery]);
    TelemetryPacket::new(DataType::DiscoveryTimeSyncSources, &eps, sender, timestamp_ms, payload.as_slice())
}

/// Time sources of `b` from `cursor` on, `count` entries of a `u32` length
/// and that many UTF-8 bytes (empty entries are skipped); nothing may follow
/// the last entry.
pub open spec fn dec_sources(b: Seq<u8>, cursor: int, count: nat) -> TelemetryResult<Seq<Seq<char>>>
    decreases count,
{
    if count == 0 {
        if cursor != b.len() {
            Err(TelemetryError::Deserialize("discovery timesync trailing bytes"))
        } else {
            Ok(Seq::empty())
        }
    } else if b.len() - cursor < 4 {
        Err(TelemetryError::Deserialize("discovery timesync source len"))
    } else {
        let l = le_value(b.subrange(cursor, cursor + 4));
        let c2 = cursor + 4;
        if b.len() - c2 < l {
            Err(TelemetryError::Deserialize("discovery timesync source bytes"))
        } else {
            let raw = b.subrange(c2, c2 + l);
            if !vstd::utf8::valid_utf8(raw) {
                Err(TelemetryError::Deserialize("discovery timesync source utf8"))
            } else {
                match dec_sources(b, c2 + l, (count - 1) as nat) {
                    Err(e) => Err(e),
                    Ok(rest) => Ok(
                        if raw.len() == 0 {
                            rest
                        } else {
                            seq![vstd::utf8::decode_utf8(raw)] + rest
                        },
                    ),
                }
            }
        }
    }
}

/// The time sources of a discovery payload, sorted and without duplicates.
pub open spec fn spec_decode_sources_payload(b: Seq<u8>) -> TelemetryResult<Seq<Seq<char>>> {
    if b.len() < 4 {
        Err(TelemetryError::Deserialize("discovery timesync source count"))
    } else {
        match dec_sources(b, 4, le_value(b.subrange(0, 4))) {
            Err(e) => Err(e),
            Ok(l) => Ok(sort_dedup(l)),
        }
    }
}

/// The time sources listed by a discovery payload.
pub fn decode_discovery_timesync_sources_payload(payload: &[u8]) -> (r: TelemetryResult<Vec<String>>)
    ensures
        match (r, spec_decode_sources_payload(payload@)) {
            (Ok(v), Ok(sv)) => v@.map_values(|s: String| s@) == sv,
            (Err(e), Err(se)) => e == se,
            _ => false,
        },
{
    if payload.len() < 4 {
        return Err(TelemetryError::Deserialize("discovery timesync source count"));
    }
    let count = read_u32_le(payload, 0);
    let ghost total = dec_sources(payload@, 4, count as nat);
    let mut cursor: usize = 4;
    let mut out: Vec<String> = Vec::new();
    let mut i: u32 = 0;
    while i < count
        invariant
            i <= count,
            cursor <= payload@.len(),
            payload@.len() == payload.len(),
            total == dec_sources(payload@, 4, count as nat),
            payload@.len() >= 4,
            count as nat == le_value(payload@.subrange(0, 4)),
            match dec_sources(payload@, cursor as int, (count - i) as nat) {
                Ok(rest) => total == Ok::<Seq<Seq<char>>, TelemetryError>(out@.map_values(|s: String| s@) + rest),
                Err(e) => total == Err::<Seq<Seq<char>>, TelemetryError>(e),
            },
        decreases count - i,
    {
        if payload.len() - cursor < 4 {
            assert(dec_sources(payload@, cursor as int, (count - i) as nat) == Err::<Seq<Seq<char>>, TelemetryError>(
                TelemetryError::Deserialize("discovery timesync source len"),
            ));
            return Err(TelemetryError::Deserialize("discovery timesync source len"));
        }
        let len = read_u32_le(payload, cursor) as usize;
        let c2 = cursor + 4;
        if payload.len() - c2 < len {
            assert(dec_sources(payload@, cursor as int, (count - i) as nat) == Err::<Seq<Seq<char>>, TelemetryError>(
                TelemetryError::Deserialize("discovery timesync source bytes"),
            ));
            return Err(TelemetryError::Deserialize("discovery timesync source bytes"));
        }
        let raw = slice_subrange(payload, c2, c2 + len);
        let source = match str_from_utf8(raw) {
            Some(s) => s,
            None => {
                return Err(TelemetryError::Deserialize("discovery timesync source utf8"));
            },
        };
        proof {
            vstd::utf8::encode_utf8_decode_utf8(source@);
        }
        let ghost before = out@.map_values(|s: String| s@);
        if len > 0 {
            out.push(source.to_owned());
            proof {
                let rest = dec_sources(payload@, (c2 + len) as int, (count - i - 1) as nat);
                if rest is Ok {
                    assert(out@.map_values(|s: String| s@) + rest.unwrap() =~= before + (seq![source@] + rest.unwrap()));
                }
            }
        } else {
            proof {
                assert(out@.map_values(|s: String| s@) =~= before);
            }
        }
        cursor = c2 + len;
        i = i + 1;
    }
    if cursor != payload.len() {
        return Err(TelemetryError::Deserialize("discovery timesync trailing bytes"));
    }
    proof {
        assert(out@.map_values(|s: String| s@) + Seq::<Seq<char>>::empty() =~= out@.map_values(|s: String| s@));
    }
    let mut sorted: Vec<String> = Vec::new();
    let ghost all = out@.map_values(|s: String| s@);
    let mut k: usize = 0;
    assert(all.take(0) =~= Seq::<Seq<char>>::empty());
    while k < out.len()
        invariant
            k <= out@.len(),
            all == out@.map_values(|s: String| s@),
            sorted@.map_values(|s: String| s@) == sort_dedup(all.take(k as int)),
        decreases out@.len() - k,
    {
        insert_sorted(&mut sorted, out[k].as_str());
        proof {
            assert(all.take(k + 1).drop_last() =~= all.take(k as int));
            assert(all.take(k + 1).last() == all[k as int]);
        }
        k = k + 1;
    }
    assert(all.take(k as int) =~= all);
    Ok(sorted)
}

/// Time sources of a discovery time-source packet; `InvalidType` for another
/// type.
pub fn decode_discovery_timesync_sources(pkt: &TelemetryPacket) -> (r: TelemetryResult<Vec<String>>)
    ensures
        pkt@.ty != DataType::DiscoveryTimeSyncSources ==> (r matches Err(e) && e == TelemetryError::InvalidType),
        pkt@.ty == DataType::DiscoveryTimeSyncSources ==> match (r, spec_decode_sources_payload(pkt@.payload)) {
            (Ok(v), Ok(sv)) => v@.map_values(|s: String| s@) == sv,
            (Err(e), Err(se)) => e == se,
            _ => false,
        },
{
    if pkt.data_type() != DataType::DiscoveryTimeSyncSources {
        return Err(TelemetryError::InvalidType);
    }
    decode_discovery_timesync_sources_payload(pkt.payload())
}


// ---------------------------------------------------------------------------
// Round trip of time source lists
// ---------------------------------------------------------------------------

proof fn lemma_bytes_lt_irrefl(a: Seq<u8>)
    ensures
        !bytes_lt(a, a),
    decreases a.len(),
{
    if a.len() > 0 {
        lemma_bytes_lt_irrefl(a.drop_first());
    }
}

proof fn lemma_bytes_lt_asym(a: Seq<u8>, b: Seq<u8>)
    ensures
        bytes_lt(a, b) ==> !bytes_lt(b, a),
    decreases a.len(),
{
    if a.len() > 0 && b.len() > 0 && a[0] == b[0] {
        lemma_bytes_lt_asym(a.drop_first(), b.drop_first());
    }
}

proof fn lemma_bytes_lt_trans(a: Seq<u8>, b: Seq<u8>, c: Seq<u8>)
    requires
        bytes_lt(a, b),
        bytes_lt(b, c),
    ensures
        bytes_lt(a, c),
    decreases a.len(),
{
    if a.len() > 0 && a[0] == b[0] && b[0] == c[0] {
        lemma_bytes_lt_trans(a.drop_first(), b.drop_first(), c.drop_first());
    }
}

proof fn lemma_bytes_lt_total(a: Seq<u8>, b: Seq<u8>)
    ensures
        a == b || bytes_lt(a, b) || bytes_lt(b, a),
    decreases a.len(),
{
    if a.len() == 0 && b.len() == 0 {
        assert(a =~= b);
    } else if a.len() > 0 && b.len() > 0 && a[0] == b[0] {
        lemma_bytes_lt_total(a.drop_first(), b.drop_first());
        if a.drop_first() == b.drop_first() {
            assert(a =~= seq![a[0]] + a.drop_first());
            assert(b =~= seq![b[0]] + b.drop_first());
        }
    }
}

/// `x` sorts before `y` by the bytes of their UTF-8 encodings.
pub open spec fn src_lt(x: Seq<char>, y: Seq<char>) -> bool {
    bytes_lt(vstd::utf8::encode_utf8(x), vstd::utf8::encode_utf8(y))
}

/// A list strictly increasing in byte order.
pub open spec fn strictly_sorted(l: Seq<Seq<char>>) -> bool {
    forall|i: int, j: int| 0 <= i < j < l.len() ==> src_lt(#[trigger] l[i], #[trigger] l[j])
}

proof fn lemma_src_total(x: Seq<char>, y: Seq<char>)
    ensures
        x == y || src_lt(x, y) || src_lt(y, x),
{
    lemma_bytes_lt_total(vstd::utf8::encode_utf8(x), vstd::utf8::encode_utf8(y));
    vstd::utf8::encode_utf8_decode_utf8(x);
    vstd::utf8::encode_utf8_decode_utf8(y);
}

pub(crate) proof fn lemma_ins_sorted(l: Seq<Seq<char>>, x: Seq<char>)
    requires
        strictly_sorted(l),
    ensures
        strictly_sorted(ins_sorted(l, x)),
        forall|y: Seq<char>| #[trigger] ins_sorted(l, x).contains(y) <==> (l.contains(y) || y == x),
        ins_sorted(l, x).len() <= l.len() + 1,
    decreases l.len(),
{
    let r = ins_sorted(l, x);
    if l.len() == 0 {
        assert forall|y: Seq<char>| r.contains(y) <==> (l.contains(y) || y == x) by {
            if r.contains(y) {
                assert(r[0] == y);
            }
            if y == x {
                assert(r[0] == x);
            }
        }
    } else if l[0] == x {
        assert forall|y: Seq<char>| r.contains(y) <==> (l.contains(y) || y == x) by {
            if y == x {
                assert(l[0] == y);
            }
        }
    } else if src_lt(x, l[0]) {
        assert(r == seq![x] + l);
        assert forall|i: int, j: int| 0 <= i < j < r.len() implies src_lt(#[trigger] r[i], #[trigger] r[j]) by {
            if i == 0 {
                if j > 1 {
                    assert(src_lt(l[0], l[j - 1]));
                    lemma_bytes_lt_trans(
                        vstd::utf8::encode_utf8(x),
                        vstd::utf8::encode_utf8(l[0]),
                        vstd::utf8::encode_utf8(l[j - 1]),
                    );
                }
            } else {
                assert(r[i] == l[i - 1] && r[j] == l[j - 1]);
            }
        }
        assert forall|y: Seq<char>| r.contains(y) <==> (l.contains(y) || y == x) by {
            if r.contains(y) {
                let k = choose|k: int| 0 <= k < r.len() && r[k] == y;
                if k > 0 {
                    assert(l[k - 1] == y);
                }
            }
            if l.contains(y) {
                let k = choose|k: int| 0 <= k < l.len() && l[k] == y;
                assert(r[k + 1] == y);
            }
            if y == x {
                assert(r[0] == y);
            }
        }
    } else {
        let rest = l.drop_first();
        assert forall|i: int, j: int| 0 <= i < j < rest.len() implies src_lt(#[trigger] rest[i], #[trigger] rest[j]) by {
            assert(rest[i] == l[i + 1] && rest[j] == l[j + 1]);
        }
        lemma_ins_sorted(rest, x);
        let m = ins_sorted(rest, x);
        assert(r == seq![l[0]] + m);
        lemma_src_total(x, l[0]);
        assert(src_lt(l[0], x));
        assert forall|k: int| 0 <= k < m.len() implies src_lt(l[0], #[trigger] m[k]) by {
            assert(m.contains(m[k]));
            if m[k] != x {
                assert(rest.contains(m[k]));
                let q = choose|q: int| 0 <= q < rest.len() && rest[q] == m[k];
                assert(l[q + 1] == m[k]);
                assert(src_lt(l[0], l[q + 1]));
            }
        }
        assert forall|i: int, j: int| 0 <= i < j < r.len() implies src_lt(#[trigger] r[i], #[trigger] r[j]) by {
            if i == 0 {
                assert(r[j] == m[j - 1]);
            } else {
                assert(r[i] == m[i - 1] && r[j] == m[j - 1]);
            }
        }
        assert forall|y: Seq<char>| r.contains(y) <==> (l.contains(y) || y == x) by {
            if r.contains(y) {
                let k = choose|k: int| 0 <= k < r.len() && r[k] == y;
                if k > 0 {
                    assert(m[k - 1] == y);
                    assert(m.contains(y));
                    if rest.contains(y) {
                        let q = choose|q: int| 0 <= q < rest.len() && rest[q] == y;
                        assert(l[q + 1] == y);
                    }
                } else {
                    assert(l[0] == y);
                }
            }
            if l.contains(y) {
                let k = choose|k: int| 0 <= k < l.len() && l[k] == y;
                if k == 0 {
                    assert(r[0] == y);
                } else {
                    assert(rest[k - 1] == y);
                    assert(m.contains(y));
                    let q = choose|q: int| 0 <= q < m.len() && m[q] == y;
                    assert(r[q + 1] == y);
                }
            }
            if y == x {
                assert(m.contains(y));
                let q = choose|q: int| 0 <= q < m.len() && m[q] == y;
                assert(r[q + 1] == y);
            }
        }
    }
}

proof fn lemma_sort_dedup_sorted(s: Seq<Seq<char>>)
    ensures
        strictly_sorted(sort_dedup(s)),
        forall|y: Seq<char>| #[trigger] sort_dedup(s).contains(y) <==> s.contains(y),
        sort_dedup(s).len() <= s.len(),
    decreases s.len(),
{
    if s.len() > 0 {
        lemma_sort_dedup_sorted(s.drop_last());
        lemma_ins_sorted(sort_dedup(s.drop_last()), s.last());
        assert forall|y: Seq<char>| sort_dedup(s).contains(y) <==> s.contains(y) by {
            if s.drop_last().contains(y) {
                let k = choose|k: int| 0 <= k < s.drop_last().len() && s.drop_last()[k] == y;
                assert(s[k] == y);
            }
            if s.contains(y) {
                let k = choose|k: int| 0 <= k < s.len() && s[k] == y;
                if k < s.len() - 1 {
                    assert(s.drop_last()[k] == y);
                }
            }
        }
    }
}

proof fn lemma_sort_dedup_of_sorted(t: Seq<Seq<char>>)
    requires
        strictly_sorted(t),
    ensures
        sort_dedup(t) == t,
    decreases t.len(),
{
    if t.len() > 0 {
        let init = t.drop_last();
        assert forall|i: int, j: int| 0 <= i < j < init.len() implies src_lt(#[trigger] init[i], #[trigger] init[j]) by {
            assert(init[i] == t[i] && init[j] == t[j]);
        }
        lemma_sort_dedup_of_sorted(init);
        lemma_ins_sorted_last(init, t.last());
        assert(init.push(t.last()) =~= t);
    }
}

proof fn lemma_ins_sorted_last(l: Seq<Seq<char>>, x: Seq<char>)
    requires
        forall|i: int| 0 <= i < l.len() ==> src_lt(#[trigger] l[i], x),
    ensures
        ins_sorted(l, x) == l.push(x),
    decreases l.len(),
{
    if l.len() > 0 {
        lemma_bytes_lt_irrefl(vstd::utf8::encode_utf8(x));
        assert(src_lt(l[0], x));
        lemma_bytes_lt_asym(vstd::utf8::encode_utf8(l[0]), vstd::utf8::encode_utf8(x));
        assert(l[0] != x);
        let rest = l.drop_first();
        assert forall|i: int| 0 <= i < rest.len() implies src_lt(#[trigger] rest[i], x) by {
            assert(rest[i] == l[i + 1]);
        }
        lemma_ins_sorted_last(rest, x);
        assert(seq![l[0]] + rest.push(x) =~= l.push(x));
    }
}

/// Sorting and de-duplicating twice changes nothing.
pub proof fn lemma_sort_dedup_idempotent(s: Seq<Seq<char>>)
    ensures
        sort_dedup(sort_dedup(s)) == sort_dedup(s),
{
    lemma_sort_dedup_sorted(s);
    lemma_sort_dedup_of_sorted(sort_dedup(s));
}

/// The encoded length and bytes of one source.
pub open spec fn source_entry(x: Seq<char>) -> Seq<u8> {
    le_bytes(vstd::utf8::encode_utf8(x).len(), 4) + vstd::utf8::encode_utf8(x)
}

proof fn lemma_sources_body_front(d: Seq<Seq<char>>)
    requires
        d.len() > 0,
    ensures
        sources_body(d) == source_entry(d[0]) + sources_body(d.drop_first()),
    decreases d.len(),
{
    if d.len() == 1 {
        assert(d.drop_last() =~= Seq::<Seq<char>>::empty());
        assert(d.drop_first() =~= Seq::<Seq<char>>::empty());
        assert(sources_body(d) =~= source_entry(d[0]) + sources_body(d.drop_first()));
    } else {
        lemma_sources_body_front(d.drop_last());
        assert(d.drop_last().drop_first() =~= d.drop_first().drop_last());
        assert(d.drop_first().last() == d.last());
        assert(d.drop_last()[0] == d[0]);
        assert(sources_body(d) =~= source_entry(d[0]) + sources_body(d.drop_first()));
    }
}

proof fn lemma_dec_sources_body(p: Seq<u8>, d: Seq<Seq<char>>)
    requires
        forall|i: int| 0 <= i < d.len() ==> (#[trigger] d[i]).len() > 0
            && vstd::utf8::encode_utf8(d[i]).len() <= u32::MAX,
    ensures
        dec_sources(p + sources_body(d), p.len() as int, d.len()) == Ok::<Seq<Seq<char>>, TelemetryError>(d),
    decreases d.len(),
{
    let b = p + sources_body(d);
    if d.len() == 0 {
        assert(b =~= p);
        assert(d =~= Seq::<Seq<char>>::empty());
    } else {
        let x = d[0];
        let e = vstd::utf8::encode_utf8(x);
        let rest = d.drop_first();
        lemma_sources_body_front(d);
        let p2 = p + source_entry(x);
        assert(b =~= p2 + sources_body(rest));
        reveal_with_fuel(crate::le_bytes::p256, 5);
        crate::le_bytes::lemma_le_roundtrip(e.len(), 4);
        assert(b.subrange(p.len() as int, p.len() + 4 as int) =~= le_bytes(e.len(), 4));
        assert(b.subrange(p.len() + 4 as int, p.len() + 4 + e.len() as int) =~= e);
        vstd::utf8::encode_utf8_valid_utf8(x);
        vstd::utf8::encode_utf8_decode_utf8(x);
        if e.len() == 0 {
            assert(e =~= Seq::<u8>::empty());
            assert(vstd::utf8::decode_utf8(Seq::<u8>::empty()) =~= Seq::<char>::empty());
        }
        assert forall|i: int| 0 <= i < rest.len() implies (#[trigger] rest[i]).len() > 0
            && vstd::utf8::encode_utf8(rest[i]).len() <= u32::MAX by {
            assert(rest[i] == d[i + 1]);
        }
        lemma_dec_sources_body(p2, rest);
        assert(p2.len() == p.len() + 4 + e.len());
        assert(x.len() > 0);
        assert(e.len() > 0);
        assert(b.len() >= p.len() + 4 + e.len());
        assert(dec_sources(b, p2.len() as int, rest.len()) == Ok::<Seq<Seq<char>>, TelemetryError>(rest));
        assert(le_value(b.subrange(p.len() as int, p.len() + 4 as int)) == e.len());
        let c2: int = p.len() + 4int;
        let raw = b.subrange(c2, c2 + e.len() as int);
        assert(raw == e);
        assert(vstd::utf8::valid_utf8(raw));
        assert(vstd::utf8::decode_utf8(raw) == x);
        assert((d.len() - 1) as nat == rest.len());
        assert(c2 + e.len() == p2.len());
        assert(seq![x] + rest =~= d);
    }
}

/// Decoding the payload that lists the time sources `s` gives back `s`
/// sorted in byte order without duplicates, when no source is empty or
/// longer than `u32::MAX` bytes.
pub proof fn lemma_sources_payload_roundtrip(s: Seq<Seq<char>>)
    requires
        s.len() <= u32::MAX,
        forall|i: int| 0 <= i < s.len() ==> (#[trigger] s[i]).len() > 0
            && vstd::utf8::encode_utf8(s[i]).len() <= u32::MAX,
    ensures
        spec_decode_sources_payload(sources_payload(sort_dedup(s))) == Ok::<Seq<Seq<char>>, TelemetryError>(sort_dedup(s)),
{
    let d = sort_dedup(s);
    lemma_sort_dedup_sorted(s);
    lemma_sort_dedup_idempotent(s);
    assert forall|i: int| 0 <= i < d.len() implies (#[trigger] d[i]).len() > 0
        && vstd::utf8::encode_utf8(d[i]).len() <= u32::MAX by {
        assert(d.contains(d[i]));
        assert(s.contains(d[i]));
        let k = choose|k: int| 0 <= k < s.len() && s[k] == d[i];
    }
    let head = le_bytes((d.len() as u32) as nat, 4);
    reveal_with_fuel(crate::le_bytes::p256, 5);
    crate::le_bytes::lemma_le_roundtrip((d.len() as u32) as nat, 4);
    lemma_dec_sources_body(head, d);
    let b = sources_payload(d);
    assert(b == head + sources_body(d));
    assert(b.subrange(0, 4) =~= head);
}

} // verus!
