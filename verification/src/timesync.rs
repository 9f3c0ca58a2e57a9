//! Time synchronization: configuration and leader election, the time sync
//! packets, calendar conversions, a slewed clock, and a network clock that
//! assembles time from several sources.
use vstd::prelude::*;
use vstd::string::StringSliceAdditionalSpecFns;

use crate::config::{
    spec_default_endpoints, DataEndpoint, DataType, DEVICE_IDENTIFIER,
};
use crate::le_bytes::{encode_slice_le, le_bytes, le_value, read_u64_le, spec_encode_le};
use crate::telemetry_packet::{spec_new, view_result, PacketModel, TelemetryPacket};
use crate::text::{
    bytes_lt, civil_from_days, lemma_bytes_lt_asym, lemma_bytes_lt_irrefl, lemma_bytes_lt_total, lemma_bytes_lt_trans, spec_civil_from_days, str_eq, str_lt, tdiv};
use crate::router::{no_handler_for, same_queues, spec_log_packet, Router};
use crate::{TelemetryError, TelemetryResult};

verus! {

/// Number of `u64` words of a time sync announce payload.
pub const TIMESYNC_ANNOUNCE_WORDS: usize = 2;

/// Number of `u64` words of a time sync request payload.
pub const TIMESYNC_REQUEST_WORDS: usize = 2;

/// Number of `u64` words of a time sync response payload.
pub const TIMESYNC_RESPONSE_WORDS: usize = 4;

/// Source identifier of a remotely learned full network time.
pub const INTERNAL_TIMESYNC_SOURCE_ID: &'static str = "__timesync_remote__";

/// Source identifier of a locally supplied date and time.
pub const LOCAL_TIMESYNC_FULL_SOURCE_ID: &'static str = "__timesync_local_full__";

/// Source identifier of a locally supplied date.
pub const LOCAL_TIMESYNC_DATE_SOURCE_ID: &'static str = "__timesync_local_date__";

/// Source identifier of a locally supplied time of day.
pub const LOCAL_TIMESYNC_TOD_SOURCE_ID: &'static str = "__timesync_local_tod__";

/// Source identifier of a locally supplied sub-second time.
pub const LOCAL_TIMESYNC_SUBSEC_SOURCE_ID: &'static str = "__timesync_local_subsec__";

/// Unix nanosecond readings from this value on are beyond the calendar range
/// handled here (day counts of `700_000_000_000` and more).
pub const UNIX_NS_LIMIT: i128 = 60_480_000_000_000_000_000_000_000;

/// How a node takes part in time synchronization.
#[derive(Debug, Clone, Copy, PartialEq, Eq, Structural)]
pub enum TimeSyncRole {
    /// Never originates time, unless promoted as a fallback.
    Consumer,
    /// Always advertises itself as a time source.
    Source,
    /// Advertises itself when it has usable time and no better source is active.
    Auto,
}

/// Time sync behavior of a router or tracker.
#[derive(Debug, Clone, Copy, PartialEq, Eq, Structural)]
pub struct TimeSyncConfig {
    /// Local participation mode.
    pub role: TimeSyncRole,
    /// Lower values are preferred in source selection.
    pub priority: u64,
    /// Age after which an announced source is inactive.
    pub source_timeout_ms: u64,
    /// Interval between local announces while leading.
    pub announce_interval_ms: u64,
    /// Interval between requests while following a remote source.
    pub request_interval_ms: u64,
    /// A consumer with usable time may lead when no remote source exists.
    pub consumer_promotion_enabled: bool,
    /// Slew-rate cap of the slewed clock, in parts per million.
    pub max_slew_ppm: u32,
}

impl Default for TimeSyncConfig {
    fn default() -> (r: Self)
        ensures
            r == (TimeSyncConfig {
                role: TimeSyncRole::Consumer,
                priority: 100,
                source_timeout_ms: 5_000,
                announce_interval_ms: 1_000,
                request_interval_ms: 1_000,
                consumer_promotion_enabled: true,
                max_slew_ppm: 50_000,
            }),
    {
        TimeSyncConfig {
            role: TimeSyncRole::Consumer,
            priority: 100,
            source_timeout_ms: 5_000,
            announce_interval_ms: 1_000,
            request_interval_ms: 1_000,
            consumer_promotion_enabled: true,
            max_slew_ppm: 50_000,
        }
    }
}

/// Whether the tracker's source selection changed.
#[derive(Debug, Clone, Copy, PartialEq, Eq, Structural)]
pub enum TimeSyncUpdate {
    /// The selected source stayed the same.
    NoChange,
    /// The selected source changed.
    SourceChanged,
}

/// Fields of a time sync request.
#[derive(Debug, Clone, Copy, PartialEq, Eq, Structural)]
pub struct TimeSyncRequestFields {
    /// Sequence number chosen by the requester.
    pub seq: u64,
    /// Requester transmit time (monotonic ms).
    pub t1_ms: u64,
}

/// Fields of a time sync response.
#[derive(Debug, Clone, Copy, PartialEq, Eq, Structural)]
pub struct TimeSyncResponseFields {
    /// Sequence number copied from the request.
    pub seq: u64,
    /// Requester transmit time (monotonic ms).
    pub t1_ms: u64,
    /// Responder receive time (network ms).
    pub t2_ms: u64,
    /// Responder transmit time (network ms).
    pub t3_ms: u64,
}

/// Fields of a time sync announce.
#[derive(Debug, Clone, Copy, PartialEq, Eq, Structural)]
pub struct TimeSyncAnnounceFields {
    /// Advertised priority; lower is better.
    pub priority: u64,
    /// Advertised network time (Unix ms).
    pub time_ms: u64,
}

/// Offset and delay from the four timestamps of an exchange.
#[derive(Debug, Clone, Copy, PartialEq, Eq, Structural)]
pub struct TimeSyncSample {
    /// Estimated offset from requester to responder (ms).
    pub offset_ms: i64,
    /// Estimated round-trip delay (ms).
    pub delay_ms: u64,
}

// ---------------------------------------------------------------------------
// Offset and delay
// ---------------------------------------------------------------------------

/// Offset `((t2 - t1) + (t3 - t4)) / 2` (rounded toward zero, truncated to
/// 64 bits) and delay `(t4 - t1) - (t3 - t2)` (zero when negative).
pub open spec fn spec_offset_delay(t1: u64, t2: u64, t3: u64, t4: u64) -> TimeSyncSample {
    let offset = tdiv((t2 - t1) + (t3 - t4), 2);
    let delay = (t4 - t1) - (t3 - t2);
    TimeSyncSample {
        offset_ms: offset as i64,
        delay_ms: if delay < 0 {
            0
        } else {
            delay as u64
        },
    }
}

/// Clock offset and round-trip delay from the standard four timestamps.
pub fn compute_offset_delay(t1_ms: u64, t2_ms: u64, t3_ms: u64, t4_ms: u64) -> (r: TimeSyncSample)
    ensures
        r == spec_offset_delay(t1_ms, t2_ms, t3_ms, t4_ms),
{
    let t1 = t1_ms as i128;
    let t2 = t2_ms as i128;
    let t3 = t3_ms as i128;
    let t4 = t4_ms as i128;
    let sum = (t2 - t1) + (t3 - t4);
    let offset = if sum >= 0 {
        sum / 2
    } else {
        -((-sum) / 2)
    };
    let delay = (t4 - t1) - (t3 - t2);
    let delay_ms: u64 = if delay < 0 {
        0
    } else {
        delay as u64
    };
    TimeSyncSample { offset_ms: offset as i64, delay_ms }
}

/// `a - b`, or 0 when `b > a`.
pub open spec fn sat_sub_u64(a: u64, b: u64) -> u64 {
    if b > a {
        0
    } else {
        (a - b) as u64
    }
}

/// `a + b`, or `u64::MAX` when it does not fit.
pub open spec fn sat_add_u64(a: u64, b: u64) -> u64 {
    if a + b > u64::MAX {
        u64::MAX
    } else {
        (a + b) as u64
    }
}

/// Network time and one-way delay from a request/response exchange:
/// the delay is half of the round trip less the server's processing time,
/// and the time is the responder's transmit time plus that delay
/// (all differences and sums saturating).
pub fn compute_network_time_sample(
    t1_monotonic_ms: u64,
    t2_network_ms: u64,
    t3_network_ms: u64,
    t4_monotonic_ms: u64,
) -> (r: (u64, u64))
    ensures
        r.1 == sat_sub_u64(
            sat_sub_u64(t4_monotonic_ms, t1_monotonic_ms),
            sat_sub_u64(t3_network_ms, t2_network_ms),
        ) / 2,
        r.0 == sat_add_u64(t3_network_ms, r.1),
{
    let round_trip = t4_monotonic_ms.saturating_sub(t1_monotonic_ms);
    let server_processing = t3_network_ms.saturating_sub(t2_network_ms);
    let one_way_delay = round_trip.saturating_sub(server_processing) / 2;
    let estimated_network_ms = t3_network_ms.saturating_add(one_way_delay);
    (estimated_network_ms, one_way_delay)
}

// ---------------------------------------------------------------------------
// Calendar time
// ---------------------------------------------------------------------------

/// A calendar date and time of day, each field possibly unknown.
#[derive(Debug, Clone, Copy, PartialEq, Eq, Structural)]
pub struct PartialNetworkTime {
    /// Calendar year.
    pub year: Option<i32>,
    /// Month, `1..=12`.
    pub month: Option<u8>,
    /// Day of month, `1..=31`.
    pub day: Option<u8>,
    /// Hour, `0..=23`.
    pub hour: Option<u8>,
    /// Minute, `0..=59`.
    pub minute: Option<u8>,
    /// Second, `0..=59`.
    pub second: Option<u8>,
    /// Nanosecond within the second.
    pub nanosecond: Option<u32>,
}

/// A fully specified calendar date and time of day (UTC).
#[derive(Debug, Clone, Copy, PartialEq, Eq, Structural)]
pub struct NetworkTime {
    /// Calendar year.
    pub year: i32,
    /// Month, `1..=12`.
    pub month: u8,
    /// Day of month, `1..=31`.
    pub day: u8,
    /// Hour, `0..=23`.
    pub hour: u8,
    /// Minute, `0..=59`.
    pub minute: u8,
    /// Second, `0..=59`.
    pub second: u8,
    /// Nanosecond within the second.
    pub nanosecond: u32,
}

/// The partial time with no field known.
pub open spec fn empty_partial() -> PartialNetworkTime {
    PartialNetworkTime {
        year: None,
        month: None,
        day: None,
        hour: None,
        minute: None,
        second: None,
        nanosecond: None,
    }
}

impl Default for PartialNetworkTime {
    fn default() -> (r: Self)
        ensures
            r == empty_partial(),
    {
        PartialNetworkTime {
            year: None,
            month: None,
            day: None,
            hour: None,
            minute: None,
            second: None,
            nanosecond: None,
        }
    }
}

/// The partial time with every field of `t` known.
pub open spec fn spec_partial_of(t: NetworkTime) -> PartialNetworkTime {
    PartialNetworkTime {
        year: Some(t.year),
        month: Some(t.month),
        day: Some(t.day),
        hour: Some(t.hour),
        minute: Some(t.minute),
        second: Some(t.second),
        nanosecond: Some(t.nanosecond),
    }
}

impl From<NetworkTime> for PartialNetworkTime {
    fn from(value: NetworkTime) -> (r: Self)
        ensures
            r == spec_partial_of(value),
    {
        PartialNetworkTime {
            year: Some(value.year),
            month: Some(value.month),
            day: Some(value.day),
            hour: Some(value.hour),
            minute: Some(value.minute),
            second: Some(value.second),
            nanosecond: Some(value.nanosecond),
        }
    }
}

impl vstd::std_specs::convert::FromSpecImpl<NetworkTime> for PartialNetworkTime {
    open spec fn obeys_from_spec() -> bool {
        true
    }

    open spec fn from_spec(v: NetworkTime) -> Self {
        spec_partial_of(v)
    }
}

/// The full time of `p` when year through second are known (an unknown
/// nanosecond counts as 0).
pub open spec fn spec_to_network_time(p: PartialNetworkTime) -> Option<NetworkTime> {
    if p.year is Some && p.month is Some && p.day is Some && p.hour is Some && p.minute is Some
        && p.second is Some {
        Some(
            NetworkTime {
                year: p.year.unwrap(),
                month: p.month.unwrap(),
                day: p.day.unwrap(),
                hour: p.hour.unwrap(),
                minute: p.minute.unwrap(),
                second: p.second.unwrap(),
                nanosecond: match p.nanosecond {
                    Some(n) => n,
                    None => 0,
                },
            },
        )
    } else {
        None
    }
}

/// Days since 1970-01-01 of a proleptic Gregorian date.
pub open spec fn spec_days_from_civil(year: int, month: int, day: int) -> int {
    let y = year - if month <= 2 { 1int } else { 0int };
    let era = tdiv(if y >= 0 { y } else { y - 399 }, 400);
    let yoe = y - era * 400;
    let mp = month + if month > 2 { -3int } else { 9int };
    let doy = tdiv(153 * mp + 2, 5) + day - 1;
    let doe = yoe * 365 + tdiv(yoe, 4) - tdiv(yoe, 100) + doy;
    era * 146097 + doe - 719468
}

/// Whether the fields of `t` are in range.
pub open spec fn fields_valid(t: NetworkTime) -> bool {
    &&& 1 <= t.month <= 12
    &&& 1 <= t.day <= 31
    &&& t.hour <= 23
    &&& t.minute <= 59
    &&& t.second <= 59
    &&& t.nanosecond < 1_000_000_000
}

/// Unix nanoseconds of `t`, when its fields are in range.
pub open spec fn spec_as_unix_ns(t: NetworkTime) -> Option<int> {
    if !fields_valid(t) {
        None
    } else {
        let days = spec_days_from_civil(t.year as int, t.month as int, t.day as int);
        let secs = days * 86400 + t.hour * 3600 + t.minute * 60 + t.second;
        Some(secs * 1_000_000_000 + t.nanosecond)
    }
}

/// Unix milliseconds of `t`, when in range and representable.
pub open spec fn spec_as_unix_ms(t: NetworkTime) -> Option<u64> {
    match spec_as_unix_ns(t) {
        None => None,
        Some(ns) => if ns < 0 || ns / 1_000_000 > u64::MAX {
            None
        } else {
            Some((ns / 1_000_000) as u64)
        },
    }
}

/// The calendar time of a non-negative Unix nanosecond count.
pub open spec fn spec_from_unix_ns(ns: int) -> Option<NetworkTime> {
    if ns < 0 {
        None
    } else {
        let secs = ns / 1_000_000_000;
        let nanos = ns % 1_000_000_000;
        let days = secs / 86400;
        let sod = secs % 86400;
        let ymd = spec_civil_from_days(days);
        Some(
            NetworkTime {
                year: ymd.0,
                month: ymd.1 as u8,
                day: ymd.2 as u8,
                hour: (sod / 3600) as u8,
                minute: ((sod % 3600) / 60) as u8,
                second: (sod % 60) as u8,
                nanosecond: nanos as u32,
            },
        )
    }
}

fn days_from_civil(year: i32, month: u32, day: u32) -> (r: i64)
    requires
        1 <= month <= 12,
        1 <= day <= 31,
    ensures
        r == spec_days_from_civil(year as int, month as int, day as int),
{
    let y: i64 = year as i64 - if month <= 2 { 1i64 } else { 0i64 };
    let num: i64 = if y >= 0 { y } else { y - 399 };
    let era: i64 = if num >= 0 { num / 400 } else { -((-num) / 400) };
    let yoe: i64 = y - era * 400;
    let mp: i64 = month as i64 + if month > 2 { -3i64 } else { 9i64 };
    let doy: i64 = (153 * mp + 2) / 5 + day as i64 - 1;
    assert(0 <= yoe < 400);
    let doe: i64 = yoe * 365 + yoe / 4 - yoe / 100 + doy;
    era * 146097 + doe - 719468
}

impl PartialNetworkTime {
    /// The calendar time of a Unix millisecond count, all fields known.
    pub fn from_unix_ms(unix_ms: u64) -> (r: Self)
        ensures
            r == spec_partial_of(spec_from_unix_ns(unix_ms * 1_000_000).unwrap()),
    {
        let unix_ns = (unix_ms as i128) * 1_000_000;
        match NetworkTime::from_unix_ns(unix_ns) {
            Some(full) => PartialNetworkTime::from(full),
            None => PartialNetworkTime::default(),
        }
    }

    /// Whether year, month and day are known.
    pub fn is_complete_date(&self) -> (r: bool)
        ensures
            r == (self.year is Some && self.month is Some && self.day is Some),
    {
        self.year.is_some() && self.month.is_some() && self.day.is_some()
    }

    /// Whether hour, minute and second are known.
    pub fn is_complete_time(&self) -> (r: bool)
        ensures
            r == (self.hour is Some && self.minute is Some && self.second is Some),
    {
        self.hour.is_some() && self.minute.is_some() && self.second.is_some()
    }

    /// The full time, when year through second are known.
    pub fn to_network_time(&self) -> (r: Option<NetworkTime>)
        ensures
            r == spec_to_network_time(*self),
    {
        match (self.year, self.month, self.day, self.hour, self.minute, self.second) {
            (Some(year), Some(month), Some(day), Some(hour), Some(minute), Some(second)) => {
                let nanosecond = match self.nanosecond {
                    Some(n) => n,
                    None => 0,
                };
                Some(NetworkTime { year, month, day, hour, minute, second, nanosecond })
            },
            _ => None,
        }
    }
}

impl NetworkTime {
    /// The calendar time of a Unix nanosecond count; `None` when negative.
    pub fn from_unix_ns(unix_ns: i128) -> (r: Option<Self>)
        requires
            unix_ns < UNIX_NS_LIMIT,
        ensures
            r == spec_from_unix_ns(unix_ns as int),
    {
        if unix_ns < 0 {
            return None;
        }
        let secs = unix_ns / 1_000_000_000;
        let nanos = (unix_ns % 1_000_000_000) as u32;
        let days = secs / 86_400;
        let sod = (secs % 86_400) as u32;
        let (year, month, day) = civil_from_days(days as i64);
        Some(
            NetworkTime {
                year,
                month: month as u8,
                day: day as u8,
                hour: (sod / 3_600) as u8,
                minute: ((sod % 3_600) / 60) as u8,
                second: (sod % 60) as u8,
                nanosecond: nanos,
            },
        )
    }

    /// Unix nanoseconds of this time; `None` when a field is out of range.
    pub fn as_unix_ns(&self) -> (r: Option<i128>)
        ensures
            match r {
                Some(v) => spec_as_unix_ns(*self) == Some(v as int),
                None => spec_as_unix_ns(*self) is None,
            },
    {
        if !(1 <= self.month && self.month <= 12) || !(1 <= self.day && self.day <= 31) || self.hour
            > 23 || self.minute > 59 || self.second > 59 || self.nanosecond >= 1_000_000_000 {
            return None;
        }
        let days = days_from_civil(self.year, self.month as u32, self.day as u32);
        proof {
            assert(-800_000_000_000 <= days <= 800_000_000_000);
        }
        let secs = (days as i128) * 86_400 + (self.hour as i128) * 3_600 + (self.minute as i128)
            * 60 + (self.second as i128);
        Some(secs * 1_000_000_000 + self.nanosecond as i128)
    }

    /// Unix milliseconds of this time; `None` when out of range, negative
    /// or too large for `u64`.
    pub fn as_unix_ms(&self) -> (r: Option<u64>)
        ensures
            r == spec_as_unix_ms(*self),
    {
        let unix_ns = match self.as_unix_ns() {
            Some(v) => v,
            None => {
                return None;
            },
        };
        if unix_ns < 0 {
            return None;
        }
        let q = unix_ns / 1_000_000;
        if q > 0xFFFF_FFFF_FFFF_FFFF {
            return None;
        }
        Some(q as u64)
    }
}

/// Year of era and day of year of a day of a 400-year era, as the civil
/// conversion computes them, stay in range.
proof fn lemma_era_split(doe: int)
    requires
        0 <= doe <= 146096,
    ensures
        ({
            let yoe = (doe - doe / 1460 + doe / 36524 - doe / 146096) / 365;
            let doy = doe - (365 * yoe + yoe / 4 - yoe / 100);
            &&& 0 <= yoe <= 399
            &&& 0 <= doy <= 365
        }),
{
}

/// The civil date of a day count in range has a valid month and day, and
/// converts back to the same day count.
pub proof fn lemma_days_roundtrip(z0: int)
    requires
        0 <= z0 <= 700_000_000_000,
    ensures
        ({
            let r = spec_civil_from_days(z0);
            &&& 1 <= r.1 <= 12
            &&& 1 <= r.2 <= 31
            &&& spec_days_from_civil(r.0 as int, r.1 as int, r.2 as int) == z0
        }),
{
    let z = z0 + 719468;
    let era = z / 146097;
    let doe = z - era * 146097;
    assert(tdiv(z, 146097) == era);
    assert(0 <= doe <= 146096);
    assert(0 <= era <= 4_800_000);
    lemma_era_split(doe);
    let yoe = (doe - doe / 1460 + doe / 36524 - doe / 146096) / 365;
    let doy = doe - (365 * yoe + yoe / 4 - yoe / 100);
    let mp = (5 * doy + 2) / 153;
    let d = doy - (153 * mp + 2) / 5 + 1;
    assert(0 <= mp <= 11);
    assert(1 <= d <= 31);
    let y = yoe + era * 400;
    assert((yoe as i32) as int == yoe);
    assert((era as i32) as int == era);
    let m = mp + if mp < 10 { 3int } else { -9int };
    let y2 = y + if m <= 2 { 1int } else { 0int };
    assert((y2 as i32) as int == y2);
    let r = spec_civil_from_days(z0);
    assert(r.0 as int == y2);
    assert(r.1 as int == m);
    assert(r.2 as int == d);
    assert(y / 400 == era);
    assert(tdiv(153 * mp + 2, 5) == (153 * mp + 2) / 5);
}

/// Converting a Unix nanosecond count to calendar time and back gives the
/// same count, over the whole calendar range handled here.
#[verifier::rlimit(100)]
#[verifier::spinoff_prover]
pub proof fn lemma_unix_ns_roundtrip(ns: int)
    requires
        0 <= ns < UNIX_NS_LIMIT,
    ensures
        spec_from_unix_ns(ns) is Some,
        spec_as_unix_ns(spec_from_unix_ns(ns).unwrap()) == Some(ns),
{
    let secs = ns / 1_000_000_000;
    let nanos = ns % 1_000_000_000;
    let days = secs / 86400;
    let sod = secs % 86400;
    assert(secs < 60_480_000_000_000_000);
    assert(days < 700_000_000_000);
    lemma_days_roundtrip(days);
    let t = spec_from_unix_ns(ns).unwrap();
    assert(t.hour as int == sod / 3600);
    assert(t.minute as int == (sod % 3600) / 60);
    assert(t.second as int == sod % 60);
    assert(t.nanosecond as int == nanos);
    assert(t.hour * 3600 + t.minute * 60 + t.second == sod);
    assert(days * 86400 + sod == secs);
    assert(secs * 1_000_000_000 + nanos == ns);
}

/// `base` advanced by `elapsed_ns`; `None` when `base` is out of range or
/// the result is beyond the calendar range handled here.
pub open spec fn spec_advance(base: NetworkTime, elapsed_ns: u64) -> Option<NetworkTime> {
    match spec_as_unix_ns(base) {
        None => None,
        Some(ns) => if ns + elapsed_ns >= UNIX_NS_LIMIT {
            None
        } else {
            spec_from_unix_ns(ns + elapsed_ns)
        },
    }
}

/// Advance a full time by an elapsed monotonic duration.
pub fn advance_network_time(base: NetworkTime, elapsed_ns: u64) -> (r: Option<NetworkTime>)
    ensures
        r == spec_advance(base, elapsed_ns),
{
    let unix_ns = match base.as_unix_ns() {
        Some(v) => v,
        None => {
            return None;
        },
    };
    proof {
        assert(unix_ns < 100_000_000_000_000_000_000_000_000);
    }
    let target = unix_ns + elapsed_ns as i128;
    if target >= UNIX_NS_LIMIT {
        return None;
    }
    NetworkTime::from_unix_ns(target)
}

// ---------------------------------------------------------------------------
// Slewed clock
// ---------------------------------------------------------------------------

/// `a + b` clamped to the `i128` range.
pub open spec fn sat_add_i128(a: int, b: int) -> int {
    if a + b > i128::MAX {
        i128::MAX as int
    } else if a + b < i128::MIN {
        i128::MIN as int
    } else {
        a + b
    }
}

fn add_i128_sat(a: i128, b: i128) -> (r: i128)
    ensures
        r == sat_add_i128(a as int, b as int),
{
    if b > 0 && a > i128::MAX - b {
        i128::MAX
    } else if b < 0 && a < i128::MIN - b {
        i128::MIN
    } else {
        a + b
    }
}

fn sub_i128_sat(a: i128, b: i128) -> (r: i128)
    ensures
        r == sat_add_i128(a as int, -b),
{
    if b < 0 && a > i128::MAX + b {
        i128::MAX
    } else if b > 0 && a < i128::MIN + b {
        i128::MIN
    } else {
        a - b
    }
}

/// Model of a slewed clock.
pub struct SlewModel {
    pub anchor_mono_ns: u64,
    pub anchor_unix_ns: i128,
    pub pending_adjust_ns: i128,
    pub max_slew_ppm: u32,
    pub initialized: bool,
}

/// A clock anchored to a monotonic time that slews toward a target Unix time
/// at a bounded rate instead of stepping.
#[derive(Debug, Clone, Copy)]
pub struct SlewedNetworkClock {
    anchor_mono_ns: u64,
    anchor_unix_ns: i128,
    pending_adjust_ns: i128,
    max_slew_ppm: u32,
    initialized: bool,
}

impl View for SlewedNetworkClock {
    type V = SlewModel;

    closed spec fn view(&self) -> SlewModel {
        SlewModel {
            anchor_mono_ns: self.anchor_mono_ns,
            anchor_unix_ns: self.anchor_unix_ns,
            pending_adjust_ns: self.pending_adjust_ns,
            max_slew_ppm: self.max_slew_ppm,
            initialized: self.initialized,
        }
    }
}

/// Largest correction the clock may apply after `elapsed` nanoseconds.
pub open spec fn max_adjust(c: SlewModel, now_mono_ns: u64) -> int {
    (sat_sub_u64(now_mono_ns, c.anchor_mono_ns) * c.max_slew_ppm) / 1_000_000
}

/// Part of the pending correction applied at `now_mono_ns`.
pub open spec fn applied_adjust(c: SlewModel, now_mono_ns: u64) -> int {
    let m = max_adjust(c, now_mono_ns);
    if c.pending_adjust_ns >= 0 {
        if c.pending_adjust_ns < m {
            c.pending_adjust_ns as int
        } else {
            m
        }
    } else {
        if c.pending_adjust_ns > -m {
            c.pending_adjust_ns as int
        } else {
            -m
        }
    }
}

/// Reading of the clock at a monotonic time: the anchor time plus the
/// elapsed time plus the applied correction; `None` before the first steer.
pub open spec fn spec_read_unix_ns(c: SlewModel, now_mono_ns: u64) -> Option<int> {
    if !c.initialized {
        None
    } else {
        Some(
            sat_add_i128(
                sat_add_i128(c.anchor_unix_ns as int, sat_sub_u64(now_mono_ns, c.anchor_mono_ns) as int),
                applied_adjust(c, now_mono_ns),
            ),
        )
    }
}

/// Millisecond reading, when non-negative and representable.
pub open spec fn spec_read_unix_ms(c: SlewModel, now_mono_ns: u64) -> Option<u64> {
    match spec_read_unix_ns(c, now_mono_ns) {
        None => None,
        Some(ns) => if ns < 0 || ns / 1_000_000 > u64::MAX {
            None
        } else {
            Some((ns / 1_000_000) as u64)
        },
    }
}

/// The clock after steering toward `target_ms` at `now_mono_ns`: re-anchored
/// at the current reading, with the rest of the old correction plus the
/// distance to the target pending.
pub open spec fn spec_steer(c: SlewModel, now_mono_ns: u64, target_ms: u64) -> SlewModel {
    let target = target_ms * 1_000_000;
    if !c.initialized {
        SlewModel {
            anchor_mono_ns: now_mono_ns,
            anchor_unix_ns: target as i128,
            pending_adjust_ns: 0,
            initialized: true,
            ..c
        }
    } else {
        let current = spec_read_unix_ns(c, now_mono_ns).unwrap();
        let remaining = sat_add_i128(c.pending_adjust_ns as int, -applied_adjust(c, now_mono_ns));
        SlewModel {
            anchor_mono_ns: now_mono_ns,
            anchor_unix_ns: current as i128,
            pending_adjust_ns: sat_add_i128(remaining, sat_add_i128(target, -current)) as i128,
            initialized: true,
            ..c
        }
    }
}

/// After a steer at `t0`, the reading at any later monotonic time `t`
/// runs with the monotonic clock from the reading at `t0` (the target, on
/// the first steer), off by at most the slew rate (parts per million) of
/// the time elapsed since `t0`. (Readings are taken far from the `i128`
/// limits, where saturation never applies.)
pub proof fn lemma_steer_slew_bound(c: SlewModel, t0: u64, target_ms: u64, t: u64)
    requires
        t0 <= t,
        c.initialized ==> (spec_read_unix_ns(c, t0) matches Some(cur) && -0x4000_0000_0000_0000_0000_0000_0000_0000
            <= cur <= 0x4000_0000_0000_0000_0000_0000_0000_0000),
    ensures
        ({
            let s = spec_steer(c, t0, target_ms);
            let base: int = if c.initialized {
                spec_read_unix_ns(c, t0).unwrap()
            } else {
                target_ms * 1_000_000
            };
            let slew: int = ((t - t0) as int * c.max_slew_ppm as int) / 1_000_000;
            &&& spec_read_unix_ns(s, t) matches Some(v)
            &&& base + (t - t0) - slew <= spec_read_unix_ns(s, t).unwrap() <= base + (t - t0) + slew
        }),
{
    let s = spec_steer(c, t0, target_ms);
    let e: int = (t - t0) as int;
    assert(sat_sub_u64(t, s.anchor_mono_ns) == t - t0);
    assert(0 <= e * c.max_slew_ppm as int) by (nonlinear_arith)
        requires
            0 <= e,
            0 <= c.max_slew_ppm as int,
    ;
    assert(e * c.max_slew_ppm as int <= 0x1_0000_0000_0000_0000 * 0x1_0000_0000) by (nonlinear_arith)
        requires
            0 <= e <= 0xFFFF_FFFF_FFFF_FFFF,
            0 <= c.max_slew_ppm as int <= 0xFFFF_FFFF,
    ;
    let m = max_adjust(s, t);
    assert(m == (e * c.max_slew_ppm as int) / 1_000_000);
    assert(0 <= m <= 0x1_0000_0000_0000_0000 * 0x1_0000_0000);
    let a = applied_adjust(s, t);
    assert(-m <= a <= m);
}

impl Default for SlewedNetworkClock {
    fn default() -> (r: Self)
        ensures
            r@ == (SlewModel {
                anchor_mono_ns: 0,
                anchor_unix_ns: 0,
                pending_adjust_ns: 0,
                max_slew_ppm: 50_000,
                initialized: false,
            }),
    {
        SlewedNetworkClock {
            anchor_mono_ns: 0,
            anchor_unix_ns: 0,
            pending_adjust_ns: 0,
            max_slew_ppm: 50_000,
            initialized: false,
        }
    }
}

impl SlewedNetworkClock {
    /// A new, uninitialized clock with the slew rate capped at `999_999` ppm.
    pub fn new(max_slew_ppm: u32) -> (r: Self)
        ensures
            r@ == (SlewModel {
                anchor_mono_ns: 0,
                anchor_unix_ns: 0,
                pending_adjust_ns: 0,
                max_slew_ppm: if max_slew_ppm < 999_999 {
                    max_slew_ppm
                } else {
                    999_999
                },
                initialized: false,
            }),
    {
        let ppm = if max_slew_ppm < 999_999 {
            max_slew_ppm
        } else {
            999_999
        };
        SlewedNetworkClock {
            anchor_mono_ns: 0,
            anchor_unix_ns: 0,
            pending_adjust_ns: 0,
            max_slew_ppm: ppm,
            initialized: false,
        }
    }

    /// Whether the clock has been anchored.
    pub fn is_initialized(&self) -> (r: bool)
        ensures
            r == self@.initialized,
    {
        self.initialized
    }

    fn applied(&self, now_mono_ns: u64) -> (r: i128)
        ensures
            r == applied_adjust(self@, now_mono_ns),
    {
        let elapsed = now_mono_ns.saturating_sub(self.anchor_mono_ns) as i128;
        assert(0 <= elapsed * (self.max_slew_ppm as i128) <= 0xFFFF_FFFF_FFFF_FFFF * 0xFFFF_FFFF)
            by (nonlinear_arith)
            requires
                0 <= elapsed <= 0xFFFF_FFFF_FFFF_FFFF,
                0 <= self.max_slew_ppm <= 0xFFFF_FFFF,
        ;
        let m = elapsed * (self.max_slew_ppm as i128) / 1_000_000;
        if self.pending_adjust_ns >= 0 {
            if self.pending_adjust_ns < m {
                self.pending_adjust_ns
            } else {
                m
            }
        } else {
            if self.pending_adjust_ns > -m {
                self.pending_adjust_ns
            } else {
                -m
            }
        }
    }

    /// Estimated Unix time in nanoseconds at a monotonic time.
    pub fn read_unix_ns(&self, now_mono_ns: u64) -> (r: Option<i128>)
        ensures
            match r {
                Some(v) => spec_read_unix_ns(self@, now_mono_ns) == Some(v as int),
                None => spec_read_unix_ns(self@, now_mono_ns) is None,
            },
    {
        if !self.initialized {
            return None;
        }
        let elapsed = now_mono_ns.saturating_sub(self.anchor_mono_ns) as i128;
        let applied = self.applied(now_mono_ns);
        Some(add_i128_sat(add_i128_sat(self.anchor_unix_ns, elapsed), applied))
    }

    /// Estimated Unix time in milliseconds at a monotonic time.
    pub fn read_unix_ms(&self, now_mono_ns: u64) -> (r: Option<u64>)
        ensures
            r == spec_read_unix_ms(self@, now_mono_ns),
    {
        let ns = match self.read_unix_ns(now_mono_ns) {
            Some(v) => v,
            None => {
                return None;
            },
        };
        if ns < 0 {
            return None;
        }
        let q = ns / 1_000_000;
        if q > 0xFFFF_FFFF_FFFF_FFFF {
            return None;
        }
        Some(q as u64)
    }

    /// Steer toward a target Unix time. The first steer anchors the clock at
    /// the target; later ones re-anchor at the current reading, so the
    /// reading at `now_mono_ns` does not jump.
    pub fn steer_unix_ms(&mut self, now_mono_ns: u64, target_unix_ms: u64)
        ensures
            final(self)@ == spec_steer(old(self)@, now_mono_ns, target_unix_ms),
            old(self)@.initialized ==> spec_read_unix_ns(final(self)@, now_mono_ns)
                == spec_read_unix_ns(old(self)@, now_mono_ns),
            !old(self)@.initialized ==> spec_read_unix_ns(final(self)@, now_mono_ns) == Some(
                target_unix_ms * 1_000_000,
            ),
    {
        let target = (target_unix_ms as i128) * 1_000_000;
        if !self.initialized {
            self.anchor_mono_ns = now_mono_ns;
            self.anchor_unix_ns = target;
            self.pending_adjust_ns = 0;
            self.initialized = true;
            return;
        }
        let current = match self.read_unix_ns(now_mono_ns) {
            Some(v) => v,
            None => target,
        };
        let applied = self.applied(now_mono_ns);
        let remaining = sub_i128_sat(self.pending_adjust_ns, applied);
        self.anchor_mono_ns = now_mono_ns;
        self.anchor_unix_ns = current;
        self.pending_adjust_ns = add_i128_sat(remaining, sub_i128_sat(target, current));
        self.initialized = true;
    }
}

// ---------------------------------------------------------------------------
// Time sync packets
// ---------------------------------------------------------------------------

/// The `u64` words of a payload (a trailing partial word is ignored).
pub open spec fn payload_words(b: Seq<u8>) -> Seq<u64> {
    Seq::new(b.len() / 8, |k: int| le_value(b.subrange(8 * k, 8 * k + 8)) as u64)
}

fn build_u64_packet(ty: DataType, words: &[u64], timestamp: u64) -> (r: TelemetryResult<TelemetryPacket>)
    ensures
        view_result(r) == spec_new(
            ty,
            spec_default_endpoints(ty),
            DEVICE_IDENTIFIER@,
            timestamp,
            spec_encode_le(words@),
        ),
{
    let eps = crate::config::default_endpoints(ty);
    let payload = encode_slice_le(words);
    TelemetryPacket::new(ty, eps.as_slice(), DEVICE_IDENTIFIER, timestamp, payload.as_slice())
}

/// A time sync announce from this device, with the schema's endpoints.
pub fn build_timesync_announce(priority: u64, time_ms: u64) -> (r: TelemetryResult<TelemetryPacket>)
    ensures
        view_result(r) == spec_new(
            DataType::TimeSyncAnnounce,
            spec_default_endpoints(DataType::TimeSyncAnnounce),
            DEVICE_IDENTIFIER@,
            time_ms,
            spec_encode_le(seq![priority, time_ms]),
        ),
{
    let words = [priority, time_ms];
    let r = build_u64_packet(DataType::TimeSyncAnnounce, &words, time_ms);
    assert(words@ =~= seq![priority, time_ms]);
    r
}

/// A time sync announce with an explicit sender, addressed to the time
/// sync endpoint.
pub fn build_timesync_announce_with_sender(sender: &str, priority: u64, time_ms: u64) -> (r:
    TelemetryResult<TelemetryPacket>)
    ensures
        view_result(r) == spec_new(
            DataType::TimeSyncAnnounce,
            seq![DataEndpoint::TimeSync],
            sender@,
            time_ms,
            spec_encode_le(seq![priority, time_ms]),
        ),
{
    let words = [priority, time_ms];
    let payload = encode_slice_le(&words);
    let eps = [DataEndpoint::TimeSync];
    assert(words@ =~= seq![priority, time_ms]);
    assert(eps@ =~= seq![DataEndpoint::TimeSync]);
    TelemetryPacket::new(DataType::TimeSyncAnnounce, &eps, sender, time_ms, payload.as_slice())
}

/// A time sync request from this device.
pub fn build_timesync_request(seq: u64, t1_ms: u64) -> (r: TelemetryResult<TelemetryPacket>)
    ensures
        view_result(r) == spec_new(
            DataType::TimeSyncRequest,
            spec_default_endpoints(DataType::TimeSyncRequest),
            DEVICE_IDENTIFIER@,
            t1_ms,
            spec_encode_le(seq![seq, t1_ms]),
        ),
{
    let words = [seq, t1_ms];
    let r = build_u64_packet(DataType::TimeSyncRequest, &words, t1_ms);
    assert(words@ =~= seq![seq, t1_ms]);
    r
}

/// A time sync response from this device, stamped with `t3_ms`.
pub fn build_timesync_response(seq: u64, t1_ms: u64, t2_ms: u64, t3_ms: u64) -> (r: TelemetryResult<
    TelemetryPacket,
>)
    ensures
        view_result(r) == spec_new(
            DataType::TimeSyncResponse,
            spec_default_endpoints(DataType::TimeSyncResponse),
            DEVICE_IDENTIFIER@,
            t3_ms,
            spec_encode_le(seq![seq, t1_ms, t2_ms, t3_ms]),
        ),
{
    let words = [seq, t1_ms, t2_ms, t3_ms];
    let r = build_u64_packet(DataType::TimeSyncResponse, &words, t3_ms);
    assert(words@ =~= seq![seq, t1_ms, t2_ms, t3_ms]);
    r
}

/// The words of a packet of type `ty` with `n` words: `InvalidType` for
/// another type, `SizeMismatch` (in bytes) for another word count.
pub open spec fn spec_decode_words(p: PacketModel, ty: DataType, n: nat) -> TelemetryResult<Seq<u64>> {
    if p.ty != ty {
        Err(TelemetryError::InvalidType)
    } else if payload_words(p.payload).len() != n {
        Err(
            TelemetryError::SizeMismatch {
                expected: (n * 8) as usize,
                got: (payload_words(p.payload).len() * 8) as usize,
            },
        )
    } else {
        Ok(payload_words(p.payload))
    }
}

fn decode_u64_payload(pkt: &TelemetryPacket, expected_ty: DataType, expected_words: usize) -> (r:
    TelemetryResult<Vec<u64>>)
    requires
        expected_words <= 4,
    ensures
        match (r, spec_decode_words(pkt@, expected_ty, expected_words as nat)) {
            (Ok(v), Ok(sv)) => v@ == sv,
            (Err(e), Err(se)) => e == se,
            _ => false,
        },
{
    if pkt.data_type() != expected_ty {
        return Err(TelemetryError::InvalidType);
    }
    let b = pkt.payload();
    let n = b.len() / 8;
    if n != expected_words {
        return Err(TelemetryError::SizeMismatch { expected: expected_words * 8, got: n * 8 });
    }
    let mut out: Vec<u64> = Vec::new();
    let mut k: usize = 0;
    while k < n
        invariant
            k <= n,
            n == b@.len() / 8,
            n <= 4,
            out@ == payload_words(b@).take(k as int),
        decreases n - k,
    {
        let v = read_u64_le(b, 8 * k);
        out.push(v);
        k = k + 1;
        proof {
            assert(out@ =~= payload_words(b@).take(k as int));
        }
    }
    assert(payload_words(b@).take(n as int) =~= payload_words(b@));
    Ok(out)
}

/// Decoded announce of a packet.
pub open spec fn spec_decode_announce(p: PacketModel) -> TelemetryResult<TimeSyncAnnounceFields> {
    match spec_decode_words(p, DataType::TimeSyncAnnounce, 2) {
        Err(e) => Err(e),
        Ok(w) => Ok(TimeSyncAnnounceFields { priority: w[0], time_ms: w[1] }),
    }
}

/// Decoded request of a packet.
pub open spec fn spec_decode_request(p: PacketModel) -> TelemetryResult<TimeSyncRequestFields> {
    match spec_decode_words(p, DataType::TimeSyncRequest, 2) {
        Err(e) => Err(e),
        Ok(w) => Ok(TimeSyncRequestFields { seq: w[0], t1_ms: w[1] }),
    }
}

/// Decoded response of a packet.
pub open spec fn spec_decode_response(p: PacketModel) -> TelemetryResult<TimeSyncResponseFields> {
    match spec_decode_words(p, DataType::TimeSyncResponse, 4) {
        Err(e) => Err(e),
        Ok(w) => Ok(TimeSyncResponseFields { seq: w[0], t1_ms: w[1], t2_ms: w[2], t3_ms: w[3] }),
    }
}

/// The priority and time of a time sync announce.
pub fn decode_timesync_announce(pkt: &TelemetryPacket) -> (r: TelemetryResult<TimeSyncAnnounceFields>)
    ensures
        r == spec_decode_announce(pkt@),
{
    let v = decode_u64_payload(pkt, DataType::TimeSyncAnnounce, TIMESYNC_ANNOUNCE_WORDS)?;
    Ok(TimeSyncAnnounceFields { priority: v[0], time_ms: v[1] })
}

/// The sequence number and send time of a time sync request.
pub fn decode_timesync_request(pkt: &TelemetryPacket) -> (r: TelemetryResult<TimeSyncRequestFields>)
    ensures
        r == spec_decode_request(pkt@),
{
    let v = decode_u64_payload(pkt, DataType::TimeSyncRequest, TIMESYNC_REQUEST_WORDS)?;
    Ok(TimeSyncRequestFields { seq: v[0], t1_ms: v[1] })
}

/// The four fields of a time sync response.
pub fn decode_timesync_response(pkt: &TelemetryPacket) -> (r: TelemetryResult<TimeSyncResponseFields>)
    ensures
        r == spec_decode_response(pkt@),
{
    let v = decode_u64_payload(pkt, DataType::TimeSyncResponse, TIMESYNC_RESPONSE_WORDS)?;
    Ok(TimeSyncResponseFields { seq: v[0], t1_ms: v[1], t2_ms: v[2], t3_ms: v[3] })
}

proof fn lemma_words_roundtrip(w: Seq<u64>)
    ensures
        payload_words(spec_encode_le(w)) =~= w,
    decreases w.len(),
{
    crate::le_bytes::lemma_encode_le_len(w);
    if w.len() > 0 {
        lemma_words_roundtrip(w.drop_last());
        let pre = spec_encode_le(w.drop_last());
        let all = spec_encode_le(w);
        crate::le_bytes::lemma_encode_le_len(w.drop_last());
        assert(all == pre + le_bytes(w.last() as nat, 8));
        crate::le_bytes::lemma_p256_8();
        crate::le_bytes::lemma_le_roundtrip(w.last() as nat, 8);
        assert forall|k: int| 0 <= k < w.len() implies payload_words(all)[k] == w[k] by {
            if k < w.len() - 1 {
                assert(all.subrange(8 * k, 8 * k + 8) =~= pre.subrange(8 * k, 8 * k + 8));
                assert(payload_words(pre)[k] == w.drop_last()[k]);
            } else {
                assert(all.subrange(8 * k, 8 * k + 8) =~= le_bytes(w.last() as nat, 8));
            }
        }
    }
}

/// Decoding an announce built from `(priority, time_ms)` gives them back.
pub proof fn lemma_announce_roundtrip(sender: Seq<char>, eps: Seq<DataEndpoint>, priority: u64, time_ms: u64)
    requires
        eps.len() > 0,
    ensures
        spec_new(DataType::TimeSyncAnnounce, eps, sender, time_ms, spec_encode_le(seq![priority, time_ms]))
            matches Ok(p) ==> spec_decode_announce(p) == Ok::<TimeSyncAnnounceFields, TelemetryError>(
            TimeSyncAnnounceFields { priority, time_ms },
        ),
{
    lemma_words_roundtrip(seq![priority, time_ms]);
}

/// Decoding a request built from `(seq, t1_ms)` gives them back.
pub proof fn lemma_request_roundtrip(seqno: u64, t1_ms: u64)
    ensures
        spec_new(
            DataType::TimeSyncRequest,
            spec_default_endpoints(DataType::TimeSyncRequest),
            DEVICE_IDENTIFIER@,
            t1_ms,
            spec_encode_le(seq![seqno, t1_ms]),
        ) matches Ok(p) ==> spec_decode_request(p) == Ok::<TimeSyncRequestFields, TelemetryError>(
            TimeSyncRequestFields { seq: seqno, t1_ms },
        ),
{
    lemma_words_roundtrip(seq![seqno, t1_ms]);
}

/// Decoding a response built from its four fields gives them back.
pub proof fn lemma_response_roundtrip(seqno: u64, t1_ms: u64, t2_ms: u64, t3_ms: u64)
    ensures
        spec_new(
            DataType::TimeSyncResponse,
            spec_default_endpoints(DataType::TimeSyncResponse),
            DEVICE_IDENTIFIER@,
            t3_ms,
            spec_encode_le(seq![seqno, t1_ms, t2_ms, t3_ms]),
        ) matches Ok(p) ==> spec_decode_response(p) == Ok::<TimeSyncResponseFields, TelemetryError>(
            TimeSyncResponseFields { seq: seqno, t1_ms, t2_ms, t3_ms },
        ),
{
    lemma_words_roundtrip(seq![seqno, t1_ms, t2_ms, t3_ms]);
}

// ---------------------------------------------------------------------------
// Network clock
// ---------------------------------------------------------------------------

/// A reading of the network clock.
#[derive(Debug, Clone, Copy, PartialEq, Eq, Structural)]
pub struct NetworkTimeReading {
    /// The (possibly partial) calendar time.
    pub time: PartialNetworkTime,
    /// Unix milliseconds, when the reading is complete.
    pub unix_time_ms: Option<u64>,
}

/// One source of the network clock.
#[derive(Debug)]
pub struct ClockSource {
    name: String,
    priority: u64,
    updated_mono_ms: u64,
    anchor_mono_ns: u64,
    ttl_ms: Option<u64>,
    time: PartialNetworkTime,
}

/// Model of a clock source.
pub struct ClockSourceModel {
    pub name: Seq<char>,
    pub priority: u64,
    pub updated_mono_ms: u64,
    pub anchor_mono_ns: u64,
    pub ttl_ms: Option<u64>,
    pub time: PartialNetworkTime,
}

impl View for ClockSource {
    type V = ClockSourceModel;

    closed spec fn view(&self) -> ClockSourceModel {
        ClockSourceModel {
            name: self.name@,
            priority: self.priority,
            updated_mono_ms: self.updated_mono_ms,
            anchor_mono_ns: self.anchor_mono_ns,
            ttl_ms: self.ttl_ms,
            time: self.time,
        }
    }
}

/// Aggregates named time sources, each possibly partial, into one reading.
#[derive(Debug)]
pub struct NetworkClock {
    sources: Vec<ClockSource>,
}

impl View for NetworkClock {
    type V = Seq<ClockSourceModel>;

    closed spec fn view(&self) -> Seq<ClockSourceModel> {
        self.sources@.map_values(|c: ClockSource| c@)
    }
}

/// Whether the source named `name` is at index `i`.
pub open spec fn named_at(s: Seq<ClockSourceModel>, name: Seq<char>, i: int) -> bool {
    0 <= i < s.len() && s[i].name == name
}

/// The sources with `e` put in place of the first one of its name, or
/// appended.
pub open spec fn spec_upsert(s: Seq<ClockSourceModel>, e: ClockSourceModel) -> Seq<ClockSourceModel> {
    if exists|i: int| named_at(s, e.name, i) {
        let i = choose|i: int| named_at(s, e.name, i) && forall|j: int| 0 <= j < i ==> s[j].name != e.name;
        s.update(i, e)
    } else {
        s.push(e)
    }
}

/// The sources whose TTL has not run out at `now_ms`.
pub open spec fn spec_unexpired(s: Seq<ClockSourceModel>, now_ms: u64) -> Seq<ClockSourceModel>
    decreases s.len(),
{
    if s.len() == 0 {
        s
    } else {
        let rest = spec_unexpired(s.drop_last(), now_ms);
        let x = s.last();
        let keep = match x.ttl_ms {
            Some(ttl) => sat_sub_u64(now_ms, x.updated_mono_ms) <= ttl,
            None => true,
        };
        if keep {
            rest.push(x)
        } else {
            rest
        }
    }
}

/// The sources other than those named `name`.
pub open spec fn spec_without(s: Seq<ClockSourceModel>, name: Seq<char>) -> Seq<ClockSourceModel>
    decreases s.len(),
{
    if s.len() == 0 {
        s
    } else {
        let rest = spec_without(s.drop_last(), name);
        if s.last().name == name {
            rest
        } else {
            rest.push(s.last())
        }
    }
}

/// Whether the field selected by `k` is known in `t` (0: the full time,
/// 1 to 7: year, month, day, hour, minute, second, nanosecond).
pub open spec fn has_field(t: PartialNetworkTime, k: u8) -> bool {
    if k == 0 {
        spec_to_network_time(t) is Some
    } else if k == 1 {
        t.year is Some
    } else if k == 2 {
        t.month is Some
    } else if k == 3 {
        t.day is Some
    } else if k == 4 {
        t.hour is Some
    } else if k == 5 {
        t.minute is Some
    } else if k == 6 {
        t.second is Some
    } else {
        t.nanosecond is Some
    }
}

fn has_field_exec(t: &PartialNetworkTime, k: u8) -> (r: bool)
    ensures
        r == has_field(*t, k),
{
    if k == 0 {
        t.to_network_time().is_some()
    } else if k == 1 {
        t.year.is_some()
    } else if k == 2 {
        t.month.is_some()
    } else if k == 3 {
        t.day.is_some()
    } else if k == 4 {
        t.hour.is_some()
    } else if k == 5 {
        t.minute.is_some()
    } else if k == 6 {
        t.second.is_some()
    } else {
        t.nanosecond.is_some()
    }
}

/// `a` is preferred to `b`: lower priority, then smaller name.
pub open spec fn clock_pref(a: ClockSourceModel, b: ClockSourceModel) -> bool {
    a.priority < b.priority || (a.priority == b.priority && bytes_lt(
        vstd::utf8::encode_utf8(a.name),
        vstd::utf8::encode_utf8(b.name),
    ))
}

/// Index of the preferred source with field `k` known.
pub open spec fn spec_best_clock(s: Seq<ClockSourceModel>, k: u8) -> Option<int>
    decreases s.len(),
{
    if s.len() == 0 {
        None
    } else {
        let b = spec_best_clock(s.drop_last(), k);
        let i = s.len() - 1;
        if !has_field(s[i].time, k) {
            b
        } else {
            match b {
                None => Some(i),
                Some(j) => if clock_pref(s[i], s[j]) {
                    Some(i)
                } else {
                    Some(j)
                },
            }
        }
    }
}

/// The preferred source has the field.
pub proof fn lemma_best_clock_has(s: Seq<ClockSourceModel>, k: u8)
    ensures
        spec_best_clock(s, k) matches Some(i) ==> 0 <= i < s.len() && has_field(s[i].time, k),
    decreases s.len(),
{
    if s.len() > 0 {
        lemma_best_clock_has(s.drop_last(), k);
    }
}

/// The clock source chosen for field `k` is a best one that has it: no
/// source having the field has a lower priority, nor the same priority
/// and a name earlier in byte order.
pub proof fn lemma_best_clock_is_minimum(s: Seq<ClockSourceModel>, k: u8)
    ensures
        spec_best_clock(s, k) matches Some(i) ==> forall|j: int|
            0 <= j < s.len() && has_field(#[trigger] s[j].time, k) ==> s[i].priority <= s[j].priority && (s[j].priority
                == s[i].priority ==> !bytes_lt(vstd::utf8::encode_utf8(s[j].name), vstd::utf8::encode_utf8(s[i].name))),
    decreases s.len(),
{
    if s.len() > 0 {
        let p = s.drop_last();
        let n = s.len() - 1;
        lemma_best_clock_is_minimum(p, k);
        lemma_best_clock_has(p, k);
        assert forall|j: int| 0 <= j < n implies p[j] == s[j] by {}
        let en = vstd::utf8::encode_utf8(s[n].name);
        lemma_bytes_lt_irrefl(en);
        match spec_best_clock(p, k) {
            None => {
                assert forall|j: int| 0 <= j < n implies !has_field(#[trigger] s[j].time, k) by {
                    lemma_best_clock_none(p, k, j);
                }
            },
            Some(b) => {
                let eb = vstd::utf8::encode_utf8(s[b].name);
                lemma_bytes_lt_asym(en, eb);
                lemma_bytes_lt_total(eb, en);
                let r = spec_best_clock(s, k)->Some_0;
                assert forall|j: int| 0 <= j < s.len() && has_field(#[trigger] s[j].time, k) implies s[r].priority
                    <= s[j].priority && (s[j].priority == s[r].priority ==> !bytes_lt(
                    vstd::utf8::encode_utf8(s[j].name),
                    vstd::utf8::encode_utf8(s[r].name),
                )) by {
                    if j < n {
                        let ej = vstd::utf8::encode_utf8(s[j].name);
                        assert(has_field(p[j].time, k));
                        lemma_bytes_lt_trans(ej, en, eb);
                        lemma_bytes_lt_irrefl(eb);
                    }
                }
            },
        }
    }
}

/// No source has field `k` when none is chosen for it.
proof fn lemma_best_clock_none(s: Seq<ClockSourceModel>, k: u8, j: int)
    requires
        spec_best_clock(s, k) is None,
        0 <= j < s.len(),
    ensures
        !has_field(s[j].time, k),
    decreases s.len(),
{
    if j < s.len() - 1 {
        lemma_best_clock_none(s.drop_last(), k, j);
        assert(s.drop_last()[j] == s[j]);
    }
}

/// Reading from a full time advanced since the anchor of its source.
pub open spec fn advanced_reading(base: NetworkTime, src: ClockSourceModel, now_ns: u64) -> Option<NetworkTimeReading> {
    match spec_advance(base, sat_sub_u64(now_ns, src.anchor_mono_ns)) {
        Some(a) => Some(NetworkTimeReading { time: spec_partial_of(a), unix_time_ms: spec_as_unix_ms(a) }),
        None => None,
    }
}

/// The field-wise merge of the preferred source of each field.
pub open spec fn spec_merged(s: Seq<ClockSourceModel>) -> PartialNetworkTime {
    PartialNetworkTime {
        year: match spec_best_clock(s, 1) { Some(i) => s[i].time.year, None => None },
        month: match spec_best_clock(s, 2) { Some(i) => s[i].time.month, None => None },
        day: match spec_best_clock(s, 3) { Some(i) => s[i].time.day, None => None },
        hour: match spec_best_clock(s, 4) { Some(i) => s[i].time.hour, None => None },
        minute: match spec_best_clock(s, 5) { Some(i) => s[i].time.minute, None => None },
        second: match spec_best_clock(s, 6) { Some(i) => s[i].time.second, None => None },
        nanosecond: match spec_best_clock(s, 7) { Some(i) => s[i].time.nanosecond, None => None },
    }
}

/// The source whose anchor dates the time of day: that of the second, else
/// the minute, else the hour.
pub open spec fn spec_time_source(s: Seq<ClockSourceModel>) -> Option<int> {
    match spec_best_clock(s, 6) {
        Some(i) => Some(i),
        None => match spec_best_clock(s, 5) {
            Some(i) => Some(i),
            None => spec_best_clock(s, 4),
        },
    }
}

/// Reading from the field-wise merge: advanced to now from the anchor of
/// its time-of-day source when complete (a missing nanosecond counts as 0),
/// else the merge without Unix time.
pub open spec fn spec_merged_reading(s: Seq<ClockSourceModel>, now_ns: u64) -> NetworkTimeReading {
    let m = spec_merged(s);
    match spec_time_source(s) {
        Some(t) => if m.year is Some && m.month is Some && m.day is Some && m.hour is Some
            && m.minute is Some && m.second is Some {
            let m2 = PartialNetworkTime {
                nanosecond: match m.nanosecond {
                    Some(n) => Some(n),
                    None => Some(0),
                },
                ..m
            };
            match advanced_reading(spec_to_network_time(m2).unwrap(), s[t], now_ns) {
                Some(r) => r,
                None => NetworkTimeReading { time: m2, unix_time_ms: None },
            }
        } else {
            NetworkTimeReading { time: m, unix_time_ms: None }
        },
        None => NetworkTimeReading { time: m, unix_time_ms: None },
    }
}

/// Reading from the preferred complete source, advanced to now.
pub open spec fn spec_full_reading(s: Seq<ClockSourceModel>, now_ns: u64) -> Option<NetworkTimeReading> {
    match spec_best_clock(s, 0) {
        Some(i) => advanced_reading(spec_to_network_time(s[i].time).unwrap(), s[i], now_ns),
        None => None,
    }
}

/// The current reading: the preferred complete source advanced to now, else
/// the reading of the field-wise merge; `None` without sources.
pub open spec fn spec_current_time(s: Seq<ClockSourceModel>, now_ns: u64) -> Option<NetworkTimeReading> {
    if s.len() == 0 {
        None
    } else if spec_full_reading(s, now_ns) is Some {
        spec_full_reading(s, now_ns)
    } else {
        Some(spec_merged_reading(s, now_ns))
    }
}

impl Default for NetworkClock {
    fn default() -> (r: Self)
        ensures
            r@ == Seq::<ClockSourceModel>::empty(),
    {
        let r = NetworkClock { sources: Vec::new() };
        assert(r@ =~= Seq::<ClockSourceModel>::empty());
        r
    }
}

impl NetworkClock {
    fn index_of(&self, name: &str) -> (r: Option<usize>)
        ensures
            match r {
                Some(i) => named_at(self@, name@, i as int) && forall|j: int|
                    0 <= j < i ==> self@[j].name != name@,
                None => !exists|i: int| named_at(self@, name@, i),
            },
    {
        let mut i: usize = 0;
        while i < self.sources.len()
            invariant
                i <= self.sources@.len(),
                forall|j: int| 0 <= j < i ==> self@[j].name != name@,
            decreases self.sources@.len() - i,
        {
            if str_eq(self.sources[i].name.as_str(), name) {
                return Some(i);
            }
            i = i + 1;
        }
        None
    }

    /// Insert or replace the source named `source`.
    pub fn update_source(
        &mut self,
        source: &str,
        priority: u64,
        time: PartialNetworkTime,
        updated_mono_ms: u64,
        anchor_mono_ns: u64,
        ttl_ms: Option<u64>,
    )
        ensures
            final(self)@ == spec_upsert(
                old(self)@,
                ClockSourceModel { name: source@, priority, updated_mono_ms, anchor_mono_ns, ttl_ms, time },
            ),
    {
        let e = ClockSource {
            name: source.to_owned(),
            priority,
            updated_mono_ms,
            anchor_mono_ns,
            ttl_ms,
            time,
        };
        let ghost em = e@;
        match self.index_of(source) {
            Some(i) => {
                self.sources.set(i, e);
                proof {
                    let s = old(self)@;
                    let ci = choose|i: int| named_at(s, em.name, i) && forall|j: int|
                        0 <= j < i ==> s[j].name != em.name;
                    assert(ci == i as int);
                    assert(self@ =~= s.update(i as int, em));
                }
            },
            None => {
                self.sources.push(e);
                assert(self@ =~= old(self)@.push(em));
            },
        }
    }

    /// Remove the sources named `source`.
    pub fn remove_source(&mut self, source: &str)
        ensures
            final(self)@ == spec_without(old(self)@, source@),
    {
        let ghost s = self@;
        let mut kept: Vec<ClockSource> = Vec::new();
        let mut i: usize = 0;
        assert(s.take(0) =~= Seq::<ClockSourceModel>::empty());
        while i < self.sources.len()
            invariant
                i <= self.sources@.len(),
                s == self@,
                kept@.map_values(|c: ClockSource| c@) == spec_without(s.take(i as int), source@),
            decreases self.sources@.len() - i,
        {
            let same = str_eq(self.sources[i].name.as_str(), source);
            proof {
                assert(s.take(i + 1).drop_last() =~= s.take(i as int));
                assert(s.take(i + 1).last() == s[i as int]);
            }
            if !same {
                let c = self.sources[i].clone();
                kept.push(c);
                proof {
                    assert(kept@.map_values(|c: ClockSource| c@) =~= spec_without(s.take(i as int), source@).push(s[i as int]));
                }
            }
            i = i + 1;
        }
        assert(s.take(i as int) =~= s);
        self.sources = kept;
    }

    /// Drop the sources whose TTL has run out at `now_mono_ms`.
    pub fn prune_expired(&mut self, now_mono_ms: u64)
        ensures
            final(self)@ == spec_unexpired(old(self)@, now_mono_ms),
    {
        let ghost s = self@;
        let mut kept: Vec<ClockSource> = Vec::new();
        let mut i: usize = 0;
        assert(s.take(0) =~= Seq::<ClockSourceModel>::empty());
        while i < self.sources.len()
            invariant
                i <= self.sources@.len(),
                s == self@,
                kept@.map_values(|c: ClockSource| c@) == spec_unexpired(s.take(i as int), now_mono_ms),
            decreases self.sources@.len() - i,
        {
            let keep = match self.sources[i].ttl_ms {
                Some(ttl) => now_mono_ms.saturating_sub(self.sources[i].updated_mono_ms) <= ttl,
                None => true,
            };
            proof {
                assert(s.take(i + 1).drop_last() =~= s.take(i as int));
                assert(s.take(i + 1).last() == s[i as int]);
            }
            if keep {
                let c = self.sources[i].clone();
                kept.push(c);
                proof {
                    assert(kept@.map_values(|c: ClockSource| c@) =~= spec_unexpired(s.take(i as int), now_mono_ms).push(s[i as int]));
                }
            }
            i = i + 1;
        }
        assert(s.take(i as int) =~= s);
        self.sources = kept;
    }

    fn best_source(&self, k: u8) -> (r: Option<usize>)
        ensures
            match r {
                Some(i) => spec_best_clock(self@, k) == Some(i as int) && i < self.sources@.len()
                    && i < self@.len(),
                None => spec_best_clock(self@, k) is None,
            },
    {
        let ghost s = self@;
        let mut best: Option<usize> = None;
        let mut i: usize = 0;
        while i < self.sources.len()
            invariant
                i <= self.sources@.len(),
                s == self@,
                match best {
                    Some(j) => spec_best_clock(s.take(i as int), k) == Some(j as int) && j < i,
                    None => spec_best_clock(s.take(i as int), k) is None,
                },
            decreases self.sources@.len() - i,
        {
            proof {
                assert(s.take(i + 1).drop_last() =~= s.take(i as int));
                assert(s.take(i + 1)[i as int] == s[i as int]);
                match best {
                    Some(j) => {
                        assert(s.take(i + 1)[j as int] == s[j as int]);
                    },
                    None => {},
                }
            }
            if has_field_exec(&self.sources[i].time, k) {
                best = match best {
                    None => Some(i),
                    Some(j) => {
                        let a = &self.sources[i];
                        let b = &self.sources[j];
                        if a.priority < b.priority || (a.priority == b.priority && str_lt(
                            a.name.as_str(),
                            b.name.as_str(),
                        )) {
                            Some(i)
                        } else {
                            Some(j)
                        }
                    },
                };
            }
            i = i + 1;
        }
        assert(s.take(i as int) =~= s);
        best
    }

    fn advanced(&self, base: NetworkTime, src: usize, now_mono_ns: u64) -> (r: Option<NetworkTimeReading>)
        requires
            src < self@.len(),
        ensures
            r == advanced_reading(base, self@[src as int], now_mono_ns),
    {
        let elapsed = now_mono_ns.saturating_sub(self.sources[src].anchor_mono_ns);
        match advance_network_time(base, elapsed) {
            Some(a) => Some(NetworkTimeReading { time: PartialNetworkTime::from(a), unix_time_ms: a.as_unix_ms() }),
            None => None,
        }
    }

    fn field_from(&self, best: Option<usize>) -> (r: PartialNetworkTime)
        requires
            best matches Some(i) ==> i < self@.len(),
        ensures
            r == (match best {
                Some(i) => self@[i as int].time,
                None => empty_partial(),
            }),
    {
        match best {
            Some(i) => self.sources[i].time,
            None => PartialNetworkTime::default(),
        }
    }

    fn merged(&self) -> (r: PartialNetworkTime)
        ensures
            r == spec_merged(self@),
    {
        PartialNetworkTime {
            year: self.field_from(self.best_source(1)).year,
            month: self.field_from(self.best_source(2)).month,
            day: self.field_from(self.best_source(3)).day,
            hour: self.field_from(self.best_source(4)).hour,
            minute: self.field_from(self.best_source(5)).minute,
            second: self.field_from(self.best_source(6)).second,
            nanosecond: self.field_from(self.best_source(7)).nanosecond,
        }
    }

    fn time_source(&self) -> (r: Option<usize>)
        ensures
            match r {
                Some(i) => spec_time_source(self@) == Some(i as int) && i < self@.len(),
                None => spec_time_source(self@) is None,
            },
    {
        match self.best_source(6) {
            Some(i) => Some(i),
            None => match self.best_source(5) {
                Some(i) => Some(i),
                None => self.best_source(4),
            },
        }
    }

    fn merged_reading(&self, now_mono_ns: u64) -> (r: NetworkTimeReading)
        ensures
            r == spec_merged_reading(self@, now_mono_ns),
    {
        let m = self.merged();
        match self.time_source() {
            Some(t) => {
                if m.is_complete_date() && m.is_complete_time() {
                    let m2 = PartialNetworkTime {
                        nanosecond: match m.nanosecond {
                            Some(n) => Some(n),
                            None => Some(0),
                        },
                        ..m
                    };
                    let base = m2.to_network_time().unwrap();
                    match self.advanced(base, t, now_mono_ns) {
                        Some(r) => r,
                        None => NetworkTimeReading { time: m2, unix_time_ms: None },
                    }
                } else {
                    NetworkTimeReading { time: m, unix_time_ms: None }
                }
            },
            None => NetworkTimeReading { time: m, unix_time_ms: None },
        }
    }

    fn full_reading(&self, now_mono_ns: u64) -> (r: Option<NetworkTimeReading>)
        ensures
            r == spec_full_reading(self@, now_mono_ns),
    {
        match self.best_source(0) {
            Some(i) => {
                proof {
                    lemma_best_clock_has(self@, 0);
                }
                let base = self.sources[i].time.to_network_time().unwrap();
                self.advanced(base, i, now_mono_ns)
            },
            None => None,
        }
    }

    /// The current network time reading at a monotonic time: the preferred
    /// complete source advanced to now; else the field-wise merge of the
    /// preferred source of each field, advanced to now when complete; else
    /// that merge without Unix time. `None` without sources.
    pub fn current_time(&self, now_mono_ns: u64) -> (r: Option<NetworkTimeReading>)
        ensures
            r == spec_current_time(self@, now_mono_ns),
    {
        if self.sources.len() == 0 {
            return None;
        }
        match self.full_reading(now_mono_ns) {
            Some(r) => Some(r),
            None => Some(self.merged_reading(now_mono_ns)),
        }
    }
}

impl Clone for ClockSource {
    fn clone(&self) -> (r: Self)
        ensures
            r@ == self@,
    {
        ClockSource {
            name: self.name.clone(),
            priority: self.priority,
            updated_mono_ms: self.updated_mono_ms,
            anchor_mono_ns: self.anchor_mono_ns,
            ttl_ms: self.ttl_ms,
            time: self.time,
        }
    }
}

// ---------------------------------------------------------------------------
// Source tracking and leader election
// ---------------------------------------------------------------------------

/// A remote time source learned from announces.
#[derive(Debug, PartialEq, Eq)]
pub struct TimeSyncSource {
    /// Sender identifier of the source.
    pub sender: String,
    /// Advertised priority; lower is better.
    pub priority: u64,
    /// Monotonic receive time of the last announce (ms).
    pub last_announce_ms: u64,
    /// Network time carried by the last announce (Unix ms).
    pub last_time_ms: u64,
}

/// Model of a time source.
pub struct SourceModel {
    pub sender: Seq<char>,
    pub priority: u64,
    pub last_announce_ms: u64,
    pub last_time_ms: u64,
}

impl View for TimeSyncSource {
    type V = SourceModel;

    open spec fn view(&self) -> SourceModel {
        SourceModel {
            sender: self.sender@,
            priority: self.priority,
            last_announce_ms: self.last_announce_ms,
            last_time_ms: self.last_time_ms,
        }
    }
}

impl Clone for TimeSyncSource {
    fn clone(&self) -> (r: Self)
        ensures
            r@ == self@,
    {
        TimeSyncSource {
            sender: self.sender.clone(),
            priority: self.priority,
            last_announce_ms: self.last_announce_ms,
            last_time_ms: self.last_time_ms,
        }
    }
}

/// The elected time sync leader.
#[derive(Debug, PartialEq, Eq)]
pub enum TimeSyncLeader {
    /// This node leads at the given priority.
    Local { priority: u64 },
    /// A remote source leads.
    Remote(TimeSyncSource),
}

/// Model of a leader.
pub enum LeaderModel {
    Local { priority: u64 },
    Remote(SourceModel),
}

impl View for TimeSyncLeader {
    type V = LeaderModel;

    open spec fn view(&self) -> LeaderModel {
        match self {
            TimeSyncLeader::Local { priority } => LeaderModel::Local { priority: *priority },
            TimeSyncLeader::Remote(s) => LeaderModel::Remote(s@),
        }
    }
}

/// Model of a tracker.
pub struct TrackerModel {
    pub cfg: TimeSyncConfig,
    pub local_id: Seq<char>,
    pub sources: Seq<SourceModel>,
    pub current: Option<Seq<char>>,
}

/// Tracks remote time sources and elects the leader.
#[derive(Debug)]
pub struct TimeSyncTracker {
    cfg: TimeSyncConfig,
    local_id: &'static str,
    sources: Vec<TimeSyncSource>,
    current_source: Option<String>,
}

impl View for TimeSyncTracker {
    type V = TrackerModel;

    closed spec fn view(&self) -> TrackerModel {
        TrackerModel {
            cfg: self.cfg,
            local_id: self.local_id@,
            sources: self.sources@.map_values(|x: TimeSyncSource| x@),
            current: match self.current_source {
                Some(s) => Some(s@),
                None => None,
            },
        }
    }
}

/// A source is active while its last announce is at most `timeout_ms` old.
pub open spec fn source_active(s: SourceModel, now_ms: u64, timeout_ms: u64) -> bool {
    sat_sub_u64(now_ms, s.last_announce_ms) <= timeout_ms
}

/// `a` is preferred to `b`: lower priority, then smaller sender.
pub open spec fn source_pref(a: SourceModel, b: SourceModel) -> bool {
    a.priority < b.priority || (a.priority == b.priority && bytes_lt(
        vstd::utf8::encode_utf8(a.sender),
        vstd::utf8::encode_utf8(b.sender),
    ))
}

/// Index of the preferred active source.
pub open spec fn spec_best_active(s: Seq<SourceModel>, now_ms: u64, timeout_ms: u64) -> Option<int>
    decreases s.len(),
{
    if s.len() == 0 {
        None
    } else {
        let b = spec_best_active(s.drop_last(), now_ms, timeout_ms);
        let i = s.len() - 1;
        if !source_active(s[i], now_ms, timeout_ms) {
            b
        } else {
            match b {
                None => Some(i),
                Some(j) => if source_pref(s[j], s[i]) {
                    Some(j)
                } else {
                    Some(i)
                },
            }
        }
    }
}

/// The preferred active source is an active member of the list.
pub proof fn lemma_best_active_member(s: Seq<SourceModel>, now_ms: u64, timeout_ms: u64)
    ensures
        spec_best_active(s, now_ms, timeout_ms) matches Some(i) ==> 0 <= i < s.len()
            && source_active(s[i], now_ms, timeout_ms),
        spec_best_active(s, now_ms, timeout_ms) is None ==> forall|j: int|
            0 <= j < s.len() ==> !source_active(#[trigger] s[j], now_ms, timeout_ms),
    decreases s.len(),
{
    if s.len() > 0 {
        lemma_best_active_member(s.drop_last(), now_ms, timeout_ms);
        assert forall|j: int| 0 <= j < s.len() - 1 implies s.drop_last()[j] == s[j] by {}
    }
}

/// The elected source is a best active one: no active source has a lower
/// priority, nor the same priority and a sender earlier in byte order.
pub proof fn lemma_best_active_is_minimum(s: Seq<SourceModel>, now_ms: u64, timeout_ms: u64)
    ensures
        spec_best_active(s, now_ms, timeout_ms) matches Some(i) ==> forall|j: int|
            0 <= j < s.len() && source_active(#[trigger] s[j], now_ms, timeout_ms) ==> s[i].priority <= s[j].priority && (
            s[j].priority == s[i].priority ==> !bytes_lt(
                vstd::utf8::encode_utf8(s[j].sender),
                vstd::utf8::encode_utf8(s[i].sender),
            )),
    decreases s.len(),
{
    if s.len() > 0 {
        let p = s.drop_last();
        let n = s.len() - 1;
        lemma_best_active_is_minimum(p, now_ms, timeout_ms);
        lemma_best_active_member(p, now_ms, timeout_ms);
        assert forall|j: int| 0 <= j < n implies p[j] == s[j] by {}
        let en = vstd::utf8::encode_utf8(s[n].sender);
        lemma_bytes_lt_irrefl(en);
        match spec_best_active(p, now_ms, timeout_ms) {
            None => {},
            Some(b) => {
                let eb = vstd::utf8::encode_utf8(s[b].sender);
                lemma_bytes_lt_asym(eb, en);
                lemma_bytes_lt_total(eb, en);
                let r = spec_best_active(s, now_ms, timeout_ms)->Some_0;
                assert forall|j: int| 0 <= j < s.len() && source_active(#[trigger] s[j], now_ms, timeout_ms) implies s[r].priority
                    <= s[j].priority && (s[j].priority == s[r].priority ==> !bytes_lt(
                    vstd::utf8::encode_utf8(s[j].sender),
                    vstd::utf8::encode_utf8(s[r].sender),
                )) by {
                    if j < n {
                        let ej = vstd::utf8::encode_utf8(s[j].sender);
                        assert(source_active(p[j], now_ms, timeout_ms));
                        lemma_bytes_lt_trans(ej, en, eb);
                        lemma_bytes_lt_irrefl(eb);
                    }
                }
            },
        }
    }
}

/// The sources that are active at `now_ms`.
pub open spec fn spec_active_only(s: Seq<SourceModel>, now_ms: u64, timeout_ms: u64) -> Seq<SourceModel>
    decreases s.len(),
{
    if s.len() == 0 {
        s
    } else {
        let rest = spec_active_only(s.drop_last(), now_ms, timeout_ms);
        if source_active(s.last(), now_ms, timeout_ms) {
            rest.push(s.last())
        } else {
            rest
        }
    }
}

/// The name of the selected source after re-running the selection.
pub open spec fn spec_selected(t: TrackerModel, now_ms: u64) -> Option<Seq<char>> {
    match spec_best_active(t.sources, now_ms, t.cfg.source_timeout_ms) {
        Some(i) => Some(t.sources[i].sender),
        None => None,
    }
}

/// Index of the first source named `name`.
pub open spec fn spec_find_source(s: Seq<SourceModel>, name: Seq<char>) -> Option<int> {
    if exists|i: int| 0 <= i < s.len() && s[i].sender == name {
        Some(choose|i: int| 0 <= i < s.len() && s[i].sender == name && forall|j: int| 0 <= j < i ==> s[j].sender != name)
    } else {
        None
    }
}

/// The local candidate priority: a source always stands; an automatic node
/// stands with usable time and no active remote source; a consumer does so
/// only when promotion is enabled.
pub open spec fn spec_local_candidate(t: TrackerModel, now_ms: u64, usable: bool) -> Option<u64> {
    let none_active = spec_best_active(t.sources, now_ms, t.cfg.source_timeout_ms) is None;
    match t.cfg.role {
        TimeSyncRole::Consumer => if usable && t.cfg.consumer_promotion_enabled && none_active {
            Some(t.cfg.priority)
        } else {
            None
        },
        TimeSyncRole::Source => Some(t.cfg.priority),
        TimeSyncRole::Auto => if usable && none_active {
            Some(t.cfg.priority)
        } else {
            None
        },
    }
}

/// The leader: the local candidate when it beats the best remote source
/// (lower priority, then smaller identifier), else that remote source.
pub open spec fn spec_leader(t: TrackerModel, now_ms: u64, usable: bool) -> Option<LeaderModel> {
    let remote = spec_best_active(t.sources, now_ms, t.cfg.source_timeout_ms);
    match (spec_local_candidate(t, now_ms, usable), remote) {
        (Some(p), Some(i)) => if p < t.sources[i].priority || (p == t.sources[i].priority && bytes_lt(
            vstd::utf8::encode_utf8(t.local_id),
            vstd::utf8::encode_utf8(t.sources[i].sender),
        )) {
            Some(LeaderModel::Local { priority: p })
        } else {
            Some(LeaderModel::Remote(t.sources[i]))
        },
        (Some(p), None) => Some(LeaderModel::Local { priority: p }),
        (None, Some(i)) => Some(LeaderModel::Remote(t.sources[i])),
        (None, None) => None,
    }
}

/// Whether an active source advertises priority `p`.
pub open spec fn active_with_priority(t: TrackerModel, now_ms: u64, p: u64) -> bool {
    exists|i: int|
        0 <= i < t.sources.len() && source_active(t.sources[i], now_ms, t.cfg.source_timeout_ms)
            && #[trigger] t.sources[i].priority == p
}

/// Priority to announce while leading: one below the local priority when an
/// active source ties with it (not below zero).
pub open spec fn spec_announce_priority(t: TrackerModel, now_ms: u64, usable: bool) -> Option<u64> {
    match spec_leader(t, now_ms, usable) {
        Some(LeaderModel::Local { priority }) => Some(
            if active_with_priority(t, now_ms, priority) {
                sat_sub_u64(priority, 1)
            } else {
                priority
            },
        ),
        _ => None,
    }
}

/// The source entry learned from an announce received at `recv_ms`.
pub open spec fn announce_entry(sender: Seq<char>, a: TimeSyncAnnounceFields, recv_ms: u64) -> SourceModel {
    SourceModel { sender, priority: a.priority, last_announce_ms: recv_ms, last_time_ms: a.time_ms }
}

/// `e` in place of the first source of its sender, or appended.
pub open spec fn spec_insert_source(s: Seq<SourceModel>, e: SourceModel) -> Seq<SourceModel> {
    match spec_find_source(s, e.sender) {
        Some(i) => s.update(i, e),
        None => s.push(e),
    }
}

impl TimeSyncTracker {
    /// A tracker with no sources, identified as this device.
    pub fn new(cfg: TimeSyncConfig) -> (r: Self)
        ensures
            r@ == (TrackerModel {
                cfg,
                local_id: DEVICE_IDENTIFIER@,
                sources: Seq::empty(),
                current: None,
            }),
    {
        let r = TimeSyncTracker { cfg, local_id: DEVICE_IDENTIFIER, sources: Vec::new(), current_source: None };
        assert(r@.sources =~= Seq::<SourceModel>::empty());
        r
    }

    /// The configuration.
    pub fn config(&self) -> (r: TimeSyncConfig)
        ensures
            r == self@.cfg,
    {
        self.cfg
    }

    fn find_source(&self, name: &str) -> (r: Option<usize>)
        ensures
            match r {
                Some(i) => spec_find_source(self@.sources, name@) == Some(i as int) && i < self@.sources.len(),
                None => spec_find_source(self@.sources, name@) is None,
            },
    {
        let ghost s = self@.sources;
        let mut i: usize = 0;
        while i < self.sources.len()
            invariant
                i <= self.sources@.len(),
                s == self@.sources,
                forall|j: int| 0 <= j < i ==> s[j].sender != name@,
            decreases self.sources@.len() - i,
        {
            if str_eq(self.sources[i].sender.as_str(), name) {
                proof {
                    let c = choose|k: int| 0 <= k < s.len() && s[k].sender == name@ && forall|j: int|
                        0 <= j < k ==> s[j].sender != name@;
                    assert(s[i as int].sender == name@);
                    if c < i {
                    } else if c > i {
                        assert(s[i as int].sender != name@);
                    }
                }
                return Some(i);
            }
            i = i + 1;
        }
        None
    }

    /// The selected remote source, if it is still tracked.
    pub fn current_source(&self) -> (r: Option<&TimeSyncSource>)
        ensures
            match self@.current {
                Some(name) => match spec_find_source(self@.sources, name) {
                    Some(i) => r matches Some(x) && x@ == self@.sources[i],
                    None => r is None,
                },
                None => r is None,
            },
    {
        match &self.current_source {
            Some(name) => match self.find_source(name.as_str()) {
                Some(i) => Some(&self.sources[i]),
                None => None,
            },
            None => None,
        }
    }

    fn best_index(&self, now_ms: u64) -> (r: Option<usize>)
        ensures
            match r {
                Some(i) => spec_best_active(self@.sources, now_ms, self@.cfg.source_timeout_ms) == Some(
                    i as int,
                ) && i < self@.sources.len(),
                None => spec_best_active(self@.sources, now_ms, self@.cfg.source_timeout_ms) is None,
            },
    {
        let ghost s = self@.sources;
        let timeout = self.cfg.source_timeout_ms;
        let mut best: Option<usize> = None;
        let mut i: usize = 0;
        while i < self.sources.len()
            invariant
                i <= self.sources@.len(),
                s == self@.sources,
                timeout == self@.cfg.source_timeout_ms,
                match best {
                    Some(j) => spec_best_active(s.take(i as int), now_ms, timeout) == Some(j as int) && j < i,
                    None => spec_best_active(s.take(i as int), now_ms, timeout) is None,
                },
            decreases self.sources@.len() - i,
        {
            proof {
                assert(s.take(i + 1).drop_last() =~= s.take(i as int));
                assert(s.take(i + 1)[i as int] == s[i as int]);
                match best {
                    Some(j) => {
                        assert(s.take(i + 1)[j as int] == s[j as int]);
                    },
                    None => {},
                }
            }
            let x = &self.sources[i];
            if now_ms.saturating_sub(x.last_announce_ms) <= timeout {
                best = match best {
                    None => Some(i),
                    Some(j) => {
                        let b = &self.sources[j];
                        if b.priority < x.priority || (b.priority == x.priority && str_lt(
                            b.sender.as_str(),
                            x.sender.as_str(),
                        )) {
                            Some(j)
                        } else {
                            Some(i)
                        }
                    },
                };
            }
            i = i + 1;
        }
        assert(s.take(i as int) =~= s);
        best
    }

    /// The preferred active source: lowest priority, then smallest sender.
    pub fn best_active_source(&self, now_ms: u64) -> (r: Option<&TimeSyncSource>)
        ensures
            match spec_best_active(self@.sources, now_ms, self@.cfg.source_timeout_ms) {
                Some(i) => r matches Some(x) && x@ == self@.sources[i],
                None => r is None,
            },
    {
        match self.best_index(now_ms) {
            Some(i) => Some(&self.sources[i]),
            None => None,
        }
    }

    fn reselect_source(&mut self, now_ms: u64) -> (r: TimeSyncUpdate)
        ensures
            final(self)@ == (TrackerModel { current: spec_selected(old(self)@, now_ms), ..old(self)@ }),
            (r == TimeSyncUpdate::NoChange) == (spec_selected(old(self)@, now_ms) == old(self)@.current),
    {
        let next: Option<String> = match self.best_index(now_ms) {
            Some(i) => Some(self.sources[i].sender.clone()),
            None => None,
        };
        let same = match (&next, &self.current_source) {
            (Some(a), Some(b)) => str_eq(a.as_str(), b.as_str()),
            (None, None) => true,
            _ => false,
        };
        self.current_source = next;
        if same {
            TimeSyncUpdate::NoChange
        } else {
            TimeSyncUpdate::SourceChanged
        }
    }

    /// Drop inactive sources and re-run the selection.
    pub fn refresh(&mut self, now_ms: u64) -> (r: TimeSyncUpdate)
        ensures
            final(self)@.sources == spec_active_only(old(self)@.sources, now_ms, old(self)@.cfg.source_timeout_ms),
            final(self)@.cfg == old(self)@.cfg,
            final(self)@.local_id == old(self)@.local_id,
            final(self)@.current == spec_selected(final(self)@, now_ms),
            (r == TimeSyncUpdate::NoChange) == (final(self)@.current == old(self)@.current),
    {
        let ghost s = self@.sources;
        let timeout = self.cfg.source_timeout_ms;
        let mut kept: Vec<TimeSyncSource> = Vec::new();
        let mut i: usize = 0;
        assert(s.take(0) =~= Seq::<SourceModel>::empty());
        while i < self.sources.len()
            invariant
                i <= self.sources@.len(),
                s == self@.sources,
                timeout == self@.cfg.source_timeout_ms,
                kept@.map_values(|x: TimeSyncSource| x@) == spec_active_only(s.take(i as int), now_ms, timeout),
            decreases self.sources@.len() - i,
        {
            proof {
                assert(s.take(i + 1).drop_last() =~= s.take(i as int));
                assert(s.take(i + 1).last() == s[i as int]);
            }
            if now_ms.saturating_sub(self.sources[i].last_announce_ms) <= timeout {
                let c = self.sources[i].clone();
                kept.push(c);
                proof {
                    assert(kept@.map_values(|x: TimeSyncSource| x@) =~= spec_active_only(s.take(i as int), now_ms, timeout).push(s[i as int]));
                }
            }
            i = i + 1;
        }
        assert(s.take(i as int) =~= s);
        self.sources = kept;
        self.reselect_source(now_ms)
    }

    /// The local candidate priority at `now_ms`.
    pub fn local_candidate_priority(&self, now_ms: u64, has_usable_time: bool) -> (r: Option<u64>)
        ensures
            r == spec_local_candidate(self@, now_ms, has_usable_time),
    {
        let none_active = self.best_index(now_ms).is_none();
        match self.cfg.role {
            TimeSyncRole::Consumer => {
                if has_usable_time && self.cfg.consumer_promotion_enabled && none_active {
                    Some(self.cfg.priority)
                } else {
                    None
                }
            },
            TimeSyncRole::Source => Some(self.cfg.priority),
            TimeSyncRole::Auto => {
                if has_usable_time && none_active {
                    Some(self.cfg.priority)
                } else {
                    None
                }
            },
        }
    }

    /// The elected leader between this node and the active remote sources.
    pub fn leader(&self, now_ms: u64, has_usable_time: bool) -> (r: Option<TimeSyncLeader>)
        ensures
            match r {
                Some(l) => spec_leader(self@, now_ms, has_usable_time) == Some(l@),
                None => spec_leader(self@, now_ms, has_usable_time) is None,
            },
    {
        let local = self.local_candidate_priority(now_ms, has_usable_time);
        let remote = self.best_index(now_ms);
        match (local, remote) {
            (Some(p), Some(i)) => {
                let src = &self.sources[i];
                if p < src.priority || (p == src.priority && str_lt(self.local_id, src.sender.as_str())) {
                    Some(TimeSyncLeader::Local { priority: p })
                } else {
                    Some(TimeSyncLeader::Remote(src.clone()))
                }
            },
            (Some(p), None) => Some(TimeSyncLeader::Local { priority: p }),
            (None, Some(i)) => Some(TimeSyncLeader::Remote(self.sources[i].clone())),
            (None, None) => None,
        }
    }

    fn tie_exists(&self, now_ms: u64, p: u64) -> (r: bool)
        ensures
            r == active_with_priority(self@, now_ms, p),
    {
        let ghost s = self@.sources;
        let timeout = self.cfg.source_timeout_ms;
        let mut i: usize = 0;
        while i < self.sources.len()
            invariant
                i <= self.sources@.len(),
                s == self@.sources,
                timeout == self@.cfg.source_timeout_ms,
                forall|j: int| 0 <= j < i ==> !(source_active(s[j], now_ms, timeout) && s[j].priority == p),
            decreases self.sources@.len() - i,
        {
            if now_ms.saturating_sub(self.sources[i].last_announce_ms) <= timeout && self.sources[i].priority == p {
                assert(s[i as int].priority == p);
                return true;
            }
            i = i + 1;
        }
        false
    }

    /// Priority to announce while leading, or `None` when not leading.
    pub fn local_announce_priority(&self, now_ms: u64, has_usable_time: bool) -> (r: Option<u64>)
        ensures
            r == spec_announce_priority(self@, now_ms, has_usable_time),
    {
        match self.leader(now_ms, has_usable_time) {
            Some(TimeSyncLeader::Local { priority }) => {
                if self.tie_exists(now_ms, priority) {
                    Some(priority.saturating_sub(1))
                } else {
                    Some(priority)
                }
            },
            _ => None,
        }
    }

    /// Whether this node should announce itself now.
    pub fn should_announce(&self, now_ms: u64, has_usable_time: bool) -> (r: bool)
        ensures
            r == spec_announce_priority(self@, now_ms, has_usable_time) is Some,
    {
        self.local_announce_priority(now_ms, has_usable_time).is_some()
    }

    /// Whether this node should answer time requests now (exactly when it
    /// announces).
    pub fn should_serve(&self, now_ms: u64, has_usable_time: bool) -> (r: bool)
        ensures
            r == spec_announce_priority(self@, now_ms, has_usable_time) is Some,
    {
        self.should_announce(now_ms, has_usable_time)
    }

    /// Whether the selected source is tracked and still active.
    pub fn is_source_active(&self, now_ms: u64) -> (r: bool)
        ensures
            r == (match self@.current {
                Some(name) => match spec_find_source(self@.sources, name) {
                    Some(i) => source_active(self@.sources[i], now_ms, self@.cfg.source_timeout_ms),
                    None => false,
                },
                None => false,
            }),
    {
        match self.current_source() {
            Some(s) => now_ms.saturating_sub(s.last_announce_ms) <= self.cfg.source_timeout_ms,
            None => false,
        }
    }

    /// Learn from an announce: a malformed announce is an error; one from
    /// this node changes nothing; otherwise its sender's entry is added or
    /// replaced (priority, receive time, advertised time) and the selection
    /// re-run.
    pub fn handle_announce(&mut self, pkt: &TelemetryPacket, recv_ms: u64) -> (r: TelemetryResult<TimeSyncUpdate>)
        ensures
            spec_decode_announce(pkt@) matches Err(e) ==> r == Err::<TimeSyncUpdate, TelemetryError>(e)
                && final(self)@ == old(self)@,
            spec_decode_announce(pkt@) is Ok && pkt@.sender == old(self)@.local_id ==> r == Ok::<
                TimeSyncUpdate,
                TelemetryError,
            >(TimeSyncUpdate::NoChange) && final(self)@ == old(self)@,
            spec_decode_announce(pkt@) is Ok && pkt@.sender != old(self)@.local_id ==> {
                &&& final(self)@.sources == spec_insert_source(
                    old(self)@.sources,
                    announce_entry(pkt@.sender, spec_decode_announce(pkt@).unwrap(), recv_ms),
                )
                &&& final(self)@.cfg == old(self)@.cfg
                &&& final(self)@.local_id == old(self)@.local_id
                &&& final(self)@.current == spec_selected(final(self)@, recv_ms)
                &&& r is Ok
                &&& (r == Ok::<TimeSyncUpdate, TelemetryError>(TimeSyncUpdate::NoChange)) == (
                final(self)@.current == old(self)@.current)
            },
    {
        let ann = match decode_timesync_announce(pkt) {
            Ok(a) => a,
            Err(e) => {
                return Err(e);
            },
        };
        if str_eq(pkt.sender(), self.local_id) {
            return Ok(TimeSyncUpdate::NoChange);
        }
        let incoming = TimeSyncSource {
            sender: pkt.sender().to_owned(),
            priority: ann.priority,
            last_announce_ms: recv_ms,
            last_time_ms: ann.time_ms,
        };
        let ghost e = incoming@;
        match self.find_source(pkt.sender()) {
            Some(i) => {
                self.sources.set(i, incoming);
                assert(self@.sources =~= old(self)@.sources.update(i as int, e));
            },
            None => {
                self.sources.push(incoming);
                assert(self@.sources =~= old(self)@.sources.push(e));
            },
        }
        Ok(self.reselect_source(recv_ms))
    }
}

/// A source that is elected leader is an active, tracked source, and a
/// local leader is a local candidate that no active source beats.
pub proof fn lemma_leader_sound(t: TrackerModel, now_ms: u64, usable: bool)
    ensures
        spec_leader(t, now_ms, usable) matches Some(LeaderModel::Remote(s)) ==> exists|i: int|
            0 <= i < t.sources.len() && t.sources[i] == s && source_active(s, now_ms, t.cfg.source_timeout_ms),
        spec_leader(t, now_ms, usable) matches Some(LeaderModel::Local { priority }) ==> spec_local_candidate(
            t,
            now_ms,
            usable,
        ) == Some(priority),
        spec_leader(t, now_ms, usable) is None <==> (spec_local_candidate(t, now_ms, usable) is None
            && spec_best_active(t.sources, now_ms, t.cfg.source_timeout_ms) is None),
{
    lemma_best_active_member(t.sources, now_ms, t.cfg.source_timeout_ms);
}


/// The leader is the best of the local candidate and the active sources,
/// by priority and then identifier: a remote leader is active, no active
/// source beats it, and neither does the local candidate; a local leader
/// is the local candidate, and no active source beats it.
#[verifier::spinoff_prover]
pub proof fn lemma_leader_is_best(t: TrackerModel, now_ms: u64, usable: bool)
    ensures
        spec_leader(t, now_ms, usable) matches Some(LeaderModel::Remote(s)) ==> source_active(
            s,
            now_ms,
            t.cfg.source_timeout_ms,
        ) && (forall|j: int|
            0 <= j < t.sources.len() && source_active(#[trigger] t.sources[j], now_ms, t.cfg.source_timeout_ms)
                ==> s.priority <= t.sources[j].priority && (t.sources[j].priority == s.priority ==> !bytes_lt(
                vstd::utf8::encode_utf8(t.sources[j].sender),
                vstd::utf8::encode_utf8(s.sender),
            ))) && (spec_local_candidate(t, now_ms, usable) matches Some(p) ==> s.priority <= p && (p == s.priority
            ==> !bytes_lt(vstd::utf8::encode_utf8(t.local_id), vstd::utf8::encode_utf8(s.sender)))),
        spec_leader(t, now_ms, usable) matches Some(LeaderModel::Local { priority }) ==> spec_local_candidate(
            t,
            now_ms,
            usable,
        ) == Some(priority) && forall|j: int|
            0 <= j < t.sources.len() && source_active(#[trigger] t.sources[j], now_ms, t.cfg.source_timeout_ms)
                ==> priority <= t.sources[j].priority && (t.sources[j].priority == priority ==> !bytes_lt(
                vstd::utf8::encode_utf8(t.sources[j].sender),
                vstd::utf8::encode_utf8(t.local_id),
            )),
{
    let src = t.sources;
    let to = t.cfg.source_timeout_ms;
    lemma_best_active_member(src, now_ms, to);
    lemma_best_active_is_minimum(src, now_ms, to);
    let el = vstd::utf8::encode_utf8(t.local_id);
    match spec_best_active(src, now_ms, to) {
        Some(i) => {
            let ei = vstd::utf8::encode_utf8(src[i].sender);
            lemma_bytes_lt_asym(el, ei);
            lemma_bytes_lt_total(el, ei);
            lemma_bytes_lt_irrefl(el);
            assert forall|j: int|
                0 <= j < src.len() && source_active(#[trigger] src[j], now_ms, to) implies !(src[j].priority == src[i].priority
                && bytes_lt(vstd::utf8::encode_utf8(src[j].sender), el) && bytes_lt(el, ei)) by {
                lemma_bytes_lt_trans(vstd::utf8::encode_utf8(src[j].sender), el, ei);
            }
        },
        None => {
            assert forall|j: int| 0 <= j < src.len() implies !source_active(#[trigger] src[j], now_ms, to) by {}
        },
    }
}

// ---------------------------------------------------------------------------
// Sending through a router
// ---------------------------------------------------------------------------

/// Transmit a time source announce (`priority`, `time_ms`), stamped
/// `time_ms`, through the router's logging path.
pub fn send_timesync_announce(router: &mut Router, priority: u64, time_ms: u64) -> (r: TelemetryResult<()>)
    requires
        old(router).wf(),
    ensures
        same_queues(old(router), final(router)),
        match spec_log_packet(crate::config::DEVICE_IDENTIFIER@, DataType::TimeSyncAnnounce, seq![priority, time_ms], time_ms) {
            Err(e) => r == Err::<(), TelemetryError>(e),
            Ok(p) => old(router).num_sides() == 0 && old(router).route_count() == 0 && no_handler_for(
                p.endpoints,
                old(router).handlers_view(),
            ) ==> r is Ok,
        },
{
    let words = [priority, time_ms];
    router.log_ts(DataType::TimeSyncAnnounce, time_ms, &words)
}

/// Transmit a time sync request (`seq`, `t1_ms`), stamped `t1_ms`, through
/// the router's logging path.
pub fn send_timesync_request(router: &mut Router, seq: u64, t1_ms: u64) -> (r: TelemetryResult<()>)
    requires
        old(router).wf(),
    ensures
        same_queues(old(router), final(router)),
        match spec_log_packet(crate::config::DEVICE_IDENTIFIER@, DataType::TimeSyncRequest, seq![seq, t1_ms], t1_ms) {
            Err(e) => r == Err::<(), TelemetryError>(e),
            Ok(p) => old(router).num_sides() == 0 && old(router).route_count() == 0 && no_handler_for(
                p.endpoints,
                old(router).handlers_view(),
            ) ==> r is Ok,
        },
{
    let words = [seq, t1_ms];
    router.log_ts(DataType::TimeSyncRequest, t1_ms, &words)
}

/// Transmit a time sync response (`seq`, `t1_ms`, `t2_ms`, `t3_ms`),
/// stamped `t3_ms`, through the router's logging path.
pub fn send_timesync_response(router: &mut Router, seq: u64, t1_ms: u64, t2_ms: u64, t3_ms: u64) -> (r: TelemetryResult<()>)
    requires
        old(router).wf(),
    ensures
        same_queues(old(router), final(router)),
        match spec_log_packet(crate::config::DEVICE_IDENTIFIER@, DataType::TimeSyncResponse, seq![seq, t1_ms, t2_ms, t3_ms], t3_ms) {
            Err(e) => r == Err::<(), TelemetryError>(e),
            Ok(p) => old(router).num_sides() == 0 && old(router).route_count() == 0 && no_handler_for(
                p.endpoints,
                old(router).handlers_view(),
            ) ==> r is Ok,
        },
{
    let words = [seq, t1_ms, t2_ms, t3_ms];
    router.log_ts(DataType::TimeSyncResponse, t3_ms, &words)
}

} // verus!
