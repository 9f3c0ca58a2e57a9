use sedsprintf_rs::config::{DataEndpoint, DataType};
use sedsprintf_rs::discovery::{
    build_discovery_announce, build_discovery_timesync_sources, decode_discovery_announce,
    decode_discovery_timesync_sources, DiscoveryCadenceState, DISCOVERY_FAST_INTERVAL_MS,
    DISCOVERY_SLOW_INTERVAL_MS,
};
use sedsprintf_rs::timesync::{
    build_timesync_announce, build_timesync_request, build_timesync_response, compute_network_time_sample,
    compute_offset_delay, decode_timesync_announce, decode_timesync_request, decode_timesync_response,
    NetworkTime,
};
use sedsprintf_rs::TelemetryError;

#[test]
fn discovery_announce_roundtrip_drops_discovery_and_repeats() {
    let eps = [DataEndpoint::Radio, DataEndpoint::Discovery, DataEndpoint::SdCard, DataEndpoint::Radio];
    let pkt = build_discovery_announce("node", 5, &eps).unwrap();
    assert_eq!(pkt.data_type(), DataType::DiscoveryAnnounce);
    assert_eq!(pkt.endpoints(), &[DataEndpoint::Discovery]);
    let back = decode_discovery_announce(&pkt).unwrap();
    assert_eq!(back, vec![DataEndpoint::SdCard, DataEndpoint::Radio]);
}

#[test]
fn discovery_sources_roundtrip_sorts_and_dedups() {
    let sources = vec!["node-b".to_string(), "node-a".to_string(), "node-b".to_string()];
    let pkt = build_discovery_timesync_sources("relay", 9, &sources).unwrap();
    let back = decode_discovery_timesync_sources(&pkt).unwrap();
    assert_eq!(back, vec!["node-a".to_string(), "node-b".to_string()]);
}

#[test]
fn decoding_the_wrong_packet_type_is_refused() {
    let pkt = build_timesync_request(1, 2).unwrap();
    assert_eq!(decode_discovery_announce(&pkt).unwrap_err(), TelemetryError::InvalidType);
    assert_eq!(decode_discovery_timesync_sources(&pkt).unwrap_err(), TelemetryError::InvalidType);
}

#[test]
fn cadence_speeds_up_on_change_and_backs_off_after_announces() {
    let mut c = DiscoveryCadenceState::default();
    assert_eq!(c.current_interval_ms, DISCOVERY_FAST_INTERVAL_MS);
    assert!(c.due(0));
    c.on_announce_sent(100);
    assert_eq!(c.next_announce_ms, 100 + DISCOVERY_FAST_INTERVAL_MS);
    assert_eq!(c.current_interval_ms, 2 * DISCOVERY_FAST_INTERVAL_MS);
    assert!(!c.due(100));
    for _ in 0..10 {
        c.on_announce_sent(1000);
    }
    assert_eq!(c.current_interval_ms, DISCOVERY_SLOW_INTERVAL_MS);
    c.on_topology_change(2000);
    assert_eq!(c.current_interval_ms, DISCOVERY_FAST_INTERVAL_MS);
    assert!(c.due(2000));
}

#[test]
fn timesync_packets_roundtrip() {
    let a = decode_timesync_announce(&build_timesync_announce(7, 123456).unwrap()).unwrap();
    assert_eq!((a.priority, a.time_ms), (7, 123456));
    let q = decode_timesync_request(&build_timesync_request(3, 99).unwrap()).unwrap();
    assert_eq!((q.seq, q.t1_ms), (3, 99));
    let p = decode_timesync_response(&build_timesync_response(3, 99, 150, 152).unwrap()).unwrap();
    assert_eq!((p.seq, p.t1_ms, p.t2_ms, p.t3_ms), (3, 99, 150, 152));
}

#[test]
fn offset_and_delay_from_four_timestamps() {
    let s = compute_offset_delay(100, 160, 162, 110);
    assert_eq!(s.offset_ms, 56);
    assert_eq!(s.delay_ms, 8);
    let s = compute_offset_delay(100, 50, 52, 110);
    assert_eq!(s.offset_ms, -54);
    let (t, d) = compute_network_time_sample(1000, 5000, 5002, 1010);
    assert_eq!(d, 4);
    assert_eq!(t, 5006);
}

#[test]
fn unix_time_calendar_conversions() {
    let t = NetworkTime::from_unix_ns(0).unwrap();
    assert_eq!((t.year, t.month, t.day, t.hour, t.minute, t.second, t.nanosecond), (1970, 1, 1, 0, 0, 0, 0));
    let ns: i128 = 1_709_210_096_123_456_789; // 2024-02-29T12:34:56.123456789Z
    let t = NetworkTime::from_unix_ns(ns).unwrap();
    assert_eq!((t.year, t.month, t.day, t.hour, t.minute, t.second, t.nanosecond), (2024, 2, 29, 12, 34, 56, 123_456_789));
    assert_eq!(t.as_unix_ns(), Some(ns));
    assert_eq!(t.as_unix_ms(), Some(1_709_210_096_123));
    assert!(NetworkTime::from_unix_ns(-1).is_none());
    let bad = NetworkTime { month: 13, ..t };
    assert_eq!(bad.as_unix_ns(), None);
}

#[test]
fn unix_ns_roundtrip_across_calendar_range() {
    let samples: [i128; 6] = [
        0,
        86_399_999_999_999,
        951_782_400_000_000_000, // 2000-02-29
        4_107_542_400_000_000_000, // 2100-03-01
        253_402_300_799_999_999_999, // 9999-12-31T23:59:59.999999999
        60_479_999_999_999_999_999_999_999,
    ];
    for ns in samples {
        let t = NetworkTime::from_unix_ns(ns).unwrap();
        assert_eq!(t.as_unix_ns(), Some(ns));
    }
    let t = NetworkTime::from_unix_ns(951_782_400_000_000_000).unwrap();
    assert_eq!((t.year, t.month, t.day), (2000, 2, 29));
    let t = NetworkTime::from_unix_ns(4_107_542_400_000_000_000).unwrap();
    assert_eq!((t.year, t.month, t.day), (2100, 3, 1));
}
