use sedsprintf_rs::config::{DataEndpoint, DataType};
use sedsprintf_rs::discovery::build_discovery_announce;
use sedsprintf_rs::relay::{Relay, RelaySideOptions};
use sedsprintf_rs::router::{Clock, PacketHandler, SerializedHandler};
use sedsprintf_rs::serialize;
use sedsprintf_rs::telemetry_packet::TelemetryPacket;
use sedsprintf_rs::{TelemetryError, TelemetryResult};
use std::sync::atomic::{AtomicU64, Ordering};
use std::sync::{Arc, Mutex};

struct FixedClock(AtomicU64);

impl Clock for FixedClock {
    fn now_ms(&self) -> u64 {
        self.0.load(Ordering::Relaxed)
    }

    fn now_ns(&self) -> u64 {
        self.now_ms() * 1_000_000
    }
}

struct PacketLog(Arc<Mutex<Vec<TelemetryPacket>>>);

impl PacketHandler for PacketLog {
    fn handle_packet(&self, pkt: &TelemetryPacket) -> TelemetryResult<()> {
        self.0.lock().unwrap().push(pkt.clone());
        Ok(())
    }
}

struct BytesLog(Arc<Mutex<Vec<Vec<u8>>>>);

impl SerializedHandler for BytesLog {
    fn handle_bytes(&self, bytes: &[u8]) -> TelemetryResult<()> {
        self.0.lock().unwrap().push(bytes.to_vec());
        Ok(())
    }
}

fn relay() -> Relay {
    Relay::new(Box::new(FixedClock(AtomicU64::new(1000))))
}

fn msg(sender: &str, ts: u64) -> TelemetryPacket {
    TelemetryPacket::new(DataType::MessageData, &[DataEndpoint::GroundStation], sender, ts, b"hello").unwrap()
}

#[test]
fn relay_floods_to_every_other_side() {
    let mut r = relay();
    let a = Arc::new(Mutex::new(Vec::new()));
    let b = Arc::new(Mutex::new(Vec::new()));
    let c = Arc::new(Mutex::new(Vec::new()));
    let sa = r.add_side_packet("A", Box::new(PacketLog(a.clone())));
    let sb = r.add_side_packet("B", Box::new(PacketLog(b.clone())));
    let sc = r.add_side_serialized("C", Box::new(BytesLog(c.clone())));
    assert_eq!((sa, sb, sc), (0, 1, 2));

    r.rx_from_side(sa, msg("n1", 1)).unwrap();
    r.process_all_queues().unwrap();

    assert_eq!(a.lock().unwrap().len(), 0, "never echoed to its source");
    assert_eq!(b.lock().unwrap().len(), 1);
    let frames = c.lock().unwrap();
    assert_eq!(frames.len(), 1);
    let back = serialize::deserialize_packet(&frames[0]).unwrap();
    assert_eq!(back.sender(), "n1");
}

#[test]
fn relay_drops_repeats_from_any_side() {
    let mut r = relay();
    let a = Arc::new(Mutex::new(Vec::new()));
    let b = Arc::new(Mutex::new(Vec::new()));
    let c = Arc::new(Mutex::new(Vec::new()));
    let sa = r.add_side_packet("A", Box::new(PacketLog(a.clone())));
    let sb = r.add_side_packet("B", Box::new(PacketLog(b.clone())));
    let _sc = r.add_side_packet("C", Box::new(PacketLog(c.clone())));
    let p = msg("n1", 1);
    r.rx_from_side(sa, p.clone()).unwrap();
    r.rx_from_side(sb, p).unwrap();
    r.process_all_queues().unwrap();
    assert_eq!(a.lock().unwrap().len(), 0);
    assert_eq!(b.lock().unwrap().len(), 1);
    assert_eq!(c.lock().unwrap().len(), 1);
}

#[test]
fn relay_refuses_unknown_sides_and_bad_bytes() {
    let mut r = relay();
    let a = Arc::new(Mutex::new(Vec::new()));
    let sa = r.add_side_packet("A", Box::new(PacketLog(a.clone())));
    let err = r.rx_from_side(5, msg("x", 1)).unwrap_err();
    assert_eq!(err, TelemetryError::HandlerError("relay: invalid side id"));
    let err = r.rx_serialized_from_side(9, &[1, 2, 3]).unwrap_err();
    assert_eq!(err, TelemetryError::HandlerError("relay: invalid side id"));
    assert!(r.rx_serialized_from_side(sa, &[]).is_err());
}

#[test]
fn relay_learns_routes_from_discovery() {
    let mut r = relay();
    let a = Arc::new(Mutex::new(Vec::new()));
    let b = Arc::new(Mutex::new(Vec::new()));
    let c = Arc::new(Mutex::new(Vec::new()));
    let sa = r.add_side_packet("A", Box::new(PacketLog(a.clone())));
    let sb = r.add_side_packet("B", Box::new(PacketLog(b.clone())));
    let _sc = r.add_side_packet("C", Box::new(PacketLog(c.clone())));

    let ann = build_discovery_announce("station", 1000, &[DataEndpoint::GroundStation]).unwrap();
    r.rx_from_side(sb, ann).unwrap();
    r.process_all_queues().unwrap();
    // The announce itself is flooded to the other sides.
    assert_eq!(a.lock().unwrap().len(), 1);
    assert_eq!(c.lock().unwrap().len(), 1);

    let topo = r.export_topology();
    assert_eq!(topo.routes.len(), 1);
    assert_eq!(topo.routes[0].side_id, sb);
    assert_eq!(topo.routes[0].reachable_endpoints, vec![DataEndpoint::GroundStation]);
    assert_eq!(topo.advertised_endpoints, vec![DataEndpoint::GroundStation]);

    // A ground station packet now goes only where the ground station is.
    r.rx_from_side(sa, msg("n2", 2)).unwrap();
    r.process_all_queues().unwrap();
    assert_eq!(b.lock().unwrap().len(), 1);
    assert_eq!(c.lock().unwrap().len(), 1);
}

#[test]
fn relay_clear_queues_drops_pending_work() {
    let mut r = relay();
    let a = Arc::new(Mutex::new(Vec::new()));
    let b = Arc::new(Mutex::new(Vec::new()));
    let sa = r.add_side_packet_with_options("A", Box::new(PacketLog(a.clone())), RelaySideOptions::default());
    let _sb = r.add_side_packet("B", Box::new(PacketLog(b.clone())));
    r.rx_from_side(sa, msg("n1", 1)).unwrap();
    r.clear_queues();
    r.process_all_queues().unwrap();
    assert_eq!(b.lock().unwrap().len(), 0);
}

#[test]
fn relay_periodic_announces_learned_endpoints() {
    let mut r = relay();
    let a = Arc::new(Mutex::new(Vec::new()));
    let b = Arc::new(Mutex::new(Vec::new()));
    let sa = r.add_side_packet("A", Box::new(PacketLog(a.clone())));
    let _sb = r.add_side_packet("B", Box::new(PacketLog(b.clone())));
    let ann = build_discovery_announce("station", 1000, &[DataEndpoint::Radio]).unwrap();
    r.rx_from_side(sa, ann).unwrap();
    r.process_rx_queue().unwrap();
    r.process_tx_queue().unwrap();
    r.announce_discovery().unwrap();
    r.process_tx_queue().unwrap();
    let got = b.lock().unwrap();
    let from_relay: Vec<&TelemetryPacket> = got.iter().filter(|p| p.sender() == "RELAY").collect();
    assert!(!from_relay.is_empty());
    assert_eq!(from_relay[0].data_type(), DataType::DiscoveryAnnounce);
}

#[test]
fn relay_serialized_side_gets_the_packet_bytes() {
    let mut r = relay();
    let a = Arc::new(Mutex::new(Vec::new()));
    let c = Arc::new(Mutex::new(Vec::new()));
    let sa = r.add_side_packet("A", Box::new(PacketLog(a.clone())));
    let _sc = r.add_side_serialized("C", Box::new(BytesLog(c.clone())));
    r.rx_from_side(sa, msg("n7", 7)).unwrap();
    r.process_all_queues().unwrap();
    let frames = c.lock().unwrap();
    assert_eq!(frames.len(), 1);
    assert_eq!(frames[0], serialize::serialize_packet(&msg("n7", 7)));
}

#[test]
fn relay_announce_carries_learned_endpoints_to_each_side() {
    let mut r = relay();
    let a = Arc::new(Mutex::new(Vec::new()));
    let b = Arc::new(Mutex::new(Vec::new()));
    let sa = r.add_side_packet("A", Box::new(PacketLog(a.clone())));
    let _sb = r.add_side_packet("B", Box::new(PacketLog(b.clone())));
    let ann = build_discovery_announce("station", 1000, &[DataEndpoint::Radio, DataEndpoint::SdCard]).unwrap();
    r.rx_from_side(sa, ann).unwrap();
    r.process_rx_queue().unwrap();
    r.process_tx_queue().unwrap();
    a.lock().unwrap().clear();
    b.lock().unwrap().clear();
    r.announce_discovery().unwrap();
    r.process_tx_queue().unwrap();
    for side in [&a, &b] {
        let got = side.lock().unwrap();
        let anns: Vec<&TelemetryPacket> = got
            .iter()
            .filter(|p| p.sender() == "RELAY" && p.data_type() == DataType::DiscoveryAnnounce)
            .collect();
        assert_eq!(anns.len(), 1);
        let eps = sedsprintf_rs::discovery::decode_discovery_announce(anns[0]).unwrap();
        assert_eq!(eps, vec![DataEndpoint::SdCard, DataEndpoint::Radio]);
    }
}
