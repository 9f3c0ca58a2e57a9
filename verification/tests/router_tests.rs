use sedsprintf_rs::config::{DataEndpoint, DataType, DEVICE_IDENTIFIER};
use sedsprintf_rs::router::{
    Clock, EndpointHandler, PacketHandler, Router, RouterConfig, RouterMode, SerializedHandler,
};
use sedsprintf_rs::serialize;
use sedsprintf_rs::telemetry_packet::TelemetryPacket;
use sedsprintf_rs::timesync::{
    build_timesync_request, decode_timesync_response, TimeSyncConfig, TimeSyncRole,
};
use sedsprintf_rs::config::get_message_meta;
use sedsprintf_rs::{get_needed_message_size, TelemetryError, TelemetryResult};
use std::sync::atomic::{AtomicU64, AtomicUsize, Ordering};
use std::sync::{Arc, Mutex};

/// A clock that returns `start` and then advances by `step` on each read.
struct StepClock {
    t: AtomicU64,
    step: u64,
}

impl StepClock {
    fn new_default_box() -> Box<dyn Clock> {
        Box::new(StepClock { t: AtomicU64::new(0), step: 0 })
    }
}

impl Clock for StepClock {
    fn now_ms(&self) -> u64 {
        self.t.fetch_add(self.step, Ordering::Relaxed)
    }

    fn now_ns(&self) -> u64 {
        self.now_ms().saturating_mul(1_000_000)
    }
}

fn f32_bits(vals: &[f32]) -> Vec<u32> {
    vals.iter().map(|v| v.to_bits()).collect()
}

/// Records the `f32` values of GPS packets seen on the SD card endpoint.
struct SdCardHandler {
    seen: Arc<Mutex<Option<(DataType, Vec<f32>)>>>,
}

impl PacketHandler for SdCardHandler {
    fn handle_packet(&self, pkt: &TelemetryPacket) -> TelemetryResult<()> {
        let elems = get_message_meta(pkt.data_type()).element.count().max(1);
        let per_elem = get_needed_message_size(pkt.data_type()) / elems;
        assert_eq!(pkt.data_type(), DataType::GpsData);
        assert_eq!(per_elem, 4, "GPS_DATA expected f32 elements");
        let mut vals = Vec::with_capacity(pkt.payload().len() / 4);
        for chunk in pkt.payload().chunks_exact(4) {
            vals.push(f32::from_le_bytes(chunk.try_into().unwrap()));
        }
        *self.seen.lock().unwrap() = Some((pkt.data_type(), vals));
        Ok(())
    }
}

fn get_sd_card_handler(seen: Arc<Mutex<Option<(DataType, Vec<f32>)>>>) -> EndpointHandler {
    EndpointHandler::new_packet_handler(DataEndpoint::SdCard, Box::new(SdCardHandler { seen }))
}

/// Decodes and keeps the last transmitted packet.
struct TxRecorder {
    seen: Arc<Mutex<Option<TelemetryPacket>>>,
}

impl SerializedHandler for TxRecorder {
    fn handle_bytes(&self, bytes: &[u8]) -> TelemetryResult<()> {
        let pkt = serialize::deserialize_packet(bytes)?;
        *self.seen.lock().unwrap() = Some(pkt);
        Ok(())
    }
}

/// Keeps every transmitted frame.
struct TestBus {
    frames: Arc<Mutex<Vec<Vec<u8>>>>,
}

impl SerializedHandler for TestBus {
    fn handle_bytes(&self, bytes: &[u8]) -> TelemetryResult<()> {
        self.frames.lock().unwrap().push(bytes.to_vec());
        Ok(())
    }
}

struct NoTx;

impl SerializedHandler for NoTx {
    fn handle_bytes(&self, _bytes: &[u8]) -> TelemetryResult<()> {
        Ok(())
    }
}

struct FailingTx;

impl SerializedHandler for FailingTx {
    fn handle_bytes(&self, _bytes: &[u8]) -> TelemetryResult<()> {
        Err(TelemetryError::Io("boom"))
    }
}

struct Failing;

impl PacketHandler for Failing {
    fn handle_packet(&self, _pkt: &TelemetryPacket) -> TelemetryResult<()> {
        Err(TelemetryError::BadArg)
    }
}

/// Counts packets and keeps the rendering of the last error packet.
struct Capturing {
    count: Arc<AtomicUsize>,
    errors: Arc<AtomicUsize>,
    last: Arc<Mutex<String>>,
}

impl PacketHandler for Capturing {
    fn handle_packet(&self, pkt: &TelemetryPacket) -> TelemetryResult<()> {
        if pkt.data_type() == DataType::TelemetryError {
            *self.last.lock().unwrap() = pkt.to_string(&[]);
            self.errors.fetch_add(1, Ordering::SeqCst);
        }
        self.count.fetch_add(1, Ordering::SeqCst);
        Ok(())
    }
}

fn handle_errors(result: Result<(), TelemetryError>) {
    match result {
        Ok(_) => panic!("Expected router.send to return Err due to handler failure"),
        Err(e) => match e {
            TelemetryError::HandlerError(_) => {}
            _ => panic!("Expected TelemetryError::HandlerError, got {:?}", e),
        },
    }
}

fn ep(idx: u32) -> DataEndpoint {
    DataEndpoint::try_from_u32(idx).expect("Need endpoint present in enum for tests")
}

fn pick_any_type() -> DataType {
    for i in 0..=sedsprintf_rs::config::MAX_VALUE_DATA_TYPE {
        if let Some(ty) = DataType::try_from_u32(i) {
            return ty;
        }
    }
    panic!("No usable DataType found for tests");
}

fn payload_for(ty: DataType) -> Vec<u8> {
    vec![0u8; get_needed_message_size(ty)]
}

#[test]
fn router_sends_and_receives() {
    let tx_seen: Arc<Mutex<Option<TelemetryPacket>>> = Arc::new(Mutex::new(None));
    let sd_seen_decoded: Arc<Mutex<Option<(DataType, Vec<f32>)>>> = Arc::new(Mutex::new(None));

    let sd_handler = get_sd_card_handler(sd_seen_decoded.clone());
    let mut router = Router::new_with_clock(
        RouterMode::Sink,
        RouterConfig::new(vec![sd_handler]),
        StepClock::new_default_box(),
    );
    router.add_side_serialized("TX", Box::new(TxRecorder { seen: tx_seen.clone() }));

    let data = [1.0_f32, 2.0];
    router.log(DataType::GpsData, &f32_bits(&data)).unwrap();

    let tx_pkt = tx_seen.lock().unwrap().take().expect("no tx packet recorded");
    assert_eq!(tx_pkt.data_type(), DataType::GpsData);
    assert_eq!(tx_pkt.payload().len(), 2 * 4);
    let mut expected = Vec::new();
    for v in data {
        expected.extend_from_slice(&v.to_le_bytes());
    }
    assert_eq!(tx_pkt.payload(), &*expected);

    let (seen_ty, seen_vals) = sd_seen_decoded.lock().unwrap().clone().expect("no sd packet recorded");
    assert_eq!(seen_ty, DataType::GpsData);
    assert_eq!(seen_vals, data);
}

#[test]
fn queued_roundtrip_between_two_routers() {
    let frames = Arc::new(Mutex::new(Vec::<Vec<u8>>::new()));
    let mut tx_router =
        Router::new_with_clock(RouterMode::Sink, RouterConfig::default(), StepClock::new_default_box());
    tx_router.add_side_serialized("BUS", Box::new(TestBus { frames: frames.clone() }));

    let seen: Arc<Mutex<Option<(DataType, Vec<f32>)>>> = Arc::new(Mutex::new(None));
    let sd_handler = get_sd_card_handler(seen.clone());
    let mut rx_router = Router::new_with_clock(
        RouterMode::Sink,
        RouterConfig::new(vec![sd_handler]),
        StepClock::new_default_box(),
    );
    rx_router.add_side_serialized("TX", Box::new(NoTx));

    let data = [1.0_f32, 2.0];
    tx_router.log_queue(DataType::GpsData, &f32_bits(&data)).unwrap();
    tx_router.process_tx_queue().unwrap();

    let frames = frames.lock().unwrap().clone();
    assert_eq!(frames.len(), 1, "expected exactly one TX frame");
    for frame in &frames {
        rx_router.rx_serialized_queue(frame).unwrap();
    }
    rx_router.process_rx_queue().unwrap();

    let (ty, vals) = seen.lock().unwrap().clone().expect("no packet delivered");
    assert_eq!(ty, DataType::GpsData);
    assert_eq!(vals, data);
}

#[test]
fn identical_queued_packets_are_each_sent() {
    let frames = Arc::new(Mutex::new(Vec::<Vec<u8>>::new()));
    let mut router =
        Router::new_with_clock(RouterMode::Sink, RouterConfig::default(), StepClock::new_default_box());
    router.add_side_serialized("BUS", Box::new(TestBus { frames: frames.clone() }));
    let data = [10.0_f32, 10.25];
    router.log_queue(DataType::GpsData, &f32_bits(&data)).unwrap();
    router.log_queue(DataType::GpsData, &f32_bits(&data)).unwrap();
    router.process_tx_queue().unwrap();
    let frames = frames.lock().unwrap().clone();
    assert_eq!(frames.len(), 2);
    assert_eq!(frames[0], frames[1]);
}

#[test]
fn queued_self_delivery_via_receive_queue() {
    let frames = Arc::new(Mutex::new(Vec::<Vec<u8>>::new()));
    let mut router =
        Router::new_with_clock(RouterMode::Sink, RouterConfig::default(), StepClock::new_default_box());
    router.add_side_serialized("BUS", Box::new(TestBus { frames: frames.clone() }));

    let data = [10.0_f32, 10.25];
    router.log_queue(DataType::GpsData, &f32_bits(&data)).unwrap();
    let data = [10.0_f32];
    router.log_queue(DataType::BatteryVoltage, &f32_bits(&data)).unwrap();
    let data = [10.0_f32, 10.25];
    router.log_queue(DataType::GpsData, &f32_bits(&data)).unwrap();
    router.process_tx_queue().unwrap();
    let frames = frames.lock().unwrap().clone();
    assert_eq!(frames.len(), 3);

    router.rx_serialized_queue(&frames[0]).unwrap();
    router.process_rx_queue().unwrap();
}

#[test]
fn local_handler_failure_sends_error_packet_to_other_locals() {
    let ty = pick_any_type();
    let ts = 42_u64;
    let failing_ep = ep(0);
    let other_ep = ep(1);

    let recv_count = Arc::new(AtomicUsize::new(0));
    let errors = Arc::new(AtomicUsize::new(0));
    let last_payload = Arc::new(Mutex::new(String::new()));

    let failing = EndpointHandler::new_packet_handler(failing_ep, Box::new(Failing));
    let capturing = EndpointHandler::new_packet_handler(
        other_ep,
        Box::new(Capturing { count: recv_count.clone(), errors: errors.clone(), last: last_payload.clone() }),
    );

    let mut router = Router::new_with_clock(
        RouterMode::Sink,
        RouterConfig::new(vec![failing, capturing]),
        StepClock::new_default_box(),
    );

    let pkt = TelemetryPacket::new(ty, &[failing_ep, other_ep], DEVICE_IDENTIFIER, ts, &payload_for(ty)).unwrap();

    handle_errors(router.tx(pkt));

    assert!(recv_count.load(Ordering::SeqCst) >= 1, "capturing handler should have been invoked at least once");

    let expected = format!(
        "{{Type: TELEMETRY_ERROR, Data Size: {:?}, Sender: TEST_PLATFORM, Endpoints: [GROUND_STATION], Timestamp: 0 (0s 000ms), Error: (\"Handler for endpoint {:?} failed on device {:?}: {:?}\")}}",
        68,
        failing_ep,
        DEVICE_IDENTIFIER,
        TelemetryError::BadArg
    );
    let got = last_payload.lock().unwrap().clone();
    assert_eq!(got, expected, "mismatch in TelemetryError payload text");
}

#[test]
fn tx_failure_sends_error_packet_to_all_local_endpoints() {
    let ty = pick_any_type();
    let ts = 31415_u64;
    let local_ep = ep(0);
    let remote_ep = ep(1);

    let saw_error = Arc::new(AtomicUsize::new(0));
    let count = Arc::new(AtomicUsize::new(0));
    let last_payload = Arc::new(Mutex::new(String::new()));
    let capturing = EndpointHandler::new_packet_handler(
        local_ep,
        Box::new(Capturing { count: count.clone(), errors: saw_error.clone(), last: last_payload.clone() }),
    );

    let mut router = Router::new_with_clock(
        RouterMode::Sink,
        RouterConfig::new(vec![capturing]),
        StepClock::new_default_box(),
    );
    router.add_side_serialized("TX", Box::new(FailingTx));

    let pkt = TelemetryPacket::new(ty, &[local_ep, remote_ep], "router_test", ts, &payload_for(ty)).unwrap();

    handle_errors(router.tx(pkt));

    assert!(saw_error.load(Ordering::SeqCst) >= 1, "local handler should have received TelemetryError after TX failures");

    let expected = format!(
        "{{Type: TELEMETRY_ERROR, Data Size: {:?}, Sender: TEST_PLATFORM, Endpoints: [SD_CARD], Timestamp: 0 (0s 000ms), Error: (\"TX Handler failed on device {:?}: {:?}\")}}",
        55,
        DEVICE_IDENTIFIER,
        TelemetryError::Io("boom")
    );
    let got = last_payload.lock().unwrap().clone();
    assert_eq!(got, expected, "mismatch in TelemetryError payload text");
}

#[test]
fn duplicate_receive_from_a_side_is_handled_once() {
    let count = Arc::new(AtomicUsize::new(0));
    let errors = Arc::new(AtomicUsize::new(0));
    let last = Arc::new(Mutex::new(String::new()));
    let capturing = EndpointHandler::new_packet_handler(
        DataEndpoint::SdCard,
        Box::new(Capturing { count: count.clone(), errors, last }),
    );
    let mut router = Router::new_with_clock(
        RouterMode::Sink,
        RouterConfig::new(vec![capturing]),
        StepClock::new_default_box(),
    );
    let pkt = TelemetryPacket::new(DataType::MessageData, &[DataEndpoint::SdCard], "peer", 7, b"once").unwrap();
    router.add_side_serialized("BUS", Box::new(NoTx));
    router.rx_from_side(&pkt, 0).unwrap();
    router.rx_from_side(&pkt, 0).unwrap();
    assert_eq!(count.load(Ordering::SeqCst), 1);
    // Locally injected copies are always handled.
    router.rx(&pkt).unwrap();
    assert_eq!(count.load(Ordering::SeqCst), 2);
}

#[test]
fn queue_rejects_items_over_budget() {
    let mut router =
        Router::new_with_clock(RouterMode::Sink, RouterConfig::default(), StepClock::new_default_box());
    let big = vec![0u8; 60_000];
    let err = router.tx_serialized_queue(big).unwrap_err();
    assert!(matches!(err, TelemetryError::PacketTooLarge(_)));
}

#[test]
fn queue_from_any_side_index_is_accepted() {
    let mut router =
        Router::new_with_clock(RouterMode::Relay, RouterConfig::default(), StepClock::new_default_box());
    let pkt = TelemetryPacket::new(DataType::MessageData, &[DataEndpoint::SdCard], "peer", 7, b"x").unwrap();
    let wire = serialize::serialize_packet(&pkt);
    assert!(router.rx_serialized_queue_from_side(&wire, 3).is_ok());
    assert!(router.rx_serialized_queue_from_side(&[0x00], 0).is_err());
}

fn step_clock(start: u64, step: u64) -> Box<dyn Clock> {
    Box::new(StepClock { t: AtomicU64::new(start), step })
}

/// Counts packets delivered to its endpoint.
struct Counter {
    count: Arc<AtomicUsize>,
}

impl PacketHandler for Counter {
    fn handle_packet(&self, _pkt: &TelemetryPacket) -> TelemetryResult<()> {
        self.count.fetch_add(1, Ordering::SeqCst);
        Ok(())
    }
}

fn get_handler(count: Arc<AtomicUsize>) -> EndpointHandler {
    EndpointHandler::new_packet_handler(DataEndpoint::SdCard, Box::new(Counter { count }))
}

/// Counts frames sent on a side.
struct TxCounter {
    count: Arc<AtomicUsize>,
}

impl SerializedHandler for TxCounter {
    fn handle_bytes(&self, bytes: &[u8]) -> TelemetryResult<()> {
        assert!(!bytes.is_empty());
        self.count.fetch_add(1, Ordering::SeqCst);
        Ok(())
    }
}

/// Always fails, counting the attempts.
struct FailingCounter {
    count: Arc<AtomicUsize>,
}

impl PacketHandler for FailingCounter {
    fn handle_packet(&self, _pkt: &TelemetryPacket) -> TelemetryResult<()> {
        self.count.fetch_add(1, Ordering::SeqCst);
        Err(TelemetryError::BadArg)
    }
}

/// Counts wire images of at least `min_len` bytes.
struct BytesCounter {
    count: Arc<AtomicUsize>,
    min_len: usize,
}

impl SerializedHandler for BytesCounter {
    fn handle_bytes(&self, bytes: &[u8]) -> TelemetryResult<()> {
        assert!(bytes.len() >= self.min_len);
        self.count.fetch_add(1, Ordering::SeqCst);
        Ok(())
    }
}

/// Checks and counts delivered packets.
struct ValidatingCounter {
    count: Arc<AtomicUsize>,
}

impl PacketHandler for ValidatingCounter {
    fn handle_packet(&self, pkt: &TelemetryPacket) -> TelemetryResult<()> {
        pkt.validate().unwrap();
        self.count.fetch_add(1, Ordering::SeqCst);
        Ok(())
    }
}

/// Keeps the rendering of the last error packet.
struct ErrorText {
    last: Arc<Mutex<String>>,
}

impl PacketHandler for ErrorText {
    fn handle_packet(&self, pkt: &TelemetryPacket) -> TelemetryResult<()> {
        if pkt.data_type() == DataType::TelemetryError {
            *self.last.lock().unwrap() = pkt.to_string(&[]);
        }
        Ok(())
    }
}

fn gps(vals: &[f32], eps: &[DataEndpoint], ts: u64) -> TelemetryPacket {
    TelemetryPacket::from_f32_bits_slice(DataType::GpsData, &f32_bits(vals), eps, ts).unwrap()
}

fn mk_rx_only_local(vals: &[f32], ts: u64) -> TelemetryPacket {
    gps(vals, &[DataEndpoint::SdCard], ts)
}

fn router_with_tx(handlers: Vec<EndpointHandler>, clock: Box<dyn Clock>, tx_count: Arc<AtomicUsize>) -> Router {
    let mut r = Router::new_with_clock(RouterMode::Sink, RouterConfig::new(handlers), clock);
    r.add_side_serialized("TX", Box::new(TxCounter { count: tx_count }));
    r
}

#[test]
fn process_all_queues_timeout_zero_drains_fully() {
    let tx_count = Arc::new(AtomicUsize::new(0));
    let rx_count = Arc::new(AtomicUsize::new(0));
    let mut r = router_with_tx(vec![get_handler(rx_count.clone())], step_clock(0, 0), tx_count.clone());

    for _ in 0..3 {
        r.log_queue(DataType::GpsData, &f32_bits(&[1.0_f32, 2.0])).unwrap();
    }
    for _ in 0..2 {
        r.rx_queue(mk_rx_only_local(&[9.0, 8.0], 123)).unwrap();
    }

    r.process_all_queues_with_timeout(0).unwrap();

    assert_eq!(tx_count.load(Ordering::SeqCst), 3, "all TX packets should be sent");
    assert_eq!(rx_count.load(Ordering::SeqCst), 5, "handler sees TX+RX packets");
}

#[test]
fn process_all_queues_respects_nonzero_timeout_budget_one_receive_one_send() {
    let tx_count = Arc::new(AtomicUsize::new(0));
    let rx_count = Arc::new(AtomicUsize::new(0));
    let mut r = router_with_tx(vec![get_handler(rx_count.clone())], step_clock(0, 10), tx_count.clone());

    for _ in 0..5 {
        r.log_queue(DataType::GpsData, &f32_bits(&[1.0_f32, 2.0])).unwrap();
        r.rx_queue(gps(&[4.0, 5.0], &[DataEndpoint::SdCard], 1)).unwrap();
    }

    r.process_all_queues_with_timeout(5).unwrap();

    assert_eq!(tx_count.load(Ordering::SeqCst), 1, "expected exactly one TX in a single iteration");
    assert_eq!(rx_count.load(Ordering::SeqCst), 1, "expected one TX local call");

    r.process_all_queues_with_timeout(0).unwrap();
    assert_eq!(tx_count.load(Ordering::SeqCst), 5);
    assert_eq!(rx_count.load(Ordering::SeqCst), 10);
}

#[test]
fn process_all_queues_respects_nonzero_timeout_budget_two_receive_one_send() {
    let tx_count = Arc::new(AtomicUsize::new(0));
    let rx_count = Arc::new(AtomicUsize::new(0));
    let mut r = router_with_tx(vec![get_handler(rx_count.clone())], step_clock(0, 5), tx_count.clone());

    for _ in 0..5 {
        r.log_queue(DataType::GpsData, &f32_bits(&[1.0_f32, 2.0])).unwrap();
        r.rx_queue(gps(&[4.0, 5.0], &[DataEndpoint::SdCard], 1)).unwrap();
    }

    r.process_all_queues_with_timeout(10).unwrap();

    assert_eq!(tx_count.load(Ordering::SeqCst), 1, "expected exactly one TX in a single iteration");
    assert_eq!(rx_count.load(Ordering::SeqCst), 2, "expected one TX local + one RX handler call");

    r.process_all_queues_with_timeout(0).unwrap();
    assert_eq!(tx_count.load(Ordering::SeqCst), 5);
    assert_eq!(rx_count.load(Ordering::SeqCst), 10);
}

#[test]
fn process_all_queues_handles_u64_wraparound() {
    let tx_count = Arc::new(AtomicUsize::new(0));
    let rx_count = Arc::new(AtomicUsize::new(0));
    let start = u64::MAX - 1;
    let mut r = router_with_tx(vec![get_handler(rx_count.clone())], step_clock(start, 2), tx_count.clone());

    r.log_queue(DataType::GpsData, &f32_bits(&[1.0_f32, 2.0])).unwrap();
    r.rx_queue(mk_rx_only_local(&[4.0, 5.0], 7)).unwrap();

    r.process_all_queues_with_timeout(1).unwrap();

    assert!(tx_count.load(Ordering::SeqCst) <= 1, "expected <=1 TX");
    assert!(
        rx_count.load(Ordering::SeqCst) <= 2,
        "local handler can be invoked by TX local delivery (+1) and RX (+1)"
    );
    assert!(tx_count.load(Ordering::SeqCst) + rx_count.load(Ordering::SeqCst) >= 1);
}

#[test]
fn clear_queues_prevents_further_processing() {
    let tx_count = Arc::new(AtomicUsize::new(0));
    let rx_count = Arc::new(AtomicUsize::new(0));
    let mut r = router_with_tx(vec![get_handler(rx_count.clone())], step_clock(0, 0), tx_count.clone());

    let pkt_tx = gps(&[1.0_f32, 2.0], &[DataEndpoint::SdCard, DataEndpoint::GroundStation], 0);
    let pkt_rx = gps(&[4.0_f32, 5.0], &[DataEndpoint::SdCard], 0);

    r.tx_queue(pkt_tx).unwrap();
    r.rx_queue(pkt_rx).unwrap();

    r.clear_queues();

    r.process_all_queues().unwrap();
    assert_eq!(tx_count.load(Ordering::SeqCst), 0, "should not TX after clear");
    assert_eq!(rx_count.load(Ordering::SeqCst), 0, "should not RX after clear");
}

#[test]
fn local_handler_retry_attempts_are_three() {
    const EXPECTED_ATTEMPTS: usize = 3;

    let counter = Arc::new(AtomicUsize::new(0));
    let failing = EndpointHandler::new_packet_handler(
        DataEndpoint::SdCard,
        Box::new(FailingCounter { count: counter.clone() }),
    );
    let mut r = Router::new_with_clock(RouterMode::Sink, RouterConfig::new(vec![failing]), step_clock(0, 0));

    let pkt = gps(&[1.0_f32, 2.0], &[DataEndpoint::SdCard], 0);

    let res = r.tx(pkt);
    match res {
        Err(TelemetryError::HandlerError(_)) => {}
        other => panic!("expected HandlerError after retries, got {other:?}"),
    }

    assert_eq!(
        counter.load(Ordering::SeqCst),
        EXPECTED_ATTEMPTS,
        "handler should be invoked exactly {EXPECTED_ATTEMPTS} times"
    );
}

#[test]
fn tx_failure_emits_error_to_local_endpoints() {
    let last_payload = Arc::new(Mutex::new(String::new()));
    let capturing =
        EndpointHandler::new_packet_handler(DataEndpoint::SdCard, Box::new(ErrorText { last: last_payload.clone() }));

    let mut r = Router::new_with_clock(RouterMode::Sink, RouterConfig::new(vec![capturing]), step_clock(0, 0));
    r.add_side_serialized("TX", Box::new(FailingTx));

    let pkt = gps(&[1.0_f32, 2.0], &[DataEndpoint::SdCard, DataEndpoint::GroundStation], 7);

    let res = r.tx(pkt);
    match res {
        Err(TelemetryError::HandlerError(_)) => {}
        other => panic!("expected HandlerError from TX failure, got {other:?}"),
    }

    let got = last_payload.lock().unwrap().clone();
    assert!(!got.is_empty(), "expected TelemetryError to be delivered locally after TX failure");
}

#[test]
fn serialized_only_handlers_do_not_deserialize() {
    let pkt = gps(&[1.0, 2.0], &[DataEndpoint::SdCard], 123);
    let wire = serialize::serialize_packet(&pkt);

    let called = Arc::new(AtomicUsize::new(0));
    let handler = EndpointHandler::new_serialized_handler(
        DataEndpoint::SdCard,
        Box::new(BytesCounter { count: called.clone(), min_len: serialize::header_size_bytes(&pkt) }),
    );

    let mut r = Router::new_with_clock(RouterMode::Sink, RouterConfig::new(vec![handler]), step_clock(0, 0));
    r.rx_serialized(&wire).unwrap();
    assert_eq!(called.load(Ordering::SeqCst), 1);
}

#[test]
fn packet_handlers_trigger_single_deserialize_and_fan_out() {
    let endpoints = &[DataEndpoint::SdCard, DataEndpoint::GroundStation];
    let pkt = gps(&[1.0, 2.0], endpoints, 5);
    let wire = serialize::serialize_packet(&pkt);

    let packet_called = Arc::new(AtomicUsize::new(0));
    let serialized_called = Arc::new(AtomicUsize::new(0));

    let packet_h = EndpointHandler::new_packet_handler(DataEndpoint::SdCard, Box::new(Counter { count: packet_called.clone() }));
    let serialized_h = EndpointHandler::new_serialized_handler(
        DataEndpoint::GroundStation,
        Box::new(BytesCounter { count: serialized_called.clone(), min_len: 0 }),
    );

    let mut r = Router::new_with_clock(
        RouterMode::Sink,
        RouterConfig::new(vec![packet_h, serialized_h]),
        step_clock(0, 0),
    );

    r.rx_serialized(&wire).unwrap();
    assert_eq!(packet_called.load(Ordering::SeqCst), 1);
    assert_eq!(serialized_called.load(Ordering::SeqCst), 1);
}

#[test]
fn send_avoids_serialization_when_only_local_packet_handlers_exist() {
    let tx_called = Arc::new(AtomicUsize::new(0));
    let hits = Arc::new(AtomicUsize::new(0));
    let handler =
        EndpointHandler::new_packet_handler(DataEndpoint::SdCard, Box::new(ValidatingCounter { count: hits.clone() }));

    let mut r = router_with_tx(vec![handler], step_clock(0, 0), tx_called.clone());
    let pkt = gps(&[1.0, 2.0], &[DataEndpoint::SdCard], 0);
    r.tx(pkt).unwrap();

    assert_eq!(tx_called.load(Ordering::SeqCst), 0);
    assert_eq!(hits.load(Ordering::SeqCst), 1);
}

#[test]
fn receive_direct_packet_invokes_handlers() {
    let called = Arc::new(AtomicUsize::new(0));
    let handler = get_handler(called.clone());

    let mut r = Router::new_with_clock(RouterMode::Sink, RouterConfig::new(vec![handler]), step_clock(0, 0));
    let pkt = gps(&[0.5, 0.5], &[DataEndpoint::SdCard], 0);
    r.rx(&pkt).unwrap();

    assert_eq!(called.load(Ordering::SeqCst), 1);
}

#[test]
fn error_payload_is_truncated_to_meta_size() {
    let captured = Arc::new(Mutex::new(String::new()));
    let handler = EndpointHandler::new_packet_handler(DataEndpoint::SdCard, Box::new(ErrorText { last: captured.clone() }));

    let mut r = Router::new_with_clock(RouterMode::Sink, RouterConfig::new(vec![handler]), step_clock(0, 0));
    r.add_side_serialized("TX", Box::new(FailingTx));
    let pkt = gps(&[1.0, 2.0], &[DataEndpoint::SdCard, DataEndpoint::GroundStation], 1);
    let _ = r.tx(pkt);

    let s = captured.lock().unwrap().clone();
    assert!(!s.is_empty());
    assert!(s.len() < 8_192);
}

#[test]
fn process_all_queues_timeout_zero_handles_large_queues() {
    let tx_count = Arc::new(AtomicUsize::new(0));
    let rx_count = Arc::new(AtomicUsize::new(0));
    let mut router = router_with_tx(vec![get_handler(rx_count.clone())], step_clock(0, 0), tx_count.clone());

    const N: usize = 200;
    for _ in 0..N {
        router.log_queue(DataType::GpsData, &f32_bits(&[1.0_f32, 2.0])).unwrap();
        let pkt = gps(&[9.0, 8.0], &[DataEndpoint::SdCard], 0);
        router.rx_queue(pkt).unwrap();
    }

    router.process_all_queues_with_timeout(0).unwrap();

    assert_eq!(tx_count.load(Ordering::SeqCst), N, "all TX should flush");
    assert_eq!(
        rx_count.load(Ordering::SeqCst),
        2 * N,
        "each TX local delivery + RX packet should invoke handler"
    );
}

#[test]
fn announce_discovery_queues_only_discovery_packets_to_each_side() {
    let a = Arc::new(Mutex::new(Vec::<Vec<u8>>::new()));
    let b = Arc::new(Mutex::new(Vec::<Vec<u8>>::new()));
    let count = Arc::new(AtomicUsize::new(0));
    let mut router = Router::new_with_clock(
        RouterMode::Sink,
        RouterConfig::new(vec![get_handler(count.clone())]),
        step_clock(0, 0),
    );
    router.add_side_serialized("A", Box::new(TestBus { frames: a.clone() }));
    router.add_side_serialized("B", Box::new(TestBus { frames: b.clone() }));

    router.announce_discovery().unwrap();
    router.process_tx_queue().unwrap();

    for frames in [a.lock().unwrap().clone(), b.lock().unwrap().clone()] {
        assert_eq!(frames.len(), 1);
        let pkt = serialize::deserialize_packet(&frames[0]).unwrap();
        assert_eq!(pkt.data_type(), DataType::DiscoveryAnnounce);
        let eps = sedsprintf_rs::discovery::decode_discovery_announce(&pkt).unwrap();
        assert_eq!(eps, vec![DataEndpoint::SdCard]);
    }
    // Discovery traffic skips the local handlers.
    assert_eq!(count.load(Ordering::SeqCst), 0);

    let topo = router.export_topology();
    assert_eq!(topo.advertised_endpoints, vec![DataEndpoint::SdCard]);
    assert!(topo.routes.is_empty());
}

#[test]
fn poll_discovery_without_sides_queues_nothing() {
    let mut router =
        Router::new_with_clock(RouterMode::Sink, RouterConfig::default(), step_clock(0, 0));
    assert_eq!(router.poll_discovery(), Ok(false));
    assert_eq!(router.poll_timesync(), Ok(false));
}

#[test]
fn local_network_time_is_read_back() {
    let mut router =
        Router::new_with_clock(RouterMode::Sink, RouterConfig::default(), step_clock(0, 0));
    router.set_local_network_datetime(2024, 2, 29, 12, 34, 56);
    let reading = router.network_time().expect("a complete local time is readable");
    assert_eq!(reading.time.year, Some(2024));
    assert_eq!(reading.time.month, Some(2));
    assert_eq!(reading.time.day, Some(29));
    assert_eq!(reading.time.hour, Some(12));
    assert_eq!(reading.time.minute, Some(34));
    assert_eq!(reading.time.second, Some(56));
    assert_eq!(reading.unix_time_ms, Some(1_709_210_096_000));
}

#[test]
fn log_queue_of_wrong_size_queues_nothing() {
    let tx_count = Arc::new(AtomicUsize::new(0));
    let mut router = router_with_tx(vec![], step_clock(0, 0), tx_count.clone());
    let err = router.log_queue(DataType::GpsData, &f32_bits(&[1.0_f32])).unwrap_err();
    assert!(matches!(err, TelemetryError::SizeMismatch { .. }));
    router.process_tx_queue().unwrap();
    assert_eq!(tx_count.load(Ordering::SeqCst), 0);
}

#[test]
fn time_sync_request_is_answered_with_time_sync_traffic_only() {
    let frames = Arc::new(Mutex::new(Vec::<Vec<u8>>::new()));
    let cfg = TimeSyncConfig { role: TimeSyncRole::Source, ..TimeSyncConfig::default() };
    let mut router = Router::new_with_clock(
        RouterMode::Sink,
        RouterConfig::default().with_timesync(cfg),
        step_clock(0, 0),
    );
    router.add_side_serialized("BUS", Box::new(TestBus { frames: frames.clone() }));

    router.rx(&build_timesync_request(7, 1234).unwrap()).unwrap();
    router.process_tx_queue().unwrap();

    let frames = frames.lock().unwrap().clone();
    assert!(!frames.is_empty());
    let mut answered = false;
    for f in &frames {
        let pkt = serialize::deserialize_packet(f).unwrap();
        assert!(matches!(
            pkt.data_type(),
            DataType::TimeSyncAnnounce | DataType::TimeSyncRequest | DataType::TimeSyncResponse
        ));
        if pkt.data_type() == DataType::TimeSyncResponse {
            let resp = decode_timesync_response(&pkt).unwrap();
            assert_eq!(resp.seq, 7);
            assert_eq!(resp.t1_ms, 1234);
            answered = true;
        }
    }
    assert!(answered);
}

#[test]
fn tx_serialized_reports_unreadable_header() {
    let mut router =
        Router::new_with_clock(RouterMode::Sink, RouterConfig::default(), StepClock::new_default_box());
    let res = router.tx_serialized(Vec::new());
    assert!(matches!(res, Err(TelemetryError::Deserialize("short prelude"))));
}

#[test]
fn tx_without_sides_or_handlers_succeeds() {
    let mut router =
        Router::new_with_clock(RouterMode::Sink, RouterConfig::default(), StepClock::new_default_box());
    let pkt = TelemetryPacket::new(DataType::MessageData, &[DataEndpoint::SdCard], "peer", 7, b"hi").unwrap();
    assert!(router.tx(pkt).is_ok());
    assert!(router.network_time_ms().is_none());
}

#[test]
fn source_poll_announces_once_per_interval() {
    let frames = Arc::new(Mutex::new(Vec::<Vec<u8>>::new()));
    let cfg = TimeSyncConfig { role: TimeSyncRole::Source, ..TimeSyncConfig::default() };
    let mut router = Router::new_with_clock(
        RouterMode::Sink,
        RouterConfig::default().with_timesync(cfg),
        step_clock(0, 0),
    );
    router.add_side_serialized("BUS", Box::new(TestBus { frames: frames.clone() }));

    assert_eq!(router.poll_timesync_at(5_000, 5_000_000_000), Ok(true));
    assert_eq!(router.poll_timesync_at(5_000, 5_000_000_000), Ok(false));
    router.process_tx_queue().unwrap();
    let frames = frames.lock().unwrap().clone();
    assert_eq!(frames.len(), 1);
    let pkt = serialize::deserialize_packet(&frames[0]).unwrap();
    assert_eq!(pkt.data_type(), DataType::TimeSyncAnnounce);
}

#[test]
fn poll_without_time_sync_config_queues_nothing() {
    let tx_count = Arc::new(AtomicUsize::new(0));
    let mut router = router_with_tx(vec![], step_clock(0, 0), tx_count.clone());
    assert_eq!(router.poll_timesync_at(10_000, 10_000_000_000), Ok(false));
    router.process_tx_queue().unwrap();
    assert_eq!(tx_count.load(Ordering::SeqCst), 0);
}

#[test]
fn queues_that_reach_nothing_drain_without_error() {
    let mut router =
        Router::new_with_clock(RouterMode::Sink, RouterConfig::default(), step_clock(0, 0));
    let data = [1.0_f32, 2.0];
    router.log_queue(DataType::GpsData, &f32_bits(&data)).unwrap();
    router.log_queue(DataType::GpsData, &f32_bits(&data)).unwrap();
    assert_eq!(router.process_all_queues(), Ok(()));
    assert_eq!(router.process_all_queues_with_timeout(0), Ok(()));
}

#[test]
fn consumer_without_time_does_not_answer_requests() {
    let frames = Arc::new(Mutex::new(Vec::<Vec<u8>>::new()));
    let cfg = TimeSyncConfig { role: TimeSyncRole::Consumer, ..TimeSyncConfig::default() };
    let mut router = Router::new_with_clock(
        RouterMode::Sink,
        RouterConfig::default().with_timesync(cfg),
        step_clock(0, 0),
    );
    router.add_side_serialized("BUS", Box::new(TestBus { frames: frames.clone() }));
    assert_eq!(router.rx(&build_timesync_request(9, 55).unwrap()), Ok(()));
    router.process_tx_queue().unwrap();
    let frames = frames.lock().unwrap().clone();
    for f in &frames {
        let pkt = serialize::deserialize_packet(f).unwrap();
        assert_ne!(pkt.data_type(), DataType::TimeSyncResponse);
    }
}
