use sedsprintf_rs::config::{DataEndpoint, DataType};
use sedsprintf_rs::serialize;
use sedsprintf_rs::telemetry_packet::TelemetryPacket;
use sedsprintf_rs::TelemetryError;

fn matches_deser_err(e: TelemetryError) {
    match e {
        TelemetryError::Deserialize(_) => {}
        other => panic!("expected Deserialize error, got {other:?}"),
    }
}

#[test]
fn deserialize_header_only_short_buffer_fails() {
    let tiny = [0x00u8];
    let err = serialize::peek_envelope(&tiny).unwrap_err();
    matches_deser_err(err);

    let truncated = [0x00u8, 0x80];
    let err = serialize::peek_envelope(&truncated).unwrap_err();
    matches_deser_err(err);
}

#[test]
fn serializer_is_canonical_roundtrip() {
    let msg = "hello world";
    let pkt = TelemetryPacket::from_u8_slice(
        DataType::TelemetryError,
        msg.as_bytes(),
        &[DataEndpoint::SdCard, DataEndpoint::GroundStation],
        0,
    )
    .unwrap();

    let wire1 = serialize::serialize_packet(&pkt);
    let pkt2 = serialize::deserialize_packet(&wire1).unwrap();
    let wire2 = serialize::serialize_packet(&pkt2);

    assert_eq!(&*wire1, &*wire2, "serializer must be canonical");
}

#[test]
fn serializer_varint_scalars_grow_as_expected() {
    fn pkt_with(len: usize, sender_len: usize, ts: u64) -> TelemetryPacket {
        let s = "x".repeat(sender_len);
        let payload = vec![b'A'; len];
        TelemetryPacket::new(DataType::TelemetryError, &[DataEndpoint::SdCard], &s, ts, &payload).unwrap()
    }

    let p1 = pkt_with(10, 5, 0x7F);
    let w1 = serialize::serialize_packet(&p1);
    let h1 = serialize::header_size_bytes(&p1);
    assert!(h1 >= 1 + 4, "NEP + 4 one-byte varints minimum");

    let p2 = pkt_with(200, 200, 0x7F);
    let w2 = serialize::serialize_packet(&p2);
    let h2 = serialize::header_size_bytes(&p2);
    assert!(w2.len() > w1.len(), "wire should grow with larger varints");
    assert!(h2 > h1, "header should grow with larger varints");

    let p3 = pkt_with(200, 200, 1u64 << 40);
    let w3 = serialize::serialize_packet(&p3);
    let h3 = serialize::header_size_bytes(&p3);
    assert!(w3.len() > w2.len(), "wire should grow with larger timestamp");
    assert!(h3 > h2, "header should grow with larger timestamp");

    assert_eq!(serialize::packet_wire_size(&p3), w3.len());
}

#[test]
fn peek_envelope_matches_full_parse_on_large_values() {
    let sender = "S".repeat(10_000);
    let payload = vec![b'h'; 4096];
    let ts = (1u64 << 40) + 123;

    let pkt = TelemetryPacket::new(
        DataType::TelemetryError,
        &[DataEndpoint::SdCard, DataEndpoint::GroundStation],
        &sender,
        ts,
        &payload,
    )
    .unwrap();

    let wire = serialize::serialize_packet(&pkt);
    let env = serialize::peek_envelope(&wire).unwrap();
    let full = serialize::deserialize_packet(&wire).unwrap();

    assert_eq!(env.ty, pkt.data_type());
    assert_eq!(env.sender.as_str(), pkt.sender());
    assert_eq!(env.timestamp_ms, pkt.timestamp());
    assert_eq!(&*env.endpoints, pkt.endpoints());

    assert_eq!(full.data_type(), pkt.data_type());
    assert_eq!(full.timestamp(), pkt.timestamp());
    assert_eq!(full.endpoints(), pkt.endpoints());
    assert_eq!(full.payload(), pkt.payload());
}

#[test]
fn deserialize_packet_rejects_overflowed_varint() {
    let mut wire = vec![0x00u8];
    wire.extend([0xFFu8; 11]);
    let err = serialize::deserialize_packet(&wire).unwrap_err();
    match err {
        TelemetryError::Deserialize(msg) if msg.eq("uleb128 too long") => {}
        other => panic!("expected Deserialize(uleb128 too long...) error, got {other:?}"),
    }
}

#[test]
fn roundtrip_keeps_every_field_and_sorts_endpoints() {
    let pkt = TelemetryPacket::new(
        DataType::MessageData,
        &[DataEndpoint::Radio, DataEndpoint::SdCard, DataEndpoint::Radio],
        "node-7",
        987654321,
        b"status ok",
    )
    .unwrap();
    let wire = serialize::serialize_packet(&pkt);
    assert_eq!(serialize::packet_wire_size(&pkt), wire.len());
    let back = serialize::deserialize_packet(&wire).unwrap();
    assert_eq!(back.data_type(), DataType::MessageData);
    assert_eq!(back.sender(), "node-7");
    assert_eq!(back.timestamp(), 987654321);
    assert_eq!(back.payload(), b"status ok");
    assert_eq!(back.endpoints(), &[DataEndpoint::SdCard, DataEndpoint::Radio]);
    let again = serialize::serialize_packet(&back);
    assert_eq!(wire, again);
}

#[test]
fn packet_id_from_wire_matches_packet_id() {
    let pkt = TelemetryPacket::new(DataType::MessageData, &[DataEndpoint::SdCard], "abc", 42, b"xyz").unwrap();
    let wire = serialize::serialize_packet(&pkt);
    assert_eq!(serialize::packet_id_from_wire(&wire).unwrap(), pkt.packet_id());
}

#[test]
fn empty_buffer_is_a_short_prelude() {
    assert_eq!(serialize::deserialize_packet(&[]).unwrap_err(), TelemetryError::Deserialize("short prelude"));
    assert_eq!(serialize::peek_envelope(&[]).unwrap_err(), TelemetryError::Deserialize("short prelude"));
}

#[test]
fn uleb128_sizes() {
    assert_eq!(serialize::uleb128_size(0), 1);
    assert_eq!(serialize::uleb128_size(127), 1);
    assert_eq!(serialize::uleb128_size(128), 2);
    assert_eq!(serialize::uleb128_size(u64::MAX), 10);
}

#[test]
fn compression_applies_to_long_repetitive_bytes_and_roundtrips() {
    let (compressed, out) = serialize::compress_if_beneficial(&[7u8; 100]);
    assert!(compressed);
    assert!(out.len() + 1 < 100);
    assert_eq!(serialize::decompress(&out, 100).unwrap(), vec![7u8; 100]);
    assert_eq!(
        serialize::decompress(&out, 99).unwrap_err(),
        TelemetryError::Deserialize("decompressed size mismatch")
    );
    assert_eq!(
        serialize::decompress(&[0xFF, 0xFF, 0xFF], 3).unwrap_err(),
        TelemetryError::Deserialize("decompression failed")
    );
}

#[test]
fn compression_skips_short_and_incompressible_bytes() {
    let (compressed, out) = serialize::compress_if_beneficial(&[7u8; 15]);
    assert!(!compressed);
    assert_eq!(out, vec![7u8; 15]);
    let varied: Vec<u8> = (0u8..20).collect();
    let (compressed, out) = serialize::compress_if_beneficial(&varied);
    assert!(!compressed);
    assert_eq!(out, varied);
}

#[test]
fn compressed_sender_roundtrips_through_the_wire() {
    let sender = "aaaaaaaaaaaaaaaaaaaaaaaaaaaaaaaaaaaaaaaaaaaaaaaaaaaaaaaa";
    let pkt = TelemetryPacket::new(DataType::MessageData, &[DataEndpoint::SdCard], sender, 7, b"once").unwrap();
    let wire = serialize::serialize_packet(&pkt);
    assert_eq!(wire[0] & serialize::FLAG_COMPRESSED_SENDER, serialize::FLAG_COMPRESSED_SENDER);
    assert!(wire.len() < sender.len());
    assert_eq!(serialize::packet_wire_size(&pkt), wire.len());
    let back = serialize::deserialize_packet(&wire).unwrap();
    assert_eq!(back.sender(), sender);
    assert_eq!(back.payload(), b"once");
    let env = serialize::peek_envelope(&wire).unwrap();
    assert_eq!(env.sender, sender);
    assert_eq!(serialize::packet_id_from_wire(&wire).unwrap(), pkt.packet_id());
}
