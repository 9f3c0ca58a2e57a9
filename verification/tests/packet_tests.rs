use sedsprintf_rs::config::{
    get_message_meta, DataEndpoint, DataType, MAX_VALUE_DATA_ENDPOINT, MAX_VALUE_DATA_TYPE,
    STATIC_HEX_LENGTH, STATIC_STRING_LENGTH,
};
use sedsprintf_rs::le_bytes::encode_slice_le;
use sedsprintf_rs::serialize;
use sedsprintf_rs::telemetry_packet::TelemetryPacket;
use sedsprintf_rs::{
    get_data_type, get_needed_message_size, MessageDataType, MessageElement, TelemetryError,
    TelemetryErrorCode,
};

fn element_width(dt: MessageDataType) -> usize {
    match dt {
        MessageDataType::UInt8 | MessageDataType::Int8 | MessageDataType::Bool => 1,
        MessageDataType::UInt16 | MessageDataType::Int16 => 2,
        MessageDataType::UInt32 | MessageDataType::Int32 | MessageDataType::Float32 => 4,
        MessageDataType::UInt64 | MessageDataType::Int64 | MessageDataType::Float64 => 8,
        MessageDataType::UInt128 | MessageDataType::Int128 => 16,
        MessageDataType::String | MessageDataType::Binary => 1,
        MessageDataType::NoData => 0,
    }
}

/// A valid payload length for `ty`, following the schema's element layout.
fn test_payload_len_for(ty: DataType) -> usize {
    match get_message_meta(ty).element {
        MessageElement::Static(_, _, _) => get_needed_message_size(ty),
        MessageElement::Dynamic(_, _) => match get_data_type(ty) {
            MessageDataType::String => STATIC_STRING_LENGTH,
            MessageDataType::Binary => STATIC_HEX_LENGTH,
            other => {
                let w = element_width(other);
                let elems = get_message_meta(ty).element.count().max(1);
                w * elems
            }
        },
    }
}

fn f32_bits(vals: &[f32]) -> Vec<u32> {
    vals.iter().map(|v| v.to_bits()).collect()
}

/// GPS packet with two `f32` values, endpoints [SD_CARD, GROUND_STATION] and
/// timestamp 1123581321.
fn fake_telemetry_packet_bytes() -> TelemetryPacket {
    let payload = [0x13 as f32, 0x21 as f32];
    let endpoints = [DataEndpoint::SdCard, DataEndpoint::GroundStation];
    TelemetryPacket::from_f32_bits_slice(DataType::GpsData, &f32_bits(&payload), &endpoints, 1123581321)
        .unwrap()
}

/// Where a packet copy goes: nowhere, onto the source itself, or into
/// another packet.
enum CopyTarget<'a> {
    Null,
    SameObject,
    Other(&'a mut TelemetryPacket),
}

fn copy_telemetry_packet(dest: CopyTarget<'_>, src: &TelemetryPacket) -> Result<(), &'static str> {
    match dest {
        CopyTarget::Null => Err("null packet"),
        CopyTarget::SameObject => Ok(()),
        CopyTarget::Other(d) => {
            let endpoints_vec: Vec<DataEndpoint> = src.endpoints().to_vec();
            let payload: Vec<u8> = src.payload().to_vec();
            let new_pkt = TelemetryPacket::new(
                src.data_type(),
                &endpoints_vec,
                src.sender(),
                src.timestamp(),
                &payload,
            )
            .map_err(|_| "packet validation failed")?;
            *d = new_pkt;
            Ok(())
        }
    }
}

#[test]
fn helpers_packet_hex_to_string() {
    let pkt = fake_telemetry_packet_bytes();
    let got = pkt.to_hex_string();
    let expect = "Type: GPS_DATA, Data Size: 8, Sender: TEST_PLATFORM, Endpoints: [SD_CARD, GROUND_STATION], Timestamp: 1123581321 (312h 06m 21s 321ms), Data (hex): 0x00 0x00 0x98 0x41 0x00 0x00 0x04 0x42";
    assert_eq!(got, expect);
}

#[test]
fn helpers_copy_telemetry_packet() {
    let src = fake_telemetry_packet_bytes();
    let st = copy_telemetry_packet(CopyTarget::Null, &src);
    assert!(st.is_err());

    let same = fake_telemetry_packet_bytes();
    let st = copy_telemetry_packet(CopyTarget::SameObject, &same);
    assert!(st.is_ok());

    let mut dest = TelemetryPacket::new(
        src.data_type(),
        src.endpoints(),
        src.sender(),
        src.timestamp(),
        &src.payload().to_vec(),
    )
    .expect("src packet should be valid");

    let st = copy_telemetry_packet(CopyTarget::Other(&mut dest), &src);
    assert!(st.is_ok());

    assert_eq!(dest.timestamp(), src.timestamp());
    assert_eq!(dest.data_type(), src.data_type());
    assert_eq!(dest.data_size(), src.data_size());
    assert_eq!(dest.endpoints().len(), src.endpoints().len());
    for i in 0..dest.endpoints().len() {
        assert_eq!(dest.endpoints()[i], src.endpoints()[i]);
    }
    assert_eq!(dest.payload(), src.payload());
}

#[test]
fn error_enum_code_roundtrip_and_strings() {
    let samples = [
        TelemetryError::InvalidType,
        TelemetryError::EmptyEndpoints,
        TelemetryError::Deserialize("oops"),
        TelemetryError::Io("disk"),
        TelemetryError::HandlerError("fail"),
        TelemetryError::MissingPayload,
        TelemetryError::TimestampInvalid,
    ];
    for e in samples {
        let code = e.to_error_code();
        assert!(code.as_str().starts_with('{'));
        let back = TelemetryErrorCode::try_from_i32(code.to_i32());
        assert!(back.is_some(), "roundtrip failed for {code:?}");
    }
}

#[test]
fn data_as_utf8_ref_trims_trailing_nuls() {
    let ty = DataType::TelemetryError;
    let mut buf = vec![0u8; test_payload_len_for(ty)];

    let s = b"hello\0\0";
    buf[..s.len()].copy_from_slice(s);

    let pkt = TelemetryPacket::new(ty, &[DataEndpoint::SdCard], "tester", 0, &buf).unwrap();

    assert_eq!(pkt.data_as_utf8_ref(), Some("hello"));
}

#[test]
fn from_u8_slice_builds_valid_packet() {
    let need = test_payload_len_for(DataType::GpsData);
    assert_eq!(need, 8);

    let bytes = vec![0x11u8; need];
    let pkt = TelemetryPacket::from_u8_slice(DataType::GpsData, &bytes, &[DataEndpoint::SdCard], 12345)
        .unwrap();

    assert_eq!(pkt.payload().len(), need);
    assert_eq!(pkt.data_size(), need);
    assert_eq!(pkt.timestamp(), 12345);
}

#[test]
fn packet_validate_rejects_empty_endpoints_and_size_mismatch() {
    let ty = DataType::GpsData;
    let need = test_payload_len_for(ty);

    let err = TelemetryPacket::new(ty, &[], "x", 0, &vec![0u8; need]).unwrap_err();
    assert!(matches!(err, TelemetryError::EmptyEndpoints));

    let err = TelemetryPacket::new(ty, &[DataEndpoint::SdCard], "x", 0, &vec![0u8; need + 1]).unwrap_err();
    assert!(matches!(err, TelemetryError::SizeMismatch { .. }));
}

#[test]
fn enum_conversion_bounds_and_rejections() {
    let max_ty = MAX_VALUE_DATA_TYPE;
    assert!(DataType::try_from_u32(max_ty).is_some());
    assert!(DataType::try_from_u32(max_ty + 1).is_none());

    let max_ep = MAX_VALUE_DATA_ENDPOINT;
    assert!(DataEndpoint::try_from_u32(max_ep).is_some());
    assert!(DataEndpoint::try_from_u32(max_ep + 1).is_none());

    let min = TelemetryErrorCode::MIN;
    let max = TelemetryErrorCode::MAX;
    assert!(TelemetryErrorCode::try_from_i32(min).is_some());
    assert!(TelemetryErrorCode::try_from_i32(max).is_some());
    assert!(TelemetryErrorCode::try_from_i32(min - 1).is_none());
    assert!(TelemetryErrorCode::try_from_i32(max + 1).is_none());
}

#[test]
fn encode_slice_le_u16_and_f64() {
    let vals16 = [0x0102u16, 0xA1B2];
    let got = encode_slice_le(&vals16);
    let mut exp = Vec::new();
    for v in vals16 {
        exp.extend_from_slice(&v.to_le_bytes());
    }
    assert_eq!(&*got, &exp);

    let vals64 = [1.5f64, -2.25];
    let bits: Vec<u64> = vals64.iter().map(|v| v.to_bits()).collect();
    let got = encode_slice_le(&bits);
    let mut exp = Vec::new();
    for v in vals64 {
        exp.extend_from_slice(&v.to_le_bytes());
    }
    assert_eq!(&*got, &exp);
}

#[test]
fn header_string_of_gps_packet() {
    let pkt = fake_telemetry_packet_bytes();
    assert_eq!(
        pkt.header_string(),
        "Type: GPS_DATA, Data Size: 8, Sender: TEST_PLATFORM, Endpoints: [SD_CARD, GROUND_STATION], Timestamp: 1123581321 (312h 06m 21s 321ms)"
    );
}

#[test]
fn static_payload_of_wrong_size_is_refused_with_sizes() {
    let err = TelemetryPacket::new(DataType::GpsData, &[DataEndpoint::SdCard], "x", 0, &[0u8; 4]).unwrap_err();
    assert_eq!(err, TelemetryError::SizeMismatch { expected: 2, got: 4 });
}

#[test]
fn string_payload_must_be_utf8() {
    let err = TelemetryPacket::new(DataType::MessageData, &[DataEndpoint::SdCard], "x", 0, &[0xFF, 0xFE]).unwrap_err();
    assert_eq!(err, TelemetryError::InvalidUtf8);
}

#[test]
fn packet_id_ignores_endpoint_order_and_repeats() {
    let a = TelemetryPacket::new(DataType::MessageData, &[DataEndpoint::Radio, DataEndpoint::SdCard], "n", 5, b"hi").unwrap();
    let b = TelemetryPacket::new(DataType::MessageData, &[DataEndpoint::SdCard, DataEndpoint::Radio, DataEndpoint::SdCard], "n", 5, b"hi").unwrap();
    let c = TelemetryPacket::new(DataType::MessageData, &[DataEndpoint::SdCard, DataEndpoint::Radio], "n", 6, b"hi").unwrap();
    assert_eq!(a.packet_id(), b.packet_id());
    assert_ne!(a.packet_id(), c.packet_id());
}

#[test]
fn error_codes_have_fixed_numbers() {
    assert_eq!(TelemetryError::InvalidType.to_error_code().to_i32(), -3);
    assert_eq!(TelemetryError::Io("x").to_error_code().to_i32(), -13);
    assert_eq!(TelemetryErrorCode::try_from_i32(-9), Some(TelemetryErrorCode::HandlerError));
    assert_eq!(TelemetryErrorCode::try_from_i32(-2), None);
}

#[test]
fn serialize_roundtrip_gps() {
    let endpoints = &[DataEndpoint::SdCard, DataEndpoint::GroundStation];
    let pkt = TelemetryPacket::from_f32_bits_slice(
        DataType::GpsData,
        &f32_bits(&[5.2141414, 3.1342144]),
        endpoints,
        0,
    )
    .unwrap();

    pkt.validate().unwrap();

    let bytes = serialize::serialize_packet(&pkt);
    let rpkt = serialize::deserialize_packet(&bytes).unwrap();

    rpkt.validate().unwrap();
    assert_eq!(rpkt.data_type(), pkt.data_type());
    assert_eq!(rpkt.data_size(), pkt.data_size());
    assert_eq!(rpkt.timestamp(), pkt.timestamp());
    assert_eq!(&*rpkt.endpoints(), &*pkt.endpoints());
    assert_eq!(&*rpkt.payload(), &*pkt.payload());
}

#[test]
fn header_string_matches_expectation() {
    let endpoints = &[DataEndpoint::SdCard, DataEndpoint::GroundStation];
    let pkt = TelemetryPacket::from_f32_bits_slice(DataType::GpsData, &f32_bits(&[1.0, 2.0]), endpoints, 0)
        .unwrap();
    let s = pkt.header_string();
    assert_eq!(
        s,
        "Type: GPS_DATA, Data Size: 8, Sender: TEST_PLATFORM, Endpoints: [SD_CARD, GROUND_STATION], Timestamp: 0 (0s 000ms)"
    );
}

#[test]
fn packet_to_string_formats_floats() {
    let endpoints = &[DataEndpoint::SdCard, DataEndpoint::GroundStation];
    let vals = [1.0_f32, 2.5];
    let pkt = TelemetryPacket::from_f32_bits_slice(DataType::GpsData, &f32_bits(&vals), endpoints, 0)
        .unwrap();
    let rendered: Vec<String> = vals.iter().map(|v| format!("{v}")).collect();

    let text = pkt.to_string(&rendered);
    assert!(text.starts_with(
        "{Type: GPS_DATA, Data Size: 8, Sender: TEST_PLATFORM, Endpoints: [SD_CARD, GROUND_STATION], Timestamp: 0 (0s 000ms), Data: "
    ));
    assert!(text.contains("1"));
    assert!(text.contains("2.5"));
}

#[test]
fn header_size_is_prefix_of_wire_image() {
    let pkt = TelemetryPacket::from_f32_bits_slice(
        DataType::GpsData,
        &f32_bits(&[1.0, 2.0]),
        &[DataEndpoint::SdCard, DataEndpoint::GroundStation],
        123,
    )
    .unwrap();

    let wire = serialize::serialize_packet(&pkt);
    let hdr = serialize::header_size_bytes(&pkt);
    assert!(hdr <= wire.len());
    assert!(hdr > 0);
}

#[test]
fn corrupt_endpoint_bits_yields_bad_endpoint_error() {
    let bits = 32 - MAX_VALUE_DATA_ENDPOINT.leading_zeros();
    let ep_bits: u8 = if bits == 0 { 1 } else { bits as u8 };
    let upper_val = (1u64 << ep_bits) - 1;
    if upper_val as u32 <= MAX_VALUE_DATA_ENDPOINT {
        return;
    }

    let pkt = TelemetryPacket::from_f32_bits_slice(
        DataType::GpsData,
        &f32_bits(&[1.0, 2.0]),
        &[DataEndpoint::SdCard],
        123,
    )
    .unwrap();
    let mut wire = serialize::serialize_packet(&pkt).to_vec();

    let ep_offset = serialize::header_size_bytes(&pkt);
    assert!(ep_offset < wire.len());

    let mut v = upper_val;
    let mut bitpos = 0usize;
    for _ in 0..ep_bits {
        let byte_idx = ep_offset + (bitpos / 8);
        let bit_off = bitpos % 8;
        if (v & 1) != 0 {
            wire[byte_idx] |= 1 << bit_off;
        } else {
            wire[byte_idx] &= !(1 << bit_off);
        }
        v >>= 1;
        bitpos += 1;
    }

    let err = serialize::deserialize_packet(&wire).unwrap_err();
    match err {
        TelemetryError::Deserialize(msg) if msg.contains("endpoint") => {}
        other => panic!("expected bad endpoint deserialize error, got {other:?}"),
    }
}

#[test]
fn header_size_is_prefix_and_less_than_total() {
    let pkt = TelemetryPacket::from_f32_bits_slice(
        DataType::GpsData,
        &f32_bits(&[1.0, 2.0]),
        &[DataEndpoint::SdCard, DataEndpoint::GroundStation],
        999,
    )
    .unwrap();

    let wire = serialize::serialize_packet(&pkt);
    let hdr = serialize::header_size_bytes(&pkt);

    assert!(hdr > 0 && hdr < wire.len());
    assert_eq!(serialize::packet_wire_size(&pkt), wire.len());
}

#[test]
fn deserialize_header_only_then_full_parse_matches() {
    let endpoints = &[DataEndpoint::SdCard, DataEndpoint::GroundStation];
    let pkt = TelemetryPacket::from_f32_bits_slice(DataType::GpsData, &f32_bits(&[5.25_f32, 3.5]), endpoints, 42)
        .unwrap();
    let wire = serialize::serialize_packet(&pkt);

    let env = serialize::peek_envelope(&wire).unwrap();
    assert_eq!(env.ty, pkt.data_type());
    assert_eq!(&*env.endpoints, &*pkt.endpoints());
    assert_eq!(env.sender.as_str(), pkt.sender());
    assert_eq!(env.timestamp_ms, pkt.timestamp());

    let round = serialize::deserialize_packet(&wire).unwrap();
    round.validate().unwrap();
    assert_eq!(round.data_type(), pkt.data_type());
    assert_eq!(round.data_size(), pkt.data_size());
    assert_eq!(round.timestamp(), pkt.timestamp());
    assert_eq!(&*round.endpoints(), &*pkt.endpoints());
    assert_eq!(&*round.payload(), &*pkt.payload());
}

#[test]
fn packet_wire_size_matches_serialized_len() {
    let endpoints = &[DataEndpoint::SdCard, DataEndpoint::GroundStation];
    let pkt = TelemetryPacket::from_f32_bits_slice(DataType::GpsData, &f32_bits(&[1.0, 2.0]), endpoints, 9)
        .unwrap();
    let need = serialize::packet_wire_size(&pkt);
    let out = serialize::serialize_packet(&pkt);
    assert_eq!(need, out.len());
}

#[test]
fn serialize_packet_is_order_invariant_for_endpoints() {
    let eps_a = &[DataEndpoint::GroundStation, DataEndpoint::SdCard];
    let eps_b = &[DataEndpoint::SdCard, DataEndpoint::GroundStation];

    let pkt_a = TelemetryPacket::from_f32_bits_slice(DataType::GpsData, &f32_bits(&[1.0, 2.0]), eps_a, 0).unwrap();
    let pkt_b = TelemetryPacket::from_f32_bits_slice(DataType::GpsData, &f32_bits(&[1.0, 2.0]), eps_b, 0).unwrap();

    let wa = serialize::serialize_packet(&pkt_a);
    let wb = serialize::serialize_packet(&pkt_b);

    assert_eq!(wa, wb, "endpoint order must not affect serialized bytes");
}

#[test]
fn test_payload_len_for_respects_element_width() {
    for i in 0..=MAX_VALUE_DATA_TYPE {
        if let Some(ty) = DataType::try_from_u32(i) {
            let len = test_payload_len_for(ty);
            assert!(len > 0, "test payload length must be > 0 for {ty:?}");

            match get_data_type(ty) {
                MessageDataType::String | MessageDataType::Binary => {
                    assert!(len >= 1, "string/hex must have at least 1 byte for {ty:?}");
                }
                kind => {
                    let width = element_width(kind);
                    assert_eq!(
                        len % width,
                        0,
                        "test payload length {len} not multiple of element width {width} for {ty:?}"
                    );
                }
            }
        }
    }
}
