//! Telemetry packet core type, validation and text rendering.
use vstd::prelude::*;
use vstd::arithmetic::power::pow;
use vstd::slice::{slice_subrange, slice_to_vec};
use vstd::string::StringSliceAdditionalSpecFns;

use crate::config::{
    canonical_endpoints, spec_canonical_endpoints, spec_message_element, spec_message_name,
    DataEndpoint, DataType, DEVICE_IDENTIFIER,
};
use crate::le_bytes::{hash_bytes_u64, le_bytes, le_value, spec_hash_bytes, lemma_hash_concat, HASH_SEED};
use crate::queue::ByteCost;
use crate::text::{
    civil_from_days, chars_to_string, decimal_chars, digits_value, hex_byte_chars, hex_value, lemma_hex_byte_readback, lemma_decimal_readback, lemma_padded_readback, lemma_padded_value,
    padded_decimal_chars, push_hex_byte, push_str, push_u128, push_u64, push_u64_padded, signed_decimal_chars,
    spec_civil_from_days, str_from_utf8,
};
use crate::{
    get_data_type, get_info_type, get_message_meta, get_needed_message_size,
    spec_get_data_type, spec_needed_message_size, MessageClass,
    MessageDataType, MessageElement, TelemetryError, TelemetryResult,
};

verus! {

/// Timestamps at or above this many milliseconds are rendered as UTC
/// date-times; smaller ones as uptime durations.
pub const EPOCH_MS_THRESHOLD: u64 = 1_000_000_000_000;

/// Fixed part of the queue cost of a packet.
pub const PACKET_BASE_COST: usize = 64;

/// Mathematical model of a packet.
pub struct PacketModel {
    /// Logical message type.
    pub ty: DataType,
    /// Cached payload size.
    pub data_size: nat,
    /// Sender identifier.
    pub sender: Seq<char>,
    /// Destination endpoints, as given.
    pub endpoints: Seq<DataEndpoint>,
    /// Timestamp in milliseconds.
    pub timestamp: u64,
    /// Raw payload bytes.
    pub payload: Seq<u8>,
}

/// Element width used when checking dynamic payload lengths (1 for strings
/// and binary blobs, 0 for `NoData`).
pub open spec fn spec_element_width(dt: MessageDataType) -> nat {
    match dt {
        MessageDataType::UInt8 | MessageDataType::Int8 | MessageDataType::Bool => 1,
        MessageDataType::UInt16 | MessageDataType::Int16 => 2,
        MessageDataType::UInt32 | MessageDataType::Int32 | MessageDataType::Float32 => 4,
        MessageDataType::UInt64 | MessageDataType::Int64 | MessageDataType::Float64 => 8,
        MessageDataType::UInt128 | MessageDataType::Int128 => 16,
        MessageDataType::String | MessageDataType::Binary => 1,
        MessageDataType::NoData => 0,
    }
}

fn element_width(dt: MessageDataType) -> (r: usize)
    ensures
        r == spec_element_width(dt),
{
    match dt {
        MessageDataType::UInt8 | MessageDataType::Int8 | MessageDataType::Bool => 1,
        MessageDataType::UInt16 | MessageDataType::Int16 => 2,
        MessageDataType::UInt32 | MessageDataType::Int32 | MessageDataType::Float32 => 4,
        MessageDataType::UInt64 | MessageDataType::Int64 | MessageDataType::Float64 => 8,
        MessageDataType::UInt128 | MessageDataType::Int128 => 16,
        MessageDataType::String | MessageDataType::Binary => 1,
        MessageDataType::NoData => 0,
    }
}

/// Length of `b` without its trailing NUL bytes.
pub open spec fn trim_nul_len(b: Seq<u8>) -> nat
    decreases b.len(),
{
    if b.len() == 0 {
        0
    } else if b.last() != 0 {
        b.len()
    } else {
        trim_nul_len(b.drop_last())
    }
}

proof fn lemma_trim_nul_len_bound(b: Seq<u8>)
    ensures
        trim_nul_len(b) <= b.len(),
        trim_nul_len(b) > 0 ==> b[trim_nul_len(b) - 1] != 0,
        forall|i: int| trim_nul_len(b) <= i < b.len() ==> b[i] == 0,
    decreases b.len(),
{
    if b.len() > 0 && b.last() == 0 {
        lemma_trim_nul_len_bound(b.drop_last());
        assert forall|i: int| trim_nul_len(b) <= i < b.len() implies b[i] == 0 by {
            if i < b.len() - 1 {
                assert(b.drop_last()[i] == b[i]);
            }
        }
    }
}

/// Length of `b` without trailing NUL bytes.
fn trailing_nul_trim(b: &[u8]) -> (r: usize)
    ensures
        r == trim_nul_len(b@),
{
    let mut end = b.len();
    assert(b@.take(end as int) =~= b@);
    while end > 0 && b[end - 1] == 0
        invariant
            end <= b.len(),
            trim_nul_len(b@.take(end as int)) == trim_nul_len(b@),
        decreases end,
    {
        proof {
            let t = b@.take(end as int);
            assert(t.last() == 0);
            assert(t.drop_last() =~= b@.take(end - 1));
        }
        end = end - 1;
    }
    proof {
        let t = b@.take(end as int);
        if end > 0 {
            assert(t.last() == b@[end - 1]);
            assert(t.last() != 0);
            assert(trim_nul_len(t) == t.len());
        } else {
            assert(t.len() == 0);
        }
    }
    end
}

/// Validation of a dynamic-length payload: strings must be UTF-8 once
/// trailing NULs are trimmed, binary blobs are free, and numeric payloads
/// must be a whole number of elements.
pub open spec fn spec_dynamic_check(ty: DataType, b: Seq<u8>) -> TelemetryResult<()> {
    let dt = spec_get_data_type(ty);
    if dt == MessageDataType::String {
        let e = trim_nul_len(b);
        if e > 0 && !vstd::utf8::valid_utf8(b.take(e as int)) {
            Err(TelemetryError::InvalidUtf8)
        } else {
            Ok(())
        }
    } else if dt == MessageDataType::Binary {
        Ok(())
    } else {
        let w = spec_element_width(dt);
        if w == 0 || b.len() % w != 0 {
            Err(TelemetryError::SizeMismatch { expected: w as usize, got: b.len() as usize })
        } else {
            Ok(())
        }
    }
}

/// Validation of a payload against the schema of `ty`.
pub open spec fn spec_payload_check(ty: DataType, b: Seq<u8>) -> TelemetryResult<()> {
    match spec_message_element(ty) {
        MessageElement::Static(need, _, _) => {
            if b.len() != spec_needed_message_size(ty) {
                Err(TelemetryError::SizeMismatch { expected: need, got: b.len() as usize })
            } else {
                Ok(())
            }
        },
        MessageElement::Dynamic(_, _) => spec_dynamic_check(ty, b),
    }
}

/// A packet satisfies the schema: it has endpoints, its cached size is the
/// payload length, and the payload fits the data type.
pub open spec fn spec_valid(p: PacketModel) -> bool {
    &&& p.endpoints.len() > 0
    &&& p.data_size == p.payload.len()
    &&& spec_payload_check(p.ty, p.payload) is Ok
}

/// What `TelemetryPacket::new` returns for the given inputs.
pub open spec fn spec_new(
    ty: DataType,
    eps: Seq<DataEndpoint>,
    sender: Seq<char>,
    ts: u64,
    payload: Seq<u8>,
) -> TelemetryResult<PacketModel> {
    if eps.len() == 0 {
        Err(TelemetryError::EmptyEndpoints)
    } else {
        match spec_payload_check(ty, payload) {
            Err(e) => Err(e),
            Ok(_) => Ok(
                PacketModel {
                    ty,
                    data_size: payload.len(),
                    sender,
                    endpoints: eps,
                    timestamp: ts,
                    payload,
                },
            ),
        }
    }
}

fn validate_dynamic_len_and_content(ty: DataType, bytes: &[u8]) -> (r: TelemetryResult<()>)
    ensures
        r == spec_dynamic_check(ty, bytes@),
{
    let dt = get_data_type(ty);
    match dt {
        MessageDataType::String => {
            let end = trailing_nul_trim(bytes);
            if end > 0 {
                proof {
                    lemma_trim_nul_len_bound(bytes@);
                }
                let head = slice_subrange(bytes, 0, end);
                assert(head@ =~= bytes@.take(end as int));
                match str_from_utf8(head) {
                    Some(_) => {},
                    None => {
                        return Err(TelemetryError::InvalidUtf8);
                    },
                }
            }
            Ok(())
        },
        MessageDataType::Binary => Ok(()),
        _ => {
            let w = element_width(dt);
            if w == 0 || bytes.len() % w != 0 {
                return Err(TelemetryError::SizeMismatch { expected: w, got: bytes.len() });
            }
            Ok(())
        },
    }
}

fn validate_payload(ty: DataType, bytes: &[u8]) -> (r: TelemetryResult<()>)
    ensures
        r == spec_payload_check(ty, bytes@),
{
    let meta = get_message_meta(ty);
    match meta.element {
        MessageElement::Static(need, _, _) => {
            if bytes.len() != get_needed_message_size(ty) {
                return Err(TelemetryError::SizeMismatch { expected: need, got: bytes.len() });
            }
            Ok(())
        },
        MessageElement::Dynamic(_, _) => validate_dynamic_len_and_content(ty, bytes),
    }
}

/// `n` 32-bit values cannot fill the static payload of `ty`.
pub open spec fn f32_count_mismatch(ty: DataType, n: nat) -> bool {
    match spec_message_element(ty) {
        MessageElement::Static(exact, _, _) => n * 4 != exact * 4,
        _ => false,
    }
}

/// Payload-bearing packet, always valid against the schema.
#[derive(Debug)]
pub struct TelemetryPacket {
    ty: DataType,
    data_size: usize,
    sender: String,
    endpoints: Vec<DataEndpoint>,
    timestamp: u64,
    payload: Vec<u8>,
}

impl View for TelemetryPacket {
    type V = PacketModel;

    closed spec fn view(&self) -> PacketModel {
        PacketModel {
            ty: self.ty,
            data_size: self.data_size as nat,
            sender: self.sender@,
            endpoints: self.endpoints@,
            timestamp: self.timestamp,
            payload: self.payload@,
        }
    }
}

/// Result of a packet constructor, viewed through the packet model.
pub open spec fn view_result(r: TelemetryResult<TelemetryPacket>) -> TelemetryResult<PacketModel> {
    match r {
        Ok(p) => Ok(p@),
        Err(e) => Err(e),
    }
}

impl TelemetryPacket {
    #[verifier::type_invariant]
    spec fn inv(&self) -> bool {
        spec_valid(self@)
    }

    /// Create a packet, validating endpoints and payload against the schema:
    /// no endpoints gives `EmptyEndpoints`; a static type whose payload is not
    /// exactly its static size gives `SizeMismatch` (expected = element
    /// count); a dynamic type is checked by element width or UTF-8.
    pub fn new(
        ty: DataType,
        endpoints: &[DataEndpoint],
        sender: &str,
        timestamp: u64,
        payload: &[u8],
    ) -> (r: TelemetryResult<Self>)
        ensures
            view_result(r) == spec_new(ty, endpoints@, sender@, timestamp, payload@),
    {
        if endpoints.len() == 0 {
            return Err(TelemetryError::EmptyEndpoints);
        }
        match validate_payload(ty, payload) {
            Err(e) => Err(e),
            Ok(_) => Ok(
                TelemetryPacket {
                    ty,
                    data_size: payload.len(),
                    sender: sender.to_owned(),
                    endpoints: slice_to_vec(endpoints),
                    timestamp,
                    payload: slice_to_vec(payload),
                },
            ),
        }
    }

    /// Create a packet from raw bytes, with this device as the sender.
    pub fn from_u8_slice(
        ty: DataType,
        bytes: &[u8],
        endpoints: &[DataEndpoint],
        timestamp: u64,
    ) -> (r: TelemetryResult<Self>)
        ensures
            view_result(r) == spec_new(ty, endpoints@, DEVICE_IDENTIFIER@, timestamp, bytes@),
    {
        Self::new(ty, endpoints, DEVICE_IDENTIFIER, timestamp, bytes)
    }

    /// Create a packet from 32-bit float bit patterns (little-endian), with
    /// this device as the sender. For a static type the element count is
    /// checked first: `SizeMismatch { expected: count, got: 4 * len }`.
    pub fn from_f32_bits_slice(
        ty: DataType,
        bits: &[u32],
        endpoints: &[DataEndpoint],
        timestamp: u64,
    ) -> (r: TelemetryResult<Self>)
        requires
            bits@.len() * 4 <= usize::MAX,
        ensures
            f32_count_mismatch(ty, bits@.len()) ==> view_result(r) == Err::<PacketModel, TelemetryError>(
                TelemetryError::SizeMismatch {
                    expected: spec_message_element(ty).spec_count(),
                    got: (bits@.len() * 4) as usize,
                },
            ),
            !f32_count_mismatch(ty, bits@.len()) ==> view_result(r) == spec_new(
                ty,
                endpoints@,
                DEVICE_IDENTIFIER@,
                timestamp,
                crate::le_bytes::spec_encode_le(bits@),
            ),
    {
        let need = bits.len() * 4;
        let meta = get_message_meta(ty);
        match meta.element {
            MessageElement::Static(exact, _, _) => {
                if need != exact * 4 {
                    return Err(TelemetryError::SizeMismatch { expected: exact, got: need });
                }
            },
            _ => {},
        }
        let bytes = crate::le_bytes::encode_slice_le(bits);
        Self::new(ty, endpoints, DEVICE_IDENTIFIER, timestamp, bytes.as_slice())
    }

    /// Check the packet invariants; a constructed packet always passes.
    pub fn validate(&self) -> (r: TelemetryResult<()>)
        ensures
            r is Ok,
            spec_valid(self@),
    {
        proof {
            use_type_invariant(self);
        }
        if self.endpoints.len() == 0 {
            return Err(TelemetryError::EmptyEndpoints);
        }
        if self.payload.len() != self.data_size {
            return Err(
                TelemetryError::SizeMismatch { expected: self.data_size, got: self.payload.len() },
            );
        }
        validate_payload(self.ty, self.payload.as_slice())
    }

    /// The message data type.
    pub fn data_type(&self) -> (r: DataType)
        ensures
            r == self@.ty,
    {
        self.ty
    }

    /// The sender identifier.
    pub fn sender(&self) -> (r: &str)
        ensures
            r@ == self@.sender,
    {
        self.sender.as_str()
    }

    /// The destination endpoints, as given at construction.
    pub fn endpoints(&self) -> (r: &[DataEndpoint])
        ensures
            r@ == self@.endpoints,
    {
        self.endpoints.as_slice()
    }

    /// The timestamp in milliseconds.
    pub fn timestamp(&self) -> (r: u64)
        ensures
            r == self@.timestamp,
    {
        self.timestamp
    }

    /// The payload size in bytes.
    pub fn data_size(&self) -> (r: usize)
        ensures
            r == self@.data_size,
            r == self@.payload.len(),
    {
        proof {
            use_type_invariant(self);
        }
        self.data_size
    }

    /// The raw payload bytes.
    pub fn payload(&self) -> (r: &[u8])
        ensures
            r@ == self@.payload,
    {
        self.payload.as_slice()
    }

    /// The payload as UTF-8 with trailing NULs trimmed; `None` unless the data
    /// type is a string, the trimmed payload is non-empty and valid UTF-8.
    pub fn data_as_utf8_ref(&self) -> (r: Option<&str>)
        ensures
            r is Some <==> (spec_get_data_type(self@.ty) == MessageDataType::String
                && trim_nul_len(self@.payload) > 0 && vstd::utf8::valid_utf8(
                self@.payload.take(trim_nul_len(self@.payload) as int),
            )),
            r matches Some(s) ==> s.spec_bytes() == self@.payload.take(
                trim_nul_len(self@.payload) as int,
            ),
    {
        match get_data_type(self.ty) {
            MessageDataType::String => {},
            _ => {
                return None;
            },
        }
        let bytes = self.payload.as_slice();
        let end = trailing_nul_trim(bytes);
        if end == 0 {
            return None;
        }
        proof {
            lemma_trim_nul_len_bound(bytes@);
        }
        let head = slice_subrange(bytes, 0, end);
        assert(head@ =~= bytes@.take(end as int));
        str_from_utf8(head)
    }

    /// Header-only text, e.g.
    /// `Type: GPS_DATA, Data Size: 8, Sender: dev0, Endpoints: [SD_CARD], Timestamp: 1234 (1s 234ms)`.
    pub fn header_string(&self) -> (r: String)
        ensures
            r@ == spec_header(self@),
    {
        let mut out: Vec<char> = Vec::new();
        self.push_header(&mut out);
        chars_to_string(out)
    }

    fn push_header(&self, out: &mut Vec<char>)
        ensures
            final(out)@ == old(out)@ + spec_header(self@),
    {
        let ghost start = out@;
        push_str(out, "Type: ");
        push_str(out, self.ty.as_str());
        push_str(out, ", Data Size: ");
        push_u64(out, self.data_size as u64);
        push_str(out, ", Sender: ");
        push_str(out, self.sender.as_str());
        push_str(out, ", Endpoints: [");
        push_endpoint_names(out, self.endpoints.as_slice());
        push_str(out, "], Timestamp: ");
        push_u64(out, self.timestamp);
        push_str(out, " (");
        push_human_time(out, self.timestamp);
        push_str(out, ")");
        proof {
            assert(out@ =~= start + spec_header(self@));
        }
    }

    /// Hex dump text: the header, then `, Data (hex):` and ` 0xNN` per byte.
    pub fn to_hex_string(&self) -> (r: String)
        ensures
            r@ == spec_hex_string(self@),
    {
        let mut out: Vec<char> = Vec::new();
        self.push_header(&mut out);
        push_str(&mut out, ", Data (hex):");
        let ghost mid = out@;
        let mut i: usize = 0;
        while i < self.payload.len()
            invariant
                i <= self.payload@.len(),
                out@ == mid + hex_dump(self.payload@.take(i as int)),
            decreases self.payload@.len() - i,
        {
            push_str(&mut out, " 0x");
            push_hex_byte(&mut out, self.payload[i]);
            proof {
                assert(self.payload@.take(i + 1).drop_last() =~= self.payload@.take(i as int));
                assert(self.payload@.take(i + 1).last() == self.payload@[i as int]);
                assert(out@ =~= mid + hex_dump(self.payload@.take(i + 1)));
            }
            i = i + 1;
        }
        proof {
            assert(self.payload@.take(self.payload@.len() as int) =~= self.payload@);
        }
        chars_to_string(out)
    }

    /// Full text including decoded data. Strings are quoted, numbers and
    /// booleans are comma separated, binary payloads use the hex dump, and
    /// float payloads show `float_elems` (their renderings, supplied by the
    /// caller) comma separated.
    pub fn to_string(&self, float_elems: &[String]) -> (r: String)
        ensures
            r@ == spec_to_string(self@, float_elems@.map_values(|s: String| s@)),
    {
        let ghost floats = float_elems@.map_values(|s: String| s@);
        let dt = get_data_type(self.ty);
        match dt {
            MessageDataType::Binary => {
                if self.payload.len() != 0 {
                    return self.to_hex_string();
                }
            },
            _ => {},
        }
        let mut out: Vec<char> = Vec::new();
        push_str(&mut out, "{");
        self.push_header(&mut out);
        let ghost head = "{"@ + spec_header(self@);
        assert(out@ =~= head);
        if self.payload.len() == 0 {
            push_str(&mut out, ", Data: (<empty>)}");
            assert(out@ =~= head + ", Data: (<empty>)}"@);
            return chars_to_string(out);
        }
        let ghost open = if spec_message_element(self.ty).spec_message_type() == MessageClass::Error {
            ", Error: ("@
        } else {
            ", Data: ("@
        };
        match get_info_type(self.ty) {
            MessageClass::Error => push_str(&mut out, ", Error: ("),
            _ => push_str(&mut out, ", Data: ("),
        }
        assert(out@ =~= head + open);
        match self.data_as_utf8_ref() {
            Some(msg) => {
                push_str(&mut out, "\"");
                push_str(&mut out, msg);
                push_str(&mut out, "\")}");
                proof {
                    vstd::utf8::encode_utf8_decode_utf8(msg@);
                    assert(out@ =~= head + open + "\""@ + msg@ + "\")}"@);
                }
                return chars_to_string(out);
            },
            None => {},
        }
        let ghost mid = out@;
        match dt {
            MessageDataType::Float64 | MessageDataType::Float32 => {
                push_joined(&mut out, float_elems);
            },
            MessageDataType::Bool => {
                push_bools(&mut out, self.payload.as_slice());
            },
            MessageDataType::UInt128 | MessageDataType::UInt64 | MessageDataType::UInt32
            | MessageDataType::UInt16 => {
                push_ints(&mut out, self.payload.as_slice(), element_width(dt), false);
            },
            MessageDataType::UInt8 | MessageDataType::Int8 | MessageDataType::Int16
            | MessageDataType::Int32 | MessageDataType::Int64 | MessageDataType::Int128 => {
                push_ints(&mut out, self.payload.as_slice(), element_width(dt), true);
            },
            _ => {},
        }
        push_str(&mut out, ")}");
        proof {
            let body = if dt == MessageDataType::Float64 || dt == MessageDataType::Float32 {
                join_items(floats)
            } else if dt == MessageDataType::Bool {
                join_items(bool_items(self@.payload))
            } else if dt == MessageDataType::UInt128 || dt == MessageDataType::UInt64 || dt
                == MessageDataType::UInt32 || dt == MessageDataType::UInt16 {
                join_items(int_items(self@.payload, spec_element_width(dt), false))
            } else if dt == MessageDataType::UInt8 || dt == MessageDataType::Int8 || dt
                == MessageDataType::Int16 || dt == MessageDataType::Int32 || dt
                == MessageDataType::Int64 || dt == MessageDataType::Int128 {
                join_items(int_items(self@.payload, spec_element_width(dt), true))
            } else {
                Seq::empty()
            };
            assert(out@ =~= head + open + body + ")}"@);
        }
        chars_to_string(out)
    }

    /// Stable 64-bit identifier of the packet: the byte hash of the sender,
    /// the type name, the distinct endpoint names in discriminant order, the
    /// timestamp and size (little-endian) and the payload.
    pub fn packet_id(&self) -> (r: u64)
        ensures
            r == spec_packet_id(self@),
    {
        let mut h = HASH_SEED;
        h = hash_bytes_u64(h, self.sender.as_str().as_bytes());
        h = hash_bytes_u64(h, self.ty.as_str().as_bytes());
        let eps = canonical_endpoints(self.endpoints.as_slice());
        h = hash_endpoint_names(h, eps.as_slice());
        let mut ts: Vec<u8> = Vec::new();
        crate::le_bytes::LeBytes::write_le(self.timestamp, &mut ts);
        h = hash_bytes_u64(h, ts.as_slice());
        let mut ds: Vec<u8> = Vec::new();
        crate::le_bytes::LeBytes::write_le(self.data_size as u64, &mut ds);
        h = hash_bytes_u64(h, ds.as_slice());
        h = hash_bytes_u64(h, self.payload.as_slice());
        proof {
            assert(ts@ =~= le_bytes(self.timestamp as nat, 8));
            assert(ds@ =~= le_bytes(self.data_size as nat, 8));
            let a = self@.sender_bytes();
            let b = spec_message_name(self.ty).spec_bytes();
            let c = endpoint_name_bytes(spec_canonical_endpoints(self@.endpoints));
            let d = le_bytes(self.timestamp as nat, 8);
            let e = le_bytes(self.data_size as nat, 8);
            let f = self@.payload;
            lemma_hash_concat(HASH_SEED, a, b);
            lemma_hash_concat(HASH_SEED, a + b, c);
            lemma_hash_concat(HASH_SEED, a + b + c, d);
            lemma_hash_concat(HASH_SEED, a + b + c + d, e);
            lemma_hash_concat(HASH_SEED, a + b + c + d + e, f);
            assert(packet_id_input(self@) == a + b + c + d + e + f);
        }
        h
    }
}

impl Clone for TelemetryPacket {
    fn clone(&self) -> (r: Self)
        ensures
            r@ == self@,
    {
        proof {
            use_type_invariant(self);
        }
        TelemetryPacket {
            ty: self.ty,
            data_size: self.data_size,
            sender: self.sender.clone(),
            endpoints: slice_to_vec(self.endpoints.as_slice()),
            timestamp: self.timestamp,
            payload: slice_to_vec(self.payload.as_slice()),
        }
    }
}

/// `a + b`, capped at `usize::MAX`.
pub open spec fn sat_add(a: nat, b: nat) -> nat {
    if a + b > usize::MAX {
        usize::MAX as nat
    } else {
        a + b
    }
}

/// Queue cost of a packet: a fixed part plus its sender, endpoint and
/// payload lengths, capped at `usize::MAX`.
pub open spec fn spec_packet_cost(p: PacketModel) -> nat {
    sat_add(
        sat_add(sat_add(PACKET_BASE_COST as nat, p.sender_bytes().len()), p.endpoints.len()),
        p.payload.len(),
    )
}

impl ByteCost for TelemetryPacket {
    open spec fn spec_byte_cost(&self) -> nat {
        spec_packet_cost(self@)
    }

    fn byte_cost(&self) -> (r: usize) {
        let s = self.sender.as_str().as_bytes().len();
        let c1 = PACKET_BASE_COST.saturating_add(s);
        assert(c1 == sat_add(PACKET_BASE_COST as nat, self@.sender_bytes().len()));
        let c2 = c1.saturating_add(self.endpoints.len());
        assert(c2 == sat_add(c1 as nat, self@.endpoints.len()));
        let c3 = c2.saturating_add(self.payload.len());
        assert(c3 == sat_add(c2 as nat, self@.payload.len()));
        assert(c3 == spec_packet_cost(self@));
        assert(c3 == self.spec_byte_cost());
        c3
    }
}

// ---------------------------------------------------------------------------
// Text specifications
// ---------------------------------------------------------------------------

/// Endpoint names separated by `, `.
pub open spec fn endpoint_names(eps: Seq<DataEndpoint>) -> Seq<char>
    decreases eps.len(),
{
    if eps.len() == 0 {
        Seq::empty()
    } else if eps.len() == 1 {
        eps[0].spec_name()@
    } else {
        endpoint_names(eps.drop_last()) + ", "@ + eps.last().spec_name()@
    }
}

fn push_endpoint_names(out: &mut Vec<char>, eps: &[DataEndpoint])
    ensures
        final(out)@ == old(out)@ + endpoint_names(eps@),
{
    let ghost start = out@;
    let mut i: usize = 0;
    assert(eps@.take(0) =~= Seq::<DataEndpoint>::empty());
    while i < eps.len()
        invariant
            i <= eps.len(),
            out@ == start + endpoint_names(eps@.take(i as int)),
        decreases eps.len() - i,
    {
        if i != 0 {
            push_str(out, ", ");
        }
        push_str(out, eps[i].as_str());
        proof {
            assert(eps@.take(i + 1).drop_last() =~= eps@.take(i as int));
            assert(eps@.take(i + 1).last() == eps@[i as int]);
            if i == 0 {
                assert(eps@.take(1)[0] == eps@[0]);
            }
            assert(out@ =~= start + endpoint_names(eps@.take(i + 1)));
        }
        i = i + 1;
    }
    assert(eps@.take(eps@.len() as int) =~= eps@);
}

/// `YYYY-MM-DD` of a day count since the epoch.
pub open spec fn spec_date_text(days: int) -> Seq<char> {
    let ymd = spec_civil_from_days(days);
    padded_decimal_chars(ymd.0 as nat, 4) + "-"@ + padded_decimal_chars(ymd.1 as nat, 2) + "-"@
        + padded_decimal_chars(ymd.2 as nat, 2)
}

/// `HH:MM:SS.mmm` of a second of the day and a millisecond.
pub open spec fn spec_clock_text(sod: nat, ms: nat) -> Seq<char> {
    padded_decimal_chars(sod / 3600, 2) + ":"@ + padded_decimal_chars((sod % 3600) / 60, 2) + ":"@
        + padded_decimal_chars(sod % 60, 2) + "."@ + padded_decimal_chars(ms, 3)
}

/// UTC rendering `YYYY-MM-DD HH:MM:SS.mmmZ` of milliseconds since the epoch.
pub open spec fn spec_utc_time(ms: u64) -> Seq<char> {
    let secs = ms / 1000;
    spec_date_text((secs / 86400) as int) + " "@ + spec_clock_text((secs % 86400) as nat, (ms % 1000) as nat)
        + "Z"@
}

/// From the epoch threshold on, a timestamp is rendered starting with
/// `YYYY-MM-DD ` (the year in at least four digits), and those fields read
/// back as its day: a valid month and day whose civil date is the day count
/// of the timestamp since the epoch.
#[verifier::spinoff_prover]
pub proof fn lemma_human_time_date_readback(ms: u64)
    requires
        ms >= EPOCH_MS_THRESHOLD,
    ensures
        ({
            let t = spec_human_time(ms);
            let n = t.len() as int;
            let y = digits_value(t.subrange(0, n - 20));
            let mo = digits_value(t.subrange(n - 19, n - 17));
            let d = digits_value(t.subrange(n - 16, n - 14));
            &&& n >= 21
            &&& t[n - 20] == '-' && t[n - 17] == '-' && t[n - 14] == ' '
            &&& 1 <= mo <= 12 && 1 <= d <= 31
            &&& crate::timesync::spec_days_from_civil(y, mo, d) == (ms / 1000) / 86400
        }),
{
    let secs = ms / 1000;
    let days = secs / 86400;
    assert(days <= 700_000_000_000);
    crate::timesync::lemma_days_roundtrip(days as int);
    let ymd = spec_civil_from_days(days as int);
    let yy = padded_decimal_chars(ymd.0 as nat, 4);
    let mm = padded_decimal_chars(ymd.1 as nat, 2);
    let dd = padded_decimal_chars(ymd.2 as nat, 2);
    lemma_padded_value(ymd.0 as nat, 4);
    lemma_padded_readback(ymd.1 as nat, 2);
    lemma_padded_readback(ymd.2 as nat, 2);
    let sod = (secs % 86400) as nat;
    let milli = (ms % 1000) as nat;
    lemma_padded_readback(sod / 3600, 2);
    lemma_padded_readback((sod % 3600) / 60, 2);
    lemma_padded_readback(sod % 60, 2);
    lemma_padded_readback(milli, 3);
    reveal_strlit(":");
    reveal_strlit(".");
    reveal_strlit(" ");
    reveal_strlit("Z");
    reveal_strlit("-");
    let clock = spec_clock_text(sod, milli);
    assert(clock.len() == 12);
    let t = spec_human_time(ms);
    let n = t.len() as int;
    assert(t =~= yy + "-"@ + mm + "-"@ + dd + " "@ + clock + "Z"@);
    assert(t.subrange(0, n - 20) =~= yy);
    assert(t.subrange(n - 19, n - 17) =~= mm);
    assert(t.subrange(n - 16, n - 14) =~= dd);
    assert(ymd.0 >= 0);
}

/// From the epoch threshold on, a timestamp is rendered ending in
/// `HH:MM:SS.mmmZ`, and those fields read back as its time of day: the
/// hours, the minutes (below 60) and the seconds (below 60) make up its
/// second of the day, and the milliseconds are its part below a second.
#[verifier::spinoff_prover]
pub proof fn lemma_human_time_clock_readback(ms: u64)
    requires
        ms >= EPOCH_MS_THRESHOLD,
    ensures
        ({
            let t = spec_human_time(ms);
            let c = t.subrange(t.len() - 13, t.len() - 1);
            &&& t.len() >= 13
            &&& t[t.len() - 1] == 'Z'
            &&& c[2] == ':' && c[5] == ':' && c[8] == '.'
            &&& 0 <= digits_value(c.subrange(0, 2))
            &&& 0 <= digits_value(c.subrange(3, 5)) < 60
            &&& 0 <= digits_value(c.subrange(6, 8)) < 60
            &&& digits_value(c.subrange(0, 2)) * 3600 + digits_value(c.subrange(3, 5)) * 60 + digits_value(
                c.subrange(6, 8),
            ) == (ms / 1000) % 86400
            &&& digits_value(c.subrange(9, 12)) == ms % 1000
        }),
{
    let secs = ms / 1000;
    let sod = (secs % 86400) as nat;
    let milli = (ms % 1000) as nat;
    let h = padded_decimal_chars(sod / 3600, 2);
    let m = padded_decimal_chars((sod % 3600) / 60, 2);
    let sc = padded_decimal_chars(sod % 60, 2);
    let f = padded_decimal_chars(milli, 3);
    lemma_padded_readback(sod / 3600, 2);
    lemma_padded_readback((sod % 3600) / 60, 2);
    lemma_padded_readback(sod % 60, 2);
    lemma_padded_readback(milli, 3);
    let clock = spec_clock_text(sod, milli);
    assert(clock =~= h + ":"@ + m + ":"@ + sc + "."@ + f);
    reveal_strlit(":");
    reveal_strlit(".");
    reveal_strlit(" ");
    reveal_strlit("Z");
    assert(clock.len() == 12);
    let d = spec_date_text((secs / 86400) as int);
    let t = spec_human_time(ms);
    assert(t =~= d + " "@ + clock + "Z"@);
    let c = t.subrange(t.len() - 13, t.len() - 1);
    assert(c =~= clock);
    assert(c.subrange(0, 2) =~= h);
    assert(c.subrange(3, 5) =~= m);
    assert(c.subrange(6, 8) =~= sc);
    assert(c.subrange(9, 12) =~= f);
    assert(c[2] == ':' && c[5] == ':' && c[8] == '.');
    assert((sod / 3600) * 3600 + ((sod % 3600) / 60) * 60 + sod % 60 == sod) by (nonlinear_arith);
}

fn push_date(out: &mut Vec<char>, days: u64)
    requires
        days <= 700_000_000_000,
    ensures
        final(out)@ == old(out)@ + spec_date_text(days as int),
{
    let ghost start = out@;
    let (year, month, day) = civil_from_days(days as i64);
    push_u64_padded(out, year as u64, 4);
    push_str(out, "-");
    push_u64_padded(out, month as u64, 2);
    push_str(out, "-");
    push_u64_padded(out, day as u64, 2);
    proof {
        assert(out@ =~= start + spec_date_text(days as int));
    }
}

fn push_clock(out: &mut Vec<char>, sod: u64, ms: u64)
    ensures
        final(out)@ == old(out)@ + spec_clock_text(sod as nat, ms as nat),
{
    let ghost start = out@;
    push_u64_padded(out, sod / 3600, 2);
    push_str(out, ":");
    push_u64_padded(out, (sod % 3600) / 60, 2);
    push_str(out, ":");
    push_u64_padded(out, sod % 60, 2);
    push_str(out, ".");
    push_u64_padded(out, ms, 3);
    proof {
        assert(out@ =~= start + spec_clock_text(sod as nat, ms as nat));
    }
}

fn push_utc_time(out: &mut Vec<char>, total_ms: u64)
    ensures
        final(out)@ == old(out)@ + spec_utc_time(total_ms),
{
    let ghost start = out@;
    let secs = total_ms / 1000;
    let days = secs / 86400;
    assert(days <= 700_000_000_000);
    push_date(out, days);
    push_str(out, " ");
    push_clock(out, secs % 86400, total_ms % 1000);
    push_str(out, "Z");
    proof {
        assert(out@ =~= start + spec_utc_time(total_ms));
    }
}

/// Uptime rendering such as `1h 02m 03s 004ms`, `2m 03s 004ms` or `3s 004ms`.
pub open spec fn spec_uptime(ms: u64) -> Seq<char> {
    let hours = ms / 3_600_000;
    let minutes = (ms % 3_600_000) / 60_000;
    let seconds = (ms % 60_000) / 1_000;
    let millis = ms % 1_000;
    if hours > 0 {
        decimal_chars(hours as nat) + "h "@ + padded_decimal_chars(minutes as nat, 2) + "m "@
            + padded_decimal_chars(seconds as nat, 2) + "s "@ + padded_decimal_chars(
            millis as nat,
            3,
        ) + "ms"@
    } else if minutes > 0 {
        decimal_chars(minutes as nat) + "m "@ + padded_decimal_chars(seconds as nat, 2) + "s "@
            + padded_decimal_chars(millis as nat, 3) + "ms"@
    } else {
        decimal_chars(seconds as nat) + "s "@ + padded_decimal_chars(millis as nat, 3) + "ms"@
    }
}

/// Human-readable rendering of a timestamp: a UTC date-time from the epoch
/// threshold on, else an uptime duration.
pub open spec fn spec_human_time(ms: u64) -> Seq<char> {
    if ms >= EPOCH_MS_THRESHOLD {
        spec_utc_time(ms)
    } else {
        spec_uptime(ms)
    }
}

/// Below the epoch threshold a timestamp is rendered as an uptime ending in
/// `SSs mmmms`, after `MMm ` and a number of hours followed by `h ` from an
/// hour on, or after a number of minutes followed by `m ` from a minute on;
/// those fields read back as the timestamp: the hours, minutes (below 60),
/// seconds (below 60 once a minute has passed) and milliseconds add up to
/// it.
#[verifier::spinoff_prover]
pub proof fn lemma_uptime_readback(ms: u64)
    requires
        ms < EPOCH_MS_THRESHOLD,
    ensures
        ({
            let t = spec_human_time(ms);
            let n = t.len() as int;
            let milli = digits_value(t.subrange(n - 5, n - 2));
            &&& n >= 8
            &&& t.subrange(n - 7, n - 5) == "s "@ && t.subrange(n - 2, n) == "ms"@
            &&& 0 <= milli < 1000
            &&& ms >= 3_600_000 ==> ({
                let h = digits_value(t.subrange(0, n - 15));
                let m = digits_value(t.subrange(n - 13, n - 11));
                let sec = digits_value(t.subrange(n - 9, n - 7));
                &&& n >= 16
                &&& t.subrange(n - 15, n - 13) == "h "@ && t.subrange(n - 11, n - 9) == "m "@
                &&& 0 <= m < 60 && 0 <= sec < 60 && h >= 1
                &&& h * 3_600_000 + m * 60_000 + sec * 1000 + milli == ms
            })
            &&& 60_000 <= ms < 3_600_000 ==> ({
                let m = digits_value(t.subrange(0, n - 11));
                let sec = digits_value(t.subrange(n - 9, n - 7));
                &&& n >= 12
                &&& t.subrange(n - 11, n - 9) == "m "@
                &&& 0 <= sec < 60 && m >= 1
                &&& m * 60_000 + sec * 1000 + milli == ms
            })
            &&& ms < 60_000 ==> digits_value(t.subrange(0, n - 7)) * 1000 + milli == ms
        }),
{
    let hours = ms / 3_600_000;
    let minutes = (ms % 3_600_000) / 60_000;
    let seconds = (ms % 60_000) / 1_000;
    let millis = ms % 1_000;
    reveal_strlit("h ");
    reveal_strlit("m ");
    reveal_strlit("s ");
    reveal_strlit("ms");
    lemma_padded_readback(millis as nat, 3);
    lemma_padded_readback(seconds as nat, 2);
    lemma_padded_readback(minutes as nat, 2);
    lemma_decimal_readback(hours as nat);
    lemma_decimal_readback(minutes as nat);
    lemma_decimal_readback(seconds as nat);
    let f = padded_decimal_chars(millis as nat, 3);
    let t = spec_human_time(ms);
    let n = t.len() as int;
    assert(ms % 3_600_000 == minutes * 60_000 + seconds * 1000 + millis) by (nonlinear_arith)
        requires
            minutes == (ms % 3_600_000) / 60_000,
            seconds == (ms % 60_000) / 1_000,
            millis == ms % 1_000,
    ;
    assert(ms == hours * 3_600_000 + ms % 3_600_000) by (nonlinear_arith)
        requires
            hours == ms / 3_600_000,
    ;
    if hours > 0 {
        let d = decimal_chars(hours as nat);
        let m = padded_decimal_chars(minutes as nat, 2);
        let sc = padded_decimal_chars(seconds as nat, 2);
        assert(t =~= d + "h "@ + m + "m "@ + sc + "s "@ + f + "ms"@);
        assert(t.subrange(0, n - 15) =~= d);
        assert(t.subrange(n - 13, n - 11) =~= m);
        assert(t.subrange(n - 9, n - 7) =~= sc);
        assert(t.subrange(n - 5, n - 2) =~= f);
        assert(t.subrange(n - 15, n - 13) =~= "h "@);
        assert(t.subrange(n - 11, n - 9) =~= "m "@);
        assert(t.subrange(n - 7, n - 5) =~= "s "@);
        assert(t.subrange(n - 2, n) =~= "ms"@);
    } else if minutes > 0 {
        let d = decimal_chars(minutes as nat);
        let sc = padded_decimal_chars(seconds as nat, 2);
        assert(t =~= d + "m "@ + sc + "s "@ + f + "ms"@);
        assert(t.subrange(0, n - 11) =~= d);
        assert(t.subrange(n - 9, n - 7) =~= sc);
        assert(t.subrange(n - 5, n - 2) =~= f);
        assert(t.subrange(n - 11, n - 9) =~= "m "@);
        assert(t.subrange(n - 7, n - 5) =~= "s "@);
        assert(t.subrange(n - 2, n) =~= "ms"@);
    } else {
        let d = decimal_chars(seconds as nat);
        assert(t =~= d + "s "@ + f + "ms"@);
        assert(t.subrange(0, n - 7) =~= d);
        assert(t.subrange(n - 5, n - 2) =~= f);
        assert(t.subrange(n - 7, n - 5) =~= "s "@);
        assert(t.subrange(n - 2, n) =~= "ms"@);
    }
}

fn push_uptime(out: &mut Vec<char>, total_ms: u64)
    ensures
        final(out)@ == old(out)@ + spec_uptime(total_ms),
{
    let ghost start = out@;
    let hours = total_ms / 3_600_000;
    let minutes = (total_ms % 3_600_000) / 60_000;
    let seconds = (total_ms % 60_000) / 1_000;
    let milliseconds = total_ms % 1_000;
    if hours > 0 {
        push_u64(out, hours);
        push_str(out, "h ");
        push_u64_padded(out, minutes, 2);
        push_str(out, "m ");
        push_u64_padded(out, seconds, 2);
        push_str(out, "s ");
        push_u64_padded(out, milliseconds, 3);
        push_str(out, "ms");
    } else if minutes > 0 {
        push_u64(out, minutes);
        push_str(out, "m ");
        push_u64_padded(out, seconds, 2);
        push_str(out, "s ");
        push_u64_padded(out, milliseconds, 3);
        push_str(out, "ms");
    } else {
        push_u64(out, seconds);
        push_str(out, "s ");
        push_u64_padded(out, milliseconds, 3);
        push_str(out, "ms");
    }
    proof {
        assert(out@ =~= start + spec_uptime(total_ms));
    }
}

fn push_human_time(out: &mut Vec<char>, total_ms: u64)
    ensures
        final(out)@ == old(out)@ + spec_human_time(total_ms),
{
    if total_ms >= EPOCH_MS_THRESHOLD {
        push_utc_time(out, total_ms);
    } else {
        push_uptime(out, total_ms);
    }
}

/// The header text of a packet.
pub open spec fn spec_header(p: PacketModel) -> Seq<char> {
    "Type: "@ + spec_message_name(p.ty)@ + ", Data Size: "@ + decimal_chars(p.data_size)
        + ", Sender: "@ + p.sender + ", Endpoints: ["@ + endpoint_names(p.endpoints)
        + "], Timestamp: "@ + decimal_chars(p.timestamp as nat) + " ("@ + spec_human_time(
        p.timestamp,
    ) + ")"@
}

/// ` 0xNN` for each byte.
pub open spec fn hex_dump(b: Seq<u8>) -> Seq<char>
    decreases b.len(),
{
    if b.len() == 0 {
        Seq::empty()
    } else {
        hex_dump(b.drop_last()) + " 0x"@ + hex_byte_chars(b.last())
    }
}

/// Chunk `c` is ` 0xHH` with `HH` reading back as byte `v`.
pub open spec fn hex_chunk_reads(c: Seq<char>, v: u8) -> bool {
    &&& c.len() == 5
    &&& c[0] == ' ' && c[1] == '0' && c[2] == 'x'
    &&& 0 <= hex_value(c[3]) < 16 && 0 <= hex_value(c[4]) < 16
    &&& hex_value(c[3]) * 16 + hex_value(c[4]) == v
}

/// The hexadecimal dump of `b` is ` 0xHH` per byte, in order, and each `HH`
/// reads back as its byte.
pub proof fn lemma_hex_dump_readback(b: Seq<u8>)
    ensures
        hex_dump(b).len() == 5 * b.len(),
        forall|i: int| 0 <= i < b.len() ==> hex_chunk_reads(hex_dump(b).subrange(5 * i, 5 * i + 5), #[trigger] b[i]),
    decreases b.len(),
{
    reveal_strlit(" 0x");
    if b.len() > 0 {
        let p = b.drop_last();
        let n = b.len() - 1;
        lemma_hex_dump_readback(p);
        lemma_hex_byte_readback(b.last());
        let hp = hex_dump(p);
        let h = hex_dump(b);
        assert(h =~= hp + " 0x"@ + hex_byte_chars(b.last()));
        assert forall|i: int| 0 <= i < b.len() implies hex_chunk_reads(h.subrange(5 * i, 5 * i + 5), #[trigger] b[i]) by {
            if i < n {
                assert(p[i] == b[i]);
                assert(h.subrange(5 * i, 5 * i + 5) =~= hp.subrange(5 * i, 5 * i + 5));
            } else {
                assert(h.subrange(5 * i, 5 * i + 5) =~= " 0x"@ + hex_byte_chars(b.last()));
            }
        }
    }
}


/// The hex dump text of a packet.
pub open spec fn spec_hex_string(p: PacketModel) -> Seq<char> {
    spec_header(p) + ", Data (hex):"@ + hex_dump(p.payload)
}

/// Items separated by `, `.
pub open spec fn join_items(items: Seq<Seq<char>>) -> Seq<char>
    decreases items.len(),
{
    if items.len() == 0 {
        Seq::empty()
    } else if items.len() == 1 {
        items[0]
    } else {
        join_items(items.drop_last()) + ", "@ + items.last()
    }
}

fn push_joined(out: &mut Vec<char>, items: &[String])
    ensures
        final(out)@ == old(out)@ + join_items(items@.map_values(|s: String| s@)),
{
    let ghost start = out@;
    let ghost all = items@.map_values(|s: String| s@);
    let mut i: usize = 0;
    assert(all.take(0) =~= Seq::<Seq<char>>::empty());
    while i < items.len()
        invariant
            i <= items.len(),
            all == items@.map_values(|s: String| s@),
            out@ == start + join_items(all.take(i as int)),
        decreases items.len() - i,
    {
        if i != 0 {
            push_str(out, ", ");
        }
        push_str(out, items[i].as_str());
        proof {
            assert(all.take(i + 1).drop_last() =~= all.take(i as int));
            assert(all.take(i + 1).last() == all[i as int]);
            if i == 0 {
                assert(all.take(1)[0] == all[0]);
            }
            assert(out@ =~= start + join_items(all.take(i + 1)));
        }
        i = i + 1;
    }
    assert(all.take(all.len() as int) =~= all);
}

/// `true`/`false` for each byte (any non-zero byte is `true`).
pub open spec fn bool_items(b: Seq<u8>) -> Seq<Seq<char>> {
    b.map_values(|x: u8| if x != 0 { "true"@ } else { "false"@ })
}

fn push_bools(out: &mut Vec<char>, b: &[u8])
    ensures
        final(out)@ == old(out)@ + join_items(bool_items(b@)),
{
    let ghost start = out@;
    let ghost all = bool_items(b@);
    let mut i: usize = 0;
    assert(all.take(0) =~= Seq::<Seq<char>>::empty());
    while i < b.len()
        invariant
            i <= b.len(),
            all == bool_items(b@),
            out@ == start + join_items(all.take(i as int)),
        decreases b.len() - i,
    {
        if i != 0 {
            push_str(out, ", ");
        }
        if b[i] != 0 {
            push_str(out, "true");
        } else {
            push_str(out, "false");
        }
        proof {
            assert(all.take(i + 1).drop_last() =~= all.take(i as int));
            assert(all.take(i + 1).last() == all[i as int]);
            if i == 0 {
                assert(all.take(1)[0] == all[0]);
            }
            assert(out@ =~= start + join_items(all.take(i + 1)));
        }
        i = i + 1;
    }
    assert(all.take(all.len() as int) =~= all);
}

/// Decimal rendering of one little-endian element of width `w`, read as
/// two's complement when `signed`.
pub open spec fn int_item(chunk: Seq<u8>, w: nat, signed: bool) -> Seq<char> {
    let v = le_value(chunk);
    let half = 128 * pow(256, (w - 1) as nat);
    if signed && v >= half {
        signed_decimal_chars(v - 2 * half)
    } else {
        decimal_chars(v)
    }
}

/// Renderings of the whole `w`-byte elements of `b` (a trailing partial
/// element is ignored).
pub open spec fn int_items(b: Seq<u8>, w: nat, signed: bool) -> Seq<Seq<char>> {
    Seq::new(b.len() / w, |k: int| int_item(b.subrange(k * w, k * w + w), w, signed))
}

proof fn lemma_le_value_bound(b: Seq<u8>)
    ensures
        le_value(b) < pow(256, b.len()),
    decreases b.len(),
{
    vstd::arithmetic::power::lemma_pow_positive(256, b.len());
    if b.len() > 0 {
        lemma_le_value_bound(b.drop_first());
        vstd::arithmetic::power::lemma_pow_adds(256, 1, (b.len() - 1) as nat);
        vstd::arithmetic::power::lemma_pow1(256);
        let r = le_value(b.drop_first());
        let p = pow(256, (b.len() - 1) as nat);
        assert(b[0] as nat + 256 * r < 256 * p) by (nonlinear_arith)
            requires
                r < p,
                b[0] < 256,
        ;
    } else {
        vstd::arithmetic::power::lemma_pow0(256);
    }
}

/// Little-endian value of `w` bytes starting at `start`.
fn read_le_value(b: &[u8], start: usize, w: usize) -> (r: u128)
    requires
        1 <= w <= 16,
        start + w <= b@.len(),
    ensures
        r == le_value(b@.subrange(start as int, start + w)),
{
    let ghost chunk = b@.subrange(start as int, start + w);
    let mut v: u128 = 0;
    let mut j: usize = w;
    proof {
        assert(chunk.skip(w as int) =~= Seq::<u8>::empty());
    }
    while j > 0
        invariant
            j <= w,
            w <= 16,
            start + w <= b@.len(),
            chunk == b@.subrange(start as int, start + w),
            start + w <= b.len(),
            v == le_value(chunk.skip(j as int)),
        decreases j,
    {
        proof {
            lemma_le_value_bound(chunk.skip(j as int));
            vstd::arithmetic::power::lemma_pow_increases(256, (w - j) as nat, 15);
            assert(pow(256, 15) * 256 == pow(256, 16)) by {
                vstd::arithmetic::power::lemma_pow_adds(256, 15, 1);
                vstd::arithmetic::power::lemma_pow1(256);
            }
            assert(pow(256, 16) == 0x1_0000_0000_0000_0000_0000_0000_0000_0000) by {
                reveal_with_fuel(pow, 17);
            }
            assert(chunk.skip(j - 1).drop_first() =~= chunk.skip(j as int));
            assert(chunk.skip(j - 1)[0] == b@[start + j - 1]);
            let p15 = pow(256, 15);
            let pj = pow(256, (w - j) as nat);
            assert(v * 256 + 255 < 0x1_0000_0000_0000_0000_0000_0000_0000_0000) by (nonlinear_arith)
                requires
                    v < pj,
                    pj <= p15,
                    p15 * 256 == 0x1_0000_0000_0000_0000_0000_0000_0000_0000,
            ;
            assert(start + j <= b@.len());
        }
        v = v * 256 + b[start + j - 1] as u128;
        j = j - 1;
    }
    assert(chunk.skip(0) =~= chunk);
    v
}

fn push_ints(out: &mut Vec<char>, b: &[u8], w: usize, signed: bool)
    requires
        1 <= w <= 16,
    ensures
        final(out)@ == old(out)@ + join_items(int_items(b@, w as nat, signed)),
{
    let ghost start = out@;
    let ghost all = int_items(b@, w as nat, signed);
    let n = b.len() / w;
    let mut half: u128 = 128;
    let mut t: usize = 1;
    proof {
        vstd::arithmetic::power::lemma_pow0(256);
    }
    while t < w
        invariant
            1 <= t <= w,
            w <= 16,
            half == 128 * pow(256, (t - 1) as nat),
        decreases w - t,
    {
        proof {
            vstd::arithmetic::power::lemma_pow_adds(256, (t - 1) as nat, 1);
            vstd::arithmetic::power::lemma_pow1(256);
            vstd::arithmetic::power::lemma_pow_increases(256, t as nat, 15);
            assert(pow(256, 15) == 0x1_0000_0000_0000_0000_0000_0000_0000 * 256) by {
                reveal_with_fuel(pow, 16);
            }
        }
        half = half * 256;
        t = t + 1;
    }
    let mut k: usize = 0;
    assert(all.take(0) =~= Seq::<Seq<char>>::empty());
    while k < n
        invariant
            k <= n,
            n == b@.len() / (w as nat),
            b@.len() == b.len(),
            1 <= w <= 16,
            half == 128 * pow(256, (w - 1) as nat),
            all == int_items(b@, w as nat, signed),
            out@ == start + join_items(all.take(k as int)),
        decreases n - k,
    {
        if k != 0 {
            push_str(out, ", ");
        }
        proof {
            assert(k * w + w <= b@.len()) by (nonlinear_arith)
                requires k < n, n == b@.len() / (w as nat), w >= 1;
        }
        let v = read_le_value(b, k * w, w);
        let ghost chunk = b@.subrange(k * w, k * w + w);
        proof {
            lemma_le_value_bound(chunk);
            vstd::arithmetic::power::lemma_pow_adds(256, (w - 1) as nat, 1);
            vstd::arithmetic::power::lemma_pow1(256);
            assert(pow(256, w as nat) == 2 * half);
        }
        if signed && v >= half {
            out.push('-');
            push_u128(out, half - (v - half));
        } else {
            push_u128(out, v);
        }
        proof {
            assert(all.take(k + 1).drop_last() =~= all.take(k as int));
            assert(all.take(k + 1).last() == all[k as int]);
            if k == 0 {
                assert(all.take(1)[0] == all[0]);
            }
            assert(out@ =~= start + join_items(all.take(k + 1)));
        }
        k = k + 1;
    }
    assert(all.len() == n);
    assert(all.take(all.len() as int) =~= all);
}

/// Full packet text with float elements rendered as `floats`.
pub open spec fn spec_to_string(p: PacketModel, floats: Seq<Seq<char>>) -> Seq<char> {
    let dt = spec_get_data_type(p.ty);
    if dt == MessageDataType::Binary && p.payload.len() != 0 {
        spec_hex_string(p)
    } else if p.payload.len() == 0 {
        "{"@ + spec_header(p) + ", Data: (<empty>)}"@
    } else {
        let open = if spec_message_element(p.ty).spec_message_type() == MessageClass::Error {
            ", Error: ("@
        } else {
            ", Data: ("@
        };
        let e = trim_nul_len(p.payload);
        if dt == MessageDataType::String && e > 0 && vstd::utf8::valid_utf8(p.payload.take(e as int)) {
            "{"@ + spec_header(p) + open + "\""@ + vstd::utf8::decode_utf8(p.payload.take(e as int))
                + "\")}"@
        } else {
            let body = if dt == MessageDataType::Float64 || dt == MessageDataType::Float32 {
                join_items(floats)
            } else if dt == MessageDataType::Bool {
                join_items(bool_items(p.payload))
            } else if dt == MessageDataType::UInt128 || dt == MessageDataType::UInt64 || dt
                == MessageDataType::UInt32 || dt == MessageDataType::UInt16 {
                join_items(int_items(p.payload, spec_element_width(dt), false))
            } else if dt == MessageDataType::UInt8 || dt == MessageDataType::Int8 || dt
                == MessageDataType::Int16 || dt == MessageDataType::Int32 || dt
                == MessageDataType::Int64 || dt == MessageDataType::Int128 {
                join_items(int_items(p.payload, spec_element_width(dt), true))
            } else {
                Seq::empty()
            };
            "{"@ + spec_header(p) + open + body + ")}"@
        }
    }
}

/// Concatenated names of the endpoints.
pub open spec fn endpoint_name_bytes(eps: Seq<DataEndpoint>) -> Seq<u8>
    decreases eps.len(),
{
    if eps.len() == 0 {
        Seq::empty()
    } else {
        endpoint_name_bytes(eps.drop_last()) + eps.last().spec_name().spec_bytes()
    }
}

/// The bytes hashed into a packet identifier.
pub open spec fn packet_id_input(p: PacketModel) -> Seq<u8> {
    p.sender_bytes() + spec_message_name(p.ty).spec_bytes() + endpoint_name_bytes(
        spec_canonical_endpoints(p.endpoints),
    ) + le_bytes(p.timestamp as nat, 8) + le_bytes(p.data_size, 8) + p.payload
}

/// Identifier of a packet.
pub open spec fn spec_packet_id(p: PacketModel) -> u64 {
    spec_hash_bytes(HASH_SEED, packet_id_input(p))
}

impl PacketModel {
    /// UTF-8 encoding of the sender.
    pub open spec fn sender_bytes(self) -> Seq<u8> {
        vstd::utf8::encode_utf8(self.sender)
    }
}

fn hash_endpoint_names(h: u64, eps: &[DataEndpoint]) -> (r: u64)
    ensures
        r == spec_hash_bytes(h, endpoint_name_bytes(eps@)),
{
    let mut acc = h;
    let mut i: usize = 0;
    assert(eps@.take(0) =~= Seq::<DataEndpoint>::empty());
    while i < eps.len()
        invariant
            i <= eps.len(),
            acc == spec_hash_bytes(h, endpoint_name_bytes(eps@.take(i as int))),
        decreases eps.len() - i,
    {
        acc = hash_bytes_u64(acc, eps[i].as_str().as_bytes());
        proof {
            assert(eps@.take(i + 1).drop_last() =~= eps@.take(i as int));
            assert(eps@.take(i + 1).last() == eps@[i as int]);
            lemma_hash_concat(
                h,
                endpoint_name_bytes(eps@.take(i as int)),
                eps@[i as int].spec_name().spec_bytes(),
            );
        }
        i = i + 1;
    }
    assert(eps@.take(eps@.len() as int) =~= eps@);
    acc
}

} // verus!
