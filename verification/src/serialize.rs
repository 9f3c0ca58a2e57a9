//! The compact wire format of telemetry packets.
//!
//! Layout:
//! - `FLAGS: u8` (bit 0: payload compressed, bit 1: sender compressed),
//! - `NEP: u8`, the number of distinct endpoints,
//! - ULEB128 varints: type, logical payload size, timestamp, logical sender
//!   length, and the sender's wire length only when the sender is compressed,
//! - one endpoint bitmap byte (bit `i` set for the endpoint with discriminant `i`),
//! - the sender bytes, then the payload bytes.
//!
//! The sender and the payload each travel deflated when that saves space
//! (see `compress_if_beneficial`).
use vstd::prelude::*;
use vstd::slice::slice_subrange;
use vstd::string::StringSliceAdditionalSpecFns;

use crate::config::{
    canonical_upto, endpoint_at, spec_canonical_endpoints, spec_message_name,
    DataEndpoint, DataType, MAX_VALUE_DATA_TYPE, PAYLOAD_COMPRESSION_LEVEL, PAYLOAD_COMPRESS_THRESHOLD,
};
use crate::le_bytes::{hash_bytes_u64, le_bytes, lemma_hash_concat, spec_hash_bytes, HASH_SEED};
use crate::telemetry_packet::{
    endpoint_name_bytes, packet_id_input, spec_new, spec_packet_id, spec_valid, view_result,
    PacketModel, TelemetryPacket,
};
use crate::text::str_from_utf8;
use crate::{get_message_name, TelemetryError, TelemetryResult};

verus! {

/// Number of bits of the endpoint bitmap that carry endpoints.
pub const EP_BITMAP_BITS: usize = 7;

/// Number of bytes of the endpoint bitmap.
pub const EP_BITMAP_BYTES: usize = 1;

/// Flag bit: the payload is compressed.
pub const FLAG_COMPRESSED_PAYLOAD: u8 = 1;

/// Flag bit: the sender is compressed.
pub const FLAG_COMPRESSED_SENDER: u8 = 2;


// ---------------------------------------------------------------------------
// ULEB128
// ---------------------------------------------------------------------------

/// ULEB128 encoding of `v`: seven bits per byte, least significant first,
/// high bit set on every byte but the last.
pub open spec fn uleb_enc(v: nat) -> Seq<u8>
    decreases v,
{
    if v < 128 {
        seq![v as u8]
    } else {
        seq![(v % 128 + 128) as u8] + uleb_enc(v / 128)
    }
}

/// Decoding of a ULEB128 value starting at `pos`, where `i` bytes of the
/// value were already read: the value (not yet reduced modulo 2^64) and the
/// position after it. At most ten bytes are read.
pub open spec fn uleb_dec(buf: Seq<u8>, pos: int, i: nat) -> Result<(nat, int), TelemetryError>
    decreases 10 - i,
{
    if i >= 10 {
        Err(TelemetryError::Deserialize("uleb128 too long"))
    } else if pos < 0 || pos >= buf.len() {
        Err(TelemetryError::Deserialize("short read"))
    } else if buf[pos] < 128 {
        Ok((buf[pos] as nat, pos + 1))
    } else {
        match uleb_dec(buf, pos + 1, i + 1) {
            Ok((v, p)) => Ok(((((buf[pos] - 128) + 128 * v) as nat), p)),
            Err(e) => Err(e),
        }
    }
}

/// A ULEB128 `u64` at `pos`: bits beyond the 64th are dropped.
pub open spec fn spec_read_uleb(buf: Seq<u8>, pos: int) -> Result<(u64, int), TelemetryError> {
    match uleb_dec(buf, pos, 0) {
        Ok((v, p)) => Ok(((v % 0x1_0000_0000_0000_0000) as u64, p)),
        Err(e) => Err(e),
    }
}

/// `128^n`.
pub open spec fn p128(n: nat) -> nat
    decreases n,
{
    if n == 0 {
        1
    } else {
        128 * p128((n - 1) as nat)
    }
}

proof fn lemma_p128_mono(a: nat, b: nat)
    requires
        a <= b,
    ensures
        p128(a) <= p128(b),
    decreases b,
{
    if a < b {
        lemma_p128_mono(a, (b - 1) as nat);
    }
}

proof fn lemma_p128_values()
    ensures
        p128(9) == 0x8000_0000_0000_0000,
        p128(10) == 0x40_0000_0000_0000_0000,
{
    reveal_with_fuel(p128, 11);
}

/// An encoding of a value below `128^k` has at most `k` bytes.
proof fn lemma_uleb_enc_len(v: nat, k: nat)
    requires
        k >= 1,
        v < p128(k),
    ensures
        uleb_enc(v).len() <= k,
        uleb_enc(v).len() >= 1,
    decreases v,
{
    if v >= 128 {
        assert(k >= 2) by {
            if k == 1 {
                assert(p128(1) == 128) by {
                    reveal_with_fuel(p128, 2);
                }
            }
        }
        assert(v / 128 < p128((k - 1) as nat));
        lemma_uleb_enc_len(v / 128, (k - 1) as nat);
    }
}

/// A `u64` encodes in one to ten bytes.
pub proof fn lemma_uleb_enc_u64_len(v: u64)
    ensures
        1 <= uleb_enc(v as nat).len() <= 10,
{
    lemma_p128_values();
    lemma_uleb_enc_len(v as nat, 10);
}

/// Decoding the encoding of `v` gives back `v` and ends right after it.
pub proof fn lemma_uleb_roundtrip(v: nat, buf: Seq<u8>, pos: int, i: nat)
    requires
        uleb_enc(v).len() + i <= 10,
        0 <= pos,
        pos + uleb_enc(v).len() <= buf.len(),
        buf.subrange(pos, pos + uleb_enc(v).len()) == uleb_enc(v),
    ensures
        uleb_dec(buf, pos, i) == Ok::<(nat, int), TelemetryError>((v, pos + uleb_enc(v).len())),
    decreases v,
{
    assert(buf[pos] == buf.subrange(pos, pos + uleb_enc(v).len())[0]);
    if v >= 128 {
        let rest = uleb_enc(v / 128);
        assert(uleb_enc(v).len() == 1 + rest.len());
        assert(uleb_enc(v).subrange(1, 1 + rest.len() as int) =~= rest);
        assert(buf.subrange(pos + 1, pos + 1 + rest.len()) =~= buf.subrange(
            pos,
            pos + uleb_enc(v).len(),
        ).subrange(1, 1 + rest.len() as int));
        lemma_uleb_roundtrip(v / 128, buf, pos + 1, i + 1);
    }
}

/// A `u64` read back from its encoding is unchanged.
pub proof fn lemma_read_uleb_roundtrip(v: u64, buf: Seq<u8>, pos: int)
    requires
        0 <= pos,
        pos + uleb_enc(v as nat).len() <= buf.len(),
        buf.subrange(pos, pos + uleb_enc(v as nat).len()) == uleb_enc(v as nat),
    ensures
        spec_read_uleb(buf, pos) == Ok::<(u64, int), TelemetryError>(
            (v, pos + uleb_enc(v as nat).len()),
        ),
{
    lemma_uleb_enc_u64_len(v);
    lemma_uleb_roundtrip(v as nat, buf, pos, 0);
}

/// Append the ULEB128 encoding of `v`.
fn write_uleb128(v: u64, out: &mut Vec<u8>)
    ensures
        final(out)@ == old(out)@ + uleb_enc(v as nat),
{
    let ghost start = out@;
    let mut x = v;
    while x >= 128
        invariant
            out@ + uleb_enc(x as nat) == start + uleb_enc(v as nat),
        decreases x,
    {
        let ghost before = out@;
        out.push((x % 128 + 128) as u8);
        proof {
            assert(out@ + uleb_enc((x / 128) as nat) =~= before + uleb_enc(x as nat));
        }
        x = x / 128;
    }
    out.push(x as u8);
    proof {
        assert(out@ =~= start + uleb_enc(v as nat));
    }
}

/// Encoded length of `v` in ULEB128.
pub fn uleb128_size(v: u64) -> (r: usize)
    ensures
        r == uleb_enc(v as nat).len(),
        1 <= r <= 10,
{
    proof {
        lemma_uleb_enc_u64_len(v);
    }
    let mut x = v;
    let mut n: usize = 1;
    while x >= 128
        invariant
            n + uleb_enc(x as nat).len() == 1 + uleb_enc(v as nat).len(),
            uleb_enc(v as nat).len() <= 10,
            n >= 1,
        decreases x,
    {
        x = x / 128;
        n = n + 1;
    }
    n
}

fn read_uleb_from(buf: &[u8], pos: usize, i: usize) -> (r: Result<(u128, usize), TelemetryError>)
    requires
        i <= 10,
    ensures
        match (r, uleb_dec(buf@, pos as int, i as nat)) {
            (Ok((v, p)), Ok((sv, sp))) => v == sv && p == sp && v < p128((10 - i) as nat) && pos
                < p <= buf@.len(),
            (Err(e), Err(se)) => e == se,
            _ => false,
        },
    decreases 10 - i,
{
    if i >= 10 {
        return Err(TelemetryError::Deserialize("uleb128 too long"));
    }
    if pos >= buf.len() {
        return Err(TelemetryError::Deserialize("short read"));
    }
    let b = buf[pos];
    if b < 128 {
        proof {
            lemma_p128_mono(1, (10 - i) as nat);
            reveal_with_fuel(p128, 2);
        }
        return Ok((b as u128, pos + 1));
    }
    match read_uleb_from(buf, pos + 1, i + 1) {
        Ok((v, p)) => {
            proof {
                lemma_p128_mono((9 - i) as nat, 9);
                lemma_p128_values();
                assert(p128((10 - i) as nat) == 128 * p128((9 - i) as nat));
            }
            Ok(((b - 128) as u128 + 128 * v, p))
        },
        Err(e) => Err(e),
    }
}

/// Read a ULEB128 `u64` at `pos`.
fn read_uleb(buf: &[u8], pos: usize) -> (r: Result<(u64, usize), TelemetryError>)
    ensures
        match (r, spec_read_uleb(buf@, pos as int)) {
            (Ok((v, p)), Ok((sv, sp))) => v == sv && p == sp && pos < p <= buf@.len(),
            (Err(e), Err(se)) => e == se,
            _ => false,
        },
{
    match read_uleb_from(buf, pos, 0) {
        Ok((v, p)) => Ok(((v % 0x1_0000_0000_0000_0000) as u64, p)),
        Err(e) => Err(e),
    }
}

// ---------------------------------------------------------------------------
// Endpoint bitmap
// ---------------------------------------------------------------------------

/// Bitmap with bit `i` set for each endpoint of discriminant `i < n` in `eps`.
pub open spec fn bitmap_upto(eps: Seq<DataEndpoint>, n: nat) -> u8
    decreases n,
{
    if n == 0 {
        0
    } else if eps.contains(endpoint_at((n - 1) as nat)) {
        bitmap_upto(eps, (n - 1) as nat) | (1u8 << ((n - 1) as u8))
    } else {
        bitmap_upto(eps, (n - 1) as nat)
    }
}

/// The endpoint bitmap of `eps`.
pub open spec fn spec_bitmap(eps: Seq<DataEndpoint>) -> u8 {
    bitmap_upto(eps, 7)
}

/// Whether bit `i` of `bm` is set.
pub open spec fn bit_set(bm: u8, i: nat) -> bool {
    (bm >> (i as u8)) & 1u8 == 1u8
}

/// The endpoints whose bits below `n` are set in `bm`, in ascending order.
pub open spec fn expand_upto(bm: u8, n: nat) -> Seq<DataEndpoint>
    decreases n,
{
    if n == 0 {
        Seq::empty()
    } else if bit_set(bm, (n - 1) as nat) {
        expand_upto(bm, (n - 1) as nat).push(endpoint_at((n - 1) as nat))
    } else {
        expand_upto(bm, (n - 1) as nat)
    }
}

/// The endpoints named by a bitmap (the top bit carries no endpoint).
pub open spec fn spec_expand(bm: u8) -> Seq<DataEndpoint> {
    expand_upto(bm, 7)
}

proof fn lemma_bits_of_or(
    c0: bool,
    c1: bool,
    c2: bool,
    c3: bool,
    c4: bool,
    c5: bool,
    c6: bool,
    bm: u8,
)
    by (bit_vector)
    requires
        bm == (((((((0u8 | (if c0 { 1u8 } else { 0u8 })) | (if c1 { 2u8 } else { 0u8 })) | (if c2 {
            4u8
        } else {
            0u8
        })) | (if c3 { 8u8 } else { 0u8 })) | (if c4 { 16u8 } else { 0u8 })) | (if c5 {
            32u8
        } else {
            0u8
        })) | (if c6 { 64u8 } else { 0u8 })),
    ensures
        ((bm >> 0u8) & 1u8 == 1u8) == c0,
        ((bm >> 1u8) & 1u8 == 1u8) == c1,
        ((bm >> 2u8) & 1u8 == 1u8) == c2,
        ((bm >> 3u8) & 1u8 == 1u8) == c3,
        ((bm >> 4u8) & 1u8 == 1u8) == c4,
        ((bm >> 5u8) & 1u8 == 1u8) == c5,
        ((bm >> 6u8) & 1u8 == 1u8) == c6,
{
}

proof fn lemma_shift_values()
    by (bit_vector)
    ensures
        1u8 << 0u8 == 1u8,
        1u8 << 1u8 == 2u8,
        1u8 << 2u8 == 4u8,
        1u8 << 3u8 == 8u8,
        1u8 << 4u8 == 16u8,
        1u8 << 5u8 == 32u8,
        1u8 << 6u8 == 64u8,
{
}

/// Expanding the bitmap of `eps` gives its distinct endpoints in ascending
/// discriminant order.
pub proof fn lemma_expand_bitmap(eps: Seq<DataEndpoint>)
    ensures
        spec_expand(spec_bitmap(eps)) == spec_canonical_endpoints(eps),
{
    let c = |i: nat| eps.contains(endpoint_at(i));
    let bm = spec_bitmap(eps);
    lemma_shift_values();
    reveal_with_fuel(bitmap_upto, 8);
    assert(bm == (((((((0u8 | (if c(0) { 1u8 } else { 0u8 })) | (if c(1) { 2u8 } else { 0u8 })) | (
    if c(2) {
        4u8
    } else {
        0u8
    })) | (if c(3) { 8u8 } else { 0u8 })) | (if c(4) { 16u8 } else { 0u8 })) | (if c(5) {
        32u8
    } else {
        0u8
    })) | (if c(6) { 64u8 } else { 0u8 }))) by {
        assert(0u8 | 0u8 == 0u8) by (bit_vector);
        assert(forall|x: u8| #![trigger x | 0u8] x | 0u8 == x) by (bit_vector);
    }
    lemma_bits_of_or(c(0), c(1), c(2), c(3), c(4), c(5), c(6), bm);
    reveal_with_fuel(expand_upto, 8);
    reveal_with_fuel(canonical_upto, 8);
    assert(spec_expand(bm) =~= spec_canonical_endpoints(eps));
}

/// The endpoint bitmap of `eps` and the number of distinct endpoints.
fn build_endpoint_bitmap(eps: &[DataEndpoint]) -> (r: (u8, u8))
    ensures
        r.0 == spec_bitmap(eps@),
        r.1 == spec_canonical_endpoints(eps@).len(),
{
    let mut bm: u8 = 0;
    let mut n: u8 = 0;
    let mut i: u8 = 0;
    while i < 7
        invariant
            i <= 7,
            bm == bitmap_upto(eps@, i as nat),
            n == canonical_upto(eps@, i as nat).len(),
            n <= i,
        decreases 7 - i,
    {
        let ep = DataEndpoint::try_from_u32(i as u32).unwrap();
        if crate::config::contains_endpoint(eps, ep) {
            bm = bm | (1u8 << i);
            n = n + 1;
        }
        i = i + 1;
    }
    (bm, n)
}

/// The endpoints whose bits are set in `bm`, in ascending discriminant order.
fn expand_endpoint_bitmap(bm: u8) -> (r: Vec<DataEndpoint>)
    ensures
        r@ == spec_expand(bm),
        r@.len() <= 7,
{
    let mut out: Vec<DataEndpoint> = Vec::new();
    let mut i: u8 = 0;
    while i < 7
        invariant
            i <= 7,
            out@ == expand_upto(bm, i as nat),
            out@.len() <= i,
        decreases 7 - i,
    {
        if (bm >> i) & 1u8 == 1u8 {
            out.push(DataEndpoint::try_from_u32(i as u32).unwrap());
        }
        i = i + 1;
    }
    out
}

/// Copy `src` to the end of `out`.
fn push_bytes(out: &mut Vec<u8>, src: &[u8])
    ensures
        final(out)@ == old(out)@ + src@,
{
    let ghost start = out@;
    let mut i: usize = 0;
    while i < src.len()
        invariant
            i <= src.len(),
            out@ == start + src@.take(i as int),
        decreases src.len() - i,
    {
        out.push(src[i]);
        i = i + 1;
        proof {
            assert(src@.take(i as int) =~= src@.take(i - 1).push(src@[i - 1]));
        }
    }
    assert(src@.take(src@.len() as int) =~= src@);
}

// ---------------------------------------------------------------------------
// Serialization
// ---------------------------------------------------------------------------

/// The flags byte for a compressed payload (`pc`) and sender (`sc`).
pub open spec fn spec_flags(pc: bool, sc: bool) -> u8 {
    if pc {
        if sc {
            3u8
        } else {
            1u8
        }
    } else if sc {
        2u8
    } else {
        0u8
    }
}

/// The fixed prelude and the varints of the wire form of a packet: the
/// flags, the distinct endpoint count, the type, the logical payload size,
/// the timestamp, the logical sender length, and the sender's wire length
/// when the sender travels compressed.
pub open spec fn spec_header(p: PacketModel) -> Seq<u8> {
    let ws = spec_wire_form(p.sender_bytes());
    let wp = spec_wire_form(p.payload);
    seq![spec_flags(wp.0, ws.0), spec_canonical_endpoints(p.endpoints).len() as u8] + uleb_enc(
        p.ty.spec_to_u32() as nat,
    ) + uleb_enc(p.data_size) + uleb_enc(p.timestamp as nat) + uleb_enc(p.sender_bytes().len()) + (if ws.0 {
        uleb_enc(ws.1.len())
    } else {
        Seq::<u8>::empty()
    })
}

/// The compressed wire forms of the sender and of the payload of `p` are
/// not empty and decompress back to them, as compressing them showed.
pub open spec fn wire_invertible(p: PacketModel) -> bool {
    &&& spec_wire_form(p.sender_bytes()).0 ==> spec_inflate(spec_wire_form(p.sender_bytes()).1) == Some(p.sender_bytes())
        && spec_wire_form(p.sender_bytes()).1.len() > 0
    &&& spec_wire_form(p.payload).0 ==> spec_inflate(spec_wire_form(p.payload).1) == Some(p.payload)
        && spec_wire_form(p.payload).1.len() > 0
}

/// Wire bytes of a packet: the header, the endpoint bitmap, then the wire
/// forms of the sender and of the payload.
pub open spec fn spec_serialize(p: PacketModel) -> Seq<u8> {
    spec_header(p) + seq![spec_bitmap(p.endpoints)] + spec_wire_form(p.sender_bytes()).1 + spec_wire_form(p.payload).1
}

/// Length of the fixed prelude and the varints of a packet.
pub open spec fn spec_header_size(p: PacketModel) -> nat {
    spec_header(p).len()
}

/// Serialize a packet into the wire format.
pub fn serialize_packet(pkt: &TelemetryPacket) -> (r: Vec<u8>)
    ensures
        r@ == spec_serialize(pkt@),
        wire_invertible(pkt@),
{
    let (bm, nep) = build_endpoint_bitmap(pkt.endpoints());
    let sender_bytes = pkt.sender().as_bytes();
    let (sender_compressed, sender_wire) = compress_if_beneficial(sender_bytes);
    let (payload_compressed, payload_wire) = compress_if_beneficial(pkt.payload());
    let flags: u8 = if payload_compressed {
        if sender_compressed {
            3u8
        } else {
            1u8
        }
    } else if sender_compressed {
        2u8
    } else {
        0u8
    };
    let mut out: Vec<u8> = Vec::new();
    out.push(flags);
    out.push(nep);
    write_uleb128(pkt.data_type().to_u32() as u64, &mut out);
    write_uleb128(pkt.data_size() as u64, &mut out);
    write_uleb128(pkt.timestamp(), &mut out);
    write_uleb128(sender_bytes.len() as u64, &mut out);
    if sender_compressed {
        write_uleb128(sender_wire.len() as u64, &mut out);
    }
    proof {
        assert(out@ =~= spec_header(pkt@));
    }
    out.push(bm);
    push_bytes(&mut out, sender_wire.as_slice());
    push_bytes(&mut out, payload_wire.as_slice());
    proof {
        assert(out@ =~= spec_serialize(pkt@));
    }
    out
}

/// Length of the prelude and the varints of the wire form of `pkt` (without
/// the bitmap, the sender and the payload).
pub fn header_size_bytes(pkt: &TelemetryPacket) -> (r: usize)
    ensures
        r == spec_header_size(pkt@),
{
    let sender_bytes = pkt.sender().as_bytes();
    let (sender_compressed, sender_wire) = compress_if_beneficial(sender_bytes);
    let extra = if sender_compressed {
        uleb128_size(sender_wire.len() as u64)
    } else {
        0
    };
    2 + uleb128_size(pkt.data_type().to_u32() as u64) + uleb128_size(pkt.data_size() as u64)
        + uleb128_size(pkt.timestamp()) + uleb128_size(sender_bytes.len() as u64) + extra
}

/// Total length of the wire form of `pkt`.
pub fn packet_wire_size(pkt: &TelemetryPacket) -> (r: usize)
    requires
        spec_serialize(pkt@).len() <= usize::MAX,
    ensures
        r == spec_serialize(pkt@).len(),
{
    let header = header_size_bytes(pkt);
    let sender_bytes = pkt.sender().as_bytes();
    let (_sender_compressed, sender_wire) = compress_if_beneficial(sender_bytes);
    let (_payload_compressed, payload_wire) = compress_if_beneficial(pkt.payload());
    header + EP_BITMAP_BYTES + sender_wire.len() + payload_wire.len()
}

/// What `miniz_oxide::deflate::compress_to_vec` returns for `input` at
/// compression level `level`.
pub uninterp spec fn spec_deflate(input: Seq<u8>, level: u8) -> Seq<u8>;

/// What `miniz_oxide::inflate::decompress_to_vec` returns for `input`: the
/// decoded bytes, or `None` where it reports an error.
pub uninterp spec fn spec_inflate(input: Seq<u8>) -> Option<Seq<u8>>;

/// `miniz_oxide::deflate::compress_to_vec`: raw DEFLATE of `input` at
/// `level`. Claimed of it: the result is the named one, is not empty (a
/// finished stream holds at least its final block), and decompressing it
/// gives `input` back (the crate's documented round trip).
#[verifier::external_body]
fn deflate_bytes(input: &[u8], level: u8) -> (r: Vec<u8>)
    ensures
        r@ == spec_deflate(input@, level),
        r@.len() > 0,
        spec_inflate(r@) == Some(input@),
{
    miniz_oxide::deflate::compress_to_vec(input, level)
}

/// `miniz_oxide::inflate::decompress_to_vec`: decode raw DEFLATE data.
/// Claimed of it: `Some` of the named result exactly when the crate returns
/// `Ok`.
#[verifier::external_body]
fn inflate_bytes(input: &[u8]) -> (r: Option<Vec<u8>>)
    ensures
        match r {
            Some(v) => spec_inflate(input@) == Some(v@),
            None => spec_inflate(input@) is None,
        },
{
    match miniz_oxide::inflate::decompress_to_vec(input) {
        Ok(v) => Some(v),
        Err(_) => None,
    }
}

/// Whether `b` travels compressed, and the bytes that travel: its deflated
/// form at the configured level when `b` is at least the threshold long and
/// that form, plus one, is shorter than `b`; else `b` itself.
pub open spec fn spec_wire_form(b: Seq<u8>) -> (bool, Seq<u8>) {
    if b.len() < PAYLOAD_COMPRESS_THRESHOLD {
        (false, b)
    } else if spec_deflate(b, PAYLOAD_COMPRESSION_LEVEL).len() + 1 >= b.len() {
        (false, b)
    } else {
        (true, spec_deflate(b, PAYLOAD_COMPRESSION_LEVEL))
    }
}

/// What decompressing `c`, expected to give `expected` bytes, gives.
pub open spec fn spec_decompress(c: Seq<u8>, expected: nat) -> TelemetryResult<Seq<u8>> {
    match spec_inflate(c) {
        None => Err(TelemetryError::Deserialize("decompression failed")),
        Some(v) => if v.len() != expected {
            Err(TelemetryError::Deserialize("decompressed size mismatch"))
        } else {
            Ok(v)
        },
    }
}

/// The wire form of `payload`: whether it is compressed, and its bytes
/// (see `spec_wire_form`).
pub fn compress_if_beneficial(payload: &[u8]) -> (r: (bool, Vec<u8>))
    ensures
        r.0 == spec_wire_form(payload@).0,
        r.1@ == spec_wire_form(payload@).1,
        r.0 ==> spec_inflate(r.1@) == Some(payload@) && r.1@.len() > 0,
{
    if payload.len() < PAYLOAD_COMPRESS_THRESHOLD {
        let mut out: Vec<u8> = Vec::new();
        push_bytes(&mut out, payload);
        return (false, out);
    }
    let compressed = deflate_bytes(payload, PAYLOAD_COMPRESSION_LEVEL);
    if compressed.len() >= payload.len() - 1 {
        let mut out: Vec<u8> = Vec::new();
        push_bytes(&mut out, payload);
        (false, out)
    } else {
        (true, compressed)
    }
}

/// Decompress `compressed`, which must give exactly `expected_len` bytes.
pub fn decompress(compressed: &[u8], expected_len: usize) -> (r: TelemetryResult<Vec<u8>>)
    ensures
        match (r, spec_decompress(compressed@, expected_len as nat)) {
            (Ok(v), Ok(sv)) => v@ == sv,
            (Err(e), Err(se)) => e == se,
            _ => false,
        },
{
    let decompressed = match inflate_bytes(compressed) {
        Some(v) => v,
        None => {
            return Err(TelemetryError::Deserialize("decompression failed"));
        },
    };
    if decompressed.len() != expected_len {
        return Err(TelemetryError::Deserialize("decompressed size mismatch"));
    }
    Ok(decompressed)
}

// ---------------------------------------------------------------------------
// Deserialization
// ---------------------------------------------------------------------------

/// The header fields of a wire packet, and the offset of its bitmap.
pub struct WireFields {
    pub flags: u8,
    pub nep: u8,
    pub ty: u64,
    pub dsz: u64,
    pub ts: u64,
    pub slen: u64,
    pub swl: u64,
    pub end: usize,
}

/// The header fields of `buf` (of at least two bytes): the varints after
/// the flags and count bytes; the sender's wire length is an extra varint
/// only when the sender is flagged compressed.
pub open spec fn spec_read_fields(buf: Seq<u8>) -> TelemetryResult<WireFields> {
    match spec_read_uleb(buf, 2) {
        Err(e) => Err(e),
        Ok((ty, p1)) => match spec_read_uleb(buf, p1) {
            Err(e) => Err(e),
            Ok((dsz, p2)) => match spec_read_uleb(buf, p2) {
                Err(e) => Err(e),
                Ok((ts, p3)) => match spec_read_uleb(buf, p3) {
                    Err(e) => Err(e),
                    Ok((slen, p4)) => if buf[0] & FLAG_COMPRESSED_SENDER != 0 {
                        match spec_read_uleb(buf, p4) {
                            Err(e) => Err(e),
                            Ok((swl, p5)) => Ok(
                                WireFields {
                                    flags: buf[0],
                                    nep: buf[1],
                                    ty,
                                    dsz,
                                    ts,
                                    slen,
                                    swl,
                                    end: p5 as usize,
                                },
                            ),
                        }
                    } else {
                        Ok(
                            WireFields {
                                flags: buf[0],
                                nep: buf[1],
                                ty,
                                dsz,
                                ts,
                                slen,
                                swl: slen,
                                end: p4 as usize,
                            },
                        )
                    },
                },
            },
        },
    }
}

fn read_fields(buf: &[u8]) -> (r: TelemetryResult<WireFields>)
    requires
        buf@.len() >= 2,
    ensures
        match (r, spec_read_fields(buf@)) {
            (Ok(h), Ok(sh)) => h == sh && 2 < h.end <= buf@.len(),
            (Err(e), Err(se)) => e == se,
            _ => false,
        },
{
    let (ty, p1) = match read_uleb(buf, 2) {
        Ok(x) => x,
        Err(e) => {
            return Err(e);
        },
    };
    let (dsz, p2) = match read_uleb(buf, p1) {
        Ok(x) => x,
        Err(e) => {
            return Err(e);
        },
    };
    let (ts, p3) = match read_uleb(buf, p2) {
        Ok(x) => x,
        Err(e) => {
            return Err(e);
        },
    };
    let (slen, p4) = match read_uleb(buf, p3) {
        Ok(x) => x,
        Err(e) => {
            return Err(e);
        },
    };
    let flags = buf[0];
    let nep = buf[1];
    if flags & FLAG_COMPRESSED_SENDER != 0 {
        let (swl, p5) = match read_uleb(buf, p4) {
            Ok(x) => x,
            Err(e) => {
                return Err(e);
            },
        };
        Ok(WireFields { flags, nep, ty, dsz, ts, slen, swl, end: p5 })
    } else {
        Ok(WireFields { flags, nep, ty, dsz, ts, slen, swl: slen, end: p4 })
    }
}

/// Whether the flags mark the payload as compressed.
pub open spec fn payload_flag(flags: u8) -> bool {
    flags & FLAG_COMPRESSED_PAYLOAD != 0
}

/// Whether the flags mark the sender as compressed.
pub open spec fn sender_flag(flags: u8) -> bool {
    flags & FLAG_COMPRESSED_SENDER != 0
}

/// Sender bytes of a buffer whose fields are `h`.
pub open spec fn wire_sender(buf: Seq<u8>, h: WireFields) -> Seq<u8> {
    buf.subrange(h.end + 1, h.end + 1 + h.swl)
}

/// The data type named by a type varint, or the error for it.
pub open spec fn spec_type_of(ty: u64) -> TelemetryResult<DataType> {
    if ty > 0xFFFF_FFFF {
        Err(TelemetryError::Deserialize("type too large"))
    } else if ty > MAX_VALUE_DATA_TYPE {
        Err(TelemetryError::InvalidType)
    } else {
        Ok(DataType::spec_from_u32(ty as u32).unwrap())
    }
}

fn type_of(ty: u64) -> (r: TelemetryResult<DataType>)
    ensures
        r == spec_type_of(ty),
{
    if ty > 0xFFFF_FFFF {
        return Err(TelemetryError::Deserialize("type too large"));
    }
    let t = ty as u32;
    if t > MAX_VALUE_DATA_TYPE {
        return Err(TelemetryError::InvalidType);
    }
    Ok(DataType::try_from_u32(t).unwrap())
}

/// Decoding of everything after the header fields `h`.
pub open spec fn spec_decode_body(buf: Seq<u8>, h: WireFields) -> TelemetryResult<PacketModel> {
    let rem = buf.len() - h.end;
    let short = if payload_flag(h.flags) {
        rem < 1 + h.swl + 1
    } else {
        rem < 1 + h.swl + h.dsz
    };
    if short {
        Err(TelemetryError::Deserialize("short buffer"))
    } else {
        let eps = spec_expand(buf[h.end as int]);
        if eps.len() != h.nep {
            Err(TelemetryError::Deserialize("endpoint count mismatch"))
        } else {
            match spec_wire_sender_text(buf, h) {
                Err(e) => Err(e),
                Ok(sender) => match spec_wire_payload(buf, h) {
                    Err(e) => Err(e),
                    Ok(payload) => match spec_type_of(h.ty) {
                        Err(e) => Err(e),
                        Ok(ty) => spec_new(ty, eps, sender, h.ts, payload),
                    },
                },
            }
        }
    }
}

/// The sender's bytes from its wire bytes `w`: decompressed when the
/// fields `h` flag it compressed.
pub open spec fn spec_sender_bytes_of(w: Seq<u8>, h: WireFields) -> TelemetryResult<Seq<u8>> {
    if sender_flag(h.flags) {
        spec_decompress(w, (h.slen as usize) as nat)
    } else {
        Ok(w)
    }
}

/// The sender's text of a buffer whose fields are `h`, or the error for it.
pub open spec fn spec_wire_sender_text(buf: Seq<u8>, h: WireFields) -> TelemetryResult<Seq<char>> {
    spec_wire_sender_text_of(wire_sender(buf, h), h)
}

/// The sender's text from its wire bytes `w`, or the error for it.
pub open spec fn spec_wire_sender_text_of(w: Seq<u8>, h: WireFields) -> TelemetryResult<Seq<char>> {
    match spec_sender_bytes_of(w, h) {
        Err(e) => Err(e),
        Ok(b) => if !vstd::utf8::valid_utf8(b) {
            if sender_flag(h.flags) {
                Err(TelemetryError::Deserialize("sender not UTF-8 after decompress"))
            } else {
                Err(TelemetryError::Deserialize("sender not UTF-8"))
            }
        } else {
            Ok(vstd::utf8::decode_utf8(b))
        },
    }
}

/// The payload of a buffer whose fields are `h` (its bytes after the
/// sender): decompressed from the rest of the buffer when flagged
/// compressed, else the next `dsz` bytes.
pub open spec fn spec_wire_payload(buf: Seq<u8>, h: WireFields) -> TelemetryResult<Seq<u8>> {
    let s0 = h.end + 1 + h.swl;
    if payload_flag(h.flags) {
        spec_decompress(buf.subrange(s0, buf.len() as int), (h.dsz as usize) as nat)
    } else {
        Ok(buf.subrange(s0, s0 + h.dsz))
    }
}

/// What deserializing `buf` gives.
pub open spec fn spec_deserialize(buf: Seq<u8>) -> TelemetryResult<PacketModel> {
    if buf.len() == 0 {
        Err(TelemetryError::Deserialize("short prelude"))
    } else if buf.len() < 2 {
        Err(TelemetryError::Deserialize("short read"))
    } else {
        match spec_read_fields(buf) {
            Err(e) => Err(e),
            Ok(h) => spec_decode_body(buf, h),
        }
    }
}

/// Decode a full packet from its wire form.
pub fn deserialize_packet(buf: &[u8]) -> (r: TelemetryResult<TelemetryPacket>)
    ensures
        view_result(r) == spec_deserialize(buf@),
{
    if buf.len() == 0 {
        return Err(TelemetryError::Deserialize("short prelude"));
    }
    if buf.len() < 2 {
        return Err(TelemetryError::Deserialize("short read"));
    }
    let h = match read_fields(buf) {
        Ok(h) => h,
        Err(e) => {
            return Err(e);
        },
    };
    let rem = buf.len() - h.end;
    let payload_compressed = h.flags & FLAG_COMPRESSED_PAYLOAD != 0;
    let need: u128 = if payload_compressed {
        1 + h.swl as u128 + 1
    } else {
        1 + h.swl as u128 + h.dsz as u128
    };
    if (rem as u128) < need {
        return Err(TelemetryError::Deserialize("short buffer"));
    }
    let eps = expand_endpoint_bitmap(buf[h.end]);
    if eps.len() != h.nep as usize {
        return Err(TelemetryError::Deserialize("endpoint count mismatch"));
    }
    let s0 = h.end + 1;
    let s1 = s0 + h.swl as usize;
    let sender_wire = slice_subrange(buf, s0, s1);
    let sender = match read_sender_text(sender_wire, &h) {
        Ok(x) => x,
        Err(e) => {
            return Err(e);
        },
    };
    let inflated: Vec<u8>;
    let payload: &[u8] = if payload_compressed {
        inflated = match decompress(slice_subrange(buf, s1, buf.len()), h.dsz as usize) {
            Ok(v) => v,
            Err(e) => {
                return Err(e);
            },
        };
        inflated.as_slice()
    } else {
        slice_subrange(buf, s1, s1 + h.dsz as usize)
    };
    let ty = match type_of(h.ty) {
        Ok(t) => t,
        Err(e) => {
            return Err(e);
        },
    };
    TelemetryPacket::new(ty, eps.as_slice(), sender.as_str(), h.ts, payload)
}

/// The sender's text from its wire bytes `w` (decompressed first when the
/// fields `h` flag it compressed).
fn read_sender_text(w: &[u8], h: &WireFields) -> (r: TelemetryResult<String>)
    ensures
        match (r, spec_wire_sender_text_of(w@, *h)) {
            (Ok(x), Ok(sx)) => x@ == sx,
            (Err(e), Err(se)) => e == se,
            _ => false,
        },
{
    if h.flags & FLAG_COMPRESSED_SENDER != 0 {
        let bytes = match decompress(w, h.slen as usize) {
            Ok(v) => v,
            Err(e) => {
                return Err(e);
            },
        };
        match str_from_utf8(bytes.as_slice()) {
            Some(s) => {
                proof {
                    vstd::utf8::encode_utf8_decode_utf8(s@);
                }
                Ok(s.to_owned())
            },
            None => Err(TelemetryError::Deserialize("sender not UTF-8 after decompress")),
        }
    } else {
        match str_from_utf8(w) {
            Some(s) => {
                proof {
                    vstd::utf8::encode_utf8_decode_utf8(s@);
                }
                Ok(s.to_owned())
            },
            None => Err(TelemetryError::Deserialize("sender not UTF-8")),
        }
    }
}

// ---------------------------------------------------------------------------
// Envelope and identifier from the wire
// ---------------------------------------------------------------------------

/// Header-only view of a wire packet.
#[derive(Clone, Debug)]
pub struct TelemetryEnvelope {
    /// Data type of the packet.
    pub ty: DataType,
    /// Endpoints named by the bitmap, in ascending discriminant order.
    pub endpoints: Vec<DataEndpoint>,
    /// Sender identifier.
    pub sender: String,
    /// Timestamp in milliseconds.
    pub timestamp_ms: u64,
}

/// Model of an envelope.
pub struct EnvelopeModel {
    pub ty: DataType,
    pub endpoints: Seq<DataEndpoint>,
    pub sender: Seq<char>,
    pub timestamp_ms: u64,
}

impl View for TelemetryEnvelope {
    type V = EnvelopeModel;

    open spec fn view(&self) -> EnvelopeModel {
        EnvelopeModel {
            ty: self.ty,
            endpoints: self.endpoints@,
            sender: self.sender@,
            timestamp_ms: self.timestamp_ms,
        }
    }
}

/// What peeking at the envelope of `buf` gives (the payload is not read).
pub open spec fn spec_peek(buf: Seq<u8>) -> TelemetryResult<EnvelopeModel> {
    if buf.len() == 0 {
        Err(TelemetryError::Deserialize("short prelude"))
    } else if buf.len() < 2 {
        Err(TelemetryError::Deserialize("short read"))
    } else {
        match spec_read_fields(buf) {
            Err(e) => Err(e),
            Ok(h) => if buf.len() - h.end < 1 + h.swl {
                Err(TelemetryError::Deserialize("short buffer"))
            } else {
                let eps = spec_expand(buf[h.end as int]);
                if eps.len() != h.nep {
                    Err(TelemetryError::Deserialize("endpoint count mismatch"))
                } else {
                    match spec_wire_sender_text(buf, h) {
                        Err(e) => Err(e),
                        Ok(sender) => match spec_type_of(h.ty) {
                            Err(e) => Err(e),
                            Ok(ty) => Ok(EnvelopeModel { ty, endpoints: eps, sender, timestamp_ms: h.ts }),
                        },
                    }
                }
            },
        }
    }
}

/// The envelope result viewed through its model.
pub open spec fn view_envelope(r: TelemetryResult<TelemetryEnvelope>) -> TelemetryResult<EnvelopeModel> {
    match r {
        Ok(e) => Ok(e@),
        Err(e) => Err(e),
    }
}

/// Decode only the header of a wire packet: type, endpoints, sender and
/// timestamp.
pub fn peek_envelope(buf: &[u8]) -> (r: TelemetryResult<TelemetryEnvelope>)
    ensures
        view_envelope(r) == spec_peek(buf@),
{
    if buf.len() == 0 {
        return Err(TelemetryError::Deserialize("short prelude"));
    }
    if buf.len() < 2 {
        return Err(TelemetryError::Deserialize("short read"));
    }
    let h = match read_fields(buf) {
        Ok(h) => h,
        Err(e) => {
            return Err(e);
        },
    };
    let rem = buf.len() - h.end;
    if (rem as u128) < 1 + h.swl as u128 {
        return Err(TelemetryError::Deserialize("short buffer"));
    }
    let eps = expand_endpoint_bitmap(buf[h.end]);
    if eps.len() != h.nep as usize {
        return Err(TelemetryError::Deserialize("endpoint count mismatch"));
    }
    let s0 = h.end + 1;
    let sender_wire = slice_subrange(buf, s0, s0 + h.swl as usize);
    let sender = match read_sender_text(sender_wire, &h) {
        Ok(x) => x,
        Err(e) => {
            return Err(e);
        },
    };
    let ty = match type_of(h.ty) {
        Ok(t) => t,
        Err(e) => {
            return Err(e);
        },
    };
    Ok(TelemetryEnvelope { ty, endpoints: eps, sender, timestamp_ms: h.ts })
}

/// Identifier of the packet encoded in `buf`, computed from the wire bytes
/// as `TelemetryPacket::packet_id` computes it from a packet.
pub open spec fn spec_packet_id_from_wire(buf: Seq<u8>) -> TelemetryResult<u64> {
    if buf.len() < 2 {
        Err(TelemetryError::Deserialize("short prelude"))
    } else {
        match spec_read_fields(buf) {
            Err(e) => Err(e),
            Ok(h) => if buf.len() - h.end < 1 + h.swl {
                Err(TelemetryError::Deserialize("short buffer"))
            } else {
                match spec_type_of(h.ty) {
                    Err(e) => Err(e),
                    Ok(ty) => match spec_sender_bytes_of(wire_sender(buf, h), h) {
                        Err(e) => Err(e),
                        Ok(sb) => {
                            let s0 = h.end + 1 + h.swl;
                            let rest = buf.len() - s0;
                            if !payload_flag(h.flags) && rest < h.dsz {
                                Err(TelemetryError::Deserialize("short buffer"))
                            } else if payload_flag(h.flags) && rest < 1 {
                                Err(TelemetryError::Deserialize("short buffer"))
                            } else {
                                match spec_wire_payload(buf, h) {
                                    Err(e) => Err(e),
                                    Ok(pl) => Ok(
                                        spec_hash_bytes(
                                            HASH_SEED,
                                            sb + spec_message_name(ty).spec_bytes() + endpoint_name_bytes(
                                                spec_expand(buf[h.end as int]),
                                            ) + le_bytes(h.ts as nat, 8) + le_bytes(h.dsz as nat, 8) + pl,
                                        ),
                                    ),
                                }
                            }
                        },
                    },
                }
            },
        }
    }
}

/// Hash the names of the endpoints whose bits are set in `bm`, in
/// ascending discriminant order.
fn hash_bitmap_names(h: u64, bm: u8) -> (r: u64)
    ensures
        r == spec_hash_bytes(h, endpoint_name_bytes(spec_expand(bm))),
{
    let mut acc = h;
    let mut i: u8 = 0;
    while i < 7
        invariant
            i <= 7,
            acc == spec_hash_bytes(h, endpoint_name_bytes(expand_upto(bm, i as nat))),
        decreases 7 - i,
    {
        if (bm >> i) & 1u8 == 1u8 {
            let ep = DataEndpoint::try_from_u32(i as u32).unwrap();
            let ghost prev = expand_upto(bm, i as nat);
            acc = hash_bytes_u64(acc, ep.as_str().as_bytes());
            proof {
                assert(prev.push(ep).drop_last() =~= prev);
                lemma_hash_concat(h, endpoint_name_bytes(prev), ep.spec_name().spec_bytes());
            }
        }
        i = i + 1;
    }
    acc
}

/// Compute the packet identifier directly from wire bytes.
pub fn packet_id_from_wire(buf: &[u8]) -> (r: TelemetryResult<u64>)
    ensures
        r == spec_packet_id_from_wire(buf@),
{
    if buf.len() < 2 {
        return Err(TelemetryError::Deserialize("short prelude"));
    }
    let h = match read_fields(buf) {
        Ok(h) => h,
        Err(e) => {
            return Err(e);
        },
    };
    let rem = buf.len() - h.end;
    if (rem as u128) < 1 + h.swl as u128 {
        return Err(TelemetryError::Deserialize("short buffer"));
    }
    let bm = buf[h.end];
    let ty = match type_of(h.ty) {
        Ok(t) => t,
        Err(e) => {
            return Err(e);
        },
    };
    let s0 = h.end + 1;
    let s1 = s0 + h.swl as usize;
    let sender_raw = slice_subrange(buf, s0, s1);
    let sender_inflated: Vec<u8>;
    let sender_wire: &[u8] = if h.flags & FLAG_COMPRESSED_SENDER != 0 {
        sender_inflated = match decompress(sender_raw, h.slen as usize) {
            Ok(v) => v,
            Err(e) => {
                return Err(e);
            },
        };
        sender_inflated.as_slice()
    } else {
        sender_raw
    };
    let rest = buf.len() - s1;
    let inflated: Vec<u8>;
    let payload: &[u8] = if h.flags & FLAG_COMPRESSED_PAYLOAD == 0 {
        if (rest as u128) < h.dsz as u128 {
            return Err(TelemetryError::Deserialize("short buffer"));
        }
        slice_subrange(buf, s1, s1 + h.dsz as usize)
    } else {
        if rest < 1 {
            return Err(TelemetryError::Deserialize("short buffer"));
        }
        inflated = match decompress(slice_subrange(buf, s1, buf.len()), h.dsz as usize) {
            Ok(v) => v,
            Err(e) => {
                return Err(e);
            },
        };
        inflated.as_slice()
    };
    let mut hash = HASH_SEED;
    hash = hash_bytes_u64(hash, sender_wire);
    hash = hash_bytes_u64(hash, get_message_name(ty).as_bytes());
    hash = hash_bitmap_names(hash, bm);
    let mut ts: Vec<u8> = Vec::new();
    crate::le_bytes::LeBytes::write_le(h.ts, &mut ts);
    hash = hash_bytes_u64(hash, ts.as_slice());
    let mut ds: Vec<u8> = Vec::new();
    crate::le_bytes::LeBytes::write_le(h.dsz, &mut ds);
    hash = hash_bytes_u64(hash, ds.as_slice());
    hash = hash_bytes_u64(hash, payload);
    proof {
        let a = sender_wire@;
        let b = spec_message_name(ty).spec_bytes();
        let c = endpoint_name_bytes(spec_expand(bm));
        let d = le_bytes(h.ts as nat, 8);
        let e = le_bytes(h.dsz as nat, 8);
        let f = payload@;
        assert(ts@ =~= d);
        assert(ds@ =~= e);
        lemma_hash_concat(HASH_SEED, a, b);
        lemma_hash_concat(HASH_SEED, a + b, c);
        lemma_hash_concat(HASH_SEED, a + b + c, d);
        lemma_hash_concat(HASH_SEED, a + b + c + d, e);
        lemma_hash_concat(HASH_SEED, a + b + c + d + e, f);
    }
    Ok(hash)
}

// ---------------------------------------------------------------------------
// Laws of the wire format
// ---------------------------------------------------------------------------

/// `p` with its endpoints replaced by their canonical form.
pub open spec fn canonical_model(p: PacketModel) -> PacketModel {
    PacketModel { endpoints: spec_canonical_endpoints(p.endpoints), ..p }
}

/// The fields that reading the wire form of `p` gives.
pub open spec fn serialized_fields(p: PacketModel) -> WireFields {
    let ws = spec_wire_form(p.sender_bytes());
    WireFields {
        flags: spec_flags(spec_wire_form(p.payload).0, ws.0),
        nep: spec_canonical_endpoints(p.endpoints).len() as u8,
        ty: p.ty.spec_to_u32() as u64,
        dsz: p.data_size as u64,
        ts: p.timestamp,
        slen: p.sender_bytes().len() as u64,
        swl: ws.1.len() as u64,
        end: spec_header_size(p) as usize,
    }
}

proof fn lemma_flag_bits(pc: bool, sc: bool)
    ensures
        payload_flag(spec_flags(pc, sc)) == pc,
        sender_flag(spec_flags(pc, sc)) == sc,
{
    assert(3u8 & 1u8 == 1u8) by (bit_vector);
    assert(3u8 & 2u8 == 2u8) by (bit_vector);
    assert(1u8 & 1u8 == 1u8) by (bit_vector);
    assert(1u8 & 2u8 == 0u8) by (bit_vector);
    assert(2u8 & 1u8 == 0u8) by (bit_vector);
    assert(2u8 & 2u8 == 2u8) by (bit_vector);
    assert(0u8 & 1u8 == 0u8) by (bit_vector);
    assert(0u8 & 2u8 == 0u8) by (bit_vector);
}

/// Reading the header of the wire form of a packet gives its fields back.
#[verifier::rlimit(60)]
pub proof fn lemma_read_fields_serialize(p: PacketModel)
    requires
        p.data_size <= u64::MAX,
        p.sender_bytes().len() <= u64::MAX,
        spec_serialize(p).len() <= usize::MAX,
    ensures
        spec_read_fields(spec_serialize(p)) == Ok::<WireFields, TelemetryError>(serialized_fields(p)),
        spec_serialize(p).len() == spec_header_size(p) + 1 + spec_wire_form(p.sender_bytes()).1.len()
            + spec_wire_form(p.payload).1.len(),
{
    let buf = spec_serialize(p);
    let ws = spec_wire_form(p.sender_bytes());
    let wp = spec_wire_form(p.payload);
    let fl = spec_flags(wp.0, ws.0);
    let n = spec_canonical_endpoints(p.endpoints).len() as u8;
    let e1 = uleb_enc(p.ty.spec_to_u32() as nat);
    let e2 = uleb_enc(p.data_size);
    let e3 = uleb_enc(p.timestamp as nat);
    let e4 = uleb_enc(p.sender_bytes().len());
    let e5 = if ws.0 {
        uleb_enc(ws.1.len())
    } else {
        Seq::<u8>::empty()
    };
    let tail = seq![spec_bitmap(p.endpoints)] + ws.1 + wp.1;
    assert(buf =~= seq![fl, n] + e1 + e2 + e3 + e4 + e5 + tail);
    let p1 = 2 + e1.len();
    let p2 = p1 + e2.len();
    let p3 = p2 + e3.len();
    let p4 = p3 + e4.len();
    let p5 = p4 + e5.len();
    assert(buf.subrange(2, p1 as int) =~= e1);
    assert(buf.subrange(p1 as int, p2 as int) =~= e2);
    assert(buf.subrange(p2 as int, p3 as int) =~= e3);
    assert(buf.subrange(p3 as int, p4 as int) =~= e4);
    lemma_read_uleb_roundtrip(p.ty.spec_to_u32() as u64, buf, 2);
    lemma_read_uleb_roundtrip(p.data_size as u64, buf, p1 as int);
    lemma_read_uleb_roundtrip(p.timestamp, buf, p2 as int);
    lemma_read_uleb_roundtrip(p.sender_bytes().len() as u64, buf, p3 as int);
    if ws.0 {
        assert(buf.subrange(p4 as int, p5 as int) =~= e5);
        lemma_read_uleb_roundtrip(ws.1.len() as u64, buf, p4 as int);
    }
    lemma_flag_bits(wp.0, ws.0);
    assert(buf[0] == fl);
    assert(buf[1] == n);
}

/// The sender bytes and the payload that decoding the wire form of a packet
/// reads are the packet's own.
#[verifier::rlimit(60)]
proof fn lemma_wire_parts_serialize(p: PacketModel)
    requires
        spec_valid(p),
        p.data_size <= usize::MAX,
        p.sender_bytes().len() <= usize::MAX,
        spec_serialize(p).len() <= usize::MAX,
        wire_invertible(p),
    ensures
        spec_read_fields(spec_serialize(p)) == Ok::<WireFields, TelemetryError>(serialized_fields(p)),
        spec_serialize(p)[spec_header_size(p) as int] == spec_bitmap(p.endpoints),
        spec_sender_bytes_of(wire_sender(spec_serialize(p), serialized_fields(p)), serialized_fields(p)) == Ok::<
            Seq<u8>,
            TelemetryError,
        >(p.sender_bytes()),
        spec_wire_payload(spec_serialize(p), serialized_fields(p)) == Ok::<Seq<u8>, TelemetryError>(p.payload),
        spec_serialize(p).len() - spec_header_size(p) == 1 + spec_wire_form(p.sender_bytes()).1.len()
            + spec_wire_form(p.payload).1.len(),
        payload_flag(serialized_fields(p).flags) ==> spec_wire_form(p.payload).1.len() >= 1,
        !payload_flag(serialized_fields(p).flags) ==> spec_wire_form(p.payload).1.len() == p.data_size,
        sender_flag(serialized_fields(p).flags) == spec_wire_form(p.sender_bytes()).0,
{
    let buf = spec_serialize(p);
    let h = serialized_fields(p);
    let ws = spec_wire_form(p.sender_bytes());
    let wp = spec_wire_form(p.payload);
    let hs = spec_header_size(p);
    lemma_read_fields_serialize(p);
    lemma_flag_bits(wp.0, ws.0);
    assert(buf =~= spec_header(p) + seq![spec_bitmap(p.endpoints)] + ws.1 + wp.1);
    assert(buf[hs as int] == spec_bitmap(p.endpoints));
    assert(wire_sender(buf, h) =~= ws.1);
    let s0 = hs + 1 + ws.1.len();
    if ws.0 {
        assert(spec_inflate(ws.1) == Some(p.sender_bytes()));
        assert((h.slen as usize) as nat == p.sender_bytes().len());
    }
    if wp.0 {
        assert(buf.subrange(s0 as int, buf.len() as int) =~= wp.1);
        assert(spec_inflate(wp.1) == Some(p.payload));
        assert((h.dsz as usize) as nat == p.data_size);
    } else {
        assert(buf.subrange(s0 as int, (s0 + p.data_size) as int) =~= p.payload);
    }
}

/// Decoding the wire form of a valid packet gives the packet back, with its
/// endpoints in canonical form (distinct, ascending discriminant). The
/// compressed parts decompress back as compressing them showed.
pub proof fn lemma_deserialize_serialize(p: PacketModel)
    requires
        spec_valid(p),
        p.data_size <= usize::MAX,
        p.sender_bytes().len() <= usize::MAX,
        spec_serialize(p).len() <= usize::MAX,
        wire_invertible(p),
    ensures
        spec_deserialize(spec_serialize(p)) == Ok::<PacketModel, TelemetryError>(canonical_model(p)),
{
    let buf = spec_serialize(p);
    let h = serialized_fields(p);
    lemma_wire_parts_serialize(p);
    lemma_expand_bitmap(p.endpoints);
    crate::config::lemma_canonical_contains(p.endpoints, p.endpoints[0]);
    vstd::utf8::encode_utf8_valid_utf8(p.sender);
    vstd::utf8::encode_utf8_decode_utf8(p.sender);
    crate::config::lemma_data_type_u32_roundtrip(p.ty);
    assert(spec_type_of(h.ty) == Ok::<DataType, TelemetryError>(p.ty));
    assert(spec_wire_sender_text(buf, h) == Ok::<Seq<char>, TelemetryError>(p.sender));
    assert(canonical_model(p) == PacketModel {
        ty: p.ty,
        data_size: p.payload.len(),
        sender: p.sender,
        endpoints: spec_canonical_endpoints(p.endpoints),
        timestamp: p.timestamp,
        payload: p.payload,
    });
}

/// Peeking at the wire form of a packet gives its type, canonical
/// endpoints, sender and timestamp.
pub proof fn lemma_peek_serialize(p: PacketModel)
    requires
        spec_valid(p),
        p.data_size <= usize::MAX,
        p.sender_bytes().len() <= usize::MAX,
        spec_serialize(p).len() <= usize::MAX,
        wire_invertible(p),
    ensures
        spec_peek(spec_serialize(p)) == Ok::<EnvelopeModel, TelemetryError>(
            EnvelopeModel {
                ty: p.ty,
                endpoints: spec_canonical_endpoints(p.endpoints),
                sender: p.sender,
                timestamp_ms: p.timestamp,
            },
        ),
{
    let buf = spec_serialize(p);
    let h = serialized_fields(p);
    lemma_wire_parts_serialize(p);
    lemma_expand_bitmap(p.endpoints);
    crate::config::lemma_canonical_contains(p.endpoints, p.endpoints[0]);
    vstd::utf8::encode_utf8_valid_utf8(p.sender);
    vstd::utf8::encode_utf8_decode_utf8(p.sender);
    crate::config::lemma_data_type_u32_roundtrip(p.ty);
    assert(spec_type_of(h.ty) == Ok::<DataType, TelemetryError>(p.ty));
    assert(spec_wire_sender_text(buf, h) == Ok::<Seq<char>, TelemetryError>(p.sender));
}

/// The identifier computed from the wire form of a packet is the packet's
/// own identifier.
pub proof fn lemma_packet_id_from_wire_serialize(p: PacketModel)
    requires
        spec_valid(p),
        p.data_size <= usize::MAX,
        p.sender_bytes().len() <= usize::MAX,
        spec_serialize(p).len() <= usize::MAX,
        wire_invertible(p),
    ensures
        spec_packet_id_from_wire(spec_serialize(p)) == Ok::<u64, TelemetryError>(spec_packet_id(p)),
{
    let buf = spec_serialize(p);
    let h = serialized_fields(p);
    lemma_wire_parts_serialize(p);
    lemma_expand_bitmap(p.endpoints);
    crate::config::lemma_data_type_u32_roundtrip(p.ty);
    assert(spec_type_of(h.ty) == Ok::<DataType, TelemetryError>(p.ty));
    assert(packet_id_input(p) =~= p.sender_bytes() + spec_message_name(p.ty).spec_bytes()
        + endpoint_name_bytes(spec_expand(buf[h.end as int])) + le_bytes(h.ts as nat, 8)
        + le_bytes(h.dsz as nat, 8) + p.payload);
}

/// The header (prelude and varints) is a proper, non-empty prefix of the
/// wire form: the endpoint bitmap always follows it.
pub proof fn lemma_header_prefix(p: PacketModel)
    ensures
        0 < spec_header_size(p) < spec_serialize(p).len(),
        spec_serialize(p).subrange(0, spec_header_size(p) as int) == spec_header(p),
        spec_serialize(p)[spec_header_size(p) as int] == spec_bitmap(p.endpoints),
{
    let h = spec_header(p);
    let w = spec_serialize(p);
    assert(w =~= h + seq![spec_bitmap(p.endpoints)] + spec_wire_form(p.sender_bytes()).1 + spec_wire_form(p.payload).1);
    assert(w.subrange(0, h.len() as int) =~= h);
}

/// The wire form depends on the endpoints only through their canonical
/// form, so re-serializing a decoded packet gives the same bytes.
pub proof fn lemma_serialize_canonical(p: PacketModel)
    ensures
        spec_serialize(canonical_model(p)) == spec_serialize(p),
        spec_header_size(canonical_model(p)) == spec_header_size(p),
{
    let c = spec_canonical_endpoints(p.endpoints);
    crate::config::lemma_canonical_idempotent(p.endpoints);
    assert forall|i: nat| i < 7 implies (c.contains(#[trigger] endpoint_at(i))
        <==> p.endpoints.contains(endpoint_at(i))) by {
        crate::config::lemma_canonical_contains(p.endpoints, endpoint_at(i));
    }
    lemma_bitmap_same(c, p.endpoints, 7);
}

proof fn lemma_bitmap_same(a: Seq<DataEndpoint>, b: Seq<DataEndpoint>, n: nat)
    requires
        n <= 7,
        forall|i: nat| i < 7 ==> (a.contains(#[trigger] endpoint_at(i)) <==> b.contains(endpoint_at(i))),
    ensures
        bitmap_upto(a, n) == bitmap_upto(b, n),
    decreases n,
{
    if n > 0 {
        lemma_bitmap_same(a, b, (n - 1) as nat);
        assert(a.contains(endpoint_at((n - 1) as nat)) <==> b.contains(endpoint_at((n - 1) as nat)));
    }
}

/// Two packets that differ only in the order or repetition of their
/// endpoints have the same wire form.
pub proof fn lemma_serialize_endpoint_order(p: PacketModel, q: PacketModel)
    requires
        p.ty == q.ty,
        p.data_size == q.data_size,
        p.sender == q.sender,
        p.timestamp == q.timestamp,
        p.payload == q.payload,
        spec_canonical_endpoints(p.endpoints) == spec_canonical_endpoints(q.endpoints),
    ensures
        spec_serialize(p) == spec_serialize(q),
{
    lemma_serialize_canonical(p);
    lemma_serialize_canonical(q);
    assert(canonical_model(p) == canonical_model(q));
}

} // verus!
