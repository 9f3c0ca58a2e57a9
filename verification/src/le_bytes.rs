//! Little-endian encoding of integers and the byte hash used for packet IDs.
use vstd::prelude::*;

verus! {

/// The `n` low-order bytes of `v`, least significant first.
pub open spec fn le_bytes(v: nat, n: nat) -> Seq<u8>
    decreases n,
{
    if n == 0 {
        Seq::empty()
    } else {
        seq![(v % 256) as u8] + le_bytes(v / 256, (n - 1) as nat)
    }
}

/// The value of little-endian bytes.
pub open spec fn le_value(b: Seq<u8>) -> nat
    decreases b.len(),
{
    if b.len() == 0 {
        0
    } else {
        b[0] as nat + 256 * le_value(b.drop_first())
    }
}

proof fn lemma_le_bytes_len(v: nat, n: nat)
    ensures
        le_bytes(v, n).len() == n,
    decreases n,
{
    if n > 0 {
        lemma_le_bytes_len(v / 256, (n - 1) as nat);
    }
}

/// Appends the `n` low-order bytes of `v`, least significant first.
fn push_le(out: &mut Vec<u8>, v: u128, n: usize)
    ensures
        final(out)@ == old(out)@ + le_bytes(v as nat, n as nat),
    decreases n,
{
    if n > 0 {
        out.push((v % 256) as u8);
        push_le(out, v / 256, n - 1);
        proof {
            assert(final(out)@ =~= old(out)@ + le_bytes(v as nat, n as nat));
        }
    } else {
        proof {
            assert(final(out)@ =~= old(out)@ + le_bytes(v as nat, n as nat));
        }
    }
}

/// `256^n`.
pub open spec fn p256(n: nat) -> nat
    decreases n,
{
    if n == 0 {
        1
    } else {
        256 * p256((n - 1) as nat)
    }
}

/// Reading back `n` little-endian bytes of a value below `256^n` gives it.
pub proof fn lemma_le_roundtrip(v: nat, n: nat)
    requires
        v < p256(n),
    ensures
        le_value(le_bytes(v, n)) == v,
        le_bytes(v, n).len() == n,
    decreases n,
{
    lemma_le_bytes_len(v, n);
    if n > 0 {
        assert(v / 256 < p256((n - 1) as nat));
        lemma_le_roundtrip(v / 256, (n - 1) as nat);
        assert(le_bytes(v, n).drop_first() =~= le_bytes(v / 256, (n - 1) as nat));
    }
}

/// The value of `n` bytes is below `256^n`.
pub proof fn lemma_le_value_below(b: Seq<u8>)
    ensures
        le_value(b) < p256(b.len()),
    decreases b.len(),
{
    if b.len() > 0 {
        lemma_le_value_below(b.drop_first());
        let r = le_value(b.drop_first());
        let p = p256((b.len() - 1) as nat);
        assert(b[0] as nat + 256 * r < 256 * p) by (nonlinear_arith)
            requires
                r < p,
                b[0] < 256,
        ;
    }
}

/// `256^n` grows with `n`.
pub proof fn lemma_p256_mono(a: nat, b: nat)
    requires
        a <= b,
    ensures
        p256(a) <= p256(b),
    decreases b,
{
    if a < b {
        lemma_p256_mono(a, (b - 1) as nat);
    }
}

/// `256^8` is `2^64`.
pub proof fn lemma_p256_8()
    ensures
        p256(8) == 0x1_0000_0000_0000_0000,
{
    reveal_with_fuel(p256, 9);
}

/// The little-endian `u64` stored at `start`.
pub fn read_u64_le(b: &[u8], start: usize) -> (r: u64)
    requires
        start + 8 <= b@.len(),
    ensures
        r == le_value(b@.subrange(start as int, start + 8)),
{
    let ghost chunk = b@.subrange(start as int, start + 8);
    let mut v: u64 = 0;
    let mut j: usize = 8;
    proof {
        assert(chunk.skip(8) =~= Seq::<u8>::empty());
        lemma_p256_8();
    }
    while j > 0
        invariant
            j <= 8,
            start + 8 <= b.len(),
            chunk == b@.subrange(start as int, start + 8),
            v == le_value(chunk.skip(j as int)),
            p256(8) == 0x1_0000_0000_0000_0000,
        decreases j,
    {
        proof {
            lemma_le_value_below(chunk.skip(j as int));
            assert(chunk.skip(j - 1).drop_first() =~= chunk.skip(j as int));
            assert(chunk.skip(j - 1)[0] == b@[start + j - 1]);
            lemma_le_value_below(chunk.skip(j - 1));
            lemma_p256_mono((9 - j) as nat, 8);
            assert(le_value(chunk.skip(j - 1)) == b@[start + j - 1] as nat + 256 * v);
        }
        v = v * 256 + b[start + j - 1] as u64;
        j = j - 1;
    }
    assert(chunk.skip(0) =~= chunk);
    v
}

/// Numeric types with a fixed-width little-endian encoding.
pub trait LeBytes: Copy + Sized {
    /// The little-endian bytes of the value.
    spec fn spec_le_bytes(self) -> Seq<u8>;

    /// Width of the encoding in bytes.
    spec fn spec_width() -> nat;

    /// Width of the encoding in bytes.
    fn width() -> (r: usize)
        ensures
            r == Self::spec_width(),
            1 <= r <= 16,
    ;

    /// The encoding is exactly `spec_width()` bytes long.
    proof fn lemma_le_len(self)
        ensures
            self.spec_le_bytes().len() == Self::spec_width(),
    ;

    /// Append the little-endian bytes of the value to `out`.
    fn write_le(self, out: &mut Vec<u8>)
        ensures
            final(out)@ == old(out)@ + self.spec_le_bytes(),
    ;
}

impl LeBytes for u8 {
    open spec fn spec_le_bytes(self) -> Seq<u8> {
        le_bytes(self as nat, 1)
    }

    open spec fn spec_width() -> nat {
        1
    }

    fn width() -> (r: usize) {
        1
    }

    proof fn lemma_le_len(self) {
        lemma_le_bytes_len(self as nat, 1);
    }

    fn write_le(self, out: &mut Vec<u8>) {
        proof {
            lemma_le_bytes_len(self as nat, 1);
        }
        push_le(out, self as u128, 1);
    }
}

impl LeBytes for u16 {
    open spec fn spec_le_bytes(self) -> Seq<u8> {
        le_bytes(self as nat, 2)
    }

    open spec fn spec_width() -> nat {
        2
    }

    fn width() -> (r: usize) {
        2
    }

    proof fn lemma_le_len(self) {
        lemma_le_bytes_len(self as nat, 2);
    }

    fn write_le(self, out: &mut Vec<u8>) {
        proof {
            lemma_le_bytes_len(self as nat, 2);
        }
        push_le(out, self as u128, 2);
    }
}

impl LeBytes for u32 {
    open spec fn spec_le_bytes(self) -> Seq<u8> {
        le_bytes(self as nat, 4)
    }

    open spec fn spec_width() -> nat {
        4
    }

    fn width() -> (r: usize) {
        4
    }

    proof fn lemma_le_len(self) {
        lemma_le_bytes_len(self as nat, 4);
    }

    fn write_le(self, out: &mut Vec<u8>) {
        proof {
            lemma_le_bytes_len(self as nat, 4);
        }
        push_le(out, self as u128, 4);
    }
}

impl LeBytes for u64 {
    open spec fn spec_le_bytes(self) -> Seq<u8> {
        le_bytes(self as nat, 8)
    }

    open spec fn spec_width() -> nat {
        8
    }

    fn width() -> (r: usize) {
        8
    }

    proof fn lemma_le_len(self) {
        lemma_le_bytes_len(self as nat, 8);
    }

    fn write_le(self, out: &mut Vec<u8>) {
        proof {
            lemma_le_bytes_len(self as nat, 8);
        }
        push_le(out, self as u128, 8);
    }
}

impl LeBytes for u128 {
    open spec fn spec_le_bytes(self) -> Seq<u8> {
        le_bytes(self as nat, 16)
    }

    open spec fn spec_width() -> nat {
        16
    }

    fn width() -> (r: usize) {
        16
    }

    proof fn lemma_le_len(self) {
        lemma_le_bytes_len(self as nat, 16);
    }

    fn write_le(self, out: &mut Vec<u8>) {
        proof {
            lemma_le_bytes_len(self as nat, 16);
        }
        push_le(out, self, 16);
    }
}

impl LeBytes for i8 {
    open spec fn spec_le_bytes(self) -> Seq<u8> {
        le_bytes((self as u8) as nat, 1)
    }

    open spec fn spec_width() -> nat {
        1
    }

    fn width() -> (r: usize) {
        1
    }

    proof fn lemma_le_len(self) {
        lemma_le_bytes_len((self as u8) as nat, 1);
    }

    fn write_le(self, out: &mut Vec<u8>) {
        proof {
            lemma_le_bytes_len((self as u8) as nat, 1);
        }
        push_le(out, (self as u8) as u128, 1);
    }
}

impl LeBytes for i16 {
    open spec fn spec_le_bytes(self) -> Seq<u8> {
        le_bytes((self as u16) as nat, 2)
    }

    open spec fn spec_width() -> nat {
        2
    }

    fn width() -> (r: usize) {
        2
    }

    proof fn lemma_le_len(self) {
        lemma_le_bytes_len((self as u16) as nat, 2);
    }

    fn write_le(self, out: &mut Vec<u8>) {
        proof {
            lemma_le_bytes_len((self as u16) as nat, 2);
        }
        push_le(out, (self as u16) as u128, 2);
    }
}

impl LeBytes for i32 {
    open spec fn spec_le_bytes(self) -> Seq<u8> {
        le_bytes((self as u32) as nat, 4)
    }

    open spec fn spec_width() -> nat {
        4
    }

    fn width() -> (r: usize) {
        4
    }

    proof fn lemma_le_len(self) {
        lemma_le_bytes_len((self as u32) as nat, 4);
    }

    fn write_le(self, out: &mut Vec<u8>) {
        proof {
            lemma_le_bytes_len((self as u32) as nat, 4);
        }
        push_le(out, (self as u32) as u128, 4);
    }
}

impl LeBytes for i64 {
    open spec fn spec_le_bytes(self) -> Seq<u8> {
        le_bytes((self as u64) as nat, 8)
    }

    open spec fn spec_width() -> nat {
        8
    }

    fn width() -> (r: usize) {
        8
    }

    proof fn lemma_le_len(self) {
        lemma_le_bytes_len((self as u64) as nat, 8);
    }

    fn write_le(self, out: &mut Vec<u8>) {
        proof {
            lemma_le_bytes_len((self as u64) as nat, 8);
        }
        push_le(out, (self as u64) as u128, 8);
    }
}

impl LeBytes for i128 {
    open spec fn spec_le_bytes(self) -> Seq<u8> {
        le_bytes((self as u128) as nat, 16)
    }

    open spec fn spec_width() -> nat {
        16
    }

    fn width() -> (r: usize) {
        16
    }

    proof fn lemma_le_len(self) {
        lemma_le_bytes_len((self as u128) as nat, 16);
    }

    fn write_le(self, out: &mut Vec<u8>) {
        proof {
            lemma_le_bytes_len((self as u128) as nat, 16);
        }
        push_le(out, self as u128, 16);
    }
}

/// Concatenated little-endian encodings of a sequence of values.
pub open spec fn spec_encode_le<T: LeBytes>(data: Seq<T>) -> Seq<u8>
    decreases data.len(),
{
    if data.len() == 0 {
        Seq::empty()
    } else {
        spec_encode_le(data.drop_last()) + data.last().spec_le_bytes()
    }
}

/// The encoding of `n` values is `n` times the width long.
pub proof fn lemma_encode_le_len<T: LeBytes>(data: Seq<T>)
    ensures
        spec_encode_le(data).len() == data.len() * T::spec_width(),
    decreases data.len(),
{
    if data.len() > 0 {
        lemma_encode_le_len(data.drop_last());
        data.last().lemma_le_len();
        assert((data.len() - 1) * T::spec_width() + T::spec_width() == data.len() * T::spec_width()) by (nonlinear_arith);
    }
}

/// Encode a slice of values into contiguous little-endian bytes.
pub fn encode_slice_le<T: LeBytes>(data: &[T]) -> (r: Vec<u8>)
    ensures
        r@ == spec_encode_le(data@),
{
    let mut out: Vec<u8> = Vec::new();
    let mut i: usize = 0;
    assert(data@.take(0) =~= Seq::<T>::empty());
    while i < data.len()
        invariant
            i <= data.len(),
            out@ == spec_encode_le(data@.take(i as int)),
        decreases data.len() - i,
    {
        data[i].write_le(&mut out);
        proof {
            assert(data@.take(i + 1).drop_last() =~= data@.take(i as int));
            assert(data@.take(i + 1).last() == data@[i as int]);
        }
        i = i + 1;
    }
    assert(data@.take(data@.len() as int) =~= data@);
    out
}

/// Starting value of the packet-ID hash.
pub const HASH_SEED: u64 = 0x9E37_79B9_7F4A_7C15u64;

/// One step of the byte hash: xor the byte in, then multiply by the 64-bit
/// FNV prime modulo 2^64.
pub open spec fn hash_step(h: u64, b: u8) -> u64 {
    (((h ^ (b as u64)) as nat * 1099511628211nat) % 18446744073709551616nat) as u64
}

/// The byte hash of `s` continuing from state `h`.
pub open spec fn spec_hash_bytes(h: u64, s: Seq<u8>) -> u64
    decreases s.len(),
{
    if s.len() == 0 {
        h
    } else {
        hash_step(spec_hash_bytes(h, s.drop_last()), s.last())
    }
}

/// Hashing a concatenation continues from the hash of the first part.
pub proof fn lemma_hash_concat(h: u64, a: Seq<u8>, b: Seq<u8>)
    ensures
        spec_hash_bytes(h, a + b) == spec_hash_bytes(spec_hash_bytes(h, a), b),
    decreases b.len(),
{
    if b.len() == 0 {
        assert(a + b =~= a);
    } else {
        assert((a + b).drop_last() =~= a + b.drop_last());
        lemma_hash_concat(h, a, b.drop_last());
    }
}

/// Continue the byte hash from `h` over `s`.
pub fn hash_bytes_u64(h: u64, s: &[u8]) -> (r: u64)
    ensures
        r == spec_hash_bytes(h, s@),
{
    let mut acc = h;
    let mut i: usize = 0;
    assert(s@.take(0) =~= Seq::<u8>::empty());
    while i < s.len()
        invariant
            i <= s.len(),
            acc == spec_hash_bytes(h, s@.take(i as int)),
        decreases s.len() - i,
    {
        let x = acc ^ (s[i] as u64);
        let p = (x as u128) * 1099511628211u128;
        acc = (p % 18446744073709551616u128) as u64;
        proof {
            assert(s@.take(i + 1).drop_last() =~= s@.take(i as int));
            assert(s@.take(i + 1).last() == s@[i as int]);
        }
        i = i + 1;
    }
    assert(s@.take(s@.len() as int) =~= s@);
    acc
}

} // verus!
