//! Text building: decimal and hexadecimal numbers, quoted strings, and the
//! conversion of validated bytes into strings.
use vstd::prelude::*;
use vstd::string::StringSliceAdditionalSpecFns;
use vstd::std_specs::iter::IteratorSpec;

verus! {

/// Collect characters into a `String` (std `FromIterator<char>`).
#[verifier::external_body]
pub(crate) fn chars_to_string(v: Vec<char>) -> (r: String)
    ensures
        r@ == v@,
{
    v.into_iter().collect()
}

/// Decode bytes as UTF-8 (`core::str::from_utf8`): `Some` exactly when the
/// bytes are valid UTF-8, and then the string's bytes are the input.
#[verifier::external_body]
pub(crate) fn str_from_utf8(b: &[u8]) -> (r: Option<&str>)
    ensures
        r is Some <==> vstd::utf8::valid_utf8(b@),
        r matches Some(s) ==> s.spec_bytes() == b@,
{
    match core::str::from_utf8(b) {
        Ok(s) => Some(s),
        Err(_) => None,
    }
}

/// Append the characters of `s` to `out`.
pub fn push_str(out: &mut Vec<char>, s: &str)
    ensures
        final(out)@ == old(out)@ + s@,
{
    let ghost start = out@;
    let mut it = s.chars();
    let ghost all = it.remaining();
    proof {
        broadcast use vstd::string::axiom_spec_iter;
    }
    let ghost mut k: int = 0;
    loop
        invariant
            0 <= k <= all.len(),
            it.remaining() == all.skip(k),
            out@ == start + all.take(k),
            all == s@,
        ensures
            out@ == start + s@,
        decreases s@.len() - k,
    {
        let c = it.next();
        match c {
            Some(ch) => {
                proof {
                    assert(all.skip(k).len() > 0);
                    assert(all.take(k + 1) =~= all.take(k).push(ch));
                    assert(all.skip(k + 1) =~= all.skip(k).drop_first());
                    k = k + 1;
                }
                out.push(ch);
            },
            None => {
                proof {
                    assert(all.take(k) =~= all);
                }
                break ;
            },
        }
    }
}

/// The ASCII digit for `d < 10`.
pub open spec fn digit_char(d: nat) -> char {
    if d == 0 {
        '0'
    } else if d == 1 {
        '1'
    } else if d == 2 {
        '2'
    } else if d == 3 {
        '3'
    } else if d == 4 {
        '4'
    } else if d == 5 {
        '5'
    } else if d == 6 {
        '6'
    } else if d == 7 {
        '7'
    } else if d == 8 {
        '8'
    } else {
        '9'
    }
}

fn digit(d: u8) -> (r: char)
    requires
        d < 10,
    ensures
        r == digit_char(d as nat),
{
    if d == 0 {
        '0'
    } else if d == 1 {
        '1'
    } else if d == 2 {
        '2'
    } else if d == 3 {
        '3'
    } else if d == 4 {
        '4'
    } else if d == 5 {
        '5'
    } else if d == 6 {
        '6'
    } else if d == 7 {
        '7'
    } else if d == 8 {
        '8'
    } else {
        '9'
    }
}

/// Decimal rendering of a natural number (no leading zeros).
pub open spec fn decimal_chars(n: nat) -> Seq<char>
    decreases n,
{
    if n < 10 {
        seq![digit_char(n)]
    } else {
        decimal_chars(n / 10).push(digit_char(n % 10))
    }
}

/// Decimal rendering left-padded with zeros to at least `width` digits.
pub open spec fn padded_decimal_chars(n: nat, width: nat) -> Seq<char> {
    let d = decimal_chars(n);
    if d.len() >= width {
        d
    } else {
        Seq::new((width - d.len()) as nat, |i: int| '0') + d
    }
}

/// The number a string of decimal digits spells, each character read by
/// its code point (`'0'` is 48).
pub open spec fn digits_value(s: Seq<char>) -> int
    decreases s.len(),
{
    if s.len() == 0 {
        0
    } else {
        digits_value(s.drop_last()) * 10 + (s.last() as int - 48)
    }
}

/// The digit character of `d` has code point `48 + d`.
proof fn lemma_digit_char_code(d: nat)
    requires
        d < 10,
    ensures
        digit_char(d) as int == 48 + d,
{
}

/// The decimal rendering of `n` reads back as `n`, one digit for `n < 10`,
/// two below 100 and three below 1000.
pub proof fn lemma_decimal_readback(n: nat)
    ensures
        digits_value(decimal_chars(n)) == n,
        n < 10 ==> decimal_chars(n).len() == 1,
        10 <= n < 100 ==> decimal_chars(n).len() == 2,
        100 <= n < 1000 ==> decimal_chars(n).len() == 3,
        decimal_chars(n).len() >= 1,
    decreases n,
{
    if n < 10 {
        lemma_digit_char_code(n);
        let d = seq![digit_char(n)];
        assert(d.drop_last() =~= Seq::<char>::empty());
        assert(digits_value(Seq::<char>::empty()) == 0);
        assert(d.last() == digit_char(n));
        assert(digits_value(d) == digits_value(d.drop_last()) * 10 + (d.last() as int - 48));
    } else {
        lemma_decimal_readback(n / 10);
        lemma_digit_char_code(n % 10);
        let d = decimal_chars(n / 10).push(digit_char(n % 10));
        assert(d.drop_last() =~= decimal_chars(n / 10));
        assert(d.last() == digit_char(n % 10));
        assert(digits_value(d) == digits_value(d.drop_last()) * 10 + (d.last() as int - 48));
        assert(decimal_chars(n) == d);
    }
}

/// Leading zeros do not change the number a digit string spells.
proof fn lemma_zeros_readback(k: nat, t: Seq<char>)
    ensures
        digits_value(Seq::new(k, |i: int| '0') + t) == digits_value(t),
    decreases t.len(), k,
{
    let z = Seq::new(k, |i: int| '0');
    if t.len() == 0 {
        assert(z + t =~= z);
        if k > 0 {
            lemma_zeros_readback((k - 1) as nat, t);
            assert(z.drop_last() =~= Seq::new((k - 1) as nat, |i: int| '0'));
            assert(Seq::new((k - 1) as nat, |i: int| '0') + t =~= Seq::new((k - 1) as nat, |i: int| '0'));
        }
    } else {
        lemma_zeros_readback(k, t.drop_last());
        assert((z + t).drop_last() =~= z + t.drop_last());
    }
}

/// A zero-padded rendering of `n` reads back as `n`.
pub proof fn lemma_padded_value(n: nat, w: nat)
    ensures
        digits_value(padded_decimal_chars(n, w)) == n,
        padded_decimal_chars(n, w).len() >= 1,
{
    lemma_decimal_readback(n);
    let d = decimal_chars(n);
    if d.len() < w {
        lemma_zeros_readback((w - d.len()) as nat, d);
    }
}

/// The zero-padded rendering of `n` in `w` digits (with `n < 10^w`, for
/// two or three digits) has exactly `w` characters and reads back as `n`.
pub proof fn lemma_padded_readback(n: nat, w: nat)
    requires
        (w == 2 && n < 100) || (w == 3 && n < 1000),
    ensures
        padded_decimal_chars(n, w).len() == w,
        digits_value(padded_decimal_chars(n, w)) == n,
{
    lemma_decimal_readback(n);
    let d = decimal_chars(n);
    if d.len() < w {
        lemma_zeros_readback((w - d.len()) as nat, d);
    }
}

/// Append the decimal rendering of `n`.
pub fn push_u128(out: &mut Vec<char>, n: u128)
    ensures
        final(out)@ == old(out)@ + decimal_chars(n as nat),
    decreases n,
{
    if n < 10 {
        out.push(digit(n as u8));
    } else {
        push_u128(out, n / 10);
        out.push(digit((n % 10) as u8));
    }
}

/// Append the decimal rendering of `n`.
pub fn push_u64(out: &mut Vec<char>, n: u64)
    ensures
        final(out)@ == old(out)@ + decimal_chars(n as nat),
{
    push_u128(out, n as u128);
}

/// Decimal rendering of a signed integer (`-` then the magnitude).
pub open spec fn signed_decimal_chars(n: int) -> Seq<char> {
    if n < 0 {
        seq!['-'] + decimal_chars((-n) as nat)
    } else {
        decimal_chars(n as nat)
    }
}

/// Append the decimal rendering of the signed integer `n`.
pub fn push_i128(out: &mut Vec<char>, n: i128)
    ensures
        final(out)@ == old(out)@ + signed_decimal_chars(n as int),
{
    if n < 0 {
        out.push('-');
        let m: u128 = if n == i128::MIN {
            170141183460469231731687303715884105728u128
        } else {
            (-n) as u128
        };
        let ghost mid = out@;
        push_u128(out, m);
        proof {
            assert(out@ =~= old(out)@ + signed_decimal_chars(n as int));
        }
    } else {
        push_u128(out, n as u128);
    }
}

/// Append the decimal rendering of `n`, left-padded with zeros to `width`.
pub fn push_u64_padded(out: &mut Vec<char>, n: u64, width: usize)
    ensures
        final(out)@ == old(out)@ + padded_decimal_chars(n as nat, width as nat),
{
    let mut digits: Vec<char> = Vec::new();
    push_u64(&mut digits, n);
    let ghost d = decimal_chars(n as nat);
    let ghost start = out@;
    if digits.len() < width {
        let pad = width - digits.len();
        let mut i: usize = 0;
        while i < pad
            invariant
                i <= pad,
                pad == width - d.len(),
                out@ == start + Seq::new(i as nat, |j: int| '0'),
            decreases pad - i,
        {
            out.push('0');
            i = i + 1;
            proof {
                assert(out@ =~= start + Seq::new(i as nat, |j: int| '0'));
            }
        }
    }
    let mut j: usize = 0;
    let ghost mid = out@;
    while j < digits.len()
        invariant
            j <= digits.len(),
            digits@ == d,
            out@ == mid + d.take(j as int),
        decreases digits.len() - j,
    {
        out.push(digits[j]);
        j = j + 1;
        proof {
            assert(d.take(j as int) =~= d.take(j - 1).push(d[j - 1]));
        }
    }
    proof {
        assert(d.take(d.len() as int) =~= d);
        assert(out@ =~= old(out)@ + padded_decimal_chars(n as nat, width as nat));
    }
}

/// The lowercase hexadecimal digit for `d < 16`.
pub open spec fn hex_char(d: nat) -> char {
    if d < 10 {
        digit_char(d)
    } else if d == 10 {
        'a'
    } else if d == 11 {
        'b'
    } else if d == 12 {
        'c'
    } else if d == 13 {
        'd'
    } else if d == 14 {
        'e'
    } else {
        'f'
    }
}

fn hex_digit(d: u8) -> (r: char)
    requires
        d < 16,
    ensures
        r == hex_char(d as nat),
{
    if d < 10 {
        digit(d)
    } else if d == 10 {
        'a'
    } else if d == 11 {
        'b'
    } else if d == 12 {
        'c'
    } else if d == 13 {
        'd'
    } else if d == 14 {
        'e'
    } else {
        'f'
    }
}

/// A byte as two lowercase hexadecimal digits.
pub open spec fn hex_byte_chars(b: u8) -> Seq<char> {
    seq![hex_char((b / 16) as nat), hex_char((b % 16) as nat)]
}

/// The value of a lowercase hexadecimal digit read by its code point
/// (`'0'`..`'9'` and `'a'`..`'f'`), or -1 for any other character.
pub open spec fn hex_value(c: char) -> int {
    if 48 <= c as int <= 57 {
        c as int - 48
    } else if 97 <= c as int <= 102 {
        c as int - 87
    } else {
        -1
    }
}

/// The two digits written for a byte read back as that byte, high digit
/// first.
pub proof fn lemma_hex_byte_readback(b: u8)
    ensures
        hex_byte_chars(b).len() == 2,
        0 <= hex_value(hex_byte_chars(b)[0]) < 16,
        0 <= hex_value(hex_byte_chars(b)[1]) < 16,
        hex_value(hex_byte_chars(b)[0]) * 16 + hex_value(hex_byte_chars(b)[1]) == b,
{
    lemma_hex_char_value((b / 16) as nat);
    lemma_hex_char_value((b % 16) as nat);
}

/// The digit written for `d < 16` has value `d`.
proof fn lemma_hex_char_value(d: nat)
    requires
        d < 16,
    ensures
        hex_value(hex_char(d)) == d,
{
    if d < 10 {
        lemma_digit_char_code(d);
    }
}

/// Append `b` as two lowercase hexadecimal digits.
pub fn push_hex_byte(out: &mut Vec<char>, b: u8)
    ensures
        final(out)@ == old(out)@ + hex_byte_chars(b),
{
    out.push(hex_digit(b / 16));
    out.push(hex_digit(b % 16));
    proof {
        assert(out@ =~= old(out)@ + hex_byte_chars(b));
    }
}

/// How one character is written inside a quoted string.
pub open spec fn escape_char(c: char) -> Seq<char> {
    if c == '"' {
        seq!['\\', '"']
    } else if c == '\\' {
        seq!['\\', '\\']
    } else if c == '\n' {
        seq!['\\', 'n']
    } else if c == '\r' {
        seq!['\\', 'r']
    } else if c == '\t' {
        seq!['\\', 't']
    } else if c == '\0' {
        seq!['\\', '0']
    } else {
        seq![c]
    }
}

/// Escaped form of a character sequence.
pub open spec fn escape_chars(s: Seq<char>) -> Seq<char>
    decreases s.len(),
{
    if s.len() == 0 {
        Seq::empty()
    } else {
        escape_chars(s.drop_last()) + escape_char(s.last())
    }
}

/// A quoted string: `"`, the escaped characters, `"`.
pub open spec fn quoted_chars(s: Seq<char>) -> Seq<char> {
    seq!['"'] + escape_chars(s) + seq!['"']
}

/// Append `s` in double quotes, escaping quotes, backslashes, newlines,
/// carriage returns, tabs and NULs with a backslash.
pub fn push_quoted(out: &mut Vec<char>, s: &str)
    ensures
        final(out)@ == old(out)@ + quoted_chars(s@),
{
    let mut chars: Vec<char> = Vec::new();
    push_str(&mut chars, s);
    out.push('"');
    let ghost start = out@;
    let mut i: usize = 0;
    while i < chars.len()
        invariant
            i <= chars.len(),
            chars@ == s@,
            out@ == start + escape_chars(chars@.take(i as int)),
        decreases chars.len() - i,
    {
        let c = chars[i];
        if c == '"' {
            out.push('\\');
            out.push('"');
        } else if c == '\\' {
            out.push('\\');
            out.push('\\');
        } else if c == '\n' {
            out.push('\\');
            out.push('n');
        } else if c == '\r' {
            out.push('\\');
            out.push('r');
        } else if c == '\t' {
            out.push('\\');
            out.push('t');
        } else if c == '\0' {
            out.push('\\');
            out.push('0');
        } else {
            out.push(c);
        }
        proof {
            assert(chars@.take(i + 1).drop_last() =~= chars@.take(i as int));
            assert(chars@.take(i + 1).last() == c);
        }
        i = i + 1;
        proof {
            assert(out@ =~= start + escape_chars(chars@.take(i as int)));
        }
    }
    proof {
        assert(chars@.take(chars@.len() as int) =~= chars@);
    }
    out.push('"');
    proof {
        assert(out@ =~= old(out)@ + quoted_chars(s@));
    }
}

/// Integer division rounding toward zero (the semantics of `/` on signed
/// machine integers).
pub open spec fn tdiv(a: int, b: int) -> int {
    if a >= 0 {
        a / b
    } else {
        -((-a) / b)
    }
}

/// Civil (proleptic Gregorian) date of a day count since 1970-01-01, written
/// with division rounding toward zero.
pub open spec fn spec_civil_from_days(z0: int) -> (i32, u32, u32) {
    let z = z0 + 719468;
    let era = tdiv(if z >= 0 { z } else { z - 146096 }, 146097);
    let doe = z - era * 146097;
    let yoe = tdiv(doe - tdiv(doe, 1460) + tdiv(doe, 36524) - tdiv(doe, 146096), 365);
    let y = (yoe as i32) + (era as i32) * 400;
    let doy = doe - (365 * yoe + tdiv(yoe, 4) - tdiv(yoe, 100));
    let mp = tdiv(5 * doy + 2, 153);
    let d = doy - tdiv(153 * mp + 2, 5) + 1;
    let m = mp + if mp < 10 { 3int } else { -9int };
    let y2 = y + if m <= 2 { 1int } else { 0int };
    (y2 as i32, m as u32, d as u32)
}

/// Civil date `(year, month, day)` of a non-negative day count since the
/// Unix epoch.
pub fn civil_from_days(z0: i64) -> (r: (i32, u32, u32))
    requires
        0 <= z0 <= 700_000_000_000,
    ensures
        r == spec_civil_from_days(z0 as int),
        r.0 >= 0,
{
    let z = z0 + 719468;
    let era = (if z >= 0 { z } else { z - 146096 }) / 146097;
    let doe = z - era * 146097;
    let yoe = (doe - doe / 1460 + doe / 36524 - doe / 146096) / 365;
    let y = (yoe as i32) + (era as i32) * 400;
    let doy = doe - (365 * yoe + yoe / 4 - yoe / 100);
    let mp = (5 * doy + 2) / 153;
    let d = doy - (153 * mp + 2) / 5 + 1;
    let m = mp + if mp < 10 { 3 } else { -9 };
    let y2 = y + if m <= 2 { 1i32 } else { 0i32 };
    (y2, m as u32, d as u32)
}

/// Lexicographic order of byte strings (a proper prefix comes first), the
/// order of `str` comparison.
pub open spec fn bytes_lt(a: Seq<u8>, b: Seq<u8>) -> bool
    decreases a.len(),
{
    if a.len() == 0 {
        b.len() > 0
    } else if b.len() == 0 {
        false
    } else if a[0] < b[0] {
        true
    } else if a[0] > b[0] {
        false
    } else {
        bytes_lt(a.drop_first(), b.drop_first())
    }
}

/// `a` sorts before `b` exactly when, after a common prefix, `a` ends
/// while `b` goes on, or the next byte of `a` is smaller than that of `b`.
pub proof fn lemma_bytes_lt_meaning(a: Seq<u8>, b: Seq<u8>)
    ensures
        bytes_lt(a, b) <==> exists|k: int|
            0 <= k <= a.len() && k <= b.len() && #[trigger] a.subrange(0, k) == b.subrange(0, k) && ((k == a.len()
                && k < b.len()) || (k < a.len() && k < b.len() && a[k] < b[k])),
    decreases a.len(),
{
    if a.len() == 0 || b.len() == 0 || a[0] != b[0] {
        if bytes_lt(a, b) {
            assert(a.subrange(0, 0) =~= b.subrange(0, 0));
        }
        if exists|k: int|
            0 <= k <= a.len() && k <= b.len() && #[trigger] a.subrange(0, k) == b.subrange(0, k) && ((k == a.len() && k
                < b.len()) || (k < a.len() && k < b.len() && a[k] < b[k])) {
            let k = choose|k: int|
                0 <= k <= a.len() && k <= b.len() && #[trigger] a.subrange(0, k) == b.subrange(0, k) && ((k == a.len()
                    && k < b.len()) || (k < a.len() && k < b.len() && a[k] < b[k]));
            if k > 0 {
                assert(a.subrange(0, k)[0] == b.subrange(0, k)[0]);
            }
        }
    } else {
        let a1 = a.drop_first();
        let b1 = b.drop_first();
        lemma_bytes_lt_meaning(a1, b1);
        if bytes_lt(a, b) {
            let k = choose|k: int|
                0 <= k <= a1.len() && k <= b1.len() && #[trigger] a1.subrange(0, k) == b1.subrange(0, k) && ((k == a1.len()
                    && k < b1.len()) || (k < a1.len() && k < b1.len() && a1[k] < b1[k]));
            assert(a.subrange(0, k + 1) =~= seq![a[0]] + a1.subrange(0, k));
            assert(b.subrange(0, k + 1) =~= seq![b[0]] + b1.subrange(0, k));
        }
        if exists|k: int|
            0 <= k <= a.len() && k <= b.len() && #[trigger] a.subrange(0, k) == b.subrange(0, k) && ((k == a.len() && k
                < b.len()) || (k < a.len() && k < b.len() && a[k] < b[k])) {
            let k = choose|k: int|
                0 <= k <= a.len() && k <= b.len() && #[trigger] a.subrange(0, k) == b.subrange(0, k) && ((k == a.len()
                    && k < b.len()) || (k < a.len() && k < b.len() && a[k] < b[k]));
            assert(k >= 1);
            assert(a1.subrange(0, k - 1) =~= a.subrange(0, k).drop_first());
            assert(b1.subrange(0, k - 1) =~= b.subrange(0, k).drop_first());
            assert(a1.subrange(0, k - 1) == b1.subrange(0, k - 1));
        }
    }
}

/// No byte string sorts before itself.
pub proof fn lemma_bytes_lt_irrefl(a: Seq<u8>)
    ensures
        !bytes_lt(a, a),
    decreases a.len(),
{
    if a.len() > 0 {
        lemma_bytes_lt_irrefl(a.drop_first());
    }
}

/// Of two byte strings, at most one sorts before the other.
pub proof fn lemma_bytes_lt_asym(a: Seq<u8>, b: Seq<u8>)
    ensures
        bytes_lt(a, b) ==> !bytes_lt(b, a),
    decreases a.len(),
{
    if a.len() > 0 && b.len() > 0 && a[0] == b[0] {
        lemma_bytes_lt_asym(a.drop_first(), b.drop_first());
    }
}

/// The byte order is transitive.
pub proof fn lemma_bytes_lt_trans(a: Seq<u8>, b: Seq<u8>, c: Seq<u8>)
    ensures
        bytes_lt(a, b) && bytes_lt(b, c) ==> bytes_lt(a, c),
    decreases a.len(),
{
    if a.len() > 0 && b.len() > 0 && c.len() > 0 {
        lemma_bytes_lt_trans(a.drop_first(), b.drop_first(), c.drop_first());
    }
}

/// Of two different byte strings, one sorts before the other.
pub proof fn lemma_bytes_lt_total(a: Seq<u8>, b: Seq<u8>)
    ensures
        a != b ==> bytes_lt(a, b) || bytes_lt(b, a),
    decreases a.len(),
{
    if a.len() > 0 && b.len() > 0 && a[0] == b[0] {
        lemma_bytes_lt_total(a.drop_first(), b.drop_first());
        if a.drop_first() == b.drop_first() {
            assert(a =~= seq![a[0]] + a.drop_first());
            assert(b =~= seq![b[0]] + b.drop_first());
        }
    } else if a.len() == 0 && b.len() == 0 {
        assert(a =~= b);
    }
}

/// Whether `a` sorts before `b`, comparing their bytes.
pub fn str_lt(a: &str, b: &str) -> (r: bool)
    ensures
        r == bytes_lt(a.spec_bytes(), b.spec_bytes()),
{
    let x = a.as_bytes();
    let y = b.as_bytes();
    let mut i: usize = 0;
    assert(x@.skip(0) =~= x@);
    assert(y@.skip(0) =~= y@);
    while i < x.len() && i < y.len() && x[i] == y[i]
        invariant
            i <= x@.len(),
            i <= y@.len(),
            x@.take(i as int) == y@.take(i as int),
            bytes_lt(x@, y@) == bytes_lt(x@.skip(i as int), y@.skip(i as int)),
        decreases x@.len() - i,
    {
        proof {
            assert(x@.skip(i as int).drop_first() =~= x@.skip(i + 1));
            assert(y@.skip(i as int).drop_first() =~= y@.skip(i + 1));
            assert(x@.take(i + 1) =~= x@.take(i as int).push(x@[i as int]));
            assert(y@.take(i + 1) =~= y@.take(i as int).push(y@[i as int]));
        }
        i = i + 1;
    }
    if i == x.len() {
        i < y.len()
    } else if i == y.len() {
        false
    } else {
        x[i] < y[i]
    }
}

/// Whether two strings are equal.
pub fn str_eq(a: &str, b: &str) -> (r: bool)
    ensures
        r == (a@ == b@),
{
    let x = a.as_bytes();
    let y = b.as_bytes();
    proof {
        vstd::utf8::encode_utf8_decode_utf8(a@);
        vstd::utf8::encode_utf8_decode_utf8(b@);
    }
    if x.len() != y.len() {
        return false;
    }
    let mut i: usize = 0;
    while i < x.len()
        invariant
            i <= x@.len(),
            x@.len() == y@.len(),
            x@ == a.spec_bytes(),
            y@ == b.spec_bytes(),
            x@.take(i as int) == y@.take(i as int),
        decreases x@.len() - i,
    {
        if x[i] != y[i] {
            proof {
                if a@ == b@ {
                    assert(x@ == y@);
                    assert(x@[i as int] == y@[i as int]);
                }
            }
            return false;
        }
        proof {
            assert(x@.take(i + 1) =~= x@.take(i as int).push(x@[i as int]));
            assert(y@.take(i + 1) =~= y@.take(i as int).push(y@[i as int]));
        }
        i = i + 1;
    }
    assert(x@ =~= x@.take(i as int));
    assert(y@ =~= y@.take(i as int));
    true
}

} // verus!
