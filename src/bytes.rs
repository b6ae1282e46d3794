//! Little-endian integers and hexadecimal text.

use vstd::prelude::*;
use vstd::arithmetic::power::pow;
use crate::text::push_char;

verus! {

/// The `n` little-endian bytes of `v` (higher bytes of `v` are dropped).
pub open spec fn le_bytes(v: nat, n: nat) -> Seq<u8>
    decreases n,
{
    if n == 0 {
        Seq::empty()
    } else {
        seq![(v % 256) as u8] + le_bytes(v / 256, (n - 1) as nat)
    }
}

/// The number whose little-endian bytes are `s`.
pub open spec fn le_value(s: Seq<u8>) -> nat
    decreases s.len(),
{
    if s.len() == 0 {
        0
    } else {
        s[0] as nat + 256 * le_value(s.drop_first())
    }
}

/// The eight little-endian bytes of a `u64`.
pub open spec fn le64(v: u64) -> Seq<u8> {
    le_bytes(v as nat, 8)
}

/// Four 64-bit limbs, each little-endian, lowest limb first.
pub open spec fn limbs_le(l: [u64; 4]) -> Seq<u8> {
    le64(l[0]) + le64(l[1]) + le64(l[2]) + le64(l[3])
}

pub proof fn lemma_le_bytes_len(v: nat, n: nat)
    ensures
        le_bytes(v, n).len() == n,
    decreases n,
{
    if n > 0 {
        lemma_le_bytes_len(v / 256, (n - 1) as nat);
    }
}

/// Reading back the bytes of a number that fits gives the number.
pub proof fn lemma_le_round_trip(v: nat, n: nat)
    requires
        v < pow(256, n),
    ensures
        le_value(le_bytes(v, n)) == v,
    decreases n,
{
    vstd::arithmetic::power::lemma_pow_positive(256, n);
    if n == 0 {
        vstd::arithmetic::power::lemma_pow0(256);
    } else {
        let rest = le_bytes(v / 256, (n - 1) as nat);
        assert((seq![(v % 256) as u8] + rest).drop_first() == rest);
        vstd::arithmetic::power::lemma_pow_adds(256, 1, (n - 1) as nat);
        vstd::arithmetic::power::lemma_pow1(256);
        let p = pow(256, (n - 1) as nat);
        assert(v / 256 < p) by (nonlinear_arith)
            requires v < 256 * p, p > 0;
        lemma_le_round_trip(v / 256, (n - 1) as nat);
        assert(v == (v % 256) + 256 * (v / 256)) by (nonlinear_arith);
    }
}

pub proof fn lemma_pow256_8()
    ensures
        pow(256, 8) == 0x1_0000_0000_0000_0000,
{
    vstd::arithmetic::power::lemma_pow1(256);
    vstd::arithmetic::power::lemma_pow_adds(256, 1, 1);
    assert(pow(256, 2) == 65536);
    vstd::arithmetic::power::lemma_pow_adds(256, 2, 2);
    assert(pow(256, 4) == 4294967296);
    vstd::arithmetic::power::lemma_pow_adds(256, 4, 4);
    assert(pow(256, 8) == 4294967296 * 4294967296);
}

pub proof fn lemma_le64_round_trip(v: u64)
    ensures
        le_value(le64(v)) == v,
        le64(v).len() == 8,
{
    lemma_pow256_8();
    lemma_le_round_trip(v as nat, 8);
    lemma_le_bytes_len(v as nat, 8);
}

/// Eight bytes are the little-endian bytes of the number they hold.
pub proof fn lemma_le_value_le64(s: Seq<u8>)
    requires
        s.len() == 8,
    ensures
        le_value(s) < 0x1_0000_0000_0000_0000,
        le64(le_value(s) as u64) == s,
{
    lemma_le_value_bound(s);
    lemma_pow256_8();
    lemma_le_bytes_of_value(s);
}

proof fn lemma_le_value_bound(s: Seq<u8>)
    ensures
        le_value(s) < pow(256, s.len()),
    decreases s.len(),
{
    vstd::arithmetic::power::lemma_pow0(256);
    if s.len() > 0 {
        lemma_le_value_bound(s.drop_first());
        vstd::arithmetic::power::lemma_pow_adds(256, 1, (s.len() - 1) as nat);
        vstd::arithmetic::power::lemma_pow1(256);
        let p = pow(256, (s.len() - 1) as nat);
        let t = le_value(s.drop_first());
        assert(s[0] as nat + 256 * t < 256 * p) by (nonlinear_arith)
            requires t < p, s[0] < 256;
    }
}

proof fn lemma_le_bytes_of_value(s: Seq<u8>)
    ensures
        le_bytes(le_value(s), s.len()) == s,
    decreases s.len(),
{
    if s.len() > 0 {
        lemma_le_bytes_of_value(s.drop_first());
        let v = le_value(s);
        let t = le_value(s.drop_first());
        assert(v % 256 == s[0] as nat && v / 256 == t) by (nonlinear_arith)
            requires v == s[0] as nat + 256 * t, s[0] < 256;
        assert(le_bytes(v, s.len()) == seq![(v % 256) as u8] + le_bytes(t, (s.len() - 1) as nat));
        assert(s == seq![s[0]] + s.drop_first());
    }
}

/// Appends the eight little-endian bytes of `v`.
pub fn push_u64_le(out: &mut Vec<u8>, v: u64)
    ensures
        final(out)@ == old(out)@ + le64(v),
{
    let ghost start = out@;
    let mut x: u64 = v;
    let mut i: usize = 0;
    while i < 8
        invariant
            i <= 8,
            start + le64(v) == out@ + le_bytes(x as nat, (8 - i) as nat),
        decreases 8 - i,
    {
        let ghost before = out@;
        out.push((x % 256) as u8);
        assert(before + le_bytes(x as nat, (8 - i) as nat)
            == out@ + le_bytes((x / 256) as nat, (8 - (i + 1)) as nat));
        x = x / 256;
        i = i + 1;
    }
    assert(out@ + le_bytes(x as nat, 0) == out@);
}

/// Appends four limbs, each as eight little-endian bytes.
pub fn push_limbs_le(out: &mut Vec<u8>, l: &[u64; 4])
    ensures
        final(out)@ == old(out)@ + limbs_le(*l),
{
    push_u64_le(out, l[0]);
    push_u64_le(out, l[1]);
    push_u64_le(out, l[2]);
    push_u64_le(out, l[3]);
    assert(final(out)@ == old(out)@ + limbs_le(*l));
}

/// Reads eight little-endian bytes starting at `at`.
pub fn read_u64_le(b: &[u8], at: usize) -> (r: u64)
    requires
        at + 8 <= b@.len(),
    ensures
        r as nat == le_value(b@.subrange(at as int, at + 8)),
{
    let n = b.len();
    let mut v: u64 = 0;
    let mut k: usize = 8;
    proof {
        vstd::arithmetic::power::lemma_pow0(256);
    }
    while k > 0
        invariant
            k <= 8,
            n == b@.len(),
            at + 8 <= n,
            v as nat == le_value(b@.subrange(at + k, at + 8)),
            v < pow(256, (8 - k) as nat),
        decreases k,
    {
        let ghost tail = b@.subrange(at + k, at + 8);
        let ghost cur = b@.subrange(at + k - 1, at + 8);
        assert(cur.drop_first() == tail);
        proof {
            vstd::arithmetic::power::lemma_pow_adds(256, 1, (8 - k) as nat);
            vstd::arithmetic::power::lemma_pow1(256);
            vstd::arithmetic::power::lemma_pow_increases(256, (9 - k) as nat, 8);
            lemma_pow256_8();
            let p = pow(256, (8 - k) as nat);
            assert(v * 256 + 255 < 256 * p) by (nonlinear_arith)
                requires v < p;
        }
        v = v * 256 + b[at + k - 1] as u64;
        k = k - 1;
    }
    v
}

/// Appends all of `b`.
pub fn push_all(out: &mut Vec<u8>, b: &[u8])
    ensures
        final(out)@ == old(out)@ + b@,
{
    let ghost start = out@;
    let mut i: usize = 0;
    while i < b.len()
        invariant
            i <= b@.len(),
            out@ == start + b@.subrange(0, i as int),
        decreases b@.len() - i,
    {
        out.push(b[i]);
        i = i + 1;
        assert(b@.subrange(0, i as int) == b@.subrange(0, i - 1).push(b@[i - 1]));
    }
    assert(b@.subrange(0, b@.len() as int) == b@);
}

/// Copies `N` bytes starting at `at` into an array.
pub fn copy_array<const N: usize>(b: &[u8], at: usize) -> (r: [u8; N])
    requires
        at + N <= b@.len(),
    ensures
        r@ == b@.subrange(at as int, at + N),
{
    let mut r = [0u8; N];
    let mut i: usize = 0;
    let n = b.len();
    while i < N
        invariant
            i <= N,
            n == b@.len(),
            at + N <= n,
            r@.len() == N,
            forall|j: int| 0 <= j < i ==> r@[j] == b@[at + j],
        decreases N - i,
    {
        r[i] = b[at + i];
        i = i + 1;
    }
    assert(r@ == b@.subrange(at as int, at + N));
    r
}

/// A hexadecimal digit, lower case.
pub open spec fn hex_digit(d: nat) -> char {
    if d < 10 {
        ((48 + d) as u8) as char
    } else {
        ((87 + d) as u8) as char
    }
}

/// A hexadecimal digit, upper case.
pub open spec fn hex_digit_upper(d: nat) -> char {
    if d < 10 {
        ((48 + d) as u8) as char
    } else {
        ((55 + d) as u8) as char
    }
}

/// Two lower-case hexadecimal digits per byte, high digit first.
pub open spec fn hex_lower(b: Seq<u8>) -> Seq<char>
    decreases b.len(),
{
    if b.len() == 0 {
        Seq::empty()
    } else {
        seq![hex_digit(b[0] as nat / 16), hex_digit(b[0] as nat % 16)] + hex_lower(b.drop_first())
    }
}

/// The upper-case hexadecimal digits of `v`, without leading zeros (one digit for zero).
pub open spec fn hex_upper_digits(v: nat) -> Seq<char>
    decreases v,
{
    if v < 16 {
        seq![hex_digit_upper(v)]
    } else {
        hex_upper_digits(v / 16) + seq![hex_digit_upper(v % 16)]
    }
}

/// The upper-case hexadecimal digits of `v`, padded with a zero to at least two.
pub open spec fn hex_upper_min2(v: nat) -> Seq<char> {
    if v < 16 {
        seq!['0', hex_digit_upper(v)]
    } else {
        hex_upper_digits(v)
    }
}

/// Relies on `hex::encode`: two lower-case digits per byte, in order.
#[verifier::external_body]
pub(crate) fn hex_encode(b: &[u8]) -> (r: String)
    ensures
        r@ == hex_lower(b@),
{
    hex::encode(b)
}

fn upper_digit(d: u64) -> (c: char)
    requires
        d < 16,
    ensures
        c == hex_digit_upper(d as nat),
{
    if d < 10 {
        ((48 + d) as u8) as char
    } else {
        ((55 + d) as u8) as char
    }
}

/// Writes `v` in upper-case hexadecimal with at least two digits.
pub fn hex_upper_padded(v: u64) -> (r: String)
    ensures
        r@ == hex_upper_min2(v as nat),
{
    let mut digits: Vec<char> = Vec::new();
    let mut x: u64 = v;
    assert(digits@.reverse() == Seq::<char>::empty());
    while x >= 16
        invariant
            hex_upper_digits(x as nat) + digits@.reverse() == hex_upper_digits(v as nat),
        decreases x,
    {
        let ghost before = digits@;
        digits.push(upper_digit(x % 16));
        assert(digits@.reverse() == seq![hex_digit_upper((x % 16) as nat)] + before.reverse());
        assert(hex_upper_digits(x as nat) == hex_upper_digits((x / 16) as nat) + seq![hex_digit_upper((x % 16) as nat)]);
        x = x / 16;
    }
    let ghost before = digits@;
    digits.push(upper_digit(x));
    assert(digits@.reverse() == seq![hex_digit_upper(x as nat)] + before.reverse());
    assert(digits@.reverse() == hex_upper_digits(v as nat));
    let mut s = String::new();
    if v < 16 {
        push_char(&mut s, '0');
    }
    let mut i: usize = digits.len();
    let ghost full = digits@.reverse();
    while i > 0
        invariant
            i <= digits@.len(),
            full == digits@.reverse(),
            s@ == (if v < 16 { seq!['0'] } else { Seq::<char>::empty() }) + full.subrange(0, digits@.len() - i),
        decreases i,
    {
        push_char(&mut s, digits[i - 1]);
        i = i - 1;
        assert(full.subrange(0, digits@.len() - i) == full.subrange(0, digits@.len() - i - 1).push(digits@[i as int]));
    }
    assert(full.subrange(0, digits@.len() as int) == full);
    s
}

} // verus!
