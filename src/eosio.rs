//! Account names and token symbols of the host ledger.
//!
//! A name is up to 13 characters of `.12345abcdefghijklmnopqrstuvwxyz`, packed five bits
//! per character from the top of a `u64`; the thirteenth character gets only the four
//! lowest bits. A symbol code is up to seven upper-case letters, one byte each, the first
//! letter in the lowest byte; a symbol adds a precision byte below the code.

use vstd::prelude::*;
use vstd::utf8::encode_utf8;
use vstd::string::StringSliceAdditionalSpecFns;
use crate::text::push_char;

verus! {

/// The five-bit value of one name character; characters outside the alphabet count as `.`.
pub open spec fn char_value_spec(c: u8) -> u8 {
    if 0x31 <= c && c <= 0x35 {
        (c - 0x31 + 1) as u8
    } else if 0x61 <= c && c <= 0x7a {
        (c - 0x61 + 6) as u8
    } else {
        0
    }
}

/// The first `n` characters' values, most significant first.
pub open spec fn name_prefix_value(b: Seq<u8>, n: nat) -> nat
    decreases n,
{
    if n == 0 || n > b.len() {
        0
    } else {
        name_prefix_value(b, (n - 1) as nat) * 32 + char_value_spec(b[n - 1]) as nat
    }
}

/// The value of a name given by its bytes; zero for a name that is empty, longer than
/// 13 bytes, or whose thirteenth character lies beyond `j`.
pub open spec fn name_value(b: Seq<u8>) -> nat {
    if b.len() > 13 || b.len() == 0 {
        0
    } else {
        let n: nat = if b.len() > 12 { 12 } else { b.len() };
        let high = name_prefix_value(b, n) * vstd::arithmetic::power2::pow2((4 + 5 * (12 - n)) as nat);
        if b.len() == 13 {
            if char_value_spec(b[12]) > 15 {
                0
            } else {
                high + char_value_spec(b[12]) as nat
            }
        } else {
            high
        }
    }
}

/// The alphabet of names, indexed by five-bit value.
pub open spec fn name_alphabet() -> Seq<char> {
    seq![
        '.', '1', '2', '3', '4', '5', 'a', 'b', 'c', 'd', 'e', 'f', 'g', 'h', 'i', 'j',
        'k', 'l', 'm', 'n', 'o', 'p', 'q', 'r', 's', 't', 'u', 'v', 'w', 'x', 'y', 'z',
    ]
}

/// The characters of the name held in `v`, from position `i` on, where `v` is the
/// name value shifted left by `5 * i` bits; trailing `.` characters are left out.
pub open spec fn name_chars_from(v: nat, i: nat) -> Seq<char>
    decreases 13 - i,
{
    if i >= 13 || v == 0 {
        Seq::empty()
    } else {
        let idx = if i == 12 { v / 0x1000_0000_0000_0000 } else { v / 0x0800_0000_0000_0000 };
        seq![name_alphabet()[idx as int]] + name_chars_from((v % 0x0800_0000_0000_0000) * 32, i + 1)
    }
}

/// Sum of the characters' code points, the first in the lowest byte.
pub open spec fn symbol_code_value(cs: Seq<char>) -> nat
    decreases cs.len(),
{
    if cs.len() == 0 {
        0
    } else {
        cs[0] as nat + 256 * symbol_code_value(cs.drop_first())
    }
}

pub open spec fn is_upper(c: char) -> bool {
    'A' <= c && c <= 'Z'
}

/// The symbol code of a string: zero unless it has at most seven characters, all
/// upper-case letters.
pub open spec fn symbol_code_of(cs: Seq<char>) -> nat {
    if cs.len() > 7 || exists|i: int| 0 <= i < cs.len() && !is_upper(#[trigger] cs[i]) {
        0
    } else {
        symbol_code_value(cs)
    }
}

/// The characters of a symbol code: one per byte, lowest byte first, up to the highest
/// non-zero byte.
pub open spec fn symbol_code_chars(v: nat) -> Seq<char>
    decreases v,
{
    if v == 0 {
        Seq::empty()
    } else {
        seq![((v % 256) as u8) as char] + symbol_code_chars(v / 256)
    }
}

/// Maps a name character to its five-bit value.
pub fn char_to_value(c: u8) -> (r: u8)
    ensures
        r == char_value_spec(c),
        r < 32,
{
    if c == 0x2e {
        0
    } else if c >= 0x31 && c <= 0x35 {
        (c - 0x31) + 1
    } else if c >= 0x61 && c <= 0x7a {
        (c - 0x61) + 6
    } else {
        0
    }
}

proof fn lemma_name_prefix_bound(b: Seq<u8>, n: nat)
    ensures
        name_prefix_value(b, n) < vstd::arithmetic::power2::pow2(5 * n),
    decreases n,
{
    vstd::arithmetic::power2::lemma_pow2_pos(5 * n);
    if n == 0 || n > b.len() {
    } else {
        lemma_name_prefix_bound(b, (n - 1) as nat);
        vstd::arithmetic::power2::lemma_pow2_adds(5 * ((n - 1) as nat), 5);
        vstd::arithmetic::power2::lemma2_to64();
        assert(5 * ((n - 1) as nat) + 5 == 5 * n);
        let p = name_prefix_value(b, (n - 1) as nat);
        let q = vstd::arithmetic::power2::pow2(5 * ((n - 1) as nat));
        assert(p * 32 + 31 < q * 32) by (nonlinear_arith)
            requires p < q;
    }
}

/// Packs a name of the host ledger into its `u64` value; an invalid name gives zero.
pub fn name_to_value(str: &String) -> (r: u64)
    ensures
        r as nat == name_value(encode_utf8(str@)),
{
    let b = str.as_str().as_bytes();
    let len = b.len();
    let ghost bs = encode_utf8(str@);
    assert(b@ == bs);
    if len > 13 {
        return 0;
    }
    if len == 0 {
        return 0;
    }
    let n: usize = if len > 12 { 12 } else { len };
    let mut value: u64 = 0;
    let mut i: usize = 0;
    while i < n
        invariant
            n <= len <= 13,
            n <= 12,
            b@ == bs,
            len == bs.len(),
            i <= n,
            value as nat == name_prefix_value(bs, i as nat),
        decreases n - i,
    {
        proof {
            lemma_name_prefix_bound(bs, (i + 1) as nat);
            vstd::arithmetic::power2::lemma_pow2_strictly_increases(5 * ((i + 1) as nat), 64);
            vstd::arithmetic::power2::lemma2_to64();
        }
        value = value * 32 + char_to_value(b[i]) as u64;
        i = i + 1;
    }
    let shift: u64 = (4 + 5 * (12 - n)) as u64;
    proof {
        lemma_name_prefix_bound(bs, n as nat);
        vstd::arithmetic::power2::lemma_pow2_adds(5 * (n as nat), shift as nat);
        assert(5 * (n as nat) + shift as nat == 64);
        vstd::arithmetic::power2::lemma_pow2_pos(shift as nat);
        let p = name_prefix_value(bs, n as nat);
        let q = vstd::arithmetic::power2::pow2(5 * (n as nat));
        let s = vstd::arithmetic::power2::pow2(shift as nat);
        assert(p * s < q * s) by (nonlinear_arith)
            requires p < q, s > 0;
        vstd::arithmetic::power2::lemma2_to64();
        vstd::bits::lemma_u64_pow2_no_overflow(shift as nat);
        vstd::bits::lemma_u64_shl_is_mul(value, shift);
    }
    value = value << shift;
    if len == 13 {
        let v = char_to_value(b[12]) as u64;
        if v > 0x0F {
            return 0;
        }
        proof {
            // the lowest four bits are free: the shift is by four when `n` is twelve
            assert(shift == 4);
            vstd::arithmetic::power2::lemma2_to64();
            assert((value as nat) % 16 == 0) by (nonlinear_arith)
                requires value as nat == name_prefix_value(bs, 12) * 16;
            assert(value | v == value + v) by (bit_vector)
                requires value % 16 == 0, v <= 15;
        }
        value = value | v;
    }
    value
}

/// Unpacks a `u64` name value into its characters.
pub fn value_to_name(value: u64) -> (r: String)
    ensures
        r@ == name_chars_from(value as nat, 0),
{
    let charmap = vec![
        '.', '1', '2', '3', '4', '5', 'a', 'b', 'c', 'd', 'e', 'f', 'g', 'h', 'i', 'j',
        'k', 'l', 'm', 'n', 'o', 'p', 'q', 'r', 's', 't', 'u', 'v', 'w', 'x', 'y', 'z',
    ];
    assert(charmap@ == name_alphabet());
    let mut v: u64 = value;
    let mut str = String::new();
    let mut i: usize = 0;
    while i < 13
        invariant
            i <= 13,
            charmap@ == name_alphabet(),
            str@ + name_chars_from(v as nat, i as nat) == name_chars_from(value as nat, 0),
        decreases 13 - i,
    {
        if v == 0 {
            assert(name_chars_from(v as nat, i as nat) == Seq::<char>::empty());
            assert(str@ + Seq::<char>::empty() == str@);
            return str;
        }
        let indx: u64 = if i == 12 { v / 0x1000_0000_0000_0000 } else { v / 0x0800_0000_0000_0000 };
        let ghost before = str@;
        push_char(&mut str, charmap[indx as usize]);
        let ghost rest = name_chars_from(((v as nat) % 0x0800_0000_0000_0000) * 32, (i + 1) as nat);
        assert(before + (seq![name_alphabet()[indx as int]] + rest) == str@ + rest);
        v = (v % 0x0800_0000_0000_0000) * 32;
        i = i + 1;
    }
    assert(name_chars_from(v as nat, 13) == Seq::<char>::empty());
    assert(str@ + Seq::<char>::empty() == str@);
    str
}

/// Packs a symbol code string into its `u64` value; an invalid code gives zero.
pub fn string_to_symbol_code(str: &String) -> (r: u64)
    ensures
        r as nat == symbol_code_of(str@),
{
    let s = str.as_str();
    let ghost cs = str@;
    assert(s.spec_bytes() == encode_utf8(cs));
    if s.len() > 7 {
        proof {
            if cs.len() <= 7 && forall|j: int| 0 <= j < cs.len() ==> is_upper(#[trigger] cs[j]) {
                assert(vstd::utf8::is_ascii_chars(cs));
                vstd::utf8::is_ascii_chars_encode_utf8(cs);
            }
        }
        return 0;
    }
    let n = s.unicode_len();
    if n > 7 {
        return 0;
    }
    let mut value: u64 = 0;
    let mut k: usize = n;
    proof {
        vstd::arithmetic::power2::lemma2_to64();
    }
    while k > 0
        invariant
            s@ == cs,
            cs == str@,
            n == cs.len(),
            n <= 7,
            k <= n,
            forall|j: int| k <= j < n ==> is_upper(#[trigger] cs[j]),
            value as nat == symbol_code_value(cs.subrange(k as int, n as int)),
            value < vstd::arithmetic::power2::pow2(8 * (n - k) as nat),
        decreases k,
    {
        let c = s.get_char(k - 1);
        if (c as u32) < 0x41 || (c as u32) > 0x5a {
            assert(!is_upper(cs[k - 1]));
            assert(exists|j: int| 0 <= j < cs.len() && !is_upper(#[trigger] cs[j]));
            return 0;
        }
        let ghost tail = cs.subrange(k as int, n as int);
        let ghost cur = cs.subrange(k - 1, n as int);
        assert(cur.drop_first() == tail);
        proof {
            vstd::arithmetic::power2::lemma_pow2_adds(8 * (n - k) as nat, 8);
            vstd::arithmetic::power2::lemma2_to64();
            assert(8 * (n - k) as nat + 8 == 8 * (n - (k - 1)) as nat);
            vstd::arithmetic::power2::lemma_pow2_strictly_increases(8 * (n - (k - 1)) as nat, 64);
            vstd::arithmetic::power2::lemma2_to64();
            let p = vstd::arithmetic::power2::pow2(8 * (n - k) as nat);
            assert(value * 256 + 255 < p * 256) by (nonlinear_arith)
                requires value < p;
        }
        value = value * 256 + (c as u32) as u64;
        k = k - 1;
    }
    assert(cs.subrange(0, n as int) == cs);
    value
}

/// Packs a symbol code string and a precision into a symbol.
pub fn string_to_symbol(str: &String, precision: u8) -> (r: u64)
    ensures
        r as nat == (symbol_code_of(str@) * 256 + precision as nat) % 0x1_0000_0000_0000_0000,
{
    let code = string_to_symbol_code(str);
    let r = (code << 8) | precision as u64;
    proof {
        let p = precision as u64;
        assert((code << 8) | p == ((code as nat * 256 + p as nat) % 0x1_0000_0000_0000_0000) as u64) by (bit_vector)
            requires p < 256;
    }
    r
}

/// Unpacks a symbol code into its characters.
pub fn symbol_code_to_string(raw: u64) -> (r: String)
    ensures
        r@ == symbol_code_chars(raw as nat),
{
    let mut v: u64 = raw;
    let mut s = String::new();
    while v > 0
        invariant
            s@ + symbol_code_chars(v as nat) == symbol_code_chars(raw as nat),
        decreases v,
    {
        let ghost before = s@;
        push_char(&mut s, ((v % 256) as u8) as char);
        assert(before + symbol_code_chars(v as nat) == s@ + symbol_code_chars((v / 256) as nat));
        v = v / 256;
    }
    assert(s@ + Seq::<char>::empty() == s@);
    s
}

/// Unpacks a symbol into the characters of its code and its precision.
pub fn symbol_to_string_precision(raw: u64) -> (r: (String, u8))
    ensures
        r.0@ == symbol_code_chars(raw as nat / 256),
        r.1 as nat == raw as nat % 256,
{
    (symbol_code_to_string(raw / 256), (raw % 256) as u8)
}

} // verus!
