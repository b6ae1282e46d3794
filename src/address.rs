//! Shielded payment addresses and their bech32m text form.

use vstd::prelude::*;
use bech32::{FromBase32, ToBase32};
use pasta_curves::pallas;
use group::GroupEncoding;

verus! {

/// A shielded payment address: an 11-byte diversifier and the 32-byte encoding of the
/// diversified transmission key.
#[derive(Clone, Copy, Debug)]
pub struct Address {
    pub d: [u8; 11],
    pub pk_d: [u8; 32],
}

/// Whether 32 bytes are the compressed encoding of a point of the Pallas curve.
pub uninterp spec fn pallas_point_encoding(b: Seq<u8>) -> bool;

/// The 5-bit groups into which `bech32` regroups bytes, most significant bits first and
/// the last group padded with zero bits.
pub uninterp spec fn base32_of(b: Seq<u8>) -> Seq<u8>;

/// The bech32m string of a human-readable part and 5-bit data.
pub uninterp spec fn bech32m_of(hrp: Seq<char>, data: Seq<u8>) -> Seq<char>;

/// The human-readable part of an address.
pub open spec fn address_hrp() -> Seq<char> {
    seq!['z', 'a']
}

/// A human-readable part that `bech32` accepts as it is: 1 to 83 printable ASCII
/// characters, none of them upper case.
pub open spec fn lower_hrp(h: Seq<char>) -> bool {
    1 <= h.len() <= 83 && forall|i: int|
        0 <= i < h.len() ==> 33 <= (#[trigger] h[i]) as u32 <= 126 && !(65 <= h[i] as u32 <= 90)
}

pub open spec fn all_5bit(d: Seq<u8>) -> bool {
    forall|i: int| 0 <= i < d.len() ==> #[trigger] d[i] < 32
}

/// The transmission key encoding is a point other than the identity, whose encoding is
/// all zero bytes.
pub open spec fn valid_pk_d(b: Seq<u8>) -> bool {
    pallas_point_encoding(b) && b != Seq::new(32, |i: int| 0u8)
}

/// The raw encoding of an address: diversifier, then transmission key.
pub open spec fn raw_address(d: Seq<u8>, pk_d: Seq<u8>) -> Seq<u8> {
    d + pk_d
}

impl Address {
    pub open spec fn raw(&self) -> Seq<u8> {
        raw_address(self.d@, self.pk_d@)
    }

    pub open spec fn is_valid(&self) -> bool {
        valid_pk_d(self.pk_d@)
    }
}

/// An address is determined by its raw encoding; with the contracts of `to_bech32m` and
/// `from_bech32m` this gives that parsing the bech32m text of a valid address returns
/// that address.
pub proof fn lemma_raw_address_injective(a: Address, b: Address)
    requires
        a.raw() == b.raw(),
    ensures
        a == b,
{
    assert(a.raw().subrange(0, 11) == a.d@);
    assert(b.raw().subrange(0, 11) == b.d@);
    assert(a.raw().subrange(11, 43) == a.pk_d@);
    assert(b.raw().subrange(11, 43) == b.pk_d@);
    assert(a.d =~= b.d);
    assert(a.pk_d =~= b.pk_d);
}

/// Parsing the bech32m text of a valid address gives back that address.
pub proof fn lemma_bech32m_round_trip(a: Address, text: Seq<char>, parsed: Option<Address>)
    requires
        a.is_valid(),
        text == bech32m_of(address_hrp(), base32_of(a.raw())),
        all_5bit(base32_of(a.raw())),
        forall|raw: Seq<u8>|
            raw.len() == 43 && valid_pk_d(raw.subrange(11, 43)) && all_5bit(base32_of(raw)) && text
                == #[trigger] bech32m_of(address_hrp(), base32_of(raw)) ==> parsed is Some && parsed->0.raw() == raw,
    ensures
        parsed == Some(a),
{
    assert(a.raw().subrange(11, 43) == a.pk_d@);
    assert(a.raw().len() == 43);
    lemma_raw_address_injective(parsed->0, a);
}

/// Relies on `pasta_curves`' `pallas::Point::from_bytes`: whether it decodes the bytes.
#[verifier::external_body]
fn is_point_encoding(b: &[u8; 32]) -> (r: bool)
    ensures
        r == pallas_point_encoding(b@),
{
    bool::from(pallas::Point::from_bytes(b).is_some())
}

/// Relies on `bech32`'s `ToBase32` for byte slices: the 5-bit groups, each below 32.
#[verifier::external_body]
fn to_base32(b: &[u8]) -> (r: Vec<u8>)
    ensures
        r@ == base32_of(b@),
        all_5bit(r@),
{
    b.to_base32().into_iter().map(|g| g.to_u8()).collect()
}

/// Relies on `bech32`'s `FromBase32` for `Vec<u8>`: the groups made of some bytes are
/// read back into those bytes (the padding is fewer than five zero bits).
#[verifier::external_body]
fn from_base32(d: &[u8]) -> (r: Option<Vec<u8>>)
    requires
        all_5bit(d@),
    ensures
        forall|b: Seq<u8>| #[trigger] base32_of(b) == d@ ==> r is Some && r->0@ == b,
{
    let groups: Vec<bech32::u5> = d.iter().map(|x| bech32::u5::try_from_u8(*x).unwrap()).collect();
    Vec::<u8>::from_base32(&groups).ok()
}

/// Relies on `bech32::encode` with the bech32m variant: it succeeds for a valid
/// human-readable part.
#[verifier::external_body]
fn bech32m_encode(hrp: &str, data: &[u8]) -> (r: Option<String>)
    requires
        all_5bit(data@),
    ensures
        r is Some ==> r->0@ == bech32m_of(hrp@, data@),
        lower_hrp(hrp@) ==> r is Some,
{
    let groups: Vec<bech32::u5> = data.iter().map(|x| bech32::u5::try_from_u8(*x).unwrap()).collect();
    bech32::encode(hrp, groups, bech32::Variant::Bech32m).ok()
}

/// Relies on `bech32::decode`: a string that `bech32::encode` made with the bech32m
/// variant decodes to its human-readable part and data; the flag tells bech32m apart.
#[verifier::external_body]
fn bech32_decode(s: &str) -> (r: Option<Bech32Parts>)
    ensures
        r is Some ==> all_5bit(r->0.data@),
        forall|h: Seq<char>, d: Seq<u8>|
            #[trigger] bech32m_of(h, d) == s@ && lower_hrp(h) && all_5bit(d) ==> r is Some
                && r->0.hrp@ == h && r->0.data@ == d && r->0.is_bech32m,
{
    match bech32::decode(s) {
        Ok((hrp, data, variant)) => Some(Bech32Parts {
            hrp,
            data: data.into_iter().map(|g| g.to_u8()).collect(),
            is_bech32m: variant == bech32::Variant::Bech32m,
        }),
        Err(_) => None,
    }
}

/// What a bech32 string holds: its human-readable part, its 5-bit data, and whether its
/// checksum is of the bech32m variant.
struct Bech32Parts {
    hrp: String,
    data: Vec<u8>,
    is_bech32m: bool,
}

impl Address {
    /// Constructs an address from its diversifier and transmission key.
    pub fn from_parts(d: [u8; 11], pk_d: [u8; 32]) -> (r: Self)
        ensures
            r.d == d,
            r.pk_d == pk_d,
    {
        Address { d, pk_d }
    }

    /// Returns the diversifier of this address.
    pub fn diversifier(&self) -> (r: [u8; 11])
        ensures
            r == self.d,
    {
        self.d
    }

    /// Returns the encoding of the diversified transmission key.
    pub fn pk_d(&self) -> (r: [u8; 32])
        ensures
            r == self.pk_d,
    {
        self.pk_d
    }

    /// The 43-byte raw encoding: diversifier, then transmission key.
    pub fn to_raw_address_bytes(&self) -> (r: [u8; 43])
        ensures
            r@ == self.raw(),
    {
        let mut r = [0u8; 43];
        let mut i: usize = 0;
        while i < 11
            invariant
                i <= 11,
                forall|j: int| 0 <= j < i ==> r@[j] == self.d@[j],
            decreases 11 - i,
        {
            r[i] = self.d[i];
            i = i + 1;
        }
        while i < 43
            invariant
                11 <= i <= 43,
                forall|j: int| 0 <= j < 11 ==> r@[j] == self.d@[j],
                forall|j: int| 11 <= j < i ==> r@[j] == self.pk_d@[j - 11],
            decreases 43 - i,
        {
            r[i] = self.pk_d[i - 11];
            i = i + 1;
        }
        assert(r@ == self.raw());
        r
    }

    /// Parses the raw encoding; `None` when the key part is not a point other than the
    /// identity.
    pub fn from_raw_address_bytes(bytes: &[u8; 43]) -> (r: Option<Self>)
        ensures
            r is Some <==> valid_pk_d(bytes@.subrange(11, 43)),
            r is Some ==> r->0.raw() == bytes@ && r->0.is_valid(),
    {
        let mut d = [0u8; 11];
        let mut pk_d = [0u8; 32];
        let mut i: usize = 0;
        let mut nonzero = false;
        while i < 11
            invariant
                i <= 11,
                forall|j: int| 0 <= j < i ==> d@[j] == bytes@[j],
            decreases 11 - i,
        {
            d[i] = bytes[i];
            i = i + 1;
        }
        let mut k: usize = 0;
        while k < 32
            invariant
                k <= 32,
                forall|j: int| 0 <= j < k ==> pk_d@[j] == bytes@[j + 11],
                nonzero <==> exists|j: int| 0 <= j < k && #[trigger] bytes@[j + 11] != 0,
            decreases 32 - k,
        {
            pk_d[k] = bytes[k + 11];
            if bytes[k + 11] != 0 {
                nonzero = true;
            }
            k = k + 1;
        }
        assert(pk_d@ == bytes@.subrange(11, 43));
        if !nonzero {
            assert(pk_d@ == Seq::new(32, |i: int| 0u8));
            return None;
        }
        proof {
            let j = choose|j: int| 0 <= j < 32 && #[trigger] bytes@[j + 11] != 0;
            assert(pk_d@[j] != Seq::new(32, |i: int| 0u8)[j]);
        }
        if !is_point_encoding(&pk_d) {
            return None;
        }
        let a = Address { d, pk_d };
        assert(a.raw() == bytes@);
        Some(a)
    }

    /// The bech32m text form of this address, with human-readable part `za`.
    pub fn to_bech32m(&self) -> (r: String)
        ensures
            r@ == bech32m_of(address_hrp(), base32_of(self.raw())),
            all_5bit(base32_of(self.raw())),
    {
        let raw = self.to_raw_address_bytes();
        let groups = to_base32(&raw);
        proof {
            reveal_strlit("za");
            assert("za"@ == address_hrp());
            assert(lower_hrp(address_hrp()));
        }
        let r = bech32m_encode("za", &groups);
        match r {
            Some(s) => s,
            None => {
                proof {
                    assert(false);
                }
                String::new()
            }
        }
    }

    /// Parses the bech32m text form of an address. The encoding of any address with a
    /// valid transmission key is parsed back into that address.
    pub fn from_bech32m(str: &String) -> (r: Option<Self>)
        ensures
            forall|raw: Seq<u8>|
                raw.len() == 43 && valid_pk_d(raw.subrange(11, 43)) && all_5bit(base32_of(raw))
                    && str@ == #[trigger] bech32m_of(address_hrp(), base32_of(raw)) ==> r is Some
                    && r->0.raw() == raw,
            r is Some ==> r->0.is_valid(),
    {
        let decoded = bech32_decode(str.as_str());
        let parts = match decoded {
            Some(x) => x,
            None => {
                proof {
                    assert(lower_hrp(address_hrp()));
                }
                return None;
            }
        };
        proof {
            reveal_strlit("za");
        }
        let za = String::from_str("za");
        if !(parts.hrp == za) || !parts.is_bech32m {
            proof {
                assert(lower_hrp(address_hrp()));
                assert(za@ == address_hrp());
            }
            return None;
        }
        let bytes = match from_base32(&parts.data) {
            Some(b) => b,
            None => {
                return None;
            }
        };
        if bytes.len() < 43 {
            return None;
        }
        let mut raw = [0u8; 43];
        let mut i: usize = 0;
        while i < 43
            invariant
                i <= 43,
                43 <= bytes@.len(),
                forall|j: int| 0 <= j < i ==> raw@[j] == bytes@[j],
            decreases 43 - i,
        {
            raw[i] = bytes[i];
            i = i + 1;
        }
        assert(bytes@.len() == 43 ==> raw@ == bytes@);
        Address::from_raw_address_bytes(&raw)
    }
}

} // verus!
