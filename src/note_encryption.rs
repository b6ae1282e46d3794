//! Note plaintexts and their symmetric encryption.
//!
//! A note plaintext is a version byte `0x02`, the header, the diversifier, the four value
//! fields, rho, the seed and the memo (628 bytes in all).
//! It is sealed with ChaCha20-Poly1305 under a zero nonce, which appends a 16-byte tag.
//! The outgoing plaintext, which lets a sender recover its own outputs, is the
//! transmission key followed by the ephemeral secret key.

use vstd::prelude::*;
use crate::address::{valid_pk_d, Address};
use crate::bytes::{copy_array, le64, le_value, lemma_le64_round_trip, push_all, push_u64_le, read_u64_le};
use crate::note::{Note, RandomSeed};
use chacha20poly1305::aead::{Aead, NewAead};
use group::ff::PrimeField;
use pasta_curves::pallas;

verus! {

/// The size of a note plaintext.
pub const NOTE_PLAINTEXT_SIZE: usize = 628;
/// The size of an outgoing plaintext.
pub const OUT_PLAINTEXT_SIZE: usize = 64;
/// The size of an AEAD tag.
pub const AEAD_TAG_SIZE: usize = 16;
/// The size of an encrypted note plaintext.
pub const ENC_CIPHERTEXT_SIZE: usize = 644;
/// The size of an encrypted outgoing plaintext.
pub const OUT_CIPHERTEXT_SIZE: usize = 80;

/// The personalization of the PRF that derives an outgoing cipher key.
pub const PRF_OCK_ORCHARD_PERSONALIZATION: [u8; 16] = [
    0x5a, 0x63, 0x61, 0x73, 0x68, 0x5f, 0x4f, 0x72, 0x63, 0x68, 0x61, 0x72, 0x64, 0x6f, 0x63, 0x6b,
];

/// A symmetric key that recovers a single output for its sender.
#[derive(Clone, Copy, Debug)]
pub struct OutgoingCipherKey(pub [u8; 32]);

/// The byte encoding of an ephemeral public key.
#[derive(Clone, Copy, Debug)]
pub struct EphemeralKeyBytes(pub [u8; 32]);

/// The byte encoding of a note plaintext.
#[derive(Clone, Debug)]
pub struct NotePlaintextBytes(pub Vec<u8>);

/// The byte encoding of an outgoing plaintext.
#[derive(Clone, Debug)]
pub struct OutPlaintextBytes(pub Vec<u8>);

/// What an outgoing plaintext holds: the recipient's transmission key and the ephemeral
/// secret key of the output.
#[derive(Clone, Copy, Debug)]
pub struct RecoveredOutput {
    pub pk_d: [u8; 32],
    pub esk: [u8; 32],
}

/// Whether 32 bytes are the canonical encoding of an element of the Pallas base field.
pub uninterp spec fn pallas_base_canonical(b: Seq<u8>) -> bool;

/// Whether 32 bytes are the canonical encoding of an element of the Pallas scalar field.
pub uninterp spec fn pallas_scalar_canonical(b: Seq<u8>) -> bool;

/// BLAKE2b with a 32-byte output and the given personalization.
pub uninterp spec fn blake2b_256_of(personal: Seq<u8>, data: Seq<u8>) -> Seq<u8>;

/// ChaCha20-Poly1305 under `key` with a zero nonce and no associated data: the
/// ciphertext followed by the tag.
pub uninterp spec fn seal_of(key: Seq<u8>, plaintext: Seq<u8>) -> Seq<u8>;

/// The plaintext of a note.
pub open spec fn note_plaintext(n: Note) -> Seq<u8> {
    seq![2u8] + le64(n.header) + n.recipient.d@ + le64(n.d1) + le64(n.d2) + le64(n.sc) + le64(n.nft)
        + n.rho@ + n.rseed.0@ + n.memo@
}

/// A note plaintext that parses: its version byte is `0x02` and its rho is canonical.
pub open spec fn parsable_plaintext(p: Seq<u8>) -> bool {
    p.len() == 628 && p[0] == 2 && pallas_base_canonical(p.subrange(52, 84))
}

/// A note whose rho is the canonical encoding of a field element.
pub open spec fn note_has_canonical_rho(n: Note) -> bool {
    pallas_base_canonical(n.rho@)
}

/// The outgoing cipher key for an outgoing viewing key and an ephemeral key.
pub open spec fn prf_ock(ovk: Seq<u8>, epk: Seq<u8>) -> Seq<u8> {
    blake2b_256_of(PRF_OCK_ORCHARD_PERSONALIZATION@, ovk + epk)
}

/// Relies on `pasta_curves`' `pallas::Base::from_repr`: whether the bytes are canonical.
#[verifier::external_body]
fn is_base_repr(b: &[u8; 32]) -> (r: bool)
    ensures
        r == pallas_base_canonical(b@),
{
    bool::from(pallas::Base::from_repr(*b).is_some())
}

/// Relies on `pasta_curves`' `pallas::Scalar::from_repr`: whether the bytes are canonical.
#[verifier::external_body]
fn is_scalar_repr(b: &[u8; 32]) -> (r: bool)
    ensures
        r == pallas_scalar_canonical(b@),
{
    bool::from(pallas::Scalar::from_repr(*b).is_some())
}

/// Relies on `blake2b_simd::Params` with a 32-byte hash length and a personalization.
#[verifier::external_body]
fn blake2b_256(personal: &[u8; 16], data: &[u8]) -> (r: [u8; 32])
    ensures
        r@ == blake2b_256_of(personal@, data@),
{
    let h = blake2b_simd::Params::new().hash_length(32).personal(personal).hash(data);
    let mut r = [0u8; 32];
    r.copy_from_slice(h.as_bytes());
    r
}

/// Relies on `chacha20poly1305::ChaCha20Poly1305::encrypt`, which fails only on inputs
/// far longer than these: the ciphertext has the plaintext's length plus the tag.
#[verifier::external_body]
fn seal(key: &[u8; 32], plaintext: &[u8]) -> (r: Vec<u8>)
    requires
        plaintext@.len() <= 4096,
    ensures
        r@ == seal_of(key@, plaintext@),
        r@.len() == plaintext@.len() + 16,
{
    let cipher = chacha20poly1305::ChaCha20Poly1305::new(&chacha20poly1305::Key::from(*key));
    cipher.encrypt(&chacha20poly1305::Nonce::from([0u8; 12]), plaintext).unwrap()
}

/// Relies on `chacha20poly1305::ChaCha20Poly1305::decrypt`: it returns exactly the
/// plaintext whose sealing under the same key and nonce is the input.
#[verifier::external_body]
fn open(key: &[u8; 32], ciphertext: &[u8]) -> (r: Option<Vec<u8>>)
    ensures
        r is Some ==> seal_of(key@, r->0@) == ciphertext@,
        forall|p: Seq<u8>| #[trigger] seal_of(key@, p) == ciphertext@ ==> r is Some && r->0@ == p,
{
    let cipher = chacha20poly1305::ChaCha20Poly1305::new(&chacha20poly1305::Key::from(*key));
    cipher.decrypt(&chacha20poly1305::Nonce::from([0u8; 12]), ciphertext).ok()
}

/// Two notes with the same plaintext and the same transmission key are the same note.
pub proof fn lemma_note_plaintext_injective(m: Note, n: Note)
    requires
        note_plaintext(m) == note_plaintext(n),
        m.recipient.pk_d == n.recipient.pk_d,
    ensures
        m == n,
{
    let p = note_plaintext(m);
    let q = note_plaintext(n);
    lemma_note_plaintext_fields(m);
    lemma_note_plaintext_fields(n);
    assert(m.recipient.d@ =~= n.recipient.d@);
    assert(m.recipient.d =~= n.recipient.d);
    assert(m.rho =~= n.rho);
    assert(m.rseed.0 =~= n.rseed.0);
    assert(m.memo =~= n.memo);
}

/// Where each field stands in a note plaintext.
pub proof fn lemma_note_plaintext_fields(n: Note)
    ensures
        note_plaintext(n).len() == 628,
        note_plaintext(n)[0] == 2,
        le_value(note_plaintext(n).subrange(1, 9)) == n.header,
        note_plaintext(n).subrange(9, 20) == n.recipient.d@,
        le_value(note_plaintext(n).subrange(20, 28)) == n.d1,
        le_value(note_plaintext(n).subrange(28, 36)) == n.d2,
        le_value(note_plaintext(n).subrange(36, 44)) == n.sc,
        le_value(note_plaintext(n).subrange(44, 52)) == n.nft,
        note_plaintext(n).subrange(52, 84) == n.rho@,
        note_plaintext(n).subrange(84, 116) == n.rseed.0@,
        note_plaintext(n).subrange(116, 628) == n.memo@,
{
    lemma_le64_round_trip(n.header);
    lemma_le64_round_trip(n.d1);
    lemma_le64_round_trip(n.d2);
    lemma_le64_round_trip(n.sc);
    lemma_le64_round_trip(n.nft);
    let p = note_plaintext(n);
    assert(p.subrange(1, 9) == le64(n.header));
    assert(p.subrange(9, 20) == n.recipient.d@);
    assert(p.subrange(20, 28) == le64(n.d1));
    assert(p.subrange(28, 36) == le64(n.d2));
    assert(p.subrange(36, 44) == le64(n.sc));
    assert(p.subrange(44, 52) == le64(n.nft));
    assert(p.subrange(52, 84) == n.rho@);
    assert(p.subrange(84, 116) == n.rseed.0@);
    assert(p.subrange(116, 628) == n.memo@);
}

/// Parses a note plaintext whose recipient has the transmission key `pk_d`. `None` when
/// the version byte is not `0x02` or rho is not canonical.
pub fn orchard_parse_note_plaintext(plaintext: &[u8], pk_d: [u8; 32]) -> (r: Option<Note>)
    requires
        plaintext@.len() == NOTE_PLAINTEXT_SIZE,
    ensures
        r is Some <==> parsable_plaintext(plaintext@),
        r is Some ==> note_plaintext(r->0) == plaintext@ && r->0.recipient.pk_d == pk_d,
{
    if plaintext[0] != 0x02 {
        return None;
    }
    let rho: [u8; 32] = copy_array(plaintext, 52);
    if !is_base_repr(&rho) {
        return None;
    }
    let header = read_u64_le(plaintext, 1);
    let d: [u8; 11] = copy_array(plaintext, 9);
    let d1 = read_u64_le(plaintext, 20);
    let d2 = read_u64_le(plaintext, 28);
    let sc = read_u64_le(plaintext, 36);
    let nft = read_u64_le(plaintext, 44);
    let rseed: [u8; 32] = copy_array(plaintext, 84);
    let memo: [u8; 512] = copy_array(plaintext, 116);
    let note = Note::from_parts(header, Address::from_parts(d, pk_d), d1, d2, sc, nft, rho, RandomSeed(rseed), memo);
    proof {
        let p = plaintext@;
        lemma_le64_round_trip(header);
        lemma_le64_round_trip(d1);
        lemma_le64_round_trip(d2);
        lemma_le64_round_trip(sc);
        lemma_le64_round_trip(nft);
        crate::bytes::lemma_le_value_le64(p.subrange(1, 9));
        crate::bytes::lemma_le_value_le64(p.subrange(20, 28));
        crate::bytes::lemma_le_value_le64(p.subrange(28, 36));
        crate::bytes::lemma_le_value_le64(p.subrange(36, 44));
        crate::bytes::lemma_le_value_le64(p.subrange(44, 52));
        assert(p == seq![p[0]] + p.subrange(1, 9) + p.subrange(9, 20) + p.subrange(20, 28) + p.subrange(28, 36)
            + p.subrange(36, 44) + p.subrange(44, 52) + p.subrange(52, 84) + p.subrange(84, 116)
            + p.subrange(116, 628));
    }
    Some(note)
}

/// In-band secret distribution for notes: the encodings of plaintexts.
#[derive(Clone, Copy, Debug)]
pub struct OrchardDomain {}

impl OrchardDomain {
    /// Encodes a note as a note plaintext.
    pub fn note_plaintext_bytes(note: &Note) -> (r: NotePlaintextBytes)
        ensures
            r.0@ == note_plaintext(*note),
    {
        let mut np: Vec<u8> = Vec::new();
        np.push(0x02);
        push_u64_le(&mut np, note.header);
        push_all(&mut np, &note.recipient.d);
        push_u64_le(&mut np, note.d1);
        push_u64_le(&mut np, note.d2);
        push_u64_le(&mut np, note.sc);
        push_u64_le(&mut np, note.nft);
        push_all(&mut np, &note.rho);
        push_all(&mut np, &note.rseed.0);
        push_all(&mut np, &note.memo);
        assert(np@ == note_plaintext(*note));
        NotePlaintextBytes(np)
    }

    /// Encodes the outgoing plaintext: the transmission key, then the ephemeral secret key.
    pub fn outgoing_plaintext_bytes(pk_d: &[u8; 32], esk: &[u8; 32]) -> (r: OutPlaintextBytes)
        ensures
            r.0@ == pk_d@ + esk@,
    {
        let mut op: Vec<u8> = Vec::new();
        push_all(&mut op, pk_d);
        push_all(&mut op, esk);
        OutPlaintextBytes(op)
    }

    /// The transmission key of an outgoing plaintext; `None` unless it encodes a point other
    /// than the identity.
    pub fn extract_pk_d(out_plaintext: &OutPlaintextBytes) -> (r: Option<[u8; 32]>)
        requires
            out_plaintext.0@.len() == OUT_PLAINTEXT_SIZE,
        ensures
            r is Some <==> valid_pk_d(out_plaintext.0@.subrange(0, 32)),
            r is Some ==> r->0@ == out_plaintext.0@.subrange(0, 32),
    {
        let pk_d: [u8; 32] = copy_array(out_plaintext.0.as_slice(), 0);
        let mut raw = [0u8; 43];
        let mut i: usize = 0;
        while i < 32
            invariant
                i <= 32,
                forall|j: int| 0 <= j < i ==> raw@[j + 11] == pk_d@[j],
            decreases 32 - i,
        {
            raw[i + 11] = pk_d[i];
            i = i + 1;
        }
        assert(raw@.subrange(11, 43) == pk_d@);
        match Address::from_raw_address_bytes(&raw) {
            Some(_) => Some(pk_d),
            None => None,
        }
    }

    /// The ephemeral secret key of an outgoing plaintext; `None` unless it is a canonical
    /// non-zero scalar.
    pub fn extract_esk(out_plaintext: &OutPlaintextBytes) -> (r: Option<[u8; 32]>)
        requires
            out_plaintext.0@.len() == OUT_PLAINTEXT_SIZE,
        ensures
            r is Some <==> pallas_scalar_canonical(out_plaintext.0@.subrange(32, 64))
                && out_plaintext.0@.subrange(32, 64) != Seq::new(32, |i: int| 0u8),
            r is Some ==> r->0@ == out_plaintext.0@.subrange(32, 64),
    {
        let esk: [u8; 32] = copy_array(out_plaintext.0.as_slice(), 32);
        let mut nonzero = false;
        let mut k: usize = 0;
        while k < 32
            invariant
                k <= 32,
                nonzero <==> exists|j: int| 0 <= j < k && #[trigger] esk@[j] != 0,
            decreases 32 - k,
        {
            if esk[k] != 0 {
                nonzero = true;
            }
            k = k + 1;
        }
        if !nonzero {
            assert(esk@ == Seq::new(32, |i: int| 0u8));
            return None;
        }
        proof {
            let j = choose|j: int| 0 <= j < 32 && #[trigger] esk@[j] != 0;
            assert(esk@[j] != Seq::new(32, |i: int| 0u8)[j]);
        }
        if !is_scalar_repr(&esk) {
            return None;
        }
        Some(esk)
    }
}

/// The PRF that derives the outgoing cipher key from an outgoing viewing key and the
/// ephemeral key of an output.
pub fn prf_ock_orchard(ovk: &[u8; 32], ephemeral_key: &EphemeralKeyBytes) -> (r: OutgoingCipherKey)
    ensures
        r.0@ == prf_ock(ovk@, ephemeral_key.0@),
{
    let mut data: Vec<u8> = Vec::new();
    push_all(&mut data, ovk);
    push_all(&mut data, &ephemeral_key.0);
    OutgoingCipherKey(blake2b_256(&PRF_OCK_ORCHARD_PERSONALIZATION, data.as_slice()))
}

/// Seals the plaintext of a note under a symmetric key.
pub fn encrypt_note_with_key(key: &[u8; 32], note: &Note) -> (r: Vec<u8>)
    ensures
        r@ == seal_of(key@, note_plaintext(*note)),
        r@.len() == ENC_CIPHERTEXT_SIZE,
{
    let np = OrchardDomain::note_plaintext_bytes(note);
    proof {
        lemma_note_plaintext_fields(*note);
    }
    seal(key, np.0.as_slice())
}

/// Opens an encrypted note plaintext under a symmetric key and parses it for the
/// recipient with transmission key `pk_d`. A note sealed under the key comes back as it
/// was, when its recipient's key is `pk_d` and its rho is canonical.
pub fn decrypt_note_with_key(key: &[u8; 32], enc_ciphertext: &[u8], pk_d: [u8; 32]) -> (r: Option<Note>)
    ensures
        r is Some <==> exists|p: Seq<u8>|
            #[trigger] seal_of(key@, p) == enc_ciphertext@ && parsable_plaintext(p),
        r is Some ==> seal_of(key@, note_plaintext(r->0)) == enc_ciphertext@
            && r->0.recipient.pk_d == pk_d,
        forall|n: Note|
            #[trigger] seal_of(key@, note_plaintext(n)) == enc_ciphertext@ && n.recipient.pk_d == pk_d
                && note_has_canonical_rho(n) ==> r == Some(n),
{
    let opened = open(key, enc_ciphertext);
    proof {
        assert forall|n: Note|
            #[trigger] seal_of(key@, note_plaintext(n)) == enc_ciphertext@ implies parsable_plaintext(note_plaintext(n))
                || !note_has_canonical_rho(n) by {
            lemma_note_plaintext_fields(n);
        }
    }
    match opened {
        None => None,
        Some(p) => {
            if p.len() != NOTE_PLAINTEXT_SIZE {
                return None;
            }
            let r = orchard_parse_note_plaintext(p.as_slice(), pk_d);
            proof {
                assert forall|n: Note|
                    #[trigger] seal_of(key@, note_plaintext(n)) == enc_ciphertext@ && n.recipient.pk_d == pk_d
                        && note_has_canonical_rho(n) implies r == Some(n) by {
                    lemma_note_plaintext_fields(n);
                    lemma_note_plaintext_injective(r->0, n);
                }
            }
            r
        }
    }
}

/// Seals an outgoing plaintext under an outgoing cipher key.
pub fn encrypt_outgoing_with_key(ock: &OutgoingCipherKey, pk_d: &[u8; 32], esk: &[u8; 32]) -> (r: Vec<u8>)
    ensures
        r@ == seal_of(ock.0@, pk_d@ + esk@),
        r@.len() == OUT_CIPHERTEXT_SIZE,
{
    let op = OrchardDomain::outgoing_plaintext_bytes(pk_d, esk);
    seal(&ock.0, op.0.as_slice())
}

/// Opens an encrypted outgoing plaintext and returns the transmission key and the
/// ephemeral secret key it holds, when both are valid. What was sealed under the key
/// comes back as it was.
pub fn decrypt_outgoing_with_key(ock: &OutgoingCipherKey, out_ciphertext: &[u8]) -> (r: Option<RecoveredOutput>)
    ensures
        r is Some ==> seal_of(ock.0@, r->0.pk_d@ + r->0.esk@) == out_ciphertext@,
        forall|pk_d: [u8; 32], esk: [u8; 32]|
            #[trigger] seal_of(ock.0@, pk_d@ + esk@) == out_ciphertext@ && valid_pk_d(pk_d@)
                && pallas_scalar_canonical(esk@) && esk@ != Seq::new(32, |i: int| 0u8) ==> r == Some(RecoveredOutput { pk_d, esk }),
{
    match open(&ock.0, out_ciphertext) {
        None => None,
        Some(p) => {
            if p.len() != OUT_PLAINTEXT_SIZE {
                return None;
            }
            let op = OutPlaintextBytes(p);
            proof {
                assert forall|a: [u8; 32], b: [u8; 32]|
                    #[trigger] seal_of(ock.0@, a@ + b@) == out_ciphertext@ implies op.0@.subrange(0, 32) == a@
                        && op.0@.subrange(32, 64) == b@ by {
                    assert((a@ + b@).subrange(0, 32) == a@);
                    assert((a@ + b@).subrange(32, 64) == b@);
                }
            }
            let pk_d = match OrchardDomain::extract_pk_d(&op) {
                Some(k) => k,
                None => {
                    return None;
                },
            };
            let esk = match OrchardDomain::extract_esk(&op) {
                Some(k) => k,
                None => {
                    return None;
                },
            };
            proof {
                assert(op.0@ == pk_d@ + esk@);
                assert forall|a: [u8; 32], b: [u8; 32]|
                    #[trigger] seal_of(ock.0@, a@ + b@) == out_ciphertext@ implies a == pk_d && b == esk by {
                    assert((a@ + b@).subrange(0, 32) == a@);
                    assert((a@ + b@).subrange(32, 64) == b@);
                    assert(a =~= pk_d);
                    assert(b =~= esk);
                }
            }
            Some(RecoveredOutput { pk_d, esk })
        }
    }
}

} // verus!
