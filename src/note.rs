//! Notes: the units of shielded value.

use vstd::prelude::*;
use crate::address::Address;

verus! {

/// Header of a fungible-token note.
pub const NT_FT: u64 = 0x0;
/// Header of a non-fungible-token note.
pub const NT_NFT: u64 = 0x1;
/// Header of an authorization note.
pub const NT_AT: u64 = 0x2;

/// The seed randomness of a note, from which its ephemeral key, `psi` and the commitment
/// trapdoor are derived.
#[derive(Clone, Copy, Debug)]
pub struct RandomSeed(pub [u8; 32]);

impl RandomSeed {
    /// Returns the seed bytes.
    pub fn as_bytes(&self) -> (r: &[u8; 32])
        ensures
            *r == self.0,
    {
        &self.0
    }
}

/// A discrete amount of a token held by an address.
///
/// `d1`, `d2` and `sc` are the quantity, the symbol (or the second identifier of a
/// non-fungible token) and the source contract; `nft` is zero for a fungible note.
/// `rho` is the nullifier of the note spent to create this one.
#[derive(Clone, Copy, Debug)]
pub struct Note {
    pub header: u64,
    pub recipient: Address,
    pub d1: u64,
    pub d2: u64,
    pub sc: u64,
    pub nft: u64,
    pub rho: [u8; 32],
    pub rseed: RandomSeed,
    pub memo: [u8; 512],
}

impl Note {
    /// Constructs a note from all of its fields.
    pub fn from_parts(
        header: u64,
        recipient: Address,
        d1: u64,
        d2: u64,
        sc: u64,
        nft: u64,
        rho: [u8; 32],
        rseed: RandomSeed,
        memo: [u8; 512],
    ) -> (r: Self)
        ensures
            r == (Note { header, recipient, d1, d2, sc, nft, rho, rseed, memo }),
    {
        Note { header, recipient, d1, d2, sc, nft, rho, rseed, memo }
    }

    /// Returns the header field.
    pub fn header(&self) -> (r: u64)
        ensures
            r == self.header,
    {
        self.header
    }

    /// Returns the recipient.
    pub fn recipient(&self) -> (r: Address)
        ensures
            r == self.recipient,
    {
        self.recipient
    }

    /// Returns the quantity.
    pub fn d1(&self) -> (r: u64)
        ensures
            r == self.d1,
    {
        self.d1
    }

    /// Returns the symbol.
    pub fn d2(&self) -> (r: u64)
        ensures
            r == self.d2,
    {
        self.d2
    }

    /// Returns the source contract.
    pub fn sc(&self) -> (r: u64)
        ensures
            r == self.sc,
    {
        self.sc
    }

    /// Returns the non-fungible flag.
    pub fn nft(&self) -> (r: u64)
        ensures
            r == self.nft,
    {
        self.nft
    }

    /// Returns the seed randomness.
    pub fn rseed(&self) -> (r: &RandomSeed)
        ensures
            *r == self.rseed,
    {
        &self.rseed
    }

    /// Returns rho.
    pub fn rho(&self) -> (r: [u8; 32])
        ensures
            r == self.rho,
    {
        self.rho
    }

    /// Returns the memo.
    pub fn memo(&self) -> (r: [u8; 512])
        ensures
            r == self.memo,
    {
        self.memo
    }
}

/// A note together with where it stands on the ledger.
#[derive(Clone, Copy, Debug)]
pub struct NoteEx {
    /// The global id of this note.
    pub id: u64,
    /// The ledger block in which the note was added.
    pub block_number: u64,
    /// The position of the note's commitment among the tree's leaves.
    pub leaf_index: u64,
    pub note: Note,
}

/// An encrypted note as it is published.
#[derive(Clone, Copy, Debug)]
pub struct TransmittedNoteCiphertext {
    /// The encoding of the ephemeral public key.
    pub epk_bytes: [u8; 32],
    /// The encrypted note plaintext and its tag.
    pub enc_ciphertext: [u8; 644],
    /// The encrypted recovery data for the sender and its tag.
    pub out_ciphertext: [u8; 80],
}

} // verus!
