//! Client-side construction of shielded token transactions: the note data model,
//! note plaintext encoding and encryption, the public inputs of an action and their
//! wire encoding, note selection, and the interleaving of shielded steps with public
//! ledger actions.

mod text;

pub mod bytes;
pub mod address;
pub mod note;
pub mod note_encryption;
pub mod action;
pub mod builder;
pub mod merkle;

pub mod eosio;
