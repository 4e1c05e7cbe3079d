//! Ethereum vanity wallet search: suffix validation and matching, BIP32
//! key derivation along `m/44'/60'/0'/0/N`, address computation, and the
//! bookkeeping of a search for addresses that end in a given hex suffix.

pub mod primitives;
pub mod bip32;
pub mod text;
pub mod matcher;
pub mod generator;
pub mod output;
pub mod search;
