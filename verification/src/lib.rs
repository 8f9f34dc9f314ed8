//! A 64-bit Feistel block cipher in the style of GOST 28147-89, together
//! with two small verified helpers: a Hamming-style parity-matrix encoder
//! and the pure parts of a raw key-file reader.
//!
//! The cipher engine is stateless: the substitution table is immutable
//! configuration held by [`cipher::GostCypher`], and the round keys and the
//! block are call-time arguments. Decryption is proved to invert encryption
//! for every valid block, key set and table.

pub mod cipher;
pub mod hamming;
pub mod keyfile;
