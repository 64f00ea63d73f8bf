//! Bitcoin wallet primitives: hierarchical deterministic key derivation,
//! address and script encoding, mnemonic phrases, and a transaction codec
//! with signing support.
pub mod address;
pub mod amount;
pub mod derivation_path;
pub mod encoding;
pub mod extended_private_key;
pub mod extended_public_key;
pub mod format;
pub mod hashing;
pub mod mnemonic;
pub mod network;
pub mod private_key;
pub mod public_key;
pub mod secp;
pub mod text;
pub mod transaction;
pub mod text_codec;
pub mod witness_program;
pub mod wordlist;
