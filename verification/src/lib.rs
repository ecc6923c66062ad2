//! A substitution-cipher utility built on a ten-letter key: a permutation
//! table pairing each decimal digit with a distinct uppercase ASCII letter.
//! The library validates keys and numeric messages, encrypts digit sequences
//! into letter strings, decrypts letter strings back into digits, and renders
//! a key as a human-readable table.

pub mod chars;
pub mod cipher;
pub mod errors;
pub mod key;
pub mod message;
pub mod present;
pub mod text;

pub use cipher::{decrypt, encrypt};
pub use errors::CipherError;
pub use key::{create_key, Key};
pub use message::{create_message, Message};
pub use present::render;
