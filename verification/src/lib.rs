//! Single-block AES-128 together with the byte, hex and base64 plumbing that
//! feeds it.

pub mod aes128;
pub mod blocks;
pub mod decrypt;
pub mod encodings;
pub mod encrypt;
pub mod hex_to_base64;
pub mod hexaa;
pub mod hexxor;
pub mod strings;
pub mod text;
