//! The hexadecimal and base64 text functions under their former module name.

pub use crate::encodings::{
    byte_as_partial_hex_ascii, bytes_to_hex, hex_as_bytes, hex_ascii_to_byte, hex_to_b64,
    xor_hexes,
};
