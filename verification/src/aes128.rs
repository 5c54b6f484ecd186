//! The Rijndael cipher with a 128-bit key, one 128-bit block at a time.

pub mod algorithm_utilities;
pub mod block;
pub mod decrypt;
pub mod encrypt;
pub mod mds;
pub mod round_key;
pub mod s_box;
