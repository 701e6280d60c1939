//! Video8 PCM block decoding: the CRC-16 that guards each 13-byte block,
//! the 8-to-10-bit sample expansion, field de-interleaving, concealment of
//! missing samples, and the byte framing used by the command-line tools.

use vstd::prelude::*;

pub mod conceal;
pub mod crc;
pub mod demod;
pub mod expand;
pub mod field;
pub mod output;
pub mod stream;

pub use crc::{crc16_video8, crc_ok};
pub use expand::expand_pcm_byte;
pub use conceal::conceal_field;
pub use field::decode_field;
pub use output::write_pcm;

verus! {

/// Bytes in one physical block: address, Q, W0..W3, P, W4..W7, CRC.
pub const BLOCK_BYTES: usize = 13;

/// Blocks in one NTSC field.
pub const BLOCKS_PER_FIELD: usize = 132;

/// Bytes in one NTSC field of blocks.
pub const FIELD_BYTES: usize = BLOCK_BYTES * BLOCKS_PER_FIELD;

/// Stereo sample times in one field.
pub const SAMPLES_PER_FIELD: usize = 525;

/// Output sample rate in Hz.
pub const WAV_RATE: u32 = 31_469;

} // verus!
