//! A container-level PNG codec: it parses a byte stream into its chunks,
//! checks each chunk's integrity against its CRC-32 checksum, decodes and
//! re-encodes the header chunk's typed fields, and re-serializes the
//! structure back to bytes with exact fidelity. It serves tools that
//! deliberately corrupt, recover, or inspect PNG files, so out-of-spec
//! data — checksum mismatches, unknown chunk types, unrecognized header
//! codes — round-trips faithfully instead of being rejected.

pub mod be_bytes;
pub mod chunk;
mod error;
pub mod ihdr_data;
pub mod image;

pub use chunk::Chunk;
pub use image::Image;
pub use error::DecodeError;
