//! Hide a file's bytes inside a PNG image.
//!
//! The payload is base64-encoded, wrapped in a `tEXt` chunk whose data field
//! starts with the keyword `data` and a null byte, and spliced into the PNG
//! immediately before the terminating `IEND` chunk. Decoding scans the chunk
//! sequence for the last such chunk, verifies its CRC-32 checksum, and
//! recovers the original bytes.

pub mod checksum;
pub mod chunk;
pub mod container;
pub mod errors;
pub mod payload;
