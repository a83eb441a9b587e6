//! Reader for the two-version game-asset container format: header, file-entry
//! table, block table, and reconstruction of each contained tag's bytes from
//! optionally zlib-compressed blocks.

pub mod common;
pub mod loader;
