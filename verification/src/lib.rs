//! Verified core of a batch image watermarking tool: PNG and JPEG
//! description metadata, export naming, import decisions and encodings.

pub mod bytes;
pub mod color;
pub mod domain;
pub mod export;
pub mod import;
pub mod text;
pub mod metadata;
pub mod preview;
