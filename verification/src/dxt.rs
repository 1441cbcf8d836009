//! Decoding of block-compressed textures: each block holds 4 by 4 pixels.

pub mod s3tc;

pub use s3tc::bc1 as decode_bc1;
pub use s3tc::bc2 as decode_bc2;
pub use s3tc::bc3 as decode_bc3;
