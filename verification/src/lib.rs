//! Codec for the tiled and compressed ITP bitmap container, with the
//! pixel-permutation arithmetic that the format depends on.

pub mod raster;
pub mod permute;
pub mod bytes;
pub mod itp;
pub mod ch;
pub mod dxt;
pub mod dds;
pub mod png;
pub mod itp_png;
pub mod itp_dds;
pub mod chcp;
pub mod itc;
pub mod crop;
