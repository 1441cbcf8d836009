//! What a pixel format holds.

use vstd::prelude::*;

verus! {

pub const ALPHAPIXELS: u32 = 0x00000001;

pub const ALPHA: u32 = 0x00000002;

pub const FOURCC: u32 = 0x00000004;

pub const PALETTEINDEXED4: u32 = 0x00000008;

pub const PALETTEINDEXEDTO8: u32 = 0x00000010;

pub const PALETTEINDEXED8: u32 = 0x00000020;

pub const RGB: u32 = 0x00000040;

pub const COMPRESSED: u32 = 0x00000080;

pub const RGBTOYUV: u32 = 0x00000100;

pub const YUV: u32 = 0x00000200;

pub const ZBUFFER: u32 = 0x00000400;

pub const PALETTEINDEXED1: u32 = 0x00000800;

pub const PALETTEINDEXED2: u32 = 0x00001000;

pub const ZPIXELS: u32 = 0x00002000;

pub const STENCILBUFFER: u32 = 0x00004000;

pub const ALPHAPREMULT: u32 = 0x00008000;

pub const LUMINANCE: u32 = 0x00020000;

pub const BUMPLUMINANCE: u32 = 0x00040000;

pub const BUMPDUDV: u32 = 0x00080000;

} // verus!
