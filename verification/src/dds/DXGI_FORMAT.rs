//! The formats of the extended header.

use vstd::prelude::*;

verus! {

pub const UNKNOWN: u32 = 0;

pub const R32G32B32A32_TYPELESS: u32 = 1;

pub const R32G32B32A32_FLOAT: u32 = 2;

pub const R32G32B32A32_UINT: u32 = 3;

pub const R32G32B32A32_SINT: u32 = 4;

pub const R32G32B32_TYPELESS: u32 = 5;

pub const R32G32B32_FLOAT: u32 = 6;

pub const R32G32B32_UINT: u32 = 7;

pub const R32G32B32_SINT: u32 = 8;

pub const R16G16B16A16_TYPELESS: u32 = 9;

pub const R16G16B16A16_FLOAT: u32 = 10;

pub const R16G16B16A16_UNORM: u32 = 11;

pub const R16G16B16A16_UINT: u32 = 12;

pub const R16G16B16A16_SNORM: u32 = 13;

pub const R16G16B16A16_SINT: u32 = 14;

pub const R32G32_TYPELESS: u32 = 15;

pub const R32G32_FLOAT: u32 = 16;

pub const R32G32_UINT: u32 = 17;

pub const R32G32_SINT: u32 = 18;

pub const R32G8X24_TYPELESS: u32 = 19;

pub const D32_FLOAT_S8X24_UINT: u32 = 20;

pub const R32_FLOAT_X8X24_TYPELESS: u32 = 21;

pub const X32_TYPELESS_G8X24_UINT: u32 = 22;

pub const R10G10B10A2_TYPELESS: u32 = 23;

pub const R10G10B10A2_UNORM: u32 = 24;

pub const R10G10B10A2_UINT: u32 = 25;

pub const R11G11B10_FLOAT: u32 = 26;

pub const R8G8B8A8_TYPELESS: u32 = 27;

pub const R8G8B8A8_UNORM: u32 = 28;

pub const R8G8B8A8_UNORM_SRGB: u32 = 29;

pub const R8G8B8A8_UINT: u32 = 30;

pub const R8G8B8A8_SNORM: u32 = 31;

pub const R8G8B8A8_SINT: u32 = 32;

pub const R16G16_TYPELESS: u32 = 33;

pub const R16G16_FLOAT: u32 = 34;

pub const R16G16_UNORM: u32 = 35;

pub const R16G16_UINT: u32 = 36;

pub const R16G16_SNORM: u32 = 37;

pub const R16G16_SINT: u32 = 38;

pub const R32_TYPELESS: u32 = 39;

pub const D32_FLOAT: u32 = 40;

pub const R32_FLOAT: u32 = 41;

pub const R32_UINT: u32 = 42;

pub const R32_SINT: u32 = 43;

pub const R24G8_TYPELESS: u32 = 44;

pub const D24_UNORM_S8_UINT: u32 = 45;

pub const R24_UNORM_X8_TYPELESS: u32 = 46;

pub const X24_TYPELESS_G8_UINT: u32 = 47;

pub const R8G8_TYPELESS: u32 = 48;

pub const R8G8_UNORM: u32 = 49;

pub const R8G8_UINT: u32 = 50;

pub const R8G8_SNORM: u32 = 51;

pub const R8G8_SINT: u32 = 52;

pub const R16_TYPELESS: u32 = 53;

pub const R16_FLOAT: u32 = 54;

pub const D16_UNORM: u32 = 55;

pub const R16_UNORM: u32 = 56;

pub const R16_UINT: u32 = 57;

pub const R16_SNORM: u32 = 58;

pub const R16_SINT: u32 = 59;

pub const R8_TYPELESS: u32 = 60;

pub const R8_UNORM: u32 = 61;

pub const R8_UINT: u32 = 62;

pub const R8_SNORM: u32 = 63;

pub const R8_SINT: u32 = 64;

pub const A8_UNORM: u32 = 65;

pub const R1_UNORM: u32 = 66;

pub const R9G9B9E5_SHAREDEXP: u32 = 67;

pub const R8G8_B8G8_UNORM: u32 = 68;

pub const G8R8_G8B8_UNORM: u32 = 69;

pub const BC1_TYPELESS: u32 = 70;

pub const BC1_UNORM: u32 = 71;

pub const BC1_UNORM_SRGB: u32 = 72;

pub const BC2_TYPELESS: u32 = 73;

pub const BC2_UNORM: u32 = 74;

pub const BC2_UNORM_SRGB: u32 = 75;

pub const BC3_TYPELESS: u32 = 76;

pub const BC3_UNORM: u32 = 77;

pub const BC3_UNORM_SRGB: u32 = 78;

pub const BC4_TYPELESS: u32 = 79;

pub const BC4_UNORM: u32 = 80;

pub const BC4_SNORM: u32 = 81;

pub const BC5_TYPELESS: u32 = 82;

pub const BC5_UNORM: u32 = 83;

pub const BC5_SNORM: u32 = 84;

pub const B5G6R5_UNORM: u32 = 85;

pub const B5G5R5A1_UNORM: u32 = 86;

pub const B8G8R8A8_UNORM: u32 = 87;

pub const B8G8R8X8_UNORM: u32 = 88;

pub const R10G10B10_XR_BIAS_A2_UNORM: u32 = 89;

pub const B8G8R8A8_TYPELESS: u32 = 90;

pub const B8G8R8A8_UNORM_SRGB: u32 = 91;

pub const B8G8R8X8_TYPELESS: u32 = 92;

pub const B8G8R8X8_UNORM_SRGB: u32 = 93;

pub const BC6H_TYPELESS: u32 = 94;

pub const BC6H_UF16: u32 = 95;

pub const BC6H_SF16: u32 = 96;

pub const BC7_TYPELESS: u32 = 97;

pub const BC7_UNORM: u32 = 98;

pub const BC7_UNORM_SRGB: u32 = 99;

pub const AYUV: u32 = 100;

pub const Y410: u32 = 101;

pub const Y416: u32 = 102;

pub const NV12: u32 = 103;

pub const P010: u32 = 104;

pub const P016: u32 = 105;

pub const _420_OPAQUE: u32 = 106;

pub const YUY2: u32 = 107;

pub const Y210: u32 = 108;

pub const Y216: u32 = 109;

pub const NV11: u32 = 110;

pub const AI44: u32 = 111;

pub const IA44: u32 = 112;

pub const P8: u32 = 113;

pub const A8P8: u32 = 114;

pub const B4G4R4A4_UNORM: u32 = 115;

pub const P208: u32 = 130;

pub const V208: u32 = 131;

pub const V408: u32 = 132;

} // verus!
