//! Other properties of a resource.

use vstd::prelude::*;

verus! {

pub const GENERATE_MIPS: u32 = 0x00000001;

pub const SHARED: u32 = 0x00000002;

pub const TEXTURECUBE: u32 = 0x00000004;

pub const D3D10_SHARED_KEYEDMUTEX: u32 = 0x00000010;

pub const D3D10_GDI_COMPATIBLE: u32 = 0x00000020;

pub const DRAWINDIRECT_ARGS: u32 = 0x00000010;

pub const BUFFER_ALLOW_RAW_VIEWS: u32 = 0x00000020;

pub const BUFFER_STRUCTURED: u32 = 0x00000040;

pub const RESOURCE_CLAMP: u32 = 0x00000080;

pub const D3D11_SHARED_KEYEDMUTEX: u32 = 0x00000100;

pub const D3D11_GDI_COMPATIBLE: u32 = 0x00000200;

pub const SHARED_NTHANDLE: u32 = 0x00000800;

pub const RESTRICTED_CONTENT: u32 = 0x00001000;

pub const RESTRICT_SHARED_RESOURCE: u32 = 0x00002000;

pub const RESTRICT_SHARED_RESOURCE_DRIVER: u32 = 0x00004000;

pub const GUARDED: u32 = 0x00008000;

pub const TILE_POOL: u32 = 0x00020000;

pub const TILED: u32 = 0x00040000;

pub const HW_PROTECTED: u32 = 0x00080000;

pub const SHARED_DISPLAYABLE: u32 = 0x00100000;

pub const SHARED_EXCLUSIVE_WRITER: u32 = 0x00200000;

} // verus!
