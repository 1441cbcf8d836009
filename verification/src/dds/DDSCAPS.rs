//! What a surface is capable of.

use vstd::prelude::*;

verus! {

pub const RESERVED1: u128 = 0x00000001;

pub const ALPHA: u128 = 0x00000002;

pub const BACKBUFFER: u128 = 0x00000004;

pub const COMPLEX: u128 = 0x00000008;

pub const FLIP: u128 = 0x00000010;

pub const FRONTBUFFER: u128 = 0x00000020;

pub const OFFSCREENPLAIN: u128 = 0x00000040;

pub const OVERLAY: u128 = 0x00000080;

pub const PALETTE: u128 = 0x00000100;

pub const PRIMARYSURFACE: u128 = 0x00000200;

pub const PRIMARYSURFACELEFT: u128 = 0x00000400;

pub const SYSTEMMEMORY: u128 = 0x00000800;

pub const TEXTURE: u128 = 0x00001000;

pub const _3DDEVICE: u128 = 0x00002000;

pub const VIDEOMEMORY: u128 = 0x00004000;

pub const VISIBLE: u128 = 0x00008000;

pub const WRITEONLY: u128 = 0x00010000;

pub const ZBUFFER: u128 = 0x00020000;

pub const OWNDC: u128 = 0x00040000;

pub const LIVEVIDEO: u128 = 0x00080000;

pub const HWCODEC: u128 = 0x00100000;

pub const MODEX: u128 = 0x00200000;

pub const MIPMAP: u128 = 0x00400000;

pub const RESERVED2: u128 = 0x00800000;

pub const ALLOCONLOAD: u128 = 0x04000000;

pub const VIDEOPORT: u128 = 0x08000000;

pub const LOCALVIDMEM: u128 = 0x10000000;

pub const NONLOCALVIDMEM: u128 = 0x20000000;

pub const STANDARDVGAMODE: u128 = 0x40000000;

pub const OPTIMIZED: u128 = 0x80000000;

pub const HARDWAREDEINTERLACE: u128 = 0x200000000;

pub const HINTDYNAMIC: u128 = 0x400000000;

pub const HINTSTATIC: u128 = 0x800000000;

pub const TEXTUREMANAGE: u128 = 0x1000000000;

pub const RESERVED3: u128 = 0x2000000000;

pub const RESERVED4: u128 = 0x4000000000;

pub const OPAQUE: u128 = 0x8000000000;

pub const HINTANTIALIASING: u128 = 0x10000000000;

pub const CUBEMAP: u128 = 0x20000000000;

pub const CUBEMAP_POSITIVEX: u128 = 0x40000000000;

pub const CUBEMAP_NEGATIVEX: u128 = 0x80000000000;

pub const CUBEMAP_POSITIVEY: u128 = 0x100000000000;

pub const CUBEMAP_NEGATIVEY: u128 = 0x200000000000;

pub const CUBEMAP_POSITIVEZ: u128 = 0x400000000000;

pub const CUBEMAP_NEGATIVEZ: u128 = 0x800000000000;

pub const CUBEMAP_ALLFACES: u128 = CUBEMAP_POSITIVEX | CUBEMAP_NEGATIVEX | CUBEMAP_POSITIVEY | CUBEMAP_NEGATIVEY
    | CUBEMAP_POSITIVEZ | CUBEMAP_NEGATIVEZ;

pub const MIPMAPSUBLEVEL: u128 = 0x1000000000000;

pub const D3DTEXTUREMANAGE: u128 = 0x2000000000000;

pub const DONOTPERSIST: u128 = 0x4000000000000;

pub const STEREOSURFACELEFT: u128 = 0x8000000000000;

pub const VOLUME: u128 = 0x20000000000000;

pub const NOTUSERLOCKABLE: u128 = 0x40000000000000;

pub const POINTS: u128 = 0x80000000000000;

pub const RTPATCHES: u128 = 0x100000000000000;

pub const NPATCHES: u128 = 0x200000000000000;

pub const RESERVED5: u128 = 0x400000000000000;

pub const DISCARDBACKBUFFER: u128 = 0x1000000000000000;

pub const ENABLEALPHACHANNEL: u128 = 0x2000000000000000;

pub const EXTENDEDFORMATPRIMARY: u128 = 0x4000000000000000;

pub const ADDITIONALPRIMARY: u128 = 0x8000000000000000;

pub const MULTISAMPLE_MASK: u128 = 0x1F0000000000000000;

pub const MULTISAMPLE_QUALITY_MASK: u128 = 0xE00000000000000000;

pub const MULTISAMPLE_QUALITY_SHIFT: u32 = 69;

pub const RESERVED6: u128 = 0x1000000000000000000;

pub const RESERVED7: u128 = 0x2000000000000000000;

pub const LIGHTWEIGHTMIPMAP: u128 = 0x4000000000000000000;

pub const AUTOGENMIPMAP: u128 = 0x8000000000000000000;

pub const DMAP: u128 = 0x10000000000000000000;

pub const CREATESHAREDRESOURCE: u128 = 0x20000000000000000000;

pub const READONLYRESOURCE: u128 = 0x40000000000000000000;

pub const OPENSHAREDRESOURCE: u128 = 0x80000000000000000000;

} // verus!
