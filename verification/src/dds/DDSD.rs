//! Which fields of a header hold a value.

use vstd::prelude::*;

verus! {

pub const DEFAULT: u32 = CAPS | HEIGHT | WIDTH | PIXELFORMAT;

pub const CAPS: u32 = 0x00000001;

pub const HEIGHT: u32 = 0x00000002;

pub const WIDTH: u32 = 0x00000004;

pub const PITCH: u32 = 0x00000008;

pub const BACKBUFFERCOUNT: u32 = 0x00000020;

pub const ZBUFFERBITDEPTH: u32 = 0x00000040;

pub const ALPHABITDEPTH: u32 = 0x00000080;

pub const LPSURFACE: u32 = 0x00000800;

pub const PIXELFORMAT: u32 = 0x00001000;

pub const CKDESTOVERLAY: u32 = 0x00002000;

pub const CKDESTBLT: u32 = 0x00004000;

pub const CKSRCOVERLAY: u32 = 0x00008000;

pub const CKSRCBLT: u32 = 0x00010000;

pub const MIPMAPCOUNT: u32 = 0x00020000;

pub const REFRESHRATE: u32 = 0x00040000;

pub const LINEARSIZE: u32 = 0x00080000;

pub const TEXTURESTAGE: u32 = 0x00100000;

pub const FVF: u32 = 0x00200000;

pub const SRCVBHANDLE: u32 = 0x00400000;

pub const DEPTH: u32 = 0x00800000;

pub const ALL: u32 = 0x00FFF9EE;

} // verus!
