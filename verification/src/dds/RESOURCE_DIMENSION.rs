//! The number of dimensions of a resource.

use vstd::prelude::*;

verus! {

pub const UNKNOWN: u32 = 0;

pub const BUFFER: u32 = 1;

pub const TEXTURE1D: u32 = 2;

pub const TEXTURE2D: u32 = 3;

pub const TEXTURE3D: u32 = 4;

} // verus!
