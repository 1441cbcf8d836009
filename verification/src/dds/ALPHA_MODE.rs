//! How the alpha of a resource is meant.

use vstd::prelude::*;

verus! {

pub const UNKNOWN: u32 = 0x0;

pub const STRAIGHT: u32 = 0x1;

pub const PREMULTIPLIED: u32 = 0x2;

pub const OPAQUE: u32 = 0x3;

pub const CUSTOM: u32 = 0x4;

pub const MASK: u32 = 0x7;

} // verus!
