//! The three oldest block formats. A block holds two colours of 16 bits, and for
//! each of its 16 pixels two bits that pick one of four colours between them; the
//! wider blocks hold alpha besides.

use vstd::prelude::*;

verus! {

/// Five bits stretched to eight: the highest bits are repeated below.
pub open spec fn expand5(v: int) -> int {
    v * 8 + v / 4
}

/// Six bits stretched to eight.
pub open spec fn expand6(v: int) -> int {
    v * 4 + v / 16
}

/// The blue, green, red and alpha bytes of a colour of 16 bits: five bits of red
/// on top, six of green, five of blue; alpha is full.
pub open spec fn spec_rgb565(c: u16) -> (u8, u8, u8, u8) {
    (
        expand5(c as int % 32) as u8,
        expand6((c as int / 32) % 64) as u8,
        expand5(c as int / 2048) as u8,
        0xFFu8,
    )
}

/// The value `p` parts of `q` on the way from `a` to `b`.
pub open spec fn spec_lerp1(a: u8, b: u8, p: int, q: int) -> u8 {
    (((q - p) * a + p * b) / q) as u8
}

/// The colour of four bytes, blue lowest.
pub open spec fn color32(b: u8, g: u8, r: u8, a: u8) -> u32 {
    (b + g * 0x100 + r * 0x1_0000 + a * 0x100_0000) as u32
}

/// The colour `p` parts of `q` on the way from `c0` to `c1`, byte by byte.
pub open spec fn spec_lerp(c0: u16, c1: u16, p: int, q: int) -> u32 {
    color32(
        spec_lerp1(spec_rgb565(c0).0, spec_rgb565(c1).0, p, q),
        spec_lerp1(spec_rgb565(c0).1, spec_rgb565(c1).1, p, q),
        spec_lerp1(spec_rgb565(c0).2, spec_rgb565(c1).2, p, q),
        spec_lerp1(spec_rgb565(c0).3, spec_rgb565(c1).3, p, q),
    )
}

/// Colour `k` of the four that a block offers. Where the first colour is the
/// greater, the block offers four steps from the first to the second; else three
/// steps, and nothing at all as the fourth colour.
pub open spec fn bc1_color(c0: u16, c1: u16, k: int) -> u32 {
    if c0 > c1 {
        spec_lerp(c0, c1, k, 3)
    } else if k < 3 {
        spec_lerp(c0, c1, k, 2)
    } else {
        0
    }
}

/// `bits` without its `i` lowest digits to the base `base`.
pub open spec fn shifted(bits: nat, base: nat, i: nat) -> nat
    decreases i,
{
    if i == 0 {
        bits
    } else {
        shifted(bits, base, (i - 1) as nat) / base
    }
}

/// Pixel `i` of a block of the first format: the two lowest numbers of 16 bits are
/// the colours, the 32 bits above them pick a colour for each pixel.
pub open spec fn bc1_pixel(block: u64, i: nat) -> u32 {
    bc1_color(
        (block % 0x1_0000) as u16,
        ((block / 0x1_0000) % 0x1_0000) as u16,
        (shifted(block as nat / 0x1_0000_0000, 4, i) % 4) as int,
    )
}

/// Pixel `i` of a block of the second format: the upper half is a block of the
/// first format, the lower half holds four bits of alpha for each pixel.
pub open spec fn bc2_pixel(block: u128, i: nat) -> u32 {
    (bc1_pixel((block / 0x1_0000_0000_0000_0000) as u64, i) % 0x100_0000 + (shifted(
        block as nat % 0x1_0000_0000_0000_0000,
        16,
        i,
    ) % 16) * 0x11 * 0x100_0000) as u32
}

/// Alpha `k` of the eight that a block of the third format offers. Where the first
/// alpha is the greater, the block offers eight steps from the first to the second;
/// else six steps, nothing, and everything.
pub open spec fn bc3_alpha(a0: u8, a1: u8, k: int) -> u8 {
    if k == 0 {
        a0
    } else if k == 1 {
        a1
    } else if a0 > a1 {
        spec_lerp1(a0, a1, k - 1, 7)
    } else if k < 6 {
        spec_lerp1(a0, a1, k - 1, 5)
    } else if k == 6 {
        0
    } else {
        0xFF
    }
}

/// Pixel `i` of a block of the third format: the upper half is a block of the
/// first format; the two lowest bytes are alphas, and the 48 bits above them pick
/// an alpha for each pixel.
pub open spec fn bc3_pixel(block: u128, i: nat) -> u32 {
    (bc1_pixel((block / 0x1_0000_0000_0000_0000) as u64, i) % 0x100_0000 + bc3_alpha(
        (block % 0x100) as u8,
        ((block / 0x100) % 0x100) as u8,
        (shifted(block as nat / 0x1_0000, 8, i) % 8) as int,
    ) * 0x100_0000) as u32
}

/// A channel between two channels: `p` parts of `b` and the rest of `a`, out of `q` parts.
pub fn lerp1(a: u8, b: u8, p: u16, q: u16) -> (v: u8)
    requires
        p <= q,
        0 < q <= 7,
    ensures
        v == spec_lerp1(a, b, p as int, q as int),
{
    assert((q - p) * a + p * b <= q * 255 && (q - p) * a >= 0 && p * b >= 0 && (q - p) * a <= 7 * 255) by (nonlinear_arith)
        requires
            0 <= p <= q,
            q <= 7,
            0 <= a <= 255,
            0 <= b <= 255,
    ;
    let sum: u16 = (q - p) * (a as u16) + p * (b as u16);
    assert(sum / q <= 255) by (nonlinear_arith)
        requires
            sum <= q * 255,
            q > 0,
    ;
    (sum / q) as u8
}

/// The channels blue, green and red of a colour of 16 bits, widened to eight bits each, and full
/// alpha.
pub fn rgb565(block: u16) -> (c: (u8, u8, u8, u8))
    ensures
        c == spec_rgb565(block),
{
    let r: u16 = block / 2048;
    let g: u16 = (block / 32) % 64;
    let b: u16 = block % 32;
    ((b * 8 + b / 4) as u8, (g * 4 + g / 16) as u8, (r * 8 + r / 4) as u8, 0xFF)
}

/// A colour between two colours of 16 bits, channel by channel: `p` parts of `c1` and the rest of
/// `c0`, out of `q` parts.
pub fn lerp(c0: u16, c1: u16, p: u16, q: u16) -> (v: u32)
    requires
        p <= q,
        0 < q <= 7,
    ensures
        v == spec_lerp(c0, c1, p as int, q as int),
{
    let x = rgb565(c0);
    let y = rgb565(c1);
    let b: u32 = lerp1(x.0, y.0, p, q) as u32;
    let g: u32 = lerp1(x.1, y.1, p, q) as u32;
    let r: u32 = lerp1(x.2, y.2, p, q) as u32;
    let a: u32 = lerp1(x.3, y.3, p, q) as u32;
    b + g * 0x100 + r * 0x1_0000 + a * 0x100_0000
}

/// The 16 pixels of a block of the first format, row after row.
pub fn bc1(block: u64) -> (out: [u32; 16])
    ensures
        forall|i: int| 0 <= i < 16 ==> #[trigger] out@[i] == bc1_pixel(block, i as nat),
{
    let c0: u16 = (block % 0x1_0000) as u16;
    let c1: u16 = ((block / 0x1_0000) % 0x1_0000) as u16;
    let colors: [u32; 4] = if c0 > c1 {
        [lerp(c0, c1, 0, 3), lerp(c0, c1, 1, 3), lerp(c0, c1, 2, 3), lerp(c0, c1, 3, 3)]
    } else {
        [lerp(c0, c1, 0, 2), lerp(c0, c1, 1, 2), lerp(c0, c1, 2, 2), 0]
    };
    let mut out: [u32; 16] = [0; 16];
    let mut rest: u64 = block / 0x1_0000_0000;
    let mut i: usize = 0;
    while i < 16
        invariant
            i <= 16,
            c0 == (block % 0x1_0000) as u16,
            c1 == ((block / 0x1_0000) % 0x1_0000) as u16,
            rest == shifted(block as nat / 0x1_0000_0000, 4, i as nat),
            forall|k: int| 0 <= k < 4 ==> #[trigger] colors@[k] == bc1_color(c0, c1, k),
            forall|k: int| 0 <= k < i ==> #[trigger] out@[k] == bc1_pixel(block, k as nat),
        decreases 16 - i,
    {
        out[i] = colors[(rest % 4) as usize];
        rest = rest / 4;
        i += 1;
    }
    out
}

/// The 16 pixels of a block of the second format.
pub fn bc2(block: u128) -> (out: [u32; 16])
    ensures
        forall|i: int| 0 <= i < 16 ==> #[trigger] out@[i] == bc2_pixel(block, i as nat),
{
    let colors = bc1((block / 0x1_0000_0000_0000_0000) as u64);
    let mut out: [u32; 16] = [0; 16];
    let mut rest: u64 = (block % 0x1_0000_0000_0000_0000) as u64;
    let mut i: usize = 0;
    while i < 16
        invariant
            i <= 16,
            rest == shifted(block as nat % 0x1_0000_0000_0000_0000, 16, i as nat),
            forall|k: int|
                0 <= k < 16 ==> #[trigger] colors@[k] == bc1_pixel(
                    (block / 0x1_0000_0000_0000_0000) as u64,
                    k as nat,
                ),
            forall|k: int| 0 <= k < i ==> #[trigger] out@[k] == bc2_pixel(block, k as nat),
        decreases 16 - i,
    {
        let a: u32 = (rest % 16) as u32;
        out[i] = colors[i] % 0x100_0000 + a * 0x11 * 0x100_0000;
        rest = rest / 16;
        i += 1;
    }
    out
}

/// The 16 pixels of a block of the third format.
pub fn bc3(block: u128) -> (out: [u32; 16])
    ensures
        forall|i: int| 0 <= i < 16 ==> #[trigger] out@[i] == bc3_pixel(block, i as nat),
{
    let a0: u8 = (block % 0x100) as u8;
    let a1: u8 = ((block / 0x100) % 0x100) as u8;
    let alpha: [u8; 8] = if a0 > a1 {
        [
            a0,
            a1,
            lerp1(a0, a1, 1, 7),
            lerp1(a0, a1, 2, 7),
            lerp1(a0, a1, 3, 7),
            lerp1(a0, a1, 4, 7),
            lerp1(a0, a1, 5, 7),
            lerp1(a0, a1, 6, 7),
        ]
    } else {
        [a0, a1, lerp1(a0, a1, 1, 5), lerp1(a0, a1, 2, 5), lerp1(a0, a1, 3, 5), lerp1(a0, a1, 4, 5), 0x00, 0xFF]
    };
    let colors = bc1((block / 0x1_0000_0000_0000_0000) as u64);
    let mut out: [u32; 16] = [0; 16];
    let mut rest: u128 = block / 0x1_0000;
    let mut i: usize = 0;
    while i < 16
        invariant
            i <= 16,
            a0 == (block % 0x100) as u8,
            a1 == ((block / 0x100) % 0x100) as u8,
            rest == shifted(block as nat / 0x1_0000, 8, i as nat),
            forall|k: int| 0 <= k < 8 ==> #[trigger] alpha@[k] == bc3_alpha(a0, a1, k),
            forall|k: int|
                0 <= k < 16 ==> #[trigger] colors@[k] == bc1_pixel(
                    (block / 0x1_0000_0000_0000_0000) as u64,
                    k as nat,
                ),
            forall|k: int| 0 <= k < i ==> #[trigger] out@[k] == bc3_pixel(block, k as nat),
        decreases 16 - i,
    {
        let a: u32 = alpha[(rest % 8) as usize] as u32;
        out[i] = colors[i] % 0x100_0000 + a * 0x100_0000;
        rest = rest / 8;
        i += 1;
    }
    out
}

} // verus!
