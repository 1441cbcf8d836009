//! Cutting the empty border off a sprite, and putting one around it.
//!
//! The pixel in the upper left corner of a sprite is taken for its background.

use crate::bytes::Pixel;
use crate::png::{Png, PngView, views};
use crate::raster::{lemma_offset_in_bounds, Raster, RasterView};
use vstd::arithmetic::div_mod::lemma_fundamental_div_mod_converse;
use vstd::prelude::*;

verus! {

/// Column `x` of a raster holds a pixel that is not background.
pub open spec fn column_differs<T>(r: RasterView<T>, x: int) -> bool {
    exists|y: int| 0 <= y < r.height && #[trigger] r.at(x, y) != r.data[0]
}

/// Row `y` of a raster holds a pixel that is not background.
pub open spec fn row_differs<T>(r: RasterView<T>, y: int) -> bool {
    exists|x: int| 0 <= x < r.width && #[trigger] r.at(x, y) != r.data[0]
}

/// A raster holds a pixel that is not background.
pub open spec fn has_content<T>(r: RasterView<T>) -> bool {
    exists|x: int, y: int| 0 <= x < r.width && 0 <= y < r.height && #[trigger] r.at(x, y) != r.data[0]
}

/// The columns `l` to `r` and the rows `u` to `d` are the least that hold all
/// pixels that are not background.
pub open spec fn is_bounds<T>(v: RasterView<T>, l: int, r: int, u: int, d: int) -> bool {
    &&& 0 <= l <= r < v.width
    &&& 0 <= u <= d < v.height
    &&& column_differs(v, l)
    &&& column_differs(v, r)
    &&& row_differs(v, u)
    &&& row_differs(v, d)
    &&& forall|x: int| 0 <= x < l || r < x < v.width ==> !#[trigger] column_differs(v, x)
    &&& forall|y: int| 0 <= y < u || d < y < v.height ==> !#[trigger] row_differs(v, y)
}

/// Whether the pixel at `x`, `y` differs from the first pixel.
fn differs<T: Pixel>(data: &Raster<T>, x: usize, y: usize) -> (b: bool)
    requires
        x < data@.width,
        y < data@.height,
    ensures
        b == (data@.at(x as int, y as int) != data@.data[0]),
{
    let pixels: &[T] = data.as_slice();
    let w: usize = data.width();
    let len: usize = pixels.len();
    proof {
        lemma_offset_in_bounds(x as int, y as int, data@.width as int, data@.height as int);
        lemma_offset_in_bounds(0, 0, data@.width as int, data@.height as int);
        assert(y * w >= 0) by (nonlinear_arith)
            requires
                y >= 0,
                w >= 0,
        ;
        if pixels@[y * w + x].value() == pixels@[0].value() {
            pixels@[y * w + x].lemma_value_injective(pixels@[0]);
        }
    }
    pixels[y * w + x].to_value() != pixels[0].to_value()
}

/// Whether column `x` holds a pixel that differs from the first pixel.
fn column_has<T: Pixel>(data: &Raster<T>, x: usize) -> (b: bool)
    requires
        x < data@.width,
    ensures
        b == column_differs(data@, x as int),
{
    let h: usize = data.height();
    let mut y: usize = 0;
    while y < h
        invariant
            y <= h,
            h == data@.height,
            x < data@.width,
            forall|k: int| 0 <= k < y ==> #[trigger] data@.at(x as int, k) == data@.data[0],
        decreases h - y,
    {
        if differs(data, x, y) {
            return true;
        }
        y += 1;
    }
    false
}

/// Whether row `y` holds a pixel that differs from the first pixel.
fn row_has<T: Pixel>(data: &Raster<T>, y: usize) -> (b: bool)
    requires
        y < data@.height,
    ensures
        b == row_differs(data@, y as int),
{
    let w: usize = data.width();
    let mut x: usize = 0;
    while x < w
        invariant
            x <= w,
            w == data@.width,
            y < data@.height,
            forall|k: int| 0 <= k < x ==> #[trigger] data@.at(k, y as int) == data@.data[0],
        decreases w - x,
    {
        if differs(data, x, y) {
            return true;
        }
        x += 1;
    }
    false
}

/// The first and the last column and the first and the last row that hold a pixel
/// that is not background.
pub fn bounds<T: Pixel>(data: &Raster<T>) -> (b: (usize, usize, usize, usize))
    requires
        has_content(data@),
    ensures
        is_bounds(data@, b.0 as int, b.1 as int, b.2 as int, b.3 as int),
{
    let w: usize = data.width();
    let h: usize = data.height();
    let ghost (cx, cy) = choose|x: int, y: int|
        0 <= x < data@.width && 0 <= y < data@.height && #[trigger] data@.at(x, y) != data@.data[0];
    assert(column_differs(data@, cx));
    assert(row_differs(data@, cy));
    let mut l: usize = 0;
    while !column_has(data, l)
        invariant
            l <= cx,
            cx < w,
            w == data@.width,
            column_differs(data@, cx),
            forall|x: int| 0 <= x < l ==> !#[trigger] column_differs(data@, x),
        decreases w - l,
    {
        l += 1;
    }
    let mut r: usize = w - 1;
    while !column_has(data, r)
        invariant
            0 <= cx <= r < w,
            w == data@.width,
            column_differs(data@, cx),
            forall|x: int| r < x < w ==> !#[trigger] column_differs(data@, x),
        decreases r,
    {
        assert(r != cx);
        r -= 1;
    }
    let mut u: usize = 0;
    while !row_has(data, u)
        invariant
            u <= cy,
            cy < h,
            h == data@.height,
            row_differs(data@, cy),
            forall|y: int| 0 <= y < u ==> !#[trigger] row_differs(data@, y),
        decreases h - u,
    {
        u += 1;
    }
    let mut d: usize = h - 1;
    while !row_has(data, d)
        invariant
            0 <= cy <= d < h,
            h == data@.height,
            row_differs(data@, cy),
            forall|y: int| d < y < h ==> !#[trigger] row_differs(data@, y),
        decreases d,
    {
        assert(d != cy);
        d -= 1;
    }
    (l, r, u, d)
}

/// A raster of `w` by `h` pixels of the background of `data`, with `data` on it
/// at `(ox, oy)`.
pub open spec fn padded<T>(data: RasterView<T>, ox: int, oy: int, w: nat, h: nat) -> RasterView<T> {
    RasterView {
        width: w,
        height: h,
        data: Seq::new(
            w * h,
            |i: int|
                if ox <= i % (w as int) < ox + data.width && oy <= i / (w as int) < oy + data.height {
                    data.at(i % (w as int) - ox, i / (w as int) - oy)
                } else {
                    data.data[0]
                },
        ),
    }
}

/// Where a sprite goes on a raster of the width `w` that it is centred on, but
/// for `c` pixels to the left; the same for the height.
pub open spec fn pad_offset(w: int, inner: int, c: int) -> int {
    (w - inner) / 2 - c
}

/// The sprite fits a raster of `w` by `h` pixels with its centre `(cx, cy)`
/// pixels from the centre of the raster.
pub open spec fn pad_fits<T>(data: RasterView<T>, cx: int, cy: int, w: int, h: int) -> bool {
    &&& data.width > 0
    &&& data.height > 0
    &&& data.width <= w
    &&& data.height <= h
    &&& 0 <= pad_offset(w, data.width as int, cx)
    &&& pad_offset(w, data.width as int, cx) + data.width <= w
    &&& 0 <= pad_offset(h, data.height as int, cy)
    &&& pad_offset(h, data.height as int, cy) + data.height <= h
}

/// Builds a raster of `w` by `h` pixels from the pixels that `at` gives.
fn gather<T: Pixel>(data: &Raster<T>, ox: usize, oy: usize, w: usize, h: usize, inside: bool) -> (out: Raster<T>)
    requires
        data@.width > 0,
        data@.height > 0,
        w * h <= usize::MAX,
        inside ==> ox + data@.width <= w && oy + data@.height <= h,
        !inside ==> ox + w <= data@.width && oy + h <= data@.height,
    ensures
        inside ==> out@ == padded(data@, ox as int, oy as int, w as nat, h as nat),
        !inside ==> out@ == cropped(data@, ox as int, oy as int, w as nat, h as nat),
{
    let pixels: &[T] = data.as_slice();
    let dw: usize = data.width();
    let dh: usize = data.height();
    let len: usize = pixels.len();
    proof {
        lemma_offset_in_bounds(0, 0, dw as int, dh as int);
    }
    let mut out: Vec<T> = Vec::with_capacity(w * h);
    let mut y: usize = 0;
    while y < h
        invariant
            y <= h,
            dw == data@.width,
            dh == data@.height,
            dw > 0,
            dh > 0,
            pixels@ == data@.data,
            pixels@.len() == dw * dh,
            len == pixels@.len(),
            len > 0,
            w * h <= usize::MAX,
            inside ==> ox + dw <= w && oy + dh <= h,
            !inside ==> ox + w <= dw && oy + h <= dh,
            out@.len() == y * w,
            inside ==> forall|i: int|
                0 <= i < y * w ==> #[trigger] out@[i] == padded(data@, ox as int, oy as int, w as nat, h as nat).data[i],
            !inside ==> forall|i: int|
                0 <= i < y * w ==> #[trigger] out@[i] == cropped(data@, ox as int, oy as int, w as nat, h as nat).data[i],
        decreases h - y,
    {
        let mut x: usize = 0;
        proof {
            assert(y * w + w <= h * w) by (nonlinear_arith)
                requires
                    y + 1 <= h,
                    w >= 0,
            ;
            assert(h * w == w * h) by (nonlinear_arith);
            assert(y * w >= 0) by (nonlinear_arith)
                requires
                    y >= 0,
                    w >= 0,
            ;
        }
        while x < w
            invariant
                x <= w,
                y < h,
                dw == data@.width,
                dh == data@.height,
                dw > 0,
                dh > 0,
                pixels@ == data@.data,
                pixels@.len() == dw * dh,
                len == pixels@.len(),
                len > 0,
                y * w + w <= w * h,
                w * h <= usize::MAX,
                y * w >= 0,
                inside ==> ox + dw <= w && oy + dh <= h,
                !inside ==> ox + w <= dw && oy + h <= dh,
                out@.len() == y * w + x,
                inside ==> forall|i: int|
                    0 <= i < y * w + x ==> #[trigger] out@[i] == padded(
                        data@,
                        ox as int,
                        oy as int,
                        w as nat,
                        h as nat,
                    ).data[i],
                !inside ==> forall|i: int|
                    0 <= i < y * w + x ==> #[trigger] out@[i] == cropped(
                        data@,
                        ox as int,
                        oy as int,
                        w as nat,
                        h as nat,
                    ).data[i],
            decreases w - x,
        {
            proof {
                lemma_fundamental_div_mod_converse(y * w + x, w as int, y as int, x as int);
            }
            let p: T = if inside {
                if ox <= x && x - ox < dw && oy <= y && y - oy < dh {
                    proof {
                        lemma_offset_in_bounds(x - ox, y - oy, dw as int, dh as int);
                        assert((y - oy) * dw >= 0) by (nonlinear_arith)
                            requires
                                y - oy >= 0,
                                dw >= 0,
                        ;
                    }
                    pixels[(y - oy) * dw + (x - ox)]
                } else {
                    pixels[0]
                }
            } else {
                proof {
                    lemma_offset_in_bounds(ox + x, oy + y, dw as int, dh as int);
                    assert((oy + y) * dw >= 0) by (nonlinear_arith)
                        requires
                            oy + y >= 0,
                            dw >= 0,
                    ;
                }
                pixels[(oy + y) * dw + (ox + x)]
            };
            out.push(p);
            x += 1;
        }
        proof {
            assert((y + 1) * w == y * w + w) by (nonlinear_arith);
        }
        y += 1;
    }
    proof {
        assert(h * w == w * h) by (nonlinear_arith);
        if inside {
            assert(out@ =~= padded(data@, ox as int, oy as int, w as nat, h as nat).data);
        } else {
            assert(out@ =~= cropped(data@, ox as int, oy as int, w as nat, h as nat).data);
        }
    }
    Raster::new_with(w, h, out)
}

/// Puts a sprite on a raster of `w` by `h` pixels of its background, centred but
/// for `(cx, cy)` pixels to the upper left.
pub fn do_pad<T: Pixel>(data: &Raster<T>, cx: isize, cy: isize, w: usize, h: usize) -> (out: Raster<T>)
    requires
        pad_fits(data@, cx as int, cy as int, w as int, h as int),
        w * h <= usize::MAX,
    ensures
        out@ == padded(
            data@,
            pad_offset(w as int, data@.width as int, cx as int),
            pad_offset(h as int, data@.height as int, cy as int),
            w as nat,
            h as nat,
        ),
{
    let ox: usize = ((w - data.width()) as i128 / 2 - cx as i128) as usize;
    let oy: usize = ((h - data.height()) as i128 / 2 - cy as i128) as usize;
    gather(data, ox, oy, w, h, true)
}

/// The part of `w` by `h` pixels of a raster whose corner is `(ox, oy)`.
pub open spec fn cropped<T>(data: RasterView<T>, ox: int, oy: int, w: nat, h: nat) -> RasterView<T> {
    RasterView {
        width: w,
        height: h,
        data: Seq::new(w * h, |i: int| data.at(ox + i % (w as int), oy + i / (w as int))),
    }
}

/// The least power of two that is `n` or more, from `p` on.
pub open spec fn spec_next_power_of_two(n: int, p: int) -> int
    decreases (if p < n { n - p } else { 0 }),
{
    if p >= n || p <= 0 {
        p
    } else {
        spec_next_power_of_two(n, 2 * p)
    }
}

/// The least power of two that is `n` or more, or `None` where it is no `usize`.
pub fn next_power_of_two(n: usize) -> (r: Option<usize>)
    ensures
        match r {
            Some(p) => p == spec_next_power_of_two(n as int, 1),
            None => spec_next_power_of_two(n as int, 1) > usize::MAX,
        },
{
    let mut p: usize = 1;
    while p < n
        invariant
            p >= 1,
            spec_next_power_of_two(n as int, 1) == spec_next_power_of_two(n as int, p as int),
        decreases (if p < n { n - p } else { 0 }),
    {
        if p > usize::MAX / 2 {
            proof {
                lemma_power_grows(n as int, 2 * p);
            }
            return None;
        }
        p = 2 * p;
    }
    Some(p)
}

/// Doubling `p` until it reaches `n` never gives less than `p`.
proof fn lemma_power_grows(n: int, p: int)
    requires
        p > 0,
    ensures
        spec_next_power_of_two(n, p) >= p,
    decreases (if p < n { n - p } else { 0 }),
{
    if p < n {
        lemma_power_grows(n, 2 * p);
    }
}

/// The side of the part that is cut out around the pixels from `first` to `last`:
/// a power of two with room for a border.
pub open spec fn crop_side(first: int, last: int) -> int {
    spec_next_power_of_two(last - first + 6, 1)
}

/// How far the centre of the part lies from the centre of the sprite, which
/// measures `side`: not at all where the part is as wide as the sprite.
pub open spec fn crop_shift(side: int, first: int, last: int) -> int {
    if crop_side(first, last) == side {
        0
    } else {
        side / 2 - (first + last) / 2
    }
}

/// Where the part starts.
pub open spec fn crop_start(side: int, first: int, last: int) -> int {
    side / 2 - crop_shift(side, first, last) - crop_side(first, last) / 2
}

/// The part around the pixels from `first` to `last` lies inside the sprite.
pub open spec fn crop_fits(side: int, first: int, last: int) -> bool {
    0 <= crop_start(side, first, last) && crop_start(side, first, last) + crop_side(first, last) <= side
}

/// One side of the part: where it starts, how long it is, and how far its centre
/// lies from the centre of the sprite.
fn crop_axis(side: usize, first: usize, last: usize) -> (r: (usize, usize, isize))
    requires
        first <= last < side,
        side <= isize::MAX,
        crop_fits(side as int, first as int, last as int),
    ensures
        r.0 == crop_start(side as int, first as int, last as int),
        r.1 == crop_side(first as int, last as int),
        r.2 == crop_shift(side as int, first as int, last as int),
{
    let out: usize = match next_power_of_two(last - first + 6) {
        Some(out) => out,
        None => {
            // The part would be wider than the sprite, which it is not.
            0
        },
    };
    let half: i128 = side as i128 / 2;
    let shift: i128 = if out == side {
        0
    } else {
        half - (first as i128 + last as i128) / 2
    };
    let start: i128 = half - shift - out as i128 / 2;
    (start as usize, out, shift as isize)
}

/// Cuts the border off a sprite. Gives the part that is left, and how far its
/// centre lies from the centre of the sprite.
pub fn do_crop<T: Pixel>(data: &Raster<T>) -> (r: (Raster<T>, (isize, isize)))
    requires
        has_content(data@),
        data@.width <= isize::MAX,
        data@.height <= isize::MAX,
        forall|l: int, r: int, u: int, d: int| #[trigger]
            is_bounds(data@, l, r, u, d) ==> crop_fits(data@.width as int, l, r) && crop_fits(
                data@.height as int,
                u,
                d,
            ),
    ensures
        exists|l: int, rr: int, u: int, d: int| #[trigger]
            is_bounds(data@, l, rr, u, d) && r.0@ == cropped(
                data@,
                crop_start(data@.width as int, l, rr),
                crop_start(data@.height as int, u, d),
                crop_side(l, rr) as nat,
                crop_side(u, d) as nat,
            ) && r.1.0 == crop_shift(data@.width as int, l, rr) && r.1.1 == crop_shift(data@.height as int, u, d),
{
    let w: usize = data.width();
    let h: usize = data.height();
    let (l, r, u, d) = bounds(data);
    assert(is_bounds(data@, l as int, r as int, u as int, d as int));
    assert(crop_fits(w as int, l as int, r as int) && crop_fits(h as int, u as int, d as int));
    let len: usize = data.as_slice().len();
    let (ox, ow, cx) = crop_axis(w, l, r);
    let (oy, oh, cy) = crop_axis(h, u, d);
    proof {
        assert(ox + ow <= w && oy + oh <= h);
        assert(ow * oh <= w * h) by (nonlinear_arith)
            requires
                0 <= ow <= w,
                0 <= oh <= h,
        ;
    }
    let out = gather(data, ox, oy, ow, oh, false);
    (out, (cx, cy))
}

/// Whether a raster holds a pixel that is not background.
pub fn is_not_blank<T: Pixel>(data: &Raster<T>) -> (b: bool)
    ensures
        b == has_content(data@),
{
    let w: usize = data.width();
    let h: usize = data.height();
    let mut y: usize = 0;
    while y < h
        invariant
            y <= h,
            w == data@.width,
            h == data@.height,
            forall|k: int| 0 <= k < y ==> !#[trigger] row_differs(data@, k),
        decreases h - y,
    {
        if row_has(data, y) {
            let ghost x = choose|x: int| 0 <= x < data@.width && #[trigger] data@.at(x, y as int) != data@.data[0];
            assert(data@.at(x, y as int) != data@.data[0]);
            return true;
        }
        y += 1;
    }
    proof {
        if has_content(data@) {
            let (x, yy) = choose|x: int, y: int|
                0 <= x < data@.width && 0 <= y < data@.height && #[trigger] data@.at(x, y) != data@.data[0];
            assert(row_differs(data@, yy));
        }
    }
    false
}

/// The least columns and rows that hold all pixels that are not background are
/// the only ones that do.
pub proof fn lemma_bounds_unique<T>(v: RasterView<T>, l: int, r: int, u: int, d: int, l2: int, r2: int, u2: int, d2: int)
    requires
        is_bounds(v, l, r, u, d),
        is_bounds(v, l2, r2, u2, d2),
    ensures
        l == l2,
        r == r2,
        u == u2,
        d == d2,
{
}

/// Why a sprite cannot be cut or padded.
#[derive(Debug, Clone, Copy, PartialEq, Eq, Structural)]
pub enum CropError {
    /// The sprite is all background.
    Blank,
    /// The part to cut out does not lie inside the sprite, or the sprite does
    /// not fit the raster to put it on.
    OutOfBounds,
}

/// The border of a sprite can be cut off: the sprite holds a pixel that is not
/// background, and the part to cut out lies inside it.
pub open spec fn can_crop<T>(v: RasterView<T>) -> bool {
    &&& has_content(v)
    &&& v.width <= isize::MAX
    &&& v.height <= isize::MAX
    &&& forall|l: int, r: int, u: int, d: int| #[trigger]
        is_bounds(v, l, r, u, d) ==> crop_fits(v.width as int, l, r) && crop_fits(v.height as int, u, d)
}

/// Cuts the border off a sprite, if the sprite holds a pixel that is not
/// background and the part to cut out lies inside it.
pub fn try_crop<T: Pixel>(data: &Raster<T>) -> (r: Result<(Raster<T>, (isize, isize)), CropError>)
    ensures
        r is Ok <==> can_crop(data@),
        r == Err::<(Raster<T>, (isize, isize)), CropError>(CropError::Blank) <==> !has_content(data@),
        r matches Ok(out) ==> exists|l: int, rr: int, u: int, d: int| #[trigger]
            is_bounds(data@, l, rr, u, d) && crop_fits(data@.width as int, l, rr) && crop_fits(
                data@.height as int,
                u,
                d,
            ) && out.0@ == cropped(
                data@,
                crop_start(data@.width as int, l, rr),
                crop_start(data@.height as int, u, d),
                crop_side(l, rr) as nat,
                crop_side(u, d) as nat,
            ) && out.1.0 == crop_shift(data@.width as int, l, rr) && out.1.1 == crop_shift(
                data@.height as int,
                u,
                d,
            ),
        r == Err::<(Raster<T>, (isize, isize)), CropError>(CropError::OutOfBounds) ==> has_content(data@),
{
    if !is_not_blank(data) {
        return Err(CropError::Blank);
    }
    let w: usize = data.width();
    let h: usize = data.height();
    if w > isize::MAX as usize || h > isize::MAX as usize {
        return Err(CropError::OutOfBounds);
    }
    let (l, r, u, d) = bounds(data);
    if !axis_fits(w, l, r) || !axis_fits(h, u, d) {
        assert(is_bounds(data@, l as int, r as int, u as int, d as int));
        return Err(CropError::OutOfBounds);
    }
    proof {
        assert forall|l2: int, r2: int, u2: int, d2: int| #[trigger]
            is_bounds(data@, l2, r2, u2, d2) implies crop_fits(data@.width as int, l2, r2) && crop_fits(
            data@.height as int,
            u2,
            d2,
        ) by {
            lemma_bounds_unique(data@, l as int, r as int, u as int, d as int, l2, r2, u2, d2);
        }
    }
    let out = do_crop(data);
    proof {
        let (l2, r2, u2, d2) = choose|l: int, rr: int, u: int, d: int| #[trigger]
            is_bounds(data@, l, rr, u, d) && out.0@ == cropped(
                data@,
                crop_start(data@.width as int, l, rr),
                crop_start(data@.height as int, u, d),
                crop_side(l, rr) as nat,
                crop_side(u, d) as nat,
            ) && out.1.0 == crop_shift(data@.width as int, l, rr) && out.1.1 == crop_shift(
                data@.height as int,
                u,
                d,
            );
        lemma_bounds_unique(data@, l as int, r as int, u as int, d as int, l2, r2, u2, d2);
        assert(is_bounds(data@, l as int, r as int, u as int, d as int));
    }
    Ok(out)
}

/// Whether the part around the pixels from `first` to `last` lies inside a
/// sprite that measures `side`.
fn axis_fits(side: usize, first: usize, last: usize) -> (b: bool)
    requires
        first <= last < side,
        side <= isize::MAX,
    ensures
        b == crop_fits(side as int, first as int, last as int),
{
    let out: usize = match next_power_of_two(last - first + 6) {
        Some(out) => out,
        None => {
            return false;
        },
    };
    let half: i128 = side as i128 / 2;
    let shift: i128 = if out == side {
        0
    } else {
        half - (first as i128 + last as i128) / 2
    };
    let start: i128 = half - shift - out as i128 / 2;
    0 <= start && start + out as i128 <= side as i128
}

/// Puts a sprite on a raster of `w` by `h` pixels, if it fits.
pub fn try_pad<T: Pixel>(data: &Raster<T>, cx: isize, cy: isize, w: usize, h: usize) -> (r: Option<Raster<T>>)
    ensures
        r is Some <==> pad_fits(data@, cx as int, cy as int, w as int, h as int) && w * h <= usize::MAX,
        r matches Some(out) ==> out@ == padded(
            data@,
            pad_offset(w as int, data@.width as int, cx as int),
            pad_offset(h as int, data@.height as int, cy as int),
            w as nat,
            h as nat,
        ),
{
    let dw: usize = data.width();
    let dh: usize = data.height();
    if dw == 0 || dh == 0 || dw > w || dh > h {
        return None;
    }
    let ox: i128 = (w - dw) as i128 / 2 - cx as i128;
    let oy: i128 = (h - dh) as i128 / 2 - cy as i128;
    if ox < 0 || ox + dw as i128 > w as i128 || oy < 0 || oy + dh as i128 > h as i128 {
        return None;
    }
    if h != 0 && w > usize::MAX / h {
        assert(w * h > usize::MAX) by (nonlinear_arith)
            requires
                h > 0,
                w > (usize::MAX as int) / (h as int),
        ;
        return None;
    }
    assert(w * h <= usize::MAX) by (nonlinear_arith)
        requires
            h == 0 || w <= (usize::MAX as int) / (h as int),
            w >= 0,
            h >= 0,
    ;
    Some(do_pad(data, cx, cy, w, h))
}

/// Cuts the border off an image of one frame. An image of another number of
/// frames stays as it is.
pub fn crop(png: Png) -> (r: Result<(Png, (isize, isize)), CropError>)
    ensures
        png@.frames() != 1 ==> (r matches Ok(out) && out.0@ == png@ && out.1 == (0isize, 0isize)),
        png@.frames() == 1 ==> match png@ {
            PngView::Argb32(d) => r is Ok <==> can_crop(d[0]),
            PngView::Indexed(_, d) => r is Ok <==> can_crop(d[0]),
        },
        png@.frames() == 1 ==> match (png@, r) {
            (PngView::Argb32(d), Ok(out)) => (out.0@ matches PngView::Argb32(e) && e.len() == 1 && is_crop_of(
                d[0],
                e[0],
                out.1,
            )),
            (PngView::Indexed(pal, d), Ok(out)) => (out.0@ matches PngView::Indexed(pal2, e) && pal2 == pal
                && e.len() == 1 && is_crop_of(d[0], e[0], out.1)),
            _ => true,
        },
{
    match png {
        Png::Argb32(frames) => {
            if frames.len() != 1 {
                return Ok((Png::Argb32(frames), (0, 0)));
            }
            let (frame, shift) = try_crop(&frames[0])?;
            let mut out: Vec<Raster<u32>> = Vec::new();
            out.push(frame);
            Ok((Png::Argb32(out), shift))
        },
        Png::Indexed(pal, frames) => {
            if frames.len() != 1 {
                return Ok((Png::Indexed(pal, frames), (0, 0)));
            }
            let (frame, shift) = try_crop(&frames[0])?;
            let mut out: Vec<Raster<u8>> = Vec::new();
            out.push(frame);
            Ok((Png::Indexed(pal, out), shift))
        },
    }
}

/// `part` is what is left of `whole` with its border cut off, and its centre lies
/// `shift` from the centre of `whole`.
pub open spec fn is_crop_of<T>(whole: RasterView<T>, part: RasterView<T>, shift: (isize, isize)) -> bool {
    exists|l: int, r: int, u: int, d: int| #[trigger]
        is_bounds(whole, l, r, u, d) && crop_fits(whole.width as int, l, r) && crop_fits(whole.height as int, u, d)
            && part == cropped(
            whole,
            crop_start(whole.width as int, l, r),
            crop_start(whole.height as int, u, d),
            crop_side(l, r) as nat,
            crop_side(u, d) as nat,
        ) && shift.0 == crop_shift(whole.width as int, l, r) && shift.1 == crop_shift(whole.height as int, u, d)
}

/// Puts an image of one frame on a raster of `w` by `h` pixels. An image of
/// another number of frames stays as it is.
pub fn pad(png: Png, x: isize, y: isize, w: usize, h: usize) -> (r: Result<Png, CropError>)
    ensures
        png@.frames() != 1 ==> (r matches Ok(out) && out@ == png@),
        png@.frames() == 1 ==> match png@ {
            PngView::Argb32(d) => match r {
                Ok(out) => pad_fits(d[0], x as int, y as int, w as int, h as int) && w * h <= usize::MAX
                    && out@ == PngView::Argb32(
                    seq![
                        padded(
                            d[0],
                            pad_offset(w as int, d[0].width as int, x as int),
                            pad_offset(h as int, d[0].height as int, y as int),
                            w as nat,
                            h as nat,
                        ),
                    ],
                ),
                Err(e) => e == CropError::OutOfBounds && !(pad_fits(d[0], x as int, y as int, w as int, h as int)
                    && w * h <= usize::MAX),
            },
            PngView::Indexed(pal, d) => match r {
                Ok(out) => pad_fits(d[0], x as int, y as int, w as int, h as int) && w * h <= usize::MAX
                    && out@ == PngView::Indexed(
                    pal,
                    seq![
                        padded(
                            d[0],
                            pad_offset(w as int, d[0].width as int, x as int),
                            pad_offset(h as int, d[0].height as int, y as int),
                            w as nat,
                            h as nat,
                        ),
                    ],
                ),
                Err(e) => e == CropError::OutOfBounds && !(pad_fits(d[0], x as int, y as int, w as int, h as int)
                    && w * h <= usize::MAX),
            },
        },
{
    match png {
        Png::Argb32(frames) => {
            if frames.len() != 1 {
                return Ok(Png::Argb32(frames));
            }
            match try_pad(&frames[0], x, y, w, h) {
                Some(frame) => {
                    let mut out: Vec<Raster<u32>> = Vec::new();
                    out.push(frame);
                    assert(views(out@) =~= seq![frame@]);
                    Ok(Png::Argb32(out))
                },
                None => Err(CropError::OutOfBounds),
            }
        },
        Png::Indexed(pal, frames) => {
            if frames.len() != 1 {
                return Ok(Png::Indexed(pal, frames));
            }
            match try_pad(&frames[0], x, y, w, h) {
                Some(frame) => {
                    let mut out: Vec<Raster<u8>> = Vec::new();
                    out.push(frame);
                    assert(views(out@) =~= seq![frame@]);
                    Ok(Png::Indexed(pal, out))
                },
                None => Err(CropError::OutOfBounds),
            }
        },
    }
}

} // verus!
