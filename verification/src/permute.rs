//! Index permutations between the tile orders found on disk and row-major order.
//!
//! Every reordering is computed as a list of source indices and applied as one
//! buffer-to-buffer move.

use crate::raster::lemma_offset_in_bounds;
use vstd::arithmetic::div_mod::{lemma_fundamental_div_mod, lemma_fundamental_div_mod_converse};
use vstd::prelude::*;

verus! {

/// `perm` names every index below `n` at most once, and nothing else.
pub open spec fn is_permutation(perm: Seq<usize>, n: int) -> bool {
    &&& perm.len() == n
    &&& forall|k: int| 0 <= k < n ==> 0 <= #[trigger] perm[k] < n
    &&& forall|j: int, k: int| 0 <= j < k < n ==> perm[j] != perm[k]
}

/// The `k`-th index of the swizzle of an `a * b * c * d` array.
///
/// Position `k` is read as the coordinates `(ia, ib, ic, id)` of an array with axes
/// `(a, b, c, d)`; the result is the offset of `(ia, ic, ib, id)` in an array with
/// axes `(a, c, b, d)`: the two middle axes change places.
pub open spec fn swizzle_index(b: int, c: int, d: int, k: int) -> int {
    let id = k % d;
    let ic = (k / d) % c;
    let ib = (k / d / c) % b;
    let ia = k / d / c / b;
    ((ia * c + ic) * b + ib) * d + id
}

/// The buffer that holds at each position `k` the element of `s` found at the `k`-th
/// swizzle index.
pub open spec fn swizzled<T>(s: Seq<T>, b: int, c: int, d: int) -> Seq<T> {
    Seq::new(s.len(), |k: int| s[swizzle_index(b, c, d, k)])
}

/// A number below a product, divided by one factor, is below the other.
proof fn lemma_div_bound(k: int, d: int, m: int)
    requires
        0 <= k < m * d,
        d > 0,
    ensures
        0 <= k / d < m,
        0 <= k % d < d,
        k == (k / d) * d + k % d,
{
    lemma_fundamental_div_mod(k, d);
    let q = k / d;
    let r = k % d;
    assert(d * q == q * d) by (nonlinear_arith);
    assert(q < m && q >= 0) by (nonlinear_arith)
        requires
            0 <= q * d + r < m * d,
            0 <= r < d,
            d > 0,
    ;
}

/// Swizzling stays within the array, and swizzling with the middle axes exchanged
/// undoes it.
pub proof fn lemma_swizzle_inverse(a: int, b: int, c: int, d: int, k: int)
    requires
        b > 0,
        c > 0,
        d > 0,
        0 <= k < a * b * c * d,
    ensures
        0 <= swizzle_index(b, c, d, k) < a * b * c * d,
        swizzle_index(c, b, d, swizzle_index(b, c, d, k)) == k,
{
    lemma_div_bound(k, d, a * b * c);
    let k1 = k / d;
    let id = k % d;
    lemma_div_bound(k1, c, a * b);
    let k2 = k1 / c;
    let ic = k1 % c;
    lemma_div_bound(k2, b, a);
    let ia = k2 / b;
    let ib = k2 % b;
    let m1 = ia * c + ic;
    let m2 = m1 * b + ib;
    let r = m2 * d + id;
    assert(r == swizzle_index(b, c, d, k));
    lemma_offset_in_bounds(ic, ia, c, a);
    lemma_offset_in_bounds(ib, m1, b, c * a);
    lemma_offset_in_bounds(id, m2, d, b * (c * a));
    assert(d * (b * (c * a)) == a * b * c * d) by (nonlinear_arith);
    lemma_fundamental_div_mod_converse(r, d, m2, id);
    lemma_fundamental_div_mod_converse(m2, b, m1, ib);
    lemma_fundamental_div_mod_converse(m1, c, ia, ic);
    assert(swizzle_index(c, b, d, r) == ((ia * b + ib) * c + ic) * d + id);
}

/// The indices of a swizzle, in order: a rearrangement of `0 .. a*b*c*d`.
pub fn iter_swizzle(a: usize, b: usize, c: usize, d: usize) -> (v: Vec<usize>)
    requires
        a * b * c * d <= usize::MAX,
    ensures
        v@.len() == a * b * c * d,
        forall|k: int| 0 <= k < v@.len() ==> #[trigger] v@[k] == swizzle_index(b as int, c as int, d as int, k),
        is_permutation(v@, a * b * c * d),
{
    let mut v: Vec<usize> = Vec::new();
    if a == 0 || b == 0 || c == 0 || d == 0 {
        assert(a * b * c * d == 0) by (nonlinear_arith)
            requires
                a == 0 || b == 0 || c == 0 || d == 0,
        ;
        return v;
    }
    assert(a * b <= a * b * c && a * b * c <= a * b * c * d) by (nonlinear_arith)
        requires
            a >= 1,
            b >= 1,
            c >= 1,
            d >= 1,
    ;
    let n: usize = a * b * c * d;
    let mut k: usize = 0;
    while k < n
        invariant
            k <= n,
            n == a * b * c * d,
            a > 0,
            b > 0,
            c > 0,
            d > 0,
            v@.len() == k,
            forall|j: int| 0 <= j < k ==> #[trigger] v@[j] == swizzle_index(b as int, c as int, d as int, j),
        decreases n - k,
    {
        let id: usize = k % d;
        let ic: usize = (k / d) % c;
        let ib: usize = (k / d / c) % b;
        let ia: usize = k / d / c / b;
        proof {
            lemma_swizzle_inverse(a as int, b as int, c as int, d as int, k as int);
            lemma_div_bound(k as int, d as int, a * b * c);
            lemma_div_bound(k as int / d as int, c as int, a * b);
            lemma_div_bound(k as int / d as int / c as int, b as int, a as int);
            lemma_offset_in_bounds(ic as int, ia as int, c as int, a as int);
            lemma_offset_in_bounds(ib as int, ia * c + ic, b as int, c * a);
            assert(c * a <= b * (c * a) && b * (c * a) <= a * b * c * d) by (nonlinear_arith)
                requires
                    a >= 1,
                    b >= 1,
                    c >= 1,
                    d >= 1,
            ;
            assert(ia * c >= 0 && (ia * c + ic) * b >= 0) by (nonlinear_arith)
                requires
                    ia >= 0,
                    ic >= 0,
                    b > 0,
                    c > 0,
            ;
        }
        v.push(((ia * c + ic) * b + ib) * d + id);
        k += 1;
    }
    proof {
        lemma_swizzle_is_permutation(v@, a as int, b as int, c as int, d as int);
    }
    v
}

/// The tile order visits every position once.
proof fn lemma_swizzle_is_permutation(v: Seq<usize>, a: int, b: int, c: int, d: int)
    requires
        b > 0,
        c > 0,
        d > 0,
        v.len() == a * b * c * d,
        forall|k: int| 0 <= k < v.len() ==> #[trigger] v[k] == swizzle_index(b, c, d, k),
    ensures
        is_permutation(v, a * b * c * d),
{
    let n = a * b * c * d;
    assert forall|k: int| 0 <= k < n implies 0 <= #[trigger] v[k] < n by {
        lemma_swizzle_inverse(a, b, c, d, k);
    }
    assert forall|j: int, k: int| 0 <= j < k < n implies v[j] != v[k] by {
        lemma_swizzle_inverse(a, b, c, d, j);
        lemma_swizzle_inverse(a, b, c, d, k);
    }
}

/// Gathers: afterwards position `k` holds what stood at `perm[k]`.
pub fn permute<T: Copy>(data: &mut Vec<T>, perm: &Vec<usize>)
    requires
        perm@.len() == old(data)@.len(),
        forall|k: int| 0 <= k < perm@.len() ==> #[trigger] perm@[k] < old(data)@.len(),
    ensures
        final(data)@.len() == old(data)@.len(),
        forall|k: int| 0 <= k < perm@.len() ==> #[trigger] final(data)@[k] == old(data)@[perm@[k] as int],
{
    let n: usize = data.len();
    let mut scratch: Vec<T> = Vec::with_capacity(n);
    let mut k: usize = 0;
    while k < n
        invariant
            k <= n,
            n == data@.len(),
            perm@.len() == n,
            scratch@.len() == k,
            forall|j: int| 0 <= j < n ==> #[trigger] perm@[j] < n,
            forall|j: int| 0 <= j < k ==> #[trigger] scratch@[j] == data@[perm@[j] as int],
        decreases n - k,
    {
        scratch.push(data[perm[k]]);
        k += 1;
    }
    *data = scratch;
}

/// Scatters: afterwards position `perm[k]` holds what stood at `k`.
pub fn unpermute<T: Copy>(data: &mut Vec<T>, perm: &Vec<usize>)
    requires
        is_permutation(perm@, old(data)@.len() as int),
    ensures
        final(data)@.len() == old(data)@.len(),
        forall|k: int| 0 <= k < perm@.len() ==> #[trigger] final(data)@[perm@[k] as int] == old(data)@[k],
{
    let n: usize = data.len();
    let mut scratch: Vec<T> = Vec::with_capacity(n);
    let mut k: usize = 0;
    while k < n
        invariant
            k <= n,
            n == data@.len(),
            scratch@.len() == k,
        decreases n - k,
    {
        scratch.push(data[k]);
        k += 1;
    }
    k = 0;
    while k < n
        invariant
            k <= n,
            n == data@.len(),
            scratch@.len() == n,
            is_permutation(perm@, n as int),
            forall|j: int| 0 <= j < k ==> #[trigger] scratch@[perm@[j] as int] == data@[j],
        decreases n - k,
    {
        scratch.set(perm[k], data[k]);
        k += 1;
    }
    *data = scratch;
}

/// Moves each element from the second index of a pair to the first. The first
/// indices are pairwise distinct.
pub fn apply_permutation<T: Copy>(data: &mut Vec<T>, pairs: &Vec<(usize, usize)>)
    requires
        forall|k: int| 0 <= k < pairs@.len() ==> (#[trigger] pairs@[k]).0 < old(data)@.len() && pairs@[k].1 < old(data)@.len(),
        forall|j: int, k: int| 0 <= j < k < pairs@.len() ==> pairs@[j].0 != pairs@[k].0,
    ensures
        final(data)@.len() == old(data)@.len(),
        forall|k: int| 0 <= k < pairs@.len() ==> final(data)@[(#[trigger] pairs@[k]).0 as int] == old(data)@[pairs@[k].1 as int],
        forall|i: int| 0 <= i < old(data)@.len() && (forall|k: int| 0 <= k < pairs@.len() ==> (#[trigger] pairs@[k]).0 != i)
            ==> final(data)@[i] == old(data)@[i],
{
    let n: usize = data.len();
    let mut scratch: Vec<T> = Vec::with_capacity(n);
    let mut k: usize = 0;
    while k < n
        invariant
            k <= n,
            n == data@.len(),
            scratch@.len() == k,
            forall|j: int| 0 <= j < k ==> #[trigger] scratch@[j] == data@[j],
        decreases n - k,
    {
        scratch.push(data[k]);
        k += 1;
    }
    let m: usize = pairs.len();
    k = 0;
    while k < m
        invariant
            k <= m,
            m == pairs@.len(),
            n == data@.len(),
            scratch@.len() == n,
            forall|j: int| 0 <= j < m ==> (#[trigger] pairs@[j]).0 < n && pairs@[j].1 < n,
            forall|i: int, j: int| 0 <= i < j < m ==> pairs@[i].0 != pairs@[j].0,
            forall|j: int| 0 <= j < k ==> scratch@[(#[trigger] pairs@[j]).0 as int] == data@[pairs@[j].1 as int],
            forall|i: int| 0 <= i < n && (forall|j: int| 0 <= j < k ==> (#[trigger] pairs@[j]).0 != i)
                ==> scratch@[i] == data@[i],
        decreases m - k,
    {
        let (to, from) = pairs[k];
        scratch.set(to, data[from]);
        k += 1;
    }
    *data = scratch;
}

/// Reorders a row-major `h * w` image into tiles of `ch * cw`, tile after tile.
pub fn swizzle<T: Copy>(data: &mut Vec<T>, h: usize, w: usize, ch: usize, cw: usize)
    requires
        old(data)@.len() == w * h,
        ch > 0,
        cw > 0,
        w % cw == 0,
        h % ch == 0,
    ensures
        final(data)@ == swizzled(old(data)@, (w / cw) as int, ch as int, cw as int),
{
    let n: usize = data.len();
    proof {
        lemma_tile_volume(h as int, w as int, ch as int, cw as int);
    }
    let perm = iter_swizzle(h / ch, w / cw, ch, cw);
    permute(data, &perm);
    assert(data@ =~= swizzled(old(data)@, (w / cw) as int, ch as int, cw as int));
}

/// Reorders an image stored tile after tile, in tiles of `ch * cw`, into row-major
/// order: the swizzle with the middle axes exchanged.
pub fn unswizzle<T: Copy>(data: &mut Vec<T>, h: usize, w: usize, ch: usize, cw: usize)
    requires
        old(data)@.len() == w * h,
        ch > 0,
        cw > 0,
        w % cw == 0,
        h % ch == 0,
    ensures
        final(data)@ == swizzled(old(data)@, ch as int, (w / cw) as int, cw as int),
{
    let n: usize = data.len();
    proof {
        lemma_tile_volume(h as int, w as int, ch as int, cw as int);
        assert((h / ch) * ch * (w / cw) * cw == (h / ch) * (w / cw) * ch * cw) by (nonlinear_arith);
    }
    let perm = iter_swizzle(h / ch, ch, w / cw, cw);
    permute(data, &perm);
    assert(data@ =~= swizzled(old(data)@, ch as int, (w / cw) as int, cw as int));
}

/// An image that divides evenly into tiles has as many pixels as its tiles have.
pub proof fn lemma_tile_volume(h: int, w: int, ch: int, cw: int)
    requires
        h >= 0,
        w >= 0,
        ch > 0,
        cw > 0,
        w % cw == 0,
        h % ch == 0,
    ensures
        (h / ch) * (w / cw) * ch * cw == w * h,
        h / ch >= 0,
        w / cw >= 0,
{
    lemma_fundamental_div_mod(h, ch);
    lemma_fundamental_div_mod(w, cw);
    let bh = h / ch;
    let bw = w / cw;
    assert(bh * bw * ch * cw == (cw * bw) * (ch * bh)) by (nonlinear_arith);
    assert(bh >= 0) by (nonlinear_arith)
        requires
            ch * bh >= 0,
            ch > 0,
    ;
    assert(bw >= 0) by (nonlinear_arith)
        requires
            cw * bw >= 0,
            cw > 0,
    ;
}

/// Unswizzling a swizzled image gives the image back, and the other way round.
pub proof fn lemma_unswizzle_swizzle<T>(s: Seq<T>, h: int, w: int, ch: int, cw: int)
    requires
        h >= 0,
        w >= 0,
        s.len() == w * h,
        ch > 0,
        cw > 0,
        w % cw == 0,
        h % ch == 0,
    ensures
        swizzled(swizzled(s, w / cw, ch, cw), ch, w / cw, cw) == s,
        swizzled(swizzled(s, ch, w / cw, cw), w / cw, ch, cw) == s,
{
    lemma_tile_volume(h, w, ch, cw);
    let a = h / ch;
    let b = w / cw;
    assert(a * ch * b * cw == a * b * ch * cw) by (nonlinear_arith);
    if b > 0 {
        assert forall|k: int| 0 <= k < s.len() implies swizzled(swizzled(s, b, ch, cw), ch, b, cw)[k] == s[k] by {
            lemma_swizzle_inverse(a, ch, b, cw, k);
        }
        assert forall|k: int| 0 <= k < s.len() implies swizzled(swizzled(s, ch, b, cw), b, ch, cw)[k] == s[k] by {
            lemma_swizzle_inverse(a, b, ch, cw, k);
        }
    } else {
        assert(a * b * ch * cw == 0) by (nonlinear_arith)
            requires
                b == 0,
        ;
    }
    assert(swizzled(swizzled(s, b, ch, cw), ch, b, cw) =~= s);
    assert(swizzled(swizzled(s, ch, b, cw), b, ch, cw) =~= s);
}

/// `n` is a power of two.
pub open spec fn is_pow2(n: nat) -> bool
    decreases n,
{
    n == 1 || (n > 1 && n % 2 == 0 && is_pow2(n / 2))
}

/// What is left of a dimension once its lowest bit has been dealt out.
pub open spec fn half(n: nat) -> nat {
    if n > 1 {
        n / 2
    } else {
        n
    }
}

/// The coordinates `(x, y)` whose bits are interleaved in `a`, for an image of
/// `h` rows and `w` columns.
///
/// From the lowest bit of `a` upwards, a bit goes to `y` while `y` has bits left and
/// the next to `x` while `x` has bits left; the longer coordinate takes all of the
/// high bits.
pub open spec fn morton_xy(a: nat, h: nat, w: nat) -> (nat, nat)
    decreases h + w,
{
    if h <= 1 && w <= 1 {
        (0, 0)
    } else {
        let a1 = if h > 1 { a / 2 } else { a };
        let a2 = if w > 1 { a1 / 2 } else { a1 };
        let rest = morton_xy(a2, half(h), half(w));
        (
            (if w > 1 { a1 % 2 } else { 0 }) + 2 * rest.0,
            (if h > 1 { a % 2 } else { 0 }) + 2 * rest.1,
        )
    }
}

/// The number whose bits interleave those of `x` and `y`: the inverse of `morton_xy`.
pub open spec fn morton_code(x: nat, y: nat, h: nat, w: nat) -> nat
    decreases h + w,
{
    if h <= 1 && w <= 1 {
        0
    } else {
        let rest = morton_code(
            if w > 1 { x / 2 } else { x },
            if h > 1 { y / 2 } else { y },
            half(h),
            half(w),
        );
        let a1 = if w > 1 { x % 2 + 2 * rest } else { rest };
        if h > 1 { y % 2 + 2 * a1 } else { a1 }
    }
}

/// The row-major offset of the pixel that stands at position `a` of the Z-order curve.
pub open spec fn morton_index(h: nat, w: nat, a: nat) -> nat {
    let xy = morton_xy(a, h, w);
    xy.1 * w + xy.0
}

/// The position on the Z-order curve of the pixel at row-major offset `j`.
pub open spec fn unmorton_index(h: nat, w: nat, j: nat) -> nat {
    morton_code(j % w, j / w, h, w)
}

/// The buffer that holds at each position of the Z-order curve the pixel that the
/// curve visits there.
pub open spec fn mortoned<T>(s: Seq<T>, h: nat, w: nat) -> Seq<T> {
    Seq::new(s.len(), |k: int| s[morton_index(h, w, k as nat) as int])
}

/// The row-major buffer of an image stored along the Z-order curve.
pub open spec fn unmortoned<T>(s: Seq<T>, h: nat, w: nat) -> Seq<T> {
    Seq::new(s.len(), |j: int| s[unmorton_index(h, w, j as nat) as int])
}

/// A power of two above one is twice its half, which is a power of two.
proof fn lemma_half(n: nat)
    requires
        is_pow2(n),
    ensures
        n >= 1,
        is_pow2(half(n)),
        n > 1 ==> n == 2 * half(n),
        half(n) >= 1,
{
    if n > 1 {
        assert(is_pow2(n / 2));
        lemma_pow2_positive(n / 2);
    }
}

/// A power of two is above zero.
proof fn lemma_pow2_positive(n: nat)
    requires
        is_pow2(n),
    ensures
        n >= 1,
{
}

/// Halving one factor halves the product.
proof fn lemma_halve_product(a: nat, m: nat, n: nat)
    requires
        a < (2 * m) * n,
    ensures
        a / 2 < m * n,
        a == 2 * (a / 2) + a % 2,
        a % 2 < 2,
{
    assert((2 * m) * n == 2 * (m * n)) by (nonlinear_arith);
}

/// Decoding stays inside the image, and encoding the result gives the position back.
pub proof fn lemma_morton_decode_encode(a: nat, h: nat, w: nat)
    requires
        is_pow2(h),
        is_pow2(w),
        a < h * w,
    ensures
        morton_xy(a, h, w).0 < w,
        morton_xy(a, h, w).1 < h,
        morton_code(morton_xy(a, h, w).0, morton_xy(a, h, w).1, h, w) == a,
    decreases h + w,
{
    lemma_half(h);
    lemma_half(w);
    if h <= 1 && w <= 1 {
        assert(h * w == 1) by (nonlinear_arith)
            requires
                h == 1,
                w == 1,
        ;
    } else {
        let a1 = if h > 1 { a / 2 } else { a };
        let a2 = if w > 1 { a1 / 2 } else { a1 };
        if h > 1 {
            lemma_halve_product(a, half(h), w);
        }
        assert(a1 < half(h) * w);
        if w > 1 {
            assert(half(h) * w == (2 * half(w)) * half(h)) by (nonlinear_arith)
                requires
                    w == 2 * half(w),
            ;
            lemma_halve_product(a1, half(w), half(h));
            assert(half(w) * half(h) == half(h) * half(w)) by (nonlinear_arith);
        }
        assert(a2 < half(h) * half(w));
        lemma_morton_decode_encode(a2, half(h), half(w));
        let rest = morton_xy(a2, half(h), half(w));
        let x = morton_xy(a, h, w).0;
        let y = morton_xy(a, h, w).1;
        assert(x == (if w > 1 { a1 % 2 } else { 0 }) + 2 * rest.0);
        assert(y == (if h > 1 { a % 2 } else { 0 }) + 2 * rest.1);
        assert((if w > 1 { x / 2 } else { x }) == rest.0);
        assert((if h > 1 { y / 2 } else { y }) == rest.1);
    }
}

/// Encoding stays below the number of pixels, and decoding the result gives the
/// coordinates back.
pub proof fn lemma_morton_encode_decode(x: nat, y: nat, h: nat, w: nat)
    requires
        is_pow2(h),
        is_pow2(w),
        x < w,
        y < h,
    ensures
        morton_code(x, y, h, w) < h * w,
        morton_xy(morton_code(x, y, h, w), h, w) == (x, y),
    decreases h + w,
{
    lemma_half(h);
    lemma_half(w);
    if h <= 1 && w <= 1 {
        assert(h * w == 1) by (nonlinear_arith)
            requires
                h == 1,
                w == 1,
        ;
    } else {
        let x2 = if w > 1 { x / 2 } else { x };
        let y2 = if h > 1 { y / 2 } else { y };
        lemma_morton_encode_decode(x2, y2, half(h), half(w));
        let rest = morton_code(x2, y2, half(h), half(w));
        let a1 = if w > 1 { x % 2 + 2 * rest } else { rest };
        let a = if h > 1 { y % 2 + 2 * a1 } else { a1 };
        assert(a == morton_code(x, y, h, w));
        assert(a1 < half(h) * w) by (nonlinear_arith)
            requires
                rest < half(h) * half(w),
                a1 == (if w > 1 { x % 2 + 2 * rest } else { rest }),
                x % 2 < 2,
                w > 1 ==> w == 2 * half(w),
                w <= 1 ==> w == half(w),
        ;
        assert(a < h * w) by (nonlinear_arith)
            requires
                a1 < half(h) * w,
                a == (if h > 1 { y % 2 + 2 * a1 } else { a1 }),
                y % 2 < 2,
                h > 1 ==> h == 2 * half(h),
                h <= 1 ==> h == half(h),
        ;
        assert((if h > 1 { a / 2 } else { a }) == a1);
        assert((if w > 1 { a1 / 2 } else { a1 }) == rest);
    }
}

/// Along a side of one pixel, every coordinate in Z-order is zero.
proof fn lemma_morton_zero(a: nat, h: nat, w: nat)
    ensures
        w <= 1 ==> morton_xy(a, h, w).0 == 0,
        h <= 1 ==> morton_xy(a, h, w).1 == 0,
    decreases h + w,
{
    if h <= 1 && w <= 1 {
    } else {
        let a1 = if h > 1 { a / 2 } else { a };
        let a2 = if w > 1 { a1 / 2 } else { a1 };
        lemma_morton_zero(a2, half(h), half(w));
    }
}

/// The Z-order index of a position is a row-major offset inside the image, and
/// no two positions share one.
pub proof fn lemma_morton_index(h: nat, w: nat, a: nat)
    requires
        is_pow2(h),
        is_pow2(w),
        a < h * w,
    ensures
        morton_index(h, w, a) < h * w,
        unmorton_index(h, w, morton_index(h, w, a)) == a,
{
    lemma_morton_decode_encode(a, h, w);
    let xy = morton_xy(a, h, w);
    lemma_offset_in_bounds(xy.0 as int, xy.1 as int, w as int, h as int);
    assert(w * h == h * w) by (nonlinear_arith);
    lemma_fundamental_div_mod_converse(morton_index(h, w, a) as int, w as int, xy.1 as int, xy.0 as int);
}

/// The position of a row-major offset on the Z-order curve lies on the curve, and
/// the curve visits that offset there.
pub proof fn lemma_unmorton_index(h: nat, w: nat, j: nat)
    requires
        is_pow2(h),
        is_pow2(w),
        j < h * w,
    ensures
        unmorton_index(h, w, j) < h * w,
        morton_index(h, w, unmorton_index(h, w, j)) == j,
{
    lemma_pow2_positive(w);
    assert(h * w == h * w as int);
    lemma_div_bound(j as int, w as int, h as int);
    lemma_morton_encode_decode(j % w, j / w, h, w);
}

/// The coordinates that the Z-order curve visits at position `a`.
fn morton_point(a: usize, h: usize, w: usize) -> (p: (usize, usize))
    requires
        is_pow2(h as nat),
        is_pow2(w as nat),
    ensures
        p.0 == morton_xy(a as nat, h as nat, w as nat).0,
        p.1 == morton_xy(a as nat, h as nat, w as nat).1,
{
    let mut rest: usize = a;
    let mut hh: usize = h;
    let mut ww: usize = w;
    let mut x: usize = 0;
    let mut y: usize = 0;
    let mut bx: usize = 1;
    let mut by: usize = 1;
    while hh > 1 || ww > 1
        invariant
            is_pow2(hh as nat),
            is_pow2(ww as nat),
            bx * ww == w,
            by * hh == h,
            x < bx,
            y < by,
            morton_xy(a as nat, h as nat, w as nat).0 == x + bx * morton_xy(rest as nat, hh as nat, ww as nat).0,
            morton_xy(a as nat, h as nat, w as nat).1 == y + by * morton_xy(rest as nat, hh as nat, ww as nat).1,
        decreases hh + ww,
    {
        let ghost before = morton_xy(rest as nat, hh as nat, ww as nat);
        let ghost a1: nat = if hh > 1 { (rest / 2) as nat } else { rest as nat };
        let ghost a2: nat = if ww > 1 { a1 / 2 } else { a1 };
        let ghost after = morton_xy(a2, half(hh as nat), half(ww as nat));
        proof {
            lemma_half(hh as nat);
            lemma_half(ww as nat);
            lemma_morton_zero(a2, half(hh as nat), half(ww as nat));
            assert(before.0 == (if ww > 1 { a1 % 2 } else { 0 }) + 2 * after.0);
            assert(before.1 == (if hh > 1 { (rest as nat) % 2 } else { 0 }) + 2 * after.1);
        }
        if hh > 1 {
            let bit: usize = rest % 2;
            proof {
                assert(by * hh == (2 * by) * (hh / 2)) by (nonlinear_arith)
                    requires
                        hh == 2 * (hh / 2),
                ;
                assert(2 * by <= (2 * by) * (hh / 2)) by (nonlinear_arith)
                    requires
                        hh / 2 >= 1,
                        by >= 0,
                ;
                assert(by * (bit + 2 * after.1) == bit * by + (2 * by) * after.1) by (nonlinear_arith);
                assert(bit * by <= by) by (nonlinear_arith)
                    requires
                        bit <= 1,
                        by >= 0,
                ;
            }
            y = y + bit * by;
            by = 2 * by;
            rest = rest / 2;
            hh = hh / 2;
        } else {
            proof {
                assert(by * (0 + 2 * after.1) == 0) by (nonlinear_arith)
                    requires
                        after.1 == 0,
                ;
            }
        }
        if ww > 1 {
            let bit: usize = rest % 2;
            proof {
                assert(bx * ww == (2 * bx) * (ww / 2)) by (nonlinear_arith)
                    requires
                        ww == 2 * (ww / 2),
                ;
                assert(2 * bx <= (2 * bx) * (ww / 2)) by (nonlinear_arith)
                    requires
                        ww / 2 >= 1,
                        bx >= 0,
                ;
                assert(bx * (bit + 2 * after.0) == bit * bx + (2 * bx) * after.0) by (nonlinear_arith);
                assert(bit * bx <= bx) by (nonlinear_arith)
                    requires
                        bit <= 1,
                        bx >= 0,
                ;
            }
            x = x + bit * bx;
            bx = 2 * bx;
            rest = rest / 2;
            ww = ww / 2;
        } else {
            proof {
                assert(bx * (0 + 2 * after.0) == 0) by (nonlinear_arith)
                    requires
                        after.0 == 0,
                ;
            }
        }
    }
    proof {
        assert(bx * 0 == 0 && by * 0 == 0) by (nonlinear_arith);
    }
    (x, y)
}

/// The row-major offsets that the Z-order curve visits, in order: a rearrangement
/// of `0 .. w*h`.
pub fn iter_morton(h: usize, w: usize) -> (v: Vec<usize>)
    requires
        is_pow2(h as nat),
        is_pow2(w as nat),
        w * h <= usize::MAX,
    ensures
        v@.len() == w * h,
        forall|a: int| 0 <= a < v@.len() ==> #[trigger] v@[a] == morton_index(h as nat, w as nat, a as nat),
        is_permutation(v@, w * h),
{
    let n: usize = w * h;
    let mut v: Vec<usize> = Vec::with_capacity(n);
    let mut a: usize = 0;
    proof {
        assert(w * h == h * w) by (nonlinear_arith);
    }
    while a < n
        invariant
            a <= n,
            n == h * w,
            is_pow2(h as nat),
            is_pow2(w as nat),
            v@.len() == a,
            forall|j: int| 0 <= j < a ==> #[trigger] v@[j] == morton_index(h as nat, w as nat, j as nat),
        decreases n - a,
    {
        let (x, y) = morton_point(a, h, w);
        proof {
            lemma_morton_decode_encode(a as nat, h as nat, w as nat);
            lemma_offset_in_bounds(x as int, y as int, w as int, h as int);
            assert(w * h == h * w) by (nonlinear_arith);
            assert(y * w >= 0) by (nonlinear_arith)
                requires
                    y >= 0,
                    w >= 0,
            ;
        }
        v.push(y * w + x);
        a += 1;
    }
    proof {
        assert forall|k: int| 0 <= k < n implies 0 <= #[trigger] v@[k] < n by {
            lemma_morton_index(h as nat, w as nat, k as nat);
        }
        assert forall|j: int, k: int| 0 <= j < k < n implies v@[j] != v@[k] by {
            lemma_morton_index(h as nat, w as nat, j as nat);
            lemma_morton_index(h as nat, w as nat, k as nat);
        }
    }
    v
}

/// Reorders a row-major image of `height * width` pixels along the Z-order curve.
pub fn morton<T: Copy>(data: &mut Vec<T>, height: usize, width: usize)
    requires
        old(data)@.len() == width * height,
        is_pow2(height as nat),
        is_pow2(width as nat),
    ensures
        final(data)@ == mortoned(old(data)@, height as nat, width as nat),
{
    let n: usize = data.len();
    let perm = iter_morton(height, width);
    permute(data, &perm);
    assert(data@ =~= mortoned(old(data)@, height as nat, width as nat));
}

/// Reorders an image stored along the Z-order curve into row-major order.
pub fn unmorton<T: Copy>(data: &mut Vec<T>, height: usize, width: usize)
    requires
        old(data)@.len() == width * height,
        is_pow2(height as nat),
        is_pow2(width as nat),
    ensures
        final(data)@ == unmortoned(old(data)@, height as nat, width as nat),
{
    let n: usize = data.len();
    let perm = iter_morton(height, width);
    unpermute(data, &perm);
    proof {
        assert(width * height == height * width) by (nonlinear_arith);
        assert forall|j: int| 0 <= j < n implies #[trigger] data@[j] == old(data)@[unmorton_index(height as nat, width as nat, j as nat) as int] by {
            lemma_unmorton_index(height as nat, width as nat, j as nat);
            let k = unmorton_index(height as nat, width as nat, j as nat) as int;
            assert(perm@[k] == j);
            assert(data@[perm@[k] as int] == old(data)@[k]);
        }
        assert(data@ =~= unmortoned(old(data)@, height as nat, width as nat));
    }
}

/// Taking an image off the Z-order curve after putting it on gives the image back,
/// and the other way round.
pub proof fn lemma_unmorton_morton<T>(s: Seq<T>, h: nat, w: nat)
    requires
        is_pow2(h),
        is_pow2(w),
        s.len() == w * h,
    ensures
        unmortoned(mortoned(s, h, w), h, w) == s,
        mortoned(unmortoned(s, h, w), h, w) == s,
{
    assert(w * h == h * w) by (nonlinear_arith);
    assert forall|j: int| 0 <= j < s.len() implies unmortoned(mortoned(s, h, w), h, w)[j] == s[j] by {
        lemma_unmorton_index(h, w, j as nat);
    }
    assert forall|k: int| 0 <= k < s.len() implies mortoned(unmortoned(s, h, w), h, w)[k] == s[k] by {
        lemma_morton_index(h, w, k as nat);
    }
    assert(unmortoned(mortoned(s, h, w), h, w) =~= s);
    assert(mortoned(unmortoned(s, h, w), h, w) =~= s);
}

} // verus!
