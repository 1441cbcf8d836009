//! A dense two-dimensional pixel buffer in row-major order.

use vstd::prelude::*;

verus! {

/// What a raster is, mathematically: its dimensions and its pixels, row by row.
pub struct RasterView<T> {
    pub width: nat,
    pub height: nat,
    pub data: Seq<T>,
}

impl<T> RasterView<T> {
    /// The buffer holds exactly one pixel per coordinate.
    pub open spec fn wf(self) -> bool {
        self.data.len() == self.width * self.height
    }

    /// The pixel in column `x` of row `y`.
    pub open spec fn at(self, x: int, y: int) -> T
        recommends
            0 <= x < self.width,
            0 <= y < self.height,
    {
        self.data[y * self.width + x]
    }
}

/// One mip level of one image: `width * height` pixels of type `T`.
#[derive(PartialEq, Eq, Debug)]
pub struct Raster<T> {
    width: usize,
    height: usize,
    data: Vec<T>,
}

impl<T: Clone> Clone for Raster<T> {
    fn clone(&self) -> (r: Self)
        ensures
            r@.width == self@.width,
            r@.height == self@.height,
            r@.data.len() == self@.data.len(),
            forall|i: int| 0 <= i < self@.data.len() ==> cloned(#[trigger] self@.data[i], r@.data[i]),
    {
        proof {
            use_type_invariant(self);
        }
        Raster { width: self.width, height: self.height, data: self.data.clone() }
    }
}

impl<T> View for Raster<T> {
    type V = RasterView<T>;

    closed spec fn view(&self) -> RasterView<T> {
        RasterView { width: self.width as nat, height: self.height as nat, data: self.data@ }
    }
}

/// The offset of `(x, y)` in a row-major buffer lies inside the buffer.
pub proof fn lemma_offset_in_bounds(x: int, y: int, width: int, height: int)
    requires
        0 <= x < width,
        0 <= y < height,
    ensures
        0 <= y * width + x < width * height,
{
    assert(y * width >= 0) by (nonlinear_arith)
        requires
            y >= 0,
            width >= 0,
    ;
    assert(y * width + width <= height * width) by (nonlinear_arith)
        requires
            y + 1 <= height,
            width >= 0,
    ;
    assert(height * width == width * height) by (nonlinear_arith);
}

impl<T> Raster<T> {
    #[verifier::type_invariant]
    closed spec fn inv(&self) -> bool {
        self.data.len() == self.width * self.height
    }

    /// A raster whose every pixel is a default value of `T`.
    pub fn new(width: usize, height: usize) -> (r: Self) where T: Default
        requires
            width * height <= usize::MAX,
        ensures
            r@.width == width,
            r@.height == height,
            r@.wf(),
            forall|i: int| 0 <= i < r@.data.len() ==> call_ensures(T::default, (), #[trigger] r@.data[i]),
    {
        let len: usize = width * height;
        let mut data: Vec<T> = Vec::with_capacity(len);
        let mut i: usize = 0;
        while i < len
            invariant
                i <= len,
                data.len() == i,
                forall|k: int| 0 <= k < i ==> call_ensures(T::default, (), #[trigger] data@[k]),
            decreases len - i,
        {
            data.push(T::default());
            i += 1;
        }
        Raster { width, height, data }
    }

    /// A raster whose every pixel is `val`.
    pub fn splat(width: usize, height: usize, val: T) -> (r: Self) where T: Copy
        requires
            width * height <= usize::MAX,
        ensures
            r@ == (RasterView { width: width as nat, height: height as nat, data: Seq::new((width * height) as nat, |i: int| val) }),
    {
        let len: usize = width * height;
        let mut data: Vec<T> = Vec::with_capacity(len);
        let mut i: usize = 0;
        while i < len
            invariant
                i <= len,
                data.len() == i,
                forall|k: int| 0 <= k < i ==> #[trigger] data@[k] == val,
            decreases len - i,
        {
            data.push(val);
            i += 1;
        }
        assert(data@ =~= Seq::new((width * height) as nat, |i: int| val));
        Raster { width, height, data }
    }

    /// Wraps an existing row-major buffer.
    pub fn new_with(width: usize, height: usize, data: Vec<T>) -> (r: Self)
        requires
            data.len() == width * height,
        ensures
            r@ == (RasterView { width: width as nat, height: height as nat, data: data@ }),
    {
        Raster { width, height, data }
    }

    /// The number of columns.
    pub fn width(&self) -> (w: usize)
        ensures
            w == self@.width,
            self@.wf(),
    {
        proof {
            use_type_invariant(self);
        }
        self.width
    }

    /// The number of rows.
    pub fn height(&self) -> (h: usize)
        ensures
            h == self@.height,
            self@.wf(),
    {
        proof {
            use_type_invariant(self);
        }
        self.height
    }

    /// The pixels, row by row.
    pub fn as_slice(&self) -> (s: &[T])
        ensures
            s@ == self@.data,
            self@.wf(),
    {
        proof {
            use_type_invariant(self);
        }
        self.data.as_slice()
    }

    /// The pixel in column `x` of row `y`.
    pub fn get(&self, x: usize, y: usize) -> (p: &T)
        requires
            x < self@.width,
            y < self@.height,
        ensures
            *p == self@.at(x as int, y as int),
    {
        proof {
            use_type_invariant(self);
            lemma_offset_in_bounds(x as int, y as int, self.width as int, self.height as int);
        }
        &self.data[y * self.width + x]
    }

    /// A raster of the same shape whose pixels are the images of this one's under `f`.
    pub fn map<U, F: Fn(&T) -> U>(&self, f: F) -> (r: Raster<U>)
        requires
            forall|i: int| 0 <= i < self@.data.len() ==> call_requires(f, (&#[trigger] self@.data[i],)),
        ensures
            r@.width == self@.width,
            r@.height == self@.height,
            r@.data.len() == self@.data.len(),
            forall|i: int| 0 <= i < self@.data.len() ==> call_ensures(f, (&self@.data[i],), #[trigger] r@.data[i]),
    {
        proof {
            use_type_invariant(self);
        }
        let n: usize = self.data.len();
        let mut out: Vec<U> = Vec::with_capacity(n);
        let mut i: usize = 0;
        while i < n
            invariant
                i <= n,
                n == self.data.len(),
                out.len() == i,
                self@.data == self.data@,
                forall|k: int| 0 <= k < n ==> call_requires(f, (&#[trigger] self@.data[k],)),
                forall|k: int| 0 <= k < i ==> call_ensures(f, (&self@.data[k],), #[trigger] out@[k]),
            decreases n - i,
        {
            let v = f(&self.data[i]);
            out.push(v);
            i += 1;
        }
        Raster { width: self.width, height: self.height, data: out }
    }
}

} // verus!
