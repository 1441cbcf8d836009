//! Headerless images of 16-bit or 32-bit colour, stored pixel after pixel.

use crate::bytes::{Pixel, pow256};
use crate::dds::{Dds, DdsView, PixelFormat, PixelFormatView};
use crate::dxt::s3tc::expand5;
use crate::itp::{ImageData as ItpImageData, Itp, ItpView, Palette, PaletteView, PixelKind, raster_values};
use crate::itp::read::decode_pixels;
use crate::itp::round_trip::lemma_pixel_bytes;
use crate::itp::write::{encode_pixels, pixel_bytes};
use crate::itp_png::looked_up_or_zero;
use crate::png::{argb, channel, Png, PngView, to_argb};
use crate::raster::{Raster, RasterView};
use vstd::prelude::*;
use vstd::string::StringSliceAdditionalSpecFns;

verus! {

/// How the pixels of an image are stored.
#[derive(Debug, Clone, Copy, PartialEq, Eq, Structural)]
pub enum Mode {
    Argb1555,
    Argb4444,
    Argb8888,
}

impl Mode {
    /// The number of bytes of a pixel.
    pub open spec fn size(self) -> nat {
        match self {
            Mode::Argb1555 => 2,
            Mode::Argb4444 => 2,
            Mode::Argb8888 => 4,
        }
    }

    /// The number of bytes of a pixel.
    pub fn bytes_per(self) -> (n: usize)
        ensures
            n == self.size(),
    {
        match self {
            Mode::Argb1555 => 2,
            Mode::Argb4444 => 2,
            Mode::Argb8888 => 4,
        }
    }
}

/// The pixels of a sprite sheet, in the colour depth of its mode.
#[derive(Debug, Clone, PartialEq, Eq)]
pub enum ImageData {
    Argb1555(Raster<u16>),
    Argb4444(Raster<u16>),
    Argb8888(Raster<u32>),
}

/// What an image is: its mode, and the numbers that its pixels hold.
pub struct ImageView {
    pub mode: Mode,
    pub pixels: RasterView<nat>,
}

impl View for ImageData {
    type V = ImageView;

    open spec fn view(&self) -> ImageView {
        match self {
            ImageData::Argb1555(r) => ImageView { mode: Mode::Argb1555, pixels: raster_values(r@) },
            ImageData::Argb4444(r) => ImageView { mode: Mode::Argb4444, pixels: raster_values(r@) },
            ImageData::Argb8888(r) => ImageView { mode: Mode::Argb8888, pixels: raster_values(r@) },
        }
    }
}

/// Why bytes are no image of a given width.
#[derive(Debug, Clone, Copy, PartialEq, Eq, Structural)]
pub enum ReadError {
    /// A row of the image would be empty.
    InvalidWidth,
    /// The bytes are no whole number of rows.
    InvalidSize,
}

/// The image of `width` pixels a row that `s` holds. The height follows from the
/// length of `s`, which must be a whole number of rows.
pub open spec fn spec_read(mode: Mode, width: nat, s: Seq<u8>) -> Result<ImageView, ReadError> {
    if width * mode.size() == 0 {
        Err(ReadError::InvalidWidth)
    } else if s.len() % (width * mode.size()) != 0 {
        Err(ReadError::InvalidSize)
    } else {
        Ok(
            ImageView {
                mode,
                pixels: RasterView {
                    width,
                    height: s.len() / (width * mode.size()),
                    data: Seq::new(
                        width * (s.len() / (width * mode.size())),
                        |i: int| crate::bytes::le_at(s, i * mode.size(), mode.size() as int),
                    ),
                },
            },
        )
    }
}

/// The bytes of an image: its pixels one after another, each lowest byte first.
pub open spec fn spec_write(img: ImageView) -> Seq<u8> {
    pixel_bytes(img.pixels.data, img.mode.size())
}

/// Reads a sheet whose pixels take `T::size()` bytes each.
fn read_raster<T: Pixel>(mode: Mode, width: usize, ch: &[u8]) -> (r: Result<Raster<T>, ReadError>)
    requires
        T::size() == mode.size(),
    ensures
        match r {
            Ok(raster) => spec_read(mode, width as nat, ch@) matches Ok(img) && img.pixels == raster_values(raster@),
            Err(e) => spec_read(mode, width as nat, ch@) == Err::<ImageView, ReadError>(e),
        },
{
    let size: usize = T::byte_len();
    let len: usize = ch.len();
    if width == 0 {
        assert(width * mode.size() == 0) by (nonlinear_arith)
            requires
                width == 0,
        ;
        return Err(ReadError::InvalidWidth);
    }
    assert(width * mode.size() >= width) by (nonlinear_arith)
        requires
            width >= 1,
            mode.size() >= 1,
    ;
    if width > usize::MAX / size {
        // A row is longer than any byte string; only no rows at all are a whole number of rows.
        assert(width * size > usize::MAX) by (nonlinear_arith)
            requires
                width > (usize::MAX as int) / (size as int),
                1 <= size <= 16,
        ;
        if len != 0 {
            assert((len as int) % (width * size) != 0) by {
                vstd::arithmetic::div_mod::lemma_small_mod(len as nat, (width * size) as nat);
            }
            return Err(ReadError::InvalidSize);
        }
        let raster = Raster::new_with(width, 0, Vec::new());
        proof {
            let want = spec_read(mode, width as nat, ch@).unwrap().pixels;
            assert(0nat / ((width * size) as nat) == 0);
            assert(width * 0 == 0);
            assert(raster_values(raster@).data =~= want.data);
        }
        return Ok(raster);
    }
    let stride: usize = width * size;
    let height: usize = len / stride;
    if len % stride != 0 {
        return Err(ReadError::InvalidSize);
    }
    proof {
        vstd::arithmetic::div_mod::lemma_fundamental_div_mod(len as int, stride as int);
        assert(width * height * size == stride * height) by (nonlinear_arith)
            requires
                stride == width * size,
        ;
        assert(width * height <= width * height * size) by (nonlinear_arith)
            requires
                size >= 1,
                width * height >= 0,
        ;
        assert(width * height >= 0) by (nonlinear_arith)
            requires
                width >= 0,
                height >= 0,
        ;
    }
    let data: Vec<T> = decode_pixels(ch, width * height);
    let raster = Raster::new_with(width, height, data);
    proof {
        let want = spec_read(mode, width as nat, ch@).unwrap().pixels;
        assert(raster_values(raster@).data =~= want.data);
    }
    Ok(raster)
}

/// Reads an image of `width` pixels a row.
pub fn read(mode: Mode, width: usize, ch: &[u8]) -> (r: Result<ImageData, ReadError>)
    ensures
        match r {
            Ok(img) => spec_read(mode, width as nat, ch@) == Ok::<ImageView, ReadError>(img@),
            Err(e) => spec_read(mode, width as nat, ch@) == Err::<ImageView, ReadError>(e),
        },
{
    match mode {
        Mode::Argb1555 => Ok(ImageData::Argb1555(read_raster::<u16>(mode, width, ch)?)),
        Mode::Argb4444 => Ok(ImageData::Argb4444(read_raster::<u16>(mode, width, ch)?)),
        Mode::Argb8888 => Ok(ImageData::Argb8888(read_raster::<u32>(mode, width, ch)?)),
    }
}

/// The bytes of the elements of a raster, each in `T::size()` bytes.
fn write_raster<T: Pixel>(raster: &Raster<T>) -> (out: Vec<u8>)
    ensures
        out@ == pixel_bytes(raster_values(raster@).data, T::size()),
{
    let pixels: &[T] = raster.as_slice();
    let n: usize = pixels.len();
    let mut copy: Vec<T> = Vec::with_capacity(n);
    let mut i: usize = 0;
    while i < n
        invariant
            i <= n,
            n == pixels@.len(),
            copy@.len() == i,
            forall|k: int| 0 <= k < i ==> #[trigger] copy@[k] == pixels@[k],
        decreases n - i,
    {
        copy.push(pixels[i]);
        i += 1;
    }
    let out = encode_pixels(&copy);
    assert(Seq::new(copy@.len(), |i: int| copy@[i].value()) =~= raster_values(raster@).data);
    out
}

/// The bytes of an image. Every image can be written.
pub fn write(img: &ImageData) -> (out: Vec<u8>)
    ensures
        out@ == spec_write(img@),
{
    match img {
        ImageData::Argb1555(r) => write_raster(r),
        ImageData::Argb4444(r) => write_raster(r),
        ImageData::Argb8888(r) => write_raster(r),
    }
}

/// An image with pixels in every row is read back from its bytes as it was.
pub proof fn lemma_round_trip(img: ImageView)
    requires
        img.pixels.wf(),
        img.pixels.width > 0,
        forall|i: int| 0 <= i < img.pixels.data.len() ==> #[trigger] img.pixels.data[i] < pow256(img.mode.size()),
    ensures
        spec_read(img.mode, img.pixels.width, spec_write(img)) == Ok::<ImageView, ReadError>(img),
{
    let size = img.mode.size();
    let w = img.pixels.width;
    let h = img.pixels.height;
    let s = spec_write(img);
    assert(s.len() == w * h * size);
    assert(w * size > 0) by (nonlinear_arith)
        requires
            w > 0,
            size > 0,
    ;
    assert(w * h * size == h * (w * size)) by (nonlinear_arith);
    vstd::arithmetic::div_mod::lemma_fundamental_div_mod_converse(s.len() as int, (w * size) as int, h as int, 0);
    let read = spec_read(img.mode, w, s).unwrap().pixels;
    assert forall|i: int| 0 <= i < img.pixels.data.len() implies read.data[i] == img.pixels.data[i] by {
        lemma_pixel_bytes(img.pixels.data, size, i);
    }
    assert(read.data =~= img.pixels.data);
}

/// One line of the table of known images: the start of a file name, and the mode
/// and the size of the images whose names start so.
pub struct Known {
    pub prefix: &'static str,
    pub mode: Mode,
    pub width: usize,
    pub height: usize,
}

/// The number of lines in the table of known images.
pub const KNOWN_IMAGES: usize = 71;

/// Line `i` of the table of known images. Lines with longer starts of names stand
/// before lines with shorter ones that they begin with, and the last lines fit
/// every name.
pub open spec fn spec_known(i: int) -> Known {
    if i == 0 {
        Known { prefix: "c_ka", mode: Mode::Argb1555, width: 128, height: 128 }
    } else if i == 1 {
        Known { prefix: "h_ka", mode: Mode::Argb1555, width: 256, height: 256 }
    } else if i == 2 {
        Known { prefix: "c_stch", mode: Mode::Argb8888, width: 512, height: 512 }
    } else if i == 3 {
        Known { prefix: "h_stch", mode: Mode::Argb8888, width: 1024, height: 1024 }
    } else if i == 4 {
        Known { prefix: "cti", mode: Mode::Argb1555, width: 256, height: 256 }
    } else if i == 5 {
        Known { prefix: "bface", mode: Mode::Argb1555, width: 256, height: 256 }
    } else if i == 6 {
        Known { prefix: "hface", mode: Mode::Argb1555, width: 512, height: 512 }
    } else if i == 7 {
        Known { prefix: "m", mode: Mode::Argb4444, width: 1024, height: 1024 }
    } else if i == 8 {
        Known { prefix: "ca", mode: Mode::Argb1555, width: 128, height: 128 }
    } else if i == 9 {
        Known { prefix: "ca", mode: Mode::Argb1555, width: 256, height: 256 }
    } else if i == 10 {
        Known { prefix: "c_note", mode: Mode::Argb1555, width: 768, height: 512 }
    } else if i == 11 {
        Known { prefix: "h_note", mode: Mode::Argb1555, width: 1536, height: 1024 }
    } else if i == 12 {
        Known { prefix: "c_epi", mode: Mode::Argb4444, width: 208, height: 176 }
    } else if i == 13 {
        Known { prefix: "h_epi", mode: Mode::Argb4444, width: 416, height: 352 }
    } else if i == 14 {
        Known { prefix: "c_orb", mode: Mode::Argb1555, width: 512, height: 512 }
    } else if i == 15 {
        Known { prefix: "c_subti", mode: Mode::Argb8888, width: 256, height: 256 }
    } else if i == 16 {
        Known { prefix: "h_subti", mode: Mode::Argb8888, width: 512, height: 512 }
    } else if i == 17 {
        Known { prefix: "c_mnbg01", mode: Mode::Argb4444, width: 128, height: 128 }
    } else if i == 18 {
        Known { prefix: "c_tuto20", mode: Mode::Argb4444, width: 768, height: 512 }
    } else if i == 19 {
        Known { prefix: "c_map00", mode: Mode::Argb1555, width: 1024, height: 512 }
    } else if i == 20 {
        Known { prefix: "c_map00", mode: Mode::Argb1555, width: 768, height: 512 }
    } else if i == 21 {
        Known { prefix: "c_map012", mode: Mode::Argb1555, width: 1024, height: 512 }
    } else if i == 22 {
        Known { prefix: "c_map01", mode: Mode::Argb4444, width: 1024, height: 512 }
    } else if i == 23 {
        Known { prefix: "h_map01", mode: Mode::Argb4444, width: 2048, height: 1024 }
    } else if i == 24 {
        Known { prefix: "c_camp01", mode: Mode::Argb4444, width: 256, height: 256 }
    } else if i == 25 {
        Known { prefix: "h_camp01", mode: Mode::Argb4444, width: 512, height: 512 }
    } else if i == 26 {
        Known { prefix: "c_camp02", mode: Mode::Argb1555, width: 256, height: 256 }
    } else if i == 27 {
        Known { prefix: "h_camp02", mode: Mode::Argb1555, width: 512, height: 512 }
    } else if i == 28 {
        Known { prefix: "c_camp03", mode: Mode::Argb1555, width: 256, height: 256 }
    } else if i == 29 {
        Known { prefix: "h_camp03", mode: Mode::Argb1555, width: 512, height: 512 }
    } else if i == 30 {
        Known { prefix: "c_camp04", mode: Mode::Argb4444, width: 256, height: 256 }
    } else if i == 31 {
        Known { prefix: "h_camp04", mode: Mode::Argb4444, width: 512, height: 512 }
    } else if i == 32 {
        Known { prefix: "c_camp05", mode: Mode::Argb4444, width: 256, height: 256 }
    } else if i == 33 {
        Known { prefix: "h_camp05", mode: Mode::Argb4444, width: 512, height: 512 }
    } else if i == 34 {
        Known { prefix: "c_back", mode: Mode::Argb1555, width: 768, height: 512 }
    } else if i == 35 {
        Known { prefix: "w_back", mode: Mode::Argb1555, width: 1024, height: 512 }
    } else if i == 36 {
        Known { prefix: "c_title0", mode: Mode::Argb1555, width: 1024, height: 512 }
    } else if i == 37 {
        Known { prefix: "c_title1", mode: Mode::Argb4444, width: 512, height: 512 }
    } else if i == 38 {
        Known { prefix: "h_title1", mode: Mode::Argb4444, width: 1024, height: 1024 }
    } else if i == 39 {
        Known { prefix: "c_title2", mode: Mode::Argb4444, width: 1024, height: 512 }
    } else if i == 40 {
        Known { prefix: "c_title3", mode: Mode::Argb4444, width: 512, height: 512 }
    } else if i == 41 {
        Known { prefix: "c_title4", mode: Mode::Argb4444, width: 1024, height: 512 }
    } else if i == 42 {
        Known { prefix: "c_title5", mode: Mode::Argb1555, width: 1024, height: 512 }
    } else if i == 43 {
        Known { prefix: "c_title6", mode: Mode::Argb1555, width: 1024, height: 512 }
    } else if i == 44 {
        Known { prefix: "c_book", mode: Mode::Argb1555, width: 768, height: 512 }
    } else if i == 45 {
        Known { prefix: "c_cook", mode: Mode::Argb1555, width: 512, height: 512 }
    } else if i == 46 {
        Known { prefix: "c_raback", mode: Mode::Argb1555, width: 1024, height: 512 }
    } else if i == 47 {
        Known { prefix: "c_encnt1", mode: Mode::Argb1555, width: 768, height: 512 }
    } else if i == 48 {
        Known { prefix: "c_gameov", mode: Mode::Argb1555, width: 768, height: 512 }
    } else if i == 49 {
        Known { prefix: "c_vis419", mode: Mode::Argb4444, width: 768, height: 512 }
    } else if i == 50 {
        Known { prefix: "c_vis438", mode: Mode::Argb4444, width: 768, height: 512 }
    } else if i == 51 {
        Known { prefix: "c_vis439", mode: Mode::Argb4444, width: 768, height: 512 }
    } else if i == 52 {
        Known { prefix: "h_vis419", mode: Mode::Argb4444, width: 1536, height: 1024 }
    } else if i == 53 {
        Known { prefix: "h_vis438", mode: Mode::Argb4444, width: 1536, height: 1024 }
    } else if i == 54 {
        Known { prefix: "h_vis439", mode: Mode::Argb4444, width: 1536, height: 1024 }
    } else if i == 55 {
        Known { prefix: "c_vis448", mode: Mode::Argb4444, width: 768, height: 512 }
    } else if i == 56 {
        Known { prefix: "c_vis478", mode: Mode::Argb4444, width: 768, height: 512 }
    } else if i == 57 {
        Known { prefix: "c_vis53", mode: Mode::Argb4444, width: 768, height: 512 }
    } else if i == 58 {
        Known { prefix: "c_vis54", mode: Mode::Argb4444, width: 768, height: 512 }
    } else if i == 59 {
        Known { prefix: "c_vis", mode: Mode::Argb1555, width: 768, height: 512 }
    } else if i == 60 {
        Known { prefix: "c_vis", mode: Mode::Argb1555, width: 256, height: 256 }
    } else if i == 61 {
        Known { prefix: "c_vis", mode: Mode::Argb1555, width: 512, height: 256 }
    } else if i == 62 {
        Known { prefix: "c_vis", mode: Mode::Argb1555, width: 640, height: 304 }
    } else if i == 63 {
        Known { prefix: "c_vis", mode: Mode::Argb1555, width: 128, height: 64 }
    } else if i == 64 {
        Known { prefix: "c_vis", mode: Mode::Argb1555, width: 1024, height: 1024 }
    } else if i == 65 {
        Known { prefix: "h_vis", mode: Mode::Argb1555, width: 1536, height: 1024 }
    } else if i == 66 {
        Known { prefix: "w_vis", mode: Mode::Argb1555, width: 2048, height: 1024 }
    } else if i == 67 {
        Known { prefix: "", mode: Mode::Argb4444, width: 256, height: 256 }
    } else if i == 68 {
        Known { prefix: "", mode: Mode::Argb4444, width: 512, height: 512 }
    } else if i == 69 {
        Known { prefix: "", mode: Mode::Argb4444, width: 768, height: 512 }
    } else {
        Known { prefix: "", mode: Mode::Argb4444, width: 1024, height: 1024 }
    }
}

/// Line `i` of the table of known images.
pub fn known(i: usize) -> (k: Known)
    requires
        i < KNOWN_IMAGES,
    ensures
        k == spec_known(i as int),
        k.width <= 2048,
        k.height <= 1024,
{
    if i == 0 {
        Known { prefix: "c_ka", mode: Mode::Argb1555, width: 128, height: 128 }
    } else if i == 1 {
        Known { prefix: "h_ka", mode: Mode::Argb1555, width: 256, height: 256 }
    } else if i == 2 {
        Known { prefix: "c_stch", mode: Mode::Argb8888, width: 512, height: 512 }
    } else if i == 3 {
        Known { prefix: "h_stch", mode: Mode::Argb8888, width: 1024, height: 1024 }
    } else if i == 4 {
        Known { prefix: "cti", mode: Mode::Argb1555, width: 256, height: 256 }
    } else if i == 5 {
        Known { prefix: "bface", mode: Mode::Argb1555, width: 256, height: 256 }
    } else if i == 6 {
        Known { prefix: "hface", mode: Mode::Argb1555, width: 512, height: 512 }
    } else if i == 7 {
        Known { prefix: "m", mode: Mode::Argb4444, width: 1024, height: 1024 }
    } else if i == 8 {
        Known { prefix: "ca", mode: Mode::Argb1555, width: 128, height: 128 }
    } else if i == 9 {
        Known { prefix: "ca", mode: Mode::Argb1555, width: 256, height: 256 }
    } else if i == 10 {
        Known { prefix: "c_note", mode: Mode::Argb1555, width: 768, height: 512 }
    } else if i == 11 {
        Known { prefix: "h_note", mode: Mode::Argb1555, width: 1536, height: 1024 }
    } else if i == 12 {
        Known { prefix: "c_epi", mode: Mode::Argb4444, width: 208, height: 176 }
    } else if i == 13 {
        Known { prefix: "h_epi", mode: Mode::Argb4444, width: 416, height: 352 }
    } else if i == 14 {
        Known { prefix: "c_orb", mode: Mode::Argb1555, width: 512, height: 512 }
    } else if i == 15 {
        Known { prefix: "c_subti", mode: Mode::Argb8888, width: 256, height: 256 }
    } else if i == 16 {
        Known { prefix: "h_subti", mode: Mode::Argb8888, width: 512, height: 512 }
    } else if i == 17 {
        Known { prefix: "c_mnbg01", mode: Mode::Argb4444, width: 128, height: 128 }
    } else if i == 18 {
        Known { prefix: "c_tuto20", mode: Mode::Argb4444, width: 768, height: 512 }
    } else if i == 19 {
        Known { prefix: "c_map00", mode: Mode::Argb1555, width: 1024, height: 512 }
    } else if i == 20 {
        Known { prefix: "c_map00", mode: Mode::Argb1555, width: 768, height: 512 }
    } else if i == 21 {
        Known { prefix: "c_map012", mode: Mode::Argb1555, width: 1024, height: 512 }
    } else if i == 22 {
        Known { prefix: "c_map01", mode: Mode::Argb4444, width: 1024, height: 512 }
    } else if i == 23 {
        Known { prefix: "h_map01", mode: Mode::Argb4444, width: 2048, height: 1024 }
    } else if i == 24 {
        Known { prefix: "c_camp01", mode: Mode::Argb4444, width: 256, height: 256 }
    } else if i == 25 {
        Known { prefix: "h_camp01", mode: Mode::Argb4444, width: 512, height: 512 }
    } else if i == 26 {
        Known { prefix: "c_camp02", mode: Mode::Argb1555, width: 256, height: 256 }
    } else if i == 27 {
        Known { prefix: "h_camp02", mode: Mode::Argb1555, width: 512, height: 512 }
    } else if i == 28 {
        Known { prefix: "c_camp03", mode: Mode::Argb1555, width: 256, height: 256 }
    } else if i == 29 {
        Known { prefix: "h_camp03", mode: Mode::Argb1555, width: 512, height: 512 }
    } else if i == 30 {
        Known { prefix: "c_camp04", mode: Mode::Argb4444, width: 256, height: 256 }
    } else if i == 31 {
        Known { prefix: "h_camp04", mode: Mode::Argb4444, width: 512, height: 512 }
    } else if i == 32 {
        Known { prefix: "c_camp05", mode: Mode::Argb4444, width: 256, height: 256 }
    } else if i == 33 {
        Known { prefix: "h_camp05", mode: Mode::Argb4444, width: 512, height: 512 }
    } else if i == 34 {
        Known { prefix: "c_back", mode: Mode::Argb1555, width: 768, height: 512 }
    } else if i == 35 {
        Known { prefix: "w_back", mode: Mode::Argb1555, width: 1024, height: 512 }
    } else if i == 36 {
        Known { prefix: "c_title0", mode: Mode::Argb1555, width: 1024, height: 512 }
    } else if i == 37 {
        Known { prefix: "c_title1", mode: Mode::Argb4444, width: 512, height: 512 }
    } else if i == 38 {
        Known { prefix: "h_title1", mode: Mode::Argb4444, width: 1024, height: 1024 }
    } else if i == 39 {
        Known { prefix: "c_title2", mode: Mode::Argb4444, width: 1024, height: 512 }
    } else if i == 40 {
        Known { prefix: "c_title3", mode: Mode::Argb4444, width: 512, height: 512 }
    } else if i == 41 {
        Known { prefix: "c_title4", mode: Mode::Argb4444, width: 1024, height: 512 }
    } else if i == 42 {
        Known { prefix: "c_title5", mode: Mode::Argb1555, width: 1024, height: 512 }
    } else if i == 43 {
        Known { prefix: "c_title6", mode: Mode::Argb1555, width: 1024, height: 512 }
    } else if i == 44 {
        Known { prefix: "c_book", mode: Mode::Argb1555, width: 768, height: 512 }
    } else if i == 45 {
        Known { prefix: "c_cook", mode: Mode::Argb1555, width: 512, height: 512 }
    } else if i == 46 {
        Known { prefix: "c_raback", mode: Mode::Argb1555, width: 1024, height: 512 }
    } else if i == 47 {
        Known { prefix: "c_encnt1", mode: Mode::Argb1555, width: 768, height: 512 }
    } else if i == 48 {
        Known { prefix: "c_gameov", mode: Mode::Argb1555, width: 768, height: 512 }
    } else if i == 49 {
        Known { prefix: "c_vis419", mode: Mode::Argb4444, width: 768, height: 512 }
    } else if i == 50 {
        Known { prefix: "c_vis438", mode: Mode::Argb4444, width: 768, height: 512 }
    } else if i == 51 {
        Known { prefix: "c_vis439", mode: Mode::Argb4444, width: 768, height: 512 }
    } else if i == 52 {
        Known { prefix: "h_vis419", mode: Mode::Argb4444, width: 1536, height: 1024 }
    } else if i == 53 {
        Known { prefix: "h_vis438", mode: Mode::Argb4444, width: 1536, height: 1024 }
    } else if i == 54 {
        Known { prefix: "h_vis439", mode: Mode::Argb4444, width: 1536, height: 1024 }
    } else if i == 55 {
        Known { prefix: "c_vis448", mode: Mode::Argb4444, width: 768, height: 512 }
    } else if i == 56 {
        Known { prefix: "c_vis478", mode: Mode::Argb4444, width: 768, height: 512 }
    } else if i == 57 {
        Known { prefix: "c_vis53", mode: Mode::Argb4444, width: 768, height: 512 }
    } else if i == 58 {
        Known { prefix: "c_vis54", mode: Mode::Argb4444, width: 768, height: 512 }
    } else if i == 59 {
        Known { prefix: "c_vis", mode: Mode::Argb1555, width: 768, height: 512 }
    } else if i == 60 {
        Known { prefix: "c_vis", mode: Mode::Argb1555, width: 256, height: 256 }
    } else if i == 61 {
        Known { prefix: "c_vis", mode: Mode::Argb1555, width: 512, height: 256 }
    } else if i == 62 {
        Known { prefix: "c_vis", mode: Mode::Argb1555, width: 640, height: 304 }
    } else if i == 63 {
        Known { prefix: "c_vis", mode: Mode::Argb1555, width: 128, height: 64 }
    } else if i == 64 {
        Known { prefix: "c_vis", mode: Mode::Argb1555, width: 1024, height: 1024 }
    } else if i == 65 {
        Known { prefix: "h_vis", mode: Mode::Argb1555, width: 1536, height: 1024 }
    } else if i == 66 {
        Known { prefix: "w_vis", mode: Mode::Argb1555, width: 2048, height: 1024 }
    } else if i == 67 {
        Known { prefix: "", mode: Mode::Argb4444, width: 256, height: 256 }
    } else if i == 68 {
        Known { prefix: "", mode: Mode::Argb4444, width: 512, height: 512 }
    } else if i == 69 {
        Known { prefix: "", mode: Mode::Argb4444, width: 768, height: 512 }
    } else {
        Known { prefix: "", mode: Mode::Argb4444, width: 1024, height: 1024 }
    }
}

/// `name` starts with `prefix`.
pub open spec fn starts_with(name: Seq<u8>, prefix: Seq<u8>) -> bool {
    prefix.len() <= name.len() && name.subrange(0, prefix.len() as int) == prefix
}

/// Whether `name` begins with `prefix`.
fn has_prefix(name: &[u8], prefix: &[u8]) -> (b: bool)
    ensures
        b == starts_with(name@, prefix@),
{
    let n: usize = prefix.len();
    if n > name.len() {
        return false;
    }
    let mut i: usize = 0;
    while i < n
        invariant
            i <= n,
            n == prefix@.len(),
            n <= name@.len(),
            forall|k: int| 0 <= k < i ==> name@[k] == prefix@[k],
        decreases n - i,
    {
        if name[i] != prefix[i] {
            assert(name@.subrange(0, n as int)[i as int] != prefix@[i as int]);
            return false;
        }
        i += 1;
    }
    assert(name@.subrange(0, n as int) =~= prefix@);
    true
}

/// The first line of the table from line `i` on that fits the name `name` and an
/// image of `bytes` bytes.
pub open spec fn first_of_byte_size(name: Seq<u8>, bytes: int, i: int) -> Option<Known>
    decreases KNOWN_IMAGES - i,
{
    if i >= KNOWN_IMAGES {
        None
    } else if starts_with(name, spec_known(i).prefix.spec_bytes()) && bytes == spec_known(i).width * spec_known(
        i,
    ).height * spec_known(i).mode.size() {
        Some(spec_known(i))
    } else {
        first_of_byte_size(name, bytes, i + 1)
    }
}

/// The first line of the table from line `i` on that fits the name `name` and an
/// image of `w` by `h` pixels.
pub open spec fn first_of_image_size(name: Seq<u8>, w: int, h: int, i: int) -> Option<Known>
    decreases KNOWN_IMAGES - i,
{
    if i >= KNOWN_IMAGES {
        None
    } else if starts_with(name, spec_known(i).prefix.spec_bytes()) && w == spec_known(i).width && h == spec_known(
        i,
    ).height {
        Some(spec_known(i))
    } else {
        first_of_image_size(name, w, h, i + 1)
    }
}

/// The mode and the size of the image in a file of the name `name` and of `bytes`
/// bytes, by the table of known images.
pub fn guess_from_byte_size(name: &str, bytes: usize) -> (r: Option<(Mode, usize, usize)>)
    ensures
        match first_of_byte_size(name.spec_bytes(), bytes as int, 0) {
            Some(k) => r == Some((k.mode, k.width, k.height)),
            None => r is None,
        },
{
    let raw = name.as_bytes();
    let mut i: usize = 0;
    while i < KNOWN_IMAGES
        invariant
            i <= KNOWN_IMAGES,
            raw@ == name.spec_bytes(),
            first_of_byte_size(name.spec_bytes(), bytes as int, 0) == first_of_byte_size(
                name.spec_bytes(),
                bytes as int,
                i as int,
            ),
        decreases KNOWN_IMAGES - i,
    {
        let k = known(i);
        assert(k.width * k.height <= 2048 * 1024) by (nonlinear_arith)
            requires
                0 <= k.width <= 2048,
                0 <= k.height <= 1024,
        ;
        let pixels: usize = k.width * k.height;
        let size: usize = k.mode.bytes_per();
        assert(pixels * size <= 2048 * 1024 * 4) by (nonlinear_arith)
            requires
                0 <= pixels <= 2048 * 1024,
                0 <= size <= 4,
        ;
        if has_prefix(raw, k.prefix.as_bytes()) && bytes == pixels * size {
            return Some((k.mode, k.width, k.height));
        }
        i += 1;
    }
    None
}

/// The mode of the image of `w` by `h` pixels in a file of the name `name`, by the
/// table of known images.
pub fn guess_from_image_size(name: &str, w: usize, h: usize) -> (r: Option<Mode>)
    ensures
        match first_of_image_size(name.spec_bytes(), w as int, h as int, 0) {
            Some(k) => r == Some(k.mode),
            None => r is None,
        },
{
    let raw = name.as_bytes();
    let mut i: usize = 0;
    while i < KNOWN_IMAGES
        invariant
            i <= KNOWN_IMAGES,
            raw@ == name.spec_bytes(),
            first_of_image_size(name.spec_bytes(), w as int, h as int, 0) == first_of_image_size(
                name.spec_bytes(),
                w as int,
                h as int,
                i as int,
            ),
        decreases KNOWN_IMAGES - i,
    {
        let k = known(i);
        if has_prefix(raw, k.prefix.as_bytes()) && w == k.width && h == k.height {
            return Some(k.mode);
        }
        i += 1;
    }
    None
}

/// The 32-bit colour of a colour of four bits each of alpha, red, green and blue,
/// from the top: each four bits are doubled to eight.
pub open spec fn spec_from_4444(v: u16) -> u32 {
    argb(
        ((v % 16) * 0x11) as u8,
        (((v / 16) % 16) * 0x11) as u8,
        (((v / 256) % 16) * 0x11) as u8,
        ((v / 4096) * 0x11) as u8,
    )
}

/// The 32-bit colour of a colour of one bit of alpha and five bits each of red,
/// green and blue, from the top: the alpha is all or nothing, the five bits are
/// stretched to eight.
pub open spec fn spec_from_1555(v: u16) -> u32 {
    argb(
        expand5(v as int % 32) as u8,
        expand5((v as int / 32) % 32) as u8,
        expand5((v as int / 1024) % 32) as u8,
        if v >= 0x8000 {
            0xFFu8
        } else {
            0u8
        },
    )
}

/// The colour of four bits each that is nearest below a 32-bit colour: the upper
/// four bits of each byte.
pub open spec fn spec_to_4444(c: u32) -> u16 {
    (channel(c, 0) / 16 + (channel(c, 1) / 16) * 16 + (channel(c, 2) / 16) * 256 + (channel(c, 3) / 16) * 4096) as u16
}

/// The colour of one and five bits each that is nearest below a 32-bit colour:
/// the upper bit of alpha and the upper five bits of red, green and blue.
pub open spec fn spec_to_1555(c: u32) -> u16 {
    (channel(c, 0) / 8 + (channel(c, 1) / 8) * 32 + (channel(c, 2) / 8) * 1024 + (channel(c, 3) / 128) * 32768) as u16
}

/// Widens a colour of four bits a channel to eight bits a channel.
pub fn from_4444(v: u16) -> (c: u32)
    ensures
        c == spec_from_4444(v),
{
    to_argb(
        ((v % 16) * 0x11) as u8,
        (((v / 16) % 16) * 0x11) as u8,
        (((v / 256) % 16) * 0x11) as u8,
        ((v / 4096) * 0x11) as u8,
    )
}

/// Widens a colour of five bits a channel and one of alpha to eight bits a channel.
pub fn from_1555(v: u16) -> (c: u32)
    ensures
        c == spec_from_1555(v),
{
    let b: u16 = v % 32;
    let g: u16 = (v / 32) % 32;
    let r: u16 = (v / 1024) % 32;
    to_argb((b * 8 + b / 4) as u8, (g * 8 + g / 4) as u8, (r * 8 + r / 4) as u8, if v >= 0x8000 { 0xFF } else { 0 })
}

/// Narrows a colour to four bits a channel.
pub fn to_4444(c: u32) -> (v: u16)
    ensures
        v == spec_to_4444(c),
{
    let b: u32 = (c % 0x100) / 16;
    let g: u32 = ((c / 0x100) % 0x100) / 16;
    let r: u32 = ((c / 0x1_0000) % 0x100) / 16;
    let a: u32 = (c / 0x100_0000) / 16;
    (b + g * 16 + r * 256 + a * 4096) as u16
}

/// Narrows a colour to five bits a channel and one of alpha.
pub fn to_1555(c: u32) -> (v: u16)
    ensures
        v == spec_to_1555(c),
{
    let b: u32 = (c % 0x100) / 8;
    let g: u32 = ((c / 0x100) % 0x100) / 8;
    let r: u32 = ((c / 0x1_0000) % 0x100) / 8;
    let a: u32 = (c / 0x100_0000) / 128;
    (b + g * 32 + r * 1024 + a * 32768) as u16
}

/// A colour of four bits each comes back from its 32-bit colour, and so does one
/// of one and five bits each.
pub proof fn lemma_colors_round_trip(v: u16)
    ensures
        spec_to_4444(spec_from_4444(v)) == v,
        spec_to_1555(spec_from_1555(v)) == v,
{
    lemma_4444_round_trip(v);
    lemma_1555_round_trip(v);
}

/// Widening a colour of four bits a channel and narrowing it again gives it back.
proof fn lemma_4444_round_trip(v: u16)
    ensures
        spec_to_4444(spec_from_4444(v)) == v,
{
    let n0 = v as int % 16;
    let n1 = (v as int / 16) % 16;
    let n2 = (v as int / 256) % 16;
    let n3 = v as int / 4096;
    assert(v == n0 + 16 * n1 + 256 * n2 + 4096 * n3);
    let b = (n0 * 0x11) as u8;
    let g = (n1 * 0x11) as u8;
    let r = (n2 * 0x11) as u8;
    let a = (n3 * 0x11) as u8;
    assert(spec_from_4444(v) == argb(b, g, r, a));
    lemma_channels(b, g, r, a);
    assert(b / 16 == n0 && g / 16 == n1 && r / 16 == n2 && a / 16 == n3);
}

/// Widening a colour of five bits a channel and narrowing it again gives it back.
proof fn lemma_1555_round_trip(v: u16)
    ensures
        spec_to_1555(spec_from_1555(v)) == v,
{
    let n0 = v as int % 32;
    let n1 = (v as int / 32) % 32;
    let n2 = (v as int / 1024) % 32;
    let n3 = v as int / 32768;
    assert(v == n0 + 32 * n1 + 1024 * n2 + 32768 * n3);
    let b = expand5(n0) as u8;
    let g = expand5(n1) as u8;
    let r = expand5(n2) as u8;
    let a = if v >= 0x8000 { 0xFFu8 } else { 0u8 };
    assert(spec_from_1555(v) == argb(b, g, r, a));
    lemma_channels(b, g, r, a);
    assert(b / 8 == n0 && g / 8 == n1 && r / 8 == n2 && a / 128 == n3);
}

/// The four bytes of a colour are the bytes that it was made of.
pub proof fn lemma_channels(b: u8, g: u8, r: u8, a: u8)
    ensures
        channel(argb(b, g, r, a), 0) == b,
        channel(argb(b, g, r, a), 1) == g,
        channel(argb(b, g, r, a), 2) == r,
        channel(argb(b, g, r, a), 3) == a,
{
}

/// The 32-bit colour of a pixel of the mode `mode` that holds `v`.
pub open spec fn color_of(mode: Mode, v: nat) -> u32 {
    match mode {
        Mode::Argb1555 => spec_from_1555(v as u16),
        Mode::Argb4444 => spec_from_4444(v as u16),
        Mode::Argb8888 => v as u32,
    }
}

/// The number that a pixel of the mode `mode` holds for a 32-bit colour.
pub open spec fn pixel_of(mode: Mode, c: u32) -> nat {
    match mode {
        Mode::Argb1555 => spec_to_1555(c) as nat,
        Mode::Argb4444 => spec_to_4444(c) as nat,
        Mode::Argb8888 => c as nat,
    }
}

impl ImageView {
    /// The image in 32-bit colour.
    pub open spec fn to_argb32(self) -> RasterView<u32> {
        RasterView {
            width: self.pixels.width,
            height: self.pixels.height,
            data: Seq::new(self.pixels.data.len(), |i: int| color_of(self.mode, self.pixels.data[i])),
        }
    }

    /// The image of the mode `mode` of an image in 32-bit colour.
    pub open spec fn from_argb32(colors: RasterView<u32>, mode: Mode) -> ImageView {
        ImageView {
            mode,
            pixels: RasterView {
                width: colors.width,
                height: colors.height,
                data: Seq::new(colors.data.len(), |i: int| pixel_of(mode, colors.data[i])),
            },
        }
    }
}

impl ImageData {
    /// The image in 32-bit colour.
    pub fn to_argb32(&self) -> (out: Raster<u32>)
        ensures
            out@ == self@.to_argb32(),
    {
        match self {
            ImageData::Argb1555(r) => {
                let pixels: &[u16] = r.as_slice();
                let n: usize = pixels.len();
                let mut data: Vec<u32> = Vec::with_capacity(n);
                let mut i: usize = 0;
                while i < n
                    invariant
                        i <= n,
                        n == pixels@.len(),
                        data@.len() == i,
                        forall|k: int| 0 <= k < i ==> #[trigger] data@[k] == spec_from_1555(pixels@[k]),
                    decreases n - i,
                {
                    data.push(from_1555(pixels[i]));
                    i += 1;
                }
                assert(data@ =~= self@.to_argb32().data);
                Raster::new_with(r.width(), r.height(), data)
            },
            ImageData::Argb4444(r) => {
                let pixels: &[u16] = r.as_slice();
                let n: usize = pixels.len();
                let mut data: Vec<u32> = Vec::with_capacity(n);
                let mut i: usize = 0;
                while i < n
                    invariant
                        i <= n,
                        n == pixels@.len(),
                        data@.len() == i,
                        forall|k: int| 0 <= k < i ==> #[trigger] data@[k] == spec_from_4444(pixels@[k]),
                    decreases n - i,
                {
                    data.push(from_4444(pixels[i]));
                    i += 1;
                }
                assert(data@ =~= self@.to_argb32().data);
                Raster::new_with(r.width(), r.height(), data)
            },
            ImageData::Argb8888(r) => {
                let out = crate::itp_png::copy_raster(r);
                assert(out@.data =~= self@.to_argb32().data);
                out
            },
        }
    }

    /// The image of the mode `mode` of an image in 32-bit colour.
    pub fn from_argb32(colors: &Raster<u32>, mode: Mode) -> (out: ImageData)
        ensures
            out@ == ImageView::from_argb32(colors@, mode),
    {
        let pixels: &[u32] = colors.as_slice();
        let n: usize = pixels.len();
        match mode {
            Mode::Argb8888 => {
                let out = crate::itp_png::copy_raster(colors);
                assert(raster_values(out@).data =~= ImageView::from_argb32(colors@, mode).pixels.data);
                ImageData::Argb8888(out)
            },
            _ => {
                let mut data: Vec<u16> = Vec::with_capacity(n);
                let mut i: usize = 0;
                while i < n
                    invariant
                        i <= n,
                        n == pixels@.len(),
                        mode != Mode::Argb8888,
                        data@.len() == i,
                        forall|k: int| 0 <= k < i ==> (#[trigger] data@[k]) as nat == pixel_of(mode, pixels@[k]),
                    decreases n - i,
                {
                    data.push(
                        match mode {
                            Mode::Argb1555 => to_1555(pixels[i]),
                            _ => to_4444(pixels[i]),
                        },
                    );
                    i += 1;
                }
                let out = Raster::new_with(colors.width(), colors.height(), data);
                assert(raster_values(out@).data =~= ImageView::from_argb32(colors@, mode).pixels.data);
                match mode {
                    Mode::Argb1555 => ImageData::Argb1555(out),
                    _ => ImageData::Argb4444(out),
                }
            },
        }
    }
}

/// The PNG image of an image: one frame of 32-bit colour.
pub fn ch_to_png(ch: &ImageData) -> (png: Png)
    ensures
        png@ == PngView::Argb32(seq![ch@.to_argb32()]),
{
    let mut frames: Vec<Raster<u32>> = Vec::new();
    frames.push(ch.to_argb32());
    assert(crate::png::views(frames@) =~= seq![ch@.to_argb32()]);
    Png::Argb32(frames)
}

/// Why an ITP image is no headerless image.
#[derive(Debug, Clone, Copy, PartialEq, Eq, Structural)]
pub enum ConvertError {
    /// The image is neither 32-bit colour nor indexed with its own palette, or it
    /// has another number of mip levels than one.
    UnsupportedInput,
}

/// A level of numbers as palette indices.
pub open spec fn indices(level: RasterView<nat>) -> RasterView<u8> {
    RasterView { width: level.width, height: level.height, data: Seq::new(level.data.len(), |i: int| level.data[i] as u8) }
}

/// A level of numbers as 32-bit colours.
pub open spec fn colors(level: RasterView<nat>) -> RasterView<u32> {
    RasterView { width: level.width, height: level.height, data: Seq::new(level.data.len(), |i: int| level.data[i] as u32) }
}

/// The headerless image of the mode `mode` of an ITP image of one mip level, of
/// 32-bit colour or of indexed pixels with their own palette. An index that names
/// no colour gives no colour at all.
pub open spec fn spec_itp_to_ch(mode: Mode, itp: ItpView) -> Result<ImageView, ConvertError> {
    if itp.image.levels.len() != 1 {
        Err(ConvertError::UnsupportedInput)
    } else {
        match (itp.image.kind, itp.image.palette) {
            (PixelKind::Argb32, _) => Ok(ImageView::from_argb32(colors(itp.image.levels[0]), mode)),
            (PixelKind::Indexed, Some(PaletteView::Embedded(pal))) => Ok(
                ImageView::from_argb32(looked_up_or_zero(indices(itp.image.levels[0]), pal), mode),
            ),
            _ => Err(ConvertError::UnsupportedInput),
        }
    }
}

/// Converts an ITP image to a headerless image of the mode `mode`.
pub fn itp_to_ch(mode: Mode, itp: &Itp) -> (r: Result<ImageData, ConvertError>)
    ensures
        match r {
            Ok(ch) => spec_itp_to_ch(mode, itp@) == Ok::<ImageView, ConvertError>(ch@),
            Err(e) => spec_itp_to_ch(mode, itp@) == Err::<ImageView, ConvertError>(e),
        },
{
    match &itp.data {
        ItpImageData::Argb32(data) => {
            if data.len() != 1 {
                return Err(ConvertError::UnsupportedInput);
            }
            assert(data@[0]@.data =~= colors(itp@.image.levels[0]).data);
            Ok(ImageData::from_argb32(&data[0], mode))
        },
        ItpImageData::Indexed(Palette::Embedded(pal), data) => {
            if data.len() != 1 {
                return Err(ConvertError::UnsupportedInput);
            }
            assert(data@[0]@.data =~= indices(itp@.image.levels[0]).data);
            let looked = crate::itp_png::look_up_or_zero(&data[0], pal);
            Ok(ImageData::from_argb32(&looked, mode))
        },
        _ => Err(ConvertError::UnsupportedInput),
    }
}

/// The masks of alpha, red, green and blue of a mode.
pub open spec fn masks(mode: Mode) -> (u32, u32, u32, u32) {
    match mode {
        Mode::Argb1555 => (0x8000, 0x7C00, 0x03E0, 0x001F),
        Mode::Argb4444 => (0xF000, 0x0F00, 0x00F0, 0x000F),
        Mode::Argb8888 => (0xFF000000, 0x00FF0000, 0x0000FF00, 0x000000FF),
    }
}

/// The lowest 32 bits of `n`.
pub open spec fn low32(n: nat) -> u32 {
    (n % 0x1_0000_0000) as u32
}

/// The header of the DDS file of an image: the default header with the
/// dimensions, the masks of the mode, and the number of bits of a pixel.
pub open spec fn dds_header_of(img: ImageView) -> DdsView {
    DdsView {
        width: low32(img.pixels.width),
        height: low32(img.pixels.height),
        pixel_format: PixelFormatView {
            a_bit_mask: masks(img.mode).0,
            r_bit_mask: masks(img.mode).1,
            g_bit_mask: masks(img.mode).2,
            b_bit_mask: masks(img.mode).3,
            rgb_bit_count: (8 * img.mode.size()) as u32,
            ..PixelFormatView::default_view()
        },
        ..DdsView::default_view()
    }
}

/// The DDS file of an image: the header, and the pixels as they are.
pub fn ch_to_dds(ch: &ImageData) -> (out: Vec<u8>)
    ensures
        out@ == dds_header_of(ch@).bytes() + spec_write(ch@),
{
    let (mode, width, height) = match ch {
        ImageData::Argb1555(r) => (Mode::Argb1555, r.width(), r.height()),
        ImageData::Argb4444(r) => (Mode::Argb4444, r.width(), r.height()),
        ImageData::Argb8888(r) => (Mode::Argb8888, r.width(), r.height()),
    };
    let (a, r, g, b): (u32, u32, u32, u32) = match mode {
        Mode::Argb1555 => (0x8000, 0x7C00, 0x03E0, 0x001F),
        Mode::Argb4444 => (0xF000, 0x0F00, 0x00F0, 0x000F),
        Mode::Argb8888 => (0xFF000000, 0x00FF0000, 0x0000FF00, 0x000000FF),
    };
    let plain = Dds::default();
    let header = Dds {
        flags: plain.flags,
        height: crate::itp::write::to_low32(height as u128),
        width: crate::itp::write::to_low32(width as u128),
        pitch: plain.pitch,
        depth: plain.depth,
        mip_map_count: plain.mip_map_count,
        reserved: plain.reserved,
        pixel_format: PixelFormat {
            flags: plain.pixel_format.flags,
            four_cc: plain.pixel_format.four_cc,
            rgb_bit_count: 8 * mode.bytes_per() as u32,
            r_bit_mask: r,
            g_bit_mask: g,
            b_bit_mask: b,
            a_bit_mask: a,
        },
        caps: plain.caps,
        reserved2: plain.reserved2,
        dx10: None,
    };
    assert(header@ == dds_header_of(ch@));
    let mut out: Vec<u8> = Vec::new();
    header.write(&mut out);
    let mut pixels = write(ch);
    out.append(&mut pixels);
    out
}

} // verus!
