//! The ITP image container: its in-memory model, and its three on-disk revisions.

use crate::bytes::Pixel;
use crate::raster::{Raster, RasterView};
use vstd::prelude::*;

pub mod ccpi;
pub mod compress;
pub mod fast_mode;
pub mod flags;
pub mod read;
pub mod round_trip;
pub mod write;

pub use read::ReadError;
pub use write::WriteError;

verus! {

/// Which of the three on-disk layouts a file uses.
#[derive(Debug, Clone, Copy, PartialEq, Eq, Structural, PartialOrd, Ord, Hash, Default)]
pub enum ItpRevision {
    /// A fixed numeric header code, `999 ..= 1006`.
    V1,
    /// A header of bit flags.
    V2,
    /// A stream of tagged chunks.
    #[default]
    V3,
}

/// How a pixel is encoded: as a palette index, as a colour, or in blocks.
#[derive(Debug, Clone, Copy, PartialEq, Eq, Structural, PartialOrd, Ord, Hash, Default)]
pub enum BaseFormatType {
    /// 256 colours.
    Indexed1,
    /// Per-tile local palettes, nibble-packed.
    Indexed2,
    /// Tile dictionary.
    Indexed3,
    /// 16-bit colour.
    Argb16,
    /// 32-bit colour.
    #[default]
    Argb32,
    Bc1,
    Bc2,
    Bc3,
    Bc7,
}

/// The width and kind of the elements that are stored.
#[allow(non_camel_case_types)]
#[derive(Debug, Clone, Copy, PartialEq, Eq, Structural, PartialOrd, Ord, Hash, Default)]
pub enum PixelBitFormatType {
    Indexed,
    Argb16_1,
    Argb16_2,
    Argb16_3,
    #[default]
    Argb32,
    Compressed,
}

/// The order in which the elements of a level are stored.
#[allow(non_camel_case_types)]
#[derive(Debug, Clone, Copy, PartialEq, Eq, Structural, PartialOrd, Ord, Hash, Default)]
pub enum PixelFormatType {
    #[default]
    Linear,
    /// Tiles of 8 rows by 16 columns.
    Pfp_1,
    /// Tiles of 32 by 32.
    Pfp_2,
    /// Z-order.
    Pfp_3,
    /// Z-order inside strips of 8 rows.
    Pfp_4,
}

/// How stored data is compressed.
#[allow(non_camel_case_types)]
#[derive(Debug, Clone, Copy, PartialEq, Eq, Structural, PartialOrd, Ord, Hash, Default)]
pub enum CompressionType {
    #[default]
    Uncompressed,
    Bz_1,
    Bz_2,
    C77,
}

/// The number of planes; the format knows one.
#[derive(Debug, Clone, Copy, PartialEq, Eq, Structural, PartialOrd, Ord, Hash, Default)]
pub enum MultiPlaneType {
    #[default]
    SinglePlane,
}

/// Whether the image has mipmaps, and of which kind.
#[allow(non_camel_case_types)]
#[derive(Debug, Clone, Copy, PartialEq, Eq, Structural, PartialOrd, Ord, Hash, Default)]
pub enum MipmapType {
    #[default]
    NoMipmap,
    Mipmap_1,
    Mipmap_2,
}

/// The layout of a 16-bit colour.
#[derive(Debug, Clone, Copy, PartialEq, Eq, Structural, Hash)]
pub enum Argb16Mode {
    Mode1,
    Mode2,
    Mode3,
}

impl ItpRevision {
    /// The number that stands for the revision in a revision-3 header.
    pub open spec fn code(self) -> u16 {
        match self {
            ItpRevision::V1 => 1,
            ItpRevision::V2 => 2,
            ItpRevision::V3 => 3,
        }
    }

    /// The value that a number stands for in a file, if it stands for one.
    pub open spec fn from_code(v: u16) -> Option<Self> {
        if v == 1 {
            Some(ItpRevision::V1)
        } else if v == 2 {
            Some(ItpRevision::V2)
        } else if v == 3 {
            Some(ItpRevision::V3)
        } else {
            None
        }
    }

    /// The number that stands for the value in a file.
    pub fn to_u16(self) -> (v: u16)
        ensures
            v == self.code(),
            Self::from_code(v) == Some(self),
    {
        match self {
            ItpRevision::V1 => 1,
            ItpRevision::V2 => 2,
            ItpRevision::V3 => 3,
        }
    }

    /// The value that a number stands for in a file, if it stands for one.
    pub fn from_u16(v: u16) -> (r: Option<Self>)
        ensures
            r == Self::from_code(v),
    {
        match v {
            1 => Some(ItpRevision::V1),
            2 => Some(ItpRevision::V2),
            3 => Some(ItpRevision::V3),
            _ => None,
        }
    }
}

impl BaseFormatType {
    /// The number that stands for the value in a file.
    pub open spec fn code(self) -> u16 {
        match self {
            BaseFormatType::Indexed1 => 0,
            BaseFormatType::Indexed2 => 1,
            BaseFormatType::Indexed3 => 2,
            BaseFormatType::Argb16 => 4,
            BaseFormatType::Argb32 => 5,
            BaseFormatType::Bc1 => 6,
            BaseFormatType::Bc2 => 7,
            BaseFormatType::Bc3 => 8,
            BaseFormatType::Bc7 => 10,
        }
    }

    /// The value that a number stands for in a file, if it stands for one.
    pub open spec fn from_code(v: u16) -> Option<Self> {
        if v == 0 {
            Some(BaseFormatType::Indexed1)
        } else if v == 1 {
            Some(BaseFormatType::Indexed2)
        } else if v == 2 {
            Some(BaseFormatType::Indexed3)
        } else if v == 4 {
            Some(BaseFormatType::Argb16)
        } else if v == 5 {
            Some(BaseFormatType::Argb32)
        } else if v == 6 {
            Some(BaseFormatType::Bc1)
        } else if v == 7 {
            Some(BaseFormatType::Bc2)
        } else if v == 8 {
            Some(BaseFormatType::Bc3)
        } else if v == 10 {
            Some(BaseFormatType::Bc7)
        } else {
            None
        }
    }

    /// The number that stands for the value in a file.
    pub fn to_u16(self) -> (v: u16)
        ensures
            v == self.code(),
            Self::from_code(v) == Some(self),
    {
        match self {
            BaseFormatType::Indexed1 => 0,
            BaseFormatType::Indexed2 => 1,
            BaseFormatType::Indexed3 => 2,
            BaseFormatType::Argb16 => 4,
            BaseFormatType::Argb32 => 5,
            BaseFormatType::Bc1 => 6,
            BaseFormatType::Bc2 => 7,
            BaseFormatType::Bc3 => 8,
            BaseFormatType::Bc7 => 10,
        }
    }

    /// The value that a number stands for in a file, if it stands for one.
    pub fn from_u16(v: u16) -> (r: Option<Self>)
        ensures
            r == Self::from_code(v),
    {
        match v {
            0 => Some(BaseFormatType::Indexed1),
            1 => Some(BaseFormatType::Indexed2),
            2 => Some(BaseFormatType::Indexed3),
            4 => Some(BaseFormatType::Argb16),
            5 => Some(BaseFormatType::Argb32),
            6 => Some(BaseFormatType::Bc1),
            7 => Some(BaseFormatType::Bc2),
            8 => Some(BaseFormatType::Bc3),
            10 => Some(BaseFormatType::Bc7),
            _ => None,
        }
    }
}

impl PixelBitFormatType {
    /// The number that stands for the value in a file.
    pub open spec fn code(self) -> u16 {
        match self {
            PixelBitFormatType::Indexed => 0,
            PixelBitFormatType::Argb16_1 => 1,
            PixelBitFormatType::Argb16_2 => 2,
            PixelBitFormatType::Argb16_3 => 3,
            PixelBitFormatType::Argb32 => 5,
            PixelBitFormatType::Compressed => 6,
        }
    }

    /// The value that a number stands for in a file, if it stands for one.
    pub open spec fn from_code(v: u16) -> Option<Self> {
        if v == 0 {
            Some(PixelBitFormatType::Indexed)
        } else if v == 1 {
            Some(PixelBitFormatType::Argb16_1)
        } else if v == 2 {
            Some(PixelBitFormatType::Argb16_2)
        } else if v == 3 {
            Some(PixelBitFormatType::Argb16_3)
        } else if v == 5 {
            Some(PixelBitFormatType::Argb32)
        } else if v == 6 {
            Some(PixelBitFormatType::Compressed)
        } else {
            None
        }
    }

    /// The number that stands for the value in a file.
    pub fn to_u16(self) -> (v: u16)
        ensures
            v == self.code(),
            Self::from_code(v) == Some(self),
    {
        match self {
            PixelBitFormatType::Indexed => 0,
            PixelBitFormatType::Argb16_1 => 1,
            PixelBitFormatType::Argb16_2 => 2,
            PixelBitFormatType::Argb16_3 => 3,
            PixelBitFormatType::Argb32 => 5,
            PixelBitFormatType::Compressed => 6,
        }
    }

    /// The value that a number stands for in a file, if it stands for one.
    pub fn from_u16(v: u16) -> (r: Option<Self>)
        ensures
            r == Self::from_code(v),
    {
        match v {
            0 => Some(PixelBitFormatType::Indexed),
            1 => Some(PixelBitFormatType::Argb16_1),
            2 => Some(PixelBitFormatType::Argb16_2),
            3 => Some(PixelBitFormatType::Argb16_3),
            5 => Some(PixelBitFormatType::Argb32),
            6 => Some(PixelBitFormatType::Compressed),
            _ => None,
        }
    }
}

impl PixelFormatType {
    /// The number that stands for the value in a file.
    pub open spec fn code(self) -> u16 {
        match self {
            PixelFormatType::Linear => 0,
            PixelFormatType::Pfp_1 => 1,
            PixelFormatType::Pfp_2 => 2,
            PixelFormatType::Pfp_3 => 3,
            PixelFormatType::Pfp_4 => 4,
        }
    }

    /// The value that a number stands for in a file, if it stands for one.
    pub open spec fn from_code(v: u16) -> Option<Self> {
        if v == 0 {
            Some(PixelFormatType::Linear)
        } else if v == 1 {
            Some(PixelFormatType::Pfp_1)
        } else if v == 2 {
            Some(PixelFormatType::Pfp_2)
        } else if v == 3 {
            Some(PixelFormatType::Pfp_3)
        } else if v == 4 {
            Some(PixelFormatType::Pfp_4)
        } else {
            None
        }
    }

    /// The number that stands for the value in a file.
    pub fn to_u16(self) -> (v: u16)
        ensures
            v == self.code(),
            Self::from_code(v) == Some(self),
    {
        match self {
            PixelFormatType::Linear => 0,
            PixelFormatType::Pfp_1 => 1,
            PixelFormatType::Pfp_2 => 2,
            PixelFormatType::Pfp_3 => 3,
            PixelFormatType::Pfp_4 => 4,
        }
    }

    /// The value that a number stands for in a file, if it stands for one.
    pub fn from_u16(v: u16) -> (r: Option<Self>)
        ensures
            r == Self::from_code(v),
    {
        match v {
            0 => Some(PixelFormatType::Linear),
            1 => Some(PixelFormatType::Pfp_1),
            2 => Some(PixelFormatType::Pfp_2),
            3 => Some(PixelFormatType::Pfp_3),
            4 => Some(PixelFormatType::Pfp_4),
            _ => None,
        }
    }
}

impl CompressionType {
    /// The number that stands for the value in a file.
    pub open spec fn code(self) -> u16 {
        match self {
            CompressionType::Uncompressed => 0,
            CompressionType::Bz_1 => 1,
            CompressionType::Bz_2 => 2,
            CompressionType::C77 => 3,
        }
    }

    /// The value that a number stands for in a file, if it stands for one.
    pub open spec fn from_code(v: u16) -> Option<Self> {
        if v == 0 {
            Some(CompressionType::Uncompressed)
        } else if v == 1 {
            Some(CompressionType::Bz_1)
        } else if v == 2 {
            Some(CompressionType::Bz_2)
        } else if v == 3 {
            Some(CompressionType::C77)
        } else {
            None
        }
    }

    /// The number that stands for the value in a file.
    pub fn to_u16(self) -> (v: u16)
        ensures
            v == self.code(),
            Self::from_code(v) == Some(self),
    {
        match self {
            CompressionType::Uncompressed => 0,
            CompressionType::Bz_1 => 1,
            CompressionType::Bz_2 => 2,
            CompressionType::C77 => 3,
        }
    }

    /// The value that a number stands for in a file, if it stands for one.
    pub fn from_u16(v: u16) -> (r: Option<Self>)
        ensures
            r == Self::from_code(v),
    {
        match v {
            0 => Some(CompressionType::Uncompressed),
            1 => Some(CompressionType::Bz_1),
            2 => Some(CompressionType::Bz_2),
            3 => Some(CompressionType::C77),
            _ => None,
        }
    }
}

impl MultiPlaneType {
    /// The number that stands for the value in a file.
    pub open spec fn code(self) -> u16 {
        0
    }

    /// The value that a number stands for in a file, if it stands for one.
    pub open spec fn from_code(v: u16) -> Option<Self> {
        if v == 0 {
            Some(MultiPlaneType::SinglePlane)
        } else {
            None
        }
    }

    /// The number that stands for the value in a file.
    pub fn to_u16(self) -> (v: u16)
        ensures
            v == self.code(),
            Self::from_code(v) == Some(self),
    {
        0
    }

    /// The value that a number stands for in a file, if it stands for one.
    pub fn from_u16(v: u16) -> (r: Option<Self>)
        ensures
            r == Self::from_code(v),
    {
        match v {
            0 => Some(MultiPlaneType::SinglePlane),
            _ => None,
        }
    }
}

impl MipmapType {
    /// The number that stands for the value in a file.
    pub open spec fn code(self) -> u16 {
        match self {
            MipmapType::NoMipmap => 0,
            MipmapType::Mipmap_1 => 1,
            MipmapType::Mipmap_2 => 2,
        }
    }

    /// The value that a number stands for in a file, if it stands for one.
    pub open spec fn from_code(v: u16) -> Option<Self> {
        if v == 0 {
            Some(MipmapType::NoMipmap)
        } else if v == 1 {
            Some(MipmapType::Mipmap_1)
        } else if v == 2 {
            Some(MipmapType::Mipmap_2)
        } else {
            None
        }
    }

    /// The number that stands for the value in a file.
    pub fn to_u16(self) -> (v: u16)
        ensures
            v == self.code(),
            Self::from_code(v) == Some(self),
    {
        match self {
            MipmapType::NoMipmap => 0,
            MipmapType::Mipmap_1 => 1,
            MipmapType::Mipmap_2 => 2,
        }
    }

    /// The value that a number stands for in a file, if it stands for one.
    pub fn from_u16(v: u16) -> (r: Option<Self>)
        ensures
            r == Self::from_code(v),
    {
        match v {
            0 => Some(MipmapType::NoMipmap),
            1 => Some(MipmapType::Mipmap_1),
            2 => Some(MipmapType::Mipmap_2),
            _ => None,
        }
    }
}

/// The revision and the format selectors of an image.
#[derive(Debug, Clone, Copy, PartialEq, Eq, Default)]
pub struct ItpStatus {
    pub itp_revision: ItpRevision,
    pub base_format: BaseFormatType,
    pub compression: CompressionType,
    pub pixel_format: PixelFormatType,
    pub pixel_bit_format: PixelBitFormatType,
    pub multi_plane: MultiPlaneType,
    pub mipmap: MipmapType,
    /// Unspecified, yes or no.
    pub use_alpha: Option<bool>,
}

/// The colours that palette indices stand for.
#[derive(Debug, Clone, PartialEq, Eq)]
pub enum Palette {
    /// ARGB32 colours, in the order of their indices.
    Embedded(Vec<u32>),
    /// The name of a palette kept elsewhere, as the bytes before its terminating zero.
    External(Vec<u8>),
}

/// A palette, as plain values.
pub enum PaletteView {
    Embedded(Seq<u32>),
    External(Seq<u8>),
}

impl View for Palette {
    type V = PaletteView;

    open spec fn view(&self) -> PaletteView {
        match self {
            Palette::Embedded(colors) => PaletteView::Embedded(colors@),
            Palette::External(name) => PaletteView::External(name@),
        }
    }
}

/// The pixels of an image, one raster for each mip level, largest first.
///
/// The block-compressed variants hold one packed 4 by 4 block for each element, so
/// their rasters measure a quarter of the image each way.
#[derive(Debug, Clone, PartialEq, Eq)]
pub enum ImageData {
    Indexed(Palette, Vec<Raster<u8>>),
    Argb16(Argb16Mode, Vec<Raster<u16>>),
    Argb32(Vec<Raster<u32>>),
    Bc1(Vec<Raster<u64>>),
    Bc2(Vec<Raster<u128>>),
    Bc3(Vec<Raster<u128>>),
    Bc7(Vec<Raster<u128>>),
}

/// How the pixels of an image are encoded.
pub enum PixelKind {
    Indexed,
    Argb16(Argb16Mode),
    Argb32,
    Bc1,
    Bc2,
    Bc3,
    Bc7,
}

impl PixelKind {
    /// How many bytes one element takes on disk.
    pub open spec fn size(self) -> nat {
        match self {
            PixelKind::Indexed => 1,
            PixelKind::Argb16(_) => 2,
            PixelKind::Argb32 => 4,
            PixelKind::Bc1 => 8,
            PixelKind::Bc2 => 16,
            PixelKind::Bc3 => 16,
            PixelKind::Bc7 => 16,
        }
    }

    /// How many pixels one element covers each way.
    pub open spec fn scale(self) -> nat {
        match self {
            PixelKind::Bc1 | PixelKind::Bc2 | PixelKind::Bc3 | PixelKind::Bc7 => 4,
            _ => 1,
        }
    }
}

/// What an image is, whatever its element type: the kind of its pixels, its palette
/// if it has one, and for each mip level the numbers that its elements hold.
pub struct ImageView {
    pub kind: PixelKind,
    pub palette: Option<PaletteView>,
    pub levels: Seq<RasterView<nat>>,
}

/// The numbers that the pixels of a raster hold.
pub open spec fn raster_values<T: Pixel>(r: RasterView<T>) -> RasterView<nat> {
    RasterView { width: r.width, height: r.height, data: Seq::new(r.data.len(), |i: int| r.data[i].value()) }
}

/// The numbers that the pixels of each raster hold.
pub open spec fn level_values<T: Pixel>(levels: Seq<Raster<T>>) -> Seq<RasterView<nat>> {
    Seq::new(levels.len(), |i: int| raster_values(levels[i]@))
}

impl View for ImageData {
    type V = ImageView;

    open spec fn view(&self) -> ImageView {
        match self {
            ImageData::Indexed(pal, d) => ImageView {
                kind: PixelKind::Indexed,
                palette: Some(pal@),
                levels: level_values(d@),
            },
            ImageData::Argb16(mode, d) => ImageView {
                kind: PixelKind::Argb16(*mode),
                palette: None,
                levels: level_values(d@),
            },
            ImageData::Argb32(d) => ImageView { kind: PixelKind::Argb32, palette: None, levels: level_values(d@) },
            ImageData::Bc1(d) => ImageView { kind: PixelKind::Bc1, palette: None, levels: level_values(d@) },
            ImageData::Bc2(d) => ImageView { kind: PixelKind::Bc2, palette: None, levels: level_values(d@) },
            ImageData::Bc3(d) => ImageView { kind: PixelKind::Bc3, palette: None, levels: level_values(d@) },
            ImageData::Bc7(d) => ImageView { kind: PixelKind::Bc7, palette: None, levels: level_values(d@) },
        }
    }
}

impl ImageView {
    /// The width of the largest level, in pixels.
    pub open spec fn width(self) -> nat {
        if self.kind.scale() == 4 {
            4 * self.levels[0].width
        } else {
            self.levels[0].width
        }
    }

    /// The height of the largest level, in pixels.
    pub open spec fn height(self) -> nat {
        if self.kind.scale() == 4 {
            4 * self.levels[0].height
        } else {
            self.levels[0].height
        }
    }

    /// The status that describes this image in revision `itp_revision` when nothing
    /// else is asked for: no compression, rows in order, mipmaps marked if there are any.
    pub open spec fn default_status(self, itp_revision: ItpRevision) -> ItpStatus {
        let (base_format, pixel_bit_format) = match self.kind {
            PixelKind::Indexed => (BaseFormatType::Indexed1, PixelBitFormatType::Indexed),
            PixelKind::Argb16(Argb16Mode::Mode1) => (BaseFormatType::Argb16, PixelBitFormatType::Argb16_1),
            PixelKind::Argb16(Argb16Mode::Mode2) => (BaseFormatType::Argb16, PixelBitFormatType::Argb16_2),
            PixelKind::Argb16(Argb16Mode::Mode3) => (BaseFormatType::Argb16, PixelBitFormatType::Argb16_3),
            PixelKind::Argb32 => (BaseFormatType::Argb32, PixelBitFormatType::Argb32),
            PixelKind::Bc1 => (BaseFormatType::Bc1, PixelBitFormatType::Compressed),
            PixelKind::Bc2 => (BaseFormatType::Bc2, PixelBitFormatType::Compressed),
            PixelKind::Bc3 => (BaseFormatType::Bc3, PixelBitFormatType::Compressed),
            PixelKind::Bc7 => (BaseFormatType::Bc7, PixelBitFormatType::Compressed),
        };
        ItpStatus {
            itp_revision,
            base_format,
            compression: CompressionType::Uncompressed,
            pixel_format: PixelFormatType::Linear,
            pixel_bit_format,
            multi_plane: MultiPlaneType::SinglePlane,
            mipmap: if self.levels.len() > 1 {
                MipmapType::Mipmap_1
            } else {
                MipmapType::NoMipmap
            },
            use_alpha: None,
        }
    }
}

impl ImageData {
    /// The width of the largest level, in pixels.
    pub fn width(&self) -> (w: usize)
        requires
            self@.levels.len() > 0,
            self@.width() <= usize::MAX,
        ensures
            w == self@.width(),
    {
        match self {
            ImageData::Indexed(_, d) => d[0].width(),
            ImageData::Argb16(_, d) => d[0].width(),
            ImageData::Argb32(d) => d[0].width(),
            ImageData::Bc1(d) => d[0].width() * 4,
            ImageData::Bc2(d) => d[0].width() * 4,
            ImageData::Bc3(d) => d[0].width() * 4,
            ImageData::Bc7(d) => d[0].width() * 4,
        }
    }

    /// The height of the largest level, in pixels.
    pub fn height(&self) -> (h: usize)
        requires
            self@.levels.len() > 0,
            self@.height() <= usize::MAX,
        ensures
            h == self@.height(),
    {
        match self {
            ImageData::Indexed(_, d) => d[0].height(),
            ImageData::Argb16(_, d) => d[0].height(),
            ImageData::Argb32(d) => d[0].height(),
            ImageData::Bc1(d) => d[0].height() * 4,
            ImageData::Bc2(d) => d[0].height() * 4,
            ImageData::Bc3(d) => d[0].height() * 4,
            ImageData::Bc7(d) => d[0].height() * 4,
        }
    }

    /// The number of mip levels.
    pub fn mipmaps(&self) -> (n: usize)
        ensures
            n == self@.levels.len(),
    {
        match self {
            ImageData::Indexed(_, d) => d.len(),
            ImageData::Argb16(_, d) => d.len(),
            ImageData::Argb32(d) => d.len(),
            ImageData::Bc1(d) => d.len(),
            ImageData::Bc2(d) => d.len(),
            ImageData::Bc3(d) => d.len(),
            ImageData::Bc7(d) => d.len(),
        }
    }
}

impl ItpStatus {
    /// The status that describes `data` in revision `itp_revision` when nothing else
    /// is asked for.
    pub fn default_for(itp_revision: ItpRevision, data: &ImageData) -> (status: ItpStatus)
        ensures
            status == data@.default_status(itp_revision),
    {
        let (base_format, pixel_bit_format) = match data {
            ImageData::Indexed(_, _) => (BaseFormatType::Indexed1, PixelBitFormatType::Indexed),
            ImageData::Argb16(Argb16Mode::Mode1, _) => (BaseFormatType::Argb16, PixelBitFormatType::Argb16_1),
            ImageData::Argb16(Argb16Mode::Mode2, _) => (BaseFormatType::Argb16, PixelBitFormatType::Argb16_2),
            ImageData::Argb16(Argb16Mode::Mode3, _) => (BaseFormatType::Argb16, PixelBitFormatType::Argb16_3),
            ImageData::Argb32(_) => (BaseFormatType::Argb32, PixelBitFormatType::Argb32),
            ImageData::Bc1(_) => (BaseFormatType::Bc1, PixelBitFormatType::Compressed),
            ImageData::Bc2(_) => (BaseFormatType::Bc2, PixelBitFormatType::Compressed),
            ImageData::Bc3(_) => (BaseFormatType::Bc3, PixelBitFormatType::Compressed),
            ImageData::Bc7(_) => (BaseFormatType::Bc7, PixelBitFormatType::Compressed),
        };
        ItpStatus {
            itp_revision,
            base_format,
            compression: CompressionType::Uncompressed,
            pixel_format: PixelFormatType::Linear,
            pixel_bit_format,
            multi_plane: MultiPlaneType::SinglePlane,
            mipmap: if data.mipmaps() > 1 {
                MipmapType::Mipmap_1
            } else {
                MipmapType::NoMipmap
            },
            use_alpha: None,
        }
    }
}

/// A fully decoded image.
#[derive(Debug, Clone, PartialEq, Eq)]
pub struct Itp {
    pub status: ItpStatus,
    pub data: ImageData,
}

/// An image with its status, as plain values.
pub struct ItpView {
    pub status: ItpStatus,
    pub image: ImageView,
}

impl View for Itp {
    type V = ItpView;

    open spec fn view(&self) -> ItpView {
        ItpView { status: self.status, image: self.data@ }
    }
}

impl Itp {
    /// An image of revision `itp_revision` with the default status for `data`.
    pub fn new(itp_revision: ItpRevision, data: ImageData) -> (itp: Itp)
        ensures
            itp@ == (ItpView { status: data@.default_status(itp_revision), image: data@ }),
            itp.data == data,
    {
        Itp { status: ItpStatus::default_for(itp_revision, &data), data }
    }
}

/// The image has no mip level, or its size in pixels is no `usize`.
pub open spec fn has_no_size(itp: ItpView) -> bool {
    itp.image.levels.len() == 0 || itp.image.width() > usize::MAX || itp.image.height() > usize::MAX
}

/// Reads an ITP file of any revision.
pub fn read(f: &[u8]) -> (r: Result<Itp, ReadError>)
    ensures
        match r {
            Ok(itp) => read::spec_read(f@) == Ok::<ItpView, ReadError>(itp@),
            Err(e) => read::spec_read(f@) == Err::<ItpView, ReadError>(e),
        },
{
    read::read(f)
}

/// The width and the height, in pixels, of the image that an ITP file holds.
///
/// The file is read as a whole. An image without a mip level has no size, nor has
/// one whose size is no `usize`; for both the answer is `WrongSize`.
pub fn read_size(f: &[u8]) -> (r: Result<(usize, usize), ReadError>)
    ensures
        match r {
            Ok((w, h)) => read::spec_read(f@) matches Ok(itp) && itp.image.levels.len() > 0 && w == itp.image.width()
                && h == itp.image.height(),
            Err(e) => read::spec_read(f@) == Err::<ItpView, ReadError>(e) || (e == ReadError::WrongSize
                && read::spec_read(f@) is Ok && has_no_size(read::spec_read(f@).unwrap())),
        },
{
    let itp = read::read(f)?;
    if itp.data.mipmaps() == 0 {
        return Err(ReadError::WrongSize);
    }
    let (w, h, blocks): (usize, usize, bool) = match &itp.data {
        ImageData::Indexed(_, d) => (d[0].width(), d[0].height(), false),
        ImageData::Argb16(_, d) => (d[0].width(), d[0].height(), false),
        ImageData::Argb32(d) => (d[0].width(), d[0].height(), false),
        ImageData::Bc1(d) => (d[0].width(), d[0].height(), true),
        ImageData::Bc2(d) => (d[0].width(), d[0].height(), true),
        ImageData::Bc3(d) => (d[0].width(), d[0].height(), true),
        ImageData::Bc7(d) => (d[0].width(), d[0].height(), true),
    };
    if !blocks {
        return Ok((w, h));
    }
    if w > usize::MAX / 4 || h > usize::MAX / 4 {
        return Err(ReadError::WrongSize);
    }
    Ok((w * 4, h * 4))
}

/// Encodes an image as a file of the revision that its status names.
pub fn write(itp: &Itp) -> (r: Result<Vec<u8>, WriteError>)
    ensures
        match r {
            Ok(out) => write::spec_write(itp@) == Ok::<Seq<u8>, WriteError>(out@),
            Err(e) => write::spec_write(itp@) == Err::<Seq<u8>, WriteError>(e),
        },
{
    write::write(itp)
}

} // verus!
