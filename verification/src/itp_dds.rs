//! ITP images as DDS files, and back.

use crate::bytes::{avail, le_at, lemma_pow256_values, Pixel};
use crate::dds::{
    DDPF, Dds, DDSD, DdsView, DX10, Dx10Header, DXGI_FORMAT, PixelFormat, PixelFormatView, ReadError as HeaderError,
};
use crate::itp::{
    ImageData, ImageView, Itp, ItpRevision, ItpView, level_values, Palette, PaletteView, PixelKind, raster_values,
};
use crate::itp::read::{decode_pixels, mip_dim, mip_size};
use crate::itp::write::{encode_pixels, low32, pixel_bytes, to_low32};
use crate::png::{argb, rgba_bytes, spec_rgba_bytes, to_argb};
use crate::raster::{Raster, RasterView};
use vstd::prelude::*;

verus! {

/// Why an ITP image is no DDS file, or a DDS file no ITP image.
#[derive(Debug, Clone, Copy, PartialEq, Eq)]
pub enum ConvertError {
    /// The colours of an external palette are not known.
    ExternalPalette,
    /// 16-bit colour is not converted.
    Argb16,
    /// The palette has more than 256 colours.
    PaletteTooLong,
    /// The image has no mip level.
    Empty,
    /// The file is no DDS file.
    Header(HeaderError),
    /// The file ends inside its pixels.
    UnexpectedEnd,
    /// The extended header names a format that is not converted.
    Dxgi,
    /// The four bytes that name the format name none that is converted.
    FourCc,
    /// The pixels have a number of bits that is not converted.
    BitCount,
    /// The pixel format is neither indexed, nor named by four bytes, nor colour.
    Format,
}

/// Divides by way of `strength_reduce::StrengthReducedU64`: makes the reduced
/// divisor of `d` with `new`, and divides `n` by it with `/`.
///
/// The contract claims that the quotient is that of the plain division, which is
/// what the crate is for. `new` asks for a divisor above zero.
#[verifier::external_body]
pub(crate) fn reduced_div(n: u64, d: u64) -> (q: u64)
    requires
        d > 0,
    ensures
        q == n / d,
{
    n / strength_reduce::StrengthReducedU64::new(d)
}

/// The divisor for a mask: the mask, or the greatest number for no mask at all,
/// which lets nothing through.
pub open spec fn spec_sr64(mask: u32) -> u64 {
    if mask == 0 {
        u64::MAX
    } else {
        mask as u64
    }
}

/// The divisor for a mask: the mask itself, or the greatest number where there is no mask.
pub fn sr64(mask: u32) -> (d: u64)
    ensures
        d == spec_sr64(mask),
        d > 0,
{
    if mask == 0 {
        u64::MAX
    } else {
        mask as u64
    }
}

/// The part of `x` under `mask`, stretched to the 256 steps of a byte: the part
/// times 256, less one, over the mask.
pub open spec fn spec_mask1(mask: u64, x: u32) -> u8 {
    if (x as u64 & mask) == 0 {
        0
    } else {
        (((x as u64 & mask) * 256 - 1) / (mask as int)) as u8
    }
}

/// What a mask lets through is no more than the number, and no more than the mask.
proof fn lemma_masked(x: u64, mask: u64)
    by (bit_vector)
    ensures
        x & mask <= x,
        x & mask <= mask,
{
}

/// The part of `x` under `mask`, stretched to the 256 steps of a byte.
pub fn mask1(mask: u64, x: u32) -> (v: u8)
    requires
        mask > 0,
    ensures
        v == spec_mask1(mask, x),
{
    let part: u64 = x as u64 & mask;
    proof {
        lemma_masked(x as u64, mask);
    }
    if part == 0 {
        return reduced_div(0, mask) as u8;
    }
    let scaled: u64 = part * 256 - 1;
    let q: u64 = reduced_div(scaled, mask);
    assert(q < 256) by (nonlinear_arith)
        requires
            q == scaled / mask,
            scaled == part * 256 - 1,
            0 < part <= mask,
    ;
    q as u8
}

/// The colour that the four masks of a pixel format cut out of `x`.
pub open spec fn spec_mask(r: u64, g: u64, b: u64, a: u64, x: u32) -> u32 {
    argb(spec_mask1(b, x), spec_mask1(g, x), spec_mask1(r, x), spec_mask1(a, x))
}

/// The colour whose channels are the parts of `x` under the masks of red, green, blue and alpha.
pub fn mask(masks: (u64, u64, u64, u64), x: u32) -> (c: u32)
    requires
        masks.0 > 0,
        masks.1 > 0,
        masks.2 > 0,
        masks.3 > 0,
    ensures
        c == spec_mask(masks.0, masks.1, masks.2, masks.3, x),
{
    to_argb(mask1(masks.2, x), mask1(masks.1, x), mask1(masks.0, x), mask1(masks.3, x))
}

/// The number of bits and the masks of red, green, blue and alpha that a format of
/// the extended header stands for, where it stands for plain colour.
pub open spec fn dxgi_masks(format: u32) -> Option<(u32, u32, u32, u32, u32)> {
    if format == DXGI_FORMAT::B8G8R8A8_TYPELESS || format == DXGI_FORMAT::B8G8R8A8_UNORM || format
        == DXGI_FORMAT::B8G8R8A8_UNORM_SRGB {
        Some((32, 0x00FF0000, 0x0000FF00, 0x000000FF, 0xFF000000))
    } else if format == DXGI_FORMAT::B8G8R8X8_TYPELESS || format == DXGI_FORMAT::B8G8R8X8_UNORM || format
        == DXGI_FORMAT::B8G8R8X8_UNORM_SRGB {
        Some((32, 0x00FF0000, 0x0000FF00, 0x000000FF, 0x00000000))
    } else if format == DXGI_FORMAT::R8G8B8A8_TYPELESS || format == DXGI_FORMAT::R8G8B8A8_UNORM || format
        == DXGI_FORMAT::R8G8B8A8_UNORM_SRGB || format == DXGI_FORMAT::R8G8B8A8_UINT || format
        == DXGI_FORMAT::R8G8B8A8_SNORM || format == DXGI_FORMAT::R8G8B8A8_SINT {
        Some((32, 0x000000FF, 0x0000FF00, 0x00FF0000, 0xFF000000))
    } else if format == DXGI_FORMAT::B5G6R5_UNORM {
        Some((16, 0xF800, 0x07E0, 0x001F, 0x0000))
    } else if format == DXGI_FORMAT::B5G5R5A1_UNORM {
        Some((16, 0x7C00, 0x03E0, 0x001F, 0x8000))
    } else if format == DXGI_FORMAT::R10G10B10A2_TYPELESS || format == DXGI_FORMAT::R10G10B10A2_UNORM || format
        == DXGI_FORMAT::R10G10B10A2_UINT {
        Some((32, 0x000003FF, 0x000FFC00, 0x3FF00000, 0xC0000000))
    } else if format == DXGI_FORMAT::A8_UNORM {
        Some((8, 0x00, 0x00, 0x00, 0xFF))
    } else if format == DXGI_FORMAT::R8_TYPELESS || format == DXGI_FORMAT::R8_UNORM || format == DXGI_FORMAT::R8_UINT
        || format == DXGI_FORMAT::R8_SNORM || format == DXGI_FORMAT::R8_SINT {
        Some((8, 0xFF, 0x00, 0x00, 0x00))
    } else if format == DXGI_FORMAT::B4G4R4A4_UNORM {
        Some((16, 0x0F00, 0x00F0, 0x000F, 0xF000))
    } else {
        None
    }
}

/// The number of bits and the channel masks of a format of the extended header, if it is one of
/// plain colour.
fn masks_of(format: u32) -> (r: Option<(u32, u32, u32, u32, u32)>)
    ensures
        r == dxgi_masks(format),
{
    if format == DXGI_FORMAT::B8G8R8A8_TYPELESS || format == DXGI_FORMAT::B8G8R8A8_UNORM || format
        == DXGI_FORMAT::B8G8R8A8_UNORM_SRGB {
        Some((32, 0x00FF0000, 0x0000FF00, 0x000000FF, 0xFF000000))
    } else if format == DXGI_FORMAT::B8G8R8X8_TYPELESS || format == DXGI_FORMAT::B8G8R8X8_UNORM || format
        == DXGI_FORMAT::B8G8R8X8_UNORM_SRGB {
        Some((32, 0x00FF0000, 0x0000FF00, 0x000000FF, 0x00000000))
    } else if format == DXGI_FORMAT::R8G8B8A8_TYPELESS || format == DXGI_FORMAT::R8G8B8A8_UNORM || format
        == DXGI_FORMAT::R8G8B8A8_UNORM_SRGB || format == DXGI_FORMAT::R8G8B8A8_UINT || format
        == DXGI_FORMAT::R8G8B8A8_SNORM || format == DXGI_FORMAT::R8G8B8A8_SINT {
        Some((32, 0x000000FF, 0x0000FF00, 0x00FF0000, 0xFF000000))
    } else if format == DXGI_FORMAT::B5G6R5_UNORM {
        Some((16, 0xF800, 0x07E0, 0x001F, 0x0000))
    } else if format == DXGI_FORMAT::B5G5R5A1_UNORM {
        Some((16, 0x7C00, 0x03E0, 0x001F, 0x8000))
    } else if format == DXGI_FORMAT::R10G10B10A2_TYPELESS || format == DXGI_FORMAT::R10G10B10A2_UNORM || format
        == DXGI_FORMAT::R10G10B10A2_UINT {
        Some((32, 0x000003FF, 0x000FFC00, 0x3FF00000, 0xC0000000))
    } else if format == DXGI_FORMAT::A8_UNORM {
        Some((8, 0x00, 0x00, 0x00, 0xFF))
    } else if format == DXGI_FORMAT::R8_TYPELESS || format == DXGI_FORMAT::R8_UNORM || format == DXGI_FORMAT::R8_UINT
        || format == DXGI_FORMAT::R8_SNORM || format == DXGI_FORMAT::R8_SINT {
        Some((8, 0xFF, 0x00, 0x00, 0x00))
    } else if format == DXGI_FORMAT::B4G4R4A4_UNORM {
        Some((16, 0x0F00, 0x00F0, 0x000F, 0xF000))
    } else {
        None
    }
}

/// The pixel format of a header with the plain colour that its extended header
/// names written out: where the format is named by the four bytes of the extended
/// header and that header names plain colour, the number of bits and the masks
/// are those of the colour, and the format is no longer named by four bytes.
pub open spec fn spec_un_dxgi(dds: DdsView) -> DdsView {
    if dds.pixel_format.flags & DDPF::FOURCC != 0 && dds.pixel_format.four_cc == DX10@ && dds.dx10 is Some {
        match dxgi_masks(dds.dx10.unwrap().dxgi_format) {
            Some(m) => DdsView {
                pixel_format: crate::dds::PixelFormatView {
                    flags: dds.pixel_format.flags & !DDPF::FOURCC,
                    rgb_bit_count: m.0,
                    r_bit_mask: m.1,
                    g_bit_mask: m.2,
                    b_bit_mask: m.3,
                    a_bit_mask: m.4,
                    ..dds.pixel_format
                },
                ..dds
            },
            None => dds,
        }
    } else {
        dds
    }
}

/// The bytes of `DX10` are those of the constant.
fn is_dx10(four_cc: &[u8; 4]) -> (b: bool)
    ensures
        b == (four_cc@ == DX10@),
{
    let b = four_cc[0] == 0x44 && four_cc[1] == 0x58 && four_cc[2] == 0x31 && four_cc[3] == 0x30;
    proof {
        if b {
            assert(four_cc@ =~= DX10@);
        } else if four_cc@ == DX10@ {
            assert(four_cc@[0] == DX10@[0]);
            assert(four_cc@[1] == DX10@[1]);
            assert(four_cc@[2] == DX10@[2]);
            assert(four_cc@[3] == DX10@[3]);
        }
    }
    b
}

/// Writes out the plain colour that the extended header names.
pub fn un_dxgi(dds: Dds) -> (out: Dds)
    ensures
        out@ == spec_un_dxgi(dds@),
{
    if dds.pixel_format.flags & DDPF::FOURCC != 0 && is_dx10(&dds.pixel_format.four_cc) {
        match &dds.dx10 {
            Some(dx10) => match masks_of(dx10.dxgi_format) {
                Some(m) => {
                    return Dds {
                        flags: dds.flags,
                        height: dds.height,
                        width: dds.width,
                        pitch: dds.pitch,
                        depth: dds.depth,
                        mip_map_count: dds.mip_map_count,
                        reserved: dds.reserved,
                        pixel_format: PixelFormat {
                            flags: dds.pixel_format.flags & !DDPF::FOURCC,
                            four_cc: dds.pixel_format.four_cc,
                            rgb_bit_count: m.0,
                            r_bit_mask: m.1,
                            g_bit_mask: m.2,
                            b_bit_mask: m.3,
                            a_bit_mask: m.4,
                        },
                        caps: dds.caps,
                        reserved2: dds.reserved2,
                        dx10: dds.dx10,
                    };
                },
                None => {},
            },
            None => {},
        }
    }
    dds
}

/// The four bytes `DXT1`.
pub const DXT1: [u8; 4] = [0x44, 0x58, 0x54, 0x31];

/// The four bytes `DXT3`.
pub const DXT3: [u8; 4] = [0x44, 0x58, 0x54, 0x33];

/// The four bytes `DXT5`.
pub const DXT5: [u8; 4] = [0x44, 0x58, 0x54, 0x35];

/// The header of the DDS file of an image of `levels` mip levels that measures
/// `w` by `h` pixels: the default header with the dimensions, and with the number
/// of mip levels where it is not one.
pub open spec fn sized_header(w: u32, h: u32, levels: u32) -> DdsView {
    DdsView {
        width: w,
        height: h,
        flags: if levels != 1 {
            DDSD::DEFAULT | DDSD::MIPMAPCOUNT
        } else {
            DDSD::DEFAULT
        },
        mip_map_count: levels,
        ..DdsView::default_view()
    }
}

/// The pixel format of a kind of blocks: named by four bytes.
pub open spec fn block_format(four_cc: Seq<u8>) -> PixelFormatView {
    PixelFormatView {
        flags: PixelFormatView::default_view().flags | DDPF::FOURCC,
        four_cc,
        ..PixelFormatView::default_view()
    }
}

/// The header of the DDS file of an image.
pub open spec fn header_of(image: ImageView) -> Result<DdsView, ConvertError> {
    let base = sized_header(
        low32(image.width() as int),
        low32(image.height() as int),
        low32(image.levels.len() as int),
    );
    if image.levels.len() == 0 {
        Err(ConvertError::Empty)
    } else {
        match image.kind {
            PixelKind::Indexed => match image.palette {
                Some(PaletteView::Embedded(pal)) => if pal.len() > 256 {
                    Err(ConvertError::PaletteTooLong)
                } else {
                    Ok(
                        DdsView {
                            pixel_format: PixelFormatView {
                                flags: PixelFormatView::default_view().flags | DDPF::PALETTEINDEXED8,
                                rgb_bit_count: 8,
                                ..PixelFormatView::default_view()
                            },
                            ..base
                        },
                    )
                },
                _ => Err(ConvertError::ExternalPalette),
            },
            PixelKind::Argb16(_) => Err(ConvertError::Argb16),
            PixelKind::Argb32 => Ok(base),
            PixelKind::Bc1 => Ok(DdsView { pixel_format: block_format(DXT1@), ..base }),
            PixelKind::Bc2 => Ok(DdsView { pixel_format: block_format(DXT3@), ..base }),
            PixelKind::Bc3 => Ok(DdsView { pixel_format: block_format(DXT5@), ..base }),
            PixelKind::Bc7 => Ok(
                DdsView {
                    pixel_format: block_format(DX10@),
                    dx10: Some(Dx10Header { dxgi_format: DXGI_FORMAT::BC7_UNORM, ..Dx10Header::default_view() }),
                    ..base
                },
            ),
        }
    }
}

/// A palette filled with no colour at all to 256 colours.
pub open spec fn full_palette(pal: Seq<u32>) -> Seq<u32> {
    Seq::new(256, |i: int| if i < pal.len() { pal[i] } else { 0u32 })
}

/// The pixels of the mip levels from level `k` on, one level after another, behind `out`.
pub open spec fn levels_data(levels: Seq<RasterView<nat>>, size: nat, k: int, out: Seq<u8>) -> Seq<u8>
    decreases levels.len() - k,
{
    if k >= levels.len() {
        out
    } else {
        levels_data(levels, size, k + 1, out + pixel_bytes(levels[k].data, size))
    }
}

/// The DDS file of an image: the header, the palette of an indexed image as 256
/// colours of the bytes red, green, blue and alpha, and the pixels of all mip levels.
pub open spec fn spec_itp_to_dds(itp: ItpView) -> Result<Seq<u8>, ConvertError> {
    match header_of(itp.image) {
        Err(e) => Err(e),
        Ok(header) => Ok(
            levels_data(
                itp.image.levels,
                itp.image.kind.size(),
                0,
                header.bytes() + (match itp.image.palette {
                    Some(PaletteView::Embedded(pal)) => spec_rgba_bytes(full_palette(pal)),
                    _ => Seq::empty(),
                }),
            ),
        ),
    }
}

/// Appends the pixels of all mip levels.
pub fn write_data<T: Pixel>(out: Vec<u8>, data: &Vec<Raster<T>>) -> (r: Vec<u8>)
    ensures
        r@ == levels_data(level_values(data@), T::size(), 0, out@),
{
    let mut out = out;
    let ghost start = out@;
    let n: usize = data.len();
    let mut k: usize = 0;
    while k < n
        invariant
            k <= n,
            n == data@.len(),
            levels_data(level_values(data@), T::size(), 0, start) == levels_data(
                level_values(data@),
                T::size(),
                k as int,
                out@,
            ),
        decreases n - k,
    {
        let pixels: &[T] = data[k].as_slice();
        let m: usize = pixels.len();
        let mut copy: Vec<T> = Vec::with_capacity(m);
        let mut i: usize = 0;
        while i < m
            invariant
                i <= m,
                m == pixels@.len(),
                copy@.len() == i,
                forall|j: int| 0 <= j < i ==> #[trigger] copy@[j] == pixels@[j],
            decreases m - i,
        {
            copy.push(pixels[i]);
            i += 1;
        }
        let mut bytes = encode_pixels(&copy);
        assert(Seq::new(copy@.len(), |i: int| copy@[i].value()) =~= level_values(data@)[k as int].data);
        out.append(&mut bytes);
        k += 1;
    }
    out
}

/// The header with the pixel format `pixel_format` and the extended header `dx10`.
fn with_format(base: Dds, pixel_format: PixelFormat, dx10: Option<Dx10Header>) -> (dds: Dds)
    ensures
        dds@ == (DdsView { pixel_format: pixel_format@, dx10, ..base@ }),
{
    Dds {
        flags: base.flags,
        height: base.height,
        width: base.width,
        pitch: base.pitch,
        depth: base.depth,
        mip_map_count: base.mip_map_count,
        reserved: base.reserved,
        pixel_format,
        caps: base.caps,
        reserved2: base.reserved2,
        dx10,
    }
}

/// The pixel format of a block-compressed image, named by four bytes.
fn block_pixel_format(four_cc: [u8; 4]) -> (pf: PixelFormat)
    ensures
        pf@ == block_format(four_cc@),
{
    let base = PixelFormat::default();
    PixelFormat {
        flags: base.flags | DDPF::FOURCC,
        four_cc,
        rgb_bit_count: base.rgb_bit_count,
        r_bit_mask: base.r_bit_mask,
        g_bit_mask: base.g_bit_mask,
        b_bit_mask: base.b_bit_mask,
        a_bit_mask: base.a_bit_mask,
    }
}

/// The four bytes that name a format are not those of the extended header, but
/// for those.
proof fn lemma_four_cc()
    ensures
        DXT1@ != DX10@,
        DXT3@ != DX10@,
        DXT5@ != DX10@,
        seq![0u8, 0u8, 0u8, 0u8] != DX10@,
{
    assert(DXT1@[2] != DX10@[2]);
    assert(DXT3@[2] != DX10@[2]);
    assert(DXT5@[2] != DX10@[2]);
    assert(seq![0u8, 0u8, 0u8, 0u8][0] != DX10@[0]);
}

/// The header of the DDS file of an image.
pub fn dds_header(itp: &Itp) -> (r: Result<Dds, ConvertError>)
    ensures
        match r {
            Ok(dds) => header_of(itp@.image) == Ok::<DdsView, ConvertError>(dds@) && dds.wf(),
            Err(e) => header_of(itp@.image) == Err::<DdsView, ConvertError>(e),
        },
{
    let levels: usize = itp.data.mipmaps();
    if levels == 0 {
        return Err(ConvertError::Empty);
    }
    let (width, height) = crate::itp::write::dimensions(&itp.data);
    let default = Dds::default();
    let count: u32 = to_low32(levels as u128);
    let base = Dds {
        flags: if count != 1 { default.flags | DDSD::MIPMAPCOUNT } else { default.flags },
        height,
        width,
        pitch: default.pitch,
        depth: default.depth,
        mip_map_count: count,
        reserved: default.reserved,
        pixel_format: default.pixel_format,
        caps: default.caps,
        reserved2: default.reserved2,
        dx10: None,
    };
    proof {
        lemma_four_cc();
        assert(base@ == sized_header(width, height, count));
    }
    match &itp.data {
        ImageData::Indexed(pal, _) => {
            let pal = match pal {
                Palette::Embedded(pal) => pal,
                Palette::External(_) => {
                    return Err(ConvertError::ExternalPalette);
                },
            };
            if pal.len() > 256 {
                return Err(ConvertError::PaletteTooLong);
            }
            let plain = PixelFormat::default();
            let pf = PixelFormat {
                flags: plain.flags | DDPF::PALETTEINDEXED8,
                four_cc: plain.four_cc,
                rgb_bit_count: 8,
                r_bit_mask: plain.r_bit_mask,
                g_bit_mask: plain.g_bit_mask,
                b_bit_mask: plain.b_bit_mask,
                a_bit_mask: plain.a_bit_mask,
            };
            Ok(with_format(base, pf, None))
        },
        ImageData::Argb16(_, _) => Err(ConvertError::Argb16),
        ImageData::Argb32(_) => Ok(base),
        ImageData::Bc1(_) => Ok(with_format(base, block_pixel_format(DXT1), None)),
        ImageData::Bc2(_) => Ok(with_format(base, block_pixel_format(DXT3), None)),
        ImageData::Bc3(_) => Ok(with_format(base, block_pixel_format(DXT5), None)),
        ImageData::Bc7(_) => {
            let plain = Dx10Header::default();
            let dx10 = Dx10Header {
                dxgi_format: DXGI_FORMAT::BC7_UNORM,
                resource_dimension: plain.resource_dimension,
                misc_flag: plain.misc_flag,
                array_size: plain.array_size,
                misc_flag2: plain.misc_flag2,
            };
            Ok(with_format(base, block_pixel_format(DX10), Some(dx10)))
        },
    }
}

/// Converts an ITP image to a DDS file.
pub fn itp_to_dds(itp: &Itp) -> (r: Result<Vec<u8>, ConvertError>)
    ensures
        match r {
            Ok(out) => spec_itp_to_dds(itp@) == Ok::<Seq<u8>, ConvertError>(out@),
            Err(e) => spec_itp_to_dds(itp@) == Err::<Seq<u8>, ConvertError>(e),
        },
{
    let header = dds_header(itp)?;
    let mut out: Vec<u8> = Vec::new();
    header.write(&mut out);
    assert(out@ =~= header@.bytes());
    match &itp.data {
        ImageData::Indexed(pal, data) => {
            let pal = match pal {
                Palette::Embedded(pal) => pal,
                Palette::External(_) => {
                    return Err(ConvertError::ExternalPalette);
                },
            };
            let mut full: Vec<u32> = Vec::with_capacity(256);
            let mut i: usize = 0;
            while i < 256
                invariant
                    i <= 256,
                    full@.len() == i,
                    forall|j: int| 0 <= j < i ==> #[trigger] full@[j] == full_palette(pal@)[j],
                decreases 256 - i,
            {
                full.push(if i < pal.len() { pal[i] } else { 0 });
                i += 1;
            }
            assert(full@ =~= full_palette(pal@));
            let mut bytes = rgba_bytes(full.as_slice());
            out.append(&mut bytes);
            Ok(write_data(out, data))
        },
        ImageData::Argb16(_, _) => Err(ConvertError::Argb16),
        ImageData::Argb32(data) => {
            assert(out@ + Seq::<u8>::empty() =~= out@);
            Ok(write_data(out, data))
        },
        ImageData::Bc1(data) => {
            assert(out@ + Seq::<u8>::empty() =~= out@);
            Ok(write_data(out, data))
        },
        ImageData::Bc2(data) => {
            assert(out@ + Seq::<u8>::empty() =~= out@);
            Ok(write_data(out, data))
        },
        ImageData::Bc3(data) => {
            assert(out@ + Seq::<u8>::empty() =~= out@);
            Ok(write_data(out, data))
        },
        ImageData::Bc7(data) => {
            assert(out@ + Seq::<u8>::empty() =~= out@);
            Ok(write_data(out, data))
        },
    }
}

/// One mip level of `w` by `h` elements of `size` bytes each, stored at `at`.
pub open spec fn frame_at(s: Seq<u8>, at: int, w: nat, h: nat, size: nat) -> RasterView<nat> {
    RasterView { width: w, height: h, data: Seq::new(w * h, |j: int| le_at(s, at + j * size, size as int)) }
}

/// The mip levels from level `i` on of an image of `w` by `h` pixels and of
/// `count` levels, stored from `at` on one after another, behind those in `done`;
/// and the position behind the last level. A level measures half of the level
/// before it, and its elements cover `scale` pixels each way.
pub open spec fn frames_at(
    s: Seq<u8>,
    at: int,
    w: u32,
    h: u32,
    count: u32,
    scale: u32,
    size: nat,
    i: int,
    done: Seq<RasterView<nat>>,
) -> Result<(Seq<RasterView<nat>>, int), ConvertError>
    decreases count - i,
{
    if i >= count {
        Ok((done, at))
    } else {
        let fw = (mip_dim(w, i) / scale) as nat;
        let fh = (mip_dim(h, i) / scale) as nat;
        if !avail(s, at, (fw * fh * size) as int) {
            Err(ConvertError::UnexpectedEnd)
        } else {
            frames_at(s, at + fw * fh * size, w, h, count, scale, size, i + 1, done.push(frame_at(s, at, fw, fh, size)))
        }
    }
}

/// Reads the mip levels of an image, stored from `at` on one after another.
pub fn read_data<T: Pixel>(data: &[u8], at: usize, width: u32, height: u32, count: u32, scale: u32) -> (r: Result<
    (Vec<Raster<T>>, usize),
    ConvertError,
>)
    requires
        at <= data@.len(),
        scale > 0,
    ensures
        match r {
            Ok((levels, end)) => frames_at(
                data@,
                at as int,
                width,
                height,
                count,
                scale,
                T::size(),
                0,
                Seq::empty(),
            ) == Ok::<(Seq<RasterView<nat>>, int), ConvertError>((level_values(levels@), end as int)) && end
                <= data@.len(),
            Err(e) => frames_at(data@, at as int, width, height, count, scale, T::size(), 0, Seq::empty()) == Err::<
                (Seq<RasterView<nat>>, int),
                ConvertError,
            >(e),
        },
{
    let size: usize = T::byte_len();
    let len: usize = data.len();
    let mut out: Vec<Raster<T>> = Vec::new();
    let mut pos: usize = at;
    let mut i: u32 = 0;
    assert(level_values(out@) =~= Seq::<RasterView<nat>>::empty());
    while i < count
        invariant
            i <= count,
            at <= pos <= len,
            len == data@.len(),
            scale > 0,
            size == T::size(),
            1 <= size <= 16,
            frames_at(data@, at as int, width, height, count, scale, T::size(), 0, Seq::empty()) == frames_at(
                data@,
                pos as int,
                width,
                height,
                count,
                scale,
                T::size(),
                i as int,
                level_values(out@),
            ),
        decreases count - i,
    {
        let w: u32 = mip_size(width, i as usize) / scale;
        let h: u32 = mip_size(height, i as usize) / scale;
        proof {
            assert(0 <= w * h <= 0xFFFF_FFFF * 0xFFFF_FFFF) by (nonlinear_arith)
                requires
                    0 <= w <= 0xFFFF_FFFF,
                    0 <= h <= 0xFFFF_FFFF,
            ;
            assert(0 <= w * h * size <= (0xFFFF_FFFF * 0xFFFF_FFFF) * 16) by (nonlinear_arith)
                requires
                    0 <= w * h <= 0xFFFF_FFFF * 0xFFFF_FFFF,
                    0 <= size <= 16,
            ;
            assert(w * h <= w * h * size) by (nonlinear_arith)
                requires
                    size >= 1,
                    w * h >= 0,
            ;
        }
        let bytes: u128 = w as u128 * h as u128 * size as u128;
        if bytes > (len - pos) as u128 {
            return Err(ConvertError::UnexpectedEnd);
        }
        let n: usize = (w as u128 * h as u128) as usize;
        let end: usize = pos + bytes as usize;
        let pixels: Vec<T> = decode_pixels(vstd::slice::slice_subrange(data, pos, end), n);
        let raster = Raster::new_with(w as usize, h as usize, pixels);
        proof {
            let want = frame_at(data@, pos as int, w as nat, h as nat, size as nat);
            let part = data@.subrange(pos as int, end as int);
            assert forall|j: int| 0 <= j < n implies raster_values(raster@).data[j] == want.data[j] by {
                assert(j * size + size <= n * size) by (nonlinear_arith)
                    requires
                        0 <= j,
                        j + 1 <= n,
                        size >= 0,
                ;
                assert(j * size >= 0) by (nonlinear_arith)
                    requires
                        j >= 0,
                        size >= 0,
                ;
                assert(part.subrange(j * size, j * size + size) =~= data@.subrange(
                    pos + j * size,
                    pos + j * size + size,
                ));
            }
            assert(raster_values(raster@).data =~= want.data);
            assert(level_values(out@.push(raster)) =~= level_values(out@).push(raster_values(raster@)));
        }
        out.push(raster);
        pos = end;
        i += 1;
    }
    Ok((out, pos))
}

/// The greatest number of a list of numbers and `least`.
pub open spec fn greatest(data: Seq<nat>, n: int, least: nat) -> nat
    decreases n,
{
    if n <= 0 {
        least
    } else if data[n - 1] > greatest(data, n - 1, least) {
        data[n - 1]
    } else {
        greatest(data, n - 1, least)
    }
}

/// The number of colours that the first `k` levels use: one more than the
/// greatest index among their pixels, or none where they have no pixels.
pub open spec fn used_colors(levels: Seq<RasterView<nat>>, k: int) -> nat
    decreases k,
{
    if k <= 0 {
        0
    } else {
        greatest(
            Seq::new(levels[k - 1].data.len(), |i: int| levels[k - 1].data[i] + 1),
            levels[k - 1].data.len() as int,
            used_colors(levels, k - 1),
        )
    }
}

/// A palette without the colours at its end that are no colour at all and that
/// none of the first `used` indices names.
pub open spec fn trimmed(pal: Seq<u32>, used: nat) -> Seq<u32>
    decreases pal.len(),
{
    if pal.len() > used && pal.last() == 0 {
        trimmed(pal.drop_last(), used)
    } else {
        pal
    }
}

/// The 256 colours stored at `at` as the bytes red, green, blue and alpha.
pub open spec fn palette_at(s: Seq<u8>, at: int) -> Seq<u32> {
    Seq::new(256, |i: int| argb(s[at + 4 * i + 2], s[at + 4 * i + 1], s[at + 4 * i], s[at + 4 * i + 3]))
}

/// The levels of an image of plain colour: each number cut apart by the masks.
pub open spec fn masked(levels: Seq<RasterView<nat>>, pf: PixelFormatView) -> Seq<RasterView<nat>> {
    Seq::new(
        levels.len(),
        |k: int|
            RasterView {
                width: levels[k].width,
                height: levels[k].height,
                data: Seq::new(
                    levels[k].data.len(),
                    |i: int|
                        spec_mask(
                            spec_sr64(pf.r_bit_mask),
                            spec_sr64(pf.g_bit_mask),
                            spec_sr64(pf.b_bit_mask),
                            spec_sr64(pf.a_bit_mask),
                            levels[k].data[i] as u32,
                        ) as nat,
                ),
            },
    )
}

/// The kind of blocks that a format named by four bytes, or by the extended
/// header, holds.
pub open spec fn block_kind(dds: DdsView) -> Result<PixelKind, ConvertError> {
    let cc = dds.pixel_format.four_cc;
    if cc == DXT1@ {
        Ok(PixelKind::Bc1)
    } else if cc == DXT3@ {
        Ok(PixelKind::Bc2)
    } else if cc == DXT5@ {
        Ok(PixelKind::Bc3)
    } else if cc == DX10@ && dds.dx10 is Some {
        let f = dds.dx10.unwrap().dxgi_format;
        if f == DXGI_FORMAT::BC1_TYPELESS || f == DXGI_FORMAT::BC1_UNORM || f == DXGI_FORMAT::BC1_UNORM_SRGB {
            Ok(PixelKind::Bc1)
        } else if f == DXGI_FORMAT::BC2_TYPELESS || f == DXGI_FORMAT::BC2_UNORM || f == DXGI_FORMAT::BC2_UNORM_SRGB {
            Ok(PixelKind::Bc2)
        } else if f == DXGI_FORMAT::BC3_TYPELESS || f == DXGI_FORMAT::BC3_UNORM || f == DXGI_FORMAT::BC3_UNORM_SRGB {
            Ok(PixelKind::Bc3)
        } else if f == DXGI_FORMAT::BC7_TYPELESS || f == DXGI_FORMAT::BC7_UNORM || f == DXGI_FORMAT::BC7_UNORM_SRGB {
            Ok(PixelKind::Bc7)
        } else {
            Err(ConvertError::Dxgi)
        }
    } else {
        Err(ConvertError::FourCc)
    }
}

/// The image of a DDS file, of the status that the constructor gives for revision 3.
pub open spec fn new_itp(image: ImageView) -> ItpView {
    ItpView { status: image.default_status(ItpRevision::V3), image }
}

/// The ITP image of a DDS file.
///
/// The pixel format decides: indexed pixels come with a palette of 256 colours,
/// of which the unused ones at the end that are no colour at all are dropped;
/// blocks are taken as they are; plain colour of 32, 16 or 8 bits is cut apart by
/// the masks into 32-bit colour.
pub open spec fn spec_dds_to_itp(s: Seq<u8>) -> Result<ItpView, ConvertError> {
    match Dds::parse(s) {
        Err(e) => Err(ConvertError::Header(e)),
        Ok((raw, at)) => {
            let dds = spec_un_dxgi(raw);
            let pf = dds.pixel_format;
            if pf.flags & DDPF::PALETTEINDEXED8 != 0 {
                if !avail(s, at, 1024) {
                    Err(ConvertError::UnexpectedEnd)
                } else {
                    match frames_at(s, at + 1024, dds.width, dds.height, dds.mip_map_count, 1, 1, 0, Seq::empty()) {
                        Err(e) => Err(e),
                        Ok((levels, _)) => Ok(
                            new_itp(
                                ImageView {
                                    kind: PixelKind::Indexed,
                                    palette: Some(
                                        PaletteView::Embedded(
                                            trimmed(palette_at(s, at), used_colors(levels, levels.len() as int)),
                                        ),
                                    ),
                                    levels,
                                },
                            ),
                        ),
                    }
                }
            } else if pf.flags & DDPF::FOURCC != 0 {
                match block_kind(dds) {
                    Err(e) => Err(e),
                    Ok(kind) => match frames_at(
                        s,
                        at,
                        dds.width,
                        dds.height,
                        dds.mip_map_count,
                        4,
                        kind.size(),
                        0,
                        Seq::empty(),
                    ) {
                        Err(e) => Err(e),
                        Ok((levels, _)) => Ok(new_itp(ImageView { kind, palette: None, levels })),
                    },
                }
            } else if pf.flags & DDPF::RGB != 0 {
                if pf.rgb_bit_count != 32 && pf.rgb_bit_count != 16 && pf.rgb_bit_count != 8 {
                    Err(ConvertError::BitCount)
                } else {
                    match frames_at(
                        s,
                        at,
                        dds.width,
                        dds.height,
                        dds.mip_map_count,
                        1,
                        (pf.rgb_bit_count / 8) as nat,
                        0,
                        Seq::empty(),
                    ) {
                        Err(e) => Err(e),
                        Ok((levels, _)) => Ok(
                            new_itp(ImageView { kind: PixelKind::Argb32, palette: None, levels: masked(levels, pf) }),
                        ),
                    }
                }
            } else {
                Err(ConvertError::Format)
            }
        },
    }
}

/// Whether two names of four bytes are the same.
fn same_four(a: &[u8; 4], b: &[u8; 4]) -> (r: bool)
    ensures
        r == (a@ == b@),
{
    let r = a[0] == b[0] && a[1] == b[1] && a[2] == b[2] && a[3] == b[3];
    proof {
        if r {
            assert(a@ =~= b@);
        } else if a@ == b@ {
            assert(a@[0] == b@[0] && a@[1] == b@[1] && a@[2] == b@[2] && a@[3] == b@[3]);
        }
    }
    r
}

/// The kind of blocks that the header names, by four bytes or by the format of its extension.
fn kind_of_blocks(dds: &Dds) -> (r: Result<PixelKind, ConvertError>)
    ensures
        r == block_kind(dds@),
{
    let cc = &dds.pixel_format.four_cc;
    if same_four(cc, &DXT1) {
        Ok(PixelKind::Bc1)
    } else if same_four(cc, &DXT3) {
        Ok(PixelKind::Bc2)
    } else if same_four(cc, &DXT5) {
        Ok(PixelKind::Bc3)
    } else if same_four(cc, &DX10) {
        match &dds.dx10 {
            Some(dx10) => {
                let f = dx10.dxgi_format;
                if f == DXGI_FORMAT::BC1_TYPELESS || f == DXGI_FORMAT::BC1_UNORM || f == DXGI_FORMAT::BC1_UNORM_SRGB {
                    Ok(PixelKind::Bc1)
                } else if f == DXGI_FORMAT::BC2_TYPELESS || f == DXGI_FORMAT::BC2_UNORM || f
                    == DXGI_FORMAT::BC2_UNORM_SRGB {
                    Ok(PixelKind::Bc2)
                } else if f == DXGI_FORMAT::BC3_TYPELESS || f == DXGI_FORMAT::BC3_UNORM || f
                    == DXGI_FORMAT::BC3_UNORM_SRGB {
                    Ok(PixelKind::Bc3)
                } else if f == DXGI_FORMAT::BC7_TYPELESS || f == DXGI_FORMAT::BC7_UNORM || f
                    == DXGI_FORMAT::BC7_UNORM_SRGB {
                    Ok(PixelKind::Bc7)
                } else {
                    Err(ConvertError::Dxgi)
                }
            },
            None => Err(ConvertError::FourCc),
        }
    } else {
        Err(ConvertError::FourCc)
    }
}

/// The number of colours that the levels use.
fn count_used(levels: &Vec<Raster<u8>>) -> (used: usize)
    ensures
        used == used_colors(level_values(levels@), levels@.len() as int),
        used <= 256,
{
    let n: usize = levels.len();
    let mut used: usize = 0;
    let mut k: usize = 0;
    while k < n
        invariant
            k <= n,
            n == levels@.len(),
            used <= 256,
            used == used_colors(level_values(levels@), k as int),
        decreases n - k,
    {
        let pixels: &[u8] = levels[k].as_slice();
        let m: usize = pixels.len();
        let ghost level = Seq::new(
            level_values(levels@)[k as int].data.len(),
            |i: int| level_values(levels@)[k as int].data[i] + 1,
        );
        let ghost least = used as nat;
        let mut i: usize = 0;
        while i < m
            invariant
                i <= m,
                m == pixels@.len(),
                m == level.len(),
                used <= 256,
                forall|j: int| 0 <= j < m ==> #[trigger] level[j] == pixels@[j] + 1,
                used == greatest(level, i as int, least),
            decreases m - i,
        {
            let v: usize = pixels[i] as usize + 1;
            if v > used {
                used = v;
            }
            i += 1;
        }
        k += 1;
    }
    used
}

/// Drops the colours at the end of a palette that are unused and no colour at all.
fn trim(pal: Vec<u32>, used: usize) -> (out: Vec<u32>)
    ensures
        out@ == trimmed(pal@, used as nat),
{
    let mut pal = pal;
    let ghost start = pal@;
    while pal.len() > used && pal[pal.len() - 1] == 0
        invariant
            trimmed(start, used as nat) == trimmed(pal@, used as nat),
        decreases pal@.len(),
    {
        pal.pop();
    }
    pal
}

/// The levels of an image of plain colour, cut apart by the masks.
fn mask_levels<T: Pixel>(levels: &Vec<Raster<T>>, pf: &PixelFormat) -> (out: Vec<Raster<u32>>)
    requires
        T::size() <= 4,
    ensures
        level_values(out@) == masked(level_values(levels@), pf@),
{
    let masks = (sr64(pf.r_bit_mask), sr64(pf.g_bit_mask), sr64(pf.b_bit_mask), sr64(pf.a_bit_mask));
    let n: usize = levels.len();
    let ghost want = masked(level_values(levels@), pf@);
    let mut out: Vec<Raster<u32>> = Vec::with_capacity(n);
    let mut k: usize = 0;
    while k < n
        invariant
            k <= n,
            n == levels@.len(),
            T::size() <= 4,
            want == masked(level_values(levels@), pf@),
            masks == (
                spec_sr64(pf.r_bit_mask),
                spec_sr64(pf.g_bit_mask),
                spec_sr64(pf.b_bit_mask),
                spec_sr64(pf.a_bit_mask),
            ),
            out@.len() == k,
            forall|j: int| 0 <= j < k ==> raster_values((#[trigger] out@[j])@) == want[j],
        decreases n - k,
    {
        let pixels: &[T] = levels[k].as_slice();
        let m: usize = pixels.len();
        let mut colors: Vec<u32> = Vec::with_capacity(m);
        let mut i: usize = 0;
        while i < m
            invariant
                i <= m,
                m == pixels@.len(),
                T::size() <= 4,
                masks == (
                    spec_sr64(pf.r_bit_mask),
                    spec_sr64(pf.g_bit_mask),
                    spec_sr64(pf.b_bit_mask),
                    spec_sr64(pf.a_bit_mask),
                ),
                colors@.len() == i,
                forall|j: int|
                    0 <= j < i ==> #[trigger] colors@[j] == spec_mask(
                        masks.0,
                        masks.1,
                        masks.2,
                        masks.3,
                        pixels@[j].value() as u32,
                    ),
            decreases m - i,
        {
            proof {
                pixels@[i as int].lemma_pixel();
                lemma_pow256_values();
                crate::bytes::lemma_pow256_monotonic(T::size(), 4);
            }
            let x: u32 = pixels[i].to_value() as u32;
            colors.push(mask(masks, x));
            i += 1;
        }
        let raster = Raster::new_with(levels[k].width(), levels[k].height(), colors);
        assert(raster_values(raster@).data =~= want[k as int].data);
        out.push(raster);
        k += 1;
    }
    assert(level_values(out@) =~= want);
    out
}

/// Converts a DDS file to an ITP image of revision 3.
pub fn dds_to_itp(data: &[u8]) -> (r: Result<Itp, ConvertError>)
    ensures
        match r {
            Ok(itp) => spec_dds_to_itp(data@) == Ok::<ItpView, ConvertError>(itp@),
            Err(e) => spec_dds_to_itp(data@) == Err::<ItpView, ConvertError>(e),
        },
{
    let (raw, at) = match Dds::read(data) {
        Ok(found) => found,
        Err(e) => {
            return Err(ConvertError::Header(e));
        },
    };
    let dds = un_dxgi(raw);
    let len: usize = data.len();
    let image = if dds.pixel_format.flags & DDPF::PALETTEINDEXED8 != 0 {
        if len - at < 1024 {
            return Err(ConvertError::UnexpectedEnd);
        }
        let mut palette: Vec<u32> = Vec::with_capacity(256);
        let mut i: usize = 0;
        while i < 256
            invariant
                i <= 256,
                at + 1024 <= len,
                len == data@.len(),
                palette@.len() == i,
                forall|j: int| 0 <= j < i ==> #[trigger] palette@[j] == palette_at(data@, at as int)[j],
            decreases 256 - i,
        {
            let p: usize = at + 4 * i;
            palette.push(to_argb(data[p + 2], data[p + 1], data[p], data[p + 3]));
            i += 1;
        }
        assert(palette@ =~= palette_at(data@, at as int));
        let (levels, _) = read_data::<u8>(data, at + 1024, dds.width, dds.height, dds.mip_map_count, 1)?;
        let used = count_used(&levels);
        ImageData::Indexed(Palette::Embedded(trim(palette, used)), levels)
    } else if dds.pixel_format.flags & DDPF::FOURCC != 0 {
        match kind_of_blocks(&dds)? {
            PixelKind::Bc1 => ImageData::Bc1(
                read_data::<u64>(data, at, dds.width, dds.height, dds.mip_map_count, 4)?.0,
            ),
            PixelKind::Bc2 => ImageData::Bc2(
                read_data::<u128>(data, at, dds.width, dds.height, dds.mip_map_count, 4)?.0,
            ),
            PixelKind::Bc3 => ImageData::Bc3(
                read_data::<u128>(data, at, dds.width, dds.height, dds.mip_map_count, 4)?.0,
            ),
            _ => ImageData::Bc7(read_data::<u128>(data, at, dds.width, dds.height, dds.mip_map_count, 4)?.0),
        }
    } else if dds.pixel_format.flags & DDPF::RGB != 0 {
        if dds.pixel_format.rgb_bit_count == 32 {
            let (levels, _) = read_data::<u32>(data, at, dds.width, dds.height, dds.mip_map_count, 1)?;
            ImageData::Argb32(mask_levels(&levels, &dds.pixel_format))
        } else if dds.pixel_format.rgb_bit_count == 16 {
            let (levels, _) = read_data::<u16>(data, at, dds.width, dds.height, dds.mip_map_count, 1)?;
            ImageData::Argb32(mask_levels(&levels, &dds.pixel_format))
        } else if dds.pixel_format.rgb_bit_count == 8 {
            let (levels, _) = read_data::<u8>(data, at, dds.width, dds.height, dds.mip_map_count, 1)?;
            ImageData::Argb32(mask_levels(&levels, &dds.pixel_format))
        } else {
            return Err(ConvertError::BitCount);
        }
    } else {
        return Err(ConvertError::Format);
    };
    Ok(Itp::new(ItpRevision::V3, image))
}

} // verus!
