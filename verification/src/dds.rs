//! The header of the DDS texture container.

use crate::bytes::{avail, le_at, le_bytes, push_le, read_le};
use crate::itp::read::le32;
use crate::itp::write::{bytes32, put_u32};
use vstd::prelude::*;

#[allow(non_snake_case)]
pub mod ALPHA_MODE;
#[allow(non_snake_case)]
pub mod DDPF;
#[allow(non_snake_case)]
pub mod DDSCAPS;
#[allow(non_snake_case)]
pub mod DDSD;
#[allow(non_snake_case)]
pub mod DXGI_FORMAT;
#[allow(non_snake_case)]
pub mod RESOURCE_DIMENSION;
#[allow(non_snake_case)]
pub mod RESOURCE_MISC;

verus! {

/// The four bytes that a DDS file starts with, `DDS` and a space, as a number.
pub const MAGIC: u32 = 0x2053_4444;

/// The four bytes `DX10`, which announce the extended header.
pub const DX10: [u8; 4] = [0x44, 0x58, 0x31, 0x30];

/// The length of a header without the extended header, the magic included.
pub const HEADER_LEN: usize = 128;

/// The length of the extended header.
pub const DX10_LEN: usize = 20;

/// The pixel format of a DDS header.
#[derive(Debug, Clone, PartialEq, Eq)]
pub struct PixelFormat {
    /// See [`DDPF`] for values.
    pub flags: u32,
    pub four_cc: [u8; 4],
    pub rgb_bit_count: u32,
    pub r_bit_mask: u32,
    pub g_bit_mask: u32,
    pub b_bit_mask: u32,
    pub a_bit_mask: u32,
}

/// The extension of a DDS header that names a DXGI format.
#[derive(Debug, Clone, PartialEq, Eq)]
pub struct Dx10Header {
    /// See [`DXGI_FORMAT`] for values.
    pub dxgi_format: u32,
    /// See [`RESOURCE_DIMENSION`] for values.
    pub resource_dimension: u32,
    /// See [`RESOURCE_MISC`] for values.
    pub misc_flag: u32,
    pub array_size: u32,
    /// See [`ALPHA_MODE`] for values.
    pub misc_flag2: u32,
}

/// A DDS header.
#[derive(Debug, Clone, PartialEq, Eq)]
pub struct Dds {
    /// See [`DDSD`] for values.
    pub flags: u32,
    pub height: u32,
    pub width: u32,
    pub pitch: u32,
    pub depth: u32,
    pub mip_map_count: u32,
    pub reserved: [u32; 11],
    pub pixel_format: PixelFormat,
    /// See [`DDSCAPS`] for values.
    pub caps: u128,
    pub reserved2: u32,
    pub dx10: Option<Dx10Header>,
}

/// Why bytes are no DDS header.
#[derive(Debug, Clone, Copy, PartialEq, Eq)]
pub enum ReadError {
    /// The bytes end inside the header.
    UnexpectedEnd,
    /// A field with a fixed value holds another.
    InvalidData { expected: u32, found: u32 },
}

/// The 32-bit numbers from `at` on, `n` of them.
pub open spec fn numbers_at(s: Seq<u8>, at: int, n: nat) -> Seq<u32> {
    Seq::new(n, |i: int| le32(s, at + 4 * i))
}

/// The bytes of the 32-bit numbers of `v`, one number after another.
pub open spec fn numbers_bytes(v: Seq<u32>) -> Seq<u8>
    decreases v.len(),
{
    if v.len() == 0 {
        Seq::empty()
    } else {
        numbers_bytes(v.drop_last()) + bytes32(v.last())
    }
}

impl PixelFormatView {
    /// The 32 bytes of a pixel format: its length, and its fields.
    pub open spec fn bytes(self) -> Seq<u8> {
        bytes32(32) + bytes32(self.flags) + self.four_cc + bytes32(self.rgb_bit_count) + bytes32(self.r_bit_mask)
            + bytes32(self.g_bit_mask) + bytes32(self.b_bit_mask) + bytes32(self.a_bit_mask)
    }

    /// The default for a pixel format is 32-bit colour with alpha, blue lowest.
    pub open spec fn default_view() -> PixelFormatView {
        PixelFormatView {
            flags: DDPF::ALPHAPIXELS | DDPF::RGB,
            four_cc: seq![0u8, 0u8, 0u8, 0u8],
            rgb_bit_count: 32,
            r_bit_mask: 0x00FF0000,
            g_bit_mask: 0x0000FF00,
            b_bit_mask: 0x000000FF,
            a_bit_mask: 0xFF000000,
        }
    }
}

impl PixelFormat {

    /// The pixel format that stands at `at`.
    pub open spec fn parse(s: Seq<u8>, at: int) -> Result<PixelFormatView, ReadError> {
        if !avail(s, at, 4) {
            Err(ReadError::UnexpectedEnd)
        } else if le32(s, at) != 32 {
            Err(ReadError::InvalidData { expected: 32, found: le32(s, at) })
        } else if !avail(s, at + 4, 28) {
            Err(ReadError::UnexpectedEnd)
        } else {
            Ok(
                PixelFormatView {
                    flags: le32(s, at + 4),
                    four_cc: s.subrange(at + 8, at + 12),
                    rgb_bit_count: le32(s, at + 12),
                    r_bit_mask: le32(s, at + 16),
                    g_bit_mask: le32(s, at + 20),
                    b_bit_mask: le32(s, at + 24),
                    a_bit_mask: le32(s, at + 28),
                },
            )
        }
    }

    /// Reads the pixel format that stands at `at`.
    pub fn read(data: &[u8], at: usize) -> (r: Result<PixelFormat, ReadError>)
        ensures
            match r {
                Ok(pf) => Self::parse(data@, at as int) == Ok::<PixelFormatView, ReadError>(pf@),
                Err(e) => Self::parse(data@, at as int) == Err::<PixelFormatView, ReadError>(e),
            },
    {
        let len: usize = data.len();
        check(data, at, 32)?;
        if len - at < 32 {
            return Err(ReadError::UnexpectedEnd);
        }
        let four_cc: [u8; 4] = [data[at + 8], data[at + 9], data[at + 10], data[at + 11]];
        assert(four_cc@ =~= data@.subrange(at + 8, at + 12));
        Ok(
            PixelFormat {
                flags: number(data, at + 4)?,
                four_cc,
                rgb_bit_count: number(data, at + 12)?,
                r_bit_mask: number(data, at + 16)?,
                g_bit_mask: number(data, at + 20)?,
                b_bit_mask: number(data, at + 24)?,
                a_bit_mask: number(data, at + 28)?,
            },
        )
    }

    /// Appends the bytes of the pixel format.
    pub fn write(&self, out: &mut Vec<u8>)
        ensures
            final(out)@ == old(out)@ + self@.bytes(),
    {
        put_u32(out, 32);
        put_u32(out, self.flags);
        out.push(self.four_cc[0]);
        out.push(self.four_cc[1]);
        out.push(self.four_cc[2]);
        out.push(self.four_cc[3]);
        put_u32(out, self.rgb_bit_count);
        put_u32(out, self.r_bit_mask);
        put_u32(out, self.g_bit_mask);
        put_u32(out, self.b_bit_mask);
        put_u32(out, self.a_bit_mask);
        assert(out@ =~= old(out)@ + self@.bytes());
    }
}

/// The pixel format of a DDS header, as numbers.
pub struct PixelFormatView {
    pub flags: u32,
    pub four_cc: Seq<u8>,
    pub rgb_bit_count: u32,
    pub r_bit_mask: u32,
    pub g_bit_mask: u32,
    pub b_bit_mask: u32,
    pub a_bit_mask: u32,
}

impl View for PixelFormat {
    type V = PixelFormatView;

    open spec fn view(&self) -> PixelFormatView {
        PixelFormatView {
            flags: self.flags,
            four_cc: self.four_cc@,
            rgb_bit_count: self.rgb_bit_count,
            r_bit_mask: self.r_bit_mask,
            g_bit_mask: self.g_bit_mask,
            b_bit_mask: self.b_bit_mask,
            a_bit_mask: self.a_bit_mask,
        }
    }
}

impl Default for PixelFormat {
    fn default() -> (pf: Self)
        ensures
            pf@ == PixelFormatView::default_view(),
    {
        let four_cc: [u8; 4] = [0, 0, 0, 0];
        assert(four_cc@ =~= seq![0u8, 0u8, 0u8, 0u8]);
        PixelFormat {
            flags: DDPF::ALPHAPIXELS | DDPF::RGB,
            four_cc,
            rgb_bit_count: 32,
            r_bit_mask: 0x00FF0000,
            g_bit_mask: 0x0000FF00,
            b_bit_mask: 0x000000FF,
            a_bit_mask: 0xFF000000,
        }
    }
}

impl Dx10Header {
    /// The extended header of a texture of two dimensions in 32-bit colour.
    pub open spec fn default_view() -> Dx10Header {
        Dx10Header {
            dxgi_format: DXGI_FORMAT::B8G8R8A8_UNORM,
            resource_dimension: RESOURCE_DIMENSION::TEXTURE2D,
            misc_flag: 0,
            array_size: 1,
            misc_flag2: 0,
        }
    }

    /// The 20 bytes of an extended header.
    pub open spec fn bytes(self) -> Seq<u8> {
        bytes32(self.dxgi_format) + bytes32(self.resource_dimension) + bytes32(self.misc_flag) + bytes32(
            self.array_size,
        ) + bytes32(self.misc_flag2)
    }

    /// The extended header that stands at `at`.
    pub open spec fn parse(s: Seq<u8>, at: int) -> Result<Dx10Header, ReadError> {
        if !avail(s, at, 20) {
            Err(ReadError::UnexpectedEnd)
        } else {
            Ok(
                Dx10Header {
                    dxgi_format: le32(s, at),
                    resource_dimension: le32(s, at + 4),
                    misc_flag: le32(s, at + 8),
                    array_size: le32(s, at + 12),
                    misc_flag2: le32(s, at + 16),
                },
            )
        }
    }

    /// Reads the extended header that stands at `at`.
    pub fn read(data: &[u8], at: usize) -> (r: Result<Dx10Header, ReadError>)
        ensures
            r == Self::parse(data@, at as int),
    {
        let len: usize = data.len();
        if at > len || len - at < 20 {
            return Err(ReadError::UnexpectedEnd);
        }
        Ok(
            Dx10Header {
                dxgi_format: number(data, at)?,
                resource_dimension: number(data, at + 4)?,
                misc_flag: number(data, at + 8)?,
                array_size: number(data, at + 12)?,
                misc_flag2: number(data, at + 16)?,
            },
        )
    }

    /// Appends the bytes of the extended header.
    pub fn write(&self, out: &mut Vec<u8>)
        ensures
            final(out)@ == old(out)@ + self.bytes(),
    {
        put_u32(out, self.dxgi_format);
        put_u32(out, self.resource_dimension);
        put_u32(out, self.misc_flag);
        put_u32(out, self.array_size);
        put_u32(out, self.misc_flag2);
        assert(out@ =~= old(out)@ + self.bytes());
    }
}

impl Default for Dx10Header {
    fn default() -> (h: Self)
        ensures
            h == Dx10Header::default_view(),
    {
        Dx10Header {
            dxgi_format: DXGI_FORMAT::B8G8R8A8_UNORM,
            resource_dimension: RESOURCE_DIMENSION::TEXTURE2D,
            misc_flag: 0,
            array_size: 1,
            misc_flag2: 0,
        }
    }
}

/// What a header is, with its arrays as sequences.
pub struct DdsView {
    pub flags: u32,
    pub height: u32,
    pub width: u32,
    pub pitch: u32,
    pub depth: u32,
    pub mip_map_count: u32,
    pub reserved: Seq<u32>,
    pub pixel_format: PixelFormatView,
    pub caps: u128,
    pub reserved2: u32,
    pub dx10: Option<Dx10Header>,
}

impl View for Dds {
    type V = DdsView;

    open spec fn view(&self) -> DdsView {
        DdsView {
            flags: self.flags,
            height: self.height,
            width: self.width,
            pitch: self.pitch,
            depth: self.depth,
            mip_map_count: self.mip_map_count,
            reserved: self.reserved@,
            pixel_format: self.pixel_format@,
            caps: self.caps,
            reserved2: self.reserved2,
            dx10: self.dx10,
        }
    }
}

/// The 32-bit number at `at`, or the error of a file that ends before it.
fn number(data: &[u8], at: usize) -> (r: Result<u32, ReadError>)
    ensures
        match r {
            Ok(v) => avail(data@, at as int, 4) && v == le32(data@, at as int),
            Err(e) => !avail(data@, at as int, 4) && e == ReadError::UnexpectedEnd,
        },
{
    match crate::itp::read::get_u32(data, at) {
        Ok(v) => Ok(v),
        Err(_) => Err(ReadError::UnexpectedEnd),
    }
}

/// Tests that the 32-bit number at `at` is `v`.
fn check(data: &[u8], at: usize, v: u32) -> (r: Result<(), ReadError>)
    ensures
        match r {
            Ok(_) => avail(data@, at as int, 4) && le32(data@, at as int) == v,
            Err(e) => if avail(data@, at as int, 4) {
                le32(data@, at as int) != v && e == (ReadError::InvalidData { expected: v, found: le32(data@, at as int) })
            } else {
                e == ReadError::UnexpectedEnd
            },
        },
{
    let found = number(data, at)?;
    if found == v {
        Ok(())
    } else {
        Err(ReadError::InvalidData { expected: v, found })
    }
}

impl DdsView {
    /// The extended header is there if and only if the pixel format announces it.
    pub open spec fn wf(self) -> bool {
        &&& self.dx10 is Some <==> self.pixel_format.four_cc == DX10@
        &&& self.reserved.len() == 11
        &&& self.pixel_format.four_cc.len() == 4
    }

    /// The bytes of a header: the magic, the length, the fields, the pixel format,
    /// the capabilities, and the extended header if there is one.
    pub open spec fn bytes(self) -> Seq<u8> {
        bytes32(MAGIC) + bytes32(124) + bytes32(self.flags) + bytes32(self.height) + bytes32(self.width) + bytes32(
            self.pitch,
        ) + bytes32(self.depth) + bytes32(self.mip_map_count) + numbers_bytes(self.reserved)
            + self.pixel_format.bytes() + le_bytes(self.caps as nat, 16) + bytes32(self.reserved2) + (match self.dx10 {
            Some(dx10) => dx10.bytes(),
            None => Seq::empty(),
        })
    }

    /// The default header: a texture without dimensions, of one mip level, in
    /// 32-bit colour.
    pub open spec fn default_view() -> DdsView {
        DdsView {
            flags: DDSD::DEFAULT,
            height: 0,
            width: 0,
            pitch: 0,
            depth: 0,
            mip_map_count: 1,
            reserved: Seq::new(11, |i: int| 0u32),
            pixel_format: PixelFormatView::default_view(),
            caps: DDSCAPS::TEXTURE,
            reserved2: 0,
            dx10: None,
        }
    }
}

impl Dds {
    /// The extended header is there if and only if the pixel format announces it.
    pub open spec fn wf(self) -> bool {
        self@.wf()
    }

    /// The header that `s` starts with, and its length.
    pub open spec fn parse(s: Seq<u8>) -> Result<(DdsView, int), ReadError> {
        if !avail(s, 0, 4) {
            Err(ReadError::UnexpectedEnd)
        } else if le32(s, 0) != MAGIC {
            Err(ReadError::InvalidData { expected: MAGIC, found: le32(s, 0) })
        } else if !avail(s, 4, 4) {
            Err(ReadError::UnexpectedEnd)
        } else if le32(s, 4) != 124 {
            Err(ReadError::InvalidData { expected: 124, found: le32(s, 4) })
        } else if !avail(s, 8, 68) {
            Err(ReadError::UnexpectedEnd)
        } else {
            match PixelFormat::parse(s, 76) {
                Err(e) => Err(e),
                Ok(pixel_format) => if !avail(s, 108, 20) {
                    Err(ReadError::UnexpectedEnd)
                } else {
                    let dds = DdsView {
                        flags: le32(s, 8),
                        height: le32(s, 12),
                        width: le32(s, 16),
                        pitch: le32(s, 20),
                        depth: le32(s, 24),
                        mip_map_count: le32(s, 28),
                        reserved: numbers_at(s, 32, 11),
                        pixel_format,
                        caps: le_at(s, 108, 16) as u128,
                        reserved2: le32(s, 124),
                        dx10: None,
                    };
                    if pixel_format.four_cc == DX10@ {
                        match Dx10Header::parse(s, 128) {
                            Err(e) => Err(e),
                            Ok(dx10) => Ok((DdsView { dx10: Some(dx10), ..dds }, 148)),
                        }
                    } else {
                        Ok((dds, 128))
                    }
                },
            }
        }
    }

    /// Reads the header that `data` starts with. Gives the header and its length.
    pub fn read(data: &[u8]) -> (r: Result<(Dds, usize), ReadError>)
        ensures
            match r {
                Ok((dds, end)) => Self::parse(data@) == Ok::<(DdsView, int), ReadError>((dds@, end as int))
                    && dds.wf() && end <= data@.len(),
                Err(e) => Self::parse(data@) == Err::<(DdsView, int), ReadError>(e),
            },
    {
        let len: usize = data.len();
        check(data, 0, MAGIC)?;
        check(data, 4, 124)?;
        if len - 8 < 68 {
            return Err(ReadError::UnexpectedEnd);
        }
        let flags = number(data, 8)?;
        let height = number(data, 12)?;
        let width = number(data, 16)?;
        let pitch = number(data, 20)?;
        let depth = number(data, 24)?;
        let mip_map_count = number(data, 28)?;
        let mut reserved: [u32; 11] = [0; 11];
        let mut i: usize = 0;
        while i < 11
            invariant
                i <= 11,
                76 <= data@.len(),
                forall|k: int| 0 <= k < i ==> #[trigger] reserved@[k] == le32(data@, 32 + 4 * k),
            decreases 11 - i,
        {
            let v = number(data, 32 + 4 * i)?;
            reserved[i] = v;
            i += 1;
        }
        assert(reserved@ =~= numbers_at(data@, 32, 11));
        let pixel_format = PixelFormat::read(data, 76)?;
        if len - 108 < 20 {
            return Err(ReadError::UnexpectedEnd);
        }
        proof {
            crate::bytes::lemma_pow256_values();
        }
        let caps: u128 = read_le(data, 108, 16);
        let reserved2 = number(data, 124)?;
        let extended: bool = pixel_format.four_cc[0] == 0x44 && pixel_format.four_cc[1] == 0x58
            && pixel_format.four_cc[2] == 0x31 && pixel_format.four_cc[3] == 0x30;
        proof {
            if extended {
                assert(pixel_format.four_cc@ =~= DX10@);
            } else {
                assert(pixel_format.four_cc@ != DX10@) by {
                    if pixel_format.four_cc@ == DX10@ {
                        assert(pixel_format.four_cc@[0] == DX10@[0]);
                        assert(pixel_format.four_cc@[1] == DX10@[1]);
                        assert(pixel_format.four_cc@[2] == DX10@[2]);
                        assert(pixel_format.four_cc@[3] == DX10@[3]);
                    }
                }
            }
        }
        let (dx10, end): (Option<Dx10Header>, usize) = if extended {
            (Some(Dx10Header::read(data, 128)?), 148)
        } else {
            (None, 128)
        };
        Ok(
            (
                Dds {
                    flags,
                    height,
                    width,
                    pitch,
                    depth,
                    mip_map_count,
                    reserved,
                    pixel_format,
                    caps,
                    reserved2,
                    dx10,
                },
                end,
            ),
        )
    }

    /// Appends the bytes of the header.
    pub fn write(&self, out: &mut Vec<u8>)
        requires
            self.wf(),
        ensures
            final(out)@ == old(out)@ + self@.bytes(),
    {
        let ghost start = out@;
        put_u32(out, MAGIC);
        put_u32(out, 124);
        put_u32(out, self.flags);
        put_u32(out, self.height);
        put_u32(out, self.width);
        put_u32(out, self.pitch);
        put_u32(out, self.depth);
        put_u32(out, self.mip_map_count);
        let ghost fields = out@;
        let mut i: usize = 0;
        while i < 11
            invariant
                i <= 11,
                out@ == fields + numbers_bytes(self.reserved@.subrange(0, i as int)),
            decreases 11 - i,
        {
            proof {
                let next = self.reserved@.subrange(0, i + 1);
                assert(next.drop_last() =~= self.reserved@.subrange(0, i as int));
                assert(next.last() == self.reserved@[i as int]);
                assert((fields + numbers_bytes(self.reserved@.subrange(0, i as int))) + bytes32(
                    self.reserved@[i as int],
                ) =~= fields + numbers_bytes(next));
            }
            put_u32(out, self.reserved[i]);
            i += 1;
        }
        assert(self.reserved@.subrange(0, 11) =~= self.reserved@);
        self.pixel_format.write(out);
        push_le(out, self.caps, 16);
        put_u32(out, self.reserved2);
        match &self.dx10 {
            Some(dx10) => {
                dx10.write(out);
            },
            None => {},
        }
        assert(out@ =~= start + self@.bytes());
    }
}

impl Default for Dds {
    fn default() -> (dds: Self)
        ensures
            dds.wf(),
            dds@ == DdsView::default_view(),
    {
        let pixel_format = PixelFormat::default();
        assert(pixel_format.four_cc@ != DX10@) by {
            if pixel_format.four_cc@ == DX10@ {
                assert(pixel_format.four_cc@[0] == DX10@[0]);
            }
        }
        let reserved: [u32; 11] = [0; 11];
        assert(reserved@ =~= Seq::new(11, |i: int| 0u32));
        Dds {
            flags: DDSD::DEFAULT,
            height: 0,
            width: 0,
            pitch: 0,
            depth: 0,
            mip_map_count: 1,
            reserved,
            pixel_format,
            caps: DDSCAPS::TEXTURE,
            reserved2: 0,
            dx10: None,
        }
    }
}

} // verus!
