//! The header parser: file header, version dispatch, core and info headers,
//! bitfield masks, the inert colorimetry and profile blocks, and the palette.
//!
//! Every parser has a spec mirror over the raw byte sequence; the exec
//! parsers are proved to return exactly what the mirror says and to leave
//! the cursor exactly where the mirror says.

use vstd::prelude::*;

use crate::bytes::{le16, le32, read_i16, read_i32, read_u16, read_u32, read_u8, signed16,
    signed32};
use crate::errors::{eof_error, DecodeError, HeaderError};

verus! {

/// The outer file type; only device-independent bitmaps are recognized.
#[derive(Clone, Copy, Debug, PartialEq, Eq, Structural)]
pub enum FileType {
    DeviceIndependentBitmap,
}

/// The header generation, derived from the header-size field.
#[derive(Clone, Copy, Debug, PartialEq, Eq, Structural)]
pub enum Version {
    Microsoft2,
    Microsoft3,
    Microsoft4,
    Microsoft5,
}

/// The compression modes; `None` in the info header stands for an
/// uncompressed raster.
#[derive(Clone, Copy, Debug, PartialEq, Eq, Structural)]
pub enum Compression {
    RunLength8,
    RunLength4,
    Bitmask,
}

/// Geometry and pixel format, normalized over all header generations.
#[derive(Clone, Copy, Debug, PartialEq, Eq, Structural)]
pub struct CoreHeader {
    pub version: Version,
    pub width: u32,
    pub height: u32,
    pub bpp: u32,
    pub planes: u16,
    pub top_down: bool,
}

/// Extended metadata, present from the third header generation on.
#[derive(Clone, Copy, Debug, PartialEq, Eq, Structural)]
pub struct InfoHeader {
    pub compression: Option<Compression>,
    pub image_size: u32,
    pub ppm_x: i32,
    pub ppm_y: i32,
    pub used_colors: u32,
    pub important_colors: u32,
}

/// Per-channel bit masks for 16- and 32-bit pixels.
#[derive(Clone, Copy, Debug, PartialEq, Eq, Structural)]
pub struct BitfieldMask {
    pub red: u32,
    pub green: u32,
    pub blue: u32,
    pub alpha: u32,
}

/// CIE XYZ endpoints and gamma values; parsed for alignment, never used
/// to transform pixels.
#[derive(Clone, Copy, Debug, PartialEq, Eq, Structural)]
pub struct ExtraHeader {
    pub color_space_type: u32,
    pub red_x: i32,
    pub red_y: i32,
    pub red_z: i32,
    pub green_x: i32,
    pub green_y: i32,
    pub green_z: i32,
    pub blue_x: i32,
    pub blue_y: i32,
    pub blue_z: i32,
    pub gamma_red: u32,
    pub gamma_green: u32,
    pub gamma_blue: u32,
}

/// ICC profile descriptor; parsed for alignment, never used.
#[derive(Clone, Copy, Debug, PartialEq, Eq, Structural)]
pub struct ProfileHeader {
    pub intent: u32,
    pub data: u32,
    pub size: u32,
    pub reserved: u32,
}

/// What the file-type parse at `i` yields, and the position after it.
pub open spec fn spec_file_type(d: Seq<u8>, i: int) -> Result<(FileType, int), DecodeError> {
    if i + 2 > d.len() {
        Err(eof_error())
    } else if le16(d, i) == 0x4D42 {
        Ok((FileType::DeviceIndependentBitmap, i + 2))
    } else {
        Err(DecodeError::Header(HeaderError::BadMagic))
    }
}

/// What the whole 14-byte file header parse at `i` yields.
pub open spec fn spec_read_file_header(d: Seq<u8>, i: int) -> Result<
    (FileType, int),
    DecodeError,
> {
    match spec_file_type(d, i) {
        Err(e) => Err(e),
        Ok((ft, j)) => if j + 12 > d.len() {
            Err(eof_error())
        } else {
            Ok((ft, j + 12))
        },
    }
}

/// What the header-size field at `i` selects.
pub open spec fn spec_version(d: Seq<u8>, i: int) -> Result<(Version, int), DecodeError> {
    if i + 4 > d.len() {
        Err(eof_error())
    } else {
        let v = le32(d, i);
        if v == 0x0C {
            Ok((Version::Microsoft2, i + 4))
        } else if v == 0x28 {
            Ok((Version::Microsoft3, i + 4))
        } else if v == 0x6C {
            Ok((Version::Microsoft4, i + 4))
        } else if v == 0x7C {
            Ok((Version::Microsoft5, i + 4))
        } else {
            Err(DecodeError::Header(HeaderError::UnsupportedVersion(v as u32)))
        }
    }
}

/// The shared tail of the core header: absolute values and orientation
/// from the signed dimensions `w` and `h`, then planes and bit depth.
pub open spec fn spec_core_rest(d: Seq<u8>, i: int, version: Version, w: int, h: int) -> Result<
    (CoreHeader, int),
    DecodeError,
> {
    if w == -0x80000000 || h == -0x80000000 {
        Err(DecodeError::Header(HeaderError::InvalidDimension))
    } else if i + 2 > d.len() {
        Err(eof_error())
    } else if le16(d, i) != 1 {
        Err(DecodeError::Header(HeaderError::InvalidPlanes))
    } else if i + 4 > d.len() {
        Err(eof_error())
    } else {
        let bpp = le16(d, i + 2);
        if bpp == 1 || bpp == 4 || bpp == 8 || bpp == 24 || ((bpp == 16 || bpp == 32) && version
            != Version::Microsoft2) {
            Ok(
                (
                    CoreHeader {
                        version,
                        width: (if w < 0 {
                            -w
                        } else {
                            w
                        }) as u32,
                        height: (if h < 0 {
                            -h
                        } else {
                            h
                        }) as u32,
                        bpp: bpp as u32,
                        planes: 1,
                        top_down: h < 0,
                    },
                    i + 4,
                ),
            )
        } else {
            Err(DecodeError::Header(HeaderError::InvalidBitDepth))
        }
    }
}

/// What the version-specific core header parse at `i` yields.
pub open spec fn spec_core_header(d: Seq<u8>, i: int, version: Version) -> Result<
    (CoreHeader, int),
    DecodeError,
> {
    if version == Version::Microsoft2 {
        if i + 4 > d.len() {
            Err(eof_error())
        } else {
            spec_core_rest(d, i + 4, version, signed16(le16(d, i)), signed16(le16(d, i + 2)))
        }
    } else {
        if i + 8 > d.len() {
            Err(eof_error())
        } else {
            spec_core_rest(d, i + 8, version, signed32(le32(d, i)), signed32(le32(d, i + 4)))
        }
    }
}

/// What the compression field at `i` means for bit depth `bpp`.
pub open spec fn spec_compression(d: Seq<u8>, i: int, bpp: u32) -> Result<
    (Option<Compression>, int),
    DecodeError,
> {
    if i + 4 > d.len() {
        Err(eof_error())
    } else {
        let v = le32(d, i);
        if v == 0 {
            Ok((None, i + 4))
        } else if v == 1 && bpp == 8 {
            Ok((Some(Compression::RunLength8), i + 4))
        } else if v == 2 && bpp == 4 {
            Ok((Some(Compression::RunLength4), i + 4))
        } else if v == 3 && (bpp == 16 || bpp == 32) {
            Ok((Some(Compression::Bitmask), i + 4))
        } else {
            Err(DecodeError::Header(HeaderError::InvalidCompression(v as u32)))
        }
    }
}

/// What the 20-byte info-header tail parse at `i` yields.
pub open spec fn spec_info_header(d: Seq<u8>, i: int, compression: Option<Compression>) -> Result<
    (InfoHeader, int),
    DecodeError,
> {
    if i + 20 > d.len() {
        Err(eof_error())
    } else {
        Ok(
            (
                InfoHeader {
                    compression,
                    image_size: le32(d, i) as u32,
                    ppm_x: signed32(le32(d, i + 4)) as i32,
                    ppm_y: signed32(le32(d, i + 8)) as i32,
                    used_colors: le32(d, i + 12) as u32,
                    important_colors: le32(d, i + 16) as u32,
                },
                i + 20,
            ),
        )
    }
}

/// What the explicit mask block at `i` holds: three masks, plus an alpha
/// mask from the fourth and fifth header generations.
pub open spec fn spec_mask_block(d: Seq<u8>, i: int, version: Version) -> Result<
    (BitfieldMask, int),
    DecodeError,
> {
    let n: int = if version == Version::Microsoft4 || version == Version::Microsoft5 {
        16
    } else {
        12
    };
    if i + n > d.len() {
        Err(eof_error())
    } else {
        Ok(
            (
                BitfieldMask {
                    red: le32(d, i) as u32,
                    green: le32(d, i + 4) as u32,
                    blue: le32(d, i + 8) as u32,
                    alpha: if n == 16 {
                        le32(d, i + 12) as u32
                    } else {
                        0
                    },
                },
                i + n,
            ),
        )
    }
}

/// The all-zero mask.
pub open spec fn spec_zero_mask() -> BitfieldMask {
    BitfieldMask { red: 0, green: 0, blue: 0, alpha: 0 }
}

/// The implicit mask for an uncompressed direct-color bit depth: 5-5-5
/// for 16 bits, 8-8-8 for 32 bits, zero otherwise.
pub open spec fn spec_mask_from_bpp(bpp: u32) -> BitfieldMask {
    if bpp == 16 {
        BitfieldMask { red: 0x7C00, green: 0x3E0, blue: 0x1F, alpha: 0 }
    } else if bpp == 32 {
        BitfieldMask { red: 0xFF0000, green: 0xFF00, blue: 0xFF, alpha: 0 }
    } else {
        spec_zero_mask()
    }
}

/// The mask the decoder will use when no explicit mask block applies.
pub open spec fn spec_implicit_mask(compression: Option<Compression>, bpp: u32) -> BitfieldMask {
    if compression is None {
        spec_mask_from_bpp(bpp)
    } else {
        spec_zero_mask()
    }
}

/// The mask-resolution policy: which bytes are consumed at `i` and which
/// mask the decoder will use.  The third generation carries an explicit
/// block only under bitfield compression; the fourth and fifth always
/// carry their mask words, which are consumed but overridden by the
/// implicit policy unless bitfield compression selected them.
pub open spec fn spec_read_bitmask(
    d: Seq<u8>,
    i: int,
    version: Version,
    compression: Option<Compression>,
    bpp: u32,
) -> Result<(BitfieldMask, int), DecodeError> {
    if version == Version::Microsoft2 {
        Ok((spec_zero_mask(), i))
    } else if version == Version::Microsoft3 {
        if compression == Some(Compression::Bitmask) {
            spec_mask_block(d, i, version)
        } else {
            Ok((spec_implicit_mask(compression, bpp), i))
        }
    } else {
        match spec_mask_block(d, i, version) {
            Err(e) => Err(e),
            Ok((m, j)) => Ok(
                (
                    if compression == Some(Compression::Bitmask) {
                        m
                    } else {
                        spec_implicit_mask(compression, bpp)
                    },
                    j,
                ),
            ),
        }
    }
}

/// What the 52-byte colorimetry block parse at `i` yields.
pub open spec fn spec_extra_header(d: Seq<u8>, i: int) -> Result<(ExtraHeader, int), DecodeError> {
    if i + 52 > d.len() {
        Err(eof_error())
    } else {
        Ok(
            (
                ExtraHeader {
                    color_space_type: le32(d, i) as u32,
                    red_x: signed32(le32(d, i + 4)) as i32,
                    red_y: signed32(le32(d, i + 8)) as i32,
                    red_z: signed32(le32(d, i + 12)) as i32,
                    green_x: signed32(le32(d, i + 16)) as i32,
                    green_y: signed32(le32(d, i + 20)) as i32,
                    green_z: signed32(le32(d, i + 24)) as i32,
                    blue_x: signed32(le32(d, i + 28)) as i32,
                    blue_y: signed32(le32(d, i + 32)) as i32,
                    blue_z: signed32(le32(d, i + 36)) as i32,
                    gamma_red: le32(d, i + 40) as u32,
                    gamma_green: le32(d, i + 44) as u32,
                    gamma_blue: le32(d, i + 48) as u32,
                },
                i + 52,
            ),
        )
    }
}

/// What the 16-byte profile block parse at `i` yields.
pub open spec fn spec_profile_header(d: Seq<u8>, i: int) -> Result<
    (ProfileHeader, int),
    DecodeError,
> {
    if i + 16 > d.len() {
        Err(eof_error())
    } else {
        Ok(
            (
                ProfileHeader {
                    intent: le32(d, i) as u32,
                    data: le32(d, i + 4) as u32,
                    size: le32(d, i + 8) as u32,
                    reserved: le32(d, i + 12) as u32,
                },
                i + 16,
            ),
        )
    }
}

impl FileType {
    /// Parses the two magic bytes.
    pub fn parse(d: &Vec<u8>, pos: &mut usize) -> (r: Result<FileType, DecodeError>)
        ensures
            match spec_file_type(d@, *old(pos) as int) {
                Ok((v, p2)) => r is Ok && r->Ok_0 == v && *final(pos) == p2,
                Err(e) => r is Err && r->Err_0 == e,
            },
    {
        let v = read_u16(d, pos)?;
        if v == 0x4D42 {
            Ok(FileType::DeviceIndependentBitmap)
        } else {
            Err(DecodeError::Header(HeaderError::BadMagic))
        }
    }
}

impl Version {
    /// Parses the header-size field and maps it to a generation.
    pub fn parse(d: &Vec<u8>, pos: &mut usize) -> (r: Result<Version, DecodeError>)
        ensures
            match spec_version(d@, *old(pos) as int) {
                Ok((v, p2)) => r is Ok && r->Ok_0 == v && *final(pos) == p2,
                Err(e) => r is Err && r->Err_0 == e,
            },
    {
        let v = read_u32(d, pos)?;
        match v {
            0x0C => Ok(Version::Microsoft2),
            0x28 => Ok(Version::Microsoft3),
            0x6C => Ok(Version::Microsoft4),
            0x7C => Ok(Version::Microsoft5),
            _ => Err(DecodeError::Header(HeaderError::UnsupportedVersion(v))),
        }
    }
}

impl Compression {
    /// Parses the compression field and validates it against the bit depth.
    pub fn parse(d: &Vec<u8>, pos: &mut usize, bpp: u32) -> (r: Result<
        Option<Compression>,
        DecodeError,
    >)
        ensures
            match spec_compression(d@, *old(pos) as int, bpp) {
                Ok((v, p2)) => r is Ok && r->Ok_0 == v && *final(pos) == p2,
                Err(e) => r is Err && r->Err_0 == e,
            },
    {
        let v = read_u32(d, pos)?;
        if v == 0 {
            Ok(None)
        } else if v == 1 && bpp == 8 {
            Ok(Some(Compression::RunLength8))
        } else if v == 2 && bpp == 4 {
            Ok(Some(Compression::RunLength4))
        } else if v == 3 && (bpp == 16 || bpp == 32) {
            Ok(Some(Compression::Bitmask))
        } else {
            Err(DecodeError::Header(HeaderError::InvalidCompression(v)))
        }
    }
}

impl CoreHeader {
    /// Parses the version-specific core region: dimensions, orientation,
    /// planes and bit depth.
    pub fn parse(d: &Vec<u8>, pos: &mut usize, version: Version) -> (r: Result<
        CoreHeader,
        DecodeError,
    >)
        ensures
            match spec_core_header(d@, *old(pos) as int, version) {
                Ok((v, p2)) => r is Ok && r->Ok_0 == v && *final(pos) == p2,
                Err(e) => r is Err && r->Err_0 == e,
            },
    {
        let (w, h): (i32, i32) = match version {
            Version::Microsoft2 => {
                let w = read_i16(d, pos)?;
                let h = read_i16(d, pos)?;
                (w, h)
            },
            _ => {
                let w = read_i32(d, pos)?;
                let h = read_i32(d, pos)?;
                (w, h)
            },
        };
        let top_down = h < 0;
        if w == i32::MIN || h == i32::MIN {
            return Err(DecodeError::Header(HeaderError::InvalidDimension));
        }
        let width = if w < 0 {
            (-w) as u32
        } else {
            w as u32
        };
        let height = if h < 0 {
            (-h) as u32
        } else {
            h as u32
        };
        let planes = read_u16(d, pos)?;
        if planes != 1 {
            return Err(DecodeError::Header(HeaderError::InvalidPlanes));
        }
        let bpp16 = read_u16(d, pos)?;
        let bpp = bpp16 as u32;
        let ok_depth = bpp == 1 || bpp == 4 || bpp == 8 || bpp == 24 || ((bpp == 16 || bpp == 32)
            && !matches!(version, Version::Microsoft2));
        if !ok_depth {
            return Err(DecodeError::Header(HeaderError::InvalidBitDepth));
        }
        Ok(CoreHeader { version, width, height, bpp, planes, top_down })
    }
}

impl InfoHeader {
    /// Parses the info-header tail: image data size, resolution and the
    /// color counts.
    pub fn parse(d: &Vec<u8>, pos: &mut usize, compression: Option<Compression>) -> (r: Result<
        InfoHeader,
        DecodeError,
    >)
        ensures
            match spec_info_header(d@, *old(pos) as int, compression) {
                Ok((v, p2)) => r is Ok && r->Ok_0 == v && *final(pos) == p2,
                Err(e) => r is Err && r->Err_0 == e,
            },
    {
        let image_size = read_u32(d, pos)?;
        let ppm_x = read_i32(d, pos)?;
        let ppm_y = read_i32(d, pos)?;
        let used_colors = read_u32(d, pos)?;
        let important_colors = read_u32(d, pos)?;
        Ok(InfoHeader { compression, image_size, ppm_x, ppm_y, used_colors, important_colors })
    }
}

impl BitfieldMask {
    /// The all-zero mask: unused by the palette-driven decoders.
    pub fn new() -> (r: BitfieldMask)
        ensures
            r == spec_zero_mask(),
    {
        BitfieldMask { red: 0x00, green: 0x00, blue: 0x00, alpha: 0x00 }
    }

    /// The implicit mask a direct-color bit depth carries when none is
    /// declared.
    pub fn from_bpp(bpp: u32) -> (r: BitfieldMask)
        ensures
            r == spec_mask_from_bpp(bpp),
    {
        match bpp {
            16 => BitfieldMask { red: 0x7C00, green: 0x3E0, blue: 0x1F, alpha: 0x00 },
            32 => BitfieldMask { red: 0xFF0000, green: 0xFF00, blue: 0xFF, alpha: 0x00 },
            _ => BitfieldMask::new(),
        }
    }

    /// Parses an explicit mask block.
    pub fn parse(d: &Vec<u8>, pos: &mut usize, version: Version) -> (r: Result<
        BitfieldMask,
        DecodeError,
    >)
        ensures
            match spec_mask_block(d@, *old(pos) as int, version) {
                Ok((v, p2)) => r is Ok && r->Ok_0 == v && *final(pos) == p2,
                Err(e) => r is Err && r->Err_0 == e,
            },
    {
        let red = read_u32(d, pos)?;
        let green = read_u32(d, pos)?;
        let blue = read_u32(d, pos)?;
        let alpha = match version {
            Version::Microsoft4 | Version::Microsoft5 => read_u32(d, pos)?,
            _ => 0x00,
        };
        Ok(BitfieldMask { red, green, blue, alpha })
    }
}

impl ExtraHeader {
    /// Parses the colorimetry block; its content never reaches the pixel
    /// decoders.
    pub fn parse(d: &Vec<u8>, pos: &mut usize) -> (r: Result<ExtraHeader, DecodeError>)
        ensures
            match spec_extra_header(d@, *old(pos) as int) {
                Ok((v, p2)) => r is Ok && r->Ok_0 == v && *final(pos) == p2,
                Err(e) => r is Err && r->Err_0 == e,
            },
    {
        let color_space_type = read_u32(d, pos)?;
        let red_x = read_i32(d, pos)?;
        let red_y = read_i32(d, pos)?;
        let red_z = read_i32(d, pos)?;
        let green_x = read_i32(d, pos)?;
        let green_y = read_i32(d, pos)?;
        let green_z = read_i32(d, pos)?;
        let blue_x = read_i32(d, pos)?;
        let blue_y = read_i32(d, pos)?;
        let blue_z = read_i32(d, pos)?;
        let gamma_red = read_u32(d, pos)?;
        let gamma_green = read_u32(d, pos)?;
        let gamma_blue = read_u32(d, pos)?;
        Ok(
            ExtraHeader {
                color_space_type,
                red_x,
                red_y,
                red_z,
                green_x,
                green_y,
                green_z,
                blue_x,
                blue_y,
                blue_z,
                gamma_red,
                gamma_green,
                gamma_blue,
            },
        )
    }
}

impl ProfileHeader {
    /// Parses the ICC profile descriptor; its content never reaches the
    /// pixel decoders.
    pub fn parse(d: &Vec<u8>, pos: &mut usize) -> (r: Result<ProfileHeader, DecodeError>)
        ensures
            match spec_profile_header(d@, *old(pos) as int) {
                Ok((v, p2)) => r is Ok && r->Ok_0 == v && *final(pos) == p2,
                Err(e) => r is Err && r->Err_0 == e,
            },
    {
        let intent = read_u32(d, pos)?;
        let data = read_u32(d, pos)?;
        let size = read_u32(d, pos)?;
        let reserved = read_u32(d, pos)?;
        Ok(ProfileHeader { intent, data, size, reserved })
    }
}

/// Parses the 14-byte file header; the size and data-offset fields are
/// consumed and discarded.
pub fn read_file_header(d: &Vec<u8>, pos: &mut usize) -> (r: Result<FileType, DecodeError>)
    ensures
        match spec_read_file_header(d@, *old(pos) as int) {
            Ok((v, p2)) => r is Ok && r->Ok_0 == v && *final(pos) == p2,
            Err(e) => r is Err && r->Err_0 == e,
        },
{
    let file_type = FileType::parse(d, pos)?;
    let _file_size = read_u32(d, pos)?;
    let _reserved = read_u32(d, pos)?;
    let _data_offset = read_u32(d, pos)?;
    Ok(file_type)
}

/// Consumes any explicit mask block and resolves the mask the pixel
/// decoders will use.
pub fn read_bitmask(
    d: &Vec<u8>,
    pos: &mut usize,
    version: Version,
    compression: Option<Compression>,
    bpp: u32,
) -> (r: Result<BitfieldMask, DecodeError>)
    ensures
        match spec_read_bitmask(d@, *old(pos) as int, version, compression, bpp) {
            Ok((v, p2)) => r is Ok && r->Ok_0 == v && *final(pos) == p2,
            Err(e) => r is Err && r->Err_0 == e,
        },
{
    match version {
        Version::Microsoft2 => Ok(BitfieldMask::new()),
        Version::Microsoft3 => {
            if matches!(compression, Some(Compression::Bitmask)) {
                BitfieldMask::parse(d, pos, version)
            } else if matches!(compression, None) {
                Ok(BitfieldMask::from_bpp(bpp))
            } else {
                Ok(BitfieldMask::new())
            }
        },
        Version::Microsoft4 | Version::Microsoft5 => {
            let m = BitfieldMask::parse(d, pos, version)?;
            if matches!(compression, Some(Compression::Bitmask)) {
                Ok(m)
            } else if matches!(compression, None) {
                Ok(BitfieldMask::from_bpp(bpp))
            } else {
                Ok(BitfieldMask::new())
            }
        },
    }
}

} // verus!
