use bmp_rs::channel::{clamp8bit, trailing_zeros};
use bmp_rs::errors::{ConfigError, DecodeError, HeaderError, IoError, PixelDataError};
use bmp_rs::{decode, Builder};

struct Recorder {
    dims: Vec<(u32, u32)>,
    pixels: Vec<(u32, u32, u8, u8, u8, u8)>,
    builds: u32,
}

impl Recorder {
    fn new() -> Recorder {
        Recorder { dims: Vec::new(), pixels: Vec::new(), builds: 0 }
    }
}

impl Builder for Recorder {
    type TResult = usize;

    fn set_size(&mut self, width: u32, height: u32) {
        self.dims.push((width, height));
    }

    fn set_pixel(&mut self, x: u32, y: u32, r: u8, g: u8, b: u8, a: u8) {
        self.pixels.push((x, y, r, g, b, a));
    }

    fn build(&mut self) -> Result<usize, DecodeError> {
        self.builds += 1;
        Ok(self.pixels.len())
    }
}

fn push16(d: &mut Vec<u8>, v: u16) {
    d.extend_from_slice(&v.to_le_bytes());
}

fn push32(d: &mut Vec<u8>, v: u32) {
    d.extend_from_slice(&v.to_le_bytes());
}

/// The 14-byte file header followed by a 40-byte info header.
fn header_v3(width: i32, height: i32, bpp: u16, compression: u32, image_size: u32, used: u32) -> Vec<u8> {
    let mut d = vec![0x42, 0x4D];
    push32(&mut d, 0); // file size, unused
    push32(&mut d, 0); // reserved
    push32(&mut d, 0); // data offset, unused
    push32(&mut d, 40);
    push32(&mut d, width as u32);
    push32(&mut d, height as u32);
    push16(&mut d, 1);
    push16(&mut d, bpp);
    push32(&mut d, compression);
    push32(&mut d, image_size);
    push32(&mut d, 0);
    push32(&mut d, 0);
    push32(&mut d, used);
    push32(&mut d, 0);
    d
}

/// A 4-bytes-per-entry palette whose entry `i` is the gray (i, i, i).
fn gray_palette(n: u32) -> Vec<u8> {
    let mut d = Vec::new();
    for i in 0..n {
        let v = (i & 0xFF) as u8;
        d.extend_from_slice(&[v, v, v, 0]);
    }
    d
}

#[test]
fn single_pixel_24bpp_bottom_up() {
    let mut d = header_v3(1, 1, 24, 0, 0, 0);
    d.extend_from_slice(&[0x0A, 0x14, 0x1E, 0x00]);
    let mut rec = Recorder::new();
    let r = decode(&d, &mut rec);
    assert_eq!(r, Ok(1));
    assert_eq!(rec.dims, vec![(1, 1)]);
    assert_eq!(rec.pixels, vec![(0, 0, 30, 20, 10, 255)]);
    assert_eq!(rec.builds, 1);
}

#[test]
fn two_rows_1bpp_bottom_up_row_order() {
    let mut d = header_v3(2, 2, 1, 0, 0, 0);
    // palette: black, then white
    d.extend_from_slice(&[0, 0, 0, 0]);
    d.extend_from_slice(&[255, 255, 255, 0]);
    // stored row 0: pixels 0 then 1; stored row 1: pixels 1 then 0
    d.extend_from_slice(&[0b0100_0000, 0, 0, 0]);
    d.extend_from_slice(&[0b1000_0000, 0, 0, 0]);
    let mut rec = Recorder::new();
    let r = decode(&d, &mut rec);
    assert_eq!(r, Ok(4));
    // bottom-up: stored row 0 is delivered as the last logical row
    assert_eq!(
        rec.pixels,
        vec![
            (0, 1, 0, 0, 0, 255),
            (1, 1, 255, 255, 255, 255),
            (0, 0, 255, 255, 255, 255),
            (1, 0, 0, 0, 0, 255),
        ]
    );
}

#[test]
fn top_down_rows_unchanged() {
    let mut d = header_v3(1, -2, 24, 0, 0, 0);
    d.extend_from_slice(&[1, 2, 3, 0]); // stored row 0
    d.extend_from_slice(&[4, 5, 6, 0]); // stored row 1
    let mut rec = Recorder::new();
    let r = decode(&d, &mut rec);
    assert_eq!(r, Ok(2));
    assert_eq!(rec.pixels, vec![(0, 0, 3, 2, 1, 255), (0, 1, 6, 5, 4, 255)]);
}

#[test]
fn rle4_absolute_run_padding() {
    let mut d = header_v3(4, 1, 4, 2, 8, 0);
    d.extend_from_slice(&gray_palette(16));
    // absolute run of 5 nibbles: 3 packed bytes, then 1 pad byte, then end of bitmap
    d.extend_from_slice(&[0x00, 0x05, 0x12, 0x34, 0x56, 0x00, 0x00, 0x01]);
    let mut rec = Recorder::new();
    let r = decode(&d, &mut rec);
    assert_eq!(r, Ok(5));
    assert_eq!(rec.pixels[0], (0, 0, 1, 1, 1, 255));
    assert_eq!(rec.pixels[1], (1, 0, 2, 2, 2, 255));
    assert_eq!(rec.pixels[2], (2, 0, 3, 3, 3, 255));
    assert_eq!(rec.pixels[3], (3, 0, 4, 4, 4, 255));
    // the fifth literal wraps past the row end onto the previous row
    assert_eq!(rec.pixels[4], (0, u32::MAX, 5, 5, 5, 255));
}

#[test]
fn rle8_absolute_run_pad_realigns_next_opcode() {
    let mut d = header_v3(4, 2, 8, 1, 10, 0);
    d.extend_from_slice(&gray_palette(256));
    // absolute run of 3 literals + 1 pad, then an encoded run readable
    // only if the pad byte was discarded, then end of bitmap
    d.extend_from_slice(&[0x00, 0x03, 1, 2, 3, 0xEE, 0x02, 0x07, 0x00, 0x01]);
    let mut rec = Recorder::new();
    let r = decode(&d, &mut rec);
    assert_eq!(r, Ok(5));
    assert_eq!(
        rec.pixels,
        vec![
            (0, 1, 1, 1, 1, 255),
            (1, 1, 2, 2, 2, 255),
            (2, 1, 3, 3, 3, 255),
            (3, 1, 7, 7, 7, 255),
            (0, 0, 7, 7, 7, 255),
        ]
    );
}

#[test]
fn rle8_end_of_bitmap_stops_early() {
    let mut d = header_v3(4, 2, 8, 1, 8, 0);
    d.extend_from_slice(&gray_palette(256));
    // one pixel, then end of bitmap; the remaining declared bytes are ignored
    d.extend_from_slice(&[0x01, 0x05, 0x00, 0x01, 0xAA, 0xBB, 0xCC, 0xDD]);
    let mut rec = Recorder::new();
    let r = decode(&d, &mut rec);
    assert_eq!(r, Ok(1));
    assert_eq!(rec.pixels, vec![(0, 1, 5, 5, 5, 255)]);
}

#[test]
fn pixel_16bpp_default_mask_extremes() {
    let mut d = header_v3(2, 1, 16, 0, 0, 0);
    d.extend_from_slice(&[0xFF, 0xFF, 0x00, 0x00]);
    let mut rec = Recorder::new();
    let r = decode(&d, &mut rec);
    assert_eq!(r, Ok(2));
    assert_eq!(rec.pixels, vec![(0, 0, 255, 255, 255, 255), (1, 0, 0, 0, 0, 255)]);
}

#[test]
fn unsupported_header_size_200() {
    let mut d = vec![0x42, 0x4D];
    push32(&mut d, 0);
    push32(&mut d, 0);
    push32(&mut d, 0);
    push32(&mut d, 200);
    let mut rec = Recorder::new();
    let r = decode(&d, &mut rec);
    assert_eq!(r, Err(DecodeError::Header(HeaderError::UnsupportedVersion(200))));
    assert!(rec.dims.is_empty());
    assert!(rec.pixels.is_empty());
    assert_eq!(rec.builds, 0);
}

#[test]
fn rle8_missing_compressed_length() {
    let mut d = header_v3(1, 1, 8, 1, 0, 0);
    d.extend_from_slice(&gray_palette(256));
    let mut rec = Recorder::new();
    let r = decode(&d, &mut rec);
    assert_eq!(r, Err(DecodeError::Config(ConfigError::MissingCompressedLength)));
    assert_eq!(rec.dims, vec![(1, 1)]);
    assert!(rec.pixels.is_empty());
    assert_eq!(rec.builds, 0);
}

#[test]
fn palette_index_out_of_range() {
    // a one-entry palette, but the pixel byte names entry 5
    let mut d = header_v3(1, 1, 8, 0, 0, 1);
    d.extend_from_slice(&[9, 9, 9, 0]);
    d.extend_from_slice(&[5, 0, 0, 0]);
    let mut rec = Recorder::new();
    let r = decode(&d, &mut rec);
    assert_eq!(r, Err(DecodeError::PixelData(PixelDataError::PaletteIndexOutOfRange)));
    assert_eq!(rec.dims, vec![(1, 1)]);
    assert!(rec.pixels.is_empty());
}

#[test]
fn rle8_palette_index_out_of_range() {
    let mut d = header_v3(2, 1, 8, 1, 4, 1);
    d.extend_from_slice(&[9, 9, 9, 0]);
    d.extend_from_slice(&[0x02, 0x07, 0x00, 0x01]);
    let mut rec = Recorder::new();
    let r = decode(&d, &mut rec);
    assert_eq!(r, Err(DecodeError::PixelData(PixelDataError::PaletteIndexOutOfRange)));
    assert!(rec.pixels.is_empty());
}

#[test]
fn bad_magic() {
    let mut d = vec![0x41, 0x4D];
    push32(&mut d, 0);
    push32(&mut d, 0);
    push32(&mut d, 0);
    push32(&mut d, 40);
    let mut rec = Recorder::new();
    assert_eq!(decode(&d, &mut rec), Err(DecodeError::Header(HeaderError::BadMagic)));
}

#[test]
fn invalid_planes() {
    let mut d = header_v3(1, 1, 24, 0, 0, 0);
    d[26] = 2; // planes field
    let mut rec = Recorder::new();
    assert_eq!(decode(&d, &mut rec), Err(DecodeError::Header(HeaderError::InvalidPlanes)));
}

#[test]
fn invalid_bit_depth() {
    let d = header_v3(1, 1, 7, 0, 0, 0);
    let mut rec = Recorder::new();
    assert_eq!(decode(&d, &mut rec), Err(DecodeError::Header(HeaderError::InvalidBitDepth)));
}

#[test]
fn invalid_compression_for_depth() {
    let d = header_v3(1, 1, 24, 1, 0, 0);
    let mut rec = Recorder::new();
    assert_eq!(
        decode(&d, &mut rec),
        Err(DecodeError::Header(HeaderError::InvalidCompression(1)))
    );
}

#[test]
fn invalid_dimension() {
    let d = header_v3(i32::MIN, 1, 24, 0, 0, 0);
    let mut rec = Recorder::new();
    assert_eq!(decode(&d, &mut rec), Err(DecodeError::Header(HeaderError::InvalidDimension)));
}

#[test]
fn invalid_palette_size_for_direct_color() {
    let d = header_v3(1, 1, 24, 0, 0, 3);
    let mut rec = Recorder::new();
    assert_eq!(decode(&d, &mut rec), Err(DecodeError::Header(HeaderError::InvalidPaletteSize)));
}

#[test]
fn truncated_stream() {
    let mut d = header_v3(1, 1, 24, 0, 0, 0);
    d.extend_from_slice(&[0x0A, 0x14]);
    let mut rec = Recorder::new();
    assert_eq!(decode(&d, &mut rec), Err(DecodeError::Io(IoError::UnexpectedEof)));
}

#[test]
fn v2_single_pixel_24bpp() {
    let mut d = vec![0x42, 0x4D];
    push32(&mut d, 0);
    push32(&mut d, 0);
    push32(&mut d, 0);
    push32(&mut d, 12);
    push16(&mut d, 1); // width
    push16(&mut d, 1); // height
    push16(&mut d, 1); // planes
    push16(&mut d, 24);
    d.extend_from_slice(&[10, 20, 30, 0]);
    let mut rec = Recorder::new();
    let r = decode(&d, &mut rec);
    assert_eq!(r, Ok(1));
    assert_eq!(rec.pixels, vec![(0, 0, 30, 20, 10, 255)]);
}

#[test]
fn v4_explicit_bitfield_masks() {
    let mut d = vec![0x42, 0x4D];
    push32(&mut d, 0);
    push32(&mut d, 0);
    push32(&mut d, 0);
    push32(&mut d, 108);
    push32(&mut d, 1); // width
    push32(&mut d, 1); // height
    push16(&mut d, 1);
    push16(&mut d, 32);
    push32(&mut d, 3); // bitfield compression
    push32(&mut d, 0);
    push32(&mut d, 0);
    push32(&mut d, 0);
    push32(&mut d, 0);
    push32(&mut d, 0);
    push32(&mut d, 0x0000_00FF); // red
    push32(&mut d, 0x0000_FF00); // green
    push32(&mut d, 0x00FF_0000); // blue
    push32(&mut d, 0xFF00_0000); // alpha
    for _ in 0..13 {
        push32(&mut d, 0); // colorimetry block
    }
    d.extend_from_slice(&[0x80, 0x40, 0x20, 0xFF]);
    let mut rec = Recorder::new();
    let r = decode(&d, &mut rec);
    assert_eq!(r, Ok(1));
    assert_eq!(rec.pixels, vec![(0, 0, 128, 64, 32, 255)]);
}

#[test]
fn v5_profile_block_consumed() {
    let mut d = vec![0x42, 0x4D];
    push32(&mut d, 0);
    push32(&mut d, 0);
    push32(&mut d, 0);
    push32(&mut d, 124);
    push32(&mut d, 1);
    push32(&mut d, 1);
    push16(&mut d, 1);
    push16(&mut d, 16);
    push32(&mut d, 0); // no compression: the implicit 5-5-5 mask applies
    push32(&mut d, 0);
    push32(&mut d, 0);
    push32(&mut d, 0);
    push32(&mut d, 0);
    push32(&mut d, 0);
    for _ in 0..4 {
        push32(&mut d, 0); // mask words, consumed but overridden
    }
    for _ in 0..13 {
        push32(&mut d, 0); // colorimetry block
    }
    for _ in 0..4 {
        push32(&mut d, 0); // profile block
    }
    d.extend_from_slice(&[0x00, 0x7C, 0x00, 0x00]); // pure red under 5-5-5
    let mut rec = Recorder::new();
    let r = decode(&d, &mut rec);
    assert_eq!(r, Ok(1));
    assert_eq!(rec.pixels, vec![(0, 0, 255, 0, 0, 255)]);
}

#[test]
fn bitfield_rescale_extremes() {
    assert_eq!(clamp8bit(0x1F, 0x1F, 0, 0x1F, 0), 255);
    assert_eq!(clamp8bit(0, 0x1F, 0, 0x1F, 0), 0);
    assert_eq!(clamp8bit(0x03E0, 0x03E0, 5, 0x1F, 0), 255);
    assert_eq!(clamp8bit(0, 0, 32, 0, 255), 255);
}

#[test]
fn trailing_zero_counts() {
    assert_eq!(trailing_zeros(0x7C00), 10);
    assert_eq!(trailing_zeros(0x03E0), 5);
    assert_eq!(trailing_zeros(0x1F), 0);
    assert_eq!(trailing_zeros(0), 32);
    assert_eq!(trailing_zeros(0x8000_0000), 31);
}

#[test]
fn rle8_delta_escape_moves_cursor() {
    let mut d = header_v3(4, 2, 8, 1, 10, 0);
    d.extend_from_slice(&gray_palette(256));
    // one pixel, delta of (2, 1) against the stored direction, one pixel
    d.extend_from_slice(&[0x01, 0x01, 0x00, 0x02, 0x02, 0x01, 0x01, 0x09, 0x00, 0x01]);
    let mut rec = Recorder::new();
    let r = decode(&d, &mut rec);
    assert_eq!(r, Ok(2));
    assert_eq!(rec.pixels, vec![(0, 1, 1, 1, 1, 255), (3, 0, 9, 9, 9, 255)]);
}

#[test]
fn rle8_end_of_line_escape() {
    let mut d = header_v3(4, 2, 8, 1, 8, 0);
    d.extend_from_slice(&gray_palette(256));
    d.extend_from_slice(&[0x02, 0x03, 0x00, 0x00, 0x01, 0x04, 0x00, 0x01]);
    let mut rec = Recorder::new();
    let r = decode(&d, &mut rec);
    assert_eq!(r, Ok(3));
    assert_eq!(
        rec.pixels,
        vec![(0, 1, 3, 3, 3, 255), (1, 1, 3, 3, 3, 255), (0, 0, 4, 4, 4, 255)]
    );
}

#[test]
fn rle4_encoded_run_alternates_nibbles() {
    let mut d = header_v3(4, 1, 4, 2, 4, 0);
    d.extend_from_slice(&gray_palette(16));
    d.extend_from_slice(&[0x03, 0xAB, 0x00, 0x01]);
    let mut rec = Recorder::new();
    let r = decode(&d, &mut rec);
    assert_eq!(r, Ok(3));
    assert_eq!(
        rec.pixels,
        vec![
            (0, 0, 10, 10, 10, 255),
            (1, 0, 11, 11, 11, 255),
            (2, 0, 10, 10, 10, 255),
        ]
    );
}

#[test]
fn row_4bpp_high_nibble_first() {
    let mut d = header_v3(2, 1, 4, 0, 0, 0);
    d.extend_from_slice(&gray_palette(16));
    d.extend_from_slice(&[0xAB, 0, 0, 0]);
    let mut rec = Recorder::new();
    let r = decode(&d, &mut rec);
    assert_eq!(r, Ok(2));
    assert_eq!(rec.pixels, vec![(0, 0, 10, 10, 10, 255), (1, 0, 11, 11, 11, 255)]);
}

#[test]
fn row_8bpp_one_byte_per_pixel() {
    let mut d = header_v3(3, 1, 8, 0, 0, 0);
    d.extend_from_slice(&gray_palette(256));
    d.extend_from_slice(&[7, 8, 9, 0]);
    let mut rec = Recorder::new();
    let r = decode(&d, &mut rec);
    assert_eq!(r, Ok(3));
    assert_eq!(
        rec.pixels,
        vec![(0, 0, 7, 7, 7, 255), (1, 0, 8, 8, 8, 255), (2, 0, 9, 9, 9, 255)]
    );
}

#[test]
fn pixel_32bpp_implicit_masks() {
    let mut d = header_v3(1, 1, 32, 0, 0, 0);
    d.extend_from_slice(&[0x10, 0x20, 0x40, 0x99]);
    let mut rec = Recorder::new();
    let r = decode(&d, &mut rec);
    assert_eq!(r, Ok(1));
    assert_eq!(rec.pixels, vec![(0, 0, 64, 32, 16, 255)]);
}

#[test]
fn empty_image_sets_size_only() {
    let d = header_v3(0, 0, 24, 0, 0, 0);
    let mut rec = Recorder::new();
    let r = decode(&d, &mut rec);
    assert_eq!(r, Ok(0));
    assert_eq!(rec.dims, vec![(0, 0)]);
    assert!(rec.pixels.is_empty());
    assert_eq!(rec.builds, 1);
}
