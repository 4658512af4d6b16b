use bmp_rs::bmp::{read_bitmap_header, read_color_palette, read_file_header, read_pixel_data,
    BitmapHeader};
use bmp_rs::errors::{DecodeError, HeaderError, IoError};
use bmp_rs::Color;

fn push16(d: &mut Vec<u8>, v: u16) {
    d.extend_from_slice(&v.to_le_bytes());
}

fn push32(d: &mut Vec<u8>, v: u32) {
    d.extend_from_slice(&v.to_le_bytes());
}

#[test]
fn file_header_fields() {
    let mut d = vec![0x42, 0x4D];
    push32(&mut d, 100);
    push32(&mut d, 0);
    push32(&mut d, 54);
    let mut pos = 0;
    let fh = read_file_header(&d, &mut pos).unwrap();
    assert_eq!(fh.size, 100);
    assert_eq!(fh.offset, 54);
    assert_eq!(pos, 14);
}

#[test]
fn file_header_bad_magic() {
    let d = vec![0x42, 0x4E, 0, 0, 0, 0, 0, 0, 0, 0, 0, 0, 0, 0];
    let mut pos = 0;
    assert_eq!(
        read_file_header(&d, &mut pos),
        Err(DecodeError::Header(HeaderError::BadMagic))
    );
}

#[test]
fn bitmap_header_top_down() {
    let mut d = Vec::new();
    push32(&mut d, 12);
    push16(&mut d, 2); // width
    push16(&mut d, (-2i16) as u16); // height, negative: top-down
    push16(&mut d, 1);
    push16(&mut d, 8);
    let mut pos = 0;
    let bh = read_bitmap_header(&d, &mut pos).unwrap();
    assert_eq!(bh.width, 2);
    assert_eq!(bh.height, 2);
    assert_eq!(bh.bpp, 8);
    assert_eq!(bh.direction, -1);
    assert_eq!(pos, 12);
}

#[test]
fn bitmap_header_rejects_other_generations() {
    let mut d = Vec::new();
    push32(&mut d, 40);
    let mut pos = 0;
    assert_eq!(
        read_bitmap_header(&d, &mut pos),
        Err(DecodeError::Header(HeaderError::UnsupportedVersion(40)))
    );
}

#[test]
fn row_offsets_by_direction() {
    let top_down = BitmapHeader { size: 12, width: 2, height: 3, bpp: 8, direction: -1 };
    assert_eq!(top_down.offset(0), 0);
    assert_eq!(top_down.offset(1), 2);
    assert_eq!(top_down.offset(2), 4);
    let bottom_up = BitmapHeader { size: 12, width: 2, height: 3, bpp: 8, direction: 1 };
    assert_eq!(bottom_up.offset(0), 4);
    assert_eq!(bottom_up.offset(1), 2);
    assert_eq!(bottom_up.offset(2), 0);
}

#[test]
fn color_palette_from_data_offset() {
    let mut d = vec![0u8; 26];
    d.extend_from_slice(&[1, 2, 3, 4, 5, 6]);
    let mut pos = 26;
    let mut head = vec![0x42, 0x4D];
    push32(&mut head, 0);
    push32(&mut head, 0);
    push32(&mut head, 32); // data offset: room for two 3-byte entries
    let mut hp = 0;
    let fh = read_file_header(&head, &mut hp).unwrap();
    let bh = BitmapHeader { size: 12, width: 1, height: 1, bpp: 8, direction: 1 };
    let pal = read_color_palette(&d, &mut pos, &fh, &bh).unwrap();
    assert_eq!(
        pal,
        vec![
            Color { r: 3, g: 2, b: 1, a: 255 },
            Color { r: 6, g: 5, b: 4, a: 255 },
        ]
    );
    assert_eq!(pos, 32);
}

#[test]
fn pixel_data_1bpp_top_down() {
    let bh = BitmapHeader { size: 12, width: 2, height: 2, bpp: 1, direction: -1 };
    let black = Color { r: 0, g: 0, b: 0, a: 255 };
    let white = Color { r: 255, g: 255, b: 255, a: 255 };
    let palette = vec![black, white];
    let d = vec![0b1000_0000, 0, 0, 0, 0b0100_0000, 0, 0, 0];
    let mut pos = 0;
    let px = read_pixel_data(&d, &mut pos, &bh, &palette).unwrap();
    assert_eq!(px, vec![white, black, black, white]);
    assert_eq!(pos, 8);
}

#[test]
fn pixel_data_24bpp_bottom_up() {
    let bh = BitmapHeader { size: 12, width: 1, height: 2, bpp: 24, direction: 1 };
    let d = vec![10, 20, 30, 0, 40, 50, 60, 0];
    let mut pos = 0;
    let px = read_pixel_data(&d, &mut pos, &bh, &Vec::new()).unwrap();
    // stored row 0 lands at the end of the grid
    assert_eq!(
        px,
        vec![
            Color { r: 60, g: 50, b: 40, a: 255 },
            Color { r: 30, g: 20, b: 10, a: 255 },
        ]
    );
}

#[test]
fn pixel_data_short_read() {
    let bh = BitmapHeader { size: 12, width: 1, height: 2, bpp: 24, direction: 1 };
    let d = vec![10, 20, 30, 0, 40];
    let mut pos = 0;
    assert_eq!(
        read_pixel_data(&d, &mut pos, &bh, &Vec::new()),
        Err(DecodeError::Io(IoError::UnexpectedEof))
    );
}
