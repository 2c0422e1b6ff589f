use doom_demo::tga::{
    decode_tga, decoder_rle, from_rgba5551_to_rgba_32, parse_tga_header, read_rgba5551,
    write_rgba5551,
};

fn header(imagetype: u8, width: u16, height: u16, bits: u8, descriptor: u8) -> Vec<u8> {
    let mut h = vec![0u8; 18];
    h[2] = imagetype;
    h[12] = (width & 0xff) as u8;
    h[13] = (width >> 8) as u8;
    h[14] = (height & 0xff) as u8;
    h[15] = (height >> 8) as u8;
    h[16] = bits;
    h[17] = descriptor;
    h
}

#[test]
fn header_parsing() {
    let bytes = header(2, 300, 7, 24, 0x20);
    let h = parse_tga_header(&bytes).unwrap();
    assert_eq!(h.imagetype, 2);
    assert_eq!(h.width, 300);
    assert_eq!(h.height, 7);
    assert_eq!(h.bits, 24);
    assert_eq!(h.descriptor, 0x20);
    assert!(parse_tga_header(&bytes[..17]).is_none());
}

#[test]
fn raw_decode_swaps_red_and_blue() {
    let mut bytes = header(2, 2, 1, 24, 0);
    bytes.extend_from_slice(&[1, 2, 3, 4, 5, 6]);
    let img = decode_tga(&bytes).unwrap();
    assert_eq!(img.width, 2);
    assert_eq!(img.height, 1);
    assert_eq!(img.format, 3);
    assert_eq!(img.color_type, 3);
    assert_eq!(img.data, vec![3, 2, 1, 6, 5, 4]);
}

#[test]
fn rle_decode_expands_runs() {
    let mut bytes = header(10, 2, 1, 24, 0);
    // one RLE chunk: repeat the pixel (9, 8, 7) twice
    bytes.extend_from_slice(&[0x81, 9, 8, 7]);
    let img = decode_tga(&bytes).unwrap();
    assert_eq!(img.data, vec![7, 8, 9, 7, 8, 9]);
}

#[test]
fn rle_decoder_raw_chunks_and_failures() {
    // raw chunk of two 1-byte pixels
    let out = decoder_rle(2, 1, 1, &[0x01, 5, 6]).unwrap();
    assert_eq!(out, vec![5, 6]);
    // stream too short
    assert!(decoder_rle(2, 1, 1, &[0x01, 5]).is_none());
    // chunk overruns the target size
    assert!(decoder_rle(2, 1, 1, &[0x82, 5]).is_none());
    // empty stream but pixels required
    assert!(decoder_rle(1, 1, 1, &[]).is_none());
}

#[test]
fn vertical_flip_reverses_rows() {
    let mut bytes = header(2, 1, 2, 24, 0x20);
    bytes.extend_from_slice(&[1, 2, 3, 4, 5, 6]);
    let img = decode_tga(&bytes).unwrap();
    // rows swap after the red/blue fix-up
    assert_eq!(img.data, vec![6, 5, 4, 3, 2, 1]);
}

#[test]
fn horizontal_flip_reverses_pixels_in_rows() {
    let mut bytes = header(2, 2, 1, 24, 0x10);
    bytes.extend_from_slice(&[1, 2, 3, 4, 5, 6]);
    let img = decode_tga(&bytes).unwrap();
    assert_eq!(img.data, vec![6, 5, 4, 3, 2, 1]);
}

#[test]
fn unsupported_streams_are_rejected() {
    // color-mapped image type
    let bytes = header(1, 2, 2, 24, 0);
    assert!(decode_tga(&bytes).is_none());
    // unsupported bit depth
    let bytes = header(2, 2, 2, 15, 0);
    assert!(decode_tga(&bytes).is_none());
    // zero dimension
    let bytes = header(2, 0, 2, 24, 0);
    assert!(decode_tga(&bytes).is_none());
    // truncated pixel data
    let mut bytes = header(2, 2, 2, 24, 0);
    bytes.extend_from_slice(&[1, 2, 3]);
    assert!(decode_tga(&bytes).is_none());
}

#[test]
fn rgba5551_round_trip_channels() {
    let (r, g, b, a) = read_rgba5551(0xff, 0xff);
    assert_eq!((r, g, b, a), (31, 31, 31, 1));
    let (r, g, b, a) = read_rgba5551(0x00, 0x00);
    assert_eq!((r, g, b, a), (0, 0, 0, 0));
    let (o0, o1) = write_rgba5551(0, 0, 31, 0, 0, 0);
    let (r2, _, _, _) = read_rgba5551(o0, o1);
    assert_eq!(r2, 31);
}

#[test]
fn rgba5551_expands_to_full_range() {
    let out = from_rgba5551_to_rgba_32(&[0xff, 0xff, 0x00, 0x00], 2, 1).unwrap();
    assert_eq!(out, vec![255, 255, 255, 255, 0, 0, 0, 0]);
    assert!(from_rgba5551_to_rgba_32(&[0xff], 1, 1).is_none());
}

#[test]
fn texture_adoption_checks_shape() {
    let mut bytes = header(2, 2, 1, 32, 0);
    bytes.extend_from_slice(&[1, 2, 3, 4, 5, 6, 7, 8]);
    let img = decode_tga(&bytes).unwrap();
    assert_eq!(img.format, 4);
    let tex = doom_demo::texture::Texture::from_tga(img).unwrap();
    assert_eq!(tex.dimensions, doom_demo::math::Vec2::new(2, 1));
    assert_eq!(tex.channels, 4);
    // the packed 16-bit format is refused
    let mut bytes16 = header(2, 1, 1, 16, 0);
    bytes16.extend_from_slice(&[0xff, 0xff]);
    let img16 = decode_tga(&bytes16).unwrap();
    assert_eq!(img16.format, 2);
    assert!(doom_demo::texture::Texture::from_tga(img16).is_none());
}

#[test]
fn wide_images_decode() {
    // dimensions use the header's full 16-bit range
    let mut bytes = header(2, 20000, 1, 24, 0);
    bytes.extend_from_slice(&vec![7u8; 60000]);
    let img = decode_tga(&bytes).unwrap();
    assert_eq!(img.width, 20000);
    assert_eq!(img.height, 1);
    assert_eq!(img.data.len(), 60000);
    let tex = doom_demo::texture::Texture::from_tga(img).unwrap();
    assert_eq!(tex.dimensions.x, 20000);
}
