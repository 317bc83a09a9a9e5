use nativum::color::Color;
use nativum::png::encode_png;
use nativum::surface::{blit_nearest, Surface};

#[test]
fn png_signature() {
    let s = Surface::filled(2, 2, Color::rgb(255, 0, 0));
    let png = encode_png(&s);
    assert_eq!(&png[..8], &[137, 80, 78, 71, 13, 10, 26, 10]);
    assert!(png.len() > 32);
}

#[test]
fn one_pixel_png_bytes() {
    let s = Surface::filled(1, 1, Color::rgb(1, 2, 3));
    let png = encode_png(&s);
    // signature 8 + IHDR 12+13 + IDAT 12+16 + IEND 12
    assert_eq!(png.len(), 73);
    assert_eq!(&png[8..16], &[0, 0, 0, 13, b'I', b'H', b'D', b'R']);
    assert_eq!(&png[16..29], &[0, 0, 0, 1, 0, 0, 0, 1, 8, 6, 0, 0, 0]);
    // IDAT: zlib header, one final stored block of 5 bytes, the scanline, Adler-32.
    assert_eq!(&png[33..37], &[0, 0, 0, 16]);
    assert_eq!(&png[37..41], b"IDAT");
    assert_eq!(
        &png[41..57],
        &[0x78, 0x01, 0x01, 5, 0, 0xFA, 0xFF, 0, 1, 2, 3, 255, 0x01, 0x14, 0x01, 0x06]
    );
    // The IEND chunk is always the same twelve bytes.
    assert_eq!(&png[61..], &[0, 0, 0, 0, b'I', b'E', b'N', b'D', 0xAE, 0x42, 0x60, 0x82]);
}

#[test]
fn ihdr_crc_matches_reference() {
    let s = Surface::filled(1, 1, Color::rgb(0, 0, 0));
    let png = encode_png(&s);
    // CRC-32 of "IHDR" + 1x1 RGBA8 header, as every PNG encoder writes it.
    assert_eq!(&png[29..33], &[0x1F, 0x15, 0xC4, 0x89]);
}

#[test]
fn large_surfaces_use_several_stored_blocks() {
    // 200 x 100 pixels: 100 rows of 801 bytes = 80100 bytes, two stored blocks.
    let s = Surface::filled(200, 100, Color::rgb(9, 9, 9));
    let png = encode_png(&s);
    let idat_len = u32::from_be_bytes([png[33], png[34], png[35], png[36]]) as usize;
    assert_eq!(idat_len, 2 + 5 + 65535 + 5 + (80100 - 65535) + 4);
    assert_eq!(png[43], 0x00); // first block is not final
    assert_eq!(png[43 + 5 + 65535], 0x01); // second block is final
}

#[test]
fn filled_surface_and_pixel_index() {
    let s = Surface::filled(3, 2, Color { r: 10, g: 20, b: 30, a: 7 });
    assert_eq!(s.pixels.len(), 24);
    assert_eq!(&s.pixels[0..4], &[10, 20, 30, 255]);
    assert_eq!(s.idx(2, 1), Some(20));
    assert_eq!(s.idx(3, 0), None);
    assert_eq!(s.idx(-1, 0), None);
    assert_eq!(s.idx(0, 2), None);
}

#[test]
fn blit_scales_by_nearest_neighbour() {
    let mut s = Surface::filled(2, 1, Color::rgb(0, 0, 0));
    s.pixels[4] = 0xAB;
    s.pixels[5] = 0xCD;
    s.pixels[6] = 0xEF;
    let mut dest = vec![7u32; 5];
    blit_nearest(&mut dest, 4, 1, &s);
    assert_eq!(dest, vec![0, 0, 0x00AB_CDEF, 0x00AB_CDEF, 7]);
    let mut untouched = vec![1u32; 2];
    blit_nearest(&mut untouched, 0, 1, &s);
    assert_eq!(untouched, vec![1, 1]);
}

/// Reads the stored-block zlib stream of the single IDAT chunk back into bytes.
fn inflate_idat(png: &[u8]) -> Vec<u8> {
    let len = u32::from_be_bytes([png[33], png[34], png[35], png[36]]) as usize;
    let z = &png[41..41 + len];
    assert_eq!(&z[..2], &[0x78, 0x01]);
    let mut out = Vec::new();
    let mut i = 2;
    loop {
        let last = z[i] == 1;
        let n = u16::from_le_bytes([z[i + 1], z[i + 2]]) as usize;
        let nn = u16::from_le_bytes([z[i + 3], z[i + 4]]) as usize;
        assert_eq!(n + nn, 0xFFFF);
        out.extend_from_slice(&z[i + 5..i + 5 + n]);
        i += 5 + n;
        if last {
            break;
        }
    }
    assert_eq!(i + 4, z.len());
    out
}

#[test]
fn idat_reads_back_as_scanlines() {
    let mut s = Surface::filled(3, 2, Color::rgb(1, 2, 3));
    s.pixels[5] = 99;
    let png = encode_png(&s);
    let raw = inflate_idat(&png);
    let mut expected = vec![0u8];
    expected.extend_from_slice(&s.pixels[0..12]);
    expected.push(0);
    expected.extend_from_slice(&s.pixels[12..24]);
    assert_eq!(raw, expected);
}

#[test]
fn decoded_pixels_match_the_surface() {
    let mut s = Surface::filled(4, 3, Color::rgb(10, 20, 30));
    s.pixels[17] = 200;
    s.pixels[47] = 7;
    let png = encode_png(&s);
    assert_eq!(&png[12..16], b"IHDR");
    assert_eq!(u32::from_be_bytes([png[16], png[17], png[18], png[19]]), 4);
    assert_eq!(u32::from_be_bytes([png[20], png[21], png[22], png[23]]), 3);
    assert_eq!(&png[24..29], &[8, 6, 0, 0, 0]);
    let raw = inflate_idat(&png);
    let row = 4 * 4 + 1;
    assert_eq!(raw.len(), 3 * row);
    let mut pixels = Vec::new();
    for y in 0..3 {
        assert_eq!(raw[y * row], 0);
        pixels.extend_from_slice(&raw[y * row + 1..(y + 1) * row]);
    }
    assert_eq!(pixels, s.pixels);
    assert_eq!(&png[png.len() - 8..png.len() - 4], b"IEND");
}
