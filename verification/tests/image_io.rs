use diorama::framebuffer::Framebuffer;
use diorama::image_io::{
    adler32, crc32, crc32_table, deflate_stored, encode_png, read_bmp_bytes, write_chunk, write_framebuffer_png,
    zlib_compress, BmpError,
};

/// Reads the payload back out of a stream of stored deflate blocks.
fn inflate_stored(stream: &[u8]) -> Vec<u8> {
    let mut out = Vec::new();
    let mut i = 0;
    loop {
        let last = stream[i] & 1 == 1;
        let len = stream[i + 1] as usize | (stream[i + 2] as usize) << 8;
        let nlen = stream[i + 3] as usize | (stream[i + 4] as usize) << 8;
        assert_eq!(len ^ 0xFFFF, nlen);
        out.extend_from_slice(&stream[i + 5..i + 5 + len]);
        i += 5 + len;
        if last {
            return out;
        }
    }
}

#[test]
fn adler32_known_value() {
    assert_eq!(adler32(b""), 1);
    assert_eq!(adler32(b"a"), 0x00620062);
}

#[test]
fn crc32_known_value() {
    assert_eq!(crc32(b"123456789"), 0xCBF43926);
}

#[test]
fn crc32_of_empty_and_table_entries() {
    assert_eq!(crc32(b""), 0);
    let t = crc32_table();
    assert_eq!(t[0], 0);
    assert_eq!(t[1], 0x77073096);
    assert_eq!(t[255], 0x2D02EF8D);
}

#[test]
fn adler32_wikipedia_value() {
    assert_eq!(adler32(b"Wikipedia"), 0x11E60398);
}

#[test]
fn deflate_stored_empty_input() {
    assert_eq!(deflate_stored(&[]), vec![0x01, 0x00, 0x00, 0xFF, 0xFF]);
}

#[test]
fn deflate_stored_small_input() {
    let out = deflate_stored(b"abc");
    assert_eq!(out, vec![0x01, 0x03, 0x00, 0xFC, 0xFF, b'a', b'b', b'c']);
    assert_eq!(inflate_stored(&out), b"abc".to_vec());
}

#[test]
fn deflate_stored_splits_long_input() {
    let data: Vec<u8> = (0..70_000u32).map(|i| (i % 251) as u8).collect();
    let out = deflate_stored(&data);
    // two blocks: 65535 bytes (not final), then 4465 bytes (final)
    assert_eq!(out.len(), data.len() + 10);
    assert_eq!(&out[..5], &[0x00, 0xFF, 0xFF, 0x00, 0x00]);
    assert_eq!(&out[65540..65545], &[0x01, 0x71, 0x11, 0x8E, 0xEE]);
    assert_eq!(inflate_stored(&out), data);
}

#[test]
fn zlib_round_trip() {
    let data = b"hello, diorama".to_vec();
    let z = zlib_compress(&data);
    assert_eq!(&z[..2], &[0x78, 0x01]);
    assert_eq!(inflate_stored(&z[2..]), data);
    let tail = &z[z.len() - 4..];
    assert_eq!(u32::from_be_bytes([tail[0], tail[1], tail[2], tail[3]]), adler32(&data));
}

#[test]
fn iend_chunk_bytes() {
    let mut out = Vec::new();
    write_chunk(&mut out, b"IEND", &[]);
    assert_eq!(out, vec![0, 0, 0, 0, 0x49, 0x45, 0x4E, 0x44, 0xAE, 0x42, 0x60, 0x82]);
}

#[test]
fn chunk_appends_after_existing_bytes() {
    let mut out = vec![7u8];
    write_chunk(&mut out, b"abcd", &[1, 2]);
    assert_eq!(out.len(), 1 + 4 + 4 + 2 + 4);
    assert_eq!(out[0], 7);
    assert_eq!(&out[1..5], &[0, 0, 0, 2]);
    assert_eq!(&out[5..11], &[b'a', b'b', b'c', b'd', 1, 2]);
    let crc = crc32(&[b'a', b'b', b'c', b'd', 1, 2]);
    assert_eq!(&out[11..15], &crc.to_be_bytes());
}

#[test]
fn png_roundtrip_smoke() {
    let w = 4;
    let h = 2;
    let rgb = vec![255u8; (w * h * 3) as usize];
    let png = encode_png(w, h, &rgb);
    assert!(png.len() > 8);
    assert_eq!(&png[..8], &[0x89, 0x50, 0x4E, 0x47, 0x0D, 0x0A, 0x1A, 0x0A]);
}

#[test]
fn png_layout_and_image_data() {
    let rgb: Vec<u8> = (0..2 * 2 * 3).map(|i| i as u8).collect();
    let png = encode_png(2, 2, &rgb);
    // IHDR
    assert_eq!(&png[8..16], &[0, 0, 0, 13, b'I', b'H', b'D', b'R']);
    assert_eq!(&png[16..29], &[0, 0, 0, 2, 0, 0, 0, 2, 8, 2, 0, 0, 0]);
    assert_eq!(&png[29..33], &crc32(&png[12..29]).to_be_bytes());
    // IDAT: zlib of the scanlines, each led by filter byte 0
    let idat_len = u32::from_be_bytes([png[33], png[34], png[35], png[36]]) as usize;
    assert_eq!(&png[37..41], b"IDAT");
    let idat = &png[41..41 + idat_len];
    let raw = inflate_stored(&idat[2..]);
    assert_eq!(raw, vec![0, 0, 1, 2, 3, 4, 5, 0, 6, 7, 8, 9, 10, 11]);
    // IEND closes the file
    assert_eq!(&png[png.len() - 12..], &[0, 0, 0, 0, 0x49, 0x45, 0x4E, 0x44, 0xAE, 0x42, 0x60, 0x82]);
}

#[test]
fn framebuffer_png_carries_pixels() {
    let mut fb = Framebuffer::new(2, 1);
    fb.set(0, 0, 0x00112233);
    fb.set(1, 0, 0x00AABBCC);
    let mut out = vec![1u8, 2, 3];
    write_framebuffer_png(&fb, &mut out);
    assert_eq!(&out[..3], &[1, 2, 3]);
    let png = &out[3..];
    assert_eq!(png, encode_png(2, 1, &[0x11, 0x22, 0x33, 0xAA, 0xBB, 0xCC]).as_slice());
}

fn bmp_header(width: i32, height: i32, bpp: u16, compression: u32, pixel_bytes: usize) -> Vec<u8> {
    let mut d = vec![0u8; 54];
    d[0] = b'B';
    d[1] = b'M';
    d[2..6].copy_from_slice(&((54 + pixel_bytes) as u32).to_le_bytes());
    d[10..14].copy_from_slice(&54u32.to_le_bytes());
    d[14..18].copy_from_slice(&40u32.to_le_bytes());
    d[18..22].copy_from_slice(&width.to_le_bytes());
    d[22..26].copy_from_slice(&height.to_le_bytes());
    d[26..28].copy_from_slice(&1u16.to_le_bytes());
    d[28..30].copy_from_slice(&bpp.to_le_bytes());
    d[30..34].copy_from_slice(&compression.to_le_bytes());
    d
}

#[test]
fn bmp_24bit_bottom_up() {
    // 2x2, rows padded to 8 bytes; stored bottom row first
    let mut d = bmp_header(2, 2, 24, 0, 16);
    d.extend_from_slice(&[1, 2, 3, 4, 5, 6, 0, 0]); // bottom row: (B,G,R) pixels
    d.extend_from_slice(&[7, 8, 9, 10, 11, 12, 0, 0]); // top row
    let bmp = read_bmp_bytes(&d).unwrap();
    assert_eq!((bmp.width, bmp.height), (2, 2));
    assert_eq!(bmp.rgba, vec![9, 8, 7, 255, 12, 11, 10, 255, 3, 2, 1, 255, 6, 5, 4, 255]);
}

#[test]
fn bmp_32bit_top_down() {
    let mut d = bmp_header(1, -2, 32, 0, 8);
    d.extend_from_slice(&[1, 2, 3, 4]);
    d.extend_from_slice(&[5, 6, 7, 8]);
    let bmp = read_bmp_bytes(&d).unwrap();
    assert_eq!((bmp.width, bmp.height), (1, 2));
    assert_eq!(bmp.rgba, vec![3, 2, 1, 4, 7, 6, 5, 8]);
}

#[test]
fn bmp_errors() {
    assert_eq!(read_bmp_bytes(&[0u8; 10]).err(), Some(BmpError::NotBmp));
    let mut wrong_magic = bmp_header(1, 1, 24, 0, 4);
    wrong_magic[0] = b'X';
    assert_eq!(read_bmp_bytes(&wrong_magic).err(), Some(BmpError::NotBmp));
    let mut old_header = bmp_header(1, 1, 24, 0, 4);
    old_header[14..18].copy_from_slice(&12u32.to_le_bytes());
    assert_eq!(read_bmp_bytes(&old_header).err(), Some(BmpError::UnsupportedHeader));
    assert_eq!(read_bmp_bytes(&bmp_header(1, 1, 24, 1, 4)).err(), Some(BmpError::Compressed));
    assert_eq!(read_bmp_bytes(&bmp_header(1, 1, 8, 0, 4)).err(), Some(BmpError::UnsupportedDepth));
    // header only: the first pixel lies past the end
    assert_eq!(read_bmp_bytes(&bmp_header(1, 1, 24, 0, 4)).err(), Some(BmpError::Truncated));
}

#[test]
fn bmp_empty_image() {
    let bmp = read_bmp_bytes(&bmp_header(0, 0, 24, 0, 0)).unwrap();
    assert_eq!((bmp.width, bmp.height), (0, 0));
    assert!(bmp.rgba.is_empty());
}

#[test]
fn crc32_check_values() {
    assert_eq!(crc32(b""), 0);
    assert_eq!(crc32(b"a"), 0xE8B7_BE43);
}

#[test]
fn crc32_residue_is_constant() {
    for data in [&b""[..], &b"a"[..], &b"IHDR"[..], &b"123456789"[..], &[0xFFu8; 37][..]] {
        let mut framed = data.to_vec();
        framed.extend_from_slice(&crc32(data).to_le_bytes());
        assert_eq!(crc32(&framed), 0x2144_DF1C);
    }
}
