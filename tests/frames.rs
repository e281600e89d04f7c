use gallery_maker::{
    composite_on_white, decode_source, pack_bits, prepare_frame, render_frame, to_rgb565,
    words_to_bytes, BitOrder, ItemFailure, PixelMode, RgbImage, Rotation, ScanOrder,
    TargetProfile,
};

fn png_of(img: &image::RgbaImage) -> Vec<u8> {
    let mut bytes: Vec<u8> = Vec::new();
    img.write_to(&mut std::io::Cursor::new(&mut bytes), image::ImageOutputFormat::Png)
        .unwrap();
    bytes
}

fn solid_png(w: u32, h: u32, rgba: [u8; 4]) -> Vec<u8> {
    png_of(&image::RgbaImage::from_pixel(w, h, image::Rgba(rgba)))
}

fn mono_128x64() -> TargetProfile {
    TargetProfile::new(128, 64, PixelMode::Mono1bpp).unwrap()
}

#[test]
fn gray_wide_source_gives_a_1024_byte_frame() {
    // 0x80 brightened by 20 is 148, stretched with gain 100 it is 173: the
    // frame is the error-diffused picture of a uniform 173
    let src = RgbImage::filled(1920, 1080, (0x80, 0x80, 0x80));
    let frame = render_frame(&mono_128x64(), &src);
    assert_eq!(frame.len(), 1024);
    let lit: u32 = frame.iter().map(|b| b.count_ones()).sum();
    // about 173 / 255 of the 8192 pixels are white
    assert!(lit > 4800 && lit < 6300, "{}", lit);
}

#[test]
fn black_wide_source_gives_an_all_clear_frame() {
    let src = RgbImage::filled(1920, 1080, (0, 0, 0));
    let frame = render_frame(&mono_128x64(), &src);
    assert_eq!(frame.len(), 1024);
    assert!(frame.iter().all(|&b| b == 0x00));
}

#[test]
fn white_wide_source_gives_an_all_set_frame() {
    let src = RgbImage::filled(1920, 1080, (255, 255, 255));
    let frame = render_frame(&mono_128x64(), &src);
    assert_eq!(frame.len(), 1024);
    assert!(frame.iter().all(|&b| b == 0xff));
}

#[test]
fn portrait_source_on_landscape_rgb565_panel() {
    let src = RgbImage::filled(600, 1000, (255, 0, 0));
    let p = TargetProfile::new(160, 128, PixelMode::Rgb565).unwrap();
    let frame = render_frame(&p, &src);
    assert_eq!(frame.len(), 40960);
    for pair in frame.chunks(2) {
        assert_eq!(pair, &[0xf8, 0x00]);
    }
}

#[test]
fn gray8_frame_holds_one_byte_per_pixel() {
    let src = RgbImage::filled(50, 30, (0, 255, 0));
    let p = TargetProfile::new(20, 10, PixelMode::Gray8).unwrap();
    let frame = render_frame(&p, &src);
    assert_eq!(frame, vec![150u8; 200]);
}

#[test]
fn frame_size_matches_every_profile() {
    let src = RgbImage::filled(33, 17, (90, 160, 30));
    for &(w, h) in &[(2u32, 2u32), (9, 5), (128, 64), (5, 13)] {
        for &mode in &[PixelMode::Mono1bpp, PixelMode::Gray8, PixelMode::Rgb565] {
            for &scan in &[ScanOrder::RowMajor, ScanOrder::ColumnMajor] {
                for &rot in &[Rotation::Deg0, Rotation::Deg90, Rotation::Deg180, Rotation::Deg270] {
                    let p = TargetProfile::new(w, h, mode)
                        .unwrap()
                        .with_layout(scan, BitOrder::LsbFirst)
                        .with_rotation(rot);
                    let (line, lines) = match scan {
                        ScanOrder::RowMajor => (w, h),
                        ScanOrder::ColumnMajor => (h, w),
                    };
                    let expected = match mode {
                        PixelMode::Mono1bpp => ((line + 7) / 8 * lines) as usize,
                        PixelMode::Gray8 => (w * h) as usize,
                        PixelMode::Rgb565 => (2 * w * h) as usize,
                    };
                    assert_eq!(render_frame(&p, &src).len(), expected);
                    assert_eq!(p.frame_len(), expected);
                }
            }
        }
    }
}

#[test]
fn mid_gray_is_dithered_to_a_mix_of_black_and_white() {
    let src = RgbImage::filled(64, 64, (100, 100, 100));
    let p = mono_128x64().with_brightness(0).with_contrast(0).unwrap();
    let frame = render_frame(&p, &src);
    let lit: u32 = frame.iter().map(|b| b.count_ones()).sum();
    // 100 / 255 of 8192 pixels is about 3212
    assert!(lit > 2700 && lit < 3700, "{}", lit);
}

#[test]
fn rendering_twice_gives_identical_frames() {
    let mut img = image::RgbaImage::new(97, 61);
    for (x, y, p) in img.enumerate_pixels_mut() {
        *p = image::Rgba([(x * 5 % 256) as u8, (y * 7 % 256) as u8, ((x + y) % 256) as u8, 255]);
    }
    let bytes = png_of(&img);
    for &mode in &[PixelMode::Mono1bpp, PixelMode::Gray8, PixelMode::Rgb565] {
        let p = TargetProfile::new(128, 64, mode).unwrap();
        let a = prepare_frame(&p, &bytes).unwrap();
        let b = prepare_frame(&p, &bytes.clone()).unwrap();
        assert_eq!(a, b);
    }
}

#[test]
fn packing_msb_first_row_major() {
    // 10 pixels wide, 2 lines: stride 2 bytes, padding clear
    let mut px = vec![0u8; 20];
    px[0] = 255;
    px[7] = 255;
    px[8] = 200;
    px[10 + 9] = 128;
    let out = pack_bits(&px, 10, 2, BitOrder::MsbFirst);
    assert_eq!(out, vec![0b1000_0001, 0b1000_0000, 0b0000_0000, 0b0100_0000]);
    let out = pack_bits(&px, 10, 2, BitOrder::LsbFirst);
    assert_eq!(out, vec![0b1000_0001, 0b0000_0001, 0b0000_0000, 0b0000_0010]);
}

#[test]
fn mono_128x64_layout_byte_i_is_row_i_div_16() {
    // one white column at x = 9: byte 16 * r + 1 holds 0b0100_0000 in every row
    let mut px = vec![0u8; 128 * 64];
    for y in 0..64 {
        px[y * 128 + 9] = 255;
    }
    let out = pack_bits(&px, 128, 64, BitOrder::MsbFirst);
    assert_eq!(out.len(), 1024);
    for (i, &b) in out.iter().enumerate() {
        assert_eq!(b, if i % 16 == 1 { 0b0100_0000 } else { 0 });
    }
}

#[test]
fn rgb565_packs_big_endian() {
    let rgb: Vec<u8> = vec![255, 255, 255, 255, 0, 0, 0, 255, 0, 0, 0, 255, 0x12, 0x34, 0x56];
    let words = to_rgb565(&rgb);
    let expected_last = ((0x12u16 >> 3) << 11) | ((0x34u16 >> 2) << 5) | (0x56u16 >> 3);
    assert_eq!(words, vec![0xffff, 0xf800, 0x07e0, 0x001f, expected_last]);
    let bytes = words_to_bytes(&words);
    assert_eq!(&bytes[..8], &[0xff, 0xff, 0xf8, 0x00, 0x07, 0xe0, 0x00, 0x1f]);
    assert_eq!(&bytes[8..], &[(expected_last >> 8) as u8, (expected_last & 0xff) as u8]);
}

#[test]
fn transparency_is_laid_over_white() {
    let rgba: Vec<u8> = vec![0, 0, 0, 0, 10, 20, 30, 255, 0, 100, 200, 128];
    // (c * a + 255 * (255 - a) + 127) / 255
    assert_eq!(composite_on_white(&rgba), vec![255, 255, 255, 10, 20, 30, 127, 177, 227]);
}

#[test]
fn decoding_a_png_gives_its_pixels() {
    let bytes = solid_png(3, 2, [10, 20, 30, 255]);
    let img = decode_source(&bytes).unwrap();
    assert_eq!((img.width, img.height), (3, 2));
    assert_eq!(img.data, [10u8, 20, 30].repeat(6));
    let clear = decode_source(&solid_png(1, 1, [0, 0, 0, 0])).unwrap();
    assert_eq!(clear.data, vec![255, 255, 255]);
}

#[test]
fn unknown_format_is_reported() {
    let bytes = b"not an image at all".to_vec();
    assert_eq!(decode_source(&bytes).err(), Some(ItemFailure::UnknownFormat));
}

#[test]
fn corrupt_jpeg_is_reported() {
    let mut bytes = vec![0xff, 0xd8, 0xff, 0xe0, 0x00, 0x10];
    bytes.extend_from_slice(&[0x4a; 40]);
    let r = prepare_frame(&mono_128x64(), &bytes);
    assert_eq!(r.err(), Some(ItemFailure::DecodeCorrupt));
}

#[test]
fn oversized_source_is_reported() {
    let bytes = png_of(&image::RgbaImage::from_pixel(40000, 1, image::Rgba([1, 2, 3, 255])));
    assert_eq!(prepare_frame(&mono_128x64(), &bytes).err(), Some(ItemFailure::ResourceTooLarge));
}

#[test]
fn white_png_through_the_whole_pipeline() {
    let bytes = solid_png(300, 200, [255, 255, 255, 255]);
    let frame = prepare_frame(&mono_128x64(), &bytes).unwrap();
    assert_eq!(frame, vec![0xffu8; 1024]);
}
