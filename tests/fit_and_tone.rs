use gallery_maker::{
    arrange, brighten, constrained_resize_dims, crop_rgb, grayscale, resize_crop, stretch_contrast,
    stretch_level, CropAnchor, RgbImage, Rotation, ScanOrder,
};

#[test]
fn wide_source_into_wide_target_constrains_width() {
    assert_eq!(constrained_resize_dims((128, 64), (1920, 1080)), (128, 72));
}

#[test]
fn portrait_source_into_landscape_target_constrains_width() {
    assert_eq!(constrained_resize_dims((160, 128), (600, 1000)), (160, 267));
}

#[test]
fn tall_target_constrains_height_and_rounds_to_nearest() {
    // 1920 * 255 / 1080 = 453.33
    assert_eq!(constrained_resize_dims((122, 255), (1920, 1080)), (453, 255));
    // 3 * 2 / 4 = 1.5 rounds up
    assert_eq!(constrained_resize_dims((1, 2), (3, 4)), (2, 2));
}

#[test]
fn same_aspect_needs_no_crop() {
    assert_eq!(constrained_resize_dims((128, 64), (256, 128)), (128, 64));
}

#[test]
fn fit_never_undershoots_the_target() {
    for &(sw, sh) in &[(1u32, 1u32), (7, 3), (3, 7), (1000, 1), (1, 1000), (32768, 32768)] {
        for &(tw, th) in &[(1u32, 1u32), (128, 64), (160, 128), (4096, 1), (1, 4096)] {
            let (iw, ih) = constrained_resize_dims((tw, th), (sw, sh));
            assert!(iw >= tw && ih >= th);
            assert!(iw == tw || ih == th);
        }
    }
}

#[test]
fn fit_keeps_aspect_within_half_a_pixel() {
    let (tw, th, sw, sh) = (128i64, 64i64, 1920i64, 1080i64);
    let (iw, ih) = constrained_resize_dims((128, 64), (1920, 1080));
    let (iw, ih) = (iw as i64, ih as i64);
    assert_eq!(iw, tw);
    assert!(2 * (ih * sw - sh * tw).abs() <= sw);
    assert!(ih >= th);
}

#[test]
fn crop_takes_the_requested_rectangle() {
    // 3x2 picture, pixel (x, y) has red = 10 * y + x
    let mut px = Vec::new();
    for y in 0..2u8 {
        for x in 0..3u8 {
            px.extend_from_slice(&[10 * y + x, 0, 0]);
        }
    }
    let out = crop_rgb(&px, 3, 2, 1, 1, 2, 1);
    assert_eq!(out, vec![11, 0, 0, 12, 0, 0]);
}

#[test]
fn resize_crop_yields_target_size() {
    let img = RgbImage::filled(40, 20, (10, 20, 30));
    let out = resize_crop(&img, 6, 5, CropAnchor::Center);
    assert_eq!((out.width, out.height), (6, 5));
    assert_eq!(out.data.len(), 6 * 5 * 3);
    let corner = resize_crop(&img, 6, 5, CropAnchor::TopLeft);
    assert_eq!(corner.data.len(), 6 * 5 * 3);
}

#[test]
fn resize_of_a_solid_picture_keeps_its_colour() {
    let img = RgbImage::filled(1920, 1080, (0x80, 0x80, 0x80));
    let out = resize_crop(&img, 128, 64, CropAnchor::Center);
    assert!(out.data.iter().all(|&v| v == 0x80));
}

#[test]
fn rotation_and_scan_order() {
    // 3x2 picture
    // 0 1 2
    // 3 4 5
    let px: Vec<u8> = vec![0, 1, 2, 3, 4, 5];
    assert_eq!(arrange(&px, 3, 2, Rotation::Deg0, ScanOrder::RowMajor), px);
    assert_eq!(arrange(&px, 3, 2, Rotation::Deg0, ScanOrder::ColumnMajor), vec![0, 3, 1, 4, 2, 5]);
    // clockwise quarter turn gives a 2x3 picture
    // 3 0
    // 4 1
    // 5 2
    assert_eq!(arrange(&px, 3, 2, Rotation::Deg90, ScanOrder::RowMajor), vec![3, 0, 4, 1, 5, 2]);
    assert_eq!(arrange(&px, 3, 2, Rotation::Deg180, ScanOrder::RowMajor), vec![5, 4, 3, 2, 1, 0]);
    // 2 5
    // 1 4
    // 0 3
    assert_eq!(arrange(&px, 3, 2, Rotation::Deg270, ScanOrder::RowMajor), vec![2, 5, 1, 4, 0, 3]);
}

#[test]
fn grayscale_uses_rec601_weights() {
    let rgb: Vec<u8> = vec![255, 0, 0, 0, 255, 0, 0, 0, 255, 255, 255, 255, 0, 0, 0, 128, 128, 128];
    assert_eq!(grayscale(&rgb), vec![76, 150, 29, 255, 0, 128]);
}

#[test]
fn brighten_adds_and_clamps() {
    let mut px: Vec<u8> = vec![0, 100, 128, 250];
    brighten(&mut px, 20);
    assert_eq!(px, vec![20, 120, 148, 255]);
    brighten(&mut px, -130);
    assert_eq!(px, vec![0, 0, 18, 125]);
}

#[test]
fn contrast_stretch_exact_values() {
    // f = 259 * 355 / (255 * 159) = 2.2677
    assert_eq!(stretch_level(148, 100), 173);
    assert_eq!(stretch_level(20, 100), 0);
    assert_eq!(stretch_level(128, 100), 128);
    assert_eq!(stretch_level(200, 100), 255);
    // full negative gain flattens everything to mid-grey
    assert_eq!(stretch_level(0, -255), 128);
    assert_eq!(stretch_level(255, -255), 128);
}

#[test]
fn contrast_gain_zero_is_identity() {
    for p in 0..=255u8 {
        assert_eq!(stretch_level(p, 0), p);
    }
}

#[test]
fn contrast_rounds_halves_away_from_zero() {
    // c = 4: f = 259 * 259 / (255 * 255); at p = 0: 128 - 128 * f = -4.03 -> 0 after clamp
    assert_eq!(stretch_level(0, 4), 0);
    let mut px: Vec<u8> = vec![120, 136];
    stretch_contrast(&mut px, 100);
    // 128 -+ 8 * 2.2677 = 109.86 / 146.14
    assert_eq!(px, vec![110, 146]);
}

#[test]
fn resize_crop_samples_the_middle_of_the_source() {
    // left half black, right half white; 40x20 is resized to 10x5 and the
    // middle 6 columns are kept
    let mut data = Vec::new();
    for _y in 0..20 {
        for x in 0..40 {
            let v = if x < 20 { 0 } else { 255 };
            data.extend_from_slice(&[v, v, v]);
        }
    }
    let img = RgbImage::from_rgb(40, 20, data).unwrap();
    let out = resize_crop(&img, 6, 5, CropAnchor::Center);
    let red = |x: usize, y: usize| out.data[3 * (y * 6 + x)];
    assert!(red(0, 2) < 64);
    assert!(red(5, 2) > 192);
}

#[test]
fn from_rgb_checks_the_buffer_length() {
    assert!(RgbImage::from_rgb(2, 2, vec![0; 12]).is_some());
    assert!(RgbImage::from_rgb(2, 2, vec![0; 11]).is_none());
    assert!(RgbImage::from_rgb(0, 5, Vec::new()).is_some());
}

#[test]
fn larger_gain_pushes_away_from_mid_grey() {
    for &p in &[0u8, 50, 127, 128, 129, 200, 255] {
        let mut last = stretch_level(p, 0);
        for c in 1..=255 {
            let v = stretch_level(p, c);
            if p >= 128 {
                assert!(v >= last);
            } else {
                assert!(v <= last);
            }
            last = v;
        }
    }
}
