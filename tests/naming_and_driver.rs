use gallery_maker::{
    bytes_less_eq, exit_status, file_stem, frame_extension, ordinal, output_name, output_names,
    prepare_frame, sanitize, sort_paths, PixelMode, ProfileError, RunError, TargetProfile,
};

fn b(s: &str) -> Vec<u8> {
    s.as_bytes().to_vec()
}

#[test]
fn ordinals_are_zero_padded_to_three_digits() {
    assert_eq!(ordinal(0), b("000"));
    assert_eq!(ordinal(7), b("007"));
    assert_eq!(ordinal(42), b("042"));
    assert_eq!(ordinal(999), b("999"));
    assert_eq!(ordinal(1234), b("1234"));
}

#[test]
fn stems_drop_directory_and_final_extension() {
    assert_eq!(file_stem(&b("photos/cat.jpg")), b("cat"));
    assert_eq!(file_stem(&b("a/b/archive.tar.gz")), b("archive.tar"));
    assert_eq!(file_stem(&b("noext")), b("noext"));
    assert_eq!(file_stem(&b("dir/.hidden")), b(".hidden"));
    assert_eq!(file_stem(&b("dir/..")), b("foo"));
    assert_eq!(file_stem(&b("")), b("foo"));
    assert_eq!(file_stem(&b("dir/.png")), b(".png"));
}

#[test]
fn stray_bytes_in_stems_become_underscores() {
    assert_eq!(file_stem(&vec![b'f', 0xff, b'g', b'.', b'j', b'p', b'g']), b("f_g"));
    // well-formed multi-byte characters stay
    assert_eq!(sanitize(&b("café")), b("café"));
    // a truncated two-byte sequence and an overlong encoding
    assert_eq!(sanitize(&vec![0xc3, b'a', 0xc0, 0x80]), b("_a__"));
    // a surrogate encoded in UTF-8 is not well-formed
    assert_eq!(sanitize(&vec![0xed, 0xa0, 0x80]), b("___"));
    assert_eq!(sanitize(&vec![0xf0, 0x9f, 0x98, 0x80]), "\u{1f600}".as_bytes().to_vec());
}

#[test]
fn output_names_follow_the_pattern() {
    assert_eq!(output_name(3, &b("cat"), &b("gray")), b("003.cat.gray"));
    assert_eq!(frame_extension(PixelMode::Mono1bpp), b("gray"));
    assert_eq!(frame_extension(PixelMode::Gray8), b("gray"));
    assert_eq!(frame_extension(PixelMode::Rgb565), b("565"));
}

#[test]
fn ordinals_count_every_input() {
    let paths = vec![b("in/a.jpg"), b("in/b.png"), b("in/c.gif")];
    let names = output_names(&paths, &b("gray"));
    assert_eq!(names, vec![b("000.a.gray"), b("001.b.gray"), b("002.c.gray")]);
}

#[test]
fn unreadable_input_keeps_the_next_ordinal() {
    let mut png: Vec<u8> = Vec::new();
    image::RgbaImage::from_pixel(20, 10, image::Rgba([200, 100, 50, 255]))
        .write_to(&mut std::io::Cursor::new(&mut png), image::ImageOutputFormat::Png)
        .unwrap();
    let corrupt: Vec<u8> = vec![0xff, 0xd8, 0xff, 0xdb, 0x00, 0x02, 0x13, 0x37];
    let inputs = vec![(b("in/broken.jpg"), corrupt), (b("in/sunset.png"), png)];
    let profile = TargetProfile::new(128, 64, PixelMode::Mono1bpp).unwrap();
    let paths: Vec<Vec<u8>> = inputs.iter().map(|(p, _)| p.clone()).collect();
    let names = output_names(&paths, &frame_extension(profile.mode));
    let mut written = Vec::new();
    for (i, (_, bytes)) in inputs.iter().enumerate() {
        if let Ok(frame) = prepare_frame(&profile, bytes) {
            assert_eq!(frame.len(), 1024);
            written.push(names[i].clone());
        }
    }
    assert_eq!(written, vec![b("001.sunset.gray")]);
    assert_eq!(exit_status(None), 0);
}

#[test]
fn paths_sort_byte_wise() {
    let sorted = sort_paths(vec![b("b"), b("a/b"), b("a-c"), b("B"), b("a"), b("a/b")]);
    assert_eq!(sorted, vec![b("B"), b("a"), b("a-c"), b("a/b"), b("a/b"), b("b")]);
    assert!(bytes_less_eq(&b("ab"), &b("abc")));
    assert!(!bytes_less_eq(&b("abc"), &b("ab")));
    assert!(bytes_less_eq(&b(""), &b("")));
    assert!(sort_paths(Vec::new()).is_empty());
}

#[test]
fn exit_statuses() {
    assert_eq!(exit_status(None), 0);
    assert_eq!(exit_status(Some(RunError::Usage)), 1);
    assert_eq!(exit_status(Some(RunError::OutputDirUnusable)), 2);
}

#[test]
fn profiles_reject_bad_dimensions_and_gains() {
    assert_eq!(TargetProfile::new(0, 64, PixelMode::Gray8).err(), Some(ProfileError::BadDimensions));
    assert_eq!(TargetProfile::new(4097, 64, PixelMode::Gray8).err(), Some(ProfileError::BadDimensions));
    assert_eq!(TargetProfile::new(1, 64, PixelMode::Mono1bpp).err(), Some(ProfileError::BadDimensions));
    assert!(TargetProfile::new(1, 1, PixelMode::Rgb565).is_ok());
    let p = TargetProfile::new(4096, 4096, PixelMode::Mono1bpp).unwrap();
    assert_eq!((p.brightness, p.contrast), (20, 100));
    assert!(p.is_valid());
    assert_eq!(p.with_contrast(256).err(), Some(ProfileError::BadContrast));
    assert_eq!(p.with_contrast(-256).err(), Some(ProfileError::BadContrast));
    assert_eq!(p.with_contrast(255).unwrap().contrast, 255);
    let mut bad = p;
    bad.contrast = 300;
    assert!(!bad.is_valid());
}

#[test]
fn empty_input_list_writes_nothing() {
    let sorted = sort_paths(Vec::new());
    assert!(output_names(&sorted, &b("gray")).is_empty());
    assert_eq!(exit_status(None), 0);
}
