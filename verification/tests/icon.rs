use my_daily_newspaper::icon::{icns_file, ico_file, initials, png_file};

#[test]
fn initials_fall_back_to_md_without_a_usable_font() {
    assert_eq!(initials("Sam", &[]), "MD");
    assert_eq!(initials("JD", &[]), "MD");
    assert_eq!(initials("   ", &[]), "MD");
    assert_eq!(initials("", &[1, 2, 3]), "MD");
}

#[test]
fn icns_wraps_each_png_with_its_type_and_length() {
    let entries = vec![(*b"ic07", vec![1u8, 2, 3]), (*b"ic08", vec![])];
    let out = icns_file(&entries);
    let mut want: Vec<u8> = b"icns".to_vec();
    want.extend_from_slice(&[0, 0, 0, 27]);
    want.extend_from_slice(b"ic07");
    want.extend_from_slice(&[0, 0, 0, 11, 1, 2, 3]);
    want.extend_from_slice(b"ic08");
    want.extend_from_slice(&[0, 0, 0, 8]);
    assert_eq!(out, want);
}

#[test]
fn icns_with_no_entries_is_just_the_header() {
    let out = icns_file(&vec![]);
    assert_eq!(out, vec![0x69, 0x63, 0x6e, 0x73, 0, 0, 0, 8]);
}

#[test]
fn ico_lists_each_png_then_appends_them() {
    let out = ico_file(&vec![16, 256], &vec![vec![9u8], vec![8u8, 7]]);
    let want: Vec<u8> = vec![
        0, 0, 1, 0, 2, 0, // header: icon, two images
        16, 16, 0, 0, 1, 0, 32, 0, 1, 0, 0, 0, 38, 0, 0, 0, // 16 px at 38
        0, 0, 0, 0, 1, 0, 32, 0, 2, 0, 0, 0, 39, 0, 0, 0, // 256 px (0) at 39
        9, 8, 7,
    ];
    assert_eq!(out, want);
}

#[test]
fn png_file_encodes_a_full_square_only() {
    assert!(png_file(&[0, 0, 0], 1).is_none());
    assert!(png_file(&[0; 8], 2).is_none());
    let png = png_file(&[20, 20, 20, 255], 1).unwrap();
    assert_eq!(&png[..8], &[137, 80, 78, 71, 13, 10, 26, 10]);
    assert!(png.len() > 8);
}
