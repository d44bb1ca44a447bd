use aniflow::frames::png_header_dimensions;

#[test]
fn reads_png_dimensions() {
    let mut bytes = b"\x89PNG\r\n\x1a\n\0\0\0\rIHDR".to_vec();
    bytes.extend(1920_u32.to_be_bytes());
    bytes.extend(1080_u32.to_be_bytes());

    assert_eq!(png_header_dimensions(&bytes).expect("dimensions should parse"), (1920, 1080));
}

#[test]
fn headers_that_are_not_png_or_declare_no_pixels_are_refused() {
    let mut bytes = b"\x89PNG\r\n\x1a\n\0\0\0\rIHDR".to_vec();
    bytes.extend(0_u32.to_be_bytes());
    bytes.extend(1080_u32.to_be_bytes());
    assert_eq!(png_header_dimensions(&bytes), None);

    let mut other = b"GIF89a\0\0\0\0\0\rIHDR".to_vec();
    other.extend(1_u32.to_be_bytes());
    other.extend(1_u32.to_be_bytes());
    assert_eq!(png_header_dimensions(&other), None);
}

#[test]
fn a_file_shorter_than_a_png_header_has_no_dimensions() {
    assert_eq!(png_header_dimensions(b"\x89PNG\r\n\x1a\n"), None);
    assert_eq!(png_header_dimensions(b""), None);
    let mut longer = b"\x89PNG\r\n\x1a\n\0\0\0\rIHDR".to_vec();
    longer.extend(640_u32.to_be_bytes());
    longer.extend(480_u32.to_be_bytes());
    longer.extend([8, 6, 0, 0, 0]);
    assert_eq!(png_header_dimensions(&longer), Some((640, 480)));
}
