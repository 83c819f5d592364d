use raytracer::ppm::encode_ppm;

#[test]
fn header_and_lines() {
    let buf = vec![255u8, 0, 7, 99, 10, 200, 35, 0];
    let out = encode_ppm(&buf, 2, 1);
    assert_eq!(String::from_utf8(out).unwrap(), "P3\n2 1\n255\n255 0 7\n10 200 35\n");
}

#[test]
fn empty_buffer_is_header_only() {
    let out = encode_ppm(&[], 0, 0);
    assert_eq!(String::from_utf8(out).unwrap(), "P3\n0 0\n255\n");
}

#[test]
fn large_dimensions() {
    let out = encode_ppm(&[1, 2, 3, 4], 1920, 1080);
    assert_eq!(String::from_utf8(out).unwrap(), "P3\n1920 1080\n255\n1 2 3\n");
}

#[test]
fn one_line_per_pixel() {
    let buf: Vec<u8> = (0..40).map(|i| i as u8).collect();
    let text = String::from_utf8(encode_ppm(&buf, 5, 2)).unwrap();
    let lines: Vec<&str> = text.lines().collect();
    assert_eq!(lines.len(), 3 + 10);
    assert_eq!(lines[3], "0 1 2");
    assert_eq!(lines[12], "36 37 38");
}
