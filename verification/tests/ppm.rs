use raytracer::image::Image;
use raytracer::ppm::{header, new_line, write_color, CHANNEL_RANGE};

#[test]
fn channel_range_is_256() {
    assert_eq!(CHANNEL_RANGE, 256.0f64.to_bits());
}

#[test]
fn header_of_small_image() {
    let mut out = Vec::new();
    header(&mut out, &Image::new(2, 2).unwrap());
    assert_eq!(out, b"P3\n2 2\n255\n".to_vec());
}

#[test]
fn header_of_wide_image() {
    let mut out = Vec::new();
    header(&mut out, &Image::new(400, 225).unwrap());
    assert_eq!(String::from_utf8(out).unwrap(), "P3\n400 225\n255\n");
}

#[test]
fn header_matches_std_formatting() {
    for (w, h) in [(1, 1), (10, 9), (99, 100), (1000, 10000), (i32::MAX, 1), (-5, 0), (i32::MIN, -12)] {
        let mut out = Vec::new();
        header(&mut out, &Image { width: w, height: h });
        assert_eq!(String::from_utf8(out).unwrap(), format!("P3\n{} {}\n255\n", w, h));
    }
}

#[test]
fn header_appends() {
    let mut out = b"# ".to_vec();
    header(&mut out, &Image::new(3, 1).unwrap());
    assert_eq!(out, b"# P3\n3 1\n255\n".to_vec());
}

#[test]
fn write_color_black_and_white() {
    let mut out = Vec::new();
    write_color(&mut out, 0.0f64.to_bits(), 0.0f64.to_bits(), 0.0f64.to_bits());
    assert_eq!(out, b"0 0 0 ".to_vec());
    let top = 255.0 * 0.999f64;
    write_color(&mut out, top.to_bits(), top.to_bits(), top.to_bits());
    assert_eq!(out, b"0 0 0 254 254 254 ".to_vec());
}

#[test]
fn write_color_takes_the_whole_part() {
    let mut out = Vec::new();
    write_color(&mut out, 127.5f64.to_bits(), 0.999f64.to_bits(), 255.0f64.to_bits());
    assert_eq!(out, b"127 0 255 ".to_vec());
}

#[test]
fn write_color_every_channel_value() {
    for c in 0..=255u32 {
        let mut out = Vec::new();
        let r = c as f64 + 0.25;
        let g = (255 - c) as f64;
        write_color(&mut out, r.to_bits(), g.to_bits(), 7.9f64.to_bits());
        assert_eq!(String::from_utf8(out).unwrap(), format!("{} {} 7 ", c, 255 - c));
    }
}

#[test]
fn write_color_matches_std_conversion() {
    let samples = [
        0.0f64, -0.0, 0.5, -0.5, 1.0, -1.0, 1.9999999, 254.745, 255.0, 255.999, 256.0, 1000.5,
        32766.9, 32767.0, 32767.5, 32768.0, -32768.0, -32768.9, -32769.0, 1e10, -1e10, 1e300,
        5e-324, f64::MAX, f64::MIN, f64::INFINITY, f64::NEG_INFINITY, f64::NAN,
    ];
    for r in samples {
        for g in samples {
            let mut out = Vec::new();
            write_color(&mut out, r.to_bits(), g.to_bits(), 3.0f64.to_bits());
            let expected = format!("{} {} {} ", r as i16, g as i16, 3);
            assert_eq!(String::from_utf8(out).unwrap(), expected);
        }
    }
}

#[test]
fn new_line_is_one_line_feed() {
    let mut out = b"1 2 3 ".to_vec();
    new_line(&mut out);
    assert_eq!(out, b"1 2 3 \n".to_vec());
}
