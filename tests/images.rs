use led_foot::color::{Color, ONE};
use led_foot::led_sequence::{LedSequence, LedSequenceType, SequenceError};

fn encode_rgb(width: u32, height: u32, pixels: &[u8]) -> Vec<u8> {
    let mut out = Vec::new();
    {
        let mut enc = png::Encoder::new(&mut out, width, height);
        enc.set_color(png::ColorType::Rgb);
        enc.set_depth(png::BitDepth::Eight);
        let mut writer = enc.write_header().unwrap();
        writer.write_image_data(pixels).unwrap();
    }
    out
}

fn test_image() -> Vec<u8> {
    encode_rgb(3, 2, &[255, 0, 0, 0, 255, 0, 0, 0, 255, 255, 9, 9, 128, 9, 9, 0, 9, 9])
}

#[test]
fn png_single_color() {
    let from = Color::new(0, 0, 0, 0);
    let s = LedSequence::from_png(&from, "color_red", &test_image()).unwrap();
    assert_eq!(s.colors.len(), 31);
    assert_eq!(s.colors[30], Color::new(ONE, 0, 0, ONE));
    assert_eq!(s.info.sequence_type, LedSequenceType::Color);
}

#[test]
fn png_gradient() {
    let from = Color::new(0, 0, 0, 0);
    let s = LedSequence::from_png(&from, "gradient_test_1_repeat", &test_image()).unwrap();
    assert_eq!(s.colors.len(), 31 + 30);
    assert_eq!(s.repeat_start, 31);
    assert_eq!(s.info.duration, 1500);
    assert_eq!(s.info.name, "test");
    assert!(s.info.repeat);
    assert_eq!(s.colors[30], s.colors[31]);
    for c in &s.colors {
        for v in [c.r, c.g, c.b, c.w] {
            assert!((0..=ONE).contains(&v));
        }
    }
}

#[test]
fn png_errors() {
    let from = Color::new(0, 0, 0, 0);
    assert_eq!(LedSequence::from_png(&from, "color_red", &[1, 2, 3]).unwrap_err(), SequenceError::BadImage);
    assert_eq!(LedSequence::from_png(&from, "colour_red", &test_image()).unwrap_err(), SequenceError::UnknownKind);
    assert_eq!(
        LedSequence::from_png(&from, "gradient_x_0.01", &test_image()).unwrap_err(),
        SequenceError::BadDuration
    );
}

#[test]
fn pixels_too_small() {
    let from = Color::new(0, 0, 0, 0);
    let info = led_foot::sequence_name::parse_sequence_name("gradient_x_1").unwrap();
    let r = LedSequence::from_png_pixels(&from, info, &vec![0; 10], 3, 2);
    assert_eq!(r.unwrap_err(), SequenceError::ImageTooSmall);
    let info = led_foot::sequence_name::parse_sequence_name("color_x").unwrap();
    let r = LedSequence::from_png_pixels(&from, info, &vec![0; 2], 3, 2);
    assert_eq!(r.unwrap_err(), SequenceError::ImageTooSmall);
}
