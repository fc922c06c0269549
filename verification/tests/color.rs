use raytracer::color::{Triplet, MAX_CHANNEL, NEWLINE, SPACE};

fn quantized(channel: f32, samples: usize) -> u8 {
    let averaged = channel * (1.0 / samples as f32);
    let corrected = f32::sqrt(averaged);
    let clamped = if corrected < 0.0 {
        0.0
    } else if corrected > 0.999 {
        0.999
    } else {
        corrected
    };
    (256.0 * clamped) as u8
}

#[test]
fn line_holds_three_numbers_and_a_line_feed() {
    let pixel = Triplet { r: 255, g: 0, b: 128 };
    assert_eq!(pixel.line(), b"255 0 128\n".to_vec());
}

#[test]
fn line_of_black_and_of_white() {
    assert_eq!(Triplet { r: 0, g: 0, b: 0 }.line(), b"0 0 0\n".to_vec());
    assert_eq!(Triplet { r: 255, g: 255, b: 255 }.line(), b"255 255 255\n".to_vec());
}

#[test]
fn line_keeps_the_order_red_green_blue() {
    assert_eq!(Triplet { r: 1, g: 20, b: 30 }.line(), b"1 20 30\n".to_vec());
    assert_ne!(Triplet { r: 1, g: 20, b: 30 }.line(), Triplet { r: 30, g: 20, b: 1 }.line());
}

#[test]
fn separators_are_ascii() {
    assert_eq!(SPACE, b' ');
    assert_eq!(NEWLINE, b'\n');
    assert_eq!(MAX_CHANNEL, 255);
}

#[test]
fn quantised_channels_fill_the_whole_byte_range() {
    let dark = Triplet { r: quantized(0.0, 1), g: quantized(0.0, 1), b: quantized(0.0, 1) };
    assert_eq!(dark.line(), b"0 0 0\n".to_vec());
    let bright = Triplet { r: quantized(1.0, 1), g: quantized(7.5, 1), b: quantized(200.0, 100) };
    assert_eq!(bright.line(), b"255 255 255\n".to_vec());
    let grey = Triplet { r: quantized(25.0, 100), g: quantized(0.25, 1), b: quantized(0.5, 2) };
    assert_eq!(grey.line(), b"128 128 128\n".to_vec());
}
