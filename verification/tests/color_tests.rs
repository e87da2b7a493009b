use huecycle::color::Color;
use huecycle::color::hue_offset;
use huecycle::raster::transform_pixel;

#[test]
fn round_trip_reproduces_bytes_exactly() {
    let c = Color::Rgba { r: 10, g: 200, b: 30, a: 255, den: 255 };
    let rt = c.to_hsva().to_rgba();
    assert_eq!(rt.to_bytes(), (10, 200, 30, 255));
}

#[test]
fn round_trip_degenerate_gray_and_black() {
    let gray = Color::Rgba { r: 77, g: 77, b: 77, a: 255, den: 255 };
    assert_eq!(gray.to_hsva().to_rgba().to_bytes(), (77, 77, 77, 255));
    let black = Color::Rgba { r: 0, g: 0, b: 0, a: 255, den: 255 };
    assert_eq!(black.to_hsva().to_rgba().to_bytes(), (0, 0, 0, 255));
}

#[test]
fn green_to_hsva_values() {
    let green = Color::Rgba { r: 0, g: 255, b: 0, a: 255, den: 255 };
    // hue 120 degrees = 30600 / 255, full saturation and value
    assert_eq!(
        green.to_hsva(),
        Color::Hsva { h_num: 30600, h_den: 255, s_num: 255, s_den: 255, v: 255, a: 255, den: 255 },
    );
}

#[test]
fn green_plus_half_turn_is_magenta() {
    // pure green (hue 120), four steps, step 2 adds 180: hue 300 is magenta
    assert_eq!(transform_pixel(0, 255, 0, 255, 2, 4), (255, 0, 255, 255));
}

#[test]
fn twelve_step_offsets_of_green() {
    // hue 120 + h * 30 degrees, full saturation and value
    assert_eq!(transform_pixel(0, 255, 0, 255, 0, 12), (0, 255, 0, 255));
    // 150 degrees
    assert_eq!(transform_pixel(0, 255, 0, 255, 1, 12), (0, 255, 128, 255));
    // 180 degrees: cyan
    assert_eq!(transform_pixel(0, 255, 0, 255, 2, 12), (0, 255, 255, 255));
    // 240 degrees: blue
    assert_eq!(transform_pixel(0, 255, 0, 255, 4, 12), (0, 0, 255, 255));
    // 210 degrees
    assert_eq!(transform_pixel(0, 255, 0, 255, 3, 12), (0, 128, 255, 255));
    // 270 degrees
    assert_eq!(transform_pixel(0, 255, 0, 255, 5, 12), (128, 0, 255, 255));
    // 300 degrees: magenta
    assert_eq!(transform_pixel(0, 255, 0, 255, 6, 12), (255, 0, 255, 255));
    // 330 degrees
    assert_eq!(transform_pixel(0, 255, 0, 255, 7, 12), (255, 0, 128, 255));
    // 360 wraps to 0 degrees: red
    assert_eq!(transform_pixel(0, 255, 0, 255, 8, 12), (255, 0, 0, 255));
    // 30 degrees
    assert_eq!(transform_pixel(0, 255, 0, 255, 9, 12), (255, 128, 0, 255));
    // 60 degrees: yellow
    assert_eq!(transform_pixel(0, 255, 0, 255, 10, 12), (255, 255, 0, 255));
    // 90 degrees
    assert_eq!(transform_pixel(0, 255, 0, 255, 11, 12), (128, 255, 0, 255));
}

#[test]
fn full_turn_reproduces_the_pixel() {
    // step h = n rotates by exactly 360 degrees: the same color again
    assert_eq!(transform_pixel(10, 200, 30, 255, 12, 12), (10, 200, 30, 255));
    assert_eq!(transform_pixel(1, 2, 3, 255, 7, 7), (1, 2, 3, 255));
}

#[test]
fn alpha_matting_collapses_partial_transparency() {
    // input (1, 0, 0, 0.5): every hue step comes out fully transparent
    for h in 0..12 {
        let out = transform_pixel(255, 0, 0, 128, h, 12);
        assert_eq!(out.3, 0);
    }
    // fully opaque stays fully opaque
    for h in 0..12 {
        let out = transform_pixel(255, 0, 0, 255, h, 12);
        assert_eq!(out.3, 255);
    }
}

#[test]
fn hue_offset_fractions() {
    // step 1 of 12 is 360/12 = 30 degrees, held as 360/12
    assert_eq!(hue_offset(1, 12), (360, 12));
    // step 12 of 12 wraps to zero degrees
    assert_eq!(hue_offset(12, 12), (0, 12));
    // step 13 of 12 wraps to 30 degrees again
    assert_eq!(hue_offset(13, 12), (360, 12));
}

#[test]
fn byte_quantization_rounds_half_up() {
    let c = Color::Rgba { r: 1, g: 0, b: 2, a: 2, den: 2 };
    // 0.5 * 255 = 127.5 rounds to 128
    assert_eq!(c.to_bytes(), (128, 0, 255, 255));
}
