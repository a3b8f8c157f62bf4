use create_image::color::{channel, ppm_header, write_color, CEILING_RAW};
use create_image::fixed::{Fixed, MAX_RAW};
use create_image::image::{Image, ImageError};
use create_image::render::Pixel;
use create_image::vec3::Vec3;

fn fx(x: f64) -> Fixed {
    Fixed::from_raw((x * 4294967296.0).round() as i64)
}

fn v(x: f64, y: f64, z: f64) -> Vec3 {
    Vec3::new(fx(x), fx(y), fx(z))
}

fn text(bytes: Vec<u8>) -> String {
    String::from_utf8(bytes).unwrap()
}

#[test]
fn channel_is_the_root_of_the_mean_scaled_to_a_byte() {
    assert_eq!(channel(fx(0.25), 1), 128);
    assert_eq!(channel(fx(12.5), 50), 128);
    assert_eq!(channel(fx(30.0), 100), 140);
    assert_eq!(channel(fx(81.0), 100), 230);
    assert_eq!(channel(fx(0.0), 1), 0);
    assert_eq!(channel(fx(0.0), 100), 0);
}

#[test]
fn channel_stays_below_256() {
    assert_eq!(channel(fx(1.0), 1), 255);
    assert_eq!(channel(fx(100.0), 100), 255);
    assert_eq!(channel(fx(5000.0), 100), 255);
    assert_eq!(channel(Fixed::max_value(), 1), 255);
    // The ceiling is 0.999, whose square is the least mean that reaches it.
    assert_eq!(CEILING_RAW, 4290672328);
    assert_eq!(channel(fx(0.998), 1), 255);
    assert_eq!(channel(fx(0.99), 1), 254);
}

#[test]
fn channel_of_a_negative_sum_is_zero() {
    assert_eq!(channel(fx(-1.0), 1), 0);
    assert_eq!(channel(-Fixed::max_value(), 7), 0);
}

#[test]
fn channel_without_samples_saturates() {
    assert_eq!(channel(fx(0.5), 0), 255);
    assert_eq!(channel(fx(0.0), 0), 0);
    assert_eq!(channel(fx(-0.5), 0), 0);
}

#[test]
fn channel_never_decreases_when_the_sum_grows() {
    for samples in [1u32, 3, 100] {
        let mut last = 0u8;
        let top = (1.001 * samples as f64 * 4294967296.0) as i64;
        let step = top / 5000;
        let mut sum = -step;
        while sum <= top {
            let value = channel(Fixed::from_raw(sum), samples);
            assert!(value >= last, "{} samples: {} after {} at {}", samples, value, last, sum);
            last = value;
            sum += step;
        }
        assert_eq!(last, 255);
    }
    let mut last = 0u8;
    for k in 0..62 {
        let value = channel(Fixed::from_raw(1i64 << k), 1000);
        assert!(value >= last);
        last = value;
    }
    assert_eq!(channel(Fixed::from_raw(MAX_RAW), 1000), 255);
}

#[test]
fn pixel_text_holds_three_numbers() {
    assert_eq!(text(write_color(v(0.25, 1.0, 0.0), 1)), "128 255 0");
    assert_eq!(text(write_color(v(30.0, 81.0, 12.5), 100)), "140 230 90");
    assert_eq!(text(write_color(v(0.0, 0.0, 0.0), 10)), "0 0 0");
    assert_eq!(text(write_color(v(500.0, 500.0, 500.0), 10)), "255 255 255");
    assert_eq!(text(write_color(v(-3.0, 0.01, 0.0016), 1)), "0 25 10");
}

#[test]
fn header_names_the_format_and_the_size() {
    assert_eq!(text(ppm_header(400, 225)), "P3\n400 225\n255");
    assert_eq!(text(ppm_header(1200, 800)), "P3\n1200 800\n255");
    assert_eq!(text(ppm_header(1, 7)), "P3\n1 7\n255");
    assert_eq!(text(ppm_header(0, 10)), "P3\n0 10\n255");
    assert_eq!(text(ppm_header(u32::MAX, 1000000)), "P3\n4294967295 1000000\n255");
}

#[test]
fn settings_without_width_height_or_samples_are_refused() {
    assert_eq!(Image::new(0, 225, 100, 50).unwrap_err(), ImageError::NoWidth);
    assert_eq!(Image::new(400, 0, 100, 50).unwrap_err(), ImageError::NoHeight);
    assert_eq!(Image::new(400, 225, 0, 50).unwrap_err(), ImageError::NoSamples);
    // The first fault is the one reported.
    assert_eq!(Image::new(0, 0, 0, 50).unwrap_err(), ImageError::NoWidth);
    assert_eq!(Image::new(5, 0, 0, 50).unwrap_err(), ImageError::NoHeight);
}

#[test]
fn settings_are_kept() {
    let image = Image::new(400, 225, 100, 50).unwrap();
    assert_eq!(image.width(), 400);
    assert_eq!(image.height(), 225);
    assert_eq!(image.samples_per_pixel(), 100);
    assert_eq!(image.max_depth(), 50);
    assert_eq!(image.pixel(3, 7), Pixel { i: 3, j: 7, width: 400, height: 225 });
    assert_eq!(text(image.header()), "P3\n400 225\n255");
    // A depth of zero or less is accepted: every ray is black.
    assert_eq!(Image::new(1, 1, 1, 0).unwrap().max_depth(), 0);
    assert_eq!(Image::new(1, 1, 1, -5).unwrap().max_depth(), -5);
}
