use raytracer::color::{channel_byte, clamp, pixel_of};
use raytracer::ppm::Rgb;

#[test]
fn clamp_below_inside_above() {
    assert_eq!(clamp(-5, 0, 255), 0);
    assert_eq!(clamp(128, 0, 255), 128);
    assert_eq!(clamp(300, 0, 255), 255);
    assert_eq!(clamp(4, 4, 4), 4);
}

#[test]
fn channel_at_the_edges() {
    assert_eq!(channel_byte(0), 0);
    assert_eq!(channel_byte(255), 255);
    assert_eq!(channel_byte(256), 255);
    assert_eq!(channel_byte(-1), 0);
    assert_eq!(channel_byte(i64::MAX), 255);
    assert_eq!(channel_byte(i64::MIN), 0);
}

#[test]
fn channel_from_a_linear_value() {
    // 0.25 linear, one sample: gamma gives 0.5, scaled 128.
    let scaled = (256.0f64 * (0.25f64).sqrt()).floor() as i64;
    assert_eq!(channel_byte(scaled), 128);
    // 0.999 and above stay at the top of the range.
    let top = (256.0f64 * 0.999f64).floor() as i64;
    assert_eq!(channel_byte(top), 255);
}

#[test]
fn pixel_of_three_channels() {
    assert_eq!(pixel_of(-3, 77, 1000), Rgb { r: 0, g: 77, b: 255 });
}
