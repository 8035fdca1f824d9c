//! Tests for the integer compositing math: fast division, channel
//! compositing, and pixel command premultiplication.

use josengine::renderer::{composite, fast_divide, Pixel};
use josengine::shared::Point;

fn round_div_255(v: u32) -> u32 {
    (2 * v + 255) / 510
}

#[test]
fn fast_divide_endpoints() {
    assert_eq!(fast_divide(0), 0);
    assert_eq!(fast_divide(255 * 255), 255);
}

#[test]
fn fast_divide_is_exact_rounding_everywhere() {
    for v in 0..=65025u32 {
        let got = fast_divide(v as u16) as u32;
        let want = round_div_255(v);
        assert!(got + 1 >= want && got <= want + 1, "v={v} got={got} want={want}");
        assert_eq!(got, want, "v={v}");
    }
}

#[test]
fn fast_divide_spot_values() {
    assert_eq!(fast_divide(509), 2);
    assert_eq!(fast_divide(510), 2);
    assert_eq!(fast_divide(128), 1);
    assert_eq!(fast_divide(127), 0);
    assert_eq!(fast_divide(12800), 50);
}

#[test]
fn composite_fully_transparent_leaves_destination() {
    let dst = [12, 200, 7, 255];
    let out = composite(dst, [0, 0, 0, 0]);
    assert_eq!(out, dst);
}

#[test]
fn composite_fully_opaque_replaces_destination() {
    let dst = [12, 200, 7, 90];
    let src = [1, 2, 3, 255];
    let out = composite(dst, src);
    assert_eq!(out, src);
}

#[test]
fn composite_half_alpha_blends() {
    // src premultiplied white at alpha 127 over an opaque blue-ish
    // background; each channel is src + round(dst * 128 / 255).
    let dst = [40, 90, 160, 255];
    let src = [127, 127, 127, 127];
    let out = composite(dst, src);
    assert_eq!(out, [147, 172, 207, 255]);
}

#[test]
fn with_color_opaque_stores_exactly() {
    let p = Pixel::with_color(Point::at(3, 4), [9, 8, 7, 255]);
    assert!(!p.translucent);
    assert_eq!(p.color, [9, 8, 7, 255]);
}

#[test]
fn with_color_translucent_premultiplies() {
    let p = Pixel::with_color(Point::at(0, 0), [100, 200, 40, 128]);
    assert!(p.translucent);
    // each channel becomes fast_divide(channel * alpha)
    assert_eq!(p.color, [50, 100, 20, 128]);
    assert_eq!(p.color[3], 128);
}

#[test]
fn with_color_zero_alpha_zeroes_channels() {
    let p = Pixel::with_color(Point::at(0, 0), [100, 200, 40, 0]);
    assert!(p.translucent);
    assert_eq!(p.color, [0, 0, 0, 0]);
}
