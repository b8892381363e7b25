use tikus::color::{color, format_color, linear_to_gamma, quantize};
use tikus::fixed::FX_ONE;

#[test]
fn gamma_is_a_square_root() {
    assert_eq!(linear_to_gamma(0), 0);
    assert_eq!(linear_to_gamma(FX_ONE), FX_ONE);
    // 0.25 -> 0.5
    assert_eq!(linear_to_gamma(FX_ONE / 4), FX_ONE / 2);
}

#[test]
fn quantize_endpoints() {
    assert_eq!(quantize(0), 0);
    // Full intensity clamps just below one and lands on 255, not 256.
    assert_eq!(quantize(FX_ONE), 255);
    // 0.25 gammas to 0.5, quantizing to 128.
    assert_eq!(quantize(FX_ONE / 4), 128);
}

#[test]
fn format_color_exact_triples() {
    assert_eq!(format_color(color(0, 0, 0)).as_str(), "0 0 0");
    assert_eq!(format_color(color(FX_ONE, FX_ONE, FX_ONE)).as_str(), "255 255 255");
    assert_eq!(
        format_color(color(FX_ONE / 4, 0, FX_ONE)).as_str(),
        "128 0 255"
    );
}

#[test]
fn channels_above_one_still_clamp() {
    // A channel of 4 gammas to 2 and clamps to just below one.
    assert_eq!(quantize(4 * FX_ONE), 255);
}
