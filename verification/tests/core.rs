use draw_julia::complex::Complex;
use draw_julia::julia::{calculate_sequence_limit, color_pixel, fade, pixel_to_plane, SequenceLimit};
use draw_julia::util::{Bound, ONE, RADIUS_OF_CONVERGENCE};

fn c(re: i64, im: i64) -> Complex {
    Complex { re, im }
}

#[test]
fn complex_square_unit_diagonal() {
    // (1 + i)² = 2i
    let z = c(ONE, ONE).square();
    assert_eq!(z.re, 0);
    assert_eq!(z.im, 2 * ONE);
}

#[test]
fn complex_square_real_axis() {
    // 2² = 4
    let z = c(2 * ONE, 0).square();
    assert_eq!(z.re, 4 * ONE);
    assert_eq!(z.im, 0);
}

#[test]
fn complex_square_rounds_toward_zero() {
    // (-1.5)² = 2.25; the imaginary cross term of (1, -1) is -2
    let z = c(-3 * ONE / 2, 0).square();
    assert_eq!(z.re, 2 * ONE + ONE / 4);
    assert_eq!(z.im, 0);
    let w = c(ONE, -ONE).square();
    assert_eq!(w.re, 0);
    assert_eq!(w.im, -2 * ONE);
    // -9 sub-units squared rescale to 0, not to -1 as flooring would give.
    let tiny = c(0, 9).square();
    assert_eq!(tiny.re, 0);
    assert_eq!(tiny.im, 0);
}

#[test]
fn complex_norm_is_squared_magnitude() {
    assert_eq!(c(ONE, ONE).norm(), 2 * (ONE as u128) * (ONE as u128));
    assert_eq!(c(0, 0).norm(), 0);
    assert_eq!(c(-2 * ONE, 0).norm(), 4 * (ONE as u128) * (ONE as u128));
}

#[test]
fn complex_add_componentwise() {
    let z = c(3, -4).add(c(10, 5));
    assert_eq!(z.re, 13);
    assert_eq!(z.im, 1);
}

#[test]
fn origin_converges_for_constant_zero() {
    // The origin is the fixed point of z ↦ z² when c = 0.
    let r = calculate_sequence_limit(c(0, 0), c(0, 0));
    assert_eq!(r, SequenceLimit::Convergence);
}

#[test]
fn outside_radius_diverges_immediately() {
    // Any start with squared magnitude beyond the radius reports zero
    // completed iterations, whatever the constant.
    let far = c(3 * ONE, 0);
    assert_eq!(calculate_sequence_limit(far, c(0, 0)), SequenceLimit::Divergence(0));
    assert_eq!(
        calculate_sequence_limit(c(0, -3 * ONE), c(-2516582, 10905190)),
        SequenceLimit::Divergence(0)
    );
}

#[test]
fn on_radius_does_not_diverge_at_step_zero() {
    // Squared magnitude exactly the squared radius is not yet an escape.
    let edge = c(2 * ONE, 0);
    match calculate_sequence_limit(edge, c(0, 0)) {
        SequenceLimit::Divergence(n) => assert!(n >= 1),
        SequenceLimit::Convergence => panic!("2.0 squares beyond the radius"),
    }
}

#[test]
fn divergence_step_counts_completed_iterations() {
    // (0, 0) under c = (-0.15, 0.65) escapes after 76 completed steps.
    let r = calculate_sequence_limit(c(0, 0), c(-2516582, 10905190));
    assert_eq!(r, SequenceLimit::Divergence(76));
}

#[test]
fn fade_full_brightness_at_zero() {
    assert_eq!(color_pixel(SequenceLimit::Divergence(0)), (255, 255, 255, 255));
}

#[test]
fn fade_rates_divide_the_count() {
    assert_eq!(color_pixel(SequenceLimit::Divergence(6)), (252, 254, 254, 255));
    assert_eq!(fade(100, 2), 205);
    assert_eq!(fade(100, 4), 230);
    assert_eq!(fade(100, 6), 239);
}

#[test]
fn color_saturates_near_the_limit() {
    // 880 completed steps: the red channel clamps at 0; green and blue
    // fade more slowly and stay positive.
    assert_eq!(color_pixel(SequenceLimit::Divergence(880)), (0, 35, 109, 255));
    assert_eq!(color_pixel(SequenceLimit::Divergence(510)), (0, 128, 170, 255));
    assert_eq!(color_pixel(SequenceLimit::Divergence(509)), (1, 128, 171, 255));
}

#[test]
fn convergent_color_is_transparent_black() {
    assert_eq!(color_pixel(SequenceLimit::Convergence), (0, 0, 0, 0));
}

#[test]
fn plane_mapping_default_square() {
    let b = Bound::full_square();
    // Pixel (0, 0) maps to the (west, south) corner.
    let z = pixel_to_plane(0, 0, 2, 2, &b);
    assert_eq!((z.re, z.im), (-2 * ONE, -2 * ONE));
    // One step per axis is half the 4.0-wide square.
    let z = pixel_to_plane(1, 1, 2, 2, &b);
    assert_eq!((z.re, z.im), (0, 0));
}

#[test]
fn plane_mapping_rectangular_bound() {
    let b = Bound { north: ONE, south: -ONE, west: -2 * ONE, east: 0 };
    assert!(b.is_valid());
    // scale_x = 2.0 / 4 = 0.5, scale_y = 2.0 / 2 = 1.0
    let z = pixel_to_plane(3, 1, 4, 2, &b);
    assert_eq!((z.re, z.im), (-ONE / 2, 0));
}

#[test]
fn bound_validity() {
    assert!(Bound::full_square().is_valid());
    let flat = Bound { north: 0, south: 0, west: -ONE, east: ONE };
    assert!(!flat.is_valid());
    let reversed = Bound { north: ONE, south: -ONE, west: ONE, east: -ONE };
    assert!(!reversed.is_valid());
}

#[test]
fn full_square_spans_the_radius() {
    let b = Bound::full_square();
    assert_eq!(b.north, RADIUS_OF_CONVERGENCE);
    assert_eq!(b.south, -RADIUS_OF_CONVERGENCE);
    assert_eq!(b.west, -RADIUS_OF_CONVERGENCE);
    assert_eq!(b.east, RADIUS_OF_CONVERGENCE);
    assert_eq!(RADIUS_OF_CONVERGENCE, 2 * ONE);
}
