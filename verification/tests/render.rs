use draw_julia::complex::Complex;
use draw_julia::julia::{assemble_rows, get_julia_set, render_pixel, render_row};
use draw_julia::util::{Bound, ONE};
use draw_julia::JuliaSet;

fn default_c() -> Complex {
    // -0.15 + 0.65i in fixed-point units.
    Complex { re: -2516582, im: 10905190 }
}

#[test]
fn buffer_length_is_width_height_4() {
    let b = Bound::full_square();
    let c = default_c();
    assert_eq!(get_julia_set(2, 2, b, c).len(), 16);
    assert_eq!(get_julia_set(3, 5, b, c).len(), 60);
    assert_eq!(get_julia_set(1, 1, b, c).len(), 4);
}

#[test]
fn zero_sized_render_is_empty() {
    let b = Bound::full_square();
    let c = default_c();
    assert_eq!(get_julia_set(0, 5, b, c).len(), 0);
    assert_eq!(get_julia_set(5, 0, b, c).len(), 0);
    assert_eq!(get_julia_set(0, 0, b, c).len(), 0);
}

#[test]
fn repeated_renders_are_identical() {
    let b = Bound::full_square();
    let c = default_c();
    let first = get_julia_set(8, 6, b, c);
    let second = get_julia_set(8, 6, b, c);
    assert_eq!(first, second);
}

#[test]
fn sequential_and_row_parallel_agree() {
    // The per-row units, computed independently and joined in order,
    // reproduce the sequential buffer byte for byte.
    let b = Bound::full_square();
    let c = default_c();
    let sequential = get_julia_set(5, 4, b, c);
    let mut rows = Vec::new();
    for y in 0..4 {
        rows.push(render_row(y, 5, 4, &b, c));
    }
    let joined = assemble_rows(rows);
    assert_eq!(sequential, joined);
}

#[test]
fn single_pixel_image_matches_pixel_pipeline() {
    let b = Bound::full_square();
    let c = default_c();
    let buffer = get_julia_set(1, 1, b, c);
    let (r, g, bl, a) = render_pixel(0, 0, 1, 1, &b, c);
    assert_eq!(buffer, vec![r, g, bl, a]);
    assert_eq!(buffer, vec![255, 255, 255, 255]);
}

#[test]
fn two_by_two_default_render() {
    // Hand-checked fixture: pixels (0,0), (1,0) and (0,1) start on or
    // outside the radius and fade to (near-)white; (1,1) starts at the
    // origin and escapes after 76 steps, giving (217, 236, 243, 255).
    let b = Bound::full_square();
    let c = default_c();
    let buffer = get_julia_set(2, 2, b, c);
    assert_eq!(
        buffer,
        vec![
            255, 255, 255, 255, //
            255, 255, 255, 255, //
            255, 255, 255, 255, //
            217, 236, 243, 255,
        ]
    );
}

#[test]
fn rows_are_slices_of_the_image() {
    let b = Bound { north: ONE, south: -2 * ONE, west: -ONE, east: 2 * ONE };
    let c = default_c();
    let buffer = get_julia_set(3, 3, b, c);
    for y in 0..3u32 {
        let row = render_row(y, 3, 3, &b, c);
        let start = (y as usize) * 12;
        assert_eq!(&buffer[start..start + 12], row.as_slice());
    }
}

#[test]
fn assemble_rows_concatenates_in_order() {
    let rows = vec![vec![1u8, 2, 3], vec![], vec![4u8, 5]];
    assert_eq!(assemble_rows(rows), vec![1u8, 2, 3, 4, 5]);
    assert_eq!(assemble_rows(Vec::new()), Vec::<u8>::new());
}

#[test]
fn julia_set_draw_defaults_to_full_square() {
    let c = default_c();
    let set = JuliaSet::new(c);
    let defaulted = set.draw(4, 4, None);
    let explicit = set.draw(4, 4, Some(&Bound::full_square()));
    assert_eq!(defaulted, explicit);
    assert_eq!(defaulted, get_julia_set(4, 4, Bound::full_square(), c));
}

#[test]
fn julia_set_new_stores_the_constant() {
    let c = default_c();
    let set = JuliaSet::new(c);
    assert_eq!(set.c, c);
}

#[test]
fn julia_set_draw_uses_given_bound() {
    let c = default_c();
    let set = JuliaSet::new(c);
    let b = Bound { north: ONE, south: -ONE, west: -ONE, east: ONE };
    assert_eq!(set.draw(3, 2, Some(&b)), get_julia_set(3, 2, b, c));
}
