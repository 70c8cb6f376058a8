use vstd::prelude::*;

use crate::complex::{
    complex_add, complex_norm, complex_square, lemma_mul_bounds, scale_down, Complex,
};
use crate::util::{Bound, COORD_LIMIT, LIMIT, ONE, RADIUS_SQUARED};

verus! {

/// The outcome of iterating z ↦ z² + c from one starting point: either the
/// sequence stayed within the convergence radius for all LIMIT steps, or it
/// first exceeded the radius when n steps had been completed.
#[derive(Clone, Copy, Debug, PartialEq, Eq, Structural)]
pub enum SequenceLimit {
    Convergence,
    Divergence(u32),
}

/// Largest coordinate magnitude a single iteration step can produce from a
/// point inside the convergence radius: the squared point stays within
/// 8.0 (in fixed-point units), before the constant is added.
const STEP_OUTPUT_MAX: i64 = 134217728;

/// Largest coordinate magnitude the iteration variable can reach: the
/// starting point obeys COORD_LIMIT, and every later value is a squared
/// in-radius point plus a constant that obeys COORD_LIMIT.
const ITERATE_MAX: i64 = COORD_LIMIT + STEP_OUTPUT_MAX;

/// The n-th iterate of z ↦ z² + c starting at z0.
pub open spec fn iterate(z0: (int, int), c: (int, int), n: nat) -> (int, int)
    decreases n,
{
    if n == 0 {
        z0
    } else {
        complex_add(complex_square(iterate(z0, c, (n - 1) as nat)), c)
    }
}

/// Whether the n-th iterate lies strictly outside the convergence radius.
pub open spec fn escaped_at(z0: (int, int), c: (int, int), n: nat) -> bool {
    complex_norm(iterate(z0, c, n)) > RADIUS_SQUARED
}

/// The escape-time verdict when steps 0..n are already known to stay inside
/// the radius: Divergence at the first index in n..LIMIT whose iterate lies
/// outside the convergence radius, or Convergence when none does.
pub open spec fn limit_from(z0: (int, int), c: (int, int), n: nat) -> SequenceLimit
    decreases LIMIT - n
        when n <= LIMIT
{
    if n >= LIMIT {
        SequenceLimit::Convergence
    } else if escaped_at(z0, c, n) {
        SequenceLimit::Divergence(n as u32)
    } else {
        limit_from(z0, c, n + 1)
    }
}

/// The escape-time verdict for starting point z0 under constant c:
/// Divergence(n) when n < LIMIT is the first index whose iterate lies
/// outside the convergence radius, Convergence when no index below LIMIT
/// does.
pub open spec fn sequence_limit(z0: (int, int), c: (int, int)) -> SequenceLimit {
    limit_from(z0, c, 0)
}

/// From step n on, the verdict is the first escape index at or above n, or
/// convergence when no index below LIMIT escapes.
proof fn lemma_limit_from_characterization(z0: (int, int), c: (int, int), n: nat)
    requires
        n <= LIMIT,
    ensures
        (match limit_from(z0, c, n) {
            SequenceLimit::Convergence => forall|k: nat|
                n <= k < LIMIT ==> !escaped_at(z0, c, k),
            SequenceLimit::Divergence(m) => n <= m < LIMIT && escaped_at(z0, c, m as nat) && (
            forall|k: nat| n <= k < m ==> !escaped_at(z0, c, k)),
        }),
    decreases LIMIT - n,
{
    if n < LIMIT && !escaped_at(z0, c, n) {
        lemma_limit_from_characterization(z0, c, n + 1);
    }
}

/// What the escape-time verdict means: Divergence(m) names the first index
/// whose iterate lies outside the convergence radius, and Convergence says
/// no index below LIMIT has one.
pub proof fn lemma_sequence_limit_characterization(z0: (int, int), c: (int, int))
    ensures
        (match sequence_limit(z0, c) {
            SequenceLimit::Convergence => forall|k: nat| k < LIMIT ==> !escaped_at(z0, c, k),
            SequenceLimit::Divergence(m) => m < LIMIT && escaped_at(z0, c, m as nat) && (
            forall|k: nat| k < m ==> !escaped_at(z0, c, k)),
        }),
{
    lemma_limit_from_characterization(z0, c, 0);
}

/// A square root bound: a factor whose square is at most m² lies in [-m, m].
proof fn lemma_root_bound(a: int, m: int)
    by (nonlinear_arith)
    requires
        0 <= m,
        a * a <= m * m,
    ensures
        -m <= a <= m,
{
}

/// Rescaling by ONE shrinks magnitudes: a value in [-m, m] rescales into
/// [-(m / ONE), m / ONE].
proof fn lemma_scale_down_bound(a: int, m: int)
    requires
        0 <= m,
        -m <= a <= m,
    ensures
        -(m / (ONE as int)) <= scale_down(a) <= m / (ONE as int),
{
    if a >= 0 {
        vstd::arithmetic::div_mod::lemma_div_is_ordered(a, m, ONE as int);
        vstd::arithmetic::div_mod::lemma_div_pos_is_pos(a, ONE as int);
        vstd::arithmetic::div_mod::lemma_div_pos_is_pos(m, ONE as int);
    } else {
        vstd::arithmetic::div_mod::lemma_div_is_ordered(-a, m, ONE as int);
        vstd::arithmetic::div_mod::lemma_div_pos_is_pos(-a, ONE as int);
        vstd::arithmetic::div_mod::lemma_div_pos_is_pos(m, ONE as int);
    }
}

/// A point inside the convergence radius has both coordinates within the
/// radius, and its square has coordinates within STEP_OUTPUT_MAX.
proof fn lemma_step_bounds(z: (int, int))
    requires
        -ITERATE_MAX <= z.0 <= ITERATE_MAX,
        -ITERATE_MAX <= z.1 <= ITERATE_MAX,
        complex_norm(z) <= RADIUS_SQUARED,
    ensures
        -33554432 <= z.0 <= 33554432,
        -33554432 <= z.1 <= 33554432,
        -STEP_OUTPUT_MAX <= complex_square(z).0 <= STEP_OUTPUT_MAX,
        -STEP_OUTPUT_MAX <= complex_square(z).1 <= STEP_OUTPUT_MAX,
{
    lemma_mul_bounds(z.0, z.1, ITERATE_MAX as int);
    lemma_root_bound(z.0, 33554432);
    lemma_root_bound(z.1, 33554432);
    lemma_mul_bounds(z.0, z.1, 33554432);
    lemma_scale_down_bound(z.0 * z.0 - z.1 * z.1, RADIUS_SQUARED as int);
    vstd::arithmetic::mul::lemma_mul_is_associative(2, z.0, z.1);
    lemma_scale_down_bound(2 * z.0 * z.1, 2 * RADIUS_SQUARED as int);
}

/// Determines whether the sequence z ↦ z² + c starting at z0 converges
/// (stays within the convergence radius for LIMIT steps) or diverges, and
/// in the latter case after how many completed steps it first escaped.
pub fn calculate_sequence_limit(z0: Complex, c: Complex) -> (r: SequenceLimit)
    requires
        -COORD_LIMIT <= z0.re <= COORD_LIMIT,
        -COORD_LIMIT <= z0.im <= COORD_LIMIT,
        -COORD_LIMIT <= c.re <= COORD_LIMIT,
        -COORD_LIMIT <= c.im <= COORD_LIMIT,
    ensures
        r == sequence_limit(z0@, c@),
{
    let mut n: u32 = 0;
    let mut z: Complex = z0;
    while n < LIMIT
        invariant
            n <= LIMIT,
            -COORD_LIMIT <= c.re <= COORD_LIMIT,
            -COORD_LIMIT <= c.im <= COORD_LIMIT,
            -ITERATE_MAX <= z.re <= ITERATE_MAX,
            -ITERATE_MAX <= z.im <= ITERATE_MAX,
            z@ == iterate(z0@, c@, n as nat),
            sequence_limit(z0@, c@) == limit_from(z0@, c@, n as nat),
        decreases LIMIT - n,
    {
        let norm = z.norm();
        if norm > RADIUS_SQUARED {
            return SequenceLimit::Divergence(n);
        }
        proof {
            lemma_step_bounds(z@);
        }
        z = z.square().add(c);
        n = n + 1;
    }
    SequenceLimit::Convergence
}

/// The horizontal step, in fixed-point units, between the plane points of
/// two horizontally adjacent pixels: the width of the rectangle divided by
/// the width of the image (rounding down).
pub open spec fn spec_scale_x(b: Bound, width: int) -> int {
    (b.east - b.west) / width
}

/// The vertical step between the plane points of two vertically adjacent
/// pixels.
pub open spec fn spec_scale_y(b: Bound, height: int) -> int {
    (b.north - b.south) / height
}

/// The plane coordinate sampled for pixel (x, y): pixel (0, 0) maps to the
/// rectangle's (west, south) corner, and each pixel advances one scale step.
pub open spec fn plane_point(x: int, y: int, width: int, height: int, b: Bound) -> (int, int) {
    (b.west + x * spec_scale_x(b, width), b.south + y * spec_scale_y(b, height))
}

/// A pixel index times a rounded-down per-pixel step stays within the whole
/// edge: i * (edge / count) lies in [0, edge] for 0 <= i < count.
proof fn lemma_step_within_edge(i: int, count: int, edge: int)
    requires
        0 <= i < count,
        0 <= edge,
    ensures
        0 <= i * (edge / count) <= edge,
{
    let q = edge / count;
    vstd::arithmetic::div_mod::lemma_div_pos_is_pos(edge, count);
    vstd::arithmetic::div_mod::lemma_fundamental_div_mod(edge, count);
    vstd::arithmetic::div_mod::lemma_mod_division_less_than_divisor(edge, count);
    vstd::arithmetic::mul::lemma_mul_inequality(i, count - 1, q);
    vstd::arithmetic::mul::lemma_mul_is_distributive_sub_other_way(q, count, 1);
    vstd::arithmetic::mul::lemma_mul_nonnegative(i, q);
}

/// Maps pixel (x, y) of a width × height grid onto the rectangle `bound`:
/// the real part steps east from the west edge, the imaginary part steps
/// north from the south edge, both by the rounded-down per-pixel scale.
pub fn pixel_to_plane(x: u32, y: u32, width: u32, height: u32, bound: &Bound) -> (z: Complex)
    requires
        bound.wf(),
        x < width,
        y < height,
    ensures
        z@ == plane_point(x as int, y as int, width as int, height as int, *bound),
        -COORD_LIMIT <= z.re <= COORD_LIMIT,
        -COORD_LIMIT <= z.im <= COORD_LIMIT,
{
    let ew: u64 = (bound.east - bound.west) as u64;
    let ns: u64 = (bound.north - bound.south) as u64;
    let scale_x: u64 = ew / (width as u64);
    let scale_y: u64 = ns / (height as u64);
    proof {
        lemma_step_within_edge(x as int, width as int, ew as int);
        lemma_step_within_edge(y as int, height as int, ns as int);
    }
    let xs: u64 = (x as u64) * scale_x;
    let ys: u64 = (y as u64) * scale_y;
    Complex { re: bound.west + (xs as i64), im: bound.south + (ys as i64) }
}

/// One divergence color channel: 255 minus n divided by the channel's
/// fading rate, saturating at 0 instead of underflowing.
pub open spec fn faded(n: int, d: int) -> u8 {
    if n / d >= 255 {
        0u8
    } else {
        (255 - n / d) as u8
    }
}

/// Runtime counterpart of `faded`.
pub fn fade(n: u32, d: u32) -> (b: u8)
    requires
        0 < d,
    ensures
        b == faded(n as int, d as int),
{
    let q: u32 = n / d;
    if q >= 255 {
        0
    } else {
        (255 - q) as u8
    }
}

/// The color policy, as R, G, B, A bytes. A convergent point is drawn as
/// fully transparent black. A point that diverged after n steps fades from
/// near-white (fast divergence) toward darker tones: red fades slowest
/// (rate 2), blue fastest (rate 6), and every channel saturates at 0.
pub open spec fn color_of(r: SequenceLimit) -> (u8, u8, u8, u8) {
    match r {
        SequenceLimit::Convergence => (0u8, 0u8, 0u8, 0u8),
        SequenceLimit::Divergence(n) => (
            faded(n as int, 2),
            faded(n as int, 4),
            faded(n as int, 6),
            255u8,
        ),
    }
}

/// Runtime counterpart of `color_of`.
pub fn color_pixel(r: SequenceLimit) -> (rgba: (u8, u8, u8, u8))
    ensures
        rgba == color_of(r),
{
    match r {
        SequenceLimit::Convergence => (0, 0, 0, 0),
        SequenceLimit::Divergence(n) => (fade(n, 2), fade(n, 4), fade(n, 6), 255),
    }
}

/// The color of pixel (x, y) of a width × height rendering of the Julia set
/// of z ↦ z² + c over the rectangle b: plane mapping, then escape time,
/// then the color policy.
pub open spec fn pixel_rgba(
    x: int,
    y: int,
    width: int,
    height: int,
    b: Bound,
    c: (int, int),
) -> (u8, u8, u8, u8) {
    color_of(sequence_limit(plane_point(x, y, width, height, b), c))
}

/// Computes the color of one pixel: the full per-pixel pipeline, usable
/// independently for every pixel of the grid.
pub fn render_pixel(x: u32, y: u32, width: u32, height: u32, bound: &Bound, c: Complex) -> (rgba:
    (u8, u8, u8, u8))
    requires
        bound.wf(),
        x < width,
        y < height,
        -COORD_LIMIT <= c.re <= COORD_LIMIT,
        -COORD_LIMIT <= c.im <= COORD_LIMIT,
    ensures
        rgba == pixel_rgba(x as int, y as int, width as int, height as int, *bound, c@),
{
    let z0 = pixel_to_plane(x, y, width, height, bound);
    let r = calculate_sequence_limit(z0, c);
    color_pixel(r)
}

/// Selects one channel of an R, G, B, A quadruple by its offset.
pub open spec fn rgba_channel(px: (u8, u8, u8, u8), ch: int) -> u8 {
    if ch == 0 {
        px.0
    } else if ch == 1 {
        px.1
    } else if ch == 2 {
        px.2
    } else {
        px.3
    }
}

/// The bytes of one pixel row of the image: 4 bytes per pixel, R, G, B, A,
/// pixels in west-to-east order.
pub open spec fn julia_row(y: int, width: int, height: int, b: Bound, c: (int, int)) -> Seq<u8> {
    Seq::new(
        (4 * width) as nat,
        |j: int| rgba_channel(pixel_rgba(j / 4, y, width, height, b, c), j % 4),
    )
}

/// Byte i of the image buffer: the byte belongs to pixel i / 4, which sits
/// at column (i / 4) % width of row (i / 4) / width, and is that pixel's
/// channel i % 4.
pub open spec fn julia_byte(width: int, height: int, b: Bound, c: (int, int), i: int) -> u8 {
    rgba_channel(
        pixel_rgba((i / 4) % width, (i / 4) / width, width, height, b, c),
        i % 4,
    )
}

/// The whole image buffer: width * height * 4 bytes, row-major, 4 bytes per
/// pixel, so that pixel (x, y) occupies bytes 4 * (y * width + x) onward.
pub open spec fn julia_image(width: int, height: int, b: Bound, c: (int, int)) -> Seq<u8> {
    Seq::new((4 * width * height) as nat, |i: int| julia_byte(width, height, b, c, i))
}

/// Byte 4 * width * y + j of the image is byte j of row y.
proof fn lemma_row_byte(width: int, height: int, b: Bound, c: (int, int), y: int, j: int)
    requires
        0 < width,
        0 <= y < height,
        0 <= j < 4 * width,
    ensures
        julia_byte(width, height, b, c, 4 * width * y + j) == julia_row(y, width, height, b, c)[j],
{
    let i = 4 * width * y + j;
    let xj = j / 4;
    let chj = j % 4;
    vstd::arithmetic::div_mod::lemma_fundamental_div_mod(j, 4);
    vstd::arithmetic::div_mod::lemma_mod_division_less_than_divisor(j, 4);
    vstd::arithmetic::div_mod::lemma_div_pos_is_pos(j, 4);
    vstd::arithmetic::div_mod::lemma_div_is_ordered(j, 4 * width - 1, 4);
    vstd::arithmetic::div_mod::lemma_fundamental_div_mod_converse(4 * width - 1, 4, width - 1, 3);
    vstd::arithmetic::mul::lemma_mul_is_associative(4, width, y);
    vstd::arithmetic::mul::lemma_mul_is_distributive_add(4, width * y, xj);
    vstd::arithmetic::mul::lemma_mul_is_commutative(4, width * y + xj);
    vstd::arithmetic::div_mod::lemma_fundamental_div_mod_converse(i, 4, width * y + xj, chj);
    vstd::arithmetic::mul::lemma_mul_is_commutative(width, y);
    vstd::arithmetic::div_mod::lemma_fundamental_div_mod_converse(width * y + xj, width, y, xj);
}

/// The buffer layout: the color of pixel (x, y) occupies the 4 bytes at
/// offset 4 * (y * width + x) of the image, in R, G, B, A order.
pub proof fn lemma_pixel_bytes(width: int, height: int, b: Bound, c: (int, int), x: int, y: int)
    requires
        0 <= x < width,
        0 <= y < height,
    ensures
        (({
            let img = julia_image(width, height, b, c);
            let px = pixel_rgba(x, y, width, height, b, c);
            let off = 4 * (y * width + x);
            &&& img[off] == px.0
            &&& img[off + 1] == px.1
            &&& img[off + 2] == px.2
            &&& img[off + 3] == px.3
        })),
{
    let p = y * width + x;
    vstd::arithmetic::mul::lemma_mul_nonnegative(y, width);
    vstd::arithmetic::mul::lemma_mul_is_distributive_add_other_way(width, y, 1);
    vstd::arithmetic::mul::lemma_mul_inequality(y + 1, height, width);
    vstd::arithmetic::mul::lemma_mul_is_commutative(height, width);
    vstd::arithmetic::mul::lemma_mul_is_associative(4, width, height);
    vstd::arithmetic::mul::lemma_mul_is_commutative(width, height);
    vstd::arithmetic::mul::lemma_mul_is_commutative(4, p);
    vstd::arithmetic::div_mod::lemma_fundamental_div_mod_converse(4 * p, 4, p, 0);
    vstd::arithmetic::div_mod::lemma_fundamental_div_mod_converse(4 * p + 1, 4, p, 1);
    vstd::arithmetic::div_mod::lemma_fundamental_div_mod_converse(4 * p + 2, 4, p, 2);
    vstd::arithmetic::div_mod::lemma_fundamental_div_mod_converse(4 * p + 3, 4, p, 3);
    vstd::arithmetic::div_mod::lemma_fundamental_div_mod_converse(p, width, y, x);
}

/// Renders one pixel row of the image: the unit of work of a row-parallel
/// execution strategy. Rows are independent of one another, so any number
/// of them may be computed concurrently and concatenated in order.
pub fn render_row(y: u32, width: u32, height: u32, bound: &Bound, c: Complex) -> (row: Vec<u8>)
    requires
        bound.wf(),
        y < height,
        -COORD_LIMIT <= c.re <= COORD_LIMIT,
        -COORD_LIMIT <= c.im <= COORD_LIMIT,
    ensures
        row@ == julia_row(y as int, width as int, height as int, *bound, c@),
{
    let mut row: Vec<u8> = Vec::new();
    let mut x: u32 = 0;
    while x < width
        invariant
            x <= width,
            y < height,
            bound.wf(),
            -COORD_LIMIT <= c.re <= COORD_LIMIT,
            -COORD_LIMIT <= c.im <= COORD_LIMIT,
            row@.len() == 4 * x,
            forall|j: int|
                0 <= j < row@.len() ==> row@[j] == julia_row(
                    y as int,
                    width as int,
                    height as int,
                    *bound,
                    c@,
                )[j],
        decreases width - x,
    {
        let px = render_pixel(x, y, width, height, bound, c);
        row.push(px.0);
        row.push(px.1);
        row.push(px.2);
        row.push(px.3);
        proof {
            let xi = x as int;
            vstd::arithmetic::div_mod::lemma_fundamental_div_mod_converse(4 * xi, 4, xi, 0);
            vstd::arithmetic::div_mod::lemma_fundamental_div_mod_converse(4 * xi + 1, 4, xi, 1);
            vstd::arithmetic::div_mod::lemma_fundamental_div_mod_converse(4 * xi + 2, 4, xi, 2);
            vstd::arithmetic::div_mod::lemma_fundamental_div_mod_converse(4 * xi + 3, 4, xi, 3);
        }
        x = x + 1;
    }
    proof {
        assert(row@ =~= julia_row(y as int, width as int, height as int, *bound, c@));
    }
    row
}

/// Renders the Julia set of z ↦ z² + c over the rectangle `bound` as a
/// width × height image, sequentially, pixels in row-major order. The
/// buffer holds exactly width * height * 4 bytes, 4 bytes per pixel in
/// R, G, B, A order; zero-sized images yield the empty buffer.
pub fn get_julia_set(canvas_width: u32, canvas_height: u32, bound: Bound, c: Complex) -> (data:
    Vec<u8>)
    requires
        bound.wf(),
        -COORD_LIMIT <= c.re <= COORD_LIMIT,
        -COORD_LIMIT <= c.im <= COORD_LIMIT,
    ensures
        data@ == julia_image(canvas_width as int, canvas_height as int, bound, c@),
        data@.len() == canvas_width * canvas_height * 4,
{
    let ghost wi = canvas_width as int;
    let ghost hi = canvas_height as int;
    let mut data: Vec<u8> = Vec::new();
    if canvas_width == 0 || canvas_height == 0 {
        proof {
            if canvas_width == 0 {
                vstd::arithmetic::mul::lemma_mul_by_zero_is_zero(hi);
            }
            assert(data@ =~= julia_image(wi, hi, bound, c@));
        }
        return data;
    }
    let mut y: u32 = 0;
    while y < canvas_height
        invariant
            wi == canvas_width as int,
            hi == canvas_height as int,
            y <= canvas_height,
            0 < canvas_width,
            bound.wf(),
            -COORD_LIMIT <= c.re <= COORD_LIMIT,
            -COORD_LIMIT <= c.im <= COORD_LIMIT,
            data@.len() == 4 * wi * y,
            forall|i: int|
                0 <= i < data@.len() ==> data@[i] == julia_byte(wi, hi, bound, c@, i),
        decreases canvas_height - y,
    {
        let ghost prev = data@;
        let mut row = render_row(y, canvas_width, canvas_height, &bound, c);
        data.append(&mut row);
        proof {
            let yi = y as int;
            vstd::arithmetic::mul::lemma_mul_is_distributive_add(4 * wi, yi, 1);
            assert forall|i: int|
                0 <= i < data@.len() implies data@[i] == julia_byte(wi, hi, bound, c@, i) by {
                if i >= prev.len() {
                    lemma_row_byte(wi, hi, bound, c@, yi, i - prev.len());
                }
            }
        }
        y = y + 1;
    }
    proof {
        vstd::arithmetic::mul::lemma_mul_is_associative(4, wi, hi);
        vstd::arithmetic::mul::lemma_mul_is_commutative(4, wi * hi);
        assert(data@ =~= julia_image(wi, hi, bound, c@));
    }
    data
}

/// The byte sequences held by a sequence of row buffers.
pub open spec fn seqs_of(rows: Seq<Vec<u8>>) -> Seq<Seq<u8>> {
    rows.map_values(|r: Vec<u8>| r@)
}

/// Concatenates row buffers, in order, into one image buffer: the join step
/// of a row-parallel execution strategy, after every unit of work finished.
pub fn assemble_rows(rows: Vec<Vec<u8>>) -> (data: Vec<u8>)
    ensures
        data@ == seqs_of(rows@).flatten(),
{
    let ghost orig = rows@;
    let ghost total = rows@.len();
    let mut rows = rows;
    let mut data: Vec<u8> = Vec::new();
    while rows.len() > 0
        invariant
            rows@.len() <= total,
            rows@ =~= orig.skip(total - rows@.len()),
            data@ == seqs_of(orig.take(total - rows@.len())).flatten(),
            total == orig.len(),
        decreases rows@.len(),
    {
        let ghost done = total - rows@.len();
        let mut row = rows.remove(0);
        data.append(&mut row);
        proof {
            assert(orig.take(done + 1) =~= orig.take(done).push(orig[done]));
            assert(seqs_of(orig.take(done + 1)) =~= seqs_of(orig.take(done)).push(orig[done]@));
            seqs_of(orig.take(done)).lemma_flatten_push(orig[done]@);
        }
    }
    proof {
        assert(orig.take(total as int) =~= orig);
    }
    data
}

/// Rendering is deterministic: any two buffers that meet the rendering
/// contract for the same dimensions, rectangle and constant are
/// byte-identical, however and whenever they were produced.
pub proof fn lemma_render_deterministic(
    b1: Seq<u8>,
    b2: Seq<u8>,
    width: int,
    height: int,
    b: Bound,
    c: (int, int),
)
    requires
        b1 == julia_image(width, height, b, c),
        b2 == julia_image(width, height, b, c),
    ensures
        b1 == b2,
{
}

/// Row y of the image, as the row-parallel strategy computes it, is exactly
/// the sequential image's bytes 4 * width * y up to 4 * width * (y + 1).
pub proof fn lemma_row_decomposition(width: int, height: int, b: Bound, c: (int, int), y: int)
    requires
        0 < width,
        0 <= y < height,
    ensures
        julia_row(y, width, height, b, c) == julia_image(width, height, b, c).subrange(
            4 * width * y,
            4 * width * (y + 1),
        ),
{
    vstd::arithmetic::mul::lemma_mul_is_distributive_add(4 * width, y, 1);
    vstd::arithmetic::mul::lemma_mul_inequality(y + 1, height, 4 * width);
    vstd::arithmetic::mul::lemma_mul_is_commutative(y + 1, 4 * width);
    vstd::arithmetic::mul::lemma_mul_is_commutative(height, 4 * width);
    vstd::arithmetic::mul::lemma_mul_is_associative(4, width, height);
    vstd::arithmetic::mul::lemma_mul_nonnegative(4 * width, y);
    assert forall|j: int| 0 <= j < 4 * width implies julia_row(y, width, height, b, c)[j]
        == julia_image(width, height, b, c)[4 * width * y + j] by {
        lemma_row_byte(width, height, b, c, y, j);
    }
    assert(julia_row(y, width, height, b, c) =~= julia_image(width, height, b, c).subrange(
        4 * width * y,
        4 * width * (y + 1),
    ));
}

/// The sequential and the row-parallel strategy agree: the image the
/// sequential renderer is bound to produce equals the concatenation, in
/// order, of the rows the parallel units are bound to produce.
pub proof fn lemma_strategies_agree(width: int, height: int, b: Bound, c: (int, int))
    requires
        0 < width,
        0 <= height,
    ensures
        julia_image(width, height, b, c) == Seq::new(
            height as nat,
            |y: int| julia_row(y, width, height, b, c),
        ).flatten(),
{
    lemma_rows_flatten_from(width, height, b, c, 0);
    let img = julia_image(width, height, b, c);
    assert(Seq::new(height as nat, |k: int| julia_row(0 + k, width, height, b, c)) =~= Seq::new(
        height as nat,
        |y: int| julia_row(y, width, height, b, c),
    ));
    assert(img.subrange(4 * width * 0, 4 * width * height) =~= img);
}

/// The rows from y on, concatenated, are the image's bytes from offset
/// 4 * width * y to its end.
proof fn lemma_rows_flatten_from(width: int, height: int, b: Bound, c: (int, int), y: int)
    requires
        0 < width,
        0 <= y <= height,
    ensures
        Seq::new((height - y) as nat, |k: int| julia_row(y + k, width, height, b, c)).flatten()
            == julia_image(width, height, b, c).subrange(4 * width * y, 4 * width * height),
    decreases height - y,
{
    let img = julia_image(width, height, b, c);
    let rows = Seq::new((height - y) as nat, |k: int| julia_row(y + k, width, height, b, c));
    vstd::arithmetic::mul::lemma_mul_inequality(y, height, 4 * width);
    vstd::arithmetic::mul::lemma_mul_is_commutative(y, 4 * width);
    vstd::arithmetic::mul::lemma_mul_is_commutative(height, 4 * width);
    vstd::arithmetic::mul::lemma_mul_is_associative(4, width, height);
    vstd::arithmetic::mul::lemma_mul_nonnegative(4 * width, y);
    if y == height {
        assert(rows.flatten() =~= img.subrange(4 * width * y, 4 * width * height));
    } else {
        lemma_rows_flatten_from(width, height, b, c, y + 1);
        lemma_row_decomposition(width, height, b, c, y);
        vstd::arithmetic::mul::lemma_mul_is_distributive_add(4 * width, y, 1);
        vstd::arithmetic::mul::lemma_mul_inequality(y + 1, height, 4 * width);
        vstd::arithmetic::mul::lemma_mul_is_commutative(y + 1, 4 * width);
        assert(rows.drop_first() =~= Seq::new(
            (height - (y + 1)) as nat,
            |k: int| julia_row(y + 1 + k, width, height, b, c),
        ));
        assert(rows.flatten() == rows.first() + rows.drop_first().flatten());
        assert(rows.flatten() =~= img.subrange(4 * width * y, 4 * width * height));
    }
}

/// For the constant 0 the origin is a fixed point of z ↦ z² + c: every
/// iterate is the origin itself.
proof fn lemma_origin_fixed(n: nat)
    ensures
        iterate((0, 0), (0, 0), n) == (0int, 0int),
    decreases n,
{
    if n > 0 {
        lemma_origin_fixed((n - 1) as nat);
    }
}

/// No escape test from step n on can fire on the constant-origin sequence.
proof fn lemma_origin_from(n: nat)
    requires
        n <= LIMIT,
    ensures
        limit_from((0, 0), (0, 0), n) == SequenceLimit::Convergence,
    decreases LIMIT - n,
{
    lemma_origin_fixed(n);
    if n < LIMIT {
        lemma_origin_from(n + 1);
    }
}

/// Starting at the origin with constant 0, the sequence converges: the
/// origin is the fixed point of the map and never leaves the radius.
pub proof fn lemma_origin_convergent()
    ensures
        sequence_limit((0, 0), (0, 0)) == SequenceLimit::Convergence,
{
    lemma_origin_from(0);
}

/// A starting point already outside the convergence radius diverges
/// immediately, with zero completed iterations, whatever the constant.
pub proof fn lemma_immediate_divergence(z0: (int, int), c: (int, int))
    requires
        complex_norm(z0) > RADIUS_SQUARED,
    ensures
        sequence_limit(z0, c) == SequenceLimit::Divergence(0),
{
    assert(iterate(z0, c, 0) == z0);
}

/// A 1×1 image consists of the 4 bytes of the color of the plane-mapped
/// coordinate of pixel (0, 0).
pub proof fn lemma_single_pixel(b: Bound, c: (int, int))
    ensures
        (({
            let px = pixel_rgba(0, 0, 1, 1, b, c);
            julia_image(1, 1, b, c) == seq![px.0, px.1, px.2, px.3]
        })),
{
    let px = pixel_rgba(0, 0, 1, 1, b, c);
    assert(julia_image(1, 1, b, c) =~= seq![px.0, px.1, px.2, px.3]);
}

/// Divergence counts of 510 and above saturate the red channel at 0: the
/// fastest-fading channel clamps instead of wrapping below zero. (The
/// green and blue rates, 4 and 6, cannot reach 0 below the iteration
/// limit.)
pub proof fn lemma_color_saturates(n: u32)
    requires
        510 <= n,
    ensures
        color_of(SequenceLimit::Divergence(n)).0 == 0,
{
    vstd::arithmetic::div_mod::lemma_div_is_ordered(510, n as int, 2);
}

} // verus!
