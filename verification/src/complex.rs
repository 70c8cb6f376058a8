use vstd::prelude::*;

use crate::util::ONE;

verus! {

/// Largest coordinate magnitude `square` accepts; chosen so that all of
/// its intermediate products fit comfortably in i128 and its results in
/// i64.
pub const SQUARE_INPUT_MAX: i64 = 4398046511104;

/// A complex number whose real and imaginary parts are fixed-point
/// integers counting 1/ONE-ths (see `crate::util::ONE`).
#[derive(Clone, Copy, Debug, PartialEq, Eq, Structural)]
pub struct Complex {
    pub re: i64,
    pub im: i64,
}

impl View for Complex {
    type V = (int, int);

    open spec fn view(&self) -> (int, int) {
        (self.re as int, self.im as int)
    }
}

/// Rescaling after a fixed-point multiplication: division by ONE,
/// rounding toward zero.
pub open spec fn scale_down(a: int) -> int {
    if a >= 0 {
        a / (ONE as int)
    } else {
        -((-a) / (ONE as int))
    }
}

/// The square of a complex number in fixed-point arithmetic:
/// (re² − im², 2·re·im), each component rescaled by ONE.
pub open spec fn complex_square(z: (int, int)) -> (int, int) {
    (scale_down(z.0 * z.0 - z.1 * z.1), scale_down(2 * z.0 * z.1))
}

/// Componentwise complex addition.
pub open spec fn complex_add(a: (int, int), b: (int, int)) -> (int, int) {
    (a.0 + b.0, a.1 + b.1)
}

/// The squared magnitude re² + im², in squared fixed-point units.
pub open spec fn complex_norm(z: (int, int)) -> int {
    z.0 * z.0 + z.1 * z.1
}

/// Bounds on products of bounded factors; the default solver does not
/// reason about general multiplication.
pub(crate) proof fn lemma_mul_bounds(a: int, b: int, m: int)
    by (nonlinear_arith)
    requires
        0 <= m,
        -m <= a <= m,
        -m <= b <= m,
    ensures
        -(m * m) <= a * b <= m * m,
        0 <= a * a <= m * m,
        0 <= b * b <= m * m,
{
}

/// Divides a double-width product by ONE, rounding toward zero.
fn rescale(v: i128) -> (r: i64)
    requires
        -0x40_0000_0000_0000_0000_0000 <= v <= 0x40_0000_0000_0000_0000_0000,
    ensures
        r as int == scale_down(v as int),
{
    if v >= 0 {
        let q: u128 = (v as u128) / (ONE as u128);
        proof {
            vstd::arithmetic::div_mod::lemma_div_is_ordered(
                v as int,
                0x40_0000_0000_0000_0000_0000int,
                ONE as int,
            );
        }
        q as i64
    } else {
        let m: u128 = (-v) as u128;
        let q: u128 = m / (ONE as u128);
        proof {
            vstd::arithmetic::div_mod::lemma_div_is_ordered(
                m as int,
                0x40_0000_0000_0000_0000_0000int,
                ONE as int,
            );
        }
        -(q as i64)
    }
}

impl Complex {
    /// The complex square of `self`: real part re² − im², imaginary part
    /// 2·re·im, both rescaled by ONE with rounding toward zero.
    pub fn square(self) -> (r: Complex)
        requires
            -SQUARE_INPUT_MAX <= self.re <= SQUARE_INPUT_MAX,
            -SQUARE_INPUT_MAX <= self.im <= SQUARE_INPUT_MAX,
        ensures
            r@ == complex_square(self@),
    {
        let re_w: i128 = self.re as i128;
        let im_w: i128 = self.im as i128;
        proof {
            lemma_mul_bounds(re_w as int, im_w as int, SQUARE_INPUT_MAX as int);
        }
        let re_sq = rescale(re_w * re_w - im_w * im_w);
        let cross: i128 = re_w * im_w;
        let im_sq = rescale(2 * cross);
        proof {
            vstd::arithmetic::mul::lemma_mul_is_associative(2, re_w as int, im_w as int);
        }
        Complex { re: re_sq, im: im_sq }
    }

    /// The squared magnitude re² + im². Total: every i64 coordinate pair
    /// is accepted, and the result always fits in u128.
    pub fn norm(&self) -> (r: u128)
        ensures
            r as int == complex_norm(self@),
    {
        let re_w: i128 = self.re as i128;
        let im_w: i128 = self.im as i128;
        proof {
            lemma_mul_bounds(re_w as int, im_w as int, 0x8000_0000_0000_0000int);
        }
        let rr: u128 = (re_w * re_w) as u128;
        let ii: u128 = (im_w * im_w) as u128;
        rr + ii
    }

    /// Componentwise sum of `self` and `z`.
    pub fn add(self, z: Complex) -> (r: Complex)
        requires
            i64::MIN <= self.re + z.re <= i64::MAX,
            i64::MIN <= self.im + z.im <= i64::MAX,
        ensures
            r@ == complex_add(self@, z@),
    {
        Complex { re: self.re + z.re, im: self.im + z.im }
    }
}

} // verus!
