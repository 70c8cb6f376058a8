pub mod complex;
pub mod julia;
pub mod util;

use vstd::prelude::*;

use crate::complex::Complex;
use crate::julia::{get_julia_set, julia_image};
use crate::util::{Bound, COORD_LIMIT};

verus! {

/// A Julia set renderer holding the constant c of the map z ↦ z² + c that
/// it renders, fixed for every image it draws.
pub struct JuliaSet {
    pub c: Complex,
}

impl View for JuliaSet {
    type V = (int, int);

    open spec fn view(&self) -> (int, int) {
        self.c@
    }
}

impl JuliaSet {
    /// Whether the held constant is within the renderer's coordinate range.
    pub open spec fn wf(self) -> bool {
        &&& -COORD_LIMIT <= self.c.re <= COORD_LIMIT
        &&& -COORD_LIMIT <= self.c.im <= COORD_LIMIT
    }

    /// A renderer for the Julia set of z ↦ z² + c.
    pub fn new(c: Complex) -> (s: JuliaSet)
        requires
            -COORD_LIMIT <= c.re <= COORD_LIMIT,
            -COORD_LIMIT <= c.im <= COORD_LIMIT,
        ensures
            s@ == c@,
            s.wf(),
    {
        JuliaSet { c }
    }

    /// Renders a width × height image of the Julia set over the given
    /// rectangle, or over the full default square when none is given (a
    /// caller that fails to supply a usable rectangle falls back to the
    /// default). The caller blits or encodes the returned RGBA bytes.
    pub fn draw(&self, width: u32, height: u32, bound: Option<&Bound>) -> (data: Vec<u8>)
        requires
            self.wf(),
            (match bound {
                Some(b) => b.wf(),
                None => true,
            }),
        ensures
            (match bound {
                Some(b) => data@ == julia_image(width as int, height as int, *b, self@),
                None => data@ == julia_image(
                    width as int,
                    height as int,
                    Bound::full_square_bound(),
                    self@,
                ),
            }),
    {
        let b: Bound = match bound {
            Some(r) => *r,
            None => Bound::full_square(),
        };
        get_julia_set(width, height, b, self.c)
    }
}

} // verus!
