use vstd::prelude::*;

verus! {

/// Number of fixed-point units per 1.0: plane coordinates are stored as
/// signed integers counting 1/16777216-ths (a 40.24 fixed-point format).
pub const ONE: i64 = 16777216;

/// The convergence radius, 2.0, in fixed-point units (2 * ONE).
pub const RADIUS_OF_CONVERGENCE: i64 = 33554432;

/// The square of the convergence radius in squared fixed-point units:
/// RADIUS_OF_CONVERGENCE * RADIUS_OF_CONVERGENCE. Squared magnitudes are
/// compared against this value.
pub const RADIUS_SQUARED: u128 = 1125899906842624;

/// Iteration limit: after this many steps without escaping, a starting
/// point is declared convergent.
pub const LIMIT: u32 = 900;

/// Largest magnitude, in fixed-point units, accepted for the coordinates
/// of a rendering region or of a starting point (65536.0; the region of
/// interest lies within radius 2 of the origin, so this is generous).
/// The headroom above it keeps every step of the iteration inside i64.
pub const COORD_LIMIT: i64 = 1099511627776;

/// A rectangle in the complex plane: `north`/`south` are the maximal and
/// minimal imaginary coordinates, `west`/`east` the minimal and maximal
/// real coordinates, all in fixed-point units.
#[derive(Clone, Copy, Debug, PartialEq, Eq, Structural)]
pub struct Bound {
    pub north: i64,
    pub south: i64,
    pub west: i64,
    pub east: i64,
}

impl Bound {
    /// A bound is well formed when the rectangle is non-degenerate and its
    /// edges are within the coordinate range the renderer accepts.
    pub open spec fn wf(self) -> bool {
        &&& self.south < self.north
        &&& self.west < self.east
        &&& -COORD_LIMIT <= self.south
        &&& self.north <= COORD_LIMIT
        &&& -COORD_LIMIT <= self.west
        &&& self.east <= COORD_LIMIT
    }

    /// Runtime check for `wf`, so that unverified callers can validate a
    /// rectangle before rendering with it.
    pub fn is_valid(&self) -> (r: bool)
        ensures
            r == self.wf(),
    {
        self.south < self.north && self.west < self.east
            && -COORD_LIMIT <= self.south && self.north <= COORD_LIMIT
            && -COORD_LIMIT <= self.west && self.east <= COORD_LIMIT
    }

    /// The default rendering region: the axis-aligned square spanning the
    /// convergence radius in every direction.
    pub open spec fn full_square_bound() -> Bound {
        Bound {
            north: RADIUS_OF_CONVERGENCE,
            south: (-RADIUS_OF_CONVERGENCE) as i64,
            west: (-RADIUS_OF_CONVERGENCE) as i64,
            east: RADIUS_OF_CONVERGENCE,
        }
    }

    /// Runtime counterpart of `full_square_bound`.
    pub fn full_square() -> (b: Bound)
        ensures
            b == Bound::full_square_bound(),
            b.wf(),
    {
        Bound {
            north: RADIUS_OF_CONVERGENCE,
            south: -RADIUS_OF_CONVERGENCE,
            west: -RADIUS_OF_CONVERGENCE,
            east: RADIUS_OF_CONVERGENCE,
        }
    }
}

} // verus!
