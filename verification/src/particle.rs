//! The particle: a point with a remembered previous position.

use vstd::prelude::*;

verus! {

/// A point mass. Positions and accelerations are fixed-point, in steps of
/// `1 / UNIT`; the velocity is implied by the distance between the current
/// and the previous position.
#[derive(Clone, Copy, Debug, PartialEq, Eq)]
pub struct Particle {
    /// Current position.
    pub x: i64,
    pub y: i64,
    /// Position at the end of the previous sub-step.
    pub px: i64,
    pub py: i64,
    /// Acceleration gathered for the current sub-step.
    pub ax: i64,
    pub ay: i64,
    /// Red, green, blue.
    pub color: (u8, u8, u8),
}

impl Particle {
    /// A particle at rest at `(x, y)`: its previous position is its current one.
    pub fn new(x: i64, y: i64, ax: i64, ay: i64, color: (u8, u8, u8)) -> (p: Particle)
        ensures
            p == (Particle { x, y, px: x, py: y, ax, ay, color }),
    {
        Particle { x, y, px: x, py: y, ax, ay, color }
    }
}

} // verus!
