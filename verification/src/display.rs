//! What there is to draw: one pixel for each particle.

use vstd::prelude::*;
use crate::grid::{particles_of, population};
use crate::particle::Particle;
use crate::units::{clamp, floor_div, UNIT};
use crate::world::World;

verus! {

/// A point of the picture and its colour.
#[derive(Clone, Copy, Debug, PartialEq, Eq)]
pub struct Pixel {
    pub x: i32,
    pub y: i32,
    pub color: (u8, u8, u8),
}

/// The whole part of a coordinate, held to the range of `i32`.
pub open spec fn whole(x: i64) -> i32 {
    clamp(x as int / (UNIT as int), i32::MIN as int, i32::MAX as int) as i32
}

/// The pixel of a particle: the whole parts of its position, in its colour.
pub open spec fn pixel_of(p: Particle) -> Pixel {
    Pixel { x: whole(p.x), y: whole(p.y), color: p.color }
}

/// The whole part of a coordinate.
pub fn whole_of(x: i64) -> (r: i32)
    ensures
        r == whole(x),
{
    let q: i128 = floor_div(x as i128, UNIT as i128);
    if q < -0x8000_0000 {
        -0x8000_0000
    } else if q > 0x7fff_ffff {
        0x7fff_ffff
    } else {
        q as i32
    }
}

/// One pixel for each particle of the world, in the order of `particles`.
/// The world is left as it is.
pub fn snapshot(world: &World) -> (pixels: Vec<Pixel>)
    requires
        world.wf(),
    ensures
        pixels@ == particles_of(world@).map_values(|p: Particle| pixel_of(p)),
        pixels.len() == population(world@),
{
    let all: Vec<Particle> = world.particles();
    let mut pixels: Vec<Pixel> = Vec::new();
    let mut k: usize = 0;
    while k < all.len()
        invariant
            k <= all.len(),
            pixels.len() == k,
            forall|t: int| 0 <= t < k ==> pixels[t] == pixel_of(all[t]),
        decreases all.len() - k,
    {
        let p: Particle = all[k];
        pixels.push(Pixel { x: whole_of(p.x), y: whole_of(p.y), color: p.color });
        k += 1;
    }
    assert(pixels@ =~= all@.map_values(|p: Particle| pixel_of(p)));
    pixels
}

} // verus!
