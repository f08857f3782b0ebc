//! A particle sandbox on a grid of unit cells: gravity, pairwise collision
//! response, a rectangular boundary and Verlet integration, all in fixed-point
//! arithmetic.
//!
//! - `units`, `particle`: the numbers and the particle.
//! - `grid`, `world`: the model of the grid, and the world that owns the cells.
//! - `motion`, `passes`, `parallel`: what a sub-step does to a particle on its
//!   own, column by column, the columns side by side.
//! - `contact`, `collide`: the contact of two particles, and the collision
//!   stage.
//! - `simulation`: the stages in order, the sub-step and the tick.
//! - `invariants`, `falling`: what every tick keeps, and how a lone particle
//!   falls.
//! - `color`, `brush`, `display`, `driver`: the colour of the brush, the
//!   brush, the picture, and the decisions of a frame.

pub mod units;
pub mod particle;
pub mod grid;
pub mod world;
pub mod contact;
pub mod collide;
pub mod motion;
pub mod passes;
pub mod parallel;
pub mod simulation;
pub mod invariants;
pub mod color;
pub mod brush;
pub mod display;
pub mod driver;
pub mod falling;
