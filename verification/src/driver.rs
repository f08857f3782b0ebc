//! What a frame does to the sandbox: the decisions of the main loop, apart
//! from the window that feeds it and shows the outcome.

use vstd::prelude::*;
use vstd::arithmetic::div_mod::{lemma_div_multiples_vanish, lemma_fundamental_div_mod_converse};
use crate::brush::{brush, brush_count, stroked};
use crate::color::{hsv_rgb, hsv_to_rgb, FULL_TURN};
use crate::grid::{coherent, population, Grid};
use crate::simulation::{tick, ticked};
use crate::units::UNIT;
use crate::world::World;

verus! {

/// A frame that took this many microseconds or more is not ticked.
pub const STALL_MICROS: u64 = 10_000;

/// What the user did since the last frame.
#[derive(Clone, Copy, Debug, PartialEq, Eq)]
pub enum Event {
    /// Close the window.
    Quit,
    /// Hold or release the simulation.
    TogglePause,
}

/// What a frame gets from outside.
pub struct Frame {
    /// The event of this frame, if there was one.
    pub event: Option<Event>,
    /// The pointer's cell.
    pub pointer_x: i32,
    pub pointer_y: i32,
    /// Whether the brush is down.
    pub pressed: bool,
    /// Milliseconds since the sandbox started.
    pub clock_ms: u64,
    /// Microseconds that the previous frame took.
    pub elapsed_micros: u64,
    /// Random numbers for the brush, each uniform over `u32`.
    pub rolls: [u32; 50],
}

/// The world and whether it is held.
pub struct Sandbox {
    pub world: World,
    pub paused: bool,
}

/// The hue of the brush at a time: one degree every 50 milliseconds, folded
/// into a full turn.
pub open spec fn hue_at(ms: int) -> int {
    (ms * UNIT / 50) % (FULL_TURN as int)
}

/// The colour of the brush at a time: its hue at full saturation and value.
pub open spec fn brush_color(ms: int) -> (u8, u8, u8) {
    let c = hsv_rgb(hue_at(ms), UNIT as int, UNIT as int);
    (c.0 as u8, c.1 as u8, c.2 as u8)
}

/// Whether the frame ends the sandbox.
pub open spec fn quits(frame: Frame) -> bool {
    frame.event == Some(Event::Quit)
}

/// Whether the sandbox is held after the frame's event.
pub open spec fn paused_after(paused: bool, frame: Frame) -> bool {
    if frame.event == Some(Event::TogglePause) {
        !paused
    } else {
        paused
    }
}

/// The grid after the frame. A frame that quits, or finds the sandbox held,
/// leaves it alone. Else the brush, if it is down, adds its particles, and
/// then the world is ticked, unless the previous frame stalled.
pub open spec fn world_after(g: Grid, paused: bool, frame: Frame) -> Grid {
    if quits(frame) || paused_after(paused, frame) {
        g
    } else {
        let b = if frame.pressed {
            stroked(g, frame.pointer_x as int, frame.pointer_y as int, frame.rolls@, brush_color(frame.clock_ms as int))
        } else {
            g
        };
        if frame.elapsed_micros < STALL_MICROS {
            ticked(b, frame.elapsed_micros as int)
        } else {
            b
        }
    }
}

/// The number of particles that the frame adds to a world of `w` by `h`
/// cells: those of the brush, where it is down and the sandbox runs.
pub open spec fn growth(paused: bool, frame: Frame, w: int, h: int) -> int {
    if quits(frame) || paused_after(paused, frame) || !frame.pressed {
        0
    } else {
        brush_count(frame.pointer_x as int, frame.pointer_y as int, w, h)
    }
}

/// The hue of the brush at a time.
pub fn hue_of(ms: u64) -> (h: i64)
    ensures
        h == hue_at(ms as int),
        0 <= h < FULL_TURN,
{
    let turns: u64 = ms / 18_000;
    let rest: u64 = ms % 18_000;
    proof {
        let part = ms as int * 20_000_000;
        assert(ms as int * (UNIT as int) == 50 * part);
        lemma_div_multiples_vanish(part, 50);
        assert(part == (FULL_TURN as int) * (turns as int) + rest as int * 20_000_000);
        lemma_fundamental_div_mod_converse(
            part,
            FULL_TURN as int,
            turns as int,
            rest as int * 20_000_000,
        );
    }
    (rest as i64) * 20_000_000
}

impl Sandbox {
    /// A running sandbox with an empty world.
    pub fn new(w: usize, h: usize) -> (s: Sandbox)
        requires
            w >= 1,
            h >= 1,
        ensures
            s.world.wf(),
            s.world.spec_width() == w,
            s.world.spec_height() == h,
            !s.paused,
            coherent(s.world@),
            forall|i: int, j: int| 0 <= i < w && 0 <= j < h ==> (#[trigger] s.world@[i][j]).len() == 0,
    {
        Sandbox { world: World::new(w, h), paused: false }
    }

    /// One frame. Returns whether the sandbox goes on; when it does, the
    /// world is there to be drawn.
    pub fn frame(&mut self, frame: &Frame) -> (running: bool)
        requires
            old(self).world.wf(),
        ensures
            final(self).world.wf(),
            final(self).world.spec_width() == old(self).world.spec_width(),
            final(self).world.spec_height() == old(self).world.spec_height(),
            running == !quits(*frame),
            final(self).paused == if quits(*frame) {
                old(self).paused
            } else {
                paused_after(old(self).paused, *frame)
            },
            final(self).world@ == world_after(old(self).world@, old(self).paused, *frame),
            coherent(old(self).world@) ==> coherent(final(self).world@),
            population(final(self).world@) == population(old(self).world@) + growth(
                old(self).paused,
                *frame,
                old(self).world.spec_width(),
                old(self).world.spec_height(),
            ),
    {
        match frame.event {
            Some(Event::Quit) => {
                return false;
            },
            Some(Event::TogglePause) => {
                self.paused = !self.paused;
            },
            None => {},
        }
        if !self.paused {
            if frame.pressed {
                let color: (u8, u8, u8) = hsv_to_rgb(hue_of(frame.clock_ms), UNIT, UNIT);
                brush(&mut self.world, frame.pointer_x, frame.pointer_y, &frame.rolls, color);
            }
            if frame.elapsed_micros < STALL_MICROS {
                tick(&mut self.world, frame.elapsed_micros as u32);
            }
        }
        true
    }
}

} // verus!
