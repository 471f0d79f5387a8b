//! Fruit Splat's game rules: the fruit ladder, the towers and their upgrade
//! track, the wave schedule, the difficulty modes, the routes, and the
//! bookkeeping of a run (cash, lives, waves, spikes, hits).
//!
//! Everything here works on whole numbers. Lengths are whole pixels, distances
//! along a lane are hundredths of a pixel, durations are milliseconds and
//! speed factors are thousandths; the drawing, the geometry of the lanes and
//! the clock live with the program that runs the game.

use vstd::prelude::*;

pub mod chance;
pub mod combat;
pub mod fruit;
pub mod mode;
pub mod run;
pub mod scenery;
pub mod tower;
pub mod tracks;
pub mod turn;
pub mod wave;

verus! {

} // verus!
