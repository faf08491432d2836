//! A decorative background of moving points for a window: the points drift,
//! fall, shy away from the cursor and wrap around the edges; points that are
//! close to each other are joined by a line, and points that touch bounce
//! off each other.
//!
//! The host calls [`background::Background::frame`] once per redraw and
//! paints the [`draw::DrawCommand`]s that it returns. All quantities are
//! fixed-point integers (see [`fixed`]), so that every frame is exact and
//! the contracts of the functions are proved with Verus. The one contract
//! that is taken on trust is that of the random number generator, in
//! [`population`].
//!
//! The parts of a frame:
//!
//! - [`population`]: the first, random population of points;
//! - [`motion`]: the motion of the points within one frame;
//! - [`detect`]: the sweep that finds the pairs of points close in x;
//! - [`resolve`]: the lines and collisions that the pairs give rise to;
//! - [`draw`]: the drawing instructions for points and lines.

pub mod background;
pub mod config;
pub mod detect;
pub mod draw;
pub mod fixed;
pub mod motion;
pub mod point;
pub mod population;
pub mod resolve;
pub mod sorting;
