//! Escape-time rendering of the Mandelbrot set: the iteration loop, the
//! colouring of its outcomes and the generation of whole frames, with the
//! arithmetic on the complex plane left to the caller.

pub mod color;
pub mod escape;
pub mod frame;
pub mod input;
pub mod outcome;
pub mod render;
