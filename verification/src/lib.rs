//! A small verified 2D software-rendering engine core: a command-driven
//! display pipeline, a run-list sprite blitter with integer alpha
//! compositing, a camera capture system and a fixed-timestep scheduler.

pub mod display;
pub mod engine;
pub mod input;
pub mod object;
pub mod renderer;
pub mod screens;
pub mod shared;
pub mod sprite;
