//! A terminal raster-graphics runtime: a framebuffer of RGB cells with
//! drawing and resampling, a differential escape-sequence serialiser, and the
//! per-frame decisions of the application loop.

use vstd::prelude::*;

pub mod app;
pub mod color;
pub mod framebuffer;
pub mod event;
pub mod laws;
pub mod profiler;
pub mod renderer;
mod terminal;

pub use color::Color;
pub use framebuffer::Framebuffer;
pub use renderer::Renderer;

