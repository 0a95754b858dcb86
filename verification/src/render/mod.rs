//! Rendering: everything that is decided before the graphics device is asked.

pub mod device;
pub mod font;
pub mod frame;
pub mod layout;
pub mod light;
pub mod memory;
pub mod model;
