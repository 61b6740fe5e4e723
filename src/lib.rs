//! A splash-screen compositor for a Linux frame buffer: an in-memory pixel
//! surface, the placement of a bitmap on it, and the command state machine that
//! decides what the display device is told to do.

pub mod bitmap;
pub mod frame;
pub mod offset;
pub mod render;
