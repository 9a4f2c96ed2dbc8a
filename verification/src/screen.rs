//! Framebuffer drawing and the text console drawn on it.

pub mod fb;
pub mod output;
