//! The display surface the engine presents to.
//!
//! The framebuffer bits inside machine memory are the single source of
//! truth; a `Screen` is only a presentation cache of them, told about each
//! change after the bit has already been flipped.

use vstd::prelude::*;

use crate::semantics::{SCREEN_HEIGHT, SCREEN_WIDTH};

verus! {

/// A surface that can mirror the monochrome framebuffer.  Coordinates are in
/// framebuffer pixel space (`0..SCREEN_WIDTH`, `0..SCREEN_HEIGHT`); scaling
/// to device pixels is entirely the implementation's concern.
pub trait Screen {
    /// Clear the whole surface.
    fn clear(&mut self);

    /// Draw a white pixel at `x`, `y`.
    fn draw_px(&mut self, x: i32, y: i32)
        requires
            0 <= x < SCREEN_WIDTH as i32,
            0 <= y < SCREEN_HEIGHT as i32,
    ;

    /// Draw a black pixel at `x`, `y`.
    fn clear_px(&mut self, x: i32, y: i32)
        requires
            0 <= x < SCREEN_WIDTH as i32,
            0 <= y < SCREEN_HEIGHT as i32,
    ;

    /// Make all changes since the last call visible.
    fn present(&mut self);
}

/// A surface that ignores everything: for headless execution and tests.
pub struct NoScreen {}

impl Screen for NoScreen {
    fn clear(&mut self) {
    }

    fn draw_px(&mut self, _x: i32, _y: i32) {
    }

    fn clear_px(&mut self, _x: i32, _y: i32) {
    }

    fn present(&mut self) {
    }
}

} // verus!
