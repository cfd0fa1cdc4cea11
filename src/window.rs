//! The size of the surface that frames are drawn to.

use vstd::prelude::*;

verus! {

/// Width and height of a window's drawable area, in pixels.
#[derive(Clone, Copy, Debug, PartialEq, Eq, Structural)]
pub struct WindowSize {
    pub width: u32,
    pub height: u32,
}

/// A window that can report its drawable size.
pub trait HasWindowSize {
    fn get_window_size(&self) -> WindowSize;
}

} // verus!
