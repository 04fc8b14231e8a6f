//! What the renderer needs to know to draw an entity.

use crate::utils::{Vec2, Vec3};
use vstd::prelude::*;

verus! {

/// A glyph, its colours, and where it goes.
#[derive(Debug, Copy, Clone, PartialEq, Eq, Structural)]
pub struct DrawOutput {
    pub position: Vec2<usize>,
    pub fg: Vec3<u8>,
    pub bg: Vec3<u8>,
    pub icon: char,
}

/// Anything that can be put on the screen.
pub trait Drawable {
    /// The picture of `self`, as a mathematical value.
    spec fn spec_draw(&self) -> DrawOutput;

    fn draw(&self) -> (out: DrawOutput)
        ensures
            out == self.spec_draw(),
    ;
}

} // verus!
