//! What is left of a creature that died.

use crate::entity::DrawOutput;
use crate::utils::{IdMap, Vec2, Vec3};
use vstd::prelude::*;

verus! {

/// The remains of a creature, on the tile where it died.
pub struct Corpse {
    pos: Vec2<usize>,
}

/// The corpses of a room under the ids of the creatures they were.
pub type CorpseMap = IdMap<Corpse>;

impl View for Corpse {
    type V = Vec2<usize>;

    /// The tile the corpse lies on.
    closed spec fn view(&self) -> Vec2<usize> {
        self.pos
    }
}

/// The picture of a corpse on the tile `pos`: a dark `c` on grey.
pub open spec fn corpse_picture(pos: Vec2<usize>) -> DrawOutput {
    DrawOutput {
        position: pos,
        fg: Vec3 { x: 50, y: 50, z: 50 },
        bg: Vec3 { x: 95, y: 95, z: 95 },
        icon: 'c',
    }
}

impl Corpse {
    pub fn new(pos: Vec2<usize>) -> (corpse: Corpse)
        ensures
            corpse@ == pos,
    {
        Corpse { pos }
    }

    pub fn position(&self) -> (pos: &Vec2<usize>)
        ensures
            *pos == self@,
    {
        &self.pos
    }

    pub fn draw(&self) -> (out: DrawOutput)
        ensures
            out == corpse_picture(self@),
    {
        DrawOutput {
            position: self.pos,
            fg: Vec3::new(50, 50, 50),
            bg: Vec3::new(95, 95, 95),
            icon: 'c',
        }
    }
}

} // verus!
