//! Stat blocks and the way an entity faces.

use crate::utils::Vec2;
use vstd::prelude::*;

verus! {

/// The way an entity looks. North is the side of growing `y`.
#[derive(Debug, Copy, Clone, PartialEq, Eq, Structural)]
pub enum Facing {
    North,
    East,
    South,
    West,
}

/// The tile in front of an entity at `pos` that looks towards `facing`. At the
/// rim of the coordinate range, where no such tile exists, it is `pos` itself.
pub open spec fn spec_facing_position(facing: Facing, pos: Vec2<usize>) -> Vec2<usize> {
    match facing {
        Facing::North => Vec2 {
            x: pos.x,
            y: if pos.y < usize::MAX { (pos.y + 1) as usize } else { pos.y },
        },
        Facing::East => Vec2 {
            x: if pos.x < usize::MAX { (pos.x + 1) as usize } else { pos.x },
            y: pos.y,
        },
        Facing::South => Vec2 { x: pos.x, y: if pos.y > 0 { (pos.y - 1) as usize } else { pos.y } },
        Facing::West => Vec2 { x: if pos.x > 0 { (pos.x - 1) as usize } else { pos.x }, y: pos.y },
    }
}

pub fn facing_position(facing: Facing, pos: Vec2<usize>) -> (front: Vec2<usize>)
    ensures
        front == spec_facing_position(facing, pos),
{
    match facing {
        Facing::North => Vec2::new(pos.x, if pos.y < usize::MAX { pos.y + 1 } else { pos.y }),
        Facing::East => Vec2::new(if pos.x < usize::MAX { pos.x + 1 } else { pos.x }, pos.y),
        Facing::South => Vec2::new(pos.x, if pos.y > 0 { pos.y - 1 } else { pos.y }),
        Facing::West => Vec2::new(if pos.x > 0 { pos.x - 1 } else { pos.x }, pos.y),
    }
}

/// The numbers that describe an entity. Health and mana start at twice
/// strength and intelligence; afterwards only combat changes health.
#[derive(Debug, Copy, Clone, PartialEq, Eq, Structural)]
pub struct StatBlock {
    pub strength: i32,
    pub dexterity: i32,
    pub intelligence: i32,
    pub health: i32,
    pub mana: i32,
}

impl StatBlock {
    /// Whether the derived health and mana of these attributes fit an `i32`.
    pub open spec fn can_derive(strength: i32, intelligence: i32) -> bool {
        &&& i32::MIN <= strength * 2 <= i32::MAX
        &&& i32::MIN <= intelligence * 2 <= i32::MAX
    }

    /// The stat block that `new` builds from three attributes.
    pub open spec fn derived(strength: i32, dexterity: i32, intelligence: i32) -> StatBlock {
        StatBlock {
            strength,
            dexterity,
            intelligence,
            health: (strength * 2) as i32,
            mana: (intelligence * 2) as i32,
        }
    }

    pub fn new(strength: i32, dexterity: i32, intelligence: i32) -> (stats: StatBlock)
        requires
            StatBlock::can_derive(strength, intelligence),
        ensures
            stats == StatBlock::derived(strength, dexterity, intelligence),
            stats.health == 2 * strength,
            stats.mana == 2 * intelligence,
    {
        StatBlock {
            strength,
            dexterity,
            intelligence,
            health: strength * 2,
            mana: intelligence * 2,
        }
    }
}

} // verus!
