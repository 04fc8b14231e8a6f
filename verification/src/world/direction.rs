//! The four compass directions and how they move a grid position.
//!
//! North points towards smaller `y`, West towards smaller `x`.

use crate::utils::Vec2;
use vstd::prelude::*;

verus! {

#[derive(Debug, Copy, Clone, PartialEq, Eq, Structural)]
pub enum Direction {
    North,
    East,
    South,
    West,
}

impl Direction {
    /// The direction a number stands for: 1 to 4 count clockwise from North,
    /// every other number is North.
    pub open spec fn from_index(val: usize) -> Direction {
        if val == 2 {
            Direction::East
        } else if val == 3 {
            Direction::South
        } else if val == 4 {
            Direction::West
        } else {
            Direction::North
        }
    }

    /// The opposite direction.
    pub open spec fn inverted(self) -> Direction {
        match self {
            Direction::North => Direction::South,
            Direction::East => Direction::West,
            Direction::South => Direction::North,
            Direction::West => Direction::East,
        }
    }

    /// The direction a quarter turn clockwise.
    pub open spec fn clockwise(self) -> Direction {
        match self {
            Direction::North => Direction::East,
            Direction::East => Direction::South,
            Direction::South => Direction::West,
            Direction::West => Direction::North,
        }
    }

    /// The direction a quarter turn counter-clockwise.
    pub open spec fn counter_clockwise(self) -> Direction {
        match self {
            Direction::North => Direction::West,
            Direction::West => Direction::South,
            Direction::South => Direction::East,
            Direction::East => Direction::North,
        }
    }

    /// Whether one step from `location` stays on the unsigned grid.
    pub open spec fn can_apply(self, location: Vec2<usize>) -> bool {
        match self {
            Direction::North => location.y >= 1,
            Direction::West => location.x >= 1,
            _ => true,
        }
    }

    /// The position one step from `location`, as mathematical integers.
    pub open spec fn applied(self, location: Vec2<usize>) -> (int, int) {
        match self {
            Direction::North => (location.x as int, location.y - 1),
            Direction::East => (location.x + 1, location.y as int),
            Direction::South => (location.x as int, location.y + 1),
            Direction::West => (location.x - 1, location.y as int),
        }
    }

    pub fn get_direction(val: usize) -> (d: Direction)
        ensures
            d == Direction::from_index(val),
    {
        match val {
            1 => Direction::North,
            2 => Direction::East,
            3 => Direction::South,
            4 => Direction::West,
            _ => Direction::North,
        }
    }

    pub fn invert(&mut self)
        ensures
            *final(self) == old(self).inverted(),
    {
        match *self {
            Direction::North => *self = Direction::South,
            Direction::East => *self = Direction::West,
            Direction::South => *self = Direction::North,
            Direction::West => *self = Direction::East,
        }
    }

    pub fn rotate_cw(&mut self)
        ensures
            *final(self) == old(self).clockwise(),
    {
        match *self {
            Direction::North => *self = Direction::East,
            Direction::East => *self = Direction::South,
            Direction::South => *self = Direction::West,
            Direction::West => *self = Direction::North,
        }
    }

    pub fn rotate_ccw(&mut self)
        ensures
            *final(self) == old(self).counter_clockwise(),
    {
        match *self {
            Direction::North => *self = Direction::West,
            Direction::West => *self = Direction::South,
            Direction::South => *self = Direction::East,
            Direction::East => *self = Direction::North,
        }
    }

    /// Takes one step from `location`. The step fails only where it would
    /// leave the grid through its northern or western edge.
    pub fn try_apply(&self, location: Vec2<usize>) -> (res: Option<Vec2<usize>>)
        requires
            *self == Direction::East ==> location.x < usize::MAX,
            *self == Direction::South ==> location.y < usize::MAX,
        ensures
            res.is_some() == self.can_apply(location),
            res matches Some(p) ==> (p.x as int, p.y as int) == self.applied(location),
    {
        match self {
            Direction::North => {
                if location.y >= 1 {
                    return Some(Vec2::new(location.x, location.y - 1));
                }
            },
            Direction::East => {
                return Some(Vec2::new(location.x + 1, location.y));
            },
            Direction::South => {
                return Some(Vec2::new(location.x, location.y + 1));
            },
            Direction::West => {
                if location.x >= 1 {
                    return Some(Vec2::new(location.x - 1, location.y));
                }
            },
        }
        None
    }
}

/// Turning around twice gives the direction one started with.
pub proof fn lemma_invert_twice(d: Direction)
    ensures
        d.inverted().inverted() == d,
{
}

/// Four quarter turns clockwise give the direction one started with.
pub proof fn lemma_four_clockwise_turns(d: Direction)
    ensures
        d.clockwise().clockwise().clockwise().clockwise() == d,
{
}

/// A quarter turn one way undoes a quarter turn the other way.
pub proof fn lemma_quarter_turns_cancel(d: Direction)
    ensures
        d.clockwise().counter_clockwise() == d,
        d.counter_clockwise().clockwise() == d,
{
}

} // verus!
