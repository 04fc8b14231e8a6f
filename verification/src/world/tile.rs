//! The tiles a room is made of.

use crate::utils::grid::{addressable, cell_index};
use crate::utils::{Vec2, Vec3};
use crate::world::Direction;
use vstd::prelude::*;

verus! {

/// How a kind of tile is drawn.
#[derive(Debug, Copy, Clone, PartialEq, Eq, Structural)]
pub struct TileDisplay {
    pub fg: Vec3<u8>,
    pub bg: Vec3<u8>,
    pub icon: char,
}

/// The kind of a tile. An exit names the room it leads to and the side of the
/// room it lies on.
#[derive(Debug, Copy, Clone, PartialEq, Eq, Structural)]
pub enum TileType {
    Wall,
    Granite,
    Exit { node_id: usize, exiting_direction: Direction },
}

impl TileType {
    pub open spec fn spec_value(self) -> TileDisplay {
        match self {
            TileType::Wall => TileDisplay {
                fg: Vec3 { x: 255, y: 255, z: 255 },
                bg: Vec3 { x: 95, y: 95, z: 95 },
                icon: '#',
            },
            TileType::Granite => TileDisplay {
                fg: Vec3 { x: 255, y: 255, z: 255 },
                bg: Vec3 { x: 95, y: 95, z: 95 },
                icon: '.',
            },
            TileType::Exit { .. } => TileDisplay {
                fg: Vec3 { x: 0, y: 0, z: 0 },
                bg: Vec3 { x: 255, y: 242, z: 0 },
                icon: ' ',
            },
        }
    }

    /// Only walls stop movement.
    pub open spec fn spec_collidable(self) -> bool {
        self is Wall
    }

    pub fn value(&self) -> (display: TileDisplay)
        ensures
            display == self.spec_value(),
    {
        match *self {
            TileType::Wall => TileDisplay {
                fg: Vec3::new(255, 255, 255),
                bg: Vec3::new(95, 95, 95),
                icon: '#',
            },
            TileType::Granite => TileDisplay {
                fg: Vec3::new(255, 255, 255),
                bg: Vec3::new(95, 95, 95),
                icon: '.',
            },
            TileType::Exit { .. } => TileDisplay {
                fg: Vec3::new(0, 0, 0),
                bg: Vec3::new(255, 242, 0),
                icon: ' ',
            },
        }
    }

    pub fn collidable(&self) -> (hit: bool)
        ensures
            hit == self.spec_collidable(),
    {
        match *self {
            TileType::Wall => true,
            TileType::Granite => false,
            TileType::Exit { .. } => false,
        }
    }
}

/// One tile of a room: its kind, whether a creature stands on it and which,
/// and the creatures that died on it.
#[derive(Debug, Clone)]
pub struct Tile {
    pub id: TileType,
    pub occupied: bool,
    pub uuid: usize,
    pub corpses: Vec<usize>,
}

/// A tile as a mathematical value.
pub struct TileView {
    pub id: TileType,
    pub occupied: bool,
    pub uuid: usize,
    pub corpses: Seq<usize>,
}

impl View for Tile {
    type V = TileView;

    open spec fn view(&self) -> TileView {
        TileView { id: self.id, occupied: self.occupied, uuid: self.uuid, corpses: self.corpses@ }
    }
}

impl TileView {
    /// A tile of the given kind on which nothing stands and nothing has died.
    pub open spec fn fresh(id: TileType) -> TileView {
        TileView { id, occupied: false, uuid: 0, corpses: Seq::empty() }
    }
}

/// The tiles of an array as mathematical values.
pub open spec fn tile_views(tiles: Seq<Tile>) -> Seq<TileView> {
    Seq::new(tiles.len(), |i: int| tiles[i]@)
}

/// Whether `pos` names a tile of the grid on which no creature stands.
pub open spec fn tile_free(pos: Vec2<usize>, tiles: Seq<TileView>, size: Vec2<usize>) -> bool {
    addressable(pos, size, tiles.len()) && !tiles[cell_index(pos, size.x)].occupied
}

impl Tile {
    pub fn new(id: TileType) -> (tile: Tile)
        ensures
            tile@ == TileView::fresh(id),
    {
        Tile { id, occupied: false, uuid: 0, corpses: Vec::new() }
    }
}

} // verus!
