//! The world the player walks through: directions, tiles, rooms, dungeons.

pub mod direction;
pub mod dungeon;
pub mod dungeon_builder;
pub mod error;
pub mod room;
pub mod rules;
pub mod tile;
pub mod world;

pub use self::direction::Direction;
pub use self::dungeon::{Dungeon, DungeonView};
pub use self::dungeon_builder::DungeonBuilder;
pub use self::error::WorldError;
pub use self::room::{Entrance, Room, RoomProperties, RoomView};
pub use self::world::{World, WorldNode, WorldNodeView, WorldView};
pub use self::tile::{tile_free, tile_views, Tile, TileDisplay, TileType, TileView};
