//! A turn-based dungeon crawl: a generated graph of rooms, a player, and the
//! creatures that hunt them, with every rule of movement and combat verified.

pub mod camera;
pub mod entity;
pub mod game;
pub mod goblin;
pub mod input;
pub mod log;
pub mod player;
pub mod rogue_view;
pub mod utils;
pub mod world;

pub use game::{Game, GameOptions};
pub use goblin::Goblin;
pub use log::Log;
pub use player::Player;
