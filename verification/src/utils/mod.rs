//! Small building blocks shared by the rest of the crate.

pub mod count;
pub mod graph;
pub mod grid;
pub mod id_map;
pub mod math;
pub mod random;
pub mod text;

pub use self::graph::{Graph, GraphError, Node};
pub use self::id_map::IdMap;
pub use self::math::{Vec2, Vec3};
