//! What lives in a room: stat blocks, attacks, and how things are drawn.

pub mod attack;
pub mod corpse;
pub mod display;
pub mod entity;
pub mod stats;

pub use self::attack::{Attack, AttackType, Attackable, CombatResult, ElementalType};
pub use self::corpse::{Corpse, CorpseMap};
pub use self::display::{DrawOutput, Drawable};
pub use self::entity::{Creature, CreatureView, Entity, EntityMap};
pub use self::stats::{facing_position, Facing, StatBlock};
