//! Attacks and what comes of them.

use crate::entity::StatBlock;
use crate::player::Player;
use crate::utils::Vec2;
use crate::world::{tile_free, tile_views, Tile};
use vstd::prelude::*;

verus! {

#[derive(Debug, Copy, Clone, PartialEq, Eq, Structural)]
pub enum ElementalType {
    Fire,
    Frost,
    Lightning,
}

#[derive(Debug, Copy, Clone, PartialEq, Eq, Structural)]
pub enum AttackType {
    Slashing,
    Piercing,
    Elemental(ElementalType),
}

/// One blow: its kind, the health it takes, and the tile it is aimed at.
#[derive(Debug, Copy, Clone, PartialEq, Eq, Structural)]
pub struct Attack {
    pub attack_type: AttackType,
    pub damage: i32,
    pub position: Vec2<usize>,
}

/// What an attack did to its target.
#[derive(Debug, Clone)]
pub struct CombatResult {
    pub dmg_dealt: i32,
    pub target_alive: bool,
    pub target_name: String,
}

impl Attack {
    pub fn new(attack_type: AttackType, damage: i32, position: Vec2<usize>) -> (attack: Attack)
        ensures
            attack == (Attack { attack_type, damage, position }),
    {
        Attack { attack_type, damage, position }
    }
}

/// What every creature of a room can do: take its turn, take a blow, and say
/// where and how it is.
pub trait Attackable {
    spec fn spec_position(&self) -> Vec2<usize>;

    spec fn spec_alive(&self) -> bool;

    spec fn spec_base_stats(&self) -> StatBlock;

    spec fn spec_current_stats(&self) -> StatBlock;

    spec fn spec_name(&self) -> Seq<char>;

    /// Takes one turn in a room with the given tiles: the creature may attack
    /// the player or move. It moves onto tiles of the room on which nothing
    /// stands, and a turn changes neither its stats nor whether it lives.
    fn update(&mut self, player: &Player, tiles: &Vec<Tile>, room_size: Vec2<usize>) -> (attack:
        Option<Attack>)
        ensures
            final(self).spec_alive() == old(self).spec_alive(),
            final(self).spec_base_stats() == old(self).spec_base_stats(),
            final(self).spec_current_stats() == old(self).spec_current_stats(),
            final(self).spec_position() == old(self).spec_position() || tile_free(
                final(self).spec_position(),
                tile_views(tiles@),
                room_size,
            ),
    ;

    /// Takes a blow: the damage comes off the health, and a creature whose
    /// health is used up is dead. The dead stay dead.
    fn receive_attack(&mut self, attack: &Attack) -> (result: CombatResult)
        requires
            i32::MIN <= old(self).spec_current_stats().health - attack.damage <= i32::MAX,
        ensures
            final(self).spec_current_stats().health == old(self).spec_current_stats().health
                - attack.damage,
            final(self).spec_alive() == (old(self).spec_alive()
                && final(self).spec_current_stats().health > 0),
            final(self).spec_position() == old(self).spec_position(),
            final(self).spec_base_stats() == old(self).spec_base_stats(),
            result.dmg_dealt == attack.damage,
            result.target_alive == final(self).spec_alive(),
            result.target_name@ == old(self).spec_name(),
    ;

    /// Whether the creature is in the way of something that enters `other`.
    fn collision(&self, other: Vec2<usize>) -> (hit: bool)
        ensures
            hit == (self.spec_alive() && other == self.spec_position()),
    ;

    fn position(&self) -> (pos: &Vec2<usize>)
        ensures
            *pos == self.spec_position(),
    ;

    fn alive(&self) -> (alive: bool)
        ensures
            alive == self.spec_alive(),
    ;

    fn base_stats(&self) -> (stats: &StatBlock)
        ensures
            *stats == self.spec_base_stats(),
    ;

    fn current_stats(&self) -> (stats: &StatBlock)
        ensures
            *stats == self.spec_current_stats(),
    ;

    fn name(&self) -> (name: &str)
        ensures
            name@ == self.spec_name(),
    ;
}

} // verus!
