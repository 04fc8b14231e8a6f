//! The creatures a room can hold.

use crate::entity::{Attack, Attackable, CombatResult, DrawOutput, Drawable, StatBlock};
use crate::goblin::{Goblin, GoblinView};
use crate::player::Player;
use crate::utils::{IdMap, Vec2};
use crate::world::{tile_views, Tile, TileView};
use vstd::prelude::*;

verus! {

/// Something that fights and can be drawn.
pub trait Entity: Attackable + Drawable {

}

impl Entity for Goblin {

}

impl Entity for Creature {

}

/// A creature of one of the kinds the game knows.
pub enum Creature {
    Goblin(Goblin),
}

/// The living creatures of a room under their ids.
pub type EntityMap = IdMap<Creature>;

/// A creature as a mathematical value.
pub enum CreatureView {
    Goblin(GoblinView),
}

impl View for Creature {
    type V = CreatureView;

    open spec fn view(&self) -> CreatureView {
        match self {
            Creature::Goblin(goblin) => CreatureView::Goblin(goblin@),
        }
    }
}

impl CreatureView {
    pub open spec fn wf(self) -> bool {
        match self {
            CreatureView::Goblin(goblin) => goblin.wf(),
        }
    }

    pub open spec fn pos(self) -> Vec2<usize> {
        match self {
            CreatureView::Goblin(goblin) => goblin.pos,
        }
    }

    pub open spec fn alive(self) -> bool {
        match self {
            CreatureView::Goblin(goblin) => goblin.alive,
        }
    }

    pub open spec fn base_stats(self) -> StatBlock {
        match self {
            CreatureView::Goblin(goblin) => goblin.base_stats,
        }
    }

    pub open spec fn curr_stats(self) -> StatBlock {
        match self {
            CreatureView::Goblin(goblin) => goblin.curr_stats,
        }
    }

    pub open spec fn name(self) -> Seq<char> {
        match self {
            CreatureView::Goblin(_) => "a Goblin"@,
        }
    }

    /// The blow of this turn at a player who stands on `target`, if any.
    pub open spec fn turn_attack(self, target: Vec2<usize>) -> Option<Attack> {
        match self {
            CreatureView::Goblin(goblin) => goblin.turn_attack(target),
        }
    }

    /// The creature after its turn in a room with the given tiles.
    pub open spec fn after_turn(
        self,
        target: Vec2<usize>,
        tiles: Seq<TileView>,
        size: Vec2<usize>,
    ) -> CreatureView {
        match self {
            CreatureView::Goblin(goblin) => CreatureView::Goblin(
                goblin.after_turn(target, tiles, size),
            ),
        }
    }

    /// The creature after `attack` took its damage from its health.
    pub open spec fn after_attack(self, attack: Attack) -> CreatureView {
        match self {
            CreatureView::Goblin(goblin) => CreatureView::Goblin(goblin.after_attack(attack)),
        }
    }

    /// Whether the creature is in the way of something that enters `point`.
    pub open spec fn collides(self, point: Vec2<usize>) -> bool {
        self.alive() && point == self.pos()
    }

    pub open spec fn picture(self) -> DrawOutput {
        match self {
            CreatureView::Goblin(goblin) => goblin.picture(),
        }
    }
}

impl Attackable for Creature {
    open spec fn spec_position(&self) -> Vec2<usize> {
        self@.pos()
    }

    open spec fn spec_alive(&self) -> bool {
        self@.alive()
    }

    open spec fn spec_base_stats(&self) -> StatBlock {
        self@.base_stats()
    }

    open spec fn spec_current_stats(&self) -> StatBlock {
        self@.curr_stats()
    }

    open spec fn spec_name(&self) -> Seq<char> {
        self@.name()
    }

    fn update(&mut self, player: &Player, tiles: &Vec<Tile>, room_size: Vec2<usize>) -> (attack:
        Option<Attack>)
        ensures
            final(self)@ == old(self)@.after_turn(player@.pos, tile_views(tiles@), room_size),
            attack == old(self)@.turn_attack(player@.pos),
    {
        match self {
            Creature::Goblin(goblin) => goblin.update(player, tiles, room_size),
        }
    }

    fn receive_attack(&mut self, attack: &Attack) -> (result: CombatResult)
        ensures
            final(self)@ == old(self)@.after_attack(*attack),
    {
        match self {
            Creature::Goblin(goblin) => goblin.receive_attack(attack),
        }
    }

    fn position(&self) -> (pos: &Vec2<usize>) {
        match self {
            Creature::Goblin(goblin) => goblin.position(),
        }
    }

    fn collision(&self, other: Vec2<usize>) -> (hit: bool) {
        match self {
            Creature::Goblin(goblin) => goblin.collision(other),
        }
    }

    fn alive(&self) -> (alive: bool) {
        match self {
            Creature::Goblin(goblin) => goblin.alive(),
        }
    }

    fn base_stats(&self) -> (stats: &StatBlock) {
        match self {
            Creature::Goblin(goblin) => goblin.base_stats(),
        }
    }

    fn current_stats(&self) -> (stats: &StatBlock) {
        match self {
            Creature::Goblin(goblin) => goblin.current_stats(),
        }
    }

    fn name(&self) -> (name: &str) {
        match self {
            Creature::Goblin(goblin) => goblin.name(),
        }
    }
}

impl Drawable for Creature {
    open spec fn spec_draw(&self) -> DrawOutput {
        self@.picture()
    }

    fn draw(&self) -> (out: DrawOutput) {
        match self {
            Creature::Goblin(goblin) => goblin.draw(),
        }
    }
}

} // verus!
