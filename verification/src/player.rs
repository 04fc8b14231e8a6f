//! The player: where they stand, how strong they are, whom they fight.

use crate::entity::{facing_position, Attack, AttackType, CombatResult, Facing, StatBlock};
use crate::entity::stats::spec_facing_position;
use crate::utils::text::{decimal, push_decimal};
use crate::utils::Vec2;
use vstd::prelude::*;
use vstd::string::StringExecFns;

verus! {

#[derive(Debug, Copy, Clone, PartialEq, Eq, Structural)]
pub enum Class {
    Warrior,
    Mage,
    Rogue,
}

pub struct Player {
    name: String,
    pos: Vec2<usize>,
    base_stats: StatBlock,
    curr_stats: StatBlock,
    facing: Facing,
    target: Option<usize>,
}

/// The player as a mathematical value.
pub struct PlayerView {
    pub name: Seq<char>,
    pub pos: Vec2<usize>,
    pub base_stats: StatBlock,
    pub curr_stats: StatBlock,
    pub facing: Facing,
    pub target: Option<usize>,
}

impl View for Player {
    type V = PlayerView;

    closed spec fn view(&self) -> PlayerView {
        PlayerView {
            name: self.name@,
            pos: self.pos,
            base_stats: self.base_stats,
            curr_stats: self.curr_stats,
            facing: self.facing,
            target: self.target,
        }
    }
}

impl PlayerView {
    /// A player as `Player::new` makes one.
    pub open spec fn fresh(name: Seq<char>, pos: Vec2<usize>) -> PlayerView {
        PlayerView {
            name,
            pos,
            base_stats: StatBlock::derived(10, 10, 10),
            curr_stats: StatBlock::derived(10, 10, 10),
            facing: Facing::East,
            target: None,
        }
    }

    /// The attributes are those every player starts with; of the current
    /// stats only health may have moved away from them.
    pub open spec fn wf(self) -> bool {
        &&& self.base_stats == StatBlock::derived(10, 10, 10)
        &&& self.curr_stats == (StatBlock { health: self.curr_stats.health, ..self.base_stats })
    }

    /// The way the player looks after a move from `self.pos` to `new_pos`:
    /// along the axis of the move, the vertical axis winning over the
    /// horizontal one, and as before where the position stays.
    pub open spec fn facing_after_move(self, new_pos: Vec2<usize>) -> Facing {
        if new_pos.y < self.pos.y {
            Facing::South
        } else if new_pos.y > self.pos.y {
            Facing::North
        } else if new_pos.x < self.pos.x {
            Facing::West
        } else if new_pos.x > self.pos.x {
            Facing::East
        } else {
            self.facing
        }
    }

    /// The player after a move to `new_pos`.
    pub open spec fn moved_to(self, new_pos: Vec2<usize>) -> PlayerView {
        PlayerView { pos: new_pos, facing: self.facing_after_move(new_pos), ..self }
    }

    /// The health the player's blow takes: one and a half times their strength,
    /// rounded down.
    pub open spec fn attack_damage(self) -> int {
        (self.curr_stats.strength * 3) / 2
    }

    /// The blow the player deals: piercing, aimed at the tile in front of them.
    pub open spec fn attack(self) -> Attack {
        Attack {
            attack_type: AttackType::Piercing,
            damage: self.attack_damage() as i32,
            position: spec_facing_position(self.facing, self.pos),
        }
    }

    /// Whether the health left after `attack` fits an `i32`.
    pub open spec fn can_receive(self, attack: Attack) -> bool {
        i32::MIN <= self.curr_stats.health - attack.damage <= i32::MAX
    }

    /// The player after `attack` took its damage from their health.
    pub open spec fn after_attack(self, attack: Attack) -> PlayerView {
        PlayerView {
            curr_stats: StatBlock {
                health: (self.curr_stats.health - attack.damage) as i32,
                ..self.curr_stats
            },
            ..self
        }
    }

    /// A player lives while they have health left.
    pub open spec fn alive(self) -> bool {
        self.curr_stats.health > 0
    }

    /// The player's name and position in one line.
    pub open spec fn text(self) -> Seq<char> {
        self.name + " -> x : "@ + decimal(self.pos.x as nat) + " y: "@ + decimal(self.pos.y as nat)
    }
}

impl Player {
    pub fn new(name: String, pos: Vec2<usize>) -> (player: Player)
        ensures
            player@ == PlayerView::fresh(name@, pos),
            player@.wf(),
    {
        Player {
            name,
            pos,
            base_stats: StatBlock::new(10, 10, 10),
            curr_stats: StatBlock::new(10, 10, 10),
            facing: Facing::East,
            target: None,
        }
    }

    /// Puts the player somewhere without turning them.
    pub fn set_position(&mut self, x: usize, y: usize)
        ensures
            final(self)@ == (PlayerView { pos: Vec2 { x, y }, ..old(self)@ }),
    {
        self.pos.x = x;
        self.pos.y = y;
    }

    /// Moves the player and turns them the way they went.
    pub fn move_player(&mut self, new_pos: Vec2<usize>)
        ensures
            final(self)@ == old(self)@.moved_to(new_pos),
    {
        if new_pos.x > self.pos.x {
            self.facing = Facing::East;
        }
        if new_pos.x < self.pos.x {
            self.facing = Facing::West;
        }
        if new_pos.y > self.pos.y {
            self.facing = Facing::North;
        }
        if new_pos.y < self.pos.y {
            self.facing = Facing::South;
        }
        self.pos = new_pos;
    }

    pub fn send_attack(&self) -> (attack: Attack)
        requires
            self@.wf(),
        ensures
            attack == self@.attack(),
            attack.damage == 15,
    {
        let atk_pos = facing_position(self.facing, self.pos);
        let damage = (self.curr_stats.strength * 3) / 2;
        Attack::new(AttackType::Piercing, damage, atk_pos)
    }

    pub fn receive_attack(&mut self, attack: &Attack) -> (result: CombatResult)
        requires
            old(self)@.can_receive(*attack),
        ensures
            final(self)@ == old(self)@.after_attack(*attack),
            final(self)@.curr_stats.health == old(self)@.curr_stats.health - attack.damage,
            result.dmg_dealt == attack.damage,
            result.target_alive == final(self)@.alive(),
            result.target_name@ == old(self)@.name,
    {
        self.curr_stats.health = self.curr_stats.health - attack.damage;
        CombatResult {
            dmg_dealt: attack.damage,
            target_alive: self.alive(),
            target_name: self.name.clone(),
        }
    }

    pub fn position(&self) -> (pos: &Vec2<usize>)
        ensures
            *pos == self@.pos,
    {
        &self.pos
    }

    pub fn collision(&self, other: Vec2<usize>) -> (hit: bool)
        ensures
            hit == (other == self@.pos),
    {
        other == self.pos
    }

    pub fn alive(&self) -> (alive: bool)
        ensures
            alive == self@.alive(),
    {
        self.curr_stats.health > 0
    }

    pub fn base_stats(&self) -> (stats: &StatBlock)
        ensures
            *stats == self@.base_stats,
    {
        &self.base_stats
    }

    pub fn current_stats(&self) -> (stats: &StatBlock)
        ensures
            *stats == self@.curr_stats,
    {
        &self.curr_stats
    }

    pub fn name(&self) -> (name: &str)
        ensures
            name@ == self@.name,
    {
        self.name.as_str()
    }

    pub fn target(&self) -> (target: Option<usize>)
        ensures
            target == self@.target,
    {
        self.target
    }

    pub fn set_target(&mut self, uuid: usize)
        ensures
            final(self)@ == (PlayerView { target: Some(uuid), ..old(self)@ }),
    {
        self.target = Some(uuid);
    }

    pub fn clear_target(&mut self)
        ensures
            final(self)@ == (PlayerView { target: None, ..old(self)@ }),
    {
        self.target = None;
    }

    /// The player's name and position in one line.
    pub fn to_text(&self) -> (text: String)
        ensures
            text@ == self@.text(),
    {
        let mut text = self.name.clone();
        text.append(" -> x : ");
        push_decimal(&mut text, self.pos.x);
        text.append(" y: ");
        push_decimal(&mut text, self.pos.y);
        text
    }
}

} // verus!
