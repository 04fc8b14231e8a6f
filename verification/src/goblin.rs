//! The goblin: a weak creature that walks up to the player and stabs.

use crate::entity::stats::spec_facing_position;
use crate::entity::{
    facing_position, Attack, AttackType, Attackable, CombatResult, DrawOutput, Drawable, Facing,
    StatBlock,
};
use crate::player::Player;
use crate::utils::grid::tile_index;
use crate::utils::{Vec2, Vec3};
use crate::world::{tile_free, tile_views, Tile, TileView};
use vstd::prelude::*;
use vstd::string::StringExecFns;

verus! {

pub struct Goblin {
    pos: Vec2<usize>,
    base_stats: StatBlock,
    curr_stats: StatBlock,
    facing: Facing,
    alive: bool,
}

/// A goblin as a mathematical value.
pub struct GoblinView {
    pub pos: Vec2<usize>,
    pub base_stats: StatBlock,
    pub curr_stats: StatBlock,
    pub facing: Facing,
    pub alive: bool,
}

impl View for Goblin {
    type V = GoblinView;

    closed spec fn view(&self) -> GoblinView {
        GoblinView {
            pos: self.pos,
            base_stats: self.base_stats,
            curr_stats: self.curr_stats,
            facing: self.facing,
            alive: self.alive,
        }
    }
}

/// The coordinate one step from `from` towards `to`.
pub open spec fn step_toward(from: usize, to: usize) -> usize {
    if to > from {
        (from + 1) as usize
    } else if to < from {
        (from - 1) as usize
    } else {
        from
    }
}

/// The distance between two coordinates.
pub open spec fn distance(a: usize, b: usize) -> int {
    if a > b {
        a - b
    } else {
        b - a
    }
}

/// The share of a colour channel that `part` out of `whole` lights up, from 0
/// (nothing) to 255 (all of it), rounded down.
pub open spec fn channel_share(part: int, whole: int) -> int {
    if whole <= 0 || part <= 0 {
        0
    } else if part >= whole {
        255
    } else {
        (255 * part) / whole
    }
}

impl GoblinView {
    /// A goblin as `Goblin::new` makes one.
    pub open spec fn fresh(pos: Vec2<usize>) -> GoblinView {
        GoblinView {
            pos,
            base_stats: StatBlock::derived(2, 2, 2),
            curr_stats: StatBlock::derived(2, 2, 2),
            facing: Facing::North,
            alive: true,
        }
    }

    /// The attributes are those every goblin starts with; of the current
    /// stats only health may have moved away from them, and a living goblin
    /// has health left.
    pub open spec fn wf(self) -> bool {
        &&& self.base_stats == StatBlock::derived(2, 2, 2)
        &&& self.curr_stats == (StatBlock { health: self.curr_stats.health, ..self.base_stats })
        &&& self.alive ==> self.curr_stats.health > 0
    }

    /// Whether `target` is the next tile to the north, east, south or west.
    pub open spec fn adjacent(self, target: Vec2<usize>) -> bool {
        ||| distance(self.pos.x, target.x) == 1 && self.pos.y == target.y
        ||| self.pos.x == target.x && distance(self.pos.y, target.y) == 1
    }

    /// The blow a goblin deals: piercing, as hard as it is strong.
    pub open spec fn attack(self) -> Attack {
        Attack {
            attack_type: AttackType::Piercing,
            damage: self.curr_stats.strength,
            position: spec_facing_position(self.facing, self.pos),
        }
    }

    /// Where a goblin that chases `target` stands after its step. It tries
    /// the axis on which it is farther from the target, the horizontal one
    /// when the two are equal; if it prefers the vertical axis and the tile
    /// there is taken or off the grid, it tries the horizontal one. It never
    /// steps on both axes, and it stays where no tile is free.
    pub open spec fn chase(
        self,
        target: Vec2<usize>,
        tiles: Seq<TileView>,
        size: Vec2<usize>,
    ) -> Vec2<usize> {
        let along_y = Vec2 { x: self.pos.x, y: step_toward(self.pos.y, target.y) };
        let along_x = Vec2 { x: step_toward(self.pos.x, target.x), y: self.pos.y };
        if distance(self.pos.y, target.y) > distance(self.pos.x, target.x) && tile_free(
            along_y,
            tiles,
            size,
        ) {
            along_y
        } else if tile_free(along_x, tiles, size) {
            along_x
        } else {
            self.pos
        }
    }

    /// The blow of this turn: one at a player on an adjacent tile, else none.
    pub open spec fn turn_attack(self, target: Vec2<usize>) -> Option<Attack> {
        if self.adjacent(target) {
            Some(self.attack())
        } else {
            None
        }
    }

    /// The goblin after its turn: where it is, if the player is adjacent, and
    /// one step closer otherwise.
    pub open spec fn after_turn(
        self,
        target: Vec2<usize>,
        tiles: Seq<TileView>,
        size: Vec2<usize>,
    ) -> GoblinView {
        if self.adjacent(target) {
            self
        } else {
            GoblinView { pos: self.chase(target, tiles, size), ..self }
        }
    }

    /// The goblin after `attack` took its damage from its health.
    pub open spec fn after_attack(self, attack: Attack) -> GoblinView {
        let health = (self.curr_stats.health - attack.damage) as i32;
        GoblinView {
            curr_stats: StatBlock { health, ..self.curr_stats },
            alive: self.alive && health > 0,
            ..self
        }
    }

    /// The picture of a goblin: a `g` on grey that fades from green to red as
    /// its health goes from full to none.
    pub open spec fn picture(self) -> DrawOutput {
        let red = channel_share(
            self.base_stats.health - self.curr_stats.health,
            self.base_stats.health as int,
        );
        let green = channel_share(self.curr_stats.health as int, self.base_stats.health as int);
        DrawOutput {
            position: self.pos,
            fg: Vec3 { x: red as u8, y: green as u8, z: 0 },
            bg: Vec3 { x: 95, y: 95, z: 95 },
            icon: 'g',
        }
    }
}

/// A goblin's step never takes it off its row and its column at once, and it
/// ends on the tile it came from or on a free one.
pub proof fn lemma_chase_is_one_step(
    goblin: GoblinView,
    target: Vec2<usize>,
    tiles: Seq<TileView>,
    size: Vec2<usize>,
)
    ensures
        ({
            let to = goblin.chase(target, tiles, size);
            &&& to == goblin.pos || tile_free(to, tiles, size)
            &&& distance(goblin.pos.x, to.x) + distance(goblin.pos.y, to.y) <= 1
            &&& distance(to.x, target.x) <= distance(goblin.pos.x, target.x)
            &&& distance(to.y, target.y) <= distance(goblin.pos.y, target.y)
        }),
{
}

fn toward(from: usize, to: usize) -> (next: usize)
    ensures
        next == step_toward(from, to),
{
    if to > from {
        from + 1
    } else if to < from {
        from - 1
    } else {
        from
    }
}

fn abs_difference(a: usize, b: usize) -> (d: usize)
    ensures
        d == distance(a, b),
{
    if a > b {
        a - b
    } else {
        b - a
    }
}

fn is_free(pos: Vec2<usize>, tiles: &Vec<Tile>, size: Vec2<usize>) -> (free: bool)
    ensures
        free == tile_free(pos, tile_views(tiles@), size),
{
    match tile_index(pos, size, tiles.len()) {
        Some(i) => !tiles[i].occupied,
        None => false,
    }
}

fn share_of_channel(part: i32, whole: i32) -> (share: u8)
    ensures
        share == channel_share(part as int, whole as int),
{
    if whole <= 0 || part <= 0 {
        0
    } else if part >= whole {
        255
    } else {
        let scaled: u64 = 255 * (part as u64);
        let share: u64 = scaled / (whole as u64);
        assert(share <= 255) by (nonlinear_arith)
            requires
                share == (255 * part) / (whole as int),
                0 < part < whole,
        ;
        share as u8
    }
}

impl Goblin {
    pub fn new(pos: Vec2<usize>) -> (goblin: Goblin)
        ensures
            goblin@ == GoblinView::fresh(pos),
            goblin@.wf(),
    {
        Goblin {
            pos,
            base_stats: StatBlock::new(2, 2, 2),
            curr_stats: StatBlock::new(2, 2, 2),
            facing: Facing::North,
            alive: true,
        }
    }
}

impl Attackable for Goblin {
    open spec fn spec_position(&self) -> Vec2<usize> {
        self@.pos
    }

    open spec fn spec_alive(&self) -> bool {
        self@.alive
    }

    open spec fn spec_base_stats(&self) -> StatBlock {
        self@.base_stats
    }

    open spec fn spec_current_stats(&self) -> StatBlock {
        self@.curr_stats
    }

    open spec fn spec_name(&self) -> Seq<char> {
        "a Goblin"@
    }

    fn update(&mut self, player: &Player, tiles: &Vec<Tile>, room_size: Vec2<usize>) -> (attack:
        Option<Attack>)
        ensures
            final(self)@ == old(self)@.after_turn(player@.pos, tile_views(tiles@), room_size),
            attack == old(self)@.turn_attack(player@.pos),
    {
        let target = *player.position();
        let dx = abs_difference(self.pos.x, target.x);
        let dy = abs_difference(self.pos.y, target.y);
        if (dx == 1 && dy == 0) || (dx == 0 && dy == 1) {
            let atk_pos = facing_position(self.facing, self.pos);
            let damage = self.curr_stats.strength;
            return Some(Attack::new(AttackType::Piercing, damage, atk_pos));
        } else {
            let along_y = Vec2::new(self.pos.x, toward(self.pos.y, target.y));
            let along_x = Vec2::new(toward(self.pos.x, target.x), self.pos.y);
            if dy > dx && is_free(along_y, tiles, room_size) {
                self.pos.y = along_y.y;
            } else if is_free(along_x, tiles, room_size) {
                self.pos.x = along_x.x;
            }
        }
        None
    }

    fn receive_attack(&mut self, attack: &Attack) -> (result: CombatResult)
        ensures
            final(self)@ == old(self)@.after_attack(*attack),
    {
        self.curr_stats.health = self.curr_stats.health - attack.damage;
        if self.curr_stats.health <= 0 {
            self.alive = false;
        }
        CombatResult {
            dmg_dealt: attack.damage,
            target_alive: self.alive,
            target_name: String::from_str("a Goblin"),
        }
    }

    fn position(&self) -> (pos: &Vec2<usize>) {
        &self.pos
    }

    fn collision(&self, other: Vec2<usize>) -> (hit: bool) {
        self.alive && other == self.pos
    }

    fn alive(&self) -> (alive: bool) {
        self.alive
    }

    fn base_stats(&self) -> (stats: &StatBlock) {
        &self.base_stats
    }

    fn current_stats(&self) -> (stats: &StatBlock) {
        &self.curr_stats
    }

    fn name(&self) -> (name: &str) {
        "a Goblin"
    }
}

impl Drawable for Goblin {
    open spec fn spec_draw(&self) -> DrawOutput {
        self@.picture()
    }

    fn draw(&self) -> (out: DrawOutput) {
        let gone = if self.base_stats.health >= 0 && self.curr_stats.health >= 0 {
            self.base_stats.health - self.curr_stats.health
        } else if self.curr_stats.health < 0 {
            self.base_stats.health
        } else {
            0
        };
        let red = share_of_channel(gone, self.base_stats.health);
        let green = share_of_channel(self.curr_stats.health, self.base_stats.health);
        DrawOutput {
            position: self.pos,
            fg: Vec3::new(red, green, 0),
            bg: Vec3::new(95, 95, 95),
            icon: 'g',
        }
    }
}

} // verus!
