//! The rules of a turn, stated on rooms and players as mathematical values:
//! what the creatures do when the room takes a step, what happens when the
//! player asks to enter a tile, and why a room stays in order through both.

use crate::entity::{Attack, CreatureView};
use crate::player::PlayerView;
use crate::utils::grid::{cell_index, in_bounds, lemma_index_in_range, lemma_index_injective};
use crate::utils::id_map::{
    has_id, ids_distinct, index_of_id, lemma_index_of_id, lemma_with_entry_keeps,
    lemma_without_id_keeps, with_entry, without_id,
};
use crate::utils::Vec2;
use crate::world::room::{
    entrance_position, exit_position, interior, lemma_first_entrance, offset_along, offset_fits,
    Entrance, RoomView,
};
use crate::world::{tile_free, Direction, TileType, TileView};
use vstd::prelude::*;

verus! {

/// Whether the tiles of two arrays are of the same kinds, place by place.
pub open spec fn same_kinds(before: Seq<TileView>, after: Seq<TileView>) -> bool {
    &&& after.len() == before.len()
    &&& forall|i: int| 0 <= i < before.len() ==> (#[trigger] after[i]).id == before[i].id
}

/// The tiles after the creature `uuid` went from `from` to `to`: the tile it
/// left is free, the tile it stands on names it.
pub open spec fn tiles_after_move(
    tiles: Seq<TileView>,
    width: usize,
    uuid: usize,
    from: Vec2<usize>,
    to: Vec2<usize>,
) -> Seq<TileView> {
    let left = cell_index(from, width);
    let reached = cell_index(to, width);
    let vacated = tiles.update(left, TileView { occupied: false, ..tiles[left] });
    vacated.update(reached, TileView { occupied: true, uuid, ..vacated[reached] })
}

/// The player after the blow of a creature's turn, if there was one.
pub open spec fn player_after(player: PlayerView, attack: Option<Attack>) -> PlayerView {
    match attack {
        Some(blow) => player.after_attack(blow),
        None => player,
    }
}

impl RoomView {
    /// The room and the player after the turn of the creature at place `i`.
    /// A dead creature does nothing, and the player stops targeting it. A
    /// living one attacks or moves, and the tiles follow it.
    pub open spec fn turn(self, i: int, player: PlayerView) -> (RoomView, PlayerView) {
        let (uuid, creature) = self.entities[i];
        if !creature.alive() {
            (
                self,
                if player.target == Some(uuid) {
                    PlayerView { target: None, ..player }
                } else {
                    player
                },
            )
        } else {
            let moved = creature.after_turn(player.pos, self.tiles, self.size);
            (
                RoomView {
                    tiles: tiles_after_move(
                        self.tiles,
                        self.size.x,
                        uuid,
                        creature.pos(),
                        moved.pos(),
                    ),
                    entities: self.entities.update(i, (uuid, moved)),
                    ..self
                },
                player_after(player, creature.turn_attack(player.pos)),
            )
        }
    }

    /// The room and the player after the turns of the first `n` creatures,
    /// taken one after the other.
    pub open spec fn turns(self, player: PlayerView, n: nat) -> (RoomView, PlayerView)
        decreases n,
    {
        if n == 0 {
            (self, player)
        } else {
            let (room, hurt) = self.turns(player, (n - 1) as nat);
            room.turn(n - 1, hurt)
        }
    }

    /// The ids of the dead among the first `n` creatures.
    pub open spec fn dead_ids(self, n: nat) -> Seq<usize>
        decreases n,
    {
        if n == 0 {
            Seq::empty()
        } else {
            let before = self.dead_ids((n - 1) as nat);
            if self.entities[n - 1].1.alive() {
                before
            } else {
                before.push(self.entities[n - 1].0)
            }
        }
    }

    /// The room after the creature `uuid` was turned into a corpse: the
    /// corpse lies where the creature stood, the tile is free and remembers
    /// who died there, and the creature is gone.
    pub open spec fn bury(self, uuid: usize) -> RoomView {
        if has_id(self.entities, uuid) {
            let pos = self.entities[index_of_id(self.entities, uuid)].1.pos();
            let at = cell_index(pos, self.size.x);
            RoomView {
                tiles: self.tiles.update(
                    at,
                    TileView {
                        occupied: false,
                        corpses: self.tiles[at].corpses.push(uuid),
                        ..self.tiles[at]
                    },
                ),
                entities: without_id(self.entities, uuid),
                corpses: with_entry(self.corpses, uuid, pos),
                ..self
            }
        } else {
            self
        }
    }

    /// The room after the creatures `ids` were turned into corpses, one
    /// after the other.
    pub open spec fn bury_all(self, ids: Seq<usize>) -> RoomView
        decreases ids.len(),
    {
        if ids.len() == 0 {
            self
        } else {
            self.bury_all(ids.drop_last()).bury(ids.last())
        }
    }

    /// The room and the player after one step of the room: every creature
    /// takes its turn in the order of the map, then the dead become corpses.
    pub open spec fn after_step(self, player: PlayerView) -> (RoomView, PlayerView) {
        let (room, hurt) = self.turns(player, self.entities.len());
        (room.bury_all(self.dead_ids(self.entities.len())), hurt)
    }

    /// The most health the creatures of the room can take from the player in
    /// one step.
    pub open spec fn max_step_damage(self) -> int {
        2 * (self.entities.len() as int)
    }

    /// Whether the player's health stays an `i32` whatever the creatures of
    /// the room do in one step.
    pub open spec fn can_step(self, player: PlayerView) -> bool {
        player.curr_stats.health - self.max_step_damage() >= i32::MIN
    }

    /// The room, the player and whether the way is barred after the player's
    /// blow at the creature at place `i`, which it deals if that creature is
    /// in the way to `new_pos`.
    pub open spec fn strike(self, i: int, player: PlayerView, new_pos: Vec2<usize>) -> (
        RoomView,
        PlayerView,
        bool,
    ) {
        let (uuid, creature) = self.entities[i];
        if creature.collides(new_pos) {
            let hit = creature.after_attack(player.attack());
            (
                RoomView { entities: self.entities.update(i, (uuid, hit)), ..self },
                PlayerView { target: Some(uuid), ..player },
                hit.alive(),
            )
        } else {
            (self, player, false)
        }
    }

    /// The room, the player and whether the way is barred after the player's
    /// blows at the first `n` creatures.
    pub open spec fn strikes(self, player: PlayerView, new_pos: Vec2<usize>, n: nat) -> (
        RoomView,
        PlayerView,
        bool,
    )
        decreases n,
    {
        if n == 0 {
            (self, player, false)
        } else {
            let (room, aimed, barred) = self.strikes(player, new_pos, (n - 1) as nat);
            let (struck, now, bars) = room.strike(n - 1, aimed, new_pos);
            (struck, now, barred || bars)
        }
    }

    /// What the log learns of the player's blows at the first `n` creatures:
    /// for each blow, whether its target survived, and the target's name.
    pub open spec fn strike_reports(self, player: PlayerView, new_pos: Vec2<usize>, n: nat) -> Seq<
        (bool, Seq<char>),
    >
        decreases n,
    {
        if n == 0 {
            Seq::empty()
        } else {
            let before = self.strike_reports(player, new_pos, (n - 1) as nat);
            let creature = self.entities[n - 1].1;
            if creature.collides(new_pos) {
                before.push((creature.after_attack(player.attack()).alive(), creature.name()))
            } else {
                before
            }
        }
    }

    /// The room and the player after the player asked to enter `new_pos`:
    /// they strike every creature in the way, and move if none of those
    /// survived and `new_pos` can be stood on.
    pub open spec fn after_player_input(self, player: PlayerView, new_pos: Vec2<usize>) -> (
        RoomView,
        PlayerView,
    ) {
        let (room, aimed, barred) = self.strikes(player, new_pos, self.entities.len());
        (
            room,
            if !barred && room.valid_position(new_pos) {
                aimed.moved_to(new_pos)
            } else {
                aimed
            },
        )
    }
}

impl RoomView {
    /// Whether the room has an exit on the side `side`.
    pub open spec fn has_exit(self, side: Direction) -> bool {
        exists|pos: Vec2<usize>| #[trigger] self.exit_faces(pos, side)
    }

    /// Whether the room has no more than one exit on the side `side`.
    pub open spec fn one_exit(self, side: Direction) -> bool {
        forall|p: Vec2<usize>, q: Vec2<usize>|
            #[trigger] self.exit_faces(p, side) && #[trigger] self.exit_faces(q, side) ==> p == q
    }

    /// Whether every exit on the side `side` leads to the room `id`.
    pub open spec fn exit_leads(self, side: Direction, id: usize) -> bool {
        forall|pos: Vec2<usize>| #[trigger]
            self.exit_faces(pos, side) ==> self.tile_at(pos).id == (TileType::Exit {
                node_id: id,
                exiting_direction: side,
            })
    }
}

/// What a new exit does to the exits of a room that had none on that side:
/// the side has one exit, which leads to the given room, and the exits of
/// the other sides are as they were.
pub proof fn lemma_with_exit_exits(room: RoomView, side: Direction, id: usize, offset: usize)
    requires
        room.wf(),
        offset_fits(room.size, side, offset),
        !room.has_exit(side),
    ensures
        room.with_exit(side, id, offset).has_exit(side),
        room.with_exit(side, id, offset).one_exit(side),
        room.with_exit(side, id, offset).exit_leads(side, id),
        forall|other: Direction, pos: Vec2<usize>|
            other != side ==> (#[trigger] room.with_exit(side, id, offset).exit_faces(pos, other))
                == room.exit_faces(pos, other),
        forall|pos: Vec2<usize>|
            in_bounds(pos, room.size) && pos != exit_position(room.size, side, offset) ==> (
            #[trigger] room.with_exit(side, id, offset).tile_at(pos)) == room.tile_at(pos),
{
    let after = room.with_exit(side, id, offset);
    let exit = exit_position(room.size, side, offset);
    lemma_index_in_range(exit, room.size);
    assert(after.exit_faces(exit, side));
    assert forall|pos: Vec2<usize>| in_bounds(pos, room.size) && pos != exit implies after.tile_at(
        pos,
    ) == room.tile_at(pos) by {
        lemma_index_in_range(pos, room.size);
        if cell_index(pos, room.size.x) == cell_index(exit, room.size.x) {
            lemma_index_injective(pos, exit, room.size);
        }
    }
    assert forall|p: Vec2<usize>, q: Vec2<usize>| #[trigger]
        after.exit_faces(p, side) && #[trigger] after.exit_faces(q, side) implies p == q by {
        if p != exit {
            assert(room.exit_faces(p, side));
        }
        if q != exit {
            assert(room.exit_faces(q, side));
        }
    }
    assert forall|pos: Vec2<usize>| #[trigger] after.exit_faces(pos, side) implies after.tile_at(
        pos,
    ).id == (TileType::Exit { node_id: id, exiting_direction: side }) by {
        if pos != exit {
            assert(room.exit_faces(pos, side));
        }
    }
    assert forall|other: Direction, pos: Vec2<usize>| other != side implies (
    #[trigger] after.exit_faces(pos, other)) == room.exit_faces(pos, other) by {
        if in_bounds(pos, room.size) && pos != exit {
            assert(after.tile_at(pos) == room.tile_at(pos));
        }
        if pos == exit {
            assert(room.tile_fits(pos));
        }
    }
}

/// A room without entrances has no exits.
pub proof fn lemma_no_entrances_no_exits(room: RoomView, side: Direction)
    requires
        room.wf(),
        room.entrances.len() == 0,
    ensures
        !room.has_exit(side),
{
    if room.has_exit(side) {
        let pos = choose|pos: Vec2<usize>| #[trigger] room.exit_faces(pos, side);
        assert(room.tile_fits(pos));
    }
}

/// A room with an exit on a side has an entrance on that side, and whoever
/// comes in there stands on a tile that can be stood on.
pub proof fn lemma_exit_has_entrance(room: RoomView, side: Direction)
    requires
        room.wf(),
        room.has_exit(side),
    ensures
        room.has_entrance(side),
        0 <= room.first_entrance(side) < room.entrances.len(),
        room.entrances[room.first_entrance(side)].direction == side,
        room.valid_position(room.entrances[room.first_entrance(side)].location),
        in_bounds(room.entrances[room.first_entrance(side)].location, room.size),
{
    let pos = choose|pos: Vec2<usize>| #[trigger] room.exit_faces(pos, side);
    assert(room.tile_fits(pos));
    let wanted = Entrance {
        location: entrance_position(room.size, side, offset_along(pos, side)),
        direction: side,
    };
    let k = choose|k: int| 0 <= k < room.entrances.len() && room.entrances[k] == wanted;
    assert(room.entrances[k].direction == side);
    lemma_first_entrance(room, side);
    lemma_entrance_valid(room, room.first_entrance(side));
}

/// Every entrance of a room lies on a tile that can be stood on.
pub proof fn lemma_entrance_valid(room: RoomView, k: int)
    requires
        room.wf(),
        0 <= k < room.entrances.len(),
    ensures
        in_bounds(room.entrances[k].location, room.size),
        interior(room.entrances[k].location, room.size),
        room.valid_position(room.entrances[k].location),
{
    let at = room.entrances[k].location;
    assert(room.entrance_fits(room.entrances[k]));
    assert(room.tile_fits(at));
    lemma_index_in_range(at, room.size);
}

/// A room stays in order when only its creatures change, as long as each
/// stays in order itself and where it was.
pub proof fn lemma_creatures_changed_wf(room: RoomView, entities: Seq<(usize, CreatureView)>)
    requires
        room.wf(),
        entities.len() == room.entities.len(),
        forall|i: int|
            0 <= i < entities.len() ==> {
                &&& (#[trigger] entities[i]).0 == room.entities[i].0
                &&& entities[i].1.pos() == room.entities[i].1.pos()
                &&& entities[i].1.wf()
            },
    ensures
        (RoomView { entities, ..room }).wf(),
{
    let after = RoomView { entities, ..room };
    assert forall|pos: Vec2<usize>| in_bounds(pos, after.size) implies #[trigger] after.tile_fits(
        pos,
    ) by {
        assert(room.tile_fits(pos));
    }
    assert forall|k: int| 0 <= k < after.entrances.len() implies after.entrance_fits(
        #[trigger] after.entrances[k],
    ) by {
        assert(room.entrance_fits(room.entrances[k]));
    }
    assert forall|i: int| 0 <= i < after.entities.len() implies after.creature_placed(
        #[trigger] after.entities[i],
    ) by {
        assert(room.creature_placed(room.entities[i]));
    }
    assert forall|i: int, j: int|
        0 <= i < entities.len() && 0 <= j < entities.len() && i != j implies (
    #[trigger] entities[i]).0 != (#[trigger] entities[j]).0 by {
        assert(room.entities[i].0 != room.entities[j].0);
    }
}

/// A turn leaves the room in order. It keeps the creatures' ids and whether
/// they live, and takes no more than two health from the player.
pub proof fn lemma_turn(room: RoomView, i: int, player: PlayerView)
    requires
        room.wf(),
        0 <= i < room.entities.len(),
    ensures
        room.turn(i, player).0.wf(),
        room.turn(i, player).0.entities.len() == room.entities.len(),
        forall|j: int|
            0 <= j < room.entities.len() ==> {
                &&& (#[trigger] room.turn(i, player).0.entities[j]).0 == room.entities[j].0
                &&& room.turn(i, player).0.entities[j].1.alive() == room.entities[j].1.alive()
            },
        forall|j: int|
            0 <= j < room.entities.len() && !room.entities[j].1.alive() ==> (
            #[trigger] room.turn(i, player).0.entities[j]) == room.entities[j],
        room.turn(i, player).0.size == room.size,
        same_kinds(room.tiles, room.turn(i, player).0.tiles),
        room.turn(i, player).0.entrances == room.entrances,
        room.turn(i, player).0.corpses == room.corpses,
        room.turn(i, player).0.first_uuid == room.first_uuid,
        room.turn(i, player).0.next_uuid == room.next_uuid,
        room.turn(i, player).1.curr_stats.health >= player.curr_stats.health - 2,
        player.wf() ==> room.turn(i, player).1.wf(),
        room.turn(i, player).1.pos == player.pos,
{
    let (uuid, creature) = room.entities[i];
    let after = room.turn(i, player).0;
    assert(room.creature_placed(room.entities[i]));
    if creature.alive() {
        let moved = creature.after_turn(player.pos, room.tiles, room.size);
        let from = creature.pos();
        let to = moved.pos();
        match creature {
            CreatureView::Goblin(goblin) => {
                crate::goblin::lemma_chase_is_one_step(goblin, player.pos, room.tiles, room.size);
            },
        }
        assert(to == from || tile_free(to, room.tiles, room.size));
        lemma_index_in_range(from, room.size);
        lemma_index_in_range(to, room.size);
        let left = cell_index(from, room.size.x);
        let reached = cell_index(to, room.size.x);
        assert forall|pos: Vec2<usize>| in_bounds(pos, after.size)
            implies #[trigger] after.tile_fits(
            pos,
        ) by {
            assert(room.tile_fits(pos));
            lemma_index_in_range(pos, room.size);
        }
        assert forall|k: int| 0 <= k < after.entrances.len() implies after.entrance_fits(
            #[trigger] after.entrances[k],
        ) by {
            let e = room.entrances[k];
            assert(room.entrance_fits(e));
            lemma_index_in_range(
                exit_position(room.size, e.direction, offset_along(e.location, e.direction)),
                room.size,
            );
        }
        assert forall|j: int| 0 <= j < after.entities.len() implies after.creature_placed(
            #[trigger] after.entities[j],
        ) by {
            if j != i {
                let at = room.entities[j].1.pos();
                assert(room.creature_placed(room.entities[j]));
                assert(room.entities[j].0 != room.entities[i].0);
                lemma_index_in_range(at, room.size);
                if cell_index(at, room.size.x) == left {
                    lemma_index_injective(at, from, room.size);
                }
                if cell_index(at, room.size.x) == reached {
                    lemma_index_injective(at, to, room.size);
                }
            }
        }
        assert forall|a: int, b: int|
            0 <= a < after.entities.len() && 0 <= b < after.entities.len() && a != b implies (
        #[trigger] after.entities[a]).0 != (#[trigger] after.entities[b]).0 by {
            assert(room.entities[a].0 != room.entities[b].0);
        }
    }
}

/// The turns of the first `n` creatures leave the room in order.
pub proof fn lemma_turns(room: RoomView, player: PlayerView, n: nat)
    requires
        room.wf(),
        n <= room.entities.len(),
    ensures
        room.turns(player, n).0.wf(),
        room.turns(player, n).0.entities.len() == room.entities.len(),
        forall|j: int|
            0 <= j < room.entities.len() ==> {
                &&& (#[trigger] room.turns(player, n).0.entities[j]).0 == room.entities[j].0
                &&& room.turns(player, n).0.entities[j].1.alive() == room.entities[j].1.alive()
            },
        forall|j: int|
            0 <= j < room.entities.len() && !room.entities[j].1.alive() ==> (
            #[trigger] room.turns(player, n).0.entities[j]) == room.entities[j],
        room.turns(player, n).0.size == room.size,
        same_kinds(room.tiles, room.turns(player, n).0.tiles),
        room.turns(player, n).0.entrances == room.entrances,
        room.turns(player, n).0.corpses == room.corpses,
        room.turns(player, n).0.first_uuid == room.first_uuid,
        room.turns(player, n).0.next_uuid == room.next_uuid,
        room.turns(player, n).1.curr_stats.health >= player.curr_stats.health - 2 * n,
        player.wf() ==> room.turns(player, n).1.wf(),
        room.turns(player, n).1.pos == player.pos,
    decreases n,
{
    if n > 0 {
        lemma_turns(room, player, (n - 1) as nat);
        let (mid, hurt) = room.turns(player, (n - 1) as nat);
        lemma_turn(mid, n - 1, hurt);
        let after = room.turns(player, n).0;
        assert forall|i: int| 0 <= i < room.tiles.len() implies (#[trigger] after.tiles[i]).id
            == room.tiles[i].id by {
            assert(mid.tiles[i].id == room.tiles[i].id);
        }
    }
}

/// The player's blows at the first `n` creatures leave the room in order.
/// They change nothing but the health of the creatures struck, whether those
/// live, and whom the player targets.
pub proof fn lemma_strikes(room: RoomView, player: PlayerView, new_pos: Vec2<usize>, n: nat)
    requires
        room.wf(),
        n <= room.entities.len(),
    ensures
        room.strikes(player, new_pos, n).0.wf(),
        room.strikes(player, new_pos, n).0 == (RoomView {
            entities: room.strikes(player, new_pos, n).0.entities,
            ..room
        }),
        room.strikes(player, new_pos, n).0.entities.len() == room.entities.len(),
        forall|j: int|
            0 <= j < room.entities.len() ==> {
                &&& (#[trigger] room.strikes(player, new_pos, n).0.entities[j]).0
                    == room.entities[j].0
                &&& room.strikes(player, new_pos, n).0.entities[j].1.pos()
                    == room.entities[j].1.pos()
                &&& j >= n ==> room.strikes(player, new_pos, n).0.entities[j] == room.entities[j]
            },
        room.strikes(player, new_pos, n).1 == (PlayerView {
            target: room.strikes(player, new_pos, n).1.target,
            ..player
        }),
    decreases n,
{
    if n > 0 {
        lemma_strikes(room, player, new_pos, (n - 1) as nat);
        let (mid, aimed, barred) = room.strikes(player, new_pos, (n - 1) as nat);
        let after = mid.strike(n - 1, aimed, new_pos).0;
        assert(mid.creature_placed(mid.entities[n - 1]));
        assert(after.entities.len() == mid.entities.len());
        assert forall|i: int| 0 <= i < after.entities.len() implies {
            &&& (#[trigger] after.entities[i]).0 == mid.entities[i].0
            &&& after.entities[i].1.pos() == mid.entities[i].1.pos()
            &&& after.entities[i].1.wf()
        } by {
            assert(mid.creature_placed(mid.entities[i]));
        }
        lemma_creatures_changed_wf(mid, after.entities);
    }
}

/// Burying a creature leaves the room in order, and takes away that
/// creature only.
pub proof fn lemma_bury(room: RoomView, uuid: usize)
    requires
        room.wf(),
    ensures
        room.bury(uuid).wf(),
        room.bury(uuid).size == room.size,
        same_kinds(room.tiles, room.bury(uuid).tiles),
        room.bury(uuid).entrances == room.entrances,
        room.bury(uuid).first_uuid == room.first_uuid,
        room.bury(uuid).next_uuid == room.next_uuid,
        room.bury(uuid).entities == without_id(room.entities, uuid),
        !has_id(room.bury(uuid).entities, uuid),
{
    lemma_index_of_id(room.entities, uuid);
    if has_id(room.entities, uuid) {
        let at = index_of_id(room.entities, uuid);
        let pos = room.entities[at].1.pos();
        let after = room.bury(uuid);
        assert(room.creature_placed(room.entities[at]));
        lemma_index_in_range(pos, room.size);
        assert forall|p: Vec2<usize>| in_bounds(p, after.size) implies #[trigger] after.tile_fits(
            p,
        ) by {
            assert(room.tile_fits(p));
            lemma_index_in_range(p, room.size);
        }
        assert forall|k: int| 0 <= k < after.entrances.len() implies after.entrance_fits(
            #[trigger] after.entrances[k],
        ) by {
            let e = room.entrances[k];
            assert(room.entrance_fits(e));
            lemma_index_in_range(
                exit_position(room.size, e.direction, offset_along(e.location, e.direction)),
                room.size,
            );
        }
        assert forall|j: int| 0 <= j < after.entities.len() implies after.creature_placed(
            #[trigger] after.entities[j],
        ) by {
            let from = if j < at {
                j
            } else {
                j + 1
            };
            assert(after.entities[j] == room.entities[from]);
            assert(room.creature_placed(room.entities[from]));
            assert(room.entities[from].0 != room.entities[at].0);
            let stands = room.entities[from].1.pos();
            lemma_index_in_range(stands, room.size);
            if cell_index(stands, room.size.x) == cell_index(pos, room.size.x) {
                lemma_index_injective(stands, pos, room.size);
            }
        }
        assert forall|a: int, b: int|
            0 <= a < after.entities.len() && 0 <= b < after.entities.len() && a != b implies (
        #[trigger] after.entities[a]).0 != (#[trigger] after.entities[b]).0 by {
            let fa = if a < at {
                a
            } else {
                a + 1
            };
            let fb = if b < at {
                b
            } else {
                b + 1
            };
            assert(after.entities[a] == room.entities[fa]);
            assert(after.entities[b] == room.entities[fb]);
        }
        assert(!has_id(after.entities, uuid)) by {
            if has_id(after.entities, uuid) {
                let j = choose|j: int|
                    0 <= j < after.entities.len() && (#[trigger] after.entities[j]).0 == uuid;
                let from = if j < at {
                    j
                } else {
                    j + 1
                };
                assert(after.entities[j] == room.entities[from]);
                assert(room.entities[from].0 != room.entities[at].0);
            }
        }
        lemma_with_entry_distinct(room.corpses, uuid, pos);
        lemma_index_of_id(room.corpses, uuid);
        assert forall|k: int| 0 <= k < after.corpses.len() implies room.first_uuid <= (
        #[trigger] after.corpses[k]).0 < room.next_uuid by {
            if k < room.corpses.len() && after.corpses[k] == room.corpses[k] {
                assert(room.first_uuid <= room.corpses[k].0 < room.next_uuid);
            } else {
                assert(after.corpses[k] == (uuid, pos));
            }
        }
    }
}

/// Storing a value under an id keeps the ids of a map distinct.
pub proof fn lemma_with_entry_distinct<T>(entries: Seq<(usize, T)>, id: usize, value: T)
    requires
        ids_distinct(entries),
    ensures
        ids_distinct(with_entry(entries, id, value)),
        has_id(with_entry(entries, id, value), id),
{
    lemma_index_of_id(entries, id);
    let after = with_entry(entries, id, value);
    if has_id(entries, id) {
        let at = index_of_id(entries, id);
        assert(after[at].0 == id);
        assert forall|i: int, j: int|
            0 <= i < after.len() && 0 <= j < after.len() && i != j implies (#[trigger] after[i]).0
            != (#[trigger] after[j]).0 by {
            assert(entries[i].0 != entries[j].0);
        }
    } else {
        assert(after[entries.len() as int].0 == id);
        assert forall|i: int, j: int|
            0 <= i < after.len() && 0 <= j < after.len() && i != j implies (#[trigger] after[i]).0
            != (#[trigger] after[j]).0 by {
            if i < entries.len() && j < entries.len() {
                assert(entries[i].0 != entries[j].0);
            } else if i < entries.len() {
                assert(entries[i].0 != id);
            } else {
                assert(entries[j].0 != id);
            }
        }
    }
}

/// Burying creatures one after the other leaves the room in order.
pub proof fn lemma_bury_all(room: RoomView, ids: Seq<usize>)
    requires
        room.wf(),
    ensures
        room.bury_all(ids).wf(),
        room.bury_all(ids).size == room.size,
        same_kinds(room.tiles, room.bury_all(ids).tiles),
        room.bury_all(ids).entrances == room.entrances,
        room.bury_all(ids).first_uuid == room.first_uuid,
        room.bury_all(ids).next_uuid == room.next_uuid,
        room.bury_all(ids).entities.len() <= room.entities.len(),
    decreases ids.len(),
{
    if ids.len() > 0 {
        lemma_bury_all(room, ids.drop_last());
        lemma_bury(room.bury_all(ids.drop_last()), ids.last());
        lemma_index_of_id(room.bury_all(ids.drop_last()).entities, ids.last());
        let mid = room.bury_all(ids.drop_last());
        let after = room.bury_all(ids);
        assert forall|i: int| 0 <= i < room.tiles.len() implies (#[trigger] after.tiles[i]).id
            == room.tiles[i].id by {
            assert(mid.tiles[i].id == room.tiles[i].id);
        }
    }
}

/// The player's request to enter a tile leaves the room in order: every
/// creature stands on a tile of the room that is marked as taken and names
/// that creature, and no two creatures share an id. The player ends where
/// they were or on `new_pos`, and there only if it can be stood on.
pub proof fn lemma_player_input_keeps_order(room: RoomView, player: PlayerView, new_pos: Vec2<usize>)
    requires
        room.wf(),
    ensures
        room.after_player_input(player, new_pos).0.wf(),
        room.after_player_input(player, new_pos).0.tiles == room.tiles,
        room.after_player_input(player, new_pos).0.size == room.size,
        room.after_player_input(player, new_pos).0.entrances == room.entrances,
        room.after_player_input(player, new_pos).0.first_uuid == room.first_uuid,
        room.after_player_input(player, new_pos).0.next_uuid == room.next_uuid,
        room.after_player_input(player, new_pos).0.entities.len() == room.entities.len(),
        room.after_player_input(player, new_pos).1.curr_stats == player.curr_stats,
        room.after_player_input(player, new_pos).1.base_stats == player.base_stats,
        room.after_player_input(player, new_pos).1.name == player.name,
        room.after_player_input(player, new_pos).1.pos == player.pos || (room.after_player_input(
            player,
            new_pos,
        ).1.pos == new_pos && room.valid_position(new_pos)),
{
    lemma_strikes(room, player, new_pos, room.entities.len());
}

/// A step leaves the room in order: every creature stands on a tile of the
/// room that is marked as taken and names that creature, and no two creatures
/// share an id.
pub proof fn lemma_step_keeps_order(room: RoomView, player: PlayerView)
    requires
        room.wf(),
    ensures
        room.after_step(player).0.wf(),
        room.after_step(player).0.size == room.size,
        same_kinds(room.tiles, room.after_step(player).0.tiles),
        room.after_step(player).0.entrances == room.entrances,
        room.after_step(player).0.first_uuid == room.first_uuid,
        room.after_step(player).0.next_uuid == room.next_uuid,
        room.after_step(player).0.entities.len() <= room.entities.len(),
        room.after_step(player).1.pos == player.pos,
        player.wf() ==> room.after_step(player).1.wf(),
{
    lemma_turns(room, player, room.entities.len());
    lemma_bury_all(
        room.turns(player, room.entities.len()).0,
        room.dead_ids(room.entities.len()),
    );
    let mid = room.turns(player, room.entities.len()).0;
    let after = room.after_step(player).0;
    assert forall|i: int| 0 <= i < room.tiles.len() implies (#[trigger] after.tiles[i]).id
        == room.tiles[i].id by {
        assert(mid.tiles[i].id == room.tiles[i].id);
    }
}

/// Every creature of a room that is in order stands on a tile that is marked
/// as taken and names it, and the tile of no other creature names it.
pub proof fn lemma_occupancy(room: RoomView, i: int, j: int)
    requires
        room.wf(),
        0 <= i < room.entities.len(),
        0 <= j < room.entities.len(),
    ensures
        in_bounds(room.entities[i].1.pos(), room.size),
        room.tile_at(room.entities[i].1.pos()).occupied,
        room.tile_at(room.entities[i].1.pos()).uuid == room.entities[i].0,
        i != j ==> room.tile_at(room.entities[j].1.pos()).uuid != room.entities[i].0,
        i != j ==> room.entities[j].1.pos() != room.entities[i].1.pos(),
{
    assert(room.creature_placed(room.entities[i]));
    assert(room.creature_placed(room.entities[j]));
}

/// Whether the creature `uuid` of a room has become a corpse on the tile
/// `pos`: it is gone from the creatures, its corpse lies on `pos`, and the
/// tile is free and lists it among those that died there.
pub open spec fn buried(room: RoomView, uuid: usize, pos: Vec2<usize>) -> bool {
    &&& !has_id(room.entities, uuid)
    &&& has_id(room.corpses, uuid)
    &&& room.corpses[index_of_id(room.corpses, uuid)].1 == pos
    &&& !room.tile_at(pos).occupied
    &&& room.tile_at(pos).corpses.contains(uuid)
}

/// Whether the creature `uuid` of a room still waits on the tile `pos` to be
/// buried.
pub open spec fn unburied(room: RoomView, uuid: usize, pos: Vec2<usize>) -> bool {
    &&& has_id(room.entities, uuid)
    &&& room.entities[index_of_id(room.entities, uuid)].1.pos() == pos
}

/// Burying one creature leaves another one as it was: buried or waiting.
proof fn lemma_bury_other(room: RoomView, buried_now: usize, uuid: usize, pos: Vec2<usize>)
    requires
        room.wf(),
        in_bounds(pos, room.size),
        buried(room, uuid, pos) || unburied(room, uuid, pos),
    ensures
        buried(room, uuid, pos) ==> buried(room.bury(buried_now), uuid, pos),
        unburied(room, uuid, pos) && buried_now != uuid ==> unburied(
            room.bury(buried_now),
            uuid,
            pos,
        ),
        unburied(room, uuid, pos) && buried_now == uuid ==> buried(
            room.bury(buried_now),
            uuid,
            pos,
        ),
{
    let after = room.bury(buried_now);
    lemma_bury(room, buried_now);
    lemma_index_of_id(room.entities, buried_now);
    lemma_index_of_id(room.entities, uuid);
    lemma_index_of_id(room.corpses, uuid);
    lemma_index_in_range(pos, room.size);
    if has_id(room.entities, buried_now) {
        let at = index_of_id(room.entities, buried_now);
        let lies = room.entities[at].1.pos();
        assert(room.creature_placed(room.entities[at]));
        lemma_index_in_range(lies, room.size);
        if buried(room, uuid, pos) {
            let died = room.tile_at(pos).corpses;
            let k = choose|k: int| 0 <= k < died.len() && died[k] == uuid;
            if lies == pos {
                assert(died.push(buried_now)[k] == uuid);
            }
        } else if buried_now == uuid {
            let died = room.tile_at(pos).corpses;
            assert(died.push(uuid)[died.len() as int] == uuid);
        }
        lemma_with_entry_keeps(room.corpses, buried_now, lies, uuid);
        lemma_with_entry_distinct(room.corpses, buried_now, lies);
        lemma_index_of_id(after.corpses, uuid);
        if buried_now != uuid {
            lemma_without_id_keeps(room.entities, buried_now, uuid);
            if buried(room, uuid, pos) {
                let held = index_of_id(room.corpses, uuid);
                lemma_index_of_id(room.corpses, buried_now);
                assert(after.corpses[held] == room.corpses[held]);
                assert(index_of_id(after.corpses, uuid) == held) by {
                    let found = index_of_id(after.corpses, uuid);
                    if found != held {
                        assert(after.corpses[found].0 == after.corpses[held].0);
                    }
                }
            }
        } else {
            assert(lies == pos);
            let found = index_of_id(after.corpses, uuid);
            if has_id(room.corpses, uuid) {
                let held = index_of_id(room.corpses, uuid);
                assert(after.corpses[held] == (uuid, pos));
                if found != held {
                    assert(after.corpses[found].0 == after.corpses[held].0);
                }
            } else {
                let last = room.corpses.len() as int;
                assert(after.corpses[last] == (uuid, pos));
                if found != last {
                    assert(after.corpses[found].0 == after.corpses[last].0);
                }
            }
        }
    }
}

/// After the creatures `ids` were buried, a creature among them is a corpse
/// on the tile where it stood, and a creature not among them is where it was.
pub proof fn lemma_bury_all_buries(room: RoomView, ids: Seq<usize>, uuid: usize)
    requires
        room.wf(),
        has_id(room.entities, uuid),
    ensures
        ids.contains(uuid) ==> buried(
            room.bury_all(ids),
            uuid,
            room.entities[index_of_id(room.entities, uuid)].1.pos(),
        ),
        !ids.contains(uuid) ==> unburied(
            room.bury_all(ids),
            uuid,
            room.entities[index_of_id(room.entities, uuid)].1.pos(),
        ),
    decreases ids.len(),
{
    let pos = room.entities[index_of_id(room.entities, uuid)].1.pos();
    lemma_index_of_id(room.entities, uuid);
    assert(room.creature_placed(room.entities[index_of_id(room.entities, uuid)]));
    if ids.len() > 0 {
        let before = room.bury_all(ids.drop_last());
        lemma_bury_all_buries(room, ids.drop_last(), uuid);
        lemma_bury_all(room, ids.drop_last());
        lemma_bury_other(before, ids.last(), uuid, pos);
        if ids.drop_last().contains(uuid) {
            let k = choose|k: int| 0 <= k < ids.drop_last().len() && ids.drop_last()[k] == uuid;
            assert(ids[k] == uuid);
        }
        if ids.contains(uuid) && !ids.drop_last().contains(uuid) {
            let k = choose|k: int| 0 <= k < ids.len() && ids[k] == uuid;
            if k < ids.len() - 1 {
                assert(ids.drop_last()[k] == uuid);
            }
        }
        if ids.last() == uuid {
            assert(ids[ids.len() - 1] == uuid);
        }
    }
}

/// The ids of the dead among the first `n` creatures are those of the
/// creatures that do not live.
pub proof fn lemma_dead_ids(room: RoomView, n: nat, i: int)
    requires
        n <= room.entities.len(),
        0 <= i < n,
    ensures
        !room.entities[i].1.alive() ==> room.dead_ids(n).contains(room.entities[i].0),
    decreases n,
{
    if i == n - 1 {
        if !room.entities[i].1.alive() {
            let ids = room.dead_ids(n);
            assert(ids[ids.len() - 1] == room.entities[i].0);
        }
    } else {
        lemma_dead_ids(room, (n - 1) as nat, i);
        if !room.entities[i].1.alive() {
            let before = room.dead_ids((n - 1) as nat);
            let k = choose|k: int| 0 <= k < before.len() && before[k] == room.entities[i].0;
            assert(room.dead_ids(n)[k] == room.entities[i].0);
        }
    }
}

/// A creature that is dead when the room takes a step is a corpse after it:
/// it is gone from the creatures, its corpse lies where it stood, and its
/// tile is free.
pub proof fn lemma_step_buries_the_dead(room: RoomView, player: PlayerView, i: int)
    requires
        room.wf(),
        0 <= i < room.entities.len(),
        !room.entities[i].1.alive(),
    ensures
        buried(room.after_step(player).0, room.entities[i].0, room.entities[i].1.pos()),
{
    let n = room.entities.len();
    let uuid = room.entities[i].0;
    let turned = room.turns(player, n).0;
    lemma_turns(room, player, n);
    lemma_dead_ids(room, n, i);
    assert(turned.entities[i] == room.entities[i]);
    lemma_index_of_id(turned.entities, uuid);
    assert(index_of_id(turned.entities, uuid) == i) by {
        let found = index_of_id(turned.entities, uuid);
        if found != i {
            assert(turned.entities[found].0 == turned.entities[i].0);
        }
    }
    lemma_bury_all_buries(turned, room.dead_ids(n), uuid);
}

/// Every id among the dead of the first `n` creatures is the id of one of
/// them that does not live.
pub proof fn lemma_dead_ids_are_dead(room: RoomView, n: nat, uuid: usize)
    requires
        n <= room.entities.len(),
        room.dead_ids(n).contains(uuid),
    ensures
        exists|j: int| 0 <= j < n && !(#[trigger] room.entities[j]).1.alive() && room.entities[j].0 == uuid,
    decreases n,
{
    if n > 0 {
        let before = room.dead_ids((n - 1) as nat);
        let ids = room.dead_ids(n);
        let k = choose|k: int| 0 <= k < ids.len() && ids[k] == uuid;
        if k < before.len() {
            assert(before[k] == uuid);
            lemma_dead_ids_are_dead(room, (n - 1) as nat, uuid);
            let j = choose|j: int|
                0 <= j < n - 1 && !(#[trigger] room.entities[j]).1.alive() && room.entities[j].0
                    == uuid;
            assert(!room.entities[j].1.alive());
        } else {
            assert(!room.entities[n - 1].1.alive() && room.entities[n - 1].0 == uuid);
        }
    }
}

/// A creature that lives when the room takes a step is among the room's
/// creatures after it, under the id it had.
pub proof fn lemma_step_keeps_the_living(room: RoomView, player: PlayerView, i: int)
    requires
        room.wf(),
        0 <= i < room.entities.len(),
        room.entities[i].1.alive(),
    ensures
        has_id(room.after_step(player).0.entities, room.entities[i].0),
{
    let n = room.entities.len();
    let uuid = room.entities[i].0;
    let turned = room.turns(player, n).0;
    lemma_turns(room, player, n);
    assert(turned.entities[i].0 == uuid);
    if room.dead_ids(n).contains(uuid) {
        lemma_dead_ids_are_dead(room, n, uuid);
        let j = choose|j: int|
            0 <= j < n && !(#[trigger] room.entities[j]).1.alive() && room.entities[j].0 == uuid;
        assert(j != i);
        assert(room.entities[i].0 != room.entities[j].0);
    }
    lemma_bury_all_buries(turned, room.dead_ids(n), uuid);
}

} // verus!
