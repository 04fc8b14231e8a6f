//! A room: a walled rectangle of tiles, the creatures that live in it and
//! the corpses of those that died there.
//!
//! The outermost ring of tiles is wall, broken by exits; everything inside
//! is open floor. Each exit lies on one side of the room, never in a corner,
//! and has an entrance on the floor tile next to it.

use crate::entity::{
    Attackable, Corpse, CorpseMap, Creature, CreatureView, EntityMap,
};
use crate::goblin::Goblin;
use crate::log::{combat_text, reports_logged, time_fits, with_message, with_reports, Log};
use crate::player::Player;
use crate::utils::grid::{
    addressable, cell_index, in_bounds, index_in, lemma_index_in_range, lemma_index_injective,
    lemma_index_round_trip, tile_index,
};
use crate::utils::id_map::{has_id, ids_distinct, index_of_id, lemma_index_of_id};
use crate::utils::random::random_in_range;
use crate::utils::{IdMap, Vec2};
use crate::world::error::WorldError;
use crate::world::rules::{
    buried, lemma_bury_all, lemma_step_buries_the_dead, lemma_step_keeps_the_living,
    lemma_strikes, lemma_turn, lemma_turns,
};
use crate::world::{tile_free, tile_views, Direction, Tile, TileType, TileView};
use vstd::prelude::*;

verus! {

/// The floor tile on which someone stands who came in through the exit on
/// the side `direction`.
#[derive(Debug, Copy, Clone, PartialEq, Eq, Structural)]
pub struct Entrance {
    pub location: Vec2<usize>,
    pub direction: Direction,
}

/// What a room is like beyond its tiles: its theme and how hard it is. So
/// far a room has no such properties.
pub struct RoomProperties {

}

pub struct Room {
    size: Vec2<usize>,
    init_pos: Vec2<usize>,
    tiles: Vec<Tile>,
    entrances: Vec<Entrance>,
    entities: EntityMap,
    corpses: CorpseMap,
    first_uuid: usize,
    next_uuid: usize,
}

/// A room as a mathematical value.
pub struct RoomView {
    pub size: Vec2<usize>,
    pub init_pos: Vec2<usize>,
    pub tiles: Seq<TileView>,
    pub entrances: Seq<Entrance>,
    /// The creatures under their ids, in the order in which they take turns.
    pub entities: Seq<(usize, CreatureView)>,
    /// The tiles of the corpses under the ids of the creatures they were.
    pub corpses: Seq<(usize, Vec2<usize>)>,
    /// The first id that the room gave or will give to a creature.
    pub first_uuid: usize,
    /// The id that the next creature gets.
    pub next_uuid: usize,
}

/// The creatures of a map as mathematical values.
pub open spec fn entity_views(entries: Seq<(usize, Creature)>) -> Seq<(usize, CreatureView)> {
    Seq::new(entries.len(), |i: int| (entries[i].0, entries[i].1@))
}

/// The corpses of a map as mathematical values.
pub open spec fn corpse_views(entries: Seq<(usize, Corpse)>) -> Seq<(usize, Vec2<usize>)> {
    Seq::new(entries.len(), |i: int| (entries[i].0, entries[i].1@))
}

/// Whether a new room may put a goblin on `pos`: on the floor, but not in
/// its first row or column.
pub open spec fn in_spawn_area(pos: Vec2<usize>, size: Vec2<usize>) -> bool {
    2 <= pos.x < size.x - 1 && 2 <= pos.y < size.y - 1
}

/// The number that a new room's goblins stay below: a third of the room's
/// tiles, not counting two columns and most of a row.
pub open spec fn spawn_budget(size: Vec2<usize>) -> int {
    (size.x * size.y - size.y * 2 - (size.x - 4)) / 3
}

/// Whether `pos` is a floor position: inside the ring of walls.
pub open spec fn interior(pos: Vec2<usize>, size: Vec2<usize>) -> bool {
    0 < pos.x < size.x - 1 && 0 < pos.y < size.y - 1
}

/// The number of tiles along the side `side`.
pub open spec fn side_length(size: Vec2<usize>, side: Direction) -> usize {
    match side {
        Direction::North | Direction::South => size.x,
        Direction::East | Direction::West => size.y,
    }
}

/// Whether an exit may lie `offset` tiles along a side: anywhere but in the
/// corners.
pub open spec fn offset_fits(size: Vec2<usize>, side: Direction, offset: usize) -> bool {
    1 <= offset < side_length(size, side) - 1
}

/// The wall position `offset` tiles along the side `side`.
pub open spec fn exit_position(size: Vec2<usize>, side: Direction, offset: usize) -> Vec2<usize> {
    match side {
        Direction::North => Vec2 { x: offset, y: 0 },
        Direction::East => Vec2 { x: (size.x - 1) as usize, y: offset },
        Direction::South => Vec2 { x: offset, y: (size.y - 1) as usize },
        Direction::West => Vec2 { x: 0, y: offset },
    }
}

/// The floor position next to the exit `offset` tiles along the side `side`.
pub open spec fn entrance_position(size: Vec2<usize>, side: Direction, offset: usize) -> Vec2<
    usize,
> {
    match side {
        Direction::North => Vec2 { x: offset, y: 1 },
        Direction::East => Vec2 { x: (size.x - 2) as usize, y: offset },
        Direction::South => Vec2 { x: offset, y: (size.y - 2) as usize },
        Direction::West => Vec2 { x: 1, y: offset },
    }
}

/// How far along its side a position lies.
pub open spec fn offset_along(pos: Vec2<usize>, side: Direction) -> usize {
    match side {
        Direction::North | Direction::South => pos.x,
        Direction::East | Direction::West => pos.y,
    }
}

/// Whether `pos` is a wall position of the side `side` and no corner.
pub open spec fn on_side(pos: Vec2<usize>, size: Vec2<usize>, side: Direction) -> bool {
    offset_fits(size, side, offset_along(pos, side)) && pos == exit_position(
        size,
        side,
        offset_along(pos, side),
    )
}

impl RoomView {
    /// The tile at `pos`.
    pub open spec fn tile_at(self, pos: Vec2<usize>) -> TileView {
        self.tiles[cell_index(pos, self.size.x)]
    }

    /// The kind of the tile at `pos`. Around the room there is nothing but
    /// wall.
    pub open spec fn tile_type(self, pos: Vec2<usize>) -> TileType {
        if addressable(pos, self.size, self.tiles.len()) {
            self.tile_at(pos).id
        } else {
            TileType::Wall
        }
    }

    /// Whether the player can stand on `pos`: it is a tile of the room and no
    /// wall.
    pub open spec fn valid_position(self, pos: Vec2<usize>) -> bool {
        !self.tile_type(pos).spec_collidable()
    }

    /// Whether the tile at `pos` is an exit on the side `side`.
    pub open spec fn exit_faces(self, pos: Vec2<usize>, side: Direction) -> bool {
        in_bounds(pos, self.size) && (self.tile_at(pos).id matches TileType::Exit {
            exiting_direction,
            ..
        } && exiting_direction == side)
    }

    /// Whether the room has an entrance on the side `side`.
    pub open spec fn has_entrance(self, side: Direction) -> bool {
        exists|k: int| 0 <= k < self.entrances.len()
            && (#[trigger] self.entrances[k]).direction == side
    }

    /// The first entrance on the side `side`; the number of entrances if
    /// there is none.
    pub open spec fn first_entrance(self, side: Direction) -> int
        decreases self.entrances.len(),
    {
        if self.entrances.len() == 0 {
            0
        } else if self.entrances[0].direction == side {
            0
        } else {
            1 + (RoomView { entrances: self.entrances.drop_first(), ..self }).first_entrance(side)
        }
    }

    /// The tile at `pos` is what its place in the room asks for: floor inside
    /// the walls and nowhere else, and an exit only on the side it leads out
    /// of, with its entrance next to it.
    pub open spec fn tile_fits(self, pos: Vec2<usize>) -> bool {
        let id = self.tile_at(pos).id;
        &&& interior(pos, self.size) <==> id is Granite
        &&& id matches TileType::Exit { exiting_direction, .. } ==> {
            &&& on_side(pos, self.size, exiting_direction)
            &&& self.entrances.contains(
                Entrance {
                    location: entrance_position(
                        self.size,
                        exiting_direction,
                        offset_along(pos, exiting_direction),
                    ),
                    direction: exiting_direction,
                },
            )
        }
    }

    /// The entrance lies next to an exit of its side.
    pub open spec fn entrance_fits(self, entrance: Entrance) -> bool {
        let offset = offset_along(entrance.location, entrance.direction);
        &&& offset_fits(self.size, entrance.direction, offset)
        &&& entrance.location == entrance_position(self.size, entrance.direction, offset)
        &&& self.exit_faces(exit_position(self.size, entrance.direction, offset), entrance.direction)
    }

    /// The creature is in order, stands inside the room, and its tile names
    /// it as the one that stands there.
    pub open spec fn creature_placed(self, entry: (usize, CreatureView)) -> bool {
        &&& entry.1.wf()
        &&& self.first_uuid <= entry.0 < self.next_uuid
        &&& in_bounds(entry.1.pos(), self.size)
        &&& self.tile_at(entry.1.pos()).occupied
        &&& self.tile_at(entry.1.pos()).uuid == entry.0
    }

    /// The room is in order.
    pub open spec fn wf(self) -> bool {
        &&& self.size.x >= 3
        &&& self.size.y >= 3
        &&& self.tiles.len() == self.size.x * self.size.y
        &&& self.init_pos == (Vec2 { x: 1usize, y: 1usize })
        &&& forall|pos: Vec2<usize>| in_bounds(pos, self.size) ==> #[trigger] self.tile_fits(pos)
        &&& forall|k: int|
            0 <= k < self.entrances.len() ==> self.entrance_fits(#[trigger] self.entrances[k])
        &&& ids_distinct(self.entities)
        &&& forall|i: int|
            0 <= i < self.entities.len() ==> self.creature_placed(#[trigger] self.entities[i])
        &&& ids_distinct(self.corpses)
        &&& forall|k: int|
            0 <= k < self.corpses.len() ==> self.first_uuid <= (#[trigger] self.corpses[k]).0
                < self.next_uuid
        &&& self.first_uuid <= self.next_uuid
    }

    /// A room of the given size without exits and without creatures, whose
    /// creatures will get the ids from `first_uuid` on.
    pub open spec fn bare(size: Vec2<usize>, first_uuid: usize) -> RoomView {
        RoomView {
            size,
            init_pos: Vec2 { x: 1, y: 1 },
            tiles: Seq::new(
                (size.x * size.y) as nat,
                |i: int|
                    TileView::fresh(
                        if 0 < i % (size.x as int) < size.x - 1 && 0 < i / (size.x as int) < size.y
                            - 1 {
                            TileType::Granite
                        } else {
                            TileType::Wall
                        },
                    ),
            ),
            entrances: Seq::empty(),
            entities: Seq::empty(),
            corpses: Seq::empty(),
            first_uuid,
            next_uuid: first_uuid,
        }
    }

    /// The room with an exit to the room `neighbor_id` cut into the wall
    /// `offset` tiles along the side `side`, and an entrance next to it.
    pub open spec fn with_exit(self, side: Direction, neighbor_id: usize, offset: usize) -> RoomView {
        let at = cell_index(exit_position(self.size, side, offset), self.size.x);
        RoomView {
            tiles: self.tiles.update(
                at,
                TileView {
                    id: TileType::Exit { node_id: neighbor_id, exiting_direction: side },
                    ..self.tiles[at]
                },
            ),
            entrances: self.entrances.push(
                Entrance { location: entrance_position(self.size, side, offset), direction: side },
            ),
            ..self
        }
    }

    /// The room with a new goblin on the tile `pos`.
    pub open spec fn with_goblin(self, pos: Vec2<usize>) -> RoomView {
        let at = cell_index(pos, self.size.x);
        RoomView {
            tiles: self.tiles.update(
                at,
                TileView { occupied: true, uuid: self.next_uuid, ..self.tiles[at] },
            ),
            entities: self.entities.push(
                (self.next_uuid, CreatureView::Goblin(crate::goblin::GoblinView::fresh(pos))),
            ),
            next_uuid: (self.next_uuid + 1) as usize,
            ..self
        }
    }

    /// A room of the given size without exits, with a goblin on each of the
    /// tiles `spots`, put there in that order, the first under the id
    /// `first_uuid`.
    pub open spec fn populated(
        size: Vec2<usize>,
        first_uuid: usize,
        spots: Seq<Vec2<usize>>,
    ) -> RoomView
        decreases spots.len(),
    {
        if spots.len() == 0 {
            RoomView::bare(size, first_uuid)
        } else {
            RoomView::populated(size, first_uuid, spots.drop_last()).with_goblin(spots.last())
        }
    }

    /// Whether a goblin can be put on the tile `pos`: nothing stands there,
    /// and there is an id left for it.
    pub open spec fn can_spawn(self, pos: Vec2<usize>) -> bool {
        tile_free(pos, self.tiles, self.size) && self.next_uuid < usize::MAX
    }
}

impl View for Room {
    type V = RoomView;

    closed spec fn view(&self) -> RoomView {
        RoomView {
            size: self.size,
            init_pos: self.init_pos,
            tiles: tile_views(self.tiles@),
            entrances: self.entrances@,
            entities: entity_views(self.entities@),
            corpses: corpse_views(self.corpses@),
            first_uuid: self.first_uuid,
            next_uuid: self.next_uuid,
        }
    }
}

/// A room without exits and creatures is in order.
pub proof fn lemma_bare_room_wf(size: Vec2<usize>, first_uuid: usize)
    requires
        size.x >= 3,
        size.y >= 3,
        size.x * size.y <= usize::MAX,
    ensures
        RoomView::bare(size, first_uuid).wf(),
{
    let room = RoomView::bare(size, first_uuid);
    assert forall|pos: Vec2<usize>| in_bounds(pos, size) implies #[trigger] room.tile_fits(pos) by {
        lemma_index_in_range(pos, size);
        lemma_index_round_trip(pos, size);
    }
}

impl Room {
    /// Builds a room of the given size without exits, and puts goblins into
    /// it: at least one and fewer than `spawn_budget(size)`, each on a tile of
    /// its own, drawn at random among the free tiles of the spawn area. The
    /// goblins get the ids from 0 on.
    pub fn new(size: Vec2<usize>) -> (room: Room)
        requires
            size.x >= 4,
            size.y >= 4,
            size.x * size.y <= usize::MAX,
        ensures
            room@.wf(),
            room@.size == size,
            room@.entrances.len() == 0,
            room@.corpses.len() == 0,
            room@.first_uuid == 0,
            1 <= room@.entities.len() < spawn_budget(size),
            exists|spots: Seq<Vec2<usize>>|
                {
                    &&& 1 <= spots.len() < spawn_budget(size)
                    &&& forall|k: int|
                        0 <= k < spots.len() ==> in_spawn_area(#[trigger] spots[k], size)
                    &&& room@ == #[trigger] RoomView::populated(size, 0, spots)
                },
    {
        assert(size.x * size.y >= size.y * 2 + (size.x - 4) + 8) by (nonlinear_arith)
            requires
                size.x >= 4,
                size.y >= 4,
        ;
        Room::new_from(size, 0)
    }

    /// Builds a room like `new`, whose goblins get the ids from `first_uuid`
    /// on.
    pub fn new_from(size: Vec2<usize>, first_uuid: usize) -> (room: Room)
        requires
            size.x >= 4,
            size.y >= 4,
            size.x * size.y <= usize::MAX,
            first_uuid + spawn_budget(size) <= usize::MAX,
        ensures
            room@.wf(),
            room@.size == size,
            room@.first_uuid == first_uuid,
            room@.next_uuid == first_uuid + room@.entities.len(),
            room@.entrances.len() == 0,
            room@.corpses.len() == 0,
            1 <= room@.entities.len() < spawn_budget(size),
            exists|spots: Seq<Vec2<usize>>|
                {
                    &&& 1 <= spots.len() < spawn_budget(size)
                    &&& forall|k: int|
                        0 <= k < spots.len() ==> in_spawn_area(#[trigger] spots[k], size)
                    &&& room@ == #[trigger] RoomView::populated(size, first_uuid, spots)
                },
    {
        let mut room = Room::bare_from(size, first_uuid);
        assert(size.x * size.y >= size.y * 2 + (size.x - 4) + 8) by (nonlinear_arith)
            requires
                size.x >= 4,
                size.y >= 4,
        ;
        let available_space = size.x * size.y - size.y * 2 - (size.x - 4);
        let num_gobbos = random_in_range(1, available_space / 3);
        let ghost mut spots: Seq<Vec2<usize>> = Seq::empty();
        let mut placed: usize = 0;
        let mut room_left = true;
        proof {
            lemma_index_in_range(Vec2 { x: 2, y: 2 }, size);
        }
        while placed < num_gobbos && room_left
            invariant
                size.x >= 4,
                size.y >= 4,
                1 <= num_gobbos,
                !room_left ==> placed > 0,
                placed <= num_gobbos < spawn_budget(size),
                first_uuid + spawn_budget(size) <= usize::MAX,
                room@.wf(),
                room@.size == size,
                room@.first_uuid == first_uuid,
                room@.next_uuid == first_uuid + placed,
                room@.entrances.len() == 0,
                room@.corpses.len() == 0,
                room@.entities.len() == placed,
                spots.len() == placed,
                forall|k: int| 0 <= k < spots.len() ==> in_spawn_area(#[trigger] spots[k], size),
                room@ == RoomView::populated(size, first_uuid, spots),
                placed == 0 ==> tile_free(Vec2 { x: 2, y: 2 }, room@.tiles, size),
            decreases (num_gobbos - placed) + (if room_left { 1int } else { 0int }),
        {
            let free = room.free_spawn_tiles();
            if free.len() == 0 {
                assert(placed > 0) by {
                    if placed == 0 {
                        assert(free@.contains(Vec2 { x: 2usize, y: 2usize }));
                    }
                }
                room_left = false;
            } else {
                let pos = free[random_in_range(0, free.len())];
                let spawned = room.spawn_goblin(pos);
                proof {
                    assert(spawned.is_some());
                    assert(spots.push(pos).drop_last() =~= spots);
                    spots = spots.push(pos);
                }
                placed = placed + 1;
            }
        }
        room
    }

    /// The tiles of the spawn area on which nothing stands.
    fn free_spawn_tiles(&self) -> (free: Vec<Vec2<usize>>)
        requires
            self@.wf(),
            self@.size.x >= 4,
            self@.size.y >= 4,
        ensures
            forall|k: int|
                0 <= k < free@.len() ==> in_spawn_area(#[trigger] free@[k], self@.size)
                    && tile_free(
                    free@[k],
                    self@.tiles,
                    self@.size,
                ),
            forall|pos: Vec2<usize>|
                in_spawn_area(pos, self@.size) && tile_free(pos, self@.tiles, self@.size)
                    ==> free@.contains(pos),
    {
        let mut free: Vec<Vec2<usize>> = Vec::new();
        let mut y: usize = 2;
        while y < self.size.y - 1
            invariant
                self@.size.x >= 4,
                self@.size.y >= 4,
                2 <= y <= self.size.y - 1,
                self.size == self@.size,
                self@.tiles == tile_views(self.tiles@),
                forall|k: int|
                    0 <= k < free@.len() ==> in_spawn_area(#[trigger] free@[k], self@.size)
                        && tile_free(free@[k], self@.tiles, self@.size),
                forall|pos: Vec2<usize>|
                    in_spawn_area(pos, self@.size) && tile_free(pos, self@.tiles, self@.size)
                        && pos.y < y ==> free@.contains(pos),
            decreases self.size.y - 1 - y,
        {
            let mut x: usize = 2;
            while x < self.size.x - 1
                invariant
                    self@.size.x >= 4,
                    self@.size.y >= 4,
                    2 <= y < self.size.y - 1,
                    2 <= x <= self.size.x - 1,
                    self.size == self@.size,
                    self@.tiles == tile_views(self.tiles@),
                    forall|k: int|
                        0 <= k < free@.len() ==> in_spawn_area(#[trigger] free@[k], self@.size)
                            && tile_free(free@[k], self@.tiles, self@.size),
                    forall|pos: Vec2<usize>|
                        in_spawn_area(pos, self@.size) && tile_free(pos, self@.tiles, self@.size)
                            && (pos.y < y || (pos.y == y && pos.x < x)) ==> free@.contains(pos),
                decreases self.size.x - 1 - x,
            {
                let pos = Vec2::new(x, y);
                let ghost before = free@;
                match tile_index(pos, self.size, self.tiles.len()) {
                    Some(at) => {
                        if !self.tiles[at].occupied {
                            free.push(pos);
                        }
                    },
                    None => {},
                }
                proof {
                    assert forall|at: Vec2<usize>|
                        in_spawn_area(at, self@.size) && tile_free(at, self@.tiles, self@.size) && (
                        at.y < y || (at.y == y && at.x < x + 1)) implies free@.contains(at) by {
                        if at == pos {
                            assert(free@[before.len() as int] == pos);
                        } else {
                            assert(before.contains(at));
                            let k = choose|k: int| 0 <= k < before.len() && before[k] == at;
                            assert(free@[k] == at);
                        }
                    }
                }
                x = x + 1;
            }
            y = y + 1;
        }
        free
    }

    /// Builds a room of the given size without exits and without creatures.
    /// Its creatures will get the ids from 0 on.
    pub fn bare(size: Vec2<usize>) -> (room: Room)
        requires
            size.x >= 3,
            size.y >= 3,
            size.x * size.y <= usize::MAX,
        ensures
            room@ == RoomView::bare(size, 0),
            room@.wf(),
    {
        Room::bare_from(size, 0)
    }

    /// Builds a room of the given size without exits and without creatures.
    /// Its creatures will get the ids from `first_uuid` on.
    pub fn bare_from(size: Vec2<usize>, first_uuid: usize) -> (room: Room)
        requires
            size.x >= 3,
            size.y >= 3,
            size.x * size.y <= usize::MAX,
        ensures
            room@ == RoomView::bare(size, first_uuid),
            room@.wf(),
    {
        let mut tiles: Vec<Tile> = Vec::new();
        let count = size.x * size.y;
        let mut i: usize = 0;
        while i < count
            invariant
                i <= count,
                count == size.x * size.y,
                size.x >= 3,
                tiles@.len() == i,
                forall|j: int| 0 <= j < i
                    ==> (#[trigger] tiles@[j])@ == RoomView::bare(size, first_uuid).tiles[j],
            decreases count - i,
        {
            let x = i % size.x;
            let y = i / size.x;
            if x != 0 && y != 0 && x != size.x - 1 && y != size.y - 1 {
                assert(y < size.y - 1) by (nonlinear_arith)
                    requires
                        y == i / size.x,
                        i < size.x * size.y,
                        y != size.y - 1,
                        size.x > 0,
                ;
                tiles.push(Tile::new(TileType::Granite));
            } else {
                tiles.push(Tile::new(TileType::Wall));
            }
            i = i + 1;
        }
        let room = Room {
            size,
            init_pos: Vec2::new(1, 1),
            tiles,
            entrances: Vec::new(),
            entities: IdMap::new(),
            corpses: IdMap::new(),
            first_uuid,
            next_uuid: first_uuid,
        };
        proof {
            assert(room@.tiles =~= RoomView::bare(size, first_uuid).tiles);
            assert(room@.entities =~= RoomView::bare(size, first_uuid).entities);
            assert(room@.corpses =~= RoomView::bare(size, first_uuid).corpses);
            lemma_bare_room_wf(size, first_uuid);
        }
        room
    }

    pub fn tiles(&self) -> (tiles: &Vec<Tile>)
        ensures
            tile_views(tiles@) == self@.tiles,
    {
        &self.tiles
    }

    pub fn width(&self) -> (width: usize)
        ensures
            width == self@.size.x,
    {
        self.size.x
    }

    pub fn height(&self) -> (height: usize)
        ensures
            height == self@.size.y,
    {
        self.size.y
    }

    /// The first id that the room gave or will give to a creature.
    pub fn first_uuid(&self) -> (uuid: usize)
        ensures
            uuid == self@.first_uuid,
    {
        self.first_uuid
    }

    /// The id that the next creature of the room gets.
    pub fn next_uuid(&self) -> (uuid: usize)
        ensures
            uuid == self@.next_uuid,
    {
        self.next_uuid
    }

    pub fn initial_position(&self) -> (pos: Vec2<usize>)
        ensures
            pos == self@.init_pos,
    {
        self.init_pos
    }

    pub fn get_entities(&self) -> (entities: &EntityMap)
        ensures
            entity_views(entities@) == self@.entities,
    {
        &self.entities
    }

    pub fn get_corpses(&self) -> (corpses: &CorpseMap)
        ensures
            corpse_views(corpses@) == self@.corpses,
    {
        &self.corpses
    }

    /// Lends out the creatures. Whoever changes them answers for the order
    /// of the room.
    pub fn get_mut_entities(&mut self) -> (entities: &mut EntityMap)
        ensures
            entity_views(entities@) == old(self)@.entities,
            final(self)@ == (RoomView {
                entities: entity_views(final(entities)@),
                ..old(self)@
            }),
    {
        &mut self.entities
    }

    /// The kind of the tile at `loc`.
    pub fn get_tile_type(&self, loc: Vec2<usize>) -> (id: TileType)
        ensures
            id == self@.tile_type(loc),
    {
        match tile_index(loc, self.size, self.tiles.len()) {
            Some(i) => self.tiles[i].id,
            None => TileType::Wall,
        }
    }

    pub fn valid_position(&self, pos: Vec2<usize>) -> (valid: bool)
        ensures
            valid == self@.valid_position(pos),
    {
        match tile_index(pos, self.size, self.tiles.len()) {
            Some(i) => !self.tiles[i].id.collidable(),
            None => false,
        }
    }

    /// Where someone stands who comes in on the side `entering_direction`:
    /// on the first entrance of that side.
    pub fn entering_position(&self, entering_direction: Direction) -> (res: Result<
        Vec2<usize>,
        WorldError,
    >)
        ensures
            res.is_ok() == self@.has_entrance(entering_direction),
            res matches Ok(pos) ==> {
                let k = self@.first_entrance(entering_direction);
                &&& 0 <= k < self@.entrances.len()
                &&& self@.entrances[k].direction == entering_direction
                &&& pos == self@.entrances[k].location
            },
            res matches Err(e) ==> e == WorldError::NoMatchingEntrance,
    {
        proof {
            lemma_first_entrance(self@, entering_direction);
        }
        let mut k: usize = 0;
        while k < self.entrances.len()
            invariant
                k <= self.entrances.len(),
                self.entrances@ == self@.entrances,
                forall|j: int|
                    0 <= j < k ==> (#[trigger] self.entrances@[j]).direction != entering_direction,
                k <= self@.first_entrance(entering_direction) <= self@.entrances.len(),
                self@.first_entrance(entering_direction) < self@.entrances.len()
                    ==> self@.entrances[self@.first_entrance(entering_direction)].direction
                    == entering_direction,
                forall|j: int|
                    0 <= j < self@.first_entrance(entering_direction) ==> (
                    #[trigger] self@.entrances[j]).direction != entering_direction,
                self@.has_entrance(entering_direction) <==> self@.first_entrance(
                    entering_direction,
                ) < self@.entrances.len(),
            decreases self.entrances.len() - k,
        {
            if self.entrances[k].direction == entering_direction {
                return Ok(self.entrances[k].location);
            }
            k = k + 1;
        }
        Err(WorldError::NoMatchingEntrance)
    }

    /// Cuts an exit to the room `neighbor_id` into the wall, `offset` tiles
    /// along the side `direction`, and records the entrance next to it.
    pub fn add_neighbor_at(&mut self, direction: Direction, neighbor_id: usize, offset: usize)
        requires
            old(self)@.wf(),
            offset_fits(old(self)@.size, direction, offset),
        ensures
            final(self)@ == old(self)@.with_exit(direction, neighbor_id, offset),
            final(self)@.wf(),
    {
        let size = self.size;
        let (position, location) = match direction {
            Direction::North => (Vec2::new(offset, 0), Vec2::new(offset, 1)),
            Direction::East => (Vec2::new(size.x - 1, offset), Vec2::new(size.x - 2, offset)),
            Direction::South => (Vec2::new(offset, size.y - 1), Vec2::new(offset, size.y - 2)),
            Direction::West => (Vec2::new(0, offset), Vec2::new(1, offset)),
        };
        proof {
            assert(position == exit_position(size, direction, offset));
            assert(in_bounds(position, size));
            lemma_index_in_range(position, size);
            lemma_with_exit_wf(old(self)@, direction, neighbor_id, offset);
        }
        let at = index_in(position, size, self.tiles.len());
        self.tiles[at].id = TileType::Exit { node_id: neighbor_id, exiting_direction: direction };
        self.entrances.push(Entrance { location, direction });
        proof {
            assert(self@.tiles =~= old(self)@.with_exit(direction, neighbor_id, offset).tiles);
        }
    }

    /// Cuts an exit to the room `neighbor_id` into the wall of the side
    /// `direction`, at a place drawn at random among those that are no
    /// corner, and records the entrance next to it.
    pub fn add_neighbor(&mut self, direction: Direction, neighbor_id: usize)
        requires
            old(self)@.wf(),
        ensures
            final(self)@.wf(),
            exists|offset: usize|
                offset_fits(old(self)@.size, direction, offset)
                    && final(self)@ == #[trigger] old(self)@.with_exit(direction, neighbor_id, offset),
    {
        let along = match direction {
            Direction::North | Direction::South => self.size.x,
            Direction::East | Direction::West => self.size.y,
        };
        let offset = random_in_range(1, along - 1);
        self.add_neighbor_at(direction, neighbor_id, offset);
    }

    /// Puts a new goblin on the tile `pos` and returns its id. Where
    /// something stands on the tile already, `pos` is no tile of the room, or
    /// the room has no id left to give, nothing happens.
    pub fn spawn_goblin(&mut self, pos: Vec2<usize>) -> (res: Option<usize>)
        requires
            old(self)@.wf(),
        ensures
            res.is_some() == old(self)@.can_spawn(pos),
            res is None ==> final(self)@ == old(self)@,
            res matches Some(uuid) ==> uuid == old(self)@.next_uuid
                && final(self)@ == old(self)@.with_goblin(pos),
            final(self)@.wf(),
    {
        if self.next_uuid == usize::MAX {
            return None;
        }
        match tile_index(pos, self.size, self.tiles.len()) {
            Some(at) => {
                if self.tiles[at].occupied {
                    return None;
                }
                let uuid = self.next_uuid;
                proof {
                    lemma_with_goblin_wf(old(self)@, pos);
                    assert forall|i: int| 0 <= i < self.entities@.len() implies (
                    #[trigger] self.entities@[i]).0 != uuid by {
                        assert(self@.creature_placed(self@.entities[i]));
                    }
                    assert(!has_id(self.entities@, uuid));
                }
                self.tiles[at].occupied = true;
                self.tiles[at].uuid = uuid;
                self.entities.insert(uuid, Creature::Goblin(Goblin::new(pos)));
                self.next_uuid = uuid + 1;
                proof {
                    assert(self@.tiles =~= old(self)@.with_goblin(pos).tiles);
                    assert(self@.entities =~= old(self)@.with_goblin(pos).entities);
                }
                Some(uuid)
            },
            None => None,
        }
    }

    /// Lets every creature take its turn, in the order of the map, and then
    /// turns the dead into corpses.
    pub fn step(&mut self, player: &mut Player)
        requires
            old(self)@.wf(),
            old(self)@.can_step(old(player)@),
        ensures
            final(self)@ == old(self)@.after_step(old(player)@).0,
            final(player)@ == old(self)@.after_step(old(player)@).1,
            final(self)@.wf(),
            forall|i: int|
                0 <= i < old(self)@.entities.len() && !(#[trigger] old(self)@.entities[i]).1.alive()
                    ==> buried(final(self)@, old(self)@.entities[i].0, old(self)@.entities[i].1.pos()),
            forall|i: int|
                0 <= i < old(self)@.entities.len() && (#[trigger] old(self)@.entities[i]).1.alive()
                    ==> has_id(final(self)@.entities, old(self)@.entities[i].0),
            final(self)@.entities.len() <= old(self)@.entities.len(),
            final(player)@.pos == old(player)@.pos,
            final(player)@.curr_stats.health >= old(player)@.curr_stats.health - old(self)@.max_step_damage(),
    {
        let mut rem: Vec<usize> = Vec::new();
        let count = self.entities.len();
        let mut i: usize = 0;
        while i < count
            invariant
                i <= count,
                count == old(self)@.entities.len(),
                old(self)@.wf(),
                old(self)@.can_step(old(player)@),
                self@ == old(self)@.turns(old(player)@, i as nat).0,
                player@ == old(self)@.turns(old(player)@, i as nat).1,
                rem@ == old(self)@.dead_ids(i as nat),
            decreases count - i,
        {
            proof {
                lemma_turns(old(self)@, old(player)@, i as nat);
                lemma_turn(self@, i as int, player@);
                assert(self@.creature_placed(self@.entities[i as int]));
            }
            let ghost before = self@;
            let ghost hunted = player@;
            let uuid = self.entities.key_at(i);
            if !self.entities.value_at(i).alive() {
                rem.push(uuid);
                match player.target() {
                    Some(target_id) => {
                        if target_id == uuid {
                            player.clear_target();
                        }
                    },
                    None => {},
                }
            } else {
                let curr_pos = *self.entities.value_at(i).position();
                let res = self.entities.value_at_mut(i).update(player, &self.tiles, self.size);
                match res {
                    Some(attack) => {
                        player.receive_attack(&attack);
                    },
                    None => {},
                }
                let new_pos = *self.entities.value_at(i).position();
                proof {
                    let moved = before.entities[i as int].1.after_turn(
                        hunted.pos,
                        before.tiles,
                        before.size,
                    );
                    assert(new_pos == moved.pos());
                    assert(before.turn(i as int, hunted).0.creature_placed(
                        before.turn(i as int, hunted).0.entities[i as int],
                    ));
                }
                let left = index_in(curr_pos, self.size, self.tiles.len());
                let reached = index_in(new_pos, self.size, self.tiles.len());
                self.tiles[left].occupied = false;
                self.tiles[reached].occupied = true;
                self.tiles[reached].uuid = uuid;
                proof {
                    assert(self@.tiles =~= before.turn(i as int, hunted).0.tiles);
                    assert(self@.entities =~= before.turn(i as int, hunted).0.entities);
                }
            }
            i = i + 1;
        }
        proof {
            lemma_turns(old(self)@, old(player)@, count as nat);
        }
        let ghost turned = self@;
        let mut k: usize = 0;
        while k < rem.len()
            invariant
                k <= rem.len(),
                turned.wf(),
                self@ == turned.bury_all(rem@.take(k as int)),
            decreases rem.len() - k,
        {
            proof {
                lemma_bury_all(turned, rem@.take(k as int));
                assert(rem@.take(k + 1).drop_last() =~= rem@.take(k as int));
            }
            self.bury(rem[k]);
            k = k + 1;
        }
        proof {
            assert(rem@.take(rem@.len() as int) =~= rem@);
            lemma_bury_all(turned, rem@);
            assert forall|i: int|
                0 <= i < old(self)@.entities.len() && !(#[trigger] old(self)@.entities[i]).1.alive()
                implies buried(self@, old(self)@.entities[i].0, old(self)@.entities[i].1.pos()) by {
                lemma_step_buries_the_dead(old(self)@, old(player)@, i);
            }
            assert forall|i: int|
                0 <= i < old(self)@.entities.len() && (#[trigger] old(self)@.entities[i]).1.alive()
                implies has_id(self@.entities, old(self)@.entities[i].0) by {
                lemma_step_keeps_the_living(old(self)@, old(player)@, i);
            }
        }
    }

    /// Resolves the player's request to enter `new_pos`. The player strikes
    /// every creature in the way, and each blow is logged. They move if none
    /// of those creatures survived and `new_pos` can be stood on. Returns the
    /// kind of the tile at `new_pos`, whether or not the player moved.
    pub fn handle_player_input(&mut self, player: &mut Player, new_pos: Vec2<usize>, log: &mut Log) -> (id:
        TileType)
        requires
            old(self)@.wf(),
            old(player)@.wf(),
            old(log).wf(),
        ensures
            final(self)@ == old(self)@.after_player_input(old(player)@, new_pos).0,
            final(player)@ == old(self)@.after_player_input(old(player)@, new_pos).1,
            id == old(self)@.tile_type(new_pos),
            final(self)@.tiles == old(self)@.tiles,
            final(self)@.entities.len() == old(self)@.entities.len(),
            final(player)@.curr_stats == old(player)@.curr_stats,
            final(self)@.wf(),
            final(player)@.wf(),
            final(log).wf(),
            final(log).spec_max_size() == old(log).spec_max_size(),
            reports_logged(
                old(log)@,
                final(log)@,
                old(log).spec_max_size(),
                old(player)@.name,
                old(self)@.strike_reports(old(player)@, new_pos, old(self)@.entities.len()),
            ),
    {
        let mut blocked = false;
        let count = self.entities.len();
        let ghost mut times: Seq<(u32, u32, u32)> = Seq::empty();
        let mut i: usize = 0;
        while i < count
            invariant
                i <= count,
                count == old(self)@.entities.len(),
                old(self)@.wf(),
                old(player)@.wf(),
                self@ == old(self)@.strikes(old(player)@, new_pos, i as nat).0,
                player@ == old(self)@.strikes(old(player)@, new_pos, i as nat).1,
                blocked == old(self)@.strikes(old(player)@, new_pos, i as nat).2,
                log.wf(),
                log.spec_max_size() == old(log).spec_max_size(),
                times.len() == old(self)@.strike_reports(old(player)@, new_pos, i as nat).len(),
                forall|k: int| 0 <= k < times.len() ==> time_fits(#[trigger] times[k]),
                log@ == with_reports(
                    old(log)@,
                    old(log).spec_max_size(),
                    old(player)@.name,
                    old(self)@.strike_reports(old(player)@, new_pos, i as nat),
                    times,
                ),
            decreases count - i,
        {
            proof {
                lemma_strikes(old(self)@, old(player)@, new_pos, i as nat);
                assert(self@.creature_placed(self@.entities[i as int]));
                assert(self@.entities[i as int] == old(self)@.entities[i as int]);
            }
            let ghost before = self@;
            let ghost aimed = player@;
            let ghost logged = log@;
            let ghost reports = old(self)@.strike_reports(old(player)@, new_pos, i as nat);
            let uuid = self.entities.key_at(i);
            if self.entities.value_at(i).collision(new_pos) {
                let attack = player.send_attack();
                let result = self.entities.value_at_mut(i).receive_attack(&attack);
                log.log_combat(&*player, &result);
                player.set_target(uuid);
                if result.target_alive {
                    blocked = true;
                }
                proof {
                    assert(attack == old(player)@.attack());
                    assert(self@.entities =~= before.strike(i as int, aimed, new_pos).0.entities);
                    let report = (result.target_alive, result.target_name@);
                    let time = choose|time: (u32, u32, u32)|
                        time_fits(time) && log@ == with_message(
                            logged,
                            old(log).spec_max_size(),
                            #[trigger] combat_text(
                                time.0,
                                time.1,
                                time.2,
                                aimed.name,
                                report.0,
                                report.1,
                            ),
                        );
                    let longer = old(self)@.strike_reports(old(player)@, new_pos, (i + 1) as nat);
                    assert(longer == reports.push(report));
                    assert(longer.drop_last() =~= reports);
                    assert(times.push(time).drop_last() =~= times);
                    times = times.push(time);
                }
            }
            i = i + 1;
        }
        proof {
            lemma_strikes(old(self)@, old(player)@, new_pos, count as nat);
        }
        if !blocked && self.valid_position(new_pos) {
            player.move_player(new_pos);
        }
        self.get_tile_type(new_pos)
    }

    /// Turns the creature `uuid` into a corpse on the tile where it stands.
    fn bury(&mut self, uuid: usize)
        requires
            old(self)@.wf(),
        ensures
            final(self)@ == old(self)@.bury(uuid),
    {
        proof {
            lemma_index_of_id(self.entities@, uuid);
            lemma_index_of_id(self@.entities, uuid);
            lemma_views_keep_ids(self.entities@, uuid);
        }
        match self.entities.remove(uuid) {
            Some(creature) => {
                let pos = *creature.position();
                proof {
                    let at = index_of_id(old(self)@.entities, uuid);
                    assert(old(self)@.creature_placed(old(self)@.entities[at]));
                    lemma_corpse_views_keep_ids(self.corpses@, uuid);
                }
                self.corpses.insert(uuid, Corpse::new(pos));
                let at = index_in(pos, self.size, self.tiles.len());
                self.tiles[at].occupied = false;
                self.tiles[at].corpses.push(uuid);
                proof {
                    assert(self@.tiles =~= old(self)@.bury(uuid).tiles);
                    assert(self@.entities =~= old(self)@.bury(uuid).entities);
                    let held = old(self).corpses@;
                    lemma_index_of_id(held, uuid);
                    lemma_index_of_id(corpse_views(held), uuid);
                    if has_id(held, uuid) {
                        assert(self@.corpses =~= corpse_views(held).update(
                            index_of_id(held, uuid),
                            (uuid, pos),
                        ));
                    } else {
                        assert(self@.corpses =~= corpse_views(held).push((uuid, pos)));
                    }
                    assert(self@.corpses =~= old(self)@.bury(uuid).corpses);
                }
            },
            None => {},
        }
    }
}

/// `first_entrance` finds an entrance of the side exactly when there is
/// one.
pub proof fn lemma_first_entrance(room: RoomView, side: Direction)
    ensures
        0 <= room.first_entrance(side) <= room.entrances.len(),
        room.has_entrance(side) <==> room.first_entrance(side) < room.entrances.len(),
        room.first_entrance(side) < room.entrances.len() ==> room.entrances[room.first_entrance(
            side,
        )].direction == side,
        forall|j: int|
            0 <= j < room.first_entrance(side) ==> (#[trigger] room.entrances[j]).direction != side,
    decreases room.entrances.len(),
{
    if room.entrances.len() == 0 {
    } else if room.entrances[0].direction == side {
    } else {
        let rest = RoomView { entrances: room.entrances.drop_first(), ..room };
        lemma_first_entrance(rest, side);
        let at = rest.first_entrance(side);
        assert forall|j: int| 0 <= j < 1 + at implies (#[trigger] room.entrances[j]).direction
            != side by {
            if j > 0 {
                assert(rest.entrances[j - 1] == room.entrances[j]);
            }
        }
        if room.has_entrance(side) {
            let k = choose|k: int|
                0 <= k < room.entrances.len() && (#[trigger] room.entrances[k]).direction == side;
            assert(rest.entrances[k - 1] == room.entrances[k]);
        }
        if at < rest.entrances.len() {
            assert(rest.entrances[at] == room.entrances[at + 1]);
        }
    }
}

/// A room stays in order when an exit is cut into one of its sides.
pub proof fn lemma_with_exit_wf(room: RoomView, side: Direction, neighbor_id: usize, offset: usize)
    requires
        room.wf(),
        offset_fits(room.size, side, offset),
    ensures
        room.with_exit(side, neighbor_id, offset).wf(),
{
    let after = room.with_exit(side, neighbor_id, offset);
    let exit = exit_position(room.size, side, offset);
    let added = Entrance { location: entrance_position(room.size, side, offset), direction: side };
    lemma_index_in_range(exit, room.size);
    assert(after.entrances[room.entrances.len() as int] == added);
    assert forall|pos: Vec2<usize>| in_bounds(pos, after.size) implies #[trigger] after.tile_fits(
        pos,
    ) by {
        assert(room.tile_fits(pos));
        lemma_index_in_range(pos, room.size);
        if pos == exit {
            assert(after.entrances.contains(added));
        } else {
            if cell_index(pos, room.size.x) == cell_index(exit, room.size.x) {
                lemma_index_injective(pos, exit, room.size);
            }
            assert(after.tile_at(pos) == room.tile_at(pos));
            if let TileType::Exit { exiting_direction, .. } = room.tile_at(pos).id {
                let wanted = Entrance {
                    location: entrance_position(
                        room.size,
                        exiting_direction,
                        offset_along(pos, exiting_direction),
                    ),
                    direction: exiting_direction,
                };
                let k = choose|k: int| 0 <= k < room.entrances.len() && room.entrances[k] == wanted;
                assert(after.entrances[k] == wanted);
            }
        }
    }
    assert forall|k: int| 0 <= k < after.entrances.len() implies after.entrance_fits(
        #[trigger] after.entrances[k],
    ) by {
        let e = after.entrances[k];
        let out = exit_position(room.size, e.direction, offset_along(e.location, e.direction));
        if k < room.entrances.len() {
            assert(room.entrance_fits(room.entrances[k]));
            lemma_index_in_range(out, room.size);
            if cell_index(out, room.size.x) == cell_index(exit, room.size.x) {
                lemma_index_injective(out, exit, room.size);
            }
        }
    }
    assert forall|i: int| 0 <= i < after.entities.len() implies after.creature_placed(
        #[trigger] after.entities[i],
    ) by {
        let pos = room.entities[i].1.pos();
        assert(room.creature_placed(room.entities[i]));
        lemma_index_in_range(pos, room.size);
    }
}

/// A room stays in order when a goblin is put on a free tile.
pub proof fn lemma_with_goblin_wf(room: RoomView, pos: Vec2<usize>)
    requires
        room.wf(),
        room.can_spawn(pos),
    ensures
        room.with_goblin(pos).wf(),
{
    let after = room.with_goblin(pos);
    lemma_index_in_range(pos, room.size);
    assert forall|at: Vec2<usize>| in_bounds(at, after.size) implies #[trigger] after.tile_fits(
        at,
    ) by {
        assert(room.tile_fits(at));
        lemma_index_in_range(at, room.size);
    }
    assert forall|k: int| 0 <= k < after.entrances.len() implies after.entrance_fits(
        #[trigger] after.entrances[k],
    ) by {
        let e = room.entrances[k];
        assert(room.entrance_fits(e));
        lemma_index_in_range(
            exit_position(room.size, e.direction, offset_along(e.location, e.direction)),
            room.size,
        );
    }
    assert forall|i: int| 0 <= i < after.entities.len() implies after.creature_placed(
        #[trigger] after.entities[i],
    ) by {
        if i < room.entities.len() {
            let at = room.entities[i].1.pos();
            assert(room.creature_placed(room.entities[i]));
            lemma_index_in_range(at, room.size);
            if cell_index(at, room.size.x) == cell_index(pos, room.size.x) {
                lemma_index_injective(at, pos, room.size);
            }
        }
    }
    assert forall|i: int, j: int|
        0 <= i < after.entities.len() && 0 <= j < after.entities.len() && i != j implies (
    #[trigger] after.entities[i]).0 != (#[trigger] after.entities[j]).0 by {
        if i < room.entities.len() {
            assert(room.creature_placed(room.entities[i]));
        }
        if j < room.entities.len() {
            assert(room.creature_placed(room.entities[j]));
        }
    }
}

} // verus!

verus! {

/// The creatures of a map and their mathematical values sit under the same
/// ids, at the same places.
pub proof fn lemma_views_keep_ids(entries: Seq<(usize, Creature)>, id: usize)
    ensures
        has_id(entity_views(entries), id) == has_id(entries, id),
        index_of_id(entity_views(entries), id) == index_of_id(entries, id),
    decreases entries.len(),
{
    let views = entity_views(entries);
    if entries.len() > 0 {
        lemma_views_keep_ids(entries.drop_first(), id);
        assert(entity_views(entries.drop_first()) =~= views.drop_first());
    }
    lemma_index_of_id(entries, id);
    lemma_index_of_id(views, id);
}

/// The corpses of a map and their mathematical values sit under the same
/// ids, at the same places.
pub proof fn lemma_corpse_views_keep_ids(entries: Seq<(usize, Corpse)>, id: usize)
    ensures
        has_id(corpse_views(entries), id) == has_id(entries, id),
        index_of_id(corpse_views(entries), id) == index_of_id(entries, id),
    decreases entries.len(),
{
    let views = corpse_views(entries);
    if entries.len() > 0 {
        lemma_corpse_views_keep_ids(entries.drop_first(), id);
        assert(corpse_views(entries.drop_first()) =~= views.drop_first());
    }
    lemma_index_of_id(entries, id);
    lemma_index_of_id(views, id);
}

} // verus!
