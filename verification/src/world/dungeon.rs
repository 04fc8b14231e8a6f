//! A dungeon: floors of linked rooms, one of which the player is in.

use crate::entity::EntityMap;
use crate::log::{reports_logged, Log};
use crate::player::{Player, PlayerView};
use crate::utils::grid::{addressable, in_bounds, lemma_index_in_range};
use crate::utils::random::random_in_range;
use crate::utils::{Graph, Vec2};
use crate::world::dungeon_builder::{
    exit_paired, exits_paired, floor_links, floor_rooms, generated_size, ids_apart, room_of,
    BuilderView, DungeonBuilder, MOST_CREATURES,
};
use crate::world::room::{entity_views, lemma_first_entrance, Room, RoomView};
use crate::world::rules::{
    lemma_entrance_valid, lemma_player_input_keeps_order, lemma_step_keeps_order, same_kinds,
};
use crate::world::{TileType, WorldError};
use vstd::prelude::*;

verus! {

pub struct Dungeon {
    depth: usize,
    active_floor: usize,
    active_room: usize,
    entrance_floor: usize,
    entrance_room: usize,
    floors: Vec<Graph<Room>>,
}

/// A dungeon as a mathematical value.
pub struct DungeonView {
    pub depth: usize,
    /// The floor and the room the player is in.
    pub active_floor: usize,
    pub active_room: usize,
    /// The floor and the room in which a new player starts.
    pub entrance_floor: usize,
    pub entrance_room: usize,
    /// The rooms of each floor, in the order of their graph nodes.
    pub floors: Seq<Seq<RoomView>>,
    /// For each room of each floor, the rooms of that floor it has an edge
    /// to.
    pub links: Seq<Seq<Seq<usize>>>,
}

/// The rooms of a floor as mathematical values.
pub open spec fn floor_view(floor: Graph<Room>) -> Seq<RoomView> {
    floor_rooms(floor)
}

/// What entering a tile does to the place of the player in the dungeon.
pub enum Passage {
    /// The tile is no exit: the player stays in the room.
    Stay,
    /// The tile is an exit to a room that the floor does not have.
    Nowhere,
    /// The tile is an exit to the room `room`, which has an entrance on the
    /// side the player comes in by: the player goes to `arrival`.
    Through { room: usize, arrival: Vec2<usize> },
    /// The tile is an exit to the room `room`, which has no entrance on the
    /// side the player comes in by: the player goes to `arrival`, the tile
    /// on which that room lets a player start.
    Astray { room: usize, arrival: Vec2<usize> },
}

impl DungeonView {
    /// The dungeon is in order: the active room and the entrance room exist,
    /// and every room is in order.
    pub open spec fn wf(self) -> bool {
        &&& self.active_floor < self.floors.len()
        &&& self.active_room < self.floors[self.active_floor as int].len()
        &&& self.entrance_floor < self.floors.len()
        &&& self.entrance_room < self.floors[self.entrance_floor as int].len()
        &&& forall|f: int, r: int|
            0 <= f < self.floors.len() && 0 <= r < self.floors[f].len() ==> (
            #[trigger] self.floors[f][r]).wf()
    }

    /// The room the player is in.
    pub open spec fn active(self) -> RoomView {
        self.floors[self.active_floor as int][self.active_room as int]
    }

    /// The room in which a new player starts.
    pub open spec fn entrance(self) -> RoomView {
        self.floors[self.entrance_floor as int][self.entrance_room as int]
    }

    /// The dungeon with `room` in the place of the active room.
    pub open spec fn with_active(self, room: RoomView) -> DungeonView {
        DungeonView {
            floors: self.floors.update(
                self.active_floor as int,
                self.floors[self.active_floor as int].update(self.active_room as int, room),
            ),
            ..self
        }
    }

    /// Whether on every floor the rooms draw the ids of their creatures from
    /// ranges that lie apart, so that no two creatures or corpses of a floor
    /// share an id.
    pub open spec fn ids_apart(self) -> bool {
        forall|f: int| 0 <= f < self.floors.len() ==> ids_apart(#[trigger] self.floors[f])
    }

    /// Whether every exit of every room leads to a room of its floor that has
    /// an entrance for those who come through it.
    pub open spec fn paired(self) -> bool {
        forall|f: int| 0 <= f < self.floors.len() ==> exits_paired(#[trigger] self.floors[f])
    }

    /// Whether `later` is this dungeon but for the active room.
    pub open spec fn only_active_differs(self, later: DungeonView) -> bool {
        &&& later.depth == self.depth
        &&& later.active_floor == self.active_floor
        &&& later.active_room == self.active_room
        &&& later.entrance_floor == self.entrance_floor
        &&& later.entrance_room == self.entrance_room
        &&& later.floors.len() == self.floors.len()
        &&& forall|f: int|
            0 <= f < self.floors.len()
                ==> (#[trigger] later.floors[f]).len() == self.floors[f].len()
        &&& forall|f: int, r: int|
            0 <= f < self.floors.len() && 0 <= r < self.floors[f].len() && !(f == self.active_floor
                && r == self.active_room) ==> #[trigger] later.floors[f][r] == self.floors[f][r]
        &&& later.links.len() == self.links.len()
        &&& forall|f: int|
            0 <= f < self.links.len() ==> (#[trigger] later.links[f]).len() == self.links[f].len()
        &&& forall|f: int, r: int|
            0 <= f < self.links.len() && 0 <= r < self.links[f].len()
                ==> #[trigger] later.links[f][r] == self.links[f][r]
    }

    /// Whether the first floor is as the generator leaves a floor of up to
    /// ten rooms on a grid of ten by ten cells.
    pub open spec fn freshly_generated(self) -> bool {
        exists|b: BuilderView, g: Graph<Room>|
            {
                &&& #[trigger] b.generated(g)
                &&& b.size == (Vec2 { x: 10usize, y: 10usize })
                &&& b.num_rooms == 10
                &&& b.first_node == 0
                &&& floor_rooms(g) == self.floors[0]
                &&& floor_links(g) == self.links[0]
            }
    }

    /// Whether the player's health stays an `i32` through a step of any room
    /// of the active floor.
    pub open spec fn can_step_anywhere(self, player: PlayerView) -> bool {
        forall|r: int|
            0 <= r < self.floors[self.active_floor as int].len() ==> (
            #[trigger] self.floors[self.active_floor as int][r]).can_step(player)
    }

    /// The dungeon and the player after one step of the active room.
    pub open spec fn after_step(self, player: PlayerView) -> (DungeonView, PlayerView) {
        let (room, hurt) = self.active().after_step(player);
        (self.with_active(room), hurt)
    }

    /// Where a tile of the kind `tile` takes the player.
    pub open spec fn passage(self, tile: TileType) -> Passage {
        match tile {
            TileType::Exit { node_id, exiting_direction } => {
                if node_id < self.floors[self.active_floor as int].len() {
                    let there = self.floors[self.active_floor as int][node_id as int];
                    let side = exiting_direction.inverted();
                    if there.has_entrance(side) {
                        Passage::Through {
                            room: node_id,
                            arrival: there.entrances[there.first_entrance(side)].location,
                        }
                    } else {
                        Passage::Astray { room: node_id, arrival: there.init_pos }
                    }
                } else {
                    Passage::Nowhere
                }
            },
            _ => Passage::Stay,
        }
    }

    /// The dungeon and the player after the player asked to enter
    /// `new_pos`, and where that took them. The active room resolves the
    /// request. If the tile at `new_pos` is an exit, the room it leads to
    /// becomes the active room, and the player is put on its entrance on the
    /// side opposite to the one they left by.
    pub open spec fn after_player_input(self, player: PlayerView, new_pos: Vec2<usize>) -> (
        DungeonView,
        PlayerView,
        Passage,
    ) {
        let (room, moved) = self.active().after_player_input(player, new_pos);
        let settled = self.with_active(room);
        let passage = settled.passage(self.active().tile_type(new_pos));
        match passage {
            Passage::Through { room, arrival } | Passage::Astray { room, arrival } => (
                DungeonView { active_room: room, ..settled },
                moved.moved_to(arrival),
                passage,
            ),
            _ => (settled, moved, passage),
        }
    }
}

impl View for Dungeon {
    type V = DungeonView;

    closed spec fn view(&self) -> DungeonView {
        DungeonView {
            depth: self.depth,
            active_floor: self.active_floor,
            active_room: self.active_room,
            entrance_floor: self.entrance_floor,
            entrance_room: self.entrance_room,
            floors: Seq::new(self.floors@.len(), |f: int| floor_view(self.floors@[f])),
            links: Seq::new(self.floors@.len(), |f: int| floor_links(self.floors@[f])),
        }
    }
}

/// The step of the active room leaves the dungeon in order.
pub proof fn lemma_dungeon_step(dungeon: DungeonView, player: PlayerView)
    requires
        dungeon.wf(),
    ensures
        dungeon.after_step(player).0.wf(),
        dungeon.ids_apart() ==> dungeon.after_step(player).0.ids_apart(),
        dungeon.paired() ==> dungeon.after_step(player).0.paired(),
        dungeon.after_step(player).1.pos == player.pos,
        player.wf() ==> dungeon.after_step(player).1.wf(),
{
    lemma_step_keeps_order(dungeon.active(), player);
    let after = dungeon.after_step(player).0;
    assert forall|f: int, r: int|
        0 <= f < after.floors.len() && 0 <= r < after.floors[f].len() implies (
    #[trigger] after.floors[f][r]).wf() by {
        if f != dungeon.active_floor || r != dungeon.active_room {
            assert(dungeon.floors[f][r].wf());
        }
    }
    if dungeon.ids_apart() {
        lemma_same_ranges_apart(dungeon, after);
    }
    if dungeon.paired() {
        assert forall|f: int, r: int|
            0 <= f < dungeon.floors.len() && 0 <= r < dungeon.floors[f].len() implies {
            &&& (#[trigger] after.floors[f][r]).size == dungeon.floors[f][r].size
            &&& same_kinds(dungeon.floors[f][r].tiles, after.floors[f][r].tiles)
            &&& after.floors[f][r].entrances == dungeon.floors[f][r].entrances
        } by {}
        lemma_same_tiles_paired(dungeon, after);
    }
}

/// The exits stay paired with entrances in a dungeon whose rooms have the
/// size, the kinds of tiles and the entrances of the rooms of a dungeon in
/// which they are.
pub proof fn lemma_same_tiles_paired(dungeon: DungeonView, after: DungeonView)
    requires
        dungeon.wf(),
        dungeon.paired(),
        after.floors.len() == dungeon.floors.len(),
        forall|f: int|
            0 <= f < dungeon.floors.len() ==> (#[trigger] after.floors[f]).len()
                == dungeon.floors[f].len(),
        forall|f: int, r: int|
            0 <= f < dungeon.floors.len() && 0 <= r < dungeon.floors[f].len() ==> {
                &&& (#[trigger] after.floors[f][r]).size == dungeon.floors[f][r].size
                &&& same_kinds(dungeon.floors[f][r].tiles, after.floors[f][r].tiles)
                &&& after.floors[f][r].entrances == dungeon.floors[f][r].entrances
            },
    ensures
        after.paired(),
{
    assert forall|f: int| 0 <= f < after.floors.len() implies exits_paired(
        #[trigger] after.floors[f],
    ) by {
        let rooms = dungeon.floors[f];
        let later = after.floors[f];
        assert(exits_paired(rooms));
        assert forall|r: int, pos: Vec2<usize>|
            0 <= r < later.len() && in_bounds(pos, later[r].size) implies #[trigger] exit_paired(
            later,
            r,
            pos,
        ) by {
            assert(exit_paired(rooms, r, pos));
            assert(rooms[r].wf());
            lemma_index_in_range(pos, rooms[r].size);
            if let TileType::Exit { node_id, exiting_direction } = later[r].tile_at(pos).id {
                assert(rooms[r].tile_at(pos).id == later[r].tile_at(pos).id);
                let there = rooms[node_id as int];
                let side = exiting_direction.inverted();
                let k = choose|k: int|
                    0 <= k < there.entrances.len() && (#[trigger] there.entrances[k]).direction
                        == side;
                assert(later[node_id as int].entrances[k].direction == side);
            }
        }
    }
}

/// The ranges of ids lie apart in a dungeon whose rooms have the ranges of
/// the rooms of a dungeon in which they do.
pub proof fn lemma_same_ranges_apart(dungeon: DungeonView, after: DungeonView)
    requires
        dungeon.ids_apart(),
        after.floors.len() == dungeon.floors.len(),
        forall|f: int|
            0 <= f < dungeon.floors.len() ==> (#[trigger] after.floors[f]).len()
                == dungeon.floors[f].len(),
        forall|f: int, r: int|
            0 <= f < dungeon.floors.len() && 0 <= r < dungeon.floors[f].len() ==> (
            #[trigger] after.floors[f][r]).first_uuid == dungeon.floors[f][r].first_uuid
                && after.floors[f][r].next_uuid == dungeon.floors[f][r].next_uuid,
    ensures
        after.ids_apart(),
{
    assert forall|f: int| 0 <= f < after.floors.len() implies ids_apart(
        #[trigger] after.floors[f],
    ) by {
        assert(ids_apart(dungeon.floors[f]));
        assert forall|j: int, k: int| 0 <= j < k < after.floors[f].len() implies (
        #[trigger] after.floors[f][j]).next_uuid <= (#[trigger] after.floors[f][k]).first_uuid by {
            assert(dungeon.floors[f][j].next_uuid <= dungeon.floors[f][k].first_uuid);
        }
    }
}

/// The player's request to enter a tile leaves the dungeon in order, and the
/// player on a tile of the active room on which they can stand, if they
/// stood on one before.
pub proof fn lemma_dungeon_player_input(
    dungeon: DungeonView,
    player: PlayerView,
    new_pos: Vec2<usize>,
)
    requires
        dungeon.wf(),
    ensures
        dungeon.after_player_input(player, new_pos).0.wf(),
        dungeon.ids_apart() ==> dungeon.after_player_input(player, new_pos).0.ids_apart(),
        dungeon.paired() ==> dungeon.after_player_input(player, new_pos).0.paired(),
        dungeon.paired() ==> dungeon.after_player_input(player, new_pos).2 is Stay
            || dungeon.after_player_input(player, new_pos).2 is Through,
        dungeon.after_player_input(player, new_pos).0.floors.len() == dungeon.floors.len(),
        dungeon.after_player_input(player, new_pos).0.active_floor == dungeon.active_floor,
        dungeon.after_player_input(player, new_pos).0.floors[dungeon.active_floor as int].len()
            == dungeon.floors[dungeon.active_floor as int].len(),
        forall|r: int|
            0 <= r < dungeon.floors[dungeon.active_floor as int].len() ==> (
            #[trigger] dungeon.after_player_input(
                player,
                new_pos,
            ).0.floors[dungeon.active_floor as int][r]).entities.len()
                == dungeon.floors[dungeon.active_floor as int][r].entities.len(),
        dungeon.after_player_input(player, new_pos).1.curr_stats == player.curr_stats,
        player.wf() ==> dungeon.after_player_input(player, new_pos).1.wf(),
        dungeon.active().valid_position(player.pos) || !(dungeon.after_player_input(
            player,
            new_pos,
        ).2 is Stay || dungeon.after_player_input(player, new_pos).2 is Nowhere)
            ==> dungeon.after_player_input(player, new_pos).0.active().valid_position(
            dungeon.after_player_input(player, new_pos).1.pos,
        ),
{
    lemma_player_input_keeps_order(dungeon.active(), player, new_pos);
    let (room, moved) = dungeon.active().after_player_input(player, new_pos);
    let settled = dungeon.with_active(room);
    let after = dungeon.after_player_input(player, new_pos).0;
    assert forall|f: int, r: int|
        0 <= f < after.floors.len() && 0 <= r < after.floors[f].len() implies (
    #[trigger] after.floors[f][r]).wf() by {
        if f != dungeon.active_floor || r != dungeon.active_room {
            assert(dungeon.floors[f][r].wf());
        }
    }
    if dungeon.ids_apart() {
        lemma_same_ranges_apart(dungeon, after);
    }
    if dungeon.paired() {
        assert forall|f: int, r: int|
            0 <= f < dungeon.floors.len() && 0 <= r < dungeon.floors[f].len() implies {
            &&& (#[trigger] after.floors[f][r]).size == dungeon.floors[f][r].size
            &&& same_kinds(dungeon.floors[f][r].tiles, after.floors[f][r].tiles)
            &&& after.floors[f][r].entrances == dungeon.floors[f][r].entrances
        } by {}
        lemma_same_tiles_paired(dungeon, after);
        assert(exits_paired(dungeon.floors[dungeon.active_floor as int]));
        if addressable(new_pos, dungeon.active().size, dungeon.active().tiles.len()) {
            assert(exit_paired(
                dungeon.floors[dungeon.active_floor as int],
                dungeon.active_room as int,
                new_pos,
            ));
        }
    }
    assert(room.valid_position(player.pos) == dungeon.active().valid_position(player.pos));
    assert(room.valid_position(new_pos) == dungeon.active().valid_position(new_pos));
    match dungeon.active().tile_type(new_pos) {
        TileType::Exit { node_id, exiting_direction } => {
            if node_id < settled.floors[settled.active_floor as int].len() {
                let there = settled.floors[settled.active_floor as int][node_id as int];
                let side = exiting_direction.inverted();
                assert(there.wf());
                if there.has_entrance(side) {
                    lemma_first_entrance(there, side);
                    lemma_entrance_valid(there, there.first_entrance(side));
                } else {
                    assert(there.tile_fits(there.init_pos));
                    crate::utils::grid::lemma_index_in_range(there.init_pos, there.size);
                }
            }
        },
        _ => {},
    }
}

impl Dungeon {
    /// Generates a dungeon of one floor: up to ten rooms on a grid of ten by
    /// ten cells, around a start cell drawn at random. The player starts in
    /// the start cell's room.
    pub fn new(depth: usize) -> (dungeon: Dungeon)
        ensures
            dungeon@.wf(),
            dungeon@.depth == depth,
            dungeon@.active_floor == 0,
            dungeon@.active_room == 0,
            dungeon@.entrance_floor == 0,
            dungeon@.entrance_room == 0,
            dungeon@.floors.len() == 1,
            dungeon@.floors[0].len() == 10,
            dungeon@.links.len() == 1,
            dungeon@.freshly_generated(),
            dungeon@.ids_apart(),
            dungeon@.paired(),
            forall|r: int|
                0 <= r < 10 ==> 1 <= (#[trigger] dungeon@.floors[0][r]).entities.len()
                    < MOST_CREATURES && generated_size(dungeon@.floors[0][r].size),
    {
        let start = Vec2::new(random_in_range(0, 10), random_in_range(0, 10));
        let mut floor: Graph<Room> = Graph::new();
        let mut grid = DungeonBuilder::new(start, Vec2::new(10, 10), 10);
        grid.build_floor(&mut floor);
        let ghost generator = grid@;
        let ghost rooms = floor;
        proof {
            assert(generator.linked(rooms));
            assert(generator.generated(rooms));
        }
        let dungeon = Dungeon::with_floor(depth, floor);
        proof {
            assert(dungeon@.floors[0] == floor_rooms(rooms));
            assert(dungeon@.links[0] == floor_links(rooms));
        }
        dungeon
    }

    /// Makes a dungeon of the one floor `floor`. The player starts in the
    /// room of node 0.
    pub fn with_floor(depth: usize, floor: Graph<Room>) -> (dungeon: Dungeon)
        requires
            floor@.len() >= 1,
            forall|id: int| 0 <= id < floor@.len() ==> (#[trigger] room_of(floor, id)).wf(),
        ensures
            dungeon@ == (DungeonView {
                depth,
                active_floor: 0,
                active_room: 0,
                entrance_floor: 0,
                entrance_room: 0,
                floors: seq![floor_view(floor)],
                links: seq![floor_links(floor)],
            }),
            dungeon@.wf(),
    {
        let mut floors: Vec<Graph<Room>> = Vec::new();
        floors.push(floor);
        let dungeon = Dungeon {
            depth,
            active_room: 0,
            active_floor: 0,
            entrance_floor: 0,
            entrance_room: 0,
            floors,
        };
        proof {
            assert(dungeon@.floors =~= seq![floor_view(floor)]);
            assert(dungeon@.links =~= seq![floor_links(floor)]);
        }
        dungeon
    }

    /// The room `room` of the floor `floor`.
    pub fn get_room(&self, floor: usize, room: usize) -> (res: Result<&Room, WorldError>)
        ensures
            res.is_ok() == (floor < self@.floors.len() && room < self@.floors[floor as int].len()),
            res matches Ok(found) ==> found@ == self@.floors[floor as int][room as int],
            res matches Err(e) ==> e == WorldError::InvalidRoomReference,
    {
        if floor < self.floors.len() {
            match self.floors[floor].get(room) {
                Some(node) => Ok(node.data()),
                None => Err(WorldError::InvalidRoomReference),
            }
        } else {
            Err(WorldError::InvalidRoomReference)
        }
    }

    pub fn active_room(&self) -> (room: &Room)
        requires
            self@.wf(),
        ensures
            room@ == self@.active(),
    {
        match self.floors[self.active_floor].get(self.active_room) {
            Some(node) => node.data(),
            None => {
                assert(false);
                vstd::pervasive::unreached()
            },
        }
    }

    /// The floor the player is on.
    pub fn active_floor_id(&self) -> (id: usize)
        ensures
            id == self@.active_floor,
    {
        self.active_floor
    }

    /// The number of rooms on the floor `floor`; none on a floor that the
    /// dungeon does not have.
    pub fn rooms_on_floor(&self, floor: usize) -> (count: usize)
        ensures
            floor < self@.floors.len() ==> count == self@.floors[floor as int].len(),
            floor >= self@.floors.len() ==> count == 0,
    {
        if floor < self.floors.len() {
            self.floors[floor].len()
        } else {
            0
        }
    }

    pub fn active_room_id(&self) -> (id: usize)
        ensures
            id == self@.active_room,
    {
        self.active_room
    }

    /// The tile on which a new player starts.
    pub fn starting_position(&self) -> (pos: Vec2<usize>)
        requires
            self@.wf(),
        ensures
            pos == self@.entrance().init_pos,
    {
        match self.floors[self.entrance_floor].get(self.entrance_room) {
            Some(node) => node.data().initial_position(),
            None => {
                assert(false);
                vstd::pervasive::unreached()
            },
        }
    }

    pub fn valid_position(&self, pos: Vec2<usize>) -> (valid: bool)
        requires
            self@.wf(),
        ensures
            valid == self@.active().valid_position(pos),
    {
        self.active_room().valid_position(pos)
    }

    pub fn get_entities(&self) -> (entities: &EntityMap)
        requires
            self@.wf(),
        ensures
            entity_views(entities@) == self@.active().entities,
    {
        self.active_room().get_entities()
    }

    /// Lends out the creatures of the active room. Whoever changes them
    /// answers for the order of the room.
    pub fn get_mut_entities(&mut self) -> (entities: &mut EntityMap)
        requires
            old(self)@.wf(),
        ensures
            entity_views(entities@) == old(self)@.active().entities,
            old(self)@.only_active_differs(final(self)@),
            final(self)@.active() == (RoomView {
                entities: entity_views(final(entities)@),
                ..old(self)@.active()
            }),
    {
        let floorid = self.active_floor;
        let roomid = self.active_room;
        match self.floors[floorid].get_mut(roomid) {
            Some(node) => {
                node.data_mut().get_mut_entities()
            },
            None => {
                assert(false);
                vstd::pervasive::unreached()
            },
        }
    }

    /// Lets the creatures of the active room take their turns.
    pub fn step(&mut self, player: &mut Player)
        requires
            old(self)@.wf(),
            old(self)@.active().can_step(old(player)@),
        ensures
            final(self)@ == old(self)@.after_step(old(player)@).0,
            final(player)@ == old(self)@.after_step(old(player)@).1,
            final(self)@.wf(),
            old(self)@.ids_apart() ==> final(self)@.ids_apart(),
            old(self)@.paired() ==> final(self)@.paired(),
    {
        let floorid = self.active_floor;
        let roomid = self.active_room;
        match self.floors[floorid].get_mut(roomid) {
            Some(node) => {
                node.data_mut().step(player);
            },
            None => {},
        }
        proof {
            lemma_dungeon_step(old(self)@, old(player)@);
            let after = old(self)@.after_step(old(player)@).0;
            assert(self@.floors[floorid as int] =~= after.floors[floorid as int]);
            assert(self@.floors =~= after.floors);
            assert(self@.links[floorid as int] =~= after.links[floorid as int]);
            assert(self@.links =~= after.links);
        }
    }

    /// Resolves the player's request to enter `new_pos` in the active room,
    /// and takes the player to the next room if the tile there is an exit.
    /// An exit to a room that the floor does not have is reported as
    /// `InvalidRoomReference`, and the player stays in the room. Where the
    /// next room has no entrance on the side the player comes in by, the
    /// player is put on the tile on which that room lets a player start, and
    /// `NoMatchingEntrance` is reported.
    pub fn handle_player_input(
        &mut self,
        player: &mut Player,
        new_pos: Vec2<usize>,
        log: &mut Log,
    ) -> (res: Result<(), WorldError>)
        requires
            old(self)@.wf(),
            old(player)@.wf(),
            old(log).wf(),
        ensures
            final(self)@ == old(self)@.after_player_input(old(player)@, new_pos).0,
            final(player)@ == old(self)@.after_player_input(old(player)@, new_pos).1,
            res == (match old(self)@.after_player_input(old(player)@, new_pos).2 {
                Passage::Nowhere => Err::<(), WorldError>(WorldError::InvalidRoomReference),
                Passage::Astray { .. } => Err::<(), WorldError>(WorldError::NoMatchingEntrance),
                _ => Ok::<(), WorldError>(()),
            }),
            final(self)@.wf(),
            old(self)@.ids_apart() ==> final(self)@.ids_apart(),
            old(self)@.paired() ==> final(self)@.paired() && res is Ok,
            final(player)@.wf(),
            final(log).wf(),
            final(log).spec_max_size() == old(log).spec_max_size(),
            reports_logged(
                old(log)@,
                final(log)@,
                old(log).spec_max_size(),
                old(player)@.name,
                old(self)@.active().strike_reports(
                    old(player)@,
                    new_pos,
                    old(self)@.active().entities.len(),
                ),
            ),
    {
        let floorid = self.active_floor;
        let roomid = self.active_room;
        let mut cell_type = TileType::Wall;
        match self.floors[floorid].get_mut(roomid) {
            Some(node) => {
                cell_type = node.data_mut().handle_player_input(player, new_pos, log);
            },
            None => {},
        }
        proof {
            lemma_dungeon_player_input(old(self)@, old(player)@, new_pos);
            let (room, moved) = old(self)@.active().after_player_input(old(player)@, new_pos);
            let settled = old(self)@.with_active(room);
            assert(self@.floors[floorid as int] =~= settled.floors[floorid as int]);
            assert(self@.floors =~= settled.floors);
            assert(self@.links[floorid as int] =~= settled.links[floorid as int]);
            assert(self@.links =~= settled.links);
        }
        match cell_type {
            TileType::Exit { node_id, exiting_direction } => {
                let mut entering_direction = exiting_direction;
                entering_direction.invert();
                let found = match self.floors[floorid].get(node_id) {
                    Some(node) => {
                        match node.data().entering_position(entering_direction) {
                            Ok(pos) => Some((pos, true)),
                            Err(_) => Some((node.data().initial_position(), false)),
                        }
                    },
                    None => None,
                };
                match found {
                    Some((pos, matched)) => {
                        self.active_room = node_id;
                        player.move_player(pos);
                        if matched {
                            Ok(())
                        } else {
                            Err(WorldError::NoMatchingEntrance)
                        }
                    },
                    None => Err(WorldError::InvalidRoomReference),
                }
            },
            _ => Ok(()),
        }
    }
}

} // verus!
