//! The generator of a dungeon floor.
//!
//! It works on a grid of cells in two passes. The first walks from the start
//! cell in random directions and marks cells until the budget of rooms is
//! used up. The second walks over the marked cells, makes a room for each,
//! and links every room with the rooms of the marked cells next to it: an
//! edge in the graph, and an exit in the wall that faces the neighbour.

use crate::utils::count::{
    count_where, lemma_count_all, lemma_count_below, lemma_count_bounded, lemma_count_monotone,
    lemma_count_none, lemma_count_some, lemma_count_update,
};
use crate::utils::grid::{
    cell_index, in_bounds, index_in, lemma_index_in_range, lemma_index_injective,
    lemma_position_of, position_of,
};
use crate::utils::random::random_in_range;
use crate::utils::text::{decimal, push_decimal};
use crate::utils::{Graph, Vec2};
use crate::world::room::{offset_fits, spawn_budget, Room, RoomView};
use crate::world::rules::{
    lemma_exit_has_entrance, lemma_no_entrances_no_exits, lemma_with_exit_exits,
};
use crate::world::Direction;
use vstd::prelude::*;
use vstd::string::StringExecFns;

verus! {

/// A cell of the generator's grid.
#[derive(Debug, Copy, Clone, PartialEq, Eq, Structural)]
pub struct GridElement {
    /// Whether the first pass marked the cell.
    pub has_room: bool,
    /// Whether the second pass made the cell's room.
    pub filled: bool,
    /// The graph node of the cell's room, once it is made.
    pub node: usize,
    /// The cell's place in the grid.
    pub left_corner: Vec2<usize>,
}

impl GridElement {
    pub fn new(left_corner: Vec2<usize>) -> (cell: GridElement)
        ensures
            cell == (GridElement { has_room: false, filled: false, node: 0, left_corner }),
    {
        GridElement { has_room: false, filled: false, node: 0, left_corner }
    }
}

pub struct DungeonBuilder {
    size: Vec2<usize>,
    num_rooms: usize,
    room_ct: usize,
    start_cell: Vec2<usize>,
    grid: Vec<GridElement>,
    next_uuid: usize,
    first_node: usize,
}

/// The number that the creatures of a generated room stay below.
pub const MOST_CREATURES: usize = 61;

/// The generator as a mathematical value.
pub struct BuilderView {
    pub size: Vec2<usize>,
    pub num_rooms: usize,
    pub room_ct: usize,
    pub start_cell: Vec2<usize>,
    pub grid: Seq<GridElement>,
    /// The id that the first creature of the next room gets.
    pub next_uuid: usize,
    /// The number of nodes that the graph had when the floor was begun: the
    /// node of the first room of the floor.
    pub first_node: usize,
}

impl View for DungeonBuilder {
    type V = BuilderView;

    closed spec fn view(&self) -> BuilderView {
        BuilderView {
            size: self.size,
            num_rooms: self.num_rooms,
            room_ct: self.room_ct,
            start_cell: self.start_cell,
            grid: self.grid@,
            next_uuid: self.next_uuid,
            first_node: self.first_node,
        }
    }
}

/// Whether a cell is marked.
pub open spec fn is_marked() -> spec_fn(GridElement) -> bool {
    |cell: GridElement| cell.has_room
}

/// Whether a cell has its room.
pub open spec fn is_filled() -> spec_fn(GridElement) -> bool {
    |cell: GridElement| cell.filled
}

/// Whether a cell is marked and still waits for its room.
pub open spec fn is_waiting() -> spec_fn(GridElement) -> bool {
    |cell: GridElement| cell.has_room && !cell.filled
}

impl BuilderView {
    /// The cell at `pos`.
    pub open spec fn cell(self, pos: Vec2<usize>) -> GridElement {
        self.grid[cell_index(pos, self.size.x)]
    }

    /// The cell next to `pos` in the direction `d`, if the grid has one.
    pub open spec fn neighbor(self, pos: Vec2<usize>, d: Direction) -> Option<Vec2<usize>> {
        let (x, y) = d.applied(pos);
        if 0 <= x < self.size.x && 0 <= y < self.size.y {
            Some(Vec2 { x: x as usize, y: y as usize })
        } else {
            None
        }
    }

    /// The grid before the first pass: a cell for every position, none
    /// marked.
    pub open spec fn blank(start: Vec2<usize>, size: Vec2<usize>, num_rooms: usize) -> BuilderView {
        BuilderView {
            size,
            num_rooms,
            room_ct: 0,
            start_cell: start,
            grid: Seq::new(
                (size.x * size.y) as nat,
                |i: int|
                    GridElement {
                        has_room: false,
                        filled: false,
                        node: 0,
                        left_corner: Vec2 {
                            x: (i % (size.x as int)) as usize,
                            y: (i / (size.x as int)) as usize,
                        },
                    },
            ),
            next_uuid: 0,
            first_node: 0,
        }
    }

    /// The generator is in order: the grid has a cell for every position,
    /// the count of marked cells is right and within the budget, and only
    /// marked cells have rooms.
    pub open spec fn wf(self) -> bool {
        &&& self.grid.len() == self.size.x * self.size.y
        &&& MOST_CREATURES * self.grid.len() <= usize::MAX
        &&& in_bounds(self.start_cell, self.size)
        &&& self.room_ct == count_where(self.grid, is_marked())
        &&& self.room_ct <= self.num_rooms
        &&& forall|i: int| 0 <= i < self.grid.len() ==> (#[trigger] self.grid[i]).filled
            ==> self.grid[i].has_room
    }

    /// Whether every cell of the grid next to the cell at `pos` is marked.
    pub open spec fn hemmed_in(self, pos: Vec2<usize>) -> bool {
        forall|d: Direction|
            (#[trigger] self.neighbor(pos, d)) is Some ==> self.cell(
                self.neighbor(pos, d).unwrap(),
            ).has_room
    }

    /// Whether the cells at `p` and `q` lie next to each other.
    pub open spec fn next_to(self, p: Vec2<usize>, q: Vec2<usize>) -> bool {
        exists|d: Direction| #[trigger] self.neighbor(p, d) == Some(q)
    }

    /// Whether `path` is a walk over marked cells, each next to the one
    /// before.
    pub open spec fn is_path(self, path: Seq<Vec2<usize>>) -> bool {
        &&& path.len() >= 1
        &&& forall|i: int|
            0 <= i < path.len() ==> in_bounds(#[trigger] path[i], self.size) && self.cell(
                path[i],
            ).has_room
        &&& forall|i: int| 0 <= i < path.len() - 1 ==> self.next_to(#[trigger] path[i], path[i + 1])
    }

    /// Whether a walk over marked cells leads from `from` to `to`.
    pub open spec fn joined(self, from: Vec2<usize>, to: Vec2<usize>) -> bool {
        exists|path: Seq<Vec2<usize>>| #[trigger]
            self.is_path(path) && path[0] == from && path.last() == to
    }

    /// Whether the generator has not begun its work: no cell is marked or
    /// has a room, and no id is given out.
    pub open spec fn untouched(self) -> bool {
        &&& self.next_uuid == 0
        &&& forall|i: int|
            0 <= i < self.grid.len() ==> !(#[trigger] self.grid[i]).filled && !self.grid[i].has_room
    }

    /// Whether `later` is this generator after some more marking: the same
    /// grid but for cells that are marked now.
    pub open spec fn marked_on(self, later: BuilderView) -> bool {
        &&& later.size == self.size
        &&& later.num_rooms == self.num_rooms
        &&& later.start_cell == self.start_cell
        &&& later.next_uuid == self.next_uuid
        &&& later.first_node == self.first_node
        &&& later.grid.len() == self.grid.len()
        &&& forall|i: int|
            0 <= i < self.grid.len() ==> {
                &&& (#[trigger] later.grid[i]).filled == self.grid[i].filled
                &&& later.grid[i].node == self.grid[i].node
                &&& later.grid[i].left_corner == self.grid[i].left_corner
                &&& self.grid[i].has_room ==> later.grid[i].has_room
            }
    }
}

impl DungeonBuilder {
    /// Lays out a grid of the given size on which nothing is marked yet.
    pub fn new(start: Vec2<usize>, size: Vec2<usize>, num_rooms: usize) -> (builder: DungeonBuilder)
        requires
            in_bounds(start, size),
            MOST_CREATURES * (size.x * size.y) <= usize::MAX,
        ensures
            builder@ == BuilderView::blank(start, size, num_rooms),
            builder@.wf(),
            builder@.untouched(),
    {
        let mut grid: Vec<GridElement> = Vec::new();
        let count = size.x * size.y;
        let mut i: usize = 0;
        while i < count
            invariant
                i <= count,
                count == size.x * size.y,
                size.x > 0,
                grid@.len() == i,
                forall|j: int|
                    0 <= j < i ==> #[trigger] grid@[j] == BuilderView::blank(
                        start,
                        size,
                        num_rooms,
                    ).grid[j],
                count_where(grid@, is_marked()) == 0,
            decreases count - i,
        {
            let x = i % size.x;
            let y = i / size.x;
            let ghost before = grid@;
            grid.push(GridElement::new(Vec2::new(x, y)));
            proof {
                assert(grid@.drop_last() =~= before);
            }
            i = i + 1;
        }
        let builder = DungeonBuilder {
            size,
            num_rooms,
            room_ct: 0,
            start_cell: start,
            grid,
            next_uuid: 0,
            first_node: 0,
        };
        proof {
            assert(builder@.grid =~= BuilderView::blank(start, size, num_rooms).grid);
        }
        builder
    }

    /// The number of cells that are marked.
    pub fn room_count(&self) -> (n: usize)
        ensures
            n == self@.room_ct,
    {
        self.room_ct
    }

    /// The size of the grid.
    pub fn size(&self) -> (size: Vec2<usize>)
        ensures
            size == self@.size,
    {
        self.size
    }

    /// The cell at `location`.
    pub fn get_cell(&self, location: Vec2<usize>) -> (cell: &GridElement)
        requires
            self@.grid.len() == self@.size.x * self@.size.y,
            in_bounds(location, self@.size),
        ensures
            *cell == self@.cell(location),
    {
        &self.grid[index_in(location, self.size, self.grid.len())]
    }

    /// Draws one of the four directions, each as likely as the others.
    fn get_rand_direction(&self) -> (d: Direction)
        ensures
            exists|drawn: usize| 1 <= drawn <= 4 && d == #[trigger] Direction::from_index(drawn),
    {
        let drawn = random_in_range(1, 5);
        Direction::get_direction(drawn)
    }

    /// The first pass from `location` on: marks the cell, unless it is
    /// marked, off the grid, or the budget is used up, and walks on from it
    /// in every direction, starting with one drawn at random, while budget
    /// is left.
    fn build_room(&mut self, location: Vec2<usize>)
        requires
            old(self)@.wf(),
        ensures
            final(self)@.wf(),
            old(self)@.marked_on(final(self)@),
            in_bounds(location, old(self)@.size) && old(self)@.room_ct < old(self)@.num_rooms
                ==> final(self)@.cell(location).has_room,
            forall|pos: Vec2<usize>|
                in_bounds(pos, old(self)@.size) && final(self)@.cell(pos).has_room
                    && !old(self)@.cell(
                    pos,
                ).has_room ==> #[trigger] final(self)@.joined(location, pos),
            final(self)@.room_ct < final(self)@.num_rooms ==> forall|pos: Vec2<usize>|
                in_bounds(pos, old(self)@.size) && final(self)@.cell(pos).has_room
                    && !old(self)@.cell(
                    pos,
                ).has_room ==> #[trigger] final(self)@.hemmed_in(pos),
        decreases old(self)@.grid.len() - old(self)@.room_ct,
    {
        if self.room_ct == self.num_rooms || location.x >= self.size.x || location.y
            >= self.size.y {
            return ;
        }
        if self.get_cell(location).has_room {
            return ;
        }
        proof {
            lemma_index_in_range(location, self.size);
            lemma_count_below(self.grid@, is_marked(), cell_index(location, self.size.x));
            lemma_count_update(
                self.grid@,
                is_marked(),
                cell_index(location, self.size.x),
                GridElement { has_room: true, ..self.grid@[cell_index(location, self.size.x)] },
            );
        }
        let at = index_in(location, self.size, self.grid.len());
        self.grid[at].has_room = true;
        self.room_ct = self.room_ct + 1;
        assert(self.grid@ =~= old(self).grid@.update(
            at as int,
            GridElement { has_room: true, ..old(self).grid@[at as int] },
        ));
        proof {
            assert forall|pos: Vec2<usize>|
                in_bounds(pos, self@.size) && self@.cell(pos).has_room && !old(self)@.cell(
                    pos,
                ).has_room implies #[trigger] self@.joined(location, pos) by {
                lemma_index_in_range(pos, self.size);
                if cell_index(pos, self.size.x) == at {
                    lemma_index_injective(pos, location, self.size);
                }
                lemma_joined_self(self@, location);
            }
            assert forall|pos: Vec2<usize>|
                in_bounds(pos, self@.size) && self@.cell(pos).has_room && !old(self)@.cell(
                    pos,
                ).has_room implies pos == location by {
                lemma_index_in_range(pos, self.size);
                if cell_index(pos, self.size.x) == at {
                    lemma_index_injective(pos, location, self.size);
                }
            }
        }

        let mut direction = self.get_rand_direction();
        let ghost first = direction;
        let mut iterations: usize = 0;
        while iterations < 4 && self.room_ct != self.num_rooms
            invariant
                iterations <= 4,
                direction == turned(first, iterations as int),
                self@.room_ct < self@.num_rooms ==> forall|k: int|
                    0 <= k < iterations && (#[trigger] self@.neighbor(
                        location,
                        turned(first, k),
                    )) is Some ==> self@.cell(
                        self@.neighbor(location, turned(first, k)).unwrap(),
                    ).has_room,
                self@.room_ct < self@.num_rooms ==> forall|pos: Vec2<usize>|
                    in_bounds(pos, self@.size) && self@.cell(pos).has_room && !old(self)@.cell(
                        pos,
                    ).has_room && pos != location ==> #[trigger] self@.hemmed_in(pos),
                self@.wf(),
                old(self)@.marked_on(self@),
                self@.cell(location).has_room,
                in_bounds(location, self@.size),
                self@.room_ct > old(self)@.room_ct,
                forall|pos: Vec2<usize>|
                    in_bounds(pos, self@.size) && self@.cell(pos).has_room && !old(self)@.cell(
                        pos,
                    ).has_room ==> #[trigger] self@.joined(location, pos),
            decreases 4 - iterations,
        {
            let res = direction.try_apply(location);
            match res {
                Some(next_cell) => {
                    let ghost before = self@;
                    proof {
                        lemma_count_bounded(self@.grid, is_marked());
                        lemma_index_in_range(location, self.size);
                        if in_bounds(next_cell, self@.size) {
                            lemma_index_in_range(next_cell, self.size);
                        }
                    }
                    self.build_room(next_cell);
                    proof {
                        lemma_count_monotone(
                            self@.grid,
                            is_marked(),
                            before.grid,
                            is_marked(),
                        );
                        assert forall|pos: Vec2<usize>|
                            in_bounds(pos, self@.size) && self@.cell(pos).has_room
                                && !old(self)@.cell(pos).has_room implies #[trigger] self@.joined(
                            location,
                            pos,
                        ) by {
                            lemma_index_in_range(pos, self.size);
                            if before.cell(pos).has_room {
                                lemma_joined_stable(before, self@, location, pos);
                            } else {
                                assert(self@.joined(next_cell, pos));
                                lemma_joined_extend(self@, location, direction, next_cell, pos);
                            }
                        }
                        if self@.room_ct < self@.num_rooms {
                            assert(before.room_ct < before.num_rooms);
                            assert forall|pos: Vec2<usize>|
                                in_bounds(pos, self@.size) && self@.cell(pos).has_room
                                    && !old(self)@.cell(
                                    pos,
                                ).has_room && pos != location implies #[trigger] self@.hemmed_in(
                                pos,
                            ) by {
                                lemma_index_in_range(pos, self.size);
                                if before.cell(pos).has_room {
                                    lemma_hemmed_in_stable(before, self@, pos);
                                }
                            }
                            assert forall|k: int|
                                0 <= k < iterations + 1 && (#[trigger] self@.neighbor(
                                    location,
                                    turned(first, k),
                                )) is Some implies self@.cell(
                                self@.neighbor(location, turned(first, k)).unwrap(),
                            ).has_room by {
                                let q = before.neighbor(location, turned(first, k)).unwrap();
                                lemma_index_in_range(q, self.size);
                                if k < iterations {
                                    assert(before.neighbor(location, turned(first, k)) is Some);
                                    assert(before.cell(q).has_room);
                                } else {
                                    assert(q == next_cell);
                                }
                            }
                        }
                    }
                },
                None => {
                    assert(self@.neighbor(location, direction) is None);
                },
            }
            iterations = iterations + 1;
            direction.rotate_cw();
        }
        proof {
            if self@.room_ct < self@.num_rooms {
                assert(iterations == 4);
                assert forall|d: Direction|
                    (#[trigger] self@.neighbor(location, d)) is Some implies self@.cell(
                    self@.neighbor(location, d).unwrap(),
                ).has_room by {
                    assert(turned(first, 1) == first.clockwise());
                    assert(turned(first, 2) == first.clockwise().clockwise());
                    assert(turned(first, 3) == first.clockwise().clockwise().clockwise());
                    let k: int = if d == first {
                        0
                    } else if d == first.clockwise() {
                        1
                    } else if d == first.clockwise().clockwise() {
                        2
                    } else {
                        3
                    };
                    assert(turned(first, 0) == first);
                    assert(turned(first, k) == d);
                    assert(self@.neighbor(location, turned(first, k)) is Some);
                }
                assert(self@.hemmed_in(location));
            }
        }
    }
}

/// The rooms of a graph as mathematical values, in the order of their nodes.
pub open spec fn floor_rooms(graph: Graph<Room>) -> Seq<RoomView> {
    Seq::new(graph@.len(), |id: int| room_of(graph, id))
}

/// For each node of a graph, the nodes it has an edge to.
pub open spec fn floor_links(graph: Graph<Room>) -> Seq<Seq<usize>> {
    graph.links()
}

/// Whether the rooms draw the ids of their creatures from ranges that lie
/// apart, one after the other.
pub open spec fn ids_apart(rooms: Seq<RoomView>) -> bool {
    ids_apart_from(rooms, 0)
}

/// Whether the rooms from the room `first` on draw the ids of their creatures
/// from ranges that lie apart, one after the other.
pub open spec fn ids_apart_from(rooms: Seq<RoomView>, first: int) -> bool {
    forall|j: int, k: int|
        first <= j < k < rooms.len() ==> (#[trigger] rooms[j]).next_uuid <= (
        #[trigger] rooms[k]).first_uuid
}

/// No two creatures or corpses in different rooms share an id, where the
/// rooms are in order and their ranges of ids lie apart.
pub proof fn lemma_ids_apart(rooms: Seq<RoomView>, j: int, k: int, uuid: usize)
    requires
        ids_apart(rooms),
        0 <= j < rooms.len(),
        0 <= k < rooms.len(),
        j != k,
        rooms[j].wf(),
        rooms[k].wf(),
        crate::utils::id_map::has_id(rooms[j].entities, uuid) || crate::utils::id_map::has_id(
            rooms[j].corpses,
            uuid,
        ),
    ensures
        !crate::utils::id_map::has_id(rooms[k].entities, uuid),
        !crate::utils::id_map::has_id(rooms[k].corpses, uuid),
{
    let here = rooms[j];
    let there = rooms[k];
    if j < k {
        assert(rooms[j].next_uuid <= rooms[k].first_uuid);
    } else {
        assert(rooms[k].next_uuid <= rooms[j].first_uuid);
    }
    assert(here.first_uuid <= uuid < here.next_uuid) by {
        if crate::utils::id_map::has_id(here.entities, uuid) {
            let i = choose|i: int| 0 <= i < here.entities.len()
                && (#[trigger] here.entities[i]).0 == uuid;
            assert(here.creature_placed(here.entities[i]));
        } else {
            let i = choose|i: int| 0 <= i < here.corpses.len()
                && (#[trigger] here.corpses[i]).0 == uuid;
        }
    }
    if crate::utils::id_map::has_id(there.entities, uuid) {
        let i = choose|i: int| 0 <= i < there.entities.len()
            && (#[trigger] there.entities[i]).0 == uuid;
        assert(there.creature_placed(there.entities[i]));
    }
    if crate::utils::id_map::has_id(there.corpses, uuid) {
        let i = choose|i: int| 0 <= i < there.corpses.len()
            && (#[trigger] there.corpses[i]).0 == uuid;
    }
}

/// Whether a generated room can have the size `size`: between 5 and 15
/// tiles wide and high.
pub open spec fn generated_size(size: Vec2<usize>) -> bool {
    5 <= size.x < 16 && 5 <= size.y < 16
}

/// The room of the graph node `id`, as a mathematical value.
pub open spec fn room_of(graph: Graph<Room>, id: int) -> RoomView {
    graph@[id].spec_data()@
}

impl BuilderView {
    /// The exits that the room of the cell at `pos` has on its side `d` fit
    /// the grid: there is at most one, and it leads to the room of the cell
    /// next to `pos` on that side.
    pub open spec fn exit_sound(self, graph: Graph<Room>, pos: Vec2<usize>, d: Direction) -> bool {
        let room = room_of(graph, self.cell(pos).node as int);
        room.has_exit(d) ==> {
            &&& room.one_exit(d)
            &&& self.neighbor(pos, d) is Some
            &&& self.cell(self.neighbor(pos, d).unwrap()).filled
            &&& room.exit_leads(d, self.cell(self.neighbor(pos, d).unwrap()).node)
        }
    }

    /// The cell at `pos` is linked on its side `d`: if the cell next to it
    /// on that side is marked, the graph has an edge to that cell's room, and
    /// the room has an exit on that side.
    pub open spec fn link_done(self, graph: Graph<Room>, pos: Vec2<usize>, d: Direction) -> bool {
        self.neighbor(pos, d) is Some && self.cell(self.neighbor(pos, d).unwrap()).has_room ==> {
            &&& room_of(graph, self.cell(pos).node as int).has_exit(d)
            &&& graph.has_edge(
                self.cell(pos).node as int,
                self.cell(self.neighbor(pos, d).unwrap()).node as int,
            )
        }
    }

    /// Whether `a` and `b` are the nodes of two cells that lie next to each
    /// other and have their rooms.
    pub open spec fn nodes_adjacent(self, a: int, b: int) -> bool {
        exists|p: Vec2<usize>, d: Direction|
            {
                &&& in_bounds(p, self.size)
                &&& self.cell(p).filled
                &&& self.cell(p).node == a
                &&& (#[trigger] self.neighbor(p, d)) is Some
                &&& self.cell(self.neighbor(p, d).unwrap()).filled
                &&& self.cell(self.neighbor(p, d).unwrap()).node == b
            }
    }

    /// Whether the graph node `id` is the node of a cell that has its room.
    pub open spec fn has_cell_for(self, id: int) -> bool {
        exists|pos: Vec2<usize>|
            in_bounds(pos, self.size) && (#[trigger] self.cell(pos)).filled && self.cell(pos).node
                == id
    }

    /// Whether `id` is a node of the floor: one that the graph got since the
    /// floor was begun.
    pub open spec fn owns(self, graph: Graph<Room>, id: int) -> bool {
        self.first_node <= id < graph@.len()
    }

    /// The grid and the graph fit together: since the floor was begun the
    /// graph got one node for each cell that has its room, every such room
    /// is in order, and its exits fit the grid.
    pub open spec fn linked(self, graph: Graph<Room>) -> bool {
        &&& graph.wf()
        &&& graph@.len() == self.first_node + count_where(self.grid, is_filled())
        &&& forall|id: int| self.owns(graph, id) ==> (#[trigger] room_of(graph, id)).wf()
        &&& self.next_uuid <= MOST_CREATURES * (graph@.len() - self.first_node)
        &&& forall|id: int|
            self.owns(graph, id) ==> (#[trigger] room_of(graph, id)).next_uuid <= self.next_uuid
        &&& forall|id: int|
            self.owns(graph, id) ==> 1 <= (#[trigger] room_of(graph, id)).entities.len()
                < MOST_CREATURES
        &&& forall|a: int, b: int| #[trigger]
            graph.has_edge(a, b) ==> (a < self.first_node && b < self.first_node)
                || self.nodes_adjacent(a, b)
        &&& forall|id: int|
            self.owns(graph, id) ==> generated_size((#[trigger] room_of(graph, id)).size)
        &&& ids_apart_from(floor_rooms(graph), self.first_node as int)
        &&& forall|id: int| self.owns(graph, id) ==> #[trigger] self.has_cell_for(id)
        &&& forall|pos: Vec2<usize>|
            in_bounds(pos, self.size) && (#[trigger] self.cell(pos)).filled ==> self.first_node
                <= self.cell(pos).node < graph@.len()
        &&& forall|p: Vec2<usize>, q: Vec2<usize>|
            in_bounds(p, self.size) && in_bounds(q, self.size) && p != q
                && (#[trigger] self.cell(p)).filled && (#[trigger] self.cell(q)).filled
                ==> self.cell(p).node != self.cell(q).node
        &&& forall|pos: Vec2<usize>, d: Direction|
            in_bounds(pos, self.size) && self.cell(pos).filled ==> #[trigger] self.exit_sound(
                graph,
                pos,
                d,
            )
    }

    /// Whether `later` and `after` are this grid and the graph `graph` after
    /// some more rooms were made: what was there is as it was, but for new
    /// edges.
    pub open spec fn grown(self, graph: Graph<Room>, later: BuilderView, after: Graph<Room>) -> bool {
        &&& later.size == self.size
        &&& later.num_rooms == self.num_rooms
        &&& later.room_ct == self.room_ct
        &&& later.start_cell == self.start_cell
        &&& later.first_node == self.first_node
        &&& later.grid.len() == self.grid.len()
        &&& forall|j: int| 0 <= j < self.first_node && j < graph@.len() ==> #[trigger] after@[j] == graph@[j]
        &&& forall|i: int|
            0 <= i < self.grid.len() ==> {
                &&& (#[trigger] later.grid[i]).has_room == self.grid[i].has_room
                &&& later.grid[i].left_corner == self.grid[i].left_corner
                &&& self.grid[i].filled ==> later.grid[i].filled && later.grid[i].node
                    == self.grid[i].node
            }
        &&& graph@.len() <= after@.len()
        &&& forall|id: int| 0 <= id < graph@.len()
            ==> #[trigger] room_of(after, id) == room_of(graph, id)
        &&& forall|a: int, b: int| graph.has_edge(a, b) ==> #[trigger] after.has_edge(a, b)
    }

    /// Grid and graph are as the generator leaves them. As many cells are
    /// marked as the budget and the grid allow; they hang together around the
    /// start cell; each has its room, the start cell the first room of the
    /// floor; the graph got these rooms and no others; and the rooms of cells
    /// that lie next to each other, and no other rooms of the floor, are
    /// linked.
    pub open spec fn generated(self, graph: Graph<Room>) -> bool {
        &&& self.wf()
        &&& self.finished(graph)
        &&& self.room_ct == (if self.num_rooms <= self.grid.len() {
            self.num_rooms as int
        } else {
            self.grid.len() as int
        })
        &&& graph@.len() == self.first_node + self.room_ct
        &&& forall|pos: Vec2<usize>|
            in_bounds(pos, self.size) && (#[trigger] self.cell(pos)).has_room ==> {
                &&& self.cell(pos).filled
                &&& self.joined(self.start_cell, pos)
            }
        &&& self.room_ct > 0 ==> self.cell(self.start_cell).filled && self.cell(
            self.start_cell,
        ).node == self.first_node
    }

    /// The second pass is through: grid and graph fit together, and every
    /// cell that has its room is linked on all four sides.
    pub open spec fn finished(self, graph: Graph<Room>) -> bool {
        &&& self.linked(graph)
        &&& forall|pos: Vec2<usize>, d: Direction|
            in_bounds(pos, self.size) && self.cell(pos).filled ==> #[trigger] self.link_done(
                graph,
                pos,
                d,
            )
    }
}

/// The `k`-th direction of a walk around the compass that starts at North.
pub open spec fn nth_direction(k: int) -> Direction {
    if k == 1 {
        Direction::East
    } else if k == 2 {
        Direction::South
    } else if k == 3 {
        Direction::West
    } else {
        Direction::North
    }
}

/// The place of a direction in the walk around the compass.
pub open spec fn direction_rank(d: Direction) -> int {
    match d {
        Direction::North => 0,
        Direction::East => 1,
        Direction::South => 2,
        Direction::West => 3,
    }
}

/// What was linked stays linked while grid and graph grow.
pub proof fn lemma_link_done_stable(
    b: BuilderView,
    g: Graph<Room>,
    b2: BuilderView,
    g2: Graph<Room>,
    pos: Vec2<usize>,
    d: Direction,
)
    requires
        b.wf(),
        b.linked(g),
        b.grown(g, b2, g2),
        in_bounds(pos, b.size),
        b.cell(pos).filled,
        b.link_done(g, pos, d),
    ensures
        b2.link_done(g2, pos, d),
{
    lemma_index_in_range(pos, b.size);
    assert(b2.cell(pos) == b.cell(pos)) by {
        assert(b2.grid[cell_index(pos, b.size.x)].has_room == b.cell(pos).has_room);
    }
    if b2.neighbor(pos, d) is Some && b2.cell(b2.neighbor(pos, d).unwrap()).has_room {
        let next = b.neighbor(pos, d).unwrap();
        lemma_index_in_range(next, b.size);
        assert(b2.grid[cell_index(next, b.size.x)].has_room == b.cell(next).has_room);
        assert(b.exit_sound(g, pos, d));
        assert(room_of(g2, b.cell(pos).node as int) == room_of(g, b.cell(pos).node as int));
        assert(g2.has_edge(b.cell(pos).node as int, b.cell(next).node as int));
    }
}

/// Growing twice is growing.
pub proof fn lemma_grown_twice(
    b: BuilderView,
    g: Graph<Room>,
    b2: BuilderView,
    g2: Graph<Room>,
    b3: BuilderView,
    g3: Graph<Room>,
)
    requires
        b.grown(g, b2, g2),
        b2.grown(g2, b3, g3),
    ensures
        b.grown(g, b3, g3),
{
    assert forall|i: int| 0 <= i < b.grid.len() implies {
        &&& (#[trigger] b3.grid[i]).has_room == b.grid[i].has_room
        &&& b3.grid[i].left_corner == b.grid[i].left_corner
        &&& b.grid[i].filled ==> b3.grid[i].filled && b3.grid[i].node == b.grid[i].node
    } by {
        assert(b2.grid[i].has_room == b.grid[i].has_room);
    }
    assert forall|id: int| 0 <= id < g@.len() implies #[trigger] room_of(g3, id) == room_of(
        g,
        id,
    ) by {
        assert(room_of(g2, id) == room_of(g, id));
    }
    assert forall|a: int, c: int| g.has_edge(a, c) implies #[trigger] g3.has_edge(a, c) by {
        assert(g2.has_edge(a, c));
    }
    assert forall|j: int| 0 <= j < b.first_node && j < g@.len() implies #[trigger] g3@[j]
        == g@[j] by {
        assert(g2@[j] == g@[j]);
    }
}

/// Fewer cells wait for their room after the grid has grown, or as many.
pub proof fn lemma_grown_waiting(b: BuilderView, g: Graph<Room>, b2: BuilderView, g2: Graph<Room>)
    requires
        b.grown(g, b2, g2),
    ensures
        count_where(b2.grid, is_waiting()) <= count_where(b.grid, is_waiting()),
{
    assert forall|i: int| 0 <= i < b.grid.len() && is_waiting()(#[trigger] b2.grid[i])
        implies is_waiting()(
        b.grid[i],
    ) by {}
    lemma_count_monotone(b.grid, is_waiting(), b2.grid, is_waiting());
}

/// Giving a marked cell its room, a new one without exits at the end of the
/// graph, keeps grid and graph fitting together.
pub proof fn lemma_fill(
    b: BuilderView,
    g: Graph<Room>,
    pos: Vec2<usize>,
    b2: BuilderView,
    g2: Graph<Room>,
)
    requires
        b.wf(),
        b.linked(g),
        in_bounds(pos, b.size),
        b.cell(pos).has_room,
        !b.cell(pos).filled,
        g@.len() < usize::MAX,
        b2 == (BuilderView {
            grid: b.grid.update(
                cell_index(pos, b.size.x),
                GridElement { filled: true, node: g@.len() as usize, ..b.cell(pos) },
            ),
            next_uuid: room_of(g2, g@.len() as int).next_uuid,
            ..b
        }),
        room_of(g2, g@.len() as int).first_uuid == b.next_uuid,
        room_of(g2, g@.len() as int).next_uuid <= b.next_uuid + MOST_CREATURES,
        1 <= room_of(g2, g@.len() as int).entities.len() < MOST_CREATURES,
        generated_size(room_of(g2, g@.len() as int).size),
        forall|a: int, c: int| #[trigger] g2.has_edge(a, c) == g.has_edge(a, c),
        g2.wf(),
        g2@.len() == g@.len() + 1,
        g2@.take(g@.len() as int) == g@,
        room_of(g2, g@.len() as int).wf(),
        room_of(g2, g@.len() as int).entrances.len() == 0,
    ensures
        b2.wf(),
        b2.linked(g2),
        b.grown(g, b2, g2),
        count_where(b2.grid, is_waiting()) < count_where(b.grid, is_waiting()),
        b2.cell(pos).filled,
        b2.cell(pos).node == g@.len(),
        forall|d: Direction| !(#[trigger] room_of(g2, g@.len() as int).has_exit(d)),
        forall|q: Vec2<usize>| in_bounds(q, b.size) && q != pos
            ==> #[trigger] b2.cell(q) == b.cell(q),
{
    let at = cell_index(pos, b.size.x);
    let fresh = GridElement { filled: true, node: g@.len() as usize, ..b.cell(pos) };
    lemma_index_in_range(pos, b.size);
    lemma_count_update(b.grid, is_marked(), at, fresh);
    lemma_count_update(b.grid, is_filled(), at, fresh);
    lemma_count_update(b.grid, is_waiting(), at, fresh);
    assert forall|j: int| 0 <= j < g@.len() implies g2@[j] == g@[j] by {
        assert(g2@.take(g@.len() as int)[j] == g2@[j]);
    }
    assert forall|d: Direction| !(#[trigger] room_of(g2, g@.len() as int).has_exit(d)) by {
        lemma_no_entrances_no_exits(room_of(g2, g@.len() as int), d);
    }
    assert forall|q: Vec2<usize>| in_bounds(q, b.size) && q != pos implies b2.cell(q) == b.cell(
        q,
    ) by {
        lemma_index_in_range(q, b.size);
        if cell_index(q, b.size.x) == at {
            lemma_index_injective(q, pos, b.size);
        }
    }
    assert(b2.cell(pos) == fresh);
    assert forall|id: int| b2.owns(g2, id) implies (#[trigger] room_of(g2, id)).wf() by {
        if id < g@.len() {
            assert(room_of(g, id).wf());
        }
    }
    assert forall|id: int| b2.owns(g2, id) implies (#[trigger] room_of(g2, id)).next_uuid
        <= b2.next_uuid by {
        if id < g@.len() {
            assert(room_of(g, id).next_uuid <= b.next_uuid);
        }
    }
    assert forall|id: int| b2.owns(g2, id) implies 1 <= (
    #[trigger] room_of(g2, id)).entities.len() < MOST_CREATURES by {
        if id < g@.len() {
            assert(1 <= room_of(g, id).entities.len() < MOST_CREATURES);
        }
    }
    assert forall|id: int| b2.owns(g2, id) implies generated_size(
        (#[trigger] room_of(g2, id)).size,
    ) by {
        if id < g@.len() {
            assert(generated_size(room_of(g, id).size));
        }
    }
    assert forall|a: int, c: int| #[trigger] g2.has_edge(a, c) implies (a < b2.first_node && c
        < b2.first_node) || b2.nodes_adjacent(a, c) by {
        assert(g.has_edge(a, c));
        if !(a < b.first_node && c < b.first_node) {
            lemma_adjacency_kept(b, b2, pos, a, c);
        }
    }
    assert(MOST_CREATURES * (g2@.len() - b.first_node) == MOST_CREATURES * (g@.len()
        - b.first_node) + MOST_CREATURES) by (nonlinear_arith)
        requires
            g2@.len() == g@.len() + 1,
    ;
    assert(ids_apart_from(floor_rooms(g2), b2.first_node as int)) by {
        assert forall|j: int, k: int| b2.first_node <= j < k < floor_rooms(g2).len() implies (
        #[trigger] floor_rooms(g2)[j]).next_uuid <= (#[trigger] floor_rooms(g2)[k]).first_uuid by {
            if k < g@.len() {
                assert(floor_rooms(g)[j].next_uuid <= floor_rooms(g)[k].first_uuid);
            } else {
                assert(room_of(g, j).next_uuid <= b.next_uuid);
            }
        }
    }
    assert forall|id: int| b2.owns(g2, id) implies #[trigger] b2.has_cell_for(id) by {
        if id < g@.len() {
            assert(b.has_cell_for(id));
            let at = choose|at: Vec2<usize>|
                in_bounds(at, b.size) && (#[trigger] b.cell(at)).filled && b.cell(at).node == id;
            assert(b2.cell(at) == b.cell(at));
        } else {
            assert(b2.cell(pos).node == id);
        }
    }
    assert forall|q: Vec2<usize>, d: Direction|
        in_bounds(q, b2.size) && b2.cell(q).filled implies #[trigger] b2.exit_sound(g2, q, d) by {
        if q != pos {
            assert(b.exit_sound(g, q, d));
            let room = room_of(g, b.cell(q).node as int);
            if room.has_exit(d) {
                let next = b.neighbor(q, d).unwrap();
                assert(next != pos);
                assert(b2.cell(next) == b.cell(next));
            }
        }
    }
    assert forall|a: int, c: int| g.has_edge(a, c) implies #[trigger] g2.has_edge(a, c) by {
        assert(g2@[a] == g@[a]);
    }
}

/// Two rooms whose cells lie next to each other still do so after another
/// cell got its room.
proof fn lemma_adjacency_kept(b: BuilderView, b2: BuilderView, pos: Vec2<usize>, a: int, c: int)
    requires
        b.grid.len() == b.size.x * b.size.y,
        b.nodes_adjacent(a, c),
        in_bounds(pos, b.size),
        !b.cell(pos).filled,
        b2.size == b.size,
        forall|q: Vec2<usize>| in_bounds(q, b.size) && q != pos
            ==> #[trigger] b2.cell(q) == b.cell(q),
    ensures
        b2.nodes_adjacent(a, c),
{
    {
        let (p, d) = choose|p: Vec2<usize>, d: Direction|
            {
                &&& in_bounds(p, b.size)
                &&& b.cell(p).filled
                &&& b.cell(p).node == a
                &&& (#[trigger] b.neighbor(p, d)) is Some
                &&& b.cell(b.neighbor(p, d).unwrap()).filled
                &&& b.cell(b.neighbor(p, d).unwrap()).node == c
            };
        assert(b2.cell(p) == b.cell(p));
        assert(b2.cell(b.neighbor(p, d).unwrap()) == b.cell(b.neighbor(p, d).unwrap()));
        assert(b2.neighbor(p, d) is Some);
    }
}

/// Cutting the exit to a neighbour into a room that had none on that side,
/// with the edge to the neighbour in the graph, keeps grid and graph fitting
/// together, and links the room's cell on that side.
pub proof fn lemma_link(
    b: BuilderView,
    g: Graph<Room>,
    pos: Vec2<usize>,
    d: Direction,
    offset: usize,
    g2: Graph<Room>,
)
    requires
        b.wf(),
        b.linked(g),
        in_bounds(pos, b.size),
        b.cell(pos).filled,
        b.neighbor(pos, d) is Some,
        b.cell(b.neighbor(pos, d).unwrap()).filled,
        !room_of(g, b.cell(pos).node as int).has_exit(d),
        offset_fits(room_of(g, b.cell(pos).node as int).size, d, offset),
        g2.wf(),
        g2@.len() == g@.len(),
        forall|j: int|
            0 <= j < g@.len() && j != b.cell(pos).node
                ==> #[trigger] room_of(g2, j) == room_of(g, j),
        room_of(g2, b.cell(pos).node as int) == room_of(g, b.cell(pos).node as int).with_exit(
            d,
            b.cell(b.neighbor(pos, d).unwrap()).node,
            offset,
        ),
        g2.has_edge(b.cell(pos).node as int, b.cell(b.neighbor(pos, d).unwrap()).node as int),
        forall|a: int, c: int| #[trigger] g2.has_edge(a, c) ==> g.has_edge(a, c) || (a == b.cell(
            pos,
        ).node && c == b.cell(b.neighbor(pos, d).unwrap()).node) || (a == b.cell(
            b.neighbor(pos, d).unwrap(),
        ).node && c == b.cell(pos).node),
    ensures
        b.linked(g2),
        b.link_done(g2, pos, d),
        forall|other: Direction|
            other != d ==> (#[trigger] room_of(g2, b.cell(pos).node as int).has_exit(other))
                == room_of(g, b.cell(pos).node as int).has_exit(other),
{
    let id = b.cell(pos).node as int;
    let next = b.neighbor(pos, d).unwrap();
    let before = room_of(g, id);
    let after = room_of(g2, id);
    crate::world::room::lemma_with_exit_wf(before, d, b.cell(next).node, offset);
    lemma_with_exit_exits(before, d, b.cell(next).node, offset);
    assert forall|other: Direction| other != d implies (#[trigger] after.has_exit(other))
        == before.has_exit(other) by {
        if after.has_exit(other) {
            let at = choose|at: Vec2<usize>| #[trigger] after.exit_faces(at, other);
            assert(before.exit_faces(at, other));
        }
        if before.has_exit(other) {
            let at = choose|at: Vec2<usize>| #[trigger] before.exit_faces(at, other);
            assert(after.exit_faces(at, other));
        }
    }
    assert forall|j: int| b.owns(g2, j) implies (#[trigger] room_of(g2, j)).wf() by {
        if j != id {
            assert(room_of(g, j).wf());
        }
    }
    assert forall|j: int| b.owns(g2, j) implies (#[trigger] room_of(g2, j)).next_uuid
        <= b.next_uuid by {
        assert(room_of(g, j).next_uuid <= b.next_uuid);
    }
    assert forall|j: int| b.owns(g2, j) implies 1 <= (#[trigger] room_of(g2, j)).entities.len()
        < MOST_CREATURES by {
        assert(1 <= room_of(g, j).entities.len() < MOST_CREATURES);
    }
    assert forall|a: int, c: int| #[trigger] g2.has_edge(a, c) implies (a < b.first_node && c
        < b.first_node) || b.nodes_adjacent(a, c) by {
        lemma_index_in_range(pos, b.size);
        lemma_index_in_range(next, b.size);
        if g.has_edge(a, c) {
            assert((a < b.first_node && c < b.first_node) || b.nodes_adjacent(a, c));
        } else if a == b.cell(pos).node && c == b.cell(next).node {
            assert(b.neighbor(pos, d) is Some);
        } else {
            assert(b.neighbor(next, d.inverted()) == Some(pos));
            assert(b.neighbor(next, d.inverted()) is Some);
        }
    }
    assert forall|j: int| b.owns(g2, j) implies generated_size(
        (#[trigger] room_of(g2, j)).size,
    ) by {
        assert(generated_size(room_of(g, j).size));
    }
    assert(ids_apart_from(floor_rooms(g2), b.first_node as int)) by {
        assert forall|j: int, k: int| b.first_node <= j < k < floor_rooms(g2).len() implies (
        #[trigger] floor_rooms(g2)[j]).next_uuid <= (#[trigger] floor_rooms(g2)[k]).first_uuid by {
            assert(floor_rooms(g)[j].next_uuid <= floor_rooms(g)[k].first_uuid);
            assert(room_of(g2, j).next_uuid == room_of(g, j).next_uuid);
            assert(room_of(g2, k).first_uuid == room_of(g, k).first_uuid);
        }
    }
    assert forall|j: int| b.owns(g2, j) implies #[trigger] b.has_cell_for(j) by {
        assert(b.has_cell_for(j));
    }
    assert forall|q: Vec2<usize>, e: Direction|
        in_bounds(q, b.size) && b.cell(q).filled implies #[trigger] b.exit_sound(g2, q, e) by {
        assert(b.exit_sound(g, q, e));
        if q == pos && e != d {
            if after.has_exit(e) {
                assert(before.has_exit(e));
                assert forall|p1: Vec2<usize>, p2: Vec2<usize>| #[trigger]
                    after.exit_faces(p1, e) && #[trigger] after.exit_faces(p2, e) implies p1
                    == p2 by {
                    assert(before.exit_faces(p1, e));
                    assert(before.exit_faces(p2, e));
                }
                assert forall|at: Vec2<usize>| #[trigger]
                    after.exit_faces(at, e) implies after.tile_at(at).id
                    == (crate::world::TileType::Exit {
                    node_id: b.cell(b.neighbor(pos, e).unwrap()).node,
                    exiting_direction: e,
                }) by {
                    assert(before.exit_faces(at, e));
                    assert(before.tile_fits(at));
                    assert(at != crate::world::room::exit_position(before.size, d, offset));
                    assert(after.tile_at(at) == before.tile_at(at));
                }
            }
        } else if q != pos {
            assert(b.cell(q).node != b.cell(pos).node);
        }
    }
}

impl DungeonBuilder {
    /// The second pass from `location` on. A marked cell without a room gets
    /// one: a new graph node that holds a new room, between 5 and 15 tiles
    /// wide and high. The room is then linked with the room of each marked
    /// cell next to it, clockwise from North, after that cell got its own
    /// room by the same walk. Returns the node of the cell.
    fn populate_graph(&mut self, location: Vec2<usize>, graph: &mut Graph<Room>) -> (id: usize)
        requires
            old(self)@.wf(),
            old(self)@.linked(*old(graph)),
            in_bounds(location, old(self)@.size),
        ensures
            final(self)@.wf(),
            final(self)@.linked(*final(graph)),
            old(self)@.grown(*old(graph), final(self)@, *final(graph)),
            forall|pos: Vec2<usize>, d: Direction|
                in_bounds(pos, old(self)@.size) && final(self)@.cell(pos).filled
                    && !old(self)@.cell(pos).filled
                    ==> #[trigger] final(self)@.link_done(*final(graph), pos, d),
            old(self)@.cell(location).has_room ==> final(self)@.cell(location).filled,
            old(self)@.cell(location).has_room && !old(self)@.cell(location).filled
                ==> id == old(graph)@.len(),
            id == final(self)@.cell(location).node,
        decreases count_where(old(self)@.grid, is_waiting()),
    {
        let cell = *self.get_cell(location);
        let mut id = cell.node;
        proof {
            lemma_index_in_range(location, self.size);
        }
        if cell.has_room && !cell.filled {
            let rng_size = Vec2::new(random_in_range(5, 16), random_in_range(5, 16));
            assert(rng_size.x * rng_size.y <= 225) by (nonlinear_arith)
                requires
                    rng_size.x <= 15,
                    rng_size.y <= 15,
            ;
            proof {
                lemma_count_bounded(self.grid@, is_filled());
                lemma_count_below(self.grid@, is_filled(), cell_index(location, self.size.x));
                assert((rng_size.x - 2) * (rng_size.y - 1) <= 13 * 14) by (nonlinear_arith)
                    requires
                        5 <= rng_size.x <= 15,
                        5 <= rng_size.y <= 15,
                ;
                assert(rng_size.x * rng_size.y - rng_size.y * 2 - (rng_size.x - 4) == (rng_size.x
                    - 2) * (rng_size.y - 1) + 2) by (nonlinear_arith);
                assert(spawn_budget(rng_size) <= MOST_CREATURES);
                let rooms = graph@.len() - self.first_node;
                assert(MOST_CREATURES * (rooms + 1) <= MOST_CREATURES * self.grid@.len())
                    by (nonlinear_arith)
                    requires
                        rooms + 1 <= self.grid@.len(),
                ;
                assert(MOST_CREATURES * (rooms + 1) == MOST_CREATURES * rooms + MOST_CREATURES)
                    by (nonlinear_arith);
            }
            let room = Room::new_from(rng_size, self.next_uuid);
            self.next_uuid = room.next_uuid();
            id = graph.new_node(room);
            let at = index_in(location, self.size, self.grid.len());
            self.grid[at].filled = true;
            self.grid[at].node = id;
            proof {
                assert(self@.grid =~= old(self)@.grid.update(
                    at as int,
                    GridElement { filled: true, node: id, ..old(self)@.cell(location) },
                ));
                let nodes = old(graph)@.len() as int;
                assert(MOST_CREATURES * (nodes + 1) == MOST_CREATURES * nodes + MOST_CREATURES)
                    by (nonlinear_arith);
                lemma_fill(old(self)@, *old(graph), location, self@, *graph);
            }

            let mut direction = Direction::North;
            let mut k: usize = 0;
            while k < 4
                invariant
                    k <= 4,
                    k < 4 ==> direction == nth_direction(k as int),
                    in_bounds(location, self@.size),
                    old(self)@.wf(),
                    old(self)@.linked(*old(graph)),
                    !old(self)@.cell(location).filled,
                    self@.wf(),
                    self@.linked(*graph),
                    old(self)@.grown(*old(graph), self@, *graph),
                    self@.cell(location).filled,
                    self@.cell(location).node == id,
                    id == old(graph)@.len(),
                    forall|pos: Vec2<usize>, d: Direction|
                        in_bounds(pos, self@.size) && self@.cell(pos).filled && !old(self)@.cell(
                            pos,
                        ).filled && pos != location ==> #[trigger] self@.link_done(*graph, pos, d),
                    forall|d: Direction|
                        direction_rank(d) < k ==> #[trigger] self@.link_done(*graph, location, d),
                    forall|d: Direction|
                        direction_rank(d) >= k ==> !(#[trigger] room_of(*graph, id as int).has_exit(
                            d,
                        )),
                    count_where(self@.grid, is_waiting()) < count_where(
                        old(self)@.grid,
                        is_waiting(),
                    ),
                decreases 4 - k,
            {
                let ghost entered = self@;
                let ghost entered_graph = *graph;
                let ghost mut linked_now = false;
                match direction.try_apply(location) {
                    Some(next_cell) => {
                        if next_cell.x < self.size.x && next_cell.y < self.size.y && self.get_cell(
                            next_cell,
                        ).has_room {
                            let neighbor = self.populate_graph(next_cell, graph);
                            let ghost walked = self@;
                            let ghost walked_graph = *graph;
                            proof {
                                // What held before the walk holds after it.
                                lemma_index_in_range(next_cell, self.size);
                                lemma_index_in_range(location, self.size);
                                lemma_grown_twice(
                                    old(self)@,
                                    *old(graph),
                                    entered,
                                    entered_graph,
                                    walked,
                                    walked_graph,
                                );
                                lemma_grown_waiting(entered, entered_graph, walked, walked_graph);
                                assert(walked.cell(location) == entered.cell(location));
                                assert(walked.neighbor(location, direction) == Some(next_cell));
                                assert(room_of(walked_graph, id as int) == room_of(
                                    entered_graph,
                                    id as int,
                                ));
                                assert forall|pos: Vec2<usize>, d: Direction|
                                    in_bounds(pos, walked.size) && walked.cell(pos).filled
                                        && entered.cell(pos).filled && entered.link_done(
                                        entered_graph,
                                        pos,
                                        d,
                                    ) implies #[trigger] walked.link_done(walked_graph, pos, d) by {
                                    lemma_link_done_stable(
                                        entered,
                                        entered_graph,
                                        walked,
                                        walked_graph,
                                        pos,
                                        d,
                                    );
                                }
                            }
                            let offset = link_rooms(graph, id, neighbor, direction);
                            proof {
                                // The new exit links this cell on one more side
                                // and leaves all other links as they are.
                                lemma_link(
                                    walked,
                                    walked_graph,
                                    location,
                                    direction,
                                    offset@,
                                    *graph,
                                );
                                assert forall|pos: Vec2<usize>, d: Direction|
                                    in_bounds(pos, walked.size) && walked.cell(pos).filled
                                        && walked.link_done(walked_graph, pos, d)
                                        implies #[trigger] walked.link_done(*graph, pos, d) by {
                                    lemma_link_keeps(
                                        walked,
                                        walked_graph,
                                        *graph,
                                        location,
                                        direction,
                                        pos,
                                        d,
                                    );
                                }
                                lemma_grown_linked(
                                    old(self)@,
                                    *old(graph),
                                    walked,
                                    walked_graph,
                                    *graph,
                                    id as int,
                                );
                                linked_now = true;
                            }
                        }
                    },
                    None => {},
                }
                proof {
                    if !linked_now {
                        lemma_index_in_range(location, self.size);
                        assert(self@.link_done(*graph, location, direction));
                    }
                    assert forall|d: Direction| direction_rank(d) < k + 1 implies #[trigger] self@.link_done(
                        *graph,
                        location,
                        d,
                    ) by {
                        if direction_rank(d) == k {
                            assert(d == direction);
                        }
                    }
                }
                direction.rotate_cw();
                k = k + 1;
            }
            proof {
                assert forall|pos: Vec2<usize>, d: Direction|
                    in_bounds(pos, old(self)@.size) && self@.cell(pos).filled && !old(self)@.cell(
                        pos,
                    ).filled implies #[trigger] self@.link_done(*graph, pos, d) by {
                    if pos == location {
                        assert(direction_rank(d) < 4);
                    }
                }
            }
        } else {
            proof {
                assert(old(self)@.grown(*old(graph), self@, *graph));
            }
        }
        id
    }
}


impl DungeonBuilder {
    /// Generates a floor into a graph: marks up to `num_rooms` cells that
    /// hang together, starting with the start cell, then makes a room for
    /// every marked cell and links the rooms of cells that lie next to each
    /// other. The rooms come behind the nodes that the graph has already,
    /// which stay as they are; the start cell's room is the first of them.
    pub fn build_floor(&mut self, graph: &mut Graph<Room>)
        requires
            old(self)@.wf(),
            old(graph).wf(),
            old(self)@.untouched(),
        ensures
            final(self)@.wf(),
            final(self)@.first_node == old(graph)@.len(),
            final(self)@.finished(*final(graph)),
            final(self)@.generated(*final(graph)),
            exits_paired_from(floor_rooms(*final(graph)), old(graph)@.len() as int),
            final(graph)@.len() - old(graph)@.len() <= final(self)@.num_rooms,
            final(graph)@.len() - old(graph)@.len() == final(self)@.room_ct,
            final(graph)@.len() - old(graph)@.len() == count_where(final(self)@.grid, is_filled()),
            forall|j: int| 0 <= j < old(graph)@.len() ==> #[trigger] final(graph)@[j] == old(graph)@[j],
            final(self)@.room_ct == (if final(self)@.num_rooms <= final(self)@.grid.len() {
                final(self)@.num_rooms as int
            } else {
                final(self)@.grid.len() as int
            }),
            forall|pos: Vec2<usize>|
                in_bounds(pos, final(self)@.size) && (#[trigger] final(self)@.cell(pos)).has_room
                    ==> {
                    &&& final(self)@.cell(pos).filled
                    &&& final(self)@.joined(final(self)@.start_cell, pos)
                },
            final(self)@.num_rooms == old(self)@.num_rooms,
            final(self)@.size == old(self)@.size,
            final(self)@.start_cell == old(self)@.start_cell,
            old(self)@.room_ct < old(self)@.num_rooms ==> final(graph)@.len() > old(graph)@.len()
                && final(self)@.cell(final(self)@.start_cell).filled && final(self)@.cell(
                final(self)@.start_cell,
            ).node == old(graph)@.len(),
    {
        let start = self.start_cell;
        self.first_node = graph.len();
        self.build_room(start);
        let ghost marked = self@;
        proof {
            lemma_count_none(old(self)@.grid, is_marked());
            lemma_count_bounded(marked.grid, is_marked());
            if marked.room_ct < marked.num_rooms {
                assert forall|at: Vec2<usize>|
                    in_bounds(at, marked.size) && marked.cell(at).has_room
                        implies #[trigger] marked.hemmed_in(
                    at,
                ) by {
                    lemma_index_in_range(at, marked.size);
                    assert(!old(self)@.cell(at).has_room);
                }
                assert(marked.cell(start).has_room);
                assert forall|i: int| 0 <= i < marked.grid.len() implies is_marked()(
                    #[trigger] marked.grid[i],
                ) by {
                    lemma_position_of(i, marked.size);
                    lemma_all_marked(marked, position_of(i, marked.size.x));
                }
                lemma_count_all(marked.grid, is_marked());
            }
            lemma_count_none(marked.grid, is_filled());
            lemma_index_in_range(start, self.size);
            assert forall|pos: Vec2<usize>| in_bounds(pos, marked.size) implies !(
            #[trigger] marked.cell(pos)).filled by {
                lemma_index_in_range(pos, marked.size);
            }
            assert(marked.linked(*graph));
        }
        let first = self.populate_graph(start, graph);
        proof {
            assert forall|pos: Vec2<usize>, d: Direction|
                in_bounds(pos, self@.size) && self@.cell(pos).filled
                    implies #[trigger] self@.link_done(
                *graph,
                pos,
                d,
            ) by {
                assert(!marked.cell(pos).filled);
            }
            lemma_rooms_within_budget(self@, *graph);
            lemma_finished_paired(self@, *graph);
            if old(self)@.room_ct < old(self)@.num_rooms {
                assert(marked.cell(start).has_room);
                lemma_count_some(self@.grid, is_filled(), cell_index(start, self.size.x));
            }
            assert forall|pos: Vec2<usize>|
                in_bounds(pos, self@.size) && (#[trigger] self@.cell(pos)).has_room
                    implies self@.cell(
                pos,
            ).filled && self@.joined(self@.start_cell, pos) by {
                lemma_index_in_range(pos, self.size);
                assert(!old(self)@.cell(pos).has_room);
                assert(marked.cell(pos).has_room);
                assert(marked.joined(start, pos));
                let path = choose|path: Seq<Vec2<usize>>| #[trigger]
                    marked.is_path(path) && path[0] == start && path.last() == pos;
                assert(self@.is_path(path)) by {
                    assert forall|i: int| 0 <= i < path.len() implies in_bounds(
                        #[trigger] path[i],
                        self@.size,
                    ) && self@.cell(path[i]).has_room by {
                        lemma_index_in_range(path[i], self.size);
                    }
                    assert forall|i: int| 0 <= i < path.len() - 1 implies self@.next_to(
                        #[trigger] path[i],
                        path[i + 1],
                    ) by {
                        assert(marked.next_to(path[i], path[i + 1]));
                        let d = choose|d: Direction| #[trigger]
                            marked.neighbor(path[i], d) == Some(path[i + 1]);
                        assert(self@.neighbor(path[i], d) == Some(path[i + 1]));
                    }
                }
                assert(marked.cell(path[0]).has_room);
                lemma_path_filled(self@, *graph, path, path.len() - 1);
            }
            assert forall|i: int| 0 <= i < self@.grid.len() && is_marked()(
                #[trigger] self@.grid[i],
            ) implies is_filled()(self@.grid[i]) by {
                lemma_position_of(i, self.size);
                assert(self@.cell(position_of(i, self.size.x)).has_room);
            }
            lemma_count_monotone(self@.grid, is_filled(), self@.grid, is_marked());
        }
    }
}

/// Whether the exit on the tile `pos` of the room `r`, if there is one,
/// leads to a room of the floor that has an entrance on the side opposite to
/// the exit's.
pub open spec fn exit_paired(rooms: Seq<RoomView>, r: int, pos: Vec2<usize>) -> bool {
    rooms[r].tile_at(pos).id matches crate::world::TileType::Exit { node_id, exiting_direction }
        ==> node_id < rooms.len() && rooms[node_id as int].has_entrance(
        exiting_direction.inverted(),
    )
}

/// Whether every exit of every room leads to a room of the floor that has
/// an entrance for those who come through it.
pub open spec fn exits_paired(rooms: Seq<RoomView>) -> bool {
    exits_paired_from(rooms, 0)
}

/// Whether every exit of every room from the room `first` on leads to a room
/// of the floor that has an entrance for those who come through it.
pub open spec fn exits_paired_from(rooms: Seq<RoomView>, first: int) -> bool {
    forall|r: int, pos: Vec2<usize>|
        first <= r < rooms.len() && in_bounds(pos, rooms[r].size) ==> #[trigger] exit_paired(
            rooms,
            r,
            pos,
        )
}

/// Once the second pass is through, every exit of every room leads to a
/// room of the floor that has an entrance for those who come through it.
pub proof fn lemma_finished_paired(b: BuilderView, g: Graph<Room>)
    requires
        b.wf(),
        b.finished(g),
    ensures
        exits_paired_from(floor_rooms(g), b.first_node as int),
{
    let rooms = floor_rooms(g);
    assert forall|r: int, pos: Vec2<usize>|
        b.first_node <= r < rooms.len() && in_bounds(pos, rooms[r].size) implies #[trigger] exit_paired(
        rooms,
        r,
        pos,
    ) by {
        let room = room_of(g, r);
        if let crate::world::TileType::Exit { node_id, exiting_direction } = room.tile_at(pos).id {
            assert(room.wf());
            assert(room.exit_faces(pos, exiting_direction));
            assert(b.has_cell_for(r));
            let at = choose|at: Vec2<usize>|
                in_bounds(at, b.size) && (#[trigger] b.cell(at)).filled && b.cell(at).node == r;
            assert(b.exit_sound(g, at, exiting_direction));
            let next = b.neighbor(at, exiting_direction).unwrap();
            lemma_index_in_range(at, b.size);
            lemma_index_in_range(next, b.size);
            assert(b.cell(next).has_room);
            lemma_linked_rooms_meet(b, g, at, exiting_direction);
            assert(node_id == b.cell(next).node);
        }
    }
}

/// The generator makes no more rooms than its budget allows: the graph got
/// as many nodes as there are cells with a room, and there are no more of
/// those than marked cells, of which there are no more than `num_rooms`.
pub proof fn lemma_rooms_within_budget(b: BuilderView, g: Graph<Room>)
    requires
        b.wf(),
        b.linked(g),
    ensures
        g@.len() - b.first_node == count_where(b.grid, is_filled()),
        count_where(b.grid, is_filled()) <= count_where(b.grid, is_marked()),
        count_where(b.grid, is_marked()) <= b.num_rooms,
        g@.len() - b.first_node <= b.num_rooms,
{
    lemma_count_monotone(b.grid, is_marked(), b.grid, is_filled());
}

/// Where two marked cells lie next to each other and the first has its room,
/// the rooms meet. The second cell has its room too; the graph has an edge
/// from the first room to the second; the first room has exactly one exit on
/// the side of the second, and it leads there. The second room has an
/// entrance on the opposite side, and that entrance is a tile on which the
/// player can stand.
pub proof fn lemma_linked_rooms_meet(b: BuilderView, g: Graph<Room>, pos: Vec2<usize>, d: Direction)
    requires
        b.wf(),
        b.finished(g),
        in_bounds(pos, b.size),
        b.cell(pos).filled,
        b.neighbor(pos, d) is Some,
        b.cell(b.neighbor(pos, d).unwrap()).has_room,
    ensures
        ({
            let next = b.neighbor(pos, d).unwrap();
            let here = room_of(g, b.cell(pos).node as int);
            let there = room_of(g, b.cell(next).node as int);
            &&& b.cell(next).filled
            &&& b.cell(pos).node < g@.len()
            &&& b.cell(next).node < g@.len()
            &&& g.has_edge(b.cell(pos).node as int, b.cell(next).node as int)
            &&& here.has_exit(d)
            &&& here.one_exit(d)
            &&& here.exit_leads(d, b.cell(next).node)
            &&& there.has_entrance(d.inverted())
            &&& there.valid_position(
                there.entrances[there.first_entrance(d.inverted())].location,
            )
        }),
{
    let next = b.neighbor(pos, d).unwrap();
    assert(b.link_done(g, pos, d));
    assert(b.exit_sound(g, pos, d));
    lemma_index_in_range(pos, b.size);
    lemma_index_in_range(next, b.size);
    assert(b.neighbor(next, d.inverted()) == Some(pos));
    assert(b.cell(pos).has_room);
    assert(b.link_done(g, next, d.inverted()));
    assert(room_of(g, b.cell(next).node as int).wf());
    lemma_exit_has_entrance(room_of(g, b.cell(next).node as int), d.inverted());
}

/// How a cell shows in the picture of the grid: the node of its room in at
/// least two digits if it is marked, two underscores if not, and a blank.
pub open spec fn cell_text(cell: GridElement) -> Seq<char> {
    if cell.has_room {
        (if cell.node < 10 {
            "0"@
        } else {
            Seq::<char>::empty()
        }) + decimal(cell.node as nat) + " "@
    } else {
        "__ "@
    }
}

/// The picture of the first `n` cells of the grid, row by row.
pub open spec fn grid_text(grid: Seq<GridElement>, width: usize, n: nat) -> Seq<char>
    decreases n,
{
    if n == 0 {
        Seq::empty()
    } else {
        grid_text(grid, width, (n - 1) as nat) + cell_text(grid[n - 1]) + (if n % (width as nat)
            == 0 {
            "\n"@
        } else {
            Seq::<char>::empty()
        })
    }
}

impl BuilderView {
    /// The picture of the grid, and below it the start cell and the number of
    /// marked cells.
    pub open spec fn text(self) -> Seq<char> {
        grid_text(self.grid, self.size.x, self.grid.len()) + "start at Vec2 { x: "@ + decimal(
            self.start_cell.x as nat,
        ) + ", y: "@ + decimal(self.start_cell.y as nat) + " }\nroom ct "@ + decimal(
            self.room_ct as nat,
        ) + "\n"@
    }
}

impl DungeonBuilder {
    /// Draws the grid as text, for those who want to look at what the
    /// generator did.
    pub fn debug_text(&self) -> (text: String)
        requires
            self@.wf(),
        ensures
            text@ == self@.text(),
    {
        let mut text = String::new();
        let mut i: usize = 0;
        while i < self.grid.len()
            invariant
                i <= self.grid.len(),
                self@.grid == self.grid@,
                self@.size == self.size,
                self.size.x > 0,
                text@ == grid_text(self.grid@, self.size.x, i as nat),
            decreases self.grid.len() - i,
        {
            let ghost before = text@;
            if self.grid[i].has_room {
                if self.grid[i].node < 10 {
                    text.append("0");
                }
                push_decimal(&mut text, self.grid[i].node);
                text.append(" ");
            } else {
                text.append("__ ");
            }
            assert(text@ =~= before + cell_text(self.grid@[i as int]));
            if (i + 1) % self.size.x == 0 {
                text.append("\n");
            }
            i = i + 1;
            assert(text@ =~= grid_text(self.grid@, self.size.x, i as nat));
        }
        text.append("start at Vec2 { x: ");
        push_decimal(&mut text, self.start_cell.x);
        text.append(", y: ");
        push_decimal(&mut text, self.start_cell.y);
        text.append(" }\nroom ct ");
        push_decimal(&mut text, self.room_ct);
        text.append("\n");
        text
    }
}

/// A marked cell is joined to itself.
pub proof fn lemma_joined_self(b: BuilderView, pos: Vec2<usize>)
    requires
        in_bounds(pos, b.size),
        b.cell(pos).has_room,
    ensures
        b.joined(pos, pos),
{
    let path = seq![pos];
    assert(b.is_path(path));
}

/// A walk stays a walk when more cells are marked.
pub proof fn lemma_joined_stable(b: BuilderView, later: BuilderView, from: Vec2<usize>, to: Vec2<usize>)
    requires
        b.grid.len() == b.size.x * b.size.y,
        b.marked_on(later),
        b.joined(from, to),
    ensures
        later.joined(from, to),
{
    let path = choose|path: Seq<Vec2<usize>>| #[trigger]
        b.is_path(path) && path[0] == from && path.last() == to;
    assert forall|i: int| 0 <= i < path.len() implies in_bounds(#[trigger] path[i], later.size)
        && later.cell(path[i]).has_room by {
        lemma_index_in_range(path[i], b.size);
        assert(later.grid[cell_index(path[i], b.size.x)].filled == b.cell(path[i]).filled);
    }
    assert forall|i: int| 0 <= i < path.len() - 1 implies later.next_to(
        #[trigger] path[i],
        path[i + 1],
    ) by {
        assert(b.next_to(path[i], path[i + 1]));
        let d = choose|d: Direction| #[trigger] b.neighbor(path[i], d) == Some(path[i + 1]);
        assert(later.neighbor(path[i], d) == Some(path[i + 1]));
    }
    assert(later.is_path(path));
}

/// A walk from a cell can be entered from a marked cell next to it.
pub proof fn lemma_joined_extend(
    b: BuilderView,
    from: Vec2<usize>,
    d: Direction,
    mid: Vec2<usize>,
    to: Vec2<usize>,
)
    requires
        in_bounds(from, b.size),
        b.cell(from).has_room,
        d.can_apply(from),
        d.applied(from) == (mid.x as int, mid.y as int),
        b.joined(mid, to),
    ensures
        b.joined(from, to),
{
    let path = choose|path: Seq<Vec2<usize>>| #[trigger]
        b.is_path(path) && path[0] == mid && path.last() == to;
    let longer = seq![from] + path;
    assert(in_bounds(path[0], b.size));
    assert(b.neighbor(from, d) == Some(mid));
    assert forall|i: int| 0 <= i < longer.len() implies in_bounds(#[trigger] longer[i], b.size)
        && b.cell(longer[i]).has_room by {
        if i > 0 {
            assert(longer[i] == path[i - 1]);
        }
    }
    assert forall|i: int| 0 <= i < longer.len() - 1 implies b.next_to(
        #[trigger] longer[i],
        longer[i + 1],
    ) by {
        if i > 0 {
            assert(longer[i] == path[i - 1]);
            assert(longer[i + 1] == path[i]);
            assert(b.next_to(path[i - 1], path[i]));
        } else {
            assert(longer[1] == path[0]);
        }
    }
    assert(b.is_path(longer));
    assert(longer.last() == path.last());
}

/// Once the second pass is through, every cell on a walk that starts at a
/// cell with a room has its room.
pub proof fn lemma_path_filled(b: BuilderView, g: Graph<Room>, path: Seq<Vec2<usize>>, i: int)
    requires
        b.wf(),
        b.finished(g),
        b.is_path(path),
        b.cell(path[0]).filled,
        0 <= i < path.len(),
    ensures
        b.cell(path[i]).filled,
    decreases i,
{
    if i > 0 {
        lemma_path_filled(b, g, path, i - 1);
        let from = path[i - 1];
        assert(in_bounds(from, b.size));
        assert(b.next_to(from, path[i]));
        let d = choose|d: Direction| #[trigger] b.neighbor(from, d) == Some(path[i]);
        assert(b.link_done(g, from, d));
        assert(b.exit_sound(g, from, d));
    }
}

/// The direction `k` quarter turns clockwise from `first`.
pub open spec fn turned(first: Direction, k: int) -> Direction
    decreases k,
{
    if k <= 0 {
        first
    } else {
        turned(first, k - 1).clockwise()
    }
}

/// A cell that is hemmed in stays so when more cells are marked.
pub proof fn lemma_hemmed_in_stable(b: BuilderView, later: BuilderView, pos: Vec2<usize>)
    requires
        b.grid.len() == b.size.x * b.size.y,
        b.marked_on(later),
        b.hemmed_in(pos),
    ensures
        later.hemmed_in(pos),
{
    assert forall|d: Direction| (#[trigger] later.neighbor(pos, d)) is Some implies later.cell(
        later.neighbor(pos, d).unwrap(),
    ).has_room by {
        let q = b.neighbor(pos, d).unwrap();
        assert(b.neighbor(pos, d) is Some);
        lemma_index_in_range(q, b.size);
        assert(later.grid[cell_index(q, b.size.x)].filled == b.cell(q).filled);
    }
}

/// Where the start cell is marked and every marked cell is hemmed in, the
/// whole grid is marked.
pub proof fn lemma_all_marked(b: BuilderView, pos: Vec2<usize>)
    requires
        in_bounds(b.start_cell, b.size),
        b.cell(b.start_cell).has_room,
        forall|at: Vec2<usize>|
            in_bounds(at, b.size) && b.cell(at).has_room ==> #[trigger] b.hemmed_in(at),
        in_bounds(pos, b.size),
    ensures
        b.cell(pos).has_room,
    decreases
            (if pos.x > b.start_cell.x {
                pos.x - b.start_cell.x
            } else {
                b.start_cell.x - pos.x
            }) + (if pos.y > b.start_cell.y {
                pos.y - b.start_cell.y
            } else {
                b.start_cell.y - pos.y
            }),
{
    let start = b.start_cell;
    if pos.x > start.x {
        let prev = Vec2 { x: (pos.x - 1) as usize, y: pos.y };
        lemma_all_marked(b, prev);
        assert(b.hemmed_in(prev));
        assert(b.neighbor(prev, Direction::East) == Some(pos));
    } else if pos.x < start.x {
        let prev = Vec2 { x: (pos.x + 1) as usize, y: pos.y };
        lemma_all_marked(b, prev);
        assert(b.hemmed_in(prev));
        assert(b.neighbor(prev, Direction::West) == Some(pos));
    } else if pos.y > start.y {
        let prev = Vec2 { x: pos.x, y: (pos.y - 1) as usize };
        lemma_all_marked(b, prev);
        assert(b.hemmed_in(prev));
        assert(b.neighbor(prev, Direction::South) == Some(pos));
    } else if pos.y < start.y {
        let prev = Vec2 { x: pos.x, y: (pos.y + 1) as usize };
        lemma_all_marked(b, prev);
        assert(b.hemmed_in(prev));
        assert(b.neighbor(prev, Direction::North) == Some(pos));
    }
}

/// Links the room of the node `id` with the room of the node `neighbor`, which
/// lies on its side `direction`: an edge each way in the graph, and an exit
/// in the wall of that side, at a place drawn at random.
fn link_rooms(graph: &mut Graph<Room>, id: usize, neighbor: usize, direction: Direction) -> (offset:
    Ghost<usize>)
    requires
        old(graph).wf(),
        id != neighbor,
        id < old(graph)@.len(),
        neighbor < old(graph)@.len(),
        room_of(*old(graph), id as int).wf(),
    ensures
        final(graph).wf(),
        final(graph)@.len() == old(graph)@.len(),
        forall|j: int|
            0 <= j < old(graph)@.len() && j != id ==> #[trigger] room_of(*final(graph), j)
                == room_of(*old(graph), j),
        offset_fits(room_of(*old(graph), id as int).size, direction, offset@),
        room_of(*final(graph), id as int) == room_of(*old(graph), id as int).with_exit(
            direction,
            neighbor,
            offset@,
        ),
        forall|a: int, b: int| old(graph).has_edge(a, b) ==> #[trigger] final(graph).has_edge(a, b),
        final(graph).has_edge(id as int, neighbor as int),
        final(graph).has_edge(neighbor as int, id as int),
        forall|a: int, b: int| #[trigger] final(graph).has_edge(a, b)
            ==> old(graph).has_edge(a, b) || (a == id && b == neighbor) || (a == neighbor && b
            == id),
        forall|j: int|
            0 <= j < old(graph)@.len() && j != id && j != neighbor ==> #[trigger] final(graph)@[j]
                == old(graph)@[j],
{
    let _ = graph.add_neighbor(id, neighbor);
    let ghost forth = *graph;
    let _ = graph.add_neighbor(neighbor, id);
    let ghost edged = *graph;
    assert(edged.has_edge(id as int, neighbor as int));
    assert forall|a: int, b: int| #[trigger] edged.has_edge(a, b) implies old(graph).has_edge(a, b)
        || (a == id && b == neighbor) || (a == neighbor && b == id) by {
        if !(a == neighbor && b == id) {
            assert(forth.has_edge(a, b));
        }
    }
    let ghost mut offset: usize = 0;
    match graph.get_mut(id) {
        Some(node) => {
            let data = node.data_mut();
            let ghost uncut = data@;
            data.add_neighbor(direction, neighbor);
            proof {
                offset =
                choose|offset: usize|
                    offset_fits(uncut.size, direction, offset) && data@ == #[trigger] uncut.with_exit(
                        direction,
                        neighbor,
                        offset,
                    );
            }
        },
        None => {},
    }
    proof {
        assert forall|a: int, b: int| edged.has_edge(a, b) implies #[trigger] graph.has_edge(
            a,
            b,
        ) by {
            if a != id {
                assert(graph@[a] == edged@[a]);
            }
        }
        assert forall|a: int, b: int| #[trigger] graph.has_edge(a, b) implies edged.has_edge(
            a,
            b,
        ) by {
            if a != id {
                assert(graph@[a] == edged@[a]);
            }
        }
        assert forall|i: int| 0 <= i < graph@.len() implies crate::utils::graph::neighbors_in_order(
            #[trigger] graph@[i].spec_neighbors(),
            i,
            graph@.len(),
        ) by {
            assert(crate::utils::graph::neighbors_in_order(
                edged@[i].spec_neighbors(),
                i,
                edged@.len(),
            ));
        }
    }
    Ghost(offset)
}

/// A link stays when another side of some room gets its exit.
pub proof fn lemma_link_keeps(
    b: BuilderView,
    g: Graph<Room>,
    g2: Graph<Room>,
    cut: Vec2<usize>,
    side: Direction,
    pos: Vec2<usize>,
    d: Direction,
)
    requires
        b.link_done(g, pos, d),
        g2@.len() == g@.len(),
        in_bounds(pos, b.size),
        b.cell(pos).node < g@.len(),
        forall|j: int|
            0 <= j < g@.len() && j != b.cell(cut).node ==> #[trigger] room_of(g2, j) == room_of(g, j),
        forall|other: Direction|
            other != side ==> (#[trigger] room_of(g2, b.cell(cut).node as int).has_exit(other))
                == room_of(g, b.cell(cut).node as int).has_exit(other),
        room_of(g2, b.cell(cut).node as int).has_exit(side),
        forall|a: int, c: int| g.has_edge(a, c) ==> #[trigger] g2.has_edge(a, c),
    ensures
        b.link_done(g2, pos, d),
{
    if b.neighbor(pos, d) is Some && b.cell(b.neighbor(pos, d).unwrap()).has_room {
        let node = b.cell(pos).node as int;
        assert(g2.has_edge(node, b.cell(b.neighbor(pos, d).unwrap()).node as int));
        if node != b.cell(cut).node {
            assert(room_of(g2, node) == room_of(g, node));
        }
    }
}

/// Grid and graph have still grown when a room that came after got an exit
/// and the graph new edges.
pub proof fn lemma_grown_linked(
    b0: BuilderView,
    g0: Graph<Room>,
    b: BuilderView,
    g: Graph<Room>,
    g2: Graph<Room>,
    id: int,
)
    requires
        b0.grown(g0, b, g),
        g0@.len() <= id,
        g2@.len() == g@.len(),
        forall|j: int| 0 <= j < g@.len() && j != id ==> #[trigger] room_of(g2, j) == room_of(g, j),
        forall|a: int, c: int| g.has_edge(a, c) ==> #[trigger] g2.has_edge(a, c),
        forall|j: int| 0 <= j < b0.first_node && j < g@.len() ==> #[trigger] g2@[j] == g@[j],
    ensures
        b0.grown(g0, b, g2),
{
    assert forall|j: int| 0 <= j < b0.first_node && j < g0@.len() implies #[trigger] g2@[j]
        == g0@[j] by {
        assert(g@[j] == g0@[j]);
    }
    assert forall|j: int| 0 <= j < g0@.len() implies #[trigger] room_of(g2, j) == room_of(g0, j) by {
        assert(room_of(g, j) == room_of(g0, j));
    }
    assert forall|a: int, c: int| g0.has_edge(a, c) implies #[trigger] g2.has_edge(a, c) by {
        assert(g.has_edge(a, c));
    }
}

/// On a generated floor the edges of the graph are the adjacency of the
/// cells: a room of the floor and another node have an edge exactly when
/// they are the rooms of two cells that lie next to each other, so every
/// such edge has its return edge. No room has an edge to itself, and every
/// edge leads to a node of the graph.
pub proof fn lemma_edges_are_adjacency(b: BuilderView, g: Graph<Room>, a: int, c: int)
    requires
        b.wf(),
        b.finished(g),
        b.first_node <= a || b.first_node <= c,
    ensures
        g.has_edge(a, c) == b.nodes_adjacent(a, c),
        g.has_edge(a, c) == g.has_edge(c, a),
        g.has_edge(a, c) ==> a != c && 0 <= a < g@.len() && 0 <= c < g@.len(),
{
    lemma_adjacent_nodes_linked(b, g, a, c);
    lemma_adjacent_nodes_linked(b, g, c, a);
    if b.nodes_adjacent(a, c) {
        lemma_adjacency_turns(b, a, c);
    }
    if b.nodes_adjacent(c, a) {
        lemma_adjacency_turns(b, c, a);
    }
    if g.has_edge(a, c) {
        let list = g@[a].spec_neighbors();
        assert(crate::utils::graph::neighbors_in_order(list, a, g@.len()));
        let k = choose|k: int| 0 <= k < list.len() && list[k] == c as usize;
        assert(list[k] < g@.len() && list[k] != a);
    }
}

/// The rooms of two cells that lie next to each other have an edge, once
/// the second pass is through.
proof fn lemma_adjacent_nodes_linked(b: BuilderView, g: Graph<Room>, a: int, c: int)
    requires
        b.wf(),
        b.finished(g),
    ensures
        b.nodes_adjacent(a, c) ==> g.has_edge(a, c),
{
    if b.nodes_adjacent(a, c) {
        let (p, d) = choose|p: Vec2<usize>, d: Direction|
            {
                &&& in_bounds(p, b.size)
                &&& b.cell(p).filled
                &&& b.cell(p).node == a
                &&& (#[trigger] b.neighbor(p, d)) is Some
                &&& b.cell(b.neighbor(p, d).unwrap()).filled
                &&& b.cell(b.neighbor(p, d).unwrap()).node == c
            };
        let next = b.neighbor(p, d).unwrap();
        lemma_index_in_range(next, b.size);
        assert(b.cell(next).has_room);
        assert(b.link_done(g, p, d));
    }
}

/// Lying next to each other goes both ways.
proof fn lemma_adjacency_turns(b: BuilderView, a: int, c: int)
    requires
        b.nodes_adjacent(a, c),
    ensures
        b.nodes_adjacent(c, a),
{
    let (p, d) = choose|p: Vec2<usize>, d: Direction|
        {
            &&& in_bounds(p, b.size)
            &&& b.cell(p).filled
            &&& b.cell(p).node == a
            &&& (#[trigger] b.neighbor(p, d)) is Some
            &&& b.cell(b.neighbor(p, d).unwrap()).filled
            &&& b.cell(b.neighbor(p, d).unwrap()).node == c
        };
    let next = b.neighbor(p, d).unwrap();
    assert(b.neighbor(next, d.inverted()) == Some(p));
    assert(b.neighbor(next, d.inverted()) is Some);
}

/// On a generated floor the exits of a room and its edges go together: every
/// exit leads to a room that the room has an edge to; for every edge the room
/// has exactly one exit that leads there; and exits on different sides lead
/// to different rooms.
pub proof fn lemma_exits_match_edges(b: BuilderView, g: Graph<Room>, pos: Vec2<usize>)
    requires
        b.wf(),
        b.finished(g),
        in_bounds(pos, b.size),
        b.cell(pos).filled,
    ensures
        forall|at: Vec2<usize>|
            in_bounds(at, room_of(g, b.cell(pos).node as int).size) ==> (#[trigger] room_of(
                g,
                b.cell(pos).node as int,
            ).tile_at(at).id matches crate::world::TileType::Exit { node_id, .. } ==> g.has_edge(
                b.cell(pos).node as int,
                node_id as int,
            )),
        forall|n: int| #[trigger]
            g.has_edge(b.cell(pos).node as int, n) ==> exists|d: Direction|
                {
                    &&& #[trigger] room_of(g, b.cell(pos).node as int).has_exit(d)
                    &&& room_of(g, b.cell(pos).node as int).one_exit(d)
                    &&& room_of(g, b.cell(pos).node as int).exit_leads(d, n as usize)
                },
        forall|d: Direction, e: Direction, n: usize|
            d != e && room_of(g, b.cell(pos).node as int).has_exit(d) && room_of(
                g,
                b.cell(pos).node as int,
            ).has_exit(e) && #[trigger] room_of(g, b.cell(pos).node as int).exit_leads(d, n)
                ==> !(#[trigger] room_of(g, b.cell(pos).node as int).exit_leads(e, n)),
{
    let a = b.cell(pos).node as int;
    let room = room_of(g, a);
    lemma_index_in_range(pos, b.size);
    assert(room.wf());
    assert forall|at: Vec2<usize>| in_bounds(at, room.size) implies (#[trigger] room.tile_at(
        at,
    ).id matches crate::world::TileType::Exit { node_id, .. } ==> g.has_edge(a, node_id as int)) by {
        if let crate::world::TileType::Exit { node_id, exiting_direction } = room.tile_at(at).id {
            assert(room.exit_faces(at, exiting_direction));
            assert(b.exit_sound(g, pos, exiting_direction));
            let next = b.neighbor(pos, exiting_direction).unwrap();
            lemma_index_in_range(next, b.size);
            assert(b.cell(next).has_room);
            assert(b.link_done(g, pos, exiting_direction));
        }
    }
    assert forall|n: int| #[trigger] g.has_edge(a, n) implies exists|d: Direction|
        {
            &&& #[trigger] room.has_exit(d)
            &&& room.one_exit(d)
            &&& room.exit_leads(d, n as usize)
        } by {
        assert(b.nodes_adjacent(a, n));
        let (p, d) = choose|p: Vec2<usize>, d: Direction|
            {
                &&& in_bounds(p, b.size)
                &&& b.cell(p).filled
                &&& b.cell(p).node == a
                &&& (#[trigger] b.neighbor(p, d)) is Some
                &&& b.cell(b.neighbor(p, d).unwrap()).filled
                &&& b.cell(b.neighbor(p, d).unwrap()).node == n
            };
        assert(p == pos);
        let next = b.neighbor(pos, d).unwrap();
        lemma_index_in_range(next, b.size);
        assert(b.cell(next).has_room);
        assert(b.link_done(g, pos, d));
        assert(b.exit_sound(g, pos, d));
        assert(room.has_exit(d));
    }
    assert forall|d: Direction, e: Direction, n: usize|
        d != e && room.has_exit(d) && room.has_exit(e) && #[trigger] room.exit_leads(
            d,
            n,
        ) implies !(#[trigger] room.exit_leads(e, n)) by {
        assert(b.exit_sound(g, pos, d));
        assert(b.exit_sound(g, pos, e));
        let to_d = b.neighbor(pos, d).unwrap();
        let to_e = b.neighbor(pos, e).unwrap();
        let at_d = choose|at: Vec2<usize>| #[trigger] room.exit_faces(at, d);
        let at_e = choose|at: Vec2<usize>| #[trigger] room.exit_faces(at, e);
        assert(to_d != to_e);
        lemma_index_in_range(to_d, b.size);
        lemma_index_in_range(to_e, b.size);
        assert(b.cell(to_d).node != b.cell(to_e).node);
        if room.exit_leads(e, n) {
            assert(room.tile_at(at_d).id == (crate::world::TileType::Exit {
                node_id: n,
                exiting_direction: d,
            }));
            assert(room.tile_at(at_d).id == (crate::world::TileType::Exit {
                node_id: b.cell(to_d).node,
                exiting_direction: d,
            }));
            assert(room.tile_at(at_e).id == (crate::world::TileType::Exit {
                node_id: n,
                exiting_direction: e,
            }));
            assert(room.tile_at(at_e).id == (crate::world::TileType::Exit {
                node_id: b.cell(to_e).node,
                exiting_direction: e,
            }));
        }
    }
}

/// On a generated floor every room can be reached from the first room of
/// the floor along the edges of the graph.
pub proof fn lemma_all_rooms_reached(b: BuilderView, g: Graph<Room>, id: int)
    requires
        b.generated(g),
        b.owns(g, id),
    ensures
        g.reaches(b.first_node as int, id),
{
    assert(b.has_cell_for(id));
    let pos = choose|pos: Vec2<usize>|
        in_bounds(pos, b.size) && (#[trigger] b.cell(pos)).filled && b.cell(pos).node == id;
    lemma_index_in_range(pos, b.size);
    assert(b.cell(pos).has_room);
    assert(b.joined(b.start_cell, pos));
    let path = choose|path: Seq<Vec2<usize>>| #[trigger]
        b.is_path(path) && path[0] == b.start_cell && path.last() == pos;
    let walk = Seq::new(path.len(), |i: int| b.cell(path[i]).node as int);
    assert forall|i: int| 0 <= i < walk.len() implies 0 <= #[trigger] walk[i] < g@.len() by {
        assert(in_bounds(path[i], b.size));
        assert(b.cell(path[i]).filled);
    }
    assert forall|i: int| 0 <= i < walk.len() - 1 implies g.has_edge(
        #[trigger] walk[i],
        walk[i + 1],
    ) by {
        assert(in_bounds(path[i], b.size));
        assert(in_bounds(path[i + 1], b.size));
        assert(b.cell(path[i]).filled);
        assert(b.cell(path[i + 1]).filled);
        assert(b.next_to(path[i], path[i + 1]));
        let d = choose|d: Direction| #[trigger] b.neighbor(path[i], d) == Some(path[i + 1]);
        assert(b.link_done(g, path[i], d));
    }
    assert(g.is_walk(walk));
    assert(b.cell(b.start_cell).has_room);
    assert(walk[0] == b.first_node);
    assert(walk.last() == id);
}

/// Whether a tile is an exit.
pub open spec fn is_exit() -> spec_fn(crate::world::TileView) -> bool {
    |tile: crate::world::TileView| tile.id is Exit
}

/// Whether a tile is an exit on the side `side`.
pub open spec fn is_exit_on(side: Direction) -> spec_fn(crate::world::TileView) -> bool {
    |tile: crate::world::TileView|
        tile.id matches crate::world::TileType::Exit { exiting_direction, .. } && exiting_direction
            == side
}

/// One if the room has an exit on the side `side`, nought if not.
pub open spec fn exit_on(room: RoomView, side: Direction) -> nat {
    if room.has_exit(side) {
        1
    } else {
        0
    }
}

/// The number of sides on which the room has an exit.
pub open spec fn sides_with_exit(room: RoomView) -> nat {
    exit_on(room, Direction::North) + exit_on(room, Direction::East) + exit_on(
        room,
        Direction::South,
    ) + exit_on(room, Direction::West)
}

/// A room with no more than one exit on a side has as many exit tiles on
/// that side as it has exits there: one or none.
proof fn lemma_exits_on_side(room: RoomView, side: Direction)
    requires
        room.wf(),
        room.has_exit(side) ==> room.one_exit(side),
    ensures
        count_where(room.tiles, is_exit_on(side)) == exit_on(room, side),
{
    if room.has_exit(side) {
        let at = choose|at: Vec2<usize>| #[trigger] room.exit_faces(at, side);
        lemma_index_in_range(at, room.size);
        let i = cell_index(at, room.size.x);
        assert forall|j: int| 0 <= j < room.tiles.len() && j != i implies !is_exit_on(side)(
            #[trigger] room.tiles[j],
        ) by {
            lemma_position_of(j, room.size);
            let pos = position_of(j, room.size.x);
            if is_exit_on(side)(room.tiles[j]) {
                assert(room.exit_faces(pos, side));
            }
        }
        crate::utils::count::lemma_count_one(room.tiles, is_exit_on(side), i);
    } else {
        assert forall|j: int| 0 <= j < room.tiles.len() implies !is_exit_on(side)(
            #[trigger] room.tiles[j],
        ) by {
            lemma_position_of(j, room.size);
            let pos = position_of(j, room.size.x);
            if is_exit_on(side)(room.tiles[j]) {
                assert(room.exit_faces(pos, side));
            }
        }
        lemma_count_none(room.tiles, is_exit_on(side));
    }
}

/// Whether `n` is the node that the room of the cell at `pos` is linked to
/// on its side `side`.
pub open spec fn is_linked_node(
    b: BuilderView,
    g: Graph<Room>,
    pos: Vec2<usize>,
    side: Direction,
) -> spec_fn(usize) -> bool {
    |n: usize|
        room_of(g, b.cell(pos).node as int).has_exit(side) && b.neighbor(pos, side) is Some && n
            == b.cell(b.neighbor(pos, side).unwrap()).node
}

/// On a generated floor a room has one edge for its exit on a side, and none
/// where it has no exit there.
proof fn lemma_edges_on_side(b: BuilderView, g: Graph<Room>, pos: Vec2<usize>, side: Direction)
    requires
        b.wf(),
        b.finished(g),
        in_bounds(pos, b.size),
        b.cell(pos).filled,
    ensures
        count_where(g@[b.cell(pos).node as int].spec_neighbors(), is_linked_node(b, g, pos, side))
            == exit_on(room_of(g, b.cell(pos).node as int), side),
{
    let a = b.cell(pos).node as int;
    let room = room_of(g, a);
    let list = g@[a].spec_neighbors();
    let pred = is_linked_node(b, g, pos, side);
    assert(crate::utils::graph::neighbors_in_order(list, a, g@.len()));
    if room.has_exit(side) {
        assert(b.exit_sound(g, pos, side));
        let next = b.neighbor(pos, side).unwrap();
        lemma_index_in_range(next, b.size);
        assert(b.cell(next).has_room);
        assert(b.link_done(g, pos, side));
        let i = choose|i: int| 0 <= i < list.len() && list[i] == b.cell(next).node;
        assert forall|j: int| 0 <= j < list.len() && j != i implies !pred(#[trigger] list[j]) by {
            assert(list[j] != list[i]);
        }
        crate::utils::count::lemma_count_one(list, pred, i);
    } else {
        lemma_count_none(list, pred);
    }
}

/// On a generated floor every room has exactly as many exit tiles as it has
/// edges in the graph: one for each side on which a marked cell lies next to
/// its own.
pub proof fn lemma_as_many_exits_as_edges(b: BuilderView, g: Graph<Room>, pos: Vec2<usize>)
    requires
        b.wf(),
        b.finished(g),
        in_bounds(pos, b.size),
        b.cell(pos).filled,
    ensures
        count_where(room_of(g, b.cell(pos).node as int).tiles, is_exit()) == sides_with_exit(
            room_of(g, b.cell(pos).node as int),
        ),
        g@[b.cell(pos).node as int].spec_neighbors().len() == sides_with_exit(
            room_of(g, b.cell(pos).node as int),
        ),
        count_where(room_of(g, b.cell(pos).node as int).tiles, is_exit())
            == g@[b.cell(pos).node as int].spec_neighbors().len(),
{
    let a = b.cell(pos).node as int;
    let room = room_of(g, a);
    let list = g@[a].spec_neighbors();
    let north = Direction::North;
    let east = Direction::East;
    let south = Direction::South;
    let west = Direction::West;
    lemma_index_in_range(pos, b.size);
    assert(room.wf());
    assert(b.exit_sound(g, pos, north));
    assert(b.exit_sound(g, pos, east));
    assert(b.exit_sound(g, pos, south));
    assert(b.exit_sound(g, pos, west));

    // The exit tiles, side by side.
    lemma_exits_on_side(room, north);
    lemma_exits_on_side(room, east);
    lemma_exits_on_side(room, south);
    lemma_exits_on_side(room, west);
    assert forall|i: int| 0 <= i < room.tiles.len() implies is_exit()(#[trigger] room.tiles[i]) == (
    is_exit_on(north)(room.tiles[i]) || is_exit_on(east)(room.tiles[i]) || is_exit_on(south)(
        room.tiles[i],
    ) || is_exit_on(west)(room.tiles[i])) by {
        if let crate::world::TileType::Exit { exiting_direction, .. } = room.tiles[i].id {
            assert(exiting_direction == north || exiting_direction == east || exiting_direction
                == south || exiting_direction == west);
        }
    }
    crate::utils::count::lemma_count_split(
        room.tiles,
        is_exit(),
        is_exit_on(north),
        is_exit_on(east),
        is_exit_on(south),
        is_exit_on(west),
    );

    // The edges, side by side.
    lemma_edges_on_side(b, g, pos, north);
    lemma_edges_on_side(b, g, pos, east);
    lemma_edges_on_side(b, g, pos, south);
    lemma_edges_on_side(b, g, pos, west);
    let any = |n: usize| true;
    assert forall|i: int| 0 <= i < list.len() implies any(#[trigger] list[i]) == (is_linked_node(
        b,
        g,
        pos,
        north,
    )(list[i]) || is_linked_node(b, g, pos, east)(list[i]) || is_linked_node(b, g, pos, south)(
        list[i],
    ) || is_linked_node(b, g, pos, west)(list[i])) by {
        assert(g.has_edge(a, list[i] as int));
        assert(b.nodes_adjacent(a, list[i] as int));
        let (p, d) = choose|p: Vec2<usize>, d: Direction|
            {
                &&& in_bounds(p, b.size)
                &&& b.cell(p).filled
                &&& b.cell(p).node == a
                &&& (#[trigger] b.neighbor(p, d)) is Some
                &&& b.cell(b.neighbor(p, d).unwrap()).filled
                &&& b.cell(b.neighbor(p, d).unwrap()).node == list[i]
            };
        assert(p == pos);
        let next = b.neighbor(pos, d).unwrap();
        lemma_index_in_range(next, b.size);
        assert(b.cell(next).has_room);
        assert(b.link_done(g, pos, d));
        assert(d == north || d == east || d == south || d == west);
    }
    assert forall|i: int| 0 <= i < list.len() implies {
        &&& !(is_linked_node(b, g, pos, north)(#[trigger] list[i]) && is_linked_node(
            b,
            g,
            pos,
            east,
        )(list[i]))
        &&& !(is_linked_node(b, g, pos, north)(list[i]) && is_linked_node(b, g, pos, south)(
            list[i],
        ))
        &&& !(is_linked_node(b, g, pos, north)(list[i]) && is_linked_node(b, g, pos, west)(
            list[i],
        ))
        &&& !(is_linked_node(b, g, pos, east)(list[i]) && is_linked_node(b, g, pos, south)(
            list[i],
        ))
        &&& !(is_linked_node(b, g, pos, east)(list[i]) && is_linked_node(b, g, pos, west)(list[i]))
        &&& !(is_linked_node(b, g, pos, south)(list[i]) && is_linked_node(b, g, pos, west)(
            list[i],
        ))
    } by {
        lemma_sides_lead_apart(b, g, pos, north, east);
        lemma_sides_lead_apart(b, g, pos, north, south);
        lemma_sides_lead_apart(b, g, pos, north, west);
        lemma_sides_lead_apart(b, g, pos, east, south);
        lemma_sides_lead_apart(b, g, pos, east, west);
        lemma_sides_lead_apart(b, g, pos, south, west);
    }
    crate::utils::count::lemma_count_split(
        list,
        any,
        is_linked_node(b, g, pos, north),
        is_linked_node(b, g, pos, east),
        is_linked_node(b, g, pos, south),
        is_linked_node(b, g, pos, west),
    );
    lemma_count_all(list, any);
}

/// The cells on two different sides of a cell have different rooms.
proof fn lemma_sides_lead_apart(
    b: BuilderView,
    g: Graph<Room>,
    pos: Vec2<usize>,
    d: Direction,
    e: Direction,
)
    requires
        b.wf(),
        b.linked(g),
        in_bounds(pos, b.size),
        b.cell(pos).filled,
        d != e,
    ensures
        room_of(g, b.cell(pos).node as int).has_exit(d) && room_of(
            g,
            b.cell(pos).node as int,
        ).has_exit(e) ==> b.neighbor(pos, d) is Some && b.neighbor(pos, e) is Some && b.cell(
            b.neighbor(pos, d).unwrap(),
        ).node != b.cell(b.neighbor(pos, e).unwrap()).node,
{
    let room = room_of(g, b.cell(pos).node as int);
    if room.has_exit(d) && room.has_exit(e) {
        assert(b.exit_sound(g, pos, d));
        assert(b.exit_sound(g, pos, e));
        let to_d = b.neighbor(pos, d).unwrap();
        let to_e = b.neighbor(pos, e).unwrap();
        assert(to_d != to_e);
        lemma_index_in_range(to_d, b.size);
        lemma_index_in_range(to_e, b.size);
    }
}

} // verus!
