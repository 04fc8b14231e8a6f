//! The world: the places the player can be in, one of which is active.
//!
//! For now every place is a dungeon. The world hands every request on to
//! the active place.

use crate::entity::EntityMap;
use crate::log::{reports_logged, Log};
use crate::player::{Player, PlayerView};
use crate::utils::{Graph, Vec2};
use crate::world::dungeon::{
    lemma_dungeon_player_input, lemma_dungeon_step, Dungeon, DungeonView, Passage,
};
use crate::world::room::{entity_views, RoomView};
use crate::world::WorldError;
use vstd::prelude::*;

verus! {

/// A place of the world.
pub enum WorldNode {
    DungeonNode(Dungeon),
}

/// A place of the world as a mathematical value.
pub enum WorldNodeView {
    DungeonNode(DungeonView),
}

impl View for WorldNode {
    type V = WorldNodeView;

    open spec fn view(&self) -> WorldNodeView {
        match self {
            WorldNode::DungeonNode(dungeon) => WorldNodeView::DungeonNode(dungeon@),
        }
    }
}

impl WorldNodeView {
    pub open spec fn wf(self) -> bool {
        match self {
            WorldNodeView::DungeonNode(dungeon) => dungeon.wf(),
        }
    }

    /// The dungeon of this place.
    pub open spec fn dungeon(self) -> DungeonView {
        match self {
            WorldNodeView::DungeonNode(dungeon) => dungeon,
        }
    }
}

pub struct World {
    active_node: usize,
    world_map: Graph<WorldNode>,
}

/// The world as a mathematical value.
pub struct WorldView {
    pub active_node: usize,
    /// The places in the order of their graph nodes.
    pub nodes: Seq<WorldNodeView>,
    /// For each place, the places it has an edge to.
    pub links: Seq<Seq<usize>>,
}

impl WorldView {
    /// The world is in order: the active place exists, and every place is
    /// in order.
    pub open spec fn wf(self) -> bool {
        &&& self.active_node < self.nodes.len()
        &&& forall|i: int| 0 <= i < self.nodes.len() ==> (#[trigger] self.nodes[i]).wf()
    }

    /// Whether in every place the rooms of a floor draw the ids of their
    /// creatures from ranges that lie apart.
    pub open spec fn ids_apart(self) -> bool {
        forall|i: int| 0 <= i < self.nodes.len()
            ==> (#[trigger] self.nodes[i]).dungeon().ids_apart()
    }

    /// Whether in every place every exit of every room leads to a room of its
    /// floor that has an entrance for those who come through it.
    pub open spec fn paired(self) -> bool {
        forall|i: int| 0 <= i < self.nodes.len() ==> (#[trigger] self.nodes[i]).dungeon().paired()
    }

    /// The dungeon the player is in.
    pub open spec fn active(self) -> DungeonView {
        self.nodes[self.active_node as int].dungeon()
    }

    /// The world with `dungeon` in the place of the active dungeon.
    pub open spec fn with_active(self, dungeon: DungeonView) -> WorldView {
        WorldView {
            nodes: self.nodes.update(
                self.active_node as int,
                WorldNodeView::DungeonNode(dungeon),
            ),
            ..self
        }
    }

    /// The world and the player after one step of the active place.
    pub open spec fn after_step(self, player: PlayerView) -> (WorldView, PlayerView) {
        let (dungeon, hurt) = self.active().after_step(player);
        (self.with_active(dungeon), hurt)
    }

    /// The world and the player after the player asked to enter `new_pos`,
    /// and where that took them.
    pub open spec fn after_player_input(self, player: PlayerView, new_pos: Vec2<usize>) -> (
        WorldView,
        PlayerView,
        Passage,
    ) {
        let (dungeon, moved, passage) = self.active().after_player_input(player, new_pos);
        (self.with_active(dungeon), moved, passage)
    }
}

impl View for World {
    type V = WorldView;

    closed spec fn view(&self) -> WorldView {
        WorldView {
            active_node: self.active_node,
            nodes: Seq::new(self.world_map@.len(), |i: int| self.world_map@[i].spec_data()@),
            links: self.world_map.links(),
        }
    }
}

/// What the world hands on to its active place leaves the world in order.
pub proof fn lemma_world_with_active(world: WorldView, dungeon: DungeonView)
    requires
        world.wf(),
        dungeon.wf(),
    ensures
        world.with_active(dungeon).wf(),
        world.with_active(dungeon).active() == dungeon,
        world.ids_apart() && dungeon.ids_apart() ==> world.with_active(dungeon).ids_apart(),
        world.paired() && dungeon.paired() ==> world.with_active(dungeon).paired(),
{
    let after = world.with_active(dungeon);
    assert forall|i: int| 0 <= i < after.nodes.len() implies (#[trigger] after.nodes[i]).wf() by {
        if i != world.active_node {
            assert(world.nodes[i].wf());
        }
    }
    if world.paired() && dungeon.paired() {
        assert forall|i: int| 0 <= i < after.nodes.len() implies (
        #[trigger] after.nodes[i]).dungeon().paired() by {
            if i != world.active_node {
                assert(world.nodes[i].dungeon().paired());
            }
        }
    }
    if world.ids_apart() && dungeon.ids_apart() {
        assert forall|i: int| 0 <= i < after.nodes.len() implies (
        #[trigger] after.nodes[i]).dungeon().ids_apart() by {
            if i != world.active_node {
                assert(world.nodes[i].dungeon().ids_apart());
            }
        }
    }
}

impl World {
    /// Makes a world of one place, a newly generated dungeon.
    pub fn new() -> (world: World)
        ensures
            world@.wf(),
            world@.active_node == 0,
            world@.nodes.len() == 1,
            world@.active().active_floor == 0,
            world@.active().active_room == 0,
            world@.active().floors.len() == 1,
            world@.active().floors[0].len() == 10,
            world@.links == seq![Seq::<usize>::empty()],
            world@.active().freshly_generated(),
            world@.ids_apart(),
            world@.paired(),
            forall|r: int|
                0 <= r < 10 ==> 1 <= (#[trigger] world@.active().floors[0][r]).entities.len()
                    < crate::world::dungeon_builder::MOST_CREATURES,
    {
        World::with_dungeon(Dungeon::new(1))
    }

    /// Makes a world of one place, the dungeon `dungeon`.
    pub fn with_dungeon(dungeon: Dungeon) -> (world: World)
        requires
            dungeon@.wf(),
        ensures
            world@ == (WorldView {
                active_node: 0,
                nodes: seq![WorldNodeView::DungeonNode(dungeon@)],
                links: seq![Seq::<usize>::empty()],
            }),
            world@.wf(),
            dungeon@.ids_apart() ==> world@.ids_apart(),
            dungeon@.paired() ==> world@.paired(),
    {
        let mut world_map = Graph::new();
        let active_node = world_map.new_node(WorldNode::DungeonNode(dungeon));
        let world = World { active_node, world_map };
        proof {
            assert(world@.nodes =~= seq![WorldNodeView::DungeonNode(dungeon@)]);
            assert(world@.links =~= seq![Seq::<usize>::empty()]);
        }
        world
    }

    /// The place `node`.
    pub fn get_node(&self, node: usize) -> (res: Result<&WorldNode, WorldError>)
        ensures
            res.is_ok() == (node < self@.nodes.len()),
            res matches Ok(found) ==> found@ == self@.nodes[node as int],
            res matches Err(e) ==> e == WorldError::InvalidRoomReference,
    {
        match self.world_map.get(node) {
            Some(found) => Ok(found.data()),
            None => Err(WorldError::InvalidRoomReference),
        }
    }

    pub fn active_node(&self) -> (node: &WorldNode)
        requires
            self@.wf(),
        ensures
            node@ == self@.nodes[self@.active_node as int],
    {
        match self.world_map.get(self.active_node) {
            Some(found) => found.data(),
            None => {
                assert(false);
                vstd::pervasive::unreached()
            },
        }
    }

    pub fn valid_position(&self, pos: Vec2<usize>) -> (valid: bool)
        requires
            self@.wf(),
        ensures
            valid == self@.active().active().valid_position(pos),
    {
        proof {
            assert(self@.nodes[self@.active_node as int].wf());
        }
        match self.active_node() {
            WorldNode::DungeonNode(dungeon) => dungeon.valid_position(pos),
        }
    }

    pub fn starting_position(&self) -> (pos: Vec2<usize>)
        requires
            self@.wf(),
        ensures
            pos == self@.active().entrance().init_pos,
    {
        proof {
            assert(self@.nodes[self@.active_node as int].wf());
        }
        match self.active_node() {
            WorldNode::DungeonNode(dungeon) => dungeon.starting_position(),
        }
    }

    /// The creatures of the active room of the active place.
    pub fn get_entities(&self) -> (res: Option<&EntityMap>)
        requires
            self@.wf(),
        ensures
            res matches Some(entities) && entity_views(entities@)
                == self@.active().active().entities,
    {
        proof {
            assert(self@.nodes[self@.active_node as int].wf());
        }
        match self.active_node() {
            WorldNode::DungeonNode(dungeon) => Some(dungeon.get_entities()),
        }
    }

    /// Lends out the creatures of the active room of the active place.
    /// Whoever changes them answers for the order of the room.
    pub fn get_mut_entities(&mut self) -> (res: Option<&mut EntityMap>)
        requires
            old(self)@.wf(),
        ensures
            res matches Some(entities) && {
                &&& entity_views(entities@) == old(self)@.active().active().entities
                &&& final(self)@.active_node == old(self)@.active_node
                &&& final(self)@.nodes.len() == old(self)@.nodes.len()
                &&& final(self)@.links.len() == old(self)@.links.len()
                &&& forall|i: int|
                    0 <= i < old(self)@.links.len() ==> #[trigger] final(self)@.links[i] == old(self)@.links[i]
                &&& forall|i: int|
                    0 <= i < old(self)@.nodes.len() && i != old(self)@.active_node
                        ==> #[trigger] final(self)@.nodes[i] == old(self)@.nodes[i]
                &&& old(self)@.active().only_active_differs(final(self)@.active())
                &&& final(self)@.active().active() == (RoomView {
                    entities: entity_views(final(entities)@),
                    ..old(self)@.active().active()
                })
            },
    {
        let node_id = self.active_node;
        proof {
            assert(self@.nodes[node_id as int].wf());
        }
        match self.world_map.get_mut(node_id) {
            Some(node) => {
                match node.data_mut() {
                    WorldNode::DungeonNode(dungeon) => Some(dungeon.get_mut_entities()),
                }
            },
            None => {
                assert(false);
                vstd::pervasive::unreached()
            },
        }
    }

    /// Lets the creatures of the active room take their turns.
    pub fn step(&mut self, player: &mut Player)
        requires
            old(self)@.wf(),
            old(self)@.active().active().can_step(old(player)@),
        ensures
            final(self)@ == old(self)@.after_step(old(player)@).0,
            final(player)@ == old(self)@.after_step(old(player)@).1,
            final(self)@.wf(),
            old(self)@.ids_apart() ==> final(self)@.ids_apart(),
            old(self)@.paired() ==> final(self)@.paired(),
    {
        let node_id = self.active_node;
        proof {
            assert(self@.nodes[node_id as int].wf());
        }
        match self.world_map.get_mut(node_id) {
            Some(node) => {
                match node.data_mut() {
                    WorldNode::DungeonNode(dungeon) => dungeon.step(player),
                }
            },
            None => {},
        }
        proof {
            assert(old(self)@.ids_apart()
                ==> old(self)@.nodes[node_id as int].dungeon().ids_apart());
            assert(old(self)@.paired() ==> old(self)@.nodes[node_id as int].dungeon().paired());
            lemma_dungeon_step(old(self)@.active(), old(player)@);
            lemma_world_with_active(old(self)@, old(self)@.active().after_step(old(player)@).0);
            assert(self@.nodes =~= old(self)@.after_step(old(player)@).0.nodes);
            assert(self@.links =~= old(self)@.links);
        }
    }

    /// Resolves the player's request to enter `new_pos` in the active
    /// place.
    pub fn handle_player_input(
        &mut self,
        player: &mut Player,
        new_pos: Vec2<usize>,
        log: &mut Log,
    ) -> (res: Result<(), WorldError>)
        requires
            old(self)@.wf(),
            old(player)@.wf(),
            old(log).wf(),
        ensures
            final(self)@ == old(self)@.after_player_input(old(player)@, new_pos).0,
            final(player)@ == old(self)@.after_player_input(old(player)@, new_pos).1,
            res == (match old(self)@.after_player_input(old(player)@, new_pos).2 {
                Passage::Nowhere => Err::<(), WorldError>(WorldError::InvalidRoomReference),
                Passage::Astray { .. } => Err::<(), WorldError>(WorldError::NoMatchingEntrance),
                _ => Ok::<(), WorldError>(()),
            }),
            final(self)@.wf(),
            old(self)@.ids_apart() ==> final(self)@.ids_apart(),
            old(self)@.paired() ==> final(self)@.paired() && res is Ok,
            final(player)@.wf(),
            final(log).wf(),
            final(log).spec_max_size() == old(log).spec_max_size(),
            reports_logged(
                old(log)@,
                final(log)@,
                old(log).spec_max_size(),
                old(player)@.name,
                old(self)@.active().active().strike_reports(
                    old(player)@,
                    new_pos,
                    old(self)@.active().active().entities.len(),
                ),
            ),
    {
        let node_id = self.active_node;
        proof {
            assert(self@.nodes[node_id as int].wf());
        }
        let mut res = Ok(());
        match self.world_map.get_mut(node_id) {
            Some(node) => {
                match node.data_mut() {
                    WorldNode::DungeonNode(dungeon) => {
                        res = dungeon.handle_player_input(player, new_pos, log);
                    },
                }
            },
            None => {},
        }
        proof {
            assert(old(self)@.ids_apart()
                ==> old(self)@.nodes[node_id as int].dungeon().ids_apart());
            assert(old(self)@.paired() ==> old(self)@.nodes[node_id as int].dungeon().paired());
            lemma_dungeon_player_input(old(self)@.active(), old(player)@, new_pos);
            lemma_world_with_active(
                old(self)@,
                old(self)@.active().after_player_input(old(player)@, new_pos).0,
            );
            assert(self@.nodes =~= old(self)@.after_player_input(old(player)@, new_pos).0.nodes);
            assert(self@.links =~= old(self)@.links);
        }
        res
    }
}

} // verus!
