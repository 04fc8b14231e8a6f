//! The game: a player in a world, driven by one input at a time.

use crate::entity::{Attackable, EntityMap, StatBlock};
use crate::input::{Input, MouseButton, MouseEvent};
use crate::log::{reports_logged, Log};
use crate::player::{Class, Player, PlayerView};
use crate::utils::id_map::{has_id, index_of_id, lemma_index_of_id};
use crate::utils::Vec2;
use crate::world::dungeon::{lemma_dungeon_player_input, Passage};
use crate::world::room::{entity_views, lemma_views_keep_ids};
use crate::world::world::lemma_world_with_active;
use crate::world::{World, WorldError, WorldView};
use crate::entity::CreatureView;
use vstd::prelude::*;
use vstd::string::StringExecFns;

verus! {

/// What a new game is made from.
pub struct GameOptions {
    width: usize,
    height: usize,
    player_name: String,
    player_class: Class,
}

impl GameOptions {
    pub closed spec fn spec_width(&self) -> usize {
        self.width
    }

    pub closed spec fn spec_height(&self) -> usize {
        self.height
    }

    pub closed spec fn spec_player_name(&self) -> Seq<char> {
        self.player_name@
    }

    pub closed spec fn spec_player_class(&self) -> Class {
        self.player_class
    }

    pub fn new(width: usize, height: usize, player_name: String, player_class: Class) -> (options:
        GameOptions)
        ensures
            options.spec_width() == width,
            options.spec_height() == height,
            options.spec_player_name() == player_name@,
            options.spec_player_class() == player_class,
    {
        GameOptions { width, height, player_name, player_class }
    }
}

pub struct Game {
    player: Player,
    world: World,
    viewport: Vec2<usize>,
    step: bool,
    log: Log,
}

/// The coordinate `by` steps from `coord`; `coord` itself where that would
/// leave the range of coordinates.
pub open spec fn shifted(coord: usize, by: i32) -> usize {
    if 0 <= coord + by <= usize::MAX {
        (coord + by) as usize
    } else {
        coord
    }
}

/// The creature that a click on `position` picks among the first `n`: the
/// last one that is in the way there, if any.
pub open spec fn picked(entities: Seq<(usize, CreatureView)>, position: Vec2<usize>, n: nat) -> Option<
    usize,
>
    decreases n,
{
    if n == 0 {
        None
    } else if entities[n - 1].1.collides(position) {
        Some(entities[n - 1].0)
    } else {
        picked(entities, position, (n - 1) as nat)
    }
}

/// The position that an input asks the player to enter, if it asks for a
/// move.
pub open spec fn move_target(pos: Vec2<usize>, input: Input) -> Option<Vec2<usize>> {
    match input {
        Input::Right => Some(Vec2 { x: shifted(pos.x, 1), y: pos.y }),
        Input::Left => Some(Vec2 { x: shifted(pos.x, -1i32), y: pos.y }),
        Input::Up => Some(Vec2 { x: pos.x, y: shifted(pos.y, -1i32) }),
        Input::Down => Some(Vec2 { x: pos.x, y: shifted(pos.y, 1) }),
        _ => None,
    }
}

/// The world, the player, and where the player was taken, after an input.
/// A move is resolved by the world, and the world takes a step after it. A
/// press of the left mouse button targets the creature under the pointer.
/// Everything else changes nothing.
pub open spec fn after_input(world: WorldView, player: PlayerView, input: Input) -> (
    WorldView,
    PlayerView,
    Passage,
) {
    match move_target(player.pos, input) {
        Some(new_pos) => {
            let (entered, moved, passage) = world.after_player_input(player, new_pos);
            let (stepped, hurt) = entered.after_step(moved);
            (stepped, hurt, passage)
        },
        None => match input {
            Input::Mouse { position, event: MouseEvent::Press(MouseButton::Left), .. } => {
                let entities = world.active().active().entities;
                match picked(entities, position, entities.len()) {
                    Some(uuid) => (world, PlayerView { target: Some(uuid), ..player }, Passage::Stay),
                    None => (world, player, Passage::Stay),
                }
            },
            _ => (world, player, Passage::Stay),
        },
    }
}

impl Game {
    pub closed spec fn spec_player(&self) -> PlayerView {
        self.player@
    }

    pub closed spec fn spec_world(&self) -> WorldView {
        self.world@
    }

    pub closed spec fn spec_viewport(&self) -> Vec2<usize> {
        self.viewport
    }

    /// The messages of the log, oldest first.
    pub closed spec fn spec_log(&self) -> Seq<Seq<char>> {
        self.log@
    }

    /// The number of messages the log keeps.
    pub closed spec fn spec_log_size(&self) -> usize {
        self.log.spec_max_size()
    }

    /// The game is in order: player, world and log are, and no step of the
    /// world is due.
    pub closed spec fn wf(&self) -> bool {
        &&& self.player@.wf()
        &&& self.world@.wf()
        &&& self.log.wf()
        &&& !self.step
    }

    /// Whether the next input can be handled: the game is in order, and the
    /// player's health stays an `i32` through a step of any room of the
    /// floor.
    pub open spec fn can_handle_input(&self) -> bool {
        self.wf() && self.spec_world().wf() && self.spec_player().wf()
            && self.spec_world().active().can_step_anywhere(
            self.spec_player(),
        )
    }

    /// Starts a game in a newly generated world.
    pub fn new(options: GameOptions) -> (game: Game)
        ensures
            game.wf(),
            game.can_handle_input(),
            game.spec_world().wf(),
            game.spec_world().active().freshly_generated(),
            game.spec_world().ids_apart(),
            game.spec_world().paired(),
            game.spec_player() == PlayerView::fresh(
                options.spec_player_name(),
                game.spec_world().active().entrance().init_pos,
            ),
            game.spec_viewport() == (Vec2 { x: 60usize, y: 20usize }),
            game.spec_log() == Seq::<Seq<char>>::empty(),
            game.spec_log_size() == 20,
    {
        Game::with_world(options, World::new())
    }

    /// Starts a game in the world `world`.
    pub fn with_world(options: GameOptions, world: World) -> (game: Game)
        requires
            world@.wf(),
        ensures
            game.wf(),
            game.spec_world() == world@,
            game.spec_player() == PlayerView::fresh(
                options.spec_player_name(),
                world@.active().entrance().init_pos,
            ),
            game.spec_viewport() == (Vec2 { x: 60usize, y: 20usize }),
            game.spec_log() == Seq::<Seq<char>>::empty(),
            game.spec_log_size() == 20,
    {
        let player = Player::new(options.player_name, world.starting_position());
        Game { player, world, viewport: Vec2::new(60, 20), step: false, log: Log::new(20) }
    }

    /// Whether the next input can be handled.
    pub fn ready(&self) -> (ready: bool)
        requires
            self.wf(),
        ensures
            ready == self.can_handle_input(),
    {
        proof {
            assert(self.world@.nodes[self.world@.active_node as int].wf());
        }
        let health = self.player.current_stats().health;
        let spare: u64 = ((health as i64) - (i32::MIN as i64)) as u64 / 2;
        match self.world.active_node() {
            crate::world::WorldNode::DungeonNode(dungeon) => {
                let floor = dungeon.active_floor_id();
                let count = dungeon.rooms_on_floor(floor);
                let mut r: usize = 0;
                while r < count
                    invariant
                        r <= count,
                        self.wf(),
                        dungeon@ == self.world@.active(),
                        floor == dungeon@.active_floor,
                        floor < dungeon@.floors.len(),
                        count == dungeon@.floors[floor as int].len(),
                        health == self.player@.curr_stats.health,
                        spare == (health - i32::MIN) / 2,
                        forall|k: int|
                            0 <= k < r ==> (#[trigger] dungeon@.floors[floor as int][k]).can_step(
                                self.player@,
                            ),
                    decreases count - r,
                {
                    match dungeon.get_room(floor, r) {
                        Ok(room) => {
                            if room.get_entities().len() as u64 > spare {
                                assert(!dungeon@.floors[floor as int][r as int].can_step(
                                    self.player@,
                                ));
                                return false;
                            }
                        },
                        Err(_) => {},
                    }
                    r = r + 1;
                }
                true
            },
        }
    }

    fn step(&mut self)
        requires
            old(self).world@.wf(),
            old(self).world@.active().active().can_step(old(self).player@),
        ensures
            final(self).world@ == old(self).world@.after_step(old(self).player@).0,
            final(self).player@ == old(self).world@.after_step(old(self).player@).1,
            final(self).world@.wf(),
            old(self).world@.ids_apart() ==> final(self).world@.ids_apart(),
            old(self).world@.paired() ==> final(self).world@.paired(),
            final(self).viewport == old(self).viewport,
            final(self).log == old(self).log,
            final(self).step == old(self).step,
    {
        self.world.step(&mut self.player);
    }

    /// Handles one input. A move is resolved by the world, and the world
    /// takes a step after it. A press of the left mouse button targets the
    /// creature under the pointer. Reports where a move took the player
    /// through an exit that leads nowhere, or into a room without an
    /// entrance on their side.
    pub fn handle_input(&mut self, input: &Input) -> (res: Result<(), WorldError>)
        requires
            old(self).can_handle_input(),
        ensures
            final(self).wf(),
            final(self).spec_world().wf(),
            final(self).spec_player().wf(),
            old(self).spec_world().ids_apart() ==> final(self).spec_world().ids_apart(),
            old(self).spec_world().paired() ==> final(self).spec_world().paired() && res is Ok,
            final(self).spec_world() == after_input(
                old(self).spec_world(),
                old(self).spec_player(),
                *input,
            ).0,
            final(self).spec_player() == after_input(
                old(self).spec_world(),
                old(self).spec_player(),
                *input,
            ).1,
            res == (match after_input(old(self).spec_world(), old(self).spec_player(), *input).2 {
                Passage::Nowhere => Err::<(), WorldError>(WorldError::InvalidRoomReference),
                Passage::Astray { .. } => Err::<(), WorldError>(WorldError::NoMatchingEntrance),
                _ => Ok::<(), WorldError>(()),
            }),
            final(self).spec_viewport() == old(self).spec_viewport(),
            final(self).spec_log_size() == old(self).spec_log_size(),
            match move_target(old(self).spec_player().pos, *input) {
                Some(new_pos) => reports_logged(
                    old(self).spec_log(),
                    final(self).spec_log(),
                    old(self).spec_log_size(),
                    old(self).spec_player().name,
                    old(self).spec_world().active().active().strike_reports(
                        old(self).spec_player(),
                        new_pos,
                        old(self).spec_world().active().active().entities.len(),
                    ),
                ),
                None => final(self).spec_log() == old(self).spec_log(),
            },
    {
        let res = match input {
            Input::Right => self.process_move(1, 0),
            Input::Left => self.process_move(-1, 0),
            Input::Up => self.process_move(0, -1),
            Input::Down => self.process_move(0, 1),
            Input::Key(key) => {
                self.process_char(*key);
                Ok(())
            },
            Input::Mouse { offset, position, event } => {
                self.process_mouse(*position, event);
                Ok(())
            },
            _ => Ok(()),
        };
        if self.step {
            proof {
                let new_pos = move_target(old(self).player@.pos, *input).unwrap();
                let world = old(self).world@;
                assert(world.nodes[world.active_node as int].wf());
                lemma_dungeon_player_input(world.active(), old(self).player@, new_pos);
                lemma_world_with_active(
                    world,
                    world.active().after_player_input(old(self).player@, new_pos).0,
                );
                let entered = world.active().after_player_input(old(self).player@, new_pos).0;
                let rooms = world.active().floors[world.active().active_floor as int];
                let room = entered.active_room as int;
                assert(entered.floors[entered.active_floor as int][room].entities.len()
                    == rooms[room].entities.len());
                assert(rooms[room].can_step(old(self).player@));
            }
            self.step();
            self.step = false;
            proof {
                let entered = old(self).world@.after_player_input(
                    old(self).player@,
                    move_target(old(self).player@.pos, *input).unwrap(),
                );
                crate::world::dungeon::lemma_dungeon_step(entered.0.active(), entered.1);
            }
        }
        res
    }

    pub fn world(&self) -> (world: &World)
        ensures
            world@ == self.spec_world(),
    {
        &self.world
    }

    pub fn player(&self) -> (player: &Player)
        ensures
            player@ == self.spec_player(),
    {
        &self.player
    }

    pub fn get_entities(&self) -> (res: Option<&EntityMap>)
        requires
            self.spec_world().wf(),
        ensures
            res matches Some(entities) && entity_views(entities@)
                == self.spec_world().active().active().entities,
    {
        self.world.get_entities()
    }

    pub fn viewport_width(&self) -> (width: usize)
        ensures
            width == self.spec_viewport().x,
    {
        self.viewport.x
    }

    pub fn viewport_height(&self) -> (height: usize)
        ensures
            height == self.spec_viewport().y,
    {
        self.viewport.y
    }

    /// The newest `msg_count` messages of the log, oldest first.
    pub fn get_log_messages(&self, msg_count: usize) -> (msgs: Vec<String>)
        requires
            self.wf(),
        ensures
            msgs@.len() == crate::log::newest(self.spec_log(), msg_count).len(),
            forall|k: int|
                0 <= k < msgs@.len() ==> (#[trigger] msgs@[k])@ == crate::log::newest(
                    self.spec_log(),
                    msg_count,
                )[k],
    {
        self.log.last_n_messages(msg_count)
    }

    pub fn active_loot(&self) -> (loot: String)
        ensures
            loot@ == "Hello!"@,
    {
        String::from_str("Hello!")
    }

    /// Whether the player targets a creature.
    pub fn active_target(&self) -> (targeting: bool)
        ensures
            targeting == self.spec_player().target.is_some(),
    {
        match self.player.target() {
            Some(_) => true,
            None => false,
        }
    }

    /// The creature the player targets, if it is in the active room.
    pub open spec fn spec_target(&self) -> Option<CreatureView> {
        let entities = self.spec_world().active().active().entities;
        match self.spec_player().target {
            Some(uuid) => if has_id(entities, uuid) {
                Some(entities[index_of_id(entities, uuid)].1)
            } else {
                None
            },
            None => None,
        }
    }

    /// The name of the creature the player targets, if it is in the active
    /// room.
    pub fn target_name(&self) -> (res: Option<&str>)
        requires
            self.spec_world().wf(),
        ensures
            res.is_some() == self.spec_target().is_some(),
            res matches Some(name) ==> name@ == self.spec_target().unwrap().name(),
    {
        match self.player.target() {
            Some(uuid) => {
                match self.world.get_entities() {
                    Some(entities) => {
                        proof {
                            lemma_views_keep_ids(entities@, uuid);
                            lemma_index_of_id(entities@, uuid);
                        }
                        match entities.get(uuid) {
                            Some(creature) => Some(creature.name()),
                            None => None,
                        }
                    },
                    None => None,
                }
            },
            None => None,
        }
    }

    /// The current stats of the creature the player targets, if it is in the
    /// active room.
    pub fn target_current_stats(&self) -> (res: Option<&StatBlock>)
        requires
            self.spec_world().wf(),
        ensures
            res.is_some() == self.spec_target().is_some(),
            res matches Some(stats) ==> *stats == self.spec_target().unwrap().curr_stats(),
    {
        match self.player.target() {
            Some(uuid) => {
                match self.world.get_entities() {
                    Some(entities) => {
                        proof {
                            lemma_views_keep_ids(entities@, uuid);
                            lemma_index_of_id(entities@, uuid);
                        }
                        match entities.get(uuid) {
                            Some(creature) => Some(creature.current_stats()),
                            None => None,
                        }
                    },
                    None => None,
                }
            },
            None => None,
        }
    }

    /// The base stats of the creature the player targets, if it is in the
    /// active room.
    pub fn target_base_stats(&self) -> (res: Option<&StatBlock>)
        requires
            self.spec_world().wf(),
        ensures
            res.is_some() == self.spec_target().is_some(),
            res matches Some(stats) ==> *stats == self.spec_target().unwrap().base_stats(),
    {
        match self.player.target() {
            Some(uuid) => {
                match self.world.get_entities() {
                    Some(entities) => {
                        proof {
                            lemma_views_keep_ids(entities@, uuid);
                            lemma_index_of_id(entities@, uuid);
                        }
                        match entities.get(uuid) {
                            Some(creature) => Some(creature.base_stats()),
                            None => None,
                        }
                    },
                    None => None,
                }
            },
            None => None,
        }
    }

    /// Asks the world to let the player enter the tile `x_dir` columns and
    /// `y_dir` rows from where they stand, and notes that a step of the
    /// world is due.
    fn process_move(&mut self, x_dir: i32, y_dir: i32) -> (res: Result<(), WorldError>)
        requires
            old(self).world@.wf(),
            old(self).player@.wf(),
            old(self).log.wf(),
        ensures
            ({
                let new_pos = Vec2 {
                    x: shifted(old(self).player@.pos.x, x_dir),
                    y: shifted(old(self).player@.pos.y, y_dir),
                };
                &&& final(self).world@ == old(self).world@.after_player_input(
                    old(self).player@,
                    new_pos,
                ).0
                &&& final(self).player@ == old(self).world@.after_player_input(
                    old(self).player@,
                    new_pos,
                ).1
                &&& res == (match old(self).world@.after_player_input(old(self).player@, new_pos).2 {
                    Passage::Nowhere => Err::<(), WorldError>(WorldError::InvalidRoomReference),
                    Passage::Astray { .. } => Err::<(), WorldError>(WorldError::NoMatchingEntrance),
                    _ => Ok::<(), WorldError>(()),
                })
                &&& reports_logged(
                    old(self).log@,
                    final(self).log@,
                    old(self).log.spec_max_size(),
                    old(self).player@.name,
                    old(self).world@.active().active().strike_reports(
                        old(self).player@,
                        new_pos,
                        old(self).world@.active().active().entities.len(),
                    ),
                )
            }),
            final(self).world@.wf(),
            old(self).world@.ids_apart() ==> final(self).world@.ids_apart(),
            old(self).world@.paired() ==> final(self).world@.paired() && res is Ok,
            final(self).player@.wf(),
            final(self).log.wf(),
            final(self).log.spec_max_size() == old(self).log.spec_max_size(),
            final(self).viewport == old(self).viewport,
            final(self).step,
    {
        let pos = *self.player.position();
        let new_pos = Vec2::new(shift(pos.x, x_dir), shift(pos.y, y_dir));
        let res = self.world.handle_player_input(&mut self.player, new_pos, &mut self.log);
        self.step = true;
        res
    }

    fn process_char(&self, key: char) {
    }

    /// Targets the creature under the pointer when the left button is
    /// pressed.
    fn process_mouse(&mut self, position: Vec2<usize>, event: &MouseEvent)
        requires
            old(self).world@.wf(),
        ensures
            final(self).world == old(self).world,
            final(self).log == old(self).log,
            final(self).viewport == old(self).viewport,
            final(self).step == old(self).step,
            final(self).player@ == (match *event {
                MouseEvent::Press(MouseButton::Left) => match picked(
                    old(self).world@.active().active().entities,
                    position,
                    old(self).world@.active().active().entities.len(),
                ) {
                    Some(uuid) => PlayerView { target: Some(uuid), ..old(self).player@ },
                    None => old(self).player@,
                },
                _ => old(self).player@,
            }),
    {
        match event {
            MouseEvent::Press(MouseButton::Left) => {
                match self.world.get_entities() {
                    Some(entities) => {
                        let count = entities.len();
                        let mut i: usize = 0;
                        while i < count
                            invariant
                                i <= count,
                                count == entities@.len(),
                                self.world == old(self).world,
                                self.log == old(self).log,
                                self.viewport == old(self).viewport,
                                self.step == old(self).step,
                                entity_views(entities@) == old(self).world@.active().active().entities,
                                self.player@ == (match picked(
                                    entity_views(entities@),
                                    position,
                                    i as nat,
                                ) {
                                    Some(uuid) => PlayerView {
                                        target: Some(uuid),
                                        ..old(self).player@
                                    },
                                    None => old(self).player@,
                                }),
                            decreases count - i,
                        {
                            if entities.value_at(i).collision(position) {
                                self.player.set_target(entities.key_at(i));
                            }
                            i = i + 1;
                        }
                    },
                    None => {},
                }
            },
            _ => {},
        }
    }
}

/// Moves a coordinate by some steps; it stays where the steps would take it
/// out of the range of coordinates.
fn shift(coord: usize, by: i32) -> (moved: usize)
    ensures
        moved == shifted(coord, by),
{
    if by >= 0 {
        match coord.checked_add(by as usize) {
            Some(moved) => moved,
            None => coord,
        }
    } else {
        let back = (-(by as i64)) as usize;
        if back <= coord {
            coord - back
        } else {
            coord
        }
    }
}

} // verus!
