//! The layout of the game on a screen: where the active room is drawn, and
//! which tile of it a point of the screen shows.

use crate::game::{after_input, move_target, Game, GameOptions};
use crate::log::reports_logged;
use crate::world::dungeon::Passage;
use crate::input::Input;
use crate::player::Class;
use crate::utils::Vec2;
use crate::world::{WorldError, WorldNode};
use vstd::prelude::*;

verus! {

/// A game and the screen it is shown on.
pub struct RogueView {
    game: Game,
    width: usize,
    height: usize,
    offset: Vec2<usize>,
}

/// The distance from the edge of a viewport to a room that is centred in
/// it, along one axis; nothing if the room is larger than the viewport.
pub open spec fn centred(viewport: usize, room: usize) -> usize {
    if viewport / 2 >= room / 2 {
        (viewport / 2 - room / 2) as usize
    } else {
        0
    }
}

/// The coordinate of the room that a coordinate of the screen shows, where
/// the room is drawn `offset` from the edge. Before the room the screen
/// coordinate stays as it is.
pub open spec fn unshifted(screen: usize, offset: usize) -> usize {
    if screen >= offset {
        (screen - offset) as usize
    } else {
        screen
    }
}

impl RogueView {
    pub closed spec fn spec_game(&self) -> Game {
        self.game
    }

    /// The size of the screen.
    pub closed spec fn spec_size(&self) -> Vec2<usize> {
        Vec2 { x: self.width, y: self.height }
    }

    /// Where on the screen the upper left corner of the active room is
    /// drawn.
    pub closed spec fn spec_offset(&self) -> Vec2<usize> {
        self.offset
    }

    /// Where the active room of `game` is drawn: in the middle of the
    /// viewport.
    pub open spec fn room_offset(game: Game) -> Vec2<usize> {
        let room = game.spec_world().active().active();
        Vec2 {
            x: centred(game.spec_viewport().x, room.size.x),
            y: centred(game.spec_viewport().y, room.size.y),
        }
    }

    /// The view is in order: the game is, and the active room is drawn in
    /// the middle of the viewport.
    pub open spec fn wf(&self) -> bool {
        &&& self.spec_game().wf()
        &&& self.spec_game().spec_world().wf()
        &&& self.spec_offset() == RogueView::room_offset(self.spec_game())
    }

    /// Starts a new game on a screen of the given size.
    pub fn new(size: Vec2<usize>, name: String, class: Class) -> (view: RogueView)
        ensures
            view.wf(),
            view.spec_size() == size,
    {
        let options = GameOptions::new(60, 30, name, class);
        let mut rogueview = RogueView {
            game: Game::new(options),
            width: size.x,
            height: size.y,
            offset: Vec2::new(0, 0),
        };
        rogueview.update_room_offset();
        rogueview
    }

    pub fn game(&self) -> (game: &Game)
        ensures
            *game == self.spec_game(),
    {
        &self.game
    }

    pub fn offset(&self) -> (offset: Vec2<usize>)
        ensures
            offset == self.spec_offset(),
    {
        self.offset
    }

    pub fn active_loot(&self) -> (loot: String)
        ensures
            loot@ == "Hello!"@,
    {
        self.game.active_loot()
    }

    /// Puts the active room in the middle of the viewport.
    fn update_room_offset(&mut self)
        requires
            old(self).game.spec_world().wf(),
        ensures
            final(self).game == old(self).game,
            final(self).width == old(self).width,
            final(self).height == old(self).height,
            final(self).offset == RogueView::room_offset(old(self).game),
    {
        let world = self.game.world();
        proof {
            assert(world@.nodes[world@.active_node as int].wf());
        }
        match world.active_node() {
            WorldNode::DungeonNode(dungeon) => {
                let room = dungeon.active_room();
                let vp_width = self.game.viewport_width();
                let vp_height = self.game.viewport_height();
                let x_offset = if vp_width / 2 >= room.width() / 2 {
                    vp_width / 2 - room.width() / 2
                } else {
                    0
                };
                let y_offset = if vp_height / 2 >= room.height() / 2 {
                    vp_height / 2 - room.height() / 2
                } else {
                    0
                };
                self.offset = Vec2::new(x_offset, y_offset);
            },
        }
    }

    /// The tile of the active room that the point `position` of the screen
    /// shows.
    pub fn room_position(&self, position: Vec2<usize>) -> (tile: Vec2<usize>)
        ensures
            tile == (Vec2 {
                x: unshifted(position.x, self.spec_offset().x),
                y: unshifted(position.y, self.spec_offset().y),
            }),
    {
        let mut mouse_position = Vec2::new(position.x, position.y);
        if position.x >= self.offset.x {
            mouse_position.x -= self.offset.x;
        }
        if position.y >= self.offset.y {
            mouse_position.y -= self.offset.y;
        }
        mouse_position
    }

    /// Hands a decoded input on to the game and puts the room in the middle
    /// again. An unknown input is not taken: nothing changes, and the result
    /// says so. Every other input is taken, and the result is `Ok(true)`,
    /// unless a move took the player through an exit that leads nowhere or
    /// into a room without an entrance on their side, which is reported as
    /// the game reports it.
    pub fn on_input(&mut self, input: &Input) -> (res: Result<bool, WorldError>)
        requires
            old(self).wf(),
            old(self).spec_game().can_handle_input(),
        ensures
            final(self).wf(),
            final(self).spec_size() == old(self).spec_size(),
            *input == Input::Unknown ==> res == Ok::<bool, WorldError>(false)
                && final(self).spec_game() == old(self).spec_game(),
            *input != Input::Unknown ==> {
                &&& final(self).spec_game().spec_world() == after_input(
                    old(self).spec_game().spec_world(),
                    old(self).spec_game().spec_player(),
                    *input,
                ).0
                &&& final(self).spec_game().spec_player() == after_input(
                    old(self).spec_game().spec_world(),
                    old(self).spec_game().spec_player(),
                    *input,
                ).1
                &&& res == (match after_input(
                    old(self).spec_game().spec_world(),
                    old(self).spec_game().spec_player(),
                    *input,
                ).2 {
                    Passage::Nowhere => Err::<bool, WorldError>(WorldError::InvalidRoomReference),
                    Passage::Astray { .. } => Err::<bool, WorldError>(
                        WorldError::NoMatchingEntrance,
                    ),
                    _ => Ok::<bool, WorldError>(true),
                })
            },
            final(self).spec_game().spec_viewport() == old(self).spec_game().spec_viewport(),
            final(self).spec_game().spec_log_size() == old(self).spec_game().spec_log_size(),
            match move_target(old(self).spec_game().spec_player().pos, *input) {
                Some(new_pos) => reports_logged(
                    old(self).spec_game().spec_log(),
                    final(self).spec_game().spec_log(),
                    old(self).spec_game().spec_log_size(),
                    old(self).spec_game().spec_player().name,
                    old(self).spec_game().spec_world().active().active().strike_reports(
                        old(self).spec_game().spec_player(),
                        new_pos,
                        old(self).spec_game().spec_world().active().active().entities.len(),
                    ),
                ),
                None => final(self).spec_game().spec_log() == old(self).spec_game().spec_log(),
            },
            old(self).spec_game().spec_world().paired()
                ==> final(self).spec_game().spec_world().paired() && res is Ok,
            old(self).spec_game().spec_world().ids_apart()
                ==> final(self).spec_game().spec_world().ids_apart(),
    {
        match input {
            Input::Unknown => Ok(false),
            _ => {
                let res = self.game.handle_input(input);
                self.update_room_offset();
                match res {
                    Ok(()) => Ok(true),
                    Err(e) => Err(e),
                }
            },
        }
    }

    /// The size the view asks of the screen.
    pub fn required_size(&self) -> (size: Vec2<usize>)
        ensures
            size == self.spec_size(),
    {
        Vec2::new(self.width, self.height)
    }
}

} // verus!
