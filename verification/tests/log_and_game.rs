use rusty_rogue::camera::Camera;
use rusty_rogue::entity::{Attackable, CombatResult};
use rusty_rogue::input::{Input, MouseButton, MouseEvent};
use rusty_rogue::log::{combat_message, Log};
use rusty_rogue::player::{Class, Player};
use rusty_rogue::rogue_view::RogueView;
use rusty_rogue::utils::text::push_decimal;
use rusty_rogue::utils::{Graph, IdMap, Vec2};
use rusty_rogue::world::{Direction, Dungeon, Room, World, WorldNode};
use rusty_rogue::{Game, GameOptions};

fn result(alive: bool, name: &str) -> CombatResult {
    CombatResult { dmg_dealt: 15, target_alive: alive, target_name: String::from(name) }
}

fn game_in(first: Room) -> Game {
    let mut second = Room::bare(Vec2::new(8, 8));
    second.add_neighbor_at(Direction::West, 0, 4);
    second.spawn_goblin(Vec2::new(6, 6));
    let mut floor: Graph<Room> = Graph::new();
    floor.new_node(first);
    floor.new_node(second);
    let world = World::with_dungeon(Dungeon::with_floor(1, floor));
    Game::with_world(GameOptions::new(60, 30, String::from("hero"), Class::Warrior), world)
}

fn active_room_id(game: &Game) -> usize {
    match game.world().active_node() {
        WorldNode::DungeonNode(dungeon) => dungeon.active_room_id(),
    }
}

#[test]
fn decimal_digits_are_written_out() {
    for (n, text) in [(0usize, "0"), (7, "7"), (10, "10"), (59, "59"), (100, "100"), (90210, "90210")] {
        let mut out = String::from("n=");
        push_decimal(&mut out, n);
        assert_eq!(out, format!("n={}", text));
    }
    let mut out = String::new();
    push_decimal(&mut out, usize::MAX);
    assert_eq!(out, format!("{}", usize::MAX));
}

#[test]
fn combat_message_has_time_actor_and_target() {
    assert_eq!(
        combat_message(12, 5, 9, "hero", &result(true, "a Goblin")),
        "12:5:9: hero attacked a Goblin"
    );
    assert_eq!(
        combat_message(0, 0, 0, "hero", &result(false, "a Goblin")),
        "0:0:0: hero killed a Goblin"
    );
}

#[test]
fn log_keeps_the_newest_messages() {
    let mut log = Log::new(3);
    assert!(log.last_n_messages(2).is_empty());
    log.add_message("one");
    log.add_message("two");
    assert_eq!(log.last_n_messages(5), vec!["one", "two"]);
    assert_eq!(log.last_n_messages(1), vec!["two"]);
    assert!(log.last_n_messages(0).is_empty());
    log.add_message("three");
    log.add_message("four");
    assert_eq!(log.last_n_messages(3), vec!["two", "three", "four"]);
    assert_eq!(log.last_n_messages(2), vec!["three", "four"]);
    log.add_message("five");
    log.add_message("six");
    log.add_message("seven");
    assert_eq!(log.last_n_messages(9), vec!["five", "six", "seven"]);
}

#[test]
fn log_of_one_message_holds_the_last() {
    let mut log = Log::new(1);
    log.add_message("one");
    log.add_message("two");
    assert_eq!(log.last_n_messages(4), vec!["two"]);
}

#[test]
fn log_combat_at_writes_the_given_time() {
    let player = Player::new(String::from("hero"), Vec2::new(1, 1));
    let mut log = Log::new(4);
    log.log_combat_at(23, 59, 58, &player, &result(false, "a Goblin"));
    assert_eq!(log.last_n_messages(1), vec!["23:59:58: hero killed a Goblin"]);
}

#[test]
fn log_combat_stamps_a_time_of_day() {
    let player = Player::new(String::from("hero"), Vec2::new(1, 1));
    let mut log = Log::new(4);
    log.log_combat(&player, &result(true, "a Goblin"));
    let messages = log.last_n_messages(1);
    let parts: Vec<&str> = messages[0].splitn(4, ':').collect();
    assert_eq!(parts.len(), 4);
    assert!(parts[0].parse::<u32>().unwrap() < 24);
    assert!(parts[1].parse::<u32>().unwrap() < 60);
    assert!(parts[2].parse::<u32>().unwrap() < 60);
    assert_eq!(parts[3], " hero attacked a Goblin");
}

#[test]
fn id_map_walks_in_the_order_of_insertion() {
    let mut map: IdMap<&str> = IdMap::new();
    assert!(map.is_empty());
    assert_eq!(map.insert(5, "five"), None);
    assert_eq!(map.insert(2, "two"), None);
    assert_eq!(map.insert(9, "nine"), None);
    assert_eq!(map.insert(2, "deux"), Some("two"));
    assert_eq!(map.len(), 3);
    assert_eq!(map.key_at(0), 5);
    assert_eq!(map.key_at(1), 2);
    assert_eq!(*map.value_at(1), "deux");
    assert_eq!(map.position(9), Some(2));
    assert_eq!(map.get(9), Some(&"nine"));
    assert_eq!(map.get(4), None);
    assert!(map.contains_key(5));
    assert_eq!(map.remove(5), Some("five"));
    assert_eq!(map.remove(5), None);
    assert_eq!(map.key_at(0), 2);
    assert_eq!(map.key_at(1), 9);
    *map.get_mut(9).unwrap() = "neuf";
    *map.value_at_mut(0) = "zwei";
    assert_eq!(map.get(9), Some(&"neuf"));
    assert_eq!(map.get(2), Some(&"zwei"));
}

#[test]
fn camera_starts_at_the_origin() {
    let camera = Camera::new();
    assert_eq!(camera, Camera { x: 0, y: 0, width: 50, height: 15 });
    assert_eq!(Camera::default(), camera);
    assert!(camera.point_intersects(0, 0));
    assert!(camera.point_intersects(50, 15));
    assert!(!camera.point_intersects(51, 15));
    assert!(!camera.point_intersects(50, 16));
    let moved = Camera { x: 3, y: 4, width: 5, height: 6 };
    assert!(!moved.point_intersects(2, 4));
    assert!(moved.point_intersects(8, 10));
    assert!(!moved.point_intersects(usize::MAX, 10));
}

#[test]
fn camera_follows_a_point_near_its_edges() {
    let mut camera = Camera::new();
    camera.move_camera(46, 14, 100, 100);
    assert_eq!((camera.x, camera.y), (1, 1));
    camera.move_camera(46, 14, 100, 100);
    assert_eq!((camera.x, camera.y), (1, 1));
    camera.move_camera(47, 15, 100, 100);
    assert_eq!((camera.x, camera.y), (2, 2));
    camera.move_camera(6, 4, 100, 100);
    assert_eq!((camera.x, camera.y), (1, 2));
    camera.move_camera(20, 3, 100, 100);
    assert_eq!((camera.x, camera.y), (1, 1));
    camera.move_camera(-3, -3, 100, 100);
    assert_eq!((camera.x, camera.y), (0, 0));
    camera.move_camera(-3, -3, 100, 100);
    assert_eq!((camera.x, camera.y), (0, 0));
    camera.move_camera(49, 14, 50, 15);
    assert_eq!((camera.x, camera.y), (0, 0));
    assert_eq!((camera.width, camera.height), (50, 15));
    let mut narrow = Camera { x: 3, y: 0, width: 4, height: 15 };
    narrow.move_camera(5, 5, 100, 100);
    assert_eq!(narrow.x, 3);
}

#[test]
fn new_game_puts_the_player_on_the_start_tile() {
    let game = Game::new(GameOptions::new(60, 30, String::from("hero"), Class::Mage));
    assert_eq!(game.player().name(), "hero");
    assert_eq!(*game.player().position(), Vec2::new(1, 1));
    assert_eq!(game.viewport_width(), 60);
    assert_eq!(game.viewport_height(), 20);
    assert!(game.get_log_messages(5).is_empty());
    assert_eq!(game.active_loot(), "Hello!");
    assert!(!game.active_target());
    assert!(game.target_name().is_none());
    assert!(game.ready());
    assert!(game.world().valid_position(*game.player().position()));
    assert!(!game.get_entities().unwrap().is_empty());
}

#[test]
fn arrow_keys_move_the_player_and_step_the_world() {
    let mut first = Room::bare(Vec2::new(10, 10));
    first.spawn_goblin(Vec2::new(7, 1));
    let mut game = game_in(first);
    assert_eq!(game.handle_input(&Input::Right), Ok(()));
    assert_eq!(*game.player().position(), Vec2::new(2, 1));
    let goblin = *game.get_entities().unwrap().get(0).unwrap().position();
    assert_eq!(goblin, Vec2::new(6, 1));
    assert_eq!(game.handle_input(&Input::Down), Ok(()));
    assert_eq!(*game.player().position(), Vec2::new(2, 2));
    assert_eq!(game.handle_input(&Input::Left), Ok(()));
    assert_eq!(*game.player().position(), Vec2::new(1, 2));
    assert_eq!(game.handle_input(&Input::Up), Ok(()));
    assert_eq!(*game.player().position(), Vec2::new(1, 1));
    assert_eq!(game.handle_input(&Input::Up), Ok(()));
    assert_eq!(*game.player().position(), Vec2::new(1, 1));
    assert_eq!(*game.get_entities().unwrap().get(0).unwrap().position(), Vec2::new(2, 1));
    assert_eq!(game.player().current_stats().health, 20);
    assert_eq!(game.handle_input(&Input::Up), Ok(()));
    assert_eq!(*game.get_entities().unwrap().get(0).unwrap().position(), Vec2::new(2, 1));
    assert_eq!(game.player().current_stats().health, 18);
    assert!(game.ready());
}

#[test]
fn keys_and_unknown_inputs_change_nothing() {
    let mut first = Room::bare(Vec2::new(10, 10));
    first.spawn_goblin(Vec2::new(7, 1));
    let mut game = game_in(first);
    assert_eq!(game.handle_input(&Input::Key('x')), Ok(()));
    assert_eq!(game.handle_input(&Input::Unknown), Ok(()));
    assert_eq!(*game.player().position(), Vec2::new(1, 1));
    assert_eq!(*game.get_entities().unwrap().get(0).unwrap().position(), Vec2::new(7, 1));
}

#[test]
fn attack_logs_targets_and_the_corpse_clears_the_target() {
    let mut first = Room::bare(Vec2::new(10, 10));
    first.spawn_goblin(Vec2::new(2, 1));
    let mut game = game_in(first);
    assert_eq!(game.handle_input(&Input::Right), Ok(()));
    assert!(game.get_entities().unwrap().is_empty());
    assert!(!game.active_target());
    assert_eq!(*game.player().position(), Vec2::new(2, 1));
    let messages = game.get_log_messages(3);
    assert_eq!(messages.len(), 1);
    assert!(messages[0].ends_with(": hero killed a Goblin"));
}

#[test]
fn left_click_targets_the_creature_under_the_pointer() {
    let mut first = Room::bare(Vec2::new(10, 10));
    first.spawn_goblin(Vec2::new(7, 3));
    let mut game = game_in(first);
    let click = |position, event| Input::Mouse { offset: Vec2::new(0, 0), position, event };
    game.handle_input(&click(Vec2::new(7, 3), MouseEvent::Press(MouseButton::Right))).unwrap();
    assert!(!game.active_target());
    game.handle_input(&click(Vec2::new(6, 3), MouseEvent::Press(MouseButton::Left))).unwrap();
    assert!(!game.active_target());
    game.handle_input(&click(Vec2::new(7, 3), MouseEvent::Press(MouseButton::Left))).unwrap();
    assert!(game.active_target());
    assert_eq!(game.player().target(), Some(0));
    assert_eq!(game.target_name(), Some("a Goblin"));
    assert_eq!(game.target_current_stats().unwrap().health, 4);
    assert_eq!(game.target_base_stats().unwrap().health, 4);
    assert_eq!(*game.get_entities().unwrap().get(0).unwrap().position(), Vec2::new(7, 3));
}

#[test]
fn target_in_another_room_is_not_resolved() {
    let mut first = Room::bare(Vec2::new(10, 10));
    first.add_neighbor_at(Direction::East, 1, 1);
    first.spawn_goblin(Vec2::new(5, 5));
    first.spawn_goblin(Vec2::new(6, 6));
    let mut game = game_in(first);
    let click = Input::Mouse {
        offset: Vec2::new(0, 0),
        position: Vec2::new(6, 6),
        event: MouseEvent::Press(MouseButton::Left),
    };
    game.handle_input(&click).unwrap();
    assert_eq!(game.player().target(), Some(1));
    for _ in 0..7 {
        game.handle_input(&Input::Right).unwrap();
    }
    assert_eq!(*game.player().position(), Vec2::new(8, 1));
    assert_eq!(game.handle_input(&Input::Right), Ok(()));
    assert_eq!(active_room_id(&game), 1);
    assert_eq!(*game.player().position(), Vec2::new(1, 4));
    assert!(game.active_target());
    assert!(game.target_name().is_none());
    assert!(game.target_current_stats().is_none());
    assert!(game.target_base_stats().is_none());
}

#[test]
fn view_centres_the_room_and_maps_the_pointer() {
    let mut view = RogueView::new(Vec2::new(80, 40), String::from("hero"), Class::Rogue);
    assert_eq!(view.required_size(), Vec2::new(80, 40));
    assert_eq!(view.active_loot(), "Hello!");
    let width = match view.game().world().active_node() {
        WorldNode::DungeonNode(dungeon) => dungeon.active_room().width(),
    };
    let height = match view.game().world().active_node() {
        WorldNode::DungeonNode(dungeon) => dungeon.active_room().height(),
    };
    let offset = view.offset();
    assert_eq!(offset, Vec2::new(30 - width / 2, 10 - height / 2));
    assert_eq!(
        view.room_position(Vec2::new(offset.x + 2, offset.y + 3)),
        Vec2::new(2, 3)
    );
    assert_eq!(view.room_position(Vec2::new(0, 0)), Vec2::new(0, 0));
    assert_eq!(view.on_input(&Input::Unknown), Ok(false));
    assert_eq!(view.on_input(&Input::Key('q')), Ok(true));
    assert_eq!(*view.game().player().position(), Vec2::new(1, 1));
}

#[test]
fn generated_game_never_loses_its_way() {
    for round in 0..10usize {
        let mut game = Game::new(GameOptions::new(60, 30, String::from("hero"), Class::Warrior));
        let mut rooms_seen = vec![active_room_id(&game)];
        for turn in 0..400usize {
            if !game.ready() {
                break;
            }
            let input = match (turn / 7 + turn * round) % 4 {
                0 => Input::Right,
                1 => Input::Down,
                2 => Input::Left,
                _ => Input::Up,
            };
            assert_eq!(game.handle_input(&input), Ok(()));
            assert!(game.world().valid_position(*game.player().position()));
            let room = active_room_id(&game);
            if !rooms_seen.contains(&room) {
                rooms_seen.push(room);
            }
            let entities = game.get_entities().unwrap();
            for i in 0..entities.len() {
                for j in 0..i {
                    assert_ne!(entities.key_at(i), entities.key_at(j));
                    assert_ne!(entities.value_at(i).position(), entities.value_at(j).position());
                }
            }
        }
    }
}
