use rusty_rogue::entity::{Attackable, Drawable};
use rusty_rogue::log::Log;
use rusty_rogue::player::Player;
use rusty_rogue::utils::{Vec2, Vec3};
use rusty_rogue::world::{Direction, Room, TileType, WorldError};

fn tile_kind(room: &Room, x: usize, y: usize) -> TileType {
    room.get_tile_type(Vec2::new(x, y))
}

fn occupancy_holds(room: &Room) -> bool {
    let entities = room.get_entities();
    for i in 0..entities.len() {
        let pos = *entities.value_at(i).position();
        let tile = &room.tiles()[pos.x + pos.y * room.width()];
        if !tile.occupied || tile.uuid != entities.key_at(i) {
            return false;
        }
        for j in 0..entities.len() {
            if i != j && *entities.value_at(j).position() == pos {
                return false;
            }
        }
    }
    true
}

#[test]
fn bare_room_is_floor_in_a_ring_of_walls() {
    let room = Room::bare(Vec2::new(6, 5));
    assert_eq!(room.width(), 6);
    assert_eq!(room.height(), 5);
    assert_eq!(room.tiles().len(), 30);
    assert_eq!(room.initial_position(), Vec2::new(1, 1));
    assert!(room.get_entities().is_empty());
    assert!(room.get_corpses().is_empty());
    for y in 0..5 {
        for x in 0..6 {
            let inside = x > 0 && x < 5 && y > 0 && y < 4;
            let expected = if inside { TileType::Granite } else { TileType::Wall };
            assert_eq!(tile_kind(&room, x, y), expected);
            assert_eq!(room.valid_position(Vec2::new(x, y)), inside);
        }
    }
}

#[test]
fn positions_outside_the_room_are_wall() {
    let room = Room::bare(Vec2::new(6, 5));
    assert!(!room.valid_position(Vec2::new(6, 2)));
    assert!(!room.valid_position(Vec2::new(2, 5)));
    assert!(!room.valid_position(Vec2::new(usize::MAX, usize::MAX)));
    assert_eq!(tile_kind(&room, 6, 2), TileType::Wall);
    assert_eq!(tile_kind(&room, 7, 0), TileType::Wall);
}

#[test]
fn add_neighbor_at_cuts_an_exit_with_its_entrance() {
    let mut room = Room::bare(Vec2::new(8, 6));
    room.add_neighbor_at(Direction::North, 3, 2);
    room.add_neighbor_at(Direction::East, 4, 3);
    room.add_neighbor_at(Direction::South, 5, 6);
    room.add_neighbor_at(Direction::West, 6, 1);
    let exit = |node_id, exiting_direction| TileType::Exit { node_id, exiting_direction };
    assert_eq!(tile_kind(&room, 2, 0), exit(3, Direction::North));
    assert_eq!(tile_kind(&room, 7, 3), exit(4, Direction::East));
    assert_eq!(tile_kind(&room, 6, 5), exit(5, Direction::South));
    assert_eq!(tile_kind(&room, 0, 1), exit(6, Direction::West));
    assert_eq!(room.entering_position(Direction::North), Ok(Vec2::new(2, 1)));
    assert_eq!(room.entering_position(Direction::East), Ok(Vec2::new(6, 3)));
    assert_eq!(room.entering_position(Direction::South), Ok(Vec2::new(6, 4)));
    assert_eq!(room.entering_position(Direction::West), Ok(Vec2::new(1, 1)));
    for d in [Direction::North, Direction::East, Direction::South, Direction::West] {
        assert!(room.valid_position(room.entering_position(d).unwrap()));
    }
    assert!(room.valid_position(Vec2::new(2, 0)));
}

#[test]
fn entering_position_reports_a_missing_entrance() {
    let mut room = Room::bare(Vec2::new(8, 6));
    assert_eq!(room.entering_position(Direction::East), Err(WorldError::NoMatchingEntrance));
    room.add_neighbor_at(Direction::North, 3, 2);
    assert_eq!(room.entering_position(Direction::East), Err(WorldError::NoMatchingEntrance));
    assert_eq!(room.entering_position(Direction::North), Ok(Vec2::new(2, 1)));
}

#[test]
fn entering_position_is_the_first_entrance_of_the_side() {
    let mut room = Room::bare(Vec2::new(8, 6));
    room.add_neighbor_at(Direction::North, 3, 5);
    room.add_neighbor_at(Direction::North, 4, 2);
    assert_eq!(room.entering_position(Direction::North), Ok(Vec2::new(5, 1)));
}

#[test]
fn random_exits_avoid_the_corners() {
    let mut offsets = Vec::new();
    for _ in 0..200 {
        let mut room = Room::bare(Vec2::new(16, 5));
        room.add_neighbor(Direction::South, 1);
        let entrance = room.entering_position(Direction::South).unwrap();
        assert_eq!(entrance.y, 3);
        assert!(entrance.x >= 1 && entrance.x < 15);
        assert_eq!(
            tile_kind(&room, entrance.x, 4),
            TileType::Exit { node_id: 1, exiting_direction: Direction::South }
        );
        let exits = (0..16).filter(|x| tile_kind(&room, *x, 4) != TileType::Wall).count();
        assert_eq!(exits, 1);
        offsets.push(entrance.x);
    }
    assert!(offsets.iter().any(|x| *x != offsets[0]));
    assert!(offsets.iter().any(|x| *x != 1));
}

#[test]
fn spawn_goblin_marks_the_tile() {
    let mut room = Room::bare(Vec2::new(10, 10));
    assert_eq!(room.spawn_goblin(Vec2::new(2, 1)), Some(0));
    assert_eq!(room.spawn_goblin(Vec2::new(5, 5)), Some(1));
    assert_eq!(room.spawn_goblin(Vec2::new(2, 1)), None);
    assert_eq!(room.spawn_goblin(Vec2::new(10, 1)), None);
    assert_eq!(room.get_entities().len(), 2);
    assert_eq!(*room.get_entities().get(1).unwrap().position(), Vec2::new(5, 5));
    let tile = &room.tiles()[5 + 5 * 10];
    assert!(tile.occupied);
    assert_eq!(tile.uuid, 1);
    assert!(occupancy_holds(&room));
}

#[test]
fn new_room_has_goblins_within_its_budget() {
    let mut counts = Vec::new();
    for _ in 0..100 {
        let room = Room::new(Vec2::new(9, 7));
        let budget = (9 * 7 - 7 * 2 - (9 - 4)) / 3;
        let count = room.get_entities().len();
        assert!(count >= 1 && count < budget);
        assert!(occupancy_holds(&room));
        for i in 0..count {
            let pos = *room.get_entities().value_at(i).position();
            assert!(pos.x >= 2 && pos.x < 8 && pos.y >= 2 && pos.y < 6);
            assert_eq!(room.get_entities().key_at(i), i);
            assert_eq!(room.get_entities().value_at(i).current_stats().health, 4);
        }
        assert_eq!(tile_kind(&room, 0, 0), TileType::Wall);
        assert_eq!(tile_kind(&room, 4, 3), TileType::Granite);
        assert_eq!(room.entering_position(Direction::North), Err(WorldError::NoMatchingEntrance));
        counts.push(count);
    }
    assert!(counts.iter().any(|c| *c != counts[0]));
}

#[test]
fn smallest_new_room_holds_one_goblin() {
    for _ in 0..20 {
        let room = Room::new(Vec2::new(4, 4));
        assert_eq!(room.get_entities().len(), 1);
        assert_eq!(*room.get_entities().value_at(0).position(), Vec2::new(2, 2));
    }
}

#[test]
fn player_attack_kills_the_goblin_in_the_way() {
    let mut room = Room::bare(Vec2::new(10, 10));
    let goblin = room.spawn_goblin(Vec2::new(2, 1)).unwrap();
    let mut player = Player::new(String::from("hero"), Vec2::new(1, 1));
    let mut log = Log::new(20);
    let before = room.get_entities().get(goblin).unwrap().current_stats().health;
    let strength = player.current_stats().strength;

    let tile = room.handle_player_input(&mut player, Vec2::new(2, 1), &mut log);

    let after = room.get_entities().get(goblin).unwrap().current_stats().health;
    assert_eq!(before - after, (strength * 3) / 2);
    assert_eq!(after, -11);
    assert!(!room.get_entities().get(goblin).unwrap().alive());
    assert_eq!(player.target(), Some(goblin));
    assert_eq!(tile, TileType::Granite);
    let messages = log.last_n_messages(5);
    assert_eq!(messages.len(), 1);
    assert!(messages[0].ends_with(": hero killed a Goblin"));
    assert_eq!(*player.position(), Vec2::new(2, 1));
    assert!(occupancy_holds(&room));
}

#[test]
fn surviving_creature_bars_the_way() {
    let mut room = Room::bare(Vec2::new(10, 10));
    let goblin = room.spawn_goblin(Vec2::new(2, 1)).unwrap();
    room.get_mut_entities()
        .get_mut(goblin)
        .unwrap()
        .receive_attack(&rusty_rogue::entity::Attack::new(
            rusty_rogue::entity::AttackType::Slashing,
            -20,
            Vec2::new(2, 1),
        ));
    let mut player = Player::new(String::from("hero"), Vec2::new(1, 1));
    let mut log = Log::new(20);
    room.handle_player_input(&mut player, Vec2::new(2, 1), &mut log);
    assert_eq!(room.get_entities().get(goblin).unwrap().current_stats().health, 9);
    assert!(room.get_entities().get(goblin).unwrap().alive());
    assert_eq!(*player.position(), Vec2::new(1, 1));
    assert_eq!(player.target(), Some(goblin));
    assert!(log.last_n_messages(1)[0].ends_with(": hero attacked a Goblin"));
}

#[test]
fn player_moves_onto_free_floor_and_not_into_walls() {
    let mut room = Room::bare(Vec2::new(10, 10));
    let mut player = Player::new(String::from("hero"), Vec2::new(1, 1));
    let mut log = Log::new(20);
    assert_eq!(room.handle_player_input(&mut player, Vec2::new(1, 2), &mut log), TileType::Granite);
    assert_eq!(*player.position(), Vec2::new(1, 2));
    assert_eq!(room.handle_player_input(&mut player, Vec2::new(0, 2), &mut log), TileType::Wall);
    assert_eq!(*player.position(), Vec2::new(1, 2));
    assert_eq!(room.handle_player_input(&mut player, Vec2::new(40, 2), &mut log), TileType::Wall);
    assert_eq!(*player.position(), Vec2::new(1, 2));
    assert_eq!(player.target(), None);
    assert!(log.last_n_messages(5).is_empty());
}

#[test]
fn dead_creature_becomes_a_corpse_on_the_next_step() {
    let mut room = Room::bare(Vec2::new(10, 10));
    let goblin = room.spawn_goblin(Vec2::new(2, 1)).unwrap();
    let other = room.spawn_goblin(Vec2::new(7, 7)).unwrap();
    let mut player = Player::new(String::from("hero"), Vec2::new(1, 1));
    let mut log = Log::new(20);
    room.handle_player_input(&mut player, Vec2::new(2, 1), &mut log);
    assert!(room.tiles()[2 + 10].occupied);
    assert!(room.get_entities().contains_key(goblin));

    room.step(&mut player);

    assert!(!room.get_entities().contains_key(goblin));
    assert!(room.get_entities().contains_key(other));
    assert_eq!(*room.get_corpses().get(goblin).unwrap().position(), Vec2::new(2, 1));
    assert_eq!(room.get_corpses().len(), 1);
    let tile = &room.tiles()[2 + 10];
    assert!(!tile.occupied);
    assert_eq!(tile.corpses, vec![goblin]);
    assert_eq!(player.target(), None);
    assert!(occupancy_holds(&room));
}

#[test]
fn step_moves_creatures_and_keeps_the_tiles_in_step() {
    let mut room = Room::bare(Vec2::new(12, 12));
    let first = room.spawn_goblin(Vec2::new(5, 5)).unwrap();
    let second = room.spawn_goblin(Vec2::new(6, 5)).unwrap();
    let mut player = Player::new(String::from("hero"), Vec2::new(2, 4));

    room.step(&mut player);

    assert_eq!(*room.get_entities().get(first).unwrap().position(), Vec2::new(4, 5));
    assert_eq!(*room.get_entities().get(second).unwrap().position(), Vec2::new(5, 5));
    assert!(!room.tiles()[6 + 5 * 12].occupied);
    assert!(room.tiles()[4 + 5 * 12].occupied);
    assert_eq!(room.tiles()[4 + 5 * 12].uuid, first);
    assert_eq!(room.tiles()[5 + 5 * 12].uuid, second);
    assert_eq!(player.current_stats().health, 20);
    assert!(occupancy_holds(&room));
}

#[test]
fn blocked_creature_neither_moves_nor_attacks() {
    let mut room = Room::bare(Vec2::new(12, 12));
    let front = room.spawn_goblin(Vec2::new(3, 4)).unwrap();
    let behind = room.spawn_goblin(Vec2::new(4, 4)).unwrap();
    let mut player = Player::new(String::from("hero"), Vec2::new(2, 4));

    room.step(&mut player);

    assert_eq!(*room.get_entities().get(front).unwrap().position(), Vec2::new(3, 4));
    assert_eq!(*room.get_entities().get(behind).unwrap().position(), Vec2::new(4, 4));
    assert_eq!(player.current_stats().health, 18);
    assert!(occupancy_holds(&room));
}

#[test]
fn occupancy_holds_through_many_steps() {
    for _ in 0..20 {
        let mut room = Room::new(Vec2::new(12, 10));
        let mut player = Player::new(String::from("hero"), Vec2::new(1, 1));
        let mut log = Log::new(20);
        for turn in 0..40usize {
            let pos = *player.position();
            let target = match turn % 4 {
                0 => Vec2::new(pos.x + 1, pos.y),
                1 => Vec2::new(pos.x, pos.y + 1),
                2 => Vec2::new(pos.x + 1, pos.y),
                _ => Vec2::new(pos.x, pos.y.saturating_sub(1)),
            };
            room.handle_player_input(&mut player, target, &mut log);
            assert!(occupancy_holds(&room));
            room.step(&mut player);
            assert!(occupancy_holds(&room));
            assert!(room.valid_position(*player.position()));
        }
    }
}

#[test]
fn creatures_are_drawn_where_they_stand() {
    let mut room = Room::bare(Vec2::new(10, 10));
    let goblin = room.spawn_goblin(Vec2::new(6, 3)).unwrap();
    let out = room.get_entities().get(goblin).unwrap().draw();
    assert_eq!(out.position, Vec2::new(6, 3));
    assert_eq!(out.icon, 'g');
    assert_eq!(out.fg, Vec3::new(0, 255, 0));
    assert_eq!(room.get_entities().get(goblin).unwrap().name(), "a Goblin");
}

#[test]
fn rooms_can_start_their_ids_anywhere() {
    let mut room = Room::bare_from(Vec2::new(10, 10), 40);
    assert_eq!(room.first_uuid(), 40);
    assert_eq!(room.next_uuid(), 40);
    assert_eq!(room.spawn_goblin(Vec2::new(2, 2)), Some(40));
    assert_eq!(room.spawn_goblin(Vec2::new(3, 2)), Some(41));
    assert_eq!(room.next_uuid(), 42);
    assert_eq!(room.tiles()[3 + 2 * 10].uuid, 41);
    let room = Room::new_from(Vec2::new(9, 7), 1000);
    assert_eq!(room.first_uuid(), 1000);
    assert_eq!(room.get_entities().key_at(0), 1000);
    assert_eq!(room.next_uuid(), 1000 + room.get_entities().len());
    assert!(occupancy_holds(&room));
}

#[test]
fn room_without_ids_left_takes_no_creature() {
    let mut room = Room::bare_from(Vec2::new(10, 10), usize::MAX);
    assert_eq!(room.spawn_goblin(Vec2::new(2, 2)), None);
    assert!(room.get_entities().is_empty());
    assert!(!room.tiles()[2 + 2 * 10].occupied);
}
