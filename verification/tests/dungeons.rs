use rusty_rogue::log::Log;
use rusty_rogue::player::Player;
use rusty_rogue::utils::{Graph, Vec2};
use rusty_rogue::world::dungeon_builder::DungeonBuilder;
use rusty_rogue::world::{Direction, Dungeon, Room, TileType, World, WorldError, WorldNode};

fn two_rooms() -> Dungeon {
    let mut first = Room::bare(Vec2::new(10, 10));
    first.add_neighbor_at(Direction::East, 1, 4);
    let mut second = Room::bare(Vec2::new(8, 8));
    second.add_neighbor_at(Direction::West, 0, 4);
    let mut floor: Graph<Room> = Graph::new();
    floor.new_node(first);
    floor.new_node(second);
    floor.add_neighbor(0, 1).unwrap();
    floor.add_neighbor(1, 0).unwrap();
    Dungeon::with_floor(1, floor)
}

fn exits_facing(room: &Room, side: Direction) -> Vec<usize> {
    let mut found = Vec::new();
    for y in 0..room.height() {
        for x in 0..room.width() {
            if let TileType::Exit { node_id, exiting_direction } = room.get_tile_type(Vec2::new(x, y)) {
                if exiting_direction == side {
                    found.push(node_id);
                }
            }
        }
    }
    found
}

#[test]
fn stepping_on_an_exit_leads_into_the_next_room() {
    let mut dungeon = two_rooms();
    let mut player = Player::new(String::from("hero"), Vec2::new(8, 4));
    let mut log = Log::new(20);
    assert_eq!(dungeon.active_room_id(), 0);

    let res = dungeon.handle_player_input(&mut player, Vec2::new(9, 4), &mut log);

    assert_eq!(res, Ok(()));
    assert_eq!(dungeon.active_room_id(), 1);
    let entrance = dungeon.get_room(0, 1).unwrap().entering_position(Direction::West).unwrap();
    assert_eq!(entrance, Vec2::new(1, 4));
    assert_eq!(*player.position(), entrance);
    assert!(dungeon.valid_position(*player.position()));
    assert_eq!(dungeon.active_room().width(), 8);
}

#[test]
fn the_way_back_leads_to_the_first_room() {
    let mut dungeon = two_rooms();
    let mut player = Player::new(String::from("hero"), Vec2::new(8, 4));
    let mut log = Log::new(20);
    dungeon.handle_player_input(&mut player, Vec2::new(9, 4), &mut log).unwrap();
    let res = dungeon.handle_player_input(&mut player, Vec2::new(0, 4), &mut log);
    assert_eq!(res, Ok(()));
    assert_eq!(dungeon.active_room_id(), 0);
    assert_eq!(*player.position(), Vec2::new(8, 4));
}

#[test]
fn ordinary_moves_stay_in_the_room() {
    let mut dungeon = two_rooms();
    let mut player = Player::new(String::from("hero"), Vec2::new(1, 1));
    let mut log = Log::new(20);
    assert_eq!(dungeon.starting_position(), Vec2::new(1, 1));
    assert_eq!(dungeon.handle_player_input(&mut player, Vec2::new(2, 1), &mut log), Ok(()));
    assert_eq!(dungeon.active_room_id(), 0);
    assert_eq!(*player.position(), Vec2::new(2, 1));
    assert_eq!(dungeon.handle_player_input(&mut player, Vec2::new(2, 0), &mut log), Ok(()));
    assert_eq!(*player.position(), Vec2::new(2, 1));
}

#[test]
fn exit_to_a_missing_room_is_reported() {
    let mut room = Room::bare(Vec2::new(10, 10));
    room.add_neighbor_at(Direction::East, 7, 4);
    let mut floor: Graph<Room> = Graph::new();
    floor.new_node(room);
    let mut dungeon = Dungeon::with_floor(1, floor);
    let mut player = Player::new(String::from("hero"), Vec2::new(8, 4));
    let mut log = Log::new(20);
    let res = dungeon.handle_player_input(&mut player, Vec2::new(9, 4), &mut log);
    assert_eq!(res, Err(WorldError::InvalidRoomReference));
    assert_eq!(dungeon.active_room_id(), 0);
    assert_eq!(*player.position(), Vec2::new(9, 4));
    assert!(dungeon.get_room(0, 7).is_err());
    assert!(dungeon.get_room(1, 0).is_err());
}

#[test]
fn room_without_entrance_puts_the_player_on_its_start_tile() {
    let mut first = Room::bare(Vec2::new(10, 10));
    first.add_neighbor_at(Direction::East, 1, 4);
    let second = Room::bare(Vec2::new(8, 8));
    let mut floor: Graph<Room> = Graph::new();
    floor.new_node(first);
    floor.new_node(second);
    let mut dungeon = Dungeon::with_floor(1, floor);
    let mut player = Player::new(String::from("hero"), Vec2::new(8, 4));
    let mut log = Log::new(20);
    let res = dungeon.handle_player_input(&mut player, Vec2::new(9, 4), &mut log);
    assert_eq!(res, Err(WorldError::NoMatchingEntrance));
    assert_eq!(dungeon.active_room_id(), 1);
    assert_eq!(*player.position(), Vec2::new(1, 1));
    assert!(dungeon.valid_position(*player.position()));
}

#[test]
fn dungeon_step_runs_the_active_room() {
    let mut first = Room::bare(Vec2::new(10, 10));
    first.spawn_goblin(Vec2::new(3, 1));
    let mut second = Room::bare(Vec2::new(8, 8));
    second.spawn_goblin(Vec2::new(2, 2));
    let mut floor: Graph<Room> = Graph::new();
    floor.new_node(first);
    floor.new_node(second);
    let mut dungeon = Dungeon::with_floor(1, floor);
    let mut player = Player::new(String::from("hero"), Vec2::new(1, 1));
    dungeon.step(&mut player);
    assert_eq!(dungeon.get_entities().len(), 1);
    assert_eq!(
        *rusty_rogue::entity::Attackable::position(dungeon.get_entities().value_at(0)),
        Vec2::new(2, 1)
    );
    assert_eq!(
        *rusty_rogue::entity::Attackable::position(
            dungeon.get_room(0, 1).unwrap().get_entities().value_at(0)
        ),
        Vec2::new(2, 2)
    );
    dungeon.step(&mut player);
    assert_eq!(player.current_stats().health, 18);
}

#[test]
fn generated_floors_stay_within_their_budget() {
    for budget in [0usize, 1, 2, 5, 10, 30] {
        for _ in 0..10 {
            let mut floor: Graph<Room> = Graph::new();
            let mut builder = DungeonBuilder::new(Vec2::new(3, 4), Vec2::new(6, 6), budget);
            builder.build_floor(&mut floor);
            let mut marked = 0;
            let mut filled = 0;
            for y in 0..6 {
                for x in 0..6 {
                    let cell = builder.get_cell(Vec2::new(x, y));
                    assert_eq!(cell.left_corner, Vec2::new(x, y));
                    if cell.has_room {
                        marked += 1;
                    }
                    if cell.filled {
                        filled += 1;
                        assert!(cell.has_room);
                        assert!(cell.node < floor.len());
                    }
                }
            }
            assert!(filled <= budget);
            assert_eq!(floor.len(), filled);
            assert_eq!(marked, builder.room_count());
            assert_eq!(marked, budget.min(36));
            assert_eq!(filled, marked);
            if budget > 0 {
                assert!(builder.get_cell(Vec2::new(3, 4)).filled);
                assert_eq!(builder.get_cell(Vec2::new(3, 4)).node, 0);
            }
        }
    }
}

#[test]
fn generated_rooms_are_linked_both_ways() {
    for _ in 0..20 {
        let size = Vec2::new(5usize, 4usize);
        let mut floor: Graph<Room> = Graph::new();
        let mut builder = DungeonBuilder::new(Vec2::new(2, 2), size, 9);
        builder.build_floor(&mut floor);
        for y in 0..size.y {
            for x in 0..size.x {
                let here = *builder.get_cell(Vec2::new(x, y));
                if !here.filled {
                    continue;
                }
                let room = floor.get(here.node).unwrap().data();
                assert!(room.width() >= 5 && room.width() < 16);
                assert!(room.height() >= 5 && room.height() < 16);
                for d in [Direction::North, Direction::East, Direction::South, Direction::West] {
                    let next = d.try_apply(Vec2::new(x, y)).filter(|n| n.x < size.x && n.y < size.y);
                    let linked = next.map(|n| *builder.get_cell(n)).filter(|c| c.has_room);
                    match linked {
                        Some(there) => {
                            assert!(there.filled);
                            assert_eq!(exits_facing(room, d), vec![there.node]);
                            assert!(floor.get_neighbors(here.node).unwrap().contains(&there.node));
                            assert!(floor.get_neighbors(there.node).unwrap().contains(&here.node));
                            let mut back = d;
                            back.invert();
                            let other = floor.get(there.node).unwrap().data();
                            let arrival = other.entering_position(back).unwrap();
                            assert!(other.valid_position(arrival));
                            assert_eq!(exits_facing(other, back), vec![here.node]);
                        },
                        None => assert!(exits_facing(room, d).is_empty()),
                    }
                }
            }
        }
    }
}

#[test]
fn walking_through_a_generated_exit_arrives_on_valid_floor() {
    for _ in 0..20 {
        let mut dungeon = Dungeon::new(1);
        let mut log = Log::new(20);
        let room = dungeon.active_room();
        let mut exit = None;
        for y in 0..room.height() {
            for x in 0..room.width() {
                if let TileType::Exit { node_id, .. } = room.get_tile_type(Vec2::new(x, y)) {
                    exit = Some((Vec2::new(x, y), node_id));
                }
            }
        }
        let (at, leads_to) = exit.unwrap();
        let mut player = Player::new(String::from("hero"), dungeon.starting_position());
        assert_eq!(dungeon.handle_player_input(&mut player, at, &mut log), Ok(()));
        assert_eq!(dungeon.active_room_id(), leads_to);
        assert!(dungeon.valid_position(*player.position()));
    }
}

#[test]
fn new_dungeon_starts_in_its_first_room() {
    let dungeon = Dungeon::new(3);
    assert_eq!(dungeon.active_room_id(), 0);
    assert_eq!(dungeon.active_floor_id(), 0);
    assert_eq!(dungeon.starting_position(), Vec2::new(1, 1));
    assert!(dungeon.valid_position(dungeon.starting_position()));
    let rooms = dungeon.rooms_on_floor(0);
    assert_eq!(rooms, 10);
    assert_eq!(dungeon.rooms_on_floor(1), 0);
    assert!(!dungeon.get_entities().is_empty());
}

#[test]
fn world_hands_requests_to_its_dungeon() {
    let mut world = World::with_dungeon(two_rooms());
    let mut player = Player::new(String::from("hero"), world.starting_position());
    let mut log = Log::new(20);
    assert_eq!(*player.position(), Vec2::new(1, 1));
    assert!(world.valid_position(Vec2::new(1, 1)));
    assert!(!world.valid_position(Vec2::new(0, 0)));
    assert!(world.get_entities().unwrap().is_empty());
    player.set_position(8, 4);
    assert_eq!(world.handle_player_input(&mut player, Vec2::new(9, 4), &mut log), Ok(()));
    match world.active_node() {
        WorldNode::DungeonNode(dungeon) => assert_eq!(dungeon.active_room_id(), 1),
    }
    assert_eq!(*player.position(), Vec2::new(1, 4));
    world.step(&mut player);
    assert_eq!(player.current_stats().health, 20);
    assert!(world.get_node(0).is_ok());
    assert!(matches!(world.get_node(1), Err(WorldError::InvalidRoomReference)));
}

#[test]
fn new_world_is_ready_to_play() {
    let world = World::new();
    assert!(world.valid_position(world.starting_position()));
    assert!(!world.get_entities().unwrap().is_empty());
}

#[test]
fn creature_ids_are_unique_across_a_generated_floor() {
    for _ in 0..10 {
        let mut floor: Graph<Room> = Graph::new();
        let mut builder = DungeonBuilder::new(Vec2::new(0, 0), Vec2::new(4, 4), 12);
        builder.build_floor(&mut floor);
        assert_eq!(floor.len(), 12);
        let mut seen = Vec::new();
        let mut next = 0;
        for id in 0..floor.len() {
            let room = floor.get(id).unwrap().data();
            assert_eq!(room.first_uuid(), next);
            assert_eq!(room.next_uuid(), next + room.get_entities().len());
            for i in 0..room.get_entities().len() {
                let uuid = room.get_entities().key_at(i);
                assert!(!seen.contains(&uuid));
                assert!(uuid >= room.first_uuid() && uuid < room.next_uuid());
                seen.push(uuid);
            }
            next = room.next_uuid();
        }
    }
}

#[test]
fn budget_beyond_the_grid_fills_the_grid() {
    let mut floor: Graph<Room> = Graph::new();
    let mut builder = DungeonBuilder::new(Vec2::new(1, 0), Vec2::new(3, 2), 50);
    builder.build_floor(&mut floor);
    assert_eq!(builder.room_count(), 6);
    assert_eq!(floor.len(), 6);
    assert_eq!(builder.size(), Vec2::new(3, 2));
}

#[test]
fn grid_picture_shows_nodes_and_gaps() {
    let mut floor: Graph<Room> = Graph::new();
    let mut builder = DungeonBuilder::new(Vec2::new(1, 0), Vec2::new(2, 2), 1);
    assert_eq!(builder.debug_text(), "__ __ \n__ __ \nstart at Vec2 { x: 1, y: 0 }\nroom ct 0\n");
    builder.build_floor(&mut floor);
    assert_eq!(builder.debug_text(), "__ 00 \n__ __ \nstart at Vec2 { x: 1, y: 0 }\nroom ct 1\n");
    assert_eq!(format!("start at {:?}", Vec2::new(1usize, 0usize)), "start at Vec2 { x: 1, y: 0 }");
}

#[test]
fn lent_creatures_of_the_active_room_can_be_changed() {
    let mut first = Room::bare(Vec2::new(10, 10));
    first.spawn_goblin(Vec2::new(3, 1));
    let mut floor: Graph<Room> = Graph::new();
    floor.new_node(first);
    let mut world = World::with_dungeon(Dungeon::with_floor(1, floor));
    let attack = rusty_rogue::entity::Attack::new(
        rusty_rogue::entity::AttackType::Slashing,
        1,
        Vec2::new(3, 1),
    );
    rusty_rogue::entity::Attackable::receive_attack(
        world.get_mut_entities().unwrap().get_mut(0).unwrap(),
        &attack,
    );
    let health = rusty_rogue::entity::Attackable::current_stats(
        world.get_entities().unwrap().get(0).unwrap(),
    )
    .health;
    assert_eq!(health, 3);
}

#[test]
fn generated_edges_are_the_adjacency_of_the_cells() {
    for _ in 0..20 {
        let size = Vec2::new(5usize, 5usize);
        let mut floor: Graph<Room> = Graph::new();
        let mut builder = DungeonBuilder::new(Vec2::new(2, 3), size, 11);
        builder.build_floor(&mut floor);
        assert_eq!(floor.len(), 11);
        let mut cell_of = vec![Vec2::new(0usize, 0usize); floor.len()];
        for y in 0..size.y {
            for x in 0..size.x {
                let cell = builder.get_cell(Vec2::new(x, y));
                if cell.filled {
                    cell_of[cell.node] = Vec2::new(x, y);
                }
            }
        }
        for a in 0..floor.len() {
            let neighbors = floor.get_neighbors(a).unwrap();
            let room = floor.get(a).unwrap().data();
            let mut exits = 0;
            for y in 0..room.height() {
                for x in 0..room.width() {
                    if let TileType::Exit { node_id, .. } = room.get_tile_type(Vec2::new(x, y)) {
                        exits += 1;
                        assert!(neighbors.contains(&node_id));
                    }
                }
            }
            assert_eq!(exits, neighbors.len());
            for b in 0..floor.len() {
                let apart = cell_of[a].x.abs_diff(cell_of[b].x) + cell_of[a].y.abs_diff(cell_of[b].y);
                let linked = neighbors.contains(&b);
                assert_eq!(linked, apart == 1);
                assert_eq!(linked, floor.get_neighbors(b).unwrap().contains(&a));
            }
            assert!(!neighbors.contains(&a));
            assert!(neighbors.iter().all(|n| *n < floor.len()));
        }
        let mut reached = vec![false; floor.len()];
        let mut stack = vec![0usize];
        reached[0] = true;
        while let Some(a) = stack.pop() {
            for b in floor.get_neighbors(a).unwrap() {
                if !reached[*b] {
                    reached[*b] = true;
                    stack.push(*b);
                }
            }
        }
        assert!(reached.iter().all(|r| *r));
    }
}

#[test]
fn new_dungeon_has_linked_rooms_with_creatures() {
    for _ in 0..5 {
        let dungeon = Dungeon::new(1);
        for r in 0..dungeon.rooms_on_floor(0) {
            let room = dungeon.get_room(0, r).unwrap();
            assert!(!room.get_entities().is_empty());
            let mut exits = 0;
            for y in 0..room.height() {
                for x in 0..room.width() {
                    if let TileType::Exit { node_id, exiting_direction } =
                        room.get_tile_type(Vec2::new(x, y))
                    {
                        exits += 1;
                        let mut back = exiting_direction;
                        back.invert();
                        let there = dungeon.get_room(0, node_id).unwrap();
                        assert!(there.entering_position(back).is_ok());
                    }
                }
            }
            assert!(exits >= 1 && exits <= 4);
        }
    }
}

#[test]
fn floor_built_behind_other_rooms_leaves_them_alone() {
    for budget in [0usize, 3, 7] {
        let mut floor: Graph<Room> = Graph::new();
        let mut lobby = Room::bare(Vec2::new(6, 6));
        lobby.spawn_goblin(Vec2::new(2, 2));
        floor.new_node(lobby);
        floor.new_node(Room::bare(Vec2::new(7, 5)));
        floor.add_neighbor(0, 1).unwrap();
        let before = floor.len();

        let mut builder = DungeonBuilder::new(Vec2::new(1, 1), Vec2::new(4, 4), budget);
        builder.build_floor(&mut floor);

        let mut filled = 0;
        for y in 0..4 {
            for x in 0..4 {
                let cell = builder.get_cell(Vec2::new(x, y));
                if cell.filled {
                    filled += 1;
                    assert!(cell.node >= before && cell.node < floor.len());
                }
            }
        }
        assert_eq!(floor.len() - before, filled);
        assert_eq!(filled, budget);
        assert!(floor.len() - before <= budget);
        if budget > 0 {
            assert_eq!(builder.get_cell(Vec2::new(1, 1)).node, before);
        }
        assert_eq!(floor.get_neighbors(0).unwrap(), &vec![1]);
        assert!(floor.get_neighbors(1).unwrap().is_empty());
        assert_eq!(floor.get(0).unwrap().data().width(), 6);
        assert_eq!(floor.get(0).unwrap().data().get_entities().len(), 1);
        assert_eq!(floor.get(1).unwrap().data().width(), 7);
        for a in before..floor.len() {
            for n in floor.get_neighbors(a).unwrap() {
                assert!(*n >= before);
                assert!(floor.get_neighbors(*n).unwrap().contains(&a));
            }
        }
    }
}
