use rusty_rogue::entity::{
    facing_position, Attack, AttackType, Attackable, Corpse, Drawable, Facing, StatBlock,
};
use rusty_rogue::goblin::Goblin;
use rusty_rogue::player::Player;
use rusty_rogue::utils::{Vec2, Vec3};
use rusty_rogue::world::{Room, Tile, TileType};

fn open_floor(width: usize, height: usize) -> Vec<Tile> {
    Room::bare(Vec2::new(width, height)).tiles().clone()
}

#[test]
fn stat_block_derives_health_and_mana() {
    let stats = StatBlock::new(3, 4, 5);
    assert_eq!(stats.strength, 3);
    assert_eq!(stats.dexterity, 4);
    assert_eq!(stats.intelligence, 5);
    assert_eq!(stats.health, 6);
    assert_eq!(stats.mana, 10);
}

#[test]
fn facing_position_is_the_tile_in_front() {
    let at = Vec2::new(5usize, 5usize);
    assert_eq!(facing_position(Facing::North, at), Vec2::new(5, 6));
    assert_eq!(facing_position(Facing::East, at), Vec2::new(6, 5));
    assert_eq!(facing_position(Facing::South, at), Vec2::new(5, 4));
    assert_eq!(facing_position(Facing::West, at), Vec2::new(4, 5));
}

#[test]
fn facing_position_stays_at_the_rim() {
    let corner = Vec2::new(0usize, 0usize);
    assert_eq!(facing_position(Facing::South, corner), corner);
    assert_eq!(facing_position(Facing::West, corner), corner);
    let far = Vec2::new(usize::MAX, usize::MAX);
    assert_eq!(facing_position(Facing::North, far), far);
    assert_eq!(facing_position(Facing::East, far), far);
}

#[test]
fn new_player_has_the_starting_stats() {
    let player = Player::new(String::from("hero"), Vec2::new(1, 1));
    assert_eq!(player.name(), "hero");
    assert_eq!(*player.position(), Vec2::new(1, 1));
    assert_eq!(*player.base_stats(), StatBlock::new(10, 10, 10));
    assert_eq!(player.current_stats().health, 20);
    assert_eq!(player.target(), None);
    assert!(player.alive());
    assert!(player.collision(Vec2::new(1, 1)));
    assert!(!player.collision(Vec2::new(1, 2)));
}

#[test]
fn player_attack_is_one_and_a_half_strength() {
    let player = Player::new(String::from("hero"), Vec2::new(1, 1));
    let attack = player.send_attack();
    assert_eq!(attack.damage, 15);
    assert_eq!(attack.attack_type, AttackType::Piercing);
    assert_eq!(attack.position, Vec2::new(2, 1));
}

#[test]
fn player_turns_the_way_they_move() {
    let mut player = Player::new(String::from("hero"), Vec2::new(5, 5));
    player.move_player(Vec2::new(4, 5));
    assert_eq!(player.send_attack().position, Vec2::new(3, 5));
    player.move_player(Vec2::new(4, 6));
    assert_eq!(player.send_attack().position, Vec2::new(4, 7));
    player.move_player(Vec2::new(4, 5));
    assert_eq!(player.send_attack().position, Vec2::new(4, 4));
    player.move_player(Vec2::new(5, 5));
    assert_eq!(player.send_attack().position, Vec2::new(6, 5));
    player.move_player(Vec2::new(5, 5));
    assert_eq!(player.send_attack().position, Vec2::new(6, 5));
    player.set_position(9, 9);
    assert_eq!(*player.position(), Vec2::new(9, 9));
    assert_eq!(player.send_attack().position, Vec2::new(10, 9));
}

#[test]
fn player_health_drops_by_the_damage() {
    let mut player = Player::new(String::from("hero"), Vec2::new(1, 1));
    let result = player.receive_attack(&Attack::new(AttackType::Slashing, 7, Vec2::new(1, 1)));
    assert_eq!(player.current_stats().health, 13);
    assert_eq!(player.base_stats().health, 20);
    assert_eq!(result.dmg_dealt, 7);
    assert!(result.target_alive);
    assert_eq!(result.target_name, "hero");
    let result = player.receive_attack(&Attack::new(AttackType::Slashing, 13, Vec2::new(1, 1)));
    assert_eq!(player.current_stats().health, 0);
    assert!(!result.target_alive);
    assert!(!player.alive());
}

#[test]
fn player_targets_can_be_set_and_cleared() {
    let mut player = Player::new(String::from("hero"), Vec2::new(1, 1));
    player.set_target(4);
    assert_eq!(player.target(), Some(4));
    player.clear_target();
    assert_eq!(player.target(), None);
}

#[test]
fn player_text_names_the_position() {
    let player = Player::new(String::from("hero"), Vec2::new(12, 305));
    assert_eq!(player.to_text(), "hero -> x : 12 y: 305");
}

#[test]
fn new_goblin_has_the_goblin_stats() {
    let goblin = Goblin::new(Vec2::new(3, 3));
    assert_eq!(*goblin.position(), Vec2::new(3, 3));
    assert_eq!(*goblin.base_stats(), StatBlock::new(2, 2, 2));
    assert_eq!(goblin.current_stats().health, 4);
    assert!(goblin.alive());
    assert_eq!(goblin.name(), "a Goblin");
    assert!(goblin.collision(Vec2::new(3, 3)));
    assert!(!goblin.collision(Vec2::new(3, 4)));
}

#[test]
fn goblin_health_drops_by_the_damage_and_death_follows() {
    let mut goblin = Goblin::new(Vec2::new(3, 3));
    let result = goblin.receive_attack(&Attack::new(AttackType::Piercing, 3, Vec2::new(3, 3)));
    assert_eq!(goblin.current_stats().health, 1);
    assert!(goblin.alive());
    assert!(result.target_alive);
    assert_eq!(result.dmg_dealt, 3);
    assert_eq!(result.target_name, "a Goblin");
    let result = goblin.receive_attack(&Attack::new(AttackType::Piercing, 1, Vec2::new(3, 3)));
    assert_eq!(goblin.current_stats().health, 0);
    assert!(!goblin.alive());
    assert!(!result.target_alive);
    assert!(!goblin.collision(Vec2::new(3, 3)));
}

#[test]
fn dead_goblin_stays_dead_when_healed() {
    let mut goblin = Goblin::new(Vec2::new(3, 3));
    goblin.receive_attack(&Attack::new(AttackType::Piercing, 15, Vec2::new(3, 3)));
    assert_eq!(goblin.current_stats().health, -11);
    goblin.receive_attack(&Attack::new(AttackType::Piercing, -20, Vec2::new(3, 3)));
    assert_eq!(goblin.current_stats().health, 9);
    assert!(!goblin.alive());
}

#[test]
fn goblin_next_to_the_player_attacks_and_stays() {
    let tiles = open_floor(10, 10);
    let size = Vec2::new(10, 10);
    let player = Player::new(String::from("hero"), Vec2::new(4, 4));
    for from in [Vec2::new(5, 4), Vec2::new(3, 4), Vec2::new(4, 5), Vec2::new(4, 3)] {
        let mut goblin = Goblin::new(from);
        let attack = goblin.update(&player, &tiles, size).unwrap();
        assert_eq!(attack.damage, 2);
        assert_eq!(attack.attack_type, AttackType::Piercing);
        assert_eq!(attack.position, Vec2::new(from.x, from.y + 1));
        assert_eq!(*goblin.position(), from);
    }
}

#[test]
fn goblin_does_not_attack_across_a_corner() {
    let tiles = open_floor(10, 10);
    let player = Player::new(String::from("hero"), Vec2::new(4, 4));
    let mut goblin = Goblin::new(Vec2::new(5, 5));
    assert!(goblin.update(&player, &tiles, Vec2::new(10, 10)).is_none());
    assert_eq!(*goblin.position(), Vec2::new(4, 5));
}

#[test]
fn goblin_does_not_attack_from_two_and_three_tiles_away() {
    let tiles = open_floor(10, 10);
    let player = Player::new(String::from("hero"), Vec2::new(2, 2));
    let mut goblin = Goblin::new(Vec2::new(4, 5));
    assert!(goblin.update(&player, &tiles, Vec2::new(10, 10)).is_none());
    assert_eq!(*goblin.position(), Vec2::new(4, 4));
}

#[test]
fn goblin_steps_along_the_longer_axis() {
    let tiles = open_floor(10, 10);
    let size = Vec2::new(10, 10);
    let player = Player::new(String::from("hero"), Vec2::new(2, 4));
    let mut goblin = Goblin::new(Vec2::new(5, 5));
    assert!(goblin.update(&player, &tiles, size).is_none());
    assert_eq!(*goblin.position(), Vec2::new(4, 5));

    let mut goblin = Goblin::new(Vec2::new(3, 7));
    assert!(goblin.update(&player, &tiles, size).is_none());
    assert_eq!(*goblin.position(), Vec2::new(3, 6));
}

#[test]
fn goblin_waits_when_the_tile_on_the_longer_axis_is_taken() {
    let mut tiles = open_floor(10, 10);
    tiles[4 + 5 * 10].occupied = true;
    let player = Player::new(String::from("hero"), Vec2::new(2, 4));
    let mut goblin = Goblin::new(Vec2::new(5, 5));
    assert!(goblin.update(&player, &tiles, Vec2::new(10, 10)).is_none());
    assert_eq!(*goblin.position(), Vec2::new(5, 5));
}

#[test]
fn goblin_tries_the_row_when_the_column_is_blocked() {
    let mut tiles = open_floor(10, 10);
    tiles[3 + 6 * 10].occupied = true;
    let player = Player::new(String::from("hero"), Vec2::new(2, 4));
    let mut goblin = Goblin::new(Vec2::new(3, 7));
    assert!(goblin.update(&player, &tiles, Vec2::new(10, 10)).is_none());
    assert_eq!(*goblin.position(), Vec2::new(2, 7));
}

#[test]
fn goblin_does_not_leave_the_grid() {
    let tiles = open_floor(4, 4);
    let player = Player::new(String::from("hero"), Vec2::new(9, 2));
    let mut goblin = Goblin::new(Vec2::new(3, 2));
    assert!(goblin.update(&player, &tiles, Vec2::new(4, 4)).is_none());
    assert_eq!(*goblin.position(), Vec2::new(3, 2));
}

#[test]
fn goblin_colour_fades_from_green_to_red() {
    let mut goblin = Goblin::new(Vec2::new(3, 3));
    let full = goblin.draw();
    assert_eq!(full.position, Vec2::new(3, 3));
    assert_eq!(full.icon, 'g');
    assert_eq!(full.fg, Vec3::new(0, 255, 0));
    assert_eq!(full.bg, Vec3::new(95, 95, 95));

    goblin.receive_attack(&Attack::new(AttackType::Piercing, 1, Vec2::new(3, 3)));
    assert_eq!(goblin.draw().fg, Vec3::new(63, 191, 0));

    goblin.receive_attack(&Attack::new(AttackType::Piercing, 1, Vec2::new(3, 3)));
    assert_eq!(goblin.draw().fg, Vec3::new(127, 127, 0));

    goblin.receive_attack(&Attack::new(AttackType::Piercing, 9, Vec2::new(3, 3)));
    assert_eq!(goblin.draw().fg, Vec3::new(255, 0, 0));
}

#[test]
fn goblin_colour_matches_the_share_of_health() {
    for lost in 0..=4 {
        let mut goblin = Goblin::new(Vec2::new(3, 3));
        goblin.receive_attack(&Attack::new(AttackType::Piercing, lost, Vec2::new(3, 3)));
        let percent: f32 = (4 - lost) as f32 / 4.0;
        let red = (255.0 * (1.0 - percent)) as u8;
        let green = (255.0 * percent) as u8;
        assert_eq!(goblin.draw().fg, Vec3::new(red, green, 0));
    }
}

#[test]
fn corpse_is_drawn_dark_on_grey() {
    let corpse = Corpse::new(Vec2::new(2, 7));
    assert_eq!(*corpse.position(), Vec2::new(2, 7));
    let out = corpse.draw();
    assert_eq!(out.position, Vec2::new(2, 7));
    assert_eq!(out.fg, Vec3::new(50, 50, 50));
    assert_eq!(out.bg, Vec3::new(95, 95, 95));
    assert_eq!(out.icon, 'c');
}

#[test]
fn tile_kinds_know_how_they_look_and_what_they_stop() {
    let exit = TileType::Exit { node_id: 3, exiting_direction: rusty_rogue::world::Direction::East };
    assert!(TileType::Wall.collidable());
    assert!(!TileType::Granite.collidable());
    assert!(!exit.collidable());
    assert_eq!(TileType::Wall.value().icon, '#');
    assert_eq!(TileType::Granite.value().icon, '.');
    assert_eq!(exit.value().icon, ' ');
    assert_eq!(TileType::Wall.value().fg, Vec3::new(255, 255, 255));
    assert_eq!(TileType::Wall.value().bg, Vec3::new(95, 95, 95));
    assert_eq!(exit.value().fg, Vec3::new(0, 0, 0));
    assert_eq!(exit.value().bg, Vec3::new(255, 242, 0));
    let tile = Tile::new(TileType::Granite);
    assert_eq!(tile.id, TileType::Granite);
    assert!(!tile.occupied);
    assert_eq!(tile.uuid, 0);
    assert!(tile.corpses.is_empty());
}
