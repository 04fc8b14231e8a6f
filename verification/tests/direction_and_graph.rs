use rusty_rogue::utils::{Graph, GraphError, Vec2};
use rusty_rogue::world::Direction;

const ALL: [Direction; 4] = [Direction::North, Direction::East, Direction::South, Direction::West];

#[test]
fn invert_twice_is_identity() {
    for d in ALL {
        let mut turned = d;
        turned.invert();
        assert_ne!(turned, d);
        turned.invert();
        assert_eq!(turned, d);
    }
}

#[test]
fn invert_swaps_opposites() {
    let mut d = Direction::North;
    d.invert();
    assert_eq!(d, Direction::South);
    let mut d = Direction::East;
    d.invert();
    assert_eq!(d, Direction::West);
}

#[test]
fn four_clockwise_turns_are_identity() {
    for d in ALL {
        let mut turned = d;
        for _ in 0..4 {
            turned.rotate_cw();
        }
        assert_eq!(turned, d);
    }
}

#[test]
fn clockwise_order_is_north_east_south_west() {
    let mut d = Direction::North;
    d.rotate_cw();
    assert_eq!(d, Direction::East);
    d.rotate_cw();
    assert_eq!(d, Direction::South);
    d.rotate_cw();
    assert_eq!(d, Direction::West);
    d.rotate_cw();
    assert_eq!(d, Direction::North);
}

#[test]
fn quarter_turns_cancel() {
    for d in ALL {
        let mut turned = d;
        turned.rotate_cw();
        turned.rotate_ccw();
        assert_eq!(turned, d);
        turned.rotate_ccw();
        turned.rotate_cw();
        assert_eq!(turned, d);
    }
}

#[test]
fn get_direction_counts_from_one() {
    assert_eq!(Direction::get_direction(0), Direction::North);
    assert_eq!(Direction::get_direction(1), Direction::North);
    assert_eq!(Direction::get_direction(2), Direction::East);
    assert_eq!(Direction::get_direction(3), Direction::South);
    assert_eq!(Direction::get_direction(4), Direction::West);
    assert_eq!(Direction::get_direction(99), Direction::North);
}

#[test]
fn try_apply_steps_one_tile() {
    let at = Vec2::new(3usize, 4usize);
    assert_eq!(Direction::North.try_apply(at), Some(Vec2::new(3, 3)));
    assert_eq!(Direction::East.try_apply(at), Some(Vec2::new(4, 4)));
    assert_eq!(Direction::South.try_apply(at), Some(Vec2::new(3, 5)));
    assert_eq!(Direction::West.try_apply(at), Some(Vec2::new(2, 4)));
}

#[test]
fn try_apply_fails_only_at_the_near_edges() {
    let corner = Vec2::new(0usize, 0usize);
    assert_eq!(Direction::North.try_apply(corner), None);
    assert_eq!(Direction::West.try_apply(corner), None);
    assert_eq!(Direction::East.try_apply(corner), Some(Vec2::new(1, 0)));
    assert_eq!(Direction::South.try_apply(corner), Some(Vec2::new(0, 1)));
}

#[test]
fn vectors_add_by_component() {
    assert_eq!(Vec2::new(1i32, 2) + Vec2::new(10, 20), Vec2::new(11, 22));
    let sum = rusty_rogue::utils::Vec3::new(1u8, 2, 3) + rusty_rogue::utils::Vec3::new(4, 5, 6);
    assert_eq!(sum, rusty_rogue::utils::Vec3::new(5, 7, 9));
}

#[test]
fn graph_numbers_nodes_in_order() {
    let mut graph: Graph<&str> = Graph::new();
    assert_eq!(graph.len(), 0);
    assert_eq!(graph.new_node("a"), 0);
    assert_eq!(graph.new_node("b"), 1);
    assert_eq!(graph.len(), 2);
    assert_eq!(*graph.get(1).unwrap().data(), "b");
    assert!(graph.get(2).is_none());
    assert!(graph.get_neighbors(0).unwrap().is_empty());
}

#[test]
fn graph_rejects_self_loops_and_missing_nodes() {
    let mut graph: Graph<u8> = Graph::new();
    graph.new_node(1);
    graph.new_node(2);
    assert_eq!(graph.add_neighbor(0, 0), Err(GraphError::InvalidNode));
    assert_eq!(graph.add_neighbor(0, 2), Err(GraphError::InvalidNode));
    assert_eq!(graph.add_neighbor(2, 0), Err(GraphError::InvalidNode));
    assert!(graph.get_neighbors(0).unwrap().is_empty());
    assert!(graph.get_neighbors(2).is_none());
}

#[test]
fn graph_keeps_an_edge_once() {
    let mut graph: Graph<u8> = Graph::new();
    graph.new_node(1);
    graph.new_node(2);
    graph.new_node(3);
    assert_eq!(graph.add_neighbor(0, 1), Ok(()));
    assert_eq!(graph.add_neighbor(0, 2), Ok(()));
    assert_eq!(graph.add_neighbor(0, 1), Ok(()));
    assert_eq!(graph.get_neighbors(0).unwrap(), &vec![1, 2]);
    assert!(graph.get_neighbors(1).unwrap().is_empty());
}

#[test]
fn graph_add_new_neighbor_links_the_new_node() {
    let mut graph: Graph<u8> = Graph::new();
    graph.new_node(1);
    assert_eq!(graph.add_new_neighbor(0, 9), Ok(1));
    assert_eq!(graph.get_neighbors(0).unwrap(), &vec![1]);
    assert_eq!(*graph.get(1).unwrap().data(), 9);
    assert_eq!(graph.add_new_neighbor(5, 9), Err(GraphError::InvalidNode));
    assert_eq!(graph.len(), 2);
}

#[test]
fn graph_get_mut_changes_the_payload_in_place() {
    let mut graph: Graph<u8> = Graph::new();
    graph.new_node(1);
    *graph.get_mut(0).unwrap().data_mut() = 7;
    assert_eq!(*graph.get(0).unwrap().data(), 7);
    assert!(graph.get_mut(1).is_none());
}
