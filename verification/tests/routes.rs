use roguelike_core::map::{Tile, TileMap, Wall};
use roguelike_core::pathing::{astar_neighbors, astar_path, path_estimate, same_cell, too_far};
use roguelike_core::types::Pos;
use roguelike_core::utils::distance;

fn open_map() -> TileMap {
    TileMap::from_dims(10, 10)
}

fn no_estimate() -> Option<fn(Pos, Pos, &TileMap) -> i32> {
    None
}

fn zero_estimate(_start: Pos, _pos: Pos, _map: &TileMap) -> i32 {
    0
}

fn assert_is_route(map: &TileMap, route: &Vec<Pos>, start: Pos, end: Pos) {
    assert_eq!(route[0], start);
    assert_eq!(route[route.len() - 1], end);
    for i in 0..route.len() - 1 {
        assert_eq!(distance(route[i], route[i + 1]), 1);
        assert_eq!(map.move_blocked_by_wall(route[i], route[i + 1]), None);
    }
}

#[test]
fn neighbours_of_an_open_cell_in_order() {
    let map = open_map();
    let neighbors = map.reachable_neighbors(Pos::new(5, 5));
    assert_eq!(neighbors.len(), 8);
    assert_eq!(
        neighbors.to_vec(),
        vec![
            Pos::new(6, 5),
            Pos::new(6, 6),
            Pos::new(5, 6),
            Pos::new(4, 6),
            Pos::new(4, 5),
            Pos::new(4, 4),
            Pos::new(5, 4),
            Pos::new(6, 4)
        ]
    );
    assert_eq!(neighbors.get(0), Some(Pos::new(6, 5)));
    assert_eq!(neighbors.get(7), Some(Pos::new(6, 4)));
    assert_eq!(neighbors.get(8), None);
}

#[test]
fn neighbours_in_a_corner_of_the_grid() {
    let map = open_map();
    let neighbors = map.reachable_neighbors(Pos::new(0, 0));
    assert_eq!(neighbors.to_vec(), vec![Pos::new(1, 0), Pos::new(1, 1), Pos::new(0, 1)]);
    let far = map.reachable_neighbors(Pos::new(i32::MAX, i32::MIN));
    assert_eq!(far.len(), 0);
}

#[test]
fn neighbours_behind_walls_are_left_out() {
    let mut map = open_map();
    map[(5, 5)].left_wall = Wall::ShortWall;
    map[(5, 6)].left_wall = Wall::ShortWall;
    map[(5, 4)].left_wall = Wall::ShortWall;
    map[(6, 5)] = Tile::water();
    let neighbors = map.reachable_neighbors(Pos::new(5, 5)).to_vec();
    assert_eq!(neighbors, vec![Pos::new(6, 6), Pos::new(5, 6), Pos::new(5, 4), Pos::new(6, 4)]);
}

#[test]
fn search_steps_cost_one_and_stop_beyond_the_bound() {
    let map = open_map();
    let start = Pos::new(2, 2);
    let steps = astar_neighbors(&map, start, Pos::new(0, 0), None);
    assert_eq!(steps, vec![(Pos::new(1, 0), 1), (Pos::new(1, 1), 1), (Pos::new(0, 1), 1)]);
    assert_eq!(astar_neighbors(&map, start, Pos::new(0, 0), Some(2)), steps);
    assert_eq!(astar_neighbors(&map, start, Pos::new(0, 0), Some(1)), Vec::new());
    // a neighbour beyond the bound is left out
    assert_eq!(
        astar_neighbors(&map, start, Pos::new(1, 1), Some(1)),
        vec![
            (Pos::new(2, 1), 1),
            (Pos::new(2, 2), 1),
            (Pos::new(1, 2), 1),
        ]
    );
    assert_eq!(astar_neighbors(&map, start, Pos::new(2, 2), Some(-1)), Vec::new());
}

#[test]
fn the_estimate_is_the_distance_unless_one_is_given() {
    let map = open_map();
    let start = Pos::new(0, 0);
    assert_eq!(path_estimate(&map, &no_estimate(), start, Pos::new(2, 3), Pos::new(8, 5)), 6);
    let custom: Option<fn(Pos, Pos, &TileMap) -> i32> = Some(zero_estimate);
    assert_eq!(path_estimate(&map, &custom, start, Pos::new(2, 3), Pos::new(8, 5)), 0);
    assert!(same_cell(Pos::new(2, 3), Pos::new(2, 3)));
    assert!(!same_cell(Pos::new(2, 3), Pos::new(3, 2)));
}

#[test]
fn path_to_the_start_is_the_start() {
    let map = open_map();
    let at = Pos::new(4, 4);
    assert_eq!(astar_path(&map, at, at, None, no_estimate()), vec![at]);
    assert_eq!(astar_path(&map, at, at, Some(0), no_estimate()), vec![at]);
    let outside = Pos::new(-5, 40);
    assert_eq!(astar_path(&map, outside, outside, None, no_estimate()), vec![outside]);
}

#[test]
fn path_on_an_open_map_is_a_shortest_one() {
    let map = open_map();
    let start = Pos::new(0, 0);
    let end = Pos::new(3, 3);
    let path = astar_path(&map, start, end, None, no_estimate());
    assert_eq!(path.len(), 4);
    assert_is_route(&map, &path, start, end);

    let far = Pos::new(9, 2);
    let path = astar_path(&map, start, far, None, no_estimate());
    assert_eq!(path.len(), 10);
    assert_is_route(&map, &path, start, far);
}

#[test]
fn path_goes_around_a_wall() {
    let mut map = open_map();
    for y in 0..9 {
        map[(5, y)].left_wall = Wall::TallWall;
    }
    let start = Pos::new(4, 0);
    let end = Pos::new(5, 0);
    let path = astar_path(&map, start, end, None, no_estimate());
    assert_is_route(&map, &path, start, end);
    assert_eq!(path.len(), 19);
}

#[test]
fn path_into_an_enclosed_cell_is_empty() {
    let mut map = open_map();
    map[(5, 5)] = Tile::water();
    assert_eq!(astar_path(&map, Pos::new(0, 0), Pos::new(5, 5), None, no_estimate()), Vec::new());

    let mut walled = open_map();
    for x in 4..7 {
        for y in 4..7 {
            if (x, y) != (5, 5) {
                walled[(x, y)] = Tile::wall();
            }
        }
    }
    let path = astar_path(&walled, Pos::new(0, 0), Pos::new(5, 5), None, no_estimate());
    assert_eq!(path, Vec::new());
}

#[test]
fn path_off_the_grid_is_empty() {
    let map = open_map();
    assert_eq!(astar_path(&map, Pos::new(0, 0), Pos::new(10, 3), None, no_estimate()), Vec::new());
    assert_eq!(
        astar_path(&map, Pos::new(0, 0), Pos::new(i32::MAX, i32::MAX), None, no_estimate()),
        Vec::new()
    );
}

#[test]
fn a_bounded_search_keeps_within_its_bound() {
    let map = open_map();
    let start = Pos::new(0, 0);
    let path = astar_path(&map, start, Pos::new(3, 0), Some(3), no_estimate());
    assert_eq!(path.len(), 4);
    for pos in path.iter() {
        assert!(distance(start, *pos) <= 3);
    }
    assert_eq!(astar_path(&map, start, Pos::new(4, 0), Some(3), no_estimate()), Vec::new());
    assert_eq!(astar_path(&map, start, Pos::new(9, 0), Some(3), no_estimate()), Vec::new());
    assert_eq!(
        astar_path(&map, Pos::new(1, 1), Pos::new(3, 1), Some(1), no_estimate()),
        Vec::new()
    );
    assert_eq!(astar_path(&map, start, Pos::new(1, 1), Some(-1), no_estimate()), Vec::new());
    assert_eq!(astar_path(&map, start, start, Some(-1), no_estimate()), vec![start]);
}

#[test]
fn a_bounded_search_does_not_leave_its_bound_to_get_around_a_wall() {
    let mut map = open_map();
    for y in 0..4 {
        map[(3, y)].left_wall = Wall::TallWall;
    }
    let start = Pos::new(2, 0);
    let end = Pos::new(3, 0);
    // the way around the wall leads through row 4
    assert_eq!(astar_path(&map, start, end, None, no_estimate()).len(), 9);
    assert_eq!(astar_path(&map, start, end, Some(4), no_estimate()).len(), 9);
    assert_eq!(astar_path(&map, start, end, Some(3), no_estimate()), Vec::new());
}

#[test]
fn a_cell_with_walls_on_all_its_edges_is_not_entered() {
    let mut map = open_map();
    map[(5, 5)].left_wall = Wall::TallWall;
    map[(6, 5)].left_wall = Wall::TallWall;
    map[(5, 5)].bottom_wall = Wall::TallWall;
    map[(5, 4)].bottom_wall = Wall::TallWall;
    for x in 4..7 {
        for y in 4..7 {
            if (x, y) != (5, 5) {
                assert!(map.move_blocked_by_wall(Pos::new(x, y), Pos::new(5, 5)).is_some());
            }
        }
    }
    assert_eq!(astar_path(&map, Pos::new(1, 1), Pos::new(5, 5), None, no_estimate()), Vec::new());
    assert!(!map.floodfill(Pos::new(1, 1), 20).contains(&Pos::new(5, 5)));
}

#[test]
fn a_custom_estimate_still_finds_a_way() {
    let map = open_map();
    let start = Pos::new(1, 1);
    let end = Pos::new(7, 4);
    let path = astar_path(&map, start, end, None, Some(zero_estimate));
    assert_is_route(&map, &path, start, end);
    assert_eq!(path.len(), 7);
    let with_closure = astar_path(&map, start, end, None, Some(|_a: Pos, _b: Pos, _m: &TileMap| 1));
    assert_is_route(&map, &with_closure, start, end);
}

#[test]
fn flood_of_no_rounds_is_the_origin() {
    let map = open_map();
    assert_eq!(map.floodfill(Pos::new(5, 5), 0), vec![Pos::new(5, 5)]);
    assert_eq!(map.floodfill(Pos::new(-5, 5), 0), vec![Pos::new(-5, 5)]);
    assert_eq!(map.floodfill(Pos::new(-5, 5), 4), vec![Pos::new(-5, 5)]);
}

#[test]
fn flood_of_one_round_is_the_origin_and_its_neighbours() {
    let map = open_map();
    assert_eq!(
        map.floodfill(Pos::new(5, 5), 1),
        vec![
            Pos::new(5, 5),
            Pos::new(6, 5),
            Pos::new(6, 6),
            Pos::new(5, 6),
            Pos::new(4, 6),
            Pos::new(4, 5),
            Pos::new(4, 4),
            Pos::new(5, 4),
            Pos::new(6, 4)
        ]
    );
}

#[test]
fn flood_reaches_each_cell_once_within_its_rounds() {
    let mut map = open_map();
    map[(6, 5)] = Tile::water();
    map[(5, 3)].bottom_wall = Wall::TallWall;
    let origin = Pos::new(5, 5);
    for radius in 0..5 {
        let flood = map.floodfill(origin, radius);
        assert_eq!(flood[0], origin);
        for i in 0..flood.len() {
            assert!(distance(origin, flood[i]) as usize <= radius);
            for j in 0..i {
                assert_ne!(flood[i], flood[j]);
            }
        }
        // what one more round holds begins with what this one holds
        let next = map.floodfill(origin, radius + 1);
        assert_eq!(&next[..flood.len()], &flood[..]);
        // and adds exactly the free neighbours that were not held
        for pos in flood.iter() {
            for neighbor in map.reachable_neighbors(*pos).to_vec() {
                assert!(next.contains(&neighbor));
            }
        }
    }
    assert_eq!(open_map().floodfill(origin, 2).len(), 25);
    assert_eq!(open_map().floodfill(origin, 20).len(), 100);
}

#[test]
fn too_far_is_beyond_the_bound() {
    assert!(!too_far(Pos::new(0, 0), Pos::new(3, 1), None));
    assert!(!too_far(Pos::new(0, 0), Pos::new(3, 1), Some(3)));
    assert!(too_far(Pos::new(0, 0), Pos::new(3, 1), Some(2)));
    assert!(too_far(Pos::new(0, 0), Pos::new(0, 0), Some(-1)));
}
