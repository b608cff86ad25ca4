use rand::rngs::SmallRng;
use rand::SeedableRng;
use roguelike_core::map::{Obstacle, Tile, TileMap, TileType, Wall};
use roguelike_core::obstacles::{
    add_obstacle, obstacle_has_room, place_obstacle, pos_in_radius, random_offset,
};
use roguelike_core::placement::{near_tile_type, place_block, place_line};
use roguelike_core::types::Pos;

fn blocked_cells(map: &TileMap) -> Vec<Pos> {
    let mut cells = Vec::new();
    for x in 0..map.width() {
        for y in 0..map.height() {
            if map[(x, y)].blocked {
                cells.push(Pos::new(x, y));
            }
        }
    }
    cells
}

#[test]
fn near_tile_type_looks_at_the_eight_neighbours() {
    let mut map = TileMap::from_dims(10, 10);
    map[(5, 5)] = Tile::water();
    assert!(near_tile_type(&map, Pos::new(4, 4), TileType::Water));
    assert!(near_tile_type(&map, Pos::new(6, 5), TileType::Water));
    assert!(!near_tile_type(&map, Pos::new(5, 5), TileType::Water));
    assert!(!near_tile_type(&map, Pos::new(7, 5), TileType::Water));
    assert!(near_tile_type(&map, Pos::new(5, 5), TileType::Empty));
    assert!(!near_tile_type(&map, Pos::new(-5, 5), TileType::Empty));
    assert!(near_tile_type(&map, Pos::new(-1, 0), TileType::Empty));
}

#[test]
fn place_block_fills_a_square() {
    let mut map = TileMap::from_dims(10, 10);
    let positions = place_block(&mut map, Pos::new(2, 3), 2, Tile::wall());
    assert_eq!(positions, vec![Pos::new(2, 3), Pos::new(2, 4), Pos::new(3, 3), Pos::new(3, 4)]);
    assert_eq!(blocked_cells(&map), positions);
    assert_eq!(map[(2, 3)], Tile::wall());
    assert_eq!(place_block(&mut map, Pos::new(2, 3), 0, Tile::wall()), Vec::new());
}

#[test]
fn place_line_fills_the_cells_after_the_start() {
    let mut map = TileMap::from_dims(10, 10);
    let positions = place_line(&mut map, Pos::new(2, 2), Pos::new(5, 2), Tile::short_wall());
    assert_eq!(positions, vec![Pos::new(3, 2), Pos::new(4, 2), Pos::new(5, 2)]);
    assert_eq!(blocked_cells(&map), positions);
    assert_eq!(map[(4, 2)], Tile::short_wall());
}

#[test]
fn place_line_leaves_out_what_is_off_the_grid() {
    let mut map = TileMap::from_dims(10, 10);
    let positions = place_line(&mut map, Pos::new(7, 9), Pos::new(12, 9), Tile::wall());
    assert_eq!(positions, vec![Pos::new(8, 9), Pos::new(9, 9)]);
    assert_eq!(blocked_cells(&map), positions);
}

#[test]
fn cells_in_a_radius_are_those_closer_than_it() {
    let map = TileMap::from_dims(10, 10);
    let start = Pos::new(5, 5);
    let cells = map.pos_in_radius(start, 3);
    assert_eq!(cells.len(), 24);
    for x in 0..10 {
        for y in 0..10 {
            let pos = Pos::new(x, y);
            let near = pos != start && (x - 5).abs() < 3 && (y - 5).abs() < 3;
            assert_eq!(cells.contains(&pos), near);
        }
    }
    assert_eq!(map.pos_in_radius(start, 1), Vec::new());
    assert_eq!(map.pos_in_radius(start, 0), Vec::new());
    assert_eq!(map.pos_in_radius(start, -4), Vec::new());
}

#[test]
fn a_path_is_clear_of_obstacles_until_a_tile_is_occupied() {
    let mut map = TileMap::from_dims(10, 10);
    assert!(map.path_clear_of_obstacles(Pos::new(1, 1), Pos::new(8, 3)));
    map[(4, 2)] = Tile::water();
    assert!(!map.path_clear_of_obstacles(Pos::new(1, 1), Pos::new(8, 3)));
    assert!(map.path_clear_of_obstacles(Pos::new(4, 2), Pos::new(8, 3)));
    assert!(map.path_clear_of_obstacles(Pos::new(1, 1), Pos::new(1, 1)));
    assert!(!map.path_clear_of_obstacles(Pos::new(8, 1), Pos::new(11, 1)));
    // walls on edges are no obstacles of this kind
    map[(2, 5)].left_wall = Wall::TallWall;
    assert!(map.path_clear_of_obstacles(Pos::new(0, 5), Pos::new(5, 5)));
}

#[test]
fn random_offsets_stay_in_their_range() {
    let mut rng = SmallRng::seed_from_u64(7);
    let mut seen_low = false;
    let mut seen_other = false;
    for _ in 0..200 {
        let offset = random_offset(&mut rng, 3);
        assert!(-3 <= offset.x && offset.x < 3);
        assert!(-3 <= offset.y && offset.y < 3);
        seen_low = seen_low || offset.x == -3;
        seen_other = seen_other || offset.x != offset.y;
        let near = pos_in_radius(Pos::new(10, 20), 2, &mut rng);
        assert!(8 <= near.x && near.x < 12);
        assert!(18 <= near.y && near.y < 22);
    }
    assert!(seen_low);
    assert!(seen_other);
}

#[test]
fn a_block_and_a_square_are_built_without_a_choice() {
    let mut rng = SmallRng::seed_from_u64(1);
    let mut map = TileMap::from_dims(10, 10);
    add_obstacle(&mut map, Pos::new(4, 4), Obstacle::Block, &mut rng);
    assert_eq!(blocked_cells(&map), vec![Pos::new(4, 4)]);
    assert_eq!(map[(4, 4)], Tile::wall());

    let mut map = TileMap::from_dims(10, 10);
    add_obstacle(&mut map, Pos::new(4, 4), Obstacle::Square, &mut rng);
    assert_eq!(
        blocked_cells(&map),
        vec![Pos::new(4, 4), Pos::new(4, 5), Pos::new(5, 4), Pos::new(5, 5)]
    );
}

#[test]
fn a_wall_runs_three_cells_along_one_axis() {
    let mut rng = SmallRng::seed_from_u64(2);
    let mut along_x = 0;
    let mut along_y = 0;
    for _ in 0..40 {
        let mut map = TileMap::from_dims(10, 10);
        add_obstacle(&mut map, Pos::new(4, 4), Obstacle::ShortWall, &mut rng);
        let cells = blocked_cells(&map);
        if cells == vec![Pos::new(5, 4), Pos::new(6, 4), Pos::new(7, 4)] {
            along_x += 1;
        } else {
            assert_eq!(cells, vec![Pos::new(4, 5), Pos::new(4, 6), Pos::new(4, 7)]);
            along_y += 1;
        }
        for pos in cells {
            assert_eq!(map[pos], Tile::short_wall());
        }
    }
    assert!(along_x > 0);
    assert!(along_y > 0);
}

#[test]
fn the_choices_of_a_wall_and_an_l() {
    let mut map = TileMap::from_dims(10, 10);
    place_obstacle(&mut map, Pos::new(4, 4), Obstacle::Wall, true, false);
    assert_eq!(blocked_cells(&map), vec![Pos::new(5, 4), Pos::new(6, 4), Pos::new(7, 4)]);
    assert_eq!(map[(5, 4)], Tile::wall());

    let mut map = TileMap::from_dims(10, 10);
    place_obstacle(&mut map, Pos::new(4, 4), Obstacle::LShape, true, true);
    assert_eq!(
        blocked_cells(&map),
        vec![Pos::new(4, 3), Pos::new(4, 4), Pos::new(5, 4), Pos::new(6, 4)]
    );

    let mut map = TileMap::from_dims(10, 10);
    place_obstacle(&mut map, Pos::new(4, 4), Obstacle::LShape, false, true);
    assert_eq!(
        blocked_cells(&map),
        vec![Pos::new(4, 4), Pos::new(4, 5), Pos::new(5, 4), Pos::new(6, 4)]
    );

    let mut map = TileMap::from_dims(10, 10);
    place_obstacle(&mut map, Pos::new(4, 4), Obstacle::LShape, true, false);
    assert_eq!(
        blocked_cells(&map),
        vec![Pos::new(3, 4), Pos::new(4, 4), Pos::new(4, 5), Pos::new(4, 6)]
    );

    let mut map = TileMap::from_dims(10, 10);
    place_obstacle(&mut map, Pos::new(4, 4), Obstacle::LShape, false, false);
    assert_eq!(
        blocked_cells(&map),
        vec![Pos::new(4, 4), Pos::new(4, 5), Pos::new(4, 6), Pos::new(5, 4)]
    );
}

#[test]
fn a_building_is_a_ring_without_one_corner() {
    let mut rng = SmallRng::seed_from_u64(3);
    let mut map = TileMap::from_dims(10, 10);
    add_obstacle(&mut map, Pos::new(4, 4), Obstacle::Building, &mut rng);
    let cells = blocked_cells(&map);
    assert_eq!(cells.len(), 15);
    for x in 0..10 {
        for y in 0..10 {
            let on_ring = ((x - 4) as i32).abs().max(((y - 4) as i32).abs()) == 2;
            let corner = (x, y) == (2, 6);
            assert_eq!(cells.contains(&Pos::new(x, y)), on_ring && !corner);
        }
    }
    let built = place_obstacle(&mut TileMap::from_dims(10, 10), Pos::new(4, 4), Obstacle::Building, false, false);
    assert_eq!(built.len(), 16);
}

#[test]
fn a_building_may_leave_the_grid_with_some_of_its_walls() {
    let mut rng = SmallRng::seed_from_u64(4);
    let mut map = TileMap::from_dims(10, 10);
    assert!(!obstacle_has_room(&map, Pos::new(1, 1), Obstacle::Building));
    assert!(obstacle_has_room(&map, Pos::new(2, 1), Obstacle::Building));
    add_obstacle(&mut map, Pos::new(2, 1), Obstacle::Building, &mut rng);
    assert_eq!(
        blocked_cells(&map),
        vec![
            Pos::new(0, 0),
            Pos::new(0, 1),
            Pos::new(0, 2),
            Pos::new(1, 3),
            Pos::new(2, 3),
            Pos::new(3, 3),
            Pos::new(4, 0),
            Pos::new(4, 1),
            Pos::new(4, 2),
            Pos::new(4, 3)
        ]
    );
}

#[test]
fn obstacles_need_their_room() {
    let map = TileMap::from_dims(10, 10);
    assert!(obstacle_has_room(&map, Pos::new(9, 9), Obstacle::Block));
    assert!(!obstacle_has_room(&map, Pos::new(10, 9), Obstacle::Block));
    assert!(obstacle_has_room(&map, Pos::new(8, 8), Obstacle::Square));
    assert!(!obstacle_has_room(&map, Pos::new(9, 8), Obstacle::Square));
    assert!(obstacle_has_room(&map, Pos::new(1, 1), Obstacle::LShape));
    assert!(obstacle_has_room(&map, Pos::new(7, 7), Obstacle::LShape));
    assert!(!obstacle_has_room(&map, Pos::new(0, 1), Obstacle::LShape));
    assert!(!obstacle_has_room(&map, Pos::new(8, 7), Obstacle::LShape));
    assert!(obstacle_has_room(&map, Pos::new(40, -40), Obstacle::Wall));
    assert!(!obstacle_has_room(&map, Pos::new(i32::MAX - 1, 0), Obstacle::ShortWall));
    assert!(obstacle_has_room(&map, Pos::new(5, 5), Obstacle::Building));
    assert!(!obstacle_has_room(&map, Pos::new(50, 5), Obstacle::Building));
}

#[test]
fn all_obstacles_are_six() {
    assert_eq!(
        Obstacle::all_obstacles(),
        vec![
            Obstacle::Block,
            Obstacle::Wall,
            Obstacle::ShortWall,
            Obstacle::Square,
            Obstacle::LShape,
            Obstacle::Building
        ]
    );
}
