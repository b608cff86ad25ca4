use roguelike_core::map::{Tile, TileMap, Wall};
use roguelike_core::movement::Direction;
use roguelike_core::types::Pos;

fn open_map() -> TileMap {
    TileMap::from_dims(10, 10)
}

#[test]
fn a_cell_sees_itself_at_any_radius() {
    let mut map = open_map();
    assert!(map.is_in_fov(Pos::new(3, 3), Pos::new(3, 3), 0));
    assert!(map.is_in_fov(Pos::new(3, 3), Pos::new(3, 3), 5));
    assert!(map.is_in_fov(Pos::new(3, 3), Pos::new(3, 3), -2));
    assert!(map.is_in_fov(Pos::new(-3, 30), Pos::new(-3, 30), 1));
    assert!(map.is_in_fov_lines(Pos::new(3, 3), Pos::new(3, 3), 0));
}

#[test]
fn nothing_is_seen_at_or_beyond_the_radius() {
    let mut map = open_map();
    assert!(map.is_in_fov(Pos::new(1, 1), Pos::new(8, 1), 8));
    assert!(!map.is_in_fov(Pos::new(1, 1), Pos::new(8, 1), 7));
    assert!(!map.is_in_fov(Pos::new(1, 1), Pos::new(8, 1), 3));
    assert!(!map.is_in_fov(Pos::new(1, 1), Pos::new(2, 2), 1));
    assert!(map.is_in_fov(Pos::new(1, 1), Pos::new(2, 2), 2));
}

#[test]
fn nothing_off_the_grid_is_seen() {
    let mut map = open_map();
    assert!(!map.is_in_fov(Pos::new(0, 0), Pos::new(-1, 0), 5));
    assert!(!map.is_in_fov(Pos::new(-1, 0), Pos::new(0, 0), 5));
    assert!(!map.is_in_fov(Pos::new(9, 9), Pos::new(10, 10), 5));
}

#[test]
fn an_open_map_is_seen_all_over() {
    let mut map = open_map();
    let observer = Pos::new(4, 6);
    for x in 0..10 {
        for y in 0..10 {
            assert!(map.is_in_fov(observer, Pos::new(x, y), 10));
        }
    }
}

#[test]
fn a_short_wall_is_seen_over() {
    let mut map = open_map();
    for wall_y_pos in 2..8 {
        map[(5, wall_y_pos)].left_wall = Wall::ShortWall;
    }
    assert!(map.is_in_fov(Pos::new(4, 5), Pos::new(9, 5), 10));
    assert!(map.is_in_fov(Pos::new(9, 5), Pos::new(4, 5), 10));
    assert!(map.is_in_fov(Pos::new(2, 5), Pos::new(5, 5), 10));
}

#[test]
fn looking_over_short_walls_costs_one_each() {
    let mut map = open_map();
    map[(1, 5)].left_wall = Wall::ShortWall;
    map[(9, 5)].left_wall = Wall::ShortWall;
    // either line spends 1 + 1 at the first wall and 8 + 1 at the second
    assert!(!map.is_in_fov(Pos::new(0, 5), Pos::new(9, 5), 10));
    assert!(!map.is_in_fov(Pos::new(9, 5), Pos::new(0, 5), 10));
    assert!(map.is_in_fov(Pos::new(0, 5), Pos::new(9, 5), 11));
    assert!(map.is_in_fov(Pos::new(9, 5), Pos::new(0, 5), 11));
}

#[test]
fn a_tall_wall_hides_what_is_behind_it() {
    let mut map = open_map();
    for wall_y_pos in 0..10 {
        map[(5, wall_y_pos)].left_wall = Wall::TallWall;
    }
    assert!(!map.is_in_fov(Pos::new(4, 5), Pos::new(9, 5), 10));
    assert!(!map.is_in_fov(Pos::new(9, 5), Pos::new(4, 5), 10));
    assert!(!map.is_in_fov(Pos::new(4, 5), Pos::new(5, 5), 1000));
    assert!(!map.is_in_fov(Pos::new(1, 1), Pos::new(8, 8), 1000));
    // on the near side nothing changes
    assert!(map.is_in_fov(Pos::new(4, 5), Pos::new(0, 5), 10));
}

#[test]
fn the_face_of_a_wall_tile_is_seen_and_nothing_behind_it() {
    let mut map = open_map();
    for y in 0..10 {
        map[(7, y)] = Tile::wall();
    }
    assert!(map.is_in_fov(Pos::new(4, 5), Pos::new(7, 5), 10));
    assert!(map.is_in_fov(Pos::new(6, 5), Pos::new(7, 5), 10));
    assert!(!map.is_in_fov(Pos::new(4, 5), Pos::new(8, 5), 10));
    assert!(!map.is_in_fov(Pos::new(4, 5), Pos::new(9, 5), 10));
}

#[test]
fn water_is_seen_across() {
    let mut map = open_map();
    map[(6, 5)] = Tile::water();
    // the tile stops the line towards it and the line back decides
    assert!(map.is_in_fov(Pos::new(4, 5), Pos::new(6, 5), 10));
    assert!(!map.is_in_fov(Pos::new(4, 5), Pos::new(8, 5), 10));
}

#[test]
fn facing_limits_what_is_seen() {
    let mut map = open_map();
    let observer = Pos::new(5, 5);
    assert!(map.is_in_fov_direction(observer, Pos::new(5, 2), 10, Direction::Up));
    assert!(!map.is_in_fov_direction(observer, Pos::new(5, 2), 10, Direction::Down));
    assert!(map.is_in_fov_direction(observer, Pos::new(8, 5), 10, Direction::Up));
    assert!(map.is_in_fov_direction(observer, Pos::new(2, 5), 10, Direction::Left));
    assert!(!map.is_in_fov_direction(observer, Pos::new(8, 5), 10, Direction::Left));
    assert!(map.is_in_fov_direction(observer, Pos::new(8, 5), 10, Direction::Right));
    assert!(map.is_in_fov_direction(observer, Pos::new(7, 8), 10, Direction::DownRight));
    assert!(!map.is_in_fov_direction(observer, Pos::new(3, 2), 10, Direction::DownRight));
    assert!(map.is_in_fov_direction(observer, Pos::new(3, 2), 10, Direction::UpLeft));
    assert!(map.is_in_fov_direction(observer, Pos::new(8, 3), 10, Direction::UpRight));
    assert!(!map.is_in_fov_direction(observer, Pos::new(5, 5 + 3), 10, Direction::UpRight));
    assert!(map.is_in_fov_direction(observer, Pos::new(3, 8), 10, Direction::DownLeft));
    assert!(!map.is_in_fov_direction(observer, Pos::new(8, 5), 10, Direction::DownLeft));
    assert!(!map.is_in_fov_direction(observer, Pos::new(8, 5), 10, Direction::Center));
    assert!(map.is_in_fov_direction(observer, observer, 10, Direction::Center));
    assert!(!map.is_in_fov_direction(observer, Pos::new(5, 2), 3, Direction::Up));
}

#[test]
fn the_buffer_sees_an_open_map() {
    let mut map = open_map();
    assert!(map.can_compute_fov());
    assert!(map.is_in_fov_alg(Pos::new(5, 5), Pos::new(7, 5), 5));
    assert!(map.is_in_fov_alg(Pos::new(5, 5), Pos::new(6, 7), 5));
    assert!(map.is_in_fov_alg(Pos::new(5, 5), Pos::new(5, 5), 0));
    assert!(!map.is_in_fov_alg(Pos::new(5, 5), Pos::new(7, 5), 2));
    assert!(!map.is_in_fov_alg(Pos::new(5, 5), Pos::new(-1, 5), 20));
}

#[test]
fn the_buffer_is_lit_at_the_observer_after_a_computation() {
    let mut map = open_map();
    map.compute_fov(Pos::new(3, 4), 4);
    assert_eq!(map.fov_pos, Pos::new(3, 4));
    assert_eq!(map.fov_radius, 4);
    assert!(map.fov.is_in_fov(3, 4));
    assert!(map.fov.is_in_fov(4, 4));
    assert!(!map.fov.is_in_fov(9, 9));
}

#[test]
fn the_buffer_stops_at_a_wall_tile() {
    let mut map = open_map();
    for y in 0..10 {
        map[(6, y)] = Tile::wall();
    }
    map.update_map();
    assert!(map.can_compute_fov());
    assert!(map.is_in_fov_alg(Pos::new(4, 5), Pos::new(6, 5), 10));
    assert!(!map.is_in_fov_alg(Pos::new(4, 5), Pos::new(8, 5), 10));
    assert!(map.is_in_fov_alg(Pos::new(4, 5), Pos::new(2, 5), 10));
}

#[test]
fn update_map_tells_the_buffer_of_the_tiles() {
    let mut map = open_map();
    map[(6, 5)] = Tile::wall();
    map[(2, 3)] = Tile::water();
    map.update_map();
    for x in 0..10 {
        for y in 0..10 {
            let opaque = (x, y) == (6, 5);
            assert_eq!(map.fov.transparent[x + y * 10], !opaque);
        }
    }
    map.set_cell(1, 1, false);
    assert!(!map.fov.transparent[1 + 10]);
    map.set_cell(1, 1, true);
    assert!(map.fov.transparent[1 + 10]);
}

#[test]
fn a_crowded_map_leaves_the_buffer_alone() {
    let mut map = open_map();
    for x in 0..10 {
        map[(x, 3)] = Tile::wall();
        map[(x, 7)] = Tile::wall();
    }
    let before = map.fov.visible.clone();
    map.update_map();
    assert!(!map.can_compute_fov());
    assert_eq!(map.fov.visible, before);
}

#[test]
fn the_buffer_is_computed_wherever_it_has_room() {
    // maps of every small size with as many wall tiles as the computation
    // has room for, seen from every cell
    let mut state: u64 = 0x2545_f491_4f6c_dd1d;
    let mut next = move |below: usize| {
        state ^= state << 13;
        state ^= state >> 7;
        state ^= state << 17;
        (state % below as u64) as usize
    };
    for width in 1..9usize {
        for height in 1..9usize {
            for _ in 0..4 {
                let mut map = TileMap::from_dims(width, height);
                let walls = width * height / 7;
                for _ in 0..walls {
                    let x = next(width) as i32;
                    let y = next(height) as i32;
                    map[(x, y)] = Tile::wall();
                }
                map.update_map();
                assert!(map.can_compute_fov());
                for x in 0..width as i32 {
                    for y in 0..height as i32 {
                        let radius = next(6) as i32;
                        map.compute_fov(Pos::new(x, y), radius);
                        assert!(map.fov.is_in_fov(x as usize, y as usize));
                        assert_eq!(map.fov_pos, Pos::new(x, y));
                    }
                }
            }
        }
    }
}

#[test]
fn a_tall_wall_hides_behind_short_walls_too() {
    let mut map = open_map();
    map[(2, 5)].left_wall = Wall::ShortWall;
    map[(4, 5)].left_wall = Wall::ShortWall;
    map[(6, 5)].left_wall = Wall::TallWall;
    map[(8, 5)].left_wall = Wall::ShortWall;
    for radius in [7, 10, 100, 100000] {
        assert!(!map.is_in_fov(Pos::new(1, 5), Pos::new(6, 5), radius));
        assert!(!map.is_in_fov(Pos::new(1, 5), Pos::new(9, 5), radius));
        assert!(!map.is_in_fov(Pos::new(9, 5), Pos::new(1, 5), radius));
        assert!(!map.is_in_fov(Pos::new(9, 5), Pos::new(5, 5), radius));
    }
    // before the tall wall the short walls are looked over
    assert!(map.is_in_fov(Pos::new(1, 5), Pos::new(5, 5), 10));
    assert!(map.is_in_fov(Pos::new(9, 5), Pos::new(6, 5), 10));

    let mut map = open_map();
    map[(5, 2)].bottom_wall = Wall::ShortWall;
    map[(5, 4)].bottom_wall = Wall::TallWall;
    assert!(!map.is_in_fov(Pos::new(5, 0), Pos::new(5, 8), 1000));
    assert!(!map.is_in_fov(Pos::new(5, 8), Pos::new(5, 0), 1000));
    assert!(map.is_in_fov(Pos::new(5, 0), Pos::new(5, 4), 1000));
}
