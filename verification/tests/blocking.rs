use roguelike_core::map::{Tile, TileMap, Wall};
use roguelike_core::types::Pos;

#[test]
fn test_blocked_by_wall_right() {
    let mut map = TileMap::from_dims(10, 10);

    let pos = Pos::new(5, 5);
    map[pos].left_wall = Wall::ShortWall;

    map.update_map();

    let left_of_wall = Pos::new(4, 5);
    let blocked = map.is_blocked_by_wall(left_of_wall, 1, 0);
    assert_eq!(blocked.map(|b| b.wall_type == Wall::ShortWall), Some(true));

    assert!(map.is_blocked_by_wall(pos, 1, 0).is_none());

    let two_left_of_wall = Pos::new(3, 5);
    assert_eq!(map.is_blocked_by_wall(two_left_of_wall, 1, 0), None);
}

#[test]
fn test_blocked_by_wall_up() {
    let mut map = TileMap::from_dims(10, 10);

    let pos = Pos::new(5, 5);
    map[pos].bottom_wall = Wall::ShortWall;

    map.update_map();

    let blocked = map.is_blocked_by_wall(Pos::new(5, 6), 0, -1);
    assert_eq!(blocked.map(|b| b.wall_type), Some(Wall::ShortWall));
    assert!(map.is_blocked_by_wall(Pos::new(5, 5), 0, -1).is_none());
    assert!(map.is_blocked_by_wall(Pos::new(5, 4), 0, -1).is_none());
}

#[test]
fn test_blocked_by_wall_down() {
    let mut map = TileMap::from_dims(10, 10);

    let pos = Pos::new(5, 5);
    map[pos].bottom_wall = Wall::ShortWall;

    map.update_map();

    let blocked = map.is_blocked_by_wall(Pos::new(5, 5), 0, 1);
    assert_eq!(blocked.map(|b| b.wall_type), Some(Wall::ShortWall));
    assert!(map.is_blocked_by_wall(Pos::new(5, 6), 0, 1).is_none());
    assert!(map.is_blocked_by_wall(Pos::new(5, 7), 0, 1).is_none());
}

#[test]
fn test_blocked_by_wall_left() {
    let mut map = TileMap::from_dims(10, 10);

    let pos = Pos::new(5, 5);
    map[pos].left_wall = Wall::ShortWall;

    map.update_map();

    let blocked = map.is_blocked_by_wall(Pos::new(5, 5), -1, 0);
    assert_eq!(blocked.map(|blocked| blocked.wall_type), Some(Wall::ShortWall));
    assert!(map.is_blocked_by_wall(Pos::new(4, 5), -1, 0).is_none());
    assert!(map.is_blocked_by_wall(Pos::new(6, 5), -1, 0).is_none());
}

#[test]
fn test_blocked_by_wall() {
    let mut map = TileMap::from_dims(10, 10);

    map[(5, 5)] = Tile::water();

    map.update_map();

    assert!(map.is_blocked_by_wall(Pos::new(4, 5), 1, 0).is_some());
    assert!(map.is_blocked_by_wall(Pos::new(4, 5), 3, 0).is_some());
    assert!(map.is_blocked_by_wall(Pos::new(3, 5), 3, 0).is_some());

    assert!(map.is_blocked_by_wall(Pos::new(6, 5), -1, 0).is_some());

    assert!(map.is_blocked_by_wall(Pos::new(5, 6), 0, -1).is_some());
    assert!(map.is_blocked_by_wall(Pos::new(5, 4), 0, 1).is_some());
}
