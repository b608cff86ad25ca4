use roguelike_core::map::{TileMap, Wall};
use roguelike_core::types::Pos;

#[test]
fn test_floodfill() {
    let mut map = TileMap::from_dims(10, 10);

    let start = Pos::new(5, 5);

    let flood: Vec<Pos> = map.floodfill(start, 0);
    assert_eq!(vec!(start), flood);

    let flood: Vec<Pos> = map.floodfill(start, 1);
    assert_eq!(9, flood.len());

    map[(5, 5)].left_wall = Wall::ShortWall;
    map[(5, 6)].left_wall = Wall::ShortWall;
    map[(5, 4)].left_wall = Wall::ShortWall;
    let flood: Vec<Pos> = map.floodfill(start, 1);
    assert_eq!(6, flood.len());

    map[(6, 3)].left_wall = Wall::ShortWall;
    map[(5, 3)].left_wall = Wall::ShortWall;

    map[(6, 4)].left_wall = Wall::ShortWall;
    map[(5, 4)].left_wall = Wall::ShortWall;

    map[(6, 5)].left_wall = Wall::ShortWall;
    map[(5, 5)].left_wall = Wall::ShortWall;
    map[start].bottom_wall = Wall::ShortWall;
    let flood: Vec<Pos> = map.floodfill(start, 2);
    assert!(flood.contains(&start));
    assert!(flood.contains(&Pos::new(5, 4)));
    assert!(flood.contains(&Pos::new(5, 3)));

    let flood: Vec<Pos> = map.floodfill(start, 3);
    assert_eq!(6, flood.len());
}
