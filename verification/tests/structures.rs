use roguelike_core::map::{Tile, TileMap};
use roguelike_core::structures::{
    adjacent_blocks, find_structures, handle_diagonal_full_tile_walls, Structure, StructureType,
};
use roguelike_core::types::Pos;

#[test]
fn test_adjacent_blocks() {
    let mut map = TileMap::from_dims(5, 5);
    map[(2, 2)] = Tile::wall();

    map[(1, 2)] = Tile::wall();
    map[(2, 1)] = Tile::wall();
    map[(3, 2)] = Tile::wall();
    map[(2, 3)] = Tile::wall();

    let mut seen = Vec::new();

    assert_eq!(4, adjacent_blocks(Pos::new(2, 2), &map, &seen).len());
    assert_eq!(2, adjacent_blocks(Pos::new(1, 1), &map, &seen).len());
    assert_eq!(1, adjacent_blocks(Pos::new(2, 1), &map, &seen).len());
    seen.push(Pos::new(1, 2));
    assert_eq!(3, adjacent_blocks(Pos::new(2, 2), &map, &seen).len());
}

#[test]
fn test_find_simple_structures() {
    let mut map = TileMap::from_dims(5, 5);

    // find a single line
    map[(0, 2)] = Tile::wall();
    map[(1, 2)] = Tile::wall();
    map[(2, 2)] = Tile::wall();
    let structures = find_structures(&map);
    assert_eq!(1, structures.len());
    assert_eq!(StructureType::Line, structures[0].typ);
    assert_eq!(3, structures[0].blocks.len());

    // add a lone block and check that it is found along with the line
    map[(0, 0)] = Tile::wall();
    let structures = find_structures(&map);
    assert_eq!(2, structures.len());
    assert!(structures.iter().find(|s| s.typ == StructureType::Single).is_some());
    assert!(structures.iter().find(|s| s.typ == StructureType::Line).is_some());

    // add a vertical line and check that all structures are found
    map[(4, 0)] = Tile::wall();
    map[(4, 1)] = Tile::wall();
    map[(4, 2)] = Tile::wall();
    map[(4, 3)] = Tile::wall();
    let structures = find_structures(&map);
    assert_eq!(3, structures.len());
    assert!(structures.iter().find(|s| s.typ == StructureType::Single).is_some());
    assert!(structures.iter().filter(|s| s.typ == StructureType::Line).count() == 2);
}

#[test]
fn test_find_complex_structures() {
    let mut map = TileMap::from_dims(5, 5);

    // lay down an L
    map[(0, 2)] = Tile::wall();
    map[(1, 2)] = Tile::wall();
    map[(2, 2)] = Tile::wall();
    map[(2, 3)] = Tile::wall();
    let structures = find_structures(&map);
    assert_eq!(1, structures.len());
    assert_eq!(StructureType::Path, structures[0].typ);
    assert_eq!(4, structures[0].blocks.len());

    // turn it into a 'complex' structure and check that it is discovered
    map[(2, 1)] = Tile::wall();
    let structures = find_structures(&map);
    assert_eq!(1, structures.len());
    assert_eq!(StructureType::Complex, structures[0].typ);
    assert_eq!(5, structures[0].blocks.len());
}

#[test]
fn adjacent_blocks_come_right_down_left_up() {
    let mut map = TileMap::from_dims(5, 5);
    for (x, y) in [(1, 2), (2, 1), (3, 2), (2, 3)] {
        map[(x, y)] = Tile::wall();
    }
    assert_eq!(
        adjacent_blocks(Pos::new(2, 2), &map, &Vec::new()),
        vec![Pos::new(3, 2), Pos::new(2, 3), Pos::new(1, 2), Pos::new(2, 1)]
    );
    assert_eq!(adjacent_blocks(Pos::new(0, 0), &map, &Vec::new()), Vec::new());
    assert_eq!(adjacent_blocks(Pos::new(i32::MAX, 0), &map, &Vec::new()), Vec::new());
}

#[test]
fn structures_list_their_blocks_in_the_order_found() {
    let mut map = TileMap::from_dims(5, 5);
    for (x, y) in [(0, 2), (1, 2), (2, 2), (2, 3), (2, 1), (4, 4)] {
        map[(x, y)] = Tile::wall();
    }
    let structures = find_structures(&map);
    assert_eq!(
        structures,
        vec![
            Structure {
                blocks: vec![
                    Pos::new(2, 1),
                    Pos::new(2, 2),
                    Pos::new(2, 3),
                    Pos::new(1, 2),
                    Pos::new(0, 2)
                ],
                typ: StructureType::Complex,
            },
            Structure { blocks: vec![Pos::new(4, 4)], typ: StructureType::Single },
        ]
    );
}

#[test]
fn a_branch_makes_a_structure_complex() {
    let mut map = TileMap::from_dims(5, 5);
    for (x, y) in [(2, 2), (1, 2), (3, 2), (2, 3)] {
        map[(x, y)] = Tile::wall();
    }
    let structures = find_structures(&map);
    assert_eq!(
        structures,
        vec![Structure {
            blocks: vec![Pos::new(1, 2), Pos::new(2, 2), Pos::new(3, 2), Pos::new(2, 3)],
            typ: StructureType::Complex,
        }]
    );
}

#[test]
fn a_ring_is_left_alone_until_a_block_has_three_beside_it() {
    let mut map = TileMap::from_dims(5, 5);
    for (x, y) in [(0, 0), (1, 0), (0, 1), (1, 1)] {
        map[(x, y)] = Tile::wall();
    }
    // every block of the ring has exactly two beside it
    assert!(find_structures(&map).is_empty());

    map[(2, 1)] = Tile::wall();
    let structures = find_structures(&map);
    assert_eq!(
        structures,
        vec![Structure { blocks: vec![Pos::new(1, 1), Pos::new(0, 0)], typ: StructureType::Complex }]
    );
}

#[test]
fn structures_start_empty_and_take_blocks() {
    assert!(find_structures(&TileMap::from_dims(3, 3)).is_empty());
    assert_eq!(Structure::new().blocks, Vec::new());
    assert_eq!(Structure::new().typ, StructureType::Single);
    let mut structure = Structure::new();
    structure.add_block(Pos::new(1, 1));
    assert_eq!(structure.blocks, vec![Pos::new(1, 1)]);
    assert!(StructureType::Single < StructureType::Complex);
}

#[test]
fn tiles_that_touch_at_a_corner_get_a_wall_beside_them() {
    let mut map = TileMap::from_dims(5, 5);
    map[(1, 1)] = Tile::wall();
    map[(2, 2)] = Tile::water();
    handle_diagonal_full_tile_walls(&mut map);
    assert_eq!(map[(2, 1)], Tile::wall());
    assert_eq!(map[(1, 2)], Tile::empty());
    assert_eq!(map[(2, 2)], Tile::water());

    let mut map = TileMap::from_dims(5, 5);
    map[(2, 1)] = Tile::wall();
    map[(1, 2)] = Tile::wall();
    handle_diagonal_full_tile_walls(&mut map);
    assert_eq!(map[(1, 1)], Tile::wall());
    assert_eq!(map[(2, 2)], Tile::empty());

    // a wall that was put in counts for the squares that follow
    let mut map = TileMap::from_dims(5, 5);
    map[(0, 0)] = Tile::wall();
    map[(1, 1)] = Tile::wall();
    map[(2, 1)] = Tile::empty();
    map[(2, 0)] = Tile::empty();
    map[(0, 2)] = Tile::wall();
    handle_diagonal_full_tile_walls(&mut map);
    assert_eq!(map[(1, 0)], Tile::wall());
    assert_eq!(map[(0, 1)], Tile::wall());
    let blocked = (0..5).flat_map(|x| (0..5).map(move |y| (x, y))).filter(|at| map[*at].blocked).count();
    assert_eq!(blocked, 5);

    let mut open = TileMap::from_dims(1, 1);
    handle_diagonal_full_tile_walls(&mut open);
    assert_eq!(open[(0, 0)], Tile::empty());
}
