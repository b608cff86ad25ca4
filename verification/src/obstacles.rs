//! Obstacles built on the map, with the choices of their shape made at
//! random.

use vstd::prelude::*;
use rand::rngs::SmallRng;
use rand::Rng;
use crate::types::{Pos, cell, fits};
use crate::map::{TileMap, Tile, TileType, Obstacle, BLANK_GLYPH};
use crate::line::line_seq;
use crate::placement::{place_block, place_line, in_block, on_grid};
use crate::line::line;
use crate::utils::move_by;

verus! {

#[verifier::external_type_specification]
#[verifier::external_body]
pub struct ExSmallRng(SmallRng);

/// Calls `Rng::gen_range` of `rand` for an `i32`, which panics unless
/// `low < high`: some value from `low` up to, not including, `high`.
#[verifier::external_body]
fn roll(rng: &mut SmallRng, low: i32, high: i32) -> (value: i32)
    requires
        low < high,
    ensures
        low <= value < high,
{
    rng.gen_range(low, high)
}

/// Calls `Rng::gen_range` of `rand` for a `usize`, which panics unless
/// `low < high`: some value from `low` up to, not including, `high`.
#[verifier::external_body]
fn roll_index(rng: &mut SmallRng, low: usize, high: usize) -> (value: usize)
    requires
        low < high,
    ensures
        low <= value < high,
{
    rng.gen_range(low, high)
}

/// Calls `Rng::gen_ratio` of `rand` with 1 in 2: an even chance, of which
/// nothing is known beforehand.
#[verifier::external_body]
fn flip(rng: &mut SmallRng) -> bool {
    rng.gen_ratio(1, 2)
}

/// Some offset of which each part lies from `-radius` up to, not
/// including, `radius`: first `x` is drawn from that range, then `y`. Which
/// offset it is the draws decide, so that no more can be said of it.
pub fn random_offset(rng: &mut SmallRng, radius: i32) -> (offset: Pos)
    requires
        0 < radius,
    ensures
        -radius <= offset.x < radius,
        -radius <= offset.y < radius,
{
    let x = roll(rng, -radius, radius);
    let y = roll(rng, -radius, radius);
    Pos::new(x, y)
}

/// Some cell of the square around `pos` that reaches `radius` cells
/// towards smaller coordinates and one less towards larger ones: `pos`
/// moved by a random offset, as `move_by` moves it. Which cell it is the
/// draws decide, so that no more can be said of it.
pub fn pos_in_radius(pos: Pos, radius: i32, rng: &mut SmallRng) -> (near: Pos)
    requires
        0 < radius,
        fits(pos.x - radius, pos.y - radius),
        fits(pos.x + radius, pos.y + radius),
    ensures
        pos.x - radius <= near.x < pos.x + radius,
        pos.y - radius <= near.y < pos.y + radius,
{
    let offset = random_offset(rng, radius);
    move_by(pos, offset)
}

/// The tile that an obstacle is built of: a short wall for `ShortWall`,
/// a wall for every other.
pub open spec fn obstacle_tile(obstacle: Obstacle) -> Tile {
    match obstacle {
        Obstacle::ShortWall => Tile::plain(true, false, TileType::ShortWall, BLANK_GLYPH),
        _ => Tile::plain(true, true, TileType::Wall, BLANK_GLYPH),
    }
}

/// Whether an obstacle built at `pos` covers `(x, y)`. `first` and `second`
/// are the two choices that a shape leaves open.
/// - A block covers `pos`.
/// - A wall covers the three cells after `pos`, along `x` if `first`, else
///   along `y`.
/// - A square covers the block of side 2 at `pos`.
/// - An L covers three cells from `pos` on, along `x` if `second`, else
///   along `y`, and the cell beside `pos` across that line, towards smaller
///   coordinates if `first`.
/// - A building covers the lines between the corners two cells away from
///   `pos`, each without the corner it starts from.
pub open spec fn covers(
    pos: Pos,
    obstacle: Obstacle,
    first: bool,
    second: bool,
    x: int,
    y: int,
) -> bool {
    let side: int = if first {
        -1
    } else {
        1
    };
    match obstacle {
        Obstacle::Block => x == pos.x && y == pos.y,
        Obstacle::Wall | Obstacle::ShortWall => if first {
            line_seq(pos, cell(pos.x + 3, pos.y as int)).contains(cell(x, y))
        } else {
            line_seq(pos, cell(pos.x as int, pos.y + 3)).contains(cell(x, y))
        },
        Obstacle::Square => in_block(pos, 2, x, y),
        Obstacle::LShape => if second {
            (y == pos.y && pos.x <= x < pos.x + 3) || (x == pos.x && y == pos.y + side)
        } else {
            (x == pos.x && pos.y <= y < pos.y + 3) || (y == pos.y && x == pos.x + side)
        },
        Obstacle::Building => {
            ||| line_seq(cell(pos.x - 2, pos.y + 2), cell(pos.x + 2, pos.y + 2)).contains(cell(x, y))
            ||| line_seq(cell(pos.x - 2, pos.y + 2), cell(pos.x - 2, pos.y - 2)).contains(cell(x, y))
            ||| line_seq(cell(pos.x - 2, pos.y - 2), cell(pos.x + 2, pos.y - 2)).contains(cell(x, y))
            ||| line_seq(cell(pos.x + 2, pos.y - 2), cell(pos.x + 2, pos.y + 2)).contains(cell(x, y))
        },
    }
}

/// The cells of the walls of a building around `pos`, in the order in which
/// they are built: the lines between the corners two cells away, each
/// without the corner it starts from.
pub open spec fn building_walls(pos: Pos) -> Seq<Pos> {
    line_seq(cell(pos.x - 2, pos.y + 2), cell(pos.x + 2, pos.y + 2)) + line_seq(
        cell(pos.x - 2, pos.y + 2),
        cell(pos.x - 2, pos.y - 2),
    ) + line_seq(cell(pos.x - 2, pos.y - 2), cell(pos.x + 2, pos.y - 2)) + line_seq(
        cell(pos.x + 2, pos.y - 2),
        cell(pos.x + 2, pos.y + 2),
    )
}

/// Whether the map has room for the obstacle at `pos`, whatever the choices
/// are: a block, a square and an L lie on the grid with all their cells; a
/// wall may leave it; of the walls of a building, of which up to nine cells
/// are drawn afterwards, nine cells lie on it.
pub open spec fn obstacle_fits(map: &TileMap, pos: Pos, obstacle: Obstacle) -> bool {
    match obstacle {
        Obstacle::Block => map.in_bounds(pos),
        Obstacle::Wall | Obstacle::ShortWall => fits(pos.x + 3, pos.y + 3),
        Obstacle::Square => map.in_bounds(pos) && map.in_bounds_at(pos.x + 1, pos.y + 1),
        Obstacle::LShape => map.in_bounds_at(pos.x - 1, pos.y - 1) && map.in_bounds_at(
            pos.x + 2,
            pos.y + 2,
        ),
        Obstacle::Building => fits(pos.x - 2, pos.y - 2) && fits(pos.x + 2, pos.y + 2) && on_grid(
            map,
            building_walls(pos),
        ).len() >= 9,
    }
}

/// How many cells of the line from `start` to `end` lie on the grid.
fn count_on_grid(map: &TileMap, start: Pos, end: Pos) -> (count: usize)
    requires
        map.wf(),
    ensures
        count == on_grid(map, line_seq(start, end)).len(),
        count <= line_seq(start, end).len(),
{
    let points = line(start, end);
    let mut count: usize = 0;
    let mut i: usize = 0;
    proof {
        assert(points@.take(0) =~= Seq::<Pos>::empty());
    }
    while i < points.len()
        invariant
            0 <= i <= points@.len(),
            map.wf(),
            count <= i,
            count == on_grid(map, points@.take(i as int)).len(),
        decreases points@.len() - i,
    {
        proof {
            assert(points@.take(i + 1).drop_last() =~= points@.take(i as int));
        }
        if map.is_within_bounds(points[i]) {
            count = count + 1;
        }
        i = i + 1;
    }
    proof {
        assert(points@.take(i as int) =~= points@);
    }
    count
}

/// The cells of two runs that lie on the grid are those of the one and then
/// those of the other.
pub proof fn lemma_on_grid_add(map: &TileMap, one: Seq<Pos>, other: Seq<Pos>)
    ensures
        on_grid(map, one + other) == on_grid(map, one) + on_grid(map, other),
    decreases other.len(),
{
    if other.len() == 0 {
        assert(one + other =~= one);
        assert(on_grid(map, one) + on_grid(map, other) =~= on_grid(map, one));
    } else {
        lemma_on_grid_add(map, one, other.drop_last());
        assert((one + other).drop_last() =~= one + other.drop_last());
        assert((one + other).last() == other.last());
        if map.in_bounds(other.last()) {
            assert(on_grid(map, one) + on_grid(map, other) =~= (on_grid(map, one) + on_grid(
                map,
                other.drop_last(),
            )).push(other.last()));
        }
    }
}

/// Which cells lie on the grid depends on the size of the map alone.
pub proof fn lemma_on_grid_same_size(one: &TileMap, other: &TileMap, cells: Seq<Pos>)
    requires
        one.spec_width() == other.spec_width(),
        one.spec_height() == other.spec_height(),
    ensures
        on_grid(one, cells) == on_grid(other, cells),
    decreases cells.len(),
{
    if cells.len() > 0 {
        lemma_on_grid_same_size(one, other, cells.drop_last());
    }
}

/// Whether the map has room for the obstacle at `pos`.
pub fn obstacle_has_room(map: &TileMap, pos: Pos, obstacle: Obstacle) -> (room: bool)
    requires
        map.wf(),
    ensures
        room == obstacle_fits(map, pos, obstacle),
{
    let x = pos.x as i64;
    let y = pos.y as i64;
    let width = map.width() as i64;
    let height = map.height() as i64;
    match obstacle {
        Obstacle::Block => map.is_within_bounds(pos),
        Obstacle::Wall | Obstacle::ShortWall => x + 3 <= i32::MAX as i64 && y + 3 <= i32::MAX as i64,
        Obstacle::Square => 0 <= x && x + 1 < width && 0 <= y && y + 1 < height,
        Obstacle::LShape => 1 <= x && x + 2 < width && 1 <= y && y + 2 < height,
        Obstacle::Building => {
            if x - 2 < i32::MIN as i64 || x + 2 > i32::MAX as i64 || y - 2 < i32::MIN as i64 || y
                + 2 > i32::MAX as i64 {
                return false;
            }
            let down_left = Pos::new(pos.x - 2, pos.y + 2);
            let down_right = Pos::new(pos.x + 2, pos.y + 2);
            let up_left = Pos::new(pos.x - 2, pos.y - 2);
            let up_right = Pos::new(pos.x + 2, pos.y - 2);
            let bottom = count_on_grid(map, down_left, down_right);
            let left = count_on_grid(map, down_left, up_left);
            let top = count_on_grid(map, up_left, up_right);
            let right = count_on_grid(map, up_right, down_right);
            proof {
                let first = line_seq(down_left, down_right);
                let second = line_seq(down_left, up_left);
                let third = line_seq(up_left, up_right);
                let fourth = line_seq(up_right, down_right);
                lemma_on_grid_add(map, first, second);
                lemma_on_grid_add(map, first + second, third);
                lemma_on_grid_add(map, first + second + third, fourth);
            }
            bottom + left + top + right >= 9
        },
    }
}

/// Whether `after` is `before` with the obstacle built at `pos`: the same
/// size and visibility buffer, the obstacle's tile on every cell that the
/// obstacle covers, and every other tile as it was.
pub open spec fn built(
    before: &TileMap,
    after: &TileMap,
    pos: Pos,
    obstacle: Obstacle,
    first: bool,
    second: bool,
) -> bool {
    &&& after.spec_width() == before.spec_width()
    &&& after.spec_height() == before.spec_height()
    &&& after.fov == before.fov
    &&& after.fov_pos == before.fov_pos
    &&& after.fov_radius == before.fov_radius
    &&& forall|x: int, y: int|
        before.in_bounds_at(x, y) ==> #[trigger] after.cell_at(x, y) == if covers(
            pos,
            obstacle,
            first,
            second,
            x,
            y,
        ) {
            obstacle_tile(obstacle)
        } else {
            before.cell_at(x, y)
        }
}

/// Builds the obstacle at `pos` with the two choices made, and hands back
/// the cells of a building's walls, in the order in which they were built;
/// for any other obstacle it hands back nothing.
pub fn place_obstacle(
    map: &mut TileMap,
    pos: Pos,
    obstacle: Obstacle,
    first: bool,
    second: bool,
) -> (positions: Vec<Pos>)
    requires
        old(map).wf(),
        obstacle_fits(&*old(map), pos, obstacle),
    ensures
        final(map).wf(),
        built(&*old(map), &*final(map), pos, obstacle, first, second),
        positions@ == if obstacle == Obstacle::Building {
            on_grid(&*old(map), building_walls(pos))
        } else {
            Seq::<Pos>::empty()
        },
{
    let mut positions: Vec<Pos> = Vec::new();
    match obstacle {
        Obstacle::Block => {
            map.set_tile(pos, Tile::wall());
        },
        Obstacle::Wall => {
            let end_pos = if first {
                Pos::new(pos.x + 3, pos.y)
            } else {
                Pos::new(pos.x, pos.y + 3)
            };
            place_line(map, pos, end_pos, Tile::wall());
        },
        Obstacle::ShortWall => {
            let end_pos = if first {
                Pos::new(pos.x + 3, pos.y)
            } else {
                Pos::new(pos.x, pos.y + 3)
            };
            place_line(map, pos, end_pos, Tile::short_wall());
        },
        Obstacle::Square => {
            place_block(map, pos, 2, Tile::wall());
        },
        Obstacle::LShape => {
            let dir: i32 = if first { -1 } else { 1 };
            if second {
                let mut x: i32 = 0;
                while x < 3
                    invariant
                        0 <= x <= 3,
                        map.wf(),
                        obstacle_fits(&*old(map), pos, obstacle),
                        obstacle == Obstacle::LShape,
                        map.spec_width() == old(map).spec_width(),
                        map.spec_height() == old(map).spec_height(),
                        map.fov == old(map).fov,
                        map.fov_pos == old(map).fov_pos,
                        map.fov_radius == old(map).fov_radius,
                        forall|i: int, j: int|
                            old(map).in_bounds_at(i, j) ==> #[trigger] map.cell_at(i, j) == if j
                                == pos.y && pos.x <= i < pos.x + x {
                                obstacle_tile(obstacle)
                            } else {
                                old(map).cell_at(i, j)
                            },
                    decreases 3 - x,
                {
                    map.set_tile(Pos::new(pos.x + x, pos.y), Tile::wall());
                    x = x + 1;
                }
                map.set_tile(Pos::new(pos.x, pos.y + dir), Tile::wall());
            } else {
                let mut y: i32 = 0;
                while y < 3
                    invariant
                        0 <= y <= 3,
                        map.wf(),
                        obstacle_fits(&*old(map), pos, obstacle),
                        obstacle == Obstacle::LShape,
                        map.spec_width() == old(map).spec_width(),
                        map.spec_height() == old(map).spec_height(),
                        map.fov == old(map).fov,
                        map.fov_pos == old(map).fov_pos,
                        map.fov_radius == old(map).fov_radius,
                        forall|i: int, j: int|
                            old(map).in_bounds_at(i, j) ==> #[trigger] map.cell_at(i, j) == if i
                                == pos.x && pos.y <= j < pos.y + y {
                                obstacle_tile(obstacle)
                            } else {
                                old(map).cell_at(i, j)
                            },
                    decreases 3 - y,
                {
                    map.set_tile(Pos::new(pos.x, pos.y + y), Tile::wall());
                    y = y + 1;
                }
                map.set_tile(Pos::new(pos.x + dir, pos.y), Tile::wall());
            }
        },
        Obstacle::Building => {
            let size: i32 = 2;
            let down_left = Pos::new(pos.x - size, pos.y + size);
            let down_right = Pos::new(pos.x + size, pos.y + size);
            let up_left = Pos::new(pos.x - size, pos.y - size);
            let up_right = Pos::new(pos.x + size, pos.y - size);
            let ghost start = *map;
            let mut bottom = place_line(map, down_left, down_right, Tile::wall());
            let ghost first_map = *map;
            let mut left = place_line(map, down_left, up_left, Tile::wall());
            let ghost second_map = *map;
            let mut top = place_line(map, up_left, up_right, Tile::wall());
            let ghost third_map = *map;
            let mut right = place_line(map, up_right, down_right, Tile::wall());
            proof {
                let first = line_seq(down_left, down_right);
                let second = line_seq(down_left, up_left);
                let third = line_seq(up_left, up_right);
                let fourth = line_seq(up_right, down_right);
                lemma_on_grid_same_size(&first_map, &start, second);
                lemma_on_grid_same_size(&second_map, &start, third);
                lemma_on_grid_same_size(&third_map, &start, fourth);
                lemma_on_grid_add(&start, first, second);
                lemma_on_grid_add(&start, first + second, third);
                lemma_on_grid_add(&start, first + second + third, fourth);
            }
            positions.append(&mut bottom);
            positions.append(&mut left);
            positions.append(&mut top);
            positions.append(&mut right);
        },
    }
    positions
}

/// Builds the obstacle at `pos`, with the choices that the shape leaves open
/// made at random. From the walls of a building it then draws up to nine
/// cells at random, which changes nothing on the map.
pub fn add_obstacle(map: &mut TileMap, pos: Pos, obstacle: Obstacle, rng: &mut SmallRng)
    requires
        old(map).wf(),
        obstacle_fits(&*old(map), pos, obstacle),
    ensures
        final(map).wf(),
        exists|first: bool, second: bool|
            built(&*old(map), &*final(map), pos, obstacle, first, second),
{
    match obstacle {
        Obstacle::Block => {
            place_obstacle(map, pos, obstacle, false, false);
        },
        Obstacle::Wall => {
            let along_x = flip(rng);
            place_obstacle(map, pos, obstacle, along_x, false);
        },
        Obstacle::ShortWall => {
            let along_x = flip(rng);
            place_obstacle(map, pos, obstacle, along_x, false);
        },
        Obstacle::Square => {
            place_obstacle(map, pos, obstacle, false, false);
        },
        Obstacle::LShape => {
            let backwards = flip(rng);
            let along_x = flip(rng);
            place_obstacle(map, pos, obstacle, backwards, along_x);
        },
        Obstacle::Building => {
            let mut positions = place_obstacle(map, pos, obstacle, false, false);
            let count = roll(rng, 0, 10);
            let mut drawn: i32 = 0;
            while drawn < count
                invariant
                    0 <= drawn <= count < 10,
                    positions@.len() >= 9 - drawn,
                decreases count - drawn,
            {
                let index = roll_index(rng, 0, positions.len());
                positions.swap_remove(index);
                drawn = drawn + 1;
            }
        },
    }
}

} // verus!
