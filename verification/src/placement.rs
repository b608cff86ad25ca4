//! Tiles put on the map in blocks and lines, and what lies around a cell.

use vstd::prelude::*;
use crate::types::{Pos, cell, chebyshev, fits};
use crate::map::{TileMap, Tile, TileType};
use crate::line::{line, line_seq, line_point, lemma_line_point};
use crate::pathing::neighbor_steps;
use crate::utils::{holds_cell, steps_apart};

verus! {

/// Those of `cells`, in order, that are cells of the grid.
pub open spec fn on_grid(map: &TileMap, cells: Seq<Pos>) -> Seq<Pos>
    decreases cells.len(),
{
    if cells.len() == 0 {
        Seq::empty()
    } else {
        let before = on_grid(map, cells.drop_last());
        if map.in_bounds(cells.last()) {
            before.push(cells.last())
        } else {
            before
        }
    }
}

/// The cells of the square block of side `width` whose corner of least
/// coordinates is `start`, column by column.
pub open spec fn block_cells(start: Pos, width: int) -> Seq<Pos> {
    Seq::new(
        (if width > 0 {
            width * width
        } else {
            0
        }) as nat,
        |i: int| cell(start.x + i / width, start.y + i % width),
    )
}

/// Whether `(x, y)` lies in the square block of side `width` at `start`.
pub open spec fn in_block(start: Pos, width: int, x: int, y: int) -> bool {
    start.x <= x < start.x + width && start.y <= y < start.y + width
}

impl TileMap {
    /// Whether one of the eight neighbours of `(x, y)` is a cell of the
    /// grid with a tile of the given type.
    pub open spec fn near_type(&self, x: int, y: int, tile_type: TileType) -> bool {
        exists|k: int|
            0 <= k < 8 && self.in_bounds_at(x + neighbor_steps()[k].0, y + neighbor_steps()[k].1)
                && (#[trigger] self.cell_at(
                x + neighbor_steps()[k].0,
                y + neighbor_steps()[k].1,
            )).tile_type == tile_type
    }

    /// Whether the straight line from `start` to `end` crosses only cells
    /// of the grid that are not occupied; `start` itself is not looked at.
    pub open spec fn clear_of_obstacles(&self, start: Pos, end: Pos) -> bool {
        forall|k: int|
            1 <= k <= chebyshev(start, end) ==> self.in_bounds(#[trigger] line_point(start, end, k))
                && !self.cell(line_point(start, end, k)).blocked
    }

    /// Whether no occupied tile lies on the straight line from `start` to
    /// `end`. A cell off the grid counts as occupied.
    pub fn path_clear_of_obstacles(&self, start: Pos, end: Pos) -> (clear: bool)
        requires
            self.wf(),
        ensures
            clear == self.clear_of_obstacles(start, end),
    {
        let points = line(start, end);
        let mut i: usize = 0;
        while i < points.len()
            invariant
                0 <= i <= points@.len(),
                self.wf(),
                points@ == line_seq(start, end),
                forall|k: int|
                    1 <= k <= i ==> self.in_bounds(#[trigger] line_point(start, end, k))
                        && !self.cell(line_point(start, end, k)).blocked,
            decreases points@.len() - i,
        {
            let point = points[i];
            assert(point == line_point(start, end, i + 1));
            if !self.is_within_bounds(point) || self.get_tile(point).blocked {
                return false;
            }
            i = i + 1;
        }
        true
    }

    /// The cells around `start` that are closer to it than `radius`, each
    /// once; `start` itself is not among them.
    pub fn pos_in_radius(&self, start: Pos, radius: i32) -> (cells: Vec<Pos>)
        requires
            fits(start.x - radius, start.y - radius),
            fits(start.x + radius, start.y + radius),
        ensures
            cells@.no_duplicates(),
            forall|pos: Pos| #[trigger] cells@.contains(pos) <==> 0 < chebyshev(start, pos) < radius,
    {
        let mut circle_positions: Vec<Pos> = Vec::new();
        if radius <= 0 {
            return circle_positions;
        }
        let low_x = start.x - radius;
        let high_x = start.x + radius;
        let low_y = start.y - radius;
        let high_y = start.y + radius;
        let mut x = low_x;
        while x < high_x
            invariant
                0 < radius,
                low_x == start.x - radius,
                high_x == start.x + radius,
                low_y == start.y - radius,
                high_y == start.y + radius,
                low_x <= x <= high_x,
                circle_positions@.no_duplicates(),
                forall|pos: Pos| #[trigger]
                    circle_positions@.contains(pos) ==> 0 < chebyshev(start, pos) < radius,
                forall|pos: Pos|
                    0 < chebyshev(start, pos) < radius && pos.x < x
                        ==> #[trigger] circle_positions@.contains(pos),
            decreases high_x - x,
        {
            let mut y = low_y;
            while y < high_y
                invariant
                    0 < radius,
                    low_x == start.x - radius,
                    high_x == start.x + radius,
                    low_y == start.y - radius,
                    high_y == start.y + radius,
                    low_x <= x < high_x,
                    low_y <= y <= high_y,
                    circle_positions@.no_duplicates(),
                    forall|pos: Pos| #[trigger]
                        circle_positions@.contains(pos) ==> 0 < chebyshev(start, pos) < radius,
                    forall|pos: Pos|
                        0 < chebyshev(start, pos) < radius && (pos.x < x || (pos.x == x && pos.y < y))
                            ==> #[trigger] circle_positions@.contains(pos),
                decreases high_y - y,
            {
                let target = Pos::new(x, y);
                let points = line(start, target);
                let mut i: usize = 0;
                while i < points.len()
                    invariant
                        0 <= i <= points@.len(),
                        0 < radius,
                        points@ == line_seq(start, target),
                        circle_positions@.no_duplicates(),
                        forall|pos: Pos| #[trigger]
                            circle_positions@.contains(pos) ==> 0 < chebyshev(start, pos) < radius,
                        forall|pos: Pos|
                            0 < chebyshev(start, pos) < radius && (pos.x < x || (pos.x == x && pos.y
                                < y)) ==> #[trigger] circle_positions@.contains(pos),
                        forall|k: int|
                            0 <= k < i && chebyshev(start, #[trigger] points@[k]) < radius
                                ==> circle_positions@.contains(points@[k]),
                    decreases points@.len() - i,
                {
                    let point = points[i];
                    proof {
                        lemma_line_point(start, target, i + 1);
                    }
                    if steps_apart(start, point) < radius as usize {
                        if !holds_cell(&circle_positions, point) {
                            let ghost before = circle_positions@;
                            circle_positions.push(point);
                            proof {
                                assert forall|pos: Pos| before.contains(pos) implies #[trigger] circle_positions@.contains(
                                    pos,
                                ) by {
                                    let j = choose|j: int| 0 <= j < before.len() && before[j] == pos;
                                    assert(circle_positions@[j] == pos);
                                }
                                assert(circle_positions@[before.len() as int] == point);
                                assert forall|pos: Pos| #[trigger]
                                    circle_positions@.contains(pos) implies 0 < chebyshev(start, pos)
                                    < radius by {
                                    let j = choose|j: int|
                                        0 <= j < circle_positions@.len() && circle_positions@[j]
                                            == pos;
                                    if j < before.len() {
                                        assert(before.contains(before[j]));
                                    }
                                }
                                assert forall|a: int, b: int|
                                    0 <= a < circle_positions@.len() && 0 <= b
                                        < circle_positions@.len() && a != b implies circle_positions@[a]
                                    != circle_positions@[b] by {
                                    if a < before.len() && b == before.len() {
                                        assert(before.contains(before[a]));
                                    }
                                    if b < before.len() && a == before.len() {
                                        assert(before.contains(before[b]));
                                    }
                                }
                            }
                        }
                    }
                    i = i + 1;
                }
                proof {
                    // the cell itself ends its own line
                    if 0 < chebyshev(start, target) < radius {
                        lemma_line_point(start, target, chebyshev(start, target));
                        assert(points@[chebyshev(start, target) - 1] == target);
                    }
                }
                y = y + 1;
            }
            x = x + 1;
        }
        circle_positions
    }
}

/// Whether one of the eight neighbours of `position` is a cell of the grid
/// with a tile of the given type.
pub fn near_tile_type(map: &TileMap, position: Pos, tile_type: TileType) -> (near: bool)
    requires
        map.wf(),
    ensures
        near == map.near_type(position.x as int, position.y as int, tile_type),
{
    let mut index: usize = 0;
    while index < 8
        invariant
            0 <= index <= 8,
            map.wf(),
            forall|k: int|
                0 <= k < index ==> !(map.in_bounds_at(
                    position.x + neighbor_steps()[k].0,
                    position.y + neighbor_steps()[k].1,
                ) && (#[trigger] map.cell_at(
                    position.x + neighbor_steps()[k].0,
                    position.y + neighbor_steps()[k].1,
                )).tile_type == tile_type),
        decreases 8 - index,
    {
        let offset = crate::pathing::neighbor_step(index);
        let x: i64 = position.x as i64 + offset.0 as i64;
        let y: i64 = position.y as i64 + offset.1 as i64;
        if 0 <= x && x < map.width() as i64 && 0 <= y && y < map.height() as i64 {
            let neighbor_position = Pos::new(x as i32, y as i32);
            if map.get_tile(neighbor_position).tile_type == tile_type {
                return true;
            }
        }
        index = index + 1;
    }
    false
}

/// Puts `tile` on every cell of the square block of side `width` whose
/// corner of least coordinates is `start`, and hands back the cells, column
/// by column.
pub fn place_block(map: &mut TileMap, start: Pos, width: i32, tile: Tile) -> (positions: Vec<Pos>)
    requires
        old(map).wf(),
        width > 0 ==> old(map).in_bounds(start) && old(map).in_bounds_at(
            start.x + width - 1,
            start.y + width - 1,
        ),
    ensures
        final(map).wf(),
        final(map).spec_width() == old(map).spec_width(),
        final(map).spec_height() == old(map).spec_height(),
        final(map).fov == old(map).fov,
        final(map).fov_pos == old(map).fov_pos,
        final(map).fov_radius == old(map).fov_radius,
        forall|x: int, y: int|
            old(map).in_bounds_at(x, y) ==> #[trigger] final(map).cell_at(x, y) == if in_block(
                start,
                width as int,
                x,
                y,
            ) {
                tile
            } else {
                old(map).cell_at(x, y)
            },
        positions@ == block_cells(start, width as int),
{
    let mut positions: Vec<Pos> = Vec::new();
    let mut x: i32 = 0;
    while x < width
        invariant
            0 <= x,
            x <= width || x == 0,
            map.wf(),
            map.spec_width() == old(map).spec_width(),
            map.spec_height() == old(map).spec_height(),
            map.fov == old(map).fov,
            map.fov_pos == old(map).fov_pos,
            map.fov_radius == old(map).fov_radius,
            width > 0 ==> old(map).in_bounds(start) && old(map).in_bounds_at(
                start.x + width - 1,
                start.y + width - 1,
            ),
            forall|i: int, j: int|
                old(map).in_bounds_at(i, j) ==> #[trigger] map.cell_at(i, j) == if in_block(
                    start,
                    width as int,
                    i,
                    j,
                ) && i < start.x + x {
                    tile
                } else {
                    old(map).cell_at(i, j)
                },
            positions@.len() == x * width,
            forall|i: int|
                0 <= i < positions@.len() ==> #[trigger] positions@[i] == cell(
                    start.x + i / (width as int),
                    start.y + i % (width as int),
                ),
        decreases width - x,
    {
        let mut y: i32 = 0;
        while y < width
            invariant
                0 <= x < width,
                0 <= y <= width,
                map.wf(),
                map.spec_width() == old(map).spec_width(),
                map.spec_height() == old(map).spec_height(),
                map.fov == old(map).fov,
                map.fov_pos == old(map).fov_pos,
                map.fov_radius == old(map).fov_radius,
                old(map).in_bounds(start) && old(map).in_bounds_at(
                    start.x + width - 1,
                    start.y + width - 1,
                ),
                forall|i: int, j: int|
                    old(map).in_bounds_at(i, j) ==> #[trigger] map.cell_at(i, j) == if in_block(
                        start,
                        width as int,
                        i,
                        j,
                    ) && (i < start.x + x || (i == start.x + x && j < start.y + y)) {
                        tile
                    } else {
                        old(map).cell_at(i, j)
                    },
                positions@.len() == x * width + y,
                forall|i: int|
                    0 <= i < positions@.len() ==> #[trigger] positions@[i] == cell(
                        start.x + i / (width as int),
                        start.y + i % (width as int),
                    ),
            decreases width - y,
        {
            let pos = Pos::new(start.x + x, start.y + y);
            map.set_tile(pos, tile);
            proof {
                let i = x * width + y;
                vstd::arithmetic::div_mod::lemma_fundamental_div_mod_converse(
                    i,
                    width as int,
                    x as int,
                    y as int,
                );
                assert(x * width <= (width - 1) * width) by (nonlinear_arith)
                    requires
                        0 <= x <= width - 1,
                        0 < width,
                ;
            }
            positions.push(pos);
            y = y + 1;
        }
        proof {
            assert(x * width + width == (x + 1) * width) by (nonlinear_arith);
        }
        x = x + 1;
    }
    proof {
        if width > 0 {
            assert(positions@.len() == width * width);
        } else {
            assert(positions@.len() == 0) by (nonlinear_arith)
                requires
                    positions@.len() == x * width,
                    x == 0,
            ;
        }
        assert(positions@ =~= block_cells(start, width as int));
    }
    positions
}

/// Puts `tile` on every cell of the grid on the straight line from `start`
/// to `end`, `start` itself left out, and hands back those cells in order.
pub fn place_line(map: &mut TileMap, start: Pos, end: Pos, tile: Tile) -> (positions: Vec<Pos>)
    requires
        old(map).wf(),
    ensures
        final(map).wf(),
        final(map).spec_width() == old(map).spec_width(),
        final(map).spec_height() == old(map).spec_height(),
        final(map).fov == old(map).fov,
        final(map).fov_pos == old(map).fov_pos,
        final(map).fov_radius == old(map).fov_radius,
        forall|x: int, y: int|
            old(map).in_bounds_at(x, y) ==> #[trigger] final(map).cell_at(x, y) == if line_seq(
                start,
                end,
            ).contains(cell(x, y)) {
                tile
            } else {
                old(map).cell_at(x, y)
            },
        positions@ == on_grid(&*old(map), line_seq(start, end)),
{
    let mut positions: Vec<Pos> = Vec::new();
    let points = line(start, end);
    let mut i: usize = 0;
    proof {
        assert(points@.take(0) =~= Seq::<Pos>::empty());
    }
    while i < points.len()
        invariant
            0 <= i <= points@.len(),
            points@ == line_seq(start, end),
            map.wf(),
            map.spec_width() == old(map).spec_width(),
            map.spec_height() == old(map).spec_height(),
            map.fov == old(map).fov,
            map.fov_pos == old(map).fov_pos,
            map.fov_radius == old(map).fov_radius,
            forall|x: int, y: int|
                old(map).in_bounds_at(x, y) ==> #[trigger] map.cell_at(x, y) == if points@.take(
                    i as int,
                ).contains(cell(x, y)) {
                    tile
                } else {
                    old(map).cell_at(x, y)
                },
            positions@ == on_grid(&*old(map), points@.take(i as int)),
        decreases points@.len() - i,
    {
        let pos = points[i];
        let ghost done = points@.take(i as int);
        let ghost next = points@.take(i + 1);
        proof {
            assert(next.drop_last() =~= done);
            assert(next.last() == pos);
            assert forall|p: Pos| next.contains(p) <==> done.contains(p) || p == pos by {
                if next.contains(p) {
                    let j = choose|j: int| 0 <= j < next.len() && next[j] == p;
                    if j < done.len() {
                        assert(done[j] == p);
                    }
                }
                if done.contains(p) {
                    let j = choose|j: int| 0 <= j < done.len() && done[j] == p;
                    assert(next[j] == p);
                }
                if p == pos {
                    assert(next[i as int] == p);
                }
            }
        }
        if map.is_within_bounds(pos) {
            map.set_tile(pos, tile);
            positions.push(pos);
        }
        i = i + 1;
    }
    proof {
        assert(points@.take(i as int) =~= points@);
    }
    positions
}

} // verus!
