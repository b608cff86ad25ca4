//! The visibility buffer of a map and the field of view that reads it.

use vstd::prelude::*;
use doryen_fov::{FovAlgorithm, FovRestrictive, MapData};
use crate::types::{Pos, chebyshev};
use crate::utils::distance;
use crate::map::{TileMap, FovBuffer};

verus! {

/// What the restrictive shadow-casting of `doryen_fov` leaves in the
/// visibility buffer of a `width` by `height` map: `transparent` says where
/// light passes, `seen` is the buffer before the computation, `(x, y)` is the
/// observer and `radius` bounds the view, 0 standing for no bound.
pub uninterp spec fn restrictive_view(
    width: int,
    height: int,
    transparent: Seq<bool>,
    seen: Seq<bool>,
    x: int,
    y: int,
    radius: int,
) -> Seq<bool>;

/// The number of cells in `transparent` that stop light.
pub open spec fn opaque_count(transparent: Seq<bool>) -> nat
    decreases transparent.len(),
{
    if transparent.len() == 0 {
        0
    } else {
        opaque_count(transparent.drop_last()) + if transparent.last() {
            0nat
        } else {
            1nat
        }
    }
}

/// Where every cell lets light pass, none stops it.
pub proof fn lemma_all_transparent(transparent: Seq<bool>)
    requires
        forall|i: int| 0 <= i < transparent.len() ==> transparent[i],
    ensures
        opaque_count(transparent) == 0,
    decreases transparent.len(),
{
    if transparent.len() > 0 {
        lemma_all_transparent(transparent.drop_last());
    }
}

/// The entry of cell `(x, y)` in a buffer that is `width` cells wide.
pub open spec fn cell_index(width: int, x: int, y: int) -> int {
    x + y * width
}

/// The entry of cell `(x, y)` lies within a buffer of `width` by `height`.
pub proof fn lemma_cell_index(width: int, height: int, x: int, y: int)
    requires
        0 <= x < width,
        0 <= y < height,
    ensures
        0 <= x + y * width < width * height,
        0 <= y * width,
{
    assert(0 <= y * width && x + y * width < width * height) by (nonlinear_arith)
        requires
            0 <= x < width,
            0 <= y < height,
    ;
}

/// Calls `FovRestrictive::compute_fov` of `doryen_fov`, with walls lit, on a
/// map made of the given buffers, and hands back the visibility buffer.
/// The computation keeps one table entry for each opaque cell that it meets
/// and has room for a seventh of the map's cells, so the opaque cells must
/// not be more. It counts rows and columns in `i32` up to the sum of the
/// sides, and adds the width to the entry of a cell to find the cell
/// diagonally behind it, so both sums must fit. It only ever marks cells as
/// seen, the observer's among them.
#[verifier::external_body]
fn restrictive_fov(
    width: usize,
    height: usize,
    transparent: &Vec<bool>,
    seen: Vec<bool>,
    x: usize,
    y: usize,
    radius: usize,
) -> (lit: Vec<bool>)
    requires
        width * height + width <= i32::MAX,
        width + height <= i32::MAX,
        transparent@.len() == width * height,
        seen@.len() == width * height,
        x < width,
        y < height,
        7 * opaque_count(transparent@) <= width * height,
    ensures
        lit@ == restrictive_view(
            width as int,
            height as int,
            transparent@,
            seen@,
            x as int,
            y as int,
            radius as int,
        ),
        lit@.len() == seen@.len(),
        lit@[x + y * width],
        forall|i: int| 0 <= i < seen@.len() && seen@[i] ==> lit@[i],
{
    let mut data = MapData { width, height, transparent: transparent.clone(), fov: seen };
    FovRestrictive::new().compute_fov(&mut data, x, y, radius, true);
    data.fov
}

impl FovBuffer {
    /// The entry of cell `(x, y)`.
    pub open spec fn index_of(&self, x: int, y: int) -> int {
        cell_index(self.width as int, x, y)
    }

    /// Whether `(x, y)` is a cell of the buffer.
    pub open spec fn covers(&self, x: int, y: int) -> bool {
        0 <= x < self.width && 0 <= y < self.height
    }

    /// Whether the visibility computation has room for every opaque cell:
    /// they are at most a seventh of all cells.
    pub open spec fn has_room(&self) -> bool {
        7 * opaque_count(self.transparent@) <= self.width * self.height
    }

    /// A buffer in which every cell lets light pass and none has been seen.
    pub fn new(width: usize, height: usize) -> (buffer: FovBuffer)
        requires
            width * height + width <= i32::MAX,
            width + height <= i32::MAX,
        ensures
            buffer.wf(),
            buffer.width == width,
            buffer.height == height,
            forall|i: int| 0 <= i < width * height ==> buffer.transparent@[i],
            forall|i: int| 0 <= i < width * height ==> !buffer.visible@[i],
            buffer.has_room(),
    {
        let mut transparent: Vec<bool> = Vec::new();
        let mut visible: Vec<bool> = Vec::new();
        let mut x: usize = 0;
        while x < width
            invariant
                0 <= x <= width,
                width * height + width <= i32::MAX,
                transparent@.len() == x * height,
                visible@.len() == x * height,
                forall|i: int| 0 <= i < transparent@.len() ==> transparent@[i],
                forall|i: int| 0 <= i < visible@.len() ==> !visible@[i],
            decreases width - x,
        {
            let mut y: usize = 0;
            while y < height
                invariant
                    0 <= y <= height,
                    transparent@.len() == x * height + y,
                    visible@.len() == x * height + y,
                    forall|i: int| 0 <= i < transparent@.len() ==> transparent@[i],
                    forall|i: int| 0 <= i < visible@.len() ==> !visible@[i],
                decreases height - y,
            {
                transparent.push(true);
                visible.push(false);
                y = y + 1;
            }
            proof {
                assert(x * height + height == (x + 1) * height) by (nonlinear_arith);
            }
            x = x + 1;
        }
        proof {
            lemma_all_transparent(transparent@);
            assert(0 <= width * height) by (nonlinear_arith);
        }
        FovBuffer { width, height, transparent, visible }
    }

    /// Whether the last computation saw the cell `(x, y)`.
    pub fn is_in_fov(&self, x: usize, y: usize) -> (seen: bool)
        requires
            self.wf(),
            self.covers(x as int, y as int),
        ensures
            seen == self.visible@[self.index_of(x as int, y as int)],
    {
        proof {
            lemma_cell_index(self.width as int, self.height as int, x as int, y as int);
        }
        self.visible[x + y * self.width]
    }

    /// Records whether light passes the cell `(x, y)`.
    pub fn set_transparent(&mut self, x: usize, y: usize, is_transparent: bool)
        requires
            old(self).wf(),
            old(self).covers(x as int, y as int),
        ensures
            final(self).wf(),
            final(self).width == old(self).width,
            final(self).height == old(self).height,
            final(self).visible == old(self).visible,
            final(self).transparent@ == old(self).transparent@.update(
                old(self).index_of(x as int, y as int),
                is_transparent,
            ),
    {
        proof {
            lemma_cell_index(self.width as int, self.height as int, x as int, y as int);
        }
        let index = x + y * self.width;
        self.transparent[index] = is_transparent;
    }

    /// Counts the opaque cells and says whether the visibility computation
    /// has room for them.
    pub fn room_for_obstacles(&self) -> (room: bool)
        requires
            self.wf(),
        ensures
            room == self.has_room(),
    {
        let mut opaque: usize = 0;
        let mut i: usize = 0;
        while i < self.transparent.len()
            invariant
                0 <= i <= self.transparent@.len(),
                opaque == opaque_count(self.transparent@.subrange(0, i as int)),
                opaque <= i,
            decreases self.transparent@.len() - i,
        {
            proof {
                assert(self.transparent@.subrange(0, i + 1).drop_last()
                    =~= self.transparent@.subrange(0, i as int));
            }
            if !self.transparent[i] {
                opaque = opaque + 1;
            }
            i = i + 1;
        }
        proof {
            assert(self.transparent@.subrange(0, i as int) =~= self.transparent@);
        }
        opaque <= self.transparent.len() / 7
    }

    /// The buffer after a computation for an observer at `(x, y)`.
    pub open spec fn lit_from(&self, x: int, y: int, radius: int) -> Seq<bool> {
        restrictive_view(
            self.width as int,
            self.height as int,
            self.transparent@,
            self.visible@,
            x,
            y,
            radius,
        )
    }

    /// Computes what an observer at `(x, y)` sees within `radius`, 0 standing
    /// for no bound. Cells that were seen before stay seen.
    pub fn compute(&mut self, x: usize, y: usize, radius: usize)
        requires
            old(self).wf(),
            old(self).covers(x as int, y as int),
            old(self).has_room(),
        ensures
            final(self).wf(),
            final(self).width == old(self).width,
            final(self).height == old(self).height,
            final(self).transparent == old(self).transparent,
            final(self).visible@ == old(self).lit_from(x as int, y as int, radius as int),
            final(self).visible@[old(self).index_of(x as int, y as int)],
            forall|i: int|
                0 <= i < old(self).visible@.len() && old(self).visible@[i] ==> final(self).visible@[i],
    {
        let mut seen: Vec<bool> = Vec::new();
        std::mem::swap(&mut seen, &mut self.visible);
        let lit = restrictive_fov(self.width, self.height, &self.transparent, seen, x, y, radius);
        self.visible = lit;
    }
}

/// Two different cells of a buffer have different entries.
pub proof fn lemma_cell_index_distinct(width: int, height: int, x: int, y: int, i: int, j: int)
    requires
        0 <= x < width,
        0 <= y < height,
        0 <= i < width,
        0 <= j < height,
        x != i || y != j,
    ensures
        x + y * width != i + j * width,
{
    if y < j {
        assert(x + y * width < i + j * width) by (nonlinear_arith)
            requires
                0 <= x < width,
                0 <= i,
                0 <= y < j,
        ;
    } else if j < y {
        assert(i + j * width < x + y * width) by (nonlinear_arith)
            requires
                0 <= i < width,
                0 <= x,
                0 <= j < y,
        ;
    }
}

/// The bound that a view radius puts on the visibility computation: a radius
/// that is not positive bounds nothing, for which 0 stands.
pub open spec fn view_bound(radius: int) -> int {
    if radius <= 0 {
        0
    } else {
        radius
    }
}

impl TileMap {
    /// Whether the visibility buffer knows of every cell whether its tile
    /// blocks sight.
    pub open spec fn synced(&self) -> bool {
        forall|x: int, y: int|
            self.in_bounds_at(x, y) ==> self.fov.transparent@[#[trigger] cell_index(
                self.spec_width(),
                x,
                y,
            )] == !self.cell_at(x, y).block_sight
    }

    /// Tells the visibility buffer whether light passes the cell `(x, y)`.
    pub fn set_cell(&mut self, x: i32, y: i32, transparent: bool)
        requires
            old(self).wf(),
            old(self).fov.covers(x as int, y as int),
        ensures
            final(self).wf(),
            final(self).tiles == old(self).tiles,
            final(self).fov_pos == old(self).fov_pos,
            final(self).fov_radius == old(self).fov_radius,
            final(self).fov.visible == old(self).fov.visible,
            final(self).fov.transparent@ == old(self).fov.transparent@.update(
                old(self).fov.index_of(x as int, y as int),
                transparent,
            ),
    {
        self.fov.set_transparent(x as usize, y as usize, transparent);
    }

    /// Whether the visibility computation has room for the opaque cells that
    /// the buffer holds now.
    pub fn can_compute_fov(&self) -> (room: bool)
        requires
            self.wf(),
        ensures
            room == self.fov.has_room(),
    {
        self.fov.room_for_obstacles()
    }

    /// Computes the visibility buffer for an observer at `pos` and records
    /// the observer and the radius.
    pub fn compute_fov(&mut self, pos: Pos, view_radius: i32)
        requires
            old(self).wf(),
            old(self).fov.covers(pos.x as int, pos.y as int),
            old(self).fov.has_room(),
        ensures
            final(self).wf(),
            final(self).tiles == old(self).tiles,
            final(self).fov_pos == pos,
            final(self).fov_radius == view_radius,
            final(self).fov.transparent == old(self).fov.transparent,
            final(self).fov.visible@ == old(self).fov.lit_from(
                pos.x as int,
                pos.y as int,
                view_bound(view_radius as int),
            ),
    {
        self.fov_pos = pos;
        self.fov_radius = view_radius;
        let bound: usize = if view_radius <= 0 { 0 } else { view_radius as usize };
        self.fov.compute(pos.x as usize, pos.y as usize, bound);
    }

    /// Tells the visibility buffer of every cell whether its tile blocks
    /// sight. Where the visibility computation then has room for the opaque
    /// cells, the buffer is computed again for the recorded observer and
    /// radius; where it has not, what was seen before stays.
    pub fn update_map(&mut self)
        requires
            old(self).wf(),
        ensures
            final(self).wf(),
            final(self).tiles == old(self).tiles,
            final(self).fov_pos == old(self).fov_pos,
            final(self).fov_radius == old(self).fov_radius,
            final(self).synced(),
            final(self).fov.visible@ == if final(self).fov.has_room() {
                restrictive_view(
                    final(self).fov.width as int,
                    final(self).fov.height as int,
                    final(self).fov.transparent@,
                    old(self).fov.visible@,
                    old(self).fov_pos.x as int,
                    old(self).fov_pos.y as int,
                    view_bound(old(self).fov_radius as int),
                )
            } else {
                old(self).fov.visible@
            },
    {
        let width = self.width();
        let height = self.height();
        let mut y: i32 = 0;
        while y < height
            invariant
                0 <= y,
                y <= height,
                self.wf(),
                width == self.spec_width(),
                height == self.spec_height(),
                self.tiles == old(self).tiles,
                self.fov_pos == old(self).fov_pos,
                self.fov_radius == old(self).fov_radius,
                self.fov.visible == old(self).fov.visible,
                forall|i: int, j: int|
                    0 <= i < width && 0 <= j < y ==> self.fov.transparent@[#[trigger] cell_index(
                        width as int,
                        i,
                        j,
                    )] == !self.cell_at(i, j).block_sight,
            decreases height - y,
        {
            let mut x: i32 = 0;
            while x < width
                invariant
                    0 <= x <= width,
                    0 <= y < height,
                    self.wf(),
                    width == self.spec_width(),
                    height == self.spec_height(),
                    self.tiles == old(self).tiles,
                    self.fov_pos == old(self).fov_pos,
                    self.fov_radius == old(self).fov_radius,
                    self.fov.visible == old(self).fov.visible,
                    forall|i: int, j: int|
                        0 <= i < width && 0 <= j < height && (j < y || (j == y && i < x))
                            ==> self.fov.transparent@[#[trigger] cell_index(width as int, i, j)]
                            == !self.cell_at(i, j).block_sight,
                decreases width - x,
            {
                let transparent = !self.get_tile(Pos::new(x, y)).block_sight;
                proof {
                    assert forall|i: int, j: int|
                        0 <= i < width && 0 <= j < height && !(i == x && j == y) implies #[trigger] cell_index(
                        width as int,
                        i,
                        j,
                    ) != cell_index(width as int, x as int, y as int) by {
                        lemma_cell_index_distinct(width as int, height as int, x as int, y as int, i, j);
                    }
                    assert forall|i: int, j: int| 0 <= i < width && 0 <= j < height implies 0
                        <= #[trigger] cell_index(width as int, i, j) < self.fov.transparent@.len() by {
                        lemma_cell_index(width as int, height as int, i, j);
                    }
                }
                self.fov.set_transparent(x as usize, y as usize, transparent);
                x = x + 1;
            }
            y = y + 1;
        }
        if self.fov.room_for_obstacles() {
            let pos = self.fov_pos;
            let radius = self.fov_radius;
            self.compute_fov(pos, radius);
        }
    }

    /// Whether a wall hides `end` from `start`: a step of the line between
    /// them is obstructed, unless it is the step onto `end` and `end` blocks
    /// sight itself.
    pub open spec fn wall_hides(&self, start: Pos, end: Pos) -> bool {
        self.line_blocked(start, end) matches Some(blocked) && !(blocked.end_pos == end && self.cell(
            end,
        ).block_sight)
    }

    /// Whether the visibility buffer was computed for this observer and
    /// this radius.
    pub open spec fn fov_is_current(&self, pos: Pos, radius: int) -> bool {
        self.fov_pos == pos && self.fov_radius == radius
    }

    /// The visibility buffer that a query for an observer at `pos` reads:
    /// the buffer as it is where it was computed for that observer and
    /// radius, and the buffer computed for them where it was not.
    pub open spec fn lit_for(&self, pos: Pos, radius: int) -> Seq<bool> {
        if self.fov_is_current(pos, radius) {
            self.fov.visible@
        } else {
            self.fov.lit_from(pos.x as int, pos.y as int, view_bound(radius))
        }
    }

    /// Whether an observer at `start` sees `end` within `radius`, by the
    /// visibility buffer: a cell sees itself, and otherwise both cells are on
    /// the grid, closer than `radius`, with no wall hiding `end`, and the
    /// buffer for the observer holds `end`.
    pub open spec fn in_fov_alg(&self, start: Pos, end: Pos, radius: int) -> bool {
        start == end || (self.in_bounds(start) && self.in_bounds(end) && chebyshev(start, end)
            < radius && !self.wall_hides(start, end) && self.lit_for(start, radius)[cell_index(
            self.spec_width(),
            end.x as int,
            end.y as int,
        )])
    }

    /// Makes the visibility buffer the one of an observer at `pos` with the
    /// given radius: it is computed where it was computed for another
    /// observer or radius, and stays as it is where it was not.
    fn refresh_fov(&mut self, pos: Pos, radius: i32)
        requires
            old(self).wf(),
            old(self).in_bounds(pos),
            old(self).fov.has_room(),
        ensures
            final(self).wf(),
            final(self).tiles == old(self).tiles,
            final(self).fov.transparent == old(self).fov.transparent,
            final(self).fov_is_current(pos, radius as int),
            final(self).fov.visible@ == old(self).lit_for(pos, radius as int),
    {
        if self.fov_pos != pos || self.fov_radius != radius {
            self.compute_fov(pos, radius);
        }
    }

    /// Whether a wall hides `end_pos` from `start_pos`.
    fn hidden_by_wall(&self, start_pos: Pos, end_pos: Pos) -> (hidden: bool)
        requires
            self.wf(),
            self.in_bounds(start_pos),
            self.in_bounds(end_pos),
        ensures
            hidden == self.wall_hides(start_pos, end_pos),
    {
        let blocked = self.is_blocked_by_wall(
            start_pos,
            end_pos.x - start_pos.x,
            end_pos.y - start_pos.y,
        );
        let mut blocked_by_wall = false;
        if let Some(blocked) = blocked {
            let at_end = blocked.end_pos == end_pos;
            blocked_by_wall = !(at_end && self.get_tile(end_pos).block_sight);
        }
        blocked_by_wall
    }

    /// Whether an observer at `start_pos` sees `end_pos` within `radius`, by
    /// the visibility buffer, which is computed first where it is not the
    /// one of this observer and radius.
    pub fn is_in_fov_alg(&mut self, start_pos: Pos, end_pos: Pos, radius: i32) -> (visible: bool)
        requires
            old(self).wf(),
            old(self).fov.has_room(),
        ensures
            final(self).wf(),
            visible == old(self).in_fov_alg(start_pos, end_pos, radius as int),
            final(self).tiles == old(self).tiles,
            final(self).fov.transparent == old(self).fov.transparent,
            if start_pos != end_pos && old(self).in_bounds(start_pos) && old(self).in_bounds(end_pos)
                && chebyshev(start_pos, end_pos) < radius {
                &&& final(self).fov_is_current(start_pos, radius as int)
                &&& final(self).fov.visible@ == old(self).lit_for(start_pos, radius as int)
            } else {
                *final(self) == *old(self)
            },
    {
        if start_pos == end_pos {
            return true;
        }
        if !self.is_within_bounds(start_pos) || !self.is_within_bounds(end_pos) {
            return false;
        }
        let within_radius = distance(start_pos, end_pos) < radius;
        if !within_radius {
            return false;
        }
        self.refresh_fov(start_pos, radius);
        let blocked_by_wall = self.hidden_by_wall(start_pos, end_pos);
        proof {
            lemma_same_tiles_same_lines(&*old(self), &*self, start_pos, end_pos);
        }
        let is_visible = self.fov.is_in_fov(end_pos.x as usize, end_pos.y as usize);
        !blocked_by_wall && is_visible
    }
}

/// What obstructs a line depends on the tiles alone.
pub proof fn lemma_same_tiles_same_lines(one: &TileMap, other: &TileMap, start: Pos, end: Pos)
    requires
        one.tiles == other.tiles,
    ensures
        one.line_blocked(start, end) == other.line_blocked(start, end),
{
    let path = TileMap::move_path(start, end);
    assert forall|a: Pos, b: Pos| one.move_blocked(a, b) == other.move_blocked(a, b) by {
        crate::blocking::lemma_same_tiles_same_steps(one, other, a, b);
    }
    lemma_same_first_block(one, other, path, 0);
}

/// On maps whose steps are obstructed alike, the first obstructed step of a
/// path is the same.
pub proof fn lemma_same_first_block(one: &TileMap, other: &TileMap, path: Seq<Pos>, from: int)
    requires
        forall|a: Pos, b: Pos| one.move_blocked(a, b) == other.move_blocked(a, b),
    ensures
        one.first_block(path, from) == other.first_block(path, from),
    decreases path.len() - from,
{
    if from + 1 < path.len() && one.move_blocked(path[from], path[from + 1]) is None {
        lemma_same_first_block(one, other, path, from + 1);
    }
}

} // verus!
