//! Whether a step, a path or a straight move is obstructed, and by what.

use vstd::prelude::*;
use crate::types::{Pos, chebyshev, fits, cell};
use crate::movement::Direction;
use crate::map::{TileMap, Tile, Wall, Blocked};
use crate::line::{line, line_seq, line_point, lemma_line_point};

verus! {

/// What the edge checks of one step have found so far: whether any of them
/// fired, and the wall that the last one that named a wall recorded.
#[derive(Clone, Copy, Debug, PartialEq, Eq, Structural)]
pub struct EdgeScan {
    pub found: bool,
    pub wall: Wall,
}

impl EdgeScan {
    /// The scan after one more check. A check that fires marks the step as
    /// blocked and, where it names a wall, replaces the recorded one; the
    /// checks that follow are still made.
    pub open spec fn spec_note(self, fires: bool, wall: Option<Wall>) -> EdgeScan {
        if fires {
            EdgeScan {
                found: true,
                wall: match wall {
                    Some(w) => w,
                    None => self.wall,
                },
            }
        } else {
            self
        }
    }

    /// The scan after one more check.
    pub fn note(self, fires: bool, wall: Option<Wall>) -> (scan: EdgeScan)
        ensures
            scan == self.spec_note(fires, wall),
    {
        if fires {
            EdgeScan {
                found: true,
                wall: match wall {
                    Some(w) => w,
                    None => self.wall,
                },
            }
        } else {
            self
        }
    }
}

impl TileMap {
    /// The wall on the left edge of `(x, y)`, for a cell of the grid.
    pub open spec fn left_wall_at(&self, x: int, y: int) -> Option<Wall> {
        if self.in_bounds_at(x, y) {
            Some(self.cell_at(x, y).left_wall)
        } else {
            None
        }
    }

    /// The wall on the bottom edge of `(x, y)`, for a cell of the grid.
    pub open spec fn bottom_wall_at(&self, x: int, y: int) -> Option<Wall> {
        if self.in_bounds_at(x, y) {
            Some(self.cell_at(x, y).bottom_wall)
        } else {
            None
        }
    }

    /// Whether a step to the left from `(x, y)` is obstructed: by the edge of
    /// the grid, by a wall on the left edge, or by the tile on the left.
    pub open spec fn left_blocked_at(&self, x: int, y: int) -> bool {
        !self.in_bounds_at(x, y) || !self.in_bounds_at(x - 1, y) || self.cell_at(x, y).left_wall
            != Wall::Empty || self.cell_at(x - 1, y).blocked
    }

    /// Whether a step to the right from `(x, y)` is obstructed.
    pub open spec fn right_blocked_at(&self, x: int, y: int) -> bool {
        !self.in_bounds_at(x, y) || !self.in_bounds_at(x + 1, y) || self.cell_at(
            x + 1,
            y,
        ).left_wall != Wall::Empty || self.cell_at(x + 1, y).blocked
    }

    /// Whether a step down from `(x, y)` is obstructed.
    pub open spec fn down_blocked_at(&self, x: int, y: int) -> bool {
        !self.in_bounds_at(x, y) || !self.in_bounds_at(x, y + 1) || self.cell_at(x, y).bottom_wall
            != Wall::Empty || self.cell_at(x, y + 1).blocked
    }

    /// Whether a step up from `(x, y)` is obstructed.
    pub open spec fn up_blocked_at(&self, x: int, y: int) -> bool {
        !self.in_bounds_at(x, y) || !self.in_bounds_at(x, y - 1) || self.cell_at(
            x,
            y - 1,
        ).bottom_wall != Wall::Empty || self.cell_at(x, y - 1).blocked
    }

    /// The wall on the edge that the axis-aligned step `dir` from `(x, y)`
    /// crosses, where the cell that owns that edge is on the grid.
    pub open spec fn crossed_wall(&self, x: int, y: int, dir: Direction) -> Option<Wall> {
        match dir {
            Direction::Left => self.left_wall_at(x, y),
            Direction::Right => self.left_wall_at(x + 1, y),
            Direction::Up => self.bottom_wall_at(x, y - 1),
            Direction::Down => self.bottom_wall_at(x, y),
            _ => None,
        }
    }

    /// Whether a wall stands on the edge that the axis-aligned step `dir`
    /// from `(x, y)` crosses.
    pub open spec fn edge_walled(&self, x: int, y: int, dir: Direction) -> bool {
        self.crossed_wall(x, y, dir) is Some && self.crossed_wall(x, y, dir) != Some(Wall::Empty)
    }

    /// The four pairs of obstructed steps of which each closes the corner
    /// that the diagonal step `dir` from `(x, y)` cuts, in the order in which
    /// they are checked.
    pub open spec fn corner_checks(&self, x: int, y: int, dir: Direction) -> (bool, bool, bool, bool) {
        match dir {
            Direction::DownRight => (
                self.right_blocked_at(x, y) && self.down_blocked_at(x, y),
                self.right_blocked_at(x, y + 1) && self.down_blocked_at(x + 1, y),
                self.right_blocked_at(x, y) && self.right_blocked_at(x, y + 1),
                self.down_blocked_at(x, y) && self.down_blocked_at(x + 1, y),
            ),
            Direction::UpRight => (
                self.up_blocked_at(x, y) && self.right_blocked_at(x, y),
                self.up_blocked_at(x + 1, y) && self.right_blocked_at(x, y - 1),
                self.right_blocked_at(x, y) && self.right_blocked_at(x, y - 1),
                self.up_blocked_at(x, y) && self.up_blocked_at(x + 1, y),
            ),
            Direction::DownLeft => (
                self.left_blocked_at(x, y) && self.down_blocked_at(x, y),
                self.left_blocked_at(x, y + 1) && self.down_blocked_at(x - 1, y),
                self.left_blocked_at(x, y) && self.left_blocked_at(x, y + 1),
                self.down_blocked_at(x, y) && self.down_blocked_at(x - 1, y),
            ),
            Direction::UpLeft => (
                self.left_blocked_at(x, y - 1) && self.up_blocked_at(x - 1, y),
                self.left_blocked_at(x, y) && self.up_blocked_at(x, y),
                self.left_blocked_at(x, y) && self.left_blocked_at(x, y - 1),
                self.up_blocked_at(x, y) && self.up_blocked_at(x - 1, y),
            ),
            _ => (false, false, false, false),
        }
    }

    /// The wall that each of the four corner checks records when it fires,
    /// where the cell that it reads is on the grid.
    pub open spec fn corner_walls(&self, x: int, y: int, dir: Direction) -> (
        Option<Wall>,
        Option<Wall>,
        Option<Wall>,
        Option<Wall>,
    ) {
        match dir {
            Direction::DownRight => (
                self.bottom_wall_at(x, y),
                self.bottom_wall_at(x - 1, y + 1),
                self.left_wall_at(x + 1, y),
                self.bottom_wall_at(x, y),
            ),
            Direction::UpRight => (
                self.bottom_wall_at(x, y - 1),
                self.bottom_wall_at(x + 1, y - 1),
                self.left_wall_at(x + 1, y),
                self.bottom_wall_at(x, y - 1),
            ),
            Direction::DownLeft => (
                self.left_wall_at(x, y),
                self.left_wall_at(x + 1, y - 1),
                self.left_wall_at(x, y),
                self.bottom_wall_at(x, y),
            ),
            Direction::UpLeft => (
                self.left_wall_at(x - 1, y - 1),
                self.left_wall_at(x, y),
                self.left_wall_at(x, y),
                self.bottom_wall_at(x, y - 1),
            ),
            _ => (None, None, None, None),
        }
    }

    /// Whether the edges obstruct the step `dir` from `(x, y)`: the wall on
    /// the crossed edge for an axis-aligned step, any of the four corner
    /// checks for a diagonal one.
    pub open spec fn walled(&self, x: int, y: int, dir: Direction) -> bool {
        if dir.is_diagonal() {
            let checks = self.corner_checks(x, y, dir);
            checks.0 || checks.1 || checks.2 || checks.3
        } else {
            self.edge_walled(x, y, dir)
        }
    }

    /// What the edge checks of the step `dir` from `(x, y)` find, starting
    /// from `first`.
    pub open spec fn edge_scan(&self, x: int, y: int, dir: Direction, first: EdgeScan) -> EdgeScan {
        if dir.is_diagonal() {
            let checks = self.corner_checks(x, y, dir);
            let walls = self.corner_walls(x, y, dir);
            first.spec_note(checks.0, walls.0).spec_note(checks.1, walls.1).spec_note(
                checks.2,
                walls.2,
            ).spec_note(checks.3, walls.3)
        } else {
            first.spec_note(self.edge_walled(x, y, dir), self.crossed_wall(x, y, dir))
        }
    }

    /// What obstructs the single step from `pos` to the neighbouring cell
    /// `next`, if anything does. A step off the grid is obstructed by the
    /// tile and nothing more is looked at. On the grid, an occupied `next`
    /// obstructs, and so do the edges; the wall recorded is that of the last
    /// edge check that fired and named one.
    pub open spec fn move_blocked(&self, pos: Pos, next: Pos) -> Option<Blocked> {
        let dir = Direction::spec_from_dxy(next.x - pos.x, next.y - pos.y);
        if !self.in_bounds(next) {
            Some(
                Blocked {
                    start_pos: pos,
                    end_pos: next,
                    direction: dir,
                    blocked_tile: true,
                    wall_type: Wall::Empty,
                },
            )
        } else {
            let occupied = self.cell(next).blocked;
            let scan = self.edge_scan(
                pos.x as int,
                pos.y as int,
                dir,
                EdgeScan { found: occupied, wall: Wall::Empty },
            );
            if scan.found {
                Some(
                    Blocked {
                        start_pos: pos,
                        end_pos: next,
                        direction: dir,
                        blocked_tile: occupied,
                        wall_type: scan.wall,
                    },
                )
            } else {
                None
            }
        }
    }

    /// Whether the step from `pos` to the neighbouring cell `next` is free:
    /// `next` is on the grid and not occupied, and no edge obstructs the step.
    pub open spec fn passable(&self, pos: Pos, next: Pos) -> bool {
        &&& self.in_bounds(next)
        &&& !self.cell(next).blocked
        &&& !self.walled(
            pos.x as int,
            pos.y as int,
            Direction::spec_from_dxy(next.x - pos.x, next.y - pos.y),
        )
    }

    /// A step is unobstructed exactly when it is passable, and what obstructs
    /// it names the step.
    pub proof fn lemma_move_blocked(&self, pos: Pos, next: Pos)
        ensures
            self.move_blocked(pos, next) is None <==> self.passable(pos, next),
            self.move_blocked(pos, next) matches Some(b) ==> b.start_pos == pos && b.end_pos == next
                && b.direction == Direction::spec_from_dxy(next.x - pos.x, next.y - pos.y),
            self.move_blocked(pos, next) matches Some(b) ==> (b.blocked_tile <==> !self.in_bounds(
                next,
            ) || self.cell(next).blocked),
    {
    }

    /// The index of the first obstructed step of `path` at or after `from`:
    /// the step from `path[k]` to `path[k + 1]` has index `k`. Where no step
    /// is obstructed it is the index of the last cell.
    pub open spec fn first_block(&self, path: Seq<Pos>, from: int) -> int
        decreases path.len() - from,
    {
        if from + 1 >= path.len() {
            from
        } else if self.move_blocked(path[from], path[from + 1]) is Some {
            from
        } else {
            self.first_block(path, from + 1)
        }
    }

    /// What obstructs the first obstructed step along `path`, if any step is.
    pub open spec fn path_blocked(&self, path: Seq<Pos>) -> Option<Blocked> {
        let k = self.first_block(path, 0);
        if k + 1 < path.len() {
            self.move_blocked(path[k], path[k + 1])
        } else {
            None
        }
    }

    /// The cells that a move from `start` to `end` visits: `start`, then the
    /// rasterized line to `end`.
    pub open spec fn move_path(start: Pos, end: Pos) -> Seq<Pos> {
        seq![start] + line_seq(start, end)
    }

    /// What obstructs the first obstructed step on the rasterized line from
    /// `start` to `end`, if any step is. Nothing obstructs staying in place.
    pub open spec fn line_blocked(&self, start: Pos, end: Pos) -> Option<Blocked> {
        if start == end {
            None
        } else {
            self.path_blocked(Self::move_path(start, end))
        }
    }

    /// The first obstructed step lies at or after `from`, every step between
    /// the two is free, and the step itself is obstructed unless the path
    /// ended first.
    pub proof fn lemma_first_block(&self, path: Seq<Pos>, from: int)
        requires
            0 <= from,
        ensures
            from <= self.first_block(path, from),
            from + 1 < path.len() ==> self.first_block(path, from) + 1 <= path.len(),
            forall|j: int|
                from <= j < self.first_block(path, from) ==> (#[trigger] self.move_blocked(
                    path[j],
                    path[j + 1],
                )) is None,
            self.first_block(path, from) + 1 < path.len() ==> self.move_blocked(
                path[self.first_block(path, from)],
                path[self.first_block(path, from) + 1],
            ) is Some,
        decreases path.len() - from,
    {
        if from + 1 >= path.len() {
        } else if self.move_blocked(path[from], path[from + 1]) is Some {
        } else {
            self.lemma_first_block(path, from + 1);
        }
    }

    /// The move path from `start` to `end` holds one cell for each step of
    /// the line and `start` before them, and each of its steps goes to a
    /// neighbouring cell.
    pub proof fn lemma_move_path(start: Pos, end: Pos)
        ensures
            Self::move_path(start, end).len() == chebyshev(start, end) + 1,
            forall|k: int|
                0 <= k <= chebyshev(start, end) ==> (#[trigger] Self::move_path(start, end)[k])
                    == line_point(start, end, k),
            forall|k: int|
                0 <= k < chebyshev(start, end) ==> chebyshev(
                    #[trigger] Self::move_path(start, end)[k],
                    Self::move_path(start, end)[k + 1],
                ) == 1,
    {
        let path = Self::move_path(start, end);
        lemma_line_point(start, end, 0);
        assert forall|k: int| 0 <= k <= chebyshev(start, end) implies (#[trigger] path[k])
            == line_point(start, end, k) by {
            if k > 0 {
                assert(path[k] == line_seq(start, end)[k - 1]);
            }
        }
        assert forall|k: int| 0 <= k < chebyshev(start, end) implies chebyshev(
            #[trigger] path[k],
            path[k + 1],
        ) == 1 by {
            lemma_line_point(start, end, k + 1);
        }
    }

    /// What obstructs a move along a line is one of the line's own steps:
    /// some `k`-th step from the `k`-th cell of the line to the next one,
    /// with every step before it free.
    pub proof fn lemma_line_blocked(&self, start: Pos, end: Pos) -> (k: int)
        requires
            self.line_blocked(start, end) is Some,
        ensures
            0 <= k < chebyshev(start, end),
            self.line_blocked(start, end) == self.move_blocked(
                line_point(start, end, k),
                line_point(start, end, k + 1),
            ),
            self.line_blocked(start, end)->0.start_pos == line_point(start, end, k),
            self.line_blocked(start, end)->0.end_pos == line_point(start, end, k + 1),
            forall|j: int|
                0 <= j < k ==> (#[trigger] self.move_blocked(
                    line_point(start, end, j),
                    line_point(start, end, j + 1),
                )) is None,
    {
        let path = Self::move_path(start, end);
        Self::lemma_move_path(start, end);
        self.lemma_first_block(path, 0);
        let k = self.first_block(path, 0);
        self.lemma_move_blocked(path[k], path[k + 1]);
        assert forall|j: int| 0 <= j < k implies (#[trigger] self.move_blocked(
            line_point(start, end, j),
            line_point(start, end, j + 1),
        )) is None by {
            assert(self.move_blocked(path[j], path[j + 1]) is None);
        }
        k
    }

    /// The walls on the four edges that meet at the corner which the
    /// diagonal step `dir` from `(x, y)` cuts: the two edges of the start
    /// first, then the two edges of the cell that is stepped to.
    pub open spec fn corner_edges(&self, x: int, y: int, dir: Direction) -> (
        Option<Wall>,
        Option<Wall>,
        Option<Wall>,
        Option<Wall>,
    ) {
        match dir {
            Direction::DownRight => (
                self.left_wall_at(x + 1, y),
                self.bottom_wall_at(x, y),
                self.left_wall_at(x + 1, y + 1),
                self.bottom_wall_at(x + 1, y),
            ),
            Direction::UpRight => (
                self.left_wall_at(x + 1, y),
                self.bottom_wall_at(x, y - 1),
                self.left_wall_at(x + 1, y - 1),
                self.bottom_wall_at(x + 1, y - 1),
            ),
            Direction::DownLeft => (
                self.left_wall_at(x, y),
                self.bottom_wall_at(x, y),
                self.left_wall_at(x, y + 1),
                self.bottom_wall_at(x - 1, y),
            ),
            Direction::UpLeft => (
                self.left_wall_at(x, y),
                self.bottom_wall_at(x, y - 1),
                self.left_wall_at(x, y - 1),
                self.bottom_wall_at(x - 1, y - 1),
            ),
            _ => (None, None, None, None),
        }
    }

    /// Whether at most one wall stands on the four edges that meet at the
    /// corner which the diagonal step `dir` from `(x, y)` cuts.
    pub open spec fn corner_has_one_wall(&self, x: int, y: int, dir: Direction) -> bool {
        let edges = self.corner_edges(x, y, dir);
        let first: int = if wall_stands(edges.0) { 1 } else { 0 };
        let second: int = if wall_stands(edges.1) { 1 } else { 0 };
        let third: int = if wall_stands(edges.2) { 1 } else { 0 };
        let fourth: int = if wall_stands(edges.3) { 1 } else { 0 };
        first + second + third + fourth <= 1
    }

    /// A single wall blocks no diagonal step past its end: between free
    /// tiles of the grid, a diagonal step is free where at most one wall
    /// stands on the four edges that meet at the corner it cuts.
    pub proof fn lemma_single_wall_leaves_corner_open(&self, pos: Pos, next: Pos)
        requires
            chebyshev(pos, next) == 1,
            pos.x != next.x,
            pos.y != next.y,
            self.in_bounds(pos),
            self.in_bounds(next),
            !self.cell(next).blocked,
            !self.cell_at(next.x as int, pos.y as int).blocked,
            !self.cell_at(pos.x as int, next.y as int).blocked,
            self.corner_has_one_wall(
                pos.x as int,
                pos.y as int,
                Direction::spec_from_dxy(next.x - pos.x, next.y - pos.y),
            ),
        ensures
            self.move_blocked(pos, next) is None,
    {
    }

    /// Where a step of a line is obstructed, the move along the line is
    /// obstructed, at that step or before it: the result is the index of
    /// the step that obstructs the move.
    pub proof fn lemma_blocked_step_blocks_line(&self, start: Pos, end: Pos, k: int) -> (first: int)
        requires
            0 <= k < chebyshev(start, end),
            self.move_blocked(line_point(start, end, k), line_point(start, end, k + 1)) is Some,
        ensures
            0 <= first <= k,
            self.line_blocked(start, end) is Some,
            self.line_blocked(start, end) == self.move_blocked(
                line_point(start, end, first),
                line_point(start, end, first + 1),
            ),
            self.line_blocked(start, end)->0.start_pos == line_point(start, end, first),
            self.line_blocked(start, end)->0.end_pos == line_point(start, end, first + 1),
    {
        let path = Self::move_path(start, end);
        Self::lemma_move_path(start, end);
        self.lemma_first_block(path, 0);
        let first = self.first_block(path, 0);
        assert(path[k] == line_point(start, end, k));
        assert(path[k + 1] == line_point(start, end, k + 1));
        if first > k {
            assert(self.move_blocked(path[k], path[k + 1]) is None);
        }
        assert(path[first] == line_point(start, end, first));
        assert(path[first + 1] == line_point(start, end, first + 1));
        self.lemma_move_blocked(path[first], path[first + 1]);
        first
    }

    /// The wall on the left edge of `pos`, for a cell of the grid.
    fn wall_left_of(&self, pos: Pos) -> (wall: Option<Wall>)
        requires
            self.wf(),
        ensures
            wall == self.left_wall_at(pos.x as int, pos.y as int),
    {
        if self.is_within_bounds(pos) {
            Some(self.get_tile(pos).left_wall)
        } else {
            None
        }
    }

    /// The wall on the bottom edge of `pos`, for a cell of the grid.
    fn wall_below(&self, pos: Pos) -> (wall: Option<Wall>)
        requires
            self.wf(),
        ensures
            wall == self.bottom_wall_at(pos.x as int, pos.y as int),
    {
        if self.is_within_bounds(pos) {
            Some(self.get_tile(pos).bottom_wall)
        } else {
            None
        }
    }

    pub fn blocked_left(&self, pos: Pos) -> (blocked: bool)
        requires
            self.wf(),
        ensures
            blocked == self.left_blocked_at(pos.x as int, pos.y as int),
    {
        if !self.is_within_bounds(pos) {
            return true;
        }
        let offset = Pos::new(pos.x - 1, pos.y);
        if !self.is_within_bounds(offset) {
            return true;
        }
        let blocking_wall = self.get_tile(pos).left_wall != Wall::Empty;
        let blocking_tile = self.get_tile(offset).blocked;
        blocking_wall || blocking_tile
    }

    pub fn blocked_right(&self, pos: Pos) -> (blocked: bool)
        requires
            self.wf(),
        ensures
            blocked == self.right_blocked_at(pos.x as int, pos.y as int),
    {
        if !self.is_within_bounds(pos) {
            return true;
        }
        let offset = Pos::new(pos.x + 1, pos.y);
        if !self.is_within_bounds(offset) {
            return true;
        }
        let blocking_wall = self.get_tile(offset).left_wall != Wall::Empty;
        let blocking_tile = self.get_tile(offset).blocked;
        blocking_wall || blocking_tile
    }

    pub fn blocked_down(&self, pos: Pos) -> (blocked: bool)
        requires
            self.wf(),
        ensures
            blocked == self.down_blocked_at(pos.x as int, pos.y as int),
    {
        if !self.is_within_bounds(pos) {
            return true;
        }
        let offset = Pos::new(pos.x, pos.y + 1);
        if !self.is_within_bounds(offset) {
            return true;
        }
        let blocking_wall = self.get_tile(pos).bottom_wall != Wall::Empty;
        let blocking_tile = self.get_tile(offset).blocked;
        blocking_wall || blocking_tile
    }

    pub fn blocked_up(&self, pos: Pos) -> (blocked: bool)
        requires
            self.wf(),
        ensures
            blocked == self.up_blocked_at(pos.x as int, pos.y as int),
    {
        if !self.is_within_bounds(pos) {
            return true;
        }
        let offset = Pos::new(pos.x, pos.y - 1);
        if !self.is_within_bounds(offset) {
            return true;
        }
        let blocking_wall = self.get_tile(offset).bottom_wall != Wall::Empty;
        let blocking_tile = self.get_tile(offset).blocked;
        blocking_wall || blocking_tile
    }

    /// Whether moving between two neighbouring cells is obstructed, and by
    /// what.
    pub fn move_blocked_by_wall(&self, pos: Pos, next_pos: Pos) -> (result: Option<Blocked>)
        requires
            self.wf(),
            chebyshev(pos, next_pos) == 1,
        ensures
            result == self.move_blocked(pos, next_pos),
            result is None <==> self.passable(pos, next_pos),
    {
        let dir = Direction::from_dxy(
            if next_pos.x > pos.x { 1 } else if next_pos.x < pos.x { -1 } else { 0 },
            if next_pos.y > pos.y { 1 } else if next_pos.y < pos.y { -1 } else { 0 },
        );
        let mut blocked = Blocked::new(pos, next_pos, dir, false, Wall::Empty);

        // a step off the grid is blocked, and no edge can be looked at
        if !self.is_within_bounds(next_pos) {
            blocked.blocked_tile = true;
            return Some(blocked);
        }
        let x = pos.x;
        let y = pos.y;

        // later checks may still refine the wall that is recorded
        let mut scan = EdgeScan { found: false, wall: Wall::Empty };
        if self.get_tile(next_pos).blocked {
            blocked.blocked_tile = true;
            scan.found = true;
        }
        // used for diagonal movement checks
        let x_moved = Pos::new(next_pos.x, y);
        let y_moved = Pos::new(x, next_pos.y);

        match dir {
            Direction::Right | Direction::Left => {
                let left_wall_pos = if next_pos.x > x { next_pos } else { pos };
                let wall = self.wall_left_of(left_wall_pos);
                scan = scan.note(wall.is_some() && wall != Some(Wall::Empty), wall);
            },
            Direction::Up | Direction::Down => {
                let bottom_wall_pos = if next_pos.y > y { pos } else { next_pos };
                let wall = self.wall_below(bottom_wall_pos);
                scan = scan.note(wall.is_some() && wall != Some(Wall::Empty), wall);
            },
            Direction::DownRight => {
                scan = scan.note(
                    self.blocked_right(pos) && self.blocked_down(pos),
                    self.wall_below(pos),
                );
                scan = scan.note(
                    self.blocked_right(y_moved) && self.blocked_down(x_moved),
                    self.wall_below(Pos::new(x - 1, y + 1)),
                );
                scan = scan.note(
                    self.blocked_right(pos) && self.blocked_right(y_moved),
                    self.wall_left_of(x_moved),
                );
                scan = scan.note(
                    self.blocked_down(pos) && self.blocked_down(x_moved),
                    self.wall_below(pos),
                );
            },
            Direction::UpRight => {
                scan = scan.note(
                    self.blocked_up(pos) && self.blocked_right(pos),
                    self.wall_below(y_moved),
                );
                scan = scan.note(
                    self.blocked_up(x_moved) && self.blocked_right(y_moved),
                    self.wall_below(next_pos),
                );
                scan = scan.note(
                    self.blocked_right(pos) && self.blocked_right(y_moved),
                    self.wall_left_of(x_moved),
                );
                scan = scan.note(
                    self.blocked_up(pos) && self.blocked_up(x_moved),
                    self.wall_below(y_moved),
                );
            },
            Direction::DownLeft => {
                scan = scan.note(
                    self.blocked_left(pos) && self.blocked_down(pos),
                    self.wall_left_of(pos),
                );
                scan = scan.note(
                    self.blocked_left(y_moved) && self.blocked_down(x_moved),
                    self.wall_left_of(Pos::new(x + 1, y - 1)),
                );
                scan = scan.note(
                    self.blocked_left(pos) && self.blocked_left(y_moved),
                    self.wall_left_of(pos),
                );
                scan = scan.note(
                    self.blocked_down(pos) && self.blocked_down(x_moved),
                    self.wall_below(pos),
                );
            },
            Direction::UpLeft => {
                scan = scan.note(
                    self.blocked_left(y_moved) && self.blocked_up(x_moved),
                    self.wall_left_of(next_pos),
                );
                scan = scan.note(
                    self.blocked_left(pos) && self.blocked_up(pos),
                    self.wall_left_of(pos),
                );
                scan = scan.note(
                    self.blocked_left(pos) && self.blocked_left(y_moved),
                    self.wall_left_of(pos),
                );
                scan = scan.note(
                    self.blocked_up(pos) && self.blocked_up(x_moved),
                    self.wall_below(y_moved),
                );
            },
            Direction::Center => {},
        }
        blocked.wall_type = scan.wall;
        if scan.found {
            Some(blocked)
        } else {
            None
        }
    }
    /// Whether a walk along `path`, from each cell to the next, is
    /// obstructed, and by what it is first.
    pub fn path_blocked_by_wall(&self, path: Vec<Pos>) -> (result: Option<Blocked>)
        requires
            self.wf(),
            forall|i: int| 0 <= i < path@.len() - 1 ==> chebyshev(#[trigger] path@[i], path@[i + 1]) == 1,
        ensures
            result == self.path_blocked(path@),
    {
        let steps = path.len();
        if steps < 2 {
            return None;
        }
        let mut i: usize = 0;
        while i < steps - 1
            invariant
                self.wf(),
                steps == path@.len(),
                0 <= i <= steps - 1,
                forall|j: int|
                    0 <= j < path@.len() - 1 ==> chebyshev(#[trigger] path@[j], path@[j + 1]) == 1,
                self.first_block(path@, 0) == self.first_block(path@, i as int),
            decreases path@.len() - i,
        {
            let blocked = self.move_blocked_by_wall(path[i], path[i + 1]);
            if blocked.is_some() {
                return blocked;
            }
            i = i + 1;
        }
        None
    }

    /// Whether the straight move from `start_pos` to `end_pos` is
    /// obstructed, and by what it is first.
    pub fn is_blocked_between(&self, start_pos: Pos, end_pos: Pos) -> (result: Option<Blocked>)
        requires
            self.wf(),
        ensures
            result == self.line_blocked(start_pos, end_pos),
    {
        if start_pos == end_pos {
            return None;
        }
        let steps = line(start_pos, end_pos);
        let mut positions: Vec<Pos> = Vec::new();
        positions.push(start_pos);
        let mut i: usize = 0;
        while i < steps.len()
            invariant
                0 <= i <= steps@.len(),
                positions@ == seq![start_pos] + steps@.subrange(0, i as int),
            decreases steps@.len() - i,
        {
            positions.push(steps[i]);
            proof {
                assert(positions@ =~= seq![start_pos] + steps@.subrange(0, i + 1));
            }
            i = i + 1;
        }
        proof {
            assert(steps@.subrange(0, i as int) =~= steps@);
            Self::lemma_move_path(start_pos, end_pos);
        }
        self.path_blocked_by_wall(positions)
    }

    /// Whether the straight move from `start_pos` by `(dx, dy)` is
    /// obstructed, and by what it is first.
    pub fn is_blocked_by_wall(&self, start_pos: Pos, dx: i32, dy: i32) -> (result: Option<Blocked>)
        requires
            self.wf(),
            fits(start_pos.x + dx, start_pos.y + dy),
        ensures
            result == self.line_blocked(start_pos, cell(start_pos.x + dx, start_pos.y + dy)),
    {
        if dx == 0 && dy == 0 {
            return None;
        }
        let end = Pos::new(start_pos.x + dx, start_pos.y + dy);
        self.is_blocked_between(start_pos, end)
    }
}

/// Whether a wall stands on an edge: the edge belongs to a cell of the grid
/// and is not empty.
pub open spec fn wall_stands(wall: Option<Wall>) -> bool {
    wall is Some && wall != Some(Wall::Empty)
}

/// What obstructs a step depends on the tiles alone: on two maps with the
/// same tiles every step is obstructed alike. So a wall that is placed and
/// then replaced by what stood there before leaves every step as it was.
pub proof fn lemma_same_tiles_same_steps(one: &TileMap, other: &TileMap, pos: Pos, next: Pos)
    requires
        one.same_tiles(other),
    ensures
        one.move_blocked(pos, next) == other.move_blocked(pos, next),
{
    let x = pos.x as int;
    let y = pos.y as int;
    assert forall|i: int, j: int| one.in_bounds_at(i, j) == other.in_bounds_at(i, j) by {}
    assert forall|i: int, j: int| one.left_wall_at(i, j) == other.left_wall_at(i, j) by {}
    assert forall|i: int, j: int| one.bottom_wall_at(i, j) == other.bottom_wall_at(i, j) by {}
    assert forall|i: int, j: int| one.left_blocked_at(i, j) == other.left_blocked_at(i, j) by {}
    assert forall|i: int, j: int| one.right_blocked_at(i, j) == other.right_blocked_at(i, j) by {}
    assert forall|i: int, j: int| one.down_blocked_at(i, j) == other.down_blocked_at(i, j) by {}
    assert forall|i: int, j: int| one.up_blocked_at(i, j) == other.up_blocked_at(i, j) by {}
}

/// A wall placed on the left edge of the cell `at` obstructs the two steps
/// across that edge, which then record that wall, and leaves every other
/// axis-aligned step as it was.
pub proof fn lemma_wall_on_left_edge(
    before: &TileMap,
    after: &TileMap,
    at: Pos,
    wall: Wall,
    pos: Pos,
    next: Pos,
)
    requires
        before.in_bounds(at),
        wall != Wall::Empty,
        after.is_update_of(before, at, (Tile { left_wall: wall, ..before.cell(at) })),
        chebyshev(pos, next) == 1,
        pos.x == next.x || pos.y == next.y,
    ensures
        ({
            let crosses = pos.y == at.y && next.y == at.y && ((pos.x == at.x && next.x == at.x - 1) || (
            pos.x == at.x - 1 && next.x == at.x));
            if crosses {
                &&& after.move_blocked(pos, next) is Some
                &&& after.in_bounds(next) ==> after.move_blocked(pos, next)->0.wall_type == wall
            } else {
                after.move_blocked(pos, next) == before.move_blocked(pos, next)
            }
        }),
{
    assert forall|i: int, j: int| before.in_bounds_at(i, j) == after.in_bounds_at(i, j) by {}
    assert forall|i: int, j: int| before.bottom_wall_at(i, j) == after.bottom_wall_at(i, j) by {}
    assert forall|i: int, j: int| !(i == at.x && j == at.y) implies before.left_wall_at(i, j)
        == after.left_wall_at(i, j) by {}
    assert forall|i: int, j: int| before.in_bounds_at(i, j) implies before.cell_at(i, j).blocked
        == after.cell_at(i, j).blocked by {}
}

/// A wall placed on the bottom edge of the cell `at` obstructs the two steps
/// across that edge, which then record that wall, and leaves every other
/// axis-aligned step as it was.
pub proof fn lemma_wall_on_bottom_edge(
    before: &TileMap,
    after: &TileMap,
    at: Pos,
    wall: Wall,
    pos: Pos,
    next: Pos,
)
    requires
        before.in_bounds(at),
        wall != Wall::Empty,
        after.is_update_of(before, at, (Tile { bottom_wall: wall, ..before.cell(at) })),
        chebyshev(pos, next) == 1,
        pos.x == next.x || pos.y == next.y,
    ensures
        ({
            let crosses = pos.x == at.x && next.x == at.x && ((pos.y == at.y && next.y == at.y + 1) || (
            pos.y == at.y + 1 && next.y == at.y));
            if crosses {
                &&& after.move_blocked(pos, next) is Some
                &&& after.in_bounds(next) ==> after.move_blocked(pos, next)->0.wall_type == wall
            } else {
                after.move_blocked(pos, next) == before.move_blocked(pos, next)
            }
        }),
{
    assert forall|i: int, j: int| before.in_bounds_at(i, j) == after.in_bounds_at(i, j) by {}
    assert forall|i: int, j: int| before.left_wall_at(i, j) == after.left_wall_at(i, j) by {}
    assert forall|i: int, j: int| !(i == at.x && j == at.y) implies before.bottom_wall_at(i, j)
        == after.bottom_wall_at(i, j) by {}
    assert forall|i: int, j: int| before.in_bounds_at(i, j) implies before.cell_at(i, j).blocked
        == after.cell_at(i, j).blocked by {}
}

} // verus!
