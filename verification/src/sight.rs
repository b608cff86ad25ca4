//! The field of view by sight lines: walls are looked over at a cost, and
//! no cell is seen all by itself.

use vstd::prelude::*;
use crate::types::{Pos, advance, chebyshev};
use crate::movement::Direction;
use crate::map::{TileMap, Wall, Blocked};
use crate::line::{line, line_point, lemma_line_point};
use crate::utils::distance;

verus! {

/// Whether sight passes what obstructs a step: a short wall on an edge is
/// seen over by an observer who does not crouch. A tall wall and an occupied
/// tile stop sight.
pub open spec fn seen_over(blocked: Blocked, crouching: bool) -> bool {
    !crouching && !blocked.blocked_tile && blocked.wall_type == Wall::ShortWall
}

/// The cell before `end` on the line from `start`.
pub open spec fn next_to_last(start: Pos, end: Pos) -> Pos {
    line_point(start, end, chebyshev(start, end) - 1)
}

/// Whether a target in the direction `(dx, dy)` lies in the half of the
/// plane that an observer who faces `dir` looks at. Facing nowhere, the
/// observer looks at nothing.
pub open spec fn faces(dir: Direction, dx: int, dy: int) -> bool {
    match dir {
        Direction::Up => dy <= 0,
        Direction::Down => dy >= 0,
        Direction::Left => dx <= 0,
        Direction::Right => dx >= 0,
        Direction::DownLeft => dx - dy < 0,
        Direction::DownRight => dx + dy >= 0,
        Direction::UpLeft => dx + dy <= 0,
        Direction::UpRight => dx - dy > 0,
        Direction::Center => false,
    }
}

impl TileMap {
    /// The walk of a sight line from `cur` towards `end`, with `cost` spent
    /// so far: whether it reaches `end`, the last cell it reaches, and what
    /// it has spent. The walk follows the rasterized line to the first
    /// obstructed step. Where sight passes the obstruction, the walk goes on
    /// from the cell behind it, along the line from there, and pays the
    /// distance covered and 1 for looking over; any other obstruction ends
    /// it in the cell before. The free stretch to `end` costs nothing.
    pub open spec fn sight_walk(&self, cur: Pos, end: Pos, cost: int, crouching: bool) -> (
        bool,
        Pos,
        int,
    )
        decreases chebyshev(cur, end),
        via Self::sight_walk_decreases
    {
        match self.line_blocked(cur, end) {
            None => (true, end, cost),
            Some(blocked) => if seen_over(blocked, crouching) {
                self.sight_walk(
                    blocked.end_pos,
                    end,
                    cost + chebyshev(cur, blocked.end_pos) + 1,
                    crouching,
                )
            } else {
                (false, blocked.start_pos, cost)
            },
        }
    }

    #[via_fn]
    proof fn sight_walk_decreases(&self, cur: Pos, end: Pos, cost: int, crouching: bool) {
        if self.line_blocked(cur, end) is Some {
            let k = self.lemma_line_blocked(cur, end);
            lemma_line_point(cur, end, k + 1);
        }
    }

    /// Whether the sight line from `start` reaches `end` within `radius`.
    pub open spec fn walk_sees(&self, start: Pos, end: Pos, radius: int, crouching: bool) -> bool {
        let walk = self.sight_walk(start, end, 0, crouching);
        walk.0 && walk.2 <= radius
    }

    /// Whether `end` can be seen from `start` along the direct lines: the
    /// sight line reaches it; or, where that falls short, the sight line
    /// back reaches `start`, or `end` blocks sight itself and the sight line
    /// stops right before it, so that its near face is seen.
    pub open spec fn sight_clear(&self, start: Pos, end: Pos, radius: int) -> bool {
        ||| self.walk_sees(start, end, radius, false)
        ||| self.walk_sees(end, start, radius, false)
        ||| chebyshev(self.sight_walk(start, end, 0, false).1, end) == 1 && self.cell(
            end,
        ).block_sight
    }

    /// Whether the line from `start` to the cell before `end` departs from
    /// the tail of the line to `end`: its first cell is not `end`.
    pub open spec fn line_departs(start: Pos, end: Pos) -> bool {
        line_point(start, next_to_last(start, end), 1) != end
    }

    /// Whether an observer at `start` sees `end` within `radius`. A cell
    /// sees itself. Otherwise both cells are on the grid, closer than
    /// `radius`, and in clear sight; and for a target three or more steps
    /// away the cell before it on the line is seen as well, where the line
    /// to that cell departs from the direct one, and so from `end` towards
    /// `start`.
    pub open spec fn in_fov(&self, start: Pos, end: Pos, radius: int) -> bool
        decreases chebyshev(start, end),
        via Self::in_fov_decreases
    {
        if start == end {
            true
        } else if !self.in_bounds(start) || !self.in_bounds(end) {
            false
        } else if chebyshev(start, end) >= radius {
            false
        } else if !self.sight_clear(start, end, radius) {
            false
        } else if chebyshev(start, end) < 3 {
            true
        } else {
            &&& Self::line_departs(start, end) ==> self.in_fov(
                start,
                next_to_last(start, end),
                radius,
            )
            &&& Self::line_departs(end, start) ==> self.in_fov(end, next_to_last(end, start), radius)
        }
    }

    #[via_fn]
    proof fn in_fov_decreases(&self, start: Pos, end: Pos, radius: int) {
        if chebyshev(start, end) >= 3 {
            lemma_line_point(start, end, chebyshev(start, end) - 1);
            lemma_line_point(end, start, chebyshev(end, start) - 1);
        }
    }

    /// Whether an observer at `start` who faces `dir` sees `end`.
    pub open spec fn in_fov_facing(&self, start: Pos, end: Pos, radius: int, dir: Direction) -> bool {
        start == end || (self.in_fov(start, end, radius) && faces(
            dir,
            end.x - start.x,
            end.y - start.y,
        ))
    }

    /// Walks the sight line from `start` towards `end`. Says whether it
    /// reaches `end` within `max_dist`, and the last cell it reaches.
    fn fov_line(&self, start: Pos, end: Pos, max_dist: i32, crouching: bool) -> (walk: (bool, Pos))
        requires
            self.wf(),
            self.in_bounds(start),
            self.in_bounds(end),
        ensures
            walk.0 == self.walk_sees(start, end, max_dist as int, crouching),
            walk.1 == self.sight_walk(start, end, 0, crouching).1,
            chebyshev(walk.1, end) <= chebyshev(start, end),
    {
        let mut current_pos = start;
        let mut effective_distance: i64 = 0;
        loop
            invariant
                self.wf(),
                self.in_bounds(current_pos),
                self.in_bounds(end),
                0 <= effective_distance <= 2 * (chebyshev(start, end) - chebyshev(current_pos, end)),
                chebyshev(current_pos, end) <= chebyshev(start, end),
                self.sight_walk(start, end, 0, crouching) == self.sight_walk(
                    current_pos,
                    end,
                    effective_distance as int,
                    crouching,
                ),
            decreases chebyshev(current_pos, end),
        {
            let blocked = self.is_blocked_between(current_pos, end);
            match blocked {
                None => {
                    return (effective_distance <= max_dist as i64, end);
                },
                Some(blocked) => {
                    proof {
                        let k = self.lemma_line_blocked(current_pos, end);
                        lemma_line_point(current_pos, end, k);
                        lemma_line_point(current_pos, end, k + 1);
                        self.lemma_move_blocked(blocked.start_pos, blocked.end_pos);
                    }
                    if !crouching && !blocked.blocked_tile && blocked.wall_type == Wall::ShortWall {
                        let new_pos = blocked.end_pos;
                        effective_distance = effective_distance + distance(current_pos, new_pos) as i64;
                        // looking over a short wall costs one more
                        effective_distance = effective_distance + 1;
                        current_pos = new_pos;
                    } else {
                        // a tile, a tall wall, or a short wall seen from a crouch
                        return (false, blocked.start_pos);
                    }
                },
            }
        }
    }

    /// Whether the sight of `end_pos` from `start_pos` must be given up
    /// because the cell before it on the line is not seen.
    fn needs_culling(&mut self, start_pos: Pos, end_pos: Pos, radius: i32) -> (cull: bool)
        requires
            old(self).wf(),
            old(self).in_bounds(start_pos),
            old(self).in_bounds(end_pos),
        ensures
            *final(self) == *old(self),
            cull == (chebyshev(start_pos, end_pos) >= 3 && Self::line_departs(start_pos, end_pos)
                && !old(self).in_fov(start_pos, next_to_last(start_pos, end_pos), radius as int)),
        decreases chebyshev(start_pos, end_pos), 0int,
    {
        let mut cull = false;
        // where the line up to the cell before the target is another line,
        // that cell has to be seen too: no cell is seen all by itself
        let fov_line = line(start_pos, end_pos);
        let len = fov_line.len();
        if len >= 3 {
            let next_to_last = fov_line[len - 2];
            let next_to_line = line(start_pos, next_to_last);
            proof {
                lemma_line_point(start_pos, end_pos, len - 1);
                lemma_line_point(start_pos, end_pos, len as int);
            }
            if next_to_line[0] != fov_line[len - 1] {
                cull = !self.is_in_fov_lines(start_pos, next_to_last, radius);
            }
        }
        cull
    }

    /// Whether an observer at `start_pos` sees `end_pos` within `radius`, by
    /// walking the sight lines between the two.
    pub fn is_in_fov_lines(&mut self, start_pos: Pos, end_pos: Pos, radius: i32) -> (visible: bool)
        requires
            old(self).wf(),
        ensures
            *final(self) == *old(self),
            visible == old(self).in_fov(start_pos, end_pos, radius as int),
            start_pos == end_pos ==> visible,
            start_pos != end_pos && chebyshev(start_pos, end_pos) >= radius ==> !visible,
        decreases chebyshev(start_pos, end_pos), 1int,
    {
        if start_pos == end_pos {
            return true;
        }
        if !self.is_within_bounds(start_pos) || !self.is_within_bounds(end_pos) {
            return false;
        }
        let within_radius = distance(start_pos, end_pos) < radius;
        if !within_radius {
            return false;
        }
        let mut is_in_fov = self.sees_along_lines(start_pos, end_pos, radius);
        if is_in_fov {
            if self.needs_culling(start_pos, end_pos, radius) {
                is_in_fov = false;
            } else {
                is_in_fov = !self.needs_culling(end_pos, start_pos, radius);
            }
        }
        is_in_fov
    }

    /// Whether the sight lines between the two cells show `end_pos` to an
    /// observer at `start_pos`.
    fn sees_along_lines(&self, start_pos: Pos, end_pos: Pos, radius: i32) -> (clear: bool)
        requires
            self.wf(),
            self.in_bounds(start_pos),
            self.in_bounds(end_pos),
        ensures
            clear == self.sight_clear(start_pos, end_pos, radius as int),
    {
        let forward = self.fov_line(start_pos, end_pos, radius, false);
        let visible_back = self.fov_line(end_pos, start_pos, radius, false).0;
        if forward.0 {
            true
        } else {
            let at_end = distance(forward.1, end_pos) == 1;
            // seen where the line back is free, or where the target is the
            // face of a tile that blocks sight, right behind the last cell
            visible_back || (at_end && self.get_tile(end_pos).block_sight)
        }
    }

    /// Whether an observer at `start_pos` sees `end_pos` within `radius`.
    pub fn is_in_fov(&mut self, start_pos: Pos, end_pos: Pos, radius: i32) -> (visible: bool)
        requires
            old(self).wf(),
        ensures
            *final(self) == *old(self),
            visible == old(self).in_fov(start_pos, end_pos, radius as int),
            start_pos == end_pos ==> visible,
            start_pos != end_pos && chebyshev(start_pos, end_pos) >= radius ==> !visible,
    {
        self.is_in_fov_lines(start_pos, end_pos, radius)
    }

    /// Whether an observer at `start_pos` who faces `dir` sees `end_pos`
    /// within `radius`.
    pub fn is_in_fov_direction(
        &mut self,
        start_pos: Pos,
        end_pos: Pos,
        radius: i32,
        dir: Direction,
    ) -> (visible: bool)
        requires
            old(self).wf(),
        ensures
            *final(self) == *old(self),
            visible == old(self).in_fov_facing(start_pos, end_pos, radius as int, dir),
    {
        if start_pos == end_pos {
            return true;
        } else if self.is_in_fov(start_pos, end_pos, radius) {
            let dx: i64 = end_pos.x as i64 - start_pos.x as i64;
            let dy: i64 = end_pos.y as i64 - start_pos.y as i64;
            match dir {
                Direction::Up => {
                    if dy <= 0 {
                        return true;
                    }
                },
                Direction::Down => {
                    if dy >= 0 {
                        return true;
                    }
                },
                Direction::Left => {
                    if dx <= 0 {
                        return true;
                    }
                },
                Direction::Right => {
                    if dx >= 0 {
                        return true;
                    }
                },
                Direction::DownLeft => {
                    if dx - dy < 0 {
                        return true;
                    }
                },
                Direction::DownRight => {
                    if dx + dy >= 0 {
                        return true;
                    }
                },
                Direction::UpLeft => {
                    if dx + dy <= 0 {
                        return true;
                    }
                },
                Direction::UpRight => {
                    if dx - dy > 0 {
                        return true;
                    }
                },
                Direction::Center => {},
            }
        }
        false
    }

    /// A sight walk never gets cheaper on its way.
    pub proof fn lemma_walk_cost_grows(&self, cur: Pos, end: Pos, cost: int, crouching: bool)
        ensures
            self.sight_walk(cur, end, cost, crouching).2 >= cost,
        decreases chebyshev(cur, end),
    {
        if self.line_blocked(cur, end) is Some {
            let blocked = self.line_blocked(cur, end)->0;
            if seen_over(blocked, crouching) {
                let k = self.lemma_line_blocked(cur, end);
                lemma_line_point(cur, end, k + 1);
                self.lemma_walk_cost_grows(
                    blocked.end_pos,
                    end,
                    cost + chebyshev(cur, blocked.end_pos) + 1,
                    crouching,
                );
            }
        }
    }

    /// Looking over a short wall costs the way up to the cell behind it and
    /// 1 more: within a smaller radius the sight line from `start` does not
    /// reach `end`, and `end` is not seen.
    pub proof fn lemma_short_wall_costs(&self, start: Pos, end: Pos, radius: int)
        requires
            self.line_blocked(start, end) is Some,
            seen_over(self.line_blocked(start, end)->0, false),
            radius < chebyshev(start, self.line_blocked(start, end)->0.end_pos) + 1,
        ensures
            !self.walk_sees(start, end, radius, false),
            !self.in_fov(start, end, radius),
    {
        let blocked = self.line_blocked(start, end)->0;
        self.lemma_walk_cost_grows(
            blocked.end_pos,
            end,
            chebyshev(start, blocked.end_pos) + 1,
            false,
        );
        let k = self.lemma_line_blocked(start, end);
        lemma_line_point(start, end, k + 1);
    }

    /// What is not seen over hides what lies behind it at any radius: where
    /// a tall wall or an occupied tile is the first obstruction on the line
    /// from `start` to `end` and on the line back, and `end` does not block
    /// sight itself, `end` is not seen.
    pub proof fn lemma_tall_wall_hides(&self, start: Pos, end: Pos, radius: int)
        requires
            self.line_blocked(start, end) is Some,
            !seen_over(self.line_blocked(start, end)->0, false),
            self.line_blocked(end, start) is Some,
            !seen_over(self.line_blocked(end, start)->0, false),
            !self.cell(end).block_sight,
        ensures
            !self.in_fov(start, end, radius),
    {
    }

    /// Whether a tall wall stands on the edge that the `k`-th step of the
    /// line from `start` to `end` crosses, for a line in one row or one
    /// column: the step from the `k`-th cell of the line to the next.
    pub open spec fn tall_wall_at_step(&self, start: Pos, end: Pos, k: int) -> bool {
        let from = line_point(start, end, k);
        self.crossed_wall(
            from.x as int,
            from.y as int,
            Direction::spec_from_dxy(end.x - start.x, end.y - start.y),
        ) == Some(Wall::TallWall)
    }

    /// On a line in one row or one column each cell lies that many cells
    /// from the start towards the end, and the line from any of its cells
    /// on is the rest of the line.
    pub proof fn lemma_straight_line(start: Pos, end: Pos, k: int, more: int)
        requires
            start.x == end.x || start.y == end.y,
            0 <= k,
            0 <= more,
            k + more <= chebyshev(start, end),
        ensures
            line_point(start, end, k).x == advance(start.x as int, end.x as int, k),
            line_point(start, end, k).y == advance(start.y as int, end.y as int, k),
            line_point(line_point(start, end, k), end, more) == line_point(start, end, k + more),
            k < chebyshev(start, end) ==> Direction::spec_from_dxy(
                end.x - line_point(start, end, k).x,
                end.y - line_point(start, end, k).y,
            ) == Direction::spec_from_dxy(end.x - start.x, end.y - start.y),
    {
        lemma_line_point(start, end, k);
        lemma_line_point(start, end, k + more);
        let from = line_point(start, end, k);
        lemma_line_point(from, end, more);
    }

    /// A step across an edge with a tall wall is obstructed, and what
    /// obstructs it is not seen over.
    pub proof fn lemma_tall_wall_stops_step(&self, start: Pos, end: Pos, k: int, crouching: bool)
        requires
            start.x == end.x || start.y == end.y,
            0 <= k < chebyshev(start, end),
            self.tall_wall_at_step(start, end, k),
        ensures
            self.move_blocked(line_point(start, end, k), line_point(start, end, k + 1)) is Some,
            !seen_over(
                self.move_blocked(line_point(start, end, k), line_point(start, end, k + 1))->0,
                crouching,
            ),
    {
        Self::lemma_straight_line(start, end, k, 1);
        Self::lemma_straight_line(start, end, k + 1, 0);
    }

    /// A sight line along a row or a column does not get past a tall wall
    /// on an edge that it crosses, whatever it has looked over before.
    pub proof fn lemma_walk_stops_at_tall_wall(
        &self,
        cur: Pos,
        end: Pos,
        k: int,
        cost: int,
        crouching: bool,
    )
        requires
            cur.x == end.x || cur.y == end.y,
            0 <= k < chebyshev(cur, end),
            self.tall_wall_at_step(cur, end, k),
        ensures
            !self.sight_walk(cur, end, cost, crouching).0,
        decreases k,
    {
        self.lemma_tall_wall_stops_step(cur, end, k, crouching);
        let first = self.lemma_blocked_step_blocks_line(cur, end, k);
        let blocked = self.line_blocked(cur, end)->0;
        if first < k && seen_over(blocked, crouching) {
            let next = line_point(cur, end, first + 1);
            Self::lemma_straight_line(cur, end, first + 1, k - first - 1);
            lemma_line_point(cur, end, first + 1);
            assert(blocked.end_pos == next);
            assert(self.tall_wall_at_step(next, end, k - first - 1));
            self.lemma_walk_stops_at_tall_wall(
                next,
                end,
                k - first - 1,
                cost + chebyshev(cur, next) + 1,
                crouching,
            );
        }
    }

    /// A tall wall always hides what lies behind it: where `end` lies in
    /// the row or the column of `start`, a tall wall stands on an edge that
    /// the line between them crosses, and `end` does not block sight itself,
    /// `end` is not seen at any radius, whatever stands before the wall.
    pub proof fn lemma_tall_wall_hides_along_axis(&self, start: Pos, end: Pos, k: int, radius: int)
        requires
            self.in_bounds(start),
            self.in_bounds(end),
            start.x == end.x || start.y == end.y,
            0 <= k < chebyshev(start, end),
            self.tall_wall_at_step(start, end, k),
            !self.cell(end).block_sight,
        ensures
            !self.in_fov(start, end, radius),
    {
        let n = chebyshev(start, end);
        self.lemma_walk_stops_at_tall_wall(start, end, k, 0, false);
        lemma_line_point(start, end, k);
        lemma_line_point(start, end, k + 1);
        lemma_line_point(end, start, n - 1 - k);
        assert(line_point(end, start, n - 1 - k) == line_point(start, end, k + 1));
        assert(self.tall_wall_at_step(end, start, n - 1 - k));
        self.lemma_walk_stops_at_tall_wall(end, start, n - 1 - k, 0, false);
    }
}

} // verus!
