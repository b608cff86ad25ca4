//! Distances, offsets and other small steps on the grid.

use vstd::prelude::*;
use crate::types::{Pos, advance, cell, chebyshev, fits, sign_of};
use crate::line::{line_seq, line_point, lemma_line_point};
pub use crate::line::line;
use crate::movement::{MoveMode, Reach};

verus! {

/// The straight-line distance between two cells: the number of steps of the
/// rasterized line from one to the other.
pub fn distance(pos1: Pos, pos2: Pos) -> (d: i32)
    requires
        chebyshev(pos1, pos2) <= i32::MAX,
    ensures
        d == chebyshev(pos1, pos2),
        d == line_seq(pos1, pos2).len(),
{
    let dx: i64 = pos1.x as i64 - pos2.x as i64;
    let dy: i64 = pos1.y as i64 - pos2.y as i64;
    let run_x: i64 = if dx < 0 { -dx } else { dx };
    let run_y: i64 = if dy < 0 { -dy } else { dy };
    if run_x > run_y {
        run_x as i32
    } else {
        run_y as i32
    }
}

/// The straight-line distance between two cells, however far apart.
pub fn steps_apart(pos1: Pos, pos2: Pos) -> (steps: usize)
    ensures
        steps == chebyshev(pos1, pos2),
{
    let dx: i64 = pos1.x as i64 - pos2.x as i64;
    let dy: i64 = pos1.y as i64 - pos2.y as i64;
    let run_x: i64 = if dx < 0 { -dx } else { dx };
    let run_y: i64 = if dy < 0 { -dy } else { dy };
    if run_x > run_y {
        run_x as usize
    } else {
        run_y as usize
    }
}

/// Whether `cells` holds `pos`.
pub fn holds_cell(cells: &Vec<Pos>, pos: Pos) -> (found: bool)
    ensures
        found == cells@.contains(pos),
{
    let mut i: usize = 0;
    while i < cells.len()
        invariant
            0 <= i <= cells@.len(),
            forall|j: int| 0 <= j < i ==> cells@[j] != pos,
        decreases cells@.len() - i,
    {
        if cells[i] == pos {
            return true;
        }
        i = i + 1;
    }
    false
}

/// The straight-line distance of `pos` from the origin.
pub fn pos_mag(pos: Pos) -> (d: i32)
    requires
        chebyshev(Pos { x: 0, y: 0 }, pos) <= i32::MAX,
    ensures
        d == chebyshev(Pos { x: 0, y: 0 }, pos),
{
    distance(Pos::new(0, 0), pos)
}

/// The sign of `value`: -1, 0 or 1.
pub fn signedness(value: i32) -> (sign: i32)
    ensures
        sign == sign_of(value as int),
{
    if value == 0 {
        0
    } else if value > 0 {
        1
    } else {
        -1
    }
}

/// The neighbour of `start` that lies towards `end`; `start` itself when the
/// two are the same cell.
pub fn in_direction_of(start: Pos, end: Pos) -> (next: Pos)
    ensures
        next.x == advance(start.x as int, end.x as int, 1),
        next.y == advance(start.y as int, end.y as int, 1),
{
    let x = if end.x > start.x {
        start.x + 1
    } else if end.x < start.x {
        start.x - 1
    } else {
        start.x
    };
    let y = if end.y > start.y {
        start.y + 1
    } else if end.y < start.y {
        start.y - 1
    } else {
        start.y
    };
    Pos::new(x, y)
}

/// Whether `delta` moves along exactly one axis.
pub fn is_ordinal(delta: Pos) -> (ordinal: bool)
    ensures
        ordinal == ((delta.x == 0 && delta.y != 0) || (delta.y == 0 && delta.x != 0)),
{
    (delta.x == 0 && delta.y != 0) || (delta.y == 0 && delta.x != 0)
}

pub fn add_pos(pos1: Pos, pos2: Pos) -> (sum: Pos)
    requires
        fits(pos1.x + pos2.x, pos1.y + pos2.y),
    ensures
        sum == cell(pos1.x + pos2.x, pos1.y + pos2.y),
{
    Pos::new(pos1.x + pos2.x, pos1.y + pos2.y)
}

pub fn sub_pos(pos1: Pos, pos2: Pos) -> (difference: Pos)
    requires
        fits(pos1.x - pos2.x, pos1.y - pos2.y),
    ensures
        difference == cell(pos1.x - pos2.x, pos1.y - pos2.y),
{
    Pos::new(pos1.x - pos2.x, pos1.y - pos2.y)
}

pub fn move_by(start: Pos, diff: Pos) -> (moved: Pos)
    requires
        fits(start.x + diff.x, start.y + diff.y),
    ensures
        moved == cell(start.x + diff.x, start.y + diff.y),
{
    Pos::new(start.x + diff.x, start.y + diff.y)
}

pub fn move_y(pos: Pos, offset_y: i32) -> (moved: Pos)
    requires
        fits(pos.x as int, pos.y + offset_y),
    ensures
        moved == cell(pos.x as int, pos.y + offset_y),
{
    Pos::new(pos.x, pos.y + offset_y)
}

pub fn move_x(pos: Pos, offset_x: i32) -> (moved: Pos)
    requires
        fits(pos.x + offset_x, pos.y as int),
    ensures
        moved == cell(pos.x + offset_x, pos.y as int),
{
    Pos::new(pos.x + offset_x, pos.y)
}

/// The cell one step beyond `pos + delta_pos`, on each axis on which
/// `delta_pos` moves.
pub fn next_pos(pos: Pos, delta_pos: Pos) -> (next: Pos)
    requires
        fits(
            pos.x + delta_pos.x + sign_of(delta_pos.x as int),
            pos.y + delta_pos.y + sign_of(delta_pos.y as int),
        ),
        fits(pos.x + delta_pos.x, pos.y + delta_pos.y),
    ensures
        next == cell(
            pos.x + delta_pos.x + sign_of(delta_pos.x as int),
            pos.y + delta_pos.y + sign_of(delta_pos.y as int),
        ),
{
    let mut next = add_pos(pos, delta_pos);
    if delta_pos.x != 0 {
        next.x = next.x + signedness(delta_pos.x);
    }
    if delta_pos.y != 0 {
        next.y = next.y + signedness(delta_pos.y);
    }
    next
}

/// The step from `start_pos` to `end_pos`.
pub fn dxy(start_pos: Pos, end_pos: Pos) -> (delta: (i32, i32))
    requires
        fits(end_pos.x - start_pos.x, end_pos.y - start_pos.y),
    ensures
        delta.0 == end_pos.x - start_pos.x,
        delta.1 == end_pos.y - start_pos.y,
{
    (end_pos.x - start_pos.x, end_pos.y - start_pos.y)
}

/// How far a mover reaches in one move: two cells at a run, else one.
pub fn reach_by_mode(move_mode: MoveMode) -> (reach: Reach)
    ensures
        reach == match move_mode {
            MoveMode::Sneak => Reach::Single(1),
            MoveMode::Walk => Reach::Single(1),
            MoveMode::Run => Reach::Single(2),
        },
{
    match move_mode {
        MoveMode::Sneak => Reach::Single(1),
        MoveMode::Walk => Reach::Single(1),
        MoveMode::Run => Reach::Single(2),
    }
}

/// `val`, held within `min` and `max`; `min` where the two cross.
pub fn clamp(val: i32, min: i32, max: i32) -> (held: i32)
    ensures
        held == if val < min {
            min
        } else if val > max {
            max
        } else {
            val
        },
{
    if val < min {
        return min;
    } else if val > max {
        return max;
    }
    val
}

/// The cell `num_blocks` steps after the first on the line from `start` to
/// `end`, or `end` where the line is shorter.
pub fn move_towards(start: Pos, end: Pos, num_blocks: usize) -> (reached: Pos)
    ensures
        reached == if num_blocks < chebyshev(start, end) {
            line_point(start, end, num_blocks + 1)
        } else {
            end
        },
{
    let steps = line(start, end);
    if num_blocks < steps.len() {
        steps[num_blocks]
    } else {
        end
    }
}

/// The cell next to `end_pos` on the line from `start_pos`; `start_pos`
/// itself where the two are the same cell or neighbours.
pub fn move_next_to(start_pos: Pos, end_pos: Pos) -> (beside: Pos)
    ensures
        beside == if chebyshev(start_pos, end_pos) <= 1 {
            start_pos
        } else {
            line_point(start_pos, end_pos, chebyshev(start_pos, end_pos) - 1)
        },
{
    let steps = line(start_pos, end_pos);
    let count = steps.len();
    if count <= 1 {
        return start_pos;
    }
    let mut second_to_last = steps[0];
    let mut i: usize = 1;
    while i < count
        invariant
            1 <= i <= count,
            count == steps@.len(),
            count == chebyshev(start_pos, end_pos),
            steps@ == line_seq(start_pos, end_pos),
            second_to_last == (if i < count {
                steps@[i - 1]
            } else {
                steps@[count - 2]
            }),
        decreases count - i,
    {
        let pos = steps[i];
        proof {
            lemma_line_point(start_pos, end_pos, i + 1);
        }
        if pos != end_pos {
            second_to_last = pos;
        }
        i = i + 1;
    }
    second_to_last
}

} // verus!
