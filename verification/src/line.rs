//! The rasterized line between two cells: what it is, and how it is walked.

use vstd::prelude::*;
use crate::types::{Pos, advance, magnitude, chebyshev, cell};

verus! {

/// How far the line has moved along its minor axis after `k` steps along its
/// major axis, for a line that covers `major` cells on the major axis and
/// `minor <= major` cells on the minor one. The line moves on the minor axis
/// whenever the ideal line is at least half a cell ahead.
pub open spec fn minor_steps(major: int, minor: int, k: int) -> int {
    if major > 0 {
        (2 * minor * k + major - 1) / (2 * major)
    } else {
        0
    }
}

/// Whether the line from `start` to `end` has `x` as its major axis. A line
/// as steep as it is wide has `y` as its major axis.
pub open spec fn x_major(start: Pos, end: Pos) -> bool {
    magnitude(end.x - start.x) > magnitude(end.y - start.y)
}

/// The `k`-th cell after `start` on the rasterized line towards `end`,
/// for `1 <= k <= chebyshev(start, end)`; `k == 0` gives `start` itself.
pub open spec fn line_point(start: Pos, end: Pos, k: int) -> Pos {
    let dx = end.x - start.x;
    let dy = end.y - start.y;
    if x_major(start, end) {
        cell(
            advance(start.x as int, end.x as int, k),
            advance(start.y as int, end.y as int, minor_steps(magnitude(dx), magnitude(dy), k)),
        )
    } else {
        cell(
            advance(start.x as int, end.x as int, minor_steps(magnitude(dy), magnitude(dx), k)),
            advance(start.y as int, end.y as int, k),
        )
    }
}

/// The rasterized line from `start` to `end`: every cell after `start`, up to
/// and including `end`. It is empty when the two are the same cell.
pub open spec fn line_seq(start: Pos, end: Pos) -> Seq<Pos> {
    Seq::new(chebyshev(start, end) as nat, |i: int| line_point(start, end, i + 1))
}

/// The error term of the line after `k` major steps of which `j` also moved on
/// the minor axis.
pub open spec fn line_error(major: int, minor: int, k: int, j: int) -> int {
    major - 2 * minor * k + 2 * major * j
}

/// `minor_steps` is the one count that keeps the error term within a cell.
pub proof fn lemma_minor_steps_unique(major: int, minor: int, k: int, j: int)
    requires
        major > 0,
        0 <= line_error(major, minor, k, j) < 2 * major,
    ensures
        j == minor_steps(major, minor, k),
{
    let n = 2 * minor * k + major - 1;
    let r = 2 * major - 1 - line_error(major, minor, k, j);
    assert(n == j * (2 * major) + r) by (nonlinear_arith)
        requires
            n == 2 * minor * k + major - 1,
            r == 2 * major - 1 - (major - 2 * minor * k + 2 * major * j),
    ;
    vstd::arithmetic::div_mod::lemma_fundamental_div_mod_converse_div(n, 2 * major, j, r);
}

/// The error term that `minor_steps` leaves stays within a cell.
pub proof fn lemma_minor_steps_error(major: int, minor: int, k: int)
    requires
        major > 0,
    ensures
        0 <= line_error(major, minor, k, minor_steps(major, minor, k)) < 2 * major,
{
    let n = 2 * minor * k + major - 1;
    let d = 2 * major;
    vstd::arithmetic::div_mod::lemma_fundamental_div_mod(n, d);
    vstd::arithmetic::div_mod::lemma_mod_bound(n, d);
    let j = n / d;
    assert(line_error(major, minor, k, j) == d - 1 - n % d) by (nonlinear_arith)
        requires
            n == 2 * minor * k + major - 1,
            d == 2 * major,
            n == d * j + n % d,
    ;
}

/// Along the line the minor axis never runs ahead of the major axis, never
/// falls so far behind that the end could not be reached, and arrives with it.
pub proof fn lemma_minor_steps_bounds(major: int, minor: int, k: int)
    requires
        0 <= minor <= major,
        0 <= k <= major,
    ensures
        0 <= minor_steps(major, minor, k) <= k,
        minor_steps(major, minor, k) <= minor,
        minor - minor_steps(major, minor, k) <= major - k,
        minor_steps(major, minor, 0) == 0,
        minor_steps(major, minor, major) == minor,
{
    if major > 0 {
        lemma_minor_steps_error(major, minor, k);
        let j = minor_steps(major, minor, k);
        assert(0 <= j <= k && j <= minor && minor - j <= major - k) by (nonlinear_arith)
            requires
                0 <= minor <= major,
                0 <= k <= major,
                major > 0,
                0 <= major - 2 * minor * k + 2 * major * j < 2 * major,
        ;
        assert(0 <= line_error(major, minor, 0, 0) < 2 * major) by (nonlinear_arith)
            requires
                major > 0,
        ;
        lemma_minor_steps_unique(major, minor, 0, 0);
        assert(0 <= line_error(major, minor, major, minor) < 2 * major) by (nonlinear_arith)
            requires
                major > 0,
        ;
        lemma_minor_steps_unique(major, minor, major, minor);
    }
}

/// From one major step to the next the minor axis stays or moves by one.
pub proof fn lemma_minor_steps_next(major: int, minor: int, k: int)
    requires
        0 <= minor <= major,
        0 <= k < major,
    ensures
        minor_steps(major, minor, k) <= minor_steps(major, minor, k + 1) <= minor_steps(
            major,
            minor,
            k,
        ) + 1,
{
    lemma_minor_steps_error(major, minor, k);
    lemma_minor_steps_error(major, minor, k + 1);
    let j = minor_steps(major, minor, k);
    let j2 = minor_steps(major, minor, k + 1);
    assert(j <= j2 <= j + 1) by (nonlinear_arith)
        requires
            0 <= minor <= major,
            major > 0,
            0 <= major - 2 * minor * k + 2 * major * j < 2 * major,
            0 <= major - 2 * minor * (k + 1) + 2 * major * j2 < 2 * major,
    ;
}

/// Where the `k`-th cell of the line lies: between `start` and `end` on both
/// axes, `k` steps from `start` and the remaining steps from `end`, one step
/// from the cell before it.
pub proof fn lemma_line_point(start: Pos, end: Pos, k: int)
    requires
        0 <= k <= chebyshev(start, end),
    ensures
        line_point(start, end, 0) == start,
        line_point(start, end, chebyshev(start, end)) == end,
        chebyshev(start, line_point(start, end, k)) == k,
        chebyshev(line_point(start, end, k), end) == chebyshev(start, end) - k,
        k > 0 ==> chebyshev(line_point(start, end, k - 1), line_point(start, end, k)) == 1,
{
    let dx = end.x - start.x;
    let dy = end.y - start.y;
    let n = chebyshev(start, end);
    if x_major(start, end) {
        lemma_minor_steps_bounds(magnitude(dx), magnitude(dy), k);
        if k > 0 {
            lemma_minor_steps_bounds(magnitude(dx), magnitude(dy), k - 1);
            lemma_minor_steps_next(magnitude(dx), magnitude(dy), k - 1);
        }
    } else {
        lemma_minor_steps_bounds(magnitude(dy), magnitude(dx), k);
        if k > 0 {
            lemma_minor_steps_bounds(magnitude(dy), magnitude(dx), k - 1);
            lemma_minor_steps_next(magnitude(dy), magnitude(dx), k - 1);
        }
    }
}

/// The rasterized line from `start` to `end`: every cell after `start`, up to
/// and including `end`.
pub fn line(start: Pos, end: Pos) -> (points: Vec<Pos>)
    ensures
        points@ == line_seq(start, end),
{
    let dx: i64 = end.x as i64 - start.x as i64;
    let dy: i64 = end.y as i64 - start.y as i64;
    let step_x: i64 = if dx > 0 { 1 } else if dx < 0 { -1 } else { 0 };
    let step_y: i64 = if dy > 0 { 1 } else if dy < 0 { -1 } else { 0 };
    let run_x: i64 = if dx < 0 { -dx } else { dx };
    let run_y: i64 = if dy < 0 { -dy } else { dy };
    let along_x = run_x > run_y;
    let major: i64 = if along_x { run_x } else { run_y };
    let minor: i64 = if along_x { run_y } else { run_x };
    let mut points: Vec<Pos> = Vec::new();
    let mut x: i64 = start.x as i64;
    let mut y: i64 = start.y as i64;
    let mut error: i64 = major;
    let mut k: i64 = 0;
    let ghost mut j: int = 0;
    proof {
        lemma_minor_steps_bounds(major as int, minor as int, 0);
        assert(line_error(major as int, minor as int, 0, 0) == major) by (nonlinear_arith);
    }
    while k < major
        invariant
            0 <= k <= major,
            major == chebyshev(start, end),
            0 <= minor <= major,
            dx == end.x - start.x,
            dy == end.y - start.y,
            step_x == (if dx > 0 { 1int } else if dx < 0 { -1int } else { 0int }),
            step_y == (if dy > 0 { 1int } else if dy < 0 { -1int } else { 0int }),
            along_x == x_major(start, end),
            major == if along_x { magnitude(dx as int) } else { magnitude(dy as int) },
            minor == if along_x { magnitude(dy as int) } else { magnitude(dx as int) },
            j == minor_steps(major as int, minor as int, k as int),
            error == line_error(major as int, minor as int, k as int, j),
            major > 0 ==> 0 <= error < 2 * major,
            x == advance(start.x as int, end.x as int, if along_x { k as int } else { j }),
            y == advance(start.y as int, end.y as int, if along_x { j } else { k as int }),
            points@.len() == k,
            forall|i: int| 0 <= i < k ==> points@[i] == line_point(start, end, i + 1),
        decreases major - k,
    {
        let ghost old_j = j;
        let ghost old_k = k as int;
        proof {
            lemma_minor_steps_bounds(major as int, minor as int, k as int);
            lemma_minor_steps_bounds(major as int, minor as int, k + 1);
            lemma_minor_steps_next(major as int, minor as int, k as int);
        }
        error = error - 2 * minor;
        let hop = error < 0;
        if hop {
            error = error + 2 * major;
            proof {
                j = j + 1;
            }
        }
        k = k + 1;
        proof {
            assert(error == line_error(major as int, minor as int, k as int, j)) by (nonlinear_arith)
                requires
                    error == major - 2 * minor * old_k + 2 * major * old_j - 2 * minor + (if hop {
                        2 * major
                    } else {
                        0
                    }),
                    j == old_j + (if hop {
                        1int
                    } else {
                        0int
                    }),
                    k == old_k + 1,
            ;
            lemma_minor_steps_unique(major as int, minor as int, k as int, j);
        }
        if along_x {
            x = x + step_x;
            if hop {
                y = y + step_y;
            }
        } else {
            y = y + step_y;
            if hop {
                x = x + step_x;
            }
        }
        proof {
            lemma_line_point(start, end, k as int);
        }
        points.push(Pos { x: x as i32, y: y as i32 });
    }
    proof {
        assert(points@ =~= line_seq(start, end));
    }
    points
}

} // verus!
