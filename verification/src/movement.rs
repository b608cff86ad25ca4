//! Directions, move modes, reach and momentum of a mover.

use vstd::prelude::*;
use crate::types::{Pos, ObjectId, cell, sign_of};
use crate::map::Blocked;
use crate::line::{line, line_seq};

verus! {

/// One of the eight compass directions, or no movement at all. `Left` is
/// towards smaller `x` and `Up` is towards smaller `y`.
#[derive(Clone, Copy, Debug, PartialEq, Eq, Structural)]
pub enum Direction {
    Left,
    Right,
    Up,
    Down,
    DownLeft,
    DownRight,
    UpLeft,
    UpRight,
    Center,
}

impl Direction {
    /// The direction in which `(dx, dy)` points; only the signs matter.
    pub open spec fn spec_from_dxy(dx: int, dy: int) -> Direction {
        if dx == 0 && dy == 0 {
            Direction::Center
        } else if dx == 0 && dy < 0 {
            Direction::Up
        } else if dx == 0 && dy > 0 {
            Direction::Down
        } else if dx > 0 && dy == 0 {
            Direction::Right
        } else if dx < 0 && dy == 0 {
            Direction::Left
        } else if dx > 0 && dy > 0 {
            Direction::DownRight
        } else if dx > 0 && dy < 0 {
            Direction::UpRight
        } else if dx < 0 && dy > 0 {
            Direction::DownLeft
        } else {
            Direction::UpLeft
        }
    }

    /// The unit step of this direction.
    pub open spec fn spec_into_move(self) -> (int, int) {
        match self {
            Direction::Left => (-1, 0),
            Direction::Right => (1, 0),
            Direction::Up => (0, -1),
            Direction::Down => (0, 1),
            Direction::DownLeft => (-1, 1),
            Direction::DownRight => (1, 1),
            Direction::UpLeft => (-1, -1),
            Direction::UpRight => (1, -1),
            Direction::Center => (0, 0),
        }
    }

    /// Whether this direction moves on both axes.
    pub open spec fn is_diagonal(self) -> bool {
        self == Direction::DownLeft || self == Direction::DownRight || self == Direction::UpLeft
            || self == Direction::UpRight
    }

    /// The direction in which `(dx, dy)` points; only the signs matter.
    pub fn from_dxy(dx: i32, dy: i32) -> (dir: Direction)
        ensures
            dir == Self::spec_from_dxy(dx as int, dy as int),
    {
        if dx == 0 && dy == 0 {
            Direction::Center
        } else if dx == 0 && dy < 0 {
            Direction::Up
        } else if dx == 0 && dy > 0 {
            Direction::Down
        } else if dx > 0 && dy == 0 {
            Direction::Right
        } else if dx < 0 && dy == 0 {
            Direction::Left
        } else if dx > 0 && dy > 0 {
            Direction::DownRight
        } else if dx > 0 && dy < 0 {
            Direction::UpRight
        } else if dx < 0 && dy > 0 {
            Direction::DownLeft
        } else {
            Direction::UpLeft
        }
    }

    /// The unit step of this direction.
    pub fn into_move(self) -> (step: (i32, i32))
        ensures
            (step.0 as int, step.1 as int) == self.spec_into_move(),
    {
        match self {
            Direction::Left => (-1, 0),
            Direction::Right => (1, 0),
            Direction::Up => (0, -1),
            Direction::Down => (0, 1),
            Direction::DownLeft => (-1, 1),
            Direction::DownRight => (1, 1),
            Direction::UpLeft => (-1, -1),
            Direction::UpRight => (1, -1),
            Direction::Center => (0, 0),
        }
    }

    /// Every direction, `Center` last.
    pub fn move_actions() -> (all: Vec<Direction>)
        ensures
            all@ == seq![
                Direction::Left,
                Direction::Right,
                Direction::Up,
                Direction::Down,
                Direction::DownLeft,
                Direction::DownRight,
                Direction::UpLeft,
                Direction::UpRight,
                Direction::Center,
            ],
    {
        let mut all: Vec<Direction> = Vec::new();
        all.push(Direction::Left);
        all.push(Direction::Right);
        all.push(Direction::Up);
        all.push(Direction::Down);
        all.push(Direction::DownLeft);
        all.push(Direction::DownRight);
        all.push(Direction::UpLeft);
        all.push(Direction::UpRight);
        all.push(Direction::Center);
        proof {
            assert(all@ =~= seq![
                Direction::Left,
                Direction::Right,
                Direction::Up,
                Direction::Down,
                Direction::DownLeft,
                Direction::DownRight,
                Direction::UpLeft,
                Direction::UpRight,
                Direction::Center,
            ]);
        }
        all
    }
}

/// How loud a sound is: the distance that it carries.
pub type Loudness = usize;

/// How fast a mover goes.
#[derive(Clone, Copy, Debug, PartialEq, Eq, Structural)]
pub enum MoveMode {
    Sneak,
    Walk,
    Run,
}

impl MoveMode {
    /// The next faster mode; `Run` stays.
    pub fn increase(&self) -> (mode: MoveMode)
        ensures
            mode == match *self {
                MoveMode::Sneak => MoveMode::Walk,
                MoveMode::Walk => MoveMode::Run,
                MoveMode::Run => MoveMode::Run,
            },
    {
        match self {
            MoveMode::Sneak => MoveMode::Walk,
            MoveMode::Walk => MoveMode::Run,
            MoveMode::Run => MoveMode::Run,
        }
    }

    /// The next slower mode; `Sneak` stays.
    pub fn decrease(&self) -> (mode: MoveMode)
        ensures
            mode == match *self {
                MoveMode::Sneak => MoveMode::Sneak,
                MoveMode::Walk => MoveMode::Sneak,
                MoveMode::Run => MoveMode::Walk,
            },
    {
        match self {
            MoveMode::Sneak => MoveMode::Sneak,
            MoveMode::Walk => MoveMode::Sneak,
            MoveMode::Run => MoveMode::Walk,
        }
    }

    /// The word for this mode.
    pub fn to_string(&self) -> (word: String)
        ensures
            word@ == match *self {
                MoveMode::Sneak => "sneaking"@,
                MoveMode::Walk => "walking"@,
                MoveMode::Run => "running"@,
            },
    {
        match self {
            MoveMode::Sneak => "sneaking".to_owned(),
            MoveMode::Walk => "walking".to_owned(),
            MoveMode::Run => "running".to_owned(),
        }
    }
}

/// What a move comes to, with the cell where the mover ends up.
#[derive(Clone, Copy, Debug, PartialEq, Eq, Structural)]
pub enum Movement {
    Move(Pos),
    Pass(Pos),
    Attack(Pos, ObjectId),
    Collide(Pos),
    WallKick(Pos, i32, i32),
    JumpWall(Pos),
}

impl Movement {
    /// The cell of the movement.
    pub open spec fn spec_xy(self) -> Pos {
        match self {
            Movement::Move(pos) => pos,
            Movement::Pass(pos) => pos,
            Movement::Attack(pos, _) => pos,
            Movement::Collide(pos) => pos,
            Movement::WallKick(pos, _, _) => pos,
            Movement::JumpWall(pos) => pos,
        }
    }

    /// The cell of the movement.
    pub fn xy(&self) -> (pos: Pos)
        ensures
            pos == self.spec_xy(),
    {
        match self {
            Movement::Move(pos) => *pos,
            Movement::Pass(pos) => *pos,
            Movement::Attack(pos, _) => *pos,
            Movement::Collide(pos) => *pos,
            Movement::WallKick(pos, _, _) => *pos,
            Movement::JumpWall(pos) => *pos,
        }
    }
}

/// One of the four axis-aligned directions.
#[derive(Clone, Copy, Debug, PartialEq, Eq, Structural)]
pub enum Cardinal {
    Up,
    Down,
    Left,
    Right,
}

impl Cardinal {
    /// The axis-aligned direction of `(dx, dy)`. A diagonal step counts as
    /// a sideways one where a direction was held before, and as none where
    /// none was.
    pub open spec fn spec_from_dxy(last: Option<Cardinal>, dx: int, dy: int) -> Option<Cardinal> {
        if dx == 0 && dy == 0 {
            None
        } else if dx == 0 && dy < 0 {
            Some(Cardinal::Up)
        } else if dx == 0 && dy > 0 {
            Some(Cardinal::Down)
        } else if dx > 0 && dy == 0 {
            Some(Cardinal::Right)
        } else if dx < 0 && dy == 0 {
            Some(Cardinal::Left)
        } else if last is Some {
            if dx > 0 {
                Some(Cardinal::Right)
            } else {
                Some(Cardinal::Left)
            }
        } else {
            None
        }
    }

    /// The axis-aligned direction of `(dx, dy)`.
    pub fn from_dxy(last: Option<Cardinal>, dx: i32, dy: i32) -> (dir: Option<Cardinal>)
        ensures
            dir == Self::spec_from_dxy(last, dx as int, dy as int),
    {
        if dx == 0 && dy == 0 {
            None
        } else if dx == 0 && dy < 0 {
            Some(Cardinal::Up)
        } else if dx == 0 && dy > 0 {
            Some(Cardinal::Down)
        } else if dx > 0 && dy == 0 {
            Some(Cardinal::Right)
        } else if dx < 0 && dy == 0 {
            Some(Cardinal::Left)
        } else {
            if let Some(_dir) = last {
                if dx > 0 && dy > 0 {
                    Some(Cardinal::Right)
                } else if dx > 0 && dy < 0 {
                    Some(Cardinal::Right)
                } else if dx < 0 && dy > 0 {
                    Some(Cardinal::Left)
                } else if dx < 0 && dy < 0 {
                    Some(Cardinal::Left)
                } else {
                    None
                }
            } else {
                None
            }
        }
    }
}

/// How far and along which lines a mover reaches in one move.
#[derive(Clone, Copy, Debug, PartialEq, Eq, Structural)]
pub enum Reach {
    Single(usize),
    Diag(usize),
    Horiz(usize),
}

/// The four axis-aligned offsets at each distance from 1 to `count`.
pub open spec fn axis_ends(count: int) -> Seq<Pos>
    decreases count,
{
    if count <= 0 {
        Seq::empty()
    } else {
        axis_ends(count - 1) + seq![
            cell(count, 0),
            cell(0, count),
            cell(-count, 0),
            cell(0, -count),
        ]
    }
}

/// The four diagonal offsets at each distance from 1 to `count`.
pub open spec fn diagonal_ends(count: int) -> Seq<Pos>
    decreases count,
{
    if count <= 0 {
        Seq::empty()
    } else {
        diagonal_ends(count - 1) + seq![
            cell(count, count),
            cell(-count, count),
            cell(count, -count),
            cell(-count, -count),
        ]
    }
}

/// The rasterized lines from the origin to each of `ends`, one after the
/// other.
pub open spec fn rays(ends: Seq<Pos>) -> Seq<Pos>
    decreases ends.len(),
{
    if ends.len() == 0 {
        Seq::empty()
    } else {
        rays(ends.drop_last()) + line_seq(Pos { x: 0, y: 0 }, ends.last())
    }
}

impl Reach {
    /// The distance that the reach is made for.
    pub open spec fn span(self) -> int {
        match self {
            Reach::Single(dist) => dist as int,
            Reach::Diag(dist) => dist as int,
            Reach::Horiz(dist) => dist as int,
        }
    }

    /// The offset of a move in direction `dir` with this reach, where the
    /// reach has that direction.
    pub open spec fn spec_move_with_reach(self, dir: Direction) -> Option<Pos> {
        let step = dir.spec_into_move();
        let offset = cell(step.0 * self.span(), step.1 * self.span());
        match self {
            Reach::Single(_) => Some(offset),
            Reach::Diag(_) => if dir.is_diagonal() || dir == Direction::Center {
                Some(offset)
            } else {
                None
            },
            Reach::Horiz(_) => if dir.is_diagonal() || dir == Direction::Center {
                None
            } else {
                Some(offset)
            },
        }
    }

    /// The offset of a move in direction `move_action` with this reach,
    /// where the reach has that direction.
    pub fn move_with_reach(&self, move_action: &Direction) -> (offset: Option<Pos>)
        requires
            self.span() <= i32::MAX,
        ensures
            offset == self.spec_move_with_reach(*move_action),
    {
        match self {
            Reach::Single(dist) => {
                let dist = (*dist) as i32;
                let neg_dist = -dist;
                match move_action {
                    Direction::Left => Some(Pos::new(neg_dist, 0)),
                    Direction::Right => Some(Pos::new(dist, 0)),
                    Direction::Up => Some(Pos::new(0, neg_dist)),
                    Direction::Down => Some(Pos::new(0, dist)),
                    Direction::DownLeft => Some(Pos::new(neg_dist, dist)),
                    Direction::DownRight => Some(Pos::new(dist, dist)),
                    Direction::UpLeft => Some(Pos::new(neg_dist, neg_dist)),
                    Direction::UpRight => Some(Pos::new(dist, neg_dist)),
                    Direction::Center => Some(Pos::new(0, 0)),
                }
            },
            Reach::Diag(dist) => {
                let dist = (*dist) as i32;
                let neg_dist = -dist;
                match move_action {
                    Direction::Left => None,
                    Direction::Right => None,
                    Direction::Up => None,
                    Direction::Down => None,
                    Direction::DownLeft => Some(Pos::new(neg_dist, dist)),
                    Direction::DownRight => Some(Pos::new(dist, dist)),
                    Direction::UpLeft => Some(Pos::new(neg_dist, neg_dist)),
                    Direction::UpRight => Some(Pos::new(dist, neg_dist)),
                    Direction::Center => Some(Pos::new(0, 0)),
                }
            },
            Reach::Horiz(dist) => {
                let dist = (*dist) as i32;
                let neg_dist = -dist;
                match move_action {
                    Direction::Left => Some(Pos::new(neg_dist, 0)),
                    Direction::Right => Some(Pos::new(dist, 0)),
                    Direction::Up => Some(Pos::new(0, neg_dist)),
                    Direction::Down => Some(Pos::new(0, dist)),
                    Direction::DownLeft => None,
                    Direction::DownRight => None,
                    Direction::UpLeft => None,
                    Direction::UpRight => None,
                    Direction::Center => None,
                }
            },
        }
    }

    /// The offsets at which the lines of this reach end. A single reach
    /// ends at its distance in each of the eight directions; the others end
    /// on their four lines at every distance below their own.
    pub open spec fn ends(self) -> Seq<Pos> {
        match self {
            Reach::Single(dist) => seq![
                cell(0, dist as int),
                cell(-dist, dist as int),
                cell(-dist, 0),
                cell(-dist, -dist),
                cell(0, -dist),
                cell(dist as int, -dist),
                cell(dist as int, 0),
                cell(dist as int, dist as int),
            ],
            Reach::Horiz(dist) => axis_ends(dist - 1),
            Reach::Diag(dist) => diagonal_ends(dist - 1),
        }
    }

    /// Every offset that this reach covers: the cells of the lines from the
    /// mover to each of its ends.
    pub fn offsets(&self) -> (offsets: Vec<Pos>)
        requires
            self.span() <= i32::MAX,
        ensures
            offsets@ == rays(self.ends()),
    {
        let mut end_points: Vec<Pos> = Vec::new();
        match self {
            Reach::Single(dist) => {
                let dist = (*dist) as i32;
                end_points.push(Pos::new(0, dist));
                end_points.push(Pos::new(-dist, dist));
                end_points.push(Pos::new(-dist, 0));
                end_points.push(Pos::new(-dist, -dist));
                end_points.push(Pos::new(0, -dist));
                end_points.push(Pos::new(dist, -dist));
                end_points.push(Pos::new(dist, 0));
                end_points.push(Pos::new(dist, dist));
                proof {
                    assert(end_points@ =~= self.ends());
                }
            },
            Reach::Horiz(dist) => {
                let dist = (*dist) as i32;
                let mut step: i32 = 1;
                while step < dist
                    invariant
                        1 <= step,
                        step <= dist || step == 1,
                        end_points@ == axis_ends(step - 1),
                    decreases dist - step,
                {
                    end_points.push(Pos::new(step, 0));
                    end_points.push(Pos::new(0, step));
                    end_points.push(Pos::new(-step, 0));
                    end_points.push(Pos::new(0, -step));
                    proof {
                        assert(end_points@ =~= axis_ends(step as int));
                    }
                    step = step + 1;
                }
                proof {
                    assert(end_points@ == axis_ends(dist - 1));
                }
            },
            Reach::Diag(dist) => {
                let dist = (*dist) as i32;
                let mut step: i32 = 1;
                while step < dist
                    invariant
                        1 <= step,
                        step <= dist || step == 1,
                        end_points@ == diagonal_ends(step - 1),
                    decreases dist - step,
                {
                    end_points.push(Pos::new(step, step));
                    end_points.push(Pos::new(-step, step));
                    end_points.push(Pos::new(step, -step));
                    end_points.push(Pos::new(-step, -step));
                    proof {
                        assert(end_points@ =~= diagonal_ends(step as int));
                    }
                    step = step + 1;
                }
                proof {
                    assert(end_points@ == diagonal_ends(dist - 1));
                }
            },
        }
        let mut offsets: Vec<Pos> = Vec::new();
        let mut index: usize = 0;
        proof {
            assert(end_points@ == self.ends());
            assert(end_points@.take(0) =~= Seq::<Pos>::empty());
        }
        while index < end_points.len()
            invariant
                0 <= index <= end_points@.len(),
                offsets@ == rays(end_points@.take(index as int)),
            decreases end_points@.len() - index,
        {
            let points = line(Pos::new(0, 0), end_points[index]);
            let ghost before = offsets@;
            let mut i: usize = 0;
            while i < points.len()
                invariant
                    0 <= i <= points@.len(),
                    offsets@ == before + points@.take(i as int),
                decreases points@.len() - i,
            {
                offsets.push(points[i]);
                proof {
                    assert(offsets@ =~= before + points@.take(i + 1));
                }
                i = i + 1;
            }
            proof {
                assert(points@.take(i as int) =~= points@);
                assert(end_points@.take(index + 1).drop_last() =~= end_points@.take(index as int));
            }
            index = index + 1;
        }
        proof {
            assert(end_points@.take(index as int) =~= end_points@);
        }
        offsets
    }
}

/// The most momentum that a mover builds up along an axis.
pub const MAX_MOMENTUM: i32 = 2;

/// The momentum of a mover along each axis, and the most it may build up.
#[derive(Clone, Copy, Debug, PartialEq, Eq, Structural)]
pub struct Momentum {
    pub mx: i32,
    pub my: i32,
    pub max: i32,
}

impl Default for Momentum {
    fn default() -> (momentum: Momentum)
        ensures
            momentum == (Momentum { mx: 0, my: 0, max: MAX_MOMENTUM }),
    {
        Momentum { mx: 0, my: 0, max: MAX_MOMENTUM }
    }
}

/// `value` after a move by `delta` along its axis: lost where the move goes
/// against it, else one more in the direction of the move, held within
/// `max` either way.
pub open spec fn momentum_after(value: int, delta: int, max: int) -> int {
    if value != 0 && sign_of(delta) != sign_of(value) {
        0
    } else if value + sign_of(delta) < -max {
        -max
    } else if value + sign_of(delta) > max {
        max
    } else {
        value + sign_of(delta)
    }
}

impl Momentum {
    /// The larger of the two momenta, without its sign.
    pub open spec fn spec_magnitude(&self) -> int {
        let ax = if self.mx < 0 { -self.mx } else { self.mx as int };
        let ay = if self.my < 0 { -self.my } else { self.my as int };
        if ax > ay {
            ax
        } else {
            ay
        }
    }

    pub fn running(&mut self) -> (running: bool)
        requires
            old(self).mx > i32::MIN,
            old(self).my > i32::MIN,
        ensures
            *final(self) == *old(self),
            running == (old(self).spec_magnitude() != 0),
    {
        self.magnitude() != 0
    }

    pub fn at_maximum(&self) -> (full: bool)
        requires
            self.mx > i32::MIN,
            self.my > i32::MIN,
        ensures
            full == (self.spec_magnitude() == MAX_MOMENTUM),
    {
        self.magnitude() == MAX_MOMENTUM
    }

    pub fn magnitude(&self) -> (size: i32)
        requires
            self.mx > i32::MIN,
            self.my > i32::MIN,
        ensures
            size == self.spec_magnitude(),
    {
        let ax = if self.mx < 0 { -self.mx } else { self.mx };
        let ay = if self.my < 0 { -self.my } else { self.my };
        if ax > ay {
            ax
        } else {
            ay
        }
    }

    pub fn diagonal(&self) -> (both: bool)
        ensures
            both == (self.mx != 0 && self.my != 0),
    {
        self.mx != 0 && self.my != 0
    }

    /// Records a move by `(dx, dy)`.
    pub fn moved(&mut self, dx: i32, dy: i32)
        requires
            old(self).max > i32::MIN,
            i32::MIN <= old(self).mx + sign_of(dx as int) <= i32::MAX,
            i32::MIN <= old(self).my + sign_of(dy as int) <= i32::MAX,
        ensures
            final(self).max == old(self).max,
            final(self).mx == momentum_after(old(self).mx as int, dx as int, old(self).max as int),
            final(self).my == momentum_after(old(self).my as int, dy as int, old(self).max as int),
    {
        // a move against the momentum loses it
        if self.mx != 0 && direction(dx) != direction(self.mx) {
            self.mx = 0;
        } else {
            self.mx = hold(self.mx + direction(dx), -self.max, self.max);
        }
        if self.my != 0 && direction(dy) != direction(self.my) {
            self.my = 0;
        } else {
            self.my = hold(self.my + direction(dy), -self.max, self.max);
        }
    }

    pub fn set_momentum(&mut self, mx: i32, my: i32)
        ensures
            *final(self) == (Momentum { mx, my, max: old(self).max }),
    {
        self.mx = mx;
        self.my = my;
    }

    /// Whether the momentum points along `(dx, dy)`.
    pub fn along(&self, dx: i32, dy: i32) -> (along: bool)
        requires
            i32::MIN <= self.mx * dx <= i32::MAX,
            i32::MIN <= self.my * dy <= i32::MAX,
            i32::MIN <= self.mx * dx + self.my * dy <= i32::MAX,
        ensures
            along == (self.mx * dx + self.my * dy > 0),
    {
        (self.mx * dx + self.my * dy) > 0
    }

    pub fn clear(&mut self)
        ensures
            *final(self) == (Momentum { mx: 0, my: 0, max: old(self).max }),
    {
        self.mx = 0;
        self.my = 0;
    }
}

/// `val`, held within `min` and `max`; `min` where the two cross.
fn hold(val: i32, min: i32, max: i32) -> (held: i32)
    ensures
        held == if val < min {
            min
        } else if val > max {
            max
        } else {
            val
        },
{
    if val < min {
        min
    } else if val > max {
        max
    } else {
        val
    }
}

/// Where a move ends, and what it ran into on the way.
#[derive(Clone, Copy, Debug, PartialEq, Eq, Structural)]
pub struct MoveResult {
    pub entity: Option<ObjectId>,
    pub blocked: Option<Blocked>,
    pub move_pos: Pos,
}

impl MoveResult {
    /// A move that ends at `pos` and runs into nothing.
    pub fn with_pos(pos: Pos) -> (result: MoveResult)
        ensures
            result == (MoveResult { entity: None, blocked: None, move_pos: pos }),
    {
        MoveResult { entity: None, blocked: None, move_pos: pos }
    }

    /// Whether the move ran into nothing.
    pub fn no_collsion(&self) -> (free: bool)
        ensures
            free == (self.blocked is None && self.entity is None),
    {
        self.blocked.is_none() && self.entity.is_none()
    }
}

/// The sign of `value`: -1, 0 or 1.
pub fn direction(value: i32) -> (sign: i32)
    ensures
        sign == sign_of(value as int),
{
    if value == 0 {
        0
    } else if value > 0 {
        1
    } else {
        -1
    }
}

} // verus!
