//! Neighbours, shortest ways and floods over the free steps of a map.

use vstd::prelude::*;
use smallvec::SmallVec;
use pathfinding::directed::astar::astar;
use crate::types::{Pos, cell, chebyshev, fits};
use crate::map::TileMap;
use crate::line::lemma_line_point;
use crate::utils::{distance, holds_cell, steps_apart};

verus! {

/// Up to eight cells, held inline in a `SmallVec`.
#[verifier::external_body]
pub struct Neighbors {
    items: SmallVec<[Pos; 8]>,
}

/// The cells that a `Neighbors` holds, in the order in which they were added.
pub uninterp spec fn neighbor_items(neighbors: Neighbors) -> Seq<Pos>;

/// Calls `SmallVec::new`: a new vector holds nothing.
#[verifier::external_body]
fn neighbors_new() -> (neighbors: Neighbors)
    ensures
        neighbor_items(neighbors) == Seq::<Pos>::empty(),
{
    Neighbors { items: SmallVec::new() }
}

/// Calls `SmallVec::push`: the cell is appended behind those held.
#[verifier::external_body]
fn neighbors_push(neighbors: &mut Neighbors, pos: Pos)
    ensures
        neighbor_items(*final(neighbors)) == neighbor_items(*old(neighbors)).push(pos),
{
    neighbors.items.push(pos)
}

/// Calls `SmallVec::len`: the number of cells held.
#[verifier::external_body]
fn neighbors_len(neighbors: &Neighbors) -> (count: usize)
    ensures
        count == neighbor_items(*neighbors).len(),
{
    neighbors.items.len()
}

/// Indexes the `SmallVec`, which panics beyond its length: the cell at
/// `index`.
#[verifier::external_body]
fn neighbors_get(neighbors: &Neighbors, index: usize) -> (pos: Pos)
    requires
        index < neighbor_items(*neighbors).len(),
    ensures
        pos == neighbor_items(*neighbors)[index as int],
{
    neighbors.items[index]
}

impl View for Neighbors {
    type V = Seq<Pos>;

    open spec fn view(&self) -> Seq<Pos> {
        neighbor_items(*self)
    }
}

impl Neighbors {
    /// The number of cells held.
    pub fn len(&self) -> (count: usize)
        ensures
            count == self@.len(),
    {
        neighbors_len(self)
    }

    /// The cell at `index`, if there is one.
    pub fn get(&self, index: usize) -> (pos: Option<Pos>)
        ensures
            pos == if index < self@.len() {
                Some(self@[index as int])
            } else {
                None
            },
    {
        if index < neighbors_len(self) {
            Some(neighbors_get(self, index))
        } else {
            None
        }
    }

    /// The cells held, in order.
    pub fn to_vec(&self) -> (cells: Vec<Pos>)
        ensures
            cells@ == self@,
    {
        let mut cells: Vec<Pos> = Vec::new();
        let count = neighbors_len(self);
        let mut i: usize = 0;
        while i < count
            invariant
                0 <= i <= count,
                count == self@.len(),
                cells@ == self@.subrange(0, i as int),
            decreases count - i,
        {
            cells.push(neighbors_get(self, i));
            proof {
                assert(cells@ =~= self@.subrange(0, i + 1));
            }
            i = i + 1;
        }
        proof {
            assert(cells@ =~= self@);
        }
        cells
    }
}

/// The eight steps to the neighbours of a cell, in the order in which they
/// are tried: to the right first, then clockwise on a screen whose `y` grows
/// downward.
pub open spec fn neighbor_steps() -> Seq<(int, int)> {
    seq![(1, 0), (1, 1), (0, 1), (-1, 1), (-1, 0), (-1, -1), (0, -1), (1, -1)]
}

/// The `index`-th of the eight steps to a neighbour.
pub fn neighbor_step(index: usize) -> (step: (i32, i32))
    requires
        index < 8,
    ensures
        (step.0 as int, step.1 as int) == neighbor_steps()[index as int],
        -1 <= step.0 <= 1,
        -1 <= step.1 <= 1,
        step.0 != 0 || step.1 != 0,
{
    if index == 0 {
        (1, 0)
    } else if index == 1 {
        (1, 1)
    } else if index == 2 {
        (0, 1)
    } else if index == 3 {
        (-1, 1)
    } else if index == 4 {
        (-1, 0)
    } else if index == 5 {
        (-1, -1)
    } else if index == 6 {
        (0, -1)
    } else {
        (1, -1)
    }
}

/// Whether `pos` lies beyond the bound of a search from `start`: further
/// from `start` in a straight line than `max_dist`, where there is one.
pub open spec fn beyond(start: Pos, pos: Pos, max_dist: Option<i32>) -> bool {
    max_dist matches Some(bound) && chebyshev(start, pos) > bound
}

/// A step at cost 1 to each of `cells`, in order, that does not lie beyond
/// the bound of a search from `start`.
pub open spec fn steps_within(cells: Seq<Pos>, start: Pos, max_dist: Option<i32>) -> Seq<
    (Pos, i32),
>
    decreases cells.len(),
{
    if cells.len() == 0 {
        Seq::empty()
    } else {
        let before = steps_within(cells.drop_last(), start, max_dist);
        if beyond(start, cells.last(), max_dist) {
            before
        } else {
            before.push((cells.last(), 1i32))
        }
    }
}

/// The steps to the cells within the bound lead to exactly those of the
/// cells that are within it.
pub proof fn lemma_steps_within(cells: Seq<Pos>, start: Pos, max_dist: Option<i32>, to: Pos)
    ensures
        steps_within(cells, start, max_dist).contains((to, 1i32)) <==> cells.contains(to) && !beyond(
            start,
            to,
            max_dist,
        ),
    decreases cells.len(),
{
    let now = steps_within(cells, start, max_dist);
    if cells.len() > 0 {
        let rest = cells.drop_last();
        let before = steps_within(rest, start, max_dist);
        let last = cells.last();
        lemma_steps_within(rest, start, max_dist, to);
        if cells.contains(to) {
            let i = choose|i: int| 0 <= i < cells.len() && cells[i] == to;
            if i < cells.len() - 1 {
                assert(rest[i] == to);
            }
        }
        if rest.contains(to) {
            let i = choose|i: int| 0 <= i < rest.len() && rest[i] == to;
            assert(cells[i] == to);
        }
        assert(cells[cells.len() - 1] == last);
        if !beyond(start, last, max_dist) {
            if now.contains((to, 1i32)) {
                let i = choose|i: int| 0 <= i < now.len() && now[i] == (to, 1i32);
                if i < before.len() {
                    assert(before[i] == (to, 1i32));
                }
            }
            if before.contains((to, 1i32)) {
                let i = choose|i: int| 0 <= i < before.len() && before[i] == (to, 1i32);
                assert(now[i] == (to, 1i32));
            }
            assert(now[before.len() as int] == (last, 1i32));
        }
    }
}

impl TileMap {
    /// Whether the step from `pos` by `(dx, dy)` leads to a cell and nothing
    /// obstructs it.
    pub open spec fn step_free(&self, pos: Pos, dx: int, dy: int) -> bool {
        fits(pos.x + dx, pos.y + dy) && self.line_blocked(pos, cell(pos.x + dx, pos.y + dy)) is None
    }

    /// The neighbours that a free step reaches among the first `count` of
    /// the eight, in the order of the steps.
    pub open spec fn neighbors_among(&self, pos: Pos, count: int) -> Seq<Pos>
        decreases count,
    {
        if count <= 0 {
            Seq::empty()
        } else {
            let before = self.neighbors_among(pos, count - 1);
            let step = neighbor_steps()[count - 1];
            if self.step_free(pos, step.0, step.1) {
                before.push(cell(pos.x + step.0, pos.y + step.1))
            } else {
                before
            }
        }
    }

    /// The neighbours of `pos` that a single free step reaches.
    pub open spec fn neighbors(&self, pos: Pos) -> Seq<Pos> {
        self.neighbors_among(pos, 8)
    }

    /// Whether a search from `start` bounded by `max_dist` steps from `from`
    /// to `to`: both are within the bound and `to` is a neighbour that a
    /// free step reaches.
    pub open spec fn linked(&self, start: Pos, from: Pos, to: Pos, max_dist: Option<i32>) -> bool {
        &&& !beyond(start, from, max_dist)
        &&& !beyond(start, to, max_dist)
        &&& self.neighbors(from).contains(to)
    }

    /// The steps that a search from `start` takes from `pos`, each at cost
    /// 1: none where `pos` lies beyond the bound, else one to each neighbour
    /// within the bound that a free step reaches.
    pub open spec fn successors(&self, start: Pos, pos: Pos, max_dist: Option<i32>) -> Seq<
        (Pos, i32),
    > {
        if beyond(start, pos, max_dist) {
            Seq::empty()
        } else {
            steps_within(self.neighbors(pos), start, max_dist)
        }
    }

    /// The neighbours of `pos` that a single unobstructed step reaches.
    pub fn reachable_neighbors(&self, pos: Pos) -> (result: Neighbors)
        requires
            self.wf(),
        ensures
            result@ == self.neighbors(pos),
    {
        let mut result = neighbors_new();
        let mut index: usize = 0;
        while index < 8
            invariant
                0 <= index <= 8,
                self.wf(),
                result@ == self.neighbors_among(pos, index as int),
            decreases 8 - index,
        {
            let delta = neighbor_step(index);
            let x: i64 = pos.x as i64 + delta.0 as i64;
            let y: i64 = pos.y as i64 + delta.1 as i64;
            // a step beyond the coordinates leads nowhere
            if i32::MIN as i64 <= x && x <= i32::MAX as i64 && i32::MIN as i64 <= y && y
                <= i32::MAX as i64 {
                if self.is_blocked_by_wall(pos, delta.0, delta.1).is_none() {
                    neighbors_push(&mut result, Pos::new(x as i32, y as i32));
                }
            }
            index = index + 1;
        }
        result
    }
}

/// The steps that a search from `start` takes from `pos`, each at cost 1:
/// none where `pos` lies beyond the bound, else one to each neighbour within
/// the bound that a free step reaches.
pub fn astar_neighbors(map: &TileMap, start: Pos, pos: Pos, max_dist: Option<i32>) -> (steps: Vec<
    (Pos, i32),
>)
    requires
        map.wf(),
    ensures
        steps@ == map.successors(start, pos, max_dist),
{
    let mut steps: Vec<(Pos, i32)> = Vec::new();
    if too_far(start, pos, max_dist) {
        return steps;
    }
    let reached = map.reachable_neighbors(pos);
    let count = reached.len();
    let mut i: usize = 0;
    proof {
        assert(reached@.take(0) =~= Seq::<Pos>::empty());
    }
    while i < count
        invariant
            0 <= i <= count,
            count == reached@.len(),
            steps@ == steps_within(reached@.take(i as int), start, max_dist),
        decreases count - i,
    {
        let next = neighbors_get(&reached, i);
        proof {
            assert(reached@.take(i + 1).drop_last() =~= reached@.take(i as int));
        }
        if !too_far(start, next, max_dist) {
            steps.push((next, 1));
        }
        i = i + 1;
    }
    proof {
        assert(reached@.take(i as int) =~= reached@);
    }
    steps
}

/// Whether `pos` lies beyond the bound of a search from `start`.
pub fn too_far(start: Pos, pos: Pos, max_dist: Option<i32>) -> (far: bool)
    ensures
        far == beyond(start, pos, max_dist),
{
    match max_dist {
        Some(bound) => bound < 0 || steps_apart(start, pos) > bound as usize,
        None => false,
    }
}

/// `seen` with those cells of `fresh` appended, in order, that it did not
/// hold before them.
pub open spec fn add_unseen(seen: Seq<Pos>, fresh: Seq<Pos>) -> Seq<Pos>
    decreases fresh.len(),
{
    if fresh.len() == 0 {
        seen
    } else {
        let before = add_unseen(seen, fresh.drop_last());
        if before.contains(fresh.last()) {
            before
        } else {
            before.push(fresh.last())
        }
    }
}

impl TileMap {
    /// `seen` after the cells of `frontier` have been expanded in order:
    /// each adds those of its neighbours that were not seen before.
    pub open spec fn expand(&self, seen: Seq<Pos>, frontier: Seq<Pos>) -> Seq<Pos>
        decreases frontier.len(),
    {
        if frontier.len() == 0 {
            seen
        } else {
            add_unseen(self.expand(seen, frontier.drop_last()), self.neighbors(frontier.last()))
        }
    }

    /// The cells that a flood from `origin` has reached after `radius`
    /// rounds, in the order in which it reached them. Each round expands the
    /// cells that the round before reached first.
    pub open spec fn flood(&self, origin: Pos, radius: nat) -> Seq<Pos>
        decreases radius, 0int,
    {
        if radius == 0 {
            seq![origin]
        } else {
            self.expand(
                self.flood(origin, (radius - 1) as nat),
                self.frontier(origin, (radius - 1) as nat),
            )
        }
    }

    /// The cells that a flood from `origin` reaches first in round `level`.
    pub open spec fn frontier(&self, origin: Pos, level: nat) -> Seq<Pos>
        decreases level, 1int,
    {
        if level == 0 {
            seq![origin]
        } else {
            self.flood(origin, level).skip(self.flood(origin, (level - 1) as nat).len() as int)
        }
    }

    /// Every cell that can be reached from `start` in at most `radius`
    /// unobstructed steps, `start` first, each cell once, in the order in
    /// which a search that goes one step further in every round finds them.
    pub fn floodfill(&self, start: Pos, radius: usize) -> (flood: Vec<Pos>)
        requires
            self.wf(),
        ensures
            flood@ == self.flood(start, radius as nat),
            radius == 0 ==> flood@ == seq![start],
            flood@.len() > 0 && flood@[0] == start,
            flood@.no_duplicates(),
            forall|pos: Pos| #[trigger] flood@.contains(pos) <==> self.within_hops(start, pos, radius as nat),
    {
        let mut flood: Vec<Pos> = Vec::new();
        flood.push(start);
        let mut current: usize = 0;
        let mut round: usize = 0;
        proof {
            assert(flood@ =~= seq![start]);
            assert(flood@.skip(0) =~= flood@);
        }
        while round < radius
            invariant
                0 <= round <= radius,
                self.wf(),
                flood@ == self.flood(start, round as nat),
                0 <= current <= flood@.len(),
                flood@.skip(current as int) == self.frontier(start, round as nat),
            decreases radius - round,
        {
            let last = flood.len();
            let ghost seen = flood@;
            let ghost edge = flood@.skip(current as int);
            let mut index: usize = current;
            proof {
                assert(edge.take(0) =~= Seq::<Pos>::empty());
            }
            while index < last
                invariant
                    current <= index <= last,
                    last == seen.len(),
                    last <= flood@.len(),
                    self.wf(),
                    edge == seen.skip(current as int),
                    flood@.take(last as int) == seen,
                    flood@ == self.expand(seen, edge.take(index - current)),
                decreases last - index,
            {
                let pos = flood[index];
                let adj = self.reachable_neighbors(pos);
                let count = adj.len();
                let ghost before = flood@;
                let mut i: usize = 0;
                proof {
                    assert(flood@.take(last as int)[index as int] == flood@[index as int]);
                    assert(edge[index - current] == pos);
                    assert(adj@.take(0) =~= Seq::<Pos>::empty());
                }
                while i < count
                    invariant
                        0 <= i <= count,
                        count == adj@.len(),
                        last <= flood@.len(),
                        flood@.take(last as int) == seen,
                        flood@ == add_unseen(before, adj@.take(i as int)),
                    decreases count - i,
                {
                    let next_pos = neighbors_get(&adj, i);
                    proof {
                        assert(adj@.take(i + 1).drop_last() =~= adj@.take(i as int));
                        assert(adj@.take(i + 1).last() == next_pos);
                    }
                    if !holds_cell(&flood, next_pos) {
                        flood.push(next_pos);
                        proof {
                            assert(flood@.take(last as int) =~= seen);
                        }
                    }
                    i = i + 1;
                }
                proof {
                    assert(adj@.take(count as int) =~= adj@);
                    assert(edge.take(index + 1 - current).drop_last() =~= edge.take(index - current));
                    assert(edge.take(index + 1 - current).last() == pos);
                }
                index = index + 1;
            }
            proof {
                assert(edge.take(last - current) =~= edge);
                assert(flood@.take(last as int) == self.flood(start, round as nat));
                assert(self.flood(start, (round + 1) as nat) == flood@);
            }
            current = last;
            round = round + 1;
        }
        proof {
            self.lemma_flood_grows(start, radius as nat);
            assert forall|pos: Pos| #[trigger]
                flood@.contains(pos) <==> self.within_hops(start, pos, radius as nat) by {
                self.lemma_flood_reaches(start, radius as nat, pos);
            }
        }
        flood
    }
}

impl TileMap {
    /// Whether `route` is a way from `start` to `end` for a search bounded
    /// by `max_dist`: it begins at `start`, ends at `end`, and each of its
    /// cells is linked to the next.
    pub open spec fn is_route(
        &self,
        route: Seq<Pos>,
        start: Pos,
        end: Pos,
        max_dist: Option<i32>,
    ) -> bool {
        &&& route.len() > 0
        &&& route[0] == start
        &&& route.last() == end
        &&& forall|i: int|
            0 <= i < route.len() - 1 ==> self.linked(start, #[trigger] route[i], route[i + 1], max_dist)
    }

    /// The number of cells of the grid.
    pub open spec fn cell_count(&self) -> int {
        self.spec_width() * self.spec_height()
    }

    /// Whether the costs of a search on this map fit: a path is never
    /// longer than the number of cells, and an estimate never more than the
    /// longer side.
    pub open spec fn search_fits(&self) -> bool {
        self.cell_count() + self.spec_width() + self.spec_height() <= i32::MAX
    }

    /// Whether the costs of a search on this map fit.
    pub fn can_search(&self) -> (fits: bool)
        requires
            self.wf(),
        ensures
            fits == self.search_fits(),
    {
        let width = self.width() as i64;
        let height = self.height() as i64;
        proof {
            assert(0 <= width * height <= 0x7fff_ffff * 0x7fff_ffff) by (nonlinear_arith)
                requires
                    0 <= width < 0x7fff_ffff,
                    0 <= height < 0x7fff_ffff,
            ;
        }
        width * height + width + height <= i32::MAX as i64
    }
}

/// Whether a custom estimate can be called on every pair of cells and stays
/// small enough to be added to the cost of any path.
pub open spec fn estimate_fits<F: Fn(Pos, Pos, &TileMap) -> i32>(map: &TileMap, cost_fn: Option<F>) -> bool {
    cost_fn matches Some(f) ==> {
        &&& forall|a: Pos, b: Pos| f.requires((a, b, map))
        &&& forall|a: Pos, b: Pos, cost: i32|
            f.ensures((a, b, map), cost) ==> cost <= i32::MAX - map.cell_count()
    }
}

/// Whether `pos` is the cell `goal`.
pub fn same_cell(pos: Pos, goal: Pos) -> (same: bool)
    ensures
        same == (pos == goal),
{
    pos == goal
}

/// What a search expects the way from `pos` to `end` to cost at least: the
/// straight-line distance, or what the custom estimate says of `start` and
/// `pos`.
pub fn path_estimate<F: Fn(Pos, Pos, &TileMap) -> i32>(
    map: &TileMap,
    cost_fn: &Option<F>,
    start: Pos,
    pos: Pos,
    end: Pos,
) -> (estimate: i32)
    requires
        cost_fn matches Some(f) ==> f.requires((start, pos, map)),
        cost_fn is None ==> chebyshev(pos, end) <= i32::MAX,
    ensures
        cost_fn is None ==> estimate == chebyshev(pos, end),
        cost_fn matches Some(f) ==> f.ensures((start, pos, map), estimate),
{
    match cost_fn {
        Some(fun) => fun(start, pos, map),
        None => distance(pos, end),
    }
}

/// Calls `astar` of `pathfinding` from `start`, with `astar_neighbors` for
/// the steps, `path_estimate` for the estimate and `same_cell` with `end`
/// for the goal, and hands back the path without its cost. The steps that
/// `astar_neighbors` gives are those that `linked` describes
/// (`lemma_successors`). What comes back is a way from `start` to `end`
/// that holds no cell twice; nothing comes back only where there is no way. With the straight-line distance as the
/// estimate, which never exceeds the steps still to go
/// (`lemma_distance_underestimates`), no way is shorter.
/// The grid is finite, so the search ends; `search_fits` and `estimate_fits`
/// keep its sums of cost and estimate within `i32`.
#[verifier::external_body]
fn astar_search<F: Fn(Pos, Pos, &TileMap) -> i32>(
    map: &TileMap,
    start: Pos,
    end: Pos,
    max_dist: Option<i32>,
    cost_fn: &Option<F>,
) -> (found: Option<Vec<Pos>>)
    requires
        map.wf(),
        map.in_bounds(end),
        map.search_fits(),
        estimate_fits(map, *cost_fn),
    ensures
        found matches Some(path) ==> map.is_route(path@, start, end, max_dist)
            && path@.no_duplicates(),
        found is None ==> forall|route: Seq<Pos>| !map.is_route(route, start, end, max_dist),
        cost_fn is None ==> (found matches Some(path) ==> forall|route: Seq<Pos>|
            map.is_route(route, start, end, max_dist) ==> path@.len() <= route.len()),
{
    astar(
        &start,
        |pos| astar_neighbors(map, start, *pos, max_dist),
        |pos| path_estimate(map, cost_fn, start, *pos, end),
        |pos| same_cell(*pos, end),
    ).map(|found| found.0)
}

/// A way from `start` to `end` over unobstructed steps, both ends included,
/// or nothing where there is none; the way from a cell to itself is that
/// cell. A search bounded by `max_dist` takes no step from or to a cell that
/// lies further than that from `start`, so that no cell of the way does.
/// Without a custom estimate no way is shorter than the one returned. The
/// limits on the size of the map and of a custom estimate are those of the
/// search, which is made for another cell of the grid only.
pub fn astar_path<F: Fn(Pos, Pos, &TileMap) -> i32>(
    map: &TileMap,
    start: Pos,
    end: Pos,
    max_dist: Option<i32>,
    cost_fn: Option<F>,
) -> (path: Vec<Pos>)
    requires
        map.wf(),
        start != end && map.in_bounds(end) ==> map.search_fits() && estimate_fits(map, cost_fn),
    ensures
        start == end ==> path@ == seq![start],
        path@.len() > 0 ==> map.is_route(path@, start, end, max_dist) && path@.no_duplicates(),
        path@.len() == 0 <==> forall|route: Seq<Pos>| !map.is_route(route, start, end, max_dist),
        cost_fn is None ==> forall|route: Seq<Pos>|
            map.is_route(route, start, end, max_dist) ==> path@.len() <= route.len(),
        forall|i: int|
            0 <= i < path@.len() && path@.len() > 1 ==> !beyond(start, #[trigger] path@[i], max_dist),
        start != end && beyond(start, end, max_dist) ==> path@.len() == 0,
{
    let mut path: Vec<Pos> = Vec::new();
    if start == end {
        path.push(start);
        proof {
            assert(path@ =~= seq![start]);
            assert(map.is_route(path@, start, end, max_dist));
        }
        return path;
    }
    proof {
        assert forall|route: Seq<Pos>|
            map.is_route(route, start, end, max_dist) implies map.in_bounds(end) && !beyond(
            start,
            end,
            max_dist,
        ) by {
            let before = route[route.len() - 2];
            assert(map.linked(start, before, route[route.len() - 2 + 1], max_dist));
            map.lemma_neighbors(before, end);
            map.lemma_move_blocked(before, end);
        }
    }
    if !map.is_within_bounds(end) {
        return path;
    }
    match astar_search(map, start, end, max_dist, &cost_fn) {
        Some(results) => {
            proof {
                assert forall|i: int| 0 <= i < results@.len() implies !beyond(
                    start,
                    #[trigger] results@[i],
                    max_dist,
                ) by {
                    map.lemma_route_within_bound(results@, start, end, max_dist, i);
                }
            }
            results
        },
        None => path,
    }
}

impl TileMap {
    /// The steps that a search takes from a cell lead to exactly the cells
    /// that it is linked to.
    pub proof fn lemma_successors(&self, start: Pos, from: Pos, to: Pos, max_dist: Option<i32>)
        ensures
            self.successors(start, from, max_dist).contains((to, 1i32)) <==> self.linked(
                start,
                from,
                to,
                max_dist,
            ),
    {
        lemma_steps_within(self.neighbors(from), start, max_dist, to);
        if beyond(start, from, max_dist) {
            assert(self.successors(start, from, max_dist).len() == 0);
        }
    }

    /// Every cell of a way of more than one cell lies within the bound of
    /// the search.
    pub proof fn lemma_route_within_bound(
        &self,
        route: Seq<Pos>,
        start: Pos,
        end: Pos,
        max_dist: Option<i32>,
        index: int,
    )
        requires
            self.is_route(route, start, end, max_dist),
            route.len() > 1,
            0 <= index < route.len(),
        ensures
            !beyond(start, route[index], max_dist),
    {
        if index < route.len() - 1 {
            assert(self.linked(start, route[index], route[index + 1], max_dist));
        } else {
            assert(self.linked(start, route[index - 1], route[index - 1 + 1], max_dist));
        }
    }

    /// A single step along a line is the whole line: between neighbouring
    /// cells, what obstructs the line is what obstructs the step.
    pub proof fn lemma_single_step(&self, pos: Pos, next: Pos)
        requires
            chebyshev(pos, next) == 1,
        ensures
            self.line_blocked(pos, next) == self.move_blocked(pos, next),
    {
        let path = Self::move_path(pos, next);
        Self::lemma_move_path(pos, next);
        lemma_line_point(pos, next, 1);
        assert(path[1] == next);
        assert(path[0] == pos);
        if self.move_blocked(pos, next) is None {
            assert(self.first_block(path, 1) == 1);
        }
    }

    /// Whether the `k`-th of the eight steps from `pos` is free and leads
    /// to `next`.
    pub open spec fn step_reaches(&self, pos: Pos, k: int, next: Pos) -> bool {
        let step = neighbor_steps()[k];
        self.step_free(pos, step.0, step.1) && next == cell(pos.x + step.0, pos.y + step.1)
    }

    /// The neighbours of a cell are the cells one step away to which the
    /// step is free, each of them once.
    pub proof fn lemma_neighbors(&self, pos: Pos, next: Pos)
        ensures
            self.neighbors(pos).contains(next) <==> chebyshev(pos, next) == 1 && self.move_blocked(
                pos,
                next,
            ) is None,
            self.neighbors(pos).no_duplicates(),
    {
        self.lemma_neighbors_unique(pos, 8);
        if chebyshev(pos, next) == 1 {
            self.lemma_single_step(pos, next);
            let dx = next.x - pos.x;
            let dy = next.y - pos.y;
            let k = choose|k: int| 0 <= k < 8 && neighbor_steps()[k] == (dx, dy);
            if self.move_blocked(pos, next) is None {
                assert(self.step_reaches(pos, k, next));
                self.lemma_neighbors_hold(pos, 8, k, next);
            }
        }
        if self.neighbors(pos).contains(next) {
            let k = self.lemma_neighbors_reached(pos, 8, next);
            self.lemma_single_step(pos, next);
        }
    }

    /// A neighbour among the first `count` steps is reached by one of them.
    pub proof fn lemma_neighbors_reached(&self, pos: Pos, count: int, next: Pos) -> (k: int)
        requires
            0 <= count <= 8,
            self.neighbors_among(pos, count).contains(next),
        ensures
            0 <= k < count,
            self.step_reaches(pos, k, next),
        decreases count,
    {
        let before = self.neighbors_among(pos, count - 1);
        let now = self.neighbors_among(pos, count);
        if count == 0 {
            assert(now.len() == 0);
            0
        } else if before.contains(next) {
            self.lemma_neighbors_reached(pos, count - 1, next)
        } else {
            let i = choose|i: int| 0 <= i < now.len() && now[i] == next;
            if i < before.len() {
                assert(before[i] == next);
            }
            count - 1
        }
    }

    /// What one of the first `count` steps reaches is among the neighbours.
    pub proof fn lemma_neighbors_hold(&self, pos: Pos, count: int, k: int, next: Pos)
        requires
            0 <= k < count <= 8,
            self.step_reaches(pos, k, next),
        ensures
            self.neighbors_among(pos, count).contains(next),
        decreases count,
    {
        let before = self.neighbors_among(pos, count - 1);
        let now = self.neighbors_among(pos, count);
        if k < count - 1 {
            self.lemma_neighbors_hold(pos, count - 1, k, next);
            let i = choose|i: int| 0 <= i < before.len() && before[i] == next;
            assert(now[i] == next);
        } else {
            assert(now[before.len() as int] == next);
        }
    }

    /// No neighbour is held twice.
    pub proof fn lemma_neighbors_unique(&self, pos: Pos, count: int)
        requires
            0 <= count <= 8,
        ensures
            self.neighbors_among(pos, count).no_duplicates(),
        decreases count,
    {
        if count > 0 {
            self.lemma_neighbors_unique(pos, count - 1);
            let before = self.neighbors_among(pos, count - 1);
            let now = self.neighbors_among(pos, count);
            let step = neighbor_steps()[count - 1];
            let reached = cell(pos.x + step.0, pos.y + step.1);
            if self.step_free(pos, step.0, step.1) {
                if before.contains(reached) {
                    let k = self.lemma_neighbors_reached(pos, count - 1, reached);
                    assert(neighbor_steps()[k] != step);
                    assert(false);
                }
                assert forall|i: int, j: int|
                    0 <= i < now.len() && 0 <= j < now.len() && i != j implies now[i] != now[j] by {
                    if i < before.len() && j == before.len() {
                        assert(before.contains(before[i]));
                    }
                    if j < before.len() && i == before.len() {
                        assert(before.contains(before[j]));
                    }
                }
            }
        }
    }
}

} // verus!
