//! What a flood reaches: exactly the cells within its number of free steps.

use vstd::prelude::*;
use crate::types::{Pos, chebyshev};
use crate::map::{TileMap, Wall};
use crate::movement::Direction;
use crate::pathing::add_unseen;

verus! {

/// Whether `front` is the beginning of `whole`.
pub open spec fn begins_with(whole: Seq<Pos>, front: Seq<Pos>) -> bool {
    front.len() <= whole.len() && whole.take(front.len() as int) == front
}

/// Adding the unseen cells of `fresh` keeps `seen` as the beginning, holds
/// exactly the cells of the two, and holds none twice if `seen` did not.
pub proof fn lemma_add_unseen(seen: Seq<Pos>, fresh: Seq<Pos>)
    ensures
        begins_with(add_unseen(seen, fresh), seen),
        forall|pos: Pos|
            #[trigger] add_unseen(seen, fresh).contains(pos) <==> (seen.contains(pos)
                || fresh.contains(pos)),
        seen.no_duplicates() ==> add_unseen(seen, fresh).no_duplicates(),
    decreases fresh.len(),
{
    let now = add_unseen(seen, fresh);
    if fresh.len() == 0 {
        assert(now.take(seen.len() as int) =~= seen);
    } else {
        let before = add_unseen(seen, fresh.drop_last());
        lemma_add_unseen(seen, fresh.drop_last());
        let last = fresh.last();
        assert(now.take(seen.len() as int) =~= before.take(seen.len() as int));
        assert forall|pos: Pos| fresh.contains(pos) <==> fresh.drop_last().contains(pos) || pos
            == last by {
            if fresh.contains(pos) {
                let i = choose|i: int| 0 <= i < fresh.len() && fresh[i] == pos;
                if i < fresh.len() - 1 {
                    assert(fresh.drop_last()[i] == pos);
                }
            }
            if fresh.drop_last().contains(pos) {
                let i = choose|i: int| 0 <= i < fresh.len() - 1 && fresh.drop_last()[i] == pos;
                assert(fresh[i] == pos);
            }
            if pos == last {
                assert(fresh[fresh.len() - 1] == pos);
            }
        }
        if before.contains(last) {
        } else {
            assert forall|pos: Pos| now.contains(pos) <==> before.contains(pos) || pos == last by {
                if now.contains(pos) {
                    let i = choose|i: int| 0 <= i < now.len() && now[i] == pos;
                    if i < before.len() {
                        assert(before[i] == pos);
                    }
                }
                if before.contains(pos) {
                    let i = choose|i: int| 0 <= i < before.len() && before[i] == pos;
                    assert(now[i] == pos);
                }
                if pos == last {
                    assert(now[before.len() as int] == pos);
                }
            }
            if seen.no_duplicates() {
                assert forall|i: int, j: int|
                    0 <= i < now.len() && 0 <= j < now.len() && i != j implies now[i] != now[j] by {
                    if i < before.len() && j == before.len() {
                        assert(before.contains(before[i]));
                    }
                    if j < before.len() && i == before.len() {
                        assert(before.contains(before[j]));
                    }
                }
            }
        }
    }
}

impl TileMap {
    /// Whether `target` can be reached from `origin` in at most `hops` free
    /// steps.
    pub open spec fn within_hops(&self, origin: Pos, target: Pos, hops: nat) -> bool
        decreases hops,
    {
        target == origin || (hops > 0 && exists|via: Pos|
            self.within_hops(origin, via, (hops - 1) as nat) && #[trigger] self.neighbors(
                via,
            ).contains(target))
    }

    /// Whether one of the cells of `frontier` has `pos` as a neighbour that a
    /// free step reaches.
    pub open spec fn next_to_any(&self, frontier: Seq<Pos>, pos: Pos) -> bool {
        exists|i: int| 0 <= i < frontier.len() && #[trigger] self.neighbors(frontier[i]).contains(pos)
    }

    /// Expanding a frontier keeps `seen` as the beginning, holds exactly the
    /// cells of `seen` and the neighbours of the frontier, and holds none
    /// twice if `seen` did not.
    pub proof fn lemma_expand(&self, seen: Seq<Pos>, frontier: Seq<Pos>)
        ensures
            begins_with(self.expand(seen, frontier), seen),
            forall|pos: Pos|
                #[trigger] self.expand(seen, frontier).contains(pos) <==> (seen.contains(pos)
                    || self.next_to_any(frontier, pos)),
            seen.no_duplicates() ==> self.expand(seen, frontier).no_duplicates(),
        decreases frontier.len(),
    {
        let now = self.expand(seen, frontier);
        if frontier.len() == 0 {
            assert(now.take(seen.len() as int) =~= seen);
        } else {
            let before = self.expand(seen, frontier.drop_last());
            self.lemma_expand(seen, frontier.drop_last());
            let fresh = self.neighbors(frontier.last());
            lemma_add_unseen(before, fresh);
            assert(now.take(seen.len() as int) =~= now.take(before.len() as int).take(
                seen.len() as int,
            ));
            assert forall|pos: Pos|
                self.next_to_any(frontier, pos) <==> self.next_to_any(frontier.drop_last(), pos)
                    || fresh.contains(pos) by {
                if self.next_to_any(frontier, pos) {
                    let i = choose|i: int|
                        0 <= i < frontier.len() && #[trigger] self.neighbors(frontier[i]).contains(
                            pos,
                        );
                    if i < frontier.len() - 1 {
                        assert(self.neighbors(frontier.drop_last()[i]).contains(pos));
                    }
                }
                if self.next_to_any(frontier.drop_last(), pos) {
                    let i = choose|i: int|
                        0 <= i < frontier.len() - 1 && #[trigger] self.neighbors(
                            frontier.drop_last()[i],
                        ).contains(pos);
                    assert(self.neighbors(frontier[i]).contains(pos));
                }
                if fresh.contains(pos) {
                    assert(self.neighbors(frontier[frontier.len() - 1]).contains(pos));
                }
            }
        }
    }

    /// Each round of a flood keeps what the rounds before reached, in their
    /// order, and reaches no cell twice; the origin comes first.
    pub proof fn lemma_flood_grows(&self, origin: Pos, radius: nat)
        ensures
            self.flood(origin, radius).no_duplicates(),
            self.flood(origin, radius).len() > 0,
            self.flood(origin, radius)[0] == origin,
            radius > 0 ==> begins_with(
                self.flood(origin, radius),
                self.flood(origin, (radius - 1) as nat),
            ),
        decreases radius,
    {
        if radius > 0 {
            let before = self.flood(origin, (radius - 1) as nat);
            self.lemma_flood_grows(origin, (radius - 1) as nat);
            self.lemma_expand(before, self.frontier(origin, (radius - 1) as nat));
            let now = self.flood(origin, radius);
            assert(now.take(before.len() as int)[0] == now[0]);
        }
    }

    /// A later round of a flood holds every cell of an earlier one.
    pub proof fn lemma_flood_keeps(&self, origin: Pos, earlier: nat, later: nat, pos: Pos)
        requires
            earlier <= later,
            self.flood(origin, earlier).contains(pos),
        ensures
            self.flood(origin, later).contains(pos),
        decreases later - earlier,
    {
        if earlier < later {
            self.lemma_flood_keeps(origin, earlier, (later - 1) as nat, pos);
            let before = self.flood(origin, (later - 1) as nat);
            self.lemma_flood_grows(origin, later);
            let i = choose|i: int| 0 <= i < before.len() && before[i] == pos;
            let now = self.flood(origin, later);
            assert(now.take(before.len() as int)[i] == now[i]);
        }
    }

    /// A cell that a flood holds after a round was held before the round or
    /// is in the frontier of the round.
    pub proof fn lemma_flood_split(&self, origin: Pos, radius: nat, pos: Pos)
        requires
            self.flood(origin, radius).contains(pos),
        ensures
            self.frontier(origin, radius).contains(pos) || (radius > 0 && self.flood(
                origin,
                (radius - 1) as nat,
            ).contains(pos)),
    {
        if radius > 0 {
            let before = self.flood(origin, (radius - 1) as nat);
            let now = self.flood(origin, radius);
            self.lemma_flood_grows(origin, radius);
            let i = choose|i: int| 0 <= i < now.len() && now[i] == pos;
            if i < before.len() {
                assert(now.take(before.len() as int)[i] == pos);
                assert(before[i] == pos);
            } else {
                assert(now.skip(before.len() as int)[i - before.len()] == pos);
            }
        }
    }

    /// A flood reaches only cells within as many free steps as it has made
    /// rounds.
    pub proof fn lemma_flood_sound(&self, origin: Pos, radius: nat, pos: Pos)
        requires
            self.flood(origin, radius).contains(pos),
        ensures
            self.within_hops(origin, pos, radius),
        decreases radius,
    {
        if radius == 0 {
            let now = self.flood(origin, radius);
            let i = choose|i: int| 0 <= i < now.len() && now[i] == pos;
            assert(now[i] == origin);
        } else {
            let before = self.flood(origin, (radius - 1) as nat);
            let edge = self.frontier(origin, (radius - 1) as nat);
            self.lemma_expand(before, edge);
            if before.contains(pos) {
                self.lemma_flood_sound(origin, (radius - 1) as nat, pos);
                self.lemma_hops_more(origin, pos, (radius - 1) as nat, radius);
            } else {
                assert(self.next_to_any(edge, pos));
                let i = choose|i: int|
                    0 <= i < edge.len() && #[trigger] self.neighbors(edge[i]).contains(pos);
                let via = edge[i];
                assert(edge.contains(via));
                self.lemma_frontier_in_flood(origin, (radius - 1) as nat, via);
                self.lemma_flood_sound(origin, (radius - 1) as nat, via);
                assert(self.neighbors(via).contains(pos));
            }
        }
    }

    /// The frontier of a round is part of the flood after that round.
    pub proof fn lemma_frontier_in_flood(&self, origin: Pos, radius: nat, pos: Pos)
        requires
            self.frontier(origin, radius).contains(pos),
        ensures
            self.flood(origin, radius).contains(pos),
    {
        let edge = self.frontier(origin, radius);
        let now = self.flood(origin, radius);
        let i = choose|i: int| 0 <= i < edge.len() && edge[i] == pos;
        if radius == 0 {
            assert(now[0] == pos);
        } else {
            let before = self.flood(origin, (radius - 1) as nat);
            self.lemma_flood_grows(origin, radius);
            assert(now[before.len() + i] == pos);
        }
    }

    /// What is within some free steps is within more of them.
    pub proof fn lemma_hops_more(&self, origin: Pos, pos: Pos, fewer: nat, more: nat)
        requires
            fewer <= more,
            self.within_hops(origin, pos, fewer),
        ensures
            self.within_hops(origin, pos, more),
        decreases fewer,
    {
        if pos != origin {
            let via = choose|via: Pos|
                self.within_hops(origin, via, (fewer - 1) as nat) && #[trigger] self.neighbors(
                    via,
                ).contains(pos);
            self.lemma_hops_more(origin, via, (fewer - 1) as nat, (more - 1) as nat);
        }
    }

    /// After one more round a flood holds every neighbour of every cell
    /// that it held before.
    pub proof fn lemma_flood_closed(&self, origin: Pos, radius: nat, via: Pos, pos: Pos)
        requires
            self.flood(origin, radius).contains(via),
            self.neighbors(via).contains(pos),
        ensures
            self.flood(origin, radius + 1).contains(pos),
        decreases radius,
    {
        let now = self.flood(origin, radius);
        let edge = self.frontier(origin, radius);
        self.lemma_expand(now, edge);
        self.lemma_flood_split(origin, radius, via);
        assert(self.flood(origin, radius + 1) == self.expand(now, edge)) by {
            assert((radius + 1 - 1) as nat == radius);
        }
        if edge.contains(via) {
            let i = choose|i: int| 0 <= i < edge.len() && edge[i] == via;
            assert(self.neighbors(edge[i]).contains(pos));
            assert(self.next_to_any(edge, pos));
            assert(self.expand(now, edge).contains(pos));
        } else {
            self.lemma_flood_closed(origin, (radius - 1) as nat, via, pos);
            assert(((radius - 1) as nat + 1) as nat == radius);
            self.lemma_flood_keeps(origin, radius, radius + 1, pos);
        }
    }

    /// A flood reaches every cell within as many free steps as it has made
    /// rounds.
    pub proof fn lemma_flood_complete(&self, origin: Pos, radius: nat, pos: Pos)
        requires
            self.within_hops(origin, pos, radius),
        ensures
            self.flood(origin, radius).contains(pos),
        decreases radius,
    {
        self.lemma_flood_grows(origin, radius);
        if pos == origin {
            assert(self.flood(origin, radius)[0] == pos);
        } else {
            let via = choose|via: Pos|
                self.within_hops(origin, via, (radius - 1) as nat) && #[trigger] self.neighbors(
                    via,
                ).contains(pos);
            self.lemma_flood_complete(origin, (radius - 1) as nat, via);
            self.lemma_flood_closed(origin, (radius - 1) as nat, via, pos);
        }
    }

    /// A flood of `radius` rounds holds exactly the cells within `radius`
    /// free steps of the origin.
    pub proof fn lemma_flood_reaches(&self, origin: Pos, radius: nat, pos: Pos)
        ensures
            self.flood(origin, radius).contains(pos) <==> self.within_hops(origin, pos, radius),
    {
        if self.flood(origin, radius).contains(pos) {
            self.lemma_flood_sound(origin, radius, pos);
        }
        if self.within_hops(origin, pos, radius) {
            self.lemma_flood_complete(origin, radius, pos);
        }
    }

    /// A cell within some free steps is no further away in a straight line.
    pub proof fn lemma_hops_bound_distance(&self, origin: Pos, pos: Pos, hops: nat)
        requires
            self.within_hops(origin, pos, hops),
        ensures
            chebyshev(origin, pos) <= hops,
        decreases hops,
    {
        if pos != origin {
            let via = choose|via: Pos|
                self.within_hops(origin, via, (hops - 1) as nat) && #[trigger] self.neighbors(
                    via,
                ).contains(pos);
            self.lemma_hops_bound_distance(origin, via, (hops - 1) as nat);
            self.lemma_neighbors(via, pos);
        }
    }

    /// Whether every step into `pos` is obstructed.
    pub open spec fn enclosed(&self, pos: Pos) -> bool {
        forall|from: Pos| chebyshev(from, pos) == 1 ==> (#[trigger] self.move_blocked(from, pos)) is Some
    }

    /// Whether walls stand on all four edges of the cell `pos`: on its own
    /// left and bottom edge, on the left edge of the cell to its right and
    /// on the bottom edge of the cell above it.
    pub open spec fn walled_in(&self, pos: Pos) -> bool {
        &&& self.in_bounds(pos)
        &&& self.in_bounds_at(pos.x + 1, pos.y as int)
        &&& self.in_bounds_at(pos.x as int, pos.y - 1)
        &&& self.cell(pos).left_wall != Wall::Empty
        &&& self.cell(pos).bottom_wall != Wall::Empty
        &&& self.cell_at(pos.x + 1, pos.y as int).left_wall != Wall::Empty
        &&& self.cell_at(pos.x as int, pos.y - 1).bottom_wall != Wall::Empty
    }

    /// No step enters a cell with walls on all its four edges, neither
    /// across an edge nor past a corner.
    pub proof fn lemma_walled_in_is_enclosed(&self, pos: Pos)
        requires
            self.walled_in(pos),
        ensures
            self.enclosed(pos),
    {
        assert forall|from: Pos| chebyshev(from, pos) == 1 implies (#[trigger] self.move_blocked(
            from,
            pos,
        )) is Some by {
            let dir = Direction::spec_from_dxy(pos.x - from.x, pos.y - from.y);
            let checks = self.corner_checks(from.x as int, from.y as int, dir);
            if dir.is_diagonal() {
                assert(checks.0 || checks.1 || checks.2 || checks.3);
            }
        }
    }

    /// On a way to `end` the straight-line distance from a cell to `end`
    /// is never more than the steps still to go, so that it is a safe
    /// estimate for a search.
    pub proof fn lemma_distance_underestimates(
        &self,
        route: Seq<Pos>,
        start: Pos,
        end: Pos,
        max_dist: Option<i32>,
        index: int,
    )
        requires
            self.is_route(route, start, end, max_dist),
            0 <= index < route.len(),
        ensures
            chebyshev(route[index], end) <= route.len() - 1 - index,
        decreases route.len() - index,
    {
        if index < route.len() - 1 {
            self.lemma_distance_underestimates(route, start, end, max_dist, index + 1);
            assert(self.linked(start, route[index], route[index + 1], max_dist));
            self.lemma_neighbors(route[index], route[index + 1]);
        }
    }

    /// No way leads to another cell into which every step is obstructed.
    pub proof fn lemma_enclosed_unreachable(
        &self,
        route: Seq<Pos>,
        start: Pos,
        end: Pos,
        max_dist: Option<i32>,
    )
        requires
            start != end,
            self.enclosed(end),
        ensures
            !self.is_route(route, start, end, max_dist),
    {
        if self.is_route(route, start, end, max_dist) {
            let before = route[route.len() - 2];
            assert(self.linked(start, before, route[route.len() - 2 + 1], max_dist));
            self.lemma_neighbors(before, end);
        }
    }
}

} // verus!
