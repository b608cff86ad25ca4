//! Area effects: the cells that an effect covers, in rings by distance.

use vstd::prelude::*;
use crate::types::{Pos, chebyshev};
use crate::map::TileMap;
use crate::utils::steps_apart;

verus! {

/// What an area effect carries.
#[derive(Clone, Copy, Debug, PartialEq, Eq, PartialOrd, Structural)]
pub enum AoeEffect {
    Sound,
}

/// The cells that an area effect covers, in rings: `positions[d]` holds the
/// cells at the straight-line distance `d` from the origin.
#[derive(Clone, Debug, PartialEq)]
pub struct Aoe {
    pub effect: AoeEffect,
    pub positions: Vec<Vec<Pos>>,
}

/// The cells of the rings, one ring after the other.
pub open spec fn flattened(rings: Seq<Vec<Pos>>) -> Seq<Pos>
    decreases rings.len(),
{
    if rings.len() == 0 {
        Seq::empty()
    } else {
        flattened(rings.drop_last()) + rings.last()@
    }
}

/// Beyond which distance an effect of the given radius does not pass
/// obstructions: two less than the radius, and not less than 0.
pub open spec fn damp_radius(radius: nat) -> nat {
    if radius > 2 {
        (radius - 2) as nat
    } else {
        0
    }
}

impl Aoe {
    pub fn new(effect: AoeEffect, positions: Vec<Vec<Pos>>) -> (aoe: Aoe)
        ensures
            aoe.effect == effect,
            aoe.positions == positions,
    {
        Aoe { effect, positions }
    }

    /// Every cell that the effect covers, ring by ring.
    pub fn positions(&self) -> (cells: Vec<Pos>)
        ensures
            cells@ == flattened(self.positions@),
    {
        let mut cells: Vec<Pos> = Vec::new();
        let mut ring: usize = 0;
        proof {
            assert(self.positions@.take(0) =~= Seq::<Vec<Pos>>::empty());
        }
        while ring < self.positions.len()
            invariant
                0 <= ring <= self.positions@.len(),
                cells@ == flattened(self.positions@.take(ring as int)),
            decreases self.positions@.len() - ring,
        {
            let ghost before = cells@;
            let mut i: usize = 0;
            while i < self.positions[ring].len()
                invariant
                    0 <= ring < self.positions@.len(),
                    0 <= i <= self.positions@[ring as int]@.len(),
                    cells@ == before + self.positions@[ring as int]@.take(i as int),
                decreases self.positions@[ring as int]@.len() - i,
            {
                cells.push(self.positions[ring][i]);
                proof {
                    assert(cells@ =~= before + self.positions@[ring as int]@.take(i + 1));
                }
                i = i + 1;
            }
            proof {
                let done = self.positions@.take(ring + 1);
                assert(done.drop_last() =~= self.positions@.take(ring as int));
                assert(self.positions@[ring as int]@.take(i as int) =~= self.positions@[ring as int]@);
            }
            ring = ring + 1;
        }
        proof {
            assert(self.positions@.take(ring as int) =~= self.positions@);
        }
        cells
    }
}

impl TileMap {
    /// Whether the effect from `origin` does not carry to `pos`: the
    /// straight move is obstructed from `origin` to `pos` and from `pos` to
    /// `origin`, and `pos` lies beyond the damping radius.
    pub open spec fn dampened(&self, origin: Pos, pos: Pos, radius: nat) -> bool {
        &&& self.line_blocked(origin, pos) is Some
        &&& self.line_blocked(pos, origin) is Some
        &&& chebyshev(origin, pos) > damp_radius(radius)
    }

    /// Whether the effect from `origin` covers `pos` in ring `ring`.
    pub open spec fn in_ring(&self, origin: Pos, pos: Pos, radius: nat, ring: int) -> bool {
        chebyshev(origin, pos) == ring && !self.dampened(origin, pos, radius)
    }

    /// Those of `cells`, in order, that the effect covers in ring `ring`.
    pub open spec fn ring_of(&self, cells: Seq<Pos>, origin: Pos, radius: nat, ring: int) -> Seq<Pos>
        decreases cells.len(),
    {
        if cells.len() == 0 {
            Seq::empty()
        } else {
            let before = self.ring_of(cells.drop_last(), origin, radius, ring);
            if self.in_ring(origin, cells.last(), radius, ring) {
                before.push(cells.last())
            } else {
                before
            }
        }
    }

    /// Ring `ring` of an effect of the given radius from `origin`: the cells
    /// that a flood reaches, at that straight-line distance, to which the
    /// effect carries.
    pub open spec fn aoe_ring(&self, origin: Pos, radius: nat, ring: int) -> Seq<Pos> {
        self.ring_of(self.flood(origin, radius), origin, radius, ring)
    }

    /// The cells that an effect from `start` covers within `radius` steps,
    /// in rings by their straight-line distance from `start`.
    pub fn aoe_fill(&self, aoe_effect: AoeEffect, start: Pos, radius: usize) -> (aoe: Aoe)
        requires
            self.wf(),
            radius < usize::MAX,
        ensures
            aoe.effect == aoe_effect,
            aoe.positions@.len() == radius + 1,
            forall|ring: int|
                0 <= ring <= radius ==> (#[trigger] aoe.positions@[ring])@ == self.aoe_ring(
                    start,
                    radius as nat,
                    ring,
                ),
            aoe.positions@[0]@ == seq![start],
    {
        let flood = self.floodfill(start, radius);
        let mut aoe_dists: Vec<Vec<Pos>> = Vec::new();
        let mut ring: usize = 0;
        while ring < radius + 1
            invariant
                0 <= ring <= radius + 1,
                radius < usize::MAX,
                aoe_dists@.len() == ring,
                forall|d: int| 0 <= d < ring ==> (#[trigger] aoe_dists@[d])@ == Seq::<Pos>::empty(),
            decreases radius + 1 - ring,
        {
            aoe_dists.push(Vec::new());
            ring = ring + 1;
        }
        let mut i: usize = 0;
        proof {
            assert(flood@.take(0) =~= Seq::<Pos>::empty());
        }
        while i < flood.len()
            invariant
                0 <= i <= flood@.len(),
                self.wf(),
                flood@ == self.flood(start, radius as nat),
                aoe_dists@.len() == radius + 1,
                forall|d: int|
                    0 <= d <= radius ==> (#[trigger] aoe_dists@[d])@ == self.ring_of(
                        flood@.take(i as int),
                        start,
                        radius as nat,
                        d,
                    ),
            decreases flood@.len() - i,
        {
            let pos = flood[i];
            let dist = steps_apart(start, pos);
            // the effect is dampened only where it is blocked both ways
            let is_blocked_to = self.is_blocked_between(start, pos).is_some();
            let is_blocked_from = self.is_blocked_between(pos, start).is_some();
            let is_blocked = is_blocked_to && is_blocked_from;
            let within_damping = if radius > 2 { dist <= radius - 2 } else { dist == 0 };
            proof {
                assert(flood@.contains(pos));
                self.lemma_flood_reaches(start, radius as nat, pos);
                self.lemma_hops_bound_distance(start, pos, radius as nat);
                assert(flood@.take(i + 1).drop_last() =~= flood@.take(i as int));
                assert(flood@.take(i + 1).last() == pos);
            }
            if !is_blocked || within_damping {
                aoe_dists[dist].push(pos);
            }
            i = i + 1;
        }
        proof {
            assert(flood@.take(i as int) =~= flood@);
            self.lemma_ring_zero(start, radius as nat);
        }
        Aoe::new(aoe_effect, aoe_dists)
    }

    /// A ring holds the cells of `cells` that the effect covers in it, and
    /// none twice if `cells` holds none twice.
    pub proof fn lemma_ring_of(&self, cells: Seq<Pos>, origin: Pos, radius: nat, ring: int, pos: Pos)
        ensures
            self.ring_of(cells, origin, radius, ring).contains(pos) <==> cells.contains(pos)
                && self.in_ring(origin, pos, radius, ring),
            cells.no_duplicates() ==> self.ring_of(cells, origin, radius, ring).no_duplicates(),
        decreases cells.len(),
    {
        let now = self.ring_of(cells, origin, radius, ring);
        if cells.len() > 0 {
            let rest = cells.drop_last();
            let before = self.ring_of(rest, origin, radius, ring);
            let last = cells.last();
            self.lemma_ring_of(rest, origin, radius, ring, pos);
            if cells.contains(pos) {
                let i = choose|i: int| 0 <= i < cells.len() && cells[i] == pos;
                if i < cells.len() - 1 {
                    assert(rest[i] == pos);
                }
            }
            if rest.contains(pos) {
                let i = choose|i: int| 0 <= i < rest.len() && rest[i] == pos;
                assert(cells[i] == pos);
            }
            assert(cells[cells.len() - 1] == last);
            if self.in_ring(origin, last, radius, ring) {
                if now.contains(pos) {
                    let i = choose|i: int| 0 <= i < now.len() && now[i] == pos;
                    if i < before.len() {
                        assert(before[i] == pos);
                    }
                }
                if before.contains(pos) {
                    let i = choose|i: int| 0 <= i < before.len() && before[i] == pos;
                    assert(now[i] == pos);
                }
                assert(now[before.len() as int] == last);
                if cells.no_duplicates() {
                    self.lemma_ring_of(rest, origin, radius, ring, last);
                    assert(!rest.contains(last)) by {
                        if rest.contains(last) {
                            let i = choose|i: int| 0 <= i < rest.len() && rest[i] == last;
                            assert(cells[i] == cells[cells.len() - 1]);
                        }
                    }
                    assert forall|i: int, j: int|
                        0 <= i < now.len() && 0 <= j < now.len() && i != j implies now[i]
                        != now[j] by {
                        if i < before.len() && j == before.len() {
                            assert(before.contains(before[i]));
                        }
                        if j < before.len() && i == before.len() {
                            assert(before.contains(before[j]));
                        }
                    }
                }
            }
        }
    }

    /// The innermost ring of an effect holds the origin and nothing else.
    pub proof fn lemma_ring_zero(&self, origin: Pos, radius: nat)
        ensures
            self.aoe_ring(origin, radius, 0) == seq![origin],
    {
        let flood = self.flood(origin, radius);
        let ring = self.aoe_ring(origin, radius, 0);
        self.lemma_flood_grows(origin, radius);
        self.lemma_ring_of(flood, origin, radius, 0, origin);
        assert(flood.contains(origin));
        assert(ring.contains(origin));
        assert forall|i: int| 0 <= i < ring.len() implies ring[i] == origin by {
            assert(ring.contains(ring[i]));
            self.lemma_ring_of(flood, origin, radius, 0, ring[i]);
        }
        if ring.len() > 1 {
            assert(ring[0] == ring[1]);
        }
        assert(ring =~= seq![origin]);
    }

    /// The rings of an effect together hold exactly the cells that the flood
    /// reaches and to which the effect carries, each in the ring of its
    /// straight-line distance and in no other.
    pub proof fn lemma_rings_cover(&self, origin: Pos, radius: nat, pos: Pos)
        ensures
            (exists|ring: int| 0 <= ring <= radius && #[trigger] self.aoe_ring(origin, radius, ring).contains(pos))
                <==> self.flood(origin, radius).contains(pos) && !self.dampened(origin, pos, radius),
            forall|ring: int| #[trigger]
                self.aoe_ring(origin, radius, ring).contains(pos) ==> ring == chebyshev(origin, pos),
    {
        let flood = self.flood(origin, radius);
        let d = chebyshev(origin, pos);
        assert forall|ring: int| #[trigger]
            self.aoe_ring(origin, radius, ring).contains(pos) implies ring == chebyshev(
            origin,
            pos,
        ) by {
            self.lemma_ring_of(flood, origin, radius, ring, pos);
        }
        if flood.contains(pos) && !self.dampened(origin, pos, radius) {
            self.lemma_flood_reaches(origin, radius, pos);
            self.lemma_hops_bound_distance(origin, pos, radius);
            self.lemma_ring_of(flood, origin, radius, d, pos);
            assert(self.aoe_ring(origin, radius, d).contains(pos));
        }
        if exists|ring: int|
            0 <= ring <= radius && #[trigger] self.aoe_ring(origin, radius, ring).contains(pos) {
            let ring = choose|ring: int|
                0 <= ring <= radius && #[trigger] self.aoe_ring(origin, radius, ring).contains(pos);
            self.lemma_ring_of(flood, origin, radius, ring, pos);
        }
    }
}

} // verus!
