//! Groups of occupied tiles that hang together, and the mending of tiles
//! that touch at a corner only.

use vstd::prelude::*;
use crate::types::{Pos, cell, fits};
use crate::map::{TileMap, Tile, TileType, BLANK_GLYPH};
use crate::utils::holds_cell;

verus! {

/// The shape of a group of occupied tiles that hang together.
#[derive(Clone, Copy, PartialEq, Eq, PartialOrd, Ord, Debug, Structural)]
pub enum StructureType {
    Single,
    Line,
    Path,
    Complex,
}

/// A group of occupied tiles that hang together, in the order in which they
/// were found, and its shape.
#[derive(Clone, PartialEq, Debug)]
pub struct Structure {
    pub blocks: Vec<Pos>,
    pub typ: StructureType,
}

impl Structure {
    /// A structure without blocks.
    pub fn new() -> (structure: Structure)
        ensures
            structure.blocks@ == Seq::<Pos>::empty(),
            structure.typ == StructureType::Single,
    {
        Structure { blocks: Vec::new(), typ: StructureType::Single }
    }

    pub fn add_block(&mut self, block: Pos)
        ensures
            final(self).blocks@ == old(self).blocks@.push(block),
            final(self).typ == old(self).typ,
    {
        self.blocks.push(block);
    }

    /// The blocks and the shape of the structure.
    pub open spec fn shape(self) -> (Seq<Pos>, StructureType) {
        (self.blocks@, self.typ)
    }
}

/// The four steps to the cells beside a cell: right, down, left, up.
pub open spec fn side_steps() -> Seq<(int, int)> {
    seq![(1, 0), (0, 1), (-1, 0), (0, -1)]
}

/// The `index`-th of the four steps to the cells beside a cell.
fn side_step(index: usize) -> (step: (i32, i32))
    requires
        index < 4,
    ensures
        (step.0 as int, step.1 as int) == side_steps()[index as int],
        -1 <= step.0 <= 1,
        -1 <= step.1 <= 1,
{
    if index == 0 {
        (1, 0)
    } else if index == 1 {
        (0, 1)
    } else if index == 2 {
        (-1, 0)
    } else {
        (0, -1)
    }
}

/// How many of `all` are not among `seen`.
pub open spec fn unseen(all: Seq<Pos>, seen: Seq<Pos>) -> nat
    decreases all.len(),
{
    if all.len() == 0 {
        0
    } else {
        unseen(all.drop_last(), seen) + if seen.contains(all.last()) {
            0nat
        } else {
            1nat
        }
    }
}

/// What a structure has grown to: its blocks, its shape, and every block
/// that has been seen so far.
pub struct Growth {
    pub blocks: Seq<Pos>,
    pub typ: StructureType,
    pub seen: Seq<Pos>,
}

/// Whether the line turns at its end: the step from the block before the
/// last to the last is not the step from the last to `next`.
pub open spec fn turns(blocks: Seq<Pos>, next: Pos) -> bool {
    let before = blocks[blocks.len() - 2];
    let last = blocks[blocks.len() - 1];
    before.x - last.x != last.x - next.x || before.y - last.y != last.y - next.y
}

impl TileMap {
    /// Whether `pos` is an occupied cell of the grid that has not been
    /// seen.
    pub open spec fn fresh_block(&self, pos: Pos, seen: Seq<Pos>) -> bool {
        self.in_bounds(pos) && self.cell(pos).blocked && !seen.contains(pos)
    }

    /// The unseen occupied cells among the first `count` of the four cells
    /// beside `block`.
    pub open spec fn adjacent_among(&self, block: Pos, seen: Seq<Pos>, count: int) -> Seq<Pos>
        decreases count,
    {
        if count <= 0 {
            Seq::empty()
        } else {
            let before = self.adjacent_among(block, seen, count - 1);
            let step = side_steps()[count - 1];
            if fits(block.x + step.0, block.y + step.1) && self.fresh_block(
                cell(block.x + step.0, block.y + step.1),
                seen,
            ) {
                before.push(cell(block.x + step.0, block.y + step.1))
            } else {
                before
            }
        }
    }

    /// The unseen occupied cells beside `block`: right, down, left, up.
    pub open spec fn adjacent(&self, block: Pos, seen: Seq<Pos>) -> Seq<Pos> {
        self.adjacent_among(block, seen, 4)
    }

    /// The occupied cells among the first `count` of row `y`.
    pub open spec fn row_blocks(&self, y: int, count: int) -> Seq<Pos>
        decreases count,
    {
        if count <= 0 {
            Seq::empty()
        } else {
            let before = self.row_blocks(y, count - 1);
            if self.cell_at(count - 1, y).blocked {
                before.push(cell(count - 1, y))
            } else {
                before
            }
        }
    }

    /// The occupied cells of the first `rows` rows, row by row.
    pub open spec fn grid_blocks(&self, rows: int) -> Seq<Pos>
        decreases rows,
    {
        if rows <= 0 {
            Seq::empty()
        } else {
            self.grid_blocks(rows - 1) + self.row_blocks(rows - 1, self.spec_width())
        }
    }

    /// Every occupied cell of the grid, row by row.
    pub open spec fn all_blocks(&self) -> Seq<Pos> {
        self.grid_blocks(self.spec_height())
    }

    /// The structure after it has grown from `block`. The unseen occupied
    /// cells beside `block` join it and count as seen; then it grows from
    /// each of them in turn. One such cell leaves a line a line unless the
    /// line turns, which makes it a path; more than one make the structure
    /// complex. `depth` bounds how deep the growth goes and is never used up
    /// when it is more than the number of unseen blocks.
    pub open spec fn grown(&self, depth: nat, block: Pos, state: Growth) -> Growth
        decreases depth, 0int,
    {
        let adjacent = self.adjacent(block, state.seen);
        if depth == 0 || adjacent.len() == 0 {
            state
        } else {
            let typ = if adjacent.len() > 1 {
                StructureType::Complex
            } else if state.typ == StructureType::Line && state.blocks.len() > 1 && turns(
                state.blocks,
                adjacent[0],
            ) {
                StructureType::Path
            } else {
                state.typ
            };
            self.grown_each(
                (depth - 1) as nat,
                adjacent,
                0,
                Growth { blocks: state.blocks + adjacent, typ, seen: state.seen + adjacent },
            )
        }
    }

    /// The structure after it has grown from each of `blocks` in turn, from
    /// the one at `from` on.
    pub open spec fn grown_each(&self, depth: nat, blocks: Seq<Pos>, from: int, state: Growth) -> Growth
        decreases depth, blocks.len() - from + 1,
    {
        if from < 0 || from >= blocks.len() {
            state
        } else {
            self.grown_each(depth, blocks, from + 1, self.grown(depth, blocks[from], state))
        }
    }

    /// The structures found once the first `count` occupied cells have been
    /// looked at, with the blocks seen so far. An unseen block with one
    /// unseen block beside it starts a line, one with more than two starts
    /// a complex structure, and one with none is a structure by itself; a
    /// block with exactly two is left for the structure that reaches it.
    pub open spec fn structures_among(&self, count: int) -> (Seq<(Seq<Pos>, StructureType)>, Seq<Pos>)
        decreases count,
    {
        if count <= 0 {
            (Seq::empty(), Seq::empty())
        } else {
            let found = self.structures_among(count - 1);
            let all = self.all_blocks();
            let block = all[count - 1];
            let adjacent = self.adjacent(block, found.1);
            let depth = (all.len() + 1) as nat;
            if found.1.contains(block) || adjacent.len() == 2 {
                found
            } else if adjacent.len() == 1 {
                let grown = self.grown(
                    depth,
                    block,
                    Growth {
                        blocks: seq![block],
                        typ: StructureType::Line,
                        seen: found.1.push(block),
                    },
                );
                (found.0.push((grown.blocks, grown.typ)), grown.seen)
            } else if adjacent.len() > 2 {
                let grown = self.grown_each(
                    depth,
                    adjacent,
                    0,
                    Growth {
                        blocks: seq![block],
                        typ: StructureType::Complex,
                        seen: found.1.push(block) + adjacent,
                    },
                );
                (found.0.push((grown.blocks, grown.typ)), grown.seen)
            } else {
                (found.0.push((seq![block], StructureType::Single)), found.1.push(block))
            }
        }
    }

    /// Every structure of the map.
    pub open spec fn structures(&self) -> Seq<(Seq<Pos>, StructureType)> {
        self.structures_among(self.all_blocks().len() as int).0
    }
}

/// The occupied cells beside `block` that have not been seen: right, down,
/// left, up.
pub fn adjacent_blocks(block: Pos, map: &TileMap, seen: &Vec<Pos>) -> (result: Vec<Pos>)
    requires
        map.wf(),
    ensures
        result@ == map.adjacent(block, seen@),
{
    let mut result: Vec<Pos> = Vec::new();
    let mut index: usize = 0;
    while index < 4
        invariant
            0 <= index <= 4,
            map.wf(),
            result@ == map.adjacent_among(block, seen@, index as int),
        decreases 4 - index,
    {
        let step = side_step(index);
        let x: i64 = block.x as i64 + step.0 as i64;
        let y: i64 = block.y as i64 + step.1 as i64;
        if i32::MIN as i64 <= x && x <= i32::MAX as i64 && i32::MIN as i64 <= y && y
            <= i32::MAX as i64 {
            let adj = Pos::new(x as i32, y as i32);
            if map.is_within_bounds(adj) && map.get_tile(adj).blocked && !holds_cell(seen, adj) {
                result.push(adj);
            }
        }
        index = index + 1;
    }
    result
}

impl TileMap {
    /// What lies beside a block are cells of the grid, occupied, unseen and
    /// different from each other.
    pub proof fn lemma_adjacent(&self, block: Pos, seen: Seq<Pos>, count: int)
        requires
            0 <= count <= 4,
        ensures
            forall|i: int|
                0 <= i < self.adjacent_among(block, seen, count).len() ==> self.fresh_block(
                    #[trigger] self.adjacent_among(block, seen, count)[i],
                    seen,
                ),
            forall|i: int|
                0 <= i < self.adjacent_among(block, seen, count).len() ==> exists|k: int|
                    0 <= k < count && #[trigger] self.adjacent_among(block, seen, count)[i] == cell(
                        block.x + side_steps()[k].0,
                        block.y + side_steps()[k].1,
                    ) && fits(block.x + side_steps()[k].0, block.y + side_steps()[k].1),
            self.adjacent_among(block, seen, count).no_duplicates(),
        decreases count,
    {
        if count > 0 {
            self.lemma_adjacent(block, seen, count - 1);
            let before = self.adjacent_among(block, seen, count - 1);
            let now = self.adjacent_among(block, seen, count);
            let step = side_steps()[count - 1];
            let reached = cell(block.x + step.0, block.y + step.1);
            if fits(block.x + step.0, block.y + step.1) && self.fresh_block(reached, seen) {
                assert forall|i: int| 0 <= i < now.len() implies exists|k: int|
                    0 <= k < count && #[trigger] now[i] == cell(
                        block.x + side_steps()[k].0,
                        block.y + side_steps()[k].1,
                    ) && fits(block.x + side_steps()[k].0, block.y + side_steps()[k].1) by {
                    if i < before.len() {
                        let k = choose|k: int|
                            0 <= k < count - 1 && before[i] == cell(
                                block.x + side_steps()[k].0,
                                block.y + side_steps()[k].1,
                            ) && fits(block.x + side_steps()[k].0, block.y + side_steps()[k].1);
                        assert(0 <= k < count);
                    } else {
                        assert(now[i] == cell(
                            block.x + side_steps()[count - 1].0,
                            block.y + side_steps()[count - 1].1,
                        ));
                    }
                }
                assert forall|i: int, j: int|
                    0 <= i < now.len() && 0 <= j < now.len() && i != j implies now[i] != now[j] by {
                    if i < before.len() && j == before.len() {
                        let k = choose|k: int|
                            0 <= k < count - 1 && before[i] == cell(
                                block.x + side_steps()[k].0,
                                block.y + side_steps()[k].1,
                            ) && fits(block.x + side_steps()[k].0, block.y + side_steps()[k].1);
                        assert(side_steps()[k] != step);
                    }
                    if j < before.len() && i == before.len() {
                        let k = choose|k: int|
                            0 <= k < count - 1 && before[j] == cell(
                                block.x + side_steps()[k].0,
                                block.y + side_steps()[k].1,
                            ) && fits(block.x + side_steps()[k].0, block.y + side_steps()[k].1);
                        assert(side_steps()[k] != step);
                    }
                }
            }
        }
    }

    /// The occupied cells of a row are cells of the grid, and every
    /// occupied cell of the row is among them.
    pub proof fn lemma_row_blocks(&self, y: int, count: int)
        requires
            0 <= y < self.spec_height(),
            0 <= count <= self.spec_width(),
            self.spec_width() < i32::MAX,
            self.spec_height() < i32::MAX,
        ensures
            forall|i: int|
                0 <= i < self.row_blocks(y, count).len() ==> self.in_bounds(
                    #[trigger] self.row_blocks(y, count)[i],
                ) && self.cell(self.row_blocks(y, count)[i]).blocked,
            forall|x: int|
                0 <= x < count && self.cell_at(x, y).blocked ==> self.row_blocks(y, count).contains(
                    #[trigger] cell(x, y),
                ),
        decreases count,
    {
        if count > 0 {
            self.lemma_row_blocks(y, count - 1);
            let before = self.row_blocks(y, count - 1);
            let now = self.row_blocks(y, count);
            assert forall|x: int| 0 <= x < count && self.cell_at(x, y).blocked implies now.contains(
                #[trigger] cell(x, y),
            ) by {
                if x < count - 1 {
                    let i = choose|i: int| 0 <= i < before.len() && before[i] == cell(x, y);
                    assert(now[i] == cell(x, y));
                } else {
                    assert(now[before.len() as int] == cell(x, y));
                }
            }
        }
    }

    /// The occupied cells of the first rows are cells of the grid, and
    /// every occupied cell of those rows is among them.
    pub proof fn lemma_grid_blocks(&self, rows: int)
        requires
            0 <= rows <= self.spec_height(),
            self.spec_width() < i32::MAX,
            self.spec_height() < i32::MAX,
        ensures
            forall|i: int|
                0 <= i < self.grid_blocks(rows).len() ==> self.in_bounds(
                    #[trigger] self.grid_blocks(rows)[i],
                ) && self.cell(self.grid_blocks(rows)[i]).blocked,
            forall|x: int, y: int|
                0 <= x < self.spec_width() && 0 <= y < rows && self.cell_at(x, y).blocked
                    ==> self.grid_blocks(rows).contains(#[trigger] cell(x, y)),
        decreases rows,
    {
        if rows > 0 {
            self.lemma_grid_blocks(rows - 1);
            self.lemma_row_blocks(rows - 1, self.spec_width());
            let before = self.grid_blocks(rows - 1);
            let row = self.row_blocks(rows - 1, self.spec_width());
            let now = self.grid_blocks(rows);
            assert forall|x: int, y: int|
                0 <= x < self.spec_width() && 0 <= y < rows && self.cell_at(
                    x,
                    y,
                ).blocked implies now.contains(#[trigger] cell(x, y)) by {
                if y < rows - 1 {
                    let i = choose|i: int| 0 <= i < before.len() && before[i] == cell(x, y);
                    assert(now[i] == cell(x, y));
                } else {
                    let i = choose|i: int| 0 <= i < row.len() && row[i] == cell(x, y);
                    assert(now[before.len() + i] == cell(x, y));
                }
            }
        }
    }
}

/// Seeing more blocks leaves no more of them unseen.
pub proof fn lemma_unseen_shrinks(all: Seq<Pos>, seen: Seq<Pos>, more: Seq<Pos>)
    ensures
        unseen(all, seen + more) <= unseen(all, seen),
    decreases all.len(),
{
    if all.len() > 0 {
        lemma_unseen_shrinks(all.drop_last(), seen, more);
        if seen.contains(all.last()) {
            let i = choose|i: int| 0 <= i < seen.len() && seen[i] == all.last();
            assert((seen + more)[i] == all.last());
        }
    }
}

/// Seeing a block that was unseen leaves fewer of them unseen.
pub proof fn lemma_unseen_drops(all: Seq<Pos>, seen: Seq<Pos>, more: Seq<Pos>, block: Pos)
    requires
        all.contains(block),
        !seen.contains(block),
        more.contains(block),
    ensures
        unseen(all, seen + more) < unseen(all, seen),
    decreases all.len(),
{
    let whole = seen + more;
    let rest = all.drop_last();
    if all.last() == block {
        lemma_unseen_shrinks(rest, seen, more);
        let i = choose|i: int| 0 <= i < more.len() && more[i] == block;
        assert(whole[seen.len() + i] == block);
    } else {
        let i = choose|i: int| 0 <= i < all.len() && all[i] == block;
        assert(rest[i] == block);
        lemma_unseen_drops(rest, seen, more, block);
        if seen.contains(all.last()) {
            let j = choose|j: int| 0 <= j < seen.len() && seen[j] == all.last();
            assert(whole[j] == all.last());
        }
    }
}

/// Lets the structure grow from `block`: the unseen occupied cells beside
/// it join the structure, and the structure grows from each of them.
fn process_block(
    block: Pos,
    structure: &mut Structure,
    map: &TileMap,
    seen: &mut Vec<Pos>,
    Ghost(depth): Ghost<nat>,
)
    requires
        map.wf(),
        depth > unseen(map.all_blocks(), old(seen)@),
        forall|i: int| 0 <= i < old(structure).blocks@.len() ==> map.in_bounds(
            #[trigger] old(structure).blocks@[i],
        ),
    ensures
        map.grown(
            depth,
            block,
            (Growth { blocks: old(structure).blocks@, typ: old(structure).typ, seen: old(seen)@ }),
        ) == (Growth { blocks: final(structure).blocks@, typ: final(structure).typ, seen: final(seen)@ }),
        unseen(map.all_blocks(), final(seen)@) <= unseen(map.all_blocks(), old(seen)@),
        forall|i: int| 0 <= i < final(structure).blocks@.len() ==> map.in_bounds(
            #[trigger] final(structure).blocks@[i],
        ),
    decreases depth,
{
    let adjacent = adjacent_blocks(block, map, seen);
    let ghost start = Growth { blocks: structure.blocks@, typ: structure.typ, seen: seen@ };
    proof {
        map.lemma_adjacent(block, seen@, 4);
    }
    let mut needs_processing = false;
    if adjacent.len() == 1 {
        needs_processing = true;
        if structure.typ == StructureType::Line && structure.blocks.len() > 1 {
            let len = structure.blocks.len();
            let before = structure.blocks[len - 2];
            let last = structure.blocks[len - 1];
            let next = adjacent[0];
            proof {
                assert(map.fresh_block(adjacent@[0], seen@));
            }
            if before.x - last.x != last.x - next.x || before.y - last.y != last.y - next.y {
                structure.typ = StructureType::Path;
            }
        }
    } else if adjacent.len() > 1 {
        needs_processing = true;
        // more than one way on: the structure branches
        structure.typ = StructureType::Complex;
    }
    if needs_processing {
        let mut i: usize = 0;
        while i < adjacent.len()
            invariant
                0 <= i <= adjacent@.len(),
                structure.blocks@ == start.blocks + adjacent@.take(i as int),
                seen@ == start.seen + adjacent@.take(i as int),
                structure.typ == (if adjacent@.len() > 1 {
                    StructureType::Complex
                } else if start.typ == StructureType::Line && start.blocks.len() > 1 && turns(
                    start.blocks,
                    adjacent@[0],
                ) {
                    StructureType::Path
                } else {
                    start.typ
                }),
            decreases adjacent@.len() - i,
        {
            structure.add_block(adjacent[i]);
            seen.push(adjacent[i]);
            proof {
                assert(adjacent@.take(i + 1) =~= adjacent@.take(i as int).push(adjacent@[i as int]));
                assert(structure.blocks@ =~= start.blocks + adjacent@.take(i + 1));
                assert(seen@ =~= start.seen + adjacent@.take(i + 1));
            }
            i = i + 1;
        }
        proof {
            assert(adjacent@.take(i as int) =~= adjacent@);
            let first = adjacent@[0];
            assert(map.fresh_block(first, start.seen));
            map.lemma_grid_blocks(map.spec_height());
            assert(map.all_blocks().contains(cell(first.x as int, first.y as int)));
            assert(adjacent@.contains(first));
            lemma_unseen_drops(map.all_blocks(), start.seen, adjacent@, first);
            assert forall|k: int| 0 <= k < structure.blocks@.len() implies map.in_bounds(
                #[trigger] structure.blocks@[k],
            ) by {
                if k >= start.blocks.len() {
                    assert(map.fresh_block(adjacent@[k - start.blocks.len()], start.seen));
                }
            }
        }
        let ghost grown = Growth { blocks: structure.blocks@, typ: structure.typ, seen: seen@ };
        let mut j: usize = 0;
        while j < adjacent.len()
            invariant
                0 <= j <= adjacent@.len(),
                map.wf(),
                depth > 0,
                depth - 1 > unseen(map.all_blocks(), seen@),
                unseen(map.all_blocks(), seen@) <= unseen(map.all_blocks(), start.seen),
                forall|k: int| 0 <= k < structure.blocks@.len() ==> map.in_bounds(
                    #[trigger] structure.blocks@[k],
                ),
                map.grown_each((depth - 1) as nat, adjacent@, 0, grown) == map.grown_each(
                    (depth - 1) as nat,
                    adjacent@,
                    j as int,
                    (Growth { blocks: structure.blocks@, typ: structure.typ, seen: seen@ }),
                ),
            decreases adjacent@.len() - j,
        {
            process_block(adjacent[j], structure, map, seen, Ghost((depth - 1) as nat));
            j = j + 1;
        }
    }
}

/// Every structure of the map: the groups of occupied tiles that hang
/// together, as they are found row by row.
pub fn find_structures(map: &TileMap) -> (structures: Vec<Structure>)
    requires
        map.wf(),
    ensures
        structures@.map_values(|structure: Structure| structure.shape()) == map.structures(),
{
    let width = map.width();
    let height = map.height();
    let mut blocks: Vec<Pos> = Vec::new();
    let mut y: i32 = 0;
    while y < height
        invariant
            0 <= y <= height,
            map.wf(),
            width == map.spec_width(),
            height == map.spec_height(),
            blocks@ == map.grid_blocks(y as int),
        decreases height - y,
    {
        let ghost before = blocks@;
        let mut x: i32 = 0;
        while x < width
            invariant
                0 <= x <= width,
                0 <= y < height,
                map.wf(),
                width == map.spec_width(),
                height == map.spec_height(),
                blocks@ == before + map.row_blocks(y as int, x as int),
            decreases width - x,
        {
            if map.get_tile(Pos::new(x, y)).blocked {
                blocks.push(Pos::new(x, y));
            }
            proof {
                assert(blocks@ =~= before + map.row_blocks(y as int, x + 1));
            }
            x = x + 1;
        }
        y = y + 1;
    }
    let mut structures: Vec<Structure> = Vec::new();
    let mut seen: Vec<Pos> = Vec::new();
    let ghost depth: nat = (blocks@.len() + 1) as nat;
    let mut index: usize = 0;
    proof {
        map.lemma_grid_blocks(map.spec_height());
        lemma_unseen_bound(map.all_blocks(), seen@);
        assert(structures@.map_values(|structure: Structure| structure.shape()) =~= Seq::<
            (Seq<Pos>, StructureType),
        >::empty());
    }
    while index < blocks.len()
        invariant
            0 <= index <= blocks@.len(),
            map.wf(),
            blocks@ == map.all_blocks(),
            depth == blocks@.len() + 1,
            forall|i: int| 0 <= i < blocks@.len() ==> map.in_bounds(#[trigger] blocks@[i])
                && map.cell(blocks@[i]).blocked,
            (structures@.map_values(|structure: Structure| structure.shape()), seen@)
                == map.structures_among(index as int),
        decreases blocks@.len() - index,
    {
        let block = blocks[index];
        let ghost found = structures@.map_values(|structure: Structure| structure.shape());
        if !holds_cell(&seen, block) {
            let mut structure = Structure::new();
            let adjacent = adjacent_blocks(block, map, &seen);
            if adjacent.len() != 2 {
                structure.add_block(block);
                seen.push(block);
                proof {
                    assert(structure.blocks@ =~= seq![block]);
                    lemma_unseen_bound(map.all_blocks(), seen@);
                }
                if adjacent.len() == 1 {
                    // the start of a line, a path or a complex structure
                    structure.typ = StructureType::Line;
                    process_block(block, &mut structure, map, &mut seen, Ghost(depth));
                } else if adjacent.len() > 2 {
                    // a block in the middle of a complex structure
                    structure.typ = StructureType::Complex;
                    let ghost base = seen@;
                    let mut i: usize = 0;
                    while i < adjacent.len()
                        invariant
                            0 <= i <= adjacent@.len(),
                            seen@ == base + adjacent@.take(i as int),
                        decreases adjacent@.len() - i,
                    {
                        seen.push(adjacent[i]);
                        proof {
                            assert(adjacent@.take(i + 1) =~= adjacent@.take(i as int).push(
                                adjacent@[i as int],
                            ));
                            assert(seen@ =~= base + adjacent@.take(i + 1));
                        }
                        i = i + 1;
                    }
                    proof {
                        assert(adjacent@.take(i as int) =~= adjacent@);
                        lemma_unseen_bound(map.all_blocks(), seen@);
                    }
                    let ghost start = Growth {
                        blocks: structure.blocks@,
                        typ: structure.typ,
                        seen: seen@,
                    };
                    let mut j: usize = 0;
                    while j < adjacent.len()
                        invariant
                            0 <= j <= adjacent@.len(),
                            map.wf(),
                            depth == map.all_blocks().len() + 1,
                            forall|k: int| 0 <= k < structure.blocks@.len() ==> map.in_bounds(
                                #[trigger] structure.blocks@[k],
                            ),
                            map.grown_each(depth, adjacent@, 0, start) == map.grown_each(
                                depth,
                                adjacent@,
                                j as int,
                                (Growth {
                                    blocks: structure.blocks@,
                                    typ: structure.typ,
                                    seen: seen@,
                                }),
                            ),
                        decreases adjacent@.len() - j,
                    {
                        proof {
                            lemma_unseen_bound(map.all_blocks(), seen@);
                        }
                        process_block(adjacent[j], &mut structure, map, &mut seen, Ghost(depth));
                        j = j + 1;
                    }
                }
                structures.push(structure);
                proof {
                    let shapes = structures@.map_values(|structure: Structure| structure.shape());
                    assert(shapes =~= found.push(structure.shape()));
                }
            }
            // a block with two beside it lies within a line and is picked up
            // from the end of that line
        }
        index = index + 1;
    }
    structures
}

/// No more blocks are unseen than there are blocks.
pub proof fn lemma_unseen_bound(all: Seq<Pos>, seen: Seq<Pos>)
    ensures
        unseen(all, seen) <= all.len(),
    decreases all.len(),
{
    if all.len() > 0 {
        lemma_unseen_bound(all.drop_last(), seen);
    }
}

/// The tiles of a grid by their coordinates.
pub type Grid = Map<(int, int), Tile>;

/// The grid after the square of four cells at `(x, y)` has been mended:
/// where two occupied tiles touch at a corner only, across the diagonal, a
/// wall fills one of the two free cells, so that no way leads between them.
pub open spec fn mended_at(grid: Grid, x: int, y: int) -> Grid {
    let wall = Tile::plain(true, true, TileType::Wall, BLANK_GLYPH);
    if grid[(x, y)].blocked && grid[(x + 1, y + 1)].blocked && !grid[(x + 1, y)].blocked && !grid[(
        x,
        y + 1,
    )].blocked {
        grid.insert((x + 1, y), wall)
    } else if grid[(x + 1, y)].blocked && grid[(x, y + 1)].blocked && !grid[(x, y)].blocked
        && !grid[(x + 1, y + 1)].blocked {
        grid.insert((x, y), wall)
    } else {
        grid
    }
}

/// The grid after the first `count` squares of row `y` have been mended,
/// one after the other.
pub open spec fn mended_row(grid: Grid, y: int, count: int) -> Grid
    decreases count,
{
    if count <= 0 {
        grid
    } else {
        mended_at(mended_row(grid, y, count - 1), count - 1, y)
    }
}

/// The grid after the squares of the first `rows` rows have been mended,
/// row by row; a row of a grid of the given width holds one square less
/// than cells.
pub open spec fn mended(grid: Grid, width: int, rows: int) -> Grid
    decreases rows,
{
    if rows <= 0 {
        grid
    } else {
        mended_row(mended(grid, width, rows - 1), rows - 1, width - 1)
    }
}

impl TileMap {
    /// The tiles of the map by their coordinates.
    pub open spec fn grid(&self) -> Grid {
        Map::new(
            |at: (int, int)| self.in_bounds_at(at.0, at.1),
            |at: (int, int)| self.cell_at(at.0, at.1),
        )
    }
}

/// Mends every square of four cells of the map, row by row, so that no two
/// occupied tiles touch at a corner only: a wall is put beside them.
pub fn handle_diagonal_full_tile_walls(map: &mut TileMap)
    requires
        old(map).wf(),
    ensures
        final(map).wf(),
        final(map).spec_width() == old(map).spec_width(),
        final(map).spec_height() == old(map).spec_height(),
        final(map).fov == old(map).fov,
        final(map).fov_pos == old(map).fov_pos,
        final(map).fov_radius == old(map).fov_radius,
        final(map).grid() == mended(
            old(map).grid(),
            old(map).spec_width(),
            old(map).spec_height() - 1,
        ),
{
    let width = map.width();
    let height = map.height();
    let ghost start = map.grid();
    let mut y: i32 = 0;
    while y < height - 1
        invariant
            0 <= y,
            y <= height - 1 || y == 0,
            map.wf(),
            width == map.spec_width(),
            height == map.spec_height(),
            map.spec_width() == old(map).spec_width(),
            map.spec_height() == old(map).spec_height(),
            map.fov == old(map).fov,
            map.fov_pos == old(map).fov_pos,
            map.fov_radius == old(map).fov_radius,
            start == old(map).grid(),
            map.grid() == mended(start, width as int, y as int),
        decreases height - y,
    {
        let ghost row_start = map.grid();
        let mut x: i32 = 0;
        while x < width - 1
            invariant
                0 <= x,
                x <= width - 1 || x == 0,
                0 <= y < height - 1,
                map.wf(),
                width == map.spec_width(),
                height == map.spec_height(),
                map.spec_width() == old(map).spec_width(),
                map.spec_height() == old(map).spec_height(),
                map.fov == old(map).fov,
                map.fov_pos == old(map).fov_pos,
                map.fov_radius == old(map).fov_radius,
                map.grid() == mended_row(row_start, y as int, x as int),
            decreases width - x,
        {
            let ghost before = map.grid();
            let here = map.get_tile(Pos::new(x, y)).blocked;
            let across = map.get_tile(Pos::new(x + 1, y + 1)).blocked;
            let right = map.get_tile(Pos::new(x + 1, y)).blocked;
            let below = map.get_tile(Pos::new(x, y + 1)).blocked;
            if here && across && !right && !below {
                map.set_tile(Pos::new(x + 1, y), Tile::wall());
                proof {
                    assert(map.grid() =~= before.insert((x + 1, y as int), Tile::plain(
                        true,
                        true,
                        TileType::Wall,
                        BLANK_GLYPH,
                    )));
                }
            } else if right && below && !here && !across {
                map.set_tile(Pos::new(x, y), Tile::wall());
                proof {
                    assert(map.grid() =~= before.insert((x as int, y as int), Tile::plain(
                        true,
                        true,
                        TileType::Wall,
                        BLANK_GLYPH,
                    )));
                }
            }
            x = x + 1;
        }
        proof {
            if width - 1 <= 0 {
                assert(mended_row(row_start, y as int, width - 1) == row_start);
            }
        }
        y = y + 1;
    }
    proof {
        if height - 1 <= 0 {
            assert(mended(start, width as int, height - 1) == start);
        }
    }
}

} // verus!
