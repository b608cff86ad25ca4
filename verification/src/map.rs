//! Tiles, edge walls and the map that holds them.

use vstd::prelude::*;
use crate::types::Pos;
use crate::movement::Direction;

verus! {

/// What stands on the edge between two cells. `Empty` lets everything pass,
/// `ShortWall` stops movement and dims sight, `TallWall` stops both.
#[derive(Clone, Copy, Debug, PartialEq, Eq, PartialOrd, Structural)]
pub enum Wall {
    Empty,
    ShortWall,
    TallWall,
}

impl Wall {
    pub fn no_wall(&self) -> (none: bool)
        ensures
            none == (*self == Wall::Empty),
    {
        match self {
            Wall::Empty => true,
            Wall::ShortWall => false,
            Wall::TallWall => false,
        }
    }
}

#[derive(Clone, Copy, Debug, PartialEq, Eq, Structural)]
pub enum TileType {
    Empty,
    ShortWall,
    Wall,
    Water,
    Exit,
}

#[derive(Clone, Copy, Debug, PartialEq, Eq, Structural)]
pub enum Surface {
    Floor,
    Rubble,
    Grass,
}

/// One cell of the grid. `bottom_wall` is the edge between this cell and the
/// one below it, `left_wall` the edge between this cell and the one to its
/// left; the top and right edges belong to the neighbours on those sides.
#[derive(Clone, Copy, Debug, PartialEq, Eq, Structural)]
pub struct Tile {
    pub blocked: bool,
    pub block_sight: bool,
    pub explored: bool,
    pub tile_type: TileType,
    pub bottom_wall: Wall,
    pub left_wall: Wall,
    pub chr: u8,
    pub surface: Surface,
}

/// The glyph of a tile that shows nothing.
pub const BLANK_GLYPH: u8 = 32;

/// The glyph that stands for `chr`: its code point, cut to one byte.
pub open spec fn glyph_of(chr: char) -> u8 {
    ((chr as u32) % 256) as u8
}

/// The byte that stands for `chr`.
fn glyph(chr: char) -> (g: u8)
    ensures
        g == glyph_of(chr),
{
    ((chr as u32) % 256) as u8
}

impl Tile {
    /// A tile of the given kind, without edge walls, unexplored, on plain floor.
    pub open spec fn plain(blocked: bool, block_sight: bool, tile_type: TileType, chr: u8) -> Tile {
        Tile {
            blocked,
            block_sight,
            explored: false,
            tile_type,
            bottom_wall: Wall::Empty,
            left_wall: Wall::Empty,
            chr,
            surface: Surface::Floor,
        }
    }

    pub fn empty() -> (tile: Tile)
        ensures
            tile == Tile::plain(false, false, TileType::Empty, BLANK_GLYPH),
    {
        Tile {
            blocked: false,
            block_sight: false,
            explored: false,
            tile_type: TileType::Empty,
            bottom_wall: Wall::Empty,
            left_wall: Wall::Empty,
            chr: BLANK_GLYPH,
            surface: Surface::Floor,
        }
    }

    pub fn water() -> (tile: Tile)
        ensures
            tile == Tile::plain(true, false, TileType::Water, BLANK_GLYPH),
    {
        Tile {
            blocked: true,
            block_sight: false,
            explored: false,
            tile_type: TileType::Water,
            bottom_wall: Wall::Empty,
            left_wall: Wall::Empty,
            chr: BLANK_GLYPH,
            surface: Surface::Floor,
        }
    }

    pub fn wall() -> (tile: Tile)
        ensures
            tile == Tile::plain(true, true, TileType::Wall, BLANK_GLYPH),
    {
        Tile::wall_with(' ')
    }

    pub fn wall_with(chr: char) -> (tile: Tile)
        ensures
            tile == Tile::plain(true, true, TileType::Wall, glyph_of(chr)),
    {
        Tile {
            blocked: true,
            block_sight: true,
            explored: false,
            tile_type: TileType::Wall,
            bottom_wall: Wall::Empty,
            left_wall: Wall::Empty,
            chr: glyph(chr),
            surface: Surface::Floor,
        }
    }

    pub fn short_wall() -> (tile: Tile)
        ensures
            tile == Tile::plain(true, false, TileType::ShortWall, BLANK_GLYPH),
    {
        Tile::short_wall_with(' ')
    }

    pub fn short_wall_with(chr: char) -> (tile: Tile)
        ensures
            tile == Tile::plain(true, false, TileType::ShortWall, glyph_of(chr)),
    {
        Tile {
            blocked: true,
            block_sight: false,
            explored: false,
            tile_type: TileType::ShortWall,
            bottom_wall: Wall::Empty,
            left_wall: Wall::Empty,
            chr: glyph(chr),
            surface: Surface::Floor,
        }
    }

    pub fn exit() -> (tile: Tile)
        ensures
            tile == Tile::plain(false, false, TileType::Exit, BLANK_GLYPH),
    {
        Tile {
            blocked: false,
            block_sight: false,
            explored: false,
            tile_type: TileType::Exit,
            bottom_wall: Wall::Empty,
            left_wall: Wall::Empty,
            chr: BLANK_GLYPH,
            surface: Surface::Floor,
        }
    }
}

/// One step between two neighbouring cells that something obstructs.
#[derive(Clone, Copy, Debug, PartialEq, Eq, Structural)]
pub struct Blocked {
    pub start_pos: Pos,
    pub end_pos: Pos,
    pub direction: Direction,
    pub blocked_tile: bool,
    pub wall_type: Wall,
}

impl Blocked {
    pub fn new(
        start_pos: Pos,
        end_pos: Pos,
        direction: Direction,
        blocked_tile: bool,
        wall_type: Wall,
    ) -> (blocked: Blocked)
        ensures
            blocked == (Blocked { start_pos, end_pos, direction, blocked_tile, wall_type }),
    {
        Blocked { start_pos, end_pos, direction, blocked_tile, wall_type }
    }
}

/// How a map is obtained when a level starts.
#[derive(Clone, Debug)]
pub enum MapLoadConfig {
    Random,
    TestMap,
    TestWall,
    Empty,
    TestCorner,
    TestPlayer,
    FromFile(String),
}

impl Default for MapLoadConfig {
    fn default() -> (config: MapLoadConfig)
        ensures
            config is Random,
    {
        MapLoadConfig::Random
    }
}

/// The shapes that level building places on a map.
#[derive(Clone, Copy, Debug, PartialEq, Eq, Structural)]
pub enum Obstacle {
    Block,
    Wall,
    ShortWall,
    Square,
    LShape,
    Building,
}

impl Obstacle {
    pub fn all_obstacles() -> (all: Vec<Obstacle>)
        ensures
            all@ == seq![
                Obstacle::Block,
                Obstacle::Wall,
                Obstacle::ShortWall,
                Obstacle::Square,
                Obstacle::LShape,
                Obstacle::Building,
            ],
    {
        let mut all: Vec<Obstacle> = Vec::new();
        all.push(Obstacle::Block);
        all.push(Obstacle::Wall);
        all.push(Obstacle::ShortWall);
        all.push(Obstacle::Square);
        all.push(Obstacle::LShape);
        all.push(Obstacle::Building);
        proof {
            assert(all@ =~= seq![
                Obstacle::Block,
                Obstacle::Wall,
                Obstacle::ShortWall,
                Obstacle::Square,
                Obstacle::LShape,
                Obstacle::Building,
            ]);
        }
        all
    }
}

/// A grid holds at least as many cells as it is high, and as it is wide.
pub proof fn lemma_sides_fit(width: int, height: int)
    requires
        0 < width,
        0 < height,
    ensures
        height <= width * height,
        width <= width * height,
{
    assert(height <= width * height && width <= width * height) by (nonlinear_arith)
        requires
            0 < width,
            0 < height,
    ;
}

/// The visibility buffer of a map: for each cell whether light passes it and
/// whether the last computation saw it. Cell `(x, y)` is entry
/// `x + y * width` of both.
#[derive(Clone)]
pub struct FovBuffer {
    pub width: usize,
    pub height: usize,
    pub transparent: Vec<bool>,
    pub visible: Vec<bool>,
}

/// A grid of tiles, `tiles[x][y]`, with the state of its visibility buffer:
/// the observer and the radius it was last computed for.
#[derive(Clone)]
pub struct TileMap {
    pub tiles: Vec<Vec<Tile>>,
    pub fov: FovBuffer,
    pub fov_pos: Pos,
    pub fov_radius: i32,
}

impl FovBuffer {
    /// Both buffers hold one entry for each cell; the sum of the sides and
    /// the cell count with one more row fit the arithmetic of the
    /// visibility computation, which counts rows and columns up to the
    /// first and looks one row beyond a cell's entry.
    pub open spec fn wf(&self) -> bool {
        &&& self.width * self.height + self.width <= i32::MAX
        &&& self.width + self.height <= i32::MAX
        &&& self.transparent@.len() == self.width * self.height
        &&& self.visible@.len() == self.width * self.height
    }
}

impl TileMap {
    /// The number of columns.
    pub open spec fn spec_width(&self) -> int {
        self.tiles@.len() as int
    }

    /// The number of rows; a map without columns has none.
    pub open spec fn spec_height(&self) -> int {
        if self.tiles@.len() == 0 {
            0
        } else {
            self.tiles@[0]@.len() as int
        }
    }

    /// The grid is rectangular, its sides fit a coordinate with room for a
    /// step beyond, and the visibility buffer covers it; a map without
    /// cells has a buffer of one cell. The observer of the last visibility
    /// computation is a cell of the buffer.
    pub open spec fn wf(&self) -> bool {
        &&& self.spec_width() < i32::MAX
        &&& self.spec_height() < i32::MAX
        &&& forall|i: int| 0 <= i < self.tiles@.len() ==> (#[trigger] self.tiles@[i])@.len() == self.spec_height()
        &&& self.fov.wf()
        &&& self.fov.covers(self.fov_pos.x as int, self.fov_pos.y as int)
        &&& if self.spec_width() == 0 || self.spec_height() == 0 {
            self.fov.width == 1 && self.fov.height == 1
        } else {
            self.fov.width == self.spec_width() && self.fov.height == self.spec_height()
        }
    }

    /// Whether `(x, y)` is a cell of the grid.
    pub open spec fn in_bounds_at(&self, x: int, y: int) -> bool {
        0 <= x < self.spec_width() && 0 <= y < self.spec_height()
    }

    /// Whether `pos` is a cell of the grid.
    pub open spec fn in_bounds(&self, pos: Pos) -> bool {
        self.in_bounds_at(pos.x as int, pos.y as int)
    }

    /// The tile at `(x, y)`, for a cell of the grid.
    pub open spec fn cell_at(&self, x: int, y: int) -> Tile {
        self.tiles@[x]@[y]
    }

    /// The tile at `pos`, for a cell of the grid.
    pub open spec fn cell(&self, pos: Pos) -> Tile {
        self.cell_at(pos.x as int, pos.y as int)
    }

    /// Whether the two maps have the same size and the same tiles.
    pub open spec fn same_tiles(&self, other: &TileMap) -> bool {
        &&& self.spec_width() == other.spec_width()
        &&& self.spec_height() == other.spec_height()
        &&& forall|x: int, y: int|
            self.in_bounds_at(x, y) ==> self.cell_at(x, y) == other.cell_at(x, y)
    }

    /// Whether this map is `other` with `tile` put at `at`: the same size,
    /// `tile` at `at`, and every other cell as in `other`.
    pub open spec fn is_update_of(&self, other: &TileMap, at: Pos, tile: Tile) -> bool {
        &&& self.spec_width() == other.spec_width()
        &&& self.spec_height() == other.spec_height()
        &&& self.cell(at) == tile
        &&& forall|x: int, y: int|
            self.in_bounds_at(x, y) && !(x == at.x && y == at.y) ==> self.cell_at(x, y)
                == other.cell_at(x, y)
    }

    /// What a new map holds besides its tiles: the observer at the origin
    /// with a view radius of 1, and a visibility buffer that knows the tiles
    /// and, where the visibility computation had room for the opaque cells,
    /// what that observer sees.
    pub open spec fn freshly_lit(&self) -> bool {
        &&& self.fov_pos == Pos { x: 0, y: 0 }
        &&& self.fov_radius == 1
        &&& self.synced()
        &&& self.fov.has_room() ==> self.fov.visible@ == crate::fov::restrictive_view(
            self.fov.width as int,
            self.fov.height as int,
            self.fov.transparent@,
            Seq::new(self.fov.visible@.len(), |i: int| false),
            0,
            0,
            1,
        )
    }

    /// Whether the columns make up a grid that a map can hold: there is a
    /// column, the columns are equally high and not empty, and the sides
    /// and the number of cells, with those of one more row, fit a
    /// coordinate.
    pub open spec fn is_grid(tiles: Seq<Vec<Tile>>) -> bool {
        &&& 0 < tiles.len() < i32::MAX
        &&& 0 < tiles[0]@.len() < i32::MAX
        &&& tiles.len() * tiles[0]@.len() + tiles.len() <= i32::MAX
        &&& forall|i: int| 0 <= i < tiles.len() ==> (#[trigger] tiles[i])@.len() == tiles[0]@.len()
    }

    /// Whether the columns make up a grid that a map can hold.
    pub fn grid_is_valid(tiles: &Vec<Vec<Tile>>) -> (valid: bool)
        ensures
            valid == Self::is_grid(tiles@),
    {
        let width = tiles.len();
        if width == 0 || width >= i32::MAX as usize {
            return false;
        }
        let height = tiles[0].len();
        if height == 0 || height >= i32::MAX as usize {
            return false;
        }
        proof {
            assert(width * height <= 0x7fff_ffff * 0x7fff_ffff) by (nonlinear_arith)
                requires
                    0 <= width < 0x7fff_ffff,
                    0 <= height < 0x7fff_ffff,
            ;
        }
        if width as u64 * height as u64 + width as u64 > i32::MAX as u64 {
            return false;
        }
        let mut i: usize = 0;
        while i < width
            invariant
                0 <= i <= width,
                width == tiles@.len(),
                height == tiles@[0]@.len(),
                forall|j: int| 0 <= j < i ==> (#[trigger] tiles@[j])@.len() == height,
            decreases width - i,
        {
            if tiles[i].len() != height {
                return false;
            }
            i = i + 1;
        }
        true
    }

    /// A map of the given columns.
    pub fn with_vec(tiles: Vec<Vec<Tile>>) -> (map: TileMap)
        requires
            Self::is_grid(tiles@),
        ensures
            map.wf(),
            map.tiles == tiles,
            map.freshly_lit(),
    {
        let width = tiles.len();
        let height = tiles[0].len();
        proof {
            lemma_sides_fit(width as int, height as int);
        }
        let mut map = TileMap {
            tiles,
            fov: FovBuffer::new(width, height),
            fov_pos: Pos::new(0, 0),
            fov_radius: 1,
        };
        proof {
            assert(map.fov.visible@ =~= Seq::new(map.fov.visible@.len(), |i: int| false));
        }
        map.update_map();
        map
    }

    /// A map of `width` by `height` empty tiles.
    pub fn from_dims(width: usize, height: usize) -> (map: TileMap)
        requires
            0 < width < i32::MAX,
            0 < height < i32::MAX,
            width * height + width <= i32::MAX,
        ensures
            map.wf(),
            map.spec_width() == width,
            map.spec_height() == height,
            forall|x: int, y: int| map.in_bounds_at(x, y) ==> map.cell_at(x, y) == Tile::plain(
                false,
                false,
                TileType::Empty,
                BLANK_GLYPH,
            ),
            map.freshly_lit(),
            map.fov.has_room(),
    {
        let mut tiles: Vec<Vec<Tile>> = Vec::new();
        let mut x: usize = 0;
        while x < width
            invariant
                0 <= x <= width,
                tiles@.len() == x,
                forall|i: int| 0 <= i < x ==> (#[trigger] tiles@[i])@.len() == height,
                forall|i: int, j: int|
                    0 <= i < x && 0 <= j < height ==> (#[trigger] tiles@[i]@[j]) == Tile::plain(
                        false,
                        false,
                        TileType::Empty,
                        BLANK_GLYPH,
                    ),
            decreases width - x,
        {
            let mut column: Vec<Tile> = Vec::new();
            let mut y: usize = 0;
            while y < height
                invariant
                    0 <= y <= height,
                    column@.len() == y,
                    forall|j: int|
                        0 <= j < y ==> (#[trigger] column@[j]) == Tile::plain(
                            false,
                            false,
                            TileType::Empty,
                            BLANK_GLYPH,
                        ),
                decreases height - y,
            {
                column.push(Tile::empty());
                y = y + 1;
            }
            tiles.push(column);
            x = x + 1;
        }
        proof {
            lemma_sides_fit(width as int, height as int);
        }
        let mut map = TileMap {
            tiles,
            fov: FovBuffer::new(width, height),
            fov_pos: Pos::new(0, 0),
            fov_radius: 1,
        };
        proof {
            assert(map.fov.visible@ =~= Seq::new(map.fov.visible@.len(), |i: int| false));
        }
        map.update_map();
        proof {
            assert forall|i: int| 0 <= i < map.fov.transparent@.len() implies map.fov.transparent@[i] by {
                let cx = i % (width as int);
                let cy = i / (width as int);
                vstd::arithmetic::div_mod::lemma_fundamental_div_mod(i, width as int);
                vstd::arithmetic::div_mod::lemma_mod_bound(i, width as int);
                assert(0 <= cy < height) by (nonlinear_arith)
                    requires
                        0 <= i < width * height,
                        i == width * cy + cx,
                        0 <= cx < width,
                ;
                assert(crate::fov::cell_index(width as int, cx, cy) == i) by (nonlinear_arith)
                    requires
                        i == width * cy + cx,
                        crate::fov::cell_index(width as int, cx, cy) == cx + cy * width,
                ;
                assert(map.in_bounds_at(cx, cy));
            }
            crate::fov::lemma_all_transparent(map.fov.transparent@);
        }
        map
    }

    /// A map without cells.
    pub fn empty() -> (map: TileMap)
        ensures
            map.wf(),
            map.spec_width() == 0,
            map.spec_height() == 0,
            map.fov_pos == (Pos { x: 0, y: 0 }),
            map.fov_radius == 1,
    {
        TileMap {
            tiles: Vec::new(),
            fov: FovBuffer::new(1, 1),
            fov_pos: Pos::new(0, 0),
            fov_radius: 1,
        }
    }

    pub fn width(&self) -> (w: i32)
        requires
            self.wf(),
        ensures
            w == self.spec_width(),
    {
        self.tiles.len() as i32
    }

    pub fn height(&self) -> (h: i32)
        requires
            self.wf(),
        ensures
            h == self.spec_height(),
    {
        if self.tiles.len() == 0 {
            0
        } else {
            self.tiles[0].len() as i32
        }
    }

    pub fn size(&self) -> (dims: (i32, i32))
        requires
            self.wf(),
        ensures
            dims.0 == self.spec_width(),
            dims.1 == self.spec_height(),
    {
        (self.width(), self.height())
    }

    pub fn is_within_bounds(&self, pos: Pos) -> (inside: bool)
        requires
            self.wf(),
        ensures
            inside == self.in_bounds(pos),
    {
        let x_bounds = pos.x >= 0 && pos.x < self.width();
        let y_bounds = pos.y >= 0 && pos.y < self.height();
        x_bounds && y_bounds
    }

    /// The tile at `pos`.
    pub fn get_tile(&self, pos: Pos) -> (tile: Tile)
        requires
            self.wf(),
            self.in_bounds(pos),
        ensures
            tile == self.cell(pos),
    {
        self.tiles[pos.x as usize][pos.y as usize]
    }

    /// Puts `tile` at `pos` and leaves every other cell, and the visibility
    /// buffer, as they were.
    pub fn set_tile(&mut self, pos: Pos, tile: Tile)
        requires
            old(self).wf(),
            old(self).in_bounds(pos),
        ensures
            final(self).wf(),
            final(self).is_update_of(old(self), pos, tile),
            final(self).fov == old(self).fov,
            final(self).fov_pos == old(self).fov_pos,
            final(self).fov_radius == old(self).fov_radius,
    {
        self.tiles[pos.x as usize][pos.y as usize] = tile;
    }

    pub fn is_empty(&self, pos: Pos) -> (empty: bool)
        requires
            self.wf(),
            self.in_bounds(pos),
        ensures
            empty == (self.cell(pos).tile_type == TileType::Empty),
    {
        self.get_tile(pos).tile_type == TileType::Empty
    }
}

} // verus!
