//! Tiles of a map by index: `map[pos]` and `map[(x, y)]`.

use vstd::prelude::*;
use std::ops::{Index, IndexMut};
use crate::types::Pos;
use crate::map::{TileMap, Tile};

verus! {

impl Index<Pos> for TileMap {
    type Output = Tile;

    /// The tile at `index`.
    fn index(&self, index: Pos) -> (tile: &Tile)
        ensures
            *tile == self.cell(index),
    {
        &self.tiles[index.x as usize][index.y as usize]
    }
}

impl vstd::std_specs::core::IndexSpecImpl<Pos> for TileMap {
    open spec fn index_req(&self, index: &Pos) -> bool {
        self.wf() && self.in_bounds(*index)
    }
}

impl IndexMut<Pos> for TileMap {
    /// The tile at `index`, to be changed in place: the map becomes the
    /// one with the changed tile at `index`.
    fn index_mut(&mut self, index: Pos) -> (tile: &mut Tile)
        requires
            old(self).wf(),
            old(self).in_bounds(index),
        ensures
            *tile == old(self).cell(index),
            final(self).wf(),
            final(self).is_update_of(old(self), index, *final(tile)),
            final(self).fov == old(self).fov,
            final(self).fov_pos == old(self).fov_pos,
            final(self).fov_radius == old(self).fov_radius,
    {
        &mut self.tiles[index.x as usize][index.y as usize]
    }
}

impl Index<(i32, i32)> for TileMap {
    type Output = Tile;

    /// The tile at `(x, y)`.
    fn index(&self, index: (i32, i32)) -> (tile: &Tile)
        ensures
            *tile == self.cell_at(index.0 as int, index.1 as int),
    {
        &self.tiles[index.0 as usize][index.1 as usize]
    }
}

impl vstd::std_specs::core::IndexSpecImpl<(i32, i32)> for TileMap {
    open spec fn index_req(&self, index: &(i32, i32)) -> bool {
        self.wf() && self.in_bounds_at(index.0 as int, index.1 as int)
    }
}

impl IndexMut<(i32, i32)> for TileMap {
    /// The tile at `(x, y)`, to be changed in place.
    fn index_mut(&mut self, index: (i32, i32)) -> (tile: &mut Tile)
        requires
            old(self).wf(),
            old(self).in_bounds_at(index.0 as int, index.1 as int),
        ensures
            *tile == old(self).cell_at(index.0 as int, index.1 as int),
            final(self).wf(),
            final(self).is_update_of(
                old(self),
                (Pos { x: index.0, y: index.1 }),
                *final(tile),
            ),
            final(self).fov == old(self).fov,
            final(self).fov_pos == old(self).fov_pos,
            final(self).fov_radius == old(self).fov_radius,
    {
        &mut self.tiles[index.0 as usize][index.1 as usize]
    }
}

} // verus!
