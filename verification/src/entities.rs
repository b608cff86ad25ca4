//! What the map is asked about the entities that stand on it.

use vstd::prelude::*;
use crate::types::{Pos, EntityId};
use crate::map::TileMap;

verus! {

/// What the map needs to know of an entity: where it stands, whether it is
/// the pointer itself, and whether it is about to be removed.
#[derive(Clone, Copy, Debug, PartialEq, Eq, Structural)]
pub struct EntityPlace {
    pub id: EntityId,
    pub pos: Pos,
    pub is_mouse: bool,
    pub needs_removal: bool,
}

/// Whether the entity stands under a pointer at `mouse_pos` and counts: it
/// is not the pointer and is not about to be removed.
pub open spec fn under_mouse(entity: EntityPlace, mouse_pos: Pos) -> bool {
    !entity.needs_removal && !entity.is_mouse && entity.pos == mouse_pos
}

/// The ids of those of `entities`, in order, that stand under the pointer.
pub open spec fn ids_under_mouse(entities: Seq<EntityPlace>, mouse_pos: Pos) -> Seq<EntityId>
    decreases entities.len(),
{
    if entities.len() == 0 {
        Seq::empty()
    } else {
        let before = ids_under_mouse(entities.drop_last(), mouse_pos);
        if under_mouse(entities.last(), mouse_pos) {
            before.push(entities.last().id)
        } else {
            before
        }
    }
}

/// The entities under the pointer that the player sees. An entity under the
/// pointer stands in the very cell that is looked at from, which is always
/// seen, so these are all the entities under the pointer.
pub fn get_entity_under_mouse(
    mouse_pos: Pos,
    entities: &Vec<EntityPlace>,
    map: &mut TileMap,
    fov_radius: i32,
) -> (object_ids: Vec<EntityId>)
    requires
        old(map).wf(),
    ensures
        *final(map) == *old(map),
        object_ids@ == ids_under_mouse(entities@, mouse_pos),
{
    let mut object_ids: Vec<EntityId> = Vec::new();
    let mut i: usize = 0;
    proof {
        assert(entities@.take(0) =~= Seq::<EntityPlace>::empty());
    }
    while i < entities.len()
        invariant
            0 <= i <= entities@.len(),
            *map == *old(map),
            map.wf(),
            object_ids@ == ids_under_mouse(entities@.take(i as int), mouse_pos),
        decreases entities@.len() - i,
    {
        let pos = entities[i].pos;
        let is_mouse = entities[i].is_mouse;
        let removing = entities[i].needs_removal;
        proof {
            assert(entities@.take(i + 1).drop_last() =~= entities@.take(i as int));
        }
        if !removing && !is_mouse && mouse_pos == pos {
            if map.is_in_fov(pos, mouse_pos, fov_radius) {
                object_ids.push(entities[i].id);
            }
        }
        i = i + 1;
    }
    proof {
        assert(entities@.take(i as int) =~= entities@);
    }
    object_ids
}

} // verus!
