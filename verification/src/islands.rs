use vstd::prelude::*;

use crate::world::World;

verus! {

/// One island of the diorama: a voxel grid of its own, placed in world space
/// by an integer offset, so that the empty space between islands costs no
/// memory.
pub struct Island {
    pub world: World,
    pub offset: (i32, i32, i32),
}

impl Island {
    pub fn new(world: World, offset: (i32, i32, i32)) -> (island: Island)
        ensures
            island.world == world,
            island.offset == offset,
    {
        Island { world, offset }
    }
}

} // verus!
