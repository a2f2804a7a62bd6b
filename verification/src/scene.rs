use vstd::prelude::*;

verus! {

/// How many bounces a path may take at render quality `quality`: 1 (low)
/// allows 2, 3 (high) allows 6, anything else (medium) 4.
pub open spec fn depth_for(quality: u8) -> u32 {
    if quality == 1 {
        2
    } else if quality == 3 {
        6
    } else {
        4
    }
}

/// The maximum recursion depth of the tracer at render quality `quality`.
pub fn max_depth_for_quality(quality: u8) -> (depth: u32)
    ensures
        depth == depth_for(quality),
{
    match quality {
        1 => 2,
        3 => 6,
        _ => 4,
    }
}

} // verus!
