use vstd::prelude::*;

verus! {

/// The face of a voxel a ray enters or leaves through, by the axis and sign
/// of its outward normal.
#[derive(Clone, Copy, Debug, PartialEq, Eq, Structural)]
pub enum Face {
    PX,
    NX,
    PY,
    NY,
    PZ,
    NZ,
}

/// The face whose normal points along `axis` (0 = x, 1 = y, anything else
/// = z), towards positive coordinates when `positive_normal`.
pub open spec fn face_of(axis: usize, positive_normal: bool) -> Face {
    if axis == 0 {
        if positive_normal { Face::PX } else { Face::NX }
    } else if axis == 1 {
        if positive_normal { Face::PY } else { Face::NY }
    } else if axis == 2 && positive_normal {
        Face::PZ
    } else {
        Face::NZ
    }
}

impl Face {
    /// The face whose normal points along `axis` (0 = x, 1 = y, 2 = z),
    /// positive or negative; any other axis gives the negative z face.
    pub fn from_axis_sign(axis: usize, positive_normal: bool) -> (f: Face)
        ensures
            f == face_of(axis, positive_normal),
    {
        match (axis, positive_normal) {
            (0, true) => Face::PX,
            (0, false) => Face::NX,
            (1, true) => Face::PY,
            (1, false) => Face::NY,
            (2, true) => Face::PZ,
            _ => Face::NZ,
        }
    }
}

} // verus!
