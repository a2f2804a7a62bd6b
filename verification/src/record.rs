use vstd::prelude::*;

verus! {

/// Which island the camera orbit of a recorded keyframe is centred on.
#[derive(Clone, Copy, Debug, PartialEq, Eq, Structural)]
pub enum CenterTarget {
    Main,
    Nether,
    End,
    Monolith,
}

/// A duration of `total` seconds as hours, minutes and seconds.
pub fn split_hms(total: u64) -> (hms: (u64, u64, u64))
    ensures
        hms == (total / 3600, (total % 3600) / 60, total % 60),
        hms.0 * 3600 + hms.1 * 60 + hms.2 == total,
        hms.1 < 60,
        hms.2 < 60,
{
    (total / 3600, (total % 3600) / 60, total % 60)
}

} // verus!
