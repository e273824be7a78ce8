use vstd::prelude::*;

verus! {

/// Opaque handle to a window, unique within a single daemon run.
///
/// Used as the tiling tree's tie-break key: when two candidates are exactly
/// tied, the one with the lower `WindowId` wins. The ordering has no meaning
/// beyond that.
#[derive(Debug, Clone, Copy, PartialEq, Eq, Structural, PartialOrd, Ord, Hash)]
pub struct WindowId(pub u64);

/// One of the four `hyper+hjkl` directions.
#[derive(Debug, Clone, Copy, PartialEq, Eq, Structural)]
pub enum Direction {
    Left,
    Right,
    Up,
    Down,
}

} // verus!
