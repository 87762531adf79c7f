use vstd::prelude::*;

verus! {

/// What a ray is cast for; kept for bookkeeping.
#[derive(Clone, Copy, Debug, PartialEq, Eq, Structural)]
pub enum RayType {
    /// From the camera through a pixel.
    Prime,
    /// Off a mirror surface.
    Reflection,
    /// From a surface point towards a light.
    Shadow,
}

/// Depth at which reflection stops: a ray cast at this depth or deeper
/// yields the background colour.
pub const MAX_DEPTH: u32 = 32;

/// Whether a ray cast at `depth` is traced at all.
pub fn within_depth(depth: u32) -> (r: bool)
    ensures
        r == (depth < MAX_DEPTH),
{
    depth < MAX_DEPTH
}

} // verus!
