use vstd::prelude::*;

verus! {

/// Which side of a surface a ray struck: the front face lies against the
/// surface's outward normal, the back face along it.
#[derive(Debug, Clone, Copy, PartialEq, Eq, Structural)]
pub enum Face {
    Front,
    Back,
}

impl Default for Face {
    fn default() -> (r: Face)
        ensures
            r == Face::Front,
    {
        Face::Front
    }
}

} // verus!
