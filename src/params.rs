//! How the polar branch combines the theta offset with the running angle.
use vstd::prelude::*;

verus! {

/// How the polar branch forms its angle from the angle seed `y`: `Default`
/// adds the offset (`y * pi + offset`), `MultiplyTheta` scales by it
/// (`y * pi * offset`).
#[derive(Clone, Copy, Debug, PartialEq, Eq, Structural)]
pub enum FractalMethod {
    Default,
    MultiplyTheta,
}

impl Default for FractalMethod {
    fn default() -> (r: FractalMethod)
        ensures
            r == FractalMethod::Default,
    {
        FractalMethod::Default
    }
}

} // verus!
