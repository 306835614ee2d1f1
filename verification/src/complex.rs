//! Complex numbers over the exact fixed-point reals.

use vstd::prelude::*;

use crate::fixed::Fx;

verus! {

/// A point of the complex plane, both parts in raw fixed-point units.
#[derive(Clone, Copy, PartialEq, Eq, Structural, Debug)]
pub struct Cx {
    pub re: Fx,
    pub im: Fx,
}

impl Cx {
    pub open spec fn wf(self) -> bool {
        self.re.wf() && self.im.wf()
    }

    /// Both parts stay within `m` raw units in magnitude.
    pub open spec fn bounded(self, m: int) -> bool {
        self.re.bounded(m) && self.im.bounded(m)
    }

    pub fn new(re: Fx, im: Fx) -> (r: Cx)
        ensures
            r.re == re,
            r.im == im,
    {
        Cx { re, im }
    }
}

} // verus!
