use vstd::prelude::*;

use crate::element::Element;

verus! {

/// A `Filter` provides duplicate detection.
pub trait Filter {
    /// The filter's invariant, kept by every operation.
    spec fn wf(&self) -> bool;

    /// Whether a lookup of `e` answers true.
    spec fn contains(&self, e: Element) -> bool;

    /// Whether `e` was plausibly seen before.
    fn lookup(&self, e: Element) -> (r: bool)
        requires
            self.wf(),
        ensures
            r == self.contains(e),
    ;

    /// Records `e` and reports whether it was plausibly seen before; a
    /// lookup of `e` right after answers true.
    fn insert(&mut self, e: Element) -> (r: bool)
        requires
            old(self).wf(),
        ensures
            final(self).wf(),
            r == old(self).contains(e),
            final(self).contains(e),
    ;
}

} // verus!
