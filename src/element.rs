use vstd::prelude::*;

verus! {

/// The items processed as stream elements.
#[derive(Clone, Copy, Debug, Hash, PartialEq, Eq)]
pub struct Element {
    /// Value held by the element.
    pub value: u64,
}

} // verus!
