use vstd::prelude::*;

verus! {

/// Names the slot of a modulation source in a parameter pool.
#[derive(Debug, Clone, Copy, PartialEq, Eq, Structural)]
pub struct ProducerId(pub usize);

impl ProducerId {
    /// The id of slot `id`.
    pub fn new(id: usize) -> (r: Self)
        ensures
            r.0 == id,
    {
        Self(id)
    }
}

} // verus!
