use crate::generational_array::GenerationalIndex;
use crate::storage::sparse_set::SparseIndex;
use vstd::prelude::*;

verus! {

/// An identity with no data of its own: a generational handle used as the key
/// into every component store.
#[derive(Clone, Copy, Debug, PartialEq, Eq, Hash, Structural)]
pub struct Entity(pub GenerationalIndex);

impl Entity {
    pub fn index(&self) -> (r: usize)
        ensures
            r == self.0.index,
    {
        self.0.index()
    }
}

impl From<GenerationalIndex> for Entity {
    fn from(value: GenerationalIndex) -> (r: Self) {
        Entity(value)
    }
}

impl vstd::std_specs::convert::FromSpecImpl<GenerationalIndex> for Entity {
    open spec fn obeys_from_spec() -> bool {
        true
    }

    open spec fn from_spec(v: GenerationalIndex) -> Self {
        Entity(v)
    }
}

impl SparseIndex for Entity {
    open spec fn spec_sparse_index(&self) -> nat {
        self.0.index as nat
    }

    open spec fn spec_fits(value: usize) -> bool {
        true
    }

    fn sparse_index(&self) -> (r: usize) {
        self.0.index
    }

    fn new_sparse_index(value: usize) -> (r: Self) {
        Entity(GenerationalIndex::from_raw(value))
    }
}

} // verus!
