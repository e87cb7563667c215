use super::TableRow;
use crate::storage::blob_vec::{swap_removed, BlobVec};
use vstd::prelude::*;

verus! {

/// The values of one component for every row of a table.
#[derive(Debug)]
pub struct Column<T> {
    data: BlobVec<T>,
}

impl<T> Column<T> {
    pub closed spec fn rows(&self) -> Seq<T> {
        self.data@
    }

    pub fn new() -> (r: Self)
        ensures
            r.rows() == Seq::<T>::empty(),
    {
        Column { data: BlobVec::new() }
    }

    pub fn get(&self, row: TableRow) -> (r: Option<&T>)
        ensures
            r == if (row.0 as nat) < self.rows().len() {
                Some(&self.rows()[row.0 as int])
            } else {
                None::<&T>
            },
    {
        self.data.get(row.as_usize())
    }

    pub fn get_mut(&mut self, row: TableRow) -> (r: Option<&mut T>)
        ensures
            match r {
                Some(v) => (row.0 as nat) < old(self).rows().len() && *v == old(self).rows()[row.0 as int]
                    && final(self).rows() == old(self).rows().update(row.0 as int, *final(v)),
                None => (row.0 as nat) >= old(self).rows().len() && final(self).rows() == old(self).rows(),
            },
    {
        self.data.get_mut(row.as_usize())
    }

    /// Removes the value of `row`, moving the last row's value into its place.
    pub fn swap_remove(&mut self, row: TableRow) -> (r: T)
        requires
            (row.0 as nat) < old(self).rows().len(),
        ensures
            r == old(self).rows()[row.0 as int],
            final(self).rows() == swap_removed(old(self).rows(), row.0 as int),
    {
        self.data.swap_remove(row.as_usize())
    }

    pub fn len(&self) -> (r: usize)
        ensures
            r == self.rows().len(),
    {
        self.data.len()
    }
}

} // verus!
