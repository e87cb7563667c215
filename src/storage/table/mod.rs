//! Column-per-component tables, the storage of the archetype layout.
use crate::component::ComponentId;
use crate::storage::sparse_set::SparseSet;
use vstd::prelude::*;

pub mod column;

use column::Column;

verus! {

/// The index of a row in a [`Table`].
#[derive(Debug, Clone, Copy, PartialEq, Eq, Structural)]
pub struct TableRow(pub u32);

impl TableRow {
    pub fn from_u32(index: u32) -> (r: Self)
        ensures
            r.0 == index,
    {
        TableRow(index)
    }

    /// The row `index`, which must fit in a `u32`.
    pub fn from_usize(index: usize) -> (r: Self)
        requires
            index <= u32::MAX,
        ensures
            r.0 == index,
    {
        TableRow(index as u32)
    }

    pub fn as_usize(self) -> (r: usize)
        ensures
            r == self.0,
    {
        self.0 as usize
    }

    pub fn as_u32(self) -> (r: u32)
        ensures
            r == self.0,
    {
        self.0
    }
}

/// The identifier of a [`Table`].
#[derive(Debug, Clone, Copy, PartialEq, Eq, Structural)]
pub struct TableId(pub u32);

impl TableId {
    pub fn from_u32(index: u32) -> (r: Self)
        ensures
            r.0 == index,
    {
        TableId(index)
    }

    /// The id `index`, which must fit in a `u32`.
    pub fn from_usize(index: usize) -> (r: Self)
        requires
            index <= u32::MAX,
        ensures
            r.0 == index,
    {
        TableId(index as u32)
    }

    pub fn as_u32(self) -> (r: u32)
        ensures
            r == self.0,
    {
        self.0
    }

    pub fn as_usize(self) -> (r: usize)
        ensures
            r == self.0,
    {
        self.0 as usize
    }

    /// The id of the table without any components.
    pub fn empty() -> (r: Self)
        ensures
            r.0 == 0,
    {
        TableId(0)
    }
}

/// One column per component id.
#[derive(Debug)]
pub struct Table<T> {
    columns: SparseSet<ComponentId, Column<T>>,
}

impl<T> Table<T> {
    /// The column of each component id's number.
    pub closed spec fn column_map(&self) -> Map<nat, Column<T>> {
        self.columns@
    }

    pub closed spec fn wf(&self) -> bool {
        self.columns.wf()
    }

    /// A table with no columns.
    pub fn new() -> (r: Self)
        ensures
            r.wf(),
            r.column_map() == Map::<nat, Column<T>>::empty(),
    {
        Table { columns: SparseSet::new() }
    }

    pub fn get_column(&self, component_id: ComponentId) -> (r: Option<&Column<T>>)
        requires
            self.wf(),
        ensures
            r == if self.column_map().contains_key(component_id.0 as nat) {
                Some(&self.column_map()[component_id.0 as nat])
            } else {
                None::<&Column<T>>
            },
    {
        self.columns.get(component_id)
    }

    pub fn get_column_mut(&mut self, component_id: ComponentId) -> (r: Option<&mut Column<T>>)
        requires
            old(self).wf(),
        ensures
            final(self).wf(),
            match r {
                Some(c) => old(self).column_map().contains_key(component_id.0 as nat) && *c == old(self).column_map()[component_id.0 as nat]
                    && final(self).column_map() == old(self).column_map().insert(component_id.0 as nat, *final(c)),
                None => !old(self).column_map().contains_key(component_id.0 as nat) && final(self).column_map() == old(self).column_map(),
            },
    {
        self.columns.get_mut(component_id)
    }
}

/// Every table of a world.
pub struct Tables<T> {
    tables: Vec<Table<T>>,
}

impl<T> Tables<T> {
    pub closed spec fn table_seq(&self) -> Seq<Table<T>> {
        self.tables@
    }

    pub fn new() -> (r: Self)
        ensures
            r.table_seq() == Seq::<Table<T>>::empty(),
    {
        Tables { tables: Vec::new() }
    }
}

} // verus!
