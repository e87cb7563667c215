use crate::component::ComponentId;
use crate::entity::Entity;
use crate::storage::blob_vec::swap_removed;
use crate::storage::sparse_set::SparseSet;
use crate::storage::table::{Table, TableRow};
use std::collections::HashSet;
use vstd::prelude::*;

verus! {

/// The identifier of an [`Archetype`]: its position among the archetypes.
#[derive(Debug, Copy, Clone, Eq, PartialEq, Hash, Structural)]
pub struct ArchetypeId(pub u32);

impl ArchetypeId {
    /// The id at position `index`, which must fit in a `u32`.
    pub fn new(index: usize) -> (r: Self)
        requires
            index <= u32::MAX,
        ensures
            r.0 == index,
    {
        ArchetypeId(index as u32)
    }

    pub fn index(self) -> (r: usize)
        ensures
            r == self.0,
    {
        self.0 as usize
    }
}

/// The archetypes reached by adding or by removing one component.
#[derive(Debug)]
pub struct ArchetypeEdge {
    pub add: Option<ArchetypeId>,
    pub remove: Option<ArchetypeId>,
}

/// An entity of an [`Archetype`] and the row of its components in the table.
#[derive(Debug, Clone, Copy, PartialEq, Eq, Structural)]
pub struct ArchetypeEntity {
    pub entity: Entity,
    pub table_row: TableRow,
}

impl ArchetypeEntity {
    pub fn id(&self) -> (r: Entity)
        ensures
            r == self.entity,
    {
        self.entity
    }

    pub fn table_row(&self) -> (r: TableRow)
        ensures
            r == self.table_row,
    {
        self.table_row
    }
}

/// The position of an entity among the entities of an [`Archetype`].
#[derive(Debug, Copy, Clone, Eq, PartialEq, Structural)]
pub struct ArchetypeRow(pub u32);

impl ArchetypeRow {
    /// The row `index`, which must fit in a `u32`.
    pub fn new(index: usize) -> (r: Self)
        requires
            index <= u32::MAX,
        ensures
            r.0 == index,
    {
        ArchetypeRow(index as u32)
    }

    pub fn index(self) -> (r: usize)
        ensures
            r == self.0,
    {
        self.0 as usize
    }
}

/// Where an entity lives in the archetype layout.
#[derive(Debug, Clone, Copy, PartialEq, Eq, Structural)]
pub struct EntityMeta {
    pub archetype_id: ArchetypeId,
    pub archetype_row: ArchetypeRow,
    pub table_row: TableRow,
}

/// What a swap-removal from an archetype did: the entity moved into the freed
/// row, unless the removed row was the last, and the table row of the removed
/// entity.
#[derive(Debug, Clone, Copy, PartialEq, Eq, Structural)]
pub struct ArchetypeSwapRemoveResult {
    pub swapped_entity: Option<Entity>,
    pub table_row: TableRow,
}

/// The entities that have exactly one set of components, with their table.
#[derive(Debug)]
pub struct Archetype<T> {
    id: ArchetypeId,
    components_ids: Vec<ComponentId>,
    components: Table<T>,
    edges: SparseSet<ComponentId, ArchetypeEdge>,
    entities: Vec<ArchetypeEntity>,
}

impl<T> Archetype<T> {
    pub closed spec fn spec_id(&self) -> ArchetypeId {
        self.id
    }

    pub closed spec fn component_ids(&self) -> Seq<ComponentId> {
        self.components_ids@
    }

    pub closed spec fn edge_set(&self) -> SparseSet<ComponentId, ArchetypeEdge> {
        self.edges
    }

    pub closed spec fn entity_seq(&self) -> Seq<ArchetypeEntity> {
        self.entities@
    }

    /// An archetype with no entities and no edges.
    pub fn new(id: ArchetypeId, components: Table<T>, components_ids: Vec<ComponentId>) -> (r: Self)
        ensures
            r.spec_id() == id,
            r.component_ids() == components_ids@,
            r.entity_seq() == Seq::<ArchetypeEntity>::empty(),
            r.edge_set().wf(),
            r.edge_set()@ == Map::<nat, ArchetypeEdge>::empty(),
    {
        Archetype { id, components_ids, components, edges: SparseSet::new(), entities: Vec::new() }
    }

    pub fn id(&self) -> (r: ArchetypeId)
        ensures
            r == self.spec_id(),
    {
        self.id
    }

    /// Whether the archetype's components include `component_id`.
    pub fn contains(&self, component_id: ComponentId) -> (r: bool)
        ensures
            r == self.component_ids().contains(component_id),
    {
        let mut i: usize = 0;
        while i < self.components_ids.len()
            invariant
                i <= self.components_ids@.len(),
                forall|j: int| 0 <= j < i ==> self.components_ids@[j] != component_id,
            decreases self.components_ids@.len() - i,
        {
            if self.components_ids[i] == component_id {
                assert(self.component_ids()[i as int] == component_id);
                return true;
            }
            i += 1;
        }
        false
    }

    pub fn edges(&self) -> (r: &SparseSet<ComponentId, ArchetypeEdge>)
        ensures
            *r == self.edge_set(),
    {
        &self.edges
    }

    pub fn edges_mut(&mut self) -> (r: &mut SparseSet<ComponentId, ArchetypeEdge>)
        ensures
            *r == old(self).edge_set(),
            final(self).edge_set() == *final(r),
            final(self).spec_id() == old(self).spec_id(),
            final(self).component_ids() == old(self).component_ids(),
            final(self).entity_seq() == old(self).entity_seq(),
    {
        &mut self.edges
    }

    /// Adds `entity`, whose components are at `table_row`, as the last entity.
    pub fn allocate(&mut self, entity: Entity, table_row: TableRow) -> (r: EntityMeta)
        requires
            old(self).entity_seq().len() < u32::MAX,
        ensures
            final(self).entity_seq() == old(self).entity_seq().push(
                ArchetypeEntity { entity, table_row },
            ),
            final(self).spec_id() == old(self).spec_id(),
            final(self).component_ids() == old(self).component_ids(),
            final(self).edge_set() == old(self).edge_set(),
            r == (EntityMeta {
                archetype_id: old(self).spec_id(),
                archetype_row: ArchetypeRow(old(self).entity_seq().len() as u32),
                table_row,
            }),
    {
        let archetype_row = ArchetypeRow::new(self.entities.len());
        self.entities.push(ArchetypeEntity { entity, table_row });
        EntityMeta { archetype_id: self.id, archetype_row, table_row }
    }

    /// Removes the entity at `row`, moving the last entity into its place.
    pub fn swap_remove(&mut self, row: ArchetypeRow) -> (r: ArchetypeSwapRemoveResult)
        requires
            (row.0 as nat) < old(self).entity_seq().len(),
        ensures
            final(self).entity_seq() == swap_removed(old(self).entity_seq(), row.0 as int),
            final(self).spec_id() == old(self).spec_id(),
            final(self).component_ids() == old(self).component_ids(),
            final(self).edge_set() == old(self).edge_set(),
            r.table_row == old(self).entity_seq()[row.0 as int].table_row,
            r.swapped_entity == if row.0 == old(self).entity_seq().len() - 1 {
                None
            } else {
                Some(old(self).entity_seq().last().entity)
            },
    {
        let is_last = row.index() == self.entities.len() - 1;
        let entity = self.entities.swap_remove(row.index());
        assert(self.entity_seq() =~= swap_removed(old(self).entity_seq(), row.0 as int));
        ArchetypeSwapRemoveResult {
            swapped_entity: if is_last {
                None
            } else {
                Some(self.entities[row.index()].entity)
            },
            table_row: entity.table_row,
        }
    }
}

/// Every archetype of a world, the first being the one without components,
/// and for each component id the archetypes that contain it.
pub struct Archetypes<T> {
    archetypes: Vec<Archetype<T>>,
    by_component: SparseSet<ComponentId, HashSet<ArchetypeId>>,
}

impl<T> Archetypes<T> {
    pub closed spec fn archetype_seq(&self) -> Seq<Archetype<T>> {
        self.archetypes@
    }

    pub closed spec fn sets(&self) -> SparseSet<ComponentId, HashSet<ArchetypeId>> {
        self.by_component
    }

    /// Just the archetype without components, with id 0.
    pub fn new() -> (r: Self)
        ensures
            r.archetype_seq().len() == 1,
            r.archetype_seq()[0].spec_id() == ArchetypeId(0),
            r.archetype_seq()[0].component_ids() == Seq::<ComponentId>::empty(),
            r.archetype_seq()[0].entity_seq() == Seq::<ArchetypeEntity>::empty(),
            r.sets().wf(),
            r.sets()@ == Map::<nat, HashSet<ArchetypeId>>::empty(),
    {
        let mut archetypes: Vec<Archetype<T>> = Vec::new();
        let id = ArchetypeId::new(archetypes.len());
        archetypes.push(Archetype::new(id, Table::new(), Vec::new()));
        Archetypes { archetypes, by_component: SparseSet::new() }
    }

    /// The archetype with id `id`, found by search.
    pub fn get(&self, id: ArchetypeId) -> (r: Option<&Archetype<T>>)
        ensures
            match r {
                Some(a) => a.spec_id() == id && self.archetype_seq().contains(*a),
                None => forall|k: int|
                    0 <= k < self.archetype_seq().len() ==> (#[trigger] self.archetype_seq()[k]).spec_id()
                        != id,
            },
    {
        let mut i: usize = 0;
        while i < self.archetypes.len()
            invariant
                i <= self.archetypes@.len(),
                forall|k: int| 0 <= k < i ==> (#[trigger] self.archetype_seq()[k]).spec_id() != id,
            decreases self.archetypes@.len() - i,
        {
            if self.archetypes[i].id == id {
                assert(self.archetype_seq()[i as int] == self.archetypes@[i as int]);
                return Some(&self.archetypes[i]);
            }
            i += 1;
        }
        None
    }

    /// The archetype with id `id`, found by search, to change in place.
    pub fn get_mut(&mut self, id: ArchetypeId) -> (r: Option<&mut Archetype<T>>)
        ensures
            match r {
                Some(a) => a.spec_id() == id && exists|k: int|
                    0 <= k < old(self).archetype_seq().len() && old(self).archetype_seq()[k] == *a
                        && final(self).archetype_seq() == old(self).archetype_seq().update(
                        k,
                        *final(a),
                    ),
                None => (forall|k: int|
                    0 <= k < old(self).archetype_seq().len() ==> (#[trigger] old(self).archetype_seq()[k]).spec_id()
                        != id) && final(self).archetype_seq() == old(self).archetype_seq(),
            },
    {
        let mut i: usize = 0;
        while i < self.archetypes.len()
            invariant
                i <= self.archetypes@.len(),
                *self == *old(self),
                forall|k: int| 0 <= k < i ==> (#[trigger] self.archetype_seq()[k]).spec_id() != id,
            decreases self.archetypes@.len() - i,
        {
            if self.archetypes[i].id == id {
                assert(old(self).archetype_seq()[i as int].spec_id() == id);
                return Some(&mut self.archetypes[i]);
            }
            i += 1;
        }
        None
    }

    /// The archetypes that contain `component_id`.
    pub fn get_archetype_sets(&self, component_id: ComponentId) -> (r: Option<&HashSet<ArchetypeId>>)
        requires
            self.sets().wf(),
        ensures
            r == if self.sets()@.contains_key(component_id.0 as nat) {
                Some(&self.sets()@[component_id.0 as nat])
            } else {
                None::<&HashSet<ArchetypeId>>
            },
    {
        self.by_component.get(component_id)
    }

    /// The archetypes that contain `component_id`, to change in place.
    pub fn get_archetype_sets_mut(&mut self, component_id: ComponentId) -> (r: Option<
        &mut HashSet<ArchetypeId>,
    >)
        requires
            old(self).sets().wf(),
        ensures
            final(self).sets().wf(),
            final(self).archetype_seq() == old(self).archetype_seq(),
            match r {
                Some(s) => old(self).sets()@.contains_key(component_id.0 as nat) && *s == old(self).sets()@[component_id.0 as nat]
                    && final(self).sets()@ == old(self).sets()@.insert(component_id.0 as nat, *final(s)),
                None => !old(self).sets()@.contains_key(component_id.0 as nat) && final(self).sets()
                    == old(self).sets(),
            },
    {
        self.by_component.get_mut(component_id)
    }

    /// References to every archetype, in order.
    pub fn archetypes(&self) -> (r: Vec<&Archetype<T>>)
        ensures
            r@.len() == self.archetype_seq().len(),
            forall|k: int| 0 <= k < r@.len() ==> *(#[trigger] r@[k]) == self.archetype_seq()[k],
    {
        let mut out: Vec<&Archetype<T>> = Vec::new();
        let mut i: usize = 0;
        while i < self.archetypes.len()
            invariant
                i <= self.archetypes@.len(),
                out@.len() == i,
                forall|k: int| 0 <= k < i ==> *(#[trigger] out@[k]) == self.archetype_seq()[k],
            decreases self.archetypes@.len() - i,
        {
            out.push(&self.archetypes[i]);
            i += 1;
        }
        out
    }
}

} // verus!
