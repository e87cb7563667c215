use crate::entity::Entity;
use crate::storage::blob_vec::{lemma_swap_removed_contains, swap_removed, BlobVec};
use crate::storage::sparse_set::{SparseArray, SparseIndex, SparseSet};
use std::collections::HashMap;
use vstd::prelude::*;

verus! {

/// A small integer naming a registered component type, meaningful only within
/// the registry that issued it.
#[derive(Clone, Copy, Debug, PartialEq, Eq, Hash, Structural)]
pub struct ComponentId(pub u32);

impl SparseIndex for ComponentId {
    open spec fn spec_sparse_index(&self) -> nat {
        self.0 as nat
    }

    open spec fn spec_fits(value: usize) -> bool {
        value <= u32::MAX
    }

    fn sparse_index(&self) -> (r: usize) {
        self.0 as usize
    }

    fn new_sparse_index(value: usize) -> (r: Self) {
        ComponentId(value as u32)
    }
}

/// Marks a type whose values are stored as components.
pub trait Component {}

/// `o` holds the dense position `d`.
pub open spec fn at_position(o: Option<usize>, d: int) -> bool {
    o is Some && o->0 as int == d
}

/// The store of one component type for every entity that has it: a sparse
/// array from entity index to dense position, and the entities and values in
/// dense order, side by side.
#[derive(Debug, PartialEq)]
pub struct ComponentSparseSet<T> {
    sparse: SparseArray<Entity, usize>,
    entities: Vec<Entity>,
    dense: BlobVec<T>,
}

impl<T> ComponentSparseSet<T> {
    /// The entities that have the component, in dense order.
    pub closed spec fn entity_seq(&self) -> Seq<Entity> {
        self.entities@
    }

    /// Their values, in the same order.
    pub closed spec fn value_seq(&self) -> Seq<T> {
        self.dense@
    }

    /// The dense position recorded for entity index `i`.
    pub closed spec fn position(&self, i: nat) -> Option<usize> {
        self.sparse.spec_get(i)
    }

    /// Entities and values stay parallel, and the sparse array points each
    /// entity index at its own dense position and nowhere else.
    pub closed spec fn wf(&self) -> bool {
        &&& self.entities@.len() == self.dense@.len()
        &&& forall|d: int|
            0 <= d < self.entities@.len() ==> at_position(self.sparse.spec_get((#[trigger] self.entities@[d]).0.index as nat), d)
        &&& forall|i: nat| #[trigger]
            self.sparse.spec_get(i) is Some ==> self.sparse.spec_get(i)->0 < self.entities@.len()
                && self.entities@[self.sparse.spec_get(i)->0 as int].0.index == i
    }

    /// What a well-formed store guarantees, stated over its model.
    pub proof fn lemma_wf(&self)
        requires
            self.wf(),
        ensures
            self.entity_seq().len() == self.value_seq().len(),
            forall|d: int|
                0 <= d < self.entity_seq().len() ==> at_position(self.position((#[trigger] self.entity_seq()[d]).0.index as nat), d),
            forall|i: nat| #[trigger]
                self.position(i) is Some ==> self.position(i)->0 < self.entity_seq().len()
                    && self.entity_seq()[self.position(i)->0 as int].0.index == i,
    {
    }

    /// Whether an entity with `e`'s index has the component.
    pub open spec fn holds(&self, e: Entity) -> bool {
        self.position(e.0.index as nat) is Some
    }

    /// The value stored for `e`'s index.
    pub open spec fn value_of(&self, e: Entity) -> T {
        self.value_seq()[self.position(e.0.index as nat)->0 as int]
    }

    pub fn new() -> (r: Self)
        ensures
            r.wf(),
            r.entity_seq() == Seq::<Entity>::empty(),
            r.value_seq() == Seq::<T>::empty(),
    {
        ComponentSparseSet { sparse: SparseArray::new(), entities: Vec::new(), dense: BlobVec::new() }
    }

    /// Stores `value` for `entity`. An entity index already present keeps its
    /// dense position and gets the new entity and value there; a new one is
    /// appended at the end.
    pub fn insert(&mut self, entity: Entity, value: T)
        requires
            old(self).wf(),
            entity.0.index < usize::MAX,
        ensures
            final(self).wf(),
            final(self).holds(entity),
            final(self).value_of(entity) == value,
            old(self).holds(entity) ==> {
                let d = old(self).position(entity.0.index as nat)->0 as int;
                &&& final(self).entity_seq() == old(self).entity_seq().update(d, entity)
                &&& final(self).value_seq() == old(self).value_seq().update(d, value)
            },
            !old(self).holds(entity) ==> {
                &&& final(self).entity_seq() == old(self).entity_seq().push(entity)
                &&& final(self).value_seq() == old(self).value_seq().push(value)
            },
            forall|i: nat|
                i != entity.0.index ==> #[trigger] final(self).position(i) == old(self).position(i),
    {
        match self.sparse.get(entity) {
            Some(d) => {
                let d = *d;
                self.entities.set(d, entity);
                proof {
                    assert forall|k: int|
                        0 <= k < self.entities@.len() implies at_position(self.sparse.spec_get((#[trigger] self.entities@[k]).0.index as nat), k) by {
                        if k != d {
                            assert(self.entities@[k] == old(self).entities@[k]);
                        }
                    }
                }
                match self.dense.get_mut(d) {
                    Some(slot) => {
                        *slot = value;
                    },
                    None => {},
                }
            },
            None => {
                let d = self.dense.len();
                self.sparse.insert(entity, d);
                self.entities.push(entity);
                self.dense.push(value);
                proof {
                    assert forall|i: nat| i != entity.0.index implies #[trigger] self.sparse.spec_get(i)
                        == old(self).sparse.spec_get(i) by {}
                    assert forall|k: int|
                        0 <= k < self.entities@.len() implies at_position(self.sparse.spec_get((#[trigger] self.entities@[k]).0.index as nat), k) by {
                        if k < old(self).entities@.len() {
                            assert(self.entities@[k] == old(self).entities@[k]);
                        }
                    }
                    assert forall|i: nat| #[trigger]
                        self.sparse.spec_get(i) is Some implies self.sparse.spec_get(i)->0
                        < self.entities@.len() && self.entities@[self.sparse.spec_get(i)->0 as int].0.index
                        == i by {
                        if i != entity.0.index {
                            assert(self.sparse.spec_get(i) == old(self).sparse.spec_get(i));
                        }
                    }
                }
            },
        }
    }

    pub fn get(&self, entity: Entity) -> (r: Option<&T>)
        requires
            self.wf(),
        ensures
            r == if self.holds(entity) {
                Some(&self.value_of(entity))
            } else {
                None::<&T>
            },
    {
        match self.sparse.get(entity) {
            Some(d) => self.dense.get(*d),
            None => None,
        }
    }

    pub fn get_mut(&mut self, entity: Entity) -> (r: Option<&mut T>)
        requires
            old(self).wf(),
        ensures
            final(self).entity_seq() == old(self).entity_seq(),
            forall|i: nat| #[trigger] final(self).position(i) == old(self).position(i),
            final(self).value_seq().len() == old(self).value_seq().len(),
            final(self).wf(),
            match r {
                Some(v) => old(self).holds(entity) && *v == old(self).value_of(entity)
                    && final(self).value_seq() == old(self).value_seq().update(
                    old(self).position(entity.0.index as nat)->0 as int,
                    *final(v),
                ),
                None => !old(self).holds(entity) && *final(self) == *old(self),
            },
    {
        let d = match self.sparse.get(entity) {
            Some(d) => *d,
            None => {
                return None;
            },
        };
        self.dense.get_mut(d)
    }

    /// Removes `entity`'s component: the last entity and value move into the
    /// freed dense position, and the moved entity's sparse entry follows them.
    /// Every other entity keeps its value.
    pub fn remove_entity(&mut self, entity: Entity)
        requires
            old(self).wf(),
        ensures
            final(self).wf(),
            !final(self).holds(entity),
            old(self).holds(entity) ==> {
                let d = old(self).position(entity.0.index as nat)->0 as int;
                &&& final(self).entity_seq() == swap_removed(old(self).entity_seq(), d)
                &&& final(self).value_seq() == swap_removed(old(self).value_seq(), d)
            },
            !old(self).holds(entity) ==> final(self).entity_seq() == old(self).entity_seq()
                && final(self).value_seq() == old(self).value_seq(),
            forall|f: Entity|
                #![trigger final(self).holds(f)]
                #![trigger final(self).value_of(f)]
                f.0.index != entity.0.index && old(self).holds(f) ==> final(self).holds(f)
                    && final(self).value_of(f) == old(self).value_of(f),
            forall|f: Entity|
                f.0.index != entity.0.index ==> (#[trigger] final(self).holds(f) == old(self).holds(f)),
            forall|f: Entity| #[trigger]
                final(self).entity_seq().contains(f) <==> old(self).entity_seq().contains(f)
                    && f.0.index != entity.0.index,
    {
        proof {
            self.lemma_wf();
            if old(self).holds(entity) {
                let d = old(self).position(entity.0.index as nat)->0 as int;
                let s = old(self).entity_seq();
                assert forall|f: Entity| #[trigger]
                    swap_removed(s, d).contains(f) <==> s.contains(f) && f.0.index != entity.0.index by {
                    lemma_swap_removed_contains(s, d, f);
                    if s.contains(f) && f.0.index != entity.0.index {
                        let i = choose|i: int| 0 <= i < s.len() && s[i] == f;
                        assert(at_position(old(self).position(f.0.index as nat), i));
                        assert(i != d);
                    }
                    if exists|i: int| 0 <= i < s.len() && i != d && s[i] == f {
                        let i = choose|i: int| 0 <= i < s.len() && i != d && s[i] == f;
                        assert(at_position(old(self).position(f.0.index as nat), i));
                        assert(at_position(old(self).position(entity.0.index as nat), d));
                        assert(f.0.index != entity.0.index);
                        assert(s.contains(f));
                    }
                }
            } else {
                let s = old(self).entity_seq();
                assert forall|f: Entity| #[trigger] s.contains(f) implies f.0.index != entity.0.index by {
                    let i = choose|i: int| 0 <= i < s.len() && s[i] == f;
                    assert(at_position(old(self).position(f.0.index as nat), i));
                }
            }
        }
        let ghost ei = entity.0.index as nat;
        match self.sparse.remove(entity) {
            Some(d) => {
                proof {
                    assert(old(self).sparse.spec_get(ei) == Some(d));
                    assert(self.sparse.spec_get(ei) is None);
                    assert forall|i: nat| i != ei implies #[trigger] self.sparse.spec_get(i)
                        == old(self).sparse.spec_get(i) by {}
                }
                let _ = self.dense.swap_remove(d);
                let _ = self.entities.swap_remove(d);
                proof {
                    assert(self.entities@ =~= swap_removed(old(self).entities@, d as int));
                }
                if d < self.entities.len() {
                    let moved = self.entities[d];
                    let ghost last = old(self).entities@.len() - 1;
                    proof {
                        assert(moved == old(self).entities@[last]);
                        assert(at_position(old(self).sparse.spec_get(moved.0.index as nat), last));
                        assert(moved.0.index as nat != ei);
                        assert(moved.0.index < old(self).sparse.slots().len());
                    }
                    self.sparse.insert(moved, d);
                    proof {
                        let mi = moved.0.index as nat;
                        assert forall|i: nat| i != ei && i != mi implies #[trigger] self.sparse.spec_get(i)
                            == old(self).sparse.spec_get(i) by {}
                        assert forall|k: int|
                            0 <= k < self.entities@.len() implies at_position(self.sparse.spec_get((#[trigger] self.entities@[k]).0.index as nat), k) by {
                            if k != d {
                                assert(self.entities@[k] == old(self).entities@[k]);
                                let ki = self.entities@[k].0.index as nat;
                                assert(at_position(old(self).sparse.spec_get(ki), k));
                                assert(ki != ei);
                                assert(ki != mi);
                            }
                        }
                        assert forall|i: nat| #[trigger]
                            self.sparse.spec_get(i) is Some implies self.sparse.spec_get(i)->0
                            < self.entities@.len() && self.entities@[self.sparse.spec_get(i)->0 as int].0.index
                            == i by {
                            if i == mi {
                                assert(self.sparse.spec_get(i) == Some(d));
                                assert(self.entities@[d as int] == moved);
                            } else if i == ei {
                                assert(self.sparse.spec_get(i) is None);
                            } else {
                                assert(self.sparse.spec_get(i) == old(self).sparse.spec_get(i));
                                let p = old(self).sparse.spec_get(i)->0 as int;
                                assert(old(self).entities@[p].0.index == i);
                                assert(p != d);
                                assert(p != last);
                                assert(self.entities@[p] == old(self).entities@[p]);
                            }
                        }
                    }
                } else {
                    proof {
                        assert forall|k: int|
                            0 <= k < self.entities@.len() implies at_position(self.sparse.spec_get((#[trigger] self.entities@[k]).0.index as nat), k) by {
                            assert(self.entities@[k] == old(self).entities@[k]);
                            let ki = self.entities@[k].0.index as nat;
                            assert(at_position(old(self).sparse.spec_get(ki), k));
                        }
                        assert forall|i: nat| #[trigger]
                            self.sparse.spec_get(i) is Some implies self.sparse.spec_get(i)->0
                            < self.entities@.len() && self.entities@[self.sparse.spec_get(i)->0 as int].0.index
                            == i by {
                            assert(i != ei);
                            assert(self.sparse.spec_get(i) == old(self).sparse.spec_get(i));
                            let p = old(self).sparse.spec_get(i)->0 as int;
                            assert(old(self).entities@[p].0.index == i);
                            assert(p != d);
                            assert(self.entities@[p] == old(self).entities@[p]);
                        }
                    }
                }
            },
            None => {
                assert(self.sparse.slots() =~= old(self).sparse.slots());
                assert forall|i: nat| #[trigger] self.sparse.spec_get(i) == old(self).sparse.spec_get(i) by {}
            },
        }
    }

    /// The value at dense position `dense_index`.
    pub fn get_dense(&self, dense_index: usize) -> (r: Option<&T>)
        ensures
            r == if dense_index < self.value_seq().len() {
                Some(&self.value_seq()[dense_index as int])
            } else {
                None::<&T>
            },
    {
        self.dense.get(dense_index)
    }

    /// The number of entities that have the component.
    pub fn len(&self) -> (r: usize)
        ensures
            r == self.entity_seq().len(),
    {
        self.entities.len()
    }

    pub fn is_empty(&self) -> (r: bool)
        ensures
            r == (self.entity_seq().len() == 0),
    {
        self.entities.len() == 0
    }

    /// The entities that have the component, in dense order.
    pub fn entities(&self) -> (r: Vec<Entity>)
        ensures
            r@ == self.entity_seq(),
    {
        copy_entities(&self.entities)
    }

    /// The sparse array from entity index to dense position.
    pub fn sparse(&self) -> (r: &SparseArray<Entity, usize>)
        ensures
            forall|i: nat| #[trigger] r.spec_get(i) == self.position(i),
    {
        &self.sparse
    }

    /// The values, in dense order.
    pub fn dense(&self) -> (r: &BlobVec<T>)
        ensures
            r@ == self.value_seq(),
    {
        &self.dense
    }
}

/// A copy of a list of entities.
pub fn copy_entities(v: &Vec<Entity>) -> (r: Vec<Entity>)
    ensures
        r@ == v@,
{
    let mut r: Vec<Entity> = Vec::new();
    let mut i: usize = 0;
    while i < v.len()
        invariant
            i <= v@.len(),
            r@ == v@.subrange(0, i as int),
        decreases v@.len() - i,
    {
        r.push(v[i]);
        i += 1;
        assert(r@ =~= v@.subrange(0, i as int));
    }
    assert(v@.subrange(0, v@.len() as int) =~= v@);
    r
}

/// The component stores of a world, one per registered [`ComponentId`].
#[derive(Debug)]
pub struct Components<T> {
    components: SparseSet<ComponentId, ComponentSparseSet<T>>,
}

impl<T> Components<T> {
    /// The store of each registered component id.
    pub closed spec fn stores(&self) -> Map<nat, ComponentSparseSet<T>> {
        self.components@
    }

    pub closed spec fn wf(&self) -> bool {
        &&& self.components.wf()
        &&& forall|k: nat| #[trigger] self.components@.contains_key(k) ==> self.components@[k].wf()
    }

    /// Whether `id` has a store.
    pub open spec fn registered(&self, id: ComponentId) -> bool {
        self.stores().contains_key(id.0 as nat)
    }

    /// The store of `id`.
    pub open spec fn store(&self, id: ComponentId) -> ComponentSparseSet<T> {
        self.stores()[id.0 as nat]
    }

    /// The entities that have component `id`, in its store's order; none
    /// for an unregistered id.
    pub open spec fn members(&self, id: ComponentId) -> Seq<Entity> {
        if self.registered(id) {
            self.store(id).entity_seq()
        } else {
            Seq::empty()
        }
    }

    /// Every store is well formed.
    pub proof fn lemma_stores_wf(&self)
        requires
            self.wf(),
        ensures
            forall|k: nat| #[trigger] self.stores().contains_key(k) ==> self.stores()[k].wf(),
    {
    }

    pub fn new() -> (r: Self)
        ensures
            r.wf(),
            r.stores() == Map::<nat, ComponentSparseSet<T>>::empty(),
    {
        Components { components: SparseSet::new() }
    }

    pub fn get(&self, component_id: ComponentId) -> (r: Option<&ComponentSparseSet<T>>)
        requires
            self.wf(),
        ensures
            r == if self.registered(component_id) {
                Some(&self.store(component_id))
            } else {
                None::<&ComponentSparseSet<T>>
            },
            r matches Some(c) ==> c.wf(),
    {
        self.components.get(component_id)
    }

    /// The store of `component_id`, to change in place. The registry stays well
    /// formed as long as the store does.
    pub fn get_mut(&mut self, component_id: ComponentId) -> (r: Option<&mut ComponentSparseSet<T>>)
        requires
            old(self).wf(),
        ensures
            match r {
                Some(c) => old(self).registered(component_id) && *c == old(self).store(component_id)
                    && c.wf() && final(self).stores() == old(self).stores().insert(
                    component_id.0 as nat,
                    *final(c),
                ) && final(self).store(component_id) == *final(c) && (forall|k: ComponentId|
                    #[trigger] final(self).registered(k) == old(self).registered(k)) && (final(c).wf()
                    ==> final(self).wf()),
                None => !old(self).registered(component_id) && *final(self) == *old(self),
            },
    {
        let r = self.components.get_mut(component_id);
        proof {
            assert(old(self).components@.contains_key(component_id.0 as nat) ==> old(self).components@[component_id.0 as nat].wf());
        }
        r
    }

    /// Gives `component_id` a new, empty store.
    pub fn register_component(&mut self, component_id: ComponentId)
        requires
            old(self).wf(),
            (component_id.0 as nat) < usize::MAX,
        ensures
            final(self).wf(),
            final(self).stores() == old(self).stores().insert(
                component_id.0 as nat,
                final(self).store(component_id),
            ),
            final(self).store(component_id).entity_seq() == Seq::<Entity>::empty(),
            final(self).store(component_id).value_seq() == Seq::<T>::empty(),
    {
        let store = ComponentSparseSet::new();
        let ghost s = store;
        self.components.insert(component_id, store);
        assert(self.components@[component_id.0 as nat] == s);
    }

    /// Stores `component` for `entity` in the store of `component_id`.
    pub fn insert_component(&mut self, entity: Entity, component_id: ComponentId, component: T)
        requires
            old(self).wf(),
            old(self).registered(component_id),
            entity.0.index < usize::MAX,
        ensures
            final(self).wf(),
            final(self).stores().dom() == old(self).stores().dom(),
            forall|k: nat|
                k != component_id.0 && #[trigger] old(self).stores().contains_key(k) ==> final(self).stores()[k]
                    == old(self).stores()[k],
            final(self).store(component_id).holds(entity),
            final(self).store(component_id).value_of(entity) == component,
            forall|i: nat|
                i != entity.0.index ==> #[trigger] final(self).store(component_id).position(i) == old(self).store(component_id).position(i),
            old(self).store(component_id).holds(entity) ==> {
                let d = old(self).store(component_id).position(entity.0.index as nat)->0 as int;
                &&& final(self).members(component_id) == old(self).members(component_id).update(
                    d,
                    entity,
                )
                &&& final(self).store(component_id).value_seq() == old(self).store(
                    component_id,
                ).value_seq().update(d, component)
            },
            !old(self).store(component_id).holds(entity) ==> {
                &&& final(self).members(component_id) == old(self).members(component_id).push(
                    entity,
                )
                &&& final(self).store(component_id).value_seq() == old(self).store(
                    component_id,
                ).value_seq().push(component)
            },
    {
        match self.components.get_mut(component_id) {
            Some(c) => {
                proof {
                    assert(old(self).components@.contains_key(component_id.0 as nat));
                }
                c.insert(entity, component);
            },
            None => {},
        }
        proof {
            assert(self.stores().dom() =~= old(self).stores().dom());
        }
    }

    /// Whether `entity` is among the entities of component `component_id`.
    pub fn has_component(&self, component_id: ComponentId, entity: Entity) -> (r: bool)
        requires
            self.wf(),
        ensures
            r == self.members(component_id).contains(entity),
    {
        match self.components.get(component_id) {
            Some(c) => {
                assert(self.members(component_id) == c.entity_seq());
                let mut i: usize = 0;
                while i < c.entities.len()
                    invariant
                        i <= c.entities@.len(),
                        self.members(component_id) == c.entity_seq(),
                        forall|j: int| 0 <= j < i ==> c.entities@[j] != entity,
                    decreases c.entities@.len() - i,
                {
                    if c.entities[i] == entity {
                        assert(c.entity_seq()[i as int] == entity);
                        return true;
                    }
                    i += 1;
                }
                false
            },
            None => false,
        }
    }

    /// The entities that have component `component_id`, in its store's order;
    /// none for an unregistered id.
    pub fn entities(&self, component_id: ComponentId) -> (r: Vec<Entity>)
        requires
            self.wf(),
        ensures
            r@ == self.members(component_id),
    {
        match self.components.get(component_id) {
            Some(c) => c.entities(),
            None => Vec::new(),
        }
    }
}

/// What the registry records of a component type.
#[derive(Clone, Copy, Debug, PartialEq, Eq, Structural)]
pub struct ComponentInfo {
    pub id: ComponentId,
}

impl ComponentInfo {
    pub fn id(&self) -> (r: ComponentId)
        ensures
            r == self.id,
    {
        self.id
    }
}

/// The registry of component types: the info of each issued [`ComponentId`],
/// in issue order, and the id registered for each type key.
#[derive(Debug)]
pub struct ComponentsInfo {
    components: Vec<ComponentInfo>,
    indices: HashMap<u64, ComponentId>,
}

impl ComponentsInfo {
    /// How many ids have been issued.
    pub closed spec fn count(&self) -> nat {
        self.components@.len()
    }

    /// The id most recently registered for each type key.
    pub closed spec fn type_ids(&self) -> Map<u64, ComponentId> {
        self.indices@
    }

    /// Id `i` is recorded at position `i`, and every type key maps to an
    /// issued id.
    pub open spec fn wf(&self) -> bool {
        &&& forall|i: int| 0 <= i < self.count() ==> (#[trigger] self.info_at(i)).id == ComponentId(i as u32)
        &&& forall|k: u64| #[trigger] self.type_ids().contains_key(k) ==> (self.type_ids()[k].0 as nat) < self.count()
        &&& self.count() <= u32::MAX
    }

    pub closed spec fn info_at(&self, i: int) -> ComponentInfo {
        self.components@[i]
    }

    pub fn new() -> (r: Self)
        ensures
            r.wf(),
            r.count() == 0,
            r.type_ids() == Map::<u64, ComponentId>::empty(),
    {
        ComponentsInfo { components: Vec::new(), indices: HashMap::new() }
    }

    /// How many ids have been issued.
    pub fn len(&self) -> (r: usize)
        ensures
            r == self.count(),
    {
        self.components.len()
    }

    /// Issues the next id and records it for `type_id`. Registering a key again
    /// issues a new id and leaves the earlier one without a key.
    pub fn register_component(&mut self, type_id: u64) -> (r: ComponentId)
        requires
            old(self).wf(),
            old(self).count() < u32::MAX,
        ensures
            final(self).wf(),
            r == ComponentId(old(self).count() as u32),
            final(self).count() == old(self).count() + 1,
            final(self).type_ids() == old(self).type_ids().insert(type_id, r),
    {
        broadcast use vstd::std_specs::hash::group_hash_axioms;

        let component_id = ComponentId(self.components.len() as u32);
        self.components.push(ComponentInfo { id: component_id });
        self.indices.insert(type_id, component_id);
        proof {
            assert forall|i: int| 0 <= i < self.count() implies (#[trigger] self.info_at(i)).id
                == ComponentId(i as u32) by {
                if i < old(self).count() {
                    assert(self.info_at(i) == old(self).info_at(i));
                }
            }
            assert forall|k: u64| #[trigger] self.type_ids().contains_key(k) implies (self.type_ids()[k].0 as nat)
                < self.count() by {
                if k != type_id {
                    assert(old(self).type_ids().contains_key(k));
                }
            }
        }
        component_id
    }

    /// The info of `id`, if it has been issued.
    pub fn get(&self, id: ComponentId) -> (r: Option<ComponentInfo>)
        requires
            self.wf(),
        ensures
            r == if (id.0 as nat) < self.count() {
                Some(ComponentInfo { id })
            } else {
                None
            },
    {
        if (id.0 as usize) < self.components.len() {
            let info = self.components[id.0 as usize];
            assert(self.info_at(id.0 as int) == info);
            Some(info)
        } else {
            None
        }
    }

    /// The info of the id registered for `type_id`.
    pub fn get_by_type_id(&self, type_id: u64) -> (r: Option<ComponentInfo>)
        requires
            self.wf(),
        ensures
            r == if self.type_ids().contains_key(type_id) {
                Some(ComponentInfo { id: self.type_ids()[type_id] })
            } else {
                None
            },
    {
        broadcast use vstd::std_specs::hash::group_hash_axioms;

        match self.indices.get(&type_id) {
            Some(index) => {
                assert(self.type_ids().contains_key(type_id));
                let info = self.components[index.0 as usize];
                assert(self.info_at(index.0 as int) == info);
                Some(info)
            },
            None => None,
        }
    }
}

} // verus!
