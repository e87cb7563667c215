use crate::component::{ComponentId, ComponentSparseSet, Components, ComponentsInfo};
use crate::entity::Entity;
use crate::generational_array::GenerationalIndexAllocator;
use crate::query::{lemma_qualified_contains, qualified, Query};
use vstd::prelude::*;

verus! {

/// Why a world refused a request.
#[derive(Clone, Copy, Debug, PartialEq, Eq, Structural)]
pub enum WorldError {
    /// The request named a component id this world never issued.
    UnregisteredComponent(ComponentId),
}

/// Owns the entity allocator, the list of entities, the component registry and
/// one store per registered component. Every component value is a `C`; the
/// component id says which kind of component it is.
pub struct World<C> {
    entity_allocator: GenerationalIndexAllocator,
    entities: Vec<Entity>,
    components_info: ComponentsInfo,
    components: Components<C>,
}

impl<C> World<C> {
    pub closed spec fn allocator(&self) -> GenerationalIndexAllocator {
        self.entity_allocator
    }

    pub closed spec fn entity_list(&self) -> Seq<Entity> {
        self.entities@
    }

    pub closed spec fn info(&self) -> ComponentsInfo {
        self.components_info
    }

    pub closed spec fn comps(&self) -> Components<C> {
        self.components
    }

    /// The registry, the stores and the allocator are each well formed, and
    /// exactly the issued ids have stores.
    pub closed spec fn wf(&self) -> bool {
        &&& self.entity_allocator.wf()
        &&& self.components.wf()
        &&& self.components_info.wf()
        &&& forall|id: ComponentId| #[trigger]
            self.components.registered(id) <==> (id.0 as nat) < self.components_info.count()
    }

    /// Whether `id` was issued by this world.
    pub open spec fn registered(&self, id: ComponentId) -> bool {
        self.comps().registered(id)
    }

    /// The entities that have component `id`, in storage order.
    pub open spec fn members(&self, id: ComponentId) -> Seq<Entity> {
        self.comps().members(id)
    }

    /// The store of component `id`.
    pub open spec fn store(&self, id: ComponentId) -> ComponentSparseSet<C> {
        self.comps().store(id)
    }

    /// The entity lists of the requirements `ids`, in order.
    pub open spec fn requirement_lists(&self, ids: Seq<ComponentId>) -> Seq<Seq<Entity>> {
        ids.map_values(|id: ComponentId| self.members(id))
    }

    /// The entities that qualify for a query over `ids`: those of the first
    /// requirement, in its order, that every other requirement has too.
    pub open spec fn qualified_for(&self, ids: Seq<ComponentId>) -> Seq<Entity> {
        qualified(self.members(ids[0]), self.requirement_lists(ids).drop_first())
    }

    pub proof fn lemma_wf(&self)
        requires
            self.wf(),
        ensures
            self.allocator().wf(),
            self.info().wf(),
            forall|id: ComponentId| #[trigger]
                self.registered(id) <==> (id.0 as nat) < self.info().count(),
            forall|id: ComponentId| #[trigger] self.registered(id) ==> self.store(id).wf(),
    {
        self.components.lemma_stores_wf();
        assert forall|id: ComponentId| #[trigger] self.registered(id) implies self.store(id).wf() by {
            assert(self.components.stores().contains_key(id.0 as nat));
        }
    }

    pub fn new() -> (r: Self)
        ensures
            r.wf(),
            r.entity_list() == Seq::<Entity>::empty(),
            r.info().count() == 0,
            forall|id: ComponentId| !r.registered(id),
    {
        let r = World {
            entity_allocator: GenerationalIndexAllocator::new(),
            entities: Vec::new(),
            components_info: ComponentsInfo::new(),
            components: Components::new(),
        };
        r
    }

    /// Issues the next component id, records it for `type_id` and gives it an
    /// empty store. Registering the same key twice issues a second id.
    pub fn register_component(&mut self, type_id: u64) -> (r: ComponentId)
        requires
            old(self).wf(),
            old(self).info().count() < u32::MAX,
        ensures
            final(self).wf(),
            r == ComponentId(old(self).info().count() as u32),
            !old(self).registered(r),
            final(self).registered(r),
            final(self).members(r) == Seq::<Entity>::empty(),
            final(self).info().count() == old(self).info().count() + 1,
            final(self).info().type_ids() == old(self).info().type_ids().insert(type_id, r),
            forall|id: ComponentId| #[trigger]
                old(self).registered(id) ==> final(self).store(id) == old(self).store(id),
            final(self).entity_list() == old(self).entity_list(),
            final(self).allocator() == old(self).allocator(),
    {
        let id = self.components_info.register_component(type_id);
        self.components.register_component(id);
        proof {
            assert forall|c: ComponentId| #[trigger]
                self.components.registered(c) <==> (c.0 as nat) < self.components_info.count() by {
                if c.0 != id.0 {
                    assert(self.components.registered(c) == old(self).components.registered(c));
                }
            }
            assert forall|c: ComponentId| #[trigger]
                old(self).registered(c) implies self.store(c) == old(self).store(c) by {
                assert(c.0 != id.0);
            }
        }
        id
    }

    /// The id registered for `type_id`.
    pub fn component_id(&self, type_id: u64) -> (r: Option<ComponentId>)
        requires
            self.wf(),
        ensures
            r == if self.info().type_ids().contains_key(type_id) {
                Some(self.info().type_ids()[type_id])
            } else {
                None
            },
    {
        match self.components_info.get_by_type_id(type_id) {
            Some(info) => Some(info.id()),
            None => None,
        }
    }

    /// How many component ids this world has issued.
    pub fn component_count(&self) -> (r: usize)
        ensures
            r == self.info().count(),
    {
        self.components_info.len()
    }

    /// Whether `id` was issued by this world.
    pub fn is_registered(&self, id: ComponentId) -> (r: bool)
        requires
            self.wf(),
        ensures
            r == self.registered(id),
    {
        self.components.get(id).is_some()
    }

    /// The entities created so far, in creation order.
    pub fn entities(&self) -> (r: &Vec<Entity>)
        ensures
            r@ == self.entity_list(),
    {
        &self.entities
    }

    /// Whether `entity` is a live handle of this world's allocator.
    pub fn is_alive(&self, entity: Entity) -> (r: bool)
        ensures
            r == self.allocator().live(entity.0),
    {
        self.entity_allocator.is_live(entity.0)
    }

    /// Stores `value` as component `id` of `entity`, replacing any value it
    /// had there.
    pub fn add_component(&mut self, entity: Entity, id: ComponentId, value: C)
        requires
            old(self).wf(),
            old(self).registered(id),
            entity.0.index < usize::MAX,
        ensures
            final(self).wf(),
            final(self).registered(id),
            final(self).store(id).holds(entity),
            final(self).store(id).value_of(entity) == value,
            old(self).store(id).holds(entity) ==> final(self).members(id) == old(self).members(
                id,
            ).update(old(self).store(id).position(entity.0.index as nat)->0 as int, entity),
            !old(self).store(id).holds(entity) ==> final(self).members(id) == old(self).members(
                id,
            ).push(entity),
            forall|f: Entity|
                f.0.index != entity.0.index && #[trigger] old(self).store(id).holds(f) ==> final(self).store(
                    id,
                ).holds(f) && final(self).store(id).value_of(f) == old(self).store(id).value_of(f),
            forall|other: ComponentId|
                other.0 != id.0 ==> (#[trigger] final(self).registered(other) == old(self).registered(
                    other,
                )) && (old(self).registered(other) ==> final(self).store(other) == old(self).store(
                    other,
                )),
            final(self).entity_list() == old(self).entity_list(),
            final(self).allocator() == old(self).allocator(),
            final(self).info() == old(self).info(),
    {
        proof {
            self.lemma_wf();
        }
        self.components.insert_component(entity, id, value);
        proof {
            assert forall|c: ComponentId| #[trigger]
                self.components.registered(c) <==> (c.0 as nat) < self.components_info.count() by {
                assert(self.components.registered(c) == old(self).components.registered(c));
            }
            let s0 = old(self).store(id);
            let s1 = self.store(id);
            s0.lemma_wf();
            self.components.lemma_stores_wf();
            assert(self.components.stores().contains_key(id.0 as nat));
            s1.lemma_wf();
            assert forall|f: Entity|
                f.0.index != entity.0.index && #[trigger] s0.holds(f) implies s1.holds(f)
                && s1.value_of(f) == s0.value_of(f) by {
                let p = s0.position(f.0.index as nat)->0 as int;
                assert(s1.position(f.0.index as nat) == s0.position(f.0.index as nat));
                if s0.holds(entity) {
                    let q = s0.position(entity.0.index as nat)->0 as int;
                    assert(p != q);
                }
            }
        }
    }

    /// Takes component `id` away from `entity`, if it has it. Every other
    /// entity keeps its value.
    pub fn remove_component(&mut self, entity: Entity, id: ComponentId)
        requires
            old(self).wf(),
            old(self).registered(id),
        ensures
            final(self).wf(),
            final(self).registered(id),
            !final(self).store(id).holds(entity),
            forall|f: Entity|
                f.0.index != entity.0.index && #[trigger] old(self).store(id).holds(f) ==> final(self).store(
                    id,
                ).holds(f) && final(self).store(id).value_of(f) == old(self).store(id).value_of(f),
            forall|f: Entity|
                f.0.index != entity.0.index ==> (#[trigger] final(self).store(id).holds(f) == old(self).store(id).holds(f)),
            forall|other: ComponentId|
                other.0 != id.0 ==> (#[trigger] final(self).registered(other) == old(self).registered(
                    other,
                )) && (old(self).registered(other) ==> final(self).store(other) == old(self).store(
                    other,
                )),
            final(self).entity_list() == old(self).entity_list(),
            final(self).allocator() == old(self).allocator(),
            final(self).info() == old(self).info(),
    {
        proof {
            self.lemma_wf();
        }
        match self.components.get_mut(id) {
            Some(store) => {
                store.remove_entity(entity);
            },
            None => {},
        }
        proof {
            assert forall|c: ComponentId| #[trigger]
                self.components.registered(c) <==> (c.0 as nat) < self.components_info.count() by {
                if c.0 != id.0 {
                    assert(self.components.registered(c) == old(self).components.registered(c));
                }
            }
        }
    }

    /// The value of component `id` for `entity`.
    pub fn get_component(&self, id: ComponentId, entity: Entity) -> (r: Option<&C>)
        requires
            self.wf(),
        ensures
            r == if self.registered(id) && self.store(id).holds(entity) {
                Some(&self.store(id).value_of(entity))
            } else {
                None::<&C>
            },
    {
        match self.components.get(id) {
            Some(store) => store.get(entity),
            None => None,
        }
    }

    /// The entities that have every component of `ids`, in the order of the
    /// first, taken now: later changes to the stores do not change which
    /// entities the query visits.
    pub fn query(&self, ids: Vec<ComponentId>) -> (r: Query)
        requires
            self.wf(),
            ids@.len() >= 1,
            forall|k: int| 0 <= k < ids@.len() ==> self.registered(#[trigger] ids@[k]),
        ensures
            r.id_seq() == ids@,
            r.entity_seq() == self.qualified_for(ids@),
    {
        let first = self.components.entities(ids[0]);
        let ghost others = self.requirement_lists(ids@).drop_first();
        let mut out: Vec<Entity> = Vec::new();
        let mut i: usize = 0;
        while i < first.len()
            invariant
                self.wf(),
                i <= first@.len(),
                first@ == self.members(ids@[0]),
                others == self.requirement_lists(ids@).drop_first(),
                ids@.len() >= 1,
                out@ == qualified(first@.take(i as int), others),
            decreases first@.len() - i,
        {
            let e = first[i];
            let mut all = true;
            let mut j: usize = 1;
            while j < ids.len()
                invariant
                    self.wf(),
                    1 <= j <= ids@.len(),
                    others == self.requirement_lists(ids@).drop_first(),
                    all == forall|k: int| 0 <= k < j - 1 ==> (#[trigger] others[k]).contains(e),
                decreases ids@.len() - j,
            {
                let has = self.components.has_component(ids[j], e);
                assert(others[j - 1] == self.members(ids@[j as int]));
                all = all && has;
                j += 1;
            }
            proof {
                let t = first@.take(i as int + 1);
                assert(t.drop_last() =~= first@.take(i as int));
                assert(t.last() == e);
            }
            if all {
                out.push(e);
            }
            i += 1;
        }
        proof {
            assert(first@.take(first@.len() as int) =~= first@);
        }
        Query::new(ids, out)
    }

    /// Creates an entity holding the components of `bundle`. Fails, and
    /// changes nothing, if `bundle` names an unregistered id. A component
    /// listed twice takes the later value.
    pub fn add_entity(&mut self, bundle: Vec<(ComponentId, C)>) -> (r: Result<Entity, WorldError>)
        requires
            old(self).wf(),
        ensures
            final(self).wf(),
            r is Ok <==> forall|k: int|
                0 <= k < bundle@.len() ==> old(self).registered(#[trigger] bundle@[k].0),
            r matches Err(WorldError::UnregisteredComponent(id)) ==> !old(self).registered(id)
                && exists|k: int| 0 <= k < bundle@.len() && #[trigger] bundle@[k].0 == id,
            r is Err ==> *final(self) == *old(self),
            r matches Ok(e) ==> {
                &&& !old(self).allocator().live(e.0)
                &&& final(self).allocator().live(e.0)
                &&& final(self).allocator().grows_from(&old(self).allocator())
                &&& final(self).entity_list() == old(self).entity_list().push(e)
                &&& forall|k: int|
                    0 <= k < bundle@.len() ==> final(self).store(#[trigger] bundle@[k].0).holds(e)
                &&& forall|k: int|
                    0 <= k < bundle@.len() && (forall|j: int|
                        k < j < bundle@.len() ==> bundle@[j].0 != #[trigger] bundle@[k].0)
                        ==> final(self).store(bundle@[k].0).value_of(e) == bundle@[k].1
                &&& forall|id: ComponentId|
                    #[trigger] old(self).registered(id) && (forall|k: int|
                        0 <= k < bundle@.len() ==> bundle@[k].0 != id) ==> final(self).store(id)
                        == old(self).store(id)
                &&& forall|id: ComponentId| #[trigger]
                    final(self).registered(id) == old(self).registered(id)
            },
    {
        let n = bundle.len();
        let mut k: usize = 0;
        while k < n
            invariant
                self.wf(),
                n == bundle@.len(),
                k <= n,
                forall|j: int| 0 <= j < k ==> self.registered(#[trigger] bundle@[j].0),
            decreases n - k,
        {
            let id = bundle[k].0;
            if !self.is_registered(id) {
                assert(bundle@[k as int].0 == id);
                return Err(WorldError::UnregisteredComponent(id));
            }
            k += 1;
        }
        proof {
            self.lemma_wf();
        }
        let handle = self.entity_allocator.allocate();
        let entity = Entity(handle);
        self.entities.push(entity);
        let ghost mid = *self;
        let ghost orig = bundle@;
        assert(mid.comps() == old(self).comps());
        let mut rest = bundle;
        let mut k: usize = 0;
        while k < n
            invariant
                self.wf(),
                mid.wf(),
                n == orig.len(),
                k <= n,
                rest@ == orig.subrange(k as int, n as int),
                forall|j: int| 0 <= j < n ==> mid.registered(#[trigger] orig[j].0),
                forall|id: ComponentId| #[trigger] self.registered(id) == mid.registered(id),
                entity.0.index < usize::MAX,
                self.entity_list() == mid.entity_list(),
                self.allocator() == mid.allocator(),
                forall|j: int| 0 <= j < k ==> self.store(#[trigger] orig[j].0).holds(entity),
                forall|j: int|
                    0 <= j < k && (forall|i: int| j < i < k ==> orig[i].0 != #[trigger] orig[j].0)
                        ==> self.store(orig[j].0).value_of(entity) == orig[j].1,
                forall|id: ComponentId|
                    #[trigger] mid.registered(id) && (forall|j: int| 0 <= j < k ==> orig[j].0 != id)
                        ==> self.store(id) == mid.store(id),
                mid.comps() == old(self).comps(),
                !old(self).allocator().live(entity.0),
                mid.allocator().live(entity.0),
                mid.allocator().grows_from(&old(self).allocator()),
                mid.entity_list() == old(self).entity_list().push(entity),
            decreases n - k,
        {
            let ghost before = *self;
            let (id, value) = rest.remove(0);
            assert(orig[k as int] == (id, value));
            self.add_component(entity, id, value);
            proof {
                assert(rest@ =~= orig.subrange(k as int + 1, n as int));
                assert forall|j: int| 0 <= j < k + 1 implies self.store(#[trigger] orig[j].0).holds(
                    entity,
                ) by {
                    let c = orig[j].0;
                    if c.0 != id.0 {
                        assert(self.registered(c) == before.registered(c));
                        assert(before.registered(c));
                        assert(self.store(c) == before.store(c));
                    }
                }
                assert forall|j: int|
                    0 <= j < k + 1 && (forall|i: int|
                        j < i < k + 1 ==> orig[i].0 != #[trigger] orig[j].0) implies self.store(
                    orig[j].0,
                ).value_of(entity) == orig[j].1 by {
                    let c = orig[j].0;
                    if j < k {
                        assert(orig[k as int].0 != c);
                        assert(c.0 != id.0);
                        assert(self.registered(c) == before.registered(c));
                        assert(before.registered(c));
                        assert(self.store(c) == before.store(c));
                        assert(forall|i: int| j < i < k ==> orig[i].0 != orig[j].0);
                    }
                }
                assert forall|c: ComponentId|
                    #[trigger] mid.registered(c) && (forall|j: int| 0 <= j < k + 1 ==> orig[j].0 != c)
                        implies self.store(c) == mid.store(c) by {
                    assert(orig[k as int].0 != c);
                    assert(c.0 != id.0);
                    assert(self.registered(c) == before.registered(c));
                    assert(self.store(c) == before.store(c));
                }
            }
            k += 1;
        }
        proof {
            assert(orig == bundle@);
            assert forall|id: ComponentId|
                #[trigger] old(self).registered(id) && (forall|j: int|
                    0 <= j < n ==> orig[j].0 != id) implies self.store(id) == old(self).store(id) by {
                assert(mid.registered(id));
            }
            assert forall|id: ComponentId| #[trigger]
                self.registered(id) == old(self).registered(id) by {
                assert(self.registered(id) == mid.registered(id));
            }
        }
        Ok(entity)
    }

    /// The value of component `id` for `entity`, to change in place.
    pub fn get_component_mut(&mut self, id: ComponentId, entity: Entity) -> (r: Option<&mut C>)
        requires
            old(self).wf(),
        ensures
            final(self).wf(),
            final(self).entity_list() == old(self).entity_list(),
            final(self).allocator() == old(self).allocator(),
            final(self).info() == old(self).info(),
            forall|c: ComponentId| #[trigger] final(self).registered(c) == old(self).registered(c),
            forall|c: ComponentId|
                c.0 != id.0 && #[trigger] old(self).registered(c) ==> final(self).store(c) == old(self).store(c),
            match r {
                Some(v) => {
                    &&& old(self).registered(id)
                    &&& old(self).store(id).holds(entity)
                    &&& *v == old(self).store(id).value_of(entity)
                    &&& final(self).members(id) == old(self).members(id)
                    &&& final(self).store(id).value_seq() == old(self).store(id).value_seq().update(
                        old(self).store(id).position(entity.0.index as nat)->0 as int,
                        *final(v),
                    )
                    &&& forall|i: nat| #[trigger] final(self).store(id).position(i) == old(self).store(id).position(i)
                },
                None => {
                    &&& !(old(self).registered(id) && old(self).store(id).holds(entity))
                    &&& final(self).comps().stores() == old(self).comps().stores()
                },
            },
    {
        proof {
            self.lemma_wf();
        }
        match self.components.get_mut(id) {
            Some(store) => {
                let r = store.get_mut(entity);
                r
            },
            None => None,
        }
    }

    /// The values of component `id`, in storage order; none for an
    /// unregistered id.
    pub fn iter_component(&self, id: ComponentId) -> (r: &[C])
        requires
            self.wf(),
        ensures
            r@ == if self.registered(id) {
                self.store(id).value_seq()
            } else {
                Seq::<C>::empty()
            },
    {
        match self.components.get(id) {
            Some(store) => store.dense().as_slice(),
            None => &[],
        }
    }

    /// The values of the components `ids` of `entity`, in the order of `ids`;
    /// nothing unless the entity has every one of them.
    pub fn fetch(&self, ids: &Vec<ComponentId>, entity: Entity) -> (r: Option<Vec<&C>>)
        requires
            self.wf(),
        ensures
            r is Some <==> forall|k: int|
                0 <= k < ids@.len() ==> self.registered(#[trigger] ids@[k]) && self.store(
                    ids@[k],
                ).holds(entity),
            r matches Some(vals) ==> vals@.len() == ids@.len() && forall|k: int|
                0 <= k < ids@.len() ==> *(#[trigger] vals@[k]) == self.store(ids@[k]).value_of(
                    entity,
                ),
    {
        let mut vals: Vec<&C> = Vec::new();
        let mut k: usize = 0;
        while k < ids.len()
            invariant
                self.wf(),
                k <= ids@.len(),
                vals@.len() == k,
                forall|j: int|
                    0 <= j < k ==> self.registered(#[trigger] ids@[j]) && self.store(ids@[j]).holds(
                        entity,
                    ),
                forall|j: int|
                    0 <= j < k ==> *(#[trigger] vals@[j]) == self.store(ids@[j]).value_of(entity),
            decreases ids@.len() - k,
        {
            match self.get_component(ids[k], entity) {
                Some(v) => {
                    vals.push(v);
                },
                None => {
                    return None;
                },
            }
            k += 1;
        }
        Some(vals)
    }
}

/// Whether `e` has every component of `ids` in `w`.
pub open spec fn has_all<C>(w: &World<C>, ids: Seq<ComponentId>, e: Entity) -> bool {
    forall|k: int| 0 <= k < ids.len() ==> w.registered(#[trigger] ids[k]) && w.store(ids[k]).holds(e)
}

/// The entities of `es`, in order, that have every component of `ids`.
pub open spec fn still_qualified<C>(w: &World<C>, ids: Seq<ComponentId>, es: Seq<Entity>) -> Seq<
    Entity,
>
    decreases es.len(),
{
    if es.len() == 0 {
        Seq::empty()
    } else {
        let rest = still_qualified(w, ids, es.drop_last());
        if has_all(w, ids, es.last()) {
            rest.push(es.last())
        } else {
            rest
        }
    }
}

impl Query {
    /// Visits the query's entities in order and yields each with the values of
    /// the required components, in the order of the ids. An entity that has
    /// lost one of them since the query was made is passed over.
    pub fn iter<'w, C>(&self, world: &'w World<C>) -> (r: Vec<(Entity, Vec<&'w C>)>)
        requires
            world.wf(),
        ensures
            r@.map_values(|p: (Entity, Vec<&'w C>)| p.0) == still_qualified(
                world,
                self.id_seq(),
                self.entity_seq(),
            ),
            forall|k: int|
                0 <= k < r@.len() ==> (#[trigger] r@[k]).1@.len() == self.id_seq().len() && forall|j: int|
                    0 <= j < self.id_seq().len() ==> *(#[trigger] r@[k].1@[j]) == world.store(
                        self.id_seq()[j],
                    ).value_of(r@[k].0),
    {
        let ids = self.ids();
        let entities = self.entities();
        let mut out: Vec<(Entity, Vec<&'w C>)> = Vec::new();
        let mut i: usize = 0;
        while i < entities.len()
            invariant
                world.wf(),
                i <= entities@.len(),
                ids@ == self.id_seq(),
                entities@ == self.entity_seq(),
                out@.map_values(|p: (Entity, Vec<&'w C>)| p.0) == still_qualified(
                    world,
                    ids@,
                    entities@.take(i as int),
                ),
                forall|k: int|
                    0 <= k < out@.len() ==> (#[trigger] out@[k]).1@.len() == ids@.len() && forall|j: int|
                        0 <= j < ids@.len() ==> *(#[trigger] out@[k].1@[j]) == world.store(
                            ids@[j],
                        ).value_of(out@[k].0),
            decreases entities@.len() - i,
        {
            let e = entities[i];
            proof {
                let t = entities@.take(i as int + 1);
                assert(t.drop_last() =~= entities@.take(i as int));
                assert(t.last() == e);
            }
            let ghost before = out@;
            match world.fetch(ids, e) {
                Some(vals) => {
                    out.push((e, vals));
                    proof {
                        assert(out@.map_values(|p: (Entity, Vec<&'w C>)| p.0) =~= before.map_values(
                            |p: (Entity, Vec<&'w C>)| p.0,
                        ).push(e));
                    }
                },
                None => {},
            }
            i += 1;
        }
        proof {
            assert(entities@.take(entities@.len() as int) =~= entities@);
        }
        out
    }
}

/// A list whose entities all have every component of `ids` passes whole.
proof fn lemma_still_qualified_all<C>(w: &World<C>, ids: Seq<ComponentId>, es: Seq<Entity>)
    requires
        forall|k: int| 0 <= k < es.len() ==> has_all(w, ids, #[trigger] es[k]),
    ensures
        still_qualified(w, ids, es) == es,
    decreases es.len(),
{
    if es.len() > 0 {
        lemma_still_qualified_all(w, ids, es.drop_last());
        assert(has_all(w, ids, es[es.len() - 1]));
        assert(still_qualified(w, ids, es) =~= es);
    }
}

/// Iterating a query over the world it was made from, unchanged since,
/// yields every qualifying entity: each one has all required components.
pub proof fn lemma_fresh_query_yields_all<C>(w: &World<C>, ids: Seq<ComponentId>)
    requires
        w.wf(),
        ids.len() >= 1,
        forall|k: int| 0 <= k < ids.len() ==> w.registered(#[trigger] ids[k]),
    ensures
        still_qualified(w, ids, w.qualified_for(ids)) == w.qualified_for(ids),
{
    let q = w.qualified_for(ids);
    w.lemma_wf();
    assert forall|i: int| 0 <= i < q.len() implies has_all(w, ids, #[trigger] q[i]) by {
        let e = q[i];
        assert(q.contains(e));
        lemma_query_membership(w, ids, e);
        assert forall|k: int| 0 <= k < ids.len() implies w.registered(#[trigger] ids[k]) && w.store(
            ids[k],
        ).holds(e) by {
            assert(w.members(ids[k]).contains(e));
            let s = w.store(ids[k]);
            s.lemma_wf();
            let d = choose|d: int| 0 <= d < s.entity_seq().len() && s.entity_seq()[d] == e;
            assert(s.entity_seq()[d] == e);
        }
    }
    lemma_still_qualified_all(w, ids, q);
}

/// An entity qualifies for a query exactly when it has every required
/// component: one that lacks any of them is never visited.
pub proof fn lemma_query_membership<C>(w: &World<C>, ids: Seq<ComponentId>, e: Entity)
    requires
        ids.len() >= 1,
    ensures
        w.qualified_for(ids).contains(e) <==> forall|k: int|
            0 <= k < ids.len() ==> (#[trigger] w.members(ids[k])).contains(e),
{
    let others = w.requirement_lists(ids).drop_first();
    lemma_qualified_contains(w.members(ids[0]), others, e);
    if forall|k: int| 0 <= k < ids.len() ==> (#[trigger] w.members(ids[k])).contains(e) {
        assert forall|j: int| 0 <= j < others.len() implies (#[trigger] others[j]).contains(e) by {
            assert(others[j] == w.members(ids[j + 1]));
        }
    }
    if w.qualified_for(ids).contains(e) {
        assert forall|k: int| 0 <= k < ids.len() implies (#[trigger] w.members(ids[k])).contains(e) by {
            if k > 0 {
                assert(others[k - 1] == w.members(ids[k]));
            }
        }
    }
}

/// Qualification reads nothing but the required entity lists: two queries
/// over the same requirements, with those lists unchanged in between, visit
/// the same entities in the same order.
pub proof fn lemma_query_stable<C>(before: &World<C>, after: &World<C>, ids: Seq<ComponentId>)
    requires
        ids.len() >= 1,
        forall|k: int| 0 <= k < ids.len() ==> before.members(#[trigger] ids[k]) == after.members(ids[k]),
    ensures
        before.qualified_for(ids) == after.qualified_for(ids),
{
    assert(before.requirement_lists(ids) =~= after.requirement_lists(ids));
    assert(before.members(ids[0]) == after.members(ids[0]));
}

} // verus!
