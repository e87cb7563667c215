use crate::component::ComponentId;
use crate::entity::Entity;
use std::marker::PhantomData;
use vstd::prelude::*;

verus! {

/// Shared access to a component type, as a query requirement.
pub struct Read<T>(pub PhantomData<T>);

/// Exclusive access to a component type, as a query requirement.
pub struct Write<T>(pub PhantomData<T>);

/// Whether `e` is in every list of `others`.
pub open spec fn in_all(others: Seq<Seq<Entity>>, e: Entity) -> bool {
    forall|j: int| 0 <= j < others.len() ==> (#[trigger] others[j]).contains(e)
}

/// The entities of `first`, in `first`'s order, that also occur in every list
/// of `others`: the entities that qualify for a query whose first requirement
/// has the entities `first`.
pub open spec fn qualified(first: Seq<Entity>, others: Seq<Seq<Entity>>) -> Seq<Entity>
    decreases first.len(),
{
    if first.len() == 0 {
        Seq::empty()
    } else {
        let rest = qualified(first.drop_last(), others);
        if in_all(others, first.last()) {
            rest.push(first.last())
        } else {
            rest
        }
    }
}

/// An entity qualifies exactly when it occurs in the first list and in every
/// other list: an entity lacking one required component is never yielded.
pub proof fn lemma_qualified_contains(first: Seq<Entity>, others: Seq<Seq<Entity>>, e: Entity)
    ensures
        qualified(first, others).contains(e) <==> first.contains(e) && in_all(others, e),
    decreases first.len(),
{
    if first.len() > 0 {
        let init = first.drop_last();
        lemma_qualified_contains(init, others, e);
        let rest = qualified(init, others);
        if first.contains(e) && in_all(others, e) {
            let k = choose|k: int| 0 <= k < first.len() && first[k] == e;
            if k < first.len() - 1 {
                assert(init[k] == e);
                let j = choose|j: int| 0 <= j < rest.len() && rest[j] == e;
                if in_all(others, first.last()) {
                    assert(rest.push(first.last())[j] == e);
                }
            } else {
                assert(first.last() == e);
                if in_all(others, first.last()) {
                    assert(rest.push(first.last())[rest.len() as int] == e);
                }
            }
        }
        if qualified(first, others).contains(e) {
            let q = qualified(first, others);
            let j = choose|j: int| 0 <= j < q.len() && q[j] == e;
            if in_all(others, first.last()) && j == rest.len() {
                assert(first[first.len() - 1] == e);
            } else {
                assert(rest[j] == e);
                let k = choose|k: int| 0 <= k < init.len() && init[k] == e;
                assert(first[k] == e);
            }
        }
    }
}

/// The entities that qualified for a query over `ids`, in the order of the
/// first requirement, taken once when the query was made.
pub struct Query {
    ids: Vec<ComponentId>,
    entities: Vec<Entity>,
}

impl Query {
    pub closed spec fn id_seq(&self) -> Seq<ComponentId> {
        self.ids@
    }

    pub closed spec fn entity_seq(&self) -> Seq<Entity> {
        self.entities@
    }

    pub fn new(ids: Vec<ComponentId>, entities: Vec<Entity>) -> (r: Query)
        ensures
            r.id_seq() == ids@,
            r.entity_seq() == entities@,
    {
        Query { ids, entities }
    }

    /// The component ids the query requires, in order.
    pub fn ids(&self) -> (r: &Vec<ComponentId>)
        ensures
            r@ == self.id_seq(),
    {
        &self.ids
    }

    /// The qualifying entities, in order.
    pub fn entities(&self) -> (r: &Vec<Entity>)
        ensures
            r@ == self.entity_seq(),
    {
        &self.entities
    }
}

} // verus!
