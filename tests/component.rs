use dahhan::component::{ComponentId, ComponentSparseSet, Components, ComponentsInfo};
use dahhan::generational_array::GenerationalIndex;
use dahhan::entity::Entity;
use dahhan::storage::blob_vec::BlobVec;
use dahhan::storage::sparse_set::SparseIndex;

#[derive(Debug, PartialEq)]
struct SomeComponent(u32);

#[test]
fn test_component_sparse_set_insert() {
    let mut component = ComponentSparseSet::new();

    component.insert(Entity::new_sparse_index(10), SomeComponent(10));

    let mut expected_dense = BlobVec::new();
    expected_dense.push(SomeComponent(10));

    assert_eq!(
        component.sparse().values(),
        &vec![None, None, None, None, None, None, None, None, None, None, Some(0)]
    );
    assert_eq!(component.entities(), vec![Entity::new_sparse_index(10)]);
    assert_eq!(component.dense(), &expected_dense);

    component.insert(Entity::new_sparse_index(1), SomeComponent(5));

    let mut expected_dense = BlobVec::new();
    expected_dense.push(SomeComponent(10));
    expected_dense.push(SomeComponent(5));

    assert_eq!(
        component.sparse().values(),
        &vec![None, Some(1), None, None, None, None, None, None, None, None, Some(0)]
    );
    assert_eq!(
        component.entities(),
        vec![Entity::new_sparse_index(10), Entity::new_sparse_index(1)]
    );
    assert_eq!(component.dense(), &expected_dense);
}

#[test]
fn test_component_sparse_set_remove() {
    let mut component = ComponentSparseSet::new();

    component.insert(Entity::new_sparse_index(10), SomeComponent(10));
    component.insert(Entity::new_sparse_index(1), SomeComponent(5));

    component.remove_entity(Entity::new_sparse_index(10));

    let mut expected_dense = BlobVec::new();
    expected_dense.push(SomeComponent(5));

    assert_eq!(
        component.sparse().values(),
        &vec![None, Some(0), None, None, None, None, None, None, None, None, None]
    );
    assert_eq!(component.entities(), vec![Entity::new_sparse_index(1)]);
    assert_eq!(component.dense(), &expected_dense);
}

#[test]
fn remove_first_of_three_keeps_survivors() {
    let e1 = Entity(GenerationalIndex { index: 0, generation: 0 });
    let e2 = Entity(GenerationalIndex { index: 1, generation: 0 });
    let e3 = Entity(GenerationalIndex { index: 2, generation: 0 });
    let mut set = ComponentSparseSet::new();
    set.insert(e1, 100u32);
    set.insert(e2, 200u32);
    set.insert(e3, 300u32);
    set.remove_entity(e1);

    let mut remaining = set.entities();
    remaining.sort_by_key(|e| e.index());
    assert_eq!(remaining, vec![e2, e3]);
    assert_eq!(set.get(e2), Some(&200));
    assert_eq!(set.get(e3), Some(&300));
    assert_eq!(set.get(e1), None);
    assert_eq!(set.len(), 2);
    assert_eq!(set.get_dense(0), Some(&300));
    assert_eq!(set.get_dense(2), None);
}

#[test]
fn remove_only_and_last_element() {
    let mut set = ComponentSparseSet::new();
    let e = Entity::new_sparse_index(4);
    set.insert(e, 'x');
    set.remove_entity(e);
    assert!(set.is_empty());
    assert_eq!(set.get(e), None);

    let a = Entity::new_sparse_index(0);
    let b = Entity::new_sparse_index(1);
    set.insert(a, 'a');
    set.insert(b, 'b');
    set.remove_entity(b);
    assert_eq!(set.entities(), vec![a]);
    set.remove_entity(b);
    assert_eq!(set.entities(), vec![a]);
    if let Some(v) = set.get_mut(a) {
        *v = 'q';
    }
    assert_eq!(set.get(a), Some(&'q'));
}

#[test]
fn insert_same_entity_replaces_value() {
    let mut set = ComponentSparseSet::new();
    let e = Entity::new_sparse_index(2);
    set.insert(e, 1u8);
    set.insert(e, 2u8);
    assert_eq!(set.entities(), vec![e]);
    assert_eq!(set.get(e), Some(&2));
}

#[test]
fn components_registry() {
    let mut info = ComponentsInfo::new();
    let a = info.register_component(77);
    assert_eq!(a, ComponentId(0));
    assert_eq!(info.get_by_type_id(77).map(|i| i.id()), Some(a));
    assert_eq!(info.get_by_type_id(78), None);
    assert_eq!(info.get(a).map(|i| i.id()), Some(a));
    assert_eq!(info.get(ComponentId(1)), None);

    let mut comps = Components::new();
    comps.register_component(a);
    let e = Entity::new_sparse_index(3);
    comps.insert_component(e, a, "hello");
    assert!(comps.has_component(a, e));
    assert!(!comps.has_component(ComponentId(5), e));
    assert_eq!(comps.entities(a), vec![e]);
    assert_eq!(comps.entities(ComponentId(5)), vec![]);
    assert_eq!(comps.get(a).map(|c| c.len()), Some(1));
    if let Some(c) = comps.get_mut(a) {
        c.remove_entity(e);
    }
    assert!(!comps.has_component(a, e));
}
