use dahhan::component::ComponentId;
use dahhan::entity::Entity;
use dahhan::generational_array::GenerationalIndex;
use dahhan::storage::sparse_set::{SparseArray, SparseIndex, SparseSet};

#[test]
fn sparse_array_grows_with_absent_slots() {
    let mut arr: SparseArray<usize, &str> = SparseArray::new();
    arr.insert(3, "three");
    assert_eq!(arr.values(), &vec![None, None, None, Some("three")]);
    assert_eq!(arr.get(3), Some(&"three"));
    assert_eq!(arr.get(7), None);
    if let Some(v) = arr.get_mut(3) {
        *v = "drei";
    }
    assert_eq!(arr.remove(3), Some("drei"));
    assert_eq!(arr.remove(3), None);
    assert_eq!(arr.values().len(), 4);
}

#[test]
fn sparse_set_insert_replaces() {
    let mut set: SparseSet<ComponentId, u32> = SparseSet::new();
    set.insert(ComponentId(4), 40);
    set.insert(ComponentId(1), 10);
    set.insert(ComponentId(4), 44);
    assert_eq!(set.get(ComponentId(4)), Some(&44));
    assert_eq!(set.get(ComponentId(1)), Some(&10));
    assert_eq!(set.get(ComponentId(2)), None);
    if let Some(v) = set.get_mut(ComponentId(1)) {
        *v = 11;
    }
    assert_eq!(set.get(ComponentId(1)), Some(&11));
}

#[test]
fn sparse_indices_round_trip() {
    assert_eq!(u8::new_sparse_index(200).sparse_index(), 200);
    assert_eq!(u16::new_sparse_index(60000).sparse_index(), 60000);
    assert_eq!(u32::new_sparse_index(7).sparse_index(), 7);
    assert_eq!(u64::new_sparse_index(9).sparse_index(), 9);
    assert_eq!(usize::new_sparse_index(11).sparse_index(), 11);
    assert_eq!(ComponentId::new_sparse_index(5), ComponentId(5));
    let e = Entity::new_sparse_index(12);
    assert_eq!(e.index(), 12);
    assert_eq!(e, Entity::from(GenerationalIndex::from_raw(12)));
}
