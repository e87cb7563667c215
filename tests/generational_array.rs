use dahhan::generational_array::{
    GenerationalIndex, GenerationalIndexAllocator, GenerationalIndexArray,
};

#[test]
fn allocate_then_deallocate_then_reuse() {
    let mut alloc = GenerationalIndexAllocator::new();
    let a = alloc.allocate();
    let b = alloc.allocate();
    assert_eq!(a.index(), 0);
    assert_eq!(b.index(), 1);
    assert!(alloc.is_live(a));
    assert!(alloc.is_live(b));

    assert!(alloc.deallocate(a));
    assert!(!alloc.is_live(a));
    assert!(!alloc.deallocate(a));

    let c = alloc.allocate();
    assert_eq!(c.index(), 0);
    assert_eq!(c.generation, 1);
    assert!(alloc.is_live(c));
    assert!(!alloc.is_live(a));
    assert!(!alloc.deallocate(a));
    assert!(alloc.is_live(c));
}

#[test]
fn stale_handle_never_revives() {
    let mut alloc = GenerationalIndexAllocator::new();
    let first = alloc.allocate();
    assert!(alloc.deallocate(first));
    for _ in 0..5 {
        let h = alloc.allocate();
        assert_eq!(h.index(), first.index());
        assert!(alloc.deallocate(h));
        assert!(!alloc.is_live(first));
    }
    assert!(!alloc.deallocate(first));
    let out_of_range = GenerationalIndex { index: 40, generation: 0 };
    assert!(!alloc.is_live(out_of_range));
    assert!(!alloc.deallocate(out_of_range));
}

#[test]
fn array_insert_get_remove() {
    let mut arr = GenerationalIndexArray::new();
    let h0 = GenerationalIndex { index: 3, generation: 0 };
    let h1 = GenerationalIndex { index: 3, generation: 1 };
    assert_eq!(arr.insert(h0, "zero"), None);
    assert_eq!(arr.get(h0), Some(&"zero"));
    assert_eq!(arr.get(h1), None);
    assert!(arr.contains_key(h0));
    assert_eq!(arr.insert(h1, "one"), Some((h0, "zero")));
    assert_eq!(arr.get(h0), None);
    assert_eq!(arr.remove(h0), None);
    assert_eq!(arr.get(h1), Some(&"one"));
    if let Some(v) = arr.get_mut(h1) {
        *v = "uno";
    }
    assert_eq!(*arr.get_unchecked_mut(h0), "uno");
    assert_eq!(arr.remove(h1), Some("uno"));
    assert!(!arr.contains_key(h1));
    arr.insert(GenerationalIndex::from_raw(0), "a");
    arr.clear();
    assert_eq!(arr.get(GenerationalIndex::from_raw(0)), None);
}

#[test]
fn array_retain_and_filter_map() {
    let mut arr = GenerationalIndexArray::new();
    for i in 0..6usize {
        arr.insert(GenerationalIndex { index: i, generation: 2 }, i as u32);
    }
    arr.retain(|h, v| {
        *v += 10;
        h.index % 2 == 0
    });
    assert_eq!(arr.get(GenerationalIndex { index: 0, generation: 2 }), Some(&10));
    assert_eq!(arr.get(GenerationalIndex { index: 1, generation: 2 }), None);
    assert_eq!(arr.get(GenerationalIndex { index: 4, generation: 2 }), Some(&14));

    arr.filter_map(|h, v| if h.index == 2 { None } else { Some(v * 2) });
    assert_eq!(arr.get(GenerationalIndex { index: 0, generation: 2 }), Some(&20));
    assert_eq!(arr.get(GenerationalIndex { index: 2, generation: 2 }), None);
    assert_eq!(arr.get(GenerationalIndex { index: 4, generation: 2 }), Some(&28));
}
