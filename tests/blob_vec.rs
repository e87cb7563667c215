use dahhan::storage::blob_vec::BlobVec;

#[derive(Debug, PartialEq, Eq)]
struct SomeComponent {
    something: u32,
}

#[test]
fn test_blob_vec() {
    let mut vec = BlobVec::new();

    vec.push(SomeComponent { something: 10 });

    let component = vec.get(0);

    assert_eq!(component, Some(&SomeComponent { something: 10 }));

    vec.push(SomeComponent { something: 5 });

    let component = vec.get(1);

    assert_eq!(component, Some(&SomeComponent { something: 5 }));
}

#[test]
fn test_swap_remove() {
    let mut vec = BlobVec::new();

    vec.push(SomeComponent { something: 1 });
    vec.push(SomeComponent { something: 2 });
    vec.push(SomeComponent { something: 3 });

    vec.swap_remove(0);

    let mut expected = BlobVec::new();
    expected.push(SomeComponent { something: 3 });
    expected.push(SomeComponent { something: 2 });

    assert_eq!(vec, expected);
}

#[test]
fn test_swap_remove_single_element() {
    let mut vec = BlobVec::new();

    vec.push(SomeComponent { something: 1 });

    vec.swap_remove(0);

    let expected = BlobVec::<SomeComponent>::new();

    assert_eq!(vec, expected);
}

#[test]
fn push_then_read_back_in_order() {
    let mut vec = BlobVec::new();
    for i in 0..20u32 {
        vec.push(i * 3);
    }
    for i in 0..20usize {
        assert_eq!(vec.get(i), Some(&(i as u32 * 3)));
    }
    assert_eq!(vec.get(20), None);
    assert_eq!(vec.len(), 20);
    assert!(vec.capacity() >= 20);
    assert!(!vec.is_empty());
}

#[test]
fn swap_remove_returns_removed_and_last_moves() {
    let mut vec = BlobVec::new();
    vec.push('a');
    vec.push('b');
    vec.push('c');
    assert_eq!(vec.swap_remove(0), 'a');
    assert_eq!(vec.as_slice(), &['c', 'b']);
    assert_eq!(vec.swap_remove(1), 'b');
    assert_eq!(vec.as_slice(), &['c']);
    if let Some(v) = vec.get_mut(0) {
        *v = 'z';
    }
    assert_eq!(vec.as_slice(), &['z']);
    assert_eq!(vec.get_mut(1), None);
}
