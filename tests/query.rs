use dahhan::world::{World, WorldError};

#[derive(Debug, PartialEq)]
enum TestComponent {
    SomeComponent(u32),
    SomeOtherComponent(u32),
}

const SOME_COMPONENT: u64 = 1;
const SOME_OTHER_COMPONENT: u64 = 2;

#[test]
fn test_single_read_query() {
    let mut world = World::new();

    let some = world.register_component(SOME_COMPONENT);

    let entity = world.add_entity(vec![]).unwrap();

    world.add_component(entity, some, TestComponent::SomeComponent(10));

    let query = world.query(vec![some]);

    assert_eq!(
        Some(&(entity, vec![&TestComponent::SomeComponent(10)])),
        query.iter(&world).first()
    );
}

#[test]
fn test_single_write_query() {
    let mut world = World::new();

    let some = world.register_component(SOME_COMPONENT);

    let entity = world.add_entity(vec![]).unwrap();

    world.add_component(entity, some, TestComponent::SomeComponent(10));

    let query = world.query(vec![some]);

    assert_eq!(query.entities(), &vec![entity]);
    assert_eq!(
        Some(&mut TestComponent::SomeComponent(10)),
        world.get_component_mut(some, query.entities()[0])
    );
}

#[test]
fn test_two_read_query() {
    let mut world = World::new();

    let some = world.register_component(SOME_COMPONENT);
    let other = world.register_component(SOME_OTHER_COMPONENT);

    let entity = world.add_entity(vec![]).unwrap();

    world.add_component(entity, some, TestComponent::SomeComponent(10));

    world.add_component(entity, other, TestComponent::SomeOtherComponent(10));

    let query = world.query(vec![some, other]);

    assert_eq!(
        Some(&(
            entity,
            vec![
                &TestComponent::SomeComponent(10),
                &TestComponent::SomeOtherComponent(10)
            ]
        )),
        query.iter(&world).first()
    );
}

#[test]
fn test_single_read_single_write_query() {
    let mut world = World::new();

    let some = world.register_component(SOME_COMPONENT);
    let other = world.register_component(SOME_OTHER_COMPONENT);

    let entity = world.add_entity(vec![]).unwrap();

    world.add_component(entity, some, TestComponent::SomeComponent(10));

    world.add_component(entity, other, TestComponent::SomeOtherComponent(10));

    let query = world.query(vec![some, other]);
    let e = query.entities()[0];

    assert_eq!(e, entity);
    assert_eq!(
        Some(&TestComponent::SomeComponent(10)),
        world.get_component(some, e)
    );
    assert_eq!(
        Some(&mut TestComponent::SomeOtherComponent(10)),
        world.get_component_mut(other, e)
    );
}

#[test]
fn query_skips_entity_missing_a_component() {
    let mut world = World::new();
    let a = world.register_component(SOME_COMPONENT);
    let b = world.register_component(SOME_OTHER_COMPONENT);

    let f = world
        .add_entity(vec![(a, TestComponent::SomeComponent(1))])
        .unwrap();
    let e = world
        .add_entity(vec![
            (a, TestComponent::SomeComponent(2)),
            (b, TestComponent::SomeOtherComponent(3)),
        ])
        .unwrap();

    let query = world.query(vec![a, b]);
    assert_eq!(query.entities(), &vec![e]);
    let items = query.iter(&world);
    assert_eq!(
        items,
        vec![(
            e,
            vec![
                &TestComponent::SomeComponent(2),
                &TestComponent::SomeOtherComponent(3)
            ]
        )]
    );
    assert!(!query.entities().contains(&f));
}

#[test]
fn query_order_follows_first_requirement() {
    let mut world = World::new();
    let a = world.register_component(SOME_COMPONENT);
    let b = world.register_component(SOME_OTHER_COMPONENT);

    let e1 = world.add_entity(vec![]).unwrap();
    let e2 = world.add_entity(vec![]).unwrap();
    let e3 = world.add_entity(vec![]).unwrap();
    world.add_component(e3, a, TestComponent::SomeComponent(3));
    world.add_component(e1, a, TestComponent::SomeComponent(1));
    world.add_component(e2, a, TestComponent::SomeComponent(2));
    world.add_component(e2, b, TestComponent::SomeOtherComponent(2));
    world.add_component(e1, b, TestComponent::SomeOtherComponent(1));
    world.add_component(e3, b, TestComponent::SomeOtherComponent(3));

    assert_eq!(world.query(vec![a, b]).entities(), &vec![e3, e1, e2]);
    assert_eq!(world.query(vec![b, a]).entities(), &vec![e2, e1, e3]);
}

#[test]
fn query_twice_gives_same_order() {
    let mut world = World::new();
    let a = world.register_component(SOME_COMPONENT);
    for i in 0..10 {
        world
            .add_entity(vec![(a, TestComponent::SomeComponent(i))])
            .unwrap();
    }
    let first = world.query(vec![a]);
    let second = world.query(vec![a]);
    assert_eq!(first.entities(), second.entities());
    assert_eq!(first.entities().len(), 10);
}

#[test]
fn query_snapshot_survives_mutation() {
    let mut world = World::new();
    let a = world.register_component(SOME_COMPONENT);
    let e1 = world
        .add_entity(vec![(a, TestComponent::SomeComponent(1))])
        .unwrap();
    let e2 = world
        .add_entity(vec![(a, TestComponent::SomeComponent(2))])
        .unwrap();
    let query = world.query(vec![a]);
    world.remove_component(e1, a);
    assert_eq!(query.entities(), &vec![e1, e2]);
    assert_eq!(
        query.iter(&world),
        vec![(e2, vec![&TestComponent::SomeComponent(2)])]
    );
}

#[test]
fn add_entity_with_unregistered_component_fails() {
    let mut world: World<TestComponent> = World::new();
    let a = world.register_component(SOME_COMPONENT);
    let mut other = World::<TestComponent>::new();
    other.register_component(SOME_COMPONENT);
    let b = other.register_component(SOME_OTHER_COMPONENT);

    let r = world.add_entity(vec![
        (a, TestComponent::SomeComponent(1)),
        (b, TestComponent::SomeOtherComponent(1)),
    ]);
    assert_eq!(r, Err(WorldError::UnregisteredComponent(b)));
    assert!(world.entities().is_empty());
}

#[test]
fn add_entity_bundle_later_value_wins() {
    let mut world = World::new();
    let a = world.register_component(SOME_COMPONENT);
    let e = world
        .add_entity(vec![
            (a, TestComponent::SomeComponent(1)),
            (a, TestComponent::SomeComponent(7)),
        ])
        .unwrap();
    assert_eq!(
        world.get_component(a, e),
        Some(&TestComponent::SomeComponent(7))
    );
    assert_eq!(world.iter_component(a).len(), 1);
    assert!(world.is_alive(e));
    assert_eq!(world.entities(), &vec![e]);
}

#[test]
fn register_component_issues_ids_in_order() {
    let mut world: World<TestComponent> = World::new();
    let a = world.register_component(SOME_COMPONENT);
    let b = world.register_component(SOME_OTHER_COMPONENT);
    assert_eq!(a.0, 0);
    assert_eq!(b.0, 1);
    assert_eq!(world.component_id(SOME_OTHER_COMPONENT), Some(b));
    assert_eq!(world.component_id(99), None);
    let again = world.register_component(SOME_COMPONENT);
    assert_eq!(again.0, 2);
    assert_eq!(world.component_id(SOME_COMPONENT), Some(again));
    assert!(world.is_registered(a));
}

#[test]
fn fetch_requires_every_component() {
    let mut world = World::new();
    let a = world.register_component(SOME_COMPONENT);
    let b = world.register_component(SOME_OTHER_COMPONENT);
    let e = world
        .add_entity(vec![(a, TestComponent::SomeComponent(4))])
        .unwrap();
    assert_eq!(world.fetch(&vec![a, b], e), None);
    assert_eq!(
        world.fetch(&vec![a], e),
        Some(vec![&TestComponent::SomeComponent(4)])
    );
    if let Some(v) = world.get_component_mut(a, e) {
        *v = TestComponent::SomeComponent(5);
    }
    assert_eq!(world.iter_component(a), &[TestComponent::SomeComponent(5)]);
}
