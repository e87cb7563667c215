use dahhan::storage::sparse_set::SparseIndex;
use dahhan::archetype::{ArchetypeId, ArchetypeRow, Archetypes};
use dahhan::component::ComponentId;
use dahhan::entity::Entity;
use dahhan::storage::table::{Table, TableId, TableRow, Tables};

#[test]
fn archetypes_start_with_empty_archetype() {
    let mut archetypes: Archetypes<u32> = Archetypes::new();
    assert_eq!(archetypes.archetypes().len(), 1);
    assert_eq!(archetypes.get(ArchetypeId::new(0)).map(|a| a.id()), Some(ArchetypeId(0)));
    assert!(archetypes.get(ArchetypeId::new(3)).is_none());
    assert!(archetypes.get_archetype_sets(ComponentId(0)).is_none());
    assert!(archetypes.get_archetype_sets_mut(ComponentId(0)).is_none());

    let archetype = archetypes.get_mut(ArchetypeId(0)).unwrap();
    assert!(!archetype.contains(ComponentId(1)));
    let meta = archetype.allocate(Entity::new_sparse_index(5), TableRow::from_u32(0));
    assert_eq!(meta.archetype_row.index(), 0);
    let meta = archetype.allocate(Entity::new_sparse_index(6), TableRow::from_u32(1));
    assert_eq!(meta.archetype_row, ArchetypeRow::new(1));
    let removed = archetype.swap_remove(ArchetypeRow::new(0));
    assert_eq!(removed.table_row, TableRow::from_usize(0));
    assert_eq!(removed.swapped_entity, Some(Entity::new_sparse_index(6)));
    let removed = archetype.swap_remove(ArchetypeRow::new(0));
    assert_eq!(removed.swapped_entity, None);
    assert_eq!(removed.table_row.as_u32(), 1);
    assert!(archetype.edges().get(ComponentId(0)).is_none());
}

#[test]
fn ids_and_rows_convert() {
    assert_eq!(TableRow::from_usize(9).as_usize(), 9);
    assert_eq!(TableId::from_u32(4).as_usize(), 4);
    assert_eq!(TableId::from_usize(8).as_u32(), 8);
    assert_eq!(TableId::empty().as_u32(), 0);
    assert_eq!(ArchetypeId::new(12).index(), 12);
    let table: Table<u8> = Table::new();
    assert!(table.get_column(ComponentId(0)).is_none());
    let _tables: Tables<u8> = Tables::new();
}
