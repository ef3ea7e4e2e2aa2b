use quipi_ecs::{Allocator, Index, IndexedArray};

#[derive(Debug, PartialEq, Eq)]
struct Entity(String);

type EntityMap<T> = IndexedArray<T>;

#[derive(Debug, PartialEq)]
struct Container(pub u32);

#[test]
fn indexed_array_getting_setting_removing() {
    let mut allocator = Allocator::default();
    let mut entities = EntityMap::<Entity>::new();

    let player_id = allocator.allocate();
    let npc_id = allocator.allocate();
    let enemy_id = allocator.allocate();

    entities.set(&player_id, Entity("player".to_string()));
    entities.set(&npc_id, Entity("npc".to_string()));
    entities.set(&enemy_id, Entity("enemy".to_string()));

    assert_eq!(allocator.len(), 3);

    let mut bullets = Vec::<Index>::new();
    for _ in 0..3 {
        let bullet = allocator.allocate();

        entities.set(&bullet, Entity("bullet".to_string()));

        bullets.push(bullet);
    }

    assert_eq!(allocator.len(), 6);
    assert_eq!(
        entities.get(&allocator, &player_id),
        Some(&Entity("player".to_string()))
    );
    assert_eq!(entities.get(&allocator, &enemy_id), Some(&Entity("enemy".to_string())));
    assert_eq!(entities.get(&allocator, &npc_id), Some(&Entity("npc".to_string())));

    // npc_id is no longer valid after this call because the remove function destroys it
    allocator.deallocate(npc_id);

    assert_eq!(allocator.valid_count(), 5);

    for bullet in bullets {
        allocator.deallocate(bullet);
    }

    assert_eq!(allocator.valid_count(), 2);
    assert_eq!(
        entities.get(&allocator, &player_id),
        Some(&Entity("player".to_string()))
    );
    assert_eq!(entities.get(&allocator, &enemy_id), Some(&Entity("enemy".to_string())));
}

#[test]
fn indexed_array_versioning() {
    let mut allocator = Allocator::default();
    let mut entities = EntityMap::<Entity>::new();

    let player_id = allocator.allocate();
    let npc_id = allocator.allocate();
    let enemy_id = allocator.allocate();

    entities.set(&player_id, Entity("player".to_string()));
    entities.set(&npc_id, Entity("npc".to_string()));
    entities.set(&enemy_id, Entity("enemy".to_string()));

    assert_eq!(
        entities.get(&allocator, &Index {
            index: 1,
            version: 0
        }),
        Some(&Entity("npc".to_string()))
    );

    allocator.deallocate(npc_id);

    // used to hold npc
    assert!(!allocator.is_allocated(&Index {
        index: 1,
        version: 0
    }));

    let npc_id = allocator.allocate();
    entities.set(&npc_id, Entity("npc".to_string()));

    assert_eq!(
        entities.get(&allocator, &Index {
            index: 1,
            version: 1
        }),
        Some(&Entity("npc".to_string()))
    );

    assert_eq!(
        entities.get(&allocator, &Index {
            index: 1,
            version: 0
        }),
        None
    );

    // version 1 is allocated while version 0 is not
    assert!(!allocator.is_allocated(&Index {
        index: 1,
        version: 0
    }));
    assert!(allocator.is_allocated(&Index {
        index: 1,
        version: 1
    }));
}

#[test]
fn iterate_over_array() {
    let mut allocator = Allocator::with_capacity(4);
    let mut array = IndexedArray::<Container>::new();

    let i1 = allocator.allocate();
    let i2 = allocator.allocate();

    array.set(&i1, Container(123));
    array.set(&i2, Container(456));

    let mut iterator = array.iter(&allocator);

    assert_eq!(iterator.next(), Some((i1, Some(&Container(123)))));
    assert_eq!(iterator.next(), Some((i2, Some(&Container(456)))));

    allocator.deallocate(i1);

    let mut iterator = array.iter(&allocator);

    assert_eq!(iterator.next(), Some((i2, Some(&Container(456)))));
    assert_eq!(iterator.next(), None);

    for (_, cont) in array.iter_mut(&allocator) {
        if let Some(val) = cont {
            val.0 = 457
        }
    }

    let mut iterator = array.iter(&allocator);

    assert_eq!(iterator.next(), Some((i2, Some(&Container(457)))));
    assert_eq!(iterator.next(), None);
}
