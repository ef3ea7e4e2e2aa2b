use quipi_ecs::{Allocator, CChildren, Component, Entry, Index, IndexedArray};

fn is_component<C: Component>(_: &C) -> bool {
    true
}

#[test]
fn retired_slot_is_reused_with_a_greater_generation() {
    let mut allocator = Allocator::default();
    let mut store = IndexedArray::<u32>::new();

    let a = allocator.allocate();
    let b = allocator.allocate();
    let c = allocator.allocate();
    store.set(&a, 1);
    store.set(&b, 2);
    store.set(&c, 3);

    allocator.deallocate(b);

    assert_eq!(allocator.valid_count(), 2);
    assert_eq!(store.get(&allocator, &b), None);
    assert_eq!(store.get(&allocator, &a), Some(&1));
    assert_eq!(store.get(&allocator, &c), Some(&3));

    let d = allocator.allocate();
    assert_eq!(d.index, b.index);
    assert!(d.version > b.version);
    assert_eq!(d, Index { index: 1, version: 1 });
    assert_eq!(store.get(&allocator, &d), None);
    assert_eq!(store.get(&allocator, &b), None);
}

#[test]
fn reads_under_a_retired_handle_find_nothing() {
    let mut allocator = Allocator::default();
    let mut store = IndexedArray::<u32>::new();
    let a = allocator.allocate();
    store.set(&a, 1);
    assert_eq!(store.get(&allocator, &a), Some(&1));
    assert!(store.get_mut(&allocator, &a).is_some());

    allocator.deallocate(a);

    assert_eq!(store.get(&allocator, &a), None);
    assert!(store.get_mut(&allocator, &a).is_none());
}

#[test]
fn get_tagged_goes_by_the_cell_alone() {
    let allocator = Allocator::default();
    let mut store = IndexedArray::<u32>::new();
    let never_issued = Index { index: 2, version: 5 };
    store.set(&never_issued, 1);

    assert_eq!(store.get_tagged(&never_issued), Some(&1));
    assert_eq!(store.get_tagged(&Index { index: 2, version: 4 }), None);
    assert_eq!(store.get_tagged(&Index { index: 50, version: 5 }), None);
    assert_eq!(store.get(&allocator, &never_issued), None);
}

#[test]
fn retired_handles_are_hidden_without_unset() {
    let mut allocator = Allocator::default();
    let mut numbers = IndexedArray::<u32>::new();
    let mut names = IndexedArray::<String>::new();

    let a = allocator.allocate();
    let b = allocator.allocate();
    numbers.set(&a, 1);
    numbers.set(&b, 2);
    names.set(&a, "a".to_string());
    names.set(&b, "b".to_string());

    allocator.deallocate(a);

    assert_eq!(numbers.get(&allocator, &a), None);
    assert_eq!(names.get(&allocator, &a), None);
    assert_eq!(numbers.get(&allocator, &b), Some(&2));
    assert_eq!(names.get(&allocator, &b), Some(&"b".to_string()));
    assert_eq!(numbers.get_entities(&allocator), vec![b]);
    assert_eq!(names.get_entities(&allocator), vec![b]);
    let walked: Vec<Index> = numbers.iter(&allocator).map(|(h, _)| h).collect();
    assert_eq!(walked, vec![b]);
    let walked: Vec<Index> = names.iter(&allocator).map(|(h, _)| h).collect();
    assert_eq!(walked, vec![b]);
}

#[test]
fn reuse_round_trip() {
    let mut allocator = Allocator::default();
    let mut store = IndexedArray::<&str>::new();

    let old = allocator.allocate();
    store.set(&old, "first");
    assert_eq!(store.get(&allocator, &old), Some(&"first"));

    allocator.deallocate(old);
    assert_eq!(store.get(&allocator, &old), None);
    let new = allocator.allocate();
    assert_eq!(new.index, old.index);
    assert_eq!(store.get(&allocator, &old), None);
    assert_eq!(store.get(&allocator, &new), None);

    store.set(&new, "second");
    assert_eq!(store.get(&allocator, &old), None);
    assert_eq!(store.get(&allocator, &new), Some(&"second"));
}

#[test]
fn walk_yields_exactly_the_live_handles() {
    let mut allocator = Allocator::default();
    let mut store = IndexedArray::<u32>::new();

    let handles: Vec<Index> = (0..6).map(|_| allocator.allocate()).collect();
    store.set(&handles[5], 50);
    store.set(&handles[0], 0);
    store.set(&handles[2], 20);
    allocator.deallocate(handles[2]);
    allocator.deallocate(handles[4]);

    let walked: Vec<(Index, Option<u32>)> =
        store.iter(&allocator).map(|(h, v)| (h, v.copied())).collect();
    assert_eq!(
        walked,
        vec![
            (handles[0], Some(0)),
            (handles[1], None),
            (handles[3], None),
            (handles[5], Some(50)),
        ]
    );
    for (handle, _) in &walked {
        assert!(allocator.validate(handle));
    }
    assert_eq!(walked.len(), allocator.valid_count());
}

#[test]
fn walk_hides_values_of_earlier_generations() {
    let mut allocator = Allocator::default();
    let mut store = IndexedArray::<u32>::new();
    let old = allocator.allocate();
    store.set(&old, 9);
    allocator.deallocate(old);
    let new = allocator.allocate();
    assert_eq!(new.index, old.index);

    let walked: Vec<(Index, Option<u32>)> =
        store.iter(&allocator).map(|(h, v)| (h, v.copied())).collect();
    assert_eq!(walked, vec![(new, None)]);

    let mut handed_out = 0;
    for (handle, value) in store.iter_mut(&allocator) {
        assert_eq!(handle, new);
        if value.is_some() {
            handed_out += 1;
        }
    }
    assert_eq!(handed_out, 0);
    assert_eq!(store.get(&allocator, &old), None);
    assert_eq!(store.get(&allocator, &new), None);
}

#[test]
fn walk_yields_live_handles_the_store_has_no_cell_for() {
    let mut allocator = Allocator::default();
    let mut store = IndexedArray::<u32>::new();
    let handles: Vec<Index> = (0..6).map(|_| allocator.allocate()).collect();

    // Nothing was ever stored: every live handle is yielded, without a value.
    let walked: Vec<(Index, Option<u32>)> =
        store.iter(&allocator).map(|(h, v)| (h, v.copied())).collect();
    let bare: Vec<(Index, Option<u32>)> = handles.iter().map(|h| (*h, None)).collect();
    assert_eq!(walked, bare);
    let mut seen = 0;
    for (handle, value) in store.iter_mut(&allocator) {
        assert_eq!(handle, handles[seen]);
        assert!(value.is_none());
        seen += 1;
    }
    assert_eq!(seen, 6);

    // A write at slot 0 grows the store to four cells; the walk still
    // reaches the two live slots beyond them.
    store.set(&handles[0], 7);
    allocator.deallocate(handles[4]);
    let walked: Vec<(Index, Option<u32>)> =
        store.iter(&allocator).map(|(h, v)| (h, v.copied())).collect();
    assert_eq!(
        walked,
        vec![
            (handles[0], Some(7)),
            (handles[1], None),
            (handles[2], None),
            (handles[3], None),
            (handles[5], None),
        ]
    );
    assert_eq!(walked.len(), allocator.valid_count());
    let walked: Vec<Index> = store.iter_mut(&allocator).map(|(h, _)| h).collect();
    assert_eq!(walked.len(), allocator.valid_count());
}

#[test]
fn walk_yields_nothing_from_padding_beyond_the_table() {
    let mut allocator = Allocator::default();
    let mut store = IndexedArray::<u32>::new();
    let a = allocator.allocate();
    store.set(&a, 1);
    store.set(&Index { index: 9, version: 0 }, 2);

    let walked: Vec<(Index, Option<u32>)> =
        store.iter(&allocator).map(|(h, v)| (h, v.copied())).collect();
    assert_eq!(walked, vec![(a, Some(1))]);
    let walked: Vec<Index> = store.iter_mut(&allocator).map(|(h, _)| h).collect();
    assert_eq!(walked, vec![a]);
    assert_eq!(store.get_tagged(&Index { index: 9, version: 0 }), Some(&2));
}

#[test]
fn walk_is_restartable() {
    let mut allocator = Allocator::default();
    let mut store = IndexedArray::<u32>::new();
    let a = allocator.allocate();
    let b = allocator.allocate();
    store.set(&a, 1);
    store.set(&b, 2);

    let first: Vec<(Index, Option<&u32>)> = store.iter(&allocator).collect();
    let second: Vec<(Index, Option<&u32>)> = store.iter(&allocator).collect();
    assert_eq!(first, second);
    assert_eq!(first, vec![(a, Some(&1)), (b, Some(&2))]);

    let mut walk = store.iter(&allocator);
    assert!(walk.next().is_some());
    assert!(walk.next().is_some());
    assert_eq!(walk.next(), None);
    assert_eq!(walk.next(), None);
}

#[test]
fn iter_mut_changes_values_in_place() {
    let mut allocator = Allocator::default();
    let mut store = IndexedArray::<u32>::new();
    let a = allocator.allocate();
    let b = allocator.allocate();
    let c = allocator.allocate();
    store.set(&a, 1);
    store.set(&b, 2);
    store.set(&c, 3);
    allocator.deallocate(b);

    let mut seen: Vec<Index> = Vec::new();
    for (handle, value) in store.iter_mut(&allocator) {
        seen.push(handle);
        if let Some(value) = value {
            *value *= 10;
        }
    }
    assert_eq!(seen, vec![a, c]);
    assert_eq!(store.get(&allocator, &a), Some(&10));
    assert_eq!(store.get(&allocator, &b), None);
    assert_eq!(store.get_tagged(&b), Some(&2));
    assert_eq!(store.get(&allocator, &c), Some(&30));

    let mut walk = store.iter_mut(&allocator);
    assert!(walk.next().is_some());
    assert!(walk.next().is_some());
    assert!(walk.next().is_none());
    assert!(walk.next().is_none());
}

#[test]
fn get_mut_changes_the_value_under_a_live_matching_handle_only() {
    let mut allocator = Allocator::default();
    let mut store = IndexedArray::<u32>::new();
    let a = allocator.allocate();
    let b = allocator.allocate();
    allocator.deallocate(a);
    let h = allocator.allocate();
    assert_eq!(h, Index { index: 0, version: 1 });
    store.set(&h, 5);
    store.set(&b, 8);

    assert!(store.get_mut(&allocator, &a).is_none());
    assert!(store.get_mut(&allocator, &Index { index: 0, version: 2 }).is_none());
    assert!(store.get_mut(&allocator, &Index { index: 99, version: 1 }).is_none());

    match store.get_mut(&allocator, &h) {
        Some(value) => *value = 6,
        None => panic!("the value stored under the handle was not found"),
    }
    assert_eq!(store.get(&allocator, &h), Some(&6));
    assert_eq!(store.get(&allocator, &b), Some(&8));
}

#[test]
fn set_overwrites_whatever_generation_the_cell_held() {
    let mut store = IndexedArray::<u32>::new();
    let old = Index { index: 3, version: 1 };
    let new = Index { index: 3, version: 2 };
    store.set(&old, 10);
    store.set(&new, 20);
    assert_eq!(store.get_tagged(&old), None);
    assert_eq!(store.get_tagged(&new), Some(&20));
    store.set(&old, 30);
    assert_eq!(store.get_tagged(&old), Some(&30));
    assert_eq!(store.get_tagged(&new), None);
}

#[test]
fn unset_clears_the_cell_whatever_its_generation() {
    let mut allocator = Allocator::default();
    let mut store = IndexedArray::<u32>::new();
    let first = allocator.allocate();
    allocator.deallocate(first);
    let h = allocator.allocate();
    let neighbour = allocator.allocate();
    store.set(&h, 1);
    store.set(&neighbour, 2);

    store.unset(&first);
    assert_eq!(store.get(&allocator, &h), None);
    assert_eq!(store.get_tagged(&h), None);
    assert_eq!(store.get(&allocator, &neighbour), Some(&2));

    // Beyond the end of the store there is nothing to clear.
    store.unset(&Index { index: 1000, version: 7 });
    assert_eq!(store.get(&allocator, &neighbour), Some(&2));
}

#[test]
fn reads_of_an_empty_store_find_nothing() {
    let allocator = Allocator::default();
    let mut store = IndexedArray::<u32>::new();
    let h = Index { index: 0, version: 0 };
    assert_eq!(store.get(&allocator, &h), None);
    assert_eq!(store.get_tagged(&h), None);
    assert!(store.get_mut(&allocator, &h).is_none());
    assert_eq!(store.get_entities(&allocator), Vec::<Index>::new());
    assert_eq!(store.iter(&allocator).next(), None);
    assert!(store.iter_mut(&allocator).next().is_none());
}

#[test]
fn entities_are_the_live_handles_with_a_value() {
    let mut allocator = Allocator::default();
    let mut store = IndexedArray::<u32>::new();
    let a = allocator.allocate();
    let b = allocator.allocate();
    let c = allocator.allocate();
    let d = allocator.allocate();
    store.set(&a, 1);
    store.set(&c, 3);
    store.set(&d, 4);
    allocator.deallocate(c);
    let c2 = allocator.allocate();
    store.unset(&d);

    assert_eq!(c2.index, c.index);
    assert_eq!(store.get_entities(&allocator), vec![a]);
    store.set(&c2, 30);
    store.set(&b, 2);
    assert_eq!(store.get_entities(&allocator), vec![a, b, c2]);
}

#[test]
fn stores_of_different_kinds_are_independent() {
    let mut allocator = Allocator::default();
    let mut numbers = IndexedArray::<u32>::new();
    let mut children = IndexedArray::<CChildren>::new();
    let mut markers = IndexedArray::<()>::new();

    let parent = allocator.allocate();
    let child = allocator.allocate();
    numbers.set(&parent, 1);
    children.set(&parent, CChildren { list: vec![child] });
    markers.set(&child, ());

    assert_eq!(numbers.get(&allocator, &child), None);
    assert_eq!(
        children.get(&allocator, &parent),
        Some(&CChildren { list: vec![child] })
    );
    assert_eq!(children.get(&allocator, &child), None);
    assert_eq!(markers.get(&allocator, &child), Some(&()));
    assert_eq!(markers.get(&allocator, &parent), None);
    assert!(is_component(&()));
    assert!(is_component(&CChildren { list: Vec::new() }));
}

#[test]
fn default_entry_carries_generation_zero() {
    let entry = Entry::<u32>::default();
    assert_eq!(entry.value, 0);
    assert_eq!(entry.version, 0);
}
