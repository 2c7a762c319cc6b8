use breakout::index_vec::GIndex;
use breakout::index_vec::Index;
use breakout::index_vec::IndexVec;
use breakout::index_vec::OccupiedEntry;

#[test]
fn a_new_arena_is_empty() {
    let arena: IndexVec<u32> = IndexVec::new();
    assert_eq!(arena.len(), 0);
    assert_eq!(arena.get(0usize), None);
    assert_eq!(arena.get(GIndex::new(0, 0)), None);
    assert!(arena.iter().next().is_none());
    let by_default: IndexVec<u32> = IndexVec::default();
    assert_eq!(by_default.len(), 0);
}

#[test]
fn insertion_appends_slots_of_generation_zero() {
    let mut arena = IndexVec::new();
    assert_eq!(arena.insert(10), GIndex::new(0, 0));
    assert_eq!(arena.insert(20), GIndex::new(1, 0));
    assert_eq!(arena.insert(30), GIndex::new(2, 0));
    assert_eq!(arena.len(), 3);
    assert_eq!(arena.get(GIndex::new(1, 0)), Some(&20));
    assert_eq!(arena.get(2usize), Some(&30));
}

#[test]
fn lookup_checks_the_generation() {
    let mut arena = IndexVec::new();
    let h = arena.insert(10);
    assert_eq!(arena.get(h), Some(&10));
    assert_eq!(arena.get(&h), Some(&10));
    assert_eq!(arena.get(GIndex::new(0, 1)), None);
    assert_eq!(arena.get(GIndex::new(1, 0)), None);
    assert_eq!(arena.get(GIndex::new(usize::MAX, 0)), None);
    assert_eq!(arena.get_mut(GIndex::new(0, 1)), None);
    assert_eq!(arena.get_mut(7usize), None);
}

#[test]
fn a_handle_is_stale_after_removal_and_stays_so_after_reuse() {
    let mut arena = IndexVec::new();
    let first = arena.insert(10);
    assert_eq!(arena.remove(first), Some(10));
    assert_eq!(arena.get(first), None);
    assert_eq!(arena.get_mut(first), None);

    let second = arena.insert(20);
    assert_eq!(second.index, first.index);
    assert_eq!(arena.get(first), None);
    assert_eq!(arena.get_mut(first), None);
    assert_eq!(arena.remove(first), None);
    assert_eq!(arena.get(second), Some(&20));
    assert_eq!(arena.get(first.index), Some(&20));
}

#[test]
fn each_reuse_of_a_slot_raises_its_generation() {
    let mut arena = IndexVec::new();
    let mut handle = arena.insert(0u32);
    assert_eq!(handle, GIndex::new(0, 0));
    for round in 1..6usize {
        assert_eq!(arena.remove(handle), Some(round as u32 - 1));
        let next = arena.insert(round as u32);
        assert_eq!(next.index, 0);
        assert_eq!(next.generation, round);
        assert!(next.generation > handle.generation);
        handle = next;
    }
    assert_eq!(arena.len(), 1);
}

#[test]
fn freed_slots_are_reused_oldest_first() {
    let mut arena = IndexVec::new();
    let a = arena.insert('a');
    let b = arena.insert('b');
    let c = arena.insert('c');
    assert_eq!(arena.remove(b), Some('b'));
    assert_eq!(arena.remove(a), Some('a'));
    assert_eq!(arena.insert('d'), GIndex::new(1, 1));
    assert_eq!(arena.insert('e'), GIndex::new(0, 1));
    assert_eq!(arena.insert('f'), GIndex::new(3, 0));
    assert_eq!(arena.get(c), Some(&'c'));
    assert_eq!(arena.len(), 4);
}

#[test]
fn removal_fails_without_effect_on_a_bad_index() {
    let mut arena = IndexVec::new();
    let h = arena.insert(10);
    assert_eq!(arena.remove(GIndex::new(0, 5)), None);
    assert_eq!(arena.remove(GIndex::new(3, 0)), None);
    assert_eq!(arena.remove(9usize), None);
    assert_eq!(arena.get(h), Some(&10));
    assert_eq!(arena.remove(h), Some(10));
    // The slot is vacant now.
    assert_eq!(arena.remove(h), None);
    assert_eq!(arena.remove(0usize), None);
    // And was queued for reuse only once.
    assert_eq!(arena.insert(11), GIndex::new(0, 1));
    assert_eq!(arena.insert(12), GIndex::new(1, 0));
}

#[test]
fn a_bare_slot_number_is_always_valid() {
    let mut arena = IndexVec::new();
    let h = arena.insert(10);
    arena.remove(h);
    arena.insert(20);
    assert_eq!(arena.get(0usize), Some(&20));
    assert_eq!(arena.remove(0usize), Some(20));
    assert_eq!(arena.get(0usize), None);
    let entry = OccupiedEntry { generation: 3, value: 1u8 };
    assert!(Index::<u8>::valid(&0usize, &entry));
    assert!(Index::<u8>::valid(&GIndex::new(7, 3), &entry));
    assert!(!Index::<u8>::valid(&GIndex::new(7, 2), &entry));
    assert_eq!(Index::<u8>::index(&GIndex::new(7, 2)), 7);
    assert_eq!(Index::<u8>::index(&&GIndex::new(7, 2)), 7);
    assert_eq!(Index::<u8>::index(&5usize), 5);
}

#[test]
fn len_counts_vacant_slots_too() {
    let mut arena = IndexVec::new();
    let a = arena.insert(1);
    arena.insert(2);
    arena.remove(a);
    assert_eq!(arena.len(), 2);
    arena.clear();
    assert_eq!(arena.len(), 2);
}

#[test]
fn values_can_be_changed_in_place() {
    let mut arena = IndexVec::new();
    let a = arena.insert(1);
    let b = arena.insert(2);
    *arena.get_mut(a).unwrap() += 10;
    assert_eq!(arena.get(a), Some(&11));
    assert_eq!(arena.get(b), Some(&2));
    *arena.get_mut(1usize).unwrap() = 7;
    assert_eq!(arena.get(b), Some(&7));
}

#[test]
fn two_values_can_be_changed_together() {
    let mut arena = IndexVec::new();
    let a = arena.insert(1);
    let b = arena.insert(2);
    let c = arena.insert(3);
    {
        let (x, y) = arena.get_two_mut(a, c);
        let (x, y) = (x.unwrap(), y.unwrap());
        assert_eq!((*x, *y), (1, 3));
        *x += 10;
        *y += 20;
    }
    {
        let (x, y) = arena.get_two_mut(c, a);
        let (x, y) = (x.unwrap(), y.unwrap());
        assert_eq!((*x, *y), (23, 11));
        std::mem::swap(x, y);
    }
    assert_eq!(arena.get(a), Some(&23));
    assert_eq!(arena.get(b), Some(&2));
    assert_eq!(arena.get(c), Some(&11));
}

#[test]
fn the_second_of_two_lookups_of_one_slot_finds_nothing() {
    let mut arena = IndexVec::new();
    let a = arena.insert(1);
    let (x, y) = arena.get_two_mut(a, a);
    assert_eq!(x, Some(&mut 1));
    assert_eq!(y, None);
    // Also when the first lookup fails.
    let (x, y) = arena.get_two_mut(GIndex::new(0, 9), a);
    assert_eq!(x, None);
    assert_eq!(y, None);
    let (x, y) = arena.get_two_mut(a, 0usize);
    assert_eq!(x, Some(&mut 1));
    assert_eq!(y, None);
}

#[test]
fn two_lookups_fail_independently() {
    let mut arena = IndexVec::new();
    let a = arena.insert(1);
    let b = arena.insert(2);
    arena.remove(a);
    {
        let (x, y) = arena.get_two_mut(a, b);
        assert_eq!(x, None);
        assert_eq!(y, Some(&mut 2));
    }
    {
        let (x, y) = arena.get_two_mut(b, a);
        assert_eq!(x, Some(&mut 2));
        assert_eq!(y, None);
    }
    {
        let (x, y) = arena.get_two_mut(a, GIndex::new(5, 0));
        assert_eq!(x, None);
        assert_eq!(y, None);
    }
    let (x, y) = arena.get_two_mut(5usize, 1usize);
    assert_eq!(x, None);
    assert_eq!(y, Some(&mut 2));
}

#[test]
fn clearing_makes_every_handle_stale() {
    let mut arena = IndexVec::new();
    let a = arena.insert(1);
    let b = arena.insert(2);
    let c = arena.insert(3);
    arena.remove(b);
    arena.clear();
    assert_eq!(arena.get(a), None);
    assert_eq!(arena.get(b), None);
    assert_eq!(arena.get(c), None);
    assert!(arena.iter().next().is_none());
    // The slot freed before comes first, then the others in their order.
    assert_eq!(arena.insert(4), GIndex::new(1, 1));
    assert_eq!(arena.insert(5), GIndex::new(0, 1));
    assert_eq!(arena.insert(6), GIndex::new(2, 1));
    assert_eq!(arena.insert(7), GIndex::new(3, 0));
    assert_eq!(arena.get(a), None);
}

#[test]
fn iteration_yields_the_values_in_the_order_of_their_slots() {
    let mut arena = IndexVec::new();
    let a = arena.insert(1);
    arena.insert(2);
    let c = arena.insert(3);
    arena.insert(4);
    arena.remove(a);
    arena.remove(c);
    let mut seen = Vec::new();
    let mut walk = arena.iter();
    while let Some(value) = walk.next() {
        seen.push(*value);
    }
    assert_eq!(seen, vec![2, 4]);
    assert!(walk.next().is_none());
}

#[test]
fn iteration_with_index_yields_live_handles() {
    let mut arena = IndexVec::new();
    let a = arena.insert(1);
    arena.insert(2);
    arena.remove(a);
    arena.insert(3);
    arena.insert(4);
    let mut seen = Vec::new();
    let mut walk = arena.iter().with_index();
    while let Some((handle, value)) = walk.next() {
        assert_eq!(arena.get(handle), Some(value));
        seen.push((handle, *value));
    }
    assert_eq!(
        seen,
        vec![(GIndex::new(0, 1), 3), (GIndex::new(1, 0), 2), (GIndex::new(2, 0), 4)]
    );
}

#[test]
fn a_walk_can_be_given_handles_after_it_has_begun() {
    let mut arena = IndexVec::new();
    arena.insert(1);
    arena.insert(2);
    let mut walk = arena.iter();
    assert_eq!(walk.next(), Some(&1));
    let mut rest = walk.with_index();
    assert_eq!(rest.next(), Some((GIndex::new(1, 0), &2)));
    assert_eq!(rest.next(), None);
}

#[test]
fn mutable_iteration_reaches_every_value() {
    let mut arena = IndexVec::new();
    arena.insert(1);
    let b = arena.insert(2);
    arena.insert(3);
    arena.remove(b);
    {
        let mut walk = arena.iter_mut();
        while let Some(value) = walk.next() {
            *value *= 10;
        }
    }
    assert_eq!(arena.get(0usize), Some(&10));
    assert_eq!(arena.get(1usize), None);
    assert_eq!(arena.get(2usize), Some(&30));
}

#[test]
fn pair_iteration_yields_every_pair_once() {
    let mut arena = IndexVec::new();
    arena.insert(1);
    let b = arena.insert(2);
    arena.insert(3);
    arena.insert(4);
    arena.remove(b);
    let mut seen = Vec::new();
    {
        let mut walk = arena.iter_two_mut();
        while let Some((x, y)) = walk.next() {
            seen.push((*x, *y));
            *x += 100;
            *y += 1000;
        }
        assert!(walk.next().is_none());
    }
    assert_eq!(seen, vec![(1, 3), (101, 4), (1003, 1004)]);
    assert_eq!(arena.get(0usize), Some(&201));
    assert_eq!(arena.get(2usize), Some(&1103));
    assert_eq!(arena.get(3usize), Some(&2004));
}

#[test]
fn pair_iteration_of_fewer_than_two_values_yields_nothing() {
    let mut arena: IndexVec<u8> = IndexVec::new();
    assert!(arena.iter_two_mut().next().is_none());
    arena.insert(1);
    assert!(arena.iter_two_mut().next().is_none());
    let b = arena.insert(2);
    arena.remove(b);
    assert!(arena.iter_two_mut().next().is_none());
}
