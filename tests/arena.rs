use monte_carlo::arena::{Arena, ArenaHandle};

#[test]
fn arena_test() {
    let mut arena: Arena<u64> = Arena::new();
    let numbers: Vec<u64> = (1..=1000).collect();
    let handle = numbers.iter().copied().map(|n| arena.insert(n)).collect::<Vec<_>>();
    let gathered = handle.iter().filter_map(|handle| arena.get(handle)).copied().collect::<Vec<_>>();
    assert_eq!(numbers, gathered);
    let gathered_mut = handle
        .iter()
        .filter_map(|handle| arena.get_mut(handle).copied())
        .collect::<Vec<_>>();
    assert_eq!(numbers, gathered_mut);
    arena.purge();
    assert_eq!(handle.iter().filter_map(|handle| arena.get(handle)).next(), None);
}

#[test]
fn arena_stress_reuses_handles() {
    let mut arena: Arena<u64> = Arena::new();
    let first: Vec<_> = (0..10_000u64).map(|v| arena.insert(v)).collect();
    for (v, h) in first.iter().enumerate() {
        assert_eq!(arena.get(h), Some(&(v as u64)));
    }
    arena.purge();
    let second: Vec<_> = (0..10_000u64).map(|v| arena.insert(v * 3)).collect();
    for (v, h) in second.iter().enumerate() {
        assert_eq!(arena.get(h), Some(&(v as u64 * 3)));
    }
    assert!(first.iter().zip(second.iter()).any(|(a, b)| a.index == b.index));
}

#[test]
fn handles_after_purge_follow_insertion_order() {
    let mut arena: Arena<u32> = Arena::new();
    for v in 0..100u32 {
        arena.insert(v);
    }
    arena.purge();
    let handles: Vec<usize> = (0..130u32).map(|v| arena.insert(v).index).collect();
    assert_eq!(handles, (0..130usize).collect::<Vec<_>>());
    arena.purge();
    let again: Vec<usize> = (0..130u32).map(|v| arena.insert(v + 1).index).collect();
    assert_eq!(handles, again);
}

#[test]
fn purge_forgets_every_handle() {
    let mut arena: Arena<u8> = Arena::new();
    let hs: Vec<_> = (0..70u8).map(|v| arena.insert(v)).collect();
    arena.purge();
    for h in &hs {
        assert!(arena.get(h).is_none());
        assert!(arena.get_mut(h).is_none());
    }
}

#[test]
fn invalid_handle_reads_nothing() {
    let mut arena: Arena<u8> = Arena::new();
    arena.insert(7);
    let h: ArenaHandle<u8> = ArenaHandle::invalid();
    assert_eq!(h.index, usize::MAX);
    assert!(arena.get(&h).is_none());
    assert!(arena.get(&ArenaHandle::new(64)).is_none());
}

#[test]
fn get_mut_writes_through() {
    let mut arena: Arena<u64> = Arena::new();
    let a = arena.insert(1);
    let b = arena.insert(2);
    *arena.get_mut(&a).unwrap() = 10;
    assert_eq!(arena.get(&a), Some(&10));
    assert_eq!(arena.get(&b), Some(&2));
    assert!(a != b);
    assert!(a == a.clone());
}
