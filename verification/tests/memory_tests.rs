use game_engine::memory::{Arena, GenerationalPool, Handle, Pool};

#[test]
fn pool_hands_out_lowest_index_first() {
    let mut pool: Pool<u32> = Pool::new(3);
    assert_eq!(pool.capacity(), 3);
    assert_eq!(pool.used(), 0);
    assert_eq!(pool.allocate(10), Some(0));
    assert_eq!(pool.allocate(11), Some(1));
    assert_eq!(pool.allocate(12), Some(2));
    assert_eq!(pool.allocate(13), None);
    assert_eq!(pool.used(), 3);
}

#[test]
fn pool_get_after_allocate_and_free() {
    let mut pool: Pool<&str> = Pool::new(2);
    let a = pool.allocate("a").unwrap();
    let b = pool.allocate("b").unwrap();
    assert_eq!(pool.get(a), Some(&"a"));
    assert_eq!(pool.get(b), Some(&"b"));
    pool.free(a);
    assert_eq!(pool.get(a), None);
    assert_eq!(pool.get(b), Some(&"b"));
    assert_eq!(pool.used(), 1);
}

#[test]
fn pool_reuses_last_freed_slot() {
    let mut pool: Pool<u8> = Pool::new(4);
    for v in 0..4u8 {
        pool.allocate(v);
    }
    pool.free(2);
    pool.free(0);
    assert_eq!(pool.allocate(7), Some(0));
    assert_eq!(pool.allocate(8), Some(2));
    assert_eq!(pool.allocate(9), None);
}

#[test]
fn pool_free_out_of_range_or_empty_is_ignored() {
    let mut pool: Pool<u8> = Pool::new(2);
    pool.allocate(1);
    pool.free(5);
    pool.free(1);
    assert_eq!(pool.used(), 1);
    pool.free(0);
    pool.free(0);
    assert_eq!(pool.used(), 0);
    assert_eq!(pool.allocate(3), Some(0));
    assert_eq!(pool.allocate(4), Some(1));
    assert_eq!(pool.allocate(5), None);
}

#[test]
fn pool_get_mut_changes_value() {
    let mut pool: Pool<i32> = Pool::new(2);
    let i = pool.allocate(5).unwrap();
    *pool.get_mut(i).unwrap() += 10;
    assert_eq!(pool.get(i), Some(&15));
    assert!(pool.get_mut(1).is_none());
    assert!(pool.get_mut(9).is_none());
}

#[test]
fn pool_iter_lists_occupied_in_order() {
    let mut pool: Pool<char> = Pool::new(4);
    pool.allocate('a');
    pool.allocate('b');
    pool.allocate('c');
    pool.free(1);
    let items: Vec<(usize, char)> = pool.iter().into_iter().map(|(i, c)| (i, *c)).collect();
    assert_eq!(items, vec![(0, 'a'), (2, 'c')]);
}

#[test]
fn pool_of_zero_capacity() {
    let mut pool: Pool<u8> = Pool::new(0);
    assert_eq!(pool.allocate(1), None);
    assert_eq!(pool.used(), 0);
    assert!(pool.iter().is_empty());
}

#[test]
fn handle_validity() {
    assert!(!Handle::invalid().is_valid());
    assert!(Handle::new(0, 0).is_valid());
    assert!(Handle::new(usize::MAX, 1).is_valid());
    let h = Handle::new(3, 7);
    assert_eq!(h.index, 3);
    assert_eq!(h.generation, 7);
    assert_eq!(Handle::invalid(), Handle::new(usize::MAX, 0));
}

#[test]
fn generational_get_after_allocate() {
    let mut pool: GenerationalPool<String> = GenerationalPool::new(2);
    let h = pool.allocate("x".to_string()).unwrap();
    assert_eq!(h, Handle::new(0, 0));
    assert_eq!(pool.get(h).map(|s| s.as_str()), Some("x"));
    let h2 = pool.allocate("y".to_string()).unwrap();
    assert_eq!(h2, Handle::new(1, 0));
    assert!(pool.allocate("z".to_string()).is_none());
}

#[test]
fn generational_stale_handle_is_rejected() {
    let mut pool: GenerationalPool<u32> = GenerationalPool::new(1);
    let old = pool.allocate(1).unwrap();
    assert!(pool.free(old));
    assert_eq!(pool.get(old), None);
    assert!(!pool.free(old));
    let new = pool.allocate(2).unwrap();
    assert_eq!(new.index, old.index);
    assert_eq!(new.generation, old.generation + 1);
    assert_eq!(pool.get(old), None);
    assert!(pool.get_mut(old).is_none());
    assert_eq!(pool.get(new), Some(&2));
}

#[test]
fn generational_free_rejects_bad_handles() {
    let mut pool: GenerationalPool<u32> = GenerationalPool::new(2);
    let h = pool.allocate(5).unwrap();
    assert!(!pool.free(Handle::new(h.index, h.generation + 1)));
    assert!(!pool.free(Handle::new(7, 0)));
    assert!(!pool.free(Handle::new(1, 0)));
    assert!(!pool.free(Handle::invalid()));
    assert_eq!(pool.get(h), Some(&5));
}

#[test]
fn generational_get_mut() {
    let mut pool: GenerationalPool<u32> = GenerationalPool::new(2);
    let h = pool.allocate(5).unwrap();
    *pool.get_mut(h).unwrap() = 9;
    assert_eq!(pool.get(h), Some(&9));
}

#[test]
fn arena_allocations_are_aligned_and_disjoint() {
    let mut arena = Arena::new(64);
    assert_eq!(arena.used(), 0);
    assert_eq!(arena.available(), 64);
    let a = arena.allocate::<u8>(3).unwrap();
    assert_eq!(a, 0);
    assert_eq!(arena.used(), 3);
    let b = arena.allocate::<u32>(2).unwrap();
    assert_eq!(b % std::mem::align_of::<u32>(), 0);
    assert!(b >= 3);
    assert_eq!(arena.used(), b + 8);
    assert_eq!(arena.available(), 64 - (b + 8));
}

#[test]
fn arena_out_of_memory_leaves_state() {
    let mut arena = Arena::new(16);
    assert_eq!(arena.allocate::<u64>(2), Some(0));
    assert_eq!(arena.allocate::<u8>(1), None);
    assert_eq!(arena.used(), 16);
    arena.reset();
    assert_eq!(arena.used(), 0);
    assert_eq!(arena.available(), 16);
    assert_eq!(arena.allocate::<u8>(16), Some(0));
}

#[test]
fn arena_zero_sized_requests() {
    let mut arena = Arena::new(0);
    assert_eq!(arena.allocate::<u32>(0), Some(0));
    assert_eq!(arena.allocate::<u8>(1), None);
}

#[test]
fn arena_memory_is_usable() {
    let mut arena = Arena::new(32);
    assert!(arena.bytes().iter().all(|&b| b == 0));
    let _pad = arena.allocate::<u8>(1).unwrap();
    let at = arena.allocate::<u32>(1).unwrap();
    arena.write_bytes(at, &0xdead_beef_u32.to_le_bytes());
    let got = u32::from_le_bytes([
        arena.bytes()[at],
        arena.bytes()[at + 1],
        arena.bytes()[at + 2],
        arena.bytes()[at + 3],
    ]);
    assert_eq!(got, 0xdead_beef);
    assert_eq!(arena.bytes().len(), 32);
    arena.reset();
    assert_eq!(arena.used(), 0);
    // Reset forgets allocations but keeps the bytes.
    assert_eq!(arena.bytes()[at], 0xef);
}

#[test]
fn stale_handle_stays_stale() {
    let mut pool: GenerationalPool<u8> = GenerationalPool::new(2);
    let h = pool.allocate(1).unwrap();
    assert!(pool.free(h));
    let again = pool.allocate(2).unwrap();
    assert_eq!(again.index, h.index);
    assert!(pool.free(again));
    let _other = pool.allocate(3).unwrap();
    let _more = pool.allocate(4).unwrap();
    assert_eq!(pool.get(h), None);
    assert!(!pool.free(h));
}
