use monte_carlo::slice_arena::{SliceArena, SliceHandle};
use std::marker::PhantomData;

#[test]
fn moves_buffer_test() {
    let mut arena = SliceArena::<u64>::new();
    let handle_1 = arena.insert(vec![1, 2, 3, 4]);
    let handle_2 = arena.insert(vec![30, 31, 21, 8, 0, 19]);

    assert_eq!(arena.get(&handle_1), Some([1u64, 2, 3, 4].as_slice()));
    assert_eq!(arena.get(&handle_2), Some([30u64, 31, 21, 8, 0, 19].as_slice()));
    assert_eq!(
        arena.get(&SliceHandle { chunk_idx: 0, start_idx: 10, len: 10, _data: PhantomData }),
        None
    );
    assert_eq!(
        arena.get(&SliceHandle { chunk_idx: 0, start_idx: 0, len: 11, _data: PhantomData }),
        None
    );
    assert_eq!(
        arena.get(&SliceHandle { chunk_idx: 1, start_idx: 0, len: 10, _data: PhantomData }),
        None
    );

    arena.clear();

    assert_eq!(arena.get(&handle_1), None);
    assert_eq!(arena.get(&handle_2), None);

    let handle_3 = arena.insert(vec![0u64; 512]);

    assert_eq!(handle_3.chunk_idx, 0);
    let handle_4 = arena.insert(vec![1, 2, 3, 4]);
    assert_eq!(handle_4.chunk_idx, 1);
    assert_eq!(arena.get_mut(&handle_4), Some([1u64, 2, 3, 4].as_mut_slice()));
}

#[test]
fn runs_are_disjoint_and_stable() {
    let mut arena = SliceArena::<u32>::new();
    let handles: Vec<_> = (0..300u32).map(|i| arena.insert(vec![i, i + 1, i + 2])).collect();
    for (i, h) in handles.iter().enumerate() {
        let i = i as u32;
        assert_eq!(arena.get(h), Some([i, i + 1, i + 2].as_slice()));
        assert_eq!(h.len(), 3);
    }
    for a in 0..handles.len() {
        for b in (a + 1)..handles.len() {
            let (x, y) = (&handles[a], &handles[b]);
            assert!(x.chunk_idx != y.chunk_idx || x.start_idx + x.len <= y.start_idx);
        }
    }
}

#[test]
fn small_inserts_fill_a_page_then_open_the_next() {
    let mut arena = SliceArena::<u64>::new();
    let mut last_page = 0;
    for i in 0..128u64 {
        let h = arena.insert(vec![i; 4]);
        assert_eq!(h.chunk_idx, 0);
        last_page = h.chunk_idx;
    }
    let next = arena.insert(vec![7; 4]);
    assert_eq!(next.chunk_idx, last_page + 1);
    assert_eq!(next.start_idx, 0);
}

#[test]
fn large_insert_gets_its_own_page() {
    let mut arena = SliceArena::<u64>::new();
    let small = arena.insert(vec![1]);
    let big = arena.insert(vec![5u64; 2000]);
    assert_eq!(small.chunk_idx, 0);
    assert_eq!(big.chunk_idx, 1);
    assert_eq!(arena.get(&big).map(|s| s.len()), Some(2000));
    let after = arena.insert(vec![9]);
    assert_eq!(after.chunk_idx, 2);
}

#[test]
fn empty_handle_reads_empty_run() {
    let arena = SliceArena::<u8>::new();
    let h: SliceHandle<u8> = SliceHandle::empty();
    assert_eq!(h.len(), 0);
    assert_eq!(arena.get(&h), Some([].as_slice()));
}
