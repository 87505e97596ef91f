use openshmem::error::{Error, UcsStatus};
use openshmem::heap_model::ALIGNMENT;
use openshmem::symheap::{
    heap_words, translate_address, PeerRkeys, SymAlloc, SymHeap, SymPtr, DEFAULT_HEAP_SIZE,
};

const BASE: u64 = 0x10_0000;

fn heap_of(size: usize) -> SymHeap {
    SymHeap::with_size(size, BASE, Ok(vec![3, 0, 0, 0, 9, 8, 7])).unwrap()
}

fn pointer_at(address: u64) -> SymPtr {
    let mut heap = SymHeap::with_size(64, address, Ok(vec![1])).unwrap();
    heap.malloc(8).unwrap()
}

fn address_of(ptr: SymPtr) -> u64 {
    ptr.offset_from(0)
}

#[test]
fn allocator_alignment_distinct_and_reuses_freed_space() {
    let mut heap = heap_of(128);
    let a = heap.malloc(1).unwrap();
    let b = heap.malloc(8).unwrap();
    assert_eq!(address_of(a) as usize % ALIGNMENT, 0);
    assert_eq!(address_of(b) as usize % ALIGNMENT, 0);
    assert_ne!(a, b);
    heap.free(a).unwrap();
    assert_eq!(heap.malloc(8).unwrap(), a);
}

#[test]
fn frees_allocation_at_end_of_multimegabyte_heap() {
    let mut heap = heap_of(2 * 1024 * 1024);
    let capacity = heap.capacity();
    let _prefix = heap.malloc(capacity - ALIGNMENT).unwrap();
    let tail = heap.malloc(ALIGNMENT).unwrap();
    assert_eq!((address_of(tail) - heap.local_base()) as usize, capacity - ALIGNMENT);
    heap.free(tail).unwrap();
}

#[test]
fn registration_and_rkey_pack_succeed() {
    let heap = heap_of(4096);
    assert_ne!(heap.local_base(), 0);
    assert!(!heap.packed_rkey().is_empty());
}

#[test]
fn peer_rkeys_insert_and_update() {
    let mut keys = PeerRkeys::default();
    keys.insert(2, 9, vec![1]);
    keys.insert(2, 10, vec![2]);
    assert_eq!(keys.get(2).unwrap().heap_base, 10);
    assert_eq!(keys.get(3), None);
}

#[test]
fn symmetric_address_translation_preserves_offset() {
    assert_eq!(translate_address(0x2234, 0x1000, 0x9000), 0xa234);
    let ptr = pointer_at(0x2230);
    assert_eq!(ptr.to_remote_addr(0x1000, 0x9000), 0xa230);
}

#[test]
fn symmetric_peers_compute_consistent_remote_addresses() {
    assert_eq!(translate_address(0x2234, 0x1000, 0x9000), 0xa234);
    assert_eq!(translate_address(0xa234, 0x9000, 0x1000), 0x2234);
    let a = pointer_at(0x2230);
    let b = pointer_at(0xa230);
    assert_eq!(a.to_remote_addr(0x1000, 0x9000), 0xa230);
    assert_eq!(b.to_remote_addr(0x9000, 0x1000), 0x2230);
}

#[test]
fn translation_wraps_like_address_arithmetic() {
    let ptr = pointer_at(0x2230);
    assert_eq!(ptr.offset_from(0x2230), 0);
    assert_eq!(ptr.offset_from(0x2231), u64::MAX);
    assert_eq!(ptr.to_remote_addr(0x2231, 1), 0);
    assert_eq!(ptr.to_remote_addr(0x2230, u64::MAX), u64::MAX);
}

#[test]
fn a_heap_has_exactly_the_size_asked_for() {
    for size in [8, 9, 15, 16, 4097] {
        assert_eq!(heap_of(size).capacity(), size);
    }
    let mut heap = heap_of(23);
    assert_eq!(heap.malloc(17), Err(Error::Usage("symmetric heap exhausted")));
    let whole = heap.malloc(16).unwrap();
    assert_eq!(address_of(whole), BASE);
    assert_eq!(heap.malloc(1), Err(Error::Usage("symmetric heap exhausted")));
    heap.free(whole).unwrap();
    assert_eq!(heap.malloc(9), Ok(whole));
}

#[test]
fn heap_sizes_are_checked() {
    assert_eq!(heap_words(7), Err(Error::Usage("symmetric heap is too small")));
    assert_eq!(heap_words(8), Ok(1));
    assert_eq!(heap_words(9), Ok(2));
    assert_eq!(heap_words(usize::MAX), Err(Error::Usage("symmetric heap size overflow")));
    assert_eq!(heap_words(usize::MAX - 7), Ok(usize::MAX / 8));
    let refused = SymHeap::with_size(7, BASE, Ok(vec![]));
    assert!(matches!(refused, Err(Error::Usage("symmetric heap is too small"))));
    let refused = SymHeap::with_size(usize::MAX, BASE, Err(UcsStatus { code: -3 }));
    assert!(matches!(refused, Err(Error::Usage("symmetric heap size overflow"))));
    let refused = SymHeap::with_size(64, BASE, Err(UcsStatus { code: -3 }));
    assert!(matches!(refused, Err(Error::Ucx(UcsStatus { code: -3 }))));
    let refused = SymHeap::with_size(64, BASE, Err(UcsStatus { code: 0 }));
    assert!(matches!(refused, Err(Error::Internal(_))));
}

#[test]
fn heap_size_comes_from_the_setting() {
    let heap = SymHeap::new(Some("100"), BASE, Ok(vec![1])).unwrap();
    assert_eq!(heap.capacity(), 100);
    let heap = SymHeap::new(Some("lots"), BASE, Ok(vec![1])).unwrap();
    assert_eq!(heap.capacity(), DEFAULT_HEAP_SIZE);
    let heap = SymHeap::new(None, BASE, Ok(vec![1])).unwrap();
    assert_eq!(heap.capacity(), 64 * 1024 * 1024);
    assert_eq!(heap.packed_rkey(), [1]);
    assert_eq!(heap.local_base(), BASE);
    let refused = SymHeap::new(Some("4"), BASE, Ok(vec![1]));
    assert!(matches!(refused, Err(Error::Usage("symmetric heap is too small"))));
}

#[test]
fn refused_allocations_change_nothing() {
    let mut heap = heap_of(32);
    assert_eq!(
        heap.malloc(0),
        Err(Error::Usage("symmetric allocation size must be nonzero"))
    );
    assert_eq!(
        heap.malloc(usize::MAX),
        Err(Error::Usage("symmetric allocation size overflow"))
    );
    assert_eq!(heap.malloc(33), Err(Error::Usage("symmetric heap exhausted")));
    let whole = heap.malloc(32).unwrap();
    assert_eq!(address_of(whole), BASE);
    assert_eq!(heap.malloc(1), Err(Error::Usage("symmetric heap exhausted")));
}

#[test]
fn foreign_and_double_frees_are_refused() {
    let mut heap = heap_of(64);
    let a = heap.malloc(16).unwrap();
    assert_eq!(heap.free(pointer_at(BASE + 8)), Err(Error::Usage("invalid symmetric pointer")));
    assert_eq!(heap.free(pointer_at(8)), Err(Error::Usage("invalid symmetric pointer")));
    assert_eq!(heap.free(a), Ok(()));
    assert_eq!(heap.free(a), Err(Error::Usage("invalid symmetric pointer")));
}

#[test]
fn first_fit_takes_the_lowest_hole_that_is_long_enough() {
    let mut heap = heap_of(128);
    let a = heap.malloc(16).unwrap();
    let b = heap.malloc(8).unwrap();
    let c = heap.malloc(32).unwrap();
    let d = heap.malloc(8).unwrap();
    heap.free(a).unwrap();
    heap.free(c).unwrap();
    assert_eq!(heap.malloc(17).unwrap(), c);
    assert_eq!(heap.malloc(9).unwrap(), a);
    assert_eq!(address_of(b), BASE + 16);
    assert_eq!(address_of(d), BASE + 56);
}

#[test]
fn freed_neighbours_are_merged() {
    let mut heap = heap_of(64);
    let blocks: Vec<SymPtr> = (0..8).map(|_| heap.malloc(8).unwrap()).collect();
    for index in [3, 1, 2, 7, 5, 0, 4, 6] {
        heap.free(blocks[index]).unwrap();
    }
    assert_eq!(address_of(heap.malloc(64).unwrap()), BASE);
}

#[test]
fn free_undoes_malloc() {
    let mut heap = heap_of(64);
    let kept = heap.malloc(8).unwrap();
    let first = heap.malloc(24).unwrap();
    heap.free(first).unwrap();
    assert_eq!(heap.malloc(56).unwrap(), first);
    assert_ne!(kept, first);
}

#[test]
fn a_stored_heap_is_allocated_from() {
    let mut stored = SymAlloc::new(heap_of(64));
    assert_eq!(stored.local_base(), Ok(BASE));
    let a = stored.malloc(40).unwrap();
    assert_eq!(stored.malloc(40), Err(Error::Usage("symmetric heap exhausted")));
    assert_eq!(stored.free(a), Ok(()));
    assert_eq!(stored.free(a), Err(Error::Usage("invalid symmetric pointer")));
    assert_eq!(stored.malloc(0), Err(Error::Usage("symmetric allocation size must be nonzero")));
    assert_eq!(stored.malloc(64), Ok(a));
}

#[test]
fn threads_take_turns_on_a_stored_heap() {
    let stored = std::sync::Mutex::new(SymAlloc::new(heap_of(64)));
    let a = stored.lock().unwrap().malloc(8).unwrap();
    let b = stored.lock().unwrap().malloc(8).unwrap();
    assert_ne!(a, b);
    assert_eq!(stored.lock().unwrap().free(a), Ok(()));
}

#[test]
fn the_same_calls_give_the_same_offsets_on_every_pe() {
    let mut here = SymHeap::with_size(100, 0x1000, Ok(vec![1])).unwrap();
    let mut there = SymHeap::with_size(100, 0x9000, Ok(vec![2])).unwrap();
    let mut pairs = Vec::new();
    for size in [5, 24, 16, 100, 8] {
        match (here.malloc(size), there.malloc(size)) {
            (Ok(p), Ok(q)) => {
                assert_eq!(p.to_remote_addr(0x1000, 0x9000), address_of(q));
                pairs.push((p, q));
            }
            (p, q) => assert_eq!(p, q),
        }
    }
    assert_eq!(pairs.len(), 4);
    for index in [2, 0] {
        let (p, q) = pairs[index];
        assert_eq!(here.free(p), there.free(q));
    }
    let (p, q) = (here.malloc(9).unwrap(), there.malloc(9).unwrap());
    assert_eq!(p.offset_from(0x1000), q.offset_from(0x9000));
    assert_eq!(p.offset_from(0x1000), 32);
}
