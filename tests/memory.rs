use mapping_runtime::asc::{
    asc_get_bytes, asc_get_ptrs, asc_get_string, asc_new_bytes, asc_new_ptrs, asc_new_string,
    AscError,
};
use mapping_runtime::heap::{AscHeap, GuestAllocator, HeapError, MIN_ARENA_SIZE};

/// Hands out slabs one after another, growing memory as needed.
struct BumpAllocator {
    next: u32,
    calls: Vec<(u32, u32)>,
}

impl BumpAllocator {
    fn new() -> Self {
        BumpAllocator { next: 8, calls: Vec::new() }
    }
}

impl GuestAllocator for BumpAllocator {
    fn allocate(&mut self, memory: &mut Vec<u8>, size: u32) -> Option<u32> {
        let p = self.next;
        let end = (p + size) as usize;
        if memory.len() < end {
            memory.resize(end, 0);
        }
        self.next = p + size;
        self.calls.push((p, size));
        Some(p)
    }
}

/// Refuses every request.
struct NoMemory;

impl GuestAllocator for NoMemory {
    fn allocate(&mut self, _memory: &mut Vec<u8>, _size: u32) -> Option<u32> {
        None
    }
}

/// Returns a slab that does not lie in memory.
struct BadSlab;

impl GuestAllocator for BadSlab {
    fn allocate(&mut self, memory: &mut Vec<u8>, _size: u32) -> Option<u32> {
        Some(memory.len() as u32)
    }
}

#[test]
fn raw_new_then_get_returns_the_bytes() {
    let mut heap = AscHeap::new(vec![0; 16]);
    let mut alloc = BumpAllocator::new();
    let data = vec![1u8, 2, 3, 4, 5];
    let p = heap.raw_new(&mut alloc, &data).unwrap();
    assert_eq!(heap.get(p, 5).unwrap(), data);
    let q = heap.raw_new(&mut alloc, &[9u8, 8]).unwrap();
    assert_eq!(q, p + 5);
    assert_eq!(heap.get(q, 2).unwrap(), vec![9, 8]);
    assert_eq!(heap.get(p, 5).unwrap(), data);
}

#[test]
fn first_raw_new_requests_a_minimum_slab() {
    let mut heap = AscHeap::new(Vec::new());
    assert_eq!(heap.arena_start_ptr, 0);
    assert_eq!(heap.arena_free_size, 0);
    let mut alloc = BumpAllocator::new();
    let p = heap.raw_new(&mut alloc, &[7u8]).unwrap();
    assert_eq!(alloc.calls, vec![(8, MIN_ARENA_SIZE)]);
    assert_eq!(p, 8);
    assert_eq!(heap.arena_start_ptr, 9);
    assert_eq!(heap.arena_free_size, MIN_ARENA_SIZE - 1);
}

#[test]
fn arena_refill_takes_a_second_slab() {
    let mut heap = AscHeap::new(Vec::new());
    let mut alloc = BumpAllocator::new();
    let first: Vec<u8> = (0..3000u32).map(|i| (i % 251) as u8).collect();
    let second: Vec<u8> = (0..8000u32).map(|i| (i % 241) as u8).collect();
    let p = heap.raw_new(&mut alloc, &first).unwrap();
    assert_eq!(heap.arena_free_size, 7000);
    let q = heap.raw_new(&mut alloc, &second).unwrap();
    assert_eq!(alloc.calls.len(), 2);
    assert_eq!(alloc.calls[0], (8, 10_000));
    assert_eq!(alloc.calls[1], (10_008, 10_000));
    assert_ne!(p, q);
    assert_eq!(q, 10_008);
    assert_eq!(heap.get(p, 3000).unwrap(), first);
    assert_eq!(heap.get(q, 8000).unwrap(), second);
    assert_eq!(heap.arena_free_size, 2000);
}

#[test]
fn large_object_gets_a_slab_of_its_own_size() {
    let mut heap = AscHeap::new(Vec::new());
    let mut alloc = BumpAllocator::new();
    let big = vec![3u8; 12_345];
    let p = heap.raw_new(&mut alloc, &big).unwrap();
    assert_eq!(alloc.calls, vec![(8, 12_345)]);
    assert_eq!(heap.arena_free_size, 0);
    assert_eq!(heap.get(p, 12_345).unwrap(), big);
}

#[test]
fn failed_allocation_is_reported() {
    let mut heap = AscHeap::new(vec![0; 4]);
    assert_eq!(heap.raw_new(&mut NoMemory, &[1u8]), Err(HeapError::AllocationFailed));
    assert_eq!(heap.raw_new(&mut BadSlab, &[1u8]), Err(HeapError::AllocationFailed));
    assert_eq!(heap.arena_free_size, 0);
}

#[test]
fn get_out_of_range_is_refused() {
    let heap = AscHeap::new(vec![1, 2, 3, 4]);
    assert_eq!(heap.get(0, 4).unwrap(), vec![1, 2, 3, 4]);
    assert_eq!(heap.get(3, 2), Err(HeapError::OutOfBounds));
    assert_eq!(heap.get(u32::MAX, 2), Err(HeapError::OutOfBounds));
    assert_eq!(heap.get(4, 0).unwrap(), Vec::<u8>::new());
}

#[test]
fn string_round_trips_through_guest_memory() {
    let mut heap = AscHeap::new(Vec::new());
    let mut alloc = BumpAllocator::new();
    for s in ["héllo", "", "plain", "𝄞 clef", "日本語"] {
        let p = asc_new_string(&mut heap, &mut alloc, s).unwrap();
        assert_eq!(asc_get_string(&heap, p).unwrap(), s);
    }
}

#[test]
fn string_layout_is_utf16_with_length_header() {
    let mut heap = AscHeap::new(Vec::new());
    let mut alloc = BumpAllocator::new();
    let p = asc_new_string(&mut heap, &mut alloc, "hé").unwrap();
    assert_eq!(heap.get(p, 8).unwrap(), vec![2, 0, 0, 0, 0x68, 0, 0xe9, 0]);
}

#[test]
fn unpaired_surrogate_is_refused() {
    // length 1, then the lone high surrogate 0xD800
    let heap = AscHeap::new(vec![1, 0, 0, 0, 0x00, 0xD8]);
    assert_eq!(asc_get_string(&heap, 0), Err(AscError::InvalidUtf16));
}

#[test]
fn string_past_memory_end_is_refused() {
    let heap = AscHeap::new(vec![9, 0, 0, 0, 0x41, 0]);
    assert_eq!(asc_get_string(&heap, 0), Err(AscError::Heap(HeapError::OutOfBounds)));
    assert_eq!(asc_get_string(&heap, 5), Err(AscError::Heap(HeapError::OutOfBounds)));
}

#[test]
fn bytes_round_trip_through_guest_memory() {
    let mut heap = AscHeap::new(Vec::new());
    let mut alloc = BumpAllocator::new();
    let data = vec![0u8, 255, 17, 42];
    let p = asc_new_bytes(&mut heap, &mut alloc, &data).unwrap();
    assert_eq!(heap.get(p, 4).unwrap(), vec![4, 0, 0, 0]);
    assert_eq!(asc_get_bytes(&heap, p).unwrap(), data);
    let e = asc_new_bytes(&mut heap, &mut alloc, &[]).unwrap();
    assert_eq!(asc_get_bytes(&heap, e).unwrap(), Vec::<u8>::new());
}

#[test]
fn pointer_array_round_trips_through_guest_memory() {
    let mut heap = AscHeap::new(Vec::new());
    let mut alloc = BumpAllocator::new();
    let ps = vec![8u32, 0x1234_5678, 0];
    let p = asc_new_ptrs(&mut heap, &mut alloc, &ps).unwrap();
    assert_eq!(heap.get(p, 8).unwrap(), vec![3, 0, 0, 0, 8, 0, 0, 0]);
    assert_eq!(asc_get_ptrs(&heap, p).unwrap(), ps);
}
