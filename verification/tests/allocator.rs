use kernel_core::allocator::{align_up, LinkedListAllocator, ListNode, NODE_ALIGN, NODE_SIZE};

const HEAP_START: usize = 0x2000_0000;

fn fresh(heap_size: usize) -> LinkedListAllocator {
    let mut a = LinkedListAllocator::new();
    a.init(HEAP_START, heap_size);
    a
}

#[test]
fn align_up_values() {
    assert_eq!(align_up(0, 4), 0);
    assert_eq!(align_up(1, 4), 4);
    assert_eq!(align_up(4, 4), 4);
    assert_eq!(align_up(5, 8), 8);
    assert_eq!(align_up(17, 16), 32);
    assert_eq!(align_up(31, 1), 31);
}

#[test]
fn size_align_pads_requests() {
    // A tiny request grows to one header, header-aligned.
    assert_eq!(LinkedListAllocator::size_align(1, 1), (NODE_SIZE, NODE_ALIGN));
    // A request already aligned and large enough is kept.
    assert_eq!(LinkedListAllocator::size_align(16, 4), (16, 4));
    // The size pads up to the served alignment.
    assert_eq!(LinkedListAllocator::size_align(17, 16), (32, 16));
    // The alignment never drops below the header's.
    assert_eq!(LinkedListAllocator::size_align(8, 2), (8, 4));
}

#[test]
fn init_installs_one_region() {
    let a = fresh(4096);
    assert_eq!(a.heap_start, HEAP_START);
    assert_eq!(a.heap_end, HEAP_START + 4096);
    assert_eq!(a.free.len(), 1);
    assert_eq!(a.free[0].start, HEAP_START);
    assert_eq!(a.free[0].size, 4096);
}

#[test]
fn fresh_heap_serves_full_sized_request() {
    // Liveness: a fresh heap of size S satisfies a request of the whole S.
    let mut a = fresh(4096);
    let r = a.allocate(4096, 4);
    assert_eq!(r, Some(HEAP_START));
    assert_eq!(a.free.len(), 0);
}

#[test]
fn oversized_request_returns_none() {
    // Liveness: a request that cannot fit even in the whole heap fails
    // with an empty result, and the allocator is untouched.
    let mut a = fresh(4096);
    let r = a.allocate(4097, 4);
    assert_eq!(r, None);
    assert_eq!(a.free.len(), 1);
    assert_eq!(a.free[0].size, 4096);
}

#[test]
fn allocation_splits_region_and_reinserts_tail() {
    let mut a = fresh(4096);
    let r = a.allocate(64, 4);
    assert_eq!(r, Some(HEAP_START));
    assert_eq!(a.free.len(), 1);
    assert_eq!(a.free[0].start, HEAP_START + 64);
    assert_eq!(a.free[0].size, 4096 - 64);
}

#[test]
fn small_tail_is_absorbed_into_the_allocation() {
    // A leftover smaller than one header never stays behind as an
    // unusable fragment: the allocation absorbs it.
    let mut a = fresh(20);
    let r = a.allocate(16, 4);
    assert_eq!(r, Some(HEAP_START));
    assert_eq!(a.free.len(), 0);
}

#[test]
fn no_coalesce_on_free() {
    // Two adjacent blocks, freed one after the other, come back as two
    // free nodes, not one merged node.
    let mut a = fresh(32);
    let first = a.allocate(16, 4).unwrap();
    let second = a.allocate(16, 4).unwrap();
    assert_eq!(first, HEAP_START);
    assert_eq!(second, HEAP_START + 16);
    assert_eq!(a.free.len(), 0);
    a.deallocate(first, 16, 4);
    a.deallocate(second, 16, 4);
    assert_eq!(a.free.len(), 2);
    // Freed ranges sit at the head of the list, most recent first.
    assert_eq!(a.free[0].start, HEAP_START + 16);
    assert_eq!(a.free[0].size, 16);
    assert_eq!(a.free[1].start, HEAP_START);
    assert_eq!(a.free[1].size, 16);
}

#[test]
fn freed_memory_is_served_again() {
    let mut a = fresh(32);
    let first = a.allocate(16, 4).unwrap();
    let _second = a.allocate(16, 4).unwrap();
    assert_eq!(a.allocate(8, 4), None);
    a.deallocate(first, 16, 4);
    assert_eq!(a.allocate(8, 4), Some(first));
}

fn overlap(a: (usize, usize), b: (usize, usize)) -> bool {
    a.0 < b.0 + b.1 && b.0 < a.0 + a.1
}

#[test]
fn live_allocations_never_overlap() {
    // Non-overlap across a mixed sequence of allocations and frees.
    let mut a = fresh(4096);
    let mut live: Vec<(usize, usize)> = Vec::new();
    let requests = [(40usize, 4usize), (16, 8), (100, 4), (8, 16), (64, 32)];
    for &(size, align) in requests.iter() {
        let got = a.allocate(size, align).unwrap();
        let (rsize, _) = LinkedListAllocator::size_align(size, align);
        live.push((got, rsize));
    }
    // Free one in the middle, then allocate more.
    let (addr, _) = live.remove(2);
    a.deallocate(addr, 100, 4);
    let got = a.allocate(24, 4).unwrap();
    live.push((got, LinkedListAllocator::size_align(24, 4).0));
    let got = a.allocate(48, 8).unwrap();
    live.push((got, LinkedListAllocator::size_align(48, 8).0));
    for i in 0..live.len() {
        for j in 0..live.len() {
            if i != j {
                assert!(!overlap(live[i], live[j]));
            }
        }
    }
}

#[test]
fn first_fit_takes_the_first_region_from_the_head() {
    let mut a = fresh(64);
    let first = a.allocate(16, 4).unwrap();
    let second = a.allocate(16, 4).unwrap();
    let third = a.allocate(32, 4).unwrap();
    a.deallocate(first, 16, 4);
    a.deallocate(third, 32, 4);
    // Free list head is the most recently freed (the 32-byte range):
    // first fit serves a 16-byte request from it, not from the exact
    // 16-byte hole behind it.
    assert_eq!(a.allocate(16, 4), Some(third));
    let _ = second;
}

#[test]
fn alloc_from_region_respects_alignment() {
    let region = ListNode::new(HEAP_START + 4, 60);
    assert_eq!(
        LinkedListAllocator::alloc_from_region(&region, 16, 16),
        Ok(HEAP_START + 16)
    );
    let snug = ListNode::new(HEAP_START, 16);
    assert_eq!(LinkedListAllocator::alloc_from_region(&snug, 16, 4), Ok(HEAP_START));
    assert_eq!(LinkedListAllocator::alloc_from_region(&snug, 17, 4), Err(()));
}

#[test]
fn node_addresses() {
    let n = ListNode::new(0x100, 0x40);
    assert_eq!(n.start_addr(), 0x100);
    assert_eq!(n.end_addr(), 0x140);
}
