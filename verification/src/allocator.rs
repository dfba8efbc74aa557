//! Free-list heap allocator.
//!
//! The allocator owns one heap region and keeps the free space as a list
//! of `(start, size)` byte ranges; the live (handed-out) ranges are
//! tracked in a ghost set. On the target the free list is threaded
//! through the free memory itself, each free block starting with a small
//! header; here an address is a plain `usize` and the header only shows
//! up as a minimum size and alignment every free range must keep, so
//! that any freed range can host a header again.
//!
//! Freed ranges go back to the head of the list unchanged: adjacent free
//! ranges are never coalesced. The allocator backs long-lived thread
//! stacks, so fragmentation from that is tolerated by design.

use vstd::arithmetic::div_mod::{
    lemma_add_mod_noop, lemma_fundamental_div_mod, lemma_mod_multiples_basic, lemma_mod_pos_bound,
    lemma_small_mod, lemma_sub_mod_noop,
};
use vstd::prelude::*;

verus! {

/// Bytes a free-block header occupies on the target; no free range may
/// be smaller.
pub const NODE_SIZE: usize = 8;

/// Alignment of a free-block header; every free range starts on it.
pub const NODE_ALIGN: usize = 4;

/// `a` is a power of two (the only alignments a layout can carry).
pub open spec fn is_pow2(a: usize) -> bool {
    a >= 1 && (a & ((a - 1) as usize)) == 0
}

/// The least multiple of `align` that is at least `addr`.
pub open spec fn spec_align_up(addr: int, align: int) -> int {
    ((addr + align - 1) / align) * align
}

/// `spec_align_up` rounds up by less than one `align` and lands on a
/// multiple of `align`.
pub proof fn lemma_align_up_props(addr: int, align: int)
    requires
        align >= 1,
        addr >= 0,
    ensures
        addr <= spec_align_up(addr, align) < addr + align,
        spec_align_up(addr, align) % align == 0,
{
    let s = addr + align - 1;
    lemma_fundamental_div_mod(s, align);
    lemma_mod_pos_bound(s, align);
    lemma_mod_multiples_basic(s / align, align);
    assert(align * (s / align) == (s / align) * align) by (nonlinear_arith);
}

/// Any multiple of `align` in the window `[addr, addr + align)` is the
/// round-up of `addr`: the round-up is unique.
pub proof fn lemma_align_up_unique(addr: int, align: int, r: int)
    requires
        align >= 1,
        addr >= 0,
        addr <= r < addr + align,
        r % align == 0,
    ensures
        r == spec_align_up(addr, align),
{
    lemma_align_up_props(addr, align);
    let u = spec_align_up(addr, align);
    if r >= u {
        lemma_sub_mod_noop(r, u, align);
        lemma_mod_pos_bound(r - u, align);
        lemma_small_mod((r - u) as nat, align as nat);
    } else {
        lemma_sub_mod_noop(u, r, align);
        lemma_mod_pos_bound(u - r, align);
        lemma_small_mod((u - r) as nat, align as nat);
    }
}

/// Rounds `addr` up to the next multiple of `align`.
pub fn align_up(addr: usize, align: usize) -> (r: usize)
    requires
        align >= 1,
        addr + align - 1 <= usize::MAX,
    ensures
        r == spec_align_up(addr as int, align as int),
{
    let rem = addr % align;
    let r = if rem == 0 {
        addr
    } else {
        addr + (align - rem)
    };
    proof {
        lemma_fundamental_div_mod(addr as int, align as int);
        lemma_mod_multiples_basic(
            addr as int / align as int + if rem == 0 { 0int } else { 1int },
            align as int,
        );
        assert(r as int % align as int == 0) by (nonlinear_arith)
            requires
                align >= 1,
                addr as int == align as int * (addr as int / align as int) + rem as int,
                rem as int == addr as int % align as int,
                0 <= rem < align,
                r as int == addr as int + if rem == 0 { 0int } else { align - rem },
        ;
        lemma_align_up_unique(addr as int, align as int, r as int);
    }
    r
}

/// Divisibility is transitive: if `b` divides `x` and `a` divides `b`,
/// then `a` divides `x`.
pub proof fn lemma_mod_trans(x: int, a: int, b: int)
    requires
        a >= 1,
        b >= 1,
        x >= 0,
        x % b == 0,
        b % a == 0,
    ensures
        x % a == 0,
{
    lemma_fundamental_div_mod(x, b);
    lemma_fundamental_div_mod(b, a);
    assert(x == a * ((b / a) * (x / b))) by (nonlinear_arith)
        requires
            x == b * (x / b),
            b == a * (b / a),
    ;
    lemma_mod_multiples_basic((b / a) * (x / b), a);
    assert(a * ((b / a) * (x / b)) == ((b / a) * (x / b)) * a) by (nonlinear_arith);
}

/// Header of a free block: the byte range `[start, start + size)`.
///
/// On the target the header sits in the first bytes of the block itself
/// and carries only `size`; its own address is the block's start. Here
/// the start is carried as a value.
#[derive(Clone, Copy, PartialEq, Eq, Structural, Debug)]
pub struct ListNode {
    pub start: usize,
    pub size: usize,
}

impl ListNode {
    pub fn new(start: usize, size: usize) -> (r: ListNode)
        ensures
            r == (ListNode { start, size }),
    {
        ListNode { start, size }
    }

    /// First byte of the block.
    pub fn start_addr(&self) -> (r: usize)
        ensures
            r == self.start,
    {
        self.start
    }

    /// One past the last byte of the block.
    pub fn end_addr(&self) -> (r: usize)
        requires
            self.start + self.size <= usize::MAX,
        ensures
            r == self.start + self.size,
    {
        self.start + self.size
    }
}

/// Byte ranges `a` and `b` do not overlap.
pub open spec fn region_disjoint(a: (usize, usize), b: (usize, usize)) -> bool {
    a.0 + a.1 <= b.0 || b.0 + b.1 <= a.0
}

/// The byte range a free-list node describes.
pub open spec fn node_region(n: ListNode) -> (usize, usize) {
    (n.start, n.size)
}

/// An aligned request `(size, align)` fits in the free block `n`: the
/// block has room for `size` bytes starting at the first `align`-aligned
/// address in it.
pub open spec fn region_fits(n: ListNode, size: int, align: int) -> bool {
    spec_align_up(n.start as int, align) + size <= n.start + n.size
}

/// The alignment actually served for a requested alignment: at least
/// the header's own.
pub open spec fn spec_ralign(align: int) -> int {
    if align >= NODE_ALIGN { align } else { NODE_ALIGN as int }
}

/// The size actually served for a request: padded to the served
/// alignment and at least one header.
pub open spec fn spec_rsize(size: int, align: int) -> int {
    let padded = spec_align_up(size, spec_ralign(align));
    if padded >= NODE_SIZE { padded } else { NODE_SIZE as int }
}

/// First-fit free-list allocator over one heap region.
pub struct LinkedListAllocator {
    /// Free ranges; index 0 is the head of the on-target list.
    pub free: Vec<ListNode>,
    /// First byte of the managed heap.
    pub heap_start: usize,
    /// One past the last byte of the managed heap.
    pub heap_end: usize,
    /// The ranges currently handed out.
    pub live: Ghost<Set<(usize, usize)>>,
}

impl LinkedListAllocator {
    /// `r` lies inside the managed heap.
    pub open spec fn region_in_heap(self, r: (usize, usize)) -> bool {
        self.heap_start <= r.0 && r.0 + r.1 <= self.heap_end
    }

    /// A free block is inside the heap, can host a header, and starts
    /// header-aligned.
    pub open spec fn free_node_ok(self, n: ListNode) -> bool {
        &&& self.region_in_heap(node_region(n))
        &&& n.size >= NODE_SIZE
        &&& n.start as int % NODE_ALIGN as int == 0
    }

    /// A live range is inside the heap, can host a header once freed,
    /// and starts header-aligned.
    pub open spec fn live_ok(self, r: (usize, usize)) -> bool {
        &&& self.region_in_heap(r)
        &&& r.1 >= NODE_SIZE
        &&& r.0 as int % NODE_ALIGN as int == 0
    }

    /// Well-formed allocator: every free block and live range is sound
    /// on its own, and no two of them overlap.
    pub open spec fn wf(self) -> bool {
        &&& self.heap_start <= self.heap_end
        &&& forall|i: int|
            0 <= i < self.free@.len() ==> self.free_node_ok(#[trigger] self.free@[i])
        &&& forall|i: int, j: int|
            0 <= i < j < self.free@.len() ==> region_disjoint(
                node_region(#[trigger] self.free@[i]),
                node_region(#[trigger] self.free@[j]),
            )
        &&& forall|r: (usize, usize)| self.live@.contains(r) ==> self.live_ok(r)
        &&& forall|r1: (usize, usize), r2: (usize, usize)|
            self.live@.contains(r1) && self.live@.contains(r2) && r1 != r2 ==> region_disjoint(
                r1,
                r2,
            )
        &&& forall|i: int, r: (usize, usize)|
            #![trigger self.free@[i], self.live@.contains(r)]
            0 <= i < self.free@.len() && self.live@.contains(r) ==> region_disjoint(
                node_region(self.free@[i]),
                r,
            )
    }

    /// An empty allocator that manages no memory yet.
    pub fn new() -> (r: LinkedListAllocator)
        ensures
            r.free@ == Seq::<ListNode>::empty(),
            r.live@ == Set::<(usize, usize)>::empty(),
            r.heap_start == 0,
            r.heap_end == 0,
            r.wf(),
    {
        LinkedListAllocator {
            free: Vec::new(),
            heap_start: 0,
            heap_end: 0,
            live: Ghost(Set::empty()),
        }
    }

    /// Installs the initial free region. One-time: the allocator must
    /// still be empty.
    pub fn init(&mut self, heap_start: usize, heap_size: usize)
        requires
            old(self).free@.len() == 0,
            old(self).live@ == Set::<(usize, usize)>::empty(),
            heap_start as int % NODE_ALIGN as int == 0,
            heap_size >= NODE_SIZE,
            heap_start + heap_size <= usize::MAX,
        ensures
            final(self).heap_start == heap_start,
            final(self).heap_end == heap_start + heap_size,
            final(self).free@ == seq![ListNode { start: heap_start, size: heap_size }],
            final(self).live@ == old(self).live@,
            final(self).wf(),
    {
        self.heap_start = heap_start;
        self.heap_end = heap_start + heap_size;
        self.add_free_region(heap_start, heap_size);
        assert(self.free@ == seq![ListNode { start: heap_start, size: heap_size }]);
    }

    /// Puts the range `[addr, addr + size)` at the head of the free
    /// list; a range too small to host a header is silently dropped.
    fn add_free_region(&mut self, addr: usize, size: usize)
        requires
            old(self).wf(),
            addr as int % NODE_ALIGN as int == 0,
            old(self).heap_start <= addr,
            addr + size <= old(self).heap_end,
            forall|i: int|
                0 <= i < old(self).free@.len() ==> region_disjoint(
                    (addr, size),
                    node_region(#[trigger] old(self).free@[i]),
                ),
            forall|r: (usize, usize)|
                old(self).live@.contains(r) ==> region_disjoint((addr, size), r),
        ensures
            final(self).heap_start == old(self).heap_start,
            final(self).heap_end == old(self).heap_end,
            final(self).live@ == old(self).live@,
            size >= NODE_SIZE ==> final(self).free@ == seq![ListNode { start: addr, size }]
                + old(self).free@,
            size < NODE_SIZE ==> final(self).free@ == old(self).free@,
            final(self).wf(),
    {
        if size >= NODE_SIZE {
            self.free.insert(0, ListNode { start: addr, size });
            proof {
                let f = self.free@;
                let o = old(self).free@;
                assert(f == seq![ListNode { start: addr, size }] + o);
                assert forall|i: int| 0 <= i < f.len() implies self.free_node_ok(#[trigger] f[i]) by {
                    if i > 0 {
                        assert(f[i] == o[i - 1]);
                        assert(old(self).free_node_ok(o[i - 1]));
                    }
                }
                assert forall|i: int, j: int| 0 <= i < j < f.len() implies region_disjoint(
                    node_region(#[trigger] f[i]),
                    node_region(#[trigger] f[j]),
                ) by {
                    assert(f[j] == o[j - 1]);
                    if i > 0 {
                        assert(f[i] == o[i - 1]);
                    }
                }
                assert forall|i: int, r: (usize, usize)|
                    #![trigger f[i], self.live@.contains(r)]
                    0 <= i < f.len() && self.live@.contains(r) implies region_disjoint(
                    node_region(f[i]),
                    r,
                ) by {
                    assert(old(self).live@.contains(r));
                    if i > 0 {
                        assert(f[i] == o[i - 1]);
                    }
                }
            }
        }
        proof {
            assert forall|r: (usize, usize)| self.live@.contains(r) implies self.live_ok(r) by {
                assert(old(self).live@.contains(r));
                assert(old(self).live_ok(r));
            }
            assert forall|r1: (usize, usize), r2: (usize, usize)|
                self.live@.contains(r1) && self.live@.contains(r2) && r1 != r2 implies region_disjoint(
                r1,
                r2,
            ) by {
                assert(old(self).live@.contains(r1));
                assert(old(self).live@.contains(r2));
            }
        }
    }

    /// Whether `[alloc_start, alloc_start + size)` with
    /// `alloc_start = align_up(region.start, align)` fits in `region`;
    /// on success returns `alloc_start`.
    pub fn alloc_from_region(region: &ListNode, size: usize, align: usize) -> (r: Result<
        usize,
        (),
    >)
        requires
            align >= 1,
            region.start + region.size <= usize::MAX,
        ensures
            r is Ok <==> region_fits(*region, size as int, align as int),
            r matches Ok(a) ==> a == spec_align_up(region.start as int, align as int),
    {
        proof {
            lemma_align_up_props(region.start as int, align as int);
        }
        let rem = region.start % align;
        let offset = if rem == 0 {
            0
        } else {
            align - rem
        };
        proof {
            lemma_fundamental_div_mod(region.start as int, align as int);
            lemma_mod_multiples_basic(
                region.start as int / align as int + if rem == 0 { 0int } else { 1int },
                align as int,
            );
            assert((region.start + offset) as int % align as int == 0) by (nonlinear_arith)
                requires
                    align >= 1,
                    region.start as int == align as int * (region.start as int / align as int)
                        + rem as int,
                    rem as int == region.start as int % align as int,
                    0 <= rem < align,
                    offset == if rem == 0 { 0int } else { align - rem },
            ;
            lemma_align_up_unique(
                region.start as int,
                align as int,
                region.start as int + offset as int,
            );
        }
        let alloc_start = match region.start.checked_add(offset) {
            Some(s) => s,
            None => {
                return Err(());
            },
        };
        let alloc_end = match alloc_start.checked_add(size) {
            Some(e) => e,
            None => {
                return Err(());
            },
        };
        if alloc_end > region.start + region.size {
            Err(())
        } else {
            Ok(alloc_start)
        }
    }

    /// Scans the free list from the head and removes and returns the
    /// first block the request fits in, with the aligned start address
    /// to serve.
    pub fn find_region(&mut self, size: usize, align: usize) -> (r: Option<(ListNode, usize)>)
        requires
            old(self).wf(),
            align >= 1,
        ensures
            final(self).heap_start == old(self).heap_start,
            final(self).heap_end == old(self).heap_end,
            final(self).live@ == old(self).live@,
            final(self).wf(),
            r is None ==> *final(self) == *old(self) && forall|i: int|
                0 <= i < final(self).free@.len() ==> !region_fits(
                    #[trigger] final(self).free@[i],
                    size as int,
                    align as int,
                ),
            r matches Some((node, alloc_start)) ==> exists|i: int|
                {
                    &&& 0 <= i < old(self).free@.len()
                    &&& node == old(self).free@[i]
                    &&& region_fits(node, size as int, align as int)
                    &&& forall|j: int|
                        0 <= j < i ==> !region_fits(
                            #[trigger] old(self).free@[j],
                            size as int,
                            align as int,
                        )
                    &&& final(self).free@ == old(self).free@.remove(i)
                    &&& alloc_start == spec_align_up(node.start as int, align as int)
                },
    {
        let mut i: usize = 0;
        while i < self.free.len()
            invariant
                old(self).wf(),
                *self == *old(self),
                align >= 1,
                0 <= i <= self.free@.len(),
                forall|j: int|
                    0 <= j < i ==> !region_fits(
                        #[trigger] self.free@[j],
                        size as int,
                        align as int,
                    ),
            decreases self.free@.len() - i,
        {
            let region = &self.free[i];
            match Self::alloc_from_region(region, size, align) {
                Ok(alloc_start) => {
                    let node = self.free.remove(i);
                    proof {
                        let f = self.free@;
                        let o = old(self).free@;
                        let ii = i as int;
                        assert(f == o.remove(ii));
                        assert forall|p: int| 0 <= p < f.len() implies self.free_node_ok(
                            #[trigger] f[p],
                        ) by {
                            if p < ii {
                                assert(f[p] == o[p]);
                            } else {
                                assert(f[p] == o[p + 1]);
                            }
                        }
                        assert forall|p: int, q: int| 0 <= p < q < f.len() implies region_disjoint(
                            node_region(#[trigger] f[p]),
                            node_region(#[trigger] f[q]),
                        ) by {
                            if p < ii {
                                assert(f[p] == o[p]);
                            } else {
                                assert(f[p] == o[p + 1]);
                            }
                            if q < ii {
                                assert(f[q] == o[q]);
                            } else {
                                assert(f[q] == o[q + 1]);
                            }
                        }
                        assert forall|p: int, r: (usize, usize)|
                            #![trigger f[p], self.live@.contains(r)]
                            0 <= p < f.len() && self.live@.contains(r) implies region_disjoint(
                            node_region(f[p]),
                            r,
                        ) by {
                            assert(old(self).live@.contains(r));
                            if p < ii {
                                assert(f[p] == o[p]);
                            } else {
                                assert(f[p] == o[p + 1]);
                            }
                        }
                        assert forall|r: (usize, usize)| self.live@.contains(r)
                            implies self.live_ok(r) by {
                            assert(old(self).live@.contains(r));
                            assert(old(self).live_ok(r));
                        }
                        assert forall|r1: (usize, usize), r2: (usize, usize)|
                            self.live@.contains(r1) && self.live@.contains(r2) && r1 != r2
                            implies region_disjoint(r1, r2) by {
                            assert(old(self).live@.contains(r1));
                            assert(old(self).live@.contains(r2));
                        }
                    }
                    return Some((node, alloc_start));
                },
                Err(()) => {
                    i = i + 1;
                },
            }
        }
        None
    }

    /// Adjusts a request so the block handed out can later host a free
    /// header: the alignment becomes at least the header's, the size is
    /// padded to that alignment and to at least one header.
    pub fn size_align(size: usize, align: usize) -> (r: (usize, usize))
        requires
            is_pow2(align),
            size + align + NODE_ALIGN <= usize::MAX,
        ensures
            r.0 == spec_rsize(size as int, align as int),
            r.1 == spec_ralign(align as int),
            r.0 >= NODE_SIZE,
            r.1 >= NODE_ALIGN,
            is_pow2(r.1),
            r.0 as int % NODE_ALIGN as int == 0,
            r.1 as int % NODE_ALIGN as int == 0,
    {
        let ralign = if align >= NODE_ALIGN {
            align
        } else {
            NODE_ALIGN
        };
        proof {
            assert(is_pow2(ralign) && ralign % NODE_ALIGN == 0) by (bit_vector)
                requires
                    ralign == if align >= 4usize {
                        align
                    } else {
                        4usize
                    },
                    align >= 1,
                    (align & ((align - 1) as usize)) == 0,
            ;
            lemma_align_up_props(size as int, ralign as int);
        }
        let padded = align_up(size, ralign);
        let rsize = if padded >= NODE_SIZE {
            padded
        } else {
            NODE_SIZE
        };
        proof {
            if padded >= NODE_SIZE {
                lemma_mod_trans(padded as int, NODE_ALIGN as int, ralign as int);
            }
        }
        (rsize, ralign)
    }

    /// Serves `size` bytes aligned to `align`, first-fit from the head
    /// of the free list; `None` exactly when no free block can hold the
    /// adjusted request. The start of the block handed out never
    /// overlaps any range still live.
    pub fn allocate(&mut self, size: usize, align: usize) -> (r: Option<usize>)
        requires
            old(self).wf(),
            is_pow2(align),
            size + align + NODE_ALIGN <= usize::MAX,
        ensures
            final(self).wf(),
            final(self).heap_start == old(self).heap_start,
            final(self).heap_end == old(self).heap_end,
            r is Some <==> exists|i: int|
                0 <= i < old(self).free@.len() && region_fits(
                    #[trigger] old(self).free@[i],
                    spec_rsize(size as int, align as int),
                    spec_ralign(align as int),
                ),
            r is None ==> *final(self) == *old(self),
            r matches Some(a) ==> {
                let rsize = spec_rsize(size as int, align as int);
                &&& a as int % spec_ralign(align as int) == 0
                &&& old(self).heap_start <= a
                &&& a + rsize <= old(self).heap_end
                &&& final(self).live@ == old(self).live@.insert((a, rsize as usize))
                &&& forall|q: (usize, usize)|
                    old(self).live@.contains(q) ==> region_disjoint((a, rsize as usize), q)
            },
            r matches Some(a) ==> exists|i: int|
                #![trigger old(self).free@[i]]
                {
                    let rsize = spec_rsize(size as int, align as int);
                    let node = old(self).free@[i];
                    let excess = node.start + node.size - (a + rsize);
                    &&& 0 <= i < old(self).free@.len()
                    &&& a == spec_align_up(node.start as int, spec_ralign(align as int))
                    &&& forall|j: int|
                        0 <= j < i ==> !region_fits(
                            #[trigger] old(self).free@[j],
                            rsize,
                            spec_ralign(align as int),
                        )
                    &&& excess >= NODE_SIZE ==> final(self).free@ == seq![
                        ListNode { start: (a + rsize) as usize, size: excess as usize },
                    ] + old(self).free@.remove(i)
                    &&& excess < NODE_SIZE ==> final(self).free@ == old(self).free@.remove(i)
                },
    {
        let (rsize, ralign) = Self::size_align(size, align);
        match self.find_region(rsize, ralign) {
            None => None,
            Some((node, alloc_start)) => {
                let ghost o = old(self).free@;
                let ghost ii = choose|i: int|
                    {
                        &&& 0 <= i < o.len()
                        &&& node == o[i]
                        &&& region_fits(node, rsize as int, ralign as int)
                        &&& forall|j: int|
                            0 <= j < i ==> !region_fits(
                                #[trigger] o[j],
                                rsize as int,
                                ralign as int,
                            )
                        &&& self.free@ == o.remove(i)
                        &&& alloc_start == spec_align_up(node.start as int, ralign as int)
                    };
                let ghost f1 = self.free@;
                proof {
                    assert(old(self).free_node_ok(o[ii]));
                    lemma_align_up_props(node.start as int, ralign as int);
                    lemma_mod_trans(alloc_start as int, NODE_ALIGN as int, ralign as int);
                }
                let alloc_end = alloc_start + rsize;
                let excess = node.start + node.size - alloc_end;
                proof {
                    lemma_add_mod_noop(alloc_start as int, rsize as int, NODE_ALIGN as int);
                    assert forall|p: int| 0 <= p < f1.len() implies region_disjoint(
                        (alloc_end, excess),
                        node_region(#[trigger] f1[p]),
                    ) by {
                        if p < ii {
                            assert(f1[p] == o[p]);
                        } else {
                            assert(f1[p] == o[p + 1]);
                        }
                        assert(region_disjoint(node_region(node), node_region(f1[p])));
                    }
                    assert forall|q: (usize, usize)| self.live@.contains(q) implies
                        region_disjoint((alloc_end, excess), q) by {
                        assert(region_disjoint(node_region(o[ii]), q));
                    }
                }
                if excess > 0 {
                    self.add_free_region(alloc_end, excess);
                }
                proof {
                    let f2 = self.free@;
                    self.live@ = self.live@.insert((alloc_start, rsize));
                    assert forall|r1: (usize, usize)| self.live@.contains(r1) implies
                        self.live_ok(r1) by {
                        if r1 != (alloc_start, rsize) {
                            assert(old(self).live@.contains(r1));
                            assert(old(self).live_ok(r1));
                        }
                    }
                    assert forall|r1: (usize, usize), r2: (usize, usize)|
                        self.live@.contains(r1) && self.live@.contains(r2) && r1 != r2
                        implies region_disjoint(r1, r2) by {
                        if r1 == (alloc_start, rsize) {
                            assert(old(self).live@.contains(r2));
                            assert(region_disjoint(node_region(o[ii]), r2));
                        } else if r2 == (alloc_start, rsize) {
                            assert(old(self).live@.contains(r1));
                            assert(region_disjoint(node_region(o[ii]), r1));
                        } else {
                            assert(old(self).live@.contains(r1));
                            assert(old(self).live@.contains(r2));
                        }
                    }
                    assert forall|p: int, r1: (usize, usize)|
                        #![trigger f2[p], self.live@.contains(r1)]
                        0 <= p < f2.len() && self.live@.contains(r1) implies region_disjoint(
                        node_region(f2[p]),
                        r1,
                    ) by {
                        let q = if excess >= NODE_SIZE { p - 1 } else { p };
                        if q >= 0 {
                            assert(f2[p] == f1[q]);
                            if q < ii {
                                assert(f1[q] == o[q]);
                            } else {
                                assert(f1[q] == o[q + 1]);
                            }
                            assert(region_disjoint(node_region(node), node_region(f1[q])));
                        }
                        if r1 != (alloc_start, rsize) {
                            assert(old(self).live@.contains(r1));
                        }
                    }
                    assert forall|p: int| 0 <= p < f2.len() implies self.free_node_ok(
                        #[trigger] f2[p],
                    ) by {
                        let q = if excess >= NODE_SIZE { p - 1 } else { p };
                        if q >= 0 {
                            assert(f2[p] == f1[q]);
                        }
                    }
                }
                Some(alloc_start)
            },
        }
    }

    /// Returns the range served for a `(size, align)` request at `addr`
    /// to the head of the free list; adjacent free ranges are not
    /// merged.
    pub fn deallocate(&mut self, addr: usize, size: usize, align: usize)
        requires
            old(self).wf(),
            is_pow2(align),
            size + align + NODE_ALIGN <= usize::MAX,
            old(self).live@.contains(
                (addr, spec_rsize(size as int, align as int) as usize),
            ),
        ensures
            final(self).wf(),
            final(self).heap_start == old(self).heap_start,
            final(self).heap_end == old(self).heap_end,
            final(self).live@ == old(self).live@.remove(
                (addr, spec_rsize(size as int, align as int) as usize),
            ),
            final(self).free@ == seq![
                ListNode {
                    start: addr,
                    size: spec_rsize(size as int, align as int) as usize,
                },
            ] + old(self).free@,
    {
        let (rsize, _ralign) = Self::size_align(size, align);
        proof {
            assert(old(self).live_ok((addr, rsize)));
            self.live@ = self.live@.remove((addr, rsize));
            assert forall|r1: (usize, usize)| self.live@.contains(r1) implies self.live_ok(
                r1,
            ) by {
                assert(old(self).live@.contains(r1));
                assert(old(self).live_ok(r1));
            }
            assert forall|q: (usize, usize)| self.live@.contains(q) implies region_disjoint(
                (addr, rsize),
                q,
            ) by {
                assert(old(self).live@.contains(q));
            }
            assert forall|i: int| 0 <= i < self.free@.len() implies region_disjoint(
                (addr, rsize),
                node_region(#[trigger] self.free@[i]),
            ) by {
                assert(old(self).live@.contains((addr, rsize)));
            }
        }
        self.add_free_region(addr, rsize);
    }
}

/// Non-overlap: two distinct live allocations of a well-formed
/// allocator never overlap, whatever sequence of allocations and
/// deallocations produced them.
pub proof fn lemma_live_non_overlap(
    a: LinkedListAllocator,
    r1: (usize, usize),
    r2: (usize, usize),
)
    requires
        a.wf(),
        a.live@.contains(r1),
        a.live@.contains(r2),
        r1 != r2,
    ensures
        region_disjoint(r1, r2),
{
}

/// Liveness of a fresh heap: one free block of `heap_size` bytes fits
/// any request whose adjusted size leaves room for the alignment slack,
/// and cannot fit one whose adjusted size exceeds the block.
pub proof fn lemma_fresh_alloc_liveness(
    heap_start: usize,
    heap_size: usize,
    size: usize,
    align: usize,
)
    requires
        is_pow2(align),
        heap_start + heap_size <= usize::MAX,
    ensures
        spec_rsize(size as int, align as int) + spec_ralign(align as int) - 1 <= heap_size
            ==> region_fits(
            ListNode { start: heap_start, size: heap_size },
            spec_rsize(size as int, align as int),
            spec_ralign(align as int),
        ),
        heap_start as int % spec_ralign(align as int) == 0 && spec_rsize(
            size as int,
            align as int,
        ) <= heap_size ==> region_fits(
            ListNode { start: heap_start, size: heap_size },
            spec_rsize(size as int, align as int),
            spec_ralign(align as int),
        ),
        spec_rsize(size as int, align as int) > heap_size ==> !region_fits(
            ListNode { start: heap_start, size: heap_size },
            spec_rsize(size as int, align as int),
            spec_ralign(align as int),
        ),
{
    let ralign = spec_ralign(align as int);
    lemma_align_up_props(heap_start as int, ralign);
    if heap_start as int % ralign == 0 {
        lemma_align_up_unique(heap_start as int, ralign, heap_start as int);
    }
}

} // verus!
