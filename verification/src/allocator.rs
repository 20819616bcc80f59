//! The kernel heap bring-up plan: one page for every frame-sized chunk of
//! the fixed heap range, each paired with a freshly allocated physical frame
//! and the Present and Writable flags.
//!
//! Installing these mappings in the page table, flushing the TLB and handing
//! the mapped range to the general-purpose free-list allocator are
//! raw-memory work done outside this crate; a failed frame allocation is the
//! one error this plan can report.
use vstd::prelude::*;

use crate::memory::{
    FRAME_SIZE, MemoryRegionsFrameAllocator, seq_nth, usable_frames, usable_regions_aligned,
    usable_regions_disjoint, MemoryRegion,
};

verus! {

/// First virtual address of the kernel heap.
pub const HEAP_START: u64 = 0x4444_4444_0000;

/// Size of the kernel heap in bytes (100 KiB).
pub const HEAP_SIZE: u64 = 100 * 1024;

/// How many pages cover the heap range.
pub const HEAP_PAGE_COUNT: usize = 25;

/// Page-table flag bit: the entry is present.
pub const FLAG_PRESENT: u64 = 1;

/// Page-table flag bit: the page is writable.
pub const FLAG_WRITABLE: u64 = 2;

/// The flags every heap page is mapped with.
pub const HEAP_PAGE_FLAGS: u64 = FLAG_PRESENT | FLAG_WRITABLE;

/// `a` lies inside the heap's virtual address range.
pub open spec fn heap_address(a: int) -> bool {
    HEAP_START <= a < HEAP_START + HEAP_SIZE
}

/// One entry of the heap mapping plan: map the page starting at `page` to
/// the physical frame starting at `frame` with the given flags.
#[derive(Clone, Copy, PartialEq, Eq, Structural, Debug)]
pub struct PageMapping {
    pub page: u64,
    pub frame: u64,
    pub flags: u64,
}

/// Why heap bring-up can fail.
#[derive(Clone, Copy, PartialEq, Eq, Structural, Debug)]
pub enum HeapInitError {
    /// The frame allocator ran out of usable frames.
    FrameAllocationFailed,
}

/// Compute the heap mapping plan: for every page covering the heap range,
/// in ascending address order, take the next frame from the allocator and
/// pair it with the page and the Present and Writable flags. Fails exactly
/// when the allocator's enumeration runs out before every page has a frame.
pub fn init_heap(frame_allocator: &mut MemoryRegionsFrameAllocator) -> (r: Result<
    Vec<PageMapping>,
    HeapInitError,
>)
    requires
        old(frame_allocator).spec_next() + HEAP_PAGE_COUNT < usize::MAX,
    ensures
        final(frame_allocator).spec_regions() == old(frame_allocator).spec_regions(),
        match r {
            Ok(v) => {
                &&& v@.len() == HEAP_PAGE_COUNT
                &&& final(frame_allocator).spec_next() == old(frame_allocator).spec_next()
                    + HEAP_PAGE_COUNT
                &&& forall|i: int|
                    0 <= i < v@.len() ==> (#[trigger] v@[i]).page == HEAP_START + i * FRAME_SIZE
                &&& forall|i: int| 0 <= i < v@.len() ==> (#[trigger] v@[i]).flags == HEAP_PAGE_FLAGS
                &&& forall|i: int|
                    0 <= i < v@.len() ==> seq_nth(
                        usable_frames(old(frame_allocator).spec_regions()),
                        old(frame_allocator).spec_next() + i,
                    ) == Some((#[trigger] v@[i]).frame as int)
                &&& old(frame_allocator).spec_next() + HEAP_PAGE_COUNT <= usable_frames(
                    old(frame_allocator).spec_regions(),
                ).len()
            },
            Err(e) => {
                &&& e == HeapInitError::FrameAllocationFailed
                &&& usable_frames(old(frame_allocator).spec_regions()).len() < old(
                    frame_allocator,
                ).spec_next() + HEAP_PAGE_COUNT
            },
        },
{
    let mut mappings: Vec<PageMapping> = Vec::new();
    let mut i: usize = 0;
    while i < HEAP_PAGE_COUNT
        invariant
            old(frame_allocator).spec_next() + HEAP_PAGE_COUNT < usize::MAX,
            frame_allocator.spec_regions() == old(frame_allocator).spec_regions(),
            frame_allocator.spec_next() == old(frame_allocator).spec_next() + i,
            i <= HEAP_PAGE_COUNT,
            mappings@.len() == i,
            forall|j: int|
                0 <= j < i ==> (#[trigger] mappings@[j]).page == HEAP_START + j * FRAME_SIZE,
            forall|j: int| 0 <= j < i ==> (#[trigger] mappings@[j]).flags == HEAP_PAGE_FLAGS,
            forall|j: int|
                0 <= j < i ==> seq_nth(
                    usable_frames(old(frame_allocator).spec_regions()),
                    old(frame_allocator).spec_next() + j,
                ) == Some((#[trigger] mappings@[j]).frame as int),
        decreases HEAP_PAGE_COUNT - i,
    {
        let ghost fa_pre = *frame_allocator;
        let allocated = frame_allocator.allocate_frame();
        if allocated.is_none() {
            proof {
                assert(fa_pre.spec_regions() == old(frame_allocator).spec_regions());
                assert(fa_pre.spec_next() == old(frame_allocator).spec_next() + i);
                assert(seq_nth(usable_frames(fa_pre.spec_regions()), fa_pre.spec_next() as int)
                    is None);
                assert(fa_pre.spec_next() >= 0);
                assert(usable_frames(old(frame_allocator).spec_regions()).len() <= old(
                    frame_allocator,
                ).spec_next() + i);
            }
            return Err(HeapInitError::FrameAllocationFailed);
        }
        let frame = allocated.unwrap();
        let page = HEAP_START + (i as u64) * FRAME_SIZE;
        mappings.push(PageMapping { page, frame, flags: HEAP_PAGE_FLAGS });
        i = i + 1;
    }
    proof {
        assert(seq_nth(
            usable_frames(old(frame_allocator).spec_regions()),
            old(frame_allocator).spec_next() + HEAP_PAGE_COUNT - 1,
        ) == Some(mappings@[HEAP_PAGE_COUNT - 1].frame as int));
    }
    Ok(mappings)
}

/// The plan's pages tile the heap range: they are pairwise distinct, every
/// heap address falls inside some planned page, and the planned pages cover
/// at least the heap size in bytes.
pub proof fn lemma_heap_plan_covers(v: Seq<PageMapping>)
    requires
        v.len() == HEAP_PAGE_COUNT,
        forall|i: int| 0 <= i < v.len() ==> (#[trigger] v[i]).page == HEAP_START + i * FRAME_SIZE,
    ensures
        forall|i: int, j: int| 0 <= i < j < v.len() ==> v[i].page != v[j].page,
        forall|a: int|
            #[trigger] heap_address(a) ==> exists|i: int|
                0 <= i < v.len() && (#[trigger] v[i]).page <= a < v[i].page + FRAME_SIZE,
        v.len() * FRAME_SIZE >= HEAP_SIZE,
{
    let f = FRAME_SIZE as int;
    assert forall|i: int, j: int| 0 <= i < j < v.len() implies v[i].page != v[j].page by {
        assert(i * f < j * f) by (nonlinear_arith)
            requires
                i < j,
                f > 0,
        ;
    }
    assert forall|a: int| #[trigger] heap_address(a) implies exists|i: int|
        0 <= i < v.len() && (#[trigger] v[i]).page <= a < v[i].page + FRAME_SIZE by {
        let q = (a - HEAP_START) / f;
        vstd::arithmetic::div_mod::lemma_fundamental_div_mod(a - HEAP_START, f);
        vstd::arithmetic::div_mod::lemma_mod_bound(a - HEAP_START, f);
        assert(a - HEAP_START == f * q + (a - HEAP_START) % f);
        assert(0 <= q < 25) by (nonlinear_arith)
            requires
                0 <= a - HEAP_START < 102400,
                f == 4096,
                0 <= (a - HEAP_START) % f < f,
                a - HEAP_START == f * q + (a - HEAP_START) % f,
        ;
        assert(v[q].page == HEAP_START + q * f);
        assert(q * f == f * q) by (nonlinear_arith);
        assert(v[q].page <= a < v[q].page + f);
    }
}

/// The frames the plan drew from the allocator are pairwise distinct,
/// because they are consecutive entries of the usable-frame enumeration of
/// an aligned, non-overlapping memory map.
pub proof fn lemma_heap_plan_frames_distinct(
    regions: Seq<MemoryRegion>,
    start: int,
    v: Seq<PageMapping>,
)
    requires
        usable_regions_aligned(regions),
        usable_regions_disjoint(regions),
        0 <= start,
        forall|i: int|
            0 <= i < v.len() ==> seq_nth(usable_frames(regions), start + i) == Some(
                (#[trigger] v[i]).frame as int,
            ),
    ensures
        forall|i: int, j: int| 0 <= i < j < v.len() ==> v[i].frame != v[j].frame,
{
    crate::memory::lemma_usable_frames_distinct(regions);
    assert forall|i: int, j: int| 0 <= i < j < v.len() implies v[i].frame != v[j].frame by {
        assert(seq_nth(usable_frames(regions), start + i) == Some(v[i].frame as int));
        assert(seq_nth(usable_frames(regions), start + j) == Some(v[j].frame as int));
        assert(usable_frames(regions)[start + i] != usable_frames(regions)[start + j]);
    }
}

} // verus!
