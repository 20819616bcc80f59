//! Physical frame allocation from the firmware memory map: a lazy
//! enumeration of the frame-sized steps through every usable region, and an
//! allocator that hands out the next frame of that enumeration, never
//! repeating one.
//!
//! The page-table walk that installs mappings is raw-memory work done
//! outside this crate; it consumes the frames handed out here.
use vstd::prelude::*;

verus! {

/// Size in bytes of one physical frame (and one page).
pub const FRAME_SIZE: u64 = 4096;

/// What the firmware says a region of physical memory may be used for.
#[derive(Clone, Copy, PartialEq, Eq, Structural, Debug)]
pub enum MemoryRegionKind {
    /// Free for the kernel to allocate.
    Usable,
    /// Holds the boot stage's own data.
    Bootloader,
    /// Reserved by firmware or devices.
    Reserved,
}

/// One entry of the firmware memory map: the half-open physical address
/// range `[start, end)` and its kind.
#[derive(Clone, Copy, PartialEq, Eq, Structural, Debug)]
pub struct MemoryRegion {
    pub start: u64,
    pub end: u64,
    pub kind: MemoryRegionKind,
}

/// How many frame-sized steps from `start` stay below `end`.
pub open spec fn region_frame_count(r: MemoryRegion) -> int {
    if r.start < r.end {
        (r.end - r.start - 1) / (FRAME_SIZE as int) + 1
    } else {
        0
    }
}

/// The frame containing an address: the address rounded down to frame
/// alignment.
pub open spec fn frame_containing(addr: int) -> int {
    addr - addr % (FRAME_SIZE as int)
}

/// The frames enumerated inside one region: step by the frame size from the
/// region's start while below its end, rounding each address down to its
/// containing frame. Only usable regions contribute.
pub open spec fn region_frames(r: MemoryRegion) -> Seq<int> {
    if r.kind == MemoryRegionKind::Usable {
        Seq::new(
            region_frame_count(r) as nat,
            |k: int| frame_containing(r.start + k * FRAME_SIZE),
        )
    } else {
        Seq::empty()
    }
}

/// Every frame the allocator will ever hand out, in order: the regions'
/// frame enumerations concatenated.
pub open spec fn usable_frames(regions: Seq<MemoryRegion>) -> Seq<int>
    decreases regions.len(),
{
    if regions.len() == 0 {
        Seq::empty()
    } else {
        region_frames(regions[0]) + usable_frames(regions.drop_first())
    }
}

/// The element of `s` at position `n`, if there is one.
pub open spec fn seq_nth(s: Seq<int>, n: int) -> Option<int> {
    if 0 <= n < s.len() {
        Some(s[n])
    } else {
        None
    }
}

/// Every usable region starts on a frame boundary.
pub open spec fn usable_regions_aligned(regions: Seq<MemoryRegion>) -> bool {
    forall|i: int|
        0 <= i < regions.len() && regions[i].kind == MemoryRegionKind::Usable
            ==> (#[trigger] regions[i]).start % FRAME_SIZE == 0
}

/// No two usable regions overlap.
pub open spec fn usable_regions_disjoint(regions: Seq<MemoryRegion>) -> bool {
    forall|i: int, j: int|
        0 <= i < regions.len() && 0 <= j < regions.len() && i != j && regions[i].kind
            == MemoryRegionKind::Usable && regions[j].kind == MemoryRegionKind::Usable
            ==> (#[trigger] regions[i]).end <= (#[trigger] regions[j]).start || regions[j].end
            <= regions[i].start
}

/// `f` is the start of a frame lying inside some usable region.
pub open spec fn frame_in_usable_region(regions: Seq<MemoryRegion>, f: int) -> bool {
    exists|i: int|
        0 <= i < regions.len() && (#[trigger] regions[i]).kind == MemoryRegionKind::Usable
            && regions[i].start <= f && f < regions[i].end
}

/// Hands out 4 KiB physical frames from the usable regions of the firmware
/// memory map, strictly in enumeration order, never repeating one.
pub struct MemoryRegionsFrameAllocator {
    regions: Vec<MemoryRegion>,
    next: usize,
}

impl MemoryRegionsFrameAllocator {
    pub closed spec fn spec_regions(&self) -> Seq<MemoryRegion> {
        self.regions@
    }

    pub closed spec fn spec_next(&self) -> nat {
        self.next as nat
    }

    /// An allocator over the given memory map, with nothing handed out yet.
    pub fn init(regions: Vec<MemoryRegion>) -> (r: MemoryRegionsFrameAllocator)
        ensures
            r.spec_regions() == regions@,
            r.spec_next() == 0,
    {
        MemoryRegionsFrameAllocator { regions, next: 0 }
    }

    /// The next frame of the usable-frame enumeration, or nothing once the
    /// enumeration is exhausted. The internal counter advances either way,
    /// so no frame is ever handed out twice.
    pub fn allocate_frame(&mut self) -> (r: Option<u64>)
        requires
            old(self).spec_next() < usize::MAX,
        ensures
            final(self).spec_regions() == old(self).spec_regions(),
            final(self).spec_next() == old(self).spec_next() + 1,
            match r {
                Some(f) => seq_nth(usable_frames(old(self).spec_regions()), old(self).spec_next() as int)
                    == Some(f as int),
                None => seq_nth(usable_frames(old(self).spec_regions()), old(self).spec_next() as int)
                    is None,
            },
    {
        let ghost full = usable_frames(self.regions@);
        let ghost target = self.next as int;
        let mut remaining: usize = self.next;
        let mut i: usize = 0;
        let len = self.regions.len();
        let mut result: Option<u64> = None;
        proof {
            assert(self.regions@.skip(0) =~= self.regions@);
        }
        while i < len
            invariant
                *self == *old(self),
                old(self).spec_next() < usize::MAX,
                full == usable_frames(self.regions@),
                target == self.next as int,
                len == self.regions@.len(),
                i <= len,
                result is None,
                seq_nth(full, target) == seq_nth(
                    usable_frames(self.regions@.skip(i as int)),
                    remaining as int,
                ),
            decreases len - i,
        {
            let region = self.regions[i];
            proof {
                lemma_usable_frames_decompose(self.regions@, i as int);
            }
            let count: u64 = if matches!(region.kind, MemoryRegionKind::Usable) && region.end
                > region.start {
                (region.end - region.start - 1) / FRAME_SIZE + 1
            } else {
                0
            };
            assert(count == region_frames(region).len());
            if (remaining as u64) < count {
                proof {
                    lemma_frame_step_in_region(region, remaining as int);
                }
                let addr = region.start + (remaining as u64) * FRAME_SIZE;
                let frame = addr - addr % FRAME_SIZE;
                result = Some(frame);
                self.next = self.next + 1;
                return result;
            }
            remaining = remaining - (count as usize);
            i = i + 1;
        }
        proof {
            assert(self.regions@.skip(len as int) =~= Seq::<MemoryRegion>::empty());
        }
        self.next = self.next + 1;
        result
    }
}

/// The virtual address, through the linear physical-memory window mapped at
/// `physical_memory_offset`, of the level-4 page table whose physical frame
/// the CPU reports: the mapper dereferences this address to walk the table.
pub fn l4_table_address(physical_memory_offset: u64, l4_frame_start: u64) -> (r: u64)
    requires
        physical_memory_offset + l4_frame_start <= u64::MAX,
    ensures
        r == physical_memory_offset + l4_frame_start,
{
    physical_memory_offset + l4_frame_start
}

/// With a frame-aligned start, the frames enumerated in one region are the
/// aligned steps themselves: in order, inside the region, and aligned.
proof fn lemma_region_frames_sound(r: MemoryRegion)
    requires
        r.kind == MemoryRegionKind::Usable ==> r.start % FRAME_SIZE == 0,
    ensures
        forall|k: int|
            0 <= k < region_frames(r).len() ==> #[trigger] region_frames(r)[k] == r.start + k * (
            FRAME_SIZE as int),
        forall|k: int|
            0 <= k < region_frames(r).len() ==> (#[trigger] region_frames(r)[k]) % (
            FRAME_SIZE as int) == 0,
        forall|k: int|
            0 <= k < region_frames(r).len() ==> r.start <= #[trigger] region_frames(r)[k]
                < r.end,
{
    let f = FRAME_SIZE as int;
    if r.kind == MemoryRegionKind::Usable {
        assert forall|k: int| 0 <= k < region_frames(r).len() implies #[trigger] region_frames(
            r,
        )[k] == r.start + k * f && region_frames(r)[k] % f == 0 && r.start <= region_frames(r)[k]
            < r.end by {
            let addr = r.start + k * f;
            assert((f * k + r.start) % f == (r.start as int) % f) by {
                vstd::arithmetic::div_mod::lemma_mod_multiples_vanish(k, r.start as int, f);
            }
            assert(f * k == k * f) by (nonlinear_arith);
            assert(addr % f == 0);
            assert(region_frames(r)[k] == frame_containing(addr));
            lemma_frame_step_in_region(r, k);
            assert(0 <= k * f) by (nonlinear_arith)
                requires
                    k >= 0,
                    f > 0,
            ;
        }
    }
}

/// Every frame of the enumeration is aligned to the frame size and lies
/// inside some usable region of the map, provided the usable regions start
/// on frame boundaries.
pub proof fn lemma_usable_frames_sound(regions: Seq<MemoryRegion>)
    requires
        usable_regions_aligned(regions),
    ensures
        forall|k: int|
            0 <= k < usable_frames(regions).len() ==> (#[trigger] usable_frames(regions)[k]) % (
            FRAME_SIZE as int) == 0,
        forall|k: int|
            0 <= k < usable_frames(regions).len() ==> frame_in_usable_region(
                regions,
                #[trigger] usable_frames(regions)[k],
            ),
    decreases regions.len(),
{
    if regions.len() > 0 {
        let first = regions[0];
        let head = region_frames(first);
        let rest = regions.drop_first();
        assert(usable_regions_aligned(rest)) by {
            assert forall|i: int|
                0 <= i < rest.len() && rest[i].kind == MemoryRegionKind::Usable implies (
            #[trigger] rest[i]).start % FRAME_SIZE == 0 by {
                assert(rest[i] == regions[i + 1]);
            }
        }
        lemma_usable_frames_sound(rest);
        lemma_region_frames_sound(first);
        assert forall|k: int| 0 <= k < usable_frames(regions).len() implies (
        #[trigger] usable_frames(regions)[k]) % (FRAME_SIZE as int) == 0 && frame_in_usable_region(
            regions,
            usable_frames(regions)[k],
        ) by {
            let e = usable_frames(regions)[k];
            if k < head.len() {
                assert(first.kind == MemoryRegionKind::Usable);
                assert(e == head[k]);
                assert(0 <= 0 < regions.len() && regions[0].kind == MemoryRegionKind::Usable
                    && regions[0].start <= e && e < regions[0].end);
            } else {
                let kr = k - head.len();
                assert(e == usable_frames(rest)[kr]);
                assert(frame_in_usable_region(rest, e));
                let j = choose|j: int|
                    0 <= j < rest.len() && (#[trigger] rest[j]).kind == MemoryRegionKind::Usable
                        && rest[j].start <= e && e < rest[j].end;
                assert(rest[j] == regions[j + 1]);
                assert(0 <= j + 1 < regions.len() && regions[j + 1].kind
                    == MemoryRegionKind::Usable && regions[j + 1].start <= e && e < regions[j
                    + 1].end);
            }
        }
    }
}

/// No frame appears twice in the enumeration, provided the usable regions
/// start on frame boundaries and do not overlap. Together with the
/// allocator's contract this says the first N frames handed out are N
/// distinct frames, each aligned and inside a usable region.
pub proof fn lemma_usable_frames_distinct(regions: Seq<MemoryRegion>)
    requires
        usable_regions_aligned(regions),
        usable_regions_disjoint(regions),
    ensures
        forall|m: int, n: int|
            0 <= m < n < usable_frames(regions).len() ==> #[trigger] usable_frames(regions)[m]
                != #[trigger] usable_frames(regions)[n],
    decreases regions.len(),
{
    let f = FRAME_SIZE as int;
    if regions.len() > 0 {
        let first = regions[0];
        let head = region_frames(first);
        let rest = regions.drop_first();
        assert(usable_regions_aligned(rest) && usable_regions_disjoint(rest)) by {
            assert(forall|i: int| 0 <= i < rest.len() ==> #[trigger] rest[i] == regions[i + 1]);
        }
        lemma_usable_frames_distinct(rest);
        lemma_usable_frames_sound(rest);
        lemma_region_frames_sound(first);
        assert forall|m: int, n: int|
            0 <= m < n < usable_frames(regions).len() implies #[trigger] usable_frames(regions)[m]
            != #[trigger] usable_frames(regions)[n] by {
            let em = usable_frames(regions)[m];
            let en = usable_frames(regions)[n];
            if n < head.len() {
                assert(em == first.start + m * f && en == first.start + n * f);
                assert(m * f < n * f) by (nonlinear_arith)
                    requires
                        m < n,
                        f > 0,
                ;
            } else if m < head.len() {
                assert(first.kind == MemoryRegionKind::Usable);
                assert(first.start <= em < first.end);
                assert(en == usable_frames(rest)[n - head.len()]);
                assert(frame_in_usable_region(rest, en));
                let j = choose|j: int|
                    0 <= j < rest.len() && (#[trigger] rest[j]).kind == MemoryRegionKind::Usable
                        && rest[j].start <= en && en < rest[j].end;
                assert(rest[j] == regions[j + 1]);
                assert(regions[j + 1].end <= regions[0].start || regions[0].end <= regions[j
                    + 1].start);
            } else {
                assert(em == usable_frames(rest)[m - head.len()]);
                assert(en == usable_frames(rest)[n - head.len()]);
            }
        }
    }
}

/// The usable-frame enumeration from region `i` on splits into region `i`'s
/// own frames followed by the enumeration from region `i + 1` on.
proof fn lemma_usable_frames_decompose(regions: Seq<MemoryRegion>, i: int)
    requires
        0 <= i < regions.len(),
    ensures
        usable_frames(regions.skip(i)) == region_frames(regions[i]) + usable_frames(
            regions.skip(i + 1),
        ),
{
    assert(regions.skip(i).len() > 0);
    assert(regions.skip(i)[0] == regions[i]);
    assert(regions.skip(i).drop_first() =~= regions.skip(i + 1));
}

/// Stepping `k` frames into a region stays below its end, and the exec
/// arithmetic computing the step cannot overflow.
proof fn lemma_frame_step_in_region(r: MemoryRegion, k: int)
    requires
        0 <= k < region_frame_count(r),
    ensures
        r.start + k * FRAME_SIZE < r.end,
        0 <= k * FRAME_SIZE,
{
    let f = FRAME_SIZE as int;
    let q = (r.end - r.start - 1) / f;
    vstd::arithmetic::div_mod::lemma_fundamental_div_mod(r.end - r.start - 1, f);
    vstd::arithmetic::div_mod::lemma_mod_bound(r.end - r.start - 1, f);
    assert(k * f <= r.end - r.start - 1) by (nonlinear_arith)
        requires
            k <= q,
            f > 0,
            r.end - r.start - 1 == f * q + (r.end - r.start - 1) % f,
            (r.end - r.start - 1) % f >= 0,
    ;
    assert(0 <= k * f) by (nonlinear_arith)
        requires
            k >= 0,
            f > 0,
    ;
}

} // verus!
