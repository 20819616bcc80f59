//! The ordered bring-up of the kernel. Performing each step — loading
//! descriptor tables, enabling interrupts, walking page tables, binding the
//! framebuffer — is hardware work done outside this crate; the sequence
//! computed here is the contract that work follows.
use vstd::prelude::*;

verus! {

/// One step of kernel bring-up.
#[derive(Clone, Copy, PartialEq, Eq, Structural, Debug)]
pub enum InitStep {
    /// Load the segment descriptors and the task state segment holding the
    /// double-fault interrupt stack.
    SegmentTables,
    /// Populate and load the interrupt descriptor table, and initialize the
    /// chained PIC pair.
    InterruptTables,
    /// Enable hardware interrupts.
    EnableInterrupts,
    /// Construct the page mapper over the physical-memory window.
    PageMapper,
    /// Construct the frame allocator from the firmware memory map.
    FrameAllocator,
    /// Map the heap pages and hand the range to the general allocator.
    Heap,
    /// Bind the firmware framebuffer into the graphics context.
    Framebuffer,
}

/// The order of bring-up.
pub open spec fn spec_init_sequence() -> Seq<InitStep> {
    seq![
        InitStep::SegmentTables,
        InitStep::InterruptTables,
        InitStep::EnableInterrupts,
        InitStep::PageMapper,
        InitStep::FrameAllocator,
        InitStep::Heap,
        InitStep::Framebuffer,
    ]
}

/// The bring-up order: segment tables strictly before the interrupt
/// tables, because the double fault handler's stack slot is only valid once
/// the task state segment is loaded; interrupts on; then the mapper, the
/// frame allocator and the heap, which consumes both; the framebuffer last.
pub fn init_sequence() -> (r: Vec<InitStep>)
    ensures
        r@ == spec_init_sequence(),
{
    let mut r: Vec<InitStep> = Vec::new();
    r.push(InitStep::SegmentTables);
    r.push(InitStep::InterruptTables);
    r.push(InitStep::EnableInterrupts);
    r.push(InitStep::PageMapper);
    r.push(InitStep::FrameAllocator);
    r.push(InitStep::Heap);
    r.push(InitStep::Framebuffer);
    proof {
        assert(r@ =~= spec_init_sequence());
    }
    r
}

} // verus!
