//! Interrupt dispatch rules: the vector numbers the legacy PIC pair is
//! remapped to, and the CPU exception table with each exception's vector,
//! log label and fatality.
//!
//! Loading the descriptor tables, reading the scancode port, decoding
//! scancodes through the keyboard crate's stateful machine and signalling
//! end-of-interrupt are hardware work done outside this crate, driven by
//! the values computed here.
use vstd::prelude::*;

verus! {

/// Vector the master PIC's first line is remapped to.
pub const PIC_1_OFFSET: u8 = 32;

/// Vector the slave PIC's first line is remapped to.
pub const PIC_2_OFFSET: u8 = PIC_1_OFFSET + 8;

/// Interrupt-stack-table slot the double fault handler runs on; the segment
/// tables reserve a known-good stack there so that a double fault on an
/// overflowed stack cannot triple-fault.
pub const DOUBLE_FAULT_IST_INDEX: u16 = 0;

/// The hardware interrupt lines this kernel handles.
#[derive(Clone, Copy, PartialEq, Eq, Structural, Debug)]
pub enum InterruptIndex {
    /// The legacy timer, on the master PIC's first line.
    Timer,
    /// The PS/2 keyboard, on the master PIC's second line.
    Keyboard,
}

impl InterruptIndex {
    pub open spec fn spec_as_u8(self) -> u8 {
        match self {
            InterruptIndex::Timer => PIC_1_OFFSET,
            InterruptIndex::Keyboard => (PIC_1_OFFSET + 1) as u8,
        }
    }

    /// The interrupt vector this line is delivered on, and the vector named
    /// when acknowledging its end-of-interrupt.
    pub fn as_u8(self) -> (r: u8)
        ensures
            r == self.spec_as_u8(),
    {
        match self {
            InterruptIndex::Timer => PIC_1_OFFSET,
            InterruptIndex::Keyboard => PIC_1_OFFSET + 1,
        }
    }

    /// The vector as an index into the descriptor table.
    pub fn as_usize(self) -> (r: usize)
        ensures
            r == self.spec_as_u8(),
    {
        self.as_u8() as usize
    }
}

/// The architecturally defined CPU exceptions this kernel installs
/// handlers for.
#[derive(Clone, Copy, PartialEq, Eq, Structural, Debug)]
pub enum CpuException {
    DivideError,
    Debug,
    NonMaskableInterrupt,
    Breakpoint,
    Overflow,
    BoundRangeExceeded,
    InvalidOpcode,
    DeviceNotAvailable,
    DoubleFault,
    InvalidTss,
    SegmentNotPresent,
    StackSegmentFault,
    GeneralProtectionFault,
    PageFault,
    X87FloatingPoint,
    AlignmentCheck,
    MachineCheck,
    SimdFloatingPoint,
    Virtualization,
    SecurityException,
}

impl CpuException {
    pub open spec fn spec_vector(self) -> u8 {
        match self {
            CpuException::DivideError => 0x00,
            CpuException::Debug => 0x01,
            CpuException::NonMaskableInterrupt => 0x02,
            CpuException::Breakpoint => 0x03,
            CpuException::Overflow => 0x04,
            CpuException::BoundRangeExceeded => 0x05,
            CpuException::InvalidOpcode => 0x06,
            CpuException::DeviceNotAvailable => 0x07,
            CpuException::DoubleFault => 0x08,
            CpuException::InvalidTss => 0x0A,
            CpuException::SegmentNotPresent => 0x0B,
            CpuException::StackSegmentFault => 0x0C,
            CpuException::GeneralProtectionFault => 0x0D,
            CpuException::PageFault => 0x0E,
            CpuException::X87FloatingPoint => 0x10,
            CpuException::AlignmentCheck => 0x11,
            CpuException::MachineCheck => 0x12,
            CpuException::SimdFloatingPoint => 0x13,
            CpuException::Virtualization => 0x14,
            CpuException::SecurityException => 0x1E,
        }
    }

    /// The exception's vector number.
    pub fn vector(self) -> (r: u8)
        ensures
            r == self.spec_vector(),
    {
        match self {
            CpuException::DivideError => 0x00,
            CpuException::Debug => 0x01,
            CpuException::NonMaskableInterrupt => 0x02,
            CpuException::Breakpoint => 0x03,
            CpuException::Overflow => 0x04,
            CpuException::BoundRangeExceeded => 0x05,
            CpuException::InvalidOpcode => 0x06,
            CpuException::DeviceNotAvailable => 0x07,
            CpuException::DoubleFault => 0x08,
            CpuException::InvalidTss => 0x0A,
            CpuException::SegmentNotPresent => 0x0B,
            CpuException::StackSegmentFault => 0x0C,
            CpuException::GeneralProtectionFault => 0x0D,
            CpuException::PageFault => 0x0E,
            CpuException::X87FloatingPoint => 0x10,
            CpuException::AlignmentCheck => 0x11,
            CpuException::MachineCheck => 0x12,
            CpuException::SimdFloatingPoint => 0x13,
            CpuException::Virtualization => 0x14,
            CpuException::SecurityException => 0x1E,
        }
    }

    pub open spec fn spec_is_fatal(self) -> bool {
        self == CpuException::DoubleFault || self == CpuException::PageFault || self
            == CpuException::MachineCheck
    }

    /// Whether the handler panics the kernel. A double fault, a page fault
    /// and a machine check are fatal; every other exception is logged to
    /// serial and returned from.
    pub fn is_fatal(self) -> (r: bool)
        ensures
            r == self.spec_is_fatal(),
    {
        matches!(
            self,
            CpuException::DoubleFault | CpuException::PageFault | CpuException::MachineCheck
        )
    }

    /// Whether the double fault handler must run on the reserved
    /// interrupt stack.
    pub fn uses_ist(self) -> (r: bool)
        ensures
            r <==> self == CpuException::DoubleFault,
    {
        matches!(self, CpuException::DoubleFault)
    }

    pub open spec fn spec_label(self) -> Seq<char> {
        match self {
            CpuException::DivideError => "DIVIDE ERROR"@,
            CpuException::Debug => "DEBUG"@,
            CpuException::NonMaskableInterrupt => "NON-MASKABLE INTERRUPT"@,
            CpuException::Breakpoint => "BREAKPOINT"@,
            CpuException::Overflow => "OVERFLOW"@,
            CpuException::BoundRangeExceeded => "BOUND RANGE EXCEEDED"@,
            CpuException::InvalidOpcode => "INVALID OPCODE"@,
            CpuException::DeviceNotAvailable => "DEVICE NOT AVAILABLE"@,
            CpuException::DoubleFault => "DOUBLE FAULT"@,
            CpuException::InvalidTss => "INVALID TSS"@,
            CpuException::SegmentNotPresent => "SEGMENT NOT PRESENT"@,
            CpuException::StackSegmentFault => "STACK SEGMENT FAULT"@,
            CpuException::GeneralProtectionFault => "GENERAL PROTECTION FAULT"@,
            CpuException::PageFault => "PAGE FAULT"@,
            CpuException::X87FloatingPoint => "X87 FLOATING POINT"@,
            CpuException::AlignmentCheck => "ALIGNMENT CHECK"@,
            CpuException::MachineCheck => "MACHINE CHECK"@,
            CpuException::SimdFloatingPoint => "SIMD FLOATING POINT"@,
            CpuException::Virtualization => "VIRTUALIZATION"@,
            CpuException::SecurityException => "SECURITY EXCEPTION"@,
        }
    }

    /// The name the handler logs after `EXCEPTION: `.
    pub fn label(self) -> (r: &'static str)
        ensures
            r@ == self.spec_label(),
    {
        match self {
            CpuException::DivideError => "DIVIDE ERROR",
            CpuException::Debug => "DEBUG",
            CpuException::NonMaskableInterrupt => "NON-MASKABLE INTERRUPT",
            CpuException::Breakpoint => "BREAKPOINT",
            CpuException::Overflow => "OVERFLOW",
            CpuException::BoundRangeExceeded => "BOUND RANGE EXCEEDED",
            CpuException::InvalidOpcode => "INVALID OPCODE",
            CpuException::DeviceNotAvailable => "DEVICE NOT AVAILABLE",
            CpuException::DoubleFault => "DOUBLE FAULT",
            CpuException::InvalidTss => "INVALID TSS",
            CpuException::SegmentNotPresent => "SEGMENT NOT PRESENT",
            CpuException::StackSegmentFault => "STACK SEGMENT FAULT",
            CpuException::GeneralProtectionFault => "GENERAL PROTECTION FAULT",
            CpuException::PageFault => "PAGE FAULT",
            CpuException::X87FloatingPoint => "X87 FLOATING POINT",
            CpuException::AlignmentCheck => "ALIGNMENT CHECK",
            CpuException::MachineCheck => "MACHINE CHECK",
            CpuException::SimdFloatingPoint => "SIMD FLOATING POINT",
            CpuException::Virtualization => "VIRTUALIZATION",
            CpuException::SecurityException => "SECURITY EXCEPTION",
        }
    }
}

} // verus!
