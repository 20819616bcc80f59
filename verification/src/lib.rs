//! Core logic of a small BIOS-booted x86_64 kernel: character grids with
//! dirty-cell tracking and scrolling, glyph rendering into a linear
//! framebuffer, a physical frame allocator over the firmware memory map, the
//! heap mapping plan, interrupt dispatch rules, and the host harness's exit
//! code arithmetic.
//!
//! Everything here is hardware-independent. Port I/O, control registers,
//! the page-table walk and the emulator launch live outside this crate and
//! consume the values and plans computed here.
use vstd::prelude::*;

pub mod allocator;
pub mod fixed_buffer;
pub mod font;
pub mod graphics;
pub mod harness;
pub mod interrupts;
pub mod kernel;
pub mod memory;
pub mod output_buffer;
pub mod text_buffer;

verus! {

/// Raw values the kernel writes to the emulator's debug-exit I/O port to
/// report a test verdict.
#[derive(Clone, Copy, PartialEq, Eq, Structural, Debug)]
pub enum QemuExitCode {
    Success,
    Failed,
}

impl QemuExitCode {
    pub open spec fn spec_raw_code(self) -> u32 {
        match self {
            QemuExitCode::Success => 0x10,
            QemuExitCode::Failed => 0x11,
        }
    }

    /// The raw 32-bit value written to the debug-exit port.
    pub fn raw_code(self) -> (r: u32)
        ensures
            r == self.spec_raw_code(),
    {
        match self {
            QemuExitCode::Success => 0x10,
            QemuExitCode::Failed => 0x11,
        }
    }

    /// The process exit status the emulator reports after the kernel writes
    /// this code to the debug-exit port: success maps to 33, failure to 35.
    pub fn expected_exit_status(self) -> (r: u32)
        ensures
            r == qemu_exit_status(self.spec_raw_code()),
            self == QemuExitCode::Success ==> r == 33,
            self == QemuExitCode::Failed ==> r == 35,
    {
        let raw = self.raw_code();
        let status = (raw << 1) | 1;
        proof {
            assert((0x10u32 << 1) | 1 == 33) by (bit_vector);
            assert((0x11u32 << 1) | 1 == 35) by (bit_vector);
        }
        status
    }
}

/// The exit status the emulator derives from a value written to its
/// debug-exit device: twice the value plus one.
pub open spec fn qemu_exit_status(raw: u32) -> int {
    2 * raw + 1
}

} // verus!
