use feebos::fixed_buffer::FixedBuffer;
use feebos::harness::{disk_image_name, test_verdict, TestVerdict};
use feebos::interrupts::{
    CpuException, InterruptIndex, DOUBLE_FAULT_IST_INDEX, PIC_1_OFFSET, PIC_2_OFFSET,
};
use feebos::kernel::{init_sequence, InitStep};
use feebos::output_buffer::{OutputBuffer, BUFFER_HEIGHT, BUFFER_SIZE, BUFFER_WIDTH};
use feebos::QemuExitCode;

#[test]
fn fixed_buffer_accepts_until_full() {
    let mut buf = FixedBuffer::new();
    assert_eq!(buf.len(), 0);
    assert!(buf.write_str("hello "));
    assert!(buf.write_str("world"));
    assert_eq!(buf.as_bytes(), &b"hello world"[..]);
    assert_eq!(buf.len(), 11);
}

#[test]
fn fixed_buffer_rejects_overflow_unchanged() {
    let mut buf = FixedBuffer::new();
    let chunk = "x".repeat(8191);
    assert!(buf.write_str(&chunk));
    // one more byte still fits, then the budget is full
    assert!(buf.write_str("y"));
    assert!(!buf.write_str("z"));
    assert_eq!(buf.len(), 8192);
    assert_eq!(buf.as_bytes()[8191], b'y');
    // an oversized write fails without taking anything
    let mut buf = FixedBuffer::new();
    assert!(buf.write_str("ab"));
    let huge = "x".repeat(8191);
    assert!(!buf.write_str(&huge));
    assert_eq!(buf.as_bytes(), &b"ab"[..]);
}

#[test]
fn output_buffer_appends_and_reads_back() {
    let mut out = OutputBuffer::new();
    assert_eq!(out.cursor(), 0);
    out.puts("hi");
    out.putc('!');
    assert_eq!(out.at(0, 0), 'h');
    assert_eq!(out.at(1, 0), 'i');
    assert_eq!(out.at(2, 0), '!');
    assert_eq!(out.at(3, 0), ' ');
    assert_eq!(out.cursor(), 3);
}

#[test]
fn output_buffer_scrolls_when_full() {
    let mut out = OutputBuffer::new();
    for _ in 0..BUFFER_SIZE {
        out.putc('m');
    }
    // filling the last cell scrolled two rows
    let expected = BUFFER_SIZE - 2 * BUFFER_WIDTH as usize;
    assert_eq!(out.cursor(), expected);
    assert_eq!(out.at(0, BUFFER_HEIGHT - 1), ' ');
    assert_eq!(out.at(0, BUFFER_HEIGHT - 3), 'm');
}

#[test]
fn output_buffer_explicit_scroll() {
    let mut out = OutputBuffer::new();
    out.puts("top");
    for _ in 0..BUFFER_WIDTH {
        out.putc('-');
    }
    out.scroll(1);
    // the dashes moved up into row 0's tail, "top" is gone
    assert_eq!(out.at(0, 0), '-');
    assert_eq!(out.cursor(), 3);
}

#[test]
fn qemu_exit_codes_match_the_device() {
    assert_eq!(QemuExitCode::Success.raw_code(), 0x10);
    assert_eq!(QemuExitCode::Failed.raw_code(), 0x11);
    assert_eq!(QemuExitCode::Success.expected_exit_status(), 33);
    assert_eq!(QemuExitCode::Failed.expected_exit_status(), 35);
}

#[test]
fn verdict_passes_only_on_success_status() {
    assert_eq!(test_verdict(Some(33)), TestVerdict::Passed);
    assert_eq!(test_verdict(Some(35)), TestVerdict::Failed(35));
    assert_eq!(test_verdict(Some(0)), TestVerdict::Failed(0));
    assert_eq!(test_verdict(None), TestVerdict::Terminated);
}

#[test]
fn disk_image_name_brackets_the_binary_name() {
    assert_eq!(disk_image_name("feebos-test"), "boot-bios-feebos-test.img");
}

#[test]
fn init_order_matches_the_bring_up_contract() {
    let steps = init_sequence();
    assert_eq!(
        steps,
        vec![
            InitStep::SegmentTables,
            InitStep::InterruptTables,
            InitStep::EnableInterrupts,
            InitStep::PageMapper,
            InitStep::FrameAllocator,
            InitStep::Heap,
            InitStep::Framebuffer,
        ]
    );
}

#[test]
fn pic_vectors_and_ist_slot() {
    assert_eq!(PIC_1_OFFSET, 32);
    assert_eq!(PIC_2_OFFSET, 40);
    assert_eq!(DOUBLE_FAULT_IST_INDEX, 0);
    assert_eq!(InterruptIndex::Timer.as_u8(), 32);
    assert_eq!(InterruptIndex::Keyboard.as_u8(), 33);
    assert_eq!(InterruptIndex::Keyboard.as_usize(), 33);
}

#[test]
fn exception_table_labels_and_fatality() {
    assert_eq!(CpuException::Breakpoint.label(), "BREAKPOINT");
    assert_eq!(CpuException::DoubleFault.label(), "DOUBLE FAULT");
    assert_eq!(CpuException::Breakpoint.vector(), 3);
    assert_eq!(CpuException::DoubleFault.vector(), 8);
    assert_eq!(CpuException::PageFault.vector(), 14);
    assert_eq!(CpuException::MachineCheck.vector(), 0x12);
    assert!(CpuException::DoubleFault.is_fatal());
    assert!(CpuException::PageFault.is_fatal());
    assert!(CpuException::MachineCheck.is_fatal());
    assert!(!CpuException::Breakpoint.is_fatal());
    assert!(!CpuException::GeneralProtectionFault.is_fatal());
    assert!(CpuException::DoubleFault.uses_ist());
    assert!(!CpuException::PageFault.uses_ist());
}
