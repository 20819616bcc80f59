//! The host harness's decisions: the name of the BIOS disk image built
//! beside a kernel binary, and the verdict drawn from the emulator's exit
//! status in test mode. Building the image and launching the emulator are
//! process work done outside this crate.
use vstd::prelude::*;
use vstd::string::*;

verus! {

/// File name of the BIOS disk image the builder leaves beside a kernel
/// binary of the given file name.
pub fn disk_image_name(kernel_binary_name: &str) -> (r: String)
    ensures
        r@ == "boot-bios-"@ + kernel_binary_name@ + ".img"@,
{
    let mut name = String::from_str("boot-bios-");
    name.append(kernel_binary_name);
    name.append(".img");
    proof {
        assert(name@ =~= "boot-bios-"@ + kernel_binary_name@ + ".img"@);
    }
    name
}

/// What a test-mode emulator run reported.
#[derive(Clone, Copy, PartialEq, Eq, Structural, Debug)]
pub enum TestVerdict {
    /// The kernel wrote the success code to the debug-exit device.
    Passed,
    /// The run ended with some other exit status.
    Failed(i32),
    /// The run was ended by a signal and reported no status.
    Terminated,
}

/// The verdict for an emulator exit status: exactly status 33 — the success
/// code 0x10 through the debug-exit device — passes.
pub fn test_verdict(exit_status: Option<i32>) -> (r: TestVerdict)
    ensures
        match exit_status {
            Some(code) => r == if code == 33 {
                TestVerdict::Passed
            } else {
                TestVerdict::Failed(code)
            },
            None => r == TestVerdict::Terminated,
        },
        r == TestVerdict::Passed <==> exit_status == Some(33i32),
{
    match exit_status {
        Some(code) => {
            if code == 33 {
                TestVerdict::Passed
            } else {
                TestVerdict::Failed(code)
            }
        },
        None => TestVerdict::Terminated,
    }
}

} // verus!
