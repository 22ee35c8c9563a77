//! Exit codes reported to the emulator's debug-exit device.  Writing the
//! code to the device port and halting is a hardware side effect the
//! surrounding runtime performs.

use vstd::prelude::*;

verus! {

#[derive(Debug, Clone, Copy, PartialEq, Eq, Structural)]
pub enum QemuExitCode {
    Sucess,
    Fail,
}

impl QemuExitCode {
    /// The device value of this exit code.
    pub fn code(&self) -> (r: u32)
        ensures
            r == (match *self {
                QemuExitCode::Sucess => 1u32,
                QemuExitCode::Fail => 2u32,
            }),
    {
        match self {
            QemuExitCode::Sucess => 1,
            QemuExitCode::Fail => 2,
        }
    }
}

} // verus!
