//! The log sink: formatted lines go out over the serial console, byte by
//! byte.  This module turns a ready-made line into the port writes; the
//! formatting of arguments and the actual port output stay with the
//! surrounding runtime.

use crate::uart::{Uart, IO_ADDR_COM1};
use vstd::prelude::*;
use vstd::string::StringSliceAdditionalSpecFns;

verus! {

/// The escape sequences used to tag log lines.
pub const COLOR_RESET: &'static str = "\x1b[0m";

pub const COLOR_CYAN: &'static str = "\x1b[36m";

pub const COLOR_YELLOW: &'static str = "\x1b[33m";

pub const COLOR_RED: &'static str = "\x1b[31m";

/// The port writes that print `s` on the console serial port.
pub fn print(s: &str) -> (r: Vec<(u16, u8)>)
    ensures
        r@.len() == s.spec_bytes().len(),
        forall|i: int| 0 <= i < r@.len() ==> #[trigger] r@[i] == (IO_ADDR_COM1, s.spec_bytes()[i]),
{
    let serial = Uart::default();
    serial.write_str(s)
}

} // verus!
