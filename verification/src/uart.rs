//! The serial console: a line-oriented byte sink behind a legacy I/O
//! port.  This module computes the port writes; performing them, and
//! polling the transmit-ready status bit between bytes, is the
//! surrounding runtime's part.

use vstd::prelude::*;
use vstd::string::StringSliceAdditionalSpecFns;

verus! {

/// The first serial port.
pub const IO_ADDR_COM1: u16 = 0x3F8;

/// The divisor programmed for the baud rate.
pub const IO_BAUD_DIVISOR: u16 = 0x01;

pub struct Uart {
    base: u16,
}

impl Uart {
    pub closed spec fn spec_base(&self) -> u16 {
        self.base
    }

    pub fn new(base: u16) -> (r: Self)
        ensures
            r.spec_base() == base,
    {
        Uart { base }
    }

    /// The port writes that set up the line: interrupts off, divisor
    /// latch, divisor, 8n1 framing, FIFO, modem control.
    pub fn init(&self) -> (r: Vec<(u16, u8)>)
        requires
            self.spec_base() + 5 <= u16::MAX,
        ensures
            r@ == seq![
                ((self.spec_base() + 1) as u16, 0x00u8),
                ((self.spec_base() + 3) as u16, 0x80u8),
                (self.spec_base(), 0x01u8),
                ((self.spec_base() + 1) as u16, 0x00u8),
                ((self.spec_base() + 3) as u16, 0x03u8),
                ((self.spec_base() + 2) as u16, 0xC7u8),
                ((self.spec_base() + 4) as u16, 0x0Bu8),
            ],
    {
        let mut v: Vec<(u16, u8)> = Vec::new();
        v.push((self.base + 1, 0x00));
        v.push((self.base + 3, 0x80));
        v.push((self.base, (IO_BAUD_DIVISOR & 0xFF) as u8));
        v.push((self.base + 1, (IO_BAUD_DIVISOR >> 8) as u8));
        v.push((self.base + 3, 0x03));
        v.push((self.base + 2, 0xC7));
        v.push((self.base + 4, 0x0B));
        proof {
            assert((0x01u16 & 0xFF) as u8 == 0x01u8) by (bit_vector);
            assert((0x01u16 >> 8) as u8 == 0x00u8) by (bit_vector);
            assert(v@ =~= seq![
                ((self.spec_base() + 1) as u16, 0x00u8),
                ((self.spec_base() + 3) as u16, 0x80u8),
                (self.spec_base(), 0x01u8),
                ((self.spec_base() + 1) as u16, 0x00u8),
                ((self.spec_base() + 3) as u16, 0x03u8),
                ((self.spec_base() + 2) as u16, 0xC7u8),
                ((self.spec_base() + 4) as u16, 0x0Bu8),
            ]);
        }
        v
    }

    /// Whether the transmit-ready bit of the line-status value is set;
    /// the runtime polls the status port until this holds before each
    /// byte.
    pub fn transmit_ready(status: u8) -> (r: bool)
        ensures
            r == (status & 0x20 != 0),
    {
        status & 0x20 != 0
    }

    /// The data-port write that sends one byte (once transmit-ready).
    pub fn write(&self, byte: u8) -> (r: (u16, u8))
        ensures
            r == (self.spec_base(), byte),
    {
        (self.base, byte)
    }

    /// The data-port writes that send a whole string, byte for byte.
    pub fn write_str(&self, s: &str) -> (r: Vec<(u16, u8)>)
        ensures
            r@.len() == s.spec_bytes().len(),
            forall|i: int|
                0 <= i < r@.len() ==> #[trigger] r@[i] == (self.spec_base(), s.spec_bytes()[i]),
    {
        let bytes = s.as_bytes();
        let mut v: Vec<(u16, u8)> = Vec::new();
        let mut i: usize = 0;
        while i < bytes.len()
            invariant
                i <= bytes@.len(),
                bytes@ == s.spec_bytes(),
                v@.len() == i,
                forall|j: int|
                    0 <= j < i ==> #[trigger] v@[j] == (self.spec_base(), s.spec_bytes()[j]),
            decreases bytes@.len() - i,
        {
            v.push(self.write(bytes[i]));
            i = i + 1;
        }
        v
    }
}

impl Default for Uart {
    /// The console on the first serial port.
    fn default() -> (r: Self)
        ensures
            r.spec_base() == IO_ADDR_COM1,
    {
        Uart::new(IO_ADDR_COM1)
    }
}

} // verus!
