//! The local interrupt-controller timer: programmed once with a fixed
//! divisor and initial count for periodic mode, wired to the designated
//! timer vector.  This module computes the register writes and keeps the
//! monotonically incrementing (wraparound-skips-zero) count; the volatile
//! stores themselves are performed by the surrounding runtime.

use vstd::prelude::*;

verus! {

/// Physical base of the controller's register window.
pub const LOCAL_APIC_BASE: u64 = 0xFEE0_0000;

/// Register offsets.
pub const TIMER_REGISTER: u64 = 0x320;

pub const TIMER_DIV_REGISTER: u64 = 0x3E0;

pub const TIMER_INIT_COUNT_REGISTER: u64 = 0x380;

pub const END_OF_INTERRUPT_REGISTER: u64 = 0xB0;

/// The interrupt vector the timer fires.
pub const TIMER_VECTOR: u64 = 42;

pub struct LocalApicTimer {
    pub base: u64,
    pub count: u32,
}

impl LocalApicTimer {
    pub open spec fn spec_base(&self) -> u64 {
        self.base
    }

    pub fn new() -> (r: Self)
        ensures
            r.spec_base() == LOCAL_APIC_BASE,
            r.count == 0,
    {
        LocalApicTimer { base: LOCAL_APIC_BASE, count: 0 }
    }

    /// The address of the register at `offset`.
    pub fn register(&self, offset: u64) -> (r: u64)
        requires
            self.spec_base() + offset <= u64::MAX,
        ensures
            r == self.spec_base() + offset,
    {
        self.base + offset
    }

    /// The three register writes that program periodic mode: divisor,
    /// initial count, then timer mode wired to the timer vector.
    pub fn init(&self) -> (r: Vec<(u64, u32)>)
        requires
            self.spec_base() + TIMER_DIV_REGISTER <= u64::MAX,
        ensures
            r@ == seq![
                (((self.spec_base() + TIMER_DIV_REGISTER) as u64), 0b110u32),
                (((self.spec_base() + TIMER_INIT_COUNT_REGISTER) as u64), 0x100_0000u32),
                (((self.spec_base() + TIMER_REGISTER) as u64), 0x2_002Au32),
            ],
    {
        let mut v: Vec<(u64, u32)> = Vec::new();
        v.push((self.register(TIMER_DIV_REGISTER), 0b110));
        v.push((self.register(TIMER_INIT_COUNT_REGISTER), 0x100_0000));
        v.push((self.register(TIMER_REGISTER), (0b010u32 << 16) | 0x2A));
        proof {
            assert((0b010u32 << 16) | 0x2A == 0x2_002Au32) by (bit_vector);
            assert(v@ =~= seq![
                (((self.spec_base() + TIMER_DIV_REGISTER) as u64), 0b110u32),
                (((self.spec_base() + TIMER_INIT_COUNT_REGISTER) as u64), 0x100_0000u32),
                (((self.spec_base() + TIMER_REGISTER) as u64), 0x2_002Au32),
            ]);
        }
        v
    }

    /// Advance the count; on wraparound the count skips zero so that zero
    /// always means "never fired".
    pub fn increment_count(&mut self)
        ensures
            final(self).spec_base() == old(self).spec_base(),
            final(self).count == (if old(self).count == u32::MAX {
                1u32
            } else {
                (old(self).count + 1) as u32
            }),
    {
        self.count = self.count.wrapping_add(1);
        if self.count == 0 {
            self.count = 1;
        }
    }

    /// The acknowledge ("end of interrupt") register write.
    pub fn notify_end_of_interrupt(&self) -> (r: (u64, u32))
        requires
            self.spec_base() + END_OF_INTERRUPT_REGISTER <= u64::MAX,
        ensures
            r == (((self.spec_base() + END_OF_INTERRUPT_REGISTER) as u64), 0u32),
    {
        (self.register(END_OF_INTERRUPT_REGISTER), 0)
    }
}

/// Program the timer once at boot: the register writes to perform.
pub fn init_timer(timer: &LocalApicTimer) -> (r: Vec<(u64, u32)>)
    requires
        timer.spec_base() + TIMER_DIV_REGISTER <= u64::MAX,
    ensures
        r@ == seq![
            (((timer.spec_base() + TIMER_DIV_REGISTER) as u64), 0b110u32),
            (((timer.spec_base() + TIMER_INIT_COUNT_REGISTER) as u64), 0x100_0000u32),
            (((timer.spec_base() + TIMER_REGISTER) as u64), 0x2_002Au32),
        ],
{
    timer.init()
}

/// The current tick count.
pub fn get_count(timer: &LocalApicTimer) -> (r: u32)
    ensures
        r == timer.count,
{
    timer.count
}

/// Advance the tick count (wraparound skips zero).
pub fn increment_count(timer: &mut LocalApicTimer)
    ensures
        final(timer).spec_base() == old(timer).spec_base(),
        final(timer).count == (if old(timer).count == u32::MAX {
            1u32
        } else {
            (old(timer).count + 1) as u32
        }),
{
    timer.increment_count();
}

/// The acknowledge write that re-arms the interrupt controller.
pub fn notify_end_of_interrupt(timer: &LocalApicTimer) -> (r: (u64, u32))
    requires
        timer.spec_base() + END_OF_INTERRUPT_REGISTER <= u64::MAX,
    ensures
        r == (((timer.spec_base() + END_OF_INTERRUPT_REGISTER) as u64), 0u32),
{
    timer.notify_end_of_interrupt()
}

} // verus!
