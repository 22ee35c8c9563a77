//! Interrupt dispatch.  The raw entry stubs and the register-saving
//! trampoline are hand-written machine code owned by the runtime; they
//! hand this module the fully saved frame, and this module decides what
//! happens: the breakpoint exception resumes, the timer vector advances
//! the tick state and re-arms the controller before any task code runs
//! again, and every fault halts the system.  After dispatch, the
//! trampoline's epilogue asks whether the quantum has expired and a
//! switch is due.

use crate::task::{next_runnable, task_states, CpuContextBlock, PId};
use crate::timer::{LocalApicTimer, END_OF_INTERRUPT_REGISTER};
use vstd::prelude::*;

verus! {

/// Ticks a task may accumulate before it is preempted.
pub const QUANTUM_TICKS: u64 = 3;

/// The hardware-pushed part of an interrupt frame.
#[derive(Debug, Clone, Copy, PartialEq, Eq, Structural)]
pub struct InterruptContext {
    pub rip: u64,
    pub cs: u64,
    pub rflags: u64,
    pub rsp: u64,
    pub ss: u64,
}

/// The general-purpose registers the trampoline saves, in push order.
#[derive(Debug, Clone, Copy, PartialEq, Eq, Structural)]
pub struct InterruptRegisters {
    pub rax: u64,
    pub rbx: u64,
    pub rcx: u64,
    pub rdx: u64,
    pub rsi: u64,
    pub rdi: u64,
    pub rbp: u64,
    pub rsp: u64,
    pub r8: u64,
    pub r9: u64,
    pub r10: u64,
    pub r11: u64,
    pub r12: u64,
    pub r13: u64,
    pub r14: u64,
    pub r15: u64,
}

/// Everything on the stack when the dispatcher runs: saved registers,
/// the software-pushed vector and error code, and the hardware context.
#[derive(Debug, Clone, Copy, PartialEq, Eq, Structural)]
pub struct InterruptStackFrame {
    pub registers: InterruptRegisters,
    pub vector: u64,
    pub error_code: u64,
    pub context: InterruptContext,
}

/// What the trampoline must do after dispatch.
#[derive(Debug, Clone, Copy, PartialEq, Eq, Structural)]
pub enum DispatchOutcome {
    /// Resume the interrupted instruction (breakpoint, or timer handled).
    Resume,
    /// Fatal and unrecoverable: halt forever.
    Halt,
}

/// Classify a vector as the dispatcher treats it.
pub open spec fn dispatch_outcome_spec(vector: u64) -> DispatchOutcome {
    if vector == 3 || vector == 42 {
        DispatchOutcome::Resume
    } else {
        DispatchOutcome::Halt
    }
}

/// Dispatch one interrupt.  The breakpoint exception (vector 3) is the
/// sole recoverable exception: it is logged and execution resumes.  The
/// timer vector (42) advances the device count and the scheduler tick and
/// yields the acknowledge write that re-arms the interrupt controller
/// before any task code resumes.  Invalid opcode (6), general protection
/// fault (13), page fault (14) and every unhandled vector are fatal: the
/// runtime logs the diagnostic detail from the frame and halts.
pub fn interrupt_handler(
    stack_frame: &InterruptStackFrame,
    timer: &mut LocalApicTimer,
    cpu: &mut CpuContextBlock,
) -> (r: (DispatchOutcome, Option<(u64, u32)>))
    requires
        old(timer).spec_base() + END_OF_INTERRUPT_REGISTER <= u64::MAX,
    ensures
        r.0 == dispatch_outcome_spec(stack_frame.vector),
        stack_frame.vector == 42 ==> {
            &&& r.1 == Some(
                (((old(timer).spec_base() + END_OF_INTERRUPT_REGISTER) as u64), 0u32),
            )
            &&& final(timer).count == (if old(timer).count == u32::MAX {
                1u32
            } else {
                (old(timer).count + 1) as u32
            })
            &&& final(cpu).spec_ticks() == (if old(cpu).spec_ticks() == u64::MAX {
                0
            } else {
                old(cpu).spec_ticks() + 1
            })
            &&& final(cpu).spec_tasks() == old(cpu).spec_tasks()
            &&& final(cpu).spec_current() == old(cpu).spec_current()
        },
        stack_frame.vector != 42 ==> r.1 is None && *final(timer) == *old(timer) && final(cpu).spec_ticks() == old(cpu).spec_ticks() && final(cpu).spec_tasks() == old(cpu).spec_tasks() && final(cpu).spec_current() == old(cpu).spec_current(),
        final(cpu).spec_next_pid() == old(cpu).spec_next_pid(),
{
    if stack_frame.vector == 3 {
        // Breakpoint: recoverable, resume at the faulting instruction.
        (DispatchOutcome::Resume, None)
    } else if stack_frame.vector == 42 {
        // Local timer: count, acknowledge, then the scheduler tick.
        crate::timer::increment_count(timer);
        let eoi = crate::timer::notify_end_of_interrupt(timer);
        cpu.tick();
        (DispatchOutcome::Resume, Some(eoi))
    } else {
        // Invalid opcode, general protection fault, page fault and all
        // unhandled vectors are fatal.
        (DispatchOutcome::Halt, None)
    }
}

/// The preemption check the trampoline epilogue runs: once the
/// accumulated ticks reach the quantum, perform a scheduling decision.
/// Returns the task switched to, if any; the register swap itself is the
/// runtime's part.
pub fn check_and_schedule(cpu: &mut CpuContextBlock) -> (r: Option<PId>)
    requires
        old(cpu).wf(),
        old(cpu).spec_current() is Some,
    ensures
        final(cpu).wf(),
        old(cpu).spec_ticks() < QUANTUM_TICKS ==> r is None && final(cpu).spec_tasks() == old(cpu).spec_tasks() && final(cpu).spec_current() == old(cpu).spec_current() && final(cpu).spec_ticks() == old(cpu).spec_ticks(),
        old(cpu).spec_ticks() >= QUANTUM_TICKS ==> final(cpu).spec_ticks() == 0 && (match
            next_runnable(task_states(old(cpu).spec_tasks()), old(cpu).spec_current()->Some_0) {
            Some(i) => {
                if i == old(cpu).spec_current()->Some_0 {
                    r is None && final(cpu).spec_tasks() == old(cpu).spec_tasks() && final(cpu).spec_current() == old(cpu).spec_current()
                } else {
                    r is Some && (r->Some_0)@ == old(cpu).spec_tasks()[i].spec_pid() && final(cpu).spec_current() == Some(i)
                }
            },
            None => r is None && final(cpu).spec_tasks() == old(cpu).spec_tasks() && final(cpu).spec_current() == old(cpu).spec_current(),
        }),
{
    if cpu.ticks() >= QUANTUM_TICKS {
        cpu.switch()
    } else {
        None
    }
}

} // verus!
