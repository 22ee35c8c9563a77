//! The task scheduler: a round-robin sweep over a global task list.
//!
//! Each task owns a kernel stack, a saved register context and (once
//! spawned or installed at boot) its own page table.  The scheduler state
//! stands for the per-CPU singleton the kernel keeps; the low-level
//! register swap and the interrupt enable/disable bracket around a switch
//! are privileged side effects the surrounding runtime performs, guided by
//! the decision this module computes.

use crate::paging::{table_wf, PageTable, PageTableArena};
use vstd::prelude::*;

verus! {

/// Bytes in one task's kernel stack.
pub const KERNEL_STACK_SIZE: u64 = 4096 * 4;

/// A process id: a monotonic counter value, never reused.
#[derive(Debug, Clone, Copy, PartialEq, Eq, Structural, Hash)]
pub struct PId(u32);

impl PId {
    pub fn new(pid: u32) -> (r: PId)
        ensures
            r@ == pid,
    {
        PId(pid)
    }

    pub fn to_u32(&self) -> (r: u32)
        ensures
            r == self@,
    {
        self.0
    }
}

impl View for PId {
    type V = u32;

    closed spec fn view(&self) -> u32 {
        self.0
    }
}

/// Run states.  There is no exit path: tasks run forever by design, so no
/// state beyond these two exists.
#[derive(Debug, Clone, Copy, PartialEq, Eq, Structural)]
pub enum TaskState {
    Runnable,
    Stopped,
}

/// The callee-saved register context saved across a switch.
#[derive(Debug, Clone, Copy, PartialEq, Eq, Structural)]
pub struct TaskContext {
    pub rbx: u64,
    pub rbp: u64,
    pub r12: u64,
    pub r13: u64,
    pub r14: u64,
    pub r15: u64,
    pub rsp: u64,
    pub rflags: u64,
}

impl Default for TaskContext {
    fn default() -> (r: Self)
        ensures
            r == TaskContext::zeroed_spec(),
    {
        TaskContext { rbx: 0, rbp: 0, r12: 0, r13: 0, r14: 0, r15: 0, rsp: 0, rflags: 0 }
    }
}

impl TaskContext {
    /// The all-zero context a fresh task starts from.
    pub open spec fn zeroed_spec() -> TaskContext {
        TaskContext { rbx: 0, rbp: 0, r12: 0, r13: 0, r14: 0, r15: 0, rsp: 0, rflags: 0 }
    }

    /// Prime the context so that resuming it begins by returning into
    /// `func`: the entry address is pushed as the return address at the
    /// top of the fresh stack, and the flags start with interrupts
    /// enabled.
    pub fn setup_initial_call(&mut self, kstack: &mut KernelStack, func: u64)
        requires
            old(kstack).words().len() == 0,
            old(kstack).base() + KERNEL_STACK_SIZE <= u64::MAX,
        ensures
            final(kstack).base() == old(kstack).base(),
            final(kstack).words() == seq![func],
            final(self).rsp == old(kstack).base() + KERNEL_STACK_SIZE - 8,
            final(self).rflags == 0x202,
            final(self).rbx == old(self).rbx,
            final(self).rbp == old(self).rbp,
            final(self).r12 == old(self).r12,
            final(self).r13 == old(self).r13,
            final(self).r14 == old(self).r14,
            final(self).r15 == old(self).r15,
    {
        push_stack(kstack, func);
        self.rsp = kstack.base_addr() + (KERNEL_STACK_SIZE - 8);
        self.rflags = 0x202;
    }
}

/// One task's kernel stack: a fixed-size, page-aligned region at `base`,
/// allocated once at spawn and never freed.  `words` are the values pushed
/// at its top, topmost last.
pub struct KernelStack {
    base: u64,
    words: Vec<u64>,
}

impl KernelStack {
    pub closed spec fn base(&self) -> u64 {
        self.base
    }

    pub closed spec fn words(&self) -> Seq<u64> {
        self.words@
    }

    /// The region's lowest address.
    pub fn base_addr(&self) -> (r: u64)
        ensures
            r == self.base(),
    {
        self.base
    }

    /// A fresh, empty stack region starting at `base`.
    pub fn new(base: u64) -> (r: KernelStack)
        ensures
            r.base() == base,
            r.words().len() == 0,
    {
        KernelStack { base, words: Vec::new() }
    }

    /// The value currently at the top of the stack, if any.
    pub fn top(&self) -> (r: Option<u64>)
        ensures
            r == (if self.words().len() == 0 {
                None::<u64>
            } else {
                Some(self.words()[self.words().len() - 1])
            }),
    {
        if self.words.len() == 0 {
            None
        } else {
            Some(self.words[self.words.len() - 1])
        }
    }
}

/// Push one value onto a kernel stack being prepared.
pub fn push_stack(stack: &mut KernelStack, value: u64)
    ensures
        final(stack).base() == old(stack).base(),
        final(stack).words() == old(stack).words().push(value),
{
    stack.words.push(value);
}

/// One schedulable unit.
pub struct Task {
    pid: PId,
    state: TaskState,
    running: bool,
    context: TaskContext,
    page_table: Option<PageTable>,
    kernel_stack: Option<KernelStack>,
}

impl Task {
    pub closed spec fn spec_pid(&self) -> u32 {
        self.pid@
    }

    pub closed spec fn spec_state(&self) -> TaskState {
        self.state
    }

    pub closed spec fn spec_running(&self) -> bool {
        self.running
    }

    pub closed spec fn spec_context(&self) -> TaskContext {
        self.context
    }

    pub closed spec fn has_page_table(&self) -> bool {
        self.page_table is Some
    }

    /// Which arena node is the top level of the owned address space.
    pub closed spec fn spec_table_root(&self) -> int {
        self.page_table->Some_0.spec_root()
    }

    /// A fresh task: stopped, not running, zeroed context, no stack and no
    /// address space yet.
    pub fn new(pid: PId) -> (r: Task)
        ensures
            r.spec_pid() == pid@,
            r.spec_state() == TaskState::Stopped,
            !r.spec_running(),
            r.spec_context() == TaskContext::zeroed_spec(),
            !r.has_page_table(),
    {
        Task {
            pid,
            state: TaskState::Stopped,
            running: false,
            context: TaskContext::default(),
            page_table: None,
            kernel_stack: None,
        }
    }

    pub fn pid(&self) -> (r: PId)
        ensures
            r@ == self.spec_pid(),
    {
        self.pid
    }

    pub fn state(&self) -> (r: TaskState)
        ensures
            r == self.spec_state(),
    {
        self.state
    }

    pub fn is_running(&self) -> (r: bool)
        ensures
            r == self.spec_running(),
    {
        self.running
    }

    pub fn context(&self) -> (r: TaskContext)
        ensures
            r == self.spec_context(),
    {
        self.context
    }

    /// The task's address space, once it has one.
    pub fn page_table(&self) -> (r: Option<&PageTable>)
        ensures
            r is Some <==> self.has_page_table(),
            r is Some ==> r->Some_0.spec_root() == self.spec_table_root(),
    {
        self.page_table.as_ref()
    }
}

/// The run states of a task list, in list order.
pub open spec fn task_states(tasks: Seq<Task>) -> Seq<TaskState> {
    tasks.map_values(|t: Task| t.spec_state())
}

/// The round-robin scan: starting `d` positions after `cur` and wrapping,
/// the first index whose task is Runnable, if the scan finds one before it
/// has looked at every position once.
pub open spec fn scan_from(states: Seq<TaskState>, cur: int, d: int) -> Option<int>
    decreases states.len() - d + 1,
{
    if d < 1 || d > states.len() {
        None
    } else {
        let i = (cur + d) % (states.len() as int);
        if states[i] is Runnable {
            Some(i)
        } else {
            scan_from(states, cur, d + 1)
        }
    }
}

/// The index the scheduler switches to from `cur`: the first Runnable task
/// strictly after `cur` in circular list order, wrapping, with `cur`
/// itself considered last.
pub open spec fn next_runnable(states: Seq<TaskState>, cur: int) -> Option<int> {
    scan_from(states, cur, 1)
}

/// The scan result is exactly the minimal positive offset that lands on a
/// Runnable task: every earlier offset is not Runnable, and a `None` means
/// a full sweep found nothing.
pub proof fn lemma_next_runnable_minimal(states: Seq<TaskState>, cur: int)
    requires
        0 <= cur < states.len(),
    ensures
        match next_runnable(states, cur) {
            Some(i) => exists|d: int|
                1 <= d <= states.len() && i == #[trigger] ((cur + d) % (states.len() as int))
                    && states[i] is Runnable && (forall|e: int|
                    1 <= e < d ==> !(states[#[trigger] ((cur + e) % (states.len() as int))]
                        is Runnable)),
            None => forall|d: int|
                1 <= d <= states.len() ==> !(states[#[trigger] ((cur + d) % (
                states.len() as int))] is Runnable),
        },
{
    lemma_scan_minimal(states, cur, 1);
}

proof fn lemma_scan_minimal(states: Seq<TaskState>, cur: int, d0: int)
    requires
        0 <= cur < states.len(),
        1 <= d0,
    ensures
        match scan_from(states, cur, d0) {
            Some(i) => exists|d: int|
                d0 <= d <= states.len() && i == #[trigger] ((cur + d) % (states.len() as int))
                    && states[i] is Runnable && (forall|e: int|
                    d0 <= e < d ==> !(states[#[trigger] ((cur + e) % (states.len() as int))]
                        is Runnable)),
            None => forall|d: int|
                d0 <= d <= states.len() ==> !(states[#[trigger] ((cur + d) % (
                states.len() as int))] is Runnable),
        },
    decreases states.len() - d0 + 1,
{
    let len = states.len() as int;
    if d0 <= len {
        let i = (cur + d0) % len;
        vstd::arithmetic::div_mod::lemma_mod_bound(cur + d0, len);
        if states[i] is Runnable {
            assert(scan_from(states, cur, d0) == Some(i));
            assert(1 <= d0 <= states.len() && i == (cur + d0) % len && states[i] is Runnable
                && (forall|e: int|
                d0 <= e < d0 ==> !(states[#[trigger] ((cur + e) % len)] is Runnable)));
        } else {
            lemma_scan_minimal(states, cur, d0 + 1);
            if scan_from(states, cur, d0) is Some {
                let j = scan_from(states, cur, d0)->Some_0;
                let d = choose|d: int|
                    d0 + 1 <= d <= states.len() && j == #[trigger] ((cur + d) % len) && states[j] is Runnable
                        && (forall|e: int|
                        d0 + 1 <= e < d ==> !(states[#[trigger] ((cur + e) % len)] is Runnable));
                assert(d0 <= d <= states.len() && j == #[trigger] ((cur + d) % len) && states[j] is Runnable
                    && (forall|e: int|
                    d0 <= e < d ==> !(states[#[trigger] ((cur + e) % len)] is Runnable)));
            }
        }
    }
}

/// Round-robin over all-Runnable tasks is the successor position: from
/// `cur` the scheduler always picks `(cur + 1) mod len`, so repeated
/// switching visits the tasks in cyclic list order.
pub proof fn lemma_round_robin_all_runnable(states: Seq<TaskState>, cur: int)
    requires
        0 <= cur < states.len(),
        forall|j: int| 0 <= j < states.len() ==> states[j] is Runnable,
    ensures
        next_runnable(states, cur) == Some((cur + 1) % (states.len() as int)),
{
    let len = states.len() as int;
    vstd::arithmetic::div_mod::lemma_mod_bound(cur + 1, len);
}

/// With the current task the only Runnable one (or no other task at all),
/// the scan comes back to the current task itself: the degenerate case in
/// which a switch does nothing.
pub proof fn lemma_single_runnable(states: Seq<TaskState>, cur: int)
    requires
        0 <= cur < states.len(),
        states[cur] is Runnable,
        forall|j: int| 0 <= j < states.len() && j != cur ==> !(states[j] is Runnable),
    ensures
        next_runnable(states, cur) == Some(cur),
{
    let len = states.len() as int;
    lemma_next_runnable_minimal(states, cur);
    assert(cur == (cur + len) % len) by {
        vstd::arithmetic::div_mod::lemma_mod_bound(cur, len);
        vstd::arithmetic::div_mod::lemma_fundamental_div_mod_converse_mod(cur + len, len, 1, cur);
    };
    assert(states[(cur + len) % len] is Runnable);
    if next_runnable(states, cur) is None {
        assert(!(states[(cur + len) % len] is Runnable));
        assert(false);
    }
    let i = next_runnable(states, cur)->Some_0;
    let d = choose|d: int|
        1 <= d <= states.len() && i == #[trigger] ((cur + d) % len) && states[i] is Runnable && (forall|e: int|
            1 <= e < d ==> !(states[#[trigger] ((cur + e) % len)] is Runnable));
    vstd::arithmetic::div_mod::lemma_mod_bound(cur + d, len);
    assert(i == cur);
}

/// With a Stopped task in the list, the scan skips it and the relative
/// order of the remaining Runnable tasks is untouched: the chosen task is
/// the nearest Runnable successor, every position passed over on the way
/// being non-Runnable.
pub proof fn lemma_stopped_skipped(states: Seq<TaskState>, cur: int, i: int)
    requires
        0 <= cur < states.len(),
        next_runnable(states, cur) == Some(i),
    ensures
        states[i] is Runnable,
        exists|d: int|
            1 <= d <= states.len() && i == #[trigger] ((cur + d) % (states.len() as int)) && (forall|e: int|
                1 <= e < d ==> !(states[#[trigger] ((cur + e) % (states.len() as int))]
                    is Runnable)),
{
    lemma_next_runnable_minimal(states, cur);
    let len = states.len() as int;
    let d = choose|d: int|
        1 <= d <= states.len() && i == #[trigger] ((cur + d) % len) && states[i] is Runnable && (forall|e: int|
            1 <= e < d ==> !(states[#[trigger] ((cur + e) % len)] is Runnable));
    assert(1 <= d <= states.len() && i == #[trigger] ((cur + d) % len) && (forall|e: int|
        1 <= e < d ==> !(states[#[trigger] ((cur + e) % len)] is Runnable)));
}

/// Process-wide state of the one logical CPU: the tick counter, the task
/// list and the currently running task.  Initialized once at boot and in a
/// multi-CPU extension this must become one instance per CPU.
pub struct CpuContextBlock {
    ticks: u64,
    current: Option<usize>,
    tasks: Vec<Task>,
    next_pid: u32,
}

impl CpuContextBlock {
    pub closed spec fn spec_ticks(&self) -> u64 {
        self.ticks
    }

    pub closed spec fn spec_current(&self) -> Option<int> {
        match self.current {
            Some(c) => Some(c as int),
            None => None,
        }
    }

    pub closed spec fn spec_tasks(&self) -> Seq<Task> {
        self.tasks@
    }

    pub closed spec fn spec_next_pid(&self) -> u32 {
        self.next_pid
    }

    /// The scheduler invariant: a current task exists once initialized,
    /// lies in the list, and is exactly the one marked running.
    pub open spec fn wf(&self) -> bool {
        &&& self.spec_tasks().len() < 0x8000_0000
        &&& match self.spec_current() {
            Some(c) => {
                &&& 0 <= c < self.spec_tasks().len()
                &&& forall|j: int|
                    0 <= j < self.spec_tasks().len() ==> (#[trigger] self.spec_tasks()[j].spec_running()
                        <==> j == c)
            },
            None => forall|j: int|
                0 <= j < self.spec_tasks().len() ==> !(#[trigger] self.spec_tasks()[j].spec_running()),
        }
    }

    /// An empty scheduler, before the first task is installed.
    pub fn new() -> (r: Self)
        ensures
            r.wf(),
            r.spec_ticks() == 0,
            r.spec_current() is None,
            r.spec_tasks().len() == 0,
            r.spec_next_pid() == 0,
    {
        CpuContextBlock { ticks: 0, current: None, tasks: Vec::new(), next_pid: 0 }
    }

    /// One timer tick.
    pub fn tick(&mut self)
        ensures
            final(self).spec_ticks() == (if old(self).spec_ticks() == u64::MAX {
                0
            } else {
                old(self).spec_ticks() + 1
            }),
            final(self).spec_current() == old(self).spec_current(),
            final(self).spec_tasks() == old(self).spec_tasks(),
            final(self).spec_next_pid() == old(self).spec_next_pid(),
    {
        self.ticks = self.ticks.wrapping_add(1);
    }

    /// The tick count since the last switch.
    pub fn ticks(&self) -> (r: u64)
        ensures
            r == self.spec_ticks(),
    {
        self.ticks
    }

    /// The task list, in insertion order, which is also round-robin sweep
    /// order.
    pub fn tasks(&self) -> (r: &Vec<Task>)
        ensures
            r@ == self.spec_tasks(),
    {
        &self.tasks
    }

    /// The currently running task.  Once the scheduler is initialized a
    /// current task always exists; asking for it earlier is an invariant
    /// violation, not a recoverable error.
    pub fn current_task(&self) -> (r: &Task)
        requires
            self.spec_current() is Some,
            self.wf(),
        ensures
            *r == self.spec_tasks()[self.spec_current()->Some_0],
    {
        match self.current {
            Some(c) => &self.tasks[c],
            None => {
                proof {
                    assert(false);
                }
                &self.tasks[0]
            },
        }
    }

    /// Install the first (idle) task with the kernel page table: it is
    /// created Runnable, marked running, and published as current.
    pub fn init(&mut self, page_table: PageTable)
        requires
            old(self).wf(),
            old(self).spec_tasks().len() == 0,
            old(self).spec_next_pid() == 0,
        ensures
            final(self).wf(),
            final(self).spec_tasks().len() == 1,
            final(self).spec_current() == Some(0int),
            final(self).spec_next_pid() == 1,
            final(self).spec_ticks() == old(self).spec_ticks(),
            final(self).spec_tasks()[0].spec_pid() == 0,
            final(self).spec_tasks()[0].spec_state() == TaskState::Runnable,
            final(self).spec_tasks()[0].spec_running(),
            final(self).spec_tasks()[0].has_page_table(),
            final(self).spec_tasks()[0].spec_table_root() == page_table.spec_root(),
    {
        let pid = PId::new(self.next_pid);
        self.next_pid = self.next_pid + 1;
        let mut task = Task::new(pid);
        task.state = TaskState::Runnable;
        task.running = true;
        task.page_table = Some(page_table);
        self.tasks.push(task);
        self.current = Some(0);
    }

    /// Create a task that will begin execution at `func`: it gets the
    /// given fresh kernel stack, an address space duplicated from the
    /// current task's, a primed context, and is appended Runnable (but not
    /// running) at the tail of the list.
    pub fn spawn(
        &mut self,
        arena: &mut PageTableArena,
        stack: KernelStack,
        func: u64,
    ) -> (r: PId)
        requires
            old(self).wf(),
            old(self).spec_current() is Some,
            old(self).spec_tasks()[old(self).spec_current()->Some_0].has_page_table(),
            table_wf(
                old(self).spec_tasks()[old(self).spec_current()->Some_0].spec_table_root(),
                old(arena)@,
                old(arena).levels(),
            ),
            stack.words().len() == 0,
            stack.base() + KERNEL_STACK_SIZE <= u64::MAX,
            old(self).spec_next_pid() < u32::MAX,
            old(self).spec_tasks().len() + 1 < 0x8000_0000,
        ensures
            final(self).wf(),
            r@ == old(self).spec_next_pid(),
            final(self).spec_next_pid() == old(self).spec_next_pid() + 1,
            final(self).spec_current() == old(self).spec_current(),
            final(self).spec_ticks() == old(self).spec_ticks(),
            final(self).spec_tasks().len() == old(self).spec_tasks().len() + 1,
            forall|j: int|
                0 <= j < old(self).spec_tasks().len() ==> final(self).spec_tasks()[j] == old(
                    self,
                ).spec_tasks()[j],
            final(self).spec_tasks().last().spec_pid() == old(self).spec_next_pid(),
            final(self).spec_tasks().last().spec_state() == TaskState::Runnable,
            !final(self).spec_tasks().last().spec_running(),
            final(self).spec_tasks().last().spec_context().rsp == stack.base()
                + KERNEL_STACK_SIZE - 8,
            final(self).spec_tasks().last().spec_context().rflags == 0x202,
            final(self).spec_tasks().last().has_page_table(),
            final(self).spec_tasks().last().spec_table_root() == old(arena)@.len(),
            final(arena)@.len() == old(arena)@.len() + 1,
            forall|m: int| 0 <= m < old(arena)@.len() ==> final(arena)@[m] == old(arena)@[m],
            // The new address space shares the kernel mappings by
            // construction: it translates exactly as the current task's
            // table did at duplication time.
            forall|va: u64|
                #[trigger] crate::paging::translate(final(arena)@, old(arena)@.len() as int, va)
                    == crate::paging::translate(
                    old(arena)@,
                    old(self).spec_tasks()[old(self).spec_current()->Some_0].spec_table_root(),
                    va,
                ),
            table_wf(old(arena)@.len() as int, final(arena)@, final(arena).levels()),
    {
        let mut stack = stack;
        let page_table = match &self.tasks[self.current_index()].page_table {
            Some(pt) => pt.duplicate_kernel(arena),
            None => {
                proof {
                    assert(false);
                }
                PageTable::new(arena)
            },
        };
        let pid = PId::new(self.next_pid);
        self.next_pid = self.next_pid + 1;
        let mut task = Task::new(pid);
        task.context.setup_initial_call(&mut stack, func);
        task.kernel_stack = Some(stack);
        task.state = TaskState::Runnable;
        task.page_table = Some(page_table);
        self.tasks.push(task);
        proof {
            let c = old(self).spec_current()->Some_0;
            assert(self.spec_current() == old(self).spec_current());
            assert forall|j: int| 0 <= j < self.tasks@.len() implies (
            #[trigger] self.tasks@[j].spec_running() <==> j == c) by {
                if j < old(self).spec_tasks().len() {
                    assert(self.tasks@[j] == old(self).spec_tasks()[j]);
                } else {
                    assert(self.tasks@[j] == task);
                }
            }
            assert(self.tasks@.last() == task);
        }
        pid
    }

    /// The index of the current task (requires one to exist).
    fn current_index(&self) -> (r: usize)
        requires
            self.wf(),
            self.spec_current() is Some,
        ensures
            r as int == self.spec_current()->Some_0,
    {
        match self.current {
            Some(c) => c,
            None => {
                proof {
                    assert(false);
                }
                0
            },
        }
    }

    /// One scheduling decision: reset the tick counter, scan circularly
    /// from the position after the current task for the next Runnable
    /// task, and if it is a different task, hand the CPU over: the
    /// previous task stops running, the next is marked running and
    /// published as current.  Finding no other Runnable task (or only the
    /// current one again) is a valid idle outcome and changes nothing.
    /// The register swap and address-space change that realize the
    /// decision are performed by the caller, with interrupts disabled.
    pub fn switch(&mut self) -> (r: Option<PId>)
        requires
            old(self).wf(),
            old(self).spec_current() is Some,
        ensures
            final(self).wf(),
            final(self).spec_ticks() == 0,
            final(self).spec_next_pid() == old(self).spec_next_pid(),
            final(self).spec_tasks().len() == old(self).spec_tasks().len(),
            match next_runnable(
                task_states(old(self).spec_tasks()),
                old(self).spec_current()->Some_0,
            ) {
                Some(i) => {
                    if i == old(self).spec_current()->Some_0 {
                        &&& r is None
                        &&& final(self).spec_tasks() == old(self).spec_tasks()
                        &&& final(self).spec_current() == old(self).spec_current()
                    } else {
                        let cur = old(self).spec_current()->Some_0;
                        &&& r is Some
                        &&& (r->Some_0)@ == old(self).spec_tasks()[i].spec_pid()
                        &&& final(self).spec_current() == Some(i)
                        &&& !final(self).spec_tasks()[cur].spec_running()
                        &&& final(self).spec_tasks()[i].spec_running()
                        &&& forall|j: int|
                            0 <= j < old(self).spec_tasks().len() ==> (#[trigger] final(self).spec_tasks()[j]).spec_pid()
                                == old(self).spec_tasks()[j].spec_pid()
                                && final(self).spec_tasks()[j].spec_state()
                                == old(self).spec_tasks()[j].spec_state()
                                && final(self).spec_tasks()[j].spec_context()
                                == old(self).spec_tasks()[j].spec_context()
                                && final(self).spec_tasks()[j].has_page_table()
                                == old(self).spec_tasks()[j].has_page_table()
                                && final(self).spec_tasks()[j].spec_table_root()
                                == old(self).spec_tasks()[j].spec_table_root()
                    }
                },
                None => {
                    &&& r is None
                    &&& final(self).spec_tasks() == old(self).spec_tasks()
                    &&& final(self).spec_current() == old(self).spec_current()
                },
            },
    {
        self.ticks = 0;
        let len = self.tasks.len();
        let cur = self.current_index();
        let ghost states = task_states(self.tasks@);
        proof {
            assert(states.len() == len);
        }
        let mut d: usize = 1;
        let mut found: Option<usize> = None;
        while found.is_none() && d <= len
            invariant
                1 <= d <= len + 1,
                len == self.tasks@.len(),
                len < 0x8000_0000,
                (cur as int) < len,
                states == task_states(self.tasks@),
                found is None ==> scan_from(states, cur as int, 1) == scan_from(
                    states,
                    cur as int,
                    d as int,
                ),
                match found {
                    Some(i) => scan_from(states, cur as int, 1) == Some(i as int) && i < len
                        && states[i as int] is Runnable,
                    None => true,
                },
            decreases len + 1 - d,
        {
            let i = (cur + d) % len;
            proof {
                vstd::arithmetic::div_mod::lemma_mod_bound(cur as int + d as int, len as int);
                assert(states[i as int] == self.tasks@[i as int].spec_state());
            }
            let t = &self.tasks[i];
            if matches!(t.state, TaskState::Runnable) {
                found = Some(i);
                proof {
                    assert(states[i as int] is Runnable);
                    assert(scan_from(states, cur as int, d as int) == Some(i as int));
                }
            } else {
                proof {
                    assert(!(states[i as int] is Runnable));
                    assert(scan_from(states, cur as int, d as int) == scan_from(
                        states,
                        cur as int,
                        d as int + 1,
                    ));
                }
            }
            d = d + 1;
        }
        proof {
            if found is None {
                assert(scan_from(states, cur as int, 1) == scan_from(
                    states,
                    cur as int,
                    len as int + 1,
                ));
                assert(next_runnable(states, cur as int) is None);
            }
        }
        match found {
            None => None,
            Some(i) => {
                if i == cur {
                    return None;
                }
                let ghost t_old = self.tasks@;
                let prev_ref = &mut self.tasks[cur];
                prev_ref.running = false;
                let ghost t_mid = self.tasks@;
                let next_ref = &mut self.tasks[i];
                next_ref.running = true;
                self.current = Some(i);
                let pid = self.tasks[i].pid();
                proof {
                    assert(t_mid[cur as int].spec_pid() == t_old[cur as int].spec_pid());
                    assert(forall|j: int|
                        0 <= j < t_old.len() && j != cur ==> t_mid[j] == t_old[j]);
                    assert(forall|j: int|
                        0 <= j < t_old.len() && j != i ==> #[trigger] self.tasks@[j] == t_mid[j]);
                    assert(self.tasks@[i as int].spec_running());
                    assert(!self.tasks@[cur as int].spec_running());
                    assert(states[i as int] is Runnable);
                }
                Some(pid)
            },
        }
    }
}

} // verus!
