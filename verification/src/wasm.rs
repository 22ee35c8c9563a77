//! A toy stack-machine interpreter used as a demonstration workload.  It
//! is peripheral to the kernel core; here it runs on explicit fuel (the
//! demonstration tasks loop forever by design, so a caller bounds the
//! steps), and every fatal invariant violation is surfaced as an error
//! value instead of halting the system.

use vstd::prelude::*;

verus! {

/// The instruction set of the demonstration workload.
#[derive(Debug, Clone, Copy, PartialEq, Eq, Structural)]
pub enum Instruction {
    If(Block),
    End,
    Return,
    Const(i32),
    LocalGet(u32),
    I32Lts,
    I32Add,
    I32Sub,
    I32Mul,
    Call(u32),
}

#[derive(Debug, Clone, Copy, PartialEq, Eq, Structural)]
pub enum ValueType {
    I32,
}

#[derive(Debug, Clone, PartialEq, Eq)]
pub struct FuncType {
    pub params: Vec<ValueType>,
    pub results: Vec<ValueType>,
}

#[derive(Debug, Clone)]
pub struct Func {
    pub locals: Vec<i32>,
    pub body: Vec<Instruction>,
}

#[derive(Debug, Clone, Copy, PartialEq, Eq, Structural)]
pub enum BlockType {
    Void,
}

impl BlockType {
    /// How many values the block leaves on the stack.
    pub fn result_count(&self) -> (r: usize)
        ensures
            r == 0,
    {
        match self {
            BlockType::Void => 0,
        }
    }
}

#[derive(Debug, Clone, Copy, PartialEq, Eq, Structural)]
pub struct Block {
    pub block_type: BlockType,
}

#[derive(Debug, Clone, Copy, PartialEq, Eq, Structural)]
pub enum LabelKind {
    If,
}

/// A control label: where to resume, the stack level to unwind to, and
/// how many results to carry over.
#[derive(Debug, Clone, Copy, PartialEq, Eq, Structural)]
pub struct Label {
    pub kind: LabelKind,
    pub pc: usize,
    pub sp: usize,
    pub arity: usize,
}

/// One activation: program counter, caller's stack level, code, result
/// count, open labels and locals.
#[derive(Debug, Clone)]
pub struct Frame {
    pub pc: i64,
    pub sp: usize,
    pub insts: Vec<Instruction>,
    pub arity: usize,
    pub labels: Vec<Label>,
    pub locals: Vec<i32>,
}

#[derive(Debug, Clone)]
pub struct InternalFuncInst {
    pub func_type: FuncType,
    pub code: Func,
}

#[derive(Debug, Clone)]
pub enum FuncInst {
    Internal(InternalFuncInst),
}

#[derive(Debug, Clone)]
pub struct Store {
    pub funcs: Vec<FuncInst>,
}

/// The unrecoverable interpreter conditions, surfaced to the caller,
/// plus fuel exhaustion for the step bound.
#[derive(Debug, Clone, Copy, PartialEq, Eq, Structural)]
pub enum RuntimeError {
    FunctionNotFound,
    StackUnderflow,
    LocalNotFound,
    FrameNotFound,
    MissingEnd,
    MissingReturnValue,
    ProgramCounterOverflow,
    OutOfFuel,
}

/// Unwind the value stack to level `sp`, keeping the topmost value when
/// the frame returns one.
pub fn stack_unwind(stack: &mut Vec<i32>, sp: usize, arity: usize) -> (r: Result<
    (),
    RuntimeError,
>)
    ensures
        arity > 0 && old(stack)@.len() == 0 ==> r == Err::<(), RuntimeError>(
            RuntimeError::MissingReturnValue,
        ) && final(stack)@ == old(stack)@,
        arity > 0 && old(stack)@.len() > 0 && sp as int > old(stack)@.len() - 1 ==> r == Err::<
            (),
            RuntimeError,
        >(RuntimeError::StackUnderflow) && final(stack)@ == old(stack)@.drop_last(),
        arity > 0 && old(stack)@.len() > 0 && sp as int <= old(stack)@.len() - 1 ==> r is Ok
            && final(stack)@ == old(stack)@.take(sp as int).push(old(stack)@.last()),
        arity == 0 && sp as int > old(stack)@.len() ==> r == Err::<(), RuntimeError>(
            RuntimeError::StackUnderflow,
        ) && final(stack)@ == old(stack)@,
        arity == 0 && sp as int <= old(stack)@.len() ==> r is Ok && final(stack)@ == old(stack)@.take(sp as int),
{
    if arity > 0 {
        let val = match stack.pop() {
            Some(v) => v,
            None => {
                return Err(RuntimeError::MissingReturnValue);
            },
        };
        if sp > stack.len() {
            return Err(RuntimeError::StackUnderflow);
        }
        stack.truncate(sp);
        stack.push(val);
        proof {
            assert(stack@ =~= old(stack)@.take(sp as int).push(old(stack)@.last()));
        }
        Ok(())
    } else {
        if sp > stack.len() {
            return Err(RuntimeError::StackUnderflow);
        }
        stack.truncate(sp);
        proof {
            assert(stack@ =~= old(stack)@.take(sp as int));
        }
        Ok(())
    }
}

/// The position of the `End` matching an `If`, scanning from `pc` with
/// `depth` many nested blocks still open.
pub open spec fn find_end(insts: Seq<Instruction>, pc: int, depth: int) -> Option<int>
    decreases insts.len() - pc,
{
    if pc < 0 || pc >= insts.len() {
        None
    } else {
        match insts[pc] {
            Instruction::If(_) => find_end(insts, pc + 1, depth + 1),
            Instruction::End => if depth == 0 {
                Some(pc)
            } else {
                find_end(insts, pc + 1, depth - 1)
            },
            _ => find_end(insts, pc + 1, depth),
        }
    }
}

/// Find the `End` that closes the block opened at `pc`.
pub fn get_end_addr(insts: &Vec<Instruction>, pc: usize) -> (r: Result<usize, RuntimeError>)
    requires
        (pc as int) < insts@.len(),
    ensures
        match r {
            Ok(p) => find_end(insts@, pc as int + 1, 0) == Some(p as int),
            Err(e) => e == RuntimeError::MissingEnd && find_end(insts@, pc as int + 1, 0)
                is None,
        },
{
    let n = insts.len();
    let mut cur: usize = pc + 1;
    let mut depth: u64 = 0;
    while cur < insts.len()
        invariant
            pc as int + 1 <= cur as int <= insts@.len(),
            depth <= cur as u64,
            find_end(insts@, pc as int + 1, 0) == find_end(insts@, cur as int, depth as int),
        decreases insts@.len() - cur,
    {
        match insts[cur] {
            Instruction::If(_) => {
                depth = depth + 1;
            },
            Instruction::End => {
                if depth == 0 {
                    return Ok(cur);
                }
                depth = depth - 1;
            },
            _ => {},
        }
        cur = cur + 1;
    }
    Err(RuntimeError::MissingEnd)
}

/// The interpreter: a store of functions, the value stack and the call
/// stack.
#[derive(Debug)]
pub struct Runtime {
    pub store: Store,
    pub stack: Vec<i32>,
    pub call_stack: Vec<Frame>,
}

impl Runtime {
    pub fn new(store: Store) -> (r: Self)
        ensures
            r.stack@.len() == 0,
            r.call_stack@.len() == 0,
    {
        Runtime { store, stack: Vec::new(), call_stack: Vec::new() }
    }

    /// Enter a function: its parameters leave the value stack and become
    /// the locals (followed by zeroed declared locals), and a fresh frame
    /// is pushed whose saved stack level is the caller's.
    pub fn push_frame(&mut self, func: &InternalFuncInst) -> (r: Result<(), RuntimeError>)
        ensures
            r is Ok <==> func.func_type.params@.len() <= old(self).stack@.len(),
            r is Err ==> r == Err::<(), RuntimeError>(RuntimeError::StackUnderflow) && final(self).stack@ == old(self).stack@ && final(self).call_stack@ == old(self).call_stack@,
            r is Ok ==> {
                let bottom = old(self).stack@.len() - func.func_type.params@.len();
                &&& final(self).stack@ == old(self).stack@.take(bottom as int)
                &&& final(self).call_stack@.len() == old(self).call_stack@.len() + 1
                &&& final(self).call_stack@.drop_last() == old(self).call_stack@
                &&& final(self).call_stack@.last().pc == -1
                &&& final(self).call_stack@.last().sp == bottom
                &&& final(self).call_stack@.last().arity == func.func_type.results@.len()
                &&& final(self).call_stack@.last().labels@.len() == 0
                &&& final(self).call_stack@.last().locals@ == old(self).stack@.skip(
                    bottom as int,
                ) + Seq::new(func.code.locals@.len(), |i: int| 0i32)
            },
    {
        if func.func_type.params.len() > self.stack.len() {
            return Err(RuntimeError::StackUnderflow);
        }
        let bottom = self.stack.len() - func.func_type.params.len();
        let mut locals = self.stack.split_off(bottom);
        let mut k: usize = 0;
        let n_locals = func.code.locals.len();
        while k < n_locals
            invariant
                k <= n_locals,
                locals@ == old(self).stack@.skip(
                    old(self).stack@.len() - func.func_type.params@.len(),
                ) + Seq::new(k as nat, |i: int| 0i32),
            decreases n_locals - k,
        {
            locals.push(0);
            proof {
                assert(locals@ =~= old(self).stack@.skip(
                    old(self).stack@.len() - func.func_type.params@.len(),
                ) + Seq::new(k as nat + 1, |i: int| 0i32));
            }
            k = k + 1;
        }
        let arity = func.func_type.results.len();
        let frame = Frame {
            pc: -1,
            sp: self.stack.len(),
            insts: func.code.body.clone(),
            arity,
            labels: Vec::new(),
            locals,
        };
        self.call_stack.push(frame);
        proof {
            assert(self.call_stack@.drop_last() =~= old(self).call_stack@);
        }
        Ok(())
    }

    /// Run `func` to completion (or until the fuel runs out) and take its
    /// result off the stack if it returns one.
    pub fn invoke(&mut self, func: InternalFuncInst, fuel: u64) -> (r: Result<
        Option<i32>,
        RuntimeError,
    >) {
        let arity = func.func_type.results.len();
        match self.push_frame(&func) {
            Ok(()) => {},
            Err(e) => {
                return Err(e);
            },
        }
        match self.execute(fuel) {
            Ok(()) => {},
            Err(e) => {
                return Err(e);
            },
        }
        if arity > 0 {
            match self.stack.pop() {
                Some(v) => Ok(Some(v)),
                None => Err(RuntimeError::MissingReturnValue),
            }
        } else {
            Ok(None)
        }
    }

    /// Call function `idx` on `args` with a step budget.  The stack is
    /// cleared first, as each call is a fresh top-level invocation.
    pub fn call(&mut self, idx: usize, args: Vec<i32>, fuel: u64) -> (r: Result<
        Option<i32>,
        RuntimeError,
    >)
        ensures
            idx as int >= old(self).store.funcs@.len() ==> r == Err::<Option<i32>, RuntimeError>(
                RuntimeError::FunctionNotFound,
            ),
    {
        self.stack.clear();
        if idx >= self.store.funcs.len() {
            return Err(RuntimeError::FunctionNotFound);
        }
        let mut k: usize = 0;
        let n = args.len();
        while k < n
            invariant
                k <= args@.len(),
                n == args@.len(),
                self.stack@.len() == k,
                self.store == old(self).store,
            decreases n - k,
        {
            self.stack.push(args[k]);
            k = k + 1;
        }
        let func = match &self.store.funcs[idx] {
            FuncInst::Internal(f) => f.clone(),
        };
        self.invoke(func, fuel)
    }

    /// The interpreter loop: step instructions until the call stack
    /// empties, the current code runs out, an invariant violation is met,
    /// or the fuel budget is spent.
    pub fn execute(&mut self, fuel: u64) -> (r: Result<(), RuntimeError>) {
        let mut remaining = fuel;
        loop
            decreases remaining,
        {
            if remaining == 0 {
                return Err(RuntimeError::OutOfFuel);
            }
            remaining = remaining - 1;
            if self.call_stack.len() == 0 {
                break;
            }
            let fi = self.call_stack.len() - 1;
            let pc_now = {
                let frame = &mut self.call_stack[fi];
                if frame.pc == i64::MAX {
                    return Err(RuntimeError::ProgramCounterOverflow);
                }
                frame.pc = frame.pc + 1;
                frame.pc
            };
            let inst_opt = {
                let frame = &self.call_stack[fi];
                if 0 <= pc_now && (pc_now as u64) < (frame.insts.len() as u64) {
                    Some(frame.insts[pc_now as usize])
                } else {
                    None
                }
            };
            let inst = match inst_opt {
                Some(x) => x,
                None => {
                    break;
                },
            };
            match inst {
                Instruction::I32Add => {
                    let (rhs, lhs) = match (self.stack.pop(), self.stack.pop()) {
                        (Some(r0), Some(l0)) => (r0, l0),
                        _ => {
                            return Err(RuntimeError::StackUnderflow);
                        },
                    };
                    self.stack.push(lhs.wrapping_add(rhs));
                },
                Instruction::I32Sub => {
                    let (rhs, lhs) = match (self.stack.pop(), self.stack.pop()) {
                        (Some(r0), Some(l0)) => (r0, l0),
                        _ => {
                            return Err(RuntimeError::StackUnderflow);
                        },
                    };
                    self.stack.push(lhs.wrapping_sub(rhs));
                },
                Instruction::I32Mul => {
                    let (rhs, lhs) = match (self.stack.pop(), self.stack.pop()) {
                        (Some(r0), Some(l0)) => (r0, l0),
                        _ => {
                            return Err(RuntimeError::StackUnderflow);
                        },
                    };
                    self.stack.push(lhs.wrapping_mul(rhs));
                },
                Instruction::I32Lts => {
                    let (rhs, lhs) = match (self.stack.pop(), self.stack.pop()) {
                        (Some(r0), Some(l0)) => (r0, l0),
                        _ => {
                            return Err(RuntimeError::StackUnderflow);
                        },
                    };
                    self.stack.push(
                        if lhs < rhs {
                            1
                        } else {
                            0
                        },
                    );
                },
                Instruction::Const(val) => {
                    self.stack.push(val);
                },
                Instruction::LocalGet(idx) => {
                    let val = {
                        let frame = &self.call_stack[fi];
                        if (idx as u64) < (frame.locals.len() as u64) {
                            frame.locals[idx as usize]
                        } else {
                            return Err(RuntimeError::LocalNotFound);
                        }
                    };
                    self.stack.push(val);
                },
                Instruction::Call(idx) => {
                    let func = {
                        if (idx as u64) < (self.store.funcs.len() as u64) {
                            match &self.store.funcs[idx as usize] {
                                FuncInst::Internal(f) => f.clone(),
                            }
                        } else {
                            return Err(RuntimeError::FunctionNotFound);
                        }
                    };
                    match self.push_frame(&func) {
                        Ok(()) => {},
                        Err(e) => {
                            return Err(e);
                        },
                    }
                },
                Instruction::If(block) => {
                    let cond = match self.stack.pop() {
                        Some(c) => c,
                        None => {
                            return Err(RuntimeError::StackUnderflow);
                        },
                    };
                    let next_pc = {
                        let frame = &self.call_stack[fi];
                        match get_end_addr(&frame.insts, pc_now as usize) {
                            Ok(p) => p,
                            Err(e) => {
                                return Err(e);
                            },
                        }
                    };
                    if next_pc > i64::MAX as usize {
                        return Err(RuntimeError::ProgramCounterOverflow);
                    }
                    let sp_now = self.stack.len();
                    let frame = &mut self.call_stack[fi];
                    if cond == 0 {
                        frame.pc = next_pc as i64;
                    }
                    let label = Label {
                        kind: LabelKind::If,
                        pc: next_pc,
                        sp: sp_now,
                        arity: block.block_type.result_count(),
                    };
                    frame.labels.push(label);
                },
                Instruction::Return => {
                    let frame = match self.call_stack.pop() {
                        Some(f) => f,
                        None => {
                            return Err(RuntimeError::FrameNotFound);
                        },
                    };
                    match stack_unwind(&mut self.stack, frame.sp, frame.arity) {
                        Ok(()) => {},
                        Err(e) => {
                            return Err(e);
                        },
                    }
                },
                Instruction::End => {
                    let label_opt = {
                        let frame = &mut self.call_stack[fi];
                        frame.labels.pop()
                    };
                    match label_opt {
                        Some(label) => {
                            if label.pc > i64::MAX as usize {
                                return Err(RuntimeError::ProgramCounterOverflow);
                            }
                            {
                                let frame = &mut self.call_stack[fi];
                                frame.pc = label.pc as i64;
                            }
                            match stack_unwind(&mut self.stack, label.sp, label.arity) {
                                Ok(()) => {},
                                Err(e) => {
                                    return Err(e);
                                },
                            }
                        },
                        None => {
                            let frame = match self.call_stack.pop() {
                                Some(f) => f,
                                None => {
                                    return Err(RuntimeError::FrameNotFound);
                                },
                            };
                            match stack_unwind(&mut self.stack, frame.sp, frame.arity) {
                                Ok(()) => {},
                                Err(e) => {
                                    return Err(e);
                                },
                            }
                        },
                    }
                },
            }
        }
        Ok(())
    }
}

} // verus!
