use noctis::wasm::{
    get_end_addr, stack_unwind, Block, BlockType, Func, FuncInst, FuncType, Instruction,
    InternalFuncInst, Runtime, RuntimeError, Store, ValueType,
};

/// The recursive demonstration workload: fib(n) via self-calls.
fn fib_store() -> Store {
    Store {
        funcs: vec![FuncInst::Internal(InternalFuncInst {
            func_type: FuncType {
                params: vec![ValueType::I32],
                results: vec![ValueType::I32],
            },
            code: Func {
                locals: vec![],
                body: vec![
                    Instruction::LocalGet(0),
                    Instruction::Const(2),
                    Instruction::I32Lts,
                    Instruction::If(Block { block_type: BlockType::Void }),
                    Instruction::LocalGet(0),
                    Instruction::Return,
                    Instruction::End,
                    Instruction::LocalGet(0),
                    Instruction::Const(1),
                    Instruction::I32Sub,
                    Instruction::Call(0),
                    Instruction::LocalGet(0),
                    Instruction::Const(2),
                    Instruction::I32Sub,
                    Instruction::Call(0),
                    Instruction::I32Add,
                    Instruction::Return,
                ],
            },
        })],
    }
}

#[test]
fn fib_computes() {
    let mut rt = Runtime::new(fib_store());
    assert_eq!(rt.call(0, vec![8], 1_000_000), Ok(Some(21)));
    // The runtime can be reused call after call.
    assert_eq!(rt.call(0, vec![0], 1_000_000), Ok(Some(0)));
    assert_eq!(rt.call(0, vec![1], 1_000_000), Ok(Some(1)));
    assert_eq!(rt.call(0, vec![10], 1_000_000), Ok(Some(55)));
}

#[test]
fn missing_function_is_reported() {
    let mut rt = Runtime::new(fib_store());
    assert_eq!(rt.call(7, vec![1], 100), Err(RuntimeError::FunctionNotFound));
}

#[test]
fn fuel_runs_out_on_long_computations() {
    let mut rt = Runtime::new(fib_store());
    assert_eq!(rt.call(0, vec![20], 10), Err(RuntimeError::OutOfFuel));
}

#[test]
fn block_result_count_is_zero_for_void() {
    assert_eq!(BlockType::Void.result_count(), 0);
}

#[test]
fn stack_unwind_keeps_result() {
    let mut stack = vec![10, 20, 30, 40];
    // With a result, the topmost value survives above the unwound level.
    assert_eq!(stack_unwind(&mut stack, 1, 1), Ok(()));
    assert_eq!(stack, vec![10, 40]);
    // Without, the stack is cut to the level.
    let mut stack2 = vec![10, 20, 30];
    assert_eq!(stack_unwind(&mut stack2, 0, 0), Ok(()));
    assert_eq!(stack2, Vec::<i32>::new());
    // Unwinding an empty stack with a result owed is an error.
    let mut stack3: Vec<i32> = vec![];
    assert_eq!(
        stack_unwind(&mut stack3, 0, 1),
        Err(RuntimeError::MissingReturnValue)
    );
}

#[test]
fn end_addr_matches_nesting() {
    let insts = vec![
        Instruction::If(Block { block_type: BlockType::Void }), // 0
        Instruction::If(Block { block_type: BlockType::Void }), // 1
        Instruction::End,                                       // 2 closes 1
        Instruction::End,                                       // 3 closes 0
        Instruction::End,                                       // 4
    ];
    assert_eq!(get_end_addr(&insts, 0), Ok(3));
    assert_eq!(get_end_addr(&insts, 1), Ok(2));
    let open = vec![Instruction::If(Block { block_type: BlockType::Void })];
    assert_eq!(get_end_addr(&open, 0), Err(RuntimeError::MissingEnd));
}

#[test]
fn arithmetic_wraps_like_hardware() {
    let store = Store {
        funcs: vec![FuncInst::Internal(InternalFuncInst {
            func_type: FuncType {
                params: vec![],
                results: vec![ValueType::I32],
            },
            code: Func {
                locals: vec![],
                body: vec![
                    Instruction::Const(i32::MAX),
                    Instruction::Const(1),
                    Instruction::I32Add,
                    Instruction::Return,
                ],
            },
        })],
    };
    let mut rt = Runtime::new(store);
    assert_eq!(rt.call(0, vec![], 100), Ok(Some(i32::MIN)));
}
