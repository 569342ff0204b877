use lib::ir::interp::{GlobalMap, InterpreterError, Pc};
use lib::ir::machine::{RegisterMap, StackFrame, State};
use lib::ir::memory::Memory;
use lib::ir::{
    BinaryOperator, Block, BlockExit, BlockId, Constant, Declaration, Dtype, FunctionDefinition, FunctionSignature,
    Instruction, JumpArg, Named, Operand, RegisterId, TranslationUnit, Value,
};
use lib::utils::StringMap;

fn int_type() -> Dtype {
    Dtype::int_type()
}

fn temp(bid: usize, iid: usize) -> Operand {
    Operand::register(RegisterId::temp(BlockId(bid), iid), int_type())
}

fn int_value(value: u128) -> Value {
    Value::Int { value, width: 32, is_signed: true }
}

/// `int f(int a) { int x = a; return x + 1; }`, and `int main() { return f(7); }`.
fn program() -> TranslationUnit {
    let local0 = Operand::register(RegisterId::local(0), Dtype::pointer(int_type()));
    let f = FunctionDefinition {
        allocations: vec![Named::new(Some("x".to_string()), int_type())],
        blocks: vec![(
            BlockId(0),
            Block {
                phinodes: vec![Named::new(Some("a".to_string()), int_type())],
                instructions: vec![
                    Named::new(None, Instruction::Store {
                        ptr: Operand::register(RegisterId::local(0), Dtype::pointer(int_type())),
                        value: Operand::register(RegisterId::arg(BlockId(0), 0), int_type()),
                    }),
                    Named::new(None, Instruction::Load { ptr: local0 }),
                    Named::new(None, Instruction::BinOp {
                        op: BinaryOperator::Plus,
                        lhs: temp(0, 1),
                        rhs: Operand::constant(Constant::integer(1, int_type())),
                        dtype: int_type(),
                    }),
                ],
                exit: BlockExit::Return { value: temp(0, 2) },
            },
        )],
        bid_init: BlockId(0),
    };
    let f_type = Dtype::function(int_type(), vec![int_type()]);
    let main = FunctionDefinition {
        allocations: vec![],
        blocks: vec![(
            BlockId(0),
            Block {
                phinodes: vec![],
                instructions: vec![Named::new(None, Instruction::Call {
                    callee: Operand::constant(Constant::GlobalVariable {
                        name: "f".to_string(),
                        dtype: f_type.clone(),
                    }),
                    args: vec![Operand::constant(Constant::integer(7, int_type()))],
                    return_type: int_type(),
                })],
                exit: BlockExit::Jump { arg: JumpArg::new(BlockId(1), vec![temp(0, 0)]) },
            },
        ), (
            BlockId(1),
            Block {
                phinodes: vec![Named::new(None, int_type())],
                instructions: vec![],
                exit: BlockExit::Return {
                    value: Operand::register(RegisterId::arg(BlockId(1), 0), int_type()),
                },
            },
        )],
        bid_init: BlockId(0),
    };
    let mut decls = StringMap::new();
    decls.insert("f".to_string(), Declaration::Function {
        signature: FunctionSignature::new(f_type),
        definition: Some(f),
    });
    decls.insert("main".to_string(), Declaration::Function {
        signature: FunctionSignature::new(Dtype::function(int_type(), vec![])),
        definition: Some(main),
    });
    decls.insert("g".to_string(), Declaration::Function {
        signature: FunctionSignature::new(Dtype::function(int_type(), vec![])),
        definition: None,
    });
    TranslationUnit { decls, structs: StringMap::new() }
}

fn main_state(ir: &TranslationUnit) -> State<'_> {
    let mut global_map = GlobalMap::new();
    global_map.insert("f".to_string(), 0).unwrap();
    global_map.insert("main".to_string(), 1).unwrap();
    global_map.insert("g".to_string(), 2).unwrap();
    let main = match ir.decls.get(&"main".to_string()) {
        Some(Declaration::Function { definition: Some(def), .. }) => def,
        _ => panic!("main is defined"),
    };
    State {
        global_map,
        stack_frame: StackFrame::new(BlockId(0), "main".to_string(), main),
        stack: Vec::new(),
        memory: Memory::new(),
        ir,
    }
}

#[test]
fn registers_keep_the_last_write() {
    let mut registers = RegisterMap::new();
    registers.write(RegisterId::local(0), int_value(1));
    registers.write(RegisterId::temp(BlockId(0), 0), int_value(2));
    registers.write(RegisterId::local(0), int_value(3));
    assert!(matches!(registers.read(&RegisterId::local(0)), Value::Int { value: 3, .. }));
    assert!(matches!(registers.read(&RegisterId::temp(BlockId(0), 0)), Value::Int { value: 2, .. }));
}

#[test]
fn values_are_copied_alike() {
    let v = Value::Array { inner_dtype: int_type(), values: vec![int_value(4), Value::Undef { dtype: int_type() }] };
    match v.duplicate() {
        Value::Array { values, .. } => {
            assert_eq!(values.len(), 2);
            assert!(matches!(values[0], Value::Int { value: 4, width: 32, is_signed: true }));
            assert!(matches!(values[1], Value::Undef { .. }));
        },
        other => panic!("unexpected {other:?}"),
    }
}

#[test]
fn call_and_return_by_steps() {
    let ir = program();
    let mut state = main_state(&ir);
    // the call enters `f` at its first instruction, with the argument and a fresh block
    assert!(matches!(state.step(), Ok(None)));
    assert_eq!(state.stack.len(), 1);
    assert_eq!(state.stack_frame.func_name, "f");
    assert_eq!(state.stack_frame.pc, Pc { bid: BlockId(0), iid: 0 });
    assert!(matches!(state.stack_frame.registers.read(&RegisterId::arg(BlockId(0), 0)), Value::Int { value: 7, .. }));
    assert!(matches!(
        state.stack_frame.registers.read(&RegisterId::local(0)),
        Value::Pointer { bid: Some(0), offset: 0, .. }
    ));
    // store, load, add
    for _ in 0..3 {
        assert!(matches!(state.step(), Ok(None)));
    }
    assert!(matches!(state.stack_frame.registers.read(&RegisterId::temp(BlockId(0), 1)), Value::Int { value: 7, .. }));
    assert!(matches!(state.stack_frame.registers.read(&RegisterId::temp(BlockId(0), 2)), Value::Int { value: 8, .. }));
    // the return resumes `main` with the result in the register of the call
    assert!(matches!(state.step(), Ok(None)));
    assert_eq!(state.stack.len(), 0);
    assert_eq!(state.stack_frame.func_name, "main");
    assert_eq!(state.stack_frame.pc, Pc { bid: BlockId(0), iid: 1 });
    assert!(matches!(state.stack_frame.registers.read(&RegisterId::temp(BlockId(0), 0)), Value::Int { value: 8, .. }));
    // the jump passes it to block 1, which returns it
    assert!(matches!(state.step(), Ok(None)));
    assert_eq!(state.stack_frame.pc, Pc { bid: BlockId(1), iid: 0 });
    match state.step() {
        Ok(Some(Value::Int { value: 8, width: 32, is_signed: true })) => {},
        other => panic!("unexpected {other:?}"),
    }
}

#[test]
fn errors_of_instructions() {
    let ir = program();
    let mut state = main_state(&ir);
    // a call of a function without definition
    let call = Instruction::Call {
        callee: Operand::constant(Constant::GlobalVariable {
            name: "g".to_string(),
            dtype: Dtype::function(int_type(), vec![]),
        }),
        args: vec![],
        return_type: int_type(),
    };
    match state.interp_instruction(&call) {
        Err(InterpreterError::NoFunctionDefinition { func_name }) => assert_eq!(func_name, "g"),
        other => panic!("unexpected {other:?}"),
    }
    // a load through a value that is no pointer
    let load = Instruction::Load { ptr: Operand::constant(Constant::integer(3, int_type())) };
    match state.interp_instruction(&load) {
        Err(e) => assert_eq!(e.to_string(), "main:b0:0 / Accessing memory with non-pointer"),
        other => panic!("unexpected {other:?}"),
    }
    // a store outside its block
    let x = state.memory.allocate(&int_type(), &ir.structs).unwrap();
    let store = Instruction::Store {
        ptr: Operand::constant(Constant::GlobalVariable { name: "g".to_string(), dtype: int_type() }),
        value: Operand::constant(Constant::integer(5, int_type())),
    };
    assert_eq!(x, 0);
    state.global_map = GlobalMap::new();
    state.global_map.insert("g".to_string(), 0).unwrap();
    assert!(state.interp_instruction(&store).is_ok());
    assert!(matches!(state.memory.load(0, 0, &int_type(), &ir.structs).unwrap(), Value::Int { value: 5, .. }));
    let far = Instruction::GetElementPtr {
        ptr: Operand::constant(Constant::GlobalVariable { name: "g".to_string(), dtype: int_type() }),
        offset: Operand::constant(Constant::integer(2, Dtype::long_type())),
        dtype: Box::new(Dtype::pointer(int_type())),
    };
    assert!(state.interp_instruction(&far).is_ok());
    assert!(matches!(
        state.stack_frame.registers.read(&RegisterId::temp(BlockId(0), 1)),
        Value::Pointer { bid: Some(0), offset: 2, .. }
    ));
    let store_far = Instruction::Store {
        ptr: Operand::register(RegisterId::temp(BlockId(0), 1), Dtype::pointer(int_type())),
        value: Operand::constant(Constant::integer(5, int_type())),
    };
    match state.interp_instruction(&store_far) {
        Err(e) => assert_eq!(e.to_string(), "main:b0:2 / fail to store value into memory with bid: 0, offset: 2"),
        other => panic!("unexpected {other:?}"),
    }
}
