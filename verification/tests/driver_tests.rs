use lib::c::ast::{Constant as AstConstant, Expression, Initializer, Integer, IntegerBase, IntegerSize, UnaryOperator};
use lib::ir::driver::interp;
use lib::ir::interp::{Byte, InterpreterError, Pc};
use lib::ir::machine::State;
use lib::ir::{
    BinaryOperator, Block, BlockExit, BlockId, Constant, Declaration, Dtype, FunctionDefinition, FunctionSignature,
    Instruction, Named, Operand, RegisterId, TranslationUnit, Value,
};
use lib::utils::StringMap;

fn int_type() -> Dtype {
    Dtype::int_type()
}

fn number(text: &str) -> Expression {
    Expression::Constant(AstConstant::Integer(Integer {
        base: IntegerBase::Decimal,
        number: text.to_string(),
        size: IntegerSize::Int,
        unsigned: false,
    }))
}

/// `int g = -5; int a[3] = {1, 2}; int main() { return g + 3; }`.
fn program(main_defined: bool) -> TranslationUnit {
    let g_ptr = Operand::constant(Constant::GlobalVariable { name: "g".to_string(), dtype: int_type() });
    let main = FunctionDefinition {
        allocations: vec![],
        blocks: vec![(
            BlockId(0),
            Block {
                phinodes: vec![],
                instructions: vec![
                    Named::new(None, Instruction::Load { ptr: g_ptr }),
                    Named::new(None, Instruction::BinOp {
                        op: BinaryOperator::Plus,
                        lhs: Operand::register(RegisterId::temp(BlockId(0), 0), int_type()),
                        rhs: Operand::constant(Constant::integer(3, int_type())),
                        dtype: int_type(),
                    }),
                ],
                exit: BlockExit::Return { value: Operand::register(RegisterId::temp(BlockId(0), 1), int_type()) },
            },
        )],
        bid_init: BlockId(0),
    };
    let mut decls = StringMap::new();
    decls.insert("g".to_string(), Declaration::Variable {
        dtype: int_type(),
        initializer: Some(Initializer::Expression(Expression::UnaryOperator {
            operator: UnaryOperator::Minus,
            operand: Box::new(number("5")),
        })),
    });
    decls.insert("a".to_string(), Declaration::Variable {
        dtype: Dtype::array(int_type(), 3),
        initializer: Some(Initializer::List(vec![
            Initializer::Expression(number("1")),
            Initializer::Expression(number("2")),
        ])),
    });
    decls.insert("main".to_string(), Declaration::Function {
        signature: FunctionSignature::new(Dtype::function(int_type(), vec![])),
        definition: if main_defined { Some(main) } else { None },
    });
    TranslationUnit { decls, structs: StringMap::new() }
}

#[test]
fn default_values() {
    let structs = StringMap::new();
    assert!(matches!(
        Value::default_from_dtype(&int_type(), &structs),
        Ok(Value::Int { value: 0, width: 32, is_signed: true })
    ));
    match Value::default_from_dtype(&Dtype::array(Dtype::pointer(int_type()), 2), &structs) {
        Ok(Value::Array { values, .. }) => {
            assert_eq!(values.len(), 2);
            assert!(matches!(values[1], Value::Pointer { bid: None, offset: 0, .. }));
        },
        other => panic!("unexpected {other:?}"),
    }
}

#[test]
fn initializer_values() {
    let structs = StringMap::new();
    let list = Initializer::List(vec![Initializer::Expression(number("7"))]);
    match Value::try_from_initializer(&list, &Dtype::array(int_type(), 2), &structs) {
        Ok(Value::Array { values, .. }) => {
            assert!(matches!(values[0], Value::Int { value: 7, .. }));
            assert!(matches!(values[1], Value::Int { value: 0, .. }));
        },
        other => panic!("unexpected {other:?}"),
    }
    // a character-sized variable takes the constant cast to 8 bits
    let v = Value::try_from_initializer(&Initializer::Expression(number("300")), &Dtype::char_type(), &structs);
    assert!(matches!(v, Ok(Value::Int { value: 44, width: 8, .. })));
    // a list for a scalar, and an expression that is no constant, fail
    assert!(Value::try_from_initializer(&list, &int_type(), &structs).is_err());
    assert!(Value::try_from_initializer(&Initializer::Expression(Expression::Other), &int_type(), &structs).is_err());
}

#[test]
fn first_state() {
    let ir = program(true);
    let state = State::new(&ir, vec![]).unwrap();
    assert_eq!(state.stack_frame.func_name, "main");
    assert_eq!(state.stack_frame.pc, Pc { bid: BlockId(0), iid: 0 });
    assert_eq!(state.global_map.get_bid(&"g".to_string()), Some(0));
    assert_eq!(state.global_map.get_bid(&"a".to_string()), Some(1));
    assert!(matches!(
        state.memory.load(0, 0, &int_type(), &ir.structs),
        Ok(Value::Int { value, width: 32, is_signed: true }) if value == (-5i128) as u128
    ));
    assert!(matches!(state.memory.load(1, 4, &int_type(), &ir.structs), Ok(Value::Int { value: 2, .. })));
    assert!(matches!(state.memory.load(1, 8, &int_type(), &ir.structs), Ok(Value::Int { value: 0, .. })));
}

#[test]
fn start_errors() {
    let mut decls = StringMap::new();
    decls.insert("g".to_string(), Declaration::Variable { dtype: int_type(), initializer: None });
    let no_main = TranslationUnit { decls, structs: StringMap::new() };
    assert!(matches!(State::new(&no_main, vec![]), Err(InterpreterError::NoMainFunction)));
    let undefined = program(false);
    match State::new(&undefined, vec![]) {
        Err(InterpreterError::NoFunctionDefinition { func_name }) => assert_eq!(func_name, "main"),
        other => panic!("unexpected {:?}", other.err()),
    }
    let mut bad = program(true);
    bad.decls.insert("b".to_string(), Declaration::Variable {
        dtype: int_type(),
        initializer: Some(Initializer::List(vec![])),
    });
    match State::new(&bad, vec![]) {
        Err(e) => assert_eq!(e.to_string(), "main:b0:0 / fail to translate `Initializer` and `i32` to `Value`"),
        Ok(_) => panic!("an initializer list for an integer is refused"),
    }
}

#[test]
fn run_main() {
    let ir = program(true);
    match interp(&ir, vec![], 100) {
        Ok(Some(Value::Int { value, width: 32, is_signed: true })) => assert_eq!(value, (-2i128) as u128),
        other => panic!("unexpected {other:?}"),
    }
    // the fuel runs out before the return
    assert!(matches!(interp(&ir, vec![], 2), Ok(None)));
}

#[test]
fn written_bytes_read_back() {
    let structs = StringMap::new();
    let v = Value::Int { value: 0x1234, width: 16, is_signed: false };
    let bytes = Byte::value_to_bytes(&v, &structs);
    assert!(matches!(
        Byte::bytes_to_value(bytes.as_slice(), &Dtype::integer(16).set_signed(false), &structs),
        Ok(Value::Int { value: 0x1234, width: 16, is_signed: false })
    ));
}
