use lib::c::ast::{Constant as AstConstant, Expression, Initializer, IntegerBase, IntegerSize, UnaryOperator as AstUnary};
use lib::ir::parse::{constant_with_dtype, parse_translation_unit, Parse};
use lib::ir::{
    BinaryOperator, Block, BlockExit, BlockId, Constant, Declaration, Dtype, FunctionDefinition, FunctionSignature,
    Instruction, Named, Operand, RegisterId, TranslationUnit,
};
use lib::utils::StringMap;
use lib::write_base::WriteLine;

fn int_type() -> Dtype {
    Dtype::int_type()
}

fn printed(u: &TranslationUnit) -> String {
    let mut out = String::new();
    u.write_line(0, &mut out);
    out
}

fn program() -> TranslationUnit {
    let local0 = || Operand::register(RegisterId::local(0), Dtype::pointer(int_type()));
    let temp = |iid: usize| Operand::register(RegisterId::temp(BlockId(0), iid), int_type());
    let mut structs = StringMap::new();
    let fields = vec![Named::new(Some("x".to_string()), int_type()), Named::new(None, Dtype::char_type())];
    structs.insert("P".to_string(), Some(Dtype::structure(Some("P".to_string()), Some(fields))));
    structs.insert("Q".to_string(), None);
    let entry = Block {
        phinodes: vec![Named::new(Some("a".to_string()), int_type())],
        instructions: vec![
            Named::new(None, Instruction::Store {
                ptr: local0(),
                value: Operand::register(RegisterId::arg(BlockId(0), 0), int_type()),
            }),
            Named::new(Some("v".to_string()), Instruction::Load { ptr: local0() }),
            Named::new(None, Instruction::BinOp {
                op: BinaryOperator::Minus,
                lhs: temp(1),
                rhs: Operand::constant(Constant::integer(1, int_type())),
                dtype: int_type(),
            }),
            Named::new(None, Instruction::BinOp {
                op: BinaryOperator::Less,
                lhs: temp(2),
                rhs: Operand::constant(Constant::integer(3, int_type())),
                dtype: Dtype::bool_type(),
            }),
        ],
        exit: BlockExit::ConditionalJump {
            condition: Operand::register(RegisterId::temp(BlockId(0), 3), Dtype::bool_type()),
            arg_then: Box::new(lib::ir::JumpArg::new(BlockId(1), vec![temp(2)])),
            arg_else: Box::new(lib::ir::JumpArg::new(BlockId(2), vec![])),
        },
    };
    let then_block = Block {
        phinodes: vec![Named::new(None, int_type())],
        instructions: vec![],
        exit: BlockExit::Return { value: Operand::register(RegisterId::arg(BlockId(1), 0), int_type()) },
    };
    let else_block = Block {
        phinodes: vec![],
        instructions: vec![Named::new(None, Instruction::Call {
            callee: Operand::constant(Constant::global_variable(
                "h".to_string(),
                Dtype::function(int_type(), vec![int_type()]),
            )),
            args: vec![Operand::constant(Constant::integer(7, int_type()))],
            return_type: int_type(),
        })],
        exit: BlockExit::Switch {
            value: Operand::register(RegisterId::temp(BlockId(2), 0), int_type()),
            default: Box::new(lib::ir::JumpArg::new(BlockId(1), vec![Operand::constant(Constant::integer(0, int_type()))])),
            cases: vec![(Constant::integer(5, int_type()), lib::ir::JumpArg::new(BlockId(1), vec![temp(2)]))],
        },
    };
    let body = FunctionDefinition {
        allocations: vec![Named::new(Some("x".to_string()), int_type())],
        blocks: vec![(BlockId(0), entry), (BlockId(1), then_block), (BlockId(2), else_block)],
        bid_init: BlockId(0),
    };
    let signature = || FunctionSignature::new(Dtype::function(int_type(), vec![int_type()]));
    let mut decls = StringMap::new();
    decls.insert("f".to_string(), Declaration::Function { signature: signature(), definition: Some(body) });
    decls.insert("g".to_string(), Declaration::Variable { dtype: Dtype::pointer(Dtype::structure(Some("P".to_string()), None)), initializer: None });
    decls.insert("h".to_string(), Declaration::Function { signature: signature(), definition: None });
    TranslationUnit { decls, structs }
}

#[test]
fn printed_program_reads_back() {
    let text = printed(&program());
    let parsed = parse_translation_unit(&text).unwrap();
    assert_eq!(printed(&parsed), text);
    assert_eq!(parsed.decls.len(), 3);
    assert_eq!(parsed.structs.len(), 2);
}

#[test]
fn translate_reads_text() {
    let text = printed(&program());
    let mut p = Parse {};
    let parsed = p.translate(&text).unwrap();
    assert_eq!(printed(&parsed), text);
}

#[test]
fn types_read_back() {
    let text = "var [3 x i32]*const @a = default\nvar const u8 @b = default\nvar [ret:unit params:(i64*, [2 x u1])]* @c = default\n";
    let parsed = parse_translation_unit(text).unwrap();
    assert_eq!(printed(&parsed), text);
    let spaced = parse_translation_unit("var [ 3  x  i32 ] * const @a = default\n\nvar const u8 @b = default\n\nvar [ret: unit params:(i64 *, [2 x u1] )]* @c = default\n\n").unwrap();
    assert_eq!(printed(&spaced), text);
}

#[test]
fn negative_constant_takes_its_type() {
    let text = "\nfun i32 @m () {\ninit:\n  bid: b0\n  allocations: \n\n\nblock b0:\n  ret -1:i32\n}\n";
    let parsed = parse_translation_unit(text).unwrap();
    assert_eq!(printed(&parsed), text);
    let (_, d) = parsed.decls.entry(0);
    match d {
        Declaration::Function { definition: Some(def), .. } => match &def.blocks[0].1.exit {
            BlockExit::Return { value: Operand::Constant(Constant::Int { value, width, is_signed }) } => {
                assert_eq!(*value, u128::MAX);
                assert_eq!(*width, 32);
                assert!(*is_signed);
            },
            _ => panic!("expected a return of a constant"),
        },
        _ => panic!("expected a defined function"),
    }
}

#[test]
fn address_computation_takes_written_type() {
    let text = "\nfun unit @m () {\ninit:\n  bid: b0\n  allocations: \n    %l0:[2 x i32]:a\n\nblock b0:\n  %b0:i0:i32* = getelementptr %l0:[2 x i32]* offset 4:i64\n  ret unit:unit\n}\n";
    let parsed = parse_translation_unit(text).unwrap();
    assert_eq!(printed(&parsed), text);
}

#[test]
fn initializers_are_read() {
    let text = "var i32 @x = 5\nvar i64 @y = 0x1fL\nvar [2 x i32] @z = {-(2), 010}";
    let parsed = parse_translation_unit(text).unwrap();
    let (_, x) = parsed.decls.entry(0);
    match x {
        Declaration::Variable { initializer: Some(Initializer::Expression(Expression::Constant(AstConstant::Integer(n)))), .. } => {
            assert_eq!(n.number, "5");
            assert!(n.base == IntegerBase::Decimal);
            assert!(n.size == IntegerSize::Int);
        },
        _ => panic!("expected an integer initializer"),
    }
    let (_, y) = parsed.decls.entry(1);
    match y {
        Declaration::Variable { initializer: Some(Initializer::Expression(Expression::Constant(AstConstant::Integer(n)))), .. } => {
            assert_eq!(n.number, "1f");
            assert!(n.base == IntegerBase::Hexadecimal);
            assert!(n.size == IntegerSize::Long);
        },
        _ => panic!("expected an integer initializer"),
    }
    let (_, z) = parsed.decls.entry(2);
    match z {
        Declaration::Variable { initializer: Some(Initializer::List(items)), .. } => {
            assert_eq!(items.len(), 2);
            match &items[0] {
                Initializer::Expression(Expression::UnaryOperator { operator, .. }) => assert!(*operator == AstUnary::Minus),
                _ => panic!("expected a negated constant"),
            }
            match &items[1] {
                Initializer::Expression(Expression::Constant(AstConstant::Integer(n))) => {
                    assert_eq!(n.number, "10");
                    assert!(n.base == IntegerBase::Octal);
                },
                _ => panic!("expected an octal constant"),
            }
        },
        _ => panic!("expected a list initializer"),
    }
}

#[test]
fn name_declared_twice_is_an_error() {
    let text = "var i32 @x = default\nvar i32 @x = default";
    let e = parse_translation_unit(text).unwrap_err();
    assert_eq!(e.position, 21);
}

#[test]
fn trailing_text_is_an_error() {
    let text = "var i32 @x = default\n junk";
    let e = parse_translation_unit(text).unwrap_err();
    assert_eq!(e.position, 22);
}

#[test]
fn fractions_are_not_read() {
    let text = "var f64 @x = 1.5";
    let e = parse_translation_unit(text).unwrap_err();
    assert_eq!(e.position, 14);
}

#[test]
fn misnumbered_instruction_is_an_error() {
    let text = "fun unit @m () {\ninit:\n  bid: b0\n  allocations: \n\nblock b0:\n  %b0:i1:unit = nop\n  ret unit:unit\n}\n";
    assert!(parse_translation_unit(text).is_err());
}

#[test]
fn operands_of_different_types_are_an_error() {
    let text = "fun unit @m () {\ninit:\n  bid: b0\n  allocations: \n\nblock b0:\n  %b0:i0:i32 = add 1:i32 1:i64\n  ret unit:unit\n}\n";
    assert!(parse_translation_unit(text).is_err());
}

#[test]
fn empty_text_is_an_empty_program() {
    let parsed = parse_translation_unit("  \n").unwrap();
    assert_eq!(parsed.decls.len(), 0);
    assert_eq!(parsed.structs.len(), 0);
}

#[test]
fn constants_take_the_written_type() {
    let c = constant_with_dtype(Constant::Int { value: 3, width: 128, is_signed: true }, Dtype::integer(8).set_signed(false)).unwrap();
    assert!(c.equals(&Constant::Int { value: 3, width: 8, is_signed: false }));
    let u = constant_with_dtype(Constant::Undef { dtype: Dtype::unit() }, int_type()).unwrap();
    assert!(u.equals(&Constant::Undef { dtype: int_type() }));
    let g = constant_with_dtype(
        Constant::GlobalVariable { name: "g".to_string(), dtype: Dtype::unit() },
        Dtype::pointer(int_type()),
    )
    .unwrap();
    assert!(g.equals(&Constant::GlobalVariable { name: "g".to_string(), dtype: int_type() }));
    assert!(constant_with_dtype(Constant::GlobalVariable { name: "g".to_string(), dtype: Dtype::unit() }, int_type()).is_none());
    assert!(constant_with_dtype(Constant::Unit, Dtype::unit()).unwrap().equals(&Constant::Unit));
}
