use lib::ir::{
    BinaryOperator, Block, BlockExit, BlockId, Constant, Declaration, Dtype, FunctionDefinition, FunctionSignature,
    Instruction, JumpArg, Named, Operand, RegisterId, TranslationUnit,
};
use lib::utils::StringMap;
use lib::write_base::{WriteLine, WriteString};

fn int_type() -> Dtype {
    Dtype::int_type()
}

fn local0() -> Operand {
    Operand::register(RegisterId::local(0), Dtype::pointer(int_type()))
}

fn temp(iid: usize, dtype: Dtype) -> Operand {
    Operand::register(RegisterId::temp(BlockId(0), iid), dtype)
}

fn program() -> TranslationUnit {
    let mut structs = StringMap::new();
    let fields = vec![Named::new(Some("x".to_string()), int_type()), Named::new(Some("y".to_string()), int_type())];
    structs.insert("P".to_string(), Some(Dtype::structure(Some("P".to_string()), Some(fields))));
    structs.insert("Q".to_string(), None);

    let body = FunctionDefinition {
        allocations: vec![Named::new(Some("x".to_string()), int_type())],
        blocks: vec![(
            BlockId(0),
            Block {
                phinodes: vec![Named::new(Some("a".to_string()), int_type())],
                instructions: vec![
                    Named::new(None, Instruction::Store {
                        ptr: local0(),
                        value: Operand::register(RegisterId::arg(BlockId(0), 0), int_type()),
                    }),
                    Named::new(None, Instruction::Load { ptr: local0() }),
                    Named::new(None, Instruction::BinOp {
                        op: BinaryOperator::Plus,
                        lhs: temp(1, int_type()),
                        rhs: Operand::constant(Constant::integer(1, int_type())),
                        dtype: int_type(),
                    }),
                ],
                exit: BlockExit::Return { value: temp(2, int_type()) },
            },
        )],
        bid_init: BlockId(0),
    };
    let signature = || FunctionSignature::new(Dtype::function(int_type(), vec![int_type()]));
    let mut decls = StringMap::new();
    decls.insert("f".to_string(), Declaration::Function { signature: signature(), definition: Some(body) });
    decls.insert("g".to_string(), Declaration::Variable { dtype: int_type(), initializer: None });
    decls.insert("h".to_string(), Declaration::Function { signature: signature(), definition: None });
    TranslationUnit { decls, structs }
}

#[test]
fn program_text() {
    let mut out = String::new();
    program().write_line(0, &mut out);
    let expected = "struct P : { x:i32, y:i32 }\n\
                    struct Q : opaque\n\
                    var i32 @g = default\n\
                    \n\
                    fun i32 @f (i32) {\n\
                    init:\n  bid: b0\n  allocations: \n    %l0:i32:x\n\
                    \n\
                    block b0:\n  \
                    %b0:p0:i32:a\n  \
                    %b0:i0:unit = store %b0:p0:i32 %l0:i32*\n  \
                    %b0:i1:i32 = load %l0:i32*\n  \
                    %b0:i2:i32 = add %b0:i1:i32 1:i32\n  \
                    ret %b0:i2:i32\n\
                    }\n\
                    \n\
                    fun i32 @h (i32)\n\n";
    assert_eq!(out, expected);
}

#[test]
fn instruction_and_exit_text() {
    let cmp = Instruction::BinOp {
        op: BinaryOperator::Less,
        lhs: temp(0, int_type()),
        rhs: Operand::constant(Constant::integer(3, int_type())),
        dtype: Dtype::bool_type(),
    };
    assert_eq!(cmp.write_string(), "cmp lt %b0:i0:i32 3:i32");
    let cast = Instruction::TypeCast { value: temp(0, int_type()), target_dtype: Dtype::char_type() };
    assert_eq!(cast.write_string(), "typecast %b0:i0:i32 to i8");
    assert_eq!(Instruction::Nop.write_string(), "nop");

    let switch = BlockExit::Switch {
        value: temp(0, int_type()),
        default: Box::new(JumpArg::new(BlockId(3), vec![])),
        cases: vec![
            (Constant::integer(1, int_type()), JumpArg::new(BlockId(1), vec![temp(0, int_type())])),
            (Constant::integer(2, int_type()), JumpArg::new(BlockId(2), vec![])),
        ],
    };
    assert_eq!(switch.write_string(), "switch %b0:i0:i32 default b3() [1:i32 b1(%b0:i0:i32) 2:i32 b2()]");
    let branch = BlockExit::ConditionalJump {
        condition: temp(0, Dtype::bool_type()),
        arg_then: Box::new(JumpArg::new(BlockId(1), vec![])),
        arg_else: Box::new(JumpArg::new(BlockId(2), vec![])),
    };
    assert_eq!(branch.write_string(), "br %b0:i0:u1, b1(), b2()");
    assert_eq!(BlockExit::Unreachable.write_string(), "unreachable");
}

#[test]
fn renumbering_jumps() {
    let switch = BlockExit::Switch {
        value: temp(0, int_type()),
        default: Box::new(JumpArg::new(BlockId(3), vec![])),
        cases: vec![
            (Constant::integer(1, int_type()), JumpArg::new(BlockId(1), vec![])),
            (Constant::integer(2, int_type()), JumpArg::new(BlockId(2), vec![])),
        ],
    };
    let renumbered = switch.walk_jump_args(|j: JumpArg| JumpArg::new(BlockId(j.bid.0 + 10), j.args));
    assert_eq!(renumbered.write_string(), "switch %b0:i0:i32 default b13() [1:i32 b11() 2:i32 b12()]");
    let ret = BlockExit::Return { value: temp(0, int_type()) };
    assert_eq!(ret.walk_jump_args(|j: JumpArg| j).write_string(), "ret %b0:i0:i32");
}
