use lib::ir::visualize::visualize;
use lib::ir::{
    Block, BlockExit, BlockId, Constant, Declaration, Dtype, FunctionDefinition, FunctionSignature, Instruction,
    JumpArg, Named, Operand, RegisterId, TranslationUnit,
};
use lib::utils::StringMap;

fn int_type() -> Dtype {
    Dtype::int_type()
}

fn program() -> TranslationUnit {
    let f = FunctionDefinition {
        allocations: vec![],
        blocks: vec![
            (
                BlockId(0),
                Block {
                    phinodes: vec![],
                    instructions: vec![
                        Named::new(None, Instruction::Nop),
                        Named::new(None, Instruction::Call {
                            callee: Operand::register(RegisterId::temp(BlockId(0), 0), int_type()),
                            args: vec![],
                            return_type: int_type(),
                        }),
                    ],
                    exit: BlockExit::Jump { arg: JumpArg::new(BlockId(1), vec![]) },
                },
            ),
            (
                BlockId(1),
                Block {
                    phinodes: vec![],
                    instructions: vec![],
                    exit: BlockExit::Return { value: Operand::constant(Constant::integer(1, int_type())) },
                },
            ),
        ],
        bid_init: BlockId(0),
    };
    let mut decls = StringMap::new();
    decls.insert("x".to_string(), Declaration::Variable { dtype: int_type(), initializer: None });
    decls.insert("f".to_string(), Declaration::Function {
        signature: FunctionSignature::new(Dtype::function(int_type(), vec![int_type()])),
        definition: Some(f),
    });
    TranslationUnit { decls, structs: StringMap::new() }
}

#[test]
fn dot_text_of_a_function() {
    let expected = "digraph G {\n\
subgraph \"cluster.f\" {\n\
subgraph \"cluster.f.b0\" {\n\
style=filled;\n\
color=lightgrey;\n\
node [shape=record];\n\
label=\"b0\";\n\
\"f:b0:i0\" [label=\"nop\"]\n\
\"f:b0:i1\" [label=\"call %b0:i0:i32()\"]\n\
\"f:b0:exit\" [label=\"j b1()\"]\n\
\"f:b0:i0\" -> \"f:b0:i1\" -> \"f:b0:exit\"\n\
}\n\
subgraph \"cluster.f.b1\" {\n\
style=filled;\n\
color=lightgrey;\n\
node [shape=record];\n\
label=\"b1\";\n\
\"f:b1:exit\" [label=\"ret 1:i32\"]\n\
\"f:b1:exit\"\n\
}\n\
label=\"fun i32 @f (i32)\";\n\
\"f:b0:exit\" -> \"f:b1:exit\";\n\
}\n\
\"f:b0:i1\" -> \"f:b0:i0\";\n\
}";
    assert_eq!(visualize(&program()).unwrap(), expected);
}

#[test]
fn dot_text_without_functions() {
    let mut decls = StringMap::new();
    decls.insert("x".to_string(), Declaration::Variable { dtype: int_type(), initializer: None });
    let tu = TranslationUnit { decls, structs: StringMap::new() };
    assert_eq!(visualize(&tu).unwrap(), "digraph G {\n\n}");
}
