use lib::c::ast::{
    DeclarationSpecifier, Declarator, DeclaratorKind, DerivedDeclarator, FunctionDeclarator, FunctionHeader,
    ParameterDeclaration, StorageClassSpecifier, TypeSpecifier,
};
use lib::ir::{
    Block, BlockExit, BlockId, Constant, Declaration, Dtype, HasDtype, Instruction, JumpArg, Named, Operand,
    RegisterId,
};
use lib::irgen::func::{Context, IrgenFunc};
use lib::irgen::{Irgen, IrgenErrorMessage};
use lib::utils::StringMap;

fn spec(ts: TypeSpecifier) -> DeclarationSpecifier {
    DeclarationSpecifier::TypeSpecifier(ts)
}

fn function(name: &str, params: Vec<(TypeSpecifier, &str)>) -> Declarator {
    let parameters = params
        .into_iter()
        .map(|(ts, n)| ParameterDeclaration {
            specifiers: vec![spec(ts)],
            declarator: Some(Declarator { kind: DeclaratorKind::Identifier(n.to_string()), derived: vec![] }),
        })
        .collect();
    Declarator {
        kind: DeclaratorKind::Identifier(name.to_string()),
        derived: vec![DerivedDeclarator::Function(FunctionDeclarator { parameters })],
    }
}

#[test]
fn function_headers() {
    let mut irgen = Irgen::new();
    // int f(int x)
    let header = FunctionHeader { specifiers: vec![spec(TypeSpecifier::Int)], declarator: function("f", vec![(TypeSpecifier::Int, "x")]) };
    irgen.add_function_header(&header, &"int f(int x)".to_string()).unwrap();

    // typedef int g(int x)
    let header = FunctionHeader {
        specifiers: vec![DeclarationSpecifier::StorageClass(StorageClassSpecifier::Typedef), spec(TypeSpecifier::Int)],
        declarator: function("g", vec![(TypeSpecifier::Int, "x")]),
    };
    let e = irgen.add_function_header(&header, &"typedef int g(int x)".to_string()).unwrap_err();
    assert_eq!(e.code, "typedef int g(int x)");
    match e.message {
        IrgenErrorMessage::Misc { message } => assert_eq!(message, "function definition declared typedef"),
        other => panic!("unexpected {other:?}"),
    }

    // char f(int x) conflicts with the earlier declaration of f
    let header = FunctionHeader { specifiers: vec![spec(TypeSpecifier::Char)], declarator: function("f", vec![(TypeSpecifier::Int, "x")]) };
    let e = irgen.add_function_header(&header, &"char f(int x)".to_string()).unwrap_err();
    assert_eq!(e.code, "f");
    match e.message {
        IrgenErrorMessage::ConflictingDtype { dtype, protorype_dtype } => {
            assert_eq!(dtype.to_string(), "[ret:i32 params:(i32)]");
            assert_eq!(protorype_dtype.to_string(), "[ret:i8 params:(i32)]");
        }
        other => panic!("unexpected {other:?}"),
    }

    let unit = irgen.into_translation_unit();
    match unit.decls.get(&"f".to_string()).unwrap() {
        Declaration::Function { signature, definition } => {
            assert_eq!(signature.ret.to_string(), "i8");
            assert!(definition.is_none());
        }
        other => panic!("unexpected {other:?}"),
    }
    assert!(unit.decls.get(&"g".to_string()).is_none());
}

#[test]
fn context_numbers_instructions() {
    let mut context = Context::new(BlockId(3));
    let store = Instruction::Store {
        ptr: Operand::Register { rid: RegisterId::Local { aid: 0 }, dtype: Dtype::pointer(Dtype::int_type()) },
        value: Operand::Constant(Constant::integer(1, Dtype::int_type())),
    };
    let r = context.insert_instruction(store).unwrap();
    match r {
        Operand::Register { rid, dtype } => {
            assert!(matches!(rid, RegisterId::Temp { bid: BlockId(3), iid: 0 }));
            assert_eq!(dtype.to_string(), "unit");
        }
        other => panic!("unexpected {other:?}"),
    }
    let load = Instruction::Load {
        ptr: Operand::Register { rid: RegisterId::Local { aid: 0 }, dtype: Dtype::pointer(Dtype::int_type()) },
    };
    match context.insert_instruction(load).unwrap() {
        Operand::Register { rid, dtype } => {
            assert!(matches!(rid, RegisterId::Temp { bid: BlockId(3), iid: 1 }));
            assert_eq!(dtype.to_string(), "i32");
        }
        other => panic!("unexpected {other:?}"),
    }
    assert_eq!(context.instrs.len(), 2);
    assert!(context.instrs.iter().all(|i| i.name.is_none()));
}

fn returning(value: u128) -> BlockExit {
    BlockExit::Return { value: Operand::Constant(Constant::integer(value, Dtype::int_type())) }
}

#[test]
fn function_translation_state() {
    let typedefs = StringMap::new();
    let structs = StringMap::new();
    let mut global_scope = StringMap::new();
    global_scope.insert(
        "g".to_string(),
        Operand::Constant(Constant::global_variable("g".to_string(), Dtype::int_type())),
    );
    let mut irgen = IrgenFunc {
        return_type: Dtype::int_type(),
        bid_init: BlockId(0),
        phinodes_init: vec![Named { name: Some("x".to_string()), inner: Dtype::int_type() }],
        allocations: Vec::new(),
        blocks: Vec::new(),
        bid_counter: 1,
        tempid_counter: 0,
        typedefs: &typedefs,
        structs: &structs,
        symbol_table: vec![global_scope],
    };

    // ids and names are handed out in turn
    assert_eq!(irgen.alloc_bid().0, 1);
    assert_eq!(irgen.alloc_bid().0, 2);
    assert_eq!(irgen.alloc_tempid(), "t0");
    assert_eq!(irgen.alloc_tempid(), "t1");
    assert_eq!(irgen.bid_counter, 3);
    for _ in 0..10 {
        irgen.alloc_tempid();
    }
    assert_eq!(irgen.alloc_tempid(), "t12");

    // allocations
    let r = irgen.insert_alloc(Named { name: Some("x".to_string()), inner: Dtype::int_type() });
    assert!(matches!(r, RegisterId::Local { aid: 0 }));
    let r = irgen.insert_alloc(Named { name: None, inner: Dtype::char_type() });
    assert!(matches!(r, RegisterId::Local { aid: 1 }));

    // blocks take their place by id; the entry block receives the arguments
    irgen.insert_block(Context::new(BlockId(2)), returning(2));
    irgen.insert_block(Context::new(BlockId(0)), BlockExit::Jump { arg: JumpArg::new(BlockId(2), vec![]) });
    irgen.insert_block(Context::new(BlockId(1)), returning(1));
    let ids: Vec<usize> = irgen.blocks.iter().map(|(bid, _)| bid.0).collect();
    assert_eq!(ids, vec![0, 1, 2]);
    let entry: &Block = &irgen.blocks[0].1;
    assert_eq!(entry.phinodes.len(), 1);
    assert_eq!(entry.phinodes[0].name.as_deref(), Some("x"));
    assert!(irgen.blocks[1].1.phinodes.is_empty());

    // scopes
    irgen.enter_scope();
    irgen.insert_symbol_table_entry("a".to_string(), Operand::Constant(Constant::unit())).unwrap();
    // a name of an outer scope may be declared again
    irgen.insert_symbol_table_entry("g".to_string(), Operand::Constant(Constant::unit())).unwrap();
    let e = irgen.insert_symbol_table_entry("a".to_string(), Operand::Constant(Constant::unit())).unwrap_err();
    assert!(matches!(e, IrgenErrorMessage::Redefinition { ref name } if name == "a"));
    assert_eq!(irgen.symbol_table.len(), 2);
    irgen.exit_scope();
    assert_eq!(irgen.symbol_table.len(), 1);
    assert!(irgen.symbol_table[0].get(&"a".to_string()).is_none());
    let g = irgen.symbol_table[0].get(&"g".to_string()).unwrap();
    assert_eq!(g.dtype().to_string(), "i32*");
}
