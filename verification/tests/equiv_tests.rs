use lib::c::ast::{Expression, Initializer};
use lib::ir::equiv::traverse_preorder;
use lib::ir::{
    Block, BlockExit, BlockId, Constant, Declaration, Dtype, FunctionDefinition, FunctionSignature, JumpArg, Named,
    Operand, RegisterId, TranslationUnit,
};
use lib::opt::opt_utils::{make_cfg, reverse_cfg};
use lib::utils::StringMap;

fn jump(to: usize) -> BlockExit {
    BlockExit::Jump { arg: JumpArg::new(BlockId(to), vec![]) }
}

fn branch(condition: Operand, then: usize, otherwise: usize) -> BlockExit {
    BlockExit::ConditionalJump {
        condition,
        arg_then: Box::new(JumpArg::new(BlockId(then), vec![])),
        arg_else: Box::new(JumpArg::new(BlockId(otherwise), vec![])),
    }
}

fn ret(value: u128) -> BlockExit {
    BlockExit::Return { value: Operand::constant(Constant::integer(value, Dtype::int_type())) }
}

fn block(exit: BlockExit) -> Block {
    Block { phinodes: vec![], instructions: vec![], exit }
}

/// A condition read from a local allocation; a condition is compared as it is written, so it
/// cannot name a block.
fn arg_of(_bid: usize) -> Operand {
    Operand::register(RegisterId::local(0), Dtype::bool_type())
}

fn with_arg(exit: BlockExit) -> Block {
    Block { phinodes: vec![Named::new(None, Dtype::bool_type())], instructions: vec![], exit }
}

/// b0 -> b2 -> (b1 | b3).
fn first() -> FunctionDefinition {
    FunctionDefinition {
        allocations: vec![Named::new(Some("x".to_string()), Dtype::int_type())],
        blocks: vec![
            (BlockId(0), block(jump(2))),
            (BlockId(1), block(ret(1))),
            (BlockId(2), with_arg(branch(arg_of(2), 1, 3))),
            (BlockId(3), block(ret(0))),
        ],
        bid_init: BlockId(0),
    }
}

/// The same function with its blocks numbered 0, 1, 5, 7 in the order they are reached.
fn renamed() -> FunctionDefinition {
    FunctionDefinition {
        allocations: vec![Named::new(Some("x".to_string()), Dtype::int_type())],
        blocks: vec![
            (BlockId(0), block(jump(1))),
            (BlockId(1), with_arg(branch(arg_of(1), 5, 7))),
            (BlockId(5), block(ret(1))),
            (BlockId(7), block(ret(0))),
        ],
        bid_init: BlockId(0),
    }
}

fn ids(v: &[BlockId]) -> Vec<usize> {
    v.iter().map(|b| b.0).collect()
}

#[test]
fn preorder_walks_breadth_first() {
    assert_eq!(ids(&traverse_preorder(&first().blocks, BlockId(0))), vec![0, 2, 1, 3]);
    assert_eq!(ids(&traverse_preorder(&renamed().blocks, BlockId(0))), vec![0, 1, 5, 7]);
    // from another block, and a block never reached comes after, in order of id
    assert_eq!(ids(&traverse_preorder(&first().blocks, BlockId(2))), vec![2, 1, 3, 0]);
    let blocks = vec![(BlockId(0), block(ret(0))), (BlockId(4), block(jump(0))), (BlockId(6), block(jump(4)))];
    assert_eq!(ids(&traverse_preorder(&blocks, BlockId(0))), vec![0, 4, 6]);
}

#[test]
fn definitions_equivalent_up_to_renaming() {
    assert!(first().is_equiv(&renamed()));
    assert!(renamed().is_equiv(&first()));
    assert!(first().is_equiv(&first()));

    // branches swapped
    let mut swapped = renamed();
    swapped.blocks[1] = (BlockId(1), with_arg(branch(arg_of(1), 7, 5)));
    assert!(!first().is_equiv(&swapped));

    // a condition naming a block is compared as written, not renamed
    let mut named_condition = renamed();
    named_condition.blocks[1] = (
        BlockId(1),
        with_arg(branch(Operand::register(RegisterId::arg(BlockId(1), 0), Dtype::bool_type()), 5, 7)),
    );
    let mut named_condition_first = first();
    named_condition_first.blocks[2] = (
        BlockId(2),
        with_arg(branch(Operand::register(RegisterId::arg(BlockId(2), 0), Dtype::bool_type()), 1, 3)),
    );
    assert!(!named_condition_first.is_equiv(&named_condition));

    // a different return value
    let mut other_value = renamed();
    other_value.blocks[3] = (BlockId(7), block(ret(2)));
    assert!(!first().is_equiv(&other_value));

    // other allocations
    let mut other_alloc = renamed();
    other_alloc.allocations = vec![Named::new(Some("y".to_string()), Dtype::int_type())];
    assert!(!first().is_equiv(&other_alloc));

    // another initial block
    let mut other_init = renamed();
    other_init.bid_init = BlockId(1);
    assert!(!first().is_equiv(&other_init));
}

fn function(definition: Option<FunctionDefinition>) -> Declaration {
    Declaration::Function {
        signature: FunctionSignature::new(Dtype::function(Dtype::int_type(), vec![])),
        definition,
    }
}

fn variable(value: Option<&str>) -> Declaration {
    Declaration::Variable {
        dtype: Dtype::int_type(),
        initializer: value.map(|v| {
            Initializer::Expression(Expression::Constant(lib::c::ast::Constant::Integer(lib::c::ast::Integer {
                base: lib::c::ast::IntegerBase::Decimal,
                number: v.to_string(),
                size: lib::c::ast::IntegerSize::Int,
                unsigned: false,
            })))
        }),
    }
}

fn unit(decls: Vec<(&str, Declaration)>) -> TranslationUnit {
    let mut table = StringMap::new();
    for (name, decl) in decls {
        table.insert(name.to_string(), decl);
    }
    let mut structs = StringMap::new();
    structs.insert("S".to_string(), None);
    TranslationUnit { decls: table, structs }
}

#[test]
fn declarations_and_programs() {
    assert!(variable(Some("1")).is_equiv(&variable(Some("1"))));
    assert!(!variable(Some("1")).is_equiv(&variable(Some("2"))));
    assert!(!variable(Some("1")).is_equiv(&variable(None)));
    assert!(function(Some(first())).is_equiv(&function(Some(renamed()))));
    assert!(!function(Some(first())).is_equiv(&function(None)));
    assert!(!function(None).is_equiv(&variable(None)));

    // the order in which names were declared does not matter
    let a = unit(vec![("g", variable(Some("1"))), ("main", function(Some(first())))]);
    let b = unit(vec![("main", function(Some(renamed()))), ("g", variable(Some("1")))]);
    assert!(a.is_equiv(&b));

    let c = unit(vec![("main", function(Some(renamed()))), ("h", variable(Some("1")))]);
    assert!(!a.is_equiv(&c));

    let mut d = unit(vec![("main", function(Some(renamed()))), ("g", variable(Some("1")))]);
    d.structs.insert("T".to_string(), None);
    assert!(!a.is_equiv(&d));
}

#[test]
fn control_flow_graph() {
    let cfg = make_cfg(&first());
    let shape: Vec<(usize, Vec<usize>)> =
        cfg.iter().map(|(bid, jumps)| (bid.0, jumps.iter().map(|j| j.bid.0).collect())).collect();
    assert_eq!(shape, vec![(0, vec![2]), (1, vec![]), (2, vec![1, 3]), (3, vec![])]);

    let switch = BlockExit::Switch {
        value: Operand::constant(Constant::integer(1, Dtype::int_type())),
        default: Box::new(JumpArg::new(BlockId(9), vec![])),
        cases: vec![
            (Constant::integer(1, Dtype::int_type()), JumpArg::new(BlockId(4), vec![])),
            (Constant::integer(2, Dtype::int_type()), JumpArg::new(BlockId(5), vec![])),
        ],
    };
    let fdef = FunctionDefinition { allocations: vec![], blocks: vec![(BlockId(0), block(switch))], bid_init: BlockId(0) };
    let cfg = make_cfg(&fdef);
    assert_eq!(cfg[0].1.iter().map(|j| j.bid.0).collect::<Vec<_>>(), vec![9, 4, 5]);
}

#[test]
fn reversed_control_flow_graph() {
    // blocks 0 -> 2, 2 -> 1 | 3, 1 -> 2 (twice, from a branch)
    let cfg = vec![
        (BlockId(0), vec![JumpArg::new(BlockId(2), vec![])]),
        (BlockId(1), vec![JumpArg::new(BlockId(2), vec![]), JumpArg::new(BlockId(2), vec![])]),
        (BlockId(2), vec![JumpArg::new(BlockId(1), vec![]), JumpArg::new(BlockId(3), vec![])]),
        (BlockId(3), vec![]),
    ];
    let reversed = reverse_cfg(&cfg);
    let mut shape: Vec<(usize, Vec<usize>)> = reversed
        .iter()
        .map(|(bid, preds)| (bid.0, preds.iter().map(|(from, jump)| {
            assert_eq!(jump.bid, *bid);
            from.0
        }).collect()))
        .collect();
    shape.sort();
    // block 0 has no predecessor, so no entry
    assert_eq!(shape, vec![(1, vec![2]), (2, vec![0, 1, 1]), (3, vec![2])]);
    assert!(reverse_cfg(&vec![]).is_empty());
}

#[test]
fn equivalence_is_an_equivalence() {
    // a third numbering of the same function
    let third = FunctionDefinition {
        allocations: vec![Named::new(Some("x".to_string()), Dtype::int_type())],
        blocks: vec![
            (BlockId(3), block(jump(8))),
            (BlockId(4), block(ret(0))),
            (BlockId(6), block(ret(1))),
            (BlockId(8), with_arg(branch(arg_of(8), 6, 4))),
        ],
        bid_init: BlockId(3),
    };
    // the initial blocks differ, so this one is not equivalent
    assert!(!first().is_equiv(&third));
    let mut third_from_zero = third;
    third_from_zero.blocks[0] = (BlockId(0), block(jump(8)));
    third_from_zero.blocks.sort_by_key(|(b, _)| b.0);
    third_from_zero.bid_init = BlockId(0);
    for (a, b) in [(first(), renamed()), (renamed(), first())] {
        assert_eq!(a.is_equiv(&b), b.is_equiv(&a));
    }
    assert!(renamed().is_equiv(&third_from_zero));
    assert!(first().is_equiv(&third_from_zero));
    assert!(third_from_zero.is_equiv(&first()));
    assert!(third_from_zero.is_equiv(&third_from_zero));
}
