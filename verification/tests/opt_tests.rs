use lib::ir::{
    Block, BlockExit, BlockId, Constant, Declaration, Dtype, FunctionDefinition, FunctionSignature, HasDtype, Named,
    Operand, TranslationUnit,
};
use lib::ir::RegisterId;
use lib::opt::opt_utils::{replace_operand, replace_operands};
use lib::opt::{FunctionPass, Null, Optimize, O0};
use lib::utils::StringMap;

/// A pass that drops the local allocations of a function, and counts its runs.
#[derive(Default)]
struct DropAllocations {
    runs: usize,
}

impl Optimize<FunctionDefinition> for DropAllocations {
    fn optimize(&mut self, code: &mut FunctionDefinition) -> bool {
        self.runs += 1;
        let changed = !code.allocations.is_empty();
        code.allocations.clear();
        changed
    }
}

fn body(allocations: usize) -> FunctionDefinition {
    FunctionDefinition {
        allocations: (0..allocations).map(|_| Named::new(None, Dtype::int_type())).collect(),
        blocks: vec![(
            BlockId(0),
            Block {
                phinodes: vec![],
                instructions: vec![],
                exit: BlockExit::Return { value: Operand::constant(Constant::integer(0, Dtype::int_type())) },
            },
        )],
        bid_init: BlockId(0),
    }
}

fn function(definition: Option<FunctionDefinition>) -> Declaration {
    Declaration::Function {
        signature: FunctionSignature::new(Dtype::function(Dtype::int_type(), vec![])),
        definition,
    }
}

fn program() -> TranslationUnit {
    let mut decls = StringMap::new();
    decls.insert("g".to_string(), Declaration::Variable { dtype: Dtype::int_type(), initializer: None });
    decls.insert("f".to_string(), function(Some(body(2))));
    decls.insert("h".to_string(), function(None));
    decls.insert("k".to_string(), function(Some(body(0))));
    TranslationUnit { decls, structs: StringMap::new() }
}

fn allocations(unit: &TranslationUnit, name: &str) -> Option<usize> {
    match unit.decls.get(&name.to_string()).unwrap() {
        Declaration::Function { definition: Some(d), .. } => Some(d.allocations.len()),
        _ => None,
    }
}

#[test]
fn null_pass_changes_nothing() {
    let mut unit = program();
    let mut pass: O0 = Null;
    assert!(!pass.optimize(&mut unit));
    assert_eq!(allocations(&unit, "f"), Some(2));
}

#[test]
fn function_pass_runs_on_each_defined_function() {
    let mut unit = program();
    let mut pass: FunctionPass<DropAllocations> = FunctionPass::default();
    assert!(pass.optimize(&mut unit));
    assert_eq!(allocations(&unit, "f"), Some(0));
    assert_eq!(allocations(&unit, "k"), Some(0));
    assert_eq!(allocations(&unit, "h"), None);
    assert_eq!(unit.decls.get(&"g".to_string()).unwrap().dtype().to_string(), "i32");
    // nothing is left to change
    assert!(!pass.optimize(&mut unit));

    // on a single declaration
    let mut decl = function(None);
    assert!(!pass.optimize(&mut decl));
    let mut decl = function(Some(body(1)));
    assert!(pass.optimize(&mut decl));
}

#[test]
fn pairs_run_both_passes() {
    let mut code = body(3);
    let mut pair = (DropAllocations::default(), DropAllocations::default());
    assert!(pair.optimize(&mut code));
    assert_eq!(pair.0.runs, 1);
    assert_eq!(pair.1.runs, 1);
    assert!(code.allocations.is_empty());
    assert!(!pair.optimize(&mut code));
}

fn int_operand(v: u128) -> Operand {
    Operand::constant(Constant::integer(v, Dtype::int_type()))
}

fn local(aid: usize) -> Operand {
    Operand::register(RegisterId::local(aid), Dtype::int_type())
}

#[test]
fn replacing_operands() {
    let mut op = local(0);
    assert!(!replace_operand(&mut op, &local(1), &int_operand(5)));
    assert!(op.equals(&local(0)));
    assert!(replace_operand(&mut op, &local(0), &int_operand(5)));
    assert!(op.equals(&int_operand(5)));

    let dict = vec![(RegisterId::local(1), int_operand(7)), (RegisterId::local(0), int_operand(8)), (RegisterId::local(0), int_operand(9))];
    let mut op = local(0);
    assert!(replace_operands(&mut op, &dict));
    // the first entry for the register counts
    assert!(op.equals(&int_operand(8)));
    let mut op = local(2);
    assert!(!replace_operands(&mut op, &dict));
    assert!(op.equals(&local(2)));
    let mut op = int_operand(3);
    assert!(!replace_operands(&mut op, &dict));
    assert!(op.equals(&int_operand(3)));
}
