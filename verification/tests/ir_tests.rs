use std::collections::HashMap;

use lib::ir::equiv::{is_equiv_block_exit, is_equiv_instruction, is_equiv_operand, is_equiv_rid};
use lib::ir::interp::{GlobalMap, InterpreterError, Pc};
use lib::ir::{
    BinaryOperator, BlockExit, BlockId, Constant, Dtype, DtypeError, FunctionSignature, HasDtype,
    Instruction, JumpArg, Named, Operand, RegisterId,
};
use lib::utils::{decimal_string, push_hex, push_signed_decimal, StringMap};

fn message(e: DtypeError) -> String {
    match e {
        DtypeError::Misc { message } => message,
    }
}

fn point_struct(name: Option<&str>) -> Dtype {
    Dtype::structure(
        name.map(|n| n.to_string()),
        Some(vec![
            Named::new(Some("c".to_string()), Dtype::char_type()),
            Named::new(Some("x".to_string()), Dtype::int_type()),
        ]),
    )
}

#[test]
fn numbers_in_text() {
    assert_eq!(decimal_string(0), "0");
    assert_eq!(decimal_string(1234), "1234");
    let mut s = String::new();
    push_signed_decimal(&mut s, -45);
    assert_eq!(s, "-45");
    let mut s = String::new();
    push_signed_decimal(&mut s, i128::MIN);
    assert_eq!(s, i128::MIN.to_string());
    let mut s = String::new();
    push_hex(&mut s, 0xbeef);
    assert_eq!(s, "beef");
}

#[test]
fn registers_and_positions() {
    assert_eq!(RegisterId::local(3).to_string(), "%l3");
    assert_eq!(RegisterId::arg(BlockId(0), 1).to_string(), "%b0:p1");
    assert_eq!(RegisterId::temp(BlockId(2), 5).to_string(), "%b2:i5");
    assert!(RegisterId::local(0).is_const(BlockId(0)));
    assert!(RegisterId::arg(BlockId(0), 1).is_const(BlockId(0)));
    assert!(!RegisterId::arg(BlockId(1), 1).is_const(BlockId(0)));
    assert!(!RegisterId::temp(BlockId(0), 1).is_const(BlockId(0)));
    assert!(RegisterId::temp(BlockId(2), 5) == RegisterId::temp(BlockId(2), 5));
    assert!(RegisterId::temp(BlockId(2), 5) != RegisterId::arg(BlockId(2), 5));
    let mut pc = Pc::new(BlockId(1));
    pc.increment();
    pc.increment();
    assert_eq!(pc.to_string(), "b1:2");
    assert_eq!(BlockId(7).to_string(), "b7");
}

#[test]
fn interpreter_error_messages() {
    assert_eq!(InterpreterError::NoMainFunction.to_string(), "ir has no main function");
    assert_eq!(
        InterpreterError::NoFunctionDefinition { func_name: "f".to_string() }.to_string(),
        "ir has no function definition of f function"
    );
    let e = InterpreterError::Misc {
        func_name: "main".to_string(),
        pc: Pc { bid: BlockId(0), iid: 3 },
        msg: "oops".to_string(),
    };
    assert_eq!(e.to_string(), "main:b0:3 / oops");
}

#[test]
fn global_map_both_ways() {
    let mut g = GlobalMap::new();
    assert!(g.insert("x".to_string(), 0).is_ok());
    assert!(g.insert("y".to_string(), 1).is_ok());
    assert_eq!(g.get_bid(&"y".to_string()), Some(1));
    assert_eq!(g.get_var(1), Some("y".to_string()));
    assert_eq!(g.get_var(g.get_bid(&"x".to_string()).unwrap()), Some("x".to_string()));
    assert_eq!(g.get_bid(&"z".to_string()), None);
    assert_eq!(g.get_var(9), None);
}

#[test]
fn struct_layout() {
    let structs: StringMap<Option<Dtype>> = StringMap::new();
    let laid = point_struct(Some("P")).fill_size_align_offsets_of_struct(&structs).unwrap();
    let (size, align, offsets) = laid.get_struct_size_align_offsets().unwrap().as_ref().unwrap();
    assert_eq!((*size, *align), (8, 4));
    assert_eq!(offsets, &vec![0, 4]);
}

#[test]
fn resolving_structs() {
    let mut structs: StringMap<Option<Dtype>> = StringMap::new();
    let mut counter = 0usize;
    let r = point_struct(None).resolve_structs(&mut structs, &mut counter).unwrap();
    assert_eq!(counter, 1);
    assert_eq!(r.get_struct_name().unwrap().as_ref().unwrap(), "%t0");
    assert!(r.get_struct_fields().unwrap().is_none());
    assert!(structs.contains_key(&"%t0".to_string()));
    assert_eq!(r.size_align_of(&structs).unwrap(), (8, 4));

    let r = point_struct(Some("P")).resolve_structs(&mut structs, &mut counter).unwrap();
    assert_eq!(r.get_struct_name().unwrap().as_ref().unwrap(), "P");
    assert_eq!(counter, 1);
    let again = point_struct(Some("P")).resolve_structs(&mut structs, &mut counter);
    assert_eq!(message(again.unwrap_err()), "redefinition of P");

    let pointer_to_q = Dtype::pointer(Dtype::structure(Some("Q".to_string()), None));
    assert!(pointer_to_q.resolve_structs(&mut structs, &mut counter).is_ok());
    assert!(structs.contains_key(&"Q".to_string()));
    let q = Dtype::structure(Some("Q".to_string()), None).resolve_structs(&mut structs, &mut counter);
    assert_eq!(message(q.unwrap_err()), "variable has incomplete type 'struct Q'");
    let r = Dtype::structure(Some("R".to_string()), None).resolve_structs(&mut structs, &mut counter);
    assert_eq!(message(r.unwrap_err()), "unknown struct name `R`");
}

#[test]
fn dtype_equality_and_copies() {
    let a = Dtype::pointer(Dtype::int_type().set_const(true));
    let b = a.clone();
    assert!(a == b);
    assert!(a.equals(&b));
    assert!(a != Dtype::pointer(Dtype::int_type()));
    assert!(point_struct(Some("P")) == point_struct(Some("P")));
    assert!(point_struct(Some("P")) != point_struct(Some("Q")));
    let f = Dtype::function(Dtype::unit(), vec![Dtype::int_type(), Dtype::char_type()]);
    let sig = FunctionSignature::new(f.clone());
    assert!(sig.ret == Dtype::unit());
    assert_eq!(sig.params.len(), 2);
    assert!(sig.dtype() == f);
}

#[test]
fn constants_and_operands() {
    let c = Constant::integer(7, Dtype::int_type());
    assert_eq!(c.get_int(), Some((7, 32, true)));
    assert!(c.is_integer_constant());
    assert!(c.dtype() == Dtype::int_type());
    let g = Constant::global_variable("g".to_string(), Dtype::int_type());
    assert_eq!(g.get_global_variable_name(), Some("g".to_string()));
    assert!(g.dtype() == Dtype::pointer(Dtype::int_type()));
    assert!(Constant::undef(Dtype::int_type()).is_undef());
    let zero = Constant::float(0.0f64.to_bits(), Dtype::double_type());
    let minus_zero = Constant::float((-0.0f64).to_bits(), Dtype::double_type());
    assert!(zero.equals(&minus_zero));
    let nan1 = Constant::float(f64::NAN.to_bits(), Dtype::double_type());
    let nan2 = Constant::float(f64::NAN.to_bits() | 1, Dtype::double_type());
    assert!(nan1.equals(&nan2));
    assert!(!nan1.equals(&zero));
    let o = Operand::register(RegisterId::temp(BlockId(0), 0), Dtype::int_type());
    assert!(o.get_register().is_some());
    assert!(o.get_constant().is_none());
    assert!(Instruction::Load { ptr: Operand::constant(g) }.dtype() == Dtype::int_type());
    assert!(!Instruction::Store { ptr: o, value: Operand::constant(c) }.is_pure());
}

#[test]
fn equivalence_up_to_renaming() {
    let mut map = HashMap::new();
    map.insert(0usize, 0usize);
    map.insert(1usize, 2usize);
    assert!(is_equiv_rid(&RegisterId::temp(BlockId(1), 3), &RegisterId::temp(BlockId(2), 3), &map));
    assert!(!is_equiv_rid(&RegisterId::temp(BlockId(1), 3), &RegisterId::temp(BlockId(1), 3), &map));
    assert!(is_equiv_rid(&RegisterId::local(4), &RegisterId::local(4), &map));
    let l = Operand::register(RegisterId::arg(BlockId(1), 0), Dtype::int_type());
    let r = Operand::register(RegisterId::arg(BlockId(2), 0), Dtype::int_type());
    assert!(is_equiv_operand(&l, &r, &map));
    let add_l = Instruction::BinOp {
        op: BinaryOperator::Plus,
        lhs: l,
        rhs: Operand::constant(Constant::integer(1, Dtype::int_type())),
        dtype: Dtype::int_type(),
    };
    let add_r = Instruction::BinOp {
        op: BinaryOperator::Plus,
        lhs: r,
        rhs: Operand::constant(Constant::integer(1, Dtype::int_type())),
        dtype: Dtype::int_type(),
    };
    assert!(is_equiv_instruction(&add_l, &add_r, &map));
    let j1 = BlockExit::Jump { arg: JumpArg::new(BlockId(1), vec![]) };
    let j2 = BlockExit::Jump { arg: JumpArg::new(BlockId(2), vec![]) };
    assert!(is_equiv_block_exit(&j1, &j2, &map));
    assert!(!is_equiv_block_exit(&j1, &j1, &map));
    assert!(is_equiv_block_exit(&BlockExit::Unreachable, &BlockExit::Unreachable, &map));
}
