use lib::ir::interp::{
    calculate_binary_operator_expression, calculate_integer_binary_operator_expression,
    calculate_unary_operator_expression, BinaryOperator, Byte, UnaryOperator, Value,
};
use lib::ir::{sign_extension, trim_unnecessary_bits};

fn int_of(v: Result<Value, ()>) -> (u128, usize, bool) {
    match v {
        Ok(Value::Int { value, width, is_signed }) => (value, width, is_signed),
        other => panic!("not an integer: {:?}", other),
    }
}

fn neg(x: i128) -> u128 {
    x as u128
}

#[test]
fn trim_keeps_the_low_bits() {
    assert_eq!(trim_unnecessary_bits(0x1ff, 8), 0xff);
    assert_eq!(trim_unnecessary_bits(0x1234_5678, 16), 0x5678);
    assert_eq!(trim_unnecessary_bits(u128::MAX, 0), 0);
    assert_eq!(trim_unnecessary_bits(5, 127), 5);
}

#[test]
fn sign_extension_copies_the_sign_bit() {
    assert_eq!(sign_extension(0x7f, 8), 0x7f);
    assert_eq!(sign_extension(0x80, 8), neg(-128));
    assert_eq!(sign_extension(0xff, 8), neg(-1));
    assert_eq!(sign_extension(0x1, 1), neg(-1));
    assert_eq!(sign_extension(0x0, 1), 0);
    assert_eq!(sign_extension(0x8000_0000, 32), neg(-0x8000_0000));
}

#[test]
fn trim_after_sign_extension_is_trim() {
    for v in [0u128, 0x7f, 0x80, 0xff, 0x1_23, 0xffff_ff80] {
        assert_eq!(trim_unnecessary_bits(sign_extension(v, 8), 8), trim_unnecessary_bits(v, 8));
        assert_eq!(sign_extension(sign_extension(v, 8), 8), sign_extension(v, 8));
        assert_eq!(trim_unnecessary_bits(trim_unnecessary_bits(v, 8), 8), trim_unnecessary_bits(v, 8));
    }
}

#[test]
fn signed_addition_wraps_to_the_width() {
    let r = calculate_integer_binary_operator_expression(&BinaryOperator::Plus, 127, 1, 8, true);
    assert_eq!(int_of(r), (neg(-128), 8, true));
    // Sign extension copies the sign bit upwards without first clearing the high bits, so a
    // result below the signed range keeps them.
    let r = calculate_integer_binary_operator_expression(&BinaryOperator::Minus, neg(-128), 1, 8, true);
    assert_eq!(int_of(r), (neg(-129), 8, true));
}

#[test]
fn unsigned_addition_wraps_to_the_width() {
    let r = calculate_integer_binary_operator_expression(&BinaryOperator::Plus, 255, 1, 8, false);
    assert_eq!(int_of(r), (0, 8, false));
    let r = calculate_integer_binary_operator_expression(&BinaryOperator::Minus, 0, 1, 32, false);
    assert_eq!(int_of(r), (0xffff_ffff, 32, false));
}

#[test]
fn multiplication_division_remainder() {
    let op = |o: BinaryOperator, l: u128, r: u128, w: usize, s: bool| {
        int_of(calculate_integer_binary_operator_expression(&o, l, r, w, s)).0
    };
    assert_eq!(op(BinaryOperator::Multiply, 6, 7, 32, true), 42);
    assert_eq!(op(BinaryOperator::Multiply, neg(-6), 7, 32, true), neg(-42));
    assert_eq!(op(BinaryOperator::Multiply, 0x10, 0x10, 8, false), 0);
    assert_eq!(op(BinaryOperator::Divide, neg(-7), 2, 32, true), neg(-3));
    assert_eq!(op(BinaryOperator::Modulo, neg(-7), 2, 32, true), neg(-1));
    assert_eq!(op(BinaryOperator::Divide, 7, neg(-2), 32, true), neg(-3));
    assert_eq!(op(BinaryOperator::Modulo, 7, neg(-2), 32, true), 1);
    assert_eq!(op(BinaryOperator::Divide, 7, 2, 32, false), 3);
    assert_eq!(op(BinaryOperator::Modulo, 7, 2, 32, false), 1);
}

#[test]
fn shifts() {
    let op = |o: BinaryOperator, l: u128, r: u128, w: usize, s: bool| {
        int_of(calculate_integer_binary_operator_expression(&o, l, r, w, s)).0
    };
    assert_eq!(op(BinaryOperator::ShiftLeft, 1, 7, 8, true), neg(-128));
    assert_eq!(op(BinaryOperator::ShiftLeft, 1, 7, 8, false), 128);
    assert_eq!(op(BinaryOperator::ShiftLeft, 3, 7, 8, false), 128);
    assert_eq!(op(BinaryOperator::ShiftRight, neg(-8), 1, 32, true), neg(-4));
    assert_eq!(op(BinaryOperator::ShiftRight, neg(-7), 1, 32, true), neg(-4));
    assert_eq!(op(BinaryOperator::ShiftRight, 0xffff_ffff, 4, 32, false), 0x0fff_ffff);
    assert_eq!(op(BinaryOperator::ShiftRight, 0x1_0000_00f0, 4, 32, false), 0xf);
}

#[test]
fn bitwise_operators() {
    let op = |o: BinaryOperator, l: u128, r: u128| {
        int_of(calculate_integer_binary_operator_expression(&o, l, r, 8, false)).0
    };
    assert_eq!(op(BinaryOperator::BitwiseAnd, 0b1100, 0b1010), 0b1000);
    assert_eq!(op(BinaryOperator::BitwiseOr, 0b1100, 0b1010), 0b1110);
    assert_eq!(op(BinaryOperator::BitwiseXor, 0b1100, 0b1010), 0b0110);
    assert_eq!(op(BinaryOperator::BitwiseOr, 0x100, 0x1), 0x1);
}

#[test]
fn comparisons_give_one_bit() {
    let cmp = |o: BinaryOperator, l: u128, r: u128, s: bool| {
        int_of(calculate_integer_binary_operator_expression(&o, l, r, 32, s))
    };
    assert_eq!(cmp(BinaryOperator::Less, neg(-1), 0, true), (1, 1, false));
    assert_eq!(cmp(BinaryOperator::Less, 0xffff_ffff, 0, false), (0, 1, false));
    assert_eq!(cmp(BinaryOperator::Greater, 2, 1, true), (1, 1, false));
    assert_eq!(cmp(BinaryOperator::LessOrEqual, 2, 2, true), (1, 1, false));
    assert_eq!(cmp(BinaryOperator::GreaterOrEqual, 1, 2, false), (0, 1, false));
    assert_eq!(cmp(BinaryOperator::Equals, 3, 3, false), (1, 1, false));
    assert_eq!(cmp(BinaryOperator::NotEquals, 3, 3, false), (0, 1, false));
}

#[test]
fn unary_operators() {
    let u = |o: UnaryOperator, v: Value| calculate_unary_operator_expression(&o, v);
    let r = u(UnaryOperator::Minus, Value::Int { value: 5, width: 32, is_signed: true });
    assert_eq!(int_of(r), (neg(-5), 32, true));
    let r = u(UnaryOperator::Minus, Value::Int { value: 5, width: 8, is_signed: false });
    assert_eq!(int_of(r), (251, 8, false));
    let r = u(UnaryOperator::Negate, Value::Int { value: 0, width: 1, is_signed: false });
    assert_eq!(int_of(r), (1, 1, false));
    let r = u(UnaryOperator::Negate, Value::Int { value: 1, width: 1, is_signed: false });
    assert_eq!(int_of(r), (0, 1, false));
    let r = u(UnaryOperator::Plus, Value::Int { value: 9, width: 16, is_signed: true });
    assert_eq!(int_of(r), (9, 16, true));
    let two = 2.0f64.to_bits();
    match u(UnaryOperator::Minus, Value::Float { bits: two, width: 64 }) {
        Ok(Value::Float { bits, width }) => {
            assert_eq!(f64::from_bits(bits), -2.0);
            assert_eq!(width, 64);
        }
        other => panic!("{:?}", other),
    }
}

#[test]
fn binary_operations_on_values() {
    let r = calculate_binary_operator_expression(
        &BinaryOperator::Plus,
        Value::Int { value: 2, width: 32, is_signed: true },
        Value::Int { value: 3, width: 32, is_signed: true },
    );
    assert_eq!(int_of(r), (5, 32, true));
    let r = calculate_binary_operator_expression(
        &BinaryOperator::Equals,
        Value::Pointer { bid: Some(1), offset: 4, dtype: lib::ir::Dtype::int_type() },
        Value::Pointer { bid: Some(1), offset: 4, dtype: lib::ir::Dtype::int_type() },
    );
    assert_eq!(int_of(r), (1, 1, false));
    let r = calculate_binary_operator_expression(
        &BinaryOperator::NotEquals,
        Value::Pointer { bid: Some(1), offset: 4, dtype: lib::ir::Dtype::int_type() },
        Value::Pointer { bid: None, offset: 4, dtype: lib::ir::Dtype::int_type() },
    );
    assert_eq!(int_of(r), (1, 1, false));
    let r = calculate_binary_operator_expression(
        &BinaryOperator::Plus,
        Value::Undef { dtype: lib::ir::Dtype::int_type() },
        Value::Int { value: 3, width: 32, is_signed: true },
    );
    assert!(matches!(r, Ok(Value::Undef { .. })));
}

#[test]
fn bytes_of_integers() {
    assert_eq!(Byte::u128_to_bytes(0x1234_5678, 4), vec![0x78, 0x56, 0x34, 0x12]);
    assert_eq!(Byte::u128_to_bytes(0x1234_5678, 2), vec![0x78, 0x56]);
    assert_eq!(Byte::bytes_to_u128(&[0x78, 0x56, 0x34, 0x12], false), 0x1234_5678);
    assert_eq!(Byte::bytes_to_u128(&[0xff], true), u128::MAX);
    assert_eq!(Byte::bytes_to_u128(&[0xff], false), 0xff);
    assert_eq!(Byte::bytes_to_u128(&[0x00, 0x80], true), neg(-0x8000));
    assert_eq!(Byte::bytes_to_u128(&Byte::u128_to_bytes(neg(-2), 4), true), neg(-2));
}

#[test]
fn bytes_round_trip() {
    for v in [0u128, 1, 0x7f, 0x80, 0xff, 0x1234, 0xdead_beef, u128::MAX] {
        for size in 1..=15usize {
            let bytes = Byte::u128_to_bytes(v, size);
            let w = (8 * size) as u128;
            assert_eq!(Byte::bytes_to_u128(&bytes, false), trim_unnecessary_bits(v, w));
            assert_eq!(
                Byte::bytes_to_u128(&bytes, true),
                sign_extension(trim_unnecessary_bits(v, w), w)
            );
        }
    }
}

#[test]
fn byte_accessors() {
    assert_eq!(Byte::concrete(7).get_concrete(), Some(7));
    assert_eq!(Byte::Undef.get_concrete(), None);
    assert_eq!(Byte::pointer(Some(2), 8, 3).get_pointer(), Some((Some(2), 8, 3)));
    assert_eq!(Byte::concrete(7).get_pointer(), None);
}
