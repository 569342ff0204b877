//! The pieces of the interpreter of the intermediate representation that compute on values.
use vstd::prelude::*;

use super::{sign_extended, sign_extension, signed_value, trim_unnecessary_bits, trimmed};
use super::code::Constant;
use super::dtype::{name_view, spec_array, spec_array_elem, spec_int};
use super::{BlockId, Dtype, HasDtype, Named, SpecDtype};
use crate::utils::{decimal, push_decimal, StringMap};
use std::collections::HashMap;
use vstd::arithmetic::power2::pow2;

verus! {

/// The binary operators of C expressions.
#[derive(Debug, Clone, Copy, PartialEq, Eq, Structural)]
pub enum BinaryOperator {
    Index,
    Multiply,
    Divide,
    Modulo,
    Plus,
    Minus,
    ShiftLeft,
    ShiftRight,
    Less,
    Greater,
    LessOrEqual,
    GreaterOrEqual,
    Equals,
    NotEquals,
    BitwiseAnd,
    BitwiseXor,
    BitwiseOr,
    LogicalAnd,
    LogicalOr,
    Assign,
    AssignMultiply,
    AssignDivide,
    AssignModulo,
    AssignPlus,
    AssignMinus,
    AssignShiftLeft,
    AssignShiftRight,
    AssignBitwiseAnd,
    AssignBitwiseXor,
    AssignBitwiseOr,
}

/// The unary operators of C expressions.
#[derive(Debug, Clone, Copy, PartialEq, Eq, Structural)]
pub enum UnaryOperator {
    PostIncrement,
    PostDecrement,
    PreIncrement,
    PreDecrement,
    Address,
    Indirection,
    Plus,
    Minus,
    Complement,
    Negate,
}

/// A value the interpreter computes with.
///
/// A floating-point value is held as the bit pattern of the IEEE 754 double that has its value.
#[derive(Debug)]
pub enum Value {
    Undef { dtype: Dtype },
    Unit,
    Int { value: u128, width: usize, is_signed: bool },
    Float { bits: u64, width: usize },
    Pointer { bid: Option<usize>, offset: isize, dtype: Dtype },
    Array { inner_dtype: Dtype, values: Vec<Value> },
    Struct { name: String, fields: Vec<Named<Value>> },
}

impl Value {
    /// The integer value, its width and signedness, if `self` is an integer.
    pub fn get_int(self) -> (r: Option<(u128, usize, bool)>)
        ensures
            r == match self {
                Value::Int { value, width, is_signed } => Some((value, width, is_signed)),
                _ => None,
            },
    {
        match self {
            Value::Int { value, width, is_signed } => Some((value, width, is_signed)),
            _ => None,
        }
    }
}

/// 2 to the power 128, the number of 128-bit patterns.
pub open spec fn two_128() -> int {
    0x1_0000_0000_0000_0000_0000_0000_0000_0000int
}

/// The 128-bit pattern of the integer `x`, that is `x` modulo `2^128`.
pub open spec fn wrap128(x: int) -> u128 {
    (x % two_128()) as u128
}

/// Reading a 128-bit pattern as `i128` gives its signed value.
pub proof fn lemma_as_i128(x: u128)
    ensures
        (x as i128) as int == signed_value(x),
{
    crate::ir::lemma_pow2_facts(1);
    vstd::arithmetic::power2::lemma_pow2_unfold(128);
    assert(x < 0x8000_0000_0000_0000_0000_0000_0000_0000u128 ==> (x as i128) as int == x as int)
        by (bit_vector);
    assert(x >= 0x8000_0000_0000_0000_0000_0000_0000_0000u128 ==> (x as i128) as int == x as int
        - 0x1_0000_0000_0000_0000_0000_0000_0000_0000int) by (bit_vector);
}

/// Reading an `i128` as a 128-bit pattern wraps it modulo `2^128`.
pub proof fn lemma_i128_as_u128(i: i128)
    ensures
        (i as u128) == wrap128(i as int),
{
    assert(i >= 0 ==> (i as u128) as int == i as int) by (bit_vector);
    assert(i < 0 ==> (i as u128) as int == i as int + 0x1_0000_0000_0000_0000_0000_0000_0000_0000int)
        by (bit_vector);
    if i >= 0 {
        vstd::arithmetic::div_mod::lemma_small_mod(i as nat, two_128() as nat);
    } else {
        vstd::arithmetic::div_mod::lemma_mod_add_multiples_vanish(i as int, two_128());
        vstd::arithmetic::div_mod::lemma_small_mod((i + two_128()) as nat, two_128() as nat);
    }
}

/// Whether `x` is a value of `i128`.
pub open spec fn in_i128(x: int) -> bool {
    i128::MIN <= x <= i128::MAX
}

/// Truncating division, as C and Rust divide.
pub open spec fn trunc_div(a: int, b: int) -> int {
    if a >= 0 {
        a / b
    } else {
        -((-a) / b)
    }
}

/// The remainder of truncating division: it has the sign of `a`.
pub open spec fn trunc_rem(a: int, b: int) -> int {
    if a >= 0 {
        a % b
    } else {
        -((-a) % b)
    }
}

/// A result brought to its canonical form for its width: sign-extended when signed, with the
/// bits above the width cleared when unsigned.
pub open spec fn normalized(x: u128, width: usize, is_signed: bool) -> u128 {
    if is_signed {
        sign_extended(x, width as nat) as u128
    } else {
        trimmed(x as nat, width as nat) as u128
    }
}

/// The operand of a comparison, read as signed or unsigned.
pub open spec fn operand(x: u128, is_signed: bool) -> int {
    if is_signed {
        signed_value(x)
    } else {
        x as int
    }
}

/// Whether `op` is a comparison: its result is a 1-bit truth value.
pub open spec fn is_comparison(op: BinaryOperator) -> bool {
    op is Equals || op is NotEquals || op is Less || op is Greater || op is LessOrEqual
        || op is GreaterOrEqual
}

/// The inputs on which an integer binary operation is defined and computed without fault:
/// the operator is an arithmetic, bitwise or comparison one, the width is one the result can be
/// brought to, no intermediate result leaves `i128` (or `u128` for an unsigned product), no
/// division by zero, and a shift amount below the width.
pub open spec fn int_binary_ok(
    op: BinaryOperator,
    lhs: u128,
    rhs: u128,
    width: usize,
    is_signed: bool,
) -> bool {
    let sl = signed_value(lhs);
    let sr = signed_value(rhs);
    &&& !is_comparison(op) ==> (if is_signed {
        1 <= width < 128
    } else {
        width < 128
    })
    &&& match op {
        BinaryOperator::Plus => in_i128(sl + sr),
        BinaryOperator::Minus => in_i128(sl - sr),
        BinaryOperator::Multiply => if is_signed {
            in_i128(sl * sr)
        } else {
            lhs * rhs <= u128::MAX
        },
        BinaryOperator::Divide | BinaryOperator::Modulo => rhs != 0 && (is_signed ==> !(sl
            == i128::MIN && sr == -1)),
        BinaryOperator::ShiftLeft | BinaryOperator::ShiftRight => if is_signed {
            0 <= sr < width
        } else {
            rhs < width
        },
        BinaryOperator::BitwiseAnd | BinaryOperator::BitwiseXor | BinaryOperator::BitwiseOr => true,
        BinaryOperator::Equals | BinaryOperator::NotEquals | BinaryOperator::Less
        | BinaryOperator::Greater | BinaryOperator::LessOrEqual | BinaryOperator::GreaterOrEqual => true,
        _ => false,
    }
}

/// The 128-bit pattern an integer binary operation computes, before it is brought to its width.
pub open spec fn int_binary_raw(op: BinaryOperator, lhs: u128, rhs: u128, width: usize, is_signed: bool) -> u128 {
    let sl = signed_value(lhs);
    let sr = signed_value(rhs);
    match op {
        BinaryOperator::Plus => wrap128(sl + sr),
        BinaryOperator::Minus => wrap128(sl - sr),
        BinaryOperator::Multiply => if is_signed {
            wrap128(sl * sr)
        } else {
            (lhs * rhs) as u128
        },
        BinaryOperator::Divide => if is_signed {
            wrap128(trunc_div(sl, sr))
        } else {
            (lhs / rhs) as u128
        },
        BinaryOperator::Modulo => if is_signed {
            wrap128(trunc_rem(sl, sr))
        } else {
            (lhs % rhs) as u128
        },
        BinaryOperator::ShiftLeft => wrap128(lhs * pow2(rhs as nat)),
        BinaryOperator::ShiftRight => if is_signed {
            wrap128(sl / (pow2(rhs as nat) as int))
        } else {
            (trimmed(lhs as nat, width as nat) / pow2(rhs as nat)) as u128
        },
        BinaryOperator::BitwiseAnd => lhs & rhs,
        BinaryOperator::BitwiseXor => lhs ^ rhs,
        _ => lhs | rhs,
    }
}

/// Whether the comparison `op` holds between the operands.
pub open spec fn comparison_holds(op: BinaryOperator, lhs: u128, rhs: u128, is_signed: bool) -> bool {
    let l = operand(lhs, is_signed);
    let r = operand(rhs, is_signed);
    match op {
        BinaryOperator::Equals => lhs == rhs,
        BinaryOperator::NotEquals => lhs != rhs,
        BinaryOperator::Less => l < r,
        BinaryOperator::Greater => l > r,
        BinaryOperator::LessOrEqual => l <= r,
        _ => l >= r,
    }
}

/// The integer (value, width, signedness) an integer binary operation gives: for a comparison
/// 1 or 0 of width 1, unsigned; else the operation's result brought to the operands' width.
pub open spec fn int_binary_result(
    op: BinaryOperator,
    lhs: u128,
    rhs: u128,
    width: usize,
    is_signed: bool,
) -> (u128, usize, bool) {
    if is_comparison(op) {
        (if comparison_holds(op, lhs, rhs, is_signed) {
            1
        } else {
            0
        }, 1, false)
    } else {
        (normalized(int_binary_raw(op, lhs, rhs, width, is_signed), width, is_signed), width, is_signed)
    }
}

/// Shifting left by `n` multiplies by `2^n`, modulo `2^128`.
pub proof fn lemma_shl_is_mul(x: u128, n: u128)
    requires
        n < 128,
    ensures
        x << n == wrap128(x * pow2(n as nat)),
    decreases n,
{
    if n == 0 {
        assert(x << 0u128 == x) by (bit_vector);
        vstd::arithmetic::power2::lemma2_to64();
        vstd::arithmetic::div_mod::lemma_small_mod(x as nat, two_128() as nat);
    } else {
        let m = (n - 1) as u128;
        let y = x << m;
        lemma_shl_is_mul(x, m);
        assert(x << n == y << 1u128 && (y << 1u128) as int == (2 * y) % 0x1_0000_0000_0000_0000_0000_0000_0000_0000int)
            by (bit_vector)
            requires
                y == x << m,
                m + 1 == n,
                n < 128,
        ;
        vstd::arithmetic::power2::lemma_pow2_unfold(n as nat);
        vstd::arithmetic::div_mod::lemma_mul_mod_noop_right(2, x * pow2(m as nat), two_128());
        assert(2 * (x * pow2(m as nat)) == x * pow2(n as nat)) by (nonlinear_arith)
            requires
                pow2(n as nat) == 2 * pow2(m as nat),
        ;
    }
}

/// A quotient of truncating division is no larger in magnitude than the dividend.
proof fn lemma_trunc_div_bound(a: int, b: int)
    requires
        b != 0,
    ensures
        -(if a < 0 { -a } else { a }) <= trunc_div(a, b) <= (if a < 0 { -a } else { a }),
{
    let n = if a < 0 { -a } else { a };
    let q = n / b;
    let r = n % b;
    vstd::arithmetic::div_mod::lemma_fundamental_div_mod(n, b);
    assert(-n <= q <= n) by (nonlinear_arith)
        requires
            n >= 0,
            b != 0,
            n == b * q + r,
            0 <= r,
            r < (if b < 0 { -b } else { b }),
    ;
}

/// Dividing by `a` then by 2, rounding down each time, is dividing by `2a`, rounding down.
proof fn lemma_floor_div_twice(x: int, a: int)
    requires
        a > 0,
    ensures
        (x / a) / 2 == x / (2 * a),
{
    let q1 = x / a;
    let r1 = x % a;
    vstd::arithmetic::div_mod::lemma_fundamental_div_mod(x, a);
    vstd::arithmetic::div_mod::lemma_mod_bound(x, a);
    let q2 = q1 / 2;
    let r2 = q1 % 2;
    vstd::arithmetic::div_mod::lemma_fundamental_div_mod(q1, 2);
    assert(x == q2 * (2 * a) + (r2 * a + r1) && 0 <= r2 * a + r1 < 2 * a) by (nonlinear_arith)
        requires
            x == a * q1 + r1,
            q1 == 2 * q2 + r2,
            0 <= r1 < a,
            0 <= r2 < 2,
    ;
    vstd::arithmetic::div_mod::lemma_fundamental_div_mod_converse(x, 2 * a, q2, r2 * a + r1);
}

/// An arithmetic shift right by `n` divides by `2^n`, rounding down.
pub proof fn lemma_sar_is_div(x: i128, n: u128)
    requires
        n < 128,
    ensures
        (x >> n) as int == x as int / (pow2(n as nat) as int),
    decreases n,
{
    vstd::arithmetic::power2::lemma_pow2_pos(n as nat);
    if n == 0 {
        assert(x >> 0u128 == x) by (bit_vector);
        vstd::arithmetic::power2::lemma2_to64();
        vstd::arithmetic::div_mod::lemma_fundamental_div_mod_converse(x as int, 1, x as int, 0);
    } else {
        let m = (n - 1) as u128;
        let y = x >> m;
        lemma_sar_is_div(x, m);
        let z = y >> 1u128;
        let b = y & 1i128;
        assert(x >> n == z && y == 2 * z + b && 0 <= b <= 1) by (bit_vector)
            requires
                y == x >> m,
                z == y >> 1u128,
                b == y & 1i128,
                m + 1 == n,
                n < 128,
        ;
        vstd::arithmetic::div_mod::lemma_fundamental_div_mod_converse(y as int, 2, z as int, b as int);
        vstd::arithmetic::power2::lemma_pow2_pos(m as nat);
        lemma_floor_div_twice(x as int, pow2(m as nat) as int);
        vstd::arithmetic::power2::lemma_pow2_unfold(n as nat);
        assert(z as int == (y as int) / 2);
        assert(y as int == (x as int) / (pow2(m as nat) as int));
        assert(pow2(n as nat) as int == 2 * (pow2(m as nat) as int));
    }
}

/// Computes an integer binary operation on the `width`-bit operands `lhs` and `rhs`.
///
/// Arithmetic is done on the 128-bit patterns read as `i128` (as `u128` for an unsigned product,
/// quotient and remainder), then the result is brought to `width` bits: sign-extended when
/// signed, trimmed when unsigned. A comparison gives 1 or 0 as an unsigned 1-bit integer.
pub fn calculate_integer_binary_operator_expression(
    op: &BinaryOperator,
    lhs: u128,
    rhs: u128,
    width: usize,
    is_signed: bool,
) -> (r: Result<Value, ()>)
    requires
        int_binary_ok(*op, lhs, rhs, width, is_signed),
    ensures
        r matches Ok(Value::Int { value, width: w, is_signed: s }) && (value, w, s)
            == int_binary_result(*op, lhs, rhs, width, is_signed),
{
    proof {
        lemma_as_i128(lhs);
        lemma_as_i128(rhs);
        crate::ir::lemma_pow2_facts(1);
    }
    let result: u128 = match op {
        BinaryOperator::Plus => {
            let x: i128 = lhs as i128 + rhs as i128;
            proof {
                lemma_i128_as_u128(x);
                assert(x as int == signed_value(lhs) + signed_value(rhs));
                assert(x as u128 == int_binary_raw(*op, lhs, rhs, width, is_signed));
            }
            x as u128
        },
        BinaryOperator::Minus => {
            let x: i128 = lhs as i128 - rhs as i128;
            proof {
                lemma_i128_as_u128(x);
                assert(x as u128 == int_binary_raw(*op, lhs, rhs, width, is_signed));
            }
            x as u128
        },
        BinaryOperator::Multiply => {
            if is_signed {
                let x: i128 = lhs as i128 * rhs as i128;
                proof {
                    lemma_i128_as_u128(x);
                    assert(x as u128 == int_binary_raw(*op, lhs, rhs, width, is_signed));
                }
                x as u128
            } else {
                lhs * rhs
            }
        },
        BinaryOperator::Divide => {
            if is_signed {
                proof {
                    lemma_trunc_div_bound(lhs as i128 as int, rhs as i128 as int);
                }
                let x: i128 = lhs as i128 / rhs as i128;
                proof {
                    lemma_i128_as_u128(x);
                    assert(x as u128 == int_binary_raw(*op, lhs, rhs, width, is_signed));
                }
                x as u128
            } else {
                lhs / rhs
            }
        },
        BinaryOperator::Modulo => {
            if is_signed {
                let x: i128 = lhs as i128 % rhs as i128;
                proof {
                    lemma_i128_as_u128(x);
                    assert(x as u128 == int_binary_raw(*op, lhs, rhs, width, is_signed));
                }
                x as u128
            } else {
                lhs % rhs
            }
        },
        BinaryOperator::ShiftLeft => {
            proof {
                lemma_shl_is_mul(lhs, rhs);
                assert(lhs << rhs == int_binary_raw(*op, lhs, rhs, width, is_signed));
            }
            lhs << rhs
        },
        BinaryOperator::ShiftRight => {
            if is_signed {
                let x: i128 = (lhs as i128) >> rhs;
                proof {
                    lemma_i128_as_u128(x);
                    lemma_sar_is_div(lhs as i128, rhs);
                    assert(x as u128 == int_binary_raw(*op, lhs, rhs, width, is_signed));
                }
                x as u128
            } else {
                proof {
                    super::lemma_shl_one_is_pow2(width as u128);
                    vstd::arithmetic::power2::lemma_pow2_pos(width as nat);
                    super::lemma_low_mask_is_mod(lhs, width as u128);
                }
                let bit_mask: u128 = (1u128 << width as u128) - 1;
                let l: u128 = lhs & bit_mask;
                proof {
                    vstd::bits::lemma_u128_shr_is_div(l, rhs);
                    assert(l >> rhs == int_binary_raw(*op, lhs, rhs, width, is_signed));
                }
                l >> rhs
            }
        },
        BinaryOperator::BitwiseAnd => lhs & rhs,
        BinaryOperator::BitwiseXor => lhs ^ rhs,
        BinaryOperator::BitwiseOr => lhs | rhs,
        BinaryOperator::Equals => {
            let result: u128 = if lhs == rhs {
                1
            } else {
                0
            };
            return Ok(Value::Int { value: result, width: 1, is_signed: false });
        },
        BinaryOperator::NotEquals => {
            let result: u128 = if lhs != rhs {
                1
            } else {
                0
            };
            return Ok(Value::Int { value: result, width: 1, is_signed: false });
        },
        BinaryOperator::Less => {
            let condition = if is_signed {
                (lhs as i128) < (rhs as i128)
            } else {
                lhs < rhs
            };
            let result: u128 = if condition {
                1
            } else {
                0
            };
            return Ok(Value::Int { value: result, width: 1, is_signed: false });
        },
        BinaryOperator::Greater => {
            let condition = if is_signed {
                (lhs as i128) > (rhs as i128)
            } else {
                lhs > rhs
            };
            let result: u128 = if condition {
                1
            } else {
                0
            };
            return Ok(Value::Int { value: result, width: 1, is_signed: false });
        },
        BinaryOperator::LessOrEqual => {
            let condition = if is_signed {
                (lhs as i128) <= (rhs as i128)
            } else {
                lhs <= rhs
            };
            let result: u128 = if condition {
                1
            } else {
                0
            };
            return Ok(Value::Int { value: result, width: 1, is_signed: false });
        },
        _ => {
            let condition = if is_signed {
                (lhs as i128) >= (rhs as i128)
            } else {
                lhs >= rhs
            };
            let result: u128 = if condition {
                1
            } else {
                0
            };
            return Ok(Value::Int { value: result, width: 1, is_signed: false });
        },
    };
    assert(result == int_binary_raw(*op, lhs, rhs, width, is_signed));
    let result = if is_signed {
        sign_extension(result, width as u128)
    } else {
        trim_unnecessary_bits(result, width as u128)
    };
    assert(result == normalized(int_binary_raw(*op, lhs, rhs, width, is_signed), width, is_signed));
    Ok(Value::Int { value: result, width, is_signed })
}

/// The inputs on which a unary operation is defined and computed without fault: `+` and `-` on
/// an integer or a float, `!` on a 1-bit integer, anything on an undefined value. Negating the
/// most negative 128-bit pattern, or trimming to 128 bits or more, is left out.
pub open spec fn unary_ok(op: UnaryOperator, operand: Value) -> bool {
    match operand {
        Value::Undef { .. } => true,
        Value::Int { value, width, is_signed } => match op {
            UnaryOperator::Plus => true,
            UnaryOperator::Minus => signed_value(value) != i128::MIN && (!is_signed ==> width < 128),
            UnaryOperator::Negate => width == 1,
            _ => false,
        },
        Value::Float { .. } => op is Plus || op is Minus,
        _ => false,
    }
}

/// The sign bit of an IEEE 754 double.
pub open spec fn f64_sign_bit() -> u64 {
    0x8000_0000_0000_0000u64
}

/// Computes a unary operation.
///
/// On an integer: `+` keeps it, `-` negates its 128-bit pattern read as `i128` (and trims the
/// result to the width when unsigned), `!` on a 1-bit integer gives 1 for 0 and 0 otherwise. On a
/// float: `+` keeps it and `-` flips its sign. An undefined value stays undefined.
pub fn calculate_unary_operator_expression(op: &UnaryOperator, operand: Value) -> (r: Result<Value, ()>)
    requires
        unary_ok(*op, operand),
    ensures
        r is Ok,
        operand matches Value::Undef { dtype } ==> r == Ok::<Value, ()>(Value::Undef { dtype }),
        operand matches Value::Int { value, width, is_signed } ==> r matches Ok(
            Value::Int { value: v, width: w, is_signed: s },
        ) && w == width && s == is_signed && v == match *op {
            UnaryOperator::Plus => value,
            UnaryOperator::Minus => if is_signed {
                wrap128(-signed_value(value))
            } else {
                trimmed(wrap128(-signed_value(value)) as nat, width as nat) as u128
            },
            _ => if value == 0 {
                1u128
            } else {
                0u128
            },
        },
        operand matches Value::Float { bits, width } ==> r matches Ok(Value::Float { bits: b, width: w })
            && w == width && b == if *op is Plus {
            bits
        } else {
            bits ^ f64_sign_bit()
        },
{
    match operand {
        Value::Undef { dtype } => Ok(Value::Undef { dtype }),
        Value::Int { value, width, is_signed } => {
            proof {
                lemma_as_i128(value);
            }
            match op {
                UnaryOperator::Plus => Ok(Value::Int { value, width, is_signed }),
                UnaryOperator::Minus => {
                    let negated: i128 = -(value as i128);
                    proof {
                        lemma_i128_as_u128(negated);
                    }
                    let result = if is_signed {
                        negated as u128
                    } else {
                        trim_unnecessary_bits(negated as u128, width as u128)
                    };
                    Ok(Value::Int { value: result, width, is_signed })
                },
                _ => {
                    let result: u128 = if value == 0 {
                        1
                    } else {
                        0
                    };
                    Ok(Value::Int { value: result, width, is_signed })
                },
            }
        },
        Value::Float { bits, width } => match op {
            UnaryOperator::Plus => Ok(Value::Float { bits, width }),
            _ => Ok(Value::Float { bits: bits ^ 0x8000_0000_0000_0000u64, width }),
        },
        _ => Err(()),
    }
}

/// The inputs on which a binary operation on values is computed here: an undefined operand,
/// two integers of one width and signedness on which the operation is defined, or two pointers
/// compared for (in)equality. Arithmetic on two floats is not among them.
pub open spec fn binary_ok(op: BinaryOperator, lhs: Value, rhs: Value) -> bool {
    match (lhs, rhs) {
        (Value::Undef { .. }, _) => true,
        (_, Value::Undef { .. }) => true,
        (
            Value::Int { value: l, width: lw, is_signed: ls },
            Value::Int { value: r, width: rw, is_signed: rs },
        ) => lw == rw && ls == rs && int_binary_ok(op, l, r, lw, ls),
        (Value::Pointer { .. }, Value::Pointer { .. }) => op is Equals || op is NotEquals,
        _ => false,
    }
}

/// Computes a binary operation on two values.
///
/// An undefined operand makes the result undefined, of the first undefined operand's type. Two
/// integers are computed on as by `calculate_integer_binary_operator_expression`. Two pointers
/// are equal when they point into the same block at the same offset; the result is 1 or 0 as an
/// unsigned 1-bit integer.
pub fn calculate_binary_operator_expression(op: &BinaryOperator, lhs: Value, rhs: Value) -> (r: Result<
    Value,
    (),
>)
    requires
        binary_ok(*op, lhs, rhs),
    ensures
        lhs matches Value::Undef { dtype } ==> r == Ok::<Value, ()>(Value::Undef { dtype }),
        !(lhs is Undef) ==> (rhs matches Value::Undef { dtype } ==> r == Ok::<Value, ()>(
            Value::Undef { dtype },
        )),
        (lhs, rhs) matches (Value::Int { value: l, width, is_signed }, Value::Int { value: rv, .. })
            ==> r matches Ok(Value::Int { value, width: w, is_signed: s }) && (value, w, s)
            == int_binary_result(*op, l, rv, width, is_signed),
        (lhs, rhs) matches (Value::Pointer { bid, offset, .. }, Value::Pointer { bid: ob, offset: oo, .. })
            ==> r == Ok::<Value, ()>(
            Value::Int {
                value: if (bid == ob && offset == oo) == (*op is Equals) {
                    1
                } else {
                    0
                },
                width: 1,
                is_signed: false,
            },
        ),
{
    match (lhs, rhs) {
        (Value::Undef { dtype }, _) => Ok(Value::Undef { dtype }),
        (_, Value::Undef { dtype }) => Ok(Value::Undef { dtype }),
        (
            Value::Int { value: l, width: lw, is_signed: ls },
            Value::Int { value: r, .. },
        ) => calculate_integer_binary_operator_expression(op, l, r, lw, ls),
        (
            Value::Pointer { bid, offset, .. },
            Value::Pointer { bid: other_bid, offset: other_offset, .. },
        ) => {
            let same = same_block(bid, other_bid) && offset == other_offset;
            let result: u128 = match op {
                BinaryOperator::Equals => if same {
                    1
                } else {
                    0
                },
                _ => if !same {
                    1
                } else {
                    0
                },
            };
            Ok(Value::Int { value: result, width: 1, is_signed: false })
        },
        _ => Err(()),
    }
}

/// Whether two optional block ids are the same.
fn same_block(a: Option<usize>, b: Option<usize>) -> (r: bool)
    ensures
        r == (a == b),
{
    match (a, b) {
        (Some(x), Some(y)) => x == y,
        (None, None) => true,
        _ => false,
    }
}

/// A position in a function: an instruction of a block.
#[derive(Debug, Clone, Copy, PartialEq, Eq, Structural)]
pub struct Pc {
    pub bid: BlockId,
    pub iid: usize,
}

impl Pc {
    /// The first instruction of block `bid`.
    pub fn new(bid: BlockId) -> (r: Pc)
        ensures
            r == (Pc { bid, iid: 0 }),
    {
        Pc { bid, iid: 0 }
    }

    /// Moves to the next instruction of the block.
    pub fn increment(&mut self)
        requires
            old(self).iid < usize::MAX,
        ensures
            *final(self) == (Pc { bid: old(self).bid, iid: (old(self).iid + 1) as usize }),
    {
        self.iid = self.iid + 1;
    }

    /// The textual form `b<bid>:<iid>`.
    pub fn to_string(&self) -> (r: String)
        ensures
            r@ == seq!['b'] + decimal(self.bid.0 as nat) + seq![':'] + decimal(self.iid as nat),
    {
        let mut s = self.bid.to_string();
        s.append(":");
        proof {
            reveal_strlit(":");
        }
        push_decimal(&mut s, self.iid as u128);
        s
    }
}

/// Why interpreting a program failed.
#[derive(Debug)]
pub enum InterpreterError {
    Unreachable,
    NoMainFunction,
    NoFunctionDefinition { func_name: String },
    NoStructureDefinition { struct_name: String },
    Misc { func_name: String, pc: Pc, msg: String },
}

impl InterpreterError {
    /// The message of the error.
    pub open spec fn spec_message(&self) -> Seq<char> {
        match self {
            InterpreterError::Unreachable => "current block is unreachable"@,
            InterpreterError::NoMainFunction => "ir has no main function"@,
            InterpreterError::NoFunctionDefinition { func_name } => "ir has no function definition of "@
                + func_name@ + " function"@,
            InterpreterError::NoStructureDefinition { struct_name } =>
                "ir has no structure definition of "@ + struct_name@ + " structure"@,
            InterpreterError::Misc { func_name, pc, msg } => func_name@ + seq![':'] + seq!['b']
                + decimal(pc.bid.0 as nat) + seq![':'] + decimal(pc.iid as nat) + " / "@ + msg@,
        }
    }

    /// The message of the error, as it is shown to the user.
    pub fn to_string(&self) -> (r: String)
        ensures
            r@ == self.spec_message(),
    {
        match self {
            InterpreterError::Unreachable => String::from_str("current block is unreachable"),
            InterpreterError::NoMainFunction => String::from_str("ir has no main function"),
            InterpreterError::NoFunctionDefinition { func_name } => {
                let mut s = String::from_str("ir has no function definition of ");
                s.append(func_name.as_str());
                s.append(" function");
                s
            },
            InterpreterError::NoStructureDefinition { struct_name } => {
                let mut s = String::from_str("ir has no structure definition of ");
                s.append(struct_name.as_str());
                s.append(" structure");
                s
            },
            InterpreterError::Misc { func_name, pc, msg } => {
                let mut s = func_name.clone();
                s.append(":");
                let p = pc.to_string();
                s.append(p.as_str());
                s.append(" / ");
                s.append(msg.as_str());
                proof {
                    reveal_strlit(":");
                    assert(s@ =~= self.spec_message());
                }
                s
            },
        }
    }
}

/// The two directions between the names of global variables and the ids of the memory blocks
/// that hold them.
pub struct GlobalMap {
    var_to_bid: StringMap<usize>,
    bid_to_var: HashMap<usize, String>,
}

impl GlobalMap {
    /// Name to block id.
    pub closed spec fn vars(&self) -> Map<Seq<char>, usize> {
        self.var_to_bid.spec_map()
    }

    /// Block id to name.
    pub closed spec fn bids(&self) -> Map<usize, Seq<char>> {
        self.bid_to_var@.map_values(|s: String| s@)
    }

    /// The two directions agree: each is the inverse of the other.
    pub closed spec fn wf(&self) -> bool {
        &&& self.var_to_bid.wf()
        &&& forall|v: Seq<char>| #[trigger] self.vars().contains_key(v) ==> self.bids().contains_key(
            self.vars()[v],
        ) && self.bids()[self.vars()[v]] == v
        &&& forall|b: usize| #[trigger] self.bids().contains_key(b) ==> self.vars().contains_key(
            self.bids()[b],
        ) && self.vars()[self.bids()[b]] == b
    }

    /// A map with no entry.
    pub fn new() -> (r: Self)
        ensures
            r.wf(),
            r.vars() == Map::<Seq<char>, usize>::empty(),
            r.bids() == Map::<usize, Seq<char>>::empty(),
    {
        let r = GlobalMap { var_to_bid: StringMap::new(), bid_to_var: HashMap::new() };
        assert(r.bids() =~= Map::<usize, Seq<char>>::empty());
        r
    }

    /// Links `var` and `bid` both ways. Neither may be linked already: names are unique in a
    /// program and a block holds one variable.
    pub fn insert(&mut self, var: String, bid: usize) -> (r: Result<(), InterpreterError>)
        requires
            old(self).wf(),
            !old(self).vars().contains_key(var@),
            !old(self).bids().contains_key(bid),
        ensures
            r is Ok,
            final(self).wf(),
            final(self).vars() == old(self).vars().insert(var@, bid),
            final(self).bids() == old(self).bids().insert(bid, var@),
    {
        broadcast use vstd::std_specs::hash::group_hash_axioms;

        let ghost old_bids = self.bid_to_var@;
        let _ = self.var_to_bid.insert(var.clone(), bid);
        let _ = self.bid_to_var.insert(bid, var);
        assert(self.bids() =~= old(self).bids().insert(bid, var@));
        Ok(())
    }

    /// The block id of global variable `var`.
    pub fn get_bid(&self, var: &String) -> (r: Option<usize>)
        requires
            self.wf(),
        ensures
            r == if self.vars().contains_key(var@) {
                Some(self.vars()[var@])
            } else {
                None
            },
    {
        match self.var_to_bid.get(var) {
            Some(b) => Some(*b),
            None => None,
        }
    }

    /// The name of the global variable held by block `bid`.
    pub fn get_var(&self, bid: usize) -> (r: Option<String>)
        requires
            self.wf(),
        ensures
            r is Some == self.bids().contains_key(bid),
            r matches Some(v) ==> v@ == self.bids()[bid],
    {
        broadcast use vstd::std_specs::hash::group_hash_axioms;

        match self.bid_to_var.get(&bid) {
            Some(v) => Some(v.clone()),
            None => None,
        }
    }
}

/// Looking up a variable's block and then that block's variable gives the variable back, and the
/// other way round.
pub proof fn lemma_global_map_round_trip(g: GlobalMap, var: Seq<char>, bid: usize)
    requires
        g.wf(),
    ensures
        g.vars().contains_key(var) ==> g.bids().contains_key(g.vars()[var]) && g.bids()[g.vars()[var]]
            == var,
        g.bids().contains_key(bid) ==> g.vars().contains_key(g.bids()[bid]) && g.vars()[g.bids()[bid]]
            == bid,
{
}

/// 256 to the power `n`.
pub open spec fn pow256(n: nat) -> nat
    decreases n,
{
    if n == 0 {
        1
    } else {
        256 * pow256((n - 1) as nat)
    }
}

/// The number whose little-endian bytes are `bs`.
pub open spec fn le_value(bs: Seq<u8>) -> nat
    decreases bs.len(),
{
    if bs.len() == 0 {
        0
    } else {
        (bs[0] + 256 * le_value(bs.drop_first())) as nat
    }
}

/// The `n` little-endian bytes of `value`, the higher ones dropped.
pub open spec fn le_bytes(value: nat, n: nat) -> Seq<u8>
    decreases n,
{
    if n == 0 {
        seq![]
    } else {
        seq![(value % 256) as u8] + le_bytes(value / 256, (n - 1) as nat)
    }
}

/// `bs` followed by as many copies of `fill` as make 16 bytes.
pub open spec fn padded16(bs: Seq<u8>, fill: u8) -> Seq<u8> {
    bs + Seq::new((16 - bs.len()) as nat, |i: int| fill)
}

pub proof fn lemma_pow256_pos(n: nat)
    ensures
        pow256(n) > 0,
    decreases n,
{
    if n > 0 {
        lemma_pow256_pos((n - 1) as nat);
    }
}

/// `n` bytes hold a number below `256^n`.
pub proof fn lemma_le_value_bound(bs: Seq<u8>)
    ensures
        le_value(bs) < pow256(bs.len()),
    decreases bs.len(),
{
    if bs.len() > 0 {
        lemma_le_value_bound(bs.drop_first());
        assert(bs[0] + 256 * le_value(bs.drop_first()) < 256 * pow256((bs.len() - 1) as nat))
            by (nonlinear_arith)
            requires
                bs[0] < 256,
                le_value(bs.drop_first()) < pow256((bs.len() - 1) as nat),
        ;
    }
}

/// The `n` little-endian bytes of `value` make `value` modulo `256^n`.
pub proof fn lemma_le_value_of_bytes(value: nat, n: nat)
    ensures
        le_bytes(value, n).len() == n,
        le_value(le_bytes(value, n)) == value % pow256(n),
    decreases n,
{
    if n == 0 {
        vstd::arithmetic::div_mod::lemma_mod_self_0(1);
        vstd::arithmetic::div_mod::lemma_fundamental_div_mod_converse(value as int, 1, value as int, 0);
    } else {
        let m = (n - 1) as nat;
        lemma_le_value_of_bytes(value / 256, m);
        let bs = le_bytes(value, n);
        assert(bs.drop_first() =~= le_bytes(value / 256, m));
        lemma_pow256_pos(m);
        vstd::arithmetic::div_mod::lemma_breakdown(value as int, 256, pow256(m) as int);
    }
}

/// A byte of memory: undefined, a concrete value, or one of the bytes of a pointer.
#[derive(Debug, Clone, Copy, PartialEq, Eq, Structural, Hash)]
pub enum Byte {
    Undef,
    Concrete(u8),
    Pointer { bid: Option<usize>, offset: isize, index: usize },
}

impl Byte {
    /// A byte with a known value.
    pub fn concrete(byte: u8) -> (r: Self)
        ensures
            r == Byte::Concrete(byte),
    {
        Self::Concrete(byte)
    }

    /// Byte `index` of a pointer into block `bid` at `offset`.
    pub fn pointer(bid: Option<usize>, offset: isize, index: usize) -> (r: Self)
        ensures
            r == (Byte::Pointer { bid, offset, index }),
    {
        Self::Pointer { bid, offset, index }
    }

    /// The value of a concrete byte.
    pub fn get_concrete(&self) -> (r: Option<u8>)
        ensures
            r == match *self {
                Byte::Concrete(b) => Some(b),
                _ => None,
            },
    {
        if let Self::Concrete(byte) = self {
            Some(*byte)
        } else {
            None
        }
    }

    /// The block, offset and index of a pointer byte.
    pub fn get_pointer(&self) -> (r: Option<(Option<usize>, isize, usize)>)
        ensures
            r == match *self {
                Byte::Pointer { bid, offset, index } => Some((bid, offset, index)),
                _ => None,
            },
    {
        if let Self::Pointer { bid, offset, index } = self {
            Some((*bid, *offset, *index))
        } else {
            None
        }
    }

    /// The bytes of `value` in little-endian order, as many as `size`; the higher ones are dropped.
    pub fn u128_to_bytes(value: u128, size: usize) -> (r: Vec<u8>)
        ensures
            r@ == le_bytes(value as nat, size as nat),
    {
        let mut v = value;
        let mut bytes: Vec<u8> = Vec::new();
        let mut i: usize = 0;
        while i < size
            invariant
                i <= size,
                bytes@ + le_bytes(v as nat, (size - i) as nat) == le_bytes(value as nat, size as nat),
            decreases size - i,
        {
            let ghost rest = le_bytes((v / 256) as nat, (size - i - 1) as nat);
            assert(le_bytes(v as nat, (size - i) as nat) == seq![(v % 256) as u8] + rest);
            bytes.push((v % 256) as u8);
            v = v / 256;
            i = i + 1;
            assert(bytes@ + le_bytes(v as nat, (size - i) as nat) =~= le_bytes(value as nat, size as nat));
        }
        assert(bytes@ =~= le_bytes(value as nat, size as nat));
        bytes
    }

    /// The number whose little-endian bytes are `bytes`, extended to 16 bytes: with `0xff` bytes when
    /// it is signed and its last byte is negative, with zero bytes otherwise.
    pub fn bytes_to_u128(bytes: &[u8], is_signed: bool) -> (r: u128)
        requires
            0 < bytes@.len() <= 16,
        ensures
            r == le_value(padded16(bytes@, if is_signed && bytes@.last() >= 128 { 255u8 } else { 0u8 })),
    {
        let width = bytes.len();
        let is_negative = is_signed && bytes[width - 1] >= 128;
        let fill: u8 = if is_negative {
            255
        } else {
            0
        };
        let ghost padded = padded16(bytes@, fill);
        let mut acc: u128 = 0;
        let mut i: usize = 16;
        proof {
            assert(padded.subrange(16, 16) =~= Seq::<u8>::empty());
            assert(pow256(0) == 1);
        }
        while i > 0
            invariant
                0 <= i <= 16,
                width == bytes@.len(),
                0 < width <= 16,
                padded == padded16(bytes@, fill),
                padded.len() == 16,
                acc == le_value(padded.subrange(i as int, 16)),
                acc < pow256((16 - i) as nat),
            decreases i,
        {
            i = i - 1;
            let b: u8 = if i < width {
                bytes[i]
            } else {
                fill
            };
            proof {
                assert(b == padded[i as int]);
                assert(padded.subrange(i as int, 16).drop_first() =~= padded.subrange(i + 1, 16));
                assert(pow256((16 - i) as nat) == 256 * pow256((16 - i - 1) as nat));
                lemma_pow256_is_pow2(16);
                crate::ir::lemma_pow2_facts(1);
                if i > 0 {
                    lemma_pow256_mono((16 - i) as nat, 16);
                }
                assert(b + 256 * acc < 256 * pow256((16 - i - 1) as nat)) by (nonlinear_arith)
                    requires
                        b < 256,
                        acc < pow256((16 - i - 1) as nat),
                ;
            }
            acc = acc * 256 + b as u128;
        }
        proof {
            assert(padded.subrange(0, 16) =~= padded);
        }
        acc
    }
}

/// `256^n` is `2^(8n)`.
pub proof fn lemma_pow256_is_pow2(n: nat)
    ensures
        pow256(n) == pow2(8 * n),
    decreases n,
{
    if n == 0 {
        vstd::arithmetic::power2::lemma2_to64();
    } else {
        lemma_pow256_is_pow2((n - 1) as nat);
        vstd::arithmetic::power2::lemma_pow2_adds(8 * ((n - 1) as nat), 8);
        vstd::arithmetic::power2::lemma2_to64();
        assert(8 * ((n - 1) as nat) + 8 == 8 * n);
    }
}

proof fn lemma_pow256_mono(a: nat, b: nat)
    requires
        a <= b,
    ensures
        pow256(a) <= pow256(b),
    decreases b,
{
    if a < b {
        lemma_pow256_mono(a, (b - 1) as nat);
        lemma_pow256_pos((b - 1) as nat);
    }
}

/// The bytes of two pieces one after the other make the first plus the second shifted past it.
pub proof fn lemma_le_value_append(a: Seq<u8>, b: Seq<u8>)
    ensures
        le_value(a + b) == le_value(a) + pow256(a.len()) * le_value(b),
    decreases a.len(),
{
    if a.len() == 0 {
        assert(a + b =~= b);
        assert(le_value(a) == 0);
        assert(pow256(a.len()) == 1);
    } else {
        lemma_le_value_append(a.drop_first(), b);
        assert((a + b).drop_first() =~= a.drop_first() + b);
        assert((a + b)[0] == a[0]);
        let x = le_value(a.drop_first());
        let p = pow256((a.len() - 1) as nat);
        let y = le_value(b);
        assert(le_value(a + b) == a[0] + 256 * (x + p * y));
        assert(le_value(a) == a[0] + 256 * x);
        assert(pow256(a.len()) == 256 * p);
        assert(a[0] + 256 * (x + p * y) == (a[0] + 256 * x) + (256 * p) * y) by (nonlinear_arith);
    }
}

/// `k` copies of one byte.
pub open spec fn repeated(k: nat, byte: u8) -> Seq<u8> {
    Seq::new(k, |i: int| byte)
}

/// Bytes all zero make 0; bytes all `0xff` make `256^k - 1`.
pub proof fn lemma_le_value_repeated(k: nat)
    ensures
        le_value(repeated(k, 0)) == 0,
        le_value(repeated(k, 255)) == pow256(k) - 1,
    decreases k,
{
    if k > 0 {
        lemma_le_value_repeated((k - 1) as nat);
        assert(repeated(k, 0).drop_first() =~= repeated((k - 1) as nat, 0));
        assert(repeated(k, 255).drop_first() =~= repeated((k - 1) as nat, 255));
    }
}

/// The last of `n` little-endian bytes of a number below `256^n` is its quotient by `256^(n-1)`.
pub proof fn lemma_le_value_last(bs: Seq<u8>)
    requires
        bs.len() > 0,
    ensures
        le_value(bs) as int / (pow256((bs.len() - 1) as nat) as int) == bs.last(),
{
    let n1 = (bs.len() - 1) as nat;
    assert(bs =~= bs.drop_last() + seq![bs.last()]);
    lemma_le_value_append(bs.drop_last(), seq![bs.last()]);
    assert(seq![bs.last()].drop_first() =~= Seq::<u8>::empty());
    lemma_le_value_bound(bs.drop_last());
    lemma_pow256_pos(n1);
    assert(seq![bs.last()].drop_first() =~= Seq::<u8>::empty());
    assert(le_value(Seq::<u8>::empty()) == 0);
    assert(le_value(seq![bs.last()]) == bs.last());
    assert(le_value(bs) == bs.last() * pow256(n1) + le_value(bs.drop_last())) by (nonlinear_arith)
        requires
            le_value(bs) == le_value(bs.drop_last()) + pow256(n1) * bs.last(),
    ;
    vstd::arithmetic::div_mod::lemma_fundamental_div_mod_converse(
        le_value(bs) as int,
        pow256(n1) as int,
        bs.last() as int,
        le_value(bs.drop_last()) as int,
    );
}

/// Storing an integer as `size` little-endian bytes and reading them back gives the integer
/// brought to `8 * size` bits: trimmed when read as unsigned, sign-extended from the trimmed
/// bits when read as signed.
pub proof fn lemma_bytes_round_trip(value: u128, size: nat, is_signed: bool)
    requires
        1 <= size <= 15,
    ensures
        ({
            let bs = le_bytes(value as nat, size);
            let fill = if is_signed && bs.last() >= 128 { 255u8 } else { 0u8 };
            le_value(padded16(bs, fill)) == normalized(
                trimmed(value as nat, 8 * size) as u128,
                (8 * size) as usize,
                is_signed,
            )
        }),
{
    let bs = le_bytes(value as nat, size);
    let w = 8 * size;
    lemma_le_value_of_bytes(value as nat, size);
    lemma_pow256_is_pow2(size);
    lemma_pow256_is_pow2(16);
    let t = le_value(bs);
    assert(t == trimmed(value as nat, w));
    lemma_le_value_bound(bs);
    crate::ir::lemma_pow2_facts(w);
    let k = (16 - size) as nat;
    let fill = if is_signed && bs.last() >= 128 { 255u8 } else { 0u8 };
    assert(padded16(bs, fill) =~= bs + repeated(k, fill));
    lemma_le_value_append(bs, repeated(k, fill));
    lemma_le_value_repeated(k);
    // The top byte is negative exactly when the trimmed value has its sign bit set.
    lemma_le_value_last(bs);
    lemma_pow256_is_pow2((size - 1) as nat);
    lemma_pow256_pos((size - 1) as nat);
    let p1 = pow256((size - 1) as nat) as int;
    assert(pow2((w - 1) as nat) == 128 * p1) by {
        vstd::arithmetic::power2::lemma_pow2_adds((8 * ((size - 1) as nat)) as nat, 7);
        vstd::arithmetic::power2::lemma2_to64();
        assert((8 * ((size - 1) as nat)) as nat + 7 == (w - 1) as nat);
    }
    assert((bs.last() >= 128) == (t >= 128 * p1)) by {
        vstd::arithmetic::div_mod::lemma_fundamental_div_mod(t as int, p1);
        vstd::arithmetic::div_mod::lemma_mod_bound(t as int, p1);
        assert((t as int / p1 >= 128) == (t >= 128 * p1)) by (nonlinear_arith)
            requires
                p1 > 0,
                t == p1 * (t as int / p1) + t as int % p1,
                0 <= t as int % p1 < p1,
        ;
    }
    // 256^size * 256^(16 - size) = 2^128.
    assert(pow256(size) * pow256(k) == pow256(16)) by {
        vstd::arithmetic::power2::lemma_pow2_adds(w, 8 * k);
        lemma_pow256_is_pow2(k);
        assert(w + 8 * k == 8 * 16);
    }
    assert(t as u128 == t);
    assert((w as usize) as nat == w);
    vstd::arithmetic::div_mod::lemma_small_mod(t, pow2(w));
    assert(trimmed(t, w) == t);
    if fill == 255u8 {
        assert(pow256(size) * (pow256(k) - 1) == pow256(16) - pow256(size)) by (nonlinear_arith)
            requires
                pow256(size) * pow256(k) == pow256(16),
        ;
        assert(le_value(padded16(bs, fill)) == t + pow2(128) - pow2(w));
        assert(sign_extended(t as u128, w) == pow2(128) - pow2(w) + t);
    } else {
        assert(fill == 0u8);
        assert(repeated(k, fill) == repeated(k, 0u8));
        assert(le_value(repeated(k, fill)) == 0);
        assert(le_value(padded16(bs, fill)) == t);
        if is_signed {
            assert(sign_extended(t as u128, w) == t);
        }
    }
}

/// The type of a value: an integer's width and signedness, a pointer to its pointee type, an
/// array of its elements' type, a struct by its name and the types of its fields.
pub open spec fn value_dtype(v: Value) -> SpecDtype
    decreases v,
{
    match v {
        Value::Undef { dtype } => dtype@,
        Value::Unit => SpecDtype::Unit { is_const: false },
        Value::Int { width, is_signed, .. } => SpecDtype::Int { width, is_signed, is_const: false },
        Value::Float { width, .. } => SpecDtype::Float { width, is_const: false },
        Value::Pointer { dtype, .. } => SpecDtype::Pointer { inner: Box::new(dtype@), is_const: false },
        Value::Array { inner_dtype, values } => spec_array(inner_dtype@, values@.len() as usize),
        Value::Struct { name, fields } => SpecDtype::Struct {
            name: Some(name@),
            fields: Some(
                Seq::new(
                    fields@.len(),
                    |i: int|
                        if 0 <= i < fields@.len() {
                            (fields@[i].name_v(), value_dtype(fields@[i].inner))
                        } else {
                            (None, SpecDtype::Unit { is_const: false })
                        },
                ),
            ),
            is_const: false,
            size_align_offsets: None,
        },
    }
}

/// The value has a type: no array in it has functions for elements.
pub open spec fn has_dtype(v: Value) -> bool
    decreases v,
{
    match v {
        Value::Array { inner_dtype, .. } => !(spec_array_elem(inner_dtype@) is Function),
        Value::Struct { fields, .. } => forall|i: int|
            0 <= i < fields@.len() ==> has_dtype(#[trigger] fields@[i].inner),
        _ => true,
    }
}

impl HasDtype for Value {
    /// The type of the value. An array whose elements are functions has none (it cannot be
    /// formed); unit stands for it.
    #[verifier::loop_isolation(false)]
    fn dtype(&self) -> (r: Dtype)
        ensures
            has_dtype(*self) ==> r@ == value_dtype(*self),
        decreases self,
    {
        match self {
            Value::Undef { dtype } => dtype.duplicate(),
            Value::Unit => Dtype::unit(),
            Value::Int { width, is_signed, .. } => Dtype::integer(*width).set_signed(*is_signed),
            Value::Float { width, .. } => Dtype::float(*width),
            Value::Pointer { dtype, .. } => Dtype::pointer(dtype.duplicate()),
            Value::Array { inner_dtype, values } => {
                let is_function = match inner_dtype.array_elem() {
                    Dtype::Function { .. } => true,
                    _ => false,
                };
                if is_function {
                    Dtype::unit()
                } else {
                    Dtype::array(inner_dtype.duplicate(), values.len())
                }
            },
            Value::Struct { name, fields } => {
                let mut out: Vec<Named<Dtype>> = Vec::new();
                let mut i: usize = 0;
                while i < fields.len()
                    invariant
                        i <= fields@.len(),
                        out@.len() == i,
                        forall|j: int|
                            0 <= j < i ==> (#[trigger] out@[j]).name_v() == fields@[j].name_v() && (
                            has_dtype(fields@[j].inner) ==> out@[j].inner@ == value_dtype(fields@[j].inner)),
                    decreases fields@.len() - i,
                {
                    proof {
                        assert(decreases_to!(*self => *fields));
                        assert(decreases_to!(*fields => fields@));
                        assert(decreases_to!(fields@ => fields@[i as int]));
                        assert(decreases_to!(fields@[i as int] => fields@[i as int].inner));
                    }
                    let d = fields[i].inner.dtype();
                    let n = match &fields[i].name {
                        Some(x) => Some(x.clone()),
                        None => None,
                    };
                    out.push(Named::new(n, d));
                    i = i + 1;
                }
                let r = Dtype::structure(Some(name.clone()), Some(out));
                proof {
                    if has_dtype(*self) {
                        assert forall|j: int| 0 <= j < fields@.len() implies has_dtype(
                            #[trigger] fields@[j].inner,
                        ) by {}
                    }
                    if has_dtype(*self) {
                        assert(value_dtype(*self) matches SpecDtype::Struct { fields: Some(vf), .. }
                            && super::dtype::fields_view(out@) =~= vf);
                    }
                }
                r
            },
        }
    }
}

/// An integer brought to the type `Int { width: tw, is_signed: ts }`: sign-extended from the
/// trimmed bits when the target is signed and no wider, kept when the target is signed and
/// wider, trimmed when the target is unsigned.
pub open spec fn int_cast(value: u128, width: usize, tw: usize, ts: bool) -> u128 {
    if ts {
        if width >= tw {
            sign_extended(trimmed(value as nat, tw as nat) as u128, tw as nat) as u128
        } else {
            value
        }
    } else {
        trimmed(value as nat, tw as nat) as u128
    }
}

/// A cast to an unsigned integer type of `tw` bits gives the value modulo `2^tw`: the result
/// is below `2^tw`, and it is the low `tw` bits of the value's bit pattern, whatever the width
/// of the value.
pub proof fn lemma_unsigned_cast_is_modular(value: u128, width: usize, tw: usize)
    requires
        1 <= tw < 128,
    ensures
        int_cast(value, width, tw, false) as nat == value as nat % pow2(tw as nat),
        int_cast(value, width, tw, false) < pow2(tw as nat),
{
    crate::ir::lemma_pow2_facts(tw as nat);
    vstd::arithmetic::div_mod::lemma_mod_bound(value as int, pow2(tw as nat) as int);
}

/// A cast to a signed integer type of `tw` bits, no wider than the value, keeps the low `tw`
/// bits of the value and reads as a signed number of `tw` bits: in `[-2^(tw-1), 2^(tw-1))`.
/// A cast to a wider signed type keeps the value's bit pattern.
pub proof fn lemma_signed_cast(value: u128, width: usize, tw: usize)
    requires
        1 <= tw < 128,
    ensures
        width >= tw ==> trimmed(int_cast(value, width, tw, true) as nat, tw as nat) == trimmed(
            value as nat,
            tw as nat,
        ),
        width >= tw ==> -pow2((tw - 1) as nat) <= signed_value(int_cast(value, width, tw, true)) < pow2(
            (tw - 1) as nat,
        ),
        width < tw ==> int_cast(value, width, tw, true) == value,
{
    if width >= tw {
        let w = tw as nat;
        crate::ir::lemma_pow2_facts(w);
        vstd::arithmetic::div_mod::lemma_mod_bound(value as int, pow2(w) as int);
        let t = trimmed(value as nat, w);
        assert(t < pow2(w));
        assert(t as u128 == t);
        let r = sign_extended(t as u128, w);
        if t >= pow2((w - 1) as nat) {
            assert(r < pow2(128));
        }
        assert(r as u128 == r);
        crate::ir::lemma_trim_of_sign_extended(t as u128, w);
        crate::ir::lemma_trim_idempotent(value as nat, w);
        crate::ir::lemma_sign_extended_range(t as u128, w);
    }
}

/// The inputs on which a cast is computed here: a value that has a type, and that is already of
/// the target type, undefined, an integer cast to an integer type of 1 to 127 bits, or the integer
/// 0 cast to a pointer type. Casts that involve floats are not among them.
pub open spec fn typecast_ok(value: Value, dtype: SpecDtype) -> bool {
    &&& has_dtype(value)
    &&& {
        ||| value_dtype(value) == dtype
        ||| value is Undef
        ||| (value is Int && (dtype matches SpecDtype::Int { width: tw, .. } && 1 <= tw < 128))
        ||| (value matches Value::Int { value: v, .. } && v == 0 && dtype is Pointer)
    }
}

/// Casts `value` to type `dtype`.
///
/// A value of type `dtype` is returned as it is; an undefined value becomes the undefined value
/// of `dtype`; an integer is brought to the target width and signedness (see `int_cast`); the
/// integer 0 becomes the null pointer.
pub fn calculate_typecast(value: Value, dtype: Dtype) -> (r: Result<Value, ()>)
    requires
        typecast_ok(value, dtype@),
    ensures
        r is Ok,
        value_dtype(value) == dtype@ ==> r == Ok::<Value, ()>(value),
        value_dtype(value) != dtype@ ==> match value {
            Value::Undef { .. } => r matches Ok(Value::Undef { dtype: d }) && d == dtype,
            Value::Int { value: v, width, .. } => match dtype@ {
                SpecDtype::Int { width: tw, is_signed: ts, .. } => r == Ok::<Value, ()>(
                    Value::Int { value: int_cast(v, width, tw, ts), width: tw, is_signed: ts },
                ),
                SpecDtype::Pointer { inner, .. } => r matches Ok(
                    Value::Pointer { bid: None, offset: 0, dtype: d },
                ) && d@ == *inner,
                _ => false,
            },
            _ => false,
        },
{
    let vd = value.dtype();
    if vd.equals(&dtype) {
        return Ok(value);
    }
    match value {
        Value::Undef { .. } => Ok(Value::Undef { dtype }),
        Value::Int { value, width, .. } => match dtype {
            Dtype::Int { width: target_width, is_signed: target_signed, .. } => {
                let result = if target_signed {
                    if width >= target_width {
                        let v = trim_unnecessary_bits(value, target_width as u128);
                        sign_extension(v, target_width as u128)
                    } else {
                        value
                    }
                } else {
                    trim_unnecessary_bits(value, target_width as u128)
                };
                Ok(Value::Int { value: result, width: target_width, is_signed: target_signed })
            },
            Dtype::Pointer { inner, .. } => Ok(Value::Pointer { bid: None, offset: 0, dtype: *inner }),
            _ => Err(()),
        },
        _ => Err(()),
    }
}

impl Value {
    /// The value of a constant that is no global variable's address.
    pub fn try_from_constant(constant: Constant) -> (r: Result<Value, ()>)
        requires
            !(constant is GlobalVariable),
        ensures
            r == Ok::<Value, ()>(match constant {
                Constant::Undef { dtype } => Value::Undef { dtype },
                Constant::Unit => Value::Unit,
                Constant::Int { value, width, is_signed } => Value::Int { value, width, is_signed },
                Constant::Float { bits, width } => Value::Float { bits, width },
                Constant::GlobalVariable { .. } => Value::Unit,
            }),
    {
        match constant {
            Constant::Undef { dtype } => Ok(Value::Undef { dtype }),
            Constant::Unit => Ok(Value::Unit),
            Constant::Int { value, width, is_signed } => Ok(Value::Int { value, width, is_signed }),
            Constant::Float { bits, width } => Ok(Value::Float { bits, width }),
            Constant::GlobalVariable { .. } => Ok(Value::Unit),
        }
    }
}

} // verus!
