//! The code of the intermediate representation: constants, operands, instructions and blocks.
use vstd::prelude::*;

use super::dtype::{dtype_text, dtypes_view, fields_view, spec_set_const};
use super::interp::{int_cast, lemma_as_i128, lemma_i128_as_u128, wrap128};
use super::{sign_extension, signed_value, trim_unnecessary_bits};
use crate::utils::{decimal, push_decimal, push_signed_decimal, signed_decimal};
use super::interp::{BinaryOperator, UnaryOperator};
use super::{BlockId, Dtype, HasDtype, Named, RegisterId, SpecDtype};

verus! {

/// A constant value of the intermediate representation.
///
/// A floating-point constant is held as the bit pattern of the IEEE 754 double that has its
/// value.
#[derive(Debug)]
pub enum Constant {
    Undef { dtype: Dtype },
    Unit,
    Int { value: u128, width: usize, is_signed: bool },
    Float { bits: u64, width: usize },
    GlobalVariable { name: String, dtype: Dtype },
}

/// Whether a double's bit pattern is a NaN: all exponent bits set and a nonzero fraction.
pub open spec fn is_nan_bits(bits: u64) -> bool {
    (bits & 0x7ff0_0000_0000_0000u64) == 0x7ff0_0000_0000_0000u64 && (bits & 0x000f_ffff_ffff_ffffu64)
        != 0
}

/// Whether a double's bit pattern is a zero, positive or negative.
pub open spec fn is_zero_bits(bits: u64) -> bool {
    (bits & 0x7fff_ffff_ffff_ffffu64) == 0
}

/// Equality of doubles as ordered floats compare them: every NaN equals every NaN, and
/// otherwise the numbers are equal (so the two zeros are equal).
pub open spec fn float_bits_equal(a: u64, b: u64) -> bool {
    if is_nan_bits(a) {
        is_nan_bits(b)
    } else {
        !is_nan_bits(b) && (a == b || (is_zero_bits(a) && is_zero_bits(b)))
    }
}

/// Whether two constants are equal.
pub open spec fn constant_equal(a: Constant, b: Constant) -> bool {
    match (a, b) {
        (Constant::Undef { dtype: d1 }, Constant::Undef { dtype: d2 }) => d1@ == d2@,
        (Constant::Unit, Constant::Unit) => true,
        (
            Constant::Int { value: v1, width: w1, is_signed: s1 },
            Constant::Int { value: v2, width: w2, is_signed: s2 },
        ) => v1 == v2 && w1 == w2 && s1 == s2,
        (Constant::Float { bits: b1, width: w1 }, Constant::Float { bits: b2, width: w2 }) => float_bits_equal(b1, b2)
            && w1 == w2,
        (Constant::GlobalVariable { name: n1, dtype: d1 }, Constant::GlobalVariable { name: n2, dtype: d2 }) => n1@
            == n2@ && d1@ == d2@,
        _ => false,
    }
}

fn float_bits_eq(a: u64, b: u64) -> (r: bool)
    ensures
        r == float_bits_equal(a, b),
{
    let a_nan = (a & 0x7ff0_0000_0000_0000u64) == 0x7ff0_0000_0000_0000u64 && (a & 0x000f_ffff_ffff_ffffu64) != 0;
    let b_nan = (b & 0x7ff0_0000_0000_0000u64) == 0x7ff0_0000_0000_0000u64 && (b & 0x000f_ffff_ffff_ffffu64) != 0;
    if a_nan {
        b_nan
    } else {
        !b_nan && (a == b || ((a & 0x7fff_ffff_ffff_ffffu64) == 0 && (b & 0x7fff_ffff_ffff_ffffu64) == 0))
    }
}

impl Constant {
    /// Whether the constant is an integer.
    pub fn is_integer_constant(&self) -> (r: bool)
        ensures
            r == self is Int,
    {
        match self {
            Constant::Int { .. } => true,
            _ => false,
        }
    }

    /// The undefined value of type `dtype`.
    pub fn undef(dtype: Dtype) -> (r: Self)
        ensures
            r == (Constant::Undef { dtype }),
    {
        Constant::Undef { dtype }
    }

    /// The unit value.
    pub fn unit() -> (r: Self)
        ensures
            r == Constant::Unit,
    {
        Constant::Unit
    }

    /// The integer `value` of the integer type `dtype`.
    pub fn integer(value: u128, dtype: Dtype) -> (r: Self)
        requires
            dtype@ is Int,
        ensures
            dtype@ matches SpecDtype::Int { width, is_signed, .. } && r == (Constant::Int {
                value,
                width,
                is_signed,
            }),
    {
        let width = dtype.get_int_width().unwrap();
        let is_signed = dtype.is_int_signed();
        Constant::Int { value, width, is_signed }
    }

    /// The float of bit pattern `bits` of the float type `dtype`.
    pub fn float(bits: u64, dtype: Dtype) -> (r: Self)
        requires
            dtype@ is Float,
        ensures
            dtype@ matches SpecDtype::Float { width, .. } && r == (Constant::Float { bits, width }),
    {
        let width = dtype.get_float_width().unwrap();
        Constant::Float { bits, width }
    }

    /// The address of global variable `name`, a pointer to a value of type `dtype`.
    pub fn global_variable(name: String, dtype: Dtype) -> (r: Self)
        ensures
            r == (Constant::GlobalVariable { name, dtype }),
    {
        Constant::GlobalVariable { name, dtype }
    }

    /// The value, width and signedness of an integer constant.
    pub fn get_int(&self) -> (r: Option<(u128, usize, bool)>)
        ensures
            r == match *self {
                Constant::Int { value, width, is_signed } => Some((value, width, is_signed)),
                _ => None,
            },
    {
        match self {
            Constant::Int { value, width, is_signed } => Some((*value, *width, *is_signed)),
            _ => None,
        }
    }

    /// The name of a global variable's address.
    pub fn get_global_variable_name(&self) -> (r: Option<String>)
        ensures
            r is Some == self is GlobalVariable,
            r matches Some(n) ==> self matches Constant::GlobalVariable { name, .. } && n@ == name@,
    {
        match self {
            Constant::GlobalVariable { name, .. } => Some(name.clone()),
            _ => None,
        }
    }

    /// Whether the constant is undefined.
    pub fn is_undef(&self) -> (r: bool)
        ensures
            r == self is Undef,
    {
        match self {
            Constant::Undef { .. } => true,
            _ => false,
        }
    }

    /// Whether two constants are equal; floats compare as ordered floats do.
    pub fn equals(&self, other: &Constant) -> (r: bool)
        ensures
            r == constant_equal(*self, *other),
    {
        match (self, other) {
            (Constant::Undef { dtype: d1 }, Constant::Undef { dtype: d2 }) => d1.equals(d2),
            (Constant::Unit, Constant::Unit) => true,
            (
                Constant::Int { value: v1, width: w1, is_signed: s1 },
                Constant::Int { value: v2, width: w2, is_signed: s2 },
            ) => *v1 == *v2 && *w1 == *w2 && *s1 == *s2,
            (Constant::Float { bits: b1, width: w1 }, Constant::Float { bits: b2, width: w2 }) => float_bits_eq(*b1, *b2)
                && *w1 == *w2,
            (
                Constant::GlobalVariable { name: n1, dtype: d1 },
                Constant::GlobalVariable { name: n2, dtype: d2 },
            ) => *n1 == *n2 && d1.equals(d2),
            _ => false,
        }
    }
}

/// The type of a constant: a global variable's address is a pointer to the variable.
pub open spec fn constant_dtype(c: Constant) -> SpecDtype {
    match c {
        Constant::Undef { dtype } => dtype@,
        Constant::Unit => SpecDtype::Unit { is_const: false },
        Constant::Int { width, is_signed, .. } => SpecDtype::Int { width, is_signed, is_const: false },
        Constant::Float { width, .. } => SpecDtype::Float { width, is_const: false },
        Constant::GlobalVariable { dtype, .. } => SpecDtype::Pointer { inner: Box::new(dtype@), is_const: false },
    }
}

impl HasDtype for Constant {
    fn dtype(&self) -> (r: Dtype)
        ensures
            r@ == constant_dtype(*self),
    {
        match self {
            Constant::Undef { dtype } => dtype.duplicate(),
            Constant::Unit => Dtype::unit(),
            Constant::Int { width, is_signed, .. } => Dtype::integer(*width).set_signed(*is_signed),
            Constant::Float { width, .. } => Dtype::float(*width),
            Constant::GlobalVariable { dtype, .. } => Dtype::pointer(dtype.duplicate()),
        }
    }
}

/// An operand of an instruction: a constant, or a register holding a value of a type.
#[derive(Debug)]
pub enum Operand {
    Constant(Constant),
    Register { rid: RegisterId, dtype: Dtype },
}

/// Whether two operands are equal.
pub open spec fn operand_equal(a: Operand, b: Operand) -> bool {
    match (a, b) {
        (Operand::Constant(c1), Operand::Constant(c2)) => constant_equal(c1, c2),
        (Operand::Register { rid: r1, dtype: d1 }, Operand::Register { rid: r2, dtype: d2 }) => r1 == r2
            && d1@ == d2@,
        _ => false,
    }
}

/// Whether two lists of operands are equal, one by one.
pub open spec fn operands_equal(a: Seq<Operand>, b: Seq<Operand>) -> bool {
    a.len() == b.len() && forall|i: int| 0 <= i < a.len() ==> operand_equal(#[trigger] a[i], b[i])
}

/// The type of the value of an operand.
pub open spec fn operand_dtype(o: Operand) -> SpecDtype {
    match o {
        Operand::Constant(c) => constant_dtype(c),
        Operand::Register { dtype, .. } => dtype@,
    }
}

impl Operand {
    /// The operand of a constant.
    pub fn constant(value: Constant) -> (r: Self)
        ensures
            r == Operand::Constant(value),
    {
        Operand::Constant(value)
    }

    /// The operand of register `rid`, holding a value of type `dtype`.
    pub fn register(rid: RegisterId, dtype: Dtype) -> (r: Self)
        ensures
            r == (Operand::Register { rid, dtype }),
    {
        Operand::Register { rid, dtype }
    }

    /// The constant, if the operand is one.
    pub fn get_constant(&self) -> (r: Option<&Constant>)
        ensures
            r == match *self {
                Operand::Constant(c) => Some(&c),
                _ => None,
            },
    {
        match self {
            Operand::Constant(c) => Some(c),
            _ => None,
        }
    }

    /// The register and its type, if the operand is one.
    pub fn get_register(&self) -> (r: Option<(&RegisterId, &Dtype)>)
        ensures
            r == match *self {
                Operand::Register { rid, dtype } => Some((&rid, &dtype)),
                _ => None,
            },
    {
        match self {
            Operand::Register { rid, dtype } => Some((rid, dtype)),
            _ => None,
        }
    }

    /// The register and type of a register operand, to be changed in place.
    pub fn get_register_mut(&mut self) -> (r: Option<(&mut RegisterId, &mut Dtype)>)
        ensures
            r is Some == *old(self) is Register,
            r matches Some((rid, dtype)) ==> *old(self) == (Operand::Register { rid: *rid, dtype: *dtype })
                && *final(self) == (Operand::Register { rid: *final(rid), dtype: *final(dtype) }),
            r is None ==> *final(self) == *old(self),
    {
        match self {
            Operand::Register { rid, dtype } => Some((rid, dtype)),
            _ => None,
        }
    }

    /// Whether two operands are equal.
    pub fn equals(&self, other: &Operand) -> (r: bool)
        ensures
            r == operand_equal(*self, *other),
    {
        match (self, other) {
            (Operand::Constant(c1), Operand::Constant(c2)) => c1.equals(c2),
            (Operand::Register { rid: r1, dtype: d1 }, Operand::Register { rid: r2, dtype: d2 }) => {
                *r1 == *r2 && d1.equals(d2)
            },
            _ => false,
        }
    }
}

impl HasDtype for Operand {
    fn dtype(&self) -> (r: Dtype)
        ensures
            r@ == operand_dtype(*self),
    {
        match self {
            Operand::Constant(c) => c.dtype(),
            Operand::Register { dtype, .. } => dtype.duplicate(),
        }
    }
}

/// Whether two lists of operands are equal, one by one.
pub fn operands_equals(a: &Vec<Operand>, b: &Vec<Operand>) -> (r: bool)
    ensures
        r == operands_equal(a@, b@),
{
    if a.len() != b.len() {
        return false;
    }
    let mut i: usize = 0;
    while i < a.len()
        invariant
            i <= a@.len(),
            a@.len() == b@.len(),
            forall|j: int| 0 <= j < i ==> operand_equal(#[trigger] a@[j], b@[j]),
        decreases a@.len() - i,
    {
        if !a[i].equals(&b[i]) {
            return false;
        }
        i = i + 1;
    }
    true
}

/// An instruction of the intermediate representation.
#[derive(Debug)]
pub enum Instruction {
    Nop,
    BinOp { op: BinaryOperator, lhs: Operand, rhs: Operand, dtype: Dtype },
    UnaryOp { op: UnaryOperator, operand: Operand, dtype: Dtype },
    Store { ptr: Operand, value: Operand },
    Load { ptr: Operand },
    Call { callee: Operand, args: Vec<Operand>, return_type: Dtype },
    TypeCast { value: Operand, target_dtype: Dtype },
    /// The address `offset` bytes past `ptr`, a pointer of type `dtype`.
    GetElementPtr { ptr: Operand, offset: Operand, dtype: Box<Dtype> },
}

impl Instruction {
    /// Whether the instruction has no effect besides its result: stores and calls have.
    pub fn is_pure(&self) -> (r: bool)
        ensures
            r == !(self is Store || self is Call),
    {
        match self {
            Instruction::Store { .. } => false,
            Instruction::Call { .. } => false,
            _ => true,
        }
    }
}

/// The type of an instruction's result: a load gives the pointed type, made not `const`.
pub open spec fn instruction_dtype(i: Instruction) -> SpecDtype {
    match i {
        Instruction::Nop => SpecDtype::Unit { is_const: false },
        Instruction::BinOp { dtype, .. } => dtype@,
        Instruction::UnaryOp { dtype, .. } => dtype@,
        Instruction::Store { .. } => SpecDtype::Unit { is_const: false },
        Instruction::Load { ptr } => match operand_dtype(ptr) {
            SpecDtype::Pointer { inner, .. } => spec_set_const(*inner, false),
            _ => SpecDtype::Unit { is_const: false },
        },
        Instruction::Call { return_type, .. } => return_type@,
        Instruction::TypeCast { target_dtype, .. } => target_dtype@,
        Instruction::GetElementPtr { dtype, .. } => (*dtype)@,
    }
}

impl HasDtype for Instruction {
    fn dtype(&self) -> (r: Dtype)
        ensures
            !(*self matches Instruction::Load { ptr } && !(operand_dtype(ptr) is Pointer)) ==> r@
                == instruction_dtype(*self),
    {
        match self {
            Instruction::Nop => Dtype::unit(),
            Instruction::BinOp { dtype, .. } => dtype.duplicate(),
            Instruction::UnaryOp { dtype, .. } => dtype.duplicate(),
            Instruction::Store { .. } => Dtype::unit(),
            Instruction::Load { ptr } => {
                let d = ptr.dtype();
                match d.get_pointer_inner() {
                    Some(inner) => inner.duplicate().set_const(false),
                    None => Dtype::unit(),
                }
            },
            Instruction::Call { return_type, .. } => return_type.duplicate(),
            Instruction::TypeCast { target_dtype, .. } => target_dtype.duplicate(),
            Instruction::GetElementPtr { dtype, .. } => dtype.duplicate(),
        }
    }
}

/// A jump to a block, with the values of its arguments.
#[derive(Debug)]
pub struct JumpArg {
    pub bid: BlockId,
    pub args: Vec<Operand>,
}

impl JumpArg {
    /// A jump to block `bid` with arguments `args`.
    pub fn new(bid: BlockId, args: Vec<Operand>) -> (r: Self)
        ensures
            r.bid == bid,
            r.args == args,
    {
        JumpArg { bid, args }
    }
}

/// How a block ends.
#[derive(Debug)]
pub enum BlockExit {
    Jump { arg: JumpArg },
    ConditionalJump { condition: Operand, arg_then: Box<JumpArg>, arg_else: Box<JumpArg> },
    Switch { value: Operand, default: Box<JumpArg>, cases: Vec<(Constant, JumpArg)> },
    Return { value: Operand },
    Unreachable,
}

impl BlockExit {
    /// The exit with each of its jumps replaced by `f` of it, in the order they are written (a
    /// switch's default before its cases); the rest is kept.
    pub fn walk_jump_args<F: Fn(JumpArg) -> JumpArg>(self, f: F) -> (r: BlockExit)
        requires
            forall|j: JumpArg| #[trigger] f.requires((j,)),
        ensures
            match (self, r) {
                (BlockExit::Jump { arg }, BlockExit::Jump { arg: a2 }) => f.ensures((arg,), a2),
                (
                    BlockExit::ConditionalJump { condition, arg_then, arg_else },
                    BlockExit::ConditionalJump { condition: c2, arg_then: t2, arg_else: e2 },
                ) => c2 == condition && f.ensures((*arg_then,), *t2) && f.ensures((*arg_else,), *e2),
                (
                    BlockExit::Switch { value, default, cases },
                    BlockExit::Switch { value: v2, default: d2, cases: cs2 },
                ) => v2 == value && f.ensures((*default,), *d2) && cs2@.len() == cases@.len() && forall|i: int|
                    0 <= i < cases@.len() ==> (#[trigger] cs2@[i]).0 == cases@[i].0 && f.ensures(
                        (cases@[i].1,),
                        cs2@[i].1,
                    ),
                (BlockExit::Return { value }, BlockExit::Return { value: v2 }) => v2 == value,
                (BlockExit::Unreachable, BlockExit::Unreachable) => true,
                _ => false,
            },
    {
        match self {
            BlockExit::Jump { arg } => BlockExit::Jump { arg: f(arg) },
            BlockExit::ConditionalJump { condition, arg_then, arg_else } => {
                let t = f(*arg_then);
                let e = f(*arg_else);
                BlockExit::ConditionalJump { condition, arg_then: Box::new(t), arg_else: Box::new(e) }
            },
            BlockExit::Switch { value, default, cases } => {
                let d = f(*default);
                let ghost orig = cases@;
                let mut rest = cases;
                let mut out: Vec<(Constant, JumpArg)> = Vec::new();
                while rest.len() > 0
                    invariant
                        forall|j: JumpArg| #[trigger] f.requires((j,)),
                        out@.len() + rest@.len() == orig.len(),
                        rest@ == orig.skip(out@.len() as int),
                        forall|i: int|
                            0 <= i < out@.len() ==> (#[trigger] out@[i]).0 == orig[i].0 && f.ensures(
                                (orig[i].1,),
                                out@[i].1,
                            ),
                    decreases rest@.len(),
                {
                    let (c, a) = rest.remove(0);
                    let a2 = f(a);
                    out.push((c, a2));
                    assert(rest@ =~= orig.skip(out@.len() as int));
                }
                BlockExit::Switch { value, default: Box::new(d), cases: out }
            },
            BlockExit::Return { value } => BlockExit::Return { value },
            BlockExit::Unreachable => BlockExit::Unreachable,
        }
    }
}

/// A basic block: its arguments (phi nodes), its instructions and its exit.
#[derive(Debug)]
pub struct Block {
    pub phinodes: Vec<Named<Dtype>>,
    pub instructions: Vec<Named<Instruction>>,
    pub exit: BlockExit,
}

/// The blocks a block exit may jump to, with their arguments, in the order they are written:
/// the `then` jump before the `else` jump, a switch's default before its cases.
pub open spec fn exit_jumps(exit: BlockExit) -> Seq<JumpArg> {
    match exit {
        BlockExit::Jump { arg } => seq![arg],
        BlockExit::ConditionalJump { arg_then, arg_else, .. } => seq![*arg_then, *arg_else],
        BlockExit::Switch { default, cases, .. } => seq![*default] + cases@.map_values(
            |c: (Constant, JumpArg)| c.1,
        ),
        _ => seq![],
    }
}

/// The textual form of a constant: `undef`, `unit`, the integer (signed when the constant is),
/// or `@name` for a global variable's address. Floats are written outside this library.
pub open spec fn constant_text(c: Constant) -> Seq<char> {
    match c {
        Constant::Undef { .. } => "undef"@,
        Constant::Unit => "unit"@,
        Constant::Int { value, is_signed, .. } => if is_signed {
            signed_decimal(signed_value(value))
        } else {
            decimal(value as nat)
        },
        Constant::GlobalVariable { name, .. } => "@"@ + name@,
        Constant::Float { .. } => Seq::empty(),
    }
}

/// The textual form of an operand: a constant's, or its register's.
pub open spec fn operand_text(o: Operand) -> Seq<char> {
    match o {
        Operand::Constant(c) => constant_text(c),
        Operand::Register { rid, .. } => rid.text(),
    }
}

/// An operand followed by its type: `%b0:i1:i32`.
pub open spec fn typed_operand_text(o: Operand) -> Seq<char> {
    operand_text(o) + ":"@ + dtype_text(operand_dtype(o))
}

/// Typed operands separated by `, `.
pub open spec fn typed_operands_text(os: Seq<Operand>) -> Seq<char>
    decreases os.len(),
{
    if os.len() == 0 {
        ""@
    } else if os.len() == 1 {
        typed_operand_text(os[0])
    } else {
        typed_operands_text(os.drop_last()) + ", "@ + typed_operand_text(os.last())
    }
}

impl Constant {
    /// Appends the textual form of a constant that is no float to `out`.
    pub fn push_text(&self, out: &mut String)
        requires
            !(self is Float),
        ensures
            final(out)@ == old(out)@ + constant_text(*self),
    {
        match self {
            Constant::Undef { .. } => out.append("undef"),
            Constant::Unit => out.append("unit"),
            Constant::Int { value, is_signed, .. } => {
                if *is_signed {
                    proof {
                        super::interp::lemma_as_i128(*value);
                    }
                    push_signed_decimal(out, *value as i128);
                } else {
                    push_decimal(out, *value);
                }
            },
            Constant::GlobalVariable { name, .. } => {
                out.append("@");
                out.append(name.as_str());
            },
            Constant::Float { .. } => {},
        }
        assert(out@ =~= old(out)@ + constant_text(*self));
    }
}

impl Operand {
    /// Appends the textual form of an operand that is no float constant to `out`.
    pub fn push_text(&self, out: &mut String)
        requires
            !(*self matches Operand::Constant(Constant::Float { .. })),
        ensures
            final(out)@ == old(out)@ + operand_text(*self),
    {
        match self {
            Operand::Constant(c) => c.push_text(out),
            Operand::Register { rid, .. } => {
                let t = rid.to_string();
                out.append(t.as_str());
            },
        }
    }

    /// The operand followed by a colon and its type.
    pub fn write_string(&self) -> (r: String)
        requires
            !(*self matches Operand::Constant(Constant::Float { .. })),
        ensures
            r@ == typed_operand_text(*self),
    {
        let mut s = String::new();
        self.push_text(&mut s);
        s.append(":");
        let d = self.dtype();
        d.push_text(&mut s);
        assert(s@ =~= typed_operand_text(*self));
        s
    }
}

impl JumpArg {
    /// The textual form: the target block and its typed arguments, `b1(%b0:i1:i32, 0:i32)`.
    pub fn to_string(&self) -> (r: String)
        requires
            forall|i: int| 0 <= i < self.args@.len() ==> !(#[trigger] self.args@[i] matches Operand::Constant(
                Constant::Float { .. },
            )),
        ensures
            r@ == self.bid.text() + "("@ + typed_operands_text(self.args@) + ")"@,
    {
        proof {
            reveal_strlit("");
        }
        let mut s = self.bid.to_string();
        s.append("(");
        let ghost start = s@;
        let mut i: usize = 0;
        while i < self.args.len()
            invariant
                i <= self.args@.len(),
                forall|k: int| 0 <= k < self.args@.len() ==> !(#[trigger] self.args@[k] matches Operand::Constant(
                    Constant::Float { .. },
                )),
                s@ == start + typed_operands_text(self.args@.subrange(0, i as int)),
            decreases self.args@.len() - i,
        {
            proof {
                reveal_strlit("");
                assert(self.args@.subrange(0, i + 1).drop_last() =~= self.args@.subrange(0, i as int));
            }
            if i > 0 {
                s.append(", ");
            }
            let t = self.args[i].write_string();
            s.append(t.as_str());
            i = i + 1;
            assert(s@ =~= start + typed_operands_text(self.args@.subrange(0, i as int)));
        }
        assert(self.args@.subrange(0, i as int) =~= self.args@);
        s.append(")");
        s
    }
}

impl Constant {
    /// The constant cast to `target_dtype`: unchanged when it already has that type; an integer
    /// cast to an integer type is brought to its width and signedness (see `int_cast`). Casts
    /// that involve floats are computed outside this library.
    pub fn typecast(self, target_dtype: Dtype) -> (r: Self)
        requires
            constant_dtype(self) == target_dtype@ || (self is Int && (target_dtype@ matches SpecDtype::Int {
                width: tw,
                ..
            } && 1 <= tw < 128)),
        ensures
            constant_dtype(self) == target_dtype@ ==> r == self,
            constant_dtype(self) != target_dtype@ ==> (self matches Constant::Int { value, width, .. }
                && target_dtype@ matches SpecDtype::Int { width: tw, is_signed: ts, .. } && r == (
            Constant::Int { value: int_cast(value, width, tw, ts), width: tw, is_signed: ts })),
    {
        let d = self.dtype();
        if d.equals(&target_dtype) {
            return self;
        }
        match self {
            Constant::Int { value, width, .. } => match target_dtype {
                Dtype::Int { width: target_width, is_signed: target_signed, .. } => {
                    let result = if target_signed {
                        if width >= target_width {
                            let v = trim_unnecessary_bits(value, target_width as u128);
                            sign_extension(v, target_width as u128)
                        } else {
                            value
                        }
                    } else {
                        trim_unnecessary_bits(value, target_width as u128)
                    };
                    Constant::Int { value: result, width: target_width, is_signed: target_signed }
                },
                _ => Constant::Unit,
            },
            _ => Constant::Unit,
        }
    }

    /// The negation of a signed integer or a float constant: the 128-bit pattern of the
    /// negated signed value, or the float with its sign bit flipped. (A NaN multiplied by -1
    /// has no sign that IEEE 754 fixes, so NaNs are left out.)
    pub fn minus(self) -> (r: Self)
        requires
            self matches Constant::Int { value, is_signed, .. } ==> is_signed && signed_value(value)
                != i128::MIN,
            self matches Constant::Float { bits, .. } ==> !is_nan_bits(bits),
            self is Int || self is Float,
        ensures
            self matches Constant::Int { value, width, is_signed } ==> r == (Constant::Int {
                value: wrap128(-signed_value(value)),
                width,
                is_signed,
            }),
            self matches Constant::Float { bits, width } ==> r == (Constant::Float {
                bits: bits ^ 0x8000_0000_0000_0000u64,
                width,
            }),
    {
        match self {
            Constant::Int { value, width, is_signed } => {
                proof {
                    lemma_as_i128(value);
                }
                let minus_value: i128 = -(value as i128);
                proof {
                    lemma_i128_as_u128(minus_value);
                }
                Constant::Int { value: minus_value as u128, width, is_signed }
            },
            Constant::Float { bits, width } => Constant::Float { bits: bits ^ 0x8000_0000_0000_0000u64, width },
            other => other,
        }
    }
}


impl Constant {
    /// A copy of the constant.
    pub fn duplicate(&self) -> (r: Self)
        ensures
            constant_equal(r, *self),
    {
        match self {
            Constant::Undef { dtype } => Constant::Undef { dtype: dtype.duplicate() },
            Constant::Unit => Constant::Unit,
            Constant::Int { value, width, is_signed } => Constant::Int { value: *value, width: *width, is_signed: *is_signed },
            Constant::Float { bits, width } => Constant::Float { bits: *bits, width: *width },
            Constant::GlobalVariable { name, dtype } => Constant::GlobalVariable { name: name.clone(), dtype: dtype.duplicate() },
        }
    }
}

impl Operand {
    /// A copy of the operand.
    pub fn duplicate(&self) -> (r: Self)
        ensures
            operand_equal(r, *self),
    {
        match self {
            Operand::Constant(c) => Operand::Constant(c.duplicate()),
            Operand::Register { rid, dtype } => Operand::Register { rid: *rid, dtype: dtype.duplicate() },
        }
    }
}

impl JumpArg {
    /// A copy of the jump.
    pub fn duplicate(&self) -> (r: Self)
        ensures
            r.bid == self.bid,
            operands_equal(r.args@, self.args@),
    {
        let mut args: Vec<Operand> = Vec::new();
        let mut i: usize = 0;
        while i < self.args.len()
            invariant
                i <= self.args@.len(),
                args@.len() == i,
                forall|j: int| 0 <= j < i ==> operand_equal(#[trigger] args@[j], self.args@[j]),
            decreases self.args@.len() - i,
        {
            args.push(self.args[i].duplicate());
            i = i + 1;
        }
        JumpArg { bid: self.bid, args }
    }
}

} // verus!
