//! The state of the interpreter of the intermediate representation: registers, stack frames,
//! global variables and memory, and how one instruction changes them.
use vstd::prelude::*;

use super::dtype::{size_align_ok, spec_size_align, structs_view};
use super::interp::{
    binary_ok, calculate_binary_operator_expression, calculate_typecast, calculate_unary_operator_expression,
    has_dtype, int_binary_result, int_cast, typecast_ok, wrap128, f64_sign_bit, unary_ok, value_dtype, GlobalMap, InterpreterError, Pc, Value,
};
use crate::utils::{push_decimal, push_signed_decimal, decimal, signed_decimal};
use super::memory::{undef_bytes, bytes_read, bytes_read_ok, byte_size, in_block, range_fits, read_fuel, seq_splice, value_bytes, value_bytes_ok, Memory};
use super::equiv::{block_ids, block_of, blocks_sorted, find_block};
use super::code::{Block, BlockExit, JumpArg};
use super::{signed_value, trimmed, BinaryOperator, UnaryOperator, BlockId, Constant, Dtype, FunctionDefinition, Instruction, Named, Operand, RegisterId, SpecDtype, TranslationUnit};

verus! {

broadcast use vstd::std_specs::vec::axiom_vec_decreases_to_view;

/// Two values alike: of the same kind, with equal numbers, block ids and offsets, types of the
/// same model, and alike elements and fields.
pub open spec fn value_same(a: Value, b: Value) -> bool
    decreases a,
{
    match a {
        Value::Undef { dtype: d1 } => b matches Value::Undef { dtype: d2 } && d1@ == d2@,
        Value::Unit => b is Unit,
        Value::Int { .. } => b == a,
        Value::Float { .. } => b == a,
        Value::Pointer { bid: b1, offset: o1, dtype: d1 } => b matches Value::Pointer { bid: b2, offset: o2, dtype: d2 }
            && b1 == b2 && o1 == o2 && d1@ == d2@,
        Value::Array { inner_dtype: i1, values: v1 } => b matches Value::Array { inner_dtype: i2, values: v2 } && i1@
            == i2@ && v1@.len() == v2@.len() && forall|k: int|
            0 <= k < v1@.len() ==> value_same(#[trigger] v1@[k], v2@[k]),
        Value::Struct { name: n1, fields: f1 } => b matches Value::Struct { name: n2, fields: f2 } && n1@ == n2@
            && f1@.len() == f2@.len() && forall|k: int|
            0 <= k < f1@.len() ==> (#[trigger] f1@[k]).name_v() == f2@[k].name_v() && value_same(
                f1@[k].inner,
                f2@[k].inner,
            ),
    }
}

impl Value {
    /// A copy of the value.
    #[verifier::loop_isolation(false)]
    pub fn duplicate(&self) -> (r: Value)
        ensures
            value_same(*self, r),
        decreases self,
    {
        match self {
            Value::Undef { dtype } => Value::Undef { dtype: dtype.duplicate() },
            Value::Unit => Value::Unit,
            Value::Int { value, width, is_signed } => Value::Int { value: *value, width: *width, is_signed: *is_signed },
            Value::Float { bits, width } => Value::Float { bits: *bits, width: *width },
            Value::Pointer { bid, offset, dtype } => Value::Pointer {
                bid: *bid,
                offset: *offset,
                dtype: dtype.duplicate(),
            },
            Value::Array { inner_dtype, values } => {
                let mut out: Vec<Value> = Vec::new();
                let mut i: usize = 0;
                while i < values.len()
                    invariant
                        i <= values@.len(),
                        out@.len() == i,
                        forall|j: int| 0 <= j < i ==> value_same(values@[j], #[trigger] out@[j]),
                    decreases values@.len() - i,
                {
                    proof {
                        assert(decreases_to!(*self => *values));
                        assert(decreases_to!(*values => values@));
                        assert(decreases_to!(values@ => values@[i as int]));
                    }
                    let v = values[i].duplicate();
                    out.push(v);
                    i = i + 1;
                }
                Value::Array { inner_dtype: inner_dtype.duplicate(), values: out }
            },
            Value::Struct { name, fields } => {
                let mut out: Vec<Named<Value>> = Vec::new();
                let mut i: usize = 0;
                while i < fields.len()
                    invariant
                        i <= fields@.len(),
                        out@.len() == i,
                        forall|j: int|
                            0 <= j < i ==> fields@[j].name_v() == (#[trigger] out@[j]).name_v() && value_same(
                                fields@[j].inner,
                                out@[j].inner,
                            ),
                    decreases fields@.len() - i,
                {
                    proof {
                        assert(decreases_to!(*self => *fields));
                        assert(decreases_to!(*fields => fields@));
                        assert(decreases_to!(fields@ => fields@[i as int]));
                        assert(decreases_to!(fields@[i as int] => fields@[i as int].inner));
                    }
                    let v = fields[i].inner.duplicate();
                    let n = match &fields[i].name {
                        Some(x) => Some(x.clone()),
                        None => None,
                    };
                    out.push(Named::new(n, v));
                    i = i + 1;
                }
                Value::Struct { name: name.clone(), fields: out }
            },
        }
    }
}


/// Alike values have the same type, and have one alike.
pub proof fn lemma_value_same_dtype(a: Value, b: Value)
    requires
        value_same(a, b),
    ensures
        has_dtype(a) == has_dtype(b),
        value_dtype(a) == value_dtype(b),
    decreases a,
{
    match a {
        Value::Struct { name: n1, fields: f1 } => {
            let f2 = b->Struct_fields;
            assert forall|k: int| 0 <= k < f1@.len() implies has_dtype(#[trigger] f1@[k].inner) == has_dtype(f2@[k].inner)
                && value_dtype(f1@[k].inner) == value_dtype(f2@[k].inner) by {
                assert(decreases_to!(a => f1));
                assert(decreases_to!(f1 => f1@));
                assert(decreases_to!(f1@ => f1@[k]));
                assert(decreases_to!(f1@[k] => f1@[k].inner));
                lemma_value_same_dtype(f1@[k].inner, f2@[k].inner);
            }
            if has_dtype(a) {
                assert forall|k: int| 0 <= k < f2@.len() implies has_dtype(#[trigger] f2@[k].inner) by {
                    assert(has_dtype(f1@[k].inner));
                }
            }
            if has_dtype(b) {
                assert forall|k: int| 0 <= k < f1@.len() implies has_dtype(#[trigger] f1@[k].inner) by {
                    assert(has_dtype(f2@[k].inner));
                }
            }
            assert(has_dtype(a) == has_dtype(b));
            assert(value_dtype(a) matches SpecDtype::Struct { fields: Some(x), .. } && value_dtype(b) matches SpecDtype::Struct {
                fields: Some(y),
                ..
            } && x =~= y);
        },
        _ => {},
    }
}

/// A value that is no array or struct is written as the same bytes, under the same conditions,
/// as one alike.
pub proof fn lemma_scalar_same_bytes(a: Value, b: Value, structs: Map<Seq<char>, Option<SpecDtype>>)
    requires
        value_same(a, b),
        !(a is Array),
        !(a is Struct),
    ensures
        value_bytes(a, structs) == value_bytes(b, structs),
        value_bytes_ok(a, structs) == value_bytes_ok(b, structs),
        has_dtype(a) == has_dtype(b),
        value_dtype(a) == value_dtype(b),
{
}

/// What a unary operation gives on a value (see `calculate_unary_operator_expression`).
pub open spec fn unary_value(op: UnaryOperator, operand: Value) -> Value {
    match operand {
        Value::Undef { dtype } => Value::Undef { dtype },
        Value::Int { value, width, is_signed } => Value::Int {
            value: match op {
                UnaryOperator::Plus => value,
                UnaryOperator::Minus => if is_signed {
                    wrap128(-signed_value(value))
                } else {
                    trimmed(wrap128(-signed_value(value)) as nat, width as nat) as u128
                },
                _ => if value == 0 {
                    1u128
                } else {
                    0u128
                },
            },
            width,
            is_signed,
        },
        Value::Float { bits, width } => Value::Float {
            bits: if op is Plus {
                bits
            } else {
                bits ^ f64_sign_bit()
            },
            width,
        },
        _ => Value::Unit,
    }
}

/// What a cast of a value to type `dtype` gives (see `calculate_typecast`).
pub open spec fn typecast_value(value: Value, dtype: Dtype) -> Value {
    if value_dtype(value) == dtype@ {
        value
    } else {
        match value {
            Value::Undef { .. } => Value::Undef { dtype },
            Value::Int { value: v, width, .. } => match dtype {
                Dtype::Int { width: tw, is_signed: ts, .. } => Value::Int {
                    value: int_cast(v, width, tw, ts),
                    width: tw,
                    is_signed: ts,
                },
                Dtype::Pointer { inner, .. } => Value::Pointer { bid: None, offset: 0, dtype: *inner },
                _ => Value::Unit,
            },
            _ => Value::Unit,
        }
    }
}

/// A store of `value` at `offset` in block `bid` does not panic: the block is allocated, the
/// value can be written and its size computed, and the end of the range fits in a word.
pub open spec fn store_ready(
    mem: Seq<Option<Seq<super::interp::Byte>>>,
    bid: usize,
    offset: isize,
    value: Value,
    structs: Map<Seq<char>, Option<SpecDtype>>,
) -> bool {
    &&& value_bytes_ok(value, structs)
    &&& has_dtype(value)
    &&& size_align_ok(value_dtype(value), structs)
    &&& spec_size_align(value_dtype(value), structs) is Ok
    &&& bid < mem.len()
    &&& mem[bid as int] is Some
    &&& range_fits(offset, byte_size(value_dtype(value), structs))
}

/// A load of type `d` at `offset` in block `bid` does not panic: the block is allocated, the
/// size of `d` can be computed, the end of the range fits in a word, and the bytes there, where
/// they lie within the block, can be read as `d`.
pub open spec fn load_ready(
    mem: Seq<Option<Seq<super::interp::Byte>>>,
    bid: usize,
    offset: isize,
    d: SpecDtype,
    structs: Map<Seq<char>, Option<SpecDtype>>,
) -> bool {
    &&& size_align_ok(d, structs)
    &&& spec_size_align(d, structs) is Ok
    &&& bid < mem.len()
    &&& mem[bid as int] is Some
    &&& range_fits(offset, byte_size(d, structs))
    &&& in_block(offset, byte_size(d, structs), mem[bid as int].unwrap().len()) ==> exists|fuel: nat|
        #[trigger] bytes_read_ok(
            mem[bid as int].unwrap().subrange(offset as int, offset + byte_size(d, structs)),
            d,
            structs,
            fuel,
        )
}

/// `v` points to the start of block `bid`, with pointee type `d`.
pub open spec fn points_to_start(v: Value, bid: int, d: SpecDtype) -> bool {
    v matches Value::Pointer { bid: Some(b), offset, dtype } && b == bid && offset == 0 && dtype@ == d
}


/// A switch case matches a value: the case is an integer constant equal to the value.
pub open spec fn case_matches(v: Value, c: Constant) -> bool {
    c matches Constant::Int { value, width, is_signed } && v == (Value::Int { value, width, is_signed })
}

/// The jump a switch on `v` takes: that of the first case that matches, the default otherwise.
pub open spec fn switch_target(v: Value, default: JumpArg, cases: Seq<(Constant, JumpArg)>) -> JumpArg
    decreases cases.len(),
{
    if cases.len() == 0 {
        default
    } else if case_matches(v, cases[0].0) {
        cases[0].1
    } else {
        switch_target(v, default, cases.drop_first())
    }
}

/// The memory with the blocks of ids in `bids` freed.
pub open spec fn freed(mem: Seq<Option<Seq<super::interp::Byte>>>, bids: Seq<usize>) -> Seq<Option<Seq<super::interp::Byte>>> {
    Seq::new(mem.len(), |j: int| if listed(bids, j) { None } else { mem[j] })
}

/// `j` is one of `bids`.
pub open spec fn listed(bids: Seq<usize>, j: int) -> bool {
    exists|k: int| 0 <= k < bids.len() && bids[k] == j
}


/// Whether switch case `c` matches `v` (see `case_matches`).
fn case_hits(v: &Value, c: &Constant) -> (r: bool)
    ensures
        r == case_matches(*v, *c),
{
    match (v, c) {
        (Value::Int { value, width, is_signed }, Constant::Int { value: cv, width: cw, is_signed: cs }) => *value == *cv
            && *width == *cw && *is_signed == *cs,
        _ => false,
    }
}


/// The message of a store that falls outside its block.
pub open spec fn store_failure(bid: usize, offset: isize) -> Seq<char> {
    "fail to store value into memory with bid: "@ + decimal(bid as nat) + ", offset: "@ + signed_decimal(offset as int)
}

/// The registers given by a list of writes, a later write of a register hiding the earlier.
pub open spec fn writes_map(s: Seq<(RegisterId, Value)>) -> Map<RegisterId, Value>
    decreases s.len(),
{
    if s.len() == 0 {
        Map::empty()
    } else {
        writes_map(s.drop_last()).insert(s.last().0, s.last().1)
    }
}

/// Writes after position `k` that leave `rid` alone do not change what it holds.
proof fn lemma_writes_after(s: Seq<(RegisterId, Value)>, k: int, rid: RegisterId)
    requires
        0 <= k <= s.len(),
        forall|j: int| k <= j < s.len() ==> (#[trigger] s[j]).0 != rid,
    ensures
        writes_map(s).contains_key(rid) == writes_map(s.take(k)).contains_key(rid),
        writes_map(s).contains_key(rid) ==> writes_map(s)[rid] == writes_map(s.take(k))[rid],
    decreases s.len(),
{
    if s.len() > k {
        assert(s.drop_last().take(k) =~= s.take(k));
        lemma_writes_after(s.drop_last(), k, rid);
        assert(s.last() == s[s.len() - 1]);
    } else {
        assert(s.take(k) =~= s);
    }
}

/// The registers of a function call: the value each register holds.
#[derive(Debug)]
pub struct RegisterMap {
    inner: Vec<(RegisterId, Value)>,
}

impl RegisterMap {
    /// The value held by each register that was written.
    pub closed spec fn spec_map(&self) -> Map<RegisterId, Value> {
        writes_map(self.inner@)
    }

    /// No register written.
    pub fn new() -> (r: Self)
        ensures
            r.spec_map() == Map::<RegisterId, Value>::empty(),
    {
        RegisterMap { inner: Vec::new() }
    }

    /// The value held by `rid`, which must have been written.
    pub fn read(&self, rid: &RegisterId) -> (r: &Value)
        requires
            self.spec_map().contains_key(*rid),
        ensures
            *r == self.spec_map()[*rid],
    {
        let mut i: usize = self.inner.len();
        while i > 0
            invariant
                i <= self.inner@.len(),
                forall|j: int| i <= j < self.inner@.len() ==> (#[trigger] self.inner@[j]).0 != *rid,
                self.spec_map().contains_key(*rid),
            decreases i,
        {
            if self.inner[i - 1].0 == *rid {
                proof {
                    lemma_writes_after(self.inner@, i as int, *rid);
                    assert(self.inner@.take(i as int).drop_last() =~= self.inner@.take(i - 1));
                }
                return &self.inner[i - 1].1;
            }
            i = i - 1;
        }
        proof {
            lemma_writes_after(self.inner@, 0, *rid);
            assert(self.inner@.take(0) =~= Seq::<(RegisterId, Value)>::empty());
        }
        &self.inner[0].1
    }

    /// Writes `value` to `rid`.
    pub fn write(&mut self, rid: RegisterId, value: Value)
        ensures
            final(self).spec_map() == old(self).spec_map().insert(rid, value),
    {
        self.inner.push((rid, value));
        assert(self.inner@.drop_last() =~= old(self).inner@);
    }
}

/// The frame of a function being run: the position in it, its registers, its name and its
/// definition.
pub struct StackFrame<'i> {
    pub pc: Pc,
    pub registers: RegisterMap,
    pub func_name: String,
    pub func_def: &'i FunctionDefinition,
}

impl<'i> StackFrame<'i> {
    /// The frame of a call of `func_def`, named `func_name`, at the start of block `bid`, with no
    /// register written.
    pub fn new(bid: BlockId, func_name: String, func_def: &'i FunctionDefinition) -> (r: Self)
        ensures
            r.pc == (Pc { bid, iid: 0 }),
            r.registers.spec_map() == Map::<RegisterId, Value>::empty(),
            r.func_name == func_name,
            r.func_def == func_def,
    {
        StackFrame { pc: Pc::new(bid), registers: RegisterMap::new(), func_name, func_def }
    }
}

/// The state of the interpreter: the global variables' blocks, the frame being run and those
/// of its callers, the memory, and the program.
pub struct State<'i> {
    pub global_map: GlobalMap,
    pub stack_frame: StackFrame<'i>,
    pub stack: Vec<StackFrame<'i>>,
    pub memory: Memory,
    pub ir: &'i TranslationUnit,
}

/// The value of an operand: that of a constant (the address of a global variable is a pointer
/// to the start of its block), or the value held by a register.
pub open spec fn operand_value(regs: Map<RegisterId, Value>, globals: Map<Seq<char>, usize>, op: Operand) -> Value {
    match op {
        Operand::Constant(c) => match c {
            Constant::Undef { dtype } => Value::Undef { dtype },
            Constant::Unit => Value::Unit,
            Constant::Int { value, width, is_signed } => Value::Int { value, width, is_signed },
            Constant::Float { bits, width } => Value::Float { bits, width },
            Constant::GlobalVariable { name, dtype } => Value::Pointer { bid: Some(globals[name@]), offset: 0, dtype },
        },
        Operand::Register { rid, .. } => regs[rid],
    }
}

/// An operand has a value: its register was written, its global variable has a block.
pub open spec fn operand_ready(regs: Map<RegisterId, Value>, globals: Map<Seq<char>, usize>, op: Operand) -> bool {
    match op {
        Operand::Constant(Constant::GlobalVariable { name, .. }) => globals.contains_key(name@),
        Operand::Register { rid, .. } => regs.contains_key(rid),
        _ => true,
    }
}

/// What a binary operation gives on two values (see `calculate_binary_operator_expression`).
pub open spec fn binary_value(op: super::BinaryOperator, lhs: Value, rhs: Value) -> Value {
    match lhs {
        Value::Undef { dtype } => Value::Undef { dtype },
        _ => match rhs {
            Value::Undef { dtype } => Value::Undef { dtype },
            _ => match (lhs, rhs) {
                (Value::Int { value: l, width, is_signed }, Value::Int { value: r, .. }) => {
                    let (v, w, s) = int_binary_result(op, l, r, width, is_signed);
                    Value::Int { value: v, width: w, is_signed: s }
                },
                (Value::Pointer { bid, offset, .. }, Value::Pointer { bid: ob, offset: oo, .. }) => Value::Int {
                    value: if (bid == ob && offset == oo) == (op is Equals) {
                        1
                    } else {
                        0
                    },
                    width: 1,
                    is_signed: false,
                },
                _ => Value::Unit,
            },
        },
    }
}

/// The pointer an operand points with, as block id, offset and pointee type; an error message
/// for a value that is no pointer, or the null pointer.
pub open spec fn pointer_target(v: Value) -> Result<(usize, isize, SpecDtype), Seq<char>> {
    match v {
        Value::Pointer { bid, offset, dtype } => match bid {
            Some(b) => Ok((b, offset, dtype@)),
            None => Err("Accessing memory with constant pointer"@),
        },
        _ => Err("Accessing memory with non-pointer"@),
    }
}

impl<'i> State<'i> {
    /// The registers of the frame being run.
    pub open spec fn regs(&self) -> Map<RegisterId, Value> {
        self.stack_frame.registers.spec_map()
    }

    /// The global variables' blocks.
    pub open spec fn globals(&self) -> Map<Seq<char>, usize> {
        self.global_map.vars()
    }

    /// The value of `op` in this state.
    pub open spec fn value_of(&self, op: Operand) -> Value {
        operand_value(self.regs(), self.globals(), op)
    }

    /// `op` has a value in this state.
    pub open spec fn ready(&self, op: Operand) -> bool {
        operand_ready(self.regs(), self.globals(), op)
    }

    /// The state is usable: its global map is consistent and its program's struct table is.
    pub open spec fn wf(&self) -> bool {
        &&& self.global_map.wf()
        &&& self.ir.structs.wf()
        &&& self.ir.decls.wf()
    }

    /// The register that the instruction being run writes.
    pub open spec fn target(&self) -> RegisterId {
        RegisterId::Temp { bid: self.stack_frame.pc.bid, iid: self.stack_frame.pc.iid }
    }

    /// The error an instruction reports: the function's name, the position, and `msg`.
    pub open spec fn misc_error(&self, e: InterpreterError, msg: Seq<char>) -> bool {
        e matches InterpreterError::Misc { func_name, pc, msg: m } && func_name@ == self.stack_frame.func_name@ && pc
            == self.stack_frame.pc && m@ == msg
    }

    /// Running `instruction` does not panic in this state: the position can advance; its
    /// operands have values; an operation is defined on them (arithmetic on floats is left out);
    /// a store or load through a pointer into a block meets `store_ready` or `load_ready`; an
    /// element pointer is computed from a pointer and an integer, with a pointer type, to a
    /// nonnegative offset that fits in a word; a call meets `call_ready`.
    pub open spec fn instruction_ready(&self, instruction: Instruction) -> bool {
        let structs = structs_view(self.ir.structs);
        &&& self.stack_frame.pc.iid < usize::MAX
        &&& match instruction {
            Instruction::Nop => true,
            Instruction::BinOp { op, lhs, rhs, .. } => self.ready(lhs) && self.ready(rhs) && binary_ok(
                op,
                self.value_of(lhs),
                self.value_of(rhs),
            ),
            Instruction::UnaryOp { op, operand, .. } => self.ready(operand) && unary_ok(op, self.value_of(operand)),
            Instruction::Store { ptr, value } => self.ready(ptr) && self.ready(value) && (pointer_target(
                self.value_of(ptr),
            ) matches Ok((b, o, _)) ==> store_ready(self.memory@, b, o, self.value_of(value), structs)),
            Instruction::Load { ptr } => self.ready(ptr) && (pointer_target(self.value_of(ptr)) matches Ok((b, o, d))
                ==> load_ready(self.memory@, b, o, d, structs)),
            Instruction::Call { callee, args, .. } => self.call_ready(callee, args@),
            Instruction::TypeCast { value, target_dtype } => self.ready(value) && typecast_ok(
                self.value_of(value),
                target_dtype@,
            ),
            Instruction::GetElementPtr { ptr, offset, dtype } => self.ready(ptr) && self.ready(offset) && self.value_of(
                ptr,
            ) is Pointer && self.value_of(offset) is Int && dtype@ is Pointer && {
                let sum = self.value_of(ptr)->Pointer_offset + (self.value_of(offset)->Int_value as isize);
                0 <= sum <= isize::MAX
            },
        }
    }

    /// `new` is this state with `v` written to the target register and the position advanced.
    pub open spec fn advanced_to(&self, new: State<'i>, v: Value) -> bool {
        &&& new.regs() == self.regs().insert(self.target(), v)
        &&& new.stack_frame.pc == (Pc { bid: self.stack_frame.pc.bid, iid: (self.stack_frame.pc.iid + 1) as usize })
    }

    /// `new` has the registers, position and memory of this state.
    pub open spec fn unchanged_in(&self, new: State<'i>) -> bool {
        &&& new.regs() == self.regs()
        &&& new.stack_frame.pc == self.stack_frame.pc
        &&& new.memory@ == self.memory@
    }

    /// What running `instruction` does: an operation, cast or element pointer writes its value
    /// (alike the one computed from the operands' values) to the target register; a load writes
    /// the value read from the bytes at the pointer where they lie within the block, an
    /// undefined value of the pointee type otherwise; a store writes the bytes of the value into
    /// the block where they fit, and fails otherwise; a load or store through a value that is no
    /// pointer, or the null pointer, fails. Each success advances the position; a failure
    /// changes nothing.
    pub open spec fn instruction_effect(&self, instruction: Instruction, new: State<'i>, r: Result<(), InterpreterError>) -> bool {
        match instruction {
            Instruction::Call { callee, args, .. } => self.call_effect(callee, args@, new, r),
            _ => self.frame_kept(new) && self.plain_effect(instruction, new, r),
        }
    }

    /// `new` runs the same function, with the same callers, as this state.
    pub open spec fn frame_kept(&self, new: State<'i>) -> bool {
        &&& new.stack@ == self.stack@
        &&& new.stack_frame.func_name == self.stack_frame.func_name
        &&& new.stack_frame.func_def == self.stack_frame.func_def
    }

    /// What running an instruction that is no call does (see `instruction_effect`).
    pub open spec fn plain_effect(&self, instruction: Instruction, new: State<'i>, r: Result<(), InterpreterError>) -> bool {
        let structs = structs_view(self.ir.structs);
        let v = new.regs()[self.target()];
        match instruction {
            Instruction::Nop => r is Ok && self.advanced_to(new, Value::Unit) && new.memory@ == self.memory@,
            Instruction::BinOp { op, lhs, rhs, .. } => r is Ok && self.advanced_to(new, v) && new.memory@
                == self.memory@ && value_same(binary_value(op, self.value_of(lhs), self.value_of(rhs)), v),
            Instruction::UnaryOp { op, operand, .. } => r is Ok && self.advanced_to(new, v) && new.memory@
                == self.memory@ && value_same(unary_value(op, self.value_of(operand)), v),
            Instruction::TypeCast { value, target_dtype } => r is Ok && self.advanced_to(new, v) && new.memory@
                == self.memory@ && value_same(typecast_value(self.value_of(value), target_dtype), v),
            Instruction::GetElementPtr { ptr, offset, dtype } => {
                &&& r is Ok
                &&& self.advanced_to(new, v)
                &&& new.memory@ == self.memory@
                &&& v matches Value::Pointer { bid, offset: o, dtype: d }
                &&& v->Pointer_bid == self.value_of(ptr)->Pointer_bid
                &&& v->Pointer_offset == self.value_of(ptr)->Pointer_offset + (self.value_of(offset)->Int_value as isize)
                &&& dtype@ matches SpecDtype::Pointer { inner, .. }
                &&& v->Pointer_dtype@ == dtype@->Pointer_inner
            },
            Instruction::Store { ptr, value } => match pointer_target(self.value_of(ptr)) {
                Err(msg) => r matches Err(e) && self.misc_error(e, msg) && self.unchanged_in(new),
                Ok((b, o, _)) => {
                    let val = self.value_of(value);
                    let size = byte_size(value_dtype(val), structs);
                    let block = self.memory@[b as int].unwrap();
                    if in_block(o, size, block.len()) {
                        r is Ok && self.advanced_to(new, Value::Unit) && new.memory@ == self.memory@.update(
                            b as int,
                            Some(seq_splice(block, o as int, size as int, value_bytes(val, structs))),
                        )
                    } else {
                        r matches Err(e) && self.misc_error(e, store_failure(b, o)) && self.unchanged_in(new)
                    }
                },
            },
            Instruction::Load { ptr } => match pointer_target(self.value_of(ptr)) {
                Err(msg) => r matches Err(e) && self.misc_error(e, msg) && self.unchanged_in(new),
                Ok((b, o, d)) => {
                    let size = byte_size(d, structs);
                    let block = self.memory@[b as int].unwrap();
                    &&& r is Ok
                    &&& self.advanced_to(new, v)
                    &&& new.memory@ == self.memory@
                    &&& if in_block(o, size, block.len()) {
                        let bs = block.subrange(o as int, o + size);
                        bytes_read(bs, d, structs, read_fuel(bs, d, structs), v)
                    } else {
                        v matches Value::Undef { dtype } && dtype@ == d
                    }
                },
            },
            Instruction::Call { .. } => false,
        }
    }

    /// Runs one instruction: computes its value from its operands and writes it
    /// to the register of the instruction, or loads from or stores into memory, and moves to the
    /// next instruction; or calls a function (see `instruction_effect`).
    pub fn interp_instruction(&mut self, instruction: &Instruction) -> (r: Result<(), InterpreterError>)
        requires
            old(self).wf(),
            old(self).instruction_ready(*instruction),
        ensures
            final(self).wf(),
            final(self).global_map == old(self).global_map,
            final(self).ir == old(self).ir,
            old(self).instruction_effect(*instruction, *final(self), r),
    {
        let structs = &self.ir.structs;
        let result = match instruction {
            Instruction::Nop => Value::Unit,
            Instruction::BinOp { op, lhs, rhs, .. } => {
                let l = self.interp_operand(lhs);
                let r = self.interp_operand(rhs);
                calculate_binary_operator_expression(op, l, r).unwrap()
            },
            Instruction::UnaryOp { op, operand, .. } => {
                let x = self.interp_operand(operand);
                calculate_unary_operator_expression(op, x).unwrap()
            },
            Instruction::TypeCast { value, target_dtype } => {
                let x = self.interp_operand(value);
                proof {
                    lemma_value_same_dtype(self.value_of(*value), x);
                }
                calculate_typecast(x, target_dtype.duplicate()).unwrap()
            },
            Instruction::GetElementPtr { ptr, offset, dtype } => {
                let p = self.interp_operand(ptr);
                let i = self.interp_operand(offset);
                let inner = dtype.get_pointer_inner().unwrap();
                match (p, i) {
                    (Value::Pointer { bid, offset: prev, .. }, Value::Int { value, .. }) => {
                        let step = value as isize;
                        Value::Pointer { bid, offset: prev + step, dtype: inner.duplicate() }
                    },
                    _ => Value::Unit,
                }
            },
            Instruction::Store { ptr, value } => {
                let p = self.interp_operand(ptr);
                let (bid, offset, _) = match self.interp_ptr(&p) {
                    Ok(t) => t,
                    Err(e) => {
                        return Err(e);
                    },
                };
                let stored = match value {
                    Operand::Register { rid, .. } => {
                        let v = self.stack_frame.registers.read(rid);
                        self.memory.store(bid, offset, v, structs)
                    },
                    Operand::Constant(_) => {
                        let v = self.interp_operand(value);
                        proof {
                            lemma_scalar_same_bytes(self.value_of(*value), v, structs_view(*structs));
                        }
                        self.memory.store(bid, offset, &v, structs)
                    },
                };
                if stored.is_err() {
                    let mut msg = String::from_str("fail to store value into memory with bid: ");
                    push_decimal(&mut msg, bid as u128);
                    msg.append(", offset: ");
                    push_signed_decimal(&mut msg, offset as i128);
                    proof {
                        reveal_strlit("fail to store value into memory with bid: ");
                        reveal_strlit(", offset: ");
                    }
                    return Err(
                        InterpreterError::Misc {
                            func_name: self.stack_frame.func_name.clone(),
                            pc: self.stack_frame.pc,
                            msg,
                        },
                    );
                }
                Value::Unit
            },
            Instruction::Load { ptr } => {
                let p = self.interp_operand(ptr);
                let (bid, offset, dtype) = match self.interp_ptr(&p) {
                    Ok(t) => t,
                    Err(e) => {
                        return Err(e);
                    },
                };
                match self.memory.load(bid, offset, &dtype, structs) {
                    Ok(v) => v,
                    Err(e) => {
                        return Err(e);
                    },
                }
            },
            Instruction::Call { callee, args, .. } => {
                return self.interp_call(callee, args);
            },
        };
        let register = RegisterId::temp(self.stack_frame.pc.bid, self.stack_frame.pc.iid);
        self.stack_frame.registers.write(register, result);
        self.stack_frame.pc.increment();
        Ok(())
    }

    /// The name of the function a callee points to: that of the global variable of its block.
    pub open spec fn callee_name(&self, callee: Operand) -> Seq<char> {
        self.global_map.bids()[self.value_of(callee)->Pointer_bid.unwrap()]
    }

    /// The declaration of the function a callee points to.
    pub open spec fn callee_decl(&self, callee: Operand) -> super::Declaration {
        self.ir.decls.spec_map()[self.callee_name(callee)]
    }

    /// A call does not panic: the callee points to the block of a declared function; where that
    /// is defined, the arguments have values, as many as the parameters, each of its parameter's
    /// type up to `const`, and the size of each local allocation can be computed.
    pub open spec fn call_ready(&self, callee: Operand, args: Seq<Operand>) -> bool {
        let structs = structs_view(self.ir.structs);
        &&& self.ready(callee)
        &&& self.value_of(callee) matches Value::Pointer { bid: Some(b), .. }
        &&& self.global_map.bids().contains_key(b)
        &&& self.ir.decls.spec_map().contains_key(self.callee_name(callee))
        &&& self.callee_decl(callee) matches super::Declaration::Function { signature, definition }
        &&& definition matches Some(def) ==> {
            &&& args.len() == signature.params@.len()
            &&& forall|i: int| 0 <= i < args.len() ==> #[trigger] self.ready(args[i])
            &&& forall|i: int|
                0 <= i < def.allocations@.len() ==> size_align_ok(#[trigger] def.allocations@[i].inner@, structs)
                    && spec_size_align(def.allocations@[i].inner@, structs) is Ok
            &&& self.memory@.len() + def.allocations@.len() <= usize::MAX
        }
    }

    /// What a call does: for a function without definition, an error that names it, and nothing
    /// else; otherwise the frame of the caller is pushed on the stack, and the callee's frame
    /// starts at its initial block, with the arguments' values in the registers of that block's
    /// arguments, and a fresh block of undefined bytes for each local allocation, pointed to by
    /// the allocation's register.
    pub open spec fn call_effect(&self, callee: Operand, args: Seq<Operand>, new: State<'i>, r: Result<(), InterpreterError>) -> bool {
        let structs = structs_view(self.ir.structs);
        match self.callee_decl(callee) {
            super::Declaration::Function { definition: Some(def), .. } => {
                let allocs = def.allocations@;
                &&& r is Ok
                &&& new.stack@ == self.stack@.push(self.stack_frame)
                &&& new.stack_frame.pc == (Pc { bid: def.bid_init, iid: 0 })
                &&& new.stack_frame.func_name@ == self.callee_name(callee)
                &&& *new.stack_frame.func_def == def
                &&& new.memory@ == self.memory@ + Seq::new(
                    allocs.len(),
                    |i: int| Some(undef_bytes(byte_size(allocs[i].inner@, structs))),
                )
                &&& forall|k: RegisterId|
                    #[trigger] new.regs().contains_key(k) <==> ((k matches RegisterId::Arg { bid, aid } && bid
                        == def.bid_init && aid < args.len()) || (k matches RegisterId::Local { aid } && aid
                        < allocs.len()))
                &&& forall|i: int|
                    0 <= i < args.len() ==> value_same(
                        self.value_of(args[i]),
                        #[trigger] new.regs()[RegisterId::Arg { bid: def.bid_init, aid: i as usize }],
                    )
                &&& forall|i: int|
                    0 <= i < allocs.len() ==> points_to_start(
                        #[trigger] new.regs()[RegisterId::Local { aid: i as usize }],
                        self.memory@.len() + i,
                        allocs[i].inner@,
                    )
            },
            _ => {
                &&& r matches Err(InterpreterError::NoFunctionDefinition { func_name })
                &&& func_name@ == self.callee_name(callee)
                &&& self.unchanged_in(new)
                &&& self.frame_kept(new)
            },
        }
    }

    /// Calls the function a callee points to (see `call_effect`).
    fn interp_call(&mut self, callee: &Operand, args: &Vec<Operand>) -> (r: Result<(), InterpreterError>)
        requires
            old(self).wf(),
            old(self).call_ready(*callee, args@),
        ensures
            final(self).wf(),
            final(self).global_map == old(self).global_map,
            final(self).ir == old(self).ir,
            old(self).call_effect(*callee, args@, *final(self), r),
    {
        let ir: &'i TranslationUnit = self.ir;
        let p = self.interp_operand(callee);
        let bid = match p {
            Value::Pointer { bid: Some(b), .. } => b,
            _ => 0,
        };
        let callee_name = self.global_map.get_var(bid).unwrap();
        let func = ir.decls.get(&callee_name).unwrap();
        let (_, definition) = func.get_function().unwrap();
        let def: &'i FunctionDefinition = match definition {
            Some(d) => d,
            None => {
                return Err(InterpreterError::NoFunctionDefinition { func_name: callee_name });
            },
        };
        let mut values: Vec<Value> = Vec::new();
        let mut i: usize = 0;
        while i < args.len()
            invariant
                self.wf(),
                i <= args@.len(),
                values@.len() == i,
                *old(self) == *self,
                old(self).call_ready(*callee, args@),
                old(self).callee_decl(*callee) matches super::Declaration::Function { definition: Some(d), .. } && d == *def,
                forall|j: int| 0 <= j < i ==> value_same(self.value_of(args@[j]), #[trigger] values@[j]),
            decreases args@.len() - i,
        {
            let v = self.interp_operand(&args[i]);
            values.push(v);
            i = i + 1;
        }
        let ghost caller = *old(self);
        let mut frame = StackFrame::new(def.bid_init, callee_name, def);
        std::mem::swap(&mut self.stack_frame, &mut frame);
        self.stack.push(frame);
        let ghost vals = values@;
        let mut k: usize = values.len();
        assert(vals.len() <= usize::MAX);
        while k > 0
            invariant
                self.wf(),
                ir == caller.ir,
                vals.len() <= usize::MAX,
                k <= vals.len() == args@.len(),
                values@ == vals.take(k as int),
                self.ir == caller.ir,
                self.global_map == caller.global_map,
                self.memory == caller.memory,
                self.stack@ == caller.stack@.push(caller.stack_frame),
                self.stack_frame.pc == (Pc { bid: def.bid_init, iid: 0 }),
                self.stack_frame.func_name@ == caller.callee_name(*callee),
                self.stack_frame.func_def == def,
                forall|j: int| 0 <= j < vals.len() ==> value_same(caller.value_of(args@[j]), #[trigger] vals[j]),
                forall|r: RegisterId|
                    #[trigger] self.regs().contains_key(r) <==> (r matches RegisterId::Arg { bid, aid } && bid
                        == def.bid_init && k <= aid < vals.len()),
                forall|j: int|
                    k <= j < vals.len() ==> #[trigger] self.regs()[RegisterId::Arg { bid: def.bid_init, aid: j as usize }]
                        == vals[j],
            decreases k,
        {
            k = k - 1;
            let v = values.pop().unwrap();
            assert(v == vals[k as int]);
            let ghost before = self.regs();
            let rid = RegisterId::arg(def.bid_init, k);
            self.stack_frame.registers.write(rid, v);
            assert(values@ =~= vals.take(k as int));
            proof {
                assert(self.regs() == before.insert(rid, vals[k as int]));
                assert forall|r: RegisterId|
                    #[trigger] self.regs().contains_key(r) <==> (r matches RegisterId::Arg { bid, aid } && bid
                        == def.bid_init && k <= aid < vals.len()) by {
                    assert(before.contains_key(r) ==> before.contains_key(r));
                }
                assert forall|j: int|
                    k <= j < vals.len() implies #[trigger] self.regs()[RegisterId::Arg { bid: def.bid_init, aid: j as usize }]
                        == vals[j] by {
                    if j > k {
                        assert(before[RegisterId::Arg { bid: def.bid_init, aid: j as usize }] == vals[j]);
                    } else {
                        assert(RegisterId::Arg { bid: def.bid_init, aid: j as usize } == rid);
                    }
                }
            }
        }
        let ghost base = self.memory@;
        let mut a: usize = 0;
        let n_allocs = def.allocations.len();
        while a < def.allocations.len()
            invariant
                self.wf(),
                ir == caller.ir,
                args@.len() == vals.len() <= usize::MAX,
                a <= def.allocations@.len() <= usize::MAX,
                self.ir == caller.ir,
                self.global_map == caller.global_map,
                base == caller.memory@,
                caller.call_ready(*callee, args@),
                caller.callee_decl(*callee) matches super::Declaration::Function { definition: Some(d), .. } && d == *def,
                self.stack@ == caller.stack@.push(caller.stack_frame),
                self.stack_frame.pc == (Pc { bid: def.bid_init, iid: 0 }),
                self.stack_frame.func_name@ == caller.callee_name(*callee),
                self.stack_frame.func_def == def,
                self.memory@ == base + Seq::new(
                    a as nat,
                    |j: int| Some(undef_bytes(byte_size(def.allocations@[j].inner@, structs_view(caller.ir.structs)))),
                ),
                forall|r: RegisterId|
                    #[trigger] self.regs().contains_key(r) <==> ((r matches RegisterId::Arg { bid, aid } && bid
                        == def.bid_init && aid < args@.len()) || (r matches RegisterId::Local { aid } && aid < a)),
                forall|j: int|
                    0 <= j < args@.len() ==> value_same(
                        caller.value_of(args@[j]),
                        #[trigger] self.regs()[RegisterId::Arg { bid: def.bid_init, aid: j as usize }],
                    ),
                forall|j: int|
                    0 <= j < a ==> points_to_start(
                        #[trigger] self.regs()[RegisterId::Local { aid: j as usize }],
                        base.len() + j,
                        def.allocations@[j].inner@,
                    ),
            decreases def.allocations@.len() - a,
        {
            let d = &def.allocations[a].inner;
            let ghost head = self.regs();
            let b = self.memory.allocate(d, &ir.structs).unwrap();
            assert(self.regs() == head);
            let ptr = Value::Pointer { bid: Some(b), offset: 0, dtype: d.duplicate() };
            let ghost before = self.regs();
            let rid = RegisterId::local(a);
            let ghost pv = ptr;
            self.stack_frame.registers.write(rid, ptr);
            proof {
                assert(self.regs() == before.insert(rid, pv));
                assert forall|r: RegisterId|
                    #[trigger] self.regs().contains_key(r) <==> ((r matches RegisterId::Arg { bid, aid } && bid
                        == def.bid_init && aid < args@.len()) || (r matches RegisterId::Local { aid } && aid < a + 1)) by {
                    if r is Local && r->Local_aid == a {
                        assert(r == rid);
                    }
                    if r != rid {
                        assert(self.regs().contains_key(r) == before.contains_key(r));
                    }
                }
                assert forall|j: int|
                    0 <= j < args@.len() implies value_same(
                        caller.value_of(args@[j]),
                        #[trigger] self.regs()[RegisterId::Arg { bid: def.bid_init, aid: j as usize }],
                    ) by {
                    let key = RegisterId::Arg { bid: def.bid_init, aid: j as usize };
                    assert(key != rid);
                    assert(value_same(caller.value_of(args@[j]), head[key]));
                }
                assert forall|j: int|
                    0 <= j < a + 1 implies points_to_start(
                        #[trigger] self.regs()[RegisterId::Local { aid: j as usize }],
                        base.len() + j,
                        def.allocations@[j].inner@,
                    ) by {
                    if j < a {
                        assert(before[RegisterId::Local { aid: j as usize }] == self.regs()[RegisterId::Local { aid: j as usize }]);
                    } else {
                        assert(RegisterId::Local { aid: j as usize } == rid);
                    }
                }
            }
            a = a + 1;
            assert(self.memory@ =~= base + Seq::new(
                a as nat,
                |j: int| Some(undef_bytes(byte_size(def.allocations@[j].inner@, structs_view(caller.ir.structs)))),
            ));
        }
        Ok(())
    }

    /// The block the position is in.
    pub open spec fn current_block(&self) -> Block {
        block_of(self.stack_frame.func_def.blocks@, self.stack_frame.pc.bid.0)
    }

    /// A jump does not panic: its target block exists, and its arguments have values, one for
    /// each argument of that block.
    pub open spec fn jump_ready(&self, arg: JumpArg) -> bool {
        &&& block_ids(self.stack_frame.func_def.blocks@).contains(arg.bid.0)
        &&& arg.args@.len() == block_of(self.stack_frame.func_def.blocks@, arg.bid.0).phinodes@.len()
        &&& forall|i: int| 0 <= i < arg.args@.len() ==> #[trigger] self.ready(arg.args@[i])
    }

    /// What a jump does: the arguments' values (all taken before any is written) go to the
    /// registers of the target block's arguments, and the position moves to its start.
    pub open spec fn jump_effect(&self, arg: JumpArg, new: State<'i>) -> bool {
        &&& self.frame_kept(new)
        &&& new.memory@ == self.memory@
        &&& new.stack_frame.pc == (Pc { bid: arg.bid, iid: 0 })
        &&& forall|k: RegisterId|
            #[trigger] new.regs().contains_key(k) <==> (self.regs().contains_key(k) || (k matches RegisterId::Arg {
                bid,
                aid,
            } && bid == arg.bid && aid < arg.args@.len()))
        &&& forall|k: RegisterId|
            self.regs().contains_key(k) && !(k matches RegisterId::Arg { bid, aid } && bid == arg.bid && aid
                < arg.args@.len()) ==> #[trigger] new.regs()[k] == self.regs()[k]
        &&& forall|i: int|
            0 <= i < arg.args@.len() ==> value_same(
                self.value_of(arg.args@[i]),
                #[trigger] new.regs()[RegisterId::Arg { bid: arg.bid, aid: i as usize }],
            )
    }

    /// The ids of the blocks of the local allocations, from their registers.
    pub open spec fn local_bids(&self) -> Seq<usize> {
        Seq::new(
            self.stack_frame.func_def.allocations@.len(),
            |i: int| self.regs()[RegisterId::Local { aid: i as usize }]->Pointer_bid.unwrap(),
        )
    }

    /// Returning does not panic: each local allocation's register points to the start of its
    /// own allocated block, of the allocation's type and size; the caller, if any, can advance.
    pub open spec fn return_ready(&self) -> bool {
        let structs = structs_view(self.ir.structs);
        let allocs = self.stack_frame.func_def.allocations@;
        &&& forall|i: int|
            0 <= i < allocs.len() ==> {
                let v = #[trigger] self.regs()[RegisterId::Local { aid: i as usize }];
                &&& self.regs().contains_key(RegisterId::Local { aid: i as usize })
                &&& v matches Value::Pointer { bid: Some(b), offset, dtype }
                &&& offset == 0
                &&& dtype@ == allocs[i].inner@
                &&& size_align_ok(dtype@, structs)
                &&& spec_size_align(dtype@, structs) is Ok
                &&& b < self.memory@.len()
                &&& self.memory@[b as int] matches Some(bytes)
                &&& bytes.len() == byte_size(dtype@, structs)
            }
        &&& forall|i: int, j: int|
            0 <= i < j < allocs.len() ==> #[trigger] self.local_bids()[i] != #[trigger] self.local_bids()[j]
        &&& self.stack@.len() > 0 ==> self.stack@.last().pc.iid < usize::MAX
    }

    /// The block exit does not panic: a jump meets `jump_ready`; a conditional jump is on a
    /// 1-bit integer; a switch is on a value with integer cases; a return's value has one and
    /// meets `return_ready`.
    pub open spec fn exit_ready(&self, exit: BlockExit) -> bool {
        match exit {
            BlockExit::Jump { arg } => self.jump_ready(arg),
            BlockExit::ConditionalJump { condition, arg_then, arg_else } => {
                &&& self.ready(condition)
                &&& self.value_of(condition) matches Value::Int { value, width, .. }
                &&& width == 1
                &&& self.jump_ready(if value == 1 { *arg_then } else { *arg_else })
            },
            BlockExit::Switch { value, default, cases } => {
                &&& self.ready(value)
                &&& forall|i: int| 0 <= i < cases@.len() ==> (#[trigger] cases@[i]).0 is Int
                &&& self.jump_ready(switch_target(self.value_of(value), *default, cases@))
            },
            BlockExit::Return { value } => self.ready(value) && self.return_ready(),
            BlockExit::Unreachable => true,
        }
    }

    /// A step does not panic: the blocks are sorted by id and the position's block exists; its
    /// instruction, or past the last one its exit, can run.
    pub open spec fn step_ready(&self) -> bool {
        let block = self.current_block();
        &&& blocks_sorted(self.stack_frame.func_def.blocks@)
        &&& block_ids(self.stack_frame.func_def.blocks@).contains(self.stack_frame.pc.bid.0)
        &&& if self.stack_frame.pc.iid < block.instructions@.len() {
            self.instruction_ready(block.instructions@[self.stack_frame.pc.iid as int].inner)
        } else {
            self.exit_ready(block.exit)
        }
    }

    /// What a return does: the blocks of the local allocations are freed; with no caller, the
    /// returned value comes out; otherwise the caller's frame is resumed, with the returned
    /// value in the register of its call, at the next instruction.
    pub open spec fn return_effect(&self, value: Operand, new: State<'i>, r: Result<Option<Value>, InterpreterError>) -> bool {
        &&& new.memory@ == freed(self.memory@, self.local_bids())
        &&& if self.stack@.len() == 0 {
            &&& r matches Ok(Some(v)) && value_same(self.value_of(value), v)
            &&& new.regs() == self.regs()
            &&& new.stack_frame.pc == self.stack_frame.pc
            &&& self.frame_kept(new)
        } else {
            let prev = self.stack@.last();
            let t = RegisterId::Temp { bid: prev.pc.bid, iid: prev.pc.iid };
            &&& r == Ok::<Option<Value>, InterpreterError>(None)
            &&& new.stack@ == self.stack@.drop_last()
            &&& new.stack_frame.func_name == prev.func_name
            &&& new.stack_frame.func_def == prev.func_def
            &&& new.regs() == prev.registers.spec_map().insert(t, new.regs()[t])
            &&& value_same(self.value_of(value), new.regs()[t])
            &&& new.stack_frame.pc == (Pc { bid: prev.pc.bid, iid: (prev.pc.iid + 1) as usize })
        }
    }

    /// What a block exit does: a jump, to the target of a conditional jump (the first when the
    /// condition is 1) or of a switch; a return; an error for an unreachable exit.
    pub open spec fn exit_effect(&self, exit: BlockExit, new: State<'i>, r: Result<Option<Value>, InterpreterError>) -> bool {
        match exit {
            BlockExit::Jump { arg } => r == Ok::<Option<Value>, InterpreterError>(None) && self.jump_effect(arg, new),
            BlockExit::ConditionalJump { condition, arg_then, arg_else } => r == Ok::<
                Option<Value>,
                InterpreterError,
            >(None) && self.jump_effect(
                if self.value_of(condition)->Int_value == 1 {
                    *arg_then
                } else {
                    *arg_else
                },
                new,
            ),
            BlockExit::Switch { value, default, cases } => r == Ok::<Option<Value>, InterpreterError>(None)
                && self.jump_effect(switch_target(self.value_of(value), *default, cases@), new),
            BlockExit::Return { value } => self.return_effect(value, new, r),
            BlockExit::Unreachable => r matches Err(InterpreterError::Unreachable) && self.unchanged_in(new)
                && self.frame_kept(new),
        }
    }

    /// What a step does: runs the instruction at the position, or past the last one the
    /// block's exit.
    pub open spec fn step_effect(&self, new: State<'i>, r: Result<Option<Value>, InterpreterError>) -> bool {
        let block = self.current_block();
        if self.stack_frame.pc.iid < block.instructions@.len() {
            let instruction = block.instructions@[self.stack_frame.pc.iid as int].inner;
            match r {
                Ok(None) => self.instruction_effect(instruction, new, Ok(())),
                Ok(Some(_)) => false,
                Err(e) => self.instruction_effect(instruction, new, Err(e)),
            }
        } else {
            self.exit_effect(block.exit, new, r)
        }
    }

    /// Jumps to the block of `arg` with its arguments (see `jump_effect`).
    fn interp_jump(&mut self, arg: &JumpArg) -> (r: Result<Option<Value>, InterpreterError>)
        requires
            old(self).wf(),
            old(self).jump_ready(*arg),
        ensures
            final(self).wf(),
            final(self).global_map == old(self).global_map,
            final(self).ir == old(self).ir,
            r == Ok::<Option<Value>, InterpreterError>(None),
            old(self).jump_effect(*arg, *final(self)),
    {
        let mut values: Vec<Value> = Vec::new();
        let mut i: usize = 0;
        while i < arg.args.len()
            invariant
                self.wf(),
                i <= arg.args@.len(),
                values@.len() == i,
                *old(self) == *self,
                old(self).jump_ready(*arg),
                forall|j: int| 0 <= j < i ==> value_same(self.value_of(arg.args@[j]), #[trigger] values@[j]),
            decreases arg.args@.len() - i,
        {
            let v = self.interp_operand(&arg.args[i]);
            values.push(v);
            i = i + 1;
        }
        let ghost vals = values@;
        let ghost start = *self;
        let mut k: usize = values.len();
        assert(vals.len() <= usize::MAX);
        while k > 0
            invariant
                self.wf(),
                vals.len() <= usize::MAX,
                k <= vals.len() == arg.args@.len(),
                values@ == vals.take(k as int),
                self.ir == start.ir,
                self.global_map == start.global_map,
                self.memory == start.memory,
                start.frame_kept(*self),
                self.stack_frame.pc == start.stack_frame.pc,
                forall|j: int| 0 <= j < vals.len() ==> value_same(start.value_of(arg.args@[j]), #[trigger] vals[j]),
                forall|r: RegisterId|
                    #[trigger] self.regs().contains_key(r) <==> (start.regs().contains_key(r) || (r matches RegisterId::Arg {
                        bid,
                        aid,
                    } && bid == arg.bid && k <= aid < vals.len())),
                forall|r: RegisterId|
                    start.regs().contains_key(r) && !(r matches RegisterId::Arg { bid, aid } && bid == arg.bid && k
                        <= aid < vals.len()) ==> #[trigger] self.regs()[r] == start.regs()[r],
                forall|j: int|
                    k <= j < vals.len() ==> #[trigger] self.regs()[RegisterId::Arg { bid: arg.bid, aid: j as usize }]
                        == vals[j],
            decreases k,
        {
            k = k - 1;
            let v = values.pop().unwrap();
            assert(v == vals[k as int]);
            let ghost before = self.regs();
            let rid = RegisterId::arg(arg.bid, k);
            self.stack_frame.registers.write(rid, v);
            assert(values@ =~= vals.take(k as int));
            proof {
                assert(self.regs() == before.insert(rid, vals[k as int]));
                assert forall|r: RegisterId|
                    #[trigger] self.regs().contains_key(r) <==> (start.regs().contains_key(r) || (r matches RegisterId::Arg {
                        bid,
                        aid,
                    } && bid == arg.bid && k <= aid < vals.len())) by {
                    if r is Arg && r->Arg_bid == arg.bid && r->Arg_aid == k {
                        assert(r == rid);
                    }
                    if r != rid {
                        assert(self.regs().contains_key(r) == before.contains_key(r));
                    }
                }
                assert forall|r: RegisterId|
                    start.regs().contains_key(r) && !(r matches RegisterId::Arg { bid, aid } && bid == arg.bid && k
                        <= aid < vals.len()) implies #[trigger] self.regs()[r] == start.regs()[r] by {
                    assert(r != rid);
                    assert(self.regs()[r] == before[r]);
                }
                assert forall|j: int|
                    k <= j < vals.len() implies #[trigger] self.regs()[RegisterId::Arg { bid: arg.bid, aid: j as usize }]
                        == vals[j] by {
                    if j > k {
                        assert(before[RegisterId::Arg { bid: arg.bid, aid: j as usize }] == vals[j]);
                    } else {
                        assert(RegisterId::Arg { bid: arg.bid, aid: j as usize } == rid);
                    }
                }
            }
        }
        let ghost written = self.regs();
        self.stack_frame.pc = Pc::new(arg.bid);
        assert(self.regs() == written);
        assert(start == *old(self));
        assert forall|i: int|
            0 <= i < arg.args@.len() implies value_same(
                old(self).value_of(arg.args@[i]),
                #[trigger] self.regs()[RegisterId::Arg { bid: arg.bid, aid: i as usize }],
            ) by {
            assert(written[RegisterId::Arg { bid: arg.bid, aid: i as usize }] == vals[i]);
        }
        Ok(None)
    }

    /// Runs a block exit: a jump, a conditional jump or a switch (see `exit_effect`); a return
    /// gives a copy of its value and changes nothing; an unreachable exit is an error.
    #[verifier::loop_isolation(false)]
    fn interp_block_exit(&mut self, exit: &BlockExit) -> (r: Result<Option<Value>, InterpreterError>)
        requires
            old(self).wf(),
            old(self).exit_ready(*exit),
        ensures
            final(self).wf(),
            final(self).global_map == old(self).global_map,
            final(self).ir == old(self).ir,
            *exit matches BlockExit::Return { value } ==> r matches Ok(Some(v)) && value_same(old(self).value_of(value), v)
                && *final(self) == *old(self),
            !(exit is Return) ==> old(self).exit_effect(*exit, *final(self), r),
    {
        match exit {
            BlockExit::Jump { arg } => self.interp_jump(arg),
            BlockExit::ConditionalJump { condition, arg_then, arg_else } => {
                let c = self.interp_operand(condition);
                let is_one = match c {
                    Value::Int { value, .. } => value == 1,
                    _ => false,
                };
                if is_one {
                    self.interp_jump(arg_then)
                } else {
                    self.interp_jump(arg_else)
                }
            },
            BlockExit::Switch { value, default, cases } => {
                let v = self.interp_operand(value);
                let ghost orig = self.value_of(*value);
                let mut i: usize = 0;
                assert(cases@.skip(0) =~= cases@);
                while i < cases.len()
                    invariant
                        self.wf(),
                        *self == *old(self),
                        i <= cases@.len(),
                        value_same(orig, v),
                        switch_target(orig, **default, cases@) == switch_target(orig, **default, cases@.skip(i as int)),
                    decreases cases@.len() - i,
                {
                    proof {
                        assert(cases@.skip(i as int).drop_first() =~= cases@.skip(i + 1));
                        assert(cases@.skip(i as int)[0] == cases@[i as int]);
                    }
                    if case_hits(&v, &cases[i].0) {
                        return self.interp_jump(&cases[i].1);
                    }
                    i = i + 1;
                }
                proof {
                    assert(cases@.skip(i as int).len() == 0);
                }
                self.interp_jump(default)
            },
            BlockExit::Return { value } => Ok(Some(self.interp_operand(value))),
            BlockExit::Unreachable => Err(InterpreterError::Unreachable),
        }
    }

    /// Runs one step: the instruction at the position, or past the last one the block's exit;
    /// a return frees the local allocations and resumes the caller, if any, or gives the
    /// returned value (see `step_effect`).
    pub fn step(&mut self) -> (r: Result<Option<Value>, InterpreterError>)
        requires
            old(self).wf(),
            old(self).step_ready(),
        ensures
            final(self).wf(),
            final(self).global_map == old(self).global_map,
            final(self).ir == old(self).ir,
            old(self).step_effect(*final(self), r),
    {
        let def: &'i FunctionDefinition = self.stack_frame.func_def;
        let block = find_block(&def.blocks, self.stack_frame.pc.bid);
        if self.stack_frame.pc.iid < block.instructions.len() {
            let instruction = &block.instructions[self.stack_frame.pc.iid].inner;
            return match self.interp_instruction(instruction) {
                Ok(()) => Ok(None),
                Err(e) => Err(e),
            };
        }
        let ghost caller = *self;
        let rv = match self.interp_block_exit(&block.exit) {
            Ok(Some(v)) => v,
            Ok(None) => {
                return Ok(None);
            },
            Err(e) => {
                return Err(e);
            },
        };
        let ghost base = self.memory@;
        let ghost bids = self.local_bids();
        let mut i: usize = 0;
        while i < def.allocations.len()
            invariant
                self.wf(),
                *self == (State { memory: self.memory, ..caller }),
                caller.return_ready(),
                base == caller.memory@,
                bids == caller.local_bids(),
                def == caller.stack_frame.func_def,
                i <= def.allocations@.len(),
                self.memory@ == freed(base, bids.take(i as int)),
            decreases def.allocations@.len() - i,
        {
            let p = self.stack_frame.registers.read(&RegisterId::local(i));
            let (b, o, d) = match p {
                Value::Pointer { bid: Some(b), offset, dtype } => (*b, *offset, dtype.duplicate()),
                _ => (0, 0, Dtype::unit()),
            };
            proof {
                assert(bids[i as int] == b);
                assert(!listed(bids.take(i as int), b as int)) by {
                    if listed(bids.take(i as int), b as int) {
                        let j = choose|j: int| 0 <= j < i && bids.take(i as int)[j] == b;
                        assert(bids[j] == bids[i as int]);
                    }
                }
            }
            let _ = self.memory.dealloc(b, o, &d, &self.ir.structs);
            proof {
                let t0 = bids.take(i as int);
                let t1 = bids.take(i + 1);
                assert forall|x: int| #[trigger] listed(t1, x) == (listed(t0, x) || x == b) by {
                    if listed(t0, x) {
                        let k = choose|k: int| 0 <= k < t0.len() && t0[k] == x;
                        assert(t1[k] == x);
                    }
                    if x == b {
                        assert(t1[i as int] == x);
                    }
                    if listed(t1, x) {
                        let k = choose|k: int| 0 <= k < t1.len() && t1[k] == x;
                        if k < i {
                            assert(t0[k] == x);
                        }
                    }
                }
                assert(self.memory@ =~= freed(base, t1));
            }
            i = i + 1;
        }
        proof {
            assert(bids.take(i as int) =~= bids);
            assert(caller == *old(self));
            assert(block.exit is Return);
            assert(self.memory@ == freed(old(self).memory@, old(self).local_bids()));
        }
        match self.stack.pop() {
            None => {
                assert(self.stack@ == old(self).stack@);
                assert(self.regs() == old(self).regs());
                Ok(Some(rv))
            },
            Some(prev) => {
                self.stack_frame = prev;
                let t = RegisterId::temp(self.stack_frame.pc.bid, self.stack_frame.pc.iid);
                self.stack_frame.registers.write(t, rv);
                self.stack_frame.pc.increment();
                Ok(None)
            },
        }
    }

    /// A copy of the value of an operand.
    fn interp_operand(&self, op: &Operand) -> (r: Value)
        requires
            self.wf(),
            self.ready(*op),
        ensures
            value_same(self.value_of(*op), r),
    {
        match op {
            Operand::Constant(c) => match c {
                Constant::Undef { dtype } => Value::Undef { dtype: dtype.duplicate() },
                Constant::Unit => Value::Unit,
                Constant::Int { value, width, is_signed } => Value::Int {
                    value: *value,
                    width: *width,
                    is_signed: *is_signed,
                },
                Constant::Float { bits, width } => Value::Float { bits: *bits, width: *width },
                Constant::GlobalVariable { name, dtype } => {
                    let bid = self.global_map.get_bid(name).unwrap();
                    Value::Pointer { bid: Some(bid), offset: 0, dtype: dtype.duplicate() }
                },
            },
            Operand::Register { rid, .. } => self.stack_frame.registers.read(rid).duplicate(),
        }
    }

    /// The block id, offset and pointee type of a pointer value; an error for a value that is
    /// no pointer, or the null pointer.
    fn interp_ptr(&self, pointer: &Value) -> (r: Result<(usize, isize, Dtype), InterpreterError>)
        ensures
            match pointer_target(*pointer) {
                Ok((b, o, d)) => r matches Ok((rb, ro, rd)) && rb == b && ro == o && rd@ == d,
                Err(msg) => r matches Err(e) && self.misc_error(e, msg),
            },
    {
        match pointer {
            Value::Pointer { bid, offset, dtype } => match bid {
                Some(b) => Ok((*b, *offset, dtype.duplicate())),
                None => {
                    proof {
                        reveal_strlit("Accessing memory with constant pointer");
                    }
                    Err(
                    InterpreterError::Misc {
                        func_name: self.stack_frame.func_name.clone(),
                        pc: self.stack_frame.pc,
                        msg: String::from_str("Accessing memory with constant pointer"),
                    },
                )
                },
            },
            _ => {
                proof {
                    reveal_strlit("Accessing memory with non-pointer");
                }
                Err(
                    InterpreterError::Misc {
                        func_name: self.stack_frame.func_name.clone(),
                        pc: self.stack_frame.pc,
                        msg: String::from_str("Accessing memory with non-pointer"),
                    },
                )
            },
        }
    }
}

} // verus!
