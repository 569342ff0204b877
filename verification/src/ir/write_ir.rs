//! The textual form of programs of the intermediate representation, in the syntax the IR parser
//! reads: instructions, block exits, blocks, declarations and whole programs.
use vstd::prelude::*;

use crate::ir::code::{constant_dtype, constant_text, instruction_dtype, operand_dtype, typed_operand_text, typed_operands_text};
use crate::ir::dtype::{dtype_text, dtypes_text, dtypes_view, fields_text, fields_view, name_view};
use crate::ir::{
    BinaryOperator, Block, BlockExit, BlockId, Constant, Declaration, Dtype, HasDtype, Instruction, JumpArg, Named,
    Operand, RegisterId, SpecDtype, TranslationUnit, UnaryOperator,
};
use crate::utils::{decimal, push_decimal, StringMap};
use crate::write_base::{indent_text, write_indent, WriteLine, WriteString};

verus! {

/// The name of a binary operation of an instruction; `None` for one that has none (an
/// assignment, a logical or an index operation).
pub open spec fn binary_op_text(op: BinaryOperator) -> Option<Seq<char>> {
    match op {
        BinaryOperator::Multiply => Some("mul"@),
        BinaryOperator::Divide => Some("div"@),
        BinaryOperator::Modulo => Some("mod"@),
        BinaryOperator::Plus => Some("add"@),
        BinaryOperator::Minus => Some("sub"@),
        BinaryOperator::ShiftLeft => Some("shl"@),
        BinaryOperator::ShiftRight => Some("shr"@),
        BinaryOperator::Equals => Some("cmp eq"@),
        BinaryOperator::NotEquals => Some("cmp ne"@),
        BinaryOperator::Less => Some("cmp lt"@),
        BinaryOperator::LessOrEqual => Some("cmp le"@),
        BinaryOperator::Greater => Some("cmp gt"@),
        BinaryOperator::GreaterOrEqual => Some("cmp ge"@),
        BinaryOperator::BitwiseAnd => Some("and"@),
        BinaryOperator::BitwiseXor => Some("xor"@),
        BinaryOperator::BitwiseOr => Some("or"@),
        _ => None,
    }
}

/// The name of a unary operation of an instruction; `None` for one that has none.
pub open spec fn unary_op_text(op: UnaryOperator) -> Option<Seq<char>> {
    match op {
        UnaryOperator::Plus => Some("plus"@),
        UnaryOperator::Minus => Some("minus"@),
        UnaryOperator::Negate => Some("negate"@),
        _ => None,
    }
}

fn binary_op_str(op: &BinaryOperator) -> (r: &'static str)
    requires
        binary_op_text(*op) is Some,
    ensures
        r@ == binary_op_text(*op).unwrap(),
{
    match op {
        BinaryOperator::Multiply => "mul",
        BinaryOperator::Divide => "div",
        BinaryOperator::Modulo => "mod",
        BinaryOperator::Plus => "add",
        BinaryOperator::Minus => "sub",
        BinaryOperator::ShiftLeft => "shl",
        BinaryOperator::ShiftRight => "shr",
        BinaryOperator::Equals => "cmp eq",
        BinaryOperator::NotEquals => "cmp ne",
        BinaryOperator::Less => "cmp lt",
        BinaryOperator::LessOrEqual => "cmp le",
        BinaryOperator::Greater => "cmp gt",
        BinaryOperator::GreaterOrEqual => "cmp ge",
        BinaryOperator::BitwiseAnd => "and",
        BinaryOperator::BitwiseXor => "xor",
        _ => "or",
    }
}

fn unary_op_str(op: &UnaryOperator) -> (r: &'static str)
    requires
        unary_op_text(*op) is Some,
    ensures
        r@ == unary_op_text(*op).unwrap(),
{
    match op {
        UnaryOperator::Plus => "plus",
        UnaryOperator::Minus => "minus",
        _ => "negate",
    }
}

/// Whether an operand can be written: it is no floating-point constant.
pub open spec fn operand_printable(o: Operand) -> bool {
    !(o matches Operand::Constant(Constant::Float { .. }))
}

/// Whether each operand can be written.
pub open spec fn operands_printable(os: Seq<Operand>) -> bool {
    forall|i: int| 0 <= i < os.len() ==> #[trigger] operand_printable(os[i])
}

/// Whether an instruction can be written: its operations have names and its operands can be
/// written.
pub open spec fn instruction_printable(i: Instruction) -> bool {
    match i {
        Instruction::Nop => true,
        Instruction::BinOp { op, lhs, rhs, .. } => binary_op_text(op) is Some && operand_printable(lhs)
            && operand_printable(rhs),
        Instruction::UnaryOp { op, operand, .. } => unary_op_text(op) is Some && operand_printable(operand),
        Instruction::Store { ptr, value } => operand_printable(ptr) && operand_printable(value),
        Instruction::Load { ptr } => operand_printable(ptr),
        Instruction::Call { callee, args, .. } => operand_printable(callee) && operands_printable(args@),
        Instruction::TypeCast { value, .. } => operand_printable(value),
        Instruction::GetElementPtr { ptr, offset, .. } => operand_printable(ptr) && operand_printable(offset),
    }
}

/// The textual form of an instruction: `nop`, `add %l0:i32 1:i32`, `cmp lt ...`, `store v p`,
/// `load p`, `call f(args)`, `typecast v to t` or `getelementptr p offset o`.
pub open spec fn instruction_text(i: Instruction) -> Seq<char> {
    match i {
        Instruction::Nop => "nop"@,
        Instruction::BinOp { op, lhs, rhs, .. } => binary_op_text(op).unwrap() + " "@ + typed_operand_text(lhs)
            + " "@ + typed_operand_text(rhs),
        Instruction::UnaryOp { op, operand, .. } => unary_op_text(op).unwrap() + " "@ + typed_operand_text(
            operand,
        ),
        Instruction::Store { ptr, value } => "store "@ + typed_operand_text(value) + " "@ + typed_operand_text(ptr),
        Instruction::Load { ptr } => "load "@ + typed_operand_text(ptr),
        Instruction::Call { callee, args, .. } => "call "@ + typed_operand_text(callee) + "("@
            + typed_operands_text(args@) + ")"@,
        Instruction::TypeCast { value, target_dtype } => "typecast "@ + typed_operand_text(value) + " to "@
            + dtype_text(target_dtype@),
        Instruction::GetElementPtr { ptr, offset, .. } => "getelementptr "@ + typed_operand_text(ptr)
            + " offset "@ + typed_operand_text(offset),
    }
}

/// The textual form of a jump: `b1(%b0:i0:i32)`.
pub open spec fn jump_text(j: JumpArg) -> Seq<char> {
    j.bid.text() + "("@ + typed_operands_text(j.args@) + ")"@
}

/// Whether a jump can be written.
pub open spec fn jump_printable(j: JumpArg) -> bool {
    operands_printable(j.args@)
}

/// A switch case: the constant with its type, then the jump.
pub open spec fn case_text(c: (Constant, JumpArg)) -> Seq<char> {
    constant_text(c.0) + ":"@ + dtype_text(constant_dtype(c.0)) + " "@ + jump_text(c.1)
}

/// Switch cases separated by spaces.
pub open spec fn cases_text(cs: Seq<(Constant, JumpArg)>) -> Seq<char>
    decreases cs.len(),
{
    if cs.len() == 0 {
        ""@
    } else if cs.len() == 1 {
        case_text(cs[0])
    } else {
        cases_text(cs.drop_last()) + " "@ + case_text(cs.last())
    }
}

/// Whether a block exit can be written.
pub open spec fn exit_printable(e: BlockExit) -> bool {
    match e {
        BlockExit::Jump { arg } => jump_printable(arg),
        BlockExit::ConditionalJump { condition, arg_then, arg_else } => operand_printable(condition)
            && jump_printable(*arg_then) && jump_printable(*arg_else),
        BlockExit::Switch { value, default, cases } => operand_printable(value) && jump_printable(*default)
            && forall|i: int|
            0 <= i < cases@.len() ==> !(#[trigger] cases@[i].0 is Float) && jump_printable(cases@[i].1),
        BlockExit::Return { value } => operand_printable(value),
        BlockExit::Unreachable => true,
    }
}

/// The textual form of a block exit: `j b1()`, `br c, b1(), b2()`,
/// `switch v default b1() [1:i32 b2() 2:i32 b3()]`, `ret v` or `unreachable`.
pub open spec fn exit_text(e: BlockExit) -> Seq<char> {
    match e {
        BlockExit::Jump { arg } => "j "@ + jump_text(arg),
        BlockExit::ConditionalJump { condition, arg_then, arg_else } => "br "@ + typed_operand_text(condition)
            + ", "@ + jump_text(*arg_then) + ", "@ + jump_text(*arg_else),
        BlockExit::Switch { value, default, cases } => "switch "@ + typed_operand_text(value) + " default "@
            + jump_text(*default) + " ["@ + cases_text(cases@) + "]"@,
        BlockExit::Return { value } => "ret "@ + typed_operand_text(value),
        BlockExit::Unreachable => "unreachable"@,
    }
}

/// Appends `o` with its type to `out`.
fn push_typed(o: &Operand, out: &mut String)
    requires
        operand_printable(*o),
    ensures
        final(out)@ == old(out)@ + typed_operand_text(*o),
{
    let t = o.write_string();
    out.append(t.as_str());
}

/// Appends operands with their types, separated by `, `, to `out`.
fn push_typed_list(os: &Vec<Operand>, out: &mut String)
    requires
        operands_printable(os@),
    ensures
        final(out)@ == old(out)@ + typed_operands_text(os@),
{
    proof {
        reveal_strlit("");
    }
    let ghost start = out@;
    let mut i: usize = 0;
    while i < os.len()
        invariant
            i <= os@.len(),
            operands_printable(os@),
            out@ == start + typed_operands_text(os@.subrange(0, i as int)),
        decreases os@.len() - i,
    {
        proof {
            reveal_strlit("");
            assert(os@.subrange(0, i + 1).drop_last() =~= os@.subrange(0, i as int));
            assert(operand_printable(os@[i as int]));
        }
        if i > 0 {
            out.append(", ");
        }
        push_typed(&os[i], out);
        i = i + 1;
        assert(out@ =~= start + typed_operands_text(os@.subrange(0, i as int)));
    }
    assert(os@.subrange(0, i as int) =~= os@);
}

/// Appends the textual form of a jump to `out`.
fn push_jump(j: &JumpArg, out: &mut String)
    requires
        jump_printable(*j),
    ensures
        final(out)@ == old(out)@ + jump_text(*j),
{
    let t = j.bid.to_string();
    out.append(t.as_str());
    out.append("(");
    push_typed_list(&j.args, out);
    out.append(")");
    assert(out@ =~= old(out)@ + jump_text(*j));
}

/// Appends switch cases, separated by spaces, to `out`.
#[verifier::spinoff_prover]
fn push_cases(cs: &Vec<(Constant, JumpArg)>, out: &mut String)
    requires
        forall|i: int| 0 <= i < cs@.len() ==> !(#[trigger] cs@[i].0 is Float) && jump_printable(cs@[i].1),
    ensures
        final(out)@ == old(out)@ + cases_text(cs@),
{
    proof {
        reveal_strlit("");
    }
    let ghost start = out@;
    let mut i: usize = 0;
    while i < cs.len()
        invariant
            i <= cs@.len(),
            forall|k: int| 0 <= k < cs@.len() ==> !(#[trigger] cs@[k].0 is Float) && jump_printable(cs@[k].1),
            out@ == start + cases_text(cs@.subrange(0, i as int)),
        decreases cs@.len() - i,
    {
        proof {
            reveal_strlit("");
            assert(cs@.subrange(0, i + 1).drop_last() =~= cs@.subrange(0, i as int));
            assert(!(cs@[i as int].0 is Float));
        }
        if i > 0 {
            out.append(" ");
        }
        let c = &cs[i].0;
        c.push_text(out);
        out.append(":");
        let d = c.dtype();
        d.push_text(out);
        out.append(" ");
        push_jump(&cs[i].1, out);
        i = i + 1;
        assert(out@ =~= start + cases_text(cs@.subrange(0, i as int)));
    }
    assert(cs@.subrange(0, i as int) =~= cs@);
}

impl WriteString for Instruction {
    open spec fn writable(&self) -> bool {
        instruction_printable(*self)
    }

    open spec fn text_of(&self) -> Seq<char> {
        instruction_text(*self)
    }

    fn write_string(&self) -> (r: String) {
        let mut s = String::new();
        match self {
            Instruction::Nop => s.append("nop"),
            Instruction::BinOp { op, lhs, rhs, .. } => {
                s.append(binary_op_str(op));
                s.append(" ");
                push_typed(lhs, &mut s);
                s.append(" ");
                push_typed(rhs, &mut s);
            },
            Instruction::UnaryOp { op, operand, .. } => {
                s.append(unary_op_str(op));
                s.append(" ");
                push_typed(operand, &mut s);
            },
            Instruction::Store { ptr, value } => {
                s.append("store ");
                push_typed(value, &mut s);
                s.append(" ");
                push_typed(ptr, &mut s);
            },
            Instruction::Load { ptr } => {
                s.append("load ");
                push_typed(ptr, &mut s);
            },
            Instruction::Call { callee, args, .. } => {
                s.append("call ");
                push_typed(callee, &mut s);
                s.append("(");
                push_typed_list(args, &mut s);
                s.append(")");
            },
            Instruction::TypeCast { value, target_dtype } => {
                s.append("typecast ");
                push_typed(value, &mut s);
                s.append(" to ");
                target_dtype.push_text(&mut s);
            },
            Instruction::GetElementPtr { ptr, offset, .. } => {
                s.append("getelementptr ");
                push_typed(ptr, &mut s);
                s.append(" offset ");
                push_typed(offset, &mut s);
            },
        }
        proof {
            reveal_strlit("");
        }
        assert(s@ =~= instruction_text(*self));
        s
    }
}

impl WriteString for BlockExit {
    open spec fn writable(&self) -> bool {
        exit_printable(*self)
    }

    open spec fn text_of(&self) -> Seq<char> {
        exit_text(*self)
    }

    fn write_string(&self) -> (r: String) {
        let mut s = String::new();
        match self {
            BlockExit::Jump { arg } => {
                s.append("j ");
                push_jump(arg, &mut s);
            },
            BlockExit::ConditionalJump { condition, arg_then, arg_else } => {
                s.append("br ");
                push_typed(condition, &mut s);
                s.append(", ");
                push_jump(arg_then, &mut s);
                s.append(", ");
                push_jump(arg_else, &mut s);
            },
            BlockExit::Switch { value, default, cases } => {
                s.append("switch ");
                push_typed(value, &mut s);
                s.append(" default ");
                push_jump(default, &mut s);
                s.append(" [");
                push_cases(cases, &mut s);
                s.append("]");
            },
            BlockExit::Return { value } => {
                s.append("ret ");
                push_typed(value, &mut s);
            },
            BlockExit::Unreachable => s.append("unreachable"),
        }
        proof {
            reveal_strlit("");
        }
        assert(s@ =~= exit_text(*self));
        s
    }
}

impl WriteString for Operand {
    open spec fn writable(&self) -> bool {
        operand_printable(*self)
    }

    open spec fn text_of(&self) -> Seq<char> {
        typed_operand_text(*self)
    }

    fn write_string(&self) -> (r: String) {
        Operand::write_string(self)
    }
}


/// `:name` for a name, nothing for none.
pub open spec fn name_suffix(n: Option<Seq<char>>) -> Seq<char> {
    match n {
        Some(s) => ":"@ + s,
        None => ""@,
    }
}

/// Appends `:name` for a name, nothing for none, to `out`.
fn push_name_suffix(n: &Option<String>, out: &mut String)
    ensures
        final(out)@ == old(out)@ + name_suffix(name_view(*n)),
{
    proof {
        reveal_strlit("");
    }
    if let Some(name) = n {
        out.append(":");
        out.append(name.as_str());
    }
    assert(out@ =~= old(out)@ + name_suffix(name_view(*n)));
}

/// The lines of the arguments of block `bid`, one per line: `%b1:p0:i32:x`.
pub open spec fn phinode_lines(bid: BlockId, phis: Seq<Named<Dtype>>, indent: nat) -> Seq<char>
    decreases phis.len(),
{
    if phis.len() == 0 {
        ""@
    } else {
        phinode_lines(bid, phis.drop_last(), indent) + indent_text(indent) + (RegisterId::Arg {
            bid,
            aid: (phis.len() - 1) as usize,
        }).text() + ":"@ + dtype_text(phis.last().inner@) + name_suffix(phis.last().name_v()) + "\n"@
    }
}

/// The lines of the instructions of block `bid`, one per line: the register of its result, its
/// type and name, then the instruction, `%b1:i0:i32 = add %b1:p0:i32 1:i32`.
pub open spec fn instruction_lines(bid: BlockId, is: Seq<Named<Instruction>>, indent: nat) -> Seq<char>
    decreases is.len(),
{
    if is.len() == 0 {
        ""@
    } else {
        instruction_lines(bid, is.drop_last(), indent) + indent_text(indent) + (RegisterId::Temp {
            bid,
            iid: (is.len() - 1) as usize,
        }).text() + ":"@ + dtype_text(instruction_dtype(is.last().inner)) + name_suffix(is.last().name_v())
            + " = "@ + instruction_text(is.last().inner) + "\n"@
    }
}

/// Whether an instruction can be written in a block: it can be written and has a type (a load
/// is through a pointer).
pub open spec fn instruction_line_printable(i: Instruction) -> bool {
    instruction_printable(i) && !(i matches Instruction::Load { ptr } && !(operand_dtype(ptr) is Pointer))
}

/// Whether a block can be written.
pub open spec fn block_printable(b: Block) -> bool {
    &&& forall|k: int| 0 <= k < b.instructions@.len() ==> #[trigger] instruction_line_printable(b.instructions@[k].inner)
    &&& exit_printable(b.exit)
}

/// The lines of block `bid`: its arguments, its instructions and its exit.
pub open spec fn block_lines(bid: BlockId, b: Block, indent: nat) -> Seq<char> {
    phinode_lines(bid, b.phinodes@, indent) + instruction_lines(bid, b.instructions@, indent) + indent_text(indent)
        + exit_text(b.exit) + "\n"@
}

/// Appends the lines of block `bid` to `out`.
#[verifier::spinoff_prover]
fn push_block(bid: BlockId, b: &Block, indent: usize, out: &mut String)
    requires
        block_printable(*b),
    ensures
        final(out)@ == old(out)@ + block_lines(bid, *b, indent as nat),
{
    proof {
        reveal_strlit("");
    }
    let ghost start = out@;
    let mut i: usize = 0;
    while i < b.phinodes.len()
        invariant
            i <= b.phinodes@.len(),
            out@ == start + phinode_lines(bid, b.phinodes@.subrange(0, i as int), indent as nat),
        decreases b.phinodes@.len() - i,
    {
        proof {
            assert(b.phinodes@.subrange(0, i + 1).drop_last() =~= b.phinodes@.subrange(0, i as int));
        }
        let phi = &b.phinodes[i];
        write_indent(indent, out);
        let r = RegisterId::arg(bid, i).to_string();
        out.append(r.as_str());
        out.append(":");
        phi.inner.push_text(out);
        push_name_suffix(&phi.name, out);
        out.append("\n");
        i = i + 1;
        assert(out@ =~= start + phinode_lines(bid, b.phinodes@.subrange(0, i as int), indent as nat));
    }
    assert(b.phinodes@.subrange(0, i as int) =~= b.phinodes@);
    let ghost mid = out@;
    let mut j: usize = 0;
    while j < b.instructions.len()
        invariant
            j <= b.instructions@.len(),
            block_printable(*b),
            out@ == mid + instruction_lines(bid, b.instructions@.subrange(0, j as int), indent as nat),
        decreases b.instructions@.len() - j,
    {
        proof {
            assert(b.instructions@.subrange(0, j + 1).drop_last() =~= b.instructions@.subrange(0, j as int));
            assert(instruction_line_printable(b.instructions@[j as int].inner));
        }
        let instr = &b.instructions[j];
        let ghost before = out@;
        write_indent(indent, out);
        let r = RegisterId::temp(bid, j).to_string();
        out.append(r.as_str());
        out.append(":");
        let d = instr.inner.dtype();
        d.push_text(out);
        push_name_suffix(&instr.name, out);
        out.append(" = ");
        let t = instr.inner.write_string();
        out.append(t.as_str());
        out.append("\n");
        proof {
            let line = indent_text(indent as nat) + (RegisterId::Temp { bid, iid: j }).text() + ":"@ + dtype_text(
                instruction_dtype(instr.inner),
            ) + name_suffix(instr.name_v()) + " = "@ + instruction_text(instr.inner) + "\n"@;
            assert(out@ =~= before + line);
            let sub = b.instructions@.subrange(0, j + 1);
            assert(sub.last() == *instr);
            assert(instruction_lines(bid, sub, indent as nat) == instruction_lines(
                bid,
                b.instructions@.subrange(0, j as int),
                indent as nat,
            ) + line);
        }
        j = j + 1;
    }
    assert(b.instructions@.subrange(0, j as int) =~= b.instructions@);
    write_indent(indent, out);
    let t = b.exit.write_string();
    out.append(t.as_str());
    out.append("\n");
    assert(out@ =~= old(out)@ + block_lines(bid, *b, indent as nat));
}

impl<'a> WriteLine for (&'a BlockId, &'a Block) {
    open spec fn writable(&self) -> bool {
        block_printable(*self.1)
    }

    /// The arguments, the instructions and the exit of the block, one per line.
    open spec fn lines(&self, indent: nat) -> Seq<char> {
        block_lines(*self.0, *self.1, indent)
    }

    fn write_line(&self, indent: usize, out: &mut String) {
        push_block(*self.0, self.1, indent, out);
    }
}

/// Appends the types of `ds`, separated by `, `, to `out`.
fn push_dtypes(ds: &Vec<Dtype>, out: &mut String)
    ensures
        final(out)@ == old(out)@ + dtypes_text(dtypes_view(ds@)),
{
    proof {
        reveal_strlit("");
    }
    let ghost v = dtypes_view(ds@);
    let ghost start = out@;
    let mut i: usize = 0;
    while i < ds.len()
        invariant
            i <= ds@.len(),
            v == dtypes_view(ds@),
            out@ == start + dtypes_text(v.subrange(0, i as int)),
        decreases ds@.len() - i,
    {
        proof {
            reveal_strlit("");
            assert(v.subrange(0, i + 1).subrange(0, i as int) =~= v.subrange(0, i as int));
        }
        if i > 0 {
            out.append(", ");
        }
        ds[i].push_text(out);
        i = i + 1;
        assert(out@ =~= start + dtypes_text(v.subrange(0, i as int)));
    }
    assert(v.subrange(0, i as int) =~= v);
}

/// The local allocations of a function, one per line without a final newline:
/// `    %l0:i32:x`.
pub open spec fn allocations_text(allocs: Seq<Named<Dtype>>) -> Seq<char>
    decreases allocs.len(),
{
    if allocs.len() == 0 {
        ""@
    } else {
        let line = "    %l"@ + decimal((allocs.len() - 1) as nat) + ":"@ + dtype_text(allocs.last().inner@)
            + name_suffix(allocs.last().name_v());
        if allocs.len() == 1 {
            line
        } else {
            allocations_text(allocs.drop_last()) + "\n"@ + line
        }
    }
}

/// The blocks of a function, each after an empty line and its header `block b0:`.
pub open spec fn blocks_text(blocks: Seq<(BlockId, Block)>, indent: nat) -> Seq<char>
    decreases blocks.len(),
{
    if blocks.len() == 0 {
        ""@
    } else {
        blocks_text(blocks.drop_last(), indent) + "\nblock "@ + blocks.last().0.text() + ":\n"@ + block_lines(
            blocks.last().0,
            blocks.last().1,
            indent,
        )
    }
}

/// Whether a declaration can be written: a variable has no initializer, and the blocks of a
/// function body can be written.
pub open spec fn declaration_printable(d: Declaration) -> bool {
    match d {
        Declaration::Variable { initializer, .. } => initializer is None,
        Declaration::Function { definition, .. } => match definition {
            Some(def) => forall|k: int| 0 <= k < def.blocks@.len() ==> #[trigger] block_printable(def.blocks@[k].1),
            None => true,
        },
    }
}

/// The lines of declaration `name`: `var i32 @x = default` for a variable; for a function its
/// header, then, where it is defined, `{`, the entry block and allocations, the blocks (at one
/// more level of indentation) and `}`.
pub open spec fn declaration_lines(name: Seq<char>, d: Declaration, indent: nat) -> Seq<char> {
    match d {
        Declaration::Variable { dtype, .. } => "var "@ + dtype_text(dtype@) + " @"@ + name + " = default\n"@,
        Declaration::Function { signature, definition } => {
            let header = "fun "@ + dtype_text(signature.ret@) + " @"@ + name + " ("@ + dtypes_text(
                dtypes_view(signature.params@),
            ) + ")"@;
            match definition {
                Some(def) => header + definition_text(def, indent),
                None => header + "\n\n"@,
            }
        },
    }
}

/// Appends the local allocations of a function, one per line without a final newline, to `out`.
#[verifier::spinoff_prover]
fn push_allocations(allocs: &Vec<Named<Dtype>>, out: &mut String)
    ensures
        final(out)@ == old(out)@ + allocations_text(allocs@),
{
    proof {
        reveal_strlit("");
    }
    let ghost start = out@;
    let mut i: usize = 0;
    while i < allocs.len()
        invariant
            i <= allocs@.len(),
            out@ == start + allocations_text(allocs@.subrange(0, i as int)),
        decreases allocs@.len() - i,
    {
        proof {
            reveal_strlit("");
            assert(allocs@.subrange(0, i + 1).drop_last() =~= allocs@.subrange(0, i as int));
        }
        if i > 0 {
            out.append("\n");
        }
        out.append("    %l");
        push_decimal(out, i as u128);
        out.append(":");
        allocs[i].inner.push_text(out);
        push_name_suffix(&allocs[i].name, out);
        i = i + 1;
        assert(out@ =~= start + allocations_text(allocs@.subrange(0, i as int)));
    }
    assert(allocs@.subrange(0, i as int) =~= allocs@);
}

/// Appends the blocks of a function, each after an empty line and its header, to `out`.
#[verifier::spinoff_prover]
fn push_blocks(blocks: &Vec<(BlockId, Block)>, indent: usize, out: &mut String)
    requires
        forall|k: int| 0 <= k < blocks@.len() ==> #[trigger] block_printable(blocks@[k].1),
    ensures
        final(out)@ == old(out)@ + blocks_text(blocks@, indent as nat),
{
    proof {
        reveal_strlit("");
    }
    let ghost start = out@;
    let mut j: usize = 0;
    assert(out@ =~= start + blocks_text(blocks@.subrange(0, 0), indent as nat));
    while j < blocks.len()
        invariant
            j <= blocks@.len(),
            forall|k: int| 0 <= k < blocks@.len() ==> #[trigger] block_printable(blocks@[k].1),
            out@ == start + blocks_text(blocks@.subrange(0, j as int), indent as nat),
        decreases blocks@.len() - j,
    {
        proof {
            assert(blocks@.subrange(0, j + 1).drop_last() =~= blocks@.subrange(0, j as int));
            assert(block_printable(blocks@[j as int].1));
        }
        let ghost before = out@;
        out.append("\nblock ");
        let t = blocks[j].0.to_string();
        out.append(t.as_str());
        out.append(":\n");
        push_block(blocks[j].0, &blocks[j].1, indent, out);
        proof {
            let bl = block_lines(blocks@[j as int].0, blocks@[j as int].1, indent as nat);
            assert(out@ == before + ("\nblock "@ + blocks@[j as int].0.text() + ":\n"@ + bl));
            let sub = blocks@.subrange(0, j + 1);
            assert(sub.last() == blocks@[j as int]);
            assert(blocks_text(sub, indent as nat) == blocks_text(blocks@.subrange(0, j as int), indent as nat)
                + ("\nblock "@ + blocks@[j as int].0.text() + ":\n"@ + bl));
        }
        j = j + 1;
    }
    assert(blocks@.subrange(0, j as int) =~= blocks@);
}

/// Appends the lines of declaration `name` to `out`.
#[verifier::spinoff_prover]
fn push_declaration(name: &String, d: &Declaration, indent: usize, out: &mut String)
    requires
        declaration_printable(*d),
        indent + 8 <= usize::MAX,
    ensures
        final(out)@ == old(out)@ + declaration_lines(name@, *d, indent as nat),
{
    match d {
        Declaration::Variable { dtype, .. } => {
            out.append("var ");
            dtype.push_text(out);
            out.append(" @");
            out.append(name.as_str());
            out.append(" = default\n");
            assert(out@ =~= old(out)@ + declaration_lines(name@, *d, indent as nat));
        },
        Declaration::Function { signature, definition } => {
            out.append("fun ");
            signature.ret.push_text(out);
            out.append(" @");
            out.append(name.as_str());
            out.append(" (");
            push_dtypes(&signature.params, out);
            out.append(")");
            let ghost header = "fun "@ + dtype_text(signature.ret@) + " @"@ + name@ + " ("@ + dtypes_text(
                dtypes_view(signature.params@),
            ) + ")"@;
            assert(out@ =~= old(out)@ + header);
            match definition {
                Some(def) => {
                    push_definition(def, indent, out);
                    assert(out@ =~= old(out)@ + declaration_lines(name@, *d, indent as nat));
                },
                None => {
                    out.append("\n\n");
                    assert(out@ =~= old(out)@ + declaration_lines(name@, *d, indent as nat));
                },
            }
        },
    }
}

/// The lines of a function body after its header.
#[verifier::opaque]
pub open spec fn definition_text(def: crate::ir::FunctionDefinition, indent: nat) -> Seq<char> {
    " {\n"@ + "init:\n  bid: "@ + def.bid_init.text() + "\n  allocations: \n"@ + allocations_text(def.allocations@)
        + "\n"@ + blocks_text(def.blocks@, indent + 1) + "}\n"@
}

/// Appends the lines of a function body after its header to `out`.
#[verifier::spinoff_prover]
fn push_definition(def: &crate::ir::FunctionDefinition, indent: usize, out: &mut String)
    requires
        forall|k: int| 0 <= k < def.blocks@.len() ==> #[trigger] block_printable(def.blocks@[k].1),
        indent + 8 <= usize::MAX,
    ensures
        final(out)@ == old(out)@ + definition_text(*def, indent as nat),
{
    out.append(" {\n");
    out.append("init:\n  bid: ");
    let t = def.bid_init.to_string();
    out.append(t.as_str());
    out.append("\n  allocations: \n");
    push_allocations(&def.allocations, out);
    out.append("\n");
    push_blocks(&def.blocks, indent + 1, out);
    out.append("}\n");
    proof {
        reveal(definition_text);
    }
    assert(out@ =~= old(out)@ + definition_text(*def, indent as nat));
}

impl<'a> WriteLine for (&'a String, &'a Declaration) {
    open spec fn writable(&self) -> bool {
        declaration_printable(*self.1)
    }

    /// See `declaration_lines`.
    open spec fn lines(&self, indent: nat) -> Seq<char> {
        declaration_lines(self.0@, *self.1, indent)
    }

    fn write_line(&self, indent: usize, out: &mut String) {
        push_declaration(self.0, self.1, indent, out);
    }
}

/// The definition of a struct type in a program's list of structs: `{ x:i32, y:i32 }`, or
/// `opaque` for one that is only declared.
pub open spec fn struct_definition_text(def: Option<Dtype>) -> Seq<char> {
    match def {
        Some(st) => match st@ {
            SpecDtype::Struct { fields: Some(fs), .. } => "{ "@ + fields_text(fs) + " }"@,
            _ => ""@,
        },
        None => "opaque"@,
    }
}

/// Whether an entry of the list of structs can be written: a definition is a struct type with
/// fields.
pub open spec fn struct_printable(def: Option<Dtype>) -> bool {
    def matches Some(st) ==> st@ matches SpecDtype::Struct { fields: Some(_), .. }
}

/// The lines of a program's structs, one per line: `struct P : { x:i32 }`.
pub open spec fn struct_lines(es: Seq<(String, Option<Dtype>)>) -> Seq<char>
    decreases es.len(),
{
    if es.len() == 0 {
        ""@
    } else {
        struct_lines(es.drop_last()) + "struct "@ + es.last().0@ + " : "@ + struct_definition_text(es.last().1)
            + "\n"@
    }
}

/// The lines of the variables among declarations, in their order.
pub open spec fn variable_lines(es: Seq<(String, Declaration)>, indent: nat) -> Seq<char>
    decreases es.len(),
{
    if es.len() == 0 {
        ""@
    } else if es.last().1 is Variable {
        variable_lines(es.drop_last(), indent) + declaration_lines(es.last().0@, es.last().1, indent)
    } else {
        variable_lines(es.drop_last(), indent)
    }
}

/// The lines of the functions among declarations, in their order, each after an empty line.
pub open spec fn function_lines(es: Seq<(String, Declaration)>, indent: nat) -> Seq<char>
    decreases es.len(),
{
    if es.len() == 0 {
        ""@
    } else if es.last().1 is Function {
        function_lines(es.drop_last(), indent) + "\n"@ + declaration_lines(es.last().0@, es.last().1, indent)
    } else {
        function_lines(es.drop_last(), indent)
    }
}

/// Whether a program can be written: its structs and declarations can.
pub open spec fn unit_printable(u: TranslationUnit) -> bool {
    &&& forall|k: int| 0 <= k < u.structs.spec_entries().len() ==> #[trigger] struct_printable(
        u.structs.spec_entries()[k].1,
    )
    &&& forall|k: int| 0 <= k < u.decls.spec_entries().len() ==> #[trigger] declaration_printable(
        u.decls.spec_entries()[k].1,
    )
}

/// The lines of a program: its structs, then its variables, then its functions, each in the
/// order of the tables.
pub open spec fn unit_lines(u: TranslationUnit, indent: nat) -> Seq<char> {
    struct_lines(u.structs.spec_entries()) + variable_lines(u.decls.spec_entries(), indent) + function_lines(
        u.decls.spec_entries(),
        indent,
    )
}

#[verifier::spinoff_prover]
fn push_structs(structs: &StringMap<Option<Dtype>>, out: &mut String)
    requires
        forall|k: int| 0 <= k < structs.spec_entries().len() ==> #[trigger] struct_printable(structs.spec_entries()[k].1),
    ensures
        final(out)@ == old(out)@ + struct_lines(structs.spec_entries()),
{
    proof {
        reveal_strlit("");
    }
    let ghost es = structs.spec_entries();
    let ghost start = out@;
    let mut i: usize = 0;
    assert(out@ =~= start + struct_lines(es.subrange(0, 0)));
    while i < structs.len()
        invariant
            i <= es.len(),
            es == structs.spec_entries(),
            forall|k: int| 0 <= k < es.len() ==> #[trigger] struct_printable(es[k].1),
            out@ == start + struct_lines(es.subrange(0, i as int)),
        decreases es.len() - i,
    {
        let (name, def) = structs.entry(i);
        let ghost before = out@;
        proof {
            assert(struct_printable(es[i as int].1));
        }
        out.append("struct ");
        out.append(name.as_str());
        out.append(" : ");
        match def {
            Some(st) => {
                let fields = st.get_struct_fields().unwrap().as_ref().unwrap();
                out.append("{ ");
                Dtype::push_fields_text(fields, out);
                out.append(" }");
            },
            None => {
                out.append("opaque");
            },
        }
        out.append("\n");
        proof {
            let line = "struct "@ + name@ + " : "@ + struct_definition_text(*def) + "\n"@;
            assert(out@ =~= before + line);
            let sub = es.subrange(0, i + 1);
            assert(sub.drop_last() =~= es.subrange(0, i as int));
            assert(sub.last() == (*name, *def));
        }
        i = i + 1;
    }
    assert(es.subrange(0, i as int) =~= es);
}

#[verifier::spinoff_prover]
fn push_variables(decls: &StringMap<Declaration>, indent: usize, out: &mut String)
    requires
        forall|k: int| 0 <= k < decls.spec_entries().len() ==> #[trigger] declaration_printable(decls.spec_entries()[k].1),
        indent + 8 <= usize::MAX,
    ensures
        final(out)@ == old(out)@ + variable_lines(decls.spec_entries(), indent as nat),
{
    proof {
        reveal_strlit("");
    }
    let ghost es = decls.spec_entries();
    let ghost start = out@;
    let mut i: usize = 0;
    assert(out@ =~= start + variable_lines(es.subrange(0, 0), indent as nat));
    while i < decls.len()
        invariant
            i <= es.len(),
            es == decls.spec_entries(),
            indent + 8 <= usize::MAX,
            forall|k: int| 0 <= k < es.len() ==> #[trigger] declaration_printable(es[k].1),
            out@ == start + variable_lines(es.subrange(0, i as int), indent as nat),
        decreases es.len() - i,
    {
        let (name, decl) = decls.entry(i);
        proof {
            assert(declaration_printable(es[i as int].1));
            let sub = es.subrange(0, i + 1);
            assert(sub.drop_last() =~= es.subrange(0, i as int));
            assert(sub.last() == (*name, *decl));
        }
        if let Declaration::Variable { .. } = decl {
            push_declaration(name, decl, indent, out);
        }
        i = i + 1;
    }
    assert(es.subrange(0, i as int) =~= es);
}

#[verifier::spinoff_prover]
fn push_functions(decls: &StringMap<Declaration>, indent: usize, out: &mut String)
    requires
        forall|k: int| 0 <= k < decls.spec_entries().len() ==> #[trigger] declaration_printable(decls.spec_entries()[k].1),
        indent + 8 <= usize::MAX,
    ensures
        final(out)@ == old(out)@ + function_lines(decls.spec_entries(), indent as nat),
{
    proof {
        reveal_strlit("");
    }
    let ghost es = decls.spec_entries();
    let ghost start = out@;
    let mut i: usize = 0;
    assert(out@ =~= start + function_lines(es.subrange(0, 0), indent as nat));
    while i < decls.len()
        invariant
            i <= es.len(),
            es == decls.spec_entries(),
            indent + 8 <= usize::MAX,
            forall|k: int| 0 <= k < es.len() ==> #[trigger] declaration_printable(es[k].1),
            out@ == start + function_lines(es.subrange(0, i as int), indent as nat),
        decreases es.len() - i,
    {
        let (name, decl) = decls.entry(i);
        let ghost before = out@;
        proof {
            assert(declaration_printable(es[i as int].1));
            let sub = es.subrange(0, i + 1);
            assert(sub.drop_last() =~= es.subrange(0, i as int));
            assert(sub.last() == (*name, *decl));
        }
        if let Declaration::Function { .. } = decl {
            out.append("\n");
            push_declaration(name, decl, indent, out);
            assert(out@ =~= before + ("\n"@ + declaration_lines(name@, *decl, indent as nat)));
        }
        i = i + 1;
    }
    assert(es.subrange(0, i as int) =~= es);
}

impl WriteLine for TranslationUnit {
    open spec fn writable(&self) -> bool {
        unit_printable(*self)
    }

    /// See `unit_lines`.
    open spec fn lines(&self, indent: nat) -> Seq<char> {
        unit_lines(*self, indent)
    }

    fn write_line(&self, indent: usize, out: &mut String) {
        push_structs(&self.structs, out);
        push_variables(&self.decls, indent, out);
        push_functions(&self.decls, indent, out);
        assert(out@ =~= old(out)@ + unit_lines(*self, indent as nat));
    }
}
} // verus!
