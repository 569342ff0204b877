//! Equivalence of code up to a renaming of its blocks.
use vstd::prelude::*;

use super::code::{constant_equal, operand_equal, operands_equal, operands_equals};
use super::dtype::fields_view;
use super::dtype::structs_view;
use super::program::{Declaration, FunctionDefinition, TranslationUnit};
use super::{Block, BlockExit, BlockId, Constant, Dtype, Instruction, JumpArg, Operand, RegisterId};
use super::dtype::{dtypes_view, opt_view};
use crate::c::ast::{
    initializer_same, lemma_initializer_same_reflexive, lemma_initializer_same_symmetric,
    lemma_initializer_same_transitive,
};
use crate::utils::StringMap;
use std::collections::HashMap;

verus! {

broadcast use vstd::std_specs::hash::group_hash_axioms;

/// Whether `map` renames block `from` to block `to`.
pub open spec fn renames(map: Map<usize, usize>, from: usize, to: usize) -> bool {
    map.contains_key(from) && map[from] == to
}

/// Whether two registers correspond under the renaming of blocks: the same local allocation, or
/// the same argument or instruction of corresponding blocks.
pub open spec fn rid_equiv(lhs: RegisterId, rhs: RegisterId, map: Map<usize, usize>) -> bool {
    match (lhs, rhs) {
        (RegisterId::Local { aid: a1 }, RegisterId::Local { aid: a2 }) => a1 == a2,
        (RegisterId::Arg { bid: b1, aid: a1 }, RegisterId::Arg { bid: b2, aid: a2 }) => renames(
            map,
            b1.0,
            b2.0,
        ) && a1 == a2,
        (RegisterId::Temp { bid: b1, iid: i1 }, RegisterId::Temp { bid: b2, iid: i2 }) => renames(
            map,
            b1.0,
            b2.0,
        ) && i1 == i2,
        _ => false,
    }
}

/// Whether two operands correspond: equal constants, or corresponding registers of one type.
pub open spec fn operand_equiv(lhs: Operand, rhs: Operand, map: Map<usize, usize>) -> bool {
    match (lhs, rhs) {
        (Operand::Constant(c1), Operand::Constant(c2)) => constant_equal(c1, c2),
        (Operand::Register { rid: r1, dtype: d1 }, Operand::Register { rid: r2, dtype: d2 }) => rid_equiv(
            r1,
            r2,
            map,
        ) && d1@ == d2@,
        _ => false,
    }
}

/// Whether two instructions correspond: the same kind with the same operator and types, and
/// corresponding operands.
pub open spec fn instruction_equiv(lhs: Instruction, rhs: Instruction, map: Map<usize, usize>) -> bool {
    match (lhs, rhs) {
        (Instruction::Nop, Instruction::Nop) => true,
        (
            Instruction::BinOp { op: o1, lhs: l1, rhs: r1, dtype: d1 },
            Instruction::BinOp { op: o2, lhs: l2, rhs: r2, dtype: d2 },
        ) => o1 == o2 && operand_equiv(l1, l2, map) && operand_equiv(r1, r2, map) && d1@ == d2@,
        (
            Instruction::UnaryOp { op: o1, operand: x1, dtype: d1 },
            Instruction::UnaryOp { op: o2, operand: x2, dtype: d2 },
        ) => o1 == o2 && operand_equiv(x1, x2, map) && d1@ == d2@,
        (Instruction::Store { ptr: p1, value: v1 }, Instruction::Store { ptr: p2, value: v2 }) => operand_equiv(
            p1,
            p2,
            map,
        ) && operand_equiv(v1, v2, map),
        (Instruction::Load { ptr: p1 }, Instruction::Load { ptr: p2 }) => operand_equiv(p1, p2, map),
        (
            Instruction::Call { callee: c1, args: a1, return_type: t1 },
            Instruction::Call { callee: c2, args: a2, return_type: t2 },
        ) => operand_equiv(c1, c2, map) && a1@.len() == a2@.len() && (forall|i: int|
            0 <= i < a1@.len() ==> operand_equiv(#[trigger] a1@[i], a2@[i], map)) && t1@ == t2@,
        (
            Instruction::TypeCast { value: v1, target_dtype: t1 },
            Instruction::TypeCast { value: v2, target_dtype: t2 },
        ) => operand_equiv(v1, v2, map) && t1@ == t2@,
        (
            Instruction::GetElementPtr { ptr: p1, offset: f1, dtype: d1 },
            Instruction::GetElementPtr { ptr: p2, offset: f2, dtype: d2 },
        ) => operand_equiv(p1, p2, map) && operand_equiv(f1, f2, map) && (*d1)@ == (*d2)@,
        _ => false,
    }
}

/// Whether two jumps correspond: to corresponding blocks, with equal arguments.
pub open spec fn arg_equiv(lhs: JumpArg, rhs: JumpArg, map: Map<usize, usize>) -> bool {
    renames(map, lhs.bid.0, rhs.bid.0) && operands_equal(lhs.args@, rhs.args@)
}

/// Whether two block exits are equal.
pub open spec fn exit_equal(lhs: BlockExit, rhs: BlockExit) -> bool {
    match (lhs, rhs) {
        (BlockExit::Return { value: v1 }, BlockExit::Return { value: v2 }) => operand_equal(v1, v2),
        (BlockExit::Unreachable, BlockExit::Unreachable) => true,
        (BlockExit::Jump { arg: a1 }, BlockExit::Jump { arg: a2 }) => a1.bid == a2.bid && operands_equal(
            a1.args@,
            a2.args@,
        ),
        _ => false,
    }
}

/// Whether two block exits correspond: jumps to corresponding blocks, on equal conditions and
/// cases; any other exit equal.
pub open spec fn block_exit_equiv(lhs: BlockExit, rhs: BlockExit, map: Map<usize, usize>) -> bool {
    match (lhs, rhs) {
        (BlockExit::Jump { arg: a1 }, BlockExit::Jump { arg: a2 }) => arg_equiv(a1, a2, map),
        (
            BlockExit::ConditionalJump { condition: c1, arg_then: t1, arg_else: e1 },
            BlockExit::ConditionalJump { condition: c2, arg_then: t2, arg_else: e2 },
        ) => operand_equal(c1, c2) && arg_equiv(*t1, *t2, map) && arg_equiv(*e1, *e2, map),
        (
            BlockExit::Switch { value: v1, default: d1, cases: k1 },
            BlockExit::Switch { value: v2, default: d2, cases: k2 },
        ) => operand_equal(v1, v2) && arg_equiv(*d1, *d2, map) && k1@.len() == k2@.len() && forall|i: int|
            0 <= i < k1@.len() ==> constant_equal(#[trigger] k1@[i].0, k2@[i].0) && arg_equiv(
                k1@[i].1,
                k2@[i].1,
                map,
            ),
        _ => exit_equal(lhs, rhs),
    }
}

/// Whether two blocks correspond: equal phi nodes, corresponding instructions one by one (their
/// names aside), and corresponding exits.
pub open spec fn block_equiv(lhs: Block, rhs: Block, map: Map<usize, usize>) -> bool {
    &&& fields_view(lhs.phinodes@) == fields_view(rhs.phinodes@)
    &&& lhs.instructions@.len() == rhs.instructions@.len()
    &&& forall|i: int|
        0 <= i < lhs.instructions@.len() ==> instruction_equiv(
            (#[trigger] lhs.instructions@[i]).inner,
            rhs.instructions@[i].inner,
            map,
        )
    &&& block_exit_equiv(lhs.exit, rhs.exit, map)
}

/// Whether `map` renames block `from` to block `to`.
fn maps_to(map: &HashMap<usize, usize>, from: usize, to: usize) -> (r: bool)
    ensures
        r == renames(map@, from, to),
{
    match map.get(&from) {
        Some(t) => *t == to,
        None => false,
    }
}

/// Whether two registers correspond under the renaming of blocks `map`.
pub fn is_equiv_rid(lhs: &RegisterId, rhs: &RegisterId, map: &HashMap<usize, usize>) -> (r: bool)
    ensures
        r == rid_equiv(*lhs, *rhs, map@),
{
    match (lhs, rhs) {
        (RegisterId::Local { aid: a1 }, RegisterId::Local { aid: a2 }) => *a1 == *a2,
        (RegisterId::Arg { bid: b1, aid: a1 }, RegisterId::Arg { bid: b2, aid: a2 }) => maps_to(map, b1.0, b2.0)
            && *a1 == *a2,
        (RegisterId::Temp { bid: b1, iid: i1 }, RegisterId::Temp { bid: b2, iid: i2 }) => maps_to(
            map,
            b1.0,
            b2.0,
        ) && *i1 == *i2,
        _ => false,
    }
}

/// Whether two operands correspond under the renaming of blocks `map`.
pub fn is_equiv_operand(lhs: &Operand, rhs: &Operand, map: &HashMap<usize, usize>) -> (r: bool)
    ensures
        r == operand_equiv(*lhs, *rhs, map@),
{
    match (lhs, rhs) {
        (Operand::Constant(c1), Operand::Constant(c2)) => c1.equals(c2),
        (Operand::Register { rid: r1, dtype: d1 }, Operand::Register { rid: r2, dtype: d2 }) => is_equiv_rid(
            r1,
            r2,
            map,
        ) && d1.equals(d2),
        _ => false,
    }
}

/// Whether two instructions correspond under the renaming of blocks `map`.
#[verifier::loop_isolation(false)]
pub fn is_equiv_instruction(lhs: &Instruction, rhs: &Instruction, map: &HashMap<usize, usize>) -> (r:
    bool)
    ensures
        r == instruction_equiv(*lhs, *rhs, map@),
{
    match (lhs, rhs) {
        (Instruction::Nop, Instruction::Nop) => true,
        (
            Instruction::BinOp { op: o1, lhs: l1, rhs: r1, dtype: d1 },
            Instruction::BinOp { op: o2, lhs: l2, rhs: r2, dtype: d2 },
        ) => *o1 == *o2 && is_equiv_operand(l1, l2, map) && is_equiv_operand(r1, r2, map) && d1.equals(d2),
        (
            Instruction::UnaryOp { op: o1, operand: x1, dtype: d1 },
            Instruction::UnaryOp { op: o2, operand: x2, dtype: d2 },
        ) => *o1 == *o2 && is_equiv_operand(x1, x2, map) && d1.equals(d2),
        (Instruction::Store { ptr: p1, value: v1 }, Instruction::Store { ptr: p2, value: v2 }) => is_equiv_operand(
            p1,
            p2,
            map,
        ) && is_equiv_operand(v1, v2, map),
        (Instruction::Load { ptr: p1 }, Instruction::Load { ptr: p2 }) => is_equiv_operand(p1, p2, map),
        (
            Instruction::Call { callee: c1, args: a1, return_type: t1 },
            Instruction::Call { callee: c2, args: a2, return_type: t2 },
        ) => {
            if !is_equiv_operand(c1, c2, map) || a1.len() != a2.len() {
                return false;
            }
            let mut i: usize = 0;
            while i < a1.len()
                invariant
                    i <= a1@.len(),
                    a1@.len() == a2@.len(),
                    forall|j: int| 0 <= j < i ==> operand_equiv(#[trigger] a1@[j], a2@[j], map@),
                decreases a1@.len() - i,
            {
                if !is_equiv_operand(&a1[i], &a2[i], map) {
                    return false;
                }
                i = i + 1;
            }
            t1.equals(t2)
        },
        (
            Instruction::TypeCast { value: v1, target_dtype: t1 },
            Instruction::TypeCast { value: v2, target_dtype: t2 },
        ) => is_equiv_operand(v1, v2, map) && t1.equals(t2),
        (
            Instruction::GetElementPtr { ptr: p1, offset: f1, dtype: d1 },
            Instruction::GetElementPtr { ptr: p2, offset: f2, dtype: d2 },
        ) => is_equiv_operand(p1, p2, map) && is_equiv_operand(f1, f2, map) && d1.equals(d2),
        _ => false,
    }
}

/// Whether two jumps correspond under the renaming of blocks `map`.
pub fn is_equiv_arg(lhs: &JumpArg, rhs: &JumpArg, map: &HashMap<usize, usize>) -> (r: bool)
    ensures
        r == arg_equiv(*lhs, *rhs, map@),
{
    if !maps_to(map, lhs.bid.0, rhs.bid.0) {
        return false;
    }
    if !operands_equals(&lhs.args, &rhs.args) {
        return false;
    }
    true
}

/// Whether two block exits correspond under the renaming of blocks `map`.
#[verifier::loop_isolation(false)]
pub fn is_equiv_block_exit(lhs: &BlockExit, rhs: &BlockExit, map: &HashMap<usize, usize>) -> (r: bool)
    ensures
        r == block_exit_equiv(*lhs, *rhs, map@),
{
    match (lhs, rhs) {
        (BlockExit::Jump { arg: a1 }, BlockExit::Jump { arg: a2 }) => is_equiv_arg(a1, a2, map),
        (
            BlockExit::ConditionalJump { condition: c1, arg_then: t1, arg_else: e1 },
            BlockExit::ConditionalJump { condition: c2, arg_then: t2, arg_else: e2 },
        ) => {
            if !c1.equals(c2) {
                return false;
            }
            if !is_equiv_arg(t1, t2, map) {
                return false;
            }
            if !is_equiv_arg(e1, e2, map) {
                return false;
            }
            true
        },
        (
            BlockExit::Switch { value: v1, default: d1, cases: k1 },
            BlockExit::Switch { value: v2, default: d2, cases: k2 },
        ) => {
            if !v1.equals(v2) {
                return false;
            }
            if !is_equiv_arg(d1, d2, map) {
                return false;
            }
            if k1.len() != k2.len() {
                return false;
            }
            let mut i: usize = 0;
            while i < k1.len()
                invariant
                    i <= k1@.len(),
                    k1@.len() == k2@.len(),
                    forall|j: int|
                        0 <= j < i ==> constant_equal(#[trigger] k1@[j].0, k2@[j].0) && arg_equiv(
                            k1@[j].1,
                            k2@[j].1,
                            map@,
                        ),
                decreases k1@.len() - i,
            {
                if !k1[i].0.equals(&k2[i].0) {
                    return false;
                }
                if !is_equiv_arg(&k1[i].1, &k2[i].1, map) {
                    return false;
                }
                i = i + 1;
            }
            true
        },
        (BlockExit::Return { value: v1 }, BlockExit::Return { value: v2 }) => v1.equals(v2),
        (BlockExit::Unreachable, BlockExit::Unreachable) => true,
        _ => false,
    }
}

/// Whether two lists of named types are equal, names and types.
fn named_dtypes_equals(a: &Vec<super::Named<super::Dtype>>, b: &Vec<super::Named<super::Dtype>>) -> (r:
    bool)
    ensures
        r == (fields_view(a@) == fields_view(b@)),
{
    if a.len() != b.len() {
        assert(fields_view(a@).len() != fields_view(b@).len());
        return false;
    }
    let mut i: usize = 0;
    while i < a.len()
        invariant
            i <= a@.len(),
            a@.len() == b@.len(),
            forall|j: int| 0 <= j < i ==> fields_view(a@)[j] == fields_view(b@)[j],
        decreases a@.len() - i,
    {
        let same_name = match (&a[i].name, &b[i].name) {
            (Some(x), Some(y)) => *x == *y,
            (None, None) => true,
            _ => false,
        };
        if !same_name || !a[i].inner.equals(&b[i].inner) {
            assert(fields_view(a@)[i as int] != fields_view(b@)[i as int]);
            return false;
        }
        i = i + 1;
    }
    assert(fields_view(a@) =~= fields_view(b@));
    true
}

/// Whether two blocks correspond under the renaming of blocks `map`.
pub fn is_equiv_block(lhs: &Block, rhs: &Block, map: &HashMap<usize, usize>) -> (r: bool)
    ensures
        r == block_equiv(*lhs, *rhs, map@),
{
    if !named_dtypes_equals(&lhs.phinodes, &rhs.phinodes) {
        return false;
    }
    if lhs.instructions.len() != rhs.instructions.len() {
        return false;
    }
    let mut i: usize = 0;
    while i < lhs.instructions.len()
        invariant
            i <= lhs.instructions@.len(),
            lhs.instructions@.len() == rhs.instructions@.len(),
            forall|j: int|
                0 <= j < i ==> instruction_equiv(
                    (#[trigger] lhs.instructions@[j]).inner,
                    rhs.instructions@[j].inner,
                    map@,
                ),
        decreases lhs.instructions@.len() - i,
    {
        if !is_equiv_instruction(&lhs.instructions[i].inner, &rhs.instructions[i].inner, map) {
            return false;
        }
        i = i + 1;
    }
    is_equiv_block_exit(&lhs.exit, &rhs.exit, map)
}


/// The ids of listed blocks, in order.
pub open spec fn block_ids(blocks: Seq<(BlockId, Block)>) -> Seq<usize> {
    blocks.map_values(|p: (BlockId, Block)| p.0.0)
}

/// Blocks are listed in strictly increasing order of id.
pub open spec fn blocks_sorted(blocks: Seq<(BlockId, Block)>) -> bool {
    forall|i: int, j: int| 0 <= i < j < blocks.len() ==> blocks[i].0.0 < blocks[j].0.0
}

/// The blocks an exit may jump to, in the order a traversal visits them: `then` before `else`,
/// a switch's cases before its default.
pub open spec fn successors(exit: BlockExit) -> Seq<usize> {
    match exit {
        BlockExit::Jump { arg } => seq![arg.bid.0],
        BlockExit::ConditionalJump { arg_then, arg_else, .. } => seq![arg_then.bid.0, arg_else.bid.0],
        BlockExit::Switch { default, cases, .. } => cases@.map_values(|c: (Constant, JumpArg)| c.1.bid.0).push(
            default.bid.0,
        ),
        _ => seq![],
    }
}

/// The listed block of id `bid`.
pub open spec fn block_of(blocks: Seq<(BlockId, Block)>, bid: usize) -> Block {
    blocks[block_ids(blocks).index_of(bid)].1
}

/// Every block that a listed block may jump to is listed.
pub open spec fn blocks_closed(blocks: Seq<(BlockId, Block)>) -> bool {
    forall|i: int, k: int|
        #![trigger successors(blocks[i].1.exit)[k]]
        0 <= i < blocks.len() && 0 <= k < successors(blocks[i].1.exit).len() ==> block_ids(blocks).contains(
            successors(blocks[i].1.exit)[k],
        )
}

/// `result` extended, in order, by the ids of `next` it does not hold yet.
pub open spec fn visit(result: Seq<usize>, next: Seq<usize>) -> Seq<usize>
    decreases next.len(),
{
    if next.len() == 0 {
        result
    } else {
        let r = visit(result, next.drop_last());
        if r.contains(next.last()) {
            r
        } else {
            r.push(next.last())
        }
    }
}

/// The first of `ids` that `result` does not hold.
pub open spec fn first_unvisited(ids: Seq<usize>, result: Seq<usize>) -> Option<usize>
    decreases ids.len(),
{
    if ids.len() == 0 {
        None
    } else if !result.contains(ids[0]) {
        Some(ids[0])
    } else {
        first_unvisited(ids.drop_first(), result)
    }
}

/// A breadth-first walk of the blocks from the visited ids `result`, whose ids from `head` on
/// wait to be processed, in at most `steps` steps: each step processes the next waiting block,
/// appending the blocks it jumps to that are not visited yet, or, with none waiting, visits the
/// first listed block not visited yet. The visited ids at the end; `None` where a waiting block
/// is not listed or the steps do not suffice.
pub open spec fn walk(blocks: Seq<(BlockId, Block)>, result: Seq<usize>, head: nat, steps: nat) -> Option<
    Seq<usize>,
>
    decreases steps,
{
    if steps == 0 {
        None
    } else if head < result.len() {
        let b = result[head as int];
        if !block_ids(blocks).contains(b) {
            None
        } else {
            walk(blocks, visit(result, successors(block_of(blocks, b).exit)), head + 1, (steps - 1) as nat)
        }
    } else {
        match first_unvisited(block_ids(blocks), result) {
            Some(b) => walk(blocks, result.push(b), head, (steps - 1) as nat),
            None => Some(result),
        }
    }
}

/// The blocks in the order of a breadth-first walk from `bid`, each block not reached before
/// starting the walk anew: twice as many steps as blocks, and two more, always suffice.
pub open spec fn preorder(blocks: Seq<(BlockId, Block)>, bid: usize) -> Option<Seq<usize>> {
    walk(blocks, seq![bid], 0, (2 * blocks.len() + 2) as nat)
}

/// A sequence without repetitions whose items all occur in `b` is no longer than `b`; as long
/// as `b` without repetitions only if it holds every item of `b`.
proof fn lemma_distinct_subset_len(a: Seq<usize>, b: Seq<usize>)
    requires
        a.no_duplicates(),
        b.no_duplicates(),
        forall|x: usize| a.contains(x) ==> b.contains(x),
    ensures
        a.len() <= b.len(),
        (forall|x: usize| b.contains(x) ==> a.contains(x)) ==> a.len() == b.len(),
{
    a.unique_seq_to_set();
    b.unique_seq_to_set();
    vstd::seq_lib::seq_to_set_is_finite(b);
    assert(a.to_set().subset_of(b.to_set()));
    vstd::set_lib::lemma_len_subset(a.to_set(), b.to_set());
    if forall|x: usize| b.contains(x) ==> a.contains(x) {
        assert(a.to_set() =~= b.to_set());
    }
}

/// Visiting keeps the visited ids, appends only ids of `next`, and keeps them free of
/// repetitions; every id of `next` is visited after.
proof fn lemma_visit(result: Seq<usize>, next: Seq<usize>)
    requires
        result.no_duplicates(),
    ensures
        visit(result, next).no_duplicates(),
        visit(result, next).len() >= result.len(),
        visit(result, next).subrange(0, result.len() as int) == result,
        forall|x: usize| #[trigger] visit(result, next).contains(x) ==> result.contains(x) || next.contains(x),
        forall|x: usize| next.contains(x) ==> #[trigger] visit(result, next).contains(x),
    decreases next.len(),
{
    if next.len() > 0 {
        lemma_visit(result, next.drop_last());
        let r = visit(result, next.drop_last());
        assert forall|x: usize| #[trigger] visit(result, next).contains(x) implies result.contains(x) || next.contains(
            x,
        ) by {
            if r.contains(x) {
                if next.drop_last().contains(x) {
                    let k = choose|k: int| 0 <= k < next.drop_last().len() && next.drop_last()[k] == x;
                    assert(next[k] == x);
                }
            } else {
                assert(x == next.last());
            }
        }
        assert forall|x: usize| next.contains(x) implies #[trigger] visit(result, next).contains(x) by {
            let k = choose|k: int| 0 <= k < next.len() && next[k] == x;
            if k < next.len() - 1 {
                assert(next.drop_last()[k] == x);
                assert(r.contains(x));
                if !r.contains(next.last()) {
                    let j = choose|j: int| 0 <= j < r.len() && r[j] == x;
                    assert(r.push(next.last())[j] == x);
                }
            } else if !r.contains(next.last()) {
                assert(r.push(next.last())[r.len() as int] == x);
            }
        }
        if !r.contains(next.last()) {
            assert(r.push(next.last()).subrange(0, result.len() as int) =~= r.subrange(0, result.len() as int));
        }
    } else {
        assert(result.subrange(0, result.len() as int) =~= result);
    }
}

/// The first unvisited id is one of `ids` that is not visited; there is none only where every
/// one of `ids` is visited.
proof fn lemma_first_unvisited(ids: Seq<usize>, result: Seq<usize>)
    ensures
        first_unvisited(ids, result) matches Some(b) ==> ids.contains(b) && !result.contains(b),
        first_unvisited(ids, result) is None ==> forall|x: usize| ids.contains(x) ==> result.contains(x),
    decreases ids.len(),
{
    if ids.len() > 0 {
        lemma_first_unvisited(ids.drop_first(), result);
        if let Some(b) = first_unvisited(ids, result) {
            if result.contains(ids[0]) {
                let k = choose|k: int| 0 <= k < ids.drop_first().len() && ids.drop_first()[k] == b;
                assert(ids[k + 1] == b);
            }
        } else {
            assert forall|x: usize| ids.contains(x) implies result.contains(x) by {
                let k = choose|k: int| 0 <= k < ids.len() && ids[k] == x;
                if k > 0 {
                    assert(ids.drop_first()[k - 1] == x);
                }
            }
        }
    }
}


/// The numbers of block ids.
pub open spec fn bid_view(v: Seq<BlockId>) -> Seq<usize> {
    v.map_values(|b: BlockId| b.0)
}

/// Listed in increasing order, block ids do not repeat.
proof fn lemma_sorted_ids(blocks: Seq<(BlockId, Block)>)
    requires
        blocks_sorted(blocks),
    ensures
        block_ids(blocks).no_duplicates(),
        forall|i: int| 0 <= i < blocks.len() ==> block_ids(blocks).index_of(#[trigger] blocks[i].0.0) == i,
{
    let ids = block_ids(blocks);
    assert forall|i: int, j: int| 0 <= i < ids.len() && 0 <= j < ids.len() && i != j implies ids[i] != ids[j] by {
        if i < j {
            assert(blocks[i].0.0 < blocks[j].0.0);
        } else {
            assert(blocks[j].0.0 < blocks[i].0.0);
        }
    }
    assert forall|i: int| 0 <= i < blocks.len() implies block_ids(blocks).index_of(#[trigger] blocks[i].0.0)
        == i by {
        assert(ids[i] == blocks[i].0.0);
        let k = ids.index_of(blocks[i].0.0);
        assert(ids.contains(blocks[i].0.0));
        assert(ids[k] == blocks[i].0.0);
    }
}

/// Whether `v` holds the block id `b`.
fn contains_bid(v: &Vec<BlockId>, b: BlockId) -> (r: bool)
    ensures
        r == bid_view(v@).contains(b.0),
{
    let mut i: usize = 0;
    while i < v.len()
        invariant
            i <= v@.len(),
            forall|j: int| 0 <= j < i ==> v@[j].0 != b.0,
        decreases v@.len() - i,
    {
        if v[i].0 == b.0 {
            assert(bid_view(v@)[i as int] == b.0);
            return true;
        }
        i = i + 1;
    }
    assert forall|j: int| 0 <= j < bid_view(v@).len() implies bid_view(v@)[j] != b.0 by {
        assert(v@[j].0 != b.0);
    }
    false
}

/// The ids of the blocks an exit may jump to, in the order a traversal visits them.
fn successors_of(exit: &BlockExit) -> (r: Vec<BlockId>)
    ensures
        bid_view(r@) == successors(*exit),
{
    let mut r: Vec<BlockId> = Vec::new();
    match exit {
        BlockExit::Jump { arg } => {
            r.push(arg.bid);
        },
        BlockExit::ConditionalJump { arg_then, arg_else, .. } => {
            r.push(arg_then.bid);
            r.push(arg_else.bid);
        },
        BlockExit::Switch { default, cases, .. } => {
            let mut i: usize = 0;
            while i < cases.len()
                invariant
                    i <= cases@.len(),
                    bid_view(r@) == cases@.take(i as int).map_values(|c: (Constant, JumpArg)| c.1.bid.0),
                decreases cases@.len() - i,
            {
                let ghost before = r@;
                r.push(cases[i].1.bid);
                assert(bid_view(r@) =~= bid_view(before).push(cases@[i as int].1.bid.0));
                assert(cases@.take(i + 1) =~= cases@.take(i as int).push(cases@[i as int]));
                assert(cases@.take(i + 1).map_values(|c: (Constant, JumpArg)| c.1.bid.0) =~= cases@.take(
                    i as int,
                ).map_values(|c: (Constant, JumpArg)| c.1.bid.0).push(cases@[i as int].1.bid.0));
                i = i + 1;
            }
            assert(cases@.take(i as int) =~= cases@);
            r.push(default.bid);
        },
        _ => {},
    }
    assert(bid_view(r@) =~= successors(*exit));
    r
}

/// The listed block of id `bid`.
pub(crate) fn find_block(blocks: &Vec<(BlockId, Block)>, bid: BlockId) -> (r: &Block)
    requires
        blocks_sorted(blocks@),
        block_ids(blocks@).contains(bid.0),
    ensures
        *r == block_of(blocks@, bid.0),
{
    proof {
        lemma_sorted_ids(blocks@);
    }
    let mut i: usize = 0;
    while i < blocks.len()
        invariant
            i <= blocks@.len(),
            blocks_sorted(blocks@),
            block_ids(blocks@).contains(bid.0),
            forall|j: int| 0 <= j < i ==> blocks@[j].0.0 != bid.0,
        decreases blocks@.len() - i,
    {
        if blocks[i].0.0 == bid.0 {
            proof {
                lemma_sorted_ids(blocks@);
            }
            return &blocks[i].1;
        }
        i = i + 1;
    }
    proof {
        let k = choose|k: int| 0 <= k < block_ids(blocks@).len() && block_ids(blocks@)[k] == bid.0;
        assert(blocks@[k].0.0 == bid.0);
    }
    &blocks[0].1
}

/// The first listed block not in `result`, if any.
fn find_unvisited(blocks: &Vec<(BlockId, Block)>, result: &Vec<BlockId>) -> (r: Option<BlockId>)
    ensures
        r matches Some(b) ==> first_unvisited(block_ids(blocks@), bid_view(result@)) == Some(b.0),
        r is None ==> first_unvisited(block_ids(blocks@), bid_view(result@)) is None,
{
    let ghost ids = block_ids(blocks@);
    let ghost rv = bid_view(result@);
    let mut i: usize = 0;
    assert(ids.subrange(0, ids.len() as int) =~= ids);
    while i < blocks.len()
        invariant
            i <= blocks@.len(),
            ids == block_ids(blocks@),
            rv == bid_view(result@),
            first_unvisited(ids, rv) == first_unvisited(ids.subrange(i as int, ids.len() as int), rv),
        decreases blocks@.len() - i,
    {
        let ghost rest = ids.subrange(i as int, ids.len() as int);
        assert(rest[0] == blocks@[i as int].0.0);
        assert(rest.drop_first() =~= ids.subrange(i + 1, ids.len() as int));
        if !contains_bid(result, blocks[i].0) {
            return Some(blocks[i].0);
        }
        i = i + 1;
    }
    None
}

/// The blocks in the order of a breadth-first walk from `bid`, each block not reached before
/// starting the walk anew, the first such in order of id. Every listed block comes once.
#[verifier::loop_isolation(false)]
pub fn traverse_preorder(blocks: &Vec<(BlockId, Block)>, bid: BlockId) -> (r: Vec<BlockId>)
    requires
        blocks_sorted(blocks@),
        blocks_closed(blocks@),
        block_ids(blocks@).contains(bid.0),
    ensures
        preorder(blocks@, bid.0) == Some(bid_view(r@)),
        r@.len() == blocks@.len(),
        r@.len() > 0 && r@[0] == bid,
        bid_view(r@).no_duplicates(),
        forall|x: usize| bid_view(r@).contains(x) <==> block_ids(blocks@).contains(x),
{
    let ghost ids = block_ids(blocks@);
    let ghost total: nat = (2 * blocks@.len() + 2) as nat;
    proof {
        lemma_sorted_ids(blocks@);
    }
    let mut result: Vec<BlockId> = Vec::new();
    result.push(bid);
    assert(bid_view(result@) =~= seq![bid.0]);
    let mut head: usize = 0;
    let ghost mut steps: nat = 0;
    loop
        invariant
            ids == block_ids(blocks@),
            ids.no_duplicates(),
            head <= result@.len(),
            result@.len() > 0 && result@[0] == bid,
            bid_view(result@).no_duplicates(),
            forall|x: usize| bid_view(result@).contains(x) ==> ids.contains(x),
            result@.len() <= blocks@.len(),
            steps <= head + result@.len(),
            preorder(blocks@, bid.0) == walk(blocks@, bid_view(result@), head as nat, (total - steps) as nat),
        decreases total - steps,
    {
        let ghost rv = bid_view(result@);
        if head < result.len() {
            let b = result[head];
            assert(rv[head as int] == b.0);
            assert(rv.contains(b.0));
            let block = find_block(blocks, b);
            let next = successors_of(&block.exit);
            let ghost sv = bid_view(next@);
            let mut j: usize = 0;
            assert(sv.take(0) =~= seq![]);
            while j < next.len()
                invariant
                    j <= next@.len(),
                    sv == bid_view(next@),
                    bid_view(result@) == visit(rv, sv.take(j as int)),
                    result@.len() >= rv.len(),
                    result@[0] == bid,
                decreases next@.len() - j,
            {
                assert(sv.take(j + 1).drop_last() =~= sv.take(j as int));
                assert(sv.take(j + 1).last() == next@[j as int].0);
                if !contains_bid(&result, next[j]) {
                    result.push(next[j]);
                    assert(bid_view(result@) =~= visit(rv, sv.take(j as int)).push(next@[j as int].0));
                }
                j = j + 1;
            }
            assert(sv.take(j as int) =~= sv);
            proof {
                lemma_visit(rv, sv);
                let k = ids.index_of(b.0);
                assert(block_of(blocks@, b.0) == blocks@[k].1);
                assert forall|x: usize| bid_view(result@).contains(x) implies ids.contains(x) by {
                    if !rv.contains(x) {
                        let m = choose|m: int| 0 <= m < sv.len() && sv[m] == x;
                        assert(successors(blocks@[k].1.exit)[m] == x);
                    }
                }
                lemma_distinct_subset_len(bid_view(result@), ids);
            }
            head = head + 1;
            proof {
                steps = steps + 1;
            }
        } else {
            proof {
                lemma_first_unvisited(ids, rv);
            }
            match find_unvisited(blocks, &result) {
                Some(b) => {
                    result.push(b);
                    assert(bid_view(result@) =~= rv.push(b.0));
                    proof {
                        assert forall|x: usize| bid_view(result@).contains(x) implies ids.contains(x) by {
                            if x != b.0 {
                                let m = choose|m: int| 0 <= m < bid_view(result@).len() && bid_view(result@)[m] == x;
                                assert(rv[m] == x);
                            }
                        }
                        lemma_distinct_subset_len(bid_view(result@), ids);
                        steps = steps + 1;
                    }
                },
                None => {
                    proof {
                        lemma_distinct_subset_len(rv, ids);
                    }
                    break;
                },
            }
        }
    }
    result
}


/// A function definition is well formed: its blocks listed in increasing order of id, its
/// initial block listed, and every block a block may jump to listed.
pub open spec fn definition_wf(f: FunctionDefinition) -> bool {
    blocks_sorted(f.blocks@) && blocks_closed(f.blocks@) && block_ids(f.blocks@).contains(f.bid_init.0)
}

/// The renaming that pairs the blocks of two walks position by position, over the first `n`.
pub open spec fn pairing(a: Seq<usize>, b: Seq<usize>, n: int) -> Map<usize, usize> {
    Map::new(|x: usize| a.take(n).contains(x), |x: usize| b[a.index_of(x)])
}

/// Whether two function definitions are the same up to a renaming of blocks: the same
/// allocations, as many blocks, the same initial block, and the blocks in the order of their
/// walks corresponding pairwise under the renaming that this order gives.
pub open spec fn definition_equiv(f: FunctionDefinition, g: FunctionDefinition) -> bool {
    &&& fields_view(f.allocations@) == fields_view(g.allocations@)
    &&& f.blocks@.len() == g.blocks@.len()
    &&& f.bid_init == g.bid_init
    &&& {
        let pa = preorder(f.blocks@, f.bid_init.0).unwrap();
        let pb = preorder(g.blocks@, g.bid_init.0).unwrap();
        let map = pairing(pa, pb, pa.len() as int);
        &&& renames(map, f.bid_init.0, g.bid_init.0)
        &&& forall|i: int|
            0 <= i < pa.len() ==> #[trigger] block_equiv(block_of(f.blocks@, pa[i]), block_of(g.blocks@, pb[i]), map)
    }
}

/// Whether two declarations are the same: variables of the same type with the same
/// initializer, or functions of the same signature whose definitions are the same up to a
/// renaming of blocks.
pub open spec fn declaration_equiv(a: Declaration, b: Declaration) -> bool {
    match (a, b) {
        (
            Declaration::Variable { dtype: d1, initializer: i1 },
            Declaration::Variable { dtype: d2, initializer: i2 },
        ) => d1@ == d2@ && match (i1, i2) {
            (Some(x), Some(y)) => initializer_same(x@, y@),
            (None, None) => true,
            _ => false,
        },
        (
            Declaration::Function { signature: s1, definition: f1 },
            Declaration::Function { signature: s2, definition: f2 },
        ) => s1.ret@ == s2.ret@ && dtypes_view(s1.params@) == dtypes_view(s2.params@) && match (f1, f2) {
            (Some(x), Some(y)) => definition_equiv(x, y),
            (None, None) => true,
            _ => false,
        },
        _ => false,
    }
}

/// A declaration's definition, if any, is well formed.
pub open spec fn declaration_wf(d: Declaration) -> bool {
    d matches Declaration::Function { definition: Some(f), .. } ==> definition_wf(f)
}

/// A program is well formed: its tables, and each function definition.
pub open spec fn unit_wf(u: TranslationUnit) -> bool {
    &&& u.decls.wf()
    &&& u.structs.wf()
    &&& forall|k: Seq<char>| #[trigger] u.decls.spec_map().contains_key(k) ==> declaration_wf(u.decls.spec_map()[k])
}

/// Whether two programs are the same: the same names declared, the same declarations up to a
/// renaming of blocks in each definition, and the same struct types.
pub open spec fn unit_equiv(a: TranslationUnit, b: TranslationUnit) -> bool {
    &&& a.decls.spec_map().dom() == b.decls.spec_map().dom()
    &&& forall|k: Seq<char>| #[trigger] a.decls.spec_map().contains_key(k) ==> declaration_equiv(
        a.decls.spec_map()[k],
        b.decls.spec_map()[k],
    )
    &&& structs_view(a.structs) == structs_view(b.structs)
}

impl FunctionDefinition {
    /// Whether `other` is the same definition up to a renaming of blocks: the blocks of both
    /// walked in the same way, paired in the order of their walks, correspond pairwise.
    #[verifier::loop_isolation(false)]
    pub fn is_equiv(&self, other: &Self) -> (r: bool)
        requires
            definition_wf(*self),
            definition_wf(*other),
        ensures
            r == definition_equiv(*self, *other),
    {
        if !named_dtypes_equals(&self.allocations, &other.allocations) {
            return false;
        }
        if self.blocks.len() != other.blocks.len() {
            return false;
        }
        if self.bid_init.0 != other.bid_init.0 {
            return false;
        }
        let preorder = traverse_preorder(&self.blocks, self.bid_init);
        let preorder_other = traverse_preorder(&other.blocks, other.bid_init);
        let ghost pa = bid_view(preorder@);
        let ghost pb = bid_view(preorder_other@);
        let n = preorder.len();
        let mut map: HashMap<usize, usize> = HashMap::new();
        let mut i: usize = 0;
        assert(pa.take(0) =~= seq![]);
        assert(map@ =~= pairing(pa, pb, 0));
        while i < n
            invariant
                i <= n,
                n == preorder@.len(),
                n == preorder_other@.len(),
                pa == bid_view(preorder@),
                pb == bid_view(preorder_other@),
                pa.no_duplicates(),
                map@ == pairing(pa, pb, i as int),
            decreases n - i,
        {
            map.insert(preorder[i].0, preorder_other[i].0);
            proof {
                assert(pa.take(i + 1) =~= pa.take(i as int).push(pa[i as int]));
                assert(pa.index_of(pa[i as int]) == i) by {
                    let k = pa.index_of(pa[i as int]);
                    assert(pa.contains(pa[i as int]));
                }
                assert forall|x: usize| pa.take(i + 1).contains(x) <==> (pa.take(i as int).contains(x) || x
                    == pa[i as int]) by {
                    if pa.take(i + 1).contains(x) && x != pa[i as int] {
                        let k = choose|k: int| 0 <= k < i + 1 && #[trigger] pa.take(i + 1)[k] == x;
                        assert(pa.take(i as int)[k] == x);
                    }
                    if pa.take(i as int).contains(x) {
                        let k = choose|k: int| 0 <= k < i && #[trigger] pa.take(i as int)[k] == x;
                        assert(pa.take(i + 1)[k] == x);
                    }
                    if x == pa[i as int] {
                        assert(pa.take(i + 1)[i as int] == x);
                    }
                }
                assert(map@ =~= pairing(pa, pb, i + 1));
            }
            i = i + 1;
        }
        assert(pa.take(n as int) =~= pa);
        match map.get(&self.bid_init.0) {
            Some(t) => {
                if *t != other.bid_init.0 {
                    return false;
                }
            },
            None => {
                return false;
            },
        }
        let mut i: usize = 0;
        while i < n
            invariant
                i <= n,
                n == preorder@.len(),
                n == preorder_other@.len(),
                pa == bid_view(preorder@),
                pb == bid_view(preorder_other@),
                definition_wf(*self),
                definition_wf(*other),
                forall|x: usize| pa.contains(x) <==> block_ids(self.blocks@).contains(x),
                forall|x: usize| pb.contains(x) <==> block_ids(other.blocks@).contains(x),
                map@ == pairing(pa, pb, pa.len() as int),
                forall|j: int| 0 <= j < i ==> #[trigger] block_equiv(
                    block_of(self.blocks@, pa[j]),
                    block_of(other.blocks@, pb[j]),
                    map@,
                ),
            decreases n - i,
        {
            assert(pa[i as int] == preorder@[i as int].0);
            assert(pa.contains(pa[i as int]));
            assert(pb.contains(pb[i as int]));
            let lhs = find_block(&self.blocks, preorder[i]);
            let rhs = find_block(&other.blocks, preorder_other[i]);
            if !is_equiv_block(lhs, rhs, &map) {
                return false;
            }
            i = i + 1;
        }
        true
    }
}

impl Declaration {
    /// Whether `other` is the same declaration: variables of the same type and initializer, or
    /// functions of the same signature whose definitions are the same up to a renaming of blocks.
    pub fn is_equiv(&self, other: &Self) -> (r: bool)
        requires
            declaration_wf(*self),
            declaration_wf(*other),
        ensures
            r == declaration_equiv(*self, *other),
    {
        match (self, other) {
            (
                Declaration::Variable { dtype, initializer },
                Declaration::Variable { dtype: dtype_other, initializer: initializer_other },
            ) => {
                if !dtype.equals(dtype_other) {
                    return false;
                }
                match (initializer, initializer_other) {
                    (Some(x), Some(y)) => x.equals(y),
                    (None, None) => true,
                    _ => false,
                }
            },
            (
                Declaration::Function { signature, definition },
                Declaration::Function { signature: signature_other, definition: definition_other },
            ) => {
                if !(signature.ret.equals(&signature_other.ret) && dtypes_equals(&signature.params, &signature_other.params)) {
                    return false;
                }
                match (definition, definition_other) {
                    (Some(x), Some(y)) => x.is_equiv(y),
                    (None, None) => true,
                    _ => false,
                }
            },
            _ => false,
        }
    }
}

/// Whether two lists of types are equal.
fn dtypes_equals(a: &Vec<Dtype>, b: &Vec<Dtype>) -> (r: bool)
    ensures
        r == (dtypes_view(a@) == dtypes_view(b@)),
{
    if a.len() != b.len() {
        assert(dtypes_view(a@).len() != dtypes_view(b@).len());
        return false;
    }
    let mut i: usize = 0;
    while i < a.len()
        invariant
            i <= a@.len(),
            a@.len() == b@.len(),
            forall|j: int| 0 <= j < i ==> a@[j]@ == b@[j]@,
        decreases a@.len() - i,
    {
        if !a[i].equals(&b[i]) {
            assert(dtypes_view(a@)[i as int] != dtypes_view(b@)[i as int]);
            return false;
        }
        i = i + 1;
    }
    assert(dtypes_view(a@) =~= dtypes_view(b@));
    true
}

/// Whether two tables of struct types are equal.
fn structs_equals(a: &StringMap<Option<Dtype>>, b: &StringMap<Option<Dtype>>) -> (r: bool)
    requires
        a.wf(),
        b.wf(),
    ensures
        r == (structs_view(*a) == structs_view(*b)),
{
    if a.len() != b.len() {
        proof {
            a.lemma_dom();
            b.lemma_dom();
            assert(structs_view(*a).dom() == a.spec_map().dom());
            assert(structs_view(*b).dom() == b.spec_map().dom());
        }
        return false;
    }
    let mut i: usize = 0;
    while i < a.len()
        invariant
            i <= a.spec_entries().len(),
            a.wf(),
            b.wf(),
            a.spec_entries().len() == b.spec_entries().len(),
            forall|j: int| 0 <= j < i ==> b.spec_map().contains_key(#[trigger] a.spec_entries()[j].0@)
                && opt_view(b.spec_map()[a.spec_entries()[j].0@]) == opt_view(a.spec_entries()[j].1),
        decreases a.spec_entries().len() - i,
    {
        let (k, v) = a.entry(i);
        proof {
            a.lemma_index(i as int);
        }
        match b.get(k) {
            Some(w) => {
                let same = match (v, w) {
                    (Some(x), Some(y)) => x.equals(y),
                    (None, None) => true,
                    _ => false,
                };
                if !same {
                    assert(structs_view(*a)[k@] != structs_view(*b)[k@]);
                    return false;
                }
            },
            None => {
                assert(!structs_view(*b).contains_key(k@));
                return false;
            },
        }
        i = i + 1;
    }
    proof {
        a.lemma_dom();
        b.lemma_dom();
        assert forall|k: Seq<char>| a.spec_map().dom().contains(k) implies b.spec_map().dom().contains(k) by {
            let j = a.spec_index_of(k);
            assert(a.spec_entries()[j].0@ == k);
        }
        vstd::set_lib::lemma_subset_equality(a.spec_map().dom(), b.spec_map().dom());
        assert forall|k: Seq<char>| structs_view(*a).contains_key(k) implies structs_view(*a)[k]
            == structs_view(*b)[k] by {
            let j = a.spec_index_of(k);
            a.lemma_index(j);
        }
        assert(structs_view(*a) =~= structs_view(*b));
    }
    true
}


impl TranslationUnit {
    /// Whether `other` is the same program: the same names declared, the same declarations up
    /// to a renaming of blocks in each definition, and the same struct types.
    pub fn is_equiv(&self, other: &Self) -> (r: bool)
        requires
            unit_wf(*self),
            unit_wf(*other),
        ensures
            r == unit_equiv(*self, *other),
    {
        proof {
            self.decls.lemma_dom();
            other.decls.lemma_dom();
        }
        if self.decls.len() != other.decls.len() {
            return false;
        }
        let mut i: usize = 0;
        while i < self.decls.len()
            invariant
                i <= self.decls.spec_entries().len(),
                unit_wf(*self),
                unit_wf(*other),
                self.decls.spec_entries().len() == other.decls.spec_entries().len(),
                forall|j: int|
                    0 <= j < i ==> other.decls.spec_map().contains_key(#[trigger] self.decls.spec_entries()[j].0@)
                        && declaration_equiv(
                        self.decls.spec_entries()[j].1,
                        other.decls.spec_map()[self.decls.spec_entries()[j].0@],
                    ),
            decreases self.decls.spec_entries().len() - i,
        {
            let (name, decl) = self.decls.entry(i);
            proof {
                self.decls.lemma_index(i as int);
                assert(self.decls.spec_map().contains_key(name@));
            }
            match other.decls.get(name) {
                Some(d) => {
                    if !decl.is_equiv(d) {
                        return false;
                    }
                },
                None => {
                    return false;
                },
            }
            i = i + 1;
        }
        proof {
            assert forall|k: Seq<char>| self.decls.spec_map().dom().contains(k) implies other.decls.spec_map().dom().contains(
                k,
            ) by {
                let j = self.decls.spec_index_of(k);
                assert(self.decls.spec_entries()[j].0@ == k);
            }
            vstd::set_lib::lemma_subset_equality(self.decls.spec_map().dom(), other.decls.spec_map().dom());
            assert forall|k: Seq<char>| #[trigger] self.decls.spec_map().contains_key(k) implies declaration_equiv(
                self.decls.spec_map()[k],
                other.decls.spec_map()[k],
            ) by {
                let j = self.decls.spec_index_of(k);
                self.decls.lemma_index(j);
            }
        }
        structs_equals(&self.structs, &other.structs)
    }
}


/// A walk with enough steps left, from visited ids that are distinct listed blocks, ends with
/// every listed block visited exactly once.
proof fn lemma_walk(blocks: Seq<(BlockId, Block)>, result: Seq<usize>, head: nat, steps: nat)
    requires
        blocks_sorted(blocks),
        blocks_closed(blocks),
        result.no_duplicates(),
        forall|x: usize| result.contains(x) ==> block_ids(blocks).contains(x),
        head <= result.len(),
        steps + head + result.len() >= 2 * blocks.len() + 2,
    ensures
        walk(blocks, result, head, steps) matches Some(r) && r.no_duplicates() && r.len() == blocks.len()
            && r.len() >= result.len() && r.subrange(0, result.len() as int) == result && (forall|x: usize|
            r.contains(x) <==> block_ids(blocks).contains(x)),
    decreases steps,
{
    let ids = block_ids(blocks);
    lemma_sorted_ids(blocks);
    lemma_distinct_subset_len(result, ids);
    if head < result.len() {
        let b = result[head as int];
        assert(result.contains(b));
        let k = ids.index_of(b);
        assert(block_of(blocks, b) == blocks[k].1);
        let next = successors(blocks[k].1.exit);
        let r2 = visit(result, next);
        lemma_visit(result, next);
        assert forall|x: usize| r2.contains(x) implies ids.contains(x) by {
            if !result.contains(x) {
                let m = choose|m: int| 0 <= m < next.len() && next[m] == x;
                assert(successors(blocks[k].1.exit)[m] == x);
            }
        }
        lemma_walk(blocks, r2, head + 1, (steps - 1) as nat);
        let r = walk(blocks, r2, head + 1, (steps - 1) as nat).unwrap();
        assert(r.subrange(0, result.len() as int) =~= r.subrange(0, r2.len() as int).subrange(
            0,
            result.len() as int,
        ));
    } else {
        lemma_first_unvisited(ids, result);
        match first_unvisited(ids, result) {
            Some(b) => {
                let r2 = result.push(b);
                assert(ids.contains(b) && !result.contains(b));
                assert forall|x: usize| r2.contains(x) implies ids.contains(x) by {
                    if x != b {
                        let m = choose|m: int| 0 <= m < r2.len() && r2[m] == x;
                        assert(result[m] == x);
                        assert(result.contains(x));
                    }
                }
                assert forall|i: int, j: int| 0 <= i < j < r2.len() implies r2[i] != r2[j] by {
                    if j == result.len() {
                        assert(result.contains(result[i]));
                    }
                }
                lemma_walk(blocks, r2, head, (steps - 1) as nat);
                let r = walk(blocks, r2, head, (steps - 1) as nat).unwrap();
                assert(r.subrange(0, result.len() as int) =~= r.subrange(0, r2.len() as int).subrange(
                    0,
                    result.len() as int,
                ));
            },
            None => {
                lemma_distinct_subset_len(result, ids);
                assert(result.subrange(0, result.len() as int) =~= result);
            },
        }
    }
}

/// The walk of a well-formed definition visits every block exactly once, its initial block
/// first.
pub proof fn lemma_preorder(f: FunctionDefinition)
    requires
        definition_wf(f),
    ensures
        preorder(f.blocks@, f.bid_init.0) matches Some(p) && p.no_duplicates() && p.len() == f.blocks@.len()
            && p[0] == f.bid_init.0 && (forall|x: usize| p.contains(x) <==> block_ids(f.blocks@).contains(x)),
{
    let start = seq![f.bid_init.0];
    assert forall|x: usize| start.contains(x) implies block_ids(f.blocks@).contains(x) by {
        assert(start[0] == x);
    }
    lemma_walk(f.blocks@, start, 0, (2 * f.blocks@.len() + 2) as nat);
    let p = preorder(f.blocks@, f.bid_init.0).unwrap();
    assert(p.subrange(0, 1)[0] == p[0]);
}


/// `m2` renames back what `m` renames.
pub open spec fn inverse_renaming(m: Map<usize, usize>, m2: Map<usize, usize>) -> bool {
    forall|x: usize, y: usize| #[trigger] renames(m, x, y) ==> renames(m2, y, x)
}

proof fn lemma_operand_equal_symmetric(a: Operand, b: Operand)
    ensures
        operand_equal(a, b) ==> operand_equal(b, a),
{
}

proof fn lemma_operands_equal_symmetric(a: Seq<Operand>, b: Seq<Operand>)
    ensures
        operands_equal(a, b) ==> operands_equal(b, a),
{
    if operands_equal(a, b) {
        assert forall|i: int| 0 <= i < b.len() implies operand_equal(#[trigger] b[i], a[i]) by {
            assert(operand_equal(a[i], b[i]));
        }
    }
}

proof fn lemma_operand_equiv_symmetric(a: Operand, b: Operand, m: Map<usize, usize>, m2: Map<usize, usize>)
    requires
        inverse_renaming(m, m2),
    ensures
        operand_equiv(a, b, m) ==> operand_equiv(b, a, m2),
{
    if let (Operand::Register { rid: r1, .. }, Operand::Register { rid: r2, .. }) = (a, b) {
        match (r1, r2) {
            (RegisterId::Arg { bid: b1, .. }, RegisterId::Arg { bid: b2, .. }) => {
                if renames(m, b1.0, b2.0) {
                    assert(renames(m2, b2.0, b1.0));
                }
            },
            (RegisterId::Temp { bid: b1, .. }, RegisterId::Temp { bid: b2, .. }) => {
                if renames(m, b1.0, b2.0) {
                    assert(renames(m2, b2.0, b1.0));
                }
            },
            _ => {},
        }
    }
}

proof fn lemma_instruction_equiv_symmetric(a: Instruction, b: Instruction, m: Map<usize, usize>, m2: Map<usize, usize>)
    requires
        inverse_renaming(m, m2),
    ensures
        instruction_equiv(a, b, m) ==> instruction_equiv(b, a, m2),
{
    if instruction_equiv(a, b, m) {
        match (a, b) {
            (Instruction::BinOp { lhs: l1, rhs: r1, .. }, Instruction::BinOp { lhs: l2, rhs: r2, .. }) => {
                lemma_operand_equiv_symmetric(l1, l2, m, m2);
                lemma_operand_equiv_symmetric(r1, r2, m, m2);
            },
            (Instruction::UnaryOp { operand: x1, .. }, Instruction::UnaryOp { operand: x2, .. }) => {
                lemma_operand_equiv_symmetric(x1, x2, m, m2);
            },
            (Instruction::Store { ptr: p1, value: v1 }, Instruction::Store { ptr: p2, value: v2 }) => {
                lemma_operand_equiv_symmetric(p1, p2, m, m2);
                lemma_operand_equiv_symmetric(v1, v2, m, m2);
            },
            (Instruction::Load { ptr: p1 }, Instruction::Load { ptr: p2 }) => {
                lemma_operand_equiv_symmetric(p1, p2, m, m2);
            },
            (Instruction::Call { callee: c1, args: a1, .. }, Instruction::Call { callee: c2, args: a2, .. }) => {
                lemma_operand_equiv_symmetric(c1, c2, m, m2);
                assert forall|i: int| 0 <= i < a2@.len() implies operand_equiv(#[trigger] a2@[i], a1@[i], m2) by {
                    assert(operand_equiv(a1@[i], a2@[i], m));
                    lemma_operand_equiv_symmetric(a1@[i], a2@[i], m, m2);
                }
            },
            (Instruction::TypeCast { value: v1, .. }, Instruction::TypeCast { value: v2, .. }) => {
                lemma_operand_equiv_symmetric(v1, v2, m, m2);
            },
            (
                Instruction::GetElementPtr { ptr: p1, offset: f1, .. },
                Instruction::GetElementPtr { ptr: p2, offset: f2, .. },
            ) => {
                lemma_operand_equiv_symmetric(p1, p2, m, m2);
                lemma_operand_equiv_symmetric(f1, f2, m, m2);
            },
            _ => {},
        }
    }
}

proof fn lemma_arg_equiv_symmetric(a: JumpArg, b: JumpArg, m: Map<usize, usize>, m2: Map<usize, usize>)
    requires
        inverse_renaming(m, m2),
    ensures
        arg_equiv(a, b, m) ==> arg_equiv(b, a, m2),
{
    lemma_operands_equal_symmetric(a.args@, b.args@);
    if renames(m, a.bid.0, b.bid.0) {
        assert(renames(m2, b.bid.0, a.bid.0));
    }
}

proof fn lemma_block_exit_equiv_symmetric(a: BlockExit, b: BlockExit, m: Map<usize, usize>, m2: Map<usize, usize>)
    requires
        inverse_renaming(m, m2),
    ensures
        block_exit_equiv(a, b, m) ==> block_exit_equiv(b, a, m2),
{
    if block_exit_equiv(a, b, m) {
        match (a, b) {
            (BlockExit::Jump { arg: a1 }, BlockExit::Jump { arg: a2 }) => {
                lemma_arg_equiv_symmetric(a1, a2, m, m2);
            },
            (
                BlockExit::ConditionalJump { condition: c1, arg_then: t1, arg_else: e1 },
                BlockExit::ConditionalJump { condition: c2, arg_then: t2, arg_else: e2 },
            ) => {
                lemma_operand_equal_symmetric(c1, c2);
                lemma_arg_equiv_symmetric(*t1, *t2, m, m2);
                lemma_arg_equiv_symmetric(*e1, *e2, m, m2);
            },
            (
                BlockExit::Switch { value: v1, default: d1, cases: k1 },
                BlockExit::Switch { value: v2, default: d2, cases: k2 },
            ) => {
                lemma_operand_equal_symmetric(v1, v2);
                lemma_arg_equiv_symmetric(*d1, *d2, m, m2);
                assert forall|i: int| 0 <= i < k2@.len() implies constant_equal(#[trigger] k2@[i].0, k1@[i].0)
                    && arg_equiv(k2@[i].1, k1@[i].1, m2) by {
                    assert(constant_equal(k1@[i].0, k2@[i].0));
                    lemma_arg_equiv_symmetric(k1@[i].1, k2@[i].1, m, m2);
                }
            },
            (BlockExit::Return { value: v1 }, BlockExit::Return { value: v2 }) => {
                lemma_operand_equal_symmetric(v1, v2);
            },
            _ => {},
        }
    }
}

proof fn lemma_block_equiv_symmetric(a: Block, b: Block, m: Map<usize, usize>, m2: Map<usize, usize>)
    requires
        inverse_renaming(m, m2),
    ensures
        block_equiv(a, b, m) ==> block_equiv(b, a, m2),
{
    if block_equiv(a, b, m) {
        lemma_block_exit_equiv_symmetric(a.exit, b.exit, m, m2);
        assert forall|i: int| 0 <= i < b.instructions@.len() implies instruction_equiv(
            (#[trigger] b.instructions@[i]).inner,
            a.instructions@[i].inner,
            m2,
        ) by {
            assert(instruction_equiv(a.instructions@[i].inner, b.instructions@[i].inner, m));
            lemma_instruction_equiv_symmetric(a.instructions@[i].inner, b.instructions@[i].inner, m, m2);
        }
    }
}

/// Pairing two walks of distinct blocks of the same length one way renames back what pairing
/// them the other way renames.
proof fn lemma_pairing_inverse(pa: Seq<usize>, pb: Seq<usize>)
    requires
        pa.no_duplicates(),
        pb.no_duplicates(),
        pa.len() == pb.len(),
    ensures
        inverse_renaming(pairing(pa, pb, pa.len() as int), pairing(pb, pa, pb.len() as int)),
{
    assert(pa.take(pa.len() as int) =~= pa);
    assert(pb.take(pb.len() as int) =~= pb);
    assert forall|x: usize, y: usize| #[trigger] renames(pairing(pa, pb, pa.len() as int), x, y) implies renames(
        pairing(pb, pa, pb.len() as int),
        y,
        x,
    ) by {
        let k = pa.index_of(x);
        assert(pa.contains(x));
        assert(pa[k] == x);
        assert(pb[k] == y);
        assert(pb.contains(y));
        let j = pb.index_of(y);
        assert(pb[j] == y);
        assert(j == k);
    }
}

/// Equivalence of function definitions is symmetric.
pub proof fn lemma_definition_equiv_symmetric(f: FunctionDefinition, g: FunctionDefinition)
    requires
        definition_wf(f),
        definition_wf(g),
    ensures
        definition_equiv(f, g) ==> definition_equiv(g, f),
{
    if definition_equiv(f, g) {
        lemma_preorder(f);
        lemma_preorder(g);
        let pa = preorder(f.blocks@, f.bid_init.0).unwrap();
        let pb = preorder(g.blocks@, g.bid_init.0).unwrap();
        let m = pairing(pa, pb, pa.len() as int);
        let m2 = pairing(pb, pa, pb.len() as int);
        lemma_pairing_inverse(pa, pb);
        lemma_preorder(f);
        assert(renames(m, f.bid_init.0, g.bid_init.0));
        assert(renames(m2, g.bid_init.0, f.bid_init.0));
        assert forall|i: int| 0 <= i < pb.len() implies #[trigger] block_equiv(
            block_of(g.blocks@, pb[i]),
            block_of(f.blocks@, pa[i]),
            m2,
        ) by {
            assert(block_equiv(block_of(f.blocks@, pa[i]), block_of(g.blocks@, pb[i]), m));
            lemma_block_equiv_symmetric(block_of(f.blocks@, pa[i]), block_of(g.blocks@, pb[i]), m, m2);
        }
    }
}

/// Equivalence of declarations is symmetric.
pub proof fn lemma_declaration_equiv_symmetric(a: Declaration, b: Declaration)
    requires
        declaration_wf(a),
        declaration_wf(b),
    ensures
        declaration_equiv(a, b) ==> declaration_equiv(b, a),
{
    match (a, b) {
        (Declaration::Variable { initializer: Some(x), .. }, Declaration::Variable { initializer: Some(y), .. }) => {
            lemma_initializer_same_symmetric(x@, y@);
        },
        (Declaration::Function { definition: Some(x), .. }, Declaration::Function { definition: Some(y), .. }) => {
            lemma_definition_equiv_symmetric(x, y);
        },
        _ => {},
    }
}

/// Equivalence of programs is symmetric.
pub proof fn lemma_unit_equiv_symmetric(a: TranslationUnit, b: TranslationUnit)
    requires
        unit_wf(a),
        unit_wf(b),
    ensures
        unit_equiv(a, b) ==> unit_equiv(b, a),
{
    if unit_equiv(a, b) {
        assert forall|k: Seq<char>| #[trigger] b.decls.spec_map().contains_key(k) implies declaration_equiv(
            b.decls.spec_map()[k],
            a.decls.spec_map()[k],
        ) by {
            assert(a.decls.spec_map().contains_key(k));
            lemma_declaration_equiv_symmetric(a.decls.spec_map()[k], b.decls.spec_map()[k]);
        }
    }
}


/// A register names no block, or one of `ids`.
pub open spec fn register_refs_ok(r: RegisterId, ids: Seq<usize>) -> bool {
    match r {
        RegisterId::Local { .. } => true,
        RegisterId::Arg { bid, .. } => ids.contains(bid.0),
        RegisterId::Temp { bid, .. } => ids.contains(bid.0),
    }
}

/// An operand is a constant, or a register naming no block or one of `ids`.
pub open spec fn operand_refs_ok(o: Operand, ids: Seq<usize>) -> bool {
    match o {
        Operand::Constant(_) => true,
        Operand::Register { rid, .. } => register_refs_ok(rid, ids),
    }
}

/// The operands of an instruction name no block but those of `ids`.
pub open spec fn instruction_refs_ok(i: Instruction, ids: Seq<usize>) -> bool {
    match i {
        Instruction::Nop => true,
        Instruction::BinOp { lhs, rhs, .. } => operand_refs_ok(lhs, ids) && operand_refs_ok(rhs, ids),
        Instruction::UnaryOp { operand, .. } => operand_refs_ok(operand, ids),
        Instruction::Store { ptr, value } => operand_refs_ok(ptr, ids) && operand_refs_ok(value, ids),
        Instruction::Load { ptr } => operand_refs_ok(ptr, ids),
        Instruction::Call { callee, args, .. } => operand_refs_ok(callee, ids) && forall|k: int|
            0 <= k < args@.len() ==> operand_refs_ok(#[trigger] args@[k], ids),
        Instruction::TypeCast { value, .. } => operand_refs_ok(value, ids),
        Instruction::GetElementPtr { ptr, offset, .. } => operand_refs_ok(ptr, ids) && operand_refs_ok(offset, ids),
    }
}

/// The instructions of a definition read registers of its own blocks only.
pub open spec fn definition_refs_ok(f: FunctionDefinition) -> bool {
    forall|i: int, k: int|
        #![trigger f.blocks@[i].1.instructions@[k]]
        0 <= i < f.blocks@.len() && 0 <= k < f.blocks@[i].1.instructions@.len() ==> instruction_refs_ok(
            f.blocks@[i].1.instructions@[k].inner,
            block_ids(f.blocks@),
        )
}

proof fn lemma_block_equiv_reflexive(b: Block, m: Map<usize, usize>, ids: Seq<usize>, blocks: Seq<(BlockId, Block)>)
    requires
        forall|x: usize| ids.contains(x) ==> renames(m, x, x),
        ids == block_ids(blocks),
        blocks_closed(blocks),
        exists|i: int| 0 <= i < blocks.len() && blocks[i].1 == b,
        forall|k: int| 0 <= k < b.instructions@.len() ==> instruction_refs_ok(#[trigger] b.instructions@[k].inner, ids),
    ensures
        block_equiv(b, b, m),
{
    let i = choose|i: int| 0 <= i < blocks.len() && blocks[i].1 == b;
    assert forall|k: int| 0 <= k < b.instructions@.len() implies instruction_equiv(
        (#[trigger] b.instructions@[k]).inner,
        b.instructions@[k].inner,
        m,
    ) by {
        let ins = b.instructions@[k].inner;
        assert(instruction_refs_ok(ins, ids));
        if let Instruction::Call { args, .. } = ins {
            assert forall|j: int| 0 <= j < args@.len() implies operand_equiv(#[trigger] args@[j], args@[j], m) by {
                assert(operand_refs_ok(args@[j], ids));
            }
        }
    }
    assert(operands_equal(seq![], seq![]));
    match b.exit {
        BlockExit::Jump { arg } => {
            assert(successors(blocks[i].1.exit)[0] == arg.bid.0);
            assert(ids.contains(arg.bid.0));
            assert forall|j: int| 0 <= j < arg.args@.len() implies operand_equal(#[trigger] arg.args@[j], arg.args@[j]) by {}
        },
        BlockExit::ConditionalJump { arg_then, arg_else, .. } => {
            assert(successors(blocks[i].1.exit)[0] == arg_then.bid.0);
            assert(successors(blocks[i].1.exit)[1] == arg_else.bid.0);
            assert(ids.contains(arg_then.bid.0));
            assert(ids.contains(arg_else.bid.0));
            assert forall|j: int| 0 <= j < arg_then.args@.len() implies operand_equal(#[trigger] arg_then.args@[j], arg_then.args@[j]) by {}
            assert forall|j: int| 0 <= j < arg_else.args@.len() implies operand_equal(#[trigger] arg_else.args@[j], arg_else.args@[j]) by {}
        },
        BlockExit::Switch { default, cases, .. } => {
            let n = cases@.len();
            assert(successors(blocks[i].1.exit)[n as int] == default.bid.0);
            assert(ids.contains(default.bid.0));
            assert forall|j: int| 0 <= j < default.args@.len() implies operand_equal(#[trigger] default.args@[j], default.args@[j]) by {}
            assert forall|c: int| 0 <= c < cases@.len() implies constant_equal(#[trigger] cases@[c].0, cases@[c].0)
                && arg_equiv(cases@[c].1, cases@[c].1, m) by {
                assert(successors(blocks[i].1.exit)[c] == cases@[c].1.bid.0);
                assert(ids.contains(cases@[c].1.bid.0));
                assert forall|j: int| 0 <= j < cases@[c].1.args@.len() implies operand_equal(
                    #[trigger] cases@[c].1.args@[j],
                    cases@[c].1.args@[j],
                ) by {}
            }
        },
        _ => {},
    }
}

/// A well-formed definition whose instructions read registers of its own blocks only is
/// equivalent to itself.
pub proof fn lemma_definition_equiv_reflexive(f: FunctionDefinition)
    requires
        definition_wf(f),
        definition_refs_ok(f),
    ensures
        definition_equiv(f, f),
{
    lemma_preorder(f);
    lemma_sorted_ids(f.blocks@);
    let p = preorder(f.blocks@, f.bid_init.0).unwrap();
    let m = pairing(p, p, p.len() as int);
    let ids = block_ids(f.blocks@);
    assert(p.take(p.len() as int) =~= p);
    assert forall|x: usize| ids.contains(x) implies renames(m, x, x) by {
        assert(p.contains(x));
        let k = p.index_of(x);
        assert(p[k] == x);
    }
    assert(ids.contains(f.bid_init.0));
    assert forall|i: int| 0 <= i < p.len() implies #[trigger] block_equiv(
        block_of(f.blocks@, p[i]),
        block_of(f.blocks@, p[i]),
        m,
    ) by {
        assert(p.contains(p[i]));
        let k = ids.index_of(p[i]);
        assert(ids.contains(p[i]));
        let b = block_of(f.blocks@, p[i]);
        assert(f.blocks@[k].1 == b);
        assert forall|j: int| 0 <= j < b.instructions@.len() implies instruction_refs_ok(
            #[trigger] b.instructions@[j].inner,
            ids,
        ) by {
            assert(f.blocks@[k].1.instructions@[j] == b.instructions@[j]);
        }
        lemma_block_equiv_reflexive(b, m, ids, f.blocks@);
    }
}


/// A declaration's definition, if any, reads registers of its own blocks only.
pub open spec fn declaration_refs_ok(d: Declaration) -> bool {
    d matches Declaration::Function { definition: Some(f), .. } ==> definition_refs_ok(f)
}

/// A well-formed declaration whose definition, if any, reads registers of its own blocks only
/// is equivalent to itself.
pub proof fn lemma_declaration_equiv_reflexive(d: Declaration)
    requires
        declaration_wf(d),
        declaration_refs_ok(d),
    ensures
        declaration_equiv(d, d),
{
    match d {
        Declaration::Variable { initializer: Some(x), .. } => lemma_initializer_same_reflexive(x@),
        Declaration::Function { definition: Some(f), .. } => lemma_definition_equiv_reflexive(f),
        _ => {},
    }
}

/// A well-formed program whose definitions read registers of their own blocks only is
/// equivalent to itself.
pub proof fn lemma_unit_equiv_reflexive(u: TranslationUnit)
    requires
        unit_wf(u),
        forall|k: Seq<char>| #[trigger] u.decls.spec_map().contains_key(k) ==> declaration_refs_ok(u.decls.spec_map()[k]),
    ensures
        unit_equiv(u, u),
{
    assert forall|k: Seq<char>| #[trigger] u.decls.spec_map().contains_key(k) implies declaration_equiv(
        u.decls.spec_map()[k],
        u.decls.spec_map()[k],
    ) by {
        lemma_declaration_equiv_reflexive(u.decls.spec_map()[k]);
    }
}


/// `m3` renames what `m1` then `m2` rename.
pub open spec fn composed_renaming(m1: Map<usize, usize>, m2: Map<usize, usize>, m3: Map<usize, usize>) -> bool {
    forall|x: usize, y: usize, z: usize| #[trigger] renames(m1, x, y) && #[trigger] renames(m2, y, z) ==> renames(
        m3,
        x,
        z,
    )
}

proof fn lemma_operand_equal_transitive(a: Operand, b: Operand, c: Operand)
    ensures
        operand_equal(a, b) && operand_equal(b, c) ==> operand_equal(a, c),
{
}

proof fn lemma_operands_equal_transitive(a: Seq<Operand>, b: Seq<Operand>, c: Seq<Operand>)
    ensures
        operands_equal(a, b) && operands_equal(b, c) ==> operands_equal(a, c),
{
    if operands_equal(a, b) && operands_equal(b, c) {
        assert forall|i: int| 0 <= i < a.len() implies operand_equal(#[trigger] a[i], c[i]) by {
            assert(operand_equal(a[i], b[i]));
            assert(operand_equal(b[i], c[i]));
        }
    }
}

proof fn lemma_operand_equiv_transitive(
    a: Operand,
    b: Operand,
    c: Operand,
    m1: Map<usize, usize>,
    m2: Map<usize, usize>,
    m3: Map<usize, usize>,
)
    requires
        composed_renaming(m1, m2, m3),
    ensures
        operand_equiv(a, b, m1) && operand_equiv(b, c, m2) ==> operand_equiv(a, c, m3),
{
    if operand_equiv(a, b, m1) && operand_equiv(b, c, m2) {
        if let (
            Operand::Register { rid: r1, .. },
            Operand::Register { rid: r2, .. },
            Operand::Register { rid: r3, .. },
        ) = (a, b, c) {
            match (r1, r2, r3) {
                (RegisterId::Arg { bid: b1, .. }, RegisterId::Arg { bid: b2, .. }, RegisterId::Arg { bid: b3, .. }) => {
                    assert(renames(m1, b1.0, b2.0) && renames(m2, b2.0, b3.0));
                },
                (
                    RegisterId::Temp { bid: b1, .. },
                    RegisterId::Temp { bid: b2, .. },
                    RegisterId::Temp { bid: b3, .. },
                ) => {
                    assert(renames(m1, b1.0, b2.0) && renames(m2, b2.0, b3.0));
                },
                _ => {},
            }
        }
    }
}

proof fn lemma_instruction_equiv_transitive(
    a: Instruction,
    b: Instruction,
    c: Instruction,
    m1: Map<usize, usize>,
    m2: Map<usize, usize>,
    m3: Map<usize, usize>,
)
    requires
        composed_renaming(m1, m2, m3),
    ensures
        instruction_equiv(a, b, m1) && instruction_equiv(b, c, m2) ==> instruction_equiv(a, c, m3),
{
    if instruction_equiv(a, b, m1) && instruction_equiv(b, c, m2) {
        match (a, b, c) {
            (
                Instruction::BinOp { lhs: l1, rhs: r1, .. },
                Instruction::BinOp { lhs: l2, rhs: r2, .. },
                Instruction::BinOp { lhs: l3, rhs: r3, .. },
            ) => {
                lemma_operand_equiv_transitive(l1, l2, l3, m1, m2, m3);
                lemma_operand_equiv_transitive(r1, r2, r3, m1, m2, m3);
            },
            (
                Instruction::UnaryOp { operand: x1, .. },
                Instruction::UnaryOp { operand: x2, .. },
                Instruction::UnaryOp { operand: x3, .. },
            ) => {
                lemma_operand_equiv_transitive(x1, x2, x3, m1, m2, m3);
            },
            (
                Instruction::Store { ptr: p1, value: v1 },
                Instruction::Store { ptr: p2, value: v2 },
                Instruction::Store { ptr: p3, value: v3 },
            ) => {
                lemma_operand_equiv_transitive(p1, p2, p3, m1, m2, m3);
                lemma_operand_equiv_transitive(v1, v2, v3, m1, m2, m3);
            },
            (Instruction::Load { ptr: p1 }, Instruction::Load { ptr: p2 }, Instruction::Load { ptr: p3 }) => {
                lemma_operand_equiv_transitive(p1, p2, p3, m1, m2, m3);
            },
            (
                Instruction::Call { callee: c1, args: a1, .. },
                Instruction::Call { callee: c2, args: a2, .. },
                Instruction::Call { callee: c3, args: a3, .. },
            ) => {
                lemma_operand_equiv_transitive(c1, c2, c3, m1, m2, m3);
                assert forall|i: int| 0 <= i < a1@.len() implies operand_equiv(#[trigger] a1@[i], a3@[i], m3) by {
                    assert(operand_equiv(a1@[i], a2@[i], m1));
                    assert(operand_equiv(a2@[i], a3@[i], m2));
                    lemma_operand_equiv_transitive(a1@[i], a2@[i], a3@[i], m1, m2, m3);
                }
            },
            (
                Instruction::TypeCast { value: v1, .. },
                Instruction::TypeCast { value: v2, .. },
                Instruction::TypeCast { value: v3, .. },
            ) => {
                lemma_operand_equiv_transitive(v1, v2, v3, m1, m2, m3);
            },
            (
                Instruction::GetElementPtr { ptr: p1, offset: f1, .. },
                Instruction::GetElementPtr { ptr: p2, offset: f2, .. },
                Instruction::GetElementPtr { ptr: p3, offset: f3, .. },
            ) => {
                lemma_operand_equiv_transitive(p1, p2, p3, m1, m2, m3);
                lemma_operand_equiv_transitive(f1, f2, f3, m1, m2, m3);
            },
            _ => {},
        }
    }
}

proof fn lemma_arg_equiv_transitive(
    a: JumpArg,
    b: JumpArg,
    c: JumpArg,
    m1: Map<usize, usize>,
    m2: Map<usize, usize>,
    m3: Map<usize, usize>,
)
    requires
        composed_renaming(m1, m2, m3),
    ensures
        arg_equiv(a, b, m1) && arg_equiv(b, c, m2) ==> arg_equiv(a, c, m3),
{
    lemma_operands_equal_transitive(a.args@, b.args@, c.args@);
    if arg_equiv(a, b, m1) && arg_equiv(b, c, m2) {
        assert(renames(m1, a.bid.0, b.bid.0) && renames(m2, b.bid.0, c.bid.0));
    }
}

proof fn lemma_block_exit_equiv_transitive(
    a: BlockExit,
    b: BlockExit,
    c: BlockExit,
    m1: Map<usize, usize>,
    m2: Map<usize, usize>,
    m3: Map<usize, usize>,
)
    requires
        composed_renaming(m1, m2, m3),
    ensures
        block_exit_equiv(a, b, m1) && block_exit_equiv(b, c, m2) ==> block_exit_equiv(a, c, m3),
{
    if block_exit_equiv(a, b, m1) && block_exit_equiv(b, c, m2) {
        match (a, b, c) {
            (BlockExit::Jump { arg: a1 }, BlockExit::Jump { arg: a2 }, BlockExit::Jump { arg: a3 }) => {
                lemma_arg_equiv_transitive(a1, a2, a3, m1, m2, m3);
            },
            (
                BlockExit::ConditionalJump { condition: c1, arg_then: t1, arg_else: e1 },
                BlockExit::ConditionalJump { condition: c2, arg_then: t2, arg_else: e2 },
                BlockExit::ConditionalJump { condition: c3, arg_then: t3, arg_else: e3 },
            ) => {
                lemma_operand_equal_transitive(c1, c2, c3);
                lemma_arg_equiv_transitive(*t1, *t2, *t3, m1, m2, m3);
                lemma_arg_equiv_transitive(*e1, *e2, *e3, m1, m2, m3);
            },
            (
                BlockExit::Switch { value: v1, default: d1, cases: k1 },
                BlockExit::Switch { value: v2, default: d2, cases: k2 },
                BlockExit::Switch { value: v3, default: d3, cases: k3 },
            ) => {
                lemma_operand_equal_transitive(v1, v2, v3);
                lemma_arg_equiv_transitive(*d1, *d2, *d3, m1, m2, m3);
                assert forall|i: int| 0 <= i < k1@.len() implies constant_equal(#[trigger] k1@[i].0, k3@[i].0)
                    && arg_equiv(k1@[i].1, k3@[i].1, m3) by {
                    assert(k1@.len() == k2@.len() && k2@.len() == k3@.len());
                    assert(constant_equal(k1@[i].0, k2@[i].0));
                    assert(arg_equiv(k1@[i].1, k2@[i].1, m1));
                    assert(constant_equal(k2@[i].0, k3@[i].0));
                    assert(arg_equiv(k2@[i].1, k3@[i].1, m2));
                    lemma_arg_equiv_transitive(k1@[i].1, k2@[i].1, k3@[i].1, m1, m2, m3);
                }
            },
            (BlockExit::Return { value: v1 }, BlockExit::Return { value: v2 }, BlockExit::Return { value: v3 }) => {
                lemma_operand_equal_transitive(v1, v2, v3);
            },
            (BlockExit::Jump { .. }, _, _) => {},
            (BlockExit::ConditionalJump { .. }, _, _) => {},
            (BlockExit::Switch { .. }, _, _) => {},
            (_, _, _) => {},
        }
    }
}

proof fn lemma_block_equiv_transitive(
    a: Block,
    b: Block,
    c: Block,
    m1: Map<usize, usize>,
    m2: Map<usize, usize>,
    m3: Map<usize, usize>,
)
    requires
        composed_renaming(m1, m2, m3),
    ensures
        block_equiv(a, b, m1) && block_equiv(b, c, m2) ==> block_equiv(a, c, m3),
{
    if block_equiv(a, b, m1) && block_equiv(b, c, m2) {
        lemma_block_exit_equiv_transitive(a.exit, b.exit, c.exit, m1, m2, m3);
        assert forall|i: int| 0 <= i < a.instructions@.len() implies instruction_equiv(
            (#[trigger] a.instructions@[i]).inner,
            c.instructions@[i].inner,
            m3,
        ) by {
            assert(instruction_equiv(a.instructions@[i].inner, b.instructions@[i].inner, m1));
            assert(instruction_equiv(b.instructions@[i].inner, c.instructions@[i].inner, m2));
            lemma_instruction_equiv_transitive(
                a.instructions@[i].inner,
                b.instructions@[i].inner,
                c.instructions@[i].inner,
                m1,
                m2,
                m3,
            );
        }
    }
}

/// Pairing walks `pa` with `pb` and `pb` with `pc` renames as pairing `pa` with `pc` does.
proof fn lemma_pairing_compose(pa: Seq<usize>, pb: Seq<usize>, pc: Seq<usize>)
    requires
        pa.no_duplicates(),
        pb.no_duplicates(),
        pc.no_duplicates(),
        pa.len() == pb.len(),
        pb.len() == pc.len(),
    ensures
        composed_renaming(
            pairing(pa, pb, pa.len() as int),
            pairing(pb, pc, pb.len() as int),
            pairing(pa, pc, pa.len() as int),
        ),
{
    assert(pa.take(pa.len() as int) =~= pa);
    assert(pb.take(pb.len() as int) =~= pb);
    assert forall|x: usize, y: usize, z: usize|
        #[trigger] renames(pairing(pa, pb, pa.len() as int), x, y) && #[trigger] renames(
            pairing(pb, pc, pb.len() as int),
            y,
            z,
        ) implies renames(pairing(pa, pc, pa.len() as int), x, z) by {
        let k = pa.index_of(x);
        assert(pa.contains(x));
        assert(pa[k] == x);
        assert(pb[k] == y);
        let j = pb.index_of(y);
        assert(pb.contains(y));
        assert(pb[j] == y);
        assert(j == k);
    }
}

/// Equivalence of function definitions is transitive.
pub proof fn lemma_definition_equiv_transitive(f: FunctionDefinition, g: FunctionDefinition, h: FunctionDefinition)
    requires
        definition_wf(f),
        definition_wf(g),
        definition_wf(h),
    ensures
        definition_equiv(f, g) && definition_equiv(g, h) ==> definition_equiv(f, h),
{
    if definition_equiv(f, g) && definition_equiv(g, h) {
        lemma_preorder(f);
        lemma_preorder(g);
        lemma_preorder(h);
        let pa = preorder(f.blocks@, f.bid_init.0).unwrap();
        let pb = preorder(g.blocks@, g.bid_init.0).unwrap();
        let pc = preorder(h.blocks@, h.bid_init.0).unwrap();
        let m1 = pairing(pa, pb, pa.len() as int);
        let m2 = pairing(pb, pc, pb.len() as int);
        let m3 = pairing(pa, pc, pa.len() as int);
        lemma_pairing_compose(pa, pb, pc);
        assert(renames(m1, f.bid_init.0, g.bid_init.0) && renames(m2, g.bid_init.0, h.bid_init.0));
        assert forall|i: int| 0 <= i < pa.len() implies #[trigger] block_equiv(
            block_of(f.blocks@, pa[i]),
            block_of(h.blocks@, pc[i]),
            m3,
        ) by {
            assert(block_equiv(block_of(f.blocks@, pa[i]), block_of(g.blocks@, pb[i]), m1));
            assert(block_equiv(block_of(g.blocks@, pb[i]), block_of(h.blocks@, pc[i]), m2));
            lemma_block_equiv_transitive(
                block_of(f.blocks@, pa[i]),
                block_of(g.blocks@, pb[i]),
                block_of(h.blocks@, pc[i]),
                m1,
                m2,
                m3,
            );
        }
    }
}

/// Equivalence of declarations is transitive.
pub proof fn lemma_declaration_equiv_transitive(a: Declaration, b: Declaration, c: Declaration)
    requires
        declaration_wf(a),
        declaration_wf(b),
        declaration_wf(c),
    ensures
        declaration_equiv(a, b) && declaration_equiv(b, c) ==> declaration_equiv(a, c),
{
    match (a, b, c) {
        (
            Declaration::Variable { initializer: Some(x), .. },
            Declaration::Variable { initializer: Some(y), .. },
            Declaration::Variable { initializer: Some(z), .. },
        ) => {
            lemma_initializer_same_transitive(x@, y@, z@);
        },
        (
            Declaration::Function { definition: Some(x), .. },
            Declaration::Function { definition: Some(y), .. },
            Declaration::Function { definition: Some(z), .. },
        ) => {
            lemma_definition_equiv_transitive(x, y, z);
        },
        _ => {},
    }
}

/// Equivalence of programs is transitive.
pub proof fn lemma_unit_equiv_transitive(a: TranslationUnit, b: TranslationUnit, c: TranslationUnit)
    requires
        unit_wf(a),
        unit_wf(b),
        unit_wf(c),
    ensures
        unit_equiv(a, b) && unit_equiv(b, c) ==> unit_equiv(a, c),
{
    if unit_equiv(a, b) && unit_equiv(b, c) {
        assert forall|k: Seq<char>| #[trigger] a.decls.spec_map().contains_key(k) implies declaration_equiv(
            a.decls.spec_map()[k],
            c.decls.spec_map()[k],
        ) by {
            assert(b.decls.spec_map().contains_key(k));
            lemma_declaration_equiv_transitive(a.decls.spec_map()[k], b.decls.spec_map()[k], c.decls.spec_map()[k]);
        }
    }
}

} // verus!
