//! The control flow graph of a function: the jumps out of each block.
use vstd::prelude::*;

use crate::ir::code::{exit_jumps, operand_dtype, operand_equal, operands_equal};
use crate::ir::{BlockId, FunctionDefinition, HasDtype, JumpArg, Operand, RegisterId};

verus! {

/// Whether two jumps are the same: to the same block, with equal arguments.
pub open spec fn jump_same(a: JumpArg, b: JumpArg) -> bool {
    a.bid == b.bid && operands_equal(a.args@, b.args@)
}

/// Whether two lists of jumps are the same, one by one.
pub open spec fn jumps_same(a: Seq<JumpArg>, b: Seq<JumpArg>) -> bool {
    a.len() == b.len() && forall|i: int| 0 <= i < a.len() ==> #[trigger] jump_same(a[i], b[i])
}

/// Replaces `operand` by a copy of `to` where it equals `from`; whether it did.
pub fn replace_operand(operand: &mut Operand, from: &Operand, to: &Operand) -> (r: bool)
    ensures
        r == operand_equal(*old(operand), *from),
        r ==> operand_equal(*final(operand), *to),
        !r ==> *final(operand) == *old(operand),
{
    if operand.equals(from) {
        *operand = to.duplicate();
        true
    } else {
        false
    }
}

/// The index of the first entry of `dict` for register `rid`, or the length of `dict` where
/// there is none.
pub open spec fn first_entry(dict: Seq<(RegisterId, Operand)>, rid: RegisterId) -> int
    decreases dict.len(),
{
    if dict.len() == 0 {
        0
    } else if dict[0].0 == rid {
        0
    } else {
        1 + first_entry(dict.subrange(1, dict.len() as int), rid)
    }
}

/// Where `operand` is a register that `dict` has an entry for, it is replaced by a copy of the
/// first such entry's operand, which must have the register's type; whether it was.
pub fn replace_operands(operand: &mut Operand, dict: &Vec<(RegisterId, Operand)>) -> (r: bool)
    requires
        match *old(operand) {
            Operand::Register { rid, dtype } => first_entry(dict@, rid) < dict@.len() ==> operand_dtype(
                dict@[first_entry(dict@, rid)].1,
            ) == dtype@,
            Operand::Constant(_) => true,
        },
    ensures
        match *old(operand) {
            Operand::Register { rid, .. } => if first_entry(dict@, rid) < dict@.len() {
                r && operand_equal(*final(operand), dict@[first_entry(dict@, rid)].1)
            } else {
                !r && *final(operand) == *old(operand)
            },
            Operand::Constant(_) => !r && *final(operand) == *old(operand),
        },
{
    let rid = match &*operand {
        Operand::Register { rid, .. } => *rid,
        Operand::Constant(_) => {
            return false;
        },
    };
    let mut i: usize = 0;
    assert(dict@.subrange(0, dict@.len() as int) =~= dict@);
    while i < dict.len() && !(dict[i].0 == rid)
        invariant
            i <= dict@.len(),
            first_entry(dict@, rid) == i + first_entry(dict@.subrange(i as int, dict@.len() as int), rid),
        decreases dict@.len() - i,
    {
        let ghost rest = dict@.subrange(i as int, dict@.len() as int);
        assert(rest[0] == dict@[i as int]);
        assert(rest.subrange(1, rest.len() as int) =~= dict@.subrange(i + 1, dict@.len() as int));
        i = i + 1;
    }
    if i < dict.len() {
        let ghost rest = dict@.subrange(i as int, dict@.len() as int);
        assert(rest[0] == dict@[i as int]);
        assert(first_entry(dict@, rid) == i);
        *operand = dict[i].1.duplicate();
        true
    } else {
        assert(dict@.subrange(i as int, dict@.len() as int).len() == 0);
        false
    }
}

/// The jumps out of each block, for each block in order: an unconditional jump, the `then` and
/// `else` jumps of a branch, a switch's default then its cases; none for a return.
pub fn make_cfg(fdef: &FunctionDefinition) -> (r: Vec<(BlockId, Vec<JumpArg>)>)
    ensures
        r@.len() == fdef.blocks@.len(),
        forall|i: int|
            #![trigger r@[i]]
            0 <= i < r@.len() ==> r@[i].0 == fdef.blocks@[i].0 && jumps_same(
                r@[i].1@,
                exit_jumps(fdef.blocks@[i].1.exit),
            ),
{
    let mut result: Vec<(BlockId, Vec<JumpArg>)> = Vec::new();
    let mut i: usize = 0;
    while i < fdef.blocks.len()
        invariant
            i <= fdef.blocks@.len(),
            result@.len() == i,
            forall|k: int|
                #![trigger result@[k]]
                0 <= k < i ==> result@[k].0 == fdef.blocks@[k].0 && jumps_same(
                    result@[k].1@,
                    exit_jumps(fdef.blocks@[k].1.exit),
                ),
        decreases fdef.blocks@.len() - i,
    {
        let bid: BlockId = fdef.blocks[i].0;
        let block = &fdef.blocks[i].1;
        let mut args: Vec<JumpArg> = Vec::new();
        match &block.exit {
            crate::ir::BlockExit::Jump { arg } => {
                args.push(arg.duplicate());
            },
            crate::ir::BlockExit::ConditionalJump { arg_then, arg_else, .. } => {
                args.push(arg_then.duplicate());
                args.push(arg_else.duplicate());
            },
            crate::ir::BlockExit::Switch { default, cases, .. } => {
                args.push(default.duplicate());
                let mut j: usize = 0;
                while j < cases.len()
                    invariant
                        j <= cases@.len(),
                        args@.len() == j + 1,
                        jump_same(args@[0], **default),
                        forall|k: int| 0 <= k < j ==> #[trigger] jump_same(args@[k + 1], cases@[k].1),
                    decreases cases@.len() - j,
                {
                    args.push(cases[j].1.duplicate());
                    j = j + 1;
                }
            },
            _ => {},
        }
        proof {
            let e = exit_jumps(block.exit);
            assert forall|k: int| 0 <= k < args@.len() implies #[trigger] jump_same(args@[k], e[k]) by {
                if block.exit is Switch && k > 0 {
                    assert(jump_same(args@[(k - 1) + 1], block.exit->Switch_cases@[k - 1].1));
                }
            }
        }
        assert(jumps_same(args@, exit_jumps(block.exit)));
        assert(fdef.blocks@[i as int].1 == *block);
        let ghost before = result@;
        result.push((bid, args));
        assert forall|k: int| 0 <= k < i + 1 implies result@[k].0 == fdef.blocks@[k].0 && jumps_same(
            #[trigger] result@[k].1@,
            exit_jumps(fdef.blocks@[k].1.exit),
        ) by {
            if k < i {
                assert(result@[k] == before[k]);
            } else {
                assert(result@[k].1@ == args@);
            }
        }
        i = i + 1;
    }
    result
}


/// The jumps among `js`, out of block `src`, that go to block `t`, each with `src`, in order.
pub open spec fn jumps_from(src: BlockId, js: Seq<JumpArg>, t: usize) -> Seq<(BlockId, JumpArg)>
    decreases js.len(),
{
    if js.len() == 0 {
        seq![]
    } else {
        let rest = jumps_from(src, js.drop_last(), t);
        if js.last().bid.0 == t {
            rest.push((src, js.last()))
        } else {
            rest
        }
    }
}

/// The jumps of `cfg` that go to block `t`, each with the block it leaves, in the order of
/// `cfg`.
pub open spec fn jumps_into(cfg: Seq<(BlockId, Vec<JumpArg>)>, t: usize) -> Seq<(BlockId, JumpArg)>
    decreases cfg.len(),
{
    if cfg.len() == 0 {
        seq![]
    } else {
        jumps_into(cfg.drop_last(), t) + jumps_from(cfg.last().0, cfg.last().1@, t)
    }
}

/// Whether two lists of jumps, each with the block it leaves, are the same, one by one.
pub open spec fn preds_same(a: Seq<(BlockId, JumpArg)>, b: Seq<(BlockId, JumpArg)>) -> bool {
    a.len() == b.len() && forall|k: int| #![trigger a[k]] 0 <= k < a.len() ==> a[k].0 == b[k].0 && jump_same(a[k].1, b[k].1)
}

/// The blocks a list of entries is about.
pub open spec fn entry_ids<T>(r: Seq<(BlockId, T)>) -> Seq<usize> {
    r.map_values(|e: (BlockId, T)| e.0.0)
}

/// Lists that are the same stay so with the same jump added to each.
proof fn lemma_preds_push(a: Seq<(BlockId, JumpArg)>, b: Seq<(BlockId, JumpArg)>, x: (BlockId, JumpArg), y: (BlockId, JumpArg))
    requires
        preds_same(a, b),
        x.0 == y.0,
        jump_same(x.1, y.1),
    ensures
        preds_same(a.push(x), b.push(y)),
{
    assert forall|k: int| #![trigger a.push(x)[k]] 0 <= k < a.push(x).len() implies a.push(x)[k].0 == b.push(y)[k].0
        && jump_same(a.push(x)[k].1, b.push(y)[k].1) by {
        if k < a.len() {
            assert(jump_same(a[k].1, b[k].1));
        }
    }
}

/// The jumps of `cfg` gathered by the block they go to: one entry for each block that some jump
/// goes to, which lists the jumps to it, each with the block it leaves, in the order of `cfg`.
pub fn reverse_cfg(cfg: &Vec<(BlockId, Vec<JumpArg>)>) -> (r: Vec<(BlockId, Vec<(BlockId, JumpArg)>)>)
    ensures
        forall|a: int, b: int| 0 <= a < b < r@.len() ==> #[trigger] r@[a].0 != #[trigger] r@[b].0,
        forall|a: int| #![trigger r@[a]] 0 <= a < r@.len() ==> preds_same(r@[a].1@, jumps_into(cfg@, r@[a].0.0)),
        forall|t: usize| #[trigger] entry_ids(r@).contains(t) <==> jumps_into(cfg@, t).len() > 0,
{
    let mut result: Vec<(BlockId, Vec<(BlockId, JumpArg)>)> = Vec::new();
    let mut i: usize = 0;
    proof {
        assert forall|t: usize| #[trigger] entry_ids(result@).contains(t) <==> jumps_into(cfg@.take(0), t).len() > 0 by {
            assert(cfg@.take(0).len() == 0);
        }
    }
    while i < cfg.len()
        invariant
            i <= cfg@.len(),
            forall|a: int, b: int| 0 <= a < b < result@.len() ==> #[trigger] result@[a].0 != #[trigger] result@[b].0,
            forall|a: int|
                #![trigger result@[a]]
                0 <= a < result@.len() ==> preds_same(result@[a].1@, jumps_into(cfg@.take(i as int), result@[a].0.0)),
            forall|t: usize| #[trigger] entry_ids(result@).contains(t) <==> jumps_into(cfg@.take(i as int), t).len() > 0,
        decreases cfg@.len() - i,
    {
        let src = cfg[i].0;
        let jumps = &cfg[i].1;
        let ghost done = cfg@.take(i as int);
        let mut j: usize = 0;
        proof {
            assert forall|t: usize| jumps_into(done, t) + jumps_from(src, jumps@.take(0), t) == jumps_into(done, t) by {
                assert(jumps_into(done, t) + jumps_from(src, jumps@.take(0), t) =~= jumps_into(done, t));
            }
        }
        while j < jumps.len()
            invariant
                i < cfg@.len(),
                j <= jumps@.len(),
                done == cfg@.take(i as int),
                src == cfg@[i as int].0,
                *jumps == cfg@[i as int].1,
                forall|a: int, b: int| 0 <= a < b < result@.len() ==> #[trigger] result@[a].0 != #[trigger] result@[b].0,
                forall|a: int|
                    #![trigger result@[a]]
                    0 <= a < result@.len() ==> preds_same(
                        result@[a].1@,
                        jumps_into(done, result@[a].0.0) + jumps_from(src, jumps@.take(j as int), result@[a].0.0),
                    ),
                forall|t: usize| #[trigger]
                    entry_ids(result@).contains(t) <==> (jumps_into(done, t) + jumps_from(
                        src,
                        jumps@.take(j as int),
                        t,
                    )).len() > 0,
            decreases jumps@.len() - j,
        {
            let jump = &jumps[j];
            let target = jump.bid;
            let ghost acc = |t: usize| jumps_into(done, t) + jumps_from(src, jumps@.take(j as int), t);
            let ghost acc2 = |t: usize| jumps_into(done, t) + jumps_from(src, jumps@.take(j + 1), t);
            proof {
                assert(jumps@.take(j + 1).drop_last() =~= jumps@.take(j as int));
                assert(jumps@.take(j + 1).last() == *jump);
                assert forall|t: usize| #[trigger] acc2(t) == if t == target.0 {
                    acc(t).push((src, *jump))
                } else {
                    acc(t)
                } by {
                    if t == target.0 {
                        assert(acc2(t) =~= acc(t).push((src, *jump)));
                    } else {
                        assert(acc2(t) =~= acc(t));
                    }
                }
            }
            let mut k: usize = 0;
            while k < result.len() && result[k].0.0 != target.0
                invariant
                    k <= result@.len(),
                    forall|a: int| 0 <= a < k ==> #[trigger] result@[a].0.0 != target.0,
                decreases result@.len() - k,
            {
                k = k + 1;
            }
            let ghost before = result@;
            if k < result.len() {
                let (bid, mut preds) = result.remove(k);
                let ghost old_preds = preds@;
                let copy = jump.duplicate();
                assert(jump_same(copy, *jump));
                preds.push((src, copy));
                result.insert(k, (bid, preds));
                proof {
                    assert(result@ =~= before.update(k as int, (bid, preds)));
                    assert(entry_ids(result@) =~= entry_ids(before));
                    assert forall|a: int| #![trigger result@[a]] 0 <= a < result@.len() implies preds_same(
                        result@[a].1@,
                        acc2(result@[a].0.0),
                    ) by {
                        if a != k {
                            assert(result@[a] == before[a]);
                            assert(before[a].0 != before[k as int].0);
                            assert(before[a].0.0 != target.0);
                            assert(acc2(before[a].0.0) == acc(before[a].0.0));
                            assert(preds_same(before[a].1@, acc(before[a].0.0)));
                            assert(preds_same(result@[a].1@, acc2(result@[a].0.0)));
                        } else {
                            assert(bid == before[k as int].0);
                            assert(bid.0 == target.0);
                            assert(preds_same(old_preds, acc(target.0)));
                            assert(preds@ == old_preds.push((src, copy)));
                            let p = acc2(target.0);
                            assert(p == acc(target.0).push((src, *jump)));
                            lemma_preds_push(old_preds, acc(target.0), (src, copy), (src, *jump));
                            assert(result@[a] == (bid, preds));
                            assert(preds_same(result@[a].1@, acc2(result@[a].0.0)));
                        }
                    }
                    assert forall|t: usize| #[trigger] entry_ids(result@).contains(t) <==> acc2(t).len() > 0 by {
                        assert(entry_ids(before)[k as int] == target.0);
                        if t == target.0 {
                            assert(entry_ids(result@).contains(t));
                        } else {
                            assert(entry_ids(before).contains(t) <==> acc(t).len() > 0);
                        }
                    }
                }
            } else {
                let mut preds: Vec<(BlockId, JumpArg)> = Vec::new();
                preds.push((src, jump.duplicate()));
                result.push((target, preds));
                proof {
                    assert(entry_ids(result@) =~= entry_ids(before).push(target.0));
                    assert(!entry_ids(before).contains(target.0)) by {
                        if entry_ids(before).contains(target.0) {
                            let a = entry_ids(before).index_of(target.0);
                            assert(before[a].0.0 == target.0);
                        }
                    }
                    assert(acc(target.0).len() == 0);
                    assert forall|a: int| #![trigger result@[a]] 0 <= a < result@.len() implies preds_same(
                        result@[a].1@,
                        acc2(result@[a].0.0),
                    ) by {
                        if a < before.len() {
                            assert(result@[a] == before[a]);
                            assert(before[a].0.0 != target.0);
                        } else {
                            assert(acc2(target.0) =~= seq![(src, *jump)]);
                        }
                    }
                    assert forall|a: int, b: int| 0 <= a < b < result@.len() implies #[trigger] result@[a].0
                        != #[trigger] result@[b].0 by {
                        if b == before.len() {
                            assert(result@[a] == before[a]);
                            assert(before[a].0.0 != target.0);
                        } else {
                            assert(result@[a] == before[a]);
                            assert(result@[b] == before[b]);
                        }
                    }
                    assert forall|t: usize| #[trigger] entry_ids(result@).contains(t) <==> acc2(t).len() > 0 by {
                        if t == target.0 {
                            assert(entry_ids(result@)[before.len() as int] == t);
                            assert(acc2(t) == acc(t).push((src, *jump)));
                        } else {
                            assert(acc2(t) == acc(t));
                            assert(entry_ids(before).contains(t) <==> acc(t).len() > 0);
                            if entry_ids(result@).contains(t) {
                                let a = entry_ids(result@).index_of(t);
                                assert(entry_ids(before)[a] == t);
                            }
                            if entry_ids(before).contains(t) {
                                let a = entry_ids(before).index_of(t);
                                assert(entry_ids(result@)[a] == t);
                            }
                        }
                    }
                }
            }
            j = j + 1;
        }
        proof {
            assert(jumps@.take(j as int) =~= jumps@);
            assert(cfg@.take(i + 1).drop_last() =~= done);
            assert(cfg@.take(i + 1).last() == cfg@[i as int]);
            assert forall|t: usize| #[trigger] jumps_into(cfg@.take(i + 1), t) == jumps_into(done, t) + jumps_from(
                src,
                jumps@.take(j as int),
                t,
            ) by {}
        }
        i = i + 1;
    }
    proof {
        assert(cfg@.take(i as int) =~= cfg@);
    }
    result
}

} // verus!
