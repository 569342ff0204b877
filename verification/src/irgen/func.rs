//! The state of the translation of one C function: the numbering of blocks and temporaries, the
//! local allocations, the blocks finished so far and the scopes of names.
use vstd::prelude::*;

use crate::ir::code::{instruction_dtype, operand_dtype};
use crate::ir::dtype::{clone_name, fields_view};
use crate::ir::equiv::{block_ids, blocks_sorted};
use crate::ir::{Block, BlockExit, BlockId, Dtype, HasDtype, Instruction, Named, Operand, RegisterId};
use crate::irgen::IrgenErrorMessage;
use crate::utils::{decimal, push_decimal, StringMap};

verus! {

/// The instructions of a block under construction.
#[derive(Debug)]
pub struct Context {
    /// The id of the block.
    pub bid: BlockId,
    /// Its instructions so far.
    pub instrs: Vec<Named<Instruction>>,
}

impl Context {
    /// An empty block with id `bid`.
    pub fn new(bid: BlockId) -> (r: Self)
        ensures
            r.bid == bid,
            r.instrs@ == Seq::<Named<Instruction>>::empty(),
    {
        Context { bid, instrs: Vec::new() }
    }

    /// Appends `instr`, unnamed, and returns the register that holds its result, typed by the
    /// instruction's type.
    pub fn insert_instruction(&mut self, instr: Instruction) -> (r: Result<Operand, IrgenErrorMessage>)
        requires
            !(instr matches Instruction::Load { ptr } && !(operand_dtype(ptr) is Pointer)),
        ensures
            final(self).bid == old(self).bid,
            final(self).instrs@ == old(self).instrs@.push(Named { name: None, inner: instr }),
            r matches Ok(Operand::Register { rid, dtype }) && rid == (RegisterId::Temp {
                bid: old(self).bid,
                iid: old(self).instrs@.len() as usize,
            }) && dtype@ == instruction_dtype(instr),
    {
        let dtype = instr.dtype();
        self.instrs.push(Named { name: None, inner: instr });
        Ok(Operand::register(RegisterId::temp(self.bid, self.instrs.len() - 1), dtype))
    }
}

/// The translation of one function.
#[derive(Debug)]
pub struct IrgenFunc<'i> {
    /// The return type of the function.
    pub return_type: Dtype,
    /// The id of the entry block.
    pub bid_init: BlockId,
    /// The arguments, as the values the entry block receives, in the order of the parameters.
    pub phinodes_init: Vec<Named<Dtype>>,
    /// The local allocations.
    pub allocations: Vec<Named<Dtype>>,
    /// The finished blocks, in increasing order of id.
    pub blocks: Vec<(BlockId, Block)>,
    /// The next block id to hand out.
    pub bid_counter: usize,
    /// The next temporary number to hand out.
    pub tempid_counter: usize,
    /// The type definitions in scope.
    pub typedefs: &'i StringMap<Dtype>,
    /// The struct definitions in scope.
    pub structs: &'i StringMap<Option<Dtype>>,
    /// The scopes of names, innermost last; the outermost holds the global variables.
    pub symbol_table: Vec<StringMap<Operand>>,
}

/// `entered` is `before` with a new, empty innermost scope.
pub open spec fn scope_entered(before: Seq<StringMap<Operand>>, entered: Seq<StringMap<Operand>>) -> bool {
    &&& entered.len() == before.len() + 1
    &&& entered.drop_last() == before
    &&& entered.last().wf()
    &&& entered.last().spec_map() == Map::<Seq<char>, Operand>::empty()
}

/// `exited` is `before` without its innermost scope.
pub open spec fn scope_exited(before: Seq<StringMap<Operand>>, exited: Seq<StringMap<Operand>>) -> bool {
    before.len() > 0 && exited == before.drop_last()
}

/// Copies of a list of named types.
fn duplicate_named_dtypes(v: &Vec<Named<Dtype>>) -> (r: Vec<Named<Dtype>>)
    ensures
        fields_view(r@) == fields_view(v@),
{
    let mut out: Vec<Named<Dtype>> = Vec::new();
    let mut i: usize = 0;
    while i < v.len()
        invariant
            i <= v@.len(),
            fields_view(out@) == fields_view(v@.take(i as int)),
        decreases v@.len() - i,
    {
        let ghost before = out@;
        out.push(Named { name: clone_name(&v[i].name), inner: v[i].inner.duplicate() });
        assert(fields_view(out@) =~= fields_view(before).push(fields_view(v@)[i as int]));
        assert(v@.take(i + 1) =~= v@.take(i as int).push(v@[i as int]));
        assert(fields_view(v@.take(i + 1)) =~= fields_view(v@.take(i as int)).push(fields_view(v@)[i as int]));
        i = i + 1;
    }
    assert(v@.take(i as int) =~= v@);
    out
}

impl<'i> IrgenFunc<'i> {
    /// The blocks are in increasing order of id, and each scope names each name once.
    pub open spec fn wf(&self) -> bool {
        &&& blocks_sorted(self.blocks@)
        &&& forall|i: int| 0 <= i < self.symbol_table@.len() ==> #[trigger] self.symbol_table@[i].wf()
    }

    /// Hands out the next block id.
    pub fn alloc_bid(&mut self) -> (r: BlockId)
        requires
            old(self).bid_counter < usize::MAX,
        ensures
            r == BlockId(old(self).bid_counter),
            *final(self) == (IrgenFunc { bid_counter: (old(self).bid_counter + 1) as usize, ..*old(self) }),
    {
        let bid = self.bid_counter;
        self.bid_counter = self.bid_counter + 1;
        BlockId(bid)
    }

    /// Hands out the next temporary name: `t` and the next number.
    pub fn alloc_tempid(&mut self) -> (r: String)
        requires
            old(self).tempid_counter < usize::MAX,
        ensures
            r@ == seq!['t'] + decimal(old(self).tempid_counter as nat),
            *final(self) == (IrgenFunc { tempid_counter: (old(self).tempid_counter + 1) as usize, ..*old(self) }),
    {
        let tempid = self.tempid_counter;
        self.tempid_counter = self.tempid_counter + 1;
        let mut name = String::from_str("t");
        proof {
            reveal_strlit("t");
        }
        push_decimal(&mut name, tempid as u128);
        name
    }

    /// Adds a local allocation, and returns the register that points to it.
    pub fn insert_alloc(&mut self, alloc: Named<Dtype>) -> (r: RegisterId)
        ensures
            r == (RegisterId::Local { aid: old(self).allocations@.len() as usize }),
            final(self).allocations@ == old(self).allocations@.push(alloc),
            *final(self) == (IrgenFunc { allocations: final(self).allocations, ..*old(self) }),
    {
        self.allocations.push(alloc);
        RegisterId::local(self.allocations.len() - 1)
    }

    /// Finishes the block of `context` with `exit`; the entry block receives the arguments. It
    /// takes its place among the blocks by id.
    pub fn insert_block(&mut self, context: Context, exit: BlockExit)
        requires
            old(self).wf(),
            !block_ids(old(self).blocks@).contains(context.bid.0),
        ensures
            final(self).wf(),
            *final(self) == (IrgenFunc { blocks: final(self).blocks, ..*old(self) }),
            exists|p: int|
                0 <= p <= old(self).blocks@.len() && #[trigger] final(self).blocks@.remove(p) == old(self).blocks@
                    && final(self).blocks@[p].0 == context.bid && final(self).blocks@[p].1.instructions
                    == context.instrs && final(self).blocks@[p].1.exit == exit && fields_view(
                    final(self).blocks@[p].1.phinodes@,
                ) == (if context.bid == old(self).bid_init {
                    fields_view(old(self).phinodes_init@)
                } else {
                    Seq::empty()
                }),
    {
        let phinodes = if context.bid.0 == self.bid_init.0 {
            duplicate_named_dtypes(&self.phinodes_init)
        } else {
            let empty: Vec<Named<Dtype>> = Vec::new();
            assert(fields_view(empty@) =~= Seq::empty());
            empty
        };
        let bid = context.bid;
        let block = Block { phinodes, instructions: context.instrs, exit };
        let mut p: usize = 0;
        while p < self.blocks.len() && self.blocks[p].0.0 < bid.0
            invariant
                p <= self.blocks@.len(),
                forall|i: int| 0 <= i < p ==> #[trigger] self.blocks@[i].0.0 < bid.0,
            decreases self.blocks@.len() - p,
        {
            p = p + 1;
        }
        let ghost before = self.blocks@;
        proof {
            if p < before.len() {
                assert(block_ids(before)[p as int] == before[p as int].0.0);
                assert(before[p as int].0.0 != bid.0);
            }
        }
        self.blocks.insert(p, (bid, block));
        proof {
            assert(self.blocks@.remove(p as int) =~= before);
            assert forall|i: int, j: int| 0 <= i < j < self.blocks@.len() implies self.blocks@[i].0.0
                < self.blocks@[j].0.0 by {
                if j < p {
                } else if i < p && j == p {
                } else if i < p {
                    assert(self.blocks@[j] == before[j - 1]);
                    if j - 1 >= p {
                        assert(before[p as int].0.0 > bid.0);
                    }
                } else if i == p {
                    assert(self.blocks@[j] == before[j - 1]);
                    assert(before[p as int].0.0 > bid.0);
                    assert(before[p as int].0.0 <= before[j - 1].0.0);
                } else {
                    assert(self.blocks@[i] == before[i - 1]);
                    assert(self.blocks@[j] == before[j - 1]);
                }
            }
        }
    }

    /// Opens a new, empty innermost scope (a `{`).
    pub fn enter_scope(&mut self)
        requires
            old(self).wf(),
        ensures
            final(self).wf(),
            scope_entered(old(self).symbol_table@, final(self).symbol_table@),
            *final(self) == (IrgenFunc { symbol_table: final(self).symbol_table, ..*old(self) }),
    {
        self.symbol_table.push(StringMap::new());
        assert(self.symbol_table@.drop_last() =~= old(self).symbol_table@);
    }

    /// Closes the innermost scope (a `}`); the outermost one stays.
    pub fn exit_scope(&mut self)
        requires
            old(self).wf(),
            old(self).symbol_table@.len() > 1,
        ensures
            final(self).wf(),
            scope_exited(old(self).symbol_table@, final(self).symbol_table@),
            *final(self) == (IrgenFunc { symbol_table: final(self).symbol_table, ..*old(self) }),
    {
        let _unused = self.symbol_table.pop();
    }

    /// Stores `value` for `var` in the innermost scope. Where that scope already has `var`, the
    /// new value replaces the old one and the result is a redefinition error.
    pub fn insert_symbol_table_entry(&mut self, var: String, value: Operand) -> (r: Result<(), IrgenErrorMessage>)
        requires
            old(self).wf(),
            old(self).symbol_table@.len() > 0,
        ensures
            final(self).wf(),
            *final(self) == (IrgenFunc { symbol_table: final(self).symbol_table, ..*old(self) }),
            final(self).symbol_table@.len() == old(self).symbol_table@.len(),
            final(self).symbol_table@.drop_last() == old(self).symbol_table@.drop_last(),
            final(self).symbol_table@.last().spec_map() == old(self).symbol_table@.last().spec_map().insert(
                var@,
                value,
            ),
            r is Err <==> old(self).symbol_table@.last().spec_map().dom().contains(var@),
            r matches Err(e) ==> e == (IrgenErrorMessage::Redefinition { name: var }),
    {
        let mut cur_scope = self.symbol_table.pop().unwrap();
        assert(cur_scope == old(self).symbol_table@.last());
        assert(self.symbol_table@ == old(self).symbol_table@.drop_last());
        let previous = cur_scope.insert(var.clone(), value);
        self.symbol_table.push(cur_scope);
        assert(self.symbol_table@.drop_last() =~= old(self).symbol_table@.drop_last());
        if previous.is_some() {
            return Err(IrgenErrorMessage::Redefinition { name: var });
        }
        Ok(())
    }
}

/// Leaving the scope just entered gives back the scopes as they were.
pub proof fn lemma_exit_scope_undoes_enter(
    before: Seq<StringMap<Operand>>,
    entered: Seq<StringMap<Operand>>,
    exited: Seq<StringMap<Operand>>,
)
    requires
        scope_entered(before, entered),
        scope_exited(entered, exited),
    ensures
        exited == before,
{
}

} // verus!
