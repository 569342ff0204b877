//! The picture of a program in the DOT language: a cluster for each function and each of its
//! blocks, a node for each instruction and block exit, and edges for the order of
//! instructions, for jumps and for calls.
use vstd::prelude::*;

use super::code::{constant_text, Block, BlockExit, Constant, Instruction, JumpArg, Operand};
use super::dtype::dtype_text;
use super::equiv::{block_ids, block_of, blocks_sorted, find_block};
use super::write_ir::{exit_printable, exit_text, instruction_printable, instruction_text};
use super::{BlockId, Declaration, Dtype, FunctionDefinition, FunctionSignature, Named, RegisterId, TranslationUnit};
use crate::utils::{decimal, push_decimal, StringMap};
use crate::write_base::WriteString;

verus! {

/// The parts joined, `sep` between each two.
pub open spec fn joined(parts: Seq<Seq<char>>, sep: Seq<char>) -> Seq<char>
    decreases parts.len(),
{
    if parts.len() == 0 {
        Seq::empty()
    } else if parts.len() == 1 {
        parts[0]
    } else {
        joined(parts.drop_last(), sep) + sep + parts.last()
    }
}

/// The texts of strings.
pub open spec fn strings_view(v: Seq<String>) -> Seq<Seq<char>> {
    v.map_values(|s: String| s@)
}

/// A node of block `bid` of function `name`: `"name:b<bid><tail>"`.
pub open spec fn quoted_node(name: Seq<char>, bid: BlockId, tail: Seq<char>) -> Seq<char> {
    "\""@ + name + ":"@ + bid.text() + tail + "\""@
}

/// The node of instruction `iid`.
pub open spec fn instruction_node(name: Seq<char>, bid: BlockId, iid: nat) -> Seq<char> {
    quoted_node(name, bid, ":i"@ + decimal(iid))
}

/// The node of a block's exit.
pub open spec fn exit_node(name: Seq<char>, bid: BlockId) -> Seq<char> {
    quoted_node(name, bid, ":exit"@)
}

/// The node a block starts with: its first instruction, or its exit.
pub open spec fn block_first(name: Seq<char>, bid: BlockId, b: Block) -> Seq<char> {
    if b.instructions@.len() == 0 {
        exit_node(name, bid)
    } else {
        instruction_node(name, bid, 0)
    }
}

/// The lines of a block's cluster: its style and label, a node for each instruction and for
/// the exit, labelled with their text, and the chain of them in order.
pub open spec fn block_parts(name: Seq<char>, bid: BlockId, b: Block) -> Seq<Seq<char>> {
    let n = b.instructions@.len();
    seq!["style=filled;"@, "color=lightgrey;"@, "node [shape=record];"@, "label=\""@ + bid.text() + "\";"@]
        + Seq::new(
        n,
        |i: int|
            instruction_node(name, bid, i as nat) + " [label=\""@ + instruction_text(b.instructions@[i].inner)
                + "\"]"@,
    ) + seq![
        exit_node(name, bid) + " [label=\""@ + exit_text(b.exit) + "\"]"@,
        joined(Seq::new(n, |i: int| instruction_node(name, bid, i as nat)).push(exit_node(name, bid)), " -> "@),
    ]
}

/// The cluster of a block.
pub open spec fn block_graph(name: Seq<char>, bid: BlockId, b: Block) -> Seq<char> {
    "subgraph \"cluster."@ + name + "."@ + bid.text() + "\" {\n"@ + joined(block_parts(name, bid, b), "\n"@)
        + "\n}"@
}

/// The node that block `bid` of the listed blocks starts with.
pub open spec fn first_in(name: Seq<char>, blocks: Seq<(BlockId, Block)>, bid: BlockId) -> Seq<char> {
    block_first(name, bid, block_of(blocks, bid.0))
}

/// An edge from the exit of block `bid` to the start of the block of `arg`, with `attr` before
/// its end.
pub open spec fn jump_edge(name: Seq<char>, blocks: Seq<(BlockId, Block)>, bid: BlockId, arg: JumpArg, attr: Seq<char>) -> Seq<char> {
    exit_node(name, bid) + " -> "@ + first_in(name, blocks, arg.bid) + attr + ";"@
}

/// The edges of a block exit: to the target of a jump; to the targets of a conditional jump,
/// labelled `true` and `false`; to the default and each case of a switch, labelled `default`
/// and with the case's constant.
pub open spec fn exit_edges(name: Seq<char>, blocks: Seq<(BlockId, Block)>, bid: BlockId, e: BlockExit) -> Seq<Seq<char>> {
    match e {
        BlockExit::Jump { arg } => seq![jump_edge(name, blocks, bid, arg, ""@)],
        BlockExit::ConditionalJump { arg_then, arg_else, .. } => seq![
            jump_edge(name, blocks, bid, *arg_then, " [label=\"true\"]"@),
            jump_edge(name, blocks, bid, *arg_else, " [label=\"false\"]"@),
        ],
        BlockExit::Switch { default, cases, .. } => seq![
            jump_edge(name, blocks, bid, *default, " [label=\"default\"]"@),
        ] + Seq::new(
            cases@.len(),
            |i: int| jump_edge(name, blocks, bid, cases@[i].1, " [label=\""@ + constant_text(cases@[i].0) + "\"]"@),
        ),
        _ => seq![],
    }
}

/// A conditional jump draws two edges from the exit of its block: the one labelled `true` to
/// the first node of the block that `arg_then` jumps to, the one labelled `false` to the first
/// node of the block that `arg_else` jumps to.
pub proof fn lemma_branch_edges(
    name: Seq<char>,
    blocks: Seq<(BlockId, Block)>,
    bid: BlockId,
    condition: Operand,
    arg_then: JumpArg,
    arg_else: JumpArg,
)
    ensures
        ({
            let es = exit_edges(
                name,
                blocks,
                bid,
                BlockExit::ConditionalJump { condition, arg_then: Box::new(arg_then), arg_else: Box::new(arg_else) },
            );
            &&& es.len() == 2
            &&& es.contains(
                exit_node(name, bid) + " -> "@ + first_in(name, blocks, arg_then.bid) + " [label=\"true\"]"@ + ";"@,
            )
            &&& es.contains(
                exit_node(name, bid) + " -> "@ + first_in(name, blocks, arg_else.bid) + " [label=\"false\"]"@ + ";"@,
            )
        }),
{
    let es = exit_edges(
        name,
        blocks,
        bid,
        BlockExit::ConditionalJump { condition, arg_then: Box::new(arg_then), arg_else: Box::new(arg_else) },
    );
    assert(es[0] == exit_node(name, bid) + " -> "@ + first_in(name, blocks, arg_then.bid) + " [label=\"true\"]"@ + ";"@);
    assert(es[1] == exit_node(name, bid) + " -> "@ + first_in(name, blocks, arg_else.bid) + " [label=\"false\"]"@ + ";"@);
}

/// A jump draws one edge, unlabelled, from the exit of its block to the first node of the block
/// it jumps to; a return and an unreachable end draw none.
pub proof fn lemma_jump_edges(name: Seq<char>, blocks: Seq<(BlockId, Block)>, bid: BlockId, e: BlockExit)
    ensures
        e matches BlockExit::Jump { arg } ==> exit_edges(name, blocks, bid, e) == seq![
            exit_node(name, bid) + " -> "@ + first_in(name, blocks, arg.bid) + ""@ + ";"@,
        ],
        e is Return || e is Unreachable ==> exit_edges(name, blocks, bid, e).len() == 0,
{
}

/// A switch draws an edge labelled `default` to the first node of its default block, then, for
/// each case in order, an edge labelled with the case's constant to the first node of the
/// case's block.
pub proof fn lemma_switch_edges(name: Seq<char>, blocks: Seq<(BlockId, Block)>, bid: BlockId, e: BlockExit)
    requires
        e is Switch,
    ensures
        e matches BlockExit::Switch { default, cases, .. } ==> {
            let es = exit_edges(name, blocks, bid, e);
            &&& es.len() == cases@.len() + 1
            &&& es[0] == exit_node(name, bid) + " -> "@ + first_in(name, blocks, default.bid)
                + " [label=\"default\"]"@ + ";"@
            &&& forall|i: int|
                0 <= i < cases@.len() ==> es[i + 1] == exit_node(name, bid) + " -> "@ + first_in(
                    name,
                    blocks,
                    (#[trigger] cases@[i]).1.bid,
                ) + (" [label=\""@ + constant_text(cases@[i].0) + "\"]"@) + ";"@
        },
{
}

/// The exit edges of the blocks in `upto`, in order, jumping among `blocks`.
pub open spec fn all_exit_edges(name: Seq<char>, blocks: Seq<(BlockId, Block)>, upto: Seq<(BlockId, Block)>) -> Seq<
    Seq<char>,
>
    decreases upto.len(),
{
    if upto.len() == 0 {
        seq![]
    } else {
        all_exit_edges(name, blocks, upto.drop_last()) + exit_edges(name, blocks, upto.last().0, upto.last().1.exit)
    }
}

/// The label of a function's cluster: `fun <ret> @name (<params>)`.
pub open spec fn signature_label(name: Seq<char>, sig: FunctionSignature) -> Seq<char> {
    "label=\"fun "@ + dtype_text(sig.ret@) + " @"@ + name + " ("@ + joined(
        sig.params@.map_values(|d: Dtype| dtype_text(d@)),
        ", "@,
    ) + ")\";"@
}

/// The cluster of a function: the clusters of its blocks, its label and the edges of its
/// block exits.
pub open spec fn function_graph(name: Seq<char>, sig: FunctionSignature, def: FunctionDefinition) -> Seq<char> {
    "subgraph \"cluster."@ + name + "\" {\n"@ + joined(
        def.blocks@.map_values(|e: (BlockId, Block)| block_graph(name, e.0, e.1)) + seq![signature_label(name, sig)]
            + all_exit_edges(name, def.blocks@, def.blocks@),
        "\n"@,
    ) + "\n}"@
}

/// The clusters of the defined functions among declarations, in order.
pub open spec fn function_graphs(es: Seq<(String, Declaration)>) -> Seq<Seq<char>>
    decreases es.len(),
{
    if es.len() == 0 {
        seq![]
    } else {
        function_graphs(es.drop_last()) + match es.last().1 {
            Declaration::Function { signature, definition: Some(def) } => seq![
                function_graph(es.last().0@, signature, def),
            ],
            _ => seq![],
        }
    }
}

/// The node a defined function starts with.
pub open spec fn function_first(decls: StringMap<Declaration>, g: Seq<char>) -> Seq<char> {
    match decls.spec_map()[g] {
        Declaration::Function { definition: Some(def), .. } => first_in(g, def.blocks@, def.bid_init),
        _ => seq![],
    }
}

/// Where a call edge goes: to the start of a called global function, or to the node of the
/// instruction whose result is called.
pub open spec fn callee_target(decls: StringMap<Declaration>, name: Seq<char>, callee: Operand) -> Seq<char> {
    match callee {
        Operand::Constant(Constant::GlobalVariable { name: g, .. }) => function_first(decls, g@),
        Operand::Register { rid: RegisterId::Temp { bid, iid }, .. } => instruction_node(name, bid, iid as nat),
        _ => seq![],
    }
}

/// The call edges of the instructions of block `bid`, in order.
pub open spec fn block_call_edges(decls: StringMap<Declaration>, name: Seq<char>, bid: BlockId, is: Seq<Named<Instruction>>) -> Seq<
    Seq<char>,
>
    decreases is.len(),
{
    if is.len() == 0 {
        seq![]
    } else {
        block_call_edges(decls, name, bid, is.drop_last()) + match is.last().inner {
            Instruction::Call { callee, .. } => seq![
                instruction_node(name, bid, (is.len() - 1) as nat) + " -> "@ + callee_target(decls, name, callee)
                    + ";"@,
            ],
            _ => seq![],
        }
    }
}

/// The call edges of blocks, in order.
pub open spec fn blocks_call_edges(decls: StringMap<Declaration>, name: Seq<char>, bs: Seq<(BlockId, Block)>) -> Seq<
    Seq<char>,
>
    decreases bs.len(),
{
    if bs.len() == 0 {
        seq![]
    } else {
        blocks_call_edges(decls, name, bs.drop_last()) + block_call_edges(
            decls,
            name,
            bs.last().0,
            bs.last().1.instructions@,
        )
    }
}

/// The call edges of the defined functions among declarations, in order.
pub open spec fn call_edges(decls: StringMap<Declaration>, es: Seq<(String, Declaration)>) -> Seq<Seq<char>>
    decreases es.len(),
{
    if es.len() == 0 {
        seq![]
    } else {
        call_edges(decls, es.drop_last()) + match es.last().1 {
            Declaration::Function { definition: Some(def), .. } => blocks_call_edges(decls, es.last().0@, def.blocks@),
            _ => seq![],
        }
    }
}

/// The DOT text of a program: the clusters of its defined functions, then the call edges.
pub open spec fn dot_text(tu: TranslationUnit) -> Seq<char> {
    "digraph G {\n"@ + joined(
        function_graphs(tu.decls.spec_entries()) + call_edges(tu.decls, tu.decls.spec_entries()),
        "\n"@,
    ) + "\n}"@
}

/// A jump of a function can be drawn: its target block is one of the function's.
pub open spec fn jump_drawable(blocks: Seq<(BlockId, Block)>, arg: JumpArg) -> bool {
    block_ids(blocks).contains(arg.bid.0)
}

/// A block exit can be drawn: it can be written and its targets are blocks of the function.
pub open spec fn exit_drawable(blocks: Seq<(BlockId, Block)>, e: BlockExit) -> bool {
    &&& exit_printable(e)
    &&& match e {
        BlockExit::Jump { arg } => jump_drawable(blocks, arg),
        BlockExit::ConditionalJump { arg_then, arg_else, .. } => jump_drawable(blocks, *arg_then) && jump_drawable(
            blocks,
            *arg_else,
        ),
        BlockExit::Switch { default, cases, .. } => jump_drawable(blocks, *default) && forall|i: int|
            0 <= i < cases@.len() ==> jump_drawable(blocks, #[trigger] cases@[i].1),
        _ => true,
    }
}

/// A callee can be drawn: it is a global function with a definition, or a temporary register.
pub open spec fn callee_drawable(decls: StringMap<Declaration>, callee: Operand) -> bool {
    match callee {
        Operand::Constant(Constant::GlobalVariable { name: g, .. }) => decls.spec_map().contains_key(g@)
            && is_defined_function(decls.spec_map()[g@]),
        Operand::Register { rid: RegisterId::Temp { .. }, .. } => true,
        _ => false,
    }
}

/// An instruction that is a call has a callee that can be drawn.
pub open spec fn call_drawable(decls: StringMap<Declaration>, i: Instruction) -> bool {
    match i {
        Instruction::Call { callee, .. } => callee_drawable(decls, callee),
        _ => true,
    }
}

/// The blocks of a function definition can be drawn: they are sorted by id, the initial block
/// is one of them, and each instruction and exit can be written, and each jump goes to one of
/// them.
pub open spec fn blocks_drawable(def: FunctionDefinition) -> bool {
    &&& blocks_sorted(def.blocks@)
    &&& block_ids(def.blocks@).contains(def.bid_init.0)
    &&& forall|k: int|
        0 <= k < def.blocks@.len() ==> {
            let b = #[trigger] def.blocks@[k].1;
            &&& exit_drawable(def.blocks@, b.exit)
            &&& forall|i: int|
                0 <= i < b.instructions@.len() ==> instruction_printable(#[trigger] b.instructions@[i].inner)
        }
}

/// A function definition can be drawn: its blocks can, and each callee can.
pub open spec fn definition_drawable(decls: StringMap<Declaration>, def: FunctionDefinition) -> bool {
    &&& blocks_drawable(def)
    &&& forall|k: int, i: int|
        0 <= k < def.blocks@.len() && 0 <= i < def.blocks@[k].1.instructions@.len() ==> call_drawable(
            decls,
            #[trigger] def.blocks@[k].1.instructions@[i].inner,
        )
}

/// A program can be drawn: each defined function can.
pub open spec fn drawable(tu: TranslationUnit) -> bool {
    &&& tu.decls.wf()
    &&& forall|k: int|
        0 <= k < tu.decls.spec_entries().len() ==> declaration_drawable(tu.decls, (#[trigger] tu.decls.spec_entries()[k]).1)
}

/// A declaration can be drawn: it is no function with a definition, or its definition can.
pub open spec fn declaration_drawable(decls: StringMap<Declaration>, d: Declaration) -> bool {
    match d {
        Declaration::Function { definition: Some(def), .. } => definition_drawable(decls, def),
        _ => true,
    }
}

/// A declaration is a function with a definition.
pub open spec fn is_defined_function(d: Declaration) -> bool {
    d matches Declaration::Function { definition: Some(_), .. }
}

/// Joining one more part adds the separator, unless it is the first.
proof fn lemma_joined_push(parts: Seq<Seq<char>>, p: Seq<char>, sep: Seq<char>)
    ensures
        joined(parts.push(p), sep) == if parts.len() == 0 {
            p
        } else {
            joined(parts, sep) + sep + p
        },
{
    assert(parts.push(p).drop_last() =~= parts);
}

/// The strings joined, `sep` between each two.
fn join_strings(parts: &Vec<String>, sep: &str) -> (r: String)
    ensures
        r@ == joined(strings_view(parts@), sep@),
{
    let mut out = String::new();
    let mut i: usize = 0;
    proof {
        reveal_strlit("");
        assert(strings_view(parts@).take(0) =~= Seq::<Seq<char>>::empty());
    }
    while i < parts.len()
        invariant
            i <= parts@.len(),
            out@ == joined(strings_view(parts@).take(i as int), sep@),
        decreases parts@.len() - i,
    {
        if i > 0 {
            out.append(sep);
        }
        out.append(parts[i].as_str());
        proof {
            lemma_joined_push(strings_view(parts@).take(i as int), parts@[i as int]@, sep@);
            assert(strings_view(parts@).take(i + 1) =~= strings_view(parts@).take(i as int).push(parts@[i as int]@));
        }
        i = i + 1;
    }
    assert(strings_view(parts@).take(i as int) =~= strings_view(parts@));
    out
}

/// The text `"name:b<bid><tail>"`.
fn node_string(name: &String, bid: BlockId, tail: &String) -> (r: String)
    ensures
        r@ == quoted_node(name@, bid, tail@),
{
    let mut s = String::from_str("\"");
    s.append(name.as_str());
    s.append(":");
    let b = bid.to_string();
    s.append(b.as_str());
    s.append(tail.as_str());
    s.append("\"");
    proof {
        reveal_strlit("\"");
        reveal_strlit(":");
    }
    assert(s@ =~= quoted_node(name@, bid, tail@));
    s
}

/// The node of instruction `iid` of block `bid`.
fn instruction_node_string(name: &String, bid: BlockId, iid: usize) -> (r: String)
    ensures
        r@ == instruction_node(name@, bid, iid as nat),
{
    let mut tail = String::from_str(":i");
    push_decimal(&mut tail, iid as u128);
    proof {
        reveal_strlit(":i");
    }
    node_string(name, bid, &tail)
}

/// The node of the exit of block `bid`.
fn exit_node_string(name: &String, bid: BlockId) -> (r: String)
    ensures
        r@ == exit_node(name@, bid),
{
    let tail = String::from_str(":exit");
    proof {
        reveal_strlit(":exit");
    }
    node_string(name, bid, &tail)
}

/// The node block `bid` starts with.
fn block_first_string(name: &String, bid: BlockId, b: &Block) -> (r: String)
    ensures
        r@ == block_first(name@, bid, *b),
{
    if b.instructions.len() == 0 {
        exit_node_string(name, bid)
    } else {
        instruction_node_string(name, bid, 0)
    }
}

/// `a`, then `b`, then `c`.
fn concat3(a: &str, b: &str, c: &str) -> (r: String)
    ensures
        r@ == a@ + b@ + c@,
{
    let mut s = String::from_str(a);
    s.append(b);
    s.append(c);
    s
}

/// The cluster of block `bid`.
fn block_graph_string(name: &String, bid: BlockId, b: &Block) -> (r: String)
    requires
        exit_printable(b.exit),
        forall|i: int| 0 <= i < b.instructions@.len() ==> instruction_printable(#[trigger] b.instructions@[i].inner),
    ensures
        r@ == block_graph(name@, bid, *b),
{
    proof {
        reveal_strlit("style=filled;");
        reveal_strlit("color=lightgrey;");
        reveal_strlit("node [shape=record];");
        reveal_strlit("label=\"");
        reveal_strlit("\";");
        reveal_strlit(" [label=\"");
        reveal_strlit("\"]");
        reveal_strlit(" -> ");
        reveal_strlit("subgraph \"cluster.");
        reveal_strlit(".");
        reveal_strlit("\" {\n");
        reveal_strlit("\n");
        reveal_strlit("\n}");
    }
    let n = b.instructions.len();
    let mut parts: Vec<String> = Vec::new();
    parts.push(String::from_str("style=filled;"));
    parts.push(String::from_str("color=lightgrey;"));
    parts.push(String::from_str("node [shape=record];"));
    let bt = bid.to_string();
    parts.push(concat3("label=\"", bt.as_str(), "\";"));
    let mut chain: Vec<String> = Vec::new();
    let mut i: usize = 0;
    while i < n
        invariant
            n == b.instructions@.len(),
            forall|j: int| 0 <= j < n ==> instruction_printable(#[trigger] b.instructions@[j].inner),
            i <= n,
            strings_view(parts@) == seq![
                "style=filled;"@,
                "color=lightgrey;"@,
                "node [shape=record];"@,
                "label=\""@ + bid.text() + "\";"@,
            ] + Seq::new(
                i as nat,
                |j: int|
                    instruction_node(name@, bid, j as nat) + " [label=\""@ + instruction_text(
                        b.instructions@[j].inner,
                    ) + "\"]"@,
            ),
            strings_view(chain@) == Seq::new(i as nat, |j: int| instruction_node(name@, bid, j as nat)),
        decreases n - i,
    {
        let node = instruction_node_string(name, bid, i);
        let text = b.instructions[i].inner.write_string();
        let mut line = concat3(node.as_str(), " [label=\"", text.as_str());
        line.append("\"]");
        let ghost pv = strings_view(parts@);
        let ghost cv = strings_view(chain@);
        let ghost lv = line@;
        let ghost nv = node@;
        parts.push(line);
        chain.push(node);
        proof {
            assert(strings_view(parts@) =~= pv.push(lv));
            assert(strings_view(chain@) =~= cv.push(nv));
        }
        i = i + 1;
        proof {
            assert(strings_view(parts@) =~= seq![
                "style=filled;"@,
                "color=lightgrey;"@,
                "node [shape=record];"@,
                "label=\""@ + bid.text() + "\";"@,
            ] + Seq::new(
                i as nat,
                |j: int|
                    instruction_node(name@, bid, j as nat) + " [label=\""@ + instruction_text(
                        b.instructions@[j].inner,
                    ) + "\"]"@,
            ));
            assert(strings_view(chain@) =~= Seq::new(i as nat, |j: int| instruction_node(name@, bid, j as nat)));
        }
    }
    let en = exit_node_string(name, bid);
    let et = b.exit.write_string();
    let mut line = concat3(en.as_str(), " [label=\"", et.as_str());
    line.append("\"]");
    parts.push(line);
    chain.push(en);
    let ch = join_strings(&chain, " -> ");
    parts.push(ch);
    proof {
        assert(strings_view(chain@) =~= Seq::new(n as nat, |j: int| instruction_node(name@, bid, j as nat)).push(
            exit_node(name@, bid),
        ));
        assert(strings_view(parts@) =~= block_parts(name@, bid, *b));
    }
    let inner = join_strings(&parts, "\n");
    let mut s = String::from_str("subgraph \"cluster.");
    s.append(name.as_str());
    s.append(".");
    s.append(bt.as_str());
    s.append("\" {\n");
    s.append(inner.as_str());
    s.append("\n}");
    assert(s@ =~= block_graph(name@, bid, *b));
    s
}


/// The edge from the exit of block `bid` to the start of the block of `arg`.
fn jump_edge_string(name: &String, blocks: &Vec<(BlockId, Block)>, bid: BlockId, arg: &JumpArg, attr: &str) -> (r: String)
    requires
        blocks_sorted(blocks@),
        jump_drawable(blocks@, *arg),
    ensures
        r@ == jump_edge(name@, blocks@, bid, *arg, attr@),
{
    let from = exit_node_string(name, bid);
    let target = find_block(blocks, arg.bid);
    let to = block_first_string(name, arg.bid, target);
    let mut s = concat3(from.as_str(), " -> ", to.as_str());
    s.append(attr);
    s.append(";");
    proof {
        reveal_strlit(" -> ");
        reveal_strlit(";");
    }
    assert(s@ =~= jump_edge(name@, blocks@, bid, *arg, attr@));
    s
}

/// The edges of the exit of block `bid`.
fn exit_edge_parts(name: &String, blocks: &Vec<(BlockId, Block)>, bid: BlockId, e: &BlockExit) -> (r: Vec<String>)
    requires
        blocks_sorted(blocks@),
        exit_drawable(blocks@, *e),
    ensures
        strings_view(r@) == exit_edges(name@, blocks@, bid, *e),
{
    proof {
        reveal_strlit("");
        reveal_strlit(" [label=\"true\"]");
        reveal_strlit(" [label=\"false\"]");
        reveal_strlit(" [label=\"default\"]");
        reveal_strlit(" [label=\"");
        reveal_strlit("\"]");
    }
    let mut r: Vec<String> = Vec::new();
    match e {
        BlockExit::Jump { arg } => {
            r.push(jump_edge_string(name, blocks, bid, arg, ""));
        },
        BlockExit::ConditionalJump { arg_then, arg_else, .. } => {
            r.push(jump_edge_string(name, blocks, bid, arg_then, " [label=\"true\"]"));
            r.push(jump_edge_string(name, blocks, bid, arg_else, " [label=\"false\"]"));
        },
        BlockExit::Switch { default, cases, .. } => {
            r.push(jump_edge_string(name, blocks, bid, default, " [label=\"default\"]"));
            let mut i: usize = 0;
            while i < cases.len()
                invariant
                    blocks_sorted(blocks@),
                    exit_drawable(blocks@, *e),
                    *e == (BlockExit::Switch { value: e->Switch_value, default: *default, cases: *cases }),
                    i <= cases@.len(),
                    strings_view(r@) == seq![jump_edge(name@, blocks@, bid, **default, " [label=\"default\"]"@)]
                        + Seq::new(
                        i as nat,
                        |j: int|
                            jump_edge(
                                name@,
                                blocks@,
                                bid,
                                cases@[j].1,
                                " [label=\""@ + constant_text(cases@[j].0) + "\"]"@,
                            ),
                    ),
                decreases cases@.len() - i,
            {
                let mut attr = String::from_str(" [label=\"");
                cases[i].0.push_text(&mut attr);
                attr.append("\"]");
                assert(jump_drawable(blocks@, cases@[i as int].1));
                let line = jump_edge_string(name, blocks, bid, &cases[i].1, attr.as_str());
                let ghost pv = strings_view(r@);
                let ghost lv = line@;
                r.push(line);
                proof {
                    assert(strings_view(r@) =~= pv.push(lv));
                }
                i = i + 1;
                assert(strings_view(r@) =~= seq![jump_edge(name@, blocks@, bid, **default, " [label=\"default\"]"@)]
                    + Seq::new(
                    i as nat,
                    |j: int|
                        jump_edge(name@, blocks@, bid, cases@[j].1, " [label=\""@ + constant_text(cases@[j].0) + "\"]"@),
                ));
            }
        },
        _ => {},
    }
    assert(strings_view(r@) =~= exit_edges(name@, blocks@, bid, *e));
    r
}

/// The cluster of a function.
fn function_graph_string(name: &String, sig: &FunctionSignature, def: &FunctionDefinition) -> (r: String)
    requires
        blocks_drawable(*def),
    ensures
        r@ == function_graph(name@, *sig, *def),
{
    proof {
        reveal_strlit("");
        reveal_strlit("label=\"fun ");
        reveal_strlit(" @");
        reveal_strlit(" (");
        reveal_strlit(")\";");
        reveal_strlit(", ");
        reveal_strlit("subgraph \"cluster.");
        reveal_strlit("\" {\n");
        reveal_strlit("\n");
        reveal_strlit("\n}");
    }
    let blocks = &def.blocks;
    let mut parts: Vec<String> = Vec::new();
    let mut i: usize = 0;
    while i < blocks.len()
        invariant
            blocks_drawable(*def),
            *blocks == def.blocks,
            i <= blocks@.len(),
            strings_view(parts@) == blocks@.take(i as int).map_values(
                |e: (BlockId, Block)| block_graph(name@, e.0, e.1),
            ),
        decreases blocks@.len() - i,
    {
        let b = &blocks[i].1;
        assert(exit_drawable(blocks@, blocks@[i as int].1.exit));
        let g = block_graph_string(name, blocks[i].0, b);
        let ghost pv = strings_view(parts@);
        let ghost gv = g@;
        parts.push(g);
        proof {
            assert(strings_view(parts@) =~= pv.push(gv));
        }
        i = i + 1;
        assert(strings_view(parts@) =~= blocks@.take(i as int).map_values(
            |e: (BlockId, Block)| block_graph(name@, e.0, e.1),
        ));
    }
    assert(blocks@.take(i as int) =~= blocks@);
    let mut params: Vec<String> = Vec::new();
    let mut k: usize = 0;
    while k < sig.params.len()
        invariant
            k <= sig.params@.len(),
            strings_view(params@) == sig.params@.take(k as int).map_values(|d: Dtype| dtype_text(d@)),
        decreases sig.params@.len() - k,
    {
        let t = sig.params[k].to_string();
        let ghost pv = strings_view(params@);
        let ghost tv = t@;
        params.push(t);
        proof {
            assert(strings_view(params@) =~= pv.push(tv));
        }
        k = k + 1;
        assert(strings_view(params@) =~= sig.params@.take(k as int).map_values(|d: Dtype| dtype_text(d@)));
    }
    assert(sig.params@.take(k as int) =~= sig.params@);
    let ps = join_strings(&params, ", ");
    let ret = sig.ret.to_string();
    let mut label = concat3("label=\"fun ", ret.as_str(), " @");
    label.append(name.as_str());
    label.append(" (");
    label.append(ps.as_str());
    label.append(")\";");
    assert(label@ =~= signature_label(name@, *sig));
    let ghost pv = strings_view(parts@);
    let ghost lv = label@;
    parts.push(label);
    proof {
        assert(strings_view(parts@) =~= pv.push(lv));
    }
    let mut j: usize = 0;
    while j < blocks.len()
        invariant
            blocks_drawable(*def),
            *blocks == def.blocks,
            j <= blocks@.len(),
            strings_view(parts@) == blocks@.map_values(|e: (BlockId, Block)| block_graph(name@, e.0, e.1)) + seq![
                signature_label(name@, *sig),
            ] + all_exit_edges(name@, blocks@, blocks@.take(j as int)),
        decreases blocks@.len() - j,
    {
        assert(exit_drawable(blocks@, blocks@[j as int].1.exit));
        let mut es = exit_edge_parts(name, blocks, blocks[j].0, &blocks[j].1.exit);
        let ghost pv = strings_view(parts@);
        let ghost ev = strings_view(es@);
        parts.append(&mut es);
        proof {
            assert(strings_view(parts@) =~= pv + ev);
            assert(blocks@.take(j + 1).drop_last() =~= blocks@.take(j as int));
            assert(blocks@.take(j + 1).last() == blocks@[j as int]);
        }
        j = j + 1;
    }
    assert(blocks@.take(j as int) =~= blocks@);
    let inner = join_strings(&parts, "\n");
    let mut s = String::from_str("subgraph \"cluster.");
    s.append(name.as_str());
    s.append("\" {\n");
    s.append(inner.as_str());
    s.append("\n}");
    assert(s@ =~= function_graph(name@, *sig, *def));
    s
}


/// Every declaration of the table can be drawn.
pub open spec fn table_drawable(decls: StringMap<Declaration>) -> bool {
    &&& decls.wf()
    &&& forall|g: Seq<char>| decls.spec_map().contains_key(g) ==> declaration_drawable(decls, #[trigger] decls.spec_map()[g])
}

/// Where a call edge from function `name` goes.
fn callee_target_string(decls: &StringMap<Declaration>, name: &String, callee: &Operand) -> (r: String)
    requires
        table_drawable(*decls),
        callee_drawable(*decls, *callee),
    ensures
        r@ == callee_target(*decls, name@, *callee),
{
    proof {
        reveal_strlit("");
    }
    match callee {
        Operand::Constant(Constant::GlobalVariable { name: g, .. }) => {
            let d = decls.get(g).unwrap();
            assert(declaration_drawable(*decls, decls.spec_map()[g@]));
            match d {
                Declaration::Function { definition: Some(def), .. } => {
                    let target = find_block(&def.blocks, def.bid_init);
                    block_first_string(g, def.bid_init, target)
                },
                _ => String::new(),
            }
        },
        Operand::Register { rid: RegisterId::Temp { bid, iid }, .. } => instruction_node_string(name, *bid, *iid),
        _ => String::new(),
    }
}

/// The call edges of function `name`.
fn call_edge_parts(decls: &StringMap<Declaration>, name: &String, def: &FunctionDefinition) -> (r: Vec<String>)
    requires
        table_drawable(*decls),
        definition_drawable(*decls, *def),
    ensures
        strings_view(r@) == blocks_call_edges(*decls, name@, def.blocks@),
{
    proof {
        reveal_strlit(" -> ");
        reveal_strlit(";");
    }
    let blocks = &def.blocks;
    let mut r: Vec<String> = Vec::new();
    let mut k: usize = 0;
    assert(blocks@.take(0) =~= Seq::<(BlockId, Block)>::empty());
    while k < blocks.len()
        invariant
            table_drawable(*decls),
            definition_drawable(*decls, *def),
            *blocks == def.blocks,
            k <= blocks@.len(),
            strings_view(r@) == blocks_call_edges(*decls, name@, blocks@.take(k as int)),
        decreases blocks@.len() - k,
    {
        let bid = blocks[k].0;
        let is = &blocks[k].1.instructions;
        let ghost before = strings_view(r@);
        let mut i: usize = 0;
        assert(is@.take(0) =~= Seq::<Named<Instruction>>::empty());
        while i < is.len()
            invariant
                table_drawable(*decls),
                definition_drawable(*decls, *def),
                *blocks == def.blocks,
                k < blocks@.len(),
                *is == blocks@[k as int].1.instructions,
                bid == blocks@[k as int].0,
                i <= is@.len(),
                strings_view(r@) == before + block_call_edges(*decls, name@, bid, is@.take(i as int)),
            decreases is@.len() - i,
        {
            proof {
                assert(is@.take(i + 1).drop_last() =~= is@.take(i as int));
                assert(is@.take(i + 1).last() == is@[i as int]);
                assert(call_drawable(*decls, def.blocks@[k as int].1.instructions@[i as int].inner));
            }
            match &is[i].inner {
                Instruction::Call { callee, .. } => {
                    let from = instruction_node_string(name, bid, i);
                    let to = callee_target_string(decls, name, callee);
                    let mut line = concat3(from.as_str(), " -> ", to.as_str());
                    line.append(";");
                    let ghost pv = strings_view(r@);
                    let ghost lv = line@;
                    r.push(line);
                    proof {
                        assert(strings_view(r@) =~= pv.push(lv));
                    }
                },
                _ => {},
            }
            i = i + 1;
            assert(strings_view(r@) =~= before + block_call_edges(*decls, name@, bid, is@.take(i as int)));
        }
        proof {
            assert(is@.take(i as int) =~= is@);
            assert(blocks@.take(k + 1).drop_last() =~= blocks@.take(k as int));
            assert(blocks@.take(k + 1).last() == blocks@[k as int]);
        }
        k = k + 1;
    }
    assert(blocks@.take(k as int) =~= blocks@);
    r
}

/// The picture of a program in the DOT language (see `dot_text`): a cluster for each function
/// with a definition, holding a cluster for each of its blocks, in the order of the tables,
/// then an edge for each call.
pub fn visualize(tu: &TranslationUnit) -> (r: Result<String, ()>)
    requires
        drawable(*tu),
    ensures
        r matches Ok(s) && s@ == dot_text(*tu),
{
    proof {
        reveal_strlit("digraph G {\n");
        reveal_strlit("\n");
        reveal_strlit("\n}");
    }
    let decls = &tu.decls;
    proof {
        assert forall|g: Seq<char>| decls.spec_map().contains_key(g) implies declaration_drawable(
            *decls,
            #[trigger] decls.spec_map()[g],
        ) by {
            let k = decls.spec_index_of(g);
            assert(decls.spec_map()[g] == decls.spec_entries()[k].1);
            assert(declaration_drawable(*decls, decls.spec_entries()[k].1));
        }
    }
    let n = decls.len();
    let mut parts: Vec<String> = Vec::new();
    let mut i: usize = 0;
    assert(decls.spec_entries().take(0) =~= Seq::<(String, Declaration)>::empty());
    while i < n
        invariant
            drawable(*tu),
            table_drawable(*decls),
            *decls == tu.decls,
            n == decls.spec_entries().len(),
            i <= n,
            strings_view(parts@) == function_graphs(decls.spec_entries().take(i as int)),
        decreases n - i,
    {
        let (name, d) = decls.entry(i);
        proof {
            assert(decls.spec_entries().take(i + 1).drop_last() =~= decls.spec_entries().take(i as int));
            assert(decls.spec_entries().take(i + 1).last() == decls.spec_entries()[i as int]);
            assert(declaration_drawable(*decls, decls.spec_entries()[i as int].1));
        }
        match d {
            Declaration::Function { signature, definition: Some(def) } => {
                let g = function_graph_string(name, signature, def);
                let ghost pv = strings_view(parts@);
                let ghost gv = g@;
                parts.push(g);
                proof {
                    assert(strings_view(parts@) =~= pv.push(gv));
                }
            },
            _ => {},
        }
        i = i + 1;
        assert(strings_view(parts@) =~= function_graphs(decls.spec_entries().take(i as int)));
    }
    assert(decls.spec_entries().take(i as int) =~= decls.spec_entries());
    let ghost graphs = strings_view(parts@);
    let mut j: usize = 0;
    while j < n
        invariant
            drawable(*tu),
            table_drawable(*decls),
            *decls == tu.decls,
            n == decls.spec_entries().len(),
            j <= n,
            strings_view(parts@) == graphs + call_edges(*decls, decls.spec_entries().take(j as int)),
        decreases n - j,
    {
        let (name, d) = decls.entry(j);
        proof {
            assert(decls.spec_entries().take(j + 1).drop_last() =~= decls.spec_entries().take(j as int));
            assert(decls.spec_entries().take(j + 1).last() == decls.spec_entries()[j as int]);
            assert(declaration_drawable(*decls, decls.spec_entries()[j as int].1));
        }
        match d {
            Declaration::Function { definition: Some(def), .. } => {
                let mut es = call_edge_parts(decls, name, def);
                let ghost pv = strings_view(parts@);
                let ghost ev = strings_view(es@);
                parts.append(&mut es);
                proof {
                    assert(strings_view(parts@) =~= pv + ev);
                }
            },
            _ => {},
        }
        j = j + 1;
        assert(strings_view(parts@) =~= graphs + call_edges(*decls, decls.spec_entries().take(j as int)));
    }
    assert(decls.spec_entries().take(j as int) =~= decls.spec_entries());
    let inner = join_strings(&parts, "\n");
    let mut s = String::from_str("digraph G {\n");
    s.append(inner.as_str());
    s.append("\n}");
    assert(s@ =~= dot_text(*tu));
    Ok(s)
}

} // verus!
