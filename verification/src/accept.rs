//! Which programs are compiled, by the bytes that they consist of.
use crate::arith::congruent;
use crate::cfg::{
    bytes_from, draft_from, entry_graph, graph_with, law_labels_stay, linked, program_graph,
    readable, target_slot, with_block, with_insn, Draft, Graph,
};
use crate::label::digits;
use crate::ebpf::{ends_block, insn_at, slot_in, Insn};
use crate::isa::{class, operation, with_register};
use crate::translate::{
    calls_unknown, enter_code, insn_code, supported, translatable, translation_from, Setting,
};
use crate::ir::Inst;
use crate::word::ByteOrder;
use vstd::prelude::*;

verus! {

/// An instruction is read from its eight bytes: the operation code, the destination
/// in the low and the source in the high half of the second byte, and the offset
/// and the immediate as signed numbers, low byte first.
pub proof fn law_encoding(prog: Seq<u8>, idx: int, insn: Insn)
    requires
        slot_in(prog, idx),
        prog[8 * idx] == insn.opc,
        insn.dst < 16,
        insn.src < 16,
        prog[8 * idx + 1] == insn.dst + 16 * insn.src,
        congruent(prog[8 * idx + 2] + 0x100 * prog[8 * idx + 3], insn.off as int, 0x1_0000),
        congruent(
            prog[8 * idx + 4] + 0x100 * prog[8 * idx + 5] + 0x1_0000 * prog[8 * idx + 6]
                + 0x100_0000 * prog[8 * idx + 7],
            insn.imm as int,
            0x1_0000_0000,
        ),
    ensures
        insn_at(prog, idx) == insn,
{
}

/// Whether an operation code is that of a conditional jump.
pub open spec fn is_conditional(opc: u8) -> bool {
    &&& class(opc) == 5 || class(opc) == 6
    &&& 1 <= operation(opc) <= 7 || 10 <= operation(opc) <= 13
}

/// Whether an operation code is that of an arithmetic operation with two operands.
pub open spec fn is_binary(opc: u8) -> bool {
    &&& class(opc) == 4 || class(opc) == 7
    &&& operation(opc) <= 12
    &&& operation(opc) != 8
}

/// Whether an operation code stands for an instruction that can be compiled: loads
/// from the packet, of an immediate and from memory, stores, arithmetic, negation,
/// byte swaps, jumps, calls and the exit.
pub open spec fn is_code(opc: u8) -> bool {
    let mode = opc as int / 32;
    ||| class(opc) == 0 && (mode == 1 || mode == 2)
    ||| opc == 0x18
    ||| 1 <= class(opc) <= 3 && mode == 3
    ||| is_binary(opc)
    ||| opc == 0x84 || opc == 0x87
    ||| opc == 0xd4 || opc == 0xdc
    ||| is_conditional(opc)
    ||| opc == 0x05 || opc == 0x85 || opc == 0x95
}

/// Whether a byte swap finds the bytes in order.
pub open spec fn is_idle_swap(order: ByteOrder, opc: u8) -> bool {
    opc == 0xd4 && order == ByteOrder::Little || opc == 0xdc && order == ByteOrder::Big
}

/// Whether an instruction reads or writes its destination register: all do but
/// jumps without a condition, calls, exits, byte swaps that find the bytes in
/// order, and remainders by an immediate zero.
pub open spec fn needs_dst(order: ByteOrder, insn: Insn) -> bool {
    &&& insn.opc != 0x05 && insn.opc != 0x85 && insn.opc != 0x95
    &&& !is_idle_swap(order, insn.opc)
    &&& !((insn.opc == 0x94 || insn.opc == 0x97) && insn.imm == 0)
}

/// Whether an instruction reads its source register.
pub open spec fn needs_src(insn: Insn) -> bool {
    ||| class(insn.opc) == 0 && insn.opc as int / 32 == 2
    ||| class(insn.opc) == 1 || class(insn.opc) == 3
    ||| is_binary(insn.opc) && with_register(insn.opc)
    ||| is_conditional(insn.opc) && with_register(insn.opc)
}

/// Whether the instruction in a slot can be compiled: its operation code stands for
/// one, the registers that it needs are among R0 to R10, whichever they are, an
/// immediate of 64 bits has its second slot, and a byte swap that does
/// something has one of the three widths.
pub open spec fn is_good(order: ByteOrder, prog: Seq<u8>, pc: int) -> bool {
    let insn = insn_at(prog, pc);
    &&& slot_in(prog, pc)
    &&& is_code(insn.opc)
    &&& needs_dst(order, insn) ==> insn.dst <= 10
    &&& needs_src(insn) ==> insn.src <= 10
    &&& insn.opc == 0x18 ==> slot_in(prog, pc + 1)
    &&& (insn.opc == 0xd4 || insn.opc == 0xdc) && !is_idle_swap(order, insn.opc) ==> insn.imm == 16
        || insn.imm == 32 || insn.imm == 64
}

/// The instructions that have a translation are those that can be compiled.
#[verifier::rlimit(40)]
#[verifier::spinoff_prover]
pub proof fn law_supported(order: ByteOrder, prog: Seq<u8>, pc: int)
    ensures
        supported(order, prog, pc) == is_good(order, prog, pc),
{
    let opc = insn_at(prog, pc).opc;
    assert((opc & 8 != 0) == (opc / 8 % 2 == 1)) by (bit_vector);
}

/// Whether an operation code ends a block: jumps, exits and the tail call do.
pub open spec fn is_end(opc: u8) -> bool {
    is_conditional(opc) || opc == 0x05 || opc == 0x95 || opc == 0x8d
}

/// The instructions that end a block are the jumps, the exit and the tail call.
pub proof fn law_ends_block(opc: u8)
    ensures
        ends_block(opc) == is_end(opc),
{
}

/// The slot after an instruction, which takes two slots if it is 0x18.
pub open spec fn after(prog: Seq<u8>, pc: int) -> int {
    if prog[8 * pc] == 0x18 {
        pc + 2
    } else {
        pc + 1
    }
}

/// Whether a set of slots holds all that a walk through the program from slot 0
/// comes to, up to a call of an unknown helper function.
pub open spec fn is_walk(prog: Seq<u8>, slots: Set<int>) -> bool {
    &&& slots.contains(0)
    &&& forall|pc: int| #[trigger]
        slots.contains(pc) && 0 <= pc && 8 * pc < prog.len() ==> slots.contains(after(prog, pc))
}

/// A program is translated if each instruction on the walk through it can be
/// compiled.
pub proof fn law_translatable(
    order: ByteOrder,
    helpers: Set<u32>,
    prog: Seq<u8>,
    slots: Set<int>,
    from: int,
)
    requires
        is_walk(prog, slots),
        0 <= from,
        slots.contains(from),
        forall|pc: int| #[trigger]
            slots.contains(pc) && 0 <= pc && 8 * pc < prog.len() ==> is_good(order, prog, pc),
    ensures
        translatable(order, helpers, prog, from),
    decreases bytes_from(prog, from),
{
    if 8 * from < prog.len() {
        law_supported(order, prog, from);
        law_translatable(order, helpers, prog, slots, after(prog, from));
    }
}

/// The first instruction of a program that is translated can be compiled, and what
/// comes after it is translated, unless it calls a helper function that is unknown.
pub proof fn law_translatable_first(
    order: ByteOrder,
    helpers: Set<u32>,
    prog: Seq<u8>,
    from: int,
)
    requires
        0 <= from,
        8 * from < prog.len(),
        translatable(order, helpers, prog, from),
    ensures
        is_good(order, prog, from),
        ({
            let insn = insn_at(prog, from);
            let known = helpers.contains((insn.imm as int % 0x1_0000_0000) as u32);
            insn.opc == 0x85 && !known || translatable(order, helpers, prog, after(prog, from))
        }),
{
    let imm = insn_at(prog, from).imm;
    law_supported(order, prog, from);
    lemma_id(imm);
}

proof fn lemma_id(imm: i32)
    ensures
        imm as u32 == (imm as int % 0x1_0000_0000) as u32,
{
    assert(imm as u32 == if imm >= 0 {
        imm + 0
    } else {
        imm + 0x1_0000_0000
    }) by (bit_vector);
}

/// A program can be read if its bytes fill whole slots, there are no more slots than
/// numbers of 32 bits, and no jump on the walk through it leads out of the range
/// of these numbers.
pub proof fn law_readable(prog: Seq<u8>, slots: Set<int>, from: int)
    requires
        is_walk(prog, slots),
        0 <= from,
        slots.contains(from),
        prog.len() % 8 == 0,
        prog.len() / 8 <= u32::MAX,
        forall|pc: int| #[trigger]
            slots.contains(pc) && 0 <= pc && 8 * pc < prog.len() && is_end(prog[8 * pc]) ==> 0 <= pc
                + 1 + insn_at(prog, pc).off <= u32::MAX,
    ensures
        readable(prog, from),
    decreases bytes_from(prog, from),
{
    if 8 * from < prog.len() {
        law_ends_block(prog[8 * from]);
        law_readable(prog, slots, after(prog, from));
    }
}

/// The first instruction of a program that can be read is whole, leads nowhere out of
/// range, and what comes after it can be read.
pub proof fn law_readable_first(prog: Seq<u8>, from: int)
    requires
        0 <= from,
        8 * from < prog.len(),
        readable(prog, from),
    ensures
        8 * from + 8 <= prog.len(),
        is_end(prog[8 * from]) ==> 0 <= from + 1 + insn_at(prog, from).off <= u32::MAX,
        readable(prog, after(prog, from)),
{
    law_ends_block(prog[8 * from]);
}

/// The first helper function that a walk from a slot finds called and that is not
/// among those declared.
pub open spec fn first_unknown(helpers: Set<u32>, prog: Seq<u8>, pc: int) -> Option<u32>
    decreases bytes_from(prog, pc),
{
    let id = (insn_at(prog, pc).imm as int % 0x1_0000_0000) as u32;
    if 8 * pc >= prog.len() {
        None
    } else if prog[8 * pc] == 0x85 && !helpers.contains(id) {
        Some(id)
    } else {
        first_unknown(helpers, prog, after(prog, pc))
    }
}

/// A translation ends early if and only if the walk comes to a call of a helper
/// function that has not been declared, and then it tells which.
pub proof fn law_unknown_helper(
    set: Setting,
    code: Seq<Inst>,
    prog: Seq<u8>,
    pc: int,
    left: bool,
)
    requires
        0 <= pc,
    ensures
        translation_from(set, code, prog, pc, left).1 == first_unknown(set.helpers, prog, pc),
    decreases bytes_from(prog, pc),
{
    if 8 * pc < prog.len() {
        let insn = insn_at(prog, pc);
        lemma_id(insn.imm);
        if !calls_unknown(set.helpers, insn) {
            let c = insn_code(set, enter_code(set.graph, code, pc, left), prog, pc);
            law_unknown_helper(set, c, prog, after(prog, pc), ends_block(insn.opc));
        }
    }
}

/// Whether a jump on a walk leads to a slot, or is followed by it.
pub open spec fn is_wanted(prog: Seq<u8>, slots: Set<int>, at: u32) -> bool {
    exists|pc: int|
        {
            &&& #[trigger] slots.contains(pc)
            &&& 0 <= pc && 8 * pc < prog.len()
            &&& is_end(prog[8 * pc])
            &&& at == pc + 1 || at == pc + 1 + insn_at(prog, pc).off
        }
}

/// The blocks of a program are those that its jumps want: a block that was not there
/// before starts after a jump on the walk through the program, or where one leads. The
/// blocks that were there stay as they are.
pub proof fn law_blocks_wanted(d: Draft, prog: Seq<u8>, slots: Set<int>, from: int)
    requires
        is_walk(prog, slots),
        0 <= from,
        slots.contains(from),
        readable(prog, from),
    ensures
        ({
            let made = draft_from(d, prog, from).graph;
            &&& forall|at: u32| #[trigger]
                made.blocks.contains_key(at) ==> d.graph.blocks.contains_key(at) || is_wanted(
                    prog,
                    slots,
                    at,
                )
            &&& forall|at: u32| #[trigger]
                d.graph.blocks.contains_key(at) ==> made.blocks.contains_key(at)
                    && made.blocks[at] == d.graph.blocks[at]
        }),
    decreases bytes_from(prog, from),
{
    if 8 * from < prog.len() {
        let d1 = with_insn(d, prog, from);
        law_ends_block(prog[8 * from]);
        law_blocks_wanted(d1, prog, slots, after(prog, from));
        assert forall|at: u32| #[trigger] d1.graph.blocks.contains_key(at) implies
            d.graph.blocks.contains_key(at) || is_wanted(prog, slots, at) by {
            if !d.graph.blocks.contains_key(at) {
                assert(slots.contains(from));
            }
        }
        law_blocks_stay(d, prog, from);
        let made = draft_from(d, prog, from).graph;
        assert(made == draft_from(d1, prog, after(prog, from)).graph);
        assert forall|at: u32| #[trigger] made.blocks.contains_key(at) implies
            d.graph.blocks.contains_key(at) || is_wanted(prog, slots, at) by {
            if !is_wanted(prog, slots, at) {
                assert(d1.graph.blocks.contains_key(at));
            }
        }
    }
}

/// Each jump on the walk through a program has a block where it is followed and one where
/// it leads, and its targets are the numbers of these two, in this order.
pub proof fn law_targets(g: Graph, prog: Seq<u8>, from: int, pc: int)
    requires
        0 <= from,
        linked(g, prog, from),
        comes_to(prog, from, pc),
        is_end(prog[8 * pc]),
    ensures
        ({
            let next = (pc + 1) as u32;
            let target = (pc + 1 + insn_at(prog, pc).off) as u32;
            &&& g.blocks.contains_key(next)
            &&& g.blocks.contains_key(target)
            &&& g.targets.contains_key(pc as u32)
            &&& g.targets[pc as u32].0 == g.blocks[next]
            &&& g.targets[pc as u32].1 == g.blocks[target]
        }),
    decreases bytes_from(prog, from),
{
    law_ends_block(prog[8 * pc]);
    if from != pc {
        law_targets(g, prog, after(prog, from), pc);
    }
}

/// Whether a walk from one slot comes to another inside the program.
pub open spec fn comes_to(prog: Seq<u8>, from: int, pc: int) -> bool
    decreases bytes_from(prog, from),
{
    8 * from < prog.len() && (from == pc || comes_to(prog, after(prog, from), pc))
}

/// New blocks get the next numbers and labels that count up, one label for each block.
pub proof fn law_block_labels(d: Draft, prog: Seq<u8>, from: int)
    requires
        0 <= from,
        readable(prog, from),
        d.graph.blocks.dom().finite(),
        d.count + draft_from(d, prog, from).graph.labels.len() - d.graph.labels.len()
            <= usize::MAX,
        draft_from(d, prog, from).graph.labels.len() <= usize::MAX,
    ensures
        ({
            let made = draft_from(d, prog, from);
            let old_len = d.graph.labels.len() as int;
            &&& made.graph.blocks.dom().finite()
            &&& made.graph.labels.len() - old_len == made.graph.blocks.dom().len()
                - d.graph.blocks.dom().len()
            &&& made.count == d.count + made.graph.labels.len() - old_len
            &&& made.graph.labels.take(old_len) == d.graph.labels
            &&& forall|i: int|
                old_len <= i < made.graph.labels.len() ==> #[trigger] made.graph.labels[i]
                    == "block_"@ + digits((d.count + i - old_len) as nat, 10)
            &&& forall|at: u32| #[trigger]
                made.graph.blocks.contains_key(at) && !d.graph.blocks.contains_key(at)
                    ==> old_len <= made.graph.blocks[at] < made.graph.labels.len()
        }),
    decreases bytes_from(prog, from),
{
    if 8 * from < prog.len() {
        let d1 = with_insn(d, prog, from);
        let made = draft_from(d, prog, from);
        law_labels_stay(d1, prog, after(prog, from));
        let insn = insn_at(prog, from);
        if ends_block(insn.opc) {
            let next = (from + 1) as u32;
            let target = target_slot(from, insn.off) as u32;
            lemma_one_block(d, next);
            lemma_one_block(with_block(d, next), target);
        }
        assert(d1.graph.blocks.dom().finite());
        law_block_labels(d1, prog, after(prog, from));
        law_blocks_stay(d1, prog, after(prog, from));
        let old_len = d.graph.labels.len() as int;
        let mid = d1.graph.labels.len() as int;
        assert(made.graph.labels.take(old_len) =~= d.graph.labels) by {
            assert(made.graph.labels.take(mid) == d1.graph.labels);
            assert forall|i: int| 0 <= i < old_len implies made.graph.labels[i]
                == d.graph.labels[i] by {
                assert(made.graph.labels.take(mid)[i] == made.graph.labels[i]);
                assert(d1.graph.labels[i] == d.graph.labels[i]);
            }
        }
        assert forall|i: int| old_len <= i < made.graph.labels.len() implies
            #[trigger] made.graph.labels[i] == "block_"@ + digits(
            (d.count + i - old_len) as nat,
            10,
        ) by {
            if i < mid {
                assert(made.graph.labels.take(mid)[i] == made.graph.labels[i]);
            }
        }
    } else {
        assert(d.graph.labels.take(d.graph.labels.len() as int) =~= d.graph.labels);
    }
}

/// Blocks stay as they are.
pub proof fn law_blocks_stay(d: Draft, prog: Seq<u8>, from: int)
    requires
        0 <= from,
        readable(prog, from),
    ensures
        forall|at: u32| #[trigger]
            d.graph.blocks.contains_key(at) ==> draft_from(
                d,
                prog,
                from,
            ).graph.blocks.contains_key(at) && draft_from(d, prog, from).graph.blocks[at]
                == d.graph.blocks[at],
    decreases bytes_from(prog, from),
{
    if 8 * from < prog.len() {
        let d1 = with_insn(d, prog, from);
        law_blocks_stay(d1, prog, after(prog, from));
        assert forall|at: u32| #[trigger] d.graph.blocks.contains_key(at) implies
            d1.graph.blocks.contains_key(at) && d1.graph.blocks[at] == d.graph.blocks[at] by {}
    }
}

proof fn lemma_one_block(d: Draft, pc: u32)
    requires
        d.graph.blocks.dom().finite(),
    ensures
        ({
            let made = with_block(d, pc);
            let n = d.graph.labels.len() as int;
            &&& made.graph.blocks.dom().finite()
            &&& if d.graph.blocks.contains_key(pc) {
                made == d
            } else {
                &&& made.graph.labels.len() == n + 1
                &&& made.graph.blocks.dom().len() == d.graph.blocks.dom().len() + 1
                &&& d.count < usize::MAX ==> made.count == d.count + 1
                &&& made.graph.labels[n] == "block_"@ + digits(d.count as nat, 10)
                &&& made.graph.labels.take(n) == d.graph.labels
                &&& n <= usize::MAX ==> made.graph.blocks[pc] == n
            }
        }),
{
    let made = with_block(d, pc);
    if !d.graph.blocks.contains_key(pc) {
        assert(made.graph.blocks.dom() =~= d.graph.blocks.dom().insert(pc));
        assert(made.graph.labels.take(d.graph.labels.len() as int) =~= d.graph.labels);
    }
}

/// The graph of the entry block alone has one label, and no block starts at an
/// instruction.
pub proof fn law_entry_graph()
    ensures
        entry_graph().labels == seq!["entry"@],
        forall|at: u32| !(#[trigger] entry_graph().blocks.contains_key(at)),
        forall|at: u32| !(#[trigger] entry_graph().targets.contains_key(at)),
        entry_graph().blocks.dom().finite(),
{
}

/// The blocks that a program adds to a graph are labelled from `block_0` on, after the labels
/// that were there, which stay. The first program follows the label of the entry block.
pub proof fn law_program_labels(g: Graph, prog: Seq<u8>)
    requires
        readable(prog, 0),
        g.blocks.dom().finite(),
        graph_with(g, prog).labels.len() <= usize::MAX,
    ensures
        ({
            let made = graph_with(g, prog);
            let old_len = g.labels.len() as int;
            &&& made.labels.take(old_len) == g.labels
            &&& made.labels.len() - old_len == made.blocks.dom().len() - g.blocks.dom().len()
            &&& forall|i: int|
                old_len <= i < made.labels.len() ==> #[trigger] made.labels[i] == "block_"@
                    + digits((i - old_len) as nat, 10)
            &&& program_graph(prog) == graph_with(entry_graph(), prog)
        }),
{
    law_block_labels(Draft { graph: g, count: 0 }, prog, 0);
}

/// Whether a slot on a walk holds a jump.
pub open spec fn is_jump_on(prog: Seq<u8>, slots: Set<int>, pc: int) -> bool {
    slots.contains(pc) && 0 <= pc && 8 * pc < prog.len() && is_end(prog[8 * pc])
}

proof fn lemma_targets_stay(d: Draft, prog: Seq<u8>, slots: Set<int>, from: int, at: u32)
    requires
        is_walk(prog, slots),
        0 <= from,
        slots.contains(from),
        readable(prog, from),
        !is_jump_on(prog, slots, at as int),
    ensures
        ({
            let made = draft_from(d, prog, from).graph;
            &&& made.targets.contains_key(at) == d.graph.targets.contains_key(at)
            &&& made.targets[at] == d.graph.targets[at]
        }),
    decreases bytes_from(prog, from),
{
    if 8 * from < prog.len() {
        law_ends_block(prog[8 * from]);
        lemma_targets_stay(with_insn(d, prog, from), prog, slots, after(prog, from), at);
    }
}

/// A program added to a graph changes what belongs to its jumps, and nothing else: blocks that
/// were there keep their numbers, new ones start after a jump or where one leads, and the
/// targets of a slot `pc` that holds no jump of the program are as before.
pub proof fn law_program_blocks(g: Graph, prog: Seq<u8>, slots: Set<int>, pc: u32)
    requires
        is_walk(prog, slots),
        readable(prog, 0),
    ensures
        forall|at: u32| #[trigger]
            g.blocks.contains_key(at) ==> graph_with(g, prog).blocks.contains_key(at)
                && graph_with(g, prog).blocks[at] == g.blocks[at],
        forall|at: u32| #[trigger]
            graph_with(g, prog).blocks.contains_key(at) ==> g.blocks.contains_key(at) || is_wanted(
                prog,
                slots,
                at,
            ),
        !is_jump_on(prog, slots, pc as int) ==> graph_with(g, prog).targets.contains_key(pc)
            == g.targets.contains_key(pc) && graph_with(g, prog).targets[pc] == g.targets[pc],
{
    let d = Draft { graph: g, count: 0 };
    law_blocks_wanted(d, prog, slots, 0);
    assert(graph_with(g, prog) == draft_from(d, prog, 0).graph);
    if !is_jump_on(prog, slots, pc as int) {
        lemma_targets_stay(d, prog, slots, 0, pc);
    }
}

} // verus!
