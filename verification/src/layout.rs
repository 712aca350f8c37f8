//! How a translation is laid out: which instructions lie in which block, and
//! where the translation of an eBPF instruction stands.
use crate::cfg::{bytes_from, graph_ok, linked, next_slot, readable, Graph};
use crate::ebpf::{action, ends_block, insn_at, Action, AluOp, Cond, Insn};
use crate::ir::{is_terminator, Inst, Op, Ty};
use crate::translate::{
    alu_code, branch_code, call_code, calls_unknown, enter_code, insn_code, is_shift, load_abs_code,
    load_mem_code, plus, shift_code, store_mem_code, supported, swap_code, translatable,
    translation_from, Setting,
};
use crate::word::ByteOrder;
use vstd::prelude::*;

verus! {

/// Whether `next` is `base` with more instructions, none of which leaves the
/// block or enters another.
pub open spec fn adds(base: Seq<Inst>, next: Seq<Inst>) -> bool {
    &&& base.len() <= next.len()
    &&& forall|i: int| 0 <= i < base.len() ==> next[i] == #[trigger] base[i]
    &&& forall|i: int|
        base.len() <= i < next.len() ==> !is_terminator((#[trigger] next[i]).op) && !(
        next[i].op is Position)
}

broadcast proof fn lemma_plus_adds(base: Seq<Inst>, code: Seq<Inst>, op: Op, name: &'static str)
    requires
        adds(base, code),
        !is_terminator(op),
        !(op is Position),
    ensures
        #[trigger] adds(base, plus(code, op, name)),
{
}

proof fn lemma_load_abs_adds(code: Seq<Inst>, insn: Insn, ty: Ty, ind: bool, mem_start: usize)
    ensures
        adds(code, load_abs_code(code, insn, ty, ind, mem_start)),
{
    broadcast use lemma_plus_adds;

}

proof fn lemma_load_mem_adds(code: Seq<Inst>, insn: Insn, ty: Ty)
    ensures
        adds(code, load_mem_code(code, insn, ty)),
{
    broadcast use lemma_plus_adds;

}

proof fn lemma_store_mem_adds(code: Seq<Inst>, insn: Insn, ty: Ty, reg: bool)
    ensures
        adds(code, store_mem_code(code, insn, ty, reg)),
{
    broadcast use lemma_plus_adds;

}

proof fn lemma_shift_adds(code: Seq<Inst>, insn: Insn, op: AluOp, wide: bool, reg: bool)
    ensures
        adds(code, shift_code(code, insn, op, wide, reg)),
{
    broadcast use lemma_plus_adds;

}

proof fn lemma_alu_adds(code: Seq<Inst>, insn: Insn, op: AluOp, wide: bool, reg: bool)
    ensures
        adds(code, alu_code(code, insn, op, wide, reg)),
{
    broadcast use lemma_plus_adds;

    if is_shift(op) {
        lemma_shift_adds(code, insn, op, wide, reg);
    }
}

proof fn lemma_swap_adds(code: Seq<Inst>, insn: Insn, order: ByteOrder, big: bool)
    ensures
        adds(code, swap_code(code, insn, order, big)),
{
    broadcast use lemma_plus_adds;

}

proof fn lemma_call_adds(code: Seq<Inst>, helper: u32)
    ensures
        adds(code, call_code(code, helper)),
{
    broadcast use lemma_plus_adds;

}

proof fn lemma_branch_adds(code: Seq<Inst>, insn: Insn, cond: Cond, blocks: (usize, usize))
    ensures
        adds(code, branch_code(code, insn, cond, blocks).drop_last()),
        is_terminator(branch_code(code, insn, cond, blocks).last().op),
{
    broadcast use lemma_plus_adds;

}

/// The translation of an instruction leaves the block exactly if the instruction
/// ends it, and then with its last instruction. It enters no block.
#[verifier::rlimit(60)]
#[verifier::spinoff_prover]
pub proof fn law_insn_adds(set: Setting, code: Seq<Inst>, prog: Seq<u8>, pc: int)
    requires
        supported(set.order, prog, pc),
    ensures
        ({
            let next = insn_code(set, code, prog, pc);
            if ends_block(insn_at(prog, pc).opc) {
                &&& next.len() > code.len()
                &&& adds(code, next.drop_last())
                &&& is_terminator(next.last().op)
            } else {
                adds(code, next)
            }
        }),
{
    let insn = insn_at(prog, pc);
    let targets = set.graph.targets[pc as u32];
    match action(insn.opc) {
        Some(Action::LoadAbs { ty, ind }) => {
            lemma_load_abs_adds(code, insn, ty, ind, set.mem_start);
        },
        Some(Action::LoadImm) => {},
        Some(Action::Load { ty }) => {
            lemma_load_mem_adds(code, insn, ty);
        },
        Some(Action::Store { ty, reg }) => {
            lemma_store_mem_adds(code, insn, ty, reg);
        },
        Some(Action::Alu { op, wide, reg }) => {
            lemma_alu_adds(code, insn, op, wide, reg);
        },
        Some(Action::Neg { wide }) => {},
        Some(Action::Swap { big }) => {
            lemma_swap_adds(code, insn, set.order, big);
        },
        Some(Action::Jump) => {
            assert(insn_code(set, code, prog, pc).drop_last() == code);
        },
        Some(Action::Branch { cond }) => {
            lemma_branch_adds(code, insn, cond, targets);
        },
        Some(Action::Call) => {
            lemma_call_adds(code, insn.imm as u32);
        },
        Some(Action::Exit) => {},
        None => {},
    }
}

/// Whether a list starts with another.
pub open spec fn starts_with(code: Seq<Inst>, start: Seq<Inst>) -> bool {
    &&& start.len() <= code.len()
    &&& forall|i: int| 0 <= i < start.len() ==> #[trigger] code[i] == start[i]
}

/// Whether a walk over the program that starts at `from` comes to the
/// instruction at `pc`.
pub open spec fn reached(prog: Seq<u8>, from: int, pc: int) -> bool
    decreases bytes_from(prog, from),
{
    8 * from < prog.len() && (from == pc || reached(prog, next_slot(prog, from), pc))
}

/// The instructions before the translation of the eBPF instruction at `pc`, if
/// the translation goes on with the instruction at `from`.
pub open spec fn before(
    set: Setting,
    code: Seq<Inst>,
    prog: Seq<u8>,
    from: int,
    left: bool,
    pc: int,
) -> Seq<Inst>
    decreases bytes_from(prog, from),
{
    let c = enter_code(set.graph, code, from, left);
    if from == pc || 8 * from >= prog.len() {
        c
    } else {
        before(
            set,
            insn_code(set, c, prog, from),
            prog,
            next_slot(prog, from),
            ends_block(insn_at(prog, from).opc),
            pc,
        )
    }
}

/// What has been added stays as it is.
pub proof fn law_translation_extends(
    set: Setting,
    code: Seq<Inst>,
    prog: Seq<u8>,
    from: int,
    left: bool,
)
    requires
        0 <= from,
        translatable(set.order, set.helpers, prog, from),
    ensures
        starts_with(translation_from(set, code, prog, from, left).0, code),
    decreases bytes_from(prog, from),
{
    if 8 * from < prog.len() {
        let c = enter_code(set.graph, code, from, left);
        if !calls_unknown(set.helpers, insn_at(prog, from)) {
            let next = insn_code(set, c, prog, from);
            law_insn_adds(set, c, prog, from);
            law_translation_extends(
                set,
                next,
                prog,
                next_slot(prog, from),
                ends_block(insn_at(prog, from).opc),
            );
            assert(starts_with(next, code)) by {
                assert forall|i: int| 0 <= i < code.len() implies #[trigger] next[i] == code[i] by {
                    assert(c[i] == code[i]);
                    if ends_block(insn_at(prog, from).opc) {
                        assert(next.drop_last()[i] == next[i]);
                    }
                }
            }
        }
    }
}

/// The whole translation holds the translation of each instruction that is
/// reached, in its place.
pub proof fn law_insn_in_place(
    set: Setting,
    code: Seq<Inst>,
    prog: Seq<u8>,
    from: int,
    left: bool,
    pc: int,
)
    requires
        0 <= from,
        reached(prog, from, pc),
        translatable(set.order, set.helpers, prog, from),
        translation_from(set, code, prog, from, left).1 is None,
    ensures
        supported(set.order, prog, pc),
        !calls_unknown(set.helpers, insn_at(prog, pc)),
        from <= pc,
        starts_with(
            translation_from(set, code, prog, from, left).0,
            insn_code(set, before(set, code, prog, from, left, pc), prog, pc),
        ),
        before(set, code, prog, from, left, pc).len() >= code.len(),
        set.graph.blocks.contains_key(pc as u32) ==> {
            let b = before(set, code, prog, from, left, pc);
            b.len() > code.len() && b.last().op == (Op::Position {
                block: set.graph.blocks[pc as u32],
            })
        },
    decreases bytes_from(prog, from),
{
    let c = enter_code(set.graph, code, from, left);
    let next = insn_code(set, c, prog, from);
    let ends = ends_block(insn_at(prog, from).opc);
    law_insn_adds(set, c, prog, from);
    law_translation_extends(set, next, prog, next_slot(prog, from), ends);
    if from != pc {
        law_insn_in_place(set, next, prog, next_slot(prog, from), ends, pc);
    }
}

/// The instruction after one that is reached is reached, and its translation
/// follows, with what enters its block between them.
pub proof fn law_next_follows(
    set: Setting,
    code: Seq<Inst>,
    prog: Seq<u8>,
    from: int,
    left: bool,
    pc: int,
)
    requires
        0 <= from,
        reached(prog, from, pc),
        8 * next_slot(prog, pc) < prog.len(),
    ensures
        reached(prog, from, next_slot(prog, pc)),
        before(set, code, prog, from, left, next_slot(prog, pc)) == enter_code(
            set.graph,
            insn_code(set, before(set, code, prog, from, left, pc), prog, pc),
            next_slot(prog, pc),
            ends_block(insn_at(prog, pc).opc),
        ),
    decreases bytes_from(prog, from),
{
    let c = enter_code(set.graph, code, from, left);
    let next = insn_code(set, c, prog, from);
    let ends = ends_block(insn_at(prog, from).opc);
    lemma_reached_after(prog, from, pc);
    if from != pc {
        law_next_follows(set, next, prog, next_slot(prog, from), ends, pc);
    } else {
        reveal_with_fuel(reached, 2);
        reveal_with_fuel(before, 2);
    }
}

pub proof fn lemma_reached_after(prog: Seq<u8>, from: int, pc: int)
    requires
        reached(prog, from, pc),
    ensures
        from <= pc,
    decreases bytes_from(prog, from),
{
    if from != pc {
        lemma_reached_after(prog, next_slot(prog, from), pc);
    }
}

/// Each instruction that enters a block stands before the translation of the
/// eBPF instruction at which the block starts.
pub proof fn lemma_positions(
    set: Setting,
    code: Seq<Inst>,
    prog: Seq<u8>,
    from: int,
    left: bool,
    i: int,
) -> (pc: int)
    requires
        0 <= from,
        readable(prog, from),
        translatable(set.order, set.helpers, prog, from),
        translation_from(set, code, prog, from, left).1 is None,
        code.len() <= i < translation_from(set, code, prog, from, left).0.len(),
        translation_from(set, code, prog, from, left).0[i].op is Position,
    ensures
        reached(prog, from, pc),
        pc < u32::MAX,
        set.graph.blocks.contains_key(pc as u32),
        translation_from(set, code, prog, from, left).0[i].op == (Op::Position {
            block: set.graph.blocks[pc as u32],
        }),
        i + 1 == before(set, code, prog, from, left, pc).len(),
    decreases bytes_from(prog, from),
{
    let c = enter_code(set.graph, code, from, left);
    let next = insn_code(set, c, prog, from);
    let ends = ends_block(insn_at(prog, from).opc);
    let full = translation_from(set, code, prog, from, left).0;
    law_insn_adds(set, c, prog, from);
    law_translation_extends(set, next, prog, next_slot(prog, from), ends);
    assert(full[i].op is Position);
    if i < next.len() {
        assert(full[i] == next[i]);
        if ends && i < next.len() - 1 {
            assert(next.drop_last()[i] == next[i]);
        }
        assert(i < c.len());
        assert(next[i] == c[i]) by {
            if ends {
                assert(next.drop_last()[i] == c[i]);
            }
        }
        from
    } else {
        let pc = lemma_positions(set, next, prog, next_slot(prog, from), ends, i);
        lemma_reached_after(prog, next_slot(prog, from), pc);
        pc
    }
}

/// No block is entered twice.
pub proof fn law_blocks_entered_once(
    set: Setting,
    code: Seq<Inst>,
    prog: Seq<u8>,
    from: int,
    left: bool,
    i: int,
    j: int,
)
    requires
        0 <= from,
        readable(prog, from),
        graph_ok(set.graph),
        translatable(set.order, set.helpers, prog, from),
        translation_from(set, code, prog, from, left).1 is None,
        code.len() <= i < translation_from(set, code, prog, from, left).0.len(),
        code.len() <= j < translation_from(set, code, prog, from, left).0.len(),
        translation_from(set, code, prog, from, left).0[i].op is Position,
        translation_from(set, code, prog, from, left).0[i].op == translation_from(
            set,
            code,
            prog,
            from,
            left,
        ).0[j].op,
    ensures
        i == j,
{
    let a = lemma_positions(set, code, prog, from, left, i);
    let b = lemma_positions(set, code, prog, from, left, j);
    lemma_reached_after(prog, from, a);
    lemma_reached_after(prog, from, b);
    assert(set.graph.blocks.contains_key(a as u32) && set.graph.blocks.contains_key(b as u32));
}

/// Whether an instruction that leaves a block is the last or followed by one that
/// enters a block, from instruction `start` on.
pub open spec fn blocks_closed(code: Seq<Inst>, start: int) -> bool {
    forall|i: int|
        start <= i < code.len() - 1 && is_terminator((#[trigger] code[i]).op) ==> code[i
            + 1].op is Position
}

/// Whether a list goes on in the block in which its last instruction lies.
spec fn open_end(code: Seq<Inst>, start: int) -> bool {
    blocks_closed(code, start) && (code.len() > start ==> !is_terminator(code.last().op))
}

proof fn lemma_enter_closed(graph: Graph, code: Seq<Inst>, pc: int, left: bool, start: int)
    requires
        0 <= start,
        blocks_closed(code, start),
        left ==> graph.blocks.contains_key(pc as u32),
        !left ==> open_end(code, start),
    ensures
        open_end(enter_code(graph, code, pc, left), start),
{
    let c = enter_code(graph, code, pc, left);
    assert forall|i: int| start <= i < c.len() - 1 && is_terminator((#[trigger] c[i]).op) implies c[
    i + 1].op is Position by {
        if i < code.len() {
            assert(c[i] == code[i]);
        }
        if i + 1 < code.len() {
            assert(c[i + 1] == code[i + 1]);
        }
    }
}

proof fn lemma_adds_closed(code: Seq<Inst>, next: Seq<Inst>, start: int)
    requires
        0 <= start,
        open_end(code, start),
        adds(code, next),
    ensures
        open_end(next, start),
{
    assert forall|i: int|
        start <= i < next.len() - 1 && is_terminator((#[trigger] next[i]).op) implies next[i
        + 1].op is Position by {
        assert(i < code.len());
        assert(next[i] == code[i]);
        if i + 1 < code.len() {
            assert(next[i + 1] == code[i + 1]);
        }
    }
    if next.len() > start && next.len() == code.len() {
        assert(next.last() == code.last());
    }
}

/// Nothing is added to a block after an instruction that leaves it.
pub proof fn law_blocks_closed(
    set: Setting,
    code: Seq<Inst>,
    prog: Seq<u8>,
    from: int,
    left: bool,
    start: int,
)
    requires
        0 <= from,
        0 <= start,
        readable(prog, from),
        linked(set.graph, prog, from),
        translatable(set.order, set.helpers, prog, from),
        blocks_closed(code, start),
        left ==> set.graph.blocks.contains_key(from as u32),
        !left && code.len() > start ==> !is_terminator(code.last().op),
    ensures
        blocks_closed(translation_from(set, code, prog, from, left).0, start),
    decreases bytes_from(prog, from),
{
    if 8 * from < prog.len() {
        let c = enter_code(set.graph, code, from, left);
        let ends = ends_block(insn_at(prog, from).opc);
        lemma_enter_closed(set.graph, code, from, left, start);
        if !calls_unknown(set.helpers, insn_at(prog, from)) {
            let next = insn_code(set, c, prog, from);
            law_insn_adds(set, c, prog, from);
            if ends {
                let most = next.drop_last();
                lemma_adds_closed(c, most, start);
                assert forall|i: int|
                    start <= i < next.len() - 1 && is_terminator((#[trigger] next[i]).op) implies
                    next[i + 1].op is Position by {
                    assert(most[i] == next[i]);
                    if i + 1 < most.len() {
                        assert(most[i + 1] == next[i + 1]);
                    } else {
                        assert(most.last() == next[i]);
                    }
                }
            } else {
                lemma_adds_closed(c, next, start);
            }
            law_blocks_closed(set, next, prog, next_slot(prog, from), ends, start);
        }
    }
}

/// A translation ends early exactly if the program calls an unknown helper
/// function, and then at the first such call.
pub proof fn law_unknown_helper(
    set: Setting,
    code: Seq<Inst>,
    prog: Seq<u8>,
    from: int,
    left: bool,
    pc: int,
)
    requires
        0 <= from,
        readable(prog, from),
    ensures
        ({
            let unknown = translation_from(set, code, prog, from, left).1;
            &&& unknown is None && reached(prog, from, pc) ==> !calls_unknown(
                set.helpers,
                insn_at(prog, pc),
            )
            &&& reached(prog, from, pc) && calls_unknown(set.helpers, insn_at(prog, pc)) && (
            forall|before: int|
                before < pc && #[trigger] reached(prog, from, before) ==> !calls_unknown(
                    set.helpers,
                    insn_at(prog, before),
                )) ==> unknown == Some(insn_at(prog, pc).imm as u32)
        }),
    decreases bytes_from(prog, from),
{
    if 8 * from < prog.len() {
        let c = enter_code(set.graph, code, from, left);
        let next = insn_code(set, c, prog, from);
        let ends = ends_block(insn_at(prog, from).opc);
        assert(reached(prog, from, from));
        if reached(prog, from, pc) {
            lemma_reached_after(prog, from, pc);
        }
        if !calls_unknown(set.helpers, insn_at(prog, from)) {
            law_unknown_helper(set, next, prog, next_slot(prog, from), ends, pc);
            assert forall|before: int|
                before < pc && #[trigger] reached(prog, next_slot(prog, from), before) implies
                reached(prog, from, before) by {}
        }
    }
}

} // verus!
