//! Translations are well typed: every operand is an earlier result of the type
//! that is needed, and every block, register and helper function exists.
use crate::cfg::{bytes_from, graph_ok, has_targets, linked, next_slot, readable, ENTRY_BLOCK};
use crate::ebpf::{action, ends_block, insn_at, Action, AluOp, Cond, Insn, NUM_REGS};
use crate::ir::{fits, has_ty, narrower, well_typed, BinOp, Inst, Op, Pred, Scope, Ty};
use crate::layout::{adds, law_insn_adds, law_translation_extends};
use crate::translate::{
    alu_code, alu_name, alu_ty, amount_mask, bin_of, branch_code, branch_reg, call_code,
    calls_unknown, div_reg_code, dst_code, enter_code, fill_regs_code, imm_code, insn_code,
    is_shift, load_abs_code, load_mem_code, neg_code, num, operand_code, plus, prologue_code,
    set_code, set_dst_masked_code, shift_code, src_code, store_code, store_mem_code, sum_code,
    supported, swap_code, swaps, translatable, translation_from, Setting, MEM_START, STACK_SIZE,
};
use crate::word::ByteOrder;
use vstd::prelude::*;

verus! {

/// A list stays well typed when an instruction is added that may follow it.
broadcast proof fn lemma_plus_typed(code: Seq<Inst>, scope: Scope, op: Op, name: &'static str)
    requires
        well_typed(code, scope),
        fits(code, scope, op),
    ensures
        #[trigger] well_typed(plus(code, op, name), scope),
{
    let next = plus(code, op, name);
    assert forall|i: int| 0 <= i < next.len() implies fits(
        next.take(i),
        scope,
        (#[trigger] next[i]).op,
    ) by {
        assert(next.take(i) == code.take(i));
        if i < code.len() {
            assert(next[i] == code[i]);
        } else {
            assert(code.take(i) == code);
        }
    }
}

proof fn lemma_set_typed(code: Seq<Inst>, scope: Scope, insn: Insn, val: usize, wide: bool)
    requires
        well_typed(code, scope),
        insn.dst < scope.slots,
        has_ty(code, val, alu_ty(wide)),
        set_code(code, insn, val, wide).len() <= usize::MAX,
    ensures
        well_typed(set_code(code, insn, val, wide), scope),
{
    broadcast use lemma_plus_typed;

}

proof fn lemma_load_abs_typed(
    code: Seq<Inst>,
    scope: Scope,
    insn: Insn,
    ty: Ty,
    ind: bool,
    mem_start: usize,
)
    requires
        well_typed(code, scope),
        insn.dst < scope.slots,
        ind ==> insn.src < scope.slots,
        ty != Ty::I1,
        has_ty(code, mem_start, Ty::I64),
        load_abs_code(code, insn, ty, ind, mem_start).len() <= usize::MAX,
    ensures
        well_typed(load_abs_code(code, insn, ty, ind, mem_start), scope),
{
    broadcast use lemma_plus_typed;

}

proof fn lemma_load_mem_typed(code: Seq<Inst>, scope: Scope, insn: Insn, ty: Ty)
    requires
        well_typed(code, scope),
        insn.dst < scope.slots,
        insn.src < scope.slots,
        ty != Ty::I1,
        load_mem_code(code, insn, ty).len() <= usize::MAX,
    ensures
        well_typed(load_mem_code(code, insn, ty), scope),
{
    broadcast use lemma_plus_typed;

}

proof fn lemma_store_typed(
    code: Seq<Inst>,
    scope: Scope,
    ty: Ty,
    base: usize,
    off: i16,
    val: usize,
)
    requires
        well_typed(code, scope),
        ty != Ty::I1,
        has_ty(code, base, Ty::I64),
        has_ty(code, val, ty),
        store_code(code, ty, base, off, val).len() <= usize::MAX,
    ensures
        well_typed(store_code(code, ty, base, off, val), scope),
{
    broadcast use lemma_plus_typed;

}

proof fn lemma_store_mem_typed(code: Seq<Inst>, scope: Scope, insn: Insn, ty: Ty, reg: bool)
    requires
        well_typed(code, scope),
        insn.dst < scope.slots,
        reg ==> insn.src < scope.slots,
        ty != Ty::I1,
        store_mem_code(code, insn, ty, reg).len() <= usize::MAX,
    ensures
        well_typed(store_mem_code(code, insn, ty, reg), scope),
{
    let c = operand_code(code, insn, Ty::I64, reg);
    assert(well_typed(c, scope)) by {
        broadcast use lemma_plus_typed;

    }
    let c = if ty == Ty::I64 {
        c
    } else {
        plus(c, Op::Trunc { ty, val: num(code, 0) }, "narrow")
    };
    assert(well_typed(c, scope)) by {
        broadcast use lemma_plus_typed;

    }
    let c2 = dst_code(c, insn, Ty::I64);
    assert(well_typed(c2, scope)) by {
        broadcast use lemma_plus_typed;

    }
    lemma_store_typed(c2, scope, ty, num(c, 0), insn.off, num(c, -1));
}

proof fn lemma_div_reg_typed(code: Seq<Inst>, scope: Scope, insn: Insn, op: AluOp, wide: bool)
    requires
        well_typed(code, scope),
        insn.dst < scope.slots,
        insn.src < scope.slots,
        div_reg_code(code, insn, op, wide).len() <= usize::MAX,
    ensures
        well_typed(div_reg_code(code, insn, op, wide), scope),
{
    broadcast use lemma_plus_typed;

    let ty = alu_ty(wide);
    let c = plus(code, Op::Const { ty, bits: 0 }, "");
    let c = plus(c, Op::Const { ty, bits: 1 }, "");
    let c = dst_code(c, insn, ty);
    let c = src_code(c, insn, ty);
    assert(well_typed(c, scope));
    let c = plus(
        c,
        Op::Cmp { pred: Pred::Eq, ty, lhs: num(code, 3), rhs: num(code, 0) },
        "rhs_is_zero",
    );
    let c = plus(
        c,
        Op::Select { ty, cond: num(code, 4), yes: num(code, 1), no: num(code, 3) },
        "safe_rhs",
    );
    let c = plus(
        c,
        Op::Bin { op: bin_of(op), ty, lhs: num(code, 2), rhs: num(code, 5) },
        alu_name(op, wide, true),
    );
    assert(well_typed(c, scope));
    let by_zero = if op == AluOp::Div {
        num(code, 0)
    } else {
        num(code, 2)
    };
    let c = plus(c, Op::Select { ty, cond: num(code, 4), yes: by_zero, no: num(code, 6) }, "res");
    assert(well_typed(c, scope));
    lemma_set_typed(c, scope, insn, num(code, 7), wide);
}

proof fn lemma_shift_typed(
    code: Seq<Inst>,
    scope: Scope,
    insn: Insn,
    op: AluOp,
    wide: bool,
    reg: bool,
)
    requires
        well_typed(code, scope),
        insn.dst < scope.slots,
        reg ==> insn.src < scope.slots,
        shift_code(code, insn, op, wide, reg).len() <= usize::MAX,
    ensures
        well_typed(shift_code(code, insn, op, wide, reg), scope),
{
    broadcast use lemma_plus_typed;

    let ty = alu_ty(wide);
    let c = operand_code(dst_code(code, insn, ty), insn, ty, reg);
    assert(well_typed(c, scope));
    let c = plus(c, Op::Const { ty, bits: amount_mask(wide) }, "");
    let c = plus(
        c,
        Op::Bin { op: BinOp::And, ty, lhs: num(code, 1), rhs: num(code, 2) },
        "amount",
    );
    let c = plus(
        c,
        Op::Bin { op: bin_of(op), ty, lhs: num(code, 0), rhs: num(code, 3) },
        alu_name(op, wide, reg),
    );
    assert(well_typed(c, scope));
    lemma_set_typed(c, scope, insn, num(code, 4), wide);
}

proof fn lemma_alu_typed(
    code: Seq<Inst>,
    scope: Scope,
    insn: Insn,
    op: AluOp,
    wide: bool,
    reg: bool,
)
    requires
        well_typed(code, scope),
        !(op == AluOp::Mod && !reg && insn.imm == 0) ==> insn.dst < scope.slots,
        reg ==> insn.src < scope.slots,
        alu_code(code, insn, op, wide, reg).len() <= usize::MAX,
    ensures
        well_typed(alu_code(code, insn, op, wide, reg), scope),
{
    broadcast use lemma_plus_typed;

    let ty = alu_ty(wide);
    if op == AluOp::Mov {
        lemma_set_typed(operand_code(code, insn, ty, reg), scope, insn, num(code, 0), wide);
    } else if op == AluOp::Div || op == AluOp::Mod {
        if reg {
            lemma_div_reg_typed(code, scope, insn, op, wide);
        } else if insn.imm != 0 {
            let c = dst_code(imm_code(code, insn, ty), insn, ty);
            let c = plus(
                c,
                Op::Bin { op: bin_of(op), ty, lhs: num(code, 1), rhs: num(code, 0) },
                alu_name(op, wide, reg),
            );
            lemma_set_typed(c, scope, insn, num(code, 2), wide);
        } else if op == AluOp::Div {
            let c = plus(code, Op::Const { ty, bits: 0 }, "");
            lemma_set_typed(c, scope, insn, num(code, 0), wide);
        }
    } else if is_shift(op) {
        lemma_shift_typed(code, scope, insn, op, wide, reg);
    } else {
        let c = operand_code(dst_code(code, insn, ty), insn, ty, reg);
        let c = plus(
            c,
            Op::Bin { op: bin_of(op), ty, lhs: num(code, 0), rhs: num(code, 1) },
            alu_name(op, wide, reg),
        );
        lemma_set_typed(c, scope, insn, num(code, 2), wide);
    }
}

proof fn lemma_neg_typed(code: Seq<Inst>, scope: Scope, insn: Insn, wide: bool)
    requires
        well_typed(code, scope),
        insn.dst < scope.slots,
        neg_code(code, insn, wide).len() <= usize::MAX,
    ensures
        well_typed(neg_code(code, insn, wide), scope),
{
    broadcast use lemma_plus_typed;

}

proof fn lemma_set_masked_typed(
    code: Seq<Inst>,
    scope: Scope,
    insn: Insn,
    val: usize,
    mask: u64,
)
    requires
        well_typed(code, scope),
        insn.dst < scope.slots,
        narrower(code, val, Ty::I64),
        set_dst_masked_code(code, insn, val, mask).len() <= usize::MAX,
    ensures
        well_typed(set_dst_masked_code(code, insn, val, mask), scope),
{
    broadcast use lemma_plus_typed;

}

proof fn lemma_swap_typed(code: Seq<Inst>, scope: Scope, insn: Insn, order: ByteOrder, big: bool)
    requires
        well_typed(code, scope),
        swaps(order, big) ==> insn.dst < scope.slots,
        swap_code(code, insn, order, big).len() <= usize::MAX,
    ensures
        well_typed(swap_code(code, insn, order, big), scope),
{
    broadcast use lemma_plus_typed;

    if swaps(order, big) {
        if insn.imm == 16 {
            let c = dst_code(code, insn, Ty::I16);
            let c = plus(c, Op::Bswap { ty: Ty::I16, val: num(code, 0) }, "bswap16");
            lemma_set_masked_typed(c, scope, insn, num(code, 1), 0xffff);
        } else if insn.imm == 32 {
            let c = dst_code(code, insn, Ty::I32);
            let c = plus(c, Op::Bswap { ty: Ty::I32, val: num(code, 0) }, "bswap32");
            lemma_set_masked_typed(c, scope, insn, num(code, 1), 0xffff_ffff);
        }
    }
}

proof fn lemma_branch_typed(
    code: Seq<Inst>,
    scope: Scope,
    insn: Insn,
    cond: Cond,
    blocks: (usize, usize),
)
    requires
        well_typed(code, scope),
        insn.dst < scope.slots,
        branch_reg(insn.opc) ==> insn.src < scope.slots,
        blocks.0 < scope.blocks,
        blocks.1 < scope.blocks,
        branch_code(code, insn, cond, blocks).len() <= usize::MAX,
    ensures
        well_typed(branch_code(code, insn, cond, blocks), scope),
{
    broadcast use lemma_plus_typed;

}

proof fn lemma_call_typed(code: Seq<Inst>, scope: Scope, helper: u32)
    requires
        well_typed(code, scope),
        scope.helpers.contains(helper),
        scope.slots >= 6,
        call_code(code, helper).len() <= usize::MAX,
    ensures
        well_typed(call_code(code, helper), scope),
{
    broadcast use lemma_plus_typed;

}

/// What the instructions of a translation may refer to.
pub open spec fn scope_of(set: Setting) -> Scope {
    Scope { blocks: set.graph.labels.len(), slots: NUM_REGS as nat, helpers: set.helpers }
}

/// The translation of an instruction keeps the list well typed.
#[verifier::rlimit(60)]
#[verifier::spinoff_prover]
pub proof fn law_insn_typed(set: Setting, code: Seq<Inst>, prog: Seq<u8>, pc: int)
    requires
        well_typed(code, scope_of(set)),
        has_ty(code, set.mem_start, Ty::I64),
        graph_ok(set.graph),
        0 <= pc < u32::MAX,
        supported(set.order, prog, pc),
        !calls_unknown(set.helpers, insn_at(prog, pc)),
        ends_block(insn_at(prog, pc).opc) ==> has_targets(set.graph, prog, pc),
        insn_code(set, code, prog, pc).len() <= usize::MAX,
    ensures
        well_typed(insn_code(set, code, prog, pc), scope_of(set)),
{
    let insn = insn_at(prog, pc);
    let scope = scope_of(set);
    let targets = set.graph.targets[pc as u32];
    match action(insn.opc) {
        Some(Action::LoadAbs { ty, ind }) => {
            lemma_load_abs_typed(code, scope, insn, ty, ind, set.mem_start);
        },
        Some(Action::LoadImm) => {
            broadcast use lemma_plus_typed;

        },
        Some(Action::Load { ty }) => {
            lemma_load_mem_typed(code, scope, insn, ty);
        },
        Some(Action::Store { ty, reg }) => {
            lemma_store_mem_typed(code, scope, insn, ty, reg);
        },
        Some(Action::Alu { op, wide, reg }) => {
            lemma_alu_typed(code, scope, insn, op, wide, reg);
        },
        Some(Action::Neg { wide }) => {
            lemma_neg_typed(code, scope, insn, wide);
        },
        Some(Action::Swap { big }) => {
            lemma_swap_typed(code, scope, insn, set.order, big);
        },
        Some(Action::Jump) => {
            broadcast use lemma_plus_typed;

        },
        Some(Action::Branch { cond }) => {
            lemma_branch_typed(code, scope, insn, cond, targets);
        },
        Some(Action::Call) => {
            lemma_call_typed(code, scope, insn.imm as u32);
        },
        Some(Action::Exit) => {
            broadcast use lemma_plus_typed;

        },
        None => {},
    }
}

proof fn lemma_enter_typed(set: Setting, code: Seq<Inst>, pc: int, left: bool)
    requires
        well_typed(code, scope_of(set)),
        graph_ok(set.graph),
    ensures
        well_typed(enter_code(set.graph, code, pc, left), scope_of(set)),
{
    broadcast use lemma_plus_typed;

}

/// The translation of a program is well typed.
pub proof fn law_translation_typed(
    set: Setting,
    code: Seq<Inst>,
    prog: Seq<u8>,
    pc: int,
    left: bool,
)
    requires
        well_typed(code, scope_of(set)),
        has_ty(code, set.mem_start, Ty::I64),
        graph_ok(set.graph),
        0 <= pc,
        readable(prog, pc),
        linked(set.graph, prog, pc),
        translatable(set.order, set.helpers, prog, pc),
        translation_from(set, code, prog, pc, left).0.len() <= usize::MAX,
    ensures
        well_typed(translation_from(set, code, prog, pc, left).0, scope_of(set)),
    decreases bytes_from(prog, pc),
{
    if 8 * pc < prog.len() {
        let c = enter_code(set.graph, code, pc, left);
        lemma_enter_typed(set, code, pc, left);
        assert(has_ty(c, set.mem_start, Ty::I64));
        if !calls_unknown(set.helpers, insn_at(prog, pc)) {
            let next = insn_code(set, c, prog, pc);
            let ends = ends_block(insn_at(prog, pc).opc);
            law_insn_adds(set, c, prog, pc);
            law_translation_extends(set, next, prog, next_slot(prog, pc), ends);
            law_insn_typed(set, c, prog, pc);
            lemma_has_ty_kept(c, next, ends, set.mem_start);
            law_translation_typed(set, next, prog, next_slot(prog, pc), ends);
        }
    }
}

proof fn lemma_has_ty_kept(code: Seq<Inst>, next: Seq<Inst>, ends: bool, val: usize)
    requires
        has_ty(code, val, Ty::I64),
        if ends {
            next.len() > code.len() && adds(code, next.drop_last())
        } else {
            adds(code, next)
        },
    ensures
        has_ty(next, val, Ty::I64),
{
    assert(next[val as int] == code[val as int]) by {
        if ends {
            assert(next.drop_last()[val as int] == code[val as int]);
        }
    }
}

proof fn lemma_fill_typed(code: Seq<Inst>, scope: Scope, val: usize, n: int)
    requires
        well_typed(code, scope),
        has_ty(code, val, Ty::I64),
        n <= scope.slots,
        n <= NUM_REGS,
    ensures
        well_typed(fill_regs_code(code, val, n), scope),
        n >= 0 ==> fill_regs_code(code, val, n).len() == code.len() + n,
        forall|i: int|
            0 <= i < code.len() ==> #[trigger] fill_regs_code(code, val, n)[i] == code[i],
    decreases n,
{
    if n > 0 {
        lemma_fill_typed(code, scope, val, n - 1);
        let c = fill_regs_code(code, val, n - 1);
        assert(c[val as int] == code[val as int]);
        lemma_plus_typed(
            c,
            scope,
            Op::StoreReg { reg: (n - 1) as usize, val, aligned: true },
            "",
        );
    }
}

/// The instructions with which a function starts are well typed. They need the
/// entry block and the slots of the registers.
pub proof fn law_prologue_typed(helpers: Set<u32>)
    ensures
        well_typed(
            prologue_code(),
            (Scope { blocks: 1, slots: NUM_REGS as nat, helpers }),
        ),
        has_ty(prologue_code(), MEM_START, Ty::I64),
        prologue_code().len() == 25,
        prologue_code()[0].op == (Op::Position { block: ENTRY_BLOCK }),
{
    broadcast use lemma_plus_typed;

    let scope = Scope { blocks: 1, slots: NUM_REGS as nat, helpers };
    let c = plus(seq![], Op::Position { block: ENTRY_BLOCK }, "");
    let c = plus(c, Op::PtrParam { index: 0 }, "mem_start");
    let c = plus(c, Op::IntParam { index: 1 }, "");
    let c = sum_code(c, MEM_START, 2, "mem_end");
    let c = plus(c, Op::PtrParam { index: 2 }, "umem_start");
    let c = plus(c, Op::IntParam { index: 3 }, "");
    let c = sum_code(c, 4, 5, "umem_end");
    let c = plus(c, Op::Stack { size: STACK_SIZE }, "stack_start_addr");
    let c = plus(c, Op::Const { ty: Ty::I64, bits: STACK_SIZE as u64 }, "");
    let c = sum_code(c, 7, 8, "stack_end_addr");
    let c = plus(c, Op::Const { ty: Ty::I64, bits: 0 }, "");
    assert(well_typed(c, scope));
    lemma_fill_typed(c, scope, 10, NUM_REGS as int);
    let f = fill_regs_code(c, 10, NUM_REGS as int);
    assert(f[0] == c[0] && f[1] == c[1] && f[3] == c[3] && f[9] == c[9]);
}

} // verus!
