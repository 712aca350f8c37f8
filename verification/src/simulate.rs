//! Translations do what the programs do.
use crate::cfg::next_slot;
use crate::ebpf::{action, ends_block, insn_at, Action, AluOp, Cond, Insn, NUM_REGS};
use crate::ir::{arg_words, effect, result, BinOp, Inst, Op, Pred, State, Ty, World};
use crate::machine::{
    alu, call_args, faithful, found_jumps, found_operand, law_faithful_step, operand, run_insn,
    run_translated, storable, swap_ty, with_dst, Machine,
};
use crate::translate::{
    alu_code, alu_name, alu_ty, amount_mask, bin_of, branch_code, branch_reg, branch_ty, call_code,
    div_reg_code, dst_code, imm_code, insn_code, is_shift, load_abs_code, load_mem_code, neg_code,
    num, operand_code, plus, pred_of, set_code, set_dst_code, set_dst_masked_code, shift_code,
    src_code, store_code, store_mem_code, supported, swap_code, swaps, wide_imm, Setting,
};
use crate::word::{
    address, bin, lemma_wrap_same, load_word, modulus, slot_part, store_word, swap_bytes, width,
    wrap, ByteOrder,
};
use vstd::prelude::*;

verus! {

/// The state after the instructions from number `from` to the end of the list.
/// `None` where one leaves its block, enters another or is undefined.
pub open spec fn exec_to(world: World, code: Seq<Inst>, from: int, st: State) -> Option<State>
    decreases code.len(),
{
    if code.len() == 0 || code.len() <= from {
        Some(st)
    } else {
        match exec_to(world, code.drop_last(), from, st) {
            Some(s) => effect(world, code.last().op, code.len() - 1, s),
            None => None,
        }
    }
}

pub broadcast proof fn lemma_exec_plus(
    world: World,
    code: Seq<Inst>,
    op: Op,
    name: &'static str,
    from: int,
    st: State,
)
    requires
        from <= code.len(),
    ensures
        #[trigger] exec_to(world, plus(code, op, name), from, st) == (match exec_to(
            world,
            code,
            from,
            st,
        ) {
            Some(s) => effect(world, op, code.len() as int, s),
            None => None,
        }),
{
    assert(plus(code, op, name).drop_last() == code);
}

/// Whether the results of the first `n` instructions are the same.
pub open spec fn same_results(a: State, b: State, n: int) -> bool {
    forall|i: int| 0 <= i < n ==> #[trigger] a.results[i] == b.results[i]
}

proof fn lemma_masks()
    ensures
        forall|x: u64| x < 0x1_0000_0000 ==> #[trigger] (x & 0xffff_ffff) == x,
        forall|x: u64| x < 0x1_0000 ==> #[trigger] (x & 0xffff) == x,
{
    assert(forall|x: u64| x < 0x1_0000_0000 ==> #[trigger] (x & 0xffff_ffff) == x) by (bit_vector);
    assert(forall|x: u64| x < 0x1_0000 ==> #[trigger] (x & 0xffff) == x) by (bit_vector);
}

proof fn lemma_set_exec(
    world: World,
    code: Seq<Inst>,
    insn: Insn,
    val: usize,
    wide: bool,
    from: int,
    st: State,
)
    requires
        from <= code.len(),
        exec_to(world, code, from, st) is Some,
        val < code.len(),
        exec_to(world, code, from, st)->0.results[val as int] < modulus(alu_ty(wide)),
        set_code(code, insn, val, wide).len() <= usize::MAX,
    ensures
        exec_to(world, set_code(code, insn, val, wide), from, st) is Some,
        ({
            let s = exec_to(world, code, from, st)->0;
            let after = exec_to(world, set_code(code, insn, val, wide), from, st)->0;
            &&& after.regs == s.regs.update(insn.dst as int, s.results[val as int])
            &&& after.mem == s.mem
            &&& same_results(s, after, code.len() as int)
        }),
{
    broadcast use lemma_exec_plus;

    lemma_masks();
}

/// The registers and the memory of a state.
pub open spec fn machine_of(st: State) -> Machine {
    Machine { regs: st.regs, mem: st.mem }
}

/// Whether the instructions that `next` has more than `code` take a state to one
/// with the registers and the memory of `m`, and keep the earlier results.
pub open spec fn makes(
    world: World,
    code: Seq<Inst>,
    next: Seq<Inst>,
    st: State,
    m: Machine,
) -> bool {
    &&& exec_to(world, next, code.len() as int, st) is Some
    &&& machine_of(exec_to(world, next, code.len() as int, st)->0) == m
    &&& same_results(st, exec_to(world, next, code.len() as int, st)->0, code.len() as int)
}

/// An immediate or offset as an unsigned word is itself modulo the word size.
proof fn lemma_sign_extend()
    ensures
        forall|x: i32| #[trigger] (x as u64) == if x >= 0 {
            x as int
        } else {
            x + 0x1_0000_0000_0000_0000
        },
        forall|x: i16| #[trigger] (x as u64) == if x >= 0 {
            x as int
        } else {
            x + 0x1_0000_0000_0000_0000
        },
{
    assert(forall|x: i32| #[trigger] (x as u64) == if x >= 0 {
        x + 0
    } else {
        x + 0x1_0000_0000_0000_0000
    }) by (bit_vector);
    assert(forall|x: i16| #[trigger] (x as u64) == if x >= 0 {
        x + 0
    } else {
        x + 0x1_0000_0000_0000_0000
    }) by (bit_vector);
}

/// Sums may be cut to a word at any point.
pub proof fn lemma_wrap_sum(base: u64, off: i16, more: u64)
    ensures
        wrap(Ty::I64, base + wrap(Ty::I64, (off as u64) as int)) == address(base, off as int),
        wrap(Ty::I64, address(base, off as int) + more) == wrap(Ty::I64, base + off + more),
{
    lemma_sign_extend();
    let m = 0x1_0000_0000_0000_0000int;
    assert((off as u64) as int % m == off as u64);
    assert((base + (off as u64)) % m == (base + off) % m);
    assert(((base + off) % m + more) % m == (base + off + more) % m);
}

/// A load of 64 bits from the slot of a register finds all of it.
pub broadcast proof fn lemma_whole_slot(order: ByteOrder, word: u64)
    ensures
        #[trigger] slot_part(order, Ty::I64, word) == word,
{
    assert(word >> 0 == word) by (bit_vector);
}

proof fn lemma_load_abs(
    world: World,
    code: Seq<Inst>,
    insn: Insn,
    ty: Ty,
    ind: bool,
    mem_start: usize,
    st: State,
)
    requires
        mem_start < code.len(),
        st.results[mem_start as int] == world.params[0],
        load_abs_code(code, insn, ty, ind, mem_start).len() <= usize::MAX,
    ensures
        ({
            let base = world.params[0] + insn.off + if ind {
                st.regs[insn.src as int] as int
            } else {
                0
            };
            let word = load_word(world.order, st.mem, wrap(Ty::I64, base), ty);
            makes(
                world,
                code,
                load_abs_code(code, insn, ty, ind, mem_start),
                st,
                with_dst(machine_of(st), insn, word),
            )
        }),
{
    broadcast use {lemma_exec_plus, lemma_whole_slot};

    lemma_wrap_sum(world.params[0], insn.off, 0);
    lemma_wrap_sum(world.params[0], insn.off, st.regs[insn.src as int]);
}

proof fn lemma_load_mem(world: World, code: Seq<Inst>, insn: Insn, ty: Ty, st: State)
    requires
        load_mem_code(code, insn, ty).len() <= usize::MAX,
    ensures
        ({
            let addr = address(st.regs[insn.src as int], insn.off as int);
            makes(
                world,
                code,
                load_mem_code(code, insn, ty),
                st,
                with_dst(machine_of(st), insn, load_word(world.order, st.mem, addr, ty)),
            )
        }),
{
    broadcast use {lemma_exec_plus, lemma_whole_slot};

    lemma_wrap_sum(st.regs[insn.src as int], insn.off, 0);
}

proof fn lemma_store_exec(
    world: World,
    code: Seq<Inst>,
    ty: Ty,
    base: usize,
    off: i16,
    val: usize,
    from: int,
    st: State,
)
    requires
        from <= code.len(),
        exec_to(world, code, from, st) is Some,
        base < code.len(),
        val < code.len(),
        store_code(code, ty, base, off, val).len() <= usize::MAX,
        off != 0 && !world.unaligned ==> address(
            exec_to(world, code, from, st)->0.results[base as int],
            off as int,
        ) % 8 == 0,
    ensures
        exec_to(world, store_code(code, ty, base, off, val), from, st) is Some,
        ({
            let s = exec_to(world, code, from, st)->0;
            let after = exec_to(world, store_code(code, ty, base, off, val), from, st)->0;
            let addr = address(s.results[base as int], off as int);
            &&& after.regs == s.regs
            &&& after.mem == store_word(world.order, s.mem, addr, ty, s.results[val as int])
            &&& same_results(s, after, code.len() as int)
        }),
{
    broadcast use lemma_exec_plus;

    let s = exec_to(world, code, from, st)->0;
    lemma_wrap_sum(s.results[base as int], off, 0);
}

/// An immediate may be cut to a narrow type after it has been cut to 64 bits.
pub proof fn lemma_wrap_imm(ty: Ty, imm: i32)
    ensures
        wrap(Ty::I64, (imm as u64) as int) == imm as u64,
        wrap(ty, (imm as u64) as int) == wrap(ty, imm as int),
{
    lemma_sign_extend();
    let m = 0x1_0000_0000_0000_0000int;
    assert((imm + m) % 2 == imm as int % 2);
    assert((imm + m) % 0x100 == imm as int % 0x100);
    assert((imm + m) % 0x1_0000 == imm as int % 0x1_0000);
    assert((imm + m) % 0x1_0000_0000 == imm as int % 0x1_0000_0000);
}

/// The operands of a store: the word that is stored, cut to the type, and the
/// address in the destination register.
pub proof fn lemma_store_operands(
    world: World,
    code: Seq<Inst>,
    insn: Insn,
    ty: Ty,
    reg: bool,
    c: Seq<Inst>,
    st: State,
)
    requires
        c == if ty == Ty::I64 {
            operand_code(code, insn, Ty::I64, reg)
        } else {
            plus(
                operand_code(code, insn, Ty::I64, reg),
                Op::Trunc { ty, val: num(code, 0) },
                "narrow",
            )
        },
        c.len() + 1 <= usize::MAX,
    ensures
        ({
            let s = exec_to(world, dst_code(c, insn, Ty::I64), code.len() as int, st);
            &&& s is Some
            &&& s->0.results[c.len() - 1] == operand(insn, ty, reg, st.regs)
            &&& s->0.results[c.len() as int] == st.regs[insn.dst as int]
            &&& machine_of(s->0) == machine_of(st)
            &&& same_results(st, s->0, code.len() as int)
        }),
{
    broadcast use {lemma_exec_plus, lemma_whole_slot};

    lemma_wrap_imm(ty, insn.imm);
    assert(exec_to(world, code, code.len() as int, st) == Some(st));
}

proof fn lemma_store_mem(world: World, code: Seq<Inst>, insn: Insn, ty: Ty, reg: bool, st: State)
    requires
        store_mem_code(code, insn, ty, reg).len() <= usize::MAX,
        insn.off != 0 && !world.unaligned ==> address(
            st.regs[insn.dst as int],
            insn.off as int,
        ) % 8 == 0,
    ensures
        ({
            let addr = address(st.regs[insn.dst as int], insn.off as int);
            let word = operand(insn, ty, reg, st.regs);
            makes(
                world,
                code,
                store_mem_code(code, insn, ty, reg),
                st,
                Machine { mem: store_word(world.order, st.mem, addr, ty, word), regs: st.regs },
            )
        }),
{
    let c = operand_code(code, insn, Ty::I64, reg);
    let c = if ty == Ty::I64 {
        c
    } else {
        plus(c, Op::Trunc { ty, val: num(code, 0) }, "narrow")
    };
    let from = code.len() as int;
    lemma_store_operands(world, code, insn, ty, reg, c, st);
    let c2 = dst_code(c, insn, Ty::I64);
    lemma_store_exec(world, c2, ty, num(c, 0), insn.off, num(c, -1), from, st);
}

proof fn lemma_neg(world: World, code: Seq<Inst>, insn: Insn, wide: bool, st: State)
    requires
        neg_code(code, insn, wide).len() <= usize::MAX,
    ensures
        makes(
            world,
            code,
            neg_code(code, insn, wide),
            st,
            with_dst(
                machine_of(st),
                insn,
                wrap(
                    alu_ty(wide),
                    -(slot_part(world.order, alu_ty(wide), st.regs[insn.dst as int]) as int),
                ),
            ),
        ),
{
    broadcast use {lemma_exec_plus, lemma_whole_slot};

    let c = dst_code(code, insn, alu_ty(wide));
    let c = plus(c, Op::Neg { ty: alu_ty(wide), val: num(code, 0) }, "neg32");
    lemma_set_exec(world, c, insn, num(code, 1), wide, code.len() as int, st);
}

proof fn lemma_bits_bound()
    ensures
        forall|a: u64, b: u64|
            a < 0x1_0000_0000 && b < 0x1_0000_0000 ==> #[trigger] (a | b) < 0x1_0000_0000,
        forall|a: u64, b: u64|
            a < 0x1_0000_0000 && b < 0x1_0000_0000 ==> #[trigger] (a ^ b) < 0x1_0000_0000,
        forall|a: u64, b: u64| #[trigger] (a & b) <= a,
        forall|a: u64, b: u64| #[trigger] (a >> b) <= a,
{
    assert(forall|a: u64, b: u64|
        a < 0x1_0000_0000 && b < 0x1_0000_0000 ==> #[trigger] (a | b) < 0x1_0000_0000)
        by (bit_vector);
    assert(forall|a: u64, b: u64|
        a < 0x1_0000_0000 && b < 0x1_0000_0000 ==> #[trigger] (a ^ b) < 0x1_0000_0000)
        by (bit_vector);
    assert(forall|a: u64, b: u64| #[trigger] (a & b) <= a) by (bit_vector);
    assert(forall|a: u64, b: u64| #[trigger] (a >> b) <= a) by (bit_vector);
}

/// The operation that does the work of an arithmetic operation computes its
/// result, where it is defined.
pub proof fn lemma_bin_is_alu(op: AluOp, wide: bool, a: u64, b: u64)
    requires
        op != AluOp::Mov,
        a < modulus(alu_ty(wide)),
        b < modulus(alu_ty(wide)),
        op == AluOp::Div || op == AluOp::Mod ==> b != 0,
        op == AluOp::Lsh || op == AluOp::Rsh || op == AluOp::Arsh ==> b < width(alu_ty(wide)),
    ensures
        bin(bin_of(op), alu_ty(wide), a, b) == Some(alu(op, alu_ty(wide), a, b)),
        alu(op, alu_ty(wide), a, b) < modulus(alu_ty(wide)),
{
    lemma_bits_bound();
    let w = width(alu_ty(wide)) as u64;
    assert(w == 32 || w == 64);
    assert(b < w ==> b % w == b);
    if op == AluOp::Div {
        assert(a / b <= a) by (nonlinear_arith)
            requires
                b > 0,
        ;
    }
    if op == AluOp::Mod {
        assert(a % b < b) by (nonlinear_arith)
            requires
                b > 0,
        ;
    }
}

/// Whether the instructions of a list from `from` on take a state to one that
/// has the same registers and memory, keeps the earlier results, and has the
/// given words as results of the instructions from `from` on.
spec fn computes(world: World, code: Seq<Inst>, from: int, st: State, words: Seq<u64>) -> bool {
    let s = exec_to(world, code, from, st);
    &&& s is Some
    &&& code.len() == from + words.len()
    &&& machine_of(s->0) == machine_of(st)
    &&& same_results(st, s->0, from)
    &&& forall|k: int| 0 <= k < words.len() ==> s->0.results[from + k] == #[trigger] words[k]
}

proof fn lemma_computes_none(world: World, code: Seq<Inst>, st: State)
    ensures
        computes(world, code, code.len() as int, st, seq![]),
{
}

/// One more instruction that only has a result.
proof fn lemma_computes(
    world: World,
    code: Seq<Inst>,
    from: int,
    st: State,
    words: Seq<u64>,
    op: Op,
    name: &'static str,
    word: u64,
)
    requires
        0 <= from,
        computes(world, code, from, st, words),
        effect(world, op, code.len() as int, exec_to(world, code, from, st)->0) == Some(
            result(exec_to(world, code, from, st)->0, code.len() as int, word),
        ),
    ensures
        computes(world, plus(code, op, name), from, st, words.push(word)),
{
    lemma_exec_plus(world, code, op, name, from, st);
    let s = exec_to(world, plus(code, op, name), from, st)->0;
    assert forall|k: int| 0 <= k < words.push(word).len() implies s.results[from + k]
        == #[trigger] words.push(word)[k] by {
        if k < words.len() {
            assert(words.push(word)[k] == words[k]);
        }
    }
}

/// A computed word that goes to the destination register.
proof fn lemma_computed_set(
    world: World,
    code: Seq<Inst>,
    c: Seq<Inst>,
    st: State,
    words: Seq<u64>,
    insn: Insn,
    wide: bool,
)
    requires
        computes(world, c, code.len() as int, st, words),
        words.len() > 0,
        words.last() < modulus(alu_ty(wide)),
        set_code(c, insn, num(c, -1), wide).len() <= usize::MAX,
    ensures
        makes(
            world,
            code,
            set_code(c, insn, num(c, -1), wide),
            st,
            with_dst(machine_of(st), insn, words.last()),
        ),
{
    let from = code.len() as int;
    lemma_set_exec(world, c, insn, num(c, -1), wide, from, st);
    let s = exec_to(world, c, from, st)->0;
    assert(s.results[from + (words.len() - 1)] == words[words.len() - 1]);
}

proof fn lemma_div_reg(world: World, code: Seq<Inst>, insn: Insn, op: AluOp, wide: bool, st: State)
    requires
        op == AluOp::Div || op == AluOp::Mod,
        div_reg_code(code, insn, op, wide).len() <= usize::MAX,
    ensures
        ({
            let ty = alu_ty(wide);
            let a = slot_part(world.order, ty, st.regs[insn.dst as int]);
            makes(
                world,
                code,
                div_reg_code(code, insn, op, wide),
                st,
                with_dst(
                    machine_of(st),
                    insn,
                    alu(op, ty, a, found_operand(world.order, insn, ty, true, st.regs)),
                ),
            )
        }),
{
    let ty = alu_ty(wide);
    let a = slot_part(world.order, ty, st.regs[insn.dst as int]);
    let b = found_operand(world.order, insn, ty, true, st.regs);
    let from = code.len() as int;
    let is_zero: u64 = if b == 0 {
        1
    } else {
        0
    };
    let safe: u64 = if b == 0 {
        1
    } else {
        b
    };
    lemma_computes_none(world, code, st);
    let op0 = Op::Const { ty, bits: 0 };
    lemma_computes(world, code, from, st, seq![], op0, "", 0);
    let c = plus(code, op0, "");
    let op1 = Op::Const { ty, bits: 1 };
    let w = seq![].push(0u64);
    lemma_computes(world, c, from, st, w, op1, "", 1);
    let c = plus(c, op1, "");
    let w = w.push(1);
    lemma_computes(
        world,
        c,
        from,
        st,
        w,
        Op::LoadReg { ty, reg: insn.dst as usize },
        "dst_val",
        a,
    );
    let c = dst_code(c, insn, ty);
    let w = w.push(a);
    lemma_computes(
        world,
        c,
        from,
        st,
        w,
        Op::LoadReg { ty, reg: insn.src as usize },
        "src_val",
        b,
    );
    let c = src_code(c, insn, ty);
    let w = w.push(b);
    let s = exec_to(world, c, from, st)->0;
    assert(s.results[from + 0] == w[0] && s.results[from + 3] == w[3]);
    let op4 = Op::Cmp { pred: Pred::Eq, ty, lhs: num(code, 3), rhs: num(code, 0) };
    lemma_computes(world, c, from, st, w, op4, "rhs_is_zero", is_zero);
    let c = plus(c, op4, "rhs_is_zero");
    let w = w.push(is_zero);
    let s = exec_to(world, c, from, st)->0;
    assert(s.results[from + 4] == w[4] && s.results[from + 1] == w[1] && s.results[from + 3]
        == w[3]);
    let op5 = Op::Select { ty, cond: num(code, 4), yes: num(code, 1), no: num(code, 3) };
    lemma_computes(world, c, from, st, w, op5, "safe_rhs", safe);
    let c = plus(c, op5, "safe_rhs");
    let w = w.push(safe);
    let s = exec_to(world, c, from, st)->0;
    assert(s.results[from + 2] == w[2] && s.results[from + 5] == w[5]);
    lemma_bin_is_alu(op, wide, a, safe);
    let op6 = Op::Bin { op: bin_of(op), ty, lhs: num(code, 2), rhs: num(code, 5) };
    let name = alu_name(op, wide, true);
    lemma_computes(world, c, from, st, w, op6, name, alu(op, ty, a, safe));
    let c = plus(c, op6, name);
    let w = w.push(alu(op, ty, a, safe));
    let by_zero = if op == AluOp::Div {
        num(code, 0)
    } else {
        num(code, 2)
    };
    let s = exec_to(world, c, from, st)->0;
    assert(s.results[from + 0] == w[0] && s.results[from + 2] == w[2] && s.results[from + 4]
        == w[4] && s.results[from + 6] == w[6]);
    let op7 = Op::Select { ty, cond: num(code, 4), yes: by_zero, no: num(code, 6) };
    lemma_computes(world, c, from, st, w, op7, "res", alu(op, ty, a, b));
    let c = plus(c, op7, "res");
    lemma_computed_set(world, code, c, st, w.push(alu(op, ty, a, b)), insn, wide);
}

/// The second operand, as one more result.
proof fn lemma_computes_operand(
    world: World,
    code: Seq<Inst>,
    from: int,
    st: State,
    words: Seq<u64>,
    insn: Insn,
    ty: Ty,
    reg: bool,
)
    requires
        0 <= from,
        computes(world, code, from, st, words),
    ensures
        computes(
            world,
            operand_code(code, insn, ty, reg),
            from,
            st,
            words.push(found_operand(world.order, insn, ty, reg, st.regs)),
        ),
{
    lemma_wrap_imm(ty, insn.imm);
    let op = if reg {
        Op::LoadReg { ty, reg: insn.src as usize }
    } else {
        Op::Const { ty, bits: insn.imm as u64 }
    };
    let name = if reg {
        "src_val"
    } else {
        ""
    };
    let word = found_operand(world.order, insn, ty, reg, st.regs);
    lemma_computes(world, code, from, st, words, op, name, word);
}

/// The destination register, as one more result.
proof fn lemma_computes_dst(
    world: World,
    code: Seq<Inst>,
    from: int,
    st: State,
    words: Seq<u64>,
    insn: Insn,
    ty: Ty,
)
    requires
        0 <= from,
        computes(world, code, from, st, words),
    ensures
        computes(
            world,
            dst_code(code, insn, ty),
            from,
            st,
            words.push(slot_part(world.order, ty, st.regs[insn.dst as int])),
        ),
{
    lemma_computes(
        world,
        code,
        from,
        st,
        words,
        Op::LoadReg { ty, reg: insn.dst as usize },
        "dst_val",
        slot_part(world.order, ty, st.regs[insn.dst as int]),
    );
}

/// A binary operation on two earlier results, which goes to the destination
/// register.
proof fn lemma_bin_set(
    world: World,
    code: Seq<Inst>,
    c: Seq<Inst>,
    st: State,
    words: Seq<u64>,
    insn: Insn,
    op: AluOp,
    wide: bool,
    reg: bool,
    l: int,
    r: int,
)
    requires
        computes(world, c, code.len() as int, st, words),
        words.len() == 2,
        0 <= l < 2,
        0 <= r < 2,
        op != AluOp::Mov,
        words[l] < modulus(alu_ty(wide)),
        words[r] < modulus(alu_ty(wide)),
        op == AluOp::Div || op == AluOp::Mod ==> words[r] != 0,
        op == AluOp::Lsh || op == AluOp::Rsh || op == AluOp::Arsh ==> words[r] < width(
            alu_ty(wide),
        ),
        c.len() + 5 <= usize::MAX || wide && c.len() + 2 <= usize::MAX,
    ensures
        ({
            let ty = alu_ty(wide);
            let bin = Op::Bin { op: bin_of(op), ty, lhs: num(code, l), rhs: num(code, r) };
            makes(
                world,
                code,
                set_code(plus(c, bin, alu_name(op, wide, reg)), insn, num(code, 2), wide),
                st,
                with_dst(machine_of(st), insn, alu(op, ty, words[l], words[r])),
            )
        }),
{
    let ty = alu_ty(wide);
    let from = code.len() as int;
    let bin = Op::Bin { op: bin_of(op), ty, lhs: num(code, l), rhs: num(code, r) };
    let s = exec_to(world, c, from, st)->0;
    assert(s.results[from + l] == words[l] && s.results[from + r] == words[r]);
    lemma_bin_is_alu(op, wide, words[l], words[r]);
    let word = alu(op, ty, words[l], words[r]);
    lemma_computes(world, c, from, st, words, bin, alu_name(op, wide, reg), word);
    let c = plus(c, bin, alu_name(op, wide, reg));
    lemma_computed_set(world, code, c, st, words.push(word), insn, wide);
}

/// A shift amount, cut to the bits that count.
proof fn lemma_amount(wide: bool, b: u64)
    ensures
        b & amount_mask(wide) == b % (width(alu_ty(wide)) as u64),
        b % (width(alu_ty(wide)) as u64) < width(alu_ty(wide)),
{
    assert(b & 63 == b % 64) by (bit_vector);
    assert(b & 31 == b % 32) by (bit_vector);
}

proof fn lemma_shift(
    world: World,
    code: Seq<Inst>,
    insn: Insn,
    op: AluOp,
    wide: bool,
    reg: bool,
    st: State,
)
    requires
        is_shift(op),
        shift_code(code, insn, op, wide, reg).len() <= usize::MAX,
    ensures
        ({
            let ty = alu_ty(wide);
            let a = slot_part(world.order, ty, st.regs[insn.dst as int]);
            makes(
                world,
                code,
                shift_code(code, insn, op, wide, reg),
                st,
                with_dst(
                    machine_of(st),
                    insn,
                    alu(op, ty, a, found_operand(world.order, insn, ty, reg, st.regs)),
                ),
            )
        }),
{
    let ty = alu_ty(wide);
    let a = slot_part(world.order, ty, st.regs[insn.dst as int]);
    let b = found_operand(world.order, insn, ty, reg, st.regs);
    let mask = amount_mask(wide);
    let amount = b & mask;
    let from = code.len() as int;
    let none: Seq<u64> = seq![];
    lemma_amount(wide, b);
    lemma_wrap_same(ty, mask);
    lemma_computes_none(world, code, st);
    lemma_computes_dst(world, code, from, st, none, insn, ty);
    let c = dst_code(code, insn, ty);
    lemma_computes_operand(world, c, from, st, none.push(a), insn, ty, reg);
    let c = operand_code(c, insn, ty, reg);
    let w = none.push(a).push(b);
    let op2 = Op::Const { ty, bits: mask };
    lemma_computes(world, c, from, st, w, op2, "", mask);
    let c = plus(c, op2, "");
    let w = w.push(mask);
    let s = exec_to(world, c, from, st)->0;
    assert(s.results[from + 1] == w[1] && s.results[from + 2] == w[2]);
    let op3 = Op::Bin { op: BinOp::And, ty, lhs: num(code, 1), rhs: num(code, 2) };
    lemma_computes(world, c, from, st, w, op3, "amount", amount);
    let c = plus(c, op3, "amount");
    let w = w.push(amount);
    let s = exec_to(world, c, from, st)->0;
    assert(s.results[from + 0] == w[0] && s.results[from + 3] == w[3]);
    lemma_bin_is_alu(op, wide, a, amount);
    let word = alu(op, ty, a, b);
    assert(alu(op, ty, a, amount) == word);
    let op4 = Op::Bin { op: bin_of(op), ty, lhs: num(code, 0), rhs: num(code, 3) };
    let name = alu_name(op, wide, reg);
    lemma_computes(world, c, from, st, w, op4, name, word);
    let c = plus(c, op4, name);
    lemma_computed_set(world, code, c, st, w.push(word), insn, wide);
}

proof fn lemma_alu(
    world: World,
    code: Seq<Inst>,
    insn: Insn,
    op: AluOp,
    wide: bool,
    reg: bool,
    st: State,
)
    requires
        alu_code(code, insn, op, wide, reg).len() <= usize::MAX,
    ensures
        ({
            let ty = alu_ty(wide);
            let a = slot_part(world.order, ty, st.regs[insn.dst as int]);
            makes(
                world,
                code,
                alu_code(code, insn, op, wide, reg),
                st,
                if op == AluOp::Mod && !reg && insn.imm == 0 {
                    machine_of(st)
                } else {
                    with_dst(
                        machine_of(st),
                        insn,
                        alu(op, ty, a, found_operand(world.order, insn, ty, reg, st.regs)),
                    )
                },
            )
        }),
{
    let ty = alu_ty(wide);
    let a = slot_part(world.order, ty, st.regs[insn.dst as int]);
    let b = found_operand(world.order, insn, ty, reg, st.regs);
    let from = code.len() as int;
    let none: Seq<u64> = seq![];
    lemma_computes_none(world, code, st);
    if op == AluOp::Mov {
        lemma_computes_operand(world, code, from, st, none, insn, ty, reg);
        let c = operand_code(code, insn, ty, reg);
        lemma_computed_set(world, code, c, st, none.push(b), insn, wide);
    } else if op == AluOp::Div || op == AluOp::Mod {
        if reg {
            lemma_div_reg(world, code, insn, op, wide, st);
        } else if insn.imm != 0 {
            assert(b != 0) by {
                assert(b == insn.imm as int % modulus(ty));
                if wide {
                    assert(modulus(ty) == 0x1_0000_0000_0000_0000);
                } else {
                    assert(modulus(ty) == 0x1_0000_0000);
                }
            }
            lemma_computes_operand(world, code, from, st, none, insn, ty, false);
            let c = imm_code(code, insn, ty);
            lemma_computes_dst(world, c, from, st, none.push(b), insn, ty);
            let words = none.push(b).push(a);
            let c = dst_code(c, insn, ty);
            lemma_bin_set(world, code, c, st, words, insn, op, wide, reg, 1, 0);
        } else if op == AluOp::Div {
            let c = plus(code, Op::Const { ty, bits: 0 }, "");
            lemma_wrap_same(ty, 0);
            lemma_computes(world, code, from, st, none, Op::Const { ty, bits: 0 }, "", 0);
            lemma_computed_set(world, code, c, st, none.push(0), insn, wide);
            assert(b == 0);
        }
    } else if is_shift(op) {
        lemma_shift(world, code, insn, op, wide, reg, st);
    } else {
        lemma_computes_dst(world, code, from, st, none, insn, ty);
        let c = dst_code(code, insn, ty);
        lemma_computes_operand(world, c, from, st, none.push(a), insn, ty, reg);
        let words = none.push(a).push(b);
        let c = operand_code(c, insn, ty, reg);
        lemma_bin_set(world, code, c, st, words, insn, op, wide, reg, 0, 1);
    }
}

/// A computed word that fits a mask and goes to the destination register
/// through it.
proof fn lemma_masked_set(
    world: World,
    code: Seq<Inst>,
    c: Seq<Inst>,
    st: State,
    words: Seq<u64>,
    insn: Insn,
    mask: u64,
)
    requires
        computes(world, c, code.len() as int, st, words),
        words.len() > 0,
        words.last() & mask == words.last(),
        set_dst_masked_code(c, insn, num(c, -1), mask).len() <= usize::MAX,
    ensures
        makes(
            world,
            code,
            set_dst_masked_code(c, insn, num(c, -1), mask),
            st,
            with_dst(machine_of(st), insn, words.last()),
        ),
{
    let from = code.len() as int;
    let n = words.len() as int;
    let word = words.last();
    let op0 = Op::Const { ty: Ty::I64, bits: mask };
    lemma_wrap_same(Ty::I64, mask);
    lemma_computes(world, c, from, st, words, op0, "", mask);
    let c1 = plus(c, op0, "");
    let w = words.push(mask);
    let s = exec_to(world, c1, from, st)->0;
    assert(s.results[from + (n - 1)] == w[n - 1]);
    let op1 = Op::ZExt { ty: Ty::I64, val: num(c, -1) };
    lemma_computes(world, c1, from, st, w, op1, "val", word);
    let c2 = plus(c1, op1, "val");
    let w = w.push(word);
    let s = exec_to(world, c2, from, st)->0;
    assert(s.results[from + n] == w[n] && s.results[from + (n + 1)] == w[n + 1]);
    let op2 = Op::Bin { op: BinOp::And, ty: Ty::I64, lhs: num(c, 1), rhs: num(c, 0) };
    lemma_computes(world, c2, from, st, w, op2, "masked_val", word);
    let c3 = plus(c2, op2, "masked_val");
    let w = w.push(word);
    let s = exec_to(world, c3, from, st)->0;
    assert(s.results[from + (n + 2)] == w[n + 2]);
    lemma_exec_plus(
        world,
        c3,
        Op::StoreReg { reg: insn.dst as usize, val: num(c, 2), aligned: false },
        "",
        from,
        st,
    );
}

proof fn lemma_swap(
    world: World,
    code: Seq<Inst>,
    insn: Insn,
    big: bool,
    st: State,
)
    requires
        swap_code(code, insn, world.order, big).len() <= usize::MAX,
    ensures
        ({
            let ty = swap_ty(insn.imm);
            let word = slot_part(world.order, ty, st.regs[insn.dst as int]);
            makes(
                world,
                code,
                swap_code(code, insn, world.order, big),
                st,
                if swaps(world.order, big) {
                    with_dst(machine_of(st), insn, swap_bytes(ty, word))
                } else {
                    machine_of(st)
                },
            )
        }),
{
    let ty = swap_ty(insn.imm);
    let from = code.len() as int;
    let none: Seq<u64> = seq![];
    let word = slot_part(world.order, ty, st.regs[insn.dst as int]);
    if swaps(world.order, big) {
        lemma_computes_none(world, code, st);
        lemma_computes_dst(world, code, from, st, none, insn, ty);
        let c = dst_code(code, insn, ty);
        let w = none.push(word);
        let s = exec_to(world, c, from, st)->0;
        assert(s.results[from + 0] == w[0]);
        let op = Op::Bswap { ty, val: num(code, 0) };
        let swapped = swap_bytes(ty, word);
        let name = if insn.imm == 16 {
            "bswap16"
        } else if insn.imm == 32 {
            "bswap32"
        } else {
            "bswap64"
        };
        lemma_computes(world, c, from, st, w, op, name, swapped);
        let c = plus(c, op, name);
        let w = w.push(swapped);
        lemma_masks();
        if insn.imm == 16 {
            lemma_masked_set(world, code, c, st, w, insn, 0xffff);
        } else if insn.imm == 32 {
            lemma_masked_set(world, code, c, st, w, insn, 0xffff_ffff);
        } else {
            lemma_computed_set(world, code, c, st, w, insn, true);
        }
    }
}

/// A load of a register of 64 bits, as one more result.
proof fn lemma_computes_reg(
    world: World,
    code: Seq<Inst>,
    from: int,
    st: State,
    words: Seq<u64>,
    reg: usize,
    name: &'static str,
)
    requires
        0 <= from,
        computes(world, code, from, st, words),
    ensures
        computes(
            world,
            plus(code, Op::LoadReg { ty: Ty::I64, reg }, name),
            from,
            st,
            words.push(st.regs[reg as int]),
        ),
{
    lemma_whole_slot(world.order, st.regs[reg as int]);
    lemma_computes(
        world,
        code,
        from,
        st,
        words,
        Op::LoadReg { ty: Ty::I64, reg },
        name,
        st.regs[reg as int],
    );
}

proof fn lemma_call(world: World, code: Seq<Inst>, helper: u32, st: State)
    requires
        call_code(code, helper).len() <= usize::MAX,
    ensures
        ({
            let (word, mem) = (world.helper)(helper, call_args(st.regs), st.mem);
            makes(
                world,
                code,
                call_code(code, helper),
                st,
                Machine { regs: st.regs.update(0, word), mem },
            )
        }),
{
    let from = code.len() as int;
    let w: Seq<u64> = seq![];
    lemma_computes_none(world, code, st);
    lemma_computes_reg(world, code, from, st, w, 1, "arg1");
    let c = plus(code, Op::LoadReg { ty: Ty::I64, reg: 1 }, "arg1");
    let w = w.push(st.regs[1]);
    lemma_computes_reg(world, c, from, st, w, 2, "arg2");
    let c = plus(c, Op::LoadReg { ty: Ty::I64, reg: 2 }, "arg2");
    let w = w.push(st.regs[2]);
    lemma_computes_reg(world, c, from, st, w, 3, "arg3");
    let c = plus(c, Op::LoadReg { ty: Ty::I64, reg: 3 }, "arg3");
    let w = w.push(st.regs[3]);
    lemma_computes_reg(world, c, from, st, w, 4, "arg4");
    let c = plus(c, Op::LoadReg { ty: Ty::I64, reg: 4 }, "arg4");
    let w = w.push(st.regs[4]);
    lemma_computes_reg(world, c, from, st, w, 5, "arg5");
    let c = plus(c, Op::LoadReg { ty: Ty::I64, reg: 5 }, "arg5");
    let w = w.push(st.regs[5]);
    let s = exec_to(world, c, from, st)->0;
    assert(s.results[from + 0] == w[0] && s.results[from + 1] == w[1] && s.results[from + 2]
        == w[2] && s.results[from + 3] == w[3] && s.results[from + 4] == w[4]);
    let args = [num(code, 0), num(code, 1), num(code, 2), num(code, 3), num(code, 4)];
    assert(arg_words(s, args) == call_args(st.regs)) by {
        assert forall|k: int| 0 <= k < 5 implies arg_words(s, args)[k] == call_args(st.regs)[k] by {
            assert(k == 0 || k == 1 || k == 2 || k == 3 || k == 4);
        }
    }
    lemma_exec_plus(world, c, Op::Call { helper, args }, "call_", from, st);
    let c = plus(c, Op::Call { helper, args }, "call_");
    lemma_exec_plus(
        world,
        c,
        Op::StoreReg { reg: 0, val: num(code, 5), aligned: true },
        "",
        from,
        st,
    );
}

/// Whether a run stands in a function with the setting: the slots of all
/// registers exist, and the start of the packet has been computed.
pub open spec fn ready(set: Setting, world: World, code: Seq<Inst>, st: State) -> bool {
    &&& world.order == set.order
    &&& st.regs.len() == NUM_REGS
    &&& set.mem_start < code.len()
    &&& st.results[set.mem_start as int] == world.params[0]
}

/// What the translation of an instruction that does not end its block does to the
/// registers and the memory.
#[verifier::rlimit(60)]
#[verifier::spinoff_prover]
pub proof fn law_insn_does_exactly(
    set: Setting,
    world: World,
    code: Seq<Inst>,
    prog: Seq<u8>,
    pc: int,
    st: State,
)
    requires
        ready(set, world, code, st),
        supported(set.order, prog, pc),
        !ends_block(insn_at(prog, pc).opc),
        storable(prog, world, pc, machine_of(st)),
        insn_code(set, code, prog, pc).len() <= usize::MAX,
    ensures
        ({
            let after = run_translated(prog, world, pc, machine_of(st));
            &&& after is At
            &&& after->pc == next_slot(prog, pc)
            &&& makes(world, code, insn_code(set, code, prog, pc), st, after->m)
        }),
{
    let insn = insn_at(prog, pc);
    match action(insn.opc) {
        Some(Action::LoadAbs { ty, ind }) => {
            lemma_load_abs(world, code, insn, ty, ind, set.mem_start, st);
        },
        Some(Action::LoadImm) => {
            let bits = wide_imm(insn, insn_at(prog, pc + 1));
            let op = Op::Const { ty: Ty::I64, bits };
            lemma_computes_none(world, code, st);
            lemma_wrap_same(Ty::I64, bits);
            lemma_computes(world, code, code.len() as int, st, seq![], op, "", bits);
            let words = seq![].push(bits);
            lemma_computed_set(world, code, plus(code, op, ""), st, words, insn, true);
        },
        Some(Action::Load { ty }) => {
            lemma_load_mem(world, code, insn, ty, st);
        },
        Some(Action::Store { ty, reg }) => {
            lemma_store_mem(world, code, insn, ty, reg, st);
        },
        Some(Action::Alu { op, wide, reg }) => {
            lemma_alu(world, code, insn, op, wide, reg, st);
        },
        Some(Action::Neg { wide }) => {
            lemma_neg(world, code, insn, wide, st);
        },
        Some(Action::Swap { big }) => {
            lemma_swap(world, code, insn, big, st);
        },
        Some(Action::Call) => {
            lemma_call(world, code, insn.imm as u32, st);
        },
        _ => {},
    }
}

/// The translation of an instruction that does not end its block does to the
/// registers and the memory what the instruction does.
pub proof fn law_insn_does(
    set: Setting,
    world: World,
    code: Seq<Inst>,
    prog: Seq<u8>,
    pc: int,
    st: State,
)
    requires
        ready(set, world, code, st),
        supported(set.order, prog, pc),
        !ends_block(insn_at(prog, pc).opc),
        faithful(prog, world, pc, machine_of(st)),
        insn_code(set, code, prog, pc).len() <= usize::MAX,
    ensures
        ({
            let after = run_insn(prog, world, pc, machine_of(st));
            &&& after is At
            &&& after->pc == next_slot(prog, pc)
            &&& makes(world, code, insn_code(set, code, prog, pc), st, after->m)
        }),
{
    law_faithful_step(prog, world, pc, machine_of(st));
    law_insn_does_exactly(set, world, code, prog, pc, st);
}

/// The comparison of a conditional jump: the condition, as the result of the
/// last instruction before the jump.
pub proof fn lemma_branch(
    world: World,
    code: Seq<Inst>,
    insn: Insn,
    cond: Cond,
    blocks: (usize, usize),
    st: State,
)
    requires
        branch_code(code, insn, cond, blocks).len() <= usize::MAX,
        branch_ty(insn.opc) == Ty::I32,
    ensures
        ({
            let all = branch_code(code, insn, cond, blocks);
            let most = all.drop_last();
            let from = code.len() as int;
            &&& makes(world, code, most, st, machine_of(st))
            &&& most.len() > code.len()
            &&& all.last().op == (Op::CondBr {
                cond: num(most, -1),
                yes: blocks.1,
                no: blocks.0,
            })
            &&& exec_to(world, most, from, st)->0.results[most.len() - 1] == if found_jumps(
                world.order,
                insn,
                cond,
                st.regs,
            ) {
                1u64
            } else {
                0u64
            }
        }),
{
    let ty = Ty::I32;
    let from = code.len() as int;
    let none: Seq<u64> = seq![];
    let reg = branch_reg(insn.opc);
    let a = slot_part(world.order, ty, st.regs[insn.dst as int]);
    let b = found_operand(world.order, insn, ty, reg, st.regs);
    let res: u64 = if found_jumps(world.order, insn, cond, st.regs) {
        1
    } else {
        0
    };
    lemma_computes_none(world, code, st);
    lemma_computes_dst(world, code, from, st, none, insn, ty);
    let c = dst_code(code, insn, ty);
    lemma_computes_operand(world, c, from, st, none.push(a), insn, ty, reg);
    let c = operand_code(c, insn, ty, reg);
    let w = none.push(a).push(b);
    let s = exec_to(world, c, from, st)->0;
    assert(s.results[from + 0] == w[0] && s.results[from + 1] == w[1]);
    let all = branch_code(code, insn, cond, blocks);
    if cond == Cond::AnyBit {
        let op2 = Op::Bin { op: BinOp::And, ty, lhs: num(code, 0), rhs: num(code, 1) };
        lemma_computes(world, c, from, st, w, op2, "jset", a & b);
        let c = plus(c, op2, "jset");
        let w = w.push(a & b);
        let op3 = Op::Const { ty, bits: 0 };
        lemma_computes(world, c, from, st, w, op3, "", 0);
        let c = plus(c, op3, "");
        let w = w.push(0);
        let s = exec_to(world, c, from, st)->0;
        assert(s.results[from + 2] == w[2] && s.results[from + 3] == w[3]);
        let op4 = Op::Cmp { pred: Pred::Ne, ty, lhs: num(code, 2), rhs: num(code, 3) };
        lemma_computes(world, c, from, st, w, op4, "jset_cond", res);
        let c = plus(c, op4, "jset_cond");
        let w = w.push(res);
        let s = exec_to(world, c, from, st)->0;
        assert(s.results[from + 4] == w[4]);
        assert(all.drop_last() == c);
    } else {
        let op2 = Op::Cmp { pred: pred_of(cond), ty, lhs: num(code, 0), rhs: num(code, 1) };
        lemma_computes(world, c, from, st, w, op2, "cmp_res", res);
        let c = plus(c, op2, "cmp_res");
        let w = w.push(res);
        let s = exec_to(world, c, from, st)->0;
        assert(s.results[from + 2] == w[2]);
        assert(all.drop_last() == c);
    }
}

/// A read of a destination register after a write of one finds what was written,
/// if it is the same register, and else what the register held.
pub proof fn law_dst_after_set(
    world: World,
    code: Seq<Inst>,
    written: Insn,
    read: Insn,
    val: usize,
    st: State,
)
    requires
        written.dst < NUM_REGS,
        read.dst < NUM_REGS,
        st.regs.len() == NUM_REGS,
    ensures
        ({
            let next = dst_code(set_dst_code(code, written, val), read, Ty::I64);
            let after = exec_to(world, next, code.len() as int, st);
            &&& after is Some
            &&& after->0.results[code.len() as int + 1] == if read.dst == written.dst {
                st.results[val as int]
            } else {
                st.regs[read.dst as int]
            }
        }),
{
    broadcast use {lemma_exec_plus, lemma_whole_slot};

}

} // verus!
