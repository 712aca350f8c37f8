//! What the pieces do that translations are made of, and how a run goes through them.
use crate::arith::{is_bitwise, law_bitwise, lemma_two_to, two_to};
use crate::ebpf::{AluOp, Insn, NUM_REGS};
use crate::ir::{effect, enter, step, steps, Inst, Op, Run, State, Ty, World};
use crate::isa::{
    byte_place, holds_bytes, lemma_loaded, lemma_slot_read, lemma_stored, past, slot_read,
};
use crate::meaning::ty_bits;
use crate::simulate::{exec_to, lemma_exec_plus, lemma_wrap_imm, lemma_wrap_sum};
use crate::translate::{
    alu_name, dst_code, imm_code, load_code, num, plus, set_dst32_code, set_dst_code,
    set_dst_masked_code, src_code, store_code,
};
use vstd::prelude::*;

verus! {

/// Reading a register or an immediate adds one instruction. Its result is what the slot
/// of that register holds, or the immediate cut to the type; nothing else changes.
pub proof fn law_operands(world: World, code: Seq<Inst>, insn: Insn, ty: Ty, st: State)
    requires
        ty == Ty::I16 || ty == Ty::I32 || ty == Ty::I64,
    ensures
        ({
            let n = code.len() as int;
            let dst = exec_to(world, dst_code(code, insn, ty), n, st);
            let src = exec_to(world, src_code(code, insn, ty), n, st);
            let imm = exec_to(world, imm_code(code, insn, ty), n, st);
            let word = insn.imm as int % two_to(ty_bits(ty));
            let a = slot_read(world.order, ty_bits(ty), st.regs[insn.dst as int]);
            let b = slot_read(world.order, ty_bits(ty), st.regs[insn.src as int]);
            &&& dst_code(code, insn, ty).len() == n + 1
            &&& src_code(code, insn, ty).len() == n + 1
            &&& imm_code(code, insn, ty).len() == n + 1
            &&& dst == Some(State { results: st.results.insert(n, a as u64), ..st })
            &&& src == Some(State { results: st.results.insert(n, b as u64), ..st })
            &&& imm == Some(State { results: st.results.insert(n, word as u64), ..st })
        }),
{
    let n = code.len() as int;
    let load_dst = Op::LoadReg { ty, reg: insn.dst as usize };
    let load_src = Op::LoadReg { ty, reg: insn.src as usize };
    let bits = Op::Const { ty, bits: insn.imm as u64 };
    lemma_two_to();
    lemma_wrap_imm(ty, insn.imm);
    lemma_slot_read(world.order, ty, st.regs[insn.dst as int]);
    lemma_slot_read(world.order, ty, st.regs[insn.src as int]);
    lemma_exec_plus(world, code, load_dst, "dst_val", n, st);
    lemma_exec_plus(world, code, load_src, "src_val", n, st);
    lemma_exec_plus(world, code, bits, "", n, st);
}

/// Filling the destination register changes that register alone. It gets the result of 64
/// bits as it is, of one of 32 bits the 32 bits with zeros above them, and of one that is
/// masked the bits that the mask has too.
#[verifier::rlimit(40)]
#[verifier::spinoff_prover]
pub proof fn law_fills(
    world: World,
    code: Seq<Inst>,
    insn: Insn,
    val: usize,
    mask: u64,
    st: State,
)
    requires
        val < code.len(),
        code.len() + 4 <= usize::MAX,
        st.regs.len() == NUM_REGS,
        insn.dst <= 10,
    ensures
        ({
            let n = code.len() as int;
            let word = st.results[val as int];
            let whole = exec_to(world, set_dst_code(code, insn, val), n, st);
            let half = exec_to(world, set_dst32_code(code, insn, val), n, st);
            let masked = exec_to(world, set_dst_masked_code(code, insn, val, mask), n, st);
            let d = insn.dst as int;
            &&& whole is Some && half is Some && masked is Some
            &&& whole->0.mem == st.mem && half->0.mem == st.mem && masked->0.mem == st.mem
            &&& whole->0.regs.len() == 11 && half->0.regs.len() == 11 && masked->0.regs.len() == 11
            &&& forall|r: int|
                0 <= r < 11 && r != d ==> #[trigger] whole->0.regs[r] == st.regs[r]
            &&& forall|r: int|
                0 <= r < 11 && r != d ==> #[trigger] half->0.regs[r] == st.regs[r]
            &&& forall|r: int|
                0 <= r < 11 && r != d ==> #[trigger] masked->0.regs[r] == st.regs[r]
            &&& whole->0.regs[d] == word
            &&& half->0.regs[d] == word as int % two_to(32)
            &&& is_bitwise(
                |x: bool, y: bool| x && y,
                word as int,
                mask as int,
                masked->0.regs[d] as int,
            )
        }),
{
    broadcast use lemma_exec_plus;

    let word = st.results[val as int];
    lemma_two_to();
    assert(word & 0xffff_ffff == word % 0x1_0000_0000) by (bit_vector);
    law_bitwise(word, mask);
}

/// A load adds the offset to the base and reads there, whatever the sum is.
pub proof fn law_load_at(
    world: World,
    code: Seq<Inst>,
    ty: Ty,
    base: usize,
    off: i16,
    st: State,
)
    requires
        ty != Ty::I1,
        base < code.len(),
        code.len() + 3 <= usize::MAX,
    ensures
        ({
            let all = load_code(code, ty, base, off);
            let after = exec_to(world, all, code.len() as int, st);
            let word = after->0.results[all.len() - 1];
            let n = ty_bits(ty) / 8;
            &&& after is Some
            &&& after->0.regs == st.regs
            &&& after->0.mem == st.mem
            &&& word < two_to(ty_bits(ty))
            &&& holds_bytes(
                world.order,
                st.mem,
                past(st.results[base as int], off as int),
                n,
                word as int,
            )
        }),
{
    broadcast use lemma_exec_plus;

    lemma_two_to();
    lemma_wrap_sum(st.results[base as int], off, 0);
    lemma_loaded(world.order, st.mem, past(st.results[base as int], off as int), ty);
}

/// A store adds the offset to the base and writes there, on a machine that writes at any
/// address whatever the sum is. It changes no byte besides those of the word.
pub proof fn law_store_at(
    world: World,
    code: Seq<Inst>,
    ty: Ty,
    base: usize,
    off: i16,
    val: usize,
    st: State,
)
    requires
        ty != Ty::I1,
        base < code.len(),
        val < code.len(),
        code.len() + 3 <= usize::MAX,
        world.unaligned || off == 0 || past(st.results[base as int], off as int) % 8 == 0,
    ensures
        ({
            let after = exec_to(
                world,
                store_code(code, ty, base, off, val),
                code.len() as int,
                st,
            );
            let addr = past(st.results[base as int], off as int);
            let n = ty_bits(ty) / 8;
            &&& after is Some
            &&& after->0.regs == st.regs
            &&& holds_bytes(
                world.order,
                after->0.mem,
                addr,
                n,
                st.results[val as int] as int,
            )
            &&& forall|at: u64|
                (forall|k: int|
                    0 <= k < n ==> at != #[trigger] byte_place(world.order, addr, n, k))
                    ==> #[trigger] after->0.mem[at] == st.mem[at]
        }),
{
    broadcast use lemma_exec_plus;

    lemma_two_to();
    let addr = past(st.results[base as int], off as int);
    lemma_wrap_sum(st.results[base as int], off, 0);
    lemma_stored(world.order, st.mem, addr, ty, st.results[val as int]);
}

/// A run goes from one instruction to the next, if it is none that leaves its block, with
/// what the instruction makes of the state. A run that is done stays so.
pub proof fn law_goes_on(code: Seq<Inst>, world: World, at: int, st: State)
    requires
        0 <= at < code.len(),
        !(code[at].op is Br) && !(code[at].op is CondBr) && !(code[at].op is Ret),
    ensures
        step(code, world, Run::At { at, st }) == match effect(world, code[at].op, at, st) {
            Some(next) => Run::At { at: at + 1, st: next },
            None => Run::Undefined,
        },
        step(code, world, Run::Undefined) is Undefined,
        forall|run: Run| run is Returned ==> #[trigger] step(code, world, run) == run,
{
}

/// A block is entered at the instruction after the one that names it.
pub proof fn law_enters(code: Seq<Inst>, block: usize, i: int, st: State)
    requires
        0 <= i < code.len(),
        code[i].op == (Op::Position { block }),
        forall|j: int|
            0 <= j < code.len() && j != i ==> (#[trigger] code[j]).op != (Op::Position { block }),
    ensures
        enter(code, block, st) == (Run::At { at: i + 1, st }),
{
}

/// Steps are taken one after another.
pub proof fn law_steps(code: Seq<Inst>, world: World, run: Run, n: nat)
    ensures
        steps(code, world, run, 0) == run,
        steps(code, world, run, 1) == step(code, world, run),
        steps(code, world, run, n + 1) == step(code, world, steps(code, world, run, n)),
    decreases n,
{
    reveal_with_fuel(steps, 2);
    if n > 0 {
        law_steps(code, world, step(code, world, run), (n - 1) as nat);
    }
}

/// The instructions of a list are done one after another, each on what those before it
/// have made.
pub proof fn law_done_in_order(
    world: World,
    code: Seq<Inst>,
    op: Op,
    name: &'static str,
    from: int,
    st: State,
)
    requires
        0 <= from <= code.len(),
    ensures
        exec_to(world, code, code.len() as int, st) == Some(st),
        plus(code, op, name).len() == code.len() + 1,
        plus(code, op, name).drop_last() == code,
        plus(code, op, name).last().op == op,
        exec_to(world, code, from, st) is Some ==> exec_to(
            world,
            plus(code, op, name),
            from,
            st,
        ) == effect(world, op, code.len() as int, exec_to(world, code, from, st)->0),
        code.len() < usize::MAX ==> num(code, 0) == code.len(),
{
    lemma_exec_plus(world, code, op, name, from, st);
    assert(plus(code, op, name).drop_last() =~= code);
}

/// The name of an arithmetic operation.
pub open spec fn alu_stem(op: AluOp) -> Seq<char> {
    match op {
        AluOp::Add => "add"@,
        AluOp::Sub => "sub"@,
        AluOp::Mul => "mul"@,
        AluOp::Div => "div"@,
        AluOp::Or => "or"@,
        AluOp::And => "and"@,
        AluOp::Lsh => "lsh"@,
        AluOp::Rsh => "rsh"@,
        AluOp::Mod => "mod"@,
        AluOp::Xor => "xor"@,
        AluOp::Mov => "mov"@,
        AluOp::Arsh => "arsh"@,
    }
}

/// The name of an arithmetic result is made of the operation, the number of bits, and the kind
/// of its second operand.
#[verifier::rlimit(60)]
#[verifier::spinoff_prover]
pub proof fn law_alu_name(op: AluOp, wide: bool, reg: bool)
    ensures
        alu_name(op, wide, reg)@ == alu_stem(op) + (if wide {
            "64"@
        } else {
            "32"@
        }) + (if reg {
            "_reg"@
        } else {
            "_imm"@
        }),
{
    reveal_strlit("add");
    reveal_strlit("sub");
    reveal_strlit("mul");
    reveal_strlit("div");
    reveal_strlit("or");
    reveal_strlit("and");
    reveal_strlit("lsh");
    reveal_strlit("rsh");
    reveal_strlit("mod");
    reveal_strlit("xor");
    reveal_strlit("mov");
    reveal_strlit("arsh");
    reveal_strlit("32");
    reveal_strlit("64");
    reveal_strlit("_reg");
    reveal_strlit("_imm");
    match (op, wide, reg) {
        (AluOp::Add, false, false) => {
            reveal_strlit("add32_imm");
        },
        (AluOp::Add, false, true) => {
            reveal_strlit("add32_reg");
        },
        (AluOp::Add, true, false) => {
            reveal_strlit("add64_imm");
        },
        (AluOp::Add, true, true) => {
            reveal_strlit("add64_reg");
        },
        (AluOp::Sub, false, false) => {
            reveal_strlit("sub32_imm");
        },
        (AluOp::Sub, false, true) => {
            reveal_strlit("sub32_reg");
        },
        (AluOp::Sub, true, false) => {
            reveal_strlit("sub64_imm");
        },
        (AluOp::Sub, true, true) => {
            reveal_strlit("sub64_reg");
        },
        (AluOp::Mul, false, false) => {
            reveal_strlit("mul32_imm");
        },
        (AluOp::Mul, false, true) => {
            reveal_strlit("mul32_reg");
        },
        (AluOp::Mul, true, false) => {
            reveal_strlit("mul64_imm");
        },
        (AluOp::Mul, true, true) => {
            reveal_strlit("mul64_reg");
        },
        (AluOp::Div, false, false) => {
            reveal_strlit("div32_imm");
        },
        (AluOp::Div, false, true) => {
            reveal_strlit("div32_reg");
        },
        (AluOp::Div, true, false) => {
            reveal_strlit("div64_imm");
        },
        (AluOp::Div, true, true) => {
            reveal_strlit("div64_reg");
        },
        (AluOp::Or, false, false) => {
            reveal_strlit("or32_imm");
        },
        (AluOp::Or, false, true) => {
            reveal_strlit("or32_reg");
        },
        (AluOp::Or, true, false) => {
            reveal_strlit("or64_imm");
        },
        (AluOp::Or, true, true) => {
            reveal_strlit("or64_reg");
        },
        (AluOp::And, false, false) => {
            reveal_strlit("and32_imm");
        },
        (AluOp::And, false, true) => {
            reveal_strlit("and32_reg");
        },
        (AluOp::And, true, false) => {
            reveal_strlit("and64_imm");
        },
        (AluOp::And, true, true) => {
            reveal_strlit("and64_reg");
        },
        (AluOp::Lsh, false, false) => {
            reveal_strlit("lsh32_imm");
        },
        (AluOp::Lsh, false, true) => {
            reveal_strlit("lsh32_reg");
        },
        (AluOp::Lsh, true, false) => {
            reveal_strlit("lsh64_imm");
        },
        (AluOp::Lsh, true, true) => {
            reveal_strlit("lsh64_reg");
        },
        (AluOp::Rsh, false, false) => {
            reveal_strlit("rsh32_imm");
        },
        (AluOp::Rsh, false, true) => {
            reveal_strlit("rsh32_reg");
        },
        (AluOp::Rsh, true, false) => {
            reveal_strlit("rsh64_imm");
        },
        (AluOp::Rsh, true, true) => {
            reveal_strlit("rsh64_reg");
        },
        (AluOp::Mod, false, false) => {
            reveal_strlit("mod32_imm");
        },
        (AluOp::Mod, false, true) => {
            reveal_strlit("mod32_reg");
        },
        (AluOp::Mod, true, false) => {
            reveal_strlit("mod64_imm");
        },
        (AluOp::Mod, true, true) => {
            reveal_strlit("mod64_reg");
        },
        (AluOp::Xor, false, false) => {
            reveal_strlit("xor32_imm");
        },
        (AluOp::Xor, false, true) => {
            reveal_strlit("xor32_reg");
        },
        (AluOp::Xor, true, false) => {
            reveal_strlit("xor64_imm");
        },
        (AluOp::Xor, true, true) => {
            reveal_strlit("xor64_reg");
        },
        (AluOp::Mov, false, false) => {
            reveal_strlit("mov32_imm");
        },
        (AluOp::Mov, false, true) => {
            reveal_strlit("mov32_reg");
        },
        (AluOp::Mov, true, false) => {
            reveal_strlit("mov64_imm");
        },
        (AluOp::Mov, true, true) => {
            reveal_strlit("mov64_reg");
        },
        (AluOp::Arsh, false, false) => {
            reveal_strlit("arsh32_imm");
        },
        (AluOp::Arsh, false, true) => {
            reveal_strlit("arsh32_reg");
        },
        (AluOp::Arsh, true, false) => {
            reveal_strlit("arsh64_imm");
        },
        (AluOp::Arsh, true, true) => {
            reveal_strlit("arsh64_reg");
        },
    }
    assert(alu_name(op, wide, reg)@ =~= alu_stem(op) + (if wide {
        "64"@
    } else {
        "32"@
    }) + (if reg {
        "_reg"@
    } else {
        "_imm"@
    }));
}

} // verus!
