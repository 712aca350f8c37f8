//! A compiled program, from its bytes to what it returns.
use crate::accept::{
    after, comes_to, first_unknown, is_end, is_good, law_readable, law_translatable,
    law_unknown_helper,
};
use crate::arith::{lemma_two_to, two_to};
use crate::cfg::{bytes_from, program_graph, ENTRY_BLOCK};
use crate::correct::{first_machine, function_code, law_compiled_exactly, storable_by};
use crate::ebpf::{action, insn_at, slot_in, Action, Insn};
use crate::ir::{enter, steps, BinOp, Inst, Op, Run, State, Ty, World};
use crate::isa::{access_size, class, past};
use crate::layout::reached;
use crate::machine::{advance, advance_by, operand, storable, Machine, Progress};
use crate::simulate::{exec_to, lemma_exec_plus, lemma_store_operands, lemma_wrap_sum, machine_of};
use crate::translate::{
    dst_code, insn_code, num, operand_code, plus, prologue_code, store_mem_code, Setting, MEM_START,
};
use crate::word::{address, ByteOrder};
use vstd::prelude::*;

verus! {

/// The slots that a walk through a program counts as reached are those that it comes to.
pub proof fn law_reached(prog: Seq<u8>, from: int, pc: int)
    requires
        0 <= from,
    ensures
        reached(prog, from, pc) == comes_to(prog, from, pc),
    decreases bytes_from(prog, from),
{
    if 8 * from < prog.len() {
        law_reached(prog, after(prog, from), pc);
    }
}

/// A machine that writes at any address can do every store, and the others all stores
/// without an offset and those to multiples of 8.
pub proof fn law_storable(prog: Seq<u8>, world: World, pc: int, m: Machine)
    requires
        ({
            let insn = insn_at(prog, pc);
            ||| world.unaligned
            ||| insn.off == 0
            ||| class(insn.opc) != 2 && class(insn.opc) != 3
            ||| past(m.regs[insn.dst as int], insn.off as int) % 8 == 0
        }),
    ensures
        storable(prog, world, pc, m),
{
    lemma_two_to();
}

/// What comes after an instruction that a walk comes to, the walk comes to as well.
proof fn lemma_walks_on(prog: Seq<u8>, from: int, pc: int)
    requires
        0 <= from,
        comes_to(prog, from, pc),
        8 * after(prog, pc) < prog.len(),
    ensures
        comes_to(prog, from, after(prog, pc)),
        0 <= pc,
    decreases bytes_from(prog, from),
{
    if from != pc {
        lemma_walks_on(prog, after(prog, from), pc);
    } else {
        assert(comes_to(prog, after(prog, from), after(prog, pc)));
    }
}

/// Whether the instruction in a slot can be compiled, leads to no slot out of range, and
/// calls no helper function that has not been declared.
pub open spec fn is_fine(order: ByteOrder, helpers: Set<u32>, prog: Seq<u8>, pc: int) -> bool {
    let insn = insn_at(prog, pc);
    &&& is_good(order, prog, pc)
    &&& is_end(insn.opc) ==> 0 <= pc + 1 + insn.off <= u32::MAX
    &&& insn.opc == 0x85 ==> helpers.contains((insn.imm as int % 0x1_0000_0000) as u32)
}

proof fn lemma_all_known(order: ByteOrder, helpers: Set<u32>, prog: Seq<u8>, from: int)
    requires
        0 <= from,
        forall|pc: int| #[trigger] comes_to(prog, 0, pc) ==> is_fine(order, helpers, prog, pc),
        8 * from < prog.len() ==> comes_to(prog, 0, from),
    ensures
        first_unknown(helpers, prog, from) is None,
    decreases bytes_from(prog, from),
{
    if 8 * from < prog.len() {
        if 8 * after(prog, from) < prog.len() {
            lemma_walks_on(prog, 0, from);
        }
        lemma_all_known(order, helpers, prog, after(prog, from));
    }
}

proof fn lemma_storable_by(prog: Seq<u8>, world: World, at: Progress, n: nat)
    requires
        world.unaligned,
        forall|i: nat|
            i < n && (#[trigger] advance_by(prog, world, at, i)) is At ==> comes_to(
                prog,
                0,
                advance_by(prog, world, at, i)->pc,
            ),
    ensures
        storable_by(prog, world, at, n),
    decreases n,
{
    if n > 0 && at is At {
        assert(advance_by(prog, world, at, 0) == at);
        law_reached(prog, 0, at->pc);
        law_storable(prog, world, at->pc, at->m);
        let next = advance(prog, world, at);
        assert forall|i: nat|
            i < n - 1 && (#[trigger] advance_by(prog, world, next, i)) is At implies comes_to(
            prog,
            0,
            advance_by(prog, world, next, i)->pc,
        ) by {
            assert(advance_by(prog, world, at, (i + 1) as nat) == advance_by(
                prog,
                world,
                next,
                i,
            ));
        }
        lemma_storable_by(prog, world, next, (n - 1) as nat);
    }
}

/// A program whose instructions can all be compiled is compiled to a function that, on a
/// machine that writes at any address, returns what the program exits with and leaves the
/// memory that it leaves, whenever the program exits after steps from instruction to
/// instruction.
pub proof fn law_whole_program(
    helpers: Set<u32>,
    prog: Seq<u8>,
    world: World,
    st: State,
    n: nat,
) -> (k: nat)
    requires
        world.unaligned,
        prog.len() % 8 == 0,
        prog.len() / 8 <= u32::MAX,
        forall|pc: int| #[trigger]
            comes_to(prog, 0, pc) ==> is_fine(world.order, helpers, prog, pc),
        program_graph(prog).labels.len() <= usize::MAX,
        function_code(world.order, helpers, prog).0.len() <= usize::MAX,
        st.regs.len() == 11,
        forall|i: nat|
            i < n && (#[trigger] advance_by(prog, world, first_machine(world, st.mem), i)) is At
                ==> comes_to(prog, 0, advance_by(prog, world, first_machine(world, st.mem), i)->pc),
        advance_by(prog, world, first_machine(world, st.mem), n) is Exited,
    ensures
        ({
            let end = advance_by(prog, world, first_machine(world, st.mem), n);
            let code = function_code(world.order, helpers, prog).0;
            steps(code, world, enter(code, ENTRY_BLOCK, st), k) == (Run::Returned {
                word: end->word,
                mem: end->Exited_mem,
            })
        }),
{
    let slots = Set::new(|pc: int| comes_to(prog, 0, pc) || 8 * pc >= prog.len());
    assert forall|pc: int| #[trigger]
        slots.contains(pc) && 0 <= pc && 8 * pc < prog.len() implies slots.contains(
        after(prog, pc),
    ) by {
        if 8 * after(prog, pc) < prog.len() {
            lemma_walks_on(prog, 0, pc);
        }
    }
    assert(slots.contains(0));
    law_readable(prog, slots, 0);
    law_translatable(world.order, helpers, prog, slots, 0);
    let set = Setting {
        order: world.order,
        helpers,
        graph: program_graph(prog),
        mem_start: MEM_START,
    };
    law_unknown_helper(set, prologue_code(), prog, 0, false);
    lemma_all_known(world.order, helpers, prog, 0);
    lemma_storable_by(prog, world, first_machine(world, st.mem), n);
    law_compiled_exactly(helpers, prog, world, st, n)
}

/// The translation of a store ends with one instruction that writes to memory. Its
/// address is the destination register plus the offset, whatever its low bits are, and
/// its word is the low end of the source register or of the immediate. Nothing has been
/// changed before it.
pub proof fn law_store_operands(
    set: Setting,
    world: World,
    code: Seq<Inst>,
    prog: Seq<u8>,
    pc: int,
    st: State,
)
    requires
        slot_in(prog, pc),
        class(insn_at(prog, pc).opc) == 2 || class(insn_at(prog, pc).opc) == 3,
        insn_at(prog, pc).opc / 32 == 3,
        insn_code(set, code, prog, pc).len() <= usize::MAX,
    ensures
        ({
            let insn = insn_at(prog, pc);
            let all = insn_code(set, code, prog, pc);
            let s = exec_to(world, all.drop_last(), code.len() as int, st);
            let x = if class(insn.opc) == 3 {
                st.regs[insn.src as int] as int
            } else {
                insn.imm as int
            };
            &&& all.last().op matches Op::Store { ty, addr, val, .. }
            &&& s is Some
            &&& s->0.regs == st.regs
            &&& s->0.mem == st.mem
            &&& s->0.results[addr as int] == past(st.regs[insn.dst as int], insn.off as int)
            &&& s->0.results[val as int] == x % two_to(8 * access_size(insn.opc))
            &&& ty == if access_size(insn.opc) == 1 {
                Ty::I8
            } else if access_size(insn.opc) == 2 {
                Ty::I16
            } else if access_size(insn.opc) == 4 {
                Ty::I32
            } else {
                Ty::I64
            }
        }),
{
    let insn = insn_at(prog, pc);
    let reg = class(insn.opc) == 3;
    let n = access_size(insn.opc);
    let ty = if n == 1 {
        Ty::I8
    } else if n == 2 {
        Ty::I16
    } else if n == 4 {
        Ty::I32
    } else {
        Ty::I64
    };
    assert(action(insn.opc) == Some(Action::Store { ty, reg }));
    lemma_two_to();
    lemma_store_last(world, code, insn, ty, reg, st);
}

proof fn lemma_store_last(world: World, code: Seq<Inst>, insn: Insn, ty: Ty, reg: bool, st: State)
    requires
        store_mem_code(code, insn, ty, reg).len() <= usize::MAX,
    ensures
        ({
            let all = store_mem_code(code, insn, ty, reg);
            let s = exec_to(world, all.drop_last(), code.len() as int, st);
            &&& all.last().op matches Op::Store { ty: t, addr, val, .. }
            &&& t == ty
            &&& s is Some
            &&& machine_of(s->0) == machine_of(st)
            &&& s->0.results[addr as int] == address(st.regs[insn.dst as int], insn.off as int)
            &&& s->0.results[val as int] == operand(insn, ty, reg, st.regs)
        }),
{
    let c = operand_code(code, insn, Ty::I64, reg);
    let c = if ty == Ty::I64 {
        c
    } else {
        plus(c, Op::Trunc { ty, val: num(code, 0) }, "narrow")
    };
    let all = store_mem_code(code, insn, ty, reg);
    let from = code.len() as int;
    lemma_store_operands(world, code, insn, ty, reg, c, st);
    lemma_wrap_sum(st.regs[insn.dst as int], insn.off, 0);
    let c2 = dst_code(c, insn, Ty::I64);
    if insn.off == 0 {
        assert(all.drop_last() =~= c2);
    } else {
        let bits = Op::Const { ty: Ty::I64, bits: insn.off as u64 };
        let sum = Op::Bin { op: BinOp::Add, ty: Ty::I64, lhs: num(c, 0), rhs: num(c2, 0) };
        lemma_exec_plus(world, c2, bits, "", from, st);
        let c3 = plus(c2, bits, "");
        lemma_exec_plus(world, c3, sum, "addr", from, st);
        assert(all.drop_last() =~= plus(c3, sum, "addr"));
    }
}

} // verus!
