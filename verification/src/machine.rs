//! What eBPF programs do, instruction by instruction.
use crate::cfg::{jump_slot, next_slot};
use crate::ebpf::{action, insn_at, slot_in, Action, AluOp, Cond, Insn, NUM_REGS};
use crate::ir::{Ty, World};
use crate::translate::{alu_ty, branch_reg, swaps, wide_imm};
use crate::word::{
    address, lemma_wrap_neg, lemma_wrap_same, load_word, modulus, signed, slot_part, store_word,
    swap_bytes, width, wrap, ByteOrder, Memory,
};
use vstd::arithmetic::div_mod::{lemma_div_is_ordered_by_denominator, lemma_mod_decreases};
use vstd::prelude::*;

verus! {

/// The registers R0 to R10 and the memory.
#[verifier::ext_equal]
pub struct Machine {
    pub regs: Seq<u64>,
    pub mem: Memory,
}

/// Where a program stands.
pub enum Progress {
    /// Before the instruction in slot `pc`.
    At { pc: int, m: Machine },
    /// The program has exited.
    Exited { word: u64, mem: Memory },
    /// There is no instruction that could be run.
    Stuck,
}

/// The second operand of an instruction, as a word of the type: the source
/// register or the immediate.
pub open spec fn operand(insn: Insn, ty: Ty, reg: bool, regs: Seq<u64>) -> u64 {
    if reg {
        wrap(ty, regs[insn.src as int] as int)
    } else {
        wrap(ty, insn.imm as int)
    }
}

/// The arithmetic operations on words of a type. A quotient by zero is zero, a
/// remainder by zero the dividend, and shift amounts count modulo the width.
///
/// A result of 32 bits goes to its register with zeros in the high half. That
/// holds of differences and products too: one could take them for signed numbers
/// and fill the high half with the sign, but all 32-bit operations write their
/// results in the same way, which is also what eBPF asks of the class. So 0 minus
/// 1 in 32 bits leaves 0xffffffff in the register.
pub open spec fn alu(op: AluOp, ty: Ty, a: u64, b: u64) -> u64 {
    let amount = b % (width(ty) as u64);
    match op {
        AluOp::Add => wrap(ty, a + b),
        AluOp::Sub => wrap(ty, a - b),
        AluOp::Mul => wrap(ty, a * b),
        AluOp::Div => if b == 0 {
            0
        } else {
            a / b
        },
        AluOp::Or => a | b,
        AluOp::And => a & b,
        AluOp::Lsh => wrap(ty, (a << amount) as int),
        AluOp::Rsh => a >> amount,
        AluOp::Mod => if b == 0 {
            a
        } else {
            a % b
        },
        AluOp::Xor => a ^ b,
        AluOp::Mov => b,
        AluOp::Arsh => wrap(ty, (signed(ty, a) as i64 >> amount) as int),
    }
}

/// The conditions on two words of a type.
pub open spec fn holds(cond: Cond, ty: Ty, a: u64, b: u64) -> bool {
    match cond {
        Cond::Eq => a == b,
        Cond::Gt => a > b,
        Cond::Ge => a >= b,
        Cond::AnyBit => a & b != 0,
        Cond::Ne => a != b,
        Cond::Sgt => signed(ty, a) > signed(ty, b),
        Cond::Sge => signed(ty, a) >= signed(ty, b),
        Cond::Lt => a < b,
        Cond::Le => a <= b,
        Cond::Slt => signed(ty, a) < signed(ty, b),
        Cond::Sle => signed(ty, a) <= signed(ty, b),
    }
}

/// Whether the condition of a jump holds, compared in words of the type.
pub open spec fn jumps(insn: Insn, cond: Cond, ty: Ty, regs: Seq<u64>) -> bool {
    holds(
        cond,
        ty,
        wrap(ty, regs[insn.dst as int] as int),
        operand(insn, ty, branch_reg(insn.opc), regs),
    )
}

/// The type in which a conditional jump compares, by its class.
pub open spec fn jump_ty(opc: u8) -> Ty {
    if opc % 8 == 6 {
        Ty::I32
    } else {
        Ty::I64
    }
}

/// The type that the immediate of a byte swap selects.
pub open spec fn swap_ty(imm: i32) -> Ty {
    if imm == 16 {
        Ty::I16
    } else if imm == 32 {
        Ty::I32
    } else {
        Ty::I64
    }
}

/// The machine with a word in the destination register.
pub open spec fn with_dst(m: Machine, insn: Insn, word: u64) -> Machine {
    Machine { regs: m.regs.update(insn.dst as int, word), ..m }
}

/// The arguments of a helper function, R1 to R5.
pub open spec fn call_args(regs: Seq<u64>) -> Seq<u64> {
    Seq::new(5, |k: int| regs[k + 1])
}

/// What the instruction at `pc` does.
pub open spec fn run_insn(prog: Seq<u8>, world: World, pc: int, m: Machine) -> Progress {
    let insn = insn_at(prog, pc);
    let next = next_slot(prog, pc);
    match action(insn.opc) {
        Some(Action::LoadAbs { ty, ind }) => {
            let base = world.params[0] + insn.off + if ind {
                m.regs[insn.src as int] as int
            } else {
                0
            };
            let word = load_word(world.order, m.mem, wrap(Ty::I64, base), ty);
            Progress::At { pc: next, m: with_dst(m, insn, word) }
        },
        Some(Action::LoadImm) => {
            let word = wide_imm(insn, insn_at(prog, pc + 1));
            Progress::At { pc: next, m: with_dst(m, insn, word) }
        },
        Some(Action::Load { ty }) => {
            let addr = address(m.regs[insn.src as int], insn.off as int);
            Progress::At {
                pc: next,
                m: with_dst(m, insn, load_word(world.order, m.mem, addr, ty)),
            }
        },
        Some(Action::Store { ty, reg }) => {
            let addr = address(m.regs[insn.dst as int], insn.off as int);
            let word = operand(insn, ty, reg, m.regs);
            Progress::At {
                pc: next,
                m: Machine { mem: store_word(world.order, m.mem, addr, ty, word), ..m },
            }
        },
        Some(Action::Alu { op, wide, reg }) => {
            let ty = alu_ty(wide);
            let a = wrap(ty, m.regs[insn.dst as int] as int);
            Progress::At {
                pc: next,
                m: with_dst(m, insn, alu(op, ty, a, operand(insn, ty, reg, m.regs))),
            }
        },
        Some(Action::Neg { wide }) => {
            let word = wrap(alu_ty(wide), -(m.regs[insn.dst as int] as int));
            Progress::At { pc: next, m: with_dst(m, insn, word) }
        },
        Some(Action::Swap { big }) => {
            let ty = swap_ty(insn.imm);
            let word = wrap(ty, m.regs[insn.dst as int] as int);
            let word = if swaps(world.order, big) {
                swap_bytes(ty, word)
            } else {
                word
            };
            Progress::At { pc: next, m: with_dst(m, insn, word) }
        },
        Some(Action::Jump) => Progress::At { pc: jump_slot(prog, pc), m },
        Some(Action::Branch { cond }) => {
            if jumps(insn, cond, jump_ty(insn.opc), m.regs) {
                Progress::At { pc: jump_slot(prog, pc), m }
            } else {
                Progress::At { pc: next, m }
            }
        },
        Some(Action::Call) => {
            let (word, mem) = (world.helper)(insn.imm as u32, call_args(m.regs), m.mem);
            Progress::At { pc: next, m: Machine { regs: m.regs.update(0, word), mem } }
        },
        Some(Action::Exit) => Progress::Exited { word: m.regs[0], mem: m.mem },
        None => Progress::Stuck,
    }
}

/// Bitwise operations and right shifts on words of 32 bits give such words.
proof fn lemma_narrow_bits(a: u64, b: u64, amount: u64)
    requires
        a < 0x1_0000_0000,
        b < 0x1_0000_0000,
    ensures
        a | b < 0x1_0000_0000,
        a & b < 0x1_0000_0000,
        a ^ b < 0x1_0000_0000,
        amount < 32 ==> a >> amount < 0x1_0000_0000,
{
    assert(a < 0x1_0000_0000 && b < 0x1_0000_0000 ==> {
        &&& a | b < 0x1_0000_0000
        &&& a & b < 0x1_0000_0000
        &&& a ^ b < 0x1_0000_0000
        &&& amount < 32 ==> a >> amount < 0x1_0000_0000
    }) by (bit_vector);
}

/// Whether an instruction computes with 32 bits.
pub open spec fn is_narrow(opc: u8) -> bool {
    match action(opc) {
        Some(Action::Alu { wide, .. }) => !wide,
        Some(Action::Neg { wide }) => !wide,
        _ => false,
    }
}

/// A 32-bit arithmetic instruction leaves zeros in the high half of its
/// destination register, whatever the operation and the sign of the result.
pub proof fn law_high_half_cleared(prog: Seq<u8>, world: World, pc: int, m: Machine)
    requires
        m.regs.len() == NUM_REGS,
        insn_at(prog, pc).dst < NUM_REGS,
        is_narrow(insn_at(prog, pc).opc),
    ensures
        run_insn(prog, world, pc, m) matches Progress::At { m: after, .. }
            && after.regs[insn_at(prog, pc).dst as int] < 0x1_0000_0000,
{
    let insn = insn_at(prog, pc);
    match action(insn.opc) {
        Some(Action::Alu { op, reg, .. }) => {
            let a = wrap(Ty::I32, m.regs[insn.dst as int] as int);
            let b = operand(insn, Ty::I32, reg, m.regs);
            lemma_narrow_bits(a, b, b % 32);
            if b != 0 {
                lemma_div_is_ordered_by_denominator(a as int, 1, b as int);
                lemma_mod_decreases(a as nat, b as nat);
            }
        },
        _ => {},
    }
}

/// Whether a load of the type from the slot of a register finds the low end of
/// the register. It does on a little-endian machine.
pub open spec fn low_end(order: ByteOrder, ty: Ty, word: u64) -> bool {
    slot_part(order, ty, word) == wrap(ty, word as int)
}

/// On a little-endian machine narrow operands are the low ends of registers.
pub proof fn law_little_endian(ty: Ty, word: u64)
    ensures
        low_end(ByteOrder::Little, ty, word),
{
}

/// The second operand of an instruction as its translation finds it: the part of
/// the source register that a load of the type from its slot gives, or the
/// immediate.
pub open spec fn found_operand(
    order: ByteOrder,
    insn: Insn,
    ty: Ty,
    reg: bool,
    regs: Seq<u64>,
) -> u64 {
    if reg {
        slot_part(order, ty, regs[insn.src as int])
    } else {
        wrap(ty, insn.imm as int)
    }
}

/// Whether the condition of a jump holds of what its translation finds.
pub open spec fn found_jumps(order: ByteOrder, insn: Insn, cond: Cond, regs: Seq<u64>) -> bool {
    holds(
        cond,
        Ty::I32,
        slot_part(order, Ty::I32, regs[insn.dst as int]),
        found_operand(order, insn, Ty::I32, branch_reg(insn.opc), regs),
    )
}

/// What the translation of the instruction at `pc` does, on every input: narrow
/// operands are read from the slots of registers, conditional jumps compare 32
/// bits, a remainder by an immediate zero and a conversion to the byte order of
/// the machine change nothing.
pub open spec fn run_translated(prog: Seq<u8>, world: World, pc: int, m: Machine) -> Progress {
    let insn = insn_at(prog, pc);
    let next = next_slot(prog, pc);
    let dst = m.regs[insn.dst as int];
    match action(insn.opc) {
        Some(Action::Alu { op, wide, reg }) => {
            let ty = alu_ty(wide);
            if op == AluOp::Mod && !reg && insn.imm == 0 {
                Progress::At { pc: next, m }
            } else {
                let a = slot_part(world.order, ty, dst);
                let b = found_operand(world.order, insn, ty, reg, m.regs);
                Progress::At { pc: next, m: with_dst(m, insn, alu(op, ty, a, b)) }
            }
        },
        Some(Action::Neg { wide }) => {
            let ty = alu_ty(wide);
            let word = wrap(ty, -(slot_part(world.order, ty, dst) as int));
            Progress::At { pc: next, m: with_dst(m, insn, word) }
        },
        Some(Action::Swap { big }) => if swaps(world.order, big) {
            let ty = swap_ty(insn.imm);
            let word = swap_bytes(ty, slot_part(world.order, ty, dst));
            Progress::At { pc: next, m: with_dst(m, insn, word) }
        } else {
            Progress::At { pc: next, m }
        },
        Some(Action::Branch { cond }) => if found_jumps(world.order, insn, cond, m.regs) {
            Progress::At { pc: jump_slot(prog, pc), m }
        } else {
            Progress::At { pc: next, m }
        },
        _ => run_insn(prog, world, pc, m),
    }
}

/// Whether the store at `pc`, if there is one, goes where the machine can write:
/// the address of a store at an offset is said to be a multiple of 8.
pub open spec fn storable(prog: Seq<u8>, world: World, pc: int, m: Machine) -> bool {
    let insn = insn_at(prog, pc);
    let dst = m.regs[insn.dst as int];
    action(insn.opc) is Some && action(insn.opc)->0 is Store && insn.off != 0 && !world.unaligned
        ==> address(dst, insn.off as int) % 8 == 0
}

/// Whether the translation of the instruction at `pc` does what the instruction
/// does. It does not where
/// - a register that the instruction only names, to leave it as it is, does
///   not exist;
/// - a narrow operand is read from the wrong end of a register, which only
///   happens on a big-endian machine;
/// - a store at an offset, which is said to be aligned to 8 bytes, is not, and the
///   machine minds;
/// - the remainder of 32 bits by an immediate zero would have to clear the
///   high half of the register;
/// - a byte swap that finds the bytes in order would have to cut the register;
/// - a jump that compares 64 bits finds another answer in the low 32.
pub open spec fn faithful(prog: Seq<u8>, world: World, pc: int, m: Machine) -> bool {
    let insn = insn_at(prog, pc);
    let dst = m.regs[insn.dst as int];
    let src = m.regs[insn.src as int];
    match action(insn.opc) {
        Some(Action::Store { .. }) => storable(prog, world, pc, m),
        Some(Action::Alu { op, wide, reg }) => {
            let ty = alu_ty(wide);
            let by_zero = (op == AluOp::Div || op == AluOp::Mod) && !reg && insn.imm == 0;
            &&& insn.dst < NUM_REGS
            &&& op != AluOp::Mov && !by_zero ==> low_end(world.order, ty, dst)
            &&& reg ==> low_end(world.order, ty, src)
            &&& op == AluOp::Mod && by_zero ==> dst < modulus(ty)
        },
        Some(Action::Neg { wide }) => low_end(world.order, alu_ty(wide), dst),
        Some(Action::Swap { big }) => {
            &&& insn.dst < NUM_REGS
            &&& swaps(world.order, big) ==> low_end(world.order, swap_ty(insn.imm), dst)
            &&& !swaps(world.order, big) ==> dst < modulus(swap_ty(insn.imm))
        },
        Some(Action::Branch { cond }) => {
            &&& low_end(world.order, Ty::I32, dst)
            &&& branch_reg(insn.opc) ==> low_end(world.order, Ty::I32, src)
            &&& jumps(insn, cond, jump_ty(insn.opc), m.regs) == jumps(
                insn,
                cond,
                Ty::I32,
                m.regs,
            )
        },
        _ => true,
    }
}

/// Where the translation of an instruction does what the instruction does, that
/// is what the translation does.
pub proof fn law_faithful_step(prog: Seq<u8>, world: World, pc: int, m: Machine)
    requires
        m.regs.len() == NUM_REGS,
        faithful(prog, world, pc, m),
    ensures
        run_translated(prog, world, pc, m) == run_insn(prog, world, pc, m),
        storable(prog, world, pc, m),
{
    let insn = insn_at(prog, pc);
    let dst = m.regs[insn.dst as int];
    match action(insn.opc) {
        Some(Action::Alu { op, wide, reg }) => {
            if op == AluOp::Mod && !reg && insn.imm == 0 {
                lemma_wrap_same(alu_ty(wide), dst);
                assert(m.regs.update(insn.dst as int, dst) =~= m.regs);
            }
        },
        Some(Action::Neg { wide }) => {
            lemma_wrap_neg(alu_ty(wide), dst);
        },
        Some(Action::Swap { big }) => {
            if !swaps(world.order, big) {
                lemma_wrap_same(swap_ty(insn.imm), dst);
                assert(m.regs.update(insn.dst as int, dst) =~= m.regs);
            }
        },
        _ => {},
    }
}

/// One step of a program. A run stands only before instructions that lie
/// wholly inside the program.
pub open spec fn progress(prog: Seq<u8>, world: World, at: Progress) -> Progress {
    match at {
        Progress::At { pc, m } => if slot_in(prog, pc) {
            run_insn(prog, world, pc, m)
        } else {
            Progress::Stuck
        },
        done => done,
    }
}

/// One step of a program as its translation does it.
pub open spec fn advance(prog: Seq<u8>, world: World, at: Progress) -> Progress {
    match at {
        Progress::At { pc, m } => if slot_in(prog, pc) {
            run_translated(prog, world, pc, m)
        } else {
            Progress::Stuck
        },
        done => done,
    }
}

/// A program after `n` steps as its translation does them.
pub open spec fn advance_by(prog: Seq<u8>, world: World, at: Progress, n: nat) -> Progress
    decreases n,
{
    if n == 0 {
        at
    } else {
        advance_by(prog, world, advance(prog, world, at), (n - 1) as nat)
    }
}

/// A program after `n` steps.
pub open spec fn progress_by(prog: Seq<u8>, world: World, at: Progress, n: nat) -> Progress
    decreases n,
{
    if n == 0 {
        at
    } else {
        progress_by(prog, world, progress(prog, world, at), (n - 1) as nat)
    }
}

/// The registers with which a program starts: R1 holds the start of the packet,
/// R2 its end, R10 the end of the stack area, the others zero.
pub open spec fn first_regs(world: World, stack_size: int) -> Seq<u64> {
    Seq::new(
        NUM_REGS as nat,
        |r: int|
            if r == 1 {
                world.params[0]
            } else if r == 2 {
                wrap(Ty::I64, world.params[0] + world.params[1])
            } else if r == 10 {
                wrap(Ty::I64, world.stack + stack_size)
            } else {
                0
            },
    )
}

} // verus!
