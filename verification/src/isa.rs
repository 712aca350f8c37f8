//! What the instruction set says of each instruction, by the numbers in its
//! operation code.
//!
//! `advance` is what the translation of an instruction does. The laws here say
//! what that comes to for the registers and the memory, on every input.
use crate::accept::{is_binary, is_conditional, is_good, law_supported};
use crate::arith::{
    alu_bits, congruent, is_arith, is_taken, law_alu, law_cond, lemma_cut, lemma_two_to, two_to,
};
use crate::correct::{first_machine, law_prologue};
use crate::ebpf::{action, insn_at, slot_in, Action, Insn, NUM_REGS};
use crate::ir::{Op, State, Ty, World};
use crate::machine::{
    advance, advance_by, faithful, operand, progress, progress_by, Machine, Progress,
};
use crate::translate::{alu_ty, branch_reg, fill_regs_code, prologue_code, wide_imm};
use crate::word::{
    byte, bytes, bytes_at, bytes_back, lemma_byte_of_number, lemma_byte_shift, lemma_store_bytes,
    lemma_store_frame, lemma_wrap_same, limit, load_word, modulus, number, place, slot_part,
    store_word, swap_bytes, width, wrap, ByteOrder, Memory,
};
use vstd::arithmetic::div_mod::lemma_fundamental_div_mod;
use vstd::prelude::*;

verus! {

/// The instruction class, in the low three bits of an operation code.
pub open spec fn class(opc: u8) -> int {
    opc as int % 8
}

/// The operation of the arithmetic and jump classes, in the high four bits.
pub open spec fn operation(opc: u8) -> int {
    opc as int / 16
}

/// Whether bit 3 of an operation code is set: the second operand is a register.
pub open spec fn with_register(opc: u8) -> bool {
    opc as int / 8 % 2 == 1
}

/// Number of bytes that a load or store takes, by bits 3 and 4 of its operation
/// code.
pub open spec fn access_size(opc: u8) -> int {
    let size = opc as int / 8 % 4;
    if size == 0 {
        4
    } else if size == 1 {
        2
    } else if size == 2 {
        1
    } else {
        8
    }
}

/// What a read of the first `bits` bits of a register's slot finds.
pub open spec fn slot_read(order: ByteOrder, bits: int, word: u64) -> int {
    match order {
        ByteOrder::Little => word as int % two_to(bits),
        ByteOrder::Big => word as int / two_to(64 - bits),
    }
}

/// The second operand of an instruction in a computation with `bits` bits.
pub open spec fn second(order: ByteOrder, bits: int, insn: Insn, regs: Seq<u64>) -> int {
    if with_register(insn.opc) {
        slot_read(order, bits, regs[insn.src as int])
    } else {
        insn.imm as int % two_to(bits)
    }
}

/// Whether two machines differ in at most one register.
pub open spec fn same_but(a: Machine, b: Machine, reg: int) -> bool {
    &&& a.mem == b.mem
    &&& a.regs.len() == b.regs.len()
    &&& forall|r: int| 0 <= r < a.regs.len() && r != reg ==> #[trigger] a.regs[r] == b.regs[r]
}

/// Byte `k` of a number.
pub open spec fn byte_of(x: int, k: int) -> int
    decreases k,
{
    if k <= 0 {
        x % 0x100
    } else {
        byte_of(x / 0x100, k - 1)
    }
}

/// The address `k` past another, around the end of the address space.
pub open spec fn past(addr: u64, k: int) -> u64 {
    ((addr + k) % two_to(64)) as u64
}

/// The address of byte `k`, counted from the low end, of `n` bytes at an address.
pub open spec fn byte_place(order: ByteOrder, addr: u64, n: int, k: int) -> u64 {
    match order {
        ByteOrder::Little => past(addr, k),
        ByteOrder::Big => past(addr, n - 1 - k),
    }
}

/// Whether the `n` bytes at an address are the low bytes of a number.
pub open spec fn holds_bytes(order: ByteOrder, mem: Memory, addr: u64, n: int, x: int) -> bool {
    forall|k: int|
        0 <= k < n ==> mem[#[trigger] byte_place(order, addr, n, k)] == byte_of(x, k)
}

pub proof fn lemma_slot_read(order: ByteOrder, ty: Ty, word: u64)
    requires
        ty != Ty::I1,
    ensures
        slot_part(order, ty, word) == slot_read(order, width(ty) as int, word),
{
    lemma_two_to();
    assert(two_to(48) == 0x1_0000_0000_0000) by {
        reveal_with_fuel(two_to, 17);
        assert(two_to(48) == 0x1_0000 * two_to(32));
    }
    assert(two_to(56) == 0x100_0000_0000_0000) by {
        reveal_with_fuel(two_to, 17);
        assert(two_to(56) == 0x100 * two_to(48));
    }
    assert(word >> 0 == word && word >> 32 == word / 0x1_0000_0000 && word >> 48 == word
        / 0x1_0000_0000_0000 && word >> 56 == word / 0x100_0000_0000_0000) by (bit_vector);
}

/// An arithmetic instruction leaves in its destination register what the number
/// of its operation says of the operands, and nothing else changes. Those of class 4
/// compute with 32 bits and clear the high half.
#[verifier::rlimit(40)]
#[verifier::spinoff_prover]
pub proof fn law_arithmetic(prog: Seq<u8>, world: World, pc: int, m: Machine)
    requires
        slot_in(prog, pc),
        m.regs.len() == NUM_REGS,
        ({
            let insn = insn_at(prog, pc);
            let op = operation(insn.opc);
            &&& class(insn.opc) == 4 || class(insn.opc) == 7
            &&& op <= 12 && op != 8
            &&& insn.dst <= 10
            &&& with_register(insn.opc) ==> insn.src <= 10
            &&& !(op == 9 && !with_register(insn.opc) && insn.imm == 0)
        }),
    ensures
        ({
            let insn = insn_at(prog, pc);
            let bits: int = if class(insn.opc) == 7 {
                64
            } else {
                32
            };
            let after = advance(prog, world, Progress::At { pc, m });
            &&& after is At
            &&& after->pc == pc + 1
            &&& same_but(after->m, m, insn.dst as int)
            &&& is_arith(
                operation(insn.opc),
                bits,
                slot_read(world.order, bits, m.regs[insn.dst as int]),
                second(world.order, bits, insn, m.regs),
                after->m.regs[insn.dst as int] as int,
            )
        }),
{
    let insn = insn_at(prog, pc);
    let wide = class(insn.opc) == 7;
    let ty = alu_ty(wide);
    lemma_two_to();
    lemma_slot_read(world.order, ty, m.regs[insn.dst as int]);
    lemma_slot_read(world.order, ty, m.regs[insn.src as int]);
    if let Some(Action::Alu { op, reg, .. }) = action(insn.opc) {
        let a = slot_part(world.order, ty, m.regs[insn.dst as int]);
        let b = second(world.order, alu_bits(wide), insn, m.regs) as u64;
        law_alu(op, wide, a, b);
    }
}

/// The remainder by an immediate zero changes nothing.
#[verifier::rlimit(40)]
pub proof fn law_remainder_by_zero(prog: Seq<u8>, world: World, pc: int, m: Machine)
    requires
        slot_in(prog, pc),
        insn_at(prog, pc).opc == 0x94 || insn_at(prog, pc).opc == 0x97,
        insn_at(prog, pc).imm == 0,
    ensures
        advance(prog, world, Progress::At { pc, m }) == (Progress::At { pc: pc + 1, m }),
{
}

/// A negation leaves the number that adds up with the operand to a multiple of
/// two to the number of bits.
#[verifier::rlimit(40)]
pub proof fn law_negation(prog: Seq<u8>, world: World, pc: int, m: Machine)
    requires
        slot_in(prog, pc),
        m.regs.len() == NUM_REGS,
        insn_at(prog, pc).opc == 0x84 || insn_at(prog, pc).opc == 0x87,
        insn_at(prog, pc).dst <= 10,
    ensures
        ({
            let insn = insn_at(prog, pc);
            let bits: int = if insn.opc == 0x87 {
                64
            } else {
                32
            };
            let after = advance(prog, world, Progress::At { pc, m });
            let r = after->m.regs[insn.dst as int];
            &&& after is At
            &&& after->pc == pc + 1
            &&& same_but(after->m, m, insn.dst as int)
            &&& r < two_to(bits)
            &&& congruent(
                r + slot_read(world.order, bits, m.regs[insn.dst as int]),
                0,
                two_to(bits),
            )
        }),
{
    let insn = insn_at(prog, pc);
    let wide = insn.opc == 0x87;
    let x = slot_part(world.order, alu_ty(wide), m.regs[insn.dst as int]);
    lemma_slot_read(world.order, alu_ty(wide), m.regs[insn.dst as int]);
    lemma_cut(wide, -(x as int));
    assert(action(insn.opc) == Some(Action::Neg { wide }));
}

/// A conditional jump of either class goes to the slot that its offset leads to if
/// the number of its operation says so of the 32 bits that it reads, and else to
/// the next slot. Nothing else changes.
#[verifier::rlimit(40)]
#[verifier::spinoff_prover]
pub proof fn law_conditional_jump(prog: Seq<u8>, world: World, pc: int, m: Machine)
    requires
        slot_in(prog, pc),
        m.regs.len() == NUM_REGS,
        ({
            let insn = insn_at(prog, pc);
            let op = operation(insn.opc);
            &&& class(insn.opc) == 5 || class(insn.opc) == 6
            &&& 1 <= op <= 7 || 10 <= op <= 13
        }),
    ensures
        ({
            let insn = insn_at(prog, pc);
            let taken = is_taken(
                operation(insn.opc),
                0x1_0000_0000,
                slot_read(world.order, 32, m.regs[insn.dst as int]),
                second(world.order, 32, insn, m.regs),
            );
            advance(prog, world, Progress::At { pc, m }) == (Progress::At {
                pc: if taken {
                    pc + 1 + insn.off
                } else {
                    pc + 1
                },
                m,
            })
        }),
{
    let insn = insn_at(prog, pc);
    let opc = insn.opc;
    lemma_two_to();
    assert((opc & 8 != 0) == (opc / 8 % 2 == 1)) by (bit_vector);
    lemma_slot_read(world.order, Ty::I32, m.regs[insn.dst as int]);
    lemma_slot_read(world.order, Ty::I32, m.regs[insn.src as int]);
    if let Some(Action::Branch { cond }) = action(opc) {
        let a = slot_part(world.order, Ty::I32, m.regs[insn.dst as int]);
        let b = second(world.order, 32, insn, m.regs) as u64;
        law_cond(cond, false, a, b);
    }
}

/// The jumps of the two classes go the same way: the class takes no part in the
/// condition.
#[verifier::rlimit(40)]
#[verifier::spinoff_prover]
pub proof fn law_jump_classes(
    prog: Seq<u8>,
    other: Seq<u8>,
    world: World,
    pc: int,
    at: int,
    m: Machine,
)
    requires
        slot_in(prog, pc),
        slot_in(other, at),
        m.regs.len() == NUM_REGS,
        class(insn_at(prog, pc).opc) == 5,
        1 <= operation(insn_at(prog, pc).opc) <= 7 || 10 <= operation(insn_at(prog, pc).opc) <= 13,
        insn_at(other, at) == (Insn {
            opc: (insn_at(prog, pc).opc + 1) as u8,
            ..insn_at(prog, pc)
        }),
    ensures
        ({
            let here = advance(prog, world, Progress::At { pc, m });
            let there = advance(other, world, Progress::At { pc: at, m });
            &&& here is At && there is At
            &&& here->pc - pc == there->pc - at
            &&& here->m == there->m
        }),
{
    let opc = insn_at(prog, pc).opc;
    let next = insn_at(other, at).opc;
    assert(next == opc + 1);
    assert(operation(next) == operation(opc) && with_register(next) == with_register(opc));
    law_conditional_jump(prog, world, pc, m);
    law_conditional_jump(other, world, at, m);
}

/// A jump goes to the slot that its offset leads to.
#[verifier::rlimit(40)]
pub proof fn law_jump(prog: Seq<u8>, world: World, pc: int, m: Machine)
    requires
        slot_in(prog, pc),
        insn_at(prog, pc).opc == 0x05,
    ensures
        advance(prog, world, Progress::At { pc, m }) == (Progress::At {
            pc: pc + 1 + insn_at(prog, pc).off,
            m,
        }),
{
}

/// A call hands R1 to R5 and the memory to the helper function that the immediate
/// tells, and puts the result in R0.
#[verifier::rlimit(40)]
pub proof fn law_call(prog: Seq<u8>, world: World, pc: int, m: Machine)
    requires
        slot_in(prog, pc),
        m.regs.len() == NUM_REGS,
        insn_at(prog, pc).opc == 0x85,
    ensures
        ({
            let after = advance(prog, world, Progress::At { pc, m });
            let id = (insn_at(prog, pc).imm as int % 0x1_0000_0000) as u32;
            let args = seq![m.regs[1], m.regs[2], m.regs[3], m.regs[4], m.regs[5]];
            let (word, mem) = (world.helper)(id, args, m.mem);
            &&& after is At
            &&& after->pc == pc + 1
            &&& after->m.mem == mem
            &&& after->m.regs.len() == NUM_REGS
            &&& after->m.regs[0] == word
            &&& forall|r: int| 1 <= r <= 10 ==> #[trigger] after->m.regs[r] == m.regs[r]
        }),
{
    let imm = insn_at(prog, pc).imm;
    assert(imm as u32 == if imm >= 0 {
        imm + 0
    } else {
        imm + 0x1_0000_0000
    }) by (bit_vector);
    assert(crate::machine::call_args(m.regs) =~= seq![
        m.regs[1],
        m.regs[2],
        m.regs[3],
        m.regs[4],
        m.regs[5],
    ]);
}

/// An exit returns R0.
#[verifier::rlimit(40)]
pub proof fn law_exit(prog: Seq<u8>, world: World, pc: int, m: Machine)
    requires
        slot_in(prog, pc),
        insn_at(prog, pc).opc == 0x95,
    ensures
        advance(prog, world, Progress::At { pc, m }) == (Progress::Exited {
            word: m.regs[0],
            mem: m.mem,
        }),
{
}

/// The type of an access of `n` bytes.
spec fn size_ty(n: int) -> Ty {
    if n == 1 {
        Ty::I8
    } else if n == 2 {
        Ty::I16
    } else if n == 4 {
        Ty::I32
    } else {
        Ty::I64
    }
}

proof fn lemma_byte_of(word: u64, k: int)
    requires
        0 <= k < 8,
    ensures
        byte(word, k) == byte_of(word as int, k),
    decreases k,
{
    if k > 0 {
        lemma_byte_shift(word, k - 1);
        lemma_byte_of(word / 0x100, k - 1);
    }
}

/// What stands above the low `n` bytes takes no part in them.
proof fn lemma_low_bytes(y: int, q: int, n: int, k: int)
    requires
        0 <= k < n,
    ensures
        byte_of(y + limit(n) * q, k) == byte_of(y, k),
    decreases k,
{
    let p = limit(n - 1) * q;
    assert(limit(n) * q == 0x100 * p) by (nonlinear_arith)
        requires
            limit(n) == 0x100 * limit(n - 1),
            p == limit(n - 1) * q,
    ;
    assert((y + 0x100 * p) / 0x100 == y / 0x100 + p);
    if k > 0 {
        lemma_low_bytes(y / 0x100, q, n - 1, k - 1);
    }
}

/// The low bytes of a number that is cut to a type are its own.
proof fn lemma_cut_bytes(ty: Ty, x: int, k: int)
    requires
        ty != Ty::I1,
        0 <= k < bytes(ty),
    ensures
        byte_of(wrap(ty, x) as int, k) == byte_of(x, k),
{
    reveal_with_fuel(limit, 9);
    let m = modulus(ty);
    assert(m == limit(bytes(ty)));
    lemma_fundamental_div_mod(x, m);
    lemma_low_bytes(x % m, x / m, bytes(ty), k);
}

proof fn lemma_place(order: ByteOrder, addr: u64, ty: Ty, k: int)
    requires
        ty != Ty::I1,
    ensures
        place(order, addr, ty, k) == byte_place(order, addr, bytes(ty), k),
{
    lemma_two_to();
}

pub proof fn lemma_stored(order: ByteOrder, mem: Memory, addr: u64, ty: Ty, word: u64)
    requires
        ty != Ty::I1,
    ensures
        ({
            let after = store_word(order, mem, addr, ty, word);
            &&& holds_bytes(order, after, addr, bytes(ty), word as int)
            &&& forall|at: u64|
                (forall|k: int|
                    0 <= k < bytes(ty) ==> at != #[trigger] byte_place(order, addr, bytes(ty), k))
                    ==> #[trigger] after[at] == mem[at]
        }),
{
    let after = store_word(order, mem, addr, ty, word);
    let n = bytes(ty);
    assert forall|k: int| 0 <= k < n implies after[#[trigger] byte_place(order, addr, n, k)]
        == byte_of(word as int, k) by {
        lemma_place(order, addr, ty, k);
        lemma_store_bytes(order, mem, addr, ty, word, 0, k);
        lemma_byte_of(word, k);
    }
    assert forall|at: u64|
        (forall|k: int| 0 <= k < n ==> at != #[trigger] byte_place(order, addr, n, k)) implies
        #[trigger] after[at] == mem[at] by {
        assert forall|j: int| 0 <= j < n implies at != #[trigger] place(order, addr, ty, j) by {
            lemma_place(order, addr, ty, j);
            assert(at != byte_place(order, addr, n, j));
        }
        lemma_store_frame(order, mem, addr, ty, word, 0, at);
    }
}

pub proof fn lemma_loaded(order: ByteOrder, mem: Memory, addr: u64, ty: Ty)
    requires
        ty != Ty::I1,
    ensures
        holds_bytes(order, mem, addr, bytes(ty), load_word(order, mem, addr, ty) as int),
        load_word(order, mem, addr, ty) < two_to(8 * bytes(ty)),
{
    let n = bytes(ty);
    let found = bytes_at(order, mem, addr, ty);
    let word = load_word(order, mem, addr, ty);
    lemma_two_to();
    reveal_with_fuel(limit, 9);
    assert forall|i: int| 0 <= i < n implies #[trigger] found(i) < 0x100 by {}
    lemma_byte_of_number(found, n, 0);
    lemma_wrap_same(ty, number(found, n) as u64);
    assert forall|k: int| 0 <= k < n implies mem[#[trigger] byte_place(order, addr, n, k)]
        == byte_of(word as int, k) by {
        lemma_place(order, addr, ty, k);
        lemma_byte_of_number(found, n, k);
        lemma_byte_of(word, k);
        assert(found(k) == mem[place(order, addr, ty, k)]);
    }
}

/// A store puts the low bytes of the source register (class 3) or of the immediate
/// (class 2) at the destination register plus the offset, whatever that sum is. It
/// changes no other byte and no register.
#[verifier::rlimit(40)]
pub proof fn law_store(prog: Seq<u8>, world: World, pc: int, m: Machine)
    requires
        slot_in(prog, pc),
        m.regs.len() == NUM_REGS,
        class(insn_at(prog, pc).opc) == 2 || class(insn_at(prog, pc).opc) == 3,
        insn_at(prog, pc).opc / 32 == 3,
    ensures
        ({
            let insn = insn_at(prog, pc);
            let n = access_size(insn.opc);
            let addr = past(m.regs[insn.dst as int], insn.off as int);
            let x = if class(insn.opc) == 3 {
                m.regs[insn.src as int] as int
            } else {
                insn.imm as int
            };
            let after = advance(prog, world, Progress::At { pc, m });
            &&& after is At
            &&& after->pc == pc + 1
            &&& after->m.regs == m.regs
            &&& holds_bytes(world.order, after->m.mem, addr, n, x)
            &&& forall|at: u64|
                (forall|k: int|
                    0 <= k < n ==> at != #[trigger] byte_place(world.order, addr, n, k))
                    ==> #[trigger] after->m.mem[at] == m.mem[at]
        }),
{
    let insn = insn_at(prog, pc);
    let n = access_size(insn.opc);
    let ty = size_ty(n);
    let addr = past(m.regs[insn.dst as int], insn.off as int);
    let x = if class(insn.opc) == 3 {
        m.regs[insn.src as int] as int
    } else {
        insn.imm as int
    };
    lemma_two_to();
    lemma_stored(world.order, m.mem, addr, ty, wrap(ty, x));
    let after = advance(prog, world, Progress::At { pc, m });
    assert(action(insn.opc) == Some(Action::Store { ty, reg: class(insn.opc) == 3 }));
    assert(after->m.mem == store_word(world.order, m.mem, addr, ty, wrap(ty, x)));
    assert forall|k: int| 0 <= k < n implies after->m.mem[
        #[trigger] byte_place(world.order, addr, n, k)
    ] == byte_of(x, k) by {
        lemma_cut_bytes(ty, x, k);
    }
}

/// Whether an instruction has loaded the bytes at an address to its destination
/// register, with zeros above them, and done nothing else.
pub open spec fn has_loaded(
    order: ByteOrder,
    insn: Insn,
    addr: u64,
    pc: int,
    m: Machine,
    after: Progress,
) -> bool {
    let n = access_size(insn.opc);
    let word = after->m.regs[insn.dst as int];
    &&& after is At
    &&& after->pc == pc + 1
    &&& same_but(after->m, m, insn.dst as int)
    &&& holds_bytes(order, m.mem, addr, n, word as int)
    &&& word < two_to(8 * n)
}

/// A load takes the bytes at the source register plus the offset.
#[verifier::rlimit(40)]
pub proof fn law_load(prog: Seq<u8>, world: World, pc: int, m: Machine)
    requires
        slot_in(prog, pc),
        m.regs.len() == NUM_REGS,
        class(insn_at(prog, pc).opc) == 1,
        insn_at(prog, pc).opc / 32 == 3,
        insn_at(prog, pc).dst <= 10,
    ensures
        ({
            let insn = insn_at(prog, pc);
            let addr = past(m.regs[insn.src as int], insn.off as int);
            let after = advance(prog, world, Progress::At { pc, m });
            has_loaded(world.order, insn, addr, pc, m, after)
        }),
{
    let insn = insn_at(prog, pc);
    let ty = size_ty(access_size(insn.opc));
    let addr = past(m.regs[insn.src as int], insn.off as int);
    lemma_two_to();
    assert(action(insn.opc) == Some(Action::Load { ty }));
    lemma_loaded(world.order, m.mem, addr, ty);
}

/// A load from the packet takes the bytes at the start of the packet plus the
/// offset, in the mode 2 plus the source register too.
#[verifier::rlimit(40)]
pub proof fn law_packet_load(prog: Seq<u8>, world: World, pc: int, m: Machine)
    requires
        slot_in(prog, pc),
        m.regs.len() == NUM_REGS,
        class(insn_at(prog, pc).opc) == 0,
        insn_at(prog, pc).opc / 32 == 1 || insn_at(prog, pc).opc / 32 == 2,
        insn_at(prog, pc).dst <= 10,
    ensures
        ({
            let insn = insn_at(prog, pc);
            let index = if insn.opc / 32 == 2 {
                m.regs[insn.src as int] as int
            } else {
                0
            };
            let addr = past(world.params[0], insn.off + index);
            let after = advance(prog, world, Progress::At { pc, m });
            has_loaded(world.order, insn, addr, pc, m, after)
        }),
{
    let insn = insn_at(prog, pc);
    let ty = size_ty(access_size(insn.opc));
    let index = if insn.opc / 32 == 2 {
        m.regs[insn.src as int] as int
    } else {
        0
    };
    let addr = past(world.params[0], insn.off + index);
    lemma_two_to();
    assert(action(insn.opc) == Some(Action::LoadAbs { ty, ind: insn.opc / 32 == 2 }));
    lemma_loaded(world.order, m.mem, addr, ty);
}

/// The load of a 64-bit immediate leaves the word whose low half is the immediate of
/// the first slot and whose high half is that of the second, and goes on after both.
#[verifier::rlimit(40)]
pub proof fn law_wide_immediate(prog: Seq<u8>, world: World, pc: int, m: Machine, w: u64)
    requires
        slot_in(prog, pc),
        slot_in(prog, pc + 1),
        m.regs.len() == NUM_REGS,
        insn_at(prog, pc).opc == 0x18,
        insn_at(prog, pc).dst <= 10,
        congruent(insn_at(prog, pc).imm as int, w as int % 0x1_0000_0000, 0x1_0000_0000),
        congruent(insn_at(prog, pc + 1).imm as int, w as int / 0x1_0000_0000, 0x1_0000_0000),
    ensures
        ({
            let insn = insn_at(prog, pc);
            let after = advance(prog, world, Progress::At { pc, m });
            &&& after is At
            &&& after->pc == pc + 2
            &&& same_but(after->m, m, insn.dst as int)
            &&& after->m.regs[insn.dst as int] == w
        }),
{
    lemma_wide(insn_at(prog, pc), insn_at(prog, pc + 1), w);
    assert(action(0x18) == Some(Action::LoadImm));
}

proof fn lemma_wide(first: Insn, next: Insn, w: u64)
    requires
        congruent(first.imm as int, w as int % 0x1_0000_0000, 0x1_0000_0000),
        congruent(next.imm as int, w as int / 0x1_0000_0000, 0x1_0000_0000),
    ensures
        wide_imm(first, next) == w,
{
    let low = first.imm;
    let high = next.imm;
    assert(low as u32 == if low >= 0 {
        low + 0
    } else {
        low + 0x1_0000_0000
    }) by (bit_vector);
    assert(high as u32 == if high >= 0 {
        high + 0
    } else {
        high + 0x1_0000_0000
    }) by (bit_vector);
}

/// A conversion to big endian (0xdc) or little endian (0xd4) reverses the bytes of
/// the 16, 32 or 64 bits that it reads, with zeros above them, if the machine has
/// the other byte order. If it has that order, nothing changes.
#[verifier::rlimit(40)]
pub proof fn law_byte_swap(prog: Seq<u8>, world: World, pc: int, m: Machine)
    requires
        slot_in(prog, pc),
        m.regs.len() == NUM_REGS,
        insn_at(prog, pc).opc == 0xd4 || insn_at(prog, pc).opc == 0xdc,
        insn_at(prog, pc).dst <= 10,
        insn_at(prog, pc).imm == 16 || insn_at(prog, pc).imm == 32 || insn_at(prog, pc).imm == 64,
    ensures
        ({
            let insn = insn_at(prog, pc);
            let bits = insn.imm as int;
            let x = slot_read(world.order, bits, m.regs[insn.dst as int]);
            let after = advance(prog, world, Progress::At { pc, m });
            let r = after->m.regs[insn.dst as int] as int;
            &&& after is At
            &&& after->pc == pc + 1
            &&& same_but(after->m, m, insn.dst as int)
            &&& if (insn.opc == 0xdc) == (world.order == ByteOrder::Little) {
                &&& r < two_to(bits)
                &&& forall|k: int|
                    0 <= k < bits / 8 ==> #[trigger] byte_of(r, k) == byte_of(
                        x,
                        bits / 8 - 1 - k,
                    )
            } else {
                r == m.regs[insn.dst as int]
            }
        }),
{
    let insn = insn_at(prog, pc);
    let bits = insn.imm as int;
    let ty = size_ty(bits / 8);
    let dst = m.regs[insn.dst as int];
    let x = slot_part(world.order, ty, dst);
    lemma_two_to();
    lemma_slot_read(world.order, ty, dst);
    lemma_swapped(ty, x);
}

pub proof fn lemma_swapped(ty: Ty, x: u64)
    requires
        ty == Ty::I16 || ty == Ty::I32 || ty == Ty::I64,
    ensures
        swap_bytes(ty, x) < two_to(8 * bytes(ty)),
        forall|k: int|
            0 <= k < bytes(ty) ==> #[trigger] byte_of(swap_bytes(ty, x) as int, k) == byte_of(
                x as int,
                bytes(ty) - 1 - k,
            ),
{
    let n = bytes(ty);
    let back = bytes_back(ty, x);
    let r = swap_bytes(ty, x);
    lemma_two_to();
    reveal_with_fuel(limit, 9);
    assert forall|i: int| 0 <= i < n implies #[trigger] back(i) < 0x100 by {}
    lemma_byte_of_number(back, n, 0);
    lemma_wrap_same(ty, number(back, n) as u64);
    assert forall|k: int| 0 <= k < n implies #[trigger] byte_of(r as int, k) == byte_of(
        x as int,
        n - 1 - k,
    ) by {
        lemma_byte_of_number(back, n, k);
        lemma_byte_of(r, k);
        lemma_byte_of(x, n - 1 - k);
        assert(back(k) == byte(x, n - 1 - k));
    }
}

/// A program starts in slot 0. R1 holds the start of the packet, R2 its end, R10 the end
/// of the 512 bytes of the stack, and the other registers hold zero. The function that the
/// program becomes asks for a stack of that size.
#[verifier::rlimit(40)]
pub proof fn law_start(world: World, mem: Memory)
    ensures
        ({
            let first = first_machine(world, mem);
            let regs = first->m.regs;
            &&& first is At
            &&& first->pc == 0
            &&& first->m.mem == mem
            &&& regs.len() == 11
            &&& regs[1] == world.params[0]
            &&& regs[2] == past(world.params[0], world.params[1] as int)
            &&& regs[10] == past(world.stack, 512)
            &&& forall|r: int|
                0 <= r <= 9 && r != 1 && r != 2 ==> #[trigger] regs[r] == 0
            &&& exists|i: int|
                0 <= i < prologue_code().len() && (#[trigger] prologue_code()[i]).op == (Op::Stack {
                    size: 512,
                })
        }),
{
    lemma_two_to();
    law_prologue(
        world,
        State { results: Map::empty(), regs: Seq::new(11, |r: int| 0u64), mem },
    );
    reveal_with_fuel(fill_regs_code, 12);
    assert(prologue_code()[7].op == (Op::Stack { size: 512 }));
}

/// On a little-endian machine the translation of an instruction does what the instruction
/// does. The exceptions are
/// - a store at an offset to an address that is no multiple of 8, on a machine that minds,
/// - a remainder of 32 bits by an immediate zero, of a register that has bits above them,
/// - a byte swap that finds the bytes in order, of a register that has bits above them,
/// - a jump of class 5 that goes another way by all 64 bits than by the low 32.
#[verifier::rlimit(60)]
#[verifier::spinoff_prover]
pub proof fn law_faithful(prog: Seq<u8>, world: World, pc: int, m: Machine)
    requires
        world.order == ByteOrder::Little,
        is_good(world.order, prog, pc),
        m.regs.len() == NUM_REGS,
        ({
            let insn = insn_at(prog, pc);
            let dst = m.regs[insn.dst as int];
            let op = operation(insn.opc);
            &&& (class(insn.opc) == 2 || class(insn.opc) == 3) && insn.off != 0 && !world.unaligned
                ==> past(dst, insn.off as int) % 8 == 0
            &&& (insn.opc == 0x94 || insn.opc == 0x97) && insn.imm == 0 ==> insn.dst <= 10 && (
            insn.opc == 0x97 || dst < 0x1_0000_0000)
            &&& insn.opc == 0xd4 ==> insn.dst <= 10 && (insn.imm == 16 && dst < 0x1_0000 || insn.imm
                == 32 && dst < 0x1_0000_0000 || insn.imm != 16 && insn.imm != 32)
            &&& is_conditional(insn.opc) && class(insn.opc) == 5 ==> {
                let wide = if with_register(insn.opc) {
                    m.regs[insn.src as int] as int
                } else {
                    insn.imm as int % two_to(64)
                };
                is_taken(op, two_to(64), dst as int, wide) == is_taken(
                    op,
                    two_to(32),
                    dst as int % two_to(32),
                    wide % two_to(32),
                )
            }
        }),
    ensures
        faithful(prog, world, pc, m),
{
    let insn = insn_at(prog, pc);
    let opc = insn.opc;
    let dst = m.regs[insn.dst as int];
    lemma_two_to();
    law_supported(world.order, prog, pc);
    assert((opc & 8 != 0) == (opc / 8 % 2 == 1)) by (bit_vector);
    if let Some(Action::Branch { cond }) = action(opc) {
        let b = operand(insn, Ty::I64, branch_reg(opc), m.regs);
        let low = operand(insn, Ty::I32, branch_reg(opc), m.regs);
        assert(low == b as int % two_to(32));
        law_cond(cond, true, dst, b);
        law_cond(cond, false, wrap(Ty::I32, dst as int), low);
    }
}

/// The low bits of the second operand of an instruction.
pub open spec fn low_second(bits: int, insn: Insn, regs: Seq<u64>) -> int {
    if with_register(insn.opc) {
        regs[insn.src as int] as int % two_to(bits)
    } else {
        insn.imm as int % two_to(bits)
    }
}

/// What an arithmetic instruction itself does, on a machine of either byte order: it
/// computes with the low bits of the registers. Class 4 has 32 bits, class 7 has 64.
#[verifier::rlimit(40)]
#[verifier::spinoff_prover]
pub proof fn law_program_arithmetic(prog: Seq<u8>, world: World, pc: int, m: Machine)
    requires
        slot_in(prog, pc),
        m.regs.len() == NUM_REGS,
        is_binary(insn_at(prog, pc).opc),
        insn_at(prog, pc).dst <= 10,
    ensures
        ({
            let insn = insn_at(prog, pc);
            let bits: int = if class(insn.opc) == 7 {
                64
            } else {
                32
            };
            let after = progress(prog, world, Progress::At { pc, m });
            &&& after is At
            &&& after->pc == pc + 1
            &&& same_but(after->m, m, insn.dst as int)
            &&& is_arith(
                operation(insn.opc),
                bits,
                m.regs[insn.dst as int] as int % two_to(bits),
                low_second(bits, insn, m.regs),
                after->m.regs[insn.dst as int] as int,
            )
        }),
{
    let insn = insn_at(prog, pc);
    let wide = class(insn.opc) == 7;
    lemma_two_to();
    if let Some(Action::Alu { op, reg, .. }) = action(insn.opc) {
        let a = wrap(alu_ty(wide), m.regs[insn.dst as int] as int);
        let b = low_second(alu_bits(wide), insn, m.regs) as u64;
        law_alu(op, wide, a, b);
    }
}

/// What a negation itself does.
#[verifier::rlimit(40)]
pub proof fn law_program_negation(prog: Seq<u8>, world: World, pc: int, m: Machine)
    requires
        slot_in(prog, pc),
        m.regs.len() == NUM_REGS,
        insn_at(prog, pc).opc == 0x84 || insn_at(prog, pc).opc == 0x87,
        insn_at(prog, pc).dst <= 10,
    ensures
        ({
            let insn = insn_at(prog, pc);
            let bits: int = if insn.opc == 0x87 {
                64
            } else {
                32
            };
            let after = progress(prog, world, Progress::At { pc, m });
            let r = after->m.regs[insn.dst as int];
            &&& after is At
            &&& after->pc == pc + 1
            &&& same_but(after->m, m, insn.dst as int)
            &&& r < two_to(bits)
            &&& congruent(r + m.regs[insn.dst as int], 0, two_to(bits))
        }),
{
    let insn = insn_at(prog, pc);
    let wide = insn.opc == 0x87;
    let x = m.regs[insn.dst as int];
    lemma_cut(wide, -(x as int));
    assert(action(insn.opc) == Some(Action::Neg { wide }));
}

/// What a conditional jump itself does: those of class 5 compare 64 bits, those of
/// class 6 the low 32.
#[verifier::rlimit(40)]
#[verifier::spinoff_prover]
pub proof fn law_program_jump(prog: Seq<u8>, world: World, pc: int, m: Machine)
    requires
        slot_in(prog, pc),
        m.regs.len() == NUM_REGS,
        is_conditional(insn_at(prog, pc).opc),
    ensures
        ({
            let insn = insn_at(prog, pc);
            let bits: int = if class(insn.opc) == 5 {
                64
            } else {
                32
            };
            let taken = is_taken(
                operation(insn.opc),
                two_to(bits),
                m.regs[insn.dst as int] as int % two_to(bits),
                low_second(bits, insn, m.regs),
            );
            progress(prog, world, Progress::At { pc, m }) == (Progress::At {
                pc: if taken {
                    pc + 1 + insn.off
                } else {
                    pc + 1
                },
                m,
            })
        }),
{
    let insn = insn_at(prog, pc);
    let opc = insn.opc;
    let wide = class(opc) == 5;
    lemma_two_to();
    assert((opc & 8 != 0) == (opc / 8 % 2 == 1)) by (bit_vector);
    if let Some(Action::Branch { cond }) = action(opc) {
        let a = wrap(alu_ty(wide), m.regs[insn.dst as int] as int);
        let b = low_second(alu_bits(wide), insn, m.regs) as u64;
        law_cond(cond, wide, a, b);
    }
}

/// What a byte swap itself does: it keeps the low 16, 32 or 64 bits, in the order of bytes
/// that it asks for.
#[verifier::rlimit(40)]
pub proof fn law_program_swap(prog: Seq<u8>, world: World, pc: int, m: Machine)
    requires
        slot_in(prog, pc),
        m.regs.len() == NUM_REGS,
        insn_at(prog, pc).opc == 0xd4 || insn_at(prog, pc).opc == 0xdc,
        insn_at(prog, pc).dst <= 10,
        insn_at(prog, pc).imm == 16 || insn_at(prog, pc).imm == 32 || insn_at(prog, pc).imm == 64,
    ensures
        ({
            let insn = insn_at(prog, pc);
            let bits = insn.imm as int;
            let x = m.regs[insn.dst as int] as int % two_to(bits);
            let after = progress(prog, world, Progress::At { pc, m });
            let r = after->m.regs[insn.dst as int] as int;
            &&& after is At
            &&& after->pc == pc + 1
            &&& same_but(after->m, m, insn.dst as int)
            &&& r < two_to(bits)
            &&& if (insn.opc == 0xdc) == (world.order == ByteOrder::Little) {
                forall|k: int|
                    0 <= k < bits / 8 ==> #[trigger] byte_of(r, k) == byte_of(
                        x,
                        bits / 8 - 1 - k,
                    )
            } else {
                r == x
            }
        }),
{
    let insn = insn_at(prog, pc);
    let ty = size_ty(insn.imm as int / 8);
    lemma_two_to();
    lemma_swapped(ty, wrap(ty, m.regs[insn.dst as int] as int));
}

/// What loads, stores, jumps without a condition, calls and exits themselves do is what
/// their translations do.
#[verifier::rlimit(40)]
pub proof fn law_program_other(prog: Seq<u8>, world: World, pc: int, m: Machine)
    requires
        ({
            let opc = insn_at(prog, pc).opc;
            class(opc) <= 3 || opc == 0x05 || opc == 0x85 || opc == 0x95
        }),
    ensures
        progress(prog, world, Progress::At { pc, m }) == advance(
            prog,
            world,
            Progress::At { pc, m },
        ),
{
}

/// Steps of a program are taken one after another, and so are those of its translation.
#[verifier::rlimit(40)]
pub proof fn law_one_by_one(prog: Seq<u8>, world: World, at: Progress, n: nat)
    ensures
        progress_by(prog, world, at, 0) == at,
        progress_by(prog, world, at, n + 1) == progress_by(
            prog,
            world,
            progress(prog, world, at),
            n,
        ),
        advance_by(prog, world, at, 0) == at,
        advance_by(prog, world, at, n + 1) == advance_by(
            prog,
            world,
            advance(prog, world, at),
            n,
        ),
        !(at is At) ==> progress(prog, world, at) == at && advance(prog, world, at) == at,
        at is At && !(0 <= at->pc && 8 * at->pc + 8 <= prog.len()) ==> progress(prog, world, at)
            is Stuck && advance(prog, world, at) is Stuck,
{
}

} // verus!
