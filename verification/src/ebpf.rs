//! The eBPF instruction set: the encoding of instructions, and what each
//! operation code stands for.
use crate::ir::Ty;
use vstd::prelude::*;

verus! {

/// Size of an eBPF instruction, in bytes.
pub const INSN_SIZE: usize = 8;

/// Number of eBPF registers, R0 to R10.
pub const NUM_REGS: usize = 11;

/// Source bit: the second operand is the source register.
pub const BPF_X: u8 = 0x08;

/// Operation class of the jumps that compare 32 bits.
pub const BPF_JMP32: u8 = 0x06;

/// Operation code of the two-slot load of a 64-bit immediate.
pub const LD_DW_IMM: u8 = 0x18;

/// Operation code of the tail call.
pub const TAIL_CALL: u8 = 0x8d;

/// One eBPF instruction.
#[derive(Clone, Copy, Debug, PartialEq, Eq)]
pub struct Insn {
    /// Operation code.
    pub opc: u8,
    /// Destination register.
    pub dst: u8,
    /// Source register.
    pub src: u8,
    /// Offset operand.
    pub off: i16,
    /// Immediate operand.
    pub imm: i32,
}

/// The binary operations of the arithmetic classes.
#[derive(Clone, Copy, Debug, PartialEq, Eq)]
pub enum AluOp {
    Add,
    Sub,
    Mul,
    Div,
    Or,
    And,
    Lsh,
    Rsh,
    Mod,
    Xor,
    Mov,
    Arsh,
}

/// The conditions of the conditional jumps.
#[derive(Clone, Copy, Debug, PartialEq, Eq)]
pub enum Cond {
    Eq,
    Gt,
    Ge,
    AnyBit,
    Ne,
    Sgt,
    Sge,
    Lt,
    Le,
    Slt,
    Sle,
}

/// What an operation code stands for.
#[derive(Clone, Copy, Debug, PartialEq, Eq)]
pub enum Action {
    /// Load from the packet; `ind` adds the source register to the address.
    LoadAbs { ty: Ty, ind: bool },
    /// Load a 64-bit immediate, which takes a second slot.
    LoadImm,
    /// Load from the address in the source register plus the offset.
    Load { ty: Ty },
    /// Store the source register (`reg`) or the immediate.
    Store { ty: Ty, reg: bool },
    /// Arithmetic on 64 bits (`wide`) or 32, with the source register (`reg`)
    /// or the immediate as the second operand.
    Alu { op: AluOp, wide: bool, reg: bool },
    /// Negation on 64 bits (`wide`) or 32.
    Neg { wide: bool },
    /// Conversion from the host's byte order to big endian (`big`) or little.
    Swap { big: bool },
    /// Unconditional jump.
    Jump,
    /// Conditional jump.
    Branch { cond: Cond },
    /// Call of a helper function.
    Call,
    /// Return from the program.
    Exit,
}

/// The access width that the size bits of an operation code select.
pub open spec fn size_of_code(opc: u8) -> Ty {
    let size = (opc / 8) % 4;
    if size == 0 {
        Ty::I32
    } else if size == 1 {
        Ty::I16
    } else if size == 2 {
        Ty::I8
    } else {
        Ty::I64
    }
}

/// The binary operation of an arithmetic operation code.
pub open spec fn alu_of_code(opc: u8) -> Option<AluOp> {
    let op = opc / 16;
    if op == 0 {
        Some(AluOp::Add)
    } else if op == 1 {
        Some(AluOp::Sub)
    } else if op == 2 {
        Some(AluOp::Mul)
    } else if op == 3 {
        Some(AluOp::Div)
    } else if op == 4 {
        Some(AluOp::Or)
    } else if op == 5 {
        Some(AluOp::And)
    } else if op == 6 {
        Some(AluOp::Lsh)
    } else if op == 7 {
        Some(AluOp::Rsh)
    } else if op == 9 {
        Some(AluOp::Mod)
    } else if op == 10 {
        Some(AluOp::Xor)
    } else if op == 11 {
        Some(AluOp::Mov)
    } else if op == 12 {
        Some(AluOp::Arsh)
    } else {
        None
    }
}

/// The condition of a jump operation code.
pub open spec fn cond_of_code(opc: u8) -> Option<Cond> {
    let op = opc / 16;
    if op == 1 {
        Some(Cond::Eq)
    } else if op == 2 {
        Some(Cond::Gt)
    } else if op == 3 {
        Some(Cond::Ge)
    } else if op == 4 {
        Some(Cond::AnyBit)
    } else if op == 5 {
        Some(Cond::Ne)
    } else if op == 6 {
        Some(Cond::Sgt)
    } else if op == 7 {
        Some(Cond::Sge)
    } else if op == 10 {
        Some(Cond::Lt)
    } else if op == 11 {
        Some(Cond::Le)
    } else if op == 12 {
        Some(Cond::Slt)
    } else if op == 13 {
        Some(Cond::Sle)
    } else {
        None
    }
}

/// Whether the second operand is the source register.
pub open spec fn reg_operand(opc: u8) -> bool {
    (opc / 8) % 2 == 1
}

/// What `opc` stands for, read off its fields: the class in the low three
/// bits; for loads and stores the mode in the high three and the size between;
/// for the others the operation in the high four and the source bit below it.
/// `None` for the operations that have no translation.
pub open spec fn action(opc: u8) -> Option<Action> {
    let class = opc % 8;
    let mode = opc / 32;
    let op = opc / 16;
    let reg = reg_operand(opc);
    let ty = size_of_code(opc);
    if class == 0 {
        if mode == 1 {
            Some(Action::LoadAbs { ty, ind: false })
        } else if mode == 2 {
            Some(Action::LoadAbs { ty, ind: true })
        } else if mode == 0 && ty == Ty::I64 {
            Some(Action::LoadImm)
        } else {
            None
        }
    } else if class == 1 && mode == 3 {
        Some(Action::Load { ty })
    } else if class == 2 && mode == 3 {
        Some(Action::Store { ty, reg: false })
    } else if class == 3 && mode == 3 {
        Some(Action::Store { ty, reg: true })
    } else if class == 4 || class == 7 {
        if alu_of_code(opc) is Some {
            Some(Action::Alu { op: alu_of_code(opc)->0, wide: class == 7, reg })
        } else if op == 8 && !reg {
            Some(Action::Neg { wide: class == 7 })
        } else if op == 13 && class == 4 {
            Some(Action::Swap { big: reg })
        } else {
            None
        }
    } else if (class == 5 || class == 6) && cond_of_code(opc) is Some {
        Some(Action::Branch { cond: cond_of_code(opc)->0 })
    } else if class == 5 && !reg {
        if op == 0 {
            Some(Action::Jump)
        } else if op == 8 {
            Some(Action::Call)
        } else if op == 9 {
            Some(Action::Exit)
        } else {
            None
        }
    } else {
        None
    }
}

/// Whether the instruction ends its basic block, so that the instruction after
/// it and the one at its offset start blocks of their own.
pub open spec fn ends_block(opc: u8) -> bool {
    ||| action(opc) == Some(Action::Jump)
    ||| action(opc) is Some && action(opc)->0 is Branch
    ||| action(opc) == Some(Action::Exit)
    ||| opc == TAIL_CALL
}

/// The two's complement reading of 16 bits, low byte first.
pub open spec fn le_i16(low: u8, high: u8) -> i16 {
    let bits = low + 256 * high;
    (if bits < 0x8000 {
        bits
    } else {
        bits - 0x1_0000
    }) as i16
}

/// The two's complement reading of 32 bits, low byte first.
pub open spec fn le_i32(b0: u8, b1: u8, b2: u8, b3: u8) -> i32 {
    let bits = b0 + 0x100 * b1 + 0x1_0000 * b2 + 0x100_0000 * b3;
    (if bits < 0x8000_0000 {
        bits
    } else {
        bits - 0x1_0000_0000
    }) as i32
}

/// Whether the instruction slot `idx` lies wholly inside the program.
pub open spec fn slot_in(prog: Seq<u8>, idx: int) -> bool {
    0 <= idx && (idx + 1) * 8 <= prog.len()
}

/// The instruction in slot `idx` of the program: operation code, destination
/// in the low and source in the high half of the second byte, two bytes of
/// offset and four of immediate.
pub open spec fn insn_at(prog: Seq<u8>, idx: int) -> Insn {
    Insn {
        opc: prog[8 * idx],
        dst: prog[8 * idx + 1] % 16,
        src: prog[8 * idx + 1] / 16,
        off: le_i16(prog[8 * idx + 2], prog[8 * idx + 3]),
        imm: le_i32(
            prog[8 * idx + 4],
            prog[8 * idx + 5],
            prog[8 * idx + 6],
            prog[8 * idx + 7],
        ),
    }
}

/// Reads a little-endian `i16`.
fn read_i16(low: u8, high: u8) -> (value: i16)
    ensures
        value == le_i16(low, high),
{
    let bits: u16 = (low as u16) | ((high as u16) << 8);
    assert(bits == low + 256 * high) by (bit_vector)
        requires
            bits == (low as u16) | ((high as u16) << 8u16),
    ;
    assert(bits < 0x8000 ==> bits as i16 == bits) by (bit_vector);
    assert(bits >= 0x8000 ==> bits as i16 == bits - 0x1_0000) by (bit_vector);
    bits as i16
}

/// Reads a little-endian `i32`.
fn read_i32(b0: u8, b1: u8, b2: u8, b3: u8) -> (value: i32)
    ensures
        value == le_i32(b0, b1, b2, b3),
{
    let bits: u32 = (b0 as u32) | ((b1 as u32) << 8) | ((b2 as u32) << 16) | ((b3 as u32) << 24);
    assert(bits == b0 + 0x100 * b1 + 0x1_0000 * b2 + 0x100_0000 * b3) by (bit_vector)
        requires
            bits == (b0 as u32) | ((b1 as u32) << 8u32) | ((b2 as u32) << 16u32) | ((b3 as u32)
                << 24u32),
    ;
    assert(bits < 0x8000_0000 ==> bits as i32 == bits) by (bit_vector);
    assert(bits >= 0x8000_0000 ==> bits as i32 == bits - 0x1_0000_0000) by (bit_vector);
    bits as i32
}

/// Reads the instruction in slot `idx` of the program.
pub fn get_insn(prog: &[u8], idx: usize) -> (insn: Insn)
    requires
        slot_in(prog@, idx as int),
    ensures
        insn == insn_at(prog@, idx as int),
{
    assert(prog@.len() == prog.len());
    let at: usize = idx * INSN_SIZE;
    let regs: u8 = prog[at + 1];
    assert(regs & 0x0f == regs % 16 && (regs & 0xf0) >> 4 == regs / 16) by (bit_vector);
    Insn {
        opc: prog[at],
        dst: regs & 0x0f,
        src: (regs & 0xf0) >> 4,
        off: read_i16(prog[at + 2], prog[at + 3]),
        imm: read_i32(prog[at + 4], prog[at + 5], prog[at + 6], prog[at + 7]),
    }
}

/// What the operation code stands for, or `None` if it has no translation.
pub fn decode(opc: u8) -> (res: Option<Action>)
    ensures
        res == action(opc),
{
    match opc {
        // LD_ABS_B
        0x30 => Some(Action::LoadAbs { ty: Ty::I8, ind: false }),
        // LD_ABS_H
        0x28 => Some(Action::LoadAbs { ty: Ty::I16, ind: false }),
        // LD_ABS_W
        0x20 => Some(Action::LoadAbs { ty: Ty::I32, ind: false }),
        // LD_ABS_DW
        0x38 => Some(Action::LoadAbs { ty: Ty::I64, ind: false }),
        // LD_IND_B
        0x50 => Some(Action::LoadAbs { ty: Ty::I8, ind: true }),
        // LD_IND_H
        0x48 => Some(Action::LoadAbs { ty: Ty::I16, ind: true }),
        // LD_IND_W
        0x40 => Some(Action::LoadAbs { ty: Ty::I32, ind: true }),
        // LD_IND_DW
        0x58 => Some(Action::LoadAbs { ty: Ty::I64, ind: true }),
        // LD_DW_IMM
        0x18 => Some(Action::LoadImm),
        // LD_B_REG
        0x71 => Some(Action::Load { ty: Ty::I8 }),
        // LD_H_REG
        0x69 => Some(Action::Load { ty: Ty::I16 }),
        // LD_W_REG
        0x61 => Some(Action::Load { ty: Ty::I32 }),
        // LD_DW_REG
        0x79 => Some(Action::Load { ty: Ty::I64 }),
        // ST_B_IMM
        0x72 => Some(Action::Store { ty: Ty::I8, reg: false }),
        // ST_H_IMM
        0x6a => Some(Action::Store { ty: Ty::I16, reg: false }),
        // ST_W_IMM
        0x62 => Some(Action::Store { ty: Ty::I32, reg: false }),
        // ST_DW_IMM
        0x7a => Some(Action::Store { ty: Ty::I64, reg: false }),
        // ST_B_REG
        0x73 => Some(Action::Store { ty: Ty::I8, reg: true }),
        // ST_H_REG
        0x6b => Some(Action::Store { ty: Ty::I16, reg: true }),
        // ST_W_REG
        0x63 => Some(Action::Store { ty: Ty::I32, reg: true }),
        // ST_DW_REG
        0x7b => Some(Action::Store { ty: Ty::I64, reg: true }),
        // ADD32_IMM
        0x04 => Some(Action::Alu { op: AluOp::Add, wide: false, reg: false }),
        // ADD32_REG
        0x0c => Some(Action::Alu { op: AluOp::Add, wide: false, reg: true }),
        // SUB32_IMM
        0x14 => Some(Action::Alu { op: AluOp::Sub, wide: false, reg: false }),
        // SUB32_REG
        0x1c => Some(Action::Alu { op: AluOp::Sub, wide: false, reg: true }),
        // MUL32_IMM
        0x24 => Some(Action::Alu { op: AluOp::Mul, wide: false, reg: false }),
        // MUL32_REG
        0x2c => Some(Action::Alu { op: AluOp::Mul, wide: false, reg: true }),
        // DIV32_IMM
        0x34 => Some(Action::Alu { op: AluOp::Div, wide: false, reg: false }),
        // DIV32_REG
        0x3c => Some(Action::Alu { op: AluOp::Div, wide: false, reg: true }),
        // OR32_IMM
        0x44 => Some(Action::Alu { op: AluOp::Or, wide: false, reg: false }),
        // OR32_REG
        0x4c => Some(Action::Alu { op: AluOp::Or, wide: false, reg: true }),
        // AND32_IMM
        0x54 => Some(Action::Alu { op: AluOp::And, wide: false, reg: false }),
        // AND32_REG
        0x5c => Some(Action::Alu { op: AluOp::And, wide: false, reg: true }),
        // LSH32_IMM
        0x64 => Some(Action::Alu { op: AluOp::Lsh, wide: false, reg: false }),
        // LSH32_REG
        0x6c => Some(Action::Alu { op: AluOp::Lsh, wide: false, reg: true }),
        // RSH32_IMM
        0x74 => Some(Action::Alu { op: AluOp::Rsh, wide: false, reg: false }),
        // RSH32_REG
        0x7c => Some(Action::Alu { op: AluOp::Rsh, wide: false, reg: true }),
        // MOD32_IMM
        0x94 => Some(Action::Alu { op: AluOp::Mod, wide: false, reg: false }),
        // MOD32_REG
        0x9c => Some(Action::Alu { op: AluOp::Mod, wide: false, reg: true }),
        // XOR32_IMM
        0xa4 => Some(Action::Alu { op: AluOp::Xor, wide: false, reg: false }),
        // XOR32_REG
        0xac => Some(Action::Alu { op: AluOp::Xor, wide: false, reg: true }),
        // MOV32_IMM
        0xb4 => Some(Action::Alu { op: AluOp::Mov, wide: false, reg: false }),
        // MOV32_REG
        0xbc => Some(Action::Alu { op: AluOp::Mov, wide: false, reg: true }),
        // ARSH32_IMM
        0xc4 => Some(Action::Alu { op: AluOp::Arsh, wide: false, reg: false }),
        // ARSH32_REG
        0xcc => Some(Action::Alu { op: AluOp::Arsh, wide: false, reg: true }),
        // NEG32
        0x84 => Some(Action::Neg { wide: false }),
        // ADD64_IMM
        0x07 => Some(Action::Alu { op: AluOp::Add, wide: true, reg: false }),
        // ADD64_REG
        0x0f => Some(Action::Alu { op: AluOp::Add, wide: true, reg: true }),
        // SUB64_IMM
        0x17 => Some(Action::Alu { op: AluOp::Sub, wide: true, reg: false }),
        // SUB64_REG
        0x1f => Some(Action::Alu { op: AluOp::Sub, wide: true, reg: true }),
        // MUL64_IMM
        0x27 => Some(Action::Alu { op: AluOp::Mul, wide: true, reg: false }),
        // MUL64_REG
        0x2f => Some(Action::Alu { op: AluOp::Mul, wide: true, reg: true }),
        // DIV64_IMM
        0x37 => Some(Action::Alu { op: AluOp::Div, wide: true, reg: false }),
        // DIV64_REG
        0x3f => Some(Action::Alu { op: AluOp::Div, wide: true, reg: true }),
        // OR64_IMM
        0x47 => Some(Action::Alu { op: AluOp::Or, wide: true, reg: false }),
        // OR64_REG
        0x4f => Some(Action::Alu { op: AluOp::Or, wide: true, reg: true }),
        // AND64_IMM
        0x57 => Some(Action::Alu { op: AluOp::And, wide: true, reg: false }),
        // AND64_REG
        0x5f => Some(Action::Alu { op: AluOp::And, wide: true, reg: true }),
        // LSH64_IMM
        0x67 => Some(Action::Alu { op: AluOp::Lsh, wide: true, reg: false }),
        // LSH64_REG
        0x6f => Some(Action::Alu { op: AluOp::Lsh, wide: true, reg: true }),
        // RSH64_IMM
        0x77 => Some(Action::Alu { op: AluOp::Rsh, wide: true, reg: false }),
        // RSH64_REG
        0x7f => Some(Action::Alu { op: AluOp::Rsh, wide: true, reg: true }),
        // MOD64_IMM
        0x97 => Some(Action::Alu { op: AluOp::Mod, wide: true, reg: false }),
        // MOD64_REG
        0x9f => Some(Action::Alu { op: AluOp::Mod, wide: true, reg: true }),
        // XOR64_IMM
        0xa7 => Some(Action::Alu { op: AluOp::Xor, wide: true, reg: false }),
        // XOR64_REG
        0xaf => Some(Action::Alu { op: AluOp::Xor, wide: true, reg: true }),
        // MOV64_IMM
        0xb7 => Some(Action::Alu { op: AluOp::Mov, wide: true, reg: false }),
        // MOV64_REG
        0xbf => Some(Action::Alu { op: AluOp::Mov, wide: true, reg: true }),
        // ARSH64_IMM
        0xc7 => Some(Action::Alu { op: AluOp::Arsh, wide: true, reg: false }),
        // ARSH64_REG
        0xcf => Some(Action::Alu { op: AluOp::Arsh, wide: true, reg: true }),
        // NEG64
        0x87 => Some(Action::Neg { wide: true }),
        // LE
        0xd4 => Some(Action::Swap { big: false }),
        // BE
        0xdc => Some(Action::Swap { big: true }),
        // JA
        0x05 => Some(Action::Jump),
        // CALL
        0x85 => Some(Action::Call),
        // EXIT
        0x95 => Some(Action::Exit),
        // JEQ_IMM, JEQ_REG, JEQ_IMM32, JEQ_REG32
        0x15 | 0x1d | 0x16 | 0x1e => Some(Action::Branch { cond: Cond::Eq }),
        // JGT_IMM, JGT_REG, JGT_IMM32, JGT_REG32
        0x25 | 0x2d | 0x26 | 0x2e => Some(Action::Branch { cond: Cond::Gt }),
        // JGE_IMM, JGE_REG, JGE_IMM32, JGE_REG32
        0x35 | 0x3d | 0x36 | 0x3e => Some(Action::Branch { cond: Cond::Ge }),
        // JSET_IMM, JSET_REG, JSET_IMM32, JSET_REG32
        0x45 | 0x4d | 0x46 | 0x4e => Some(Action::Branch { cond: Cond::AnyBit }),
        // JNE_IMM, JNE_REG, JNE_IMM32, JNE_REG32
        0x55 | 0x5d | 0x56 | 0x5e => Some(Action::Branch { cond: Cond::Ne }),
        // JSGT_IMM, JSGT_REG, JSGT_IMM32, JSGT_REG32
        0x65 | 0x6d | 0x66 | 0x6e => Some(Action::Branch { cond: Cond::Sgt }),
        // JSGE_IMM, JSGE_REG, JSGE_IMM32, JSGE_REG32
        0x75 | 0x7d | 0x76 | 0x7e => Some(Action::Branch { cond: Cond::Sge }),
        // JLT_IMM, JLT_REG, JLT_IMM32, JLT_REG32
        0xa5 | 0xad | 0xa6 | 0xae => Some(Action::Branch { cond: Cond::Lt }),
        // JLE_IMM, JLE_REG, JLE_IMM32, JLE_REG32
        0xb5 | 0xbd | 0xb6 | 0xbe => Some(Action::Branch { cond: Cond::Le }),
        // JSLT_IMM, JSLT_REG, JSLT_IMM32, JSLT_REG32
        0xc5 | 0xcd | 0xc6 | 0xce => Some(Action::Branch { cond: Cond::Slt }),
        // JSLE_IMM, JSLE_REG, JSLE_IMM32, JSLE_REG32
        0xd5 | 0xdd | 0xd6 | 0xde => Some(Action::Branch { cond: Cond::Sle }),
        // XADD, the tail call and codes that stand for nothing
        _ => None,
    }
}

} // verus!
