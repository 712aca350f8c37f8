//! The translation of eBPF instructions into the instructions of `ir`.
use crate::cfg::{bytes_from, is_jump, linked, next_slot, readable, Cfg, Graph, ENTRY_BLOCK};
use crate::ebpf::{
    action, decode, ends_block, get_insn, insn_at, slot_in, Action, AluOp, Cond, Insn, BPF_JMP32,
    BPF_X, LD_DW_IMM, NUM_REGS,
};
use crate::error::Error;
use crate::ir::{BinOp, Inst, Op, Pred, Ty};
use crate::word::ByteOrder;
use std::collections::HashMap;
use vstd::prelude::*;

verus! {

/// Size of the stack of a program, in bytes.
pub const STACK_SIZE: u32 = 512;

/// The number of the instruction whose result is the start of the packet.
pub const MEM_START: usize = 1;

/// What the translation of an instruction depends on besides the program.
pub struct Setting {
    /// The byte order of the machine that will run the translation.
    pub order: ByteOrder,
    /// The helper functions that have been declared.
    pub helpers: Set<u32>,
    /// The blocks of the function.
    pub graph: Graph,
    /// The number of the instruction whose result is the start of the packet.
    pub mem_start: usize,
}

/// The list with one more instruction.
pub open spec fn plus(code: Seq<Inst>, op: Op, name: &'static str) -> Seq<Inst> {
    code.push(Inst { op, name })
}

/// The number that the next instruction but `k` of a list will have.
pub open spec fn num(code: Seq<Inst>, k: int) -> usize {
    (code.len() + k) as usize
}

/// The integer type of the arithmetic on 64 bits (`wide`) or 32.
pub open spec fn alu_ty(wide: bool) -> Ty {
    if wide {
        Ty::I64
    } else {
        Ty::I32
    }
}

/// The immediate as a constant.
pub open spec fn imm_code(code: Seq<Inst>, insn: Insn, ty: Ty) -> Seq<Inst> {
    plus(code, Op::Const { ty, bits: insn.imm as u64 }, "")
}

/// The destination register.
pub open spec fn dst_code(code: Seq<Inst>, insn: Insn, ty: Ty) -> Seq<Inst> {
    plus(code, Op::LoadReg { ty, reg: insn.dst as usize }, "dst_val")
}

/// The source register.
pub open spec fn src_code(code: Seq<Inst>, insn: Insn, ty: Ty) -> Seq<Inst> {
    plus(code, Op::LoadReg { ty, reg: insn.src as usize }, "src_val")
}

/// The second operand: the source register (`reg`) or the immediate.
pub open spec fn operand_code(code: Seq<Inst>, insn: Insn, ty: Ty, reg: bool) -> Seq<Inst> {
    if reg {
        src_code(code, insn, ty)
    } else {
        imm_code(code, insn, ty)
    }
}

/// Fills the destination register with a 64-bit result.
pub open spec fn set_dst_code(code: Seq<Inst>, insn: Insn, val: usize) -> Seq<Inst> {
    plus(code, Op::StoreReg { reg: insn.dst as usize, val, aligned: true }, "")
}

/// Fills the destination register with a 32-bit result, the high half cleared.
pub open spec fn set_dst32_code(code: Seq<Inst>, insn: Insn, val: usize) -> Seq<Inst> {
    let c = plus(code, Op::Const { ty: Ty::I32, bits: 0xffff_ffff }, "");
    let c = plus(
        c,
        Op::Bin { op: BinOp::And, ty: Ty::I32, lhs: val, rhs: num(code, 0) },
        "val32",
    );
    let c = plus(c, Op::ZExt { ty: Ty::I64, val: num(code, 1) }, "val32_z_ext");
    plus(c, Op::StoreReg { reg: insn.dst as usize, val: num(code, 2), aligned: false }, "")
}

/// Fills the destination register with the bits of a narrower result that a
/// mask keeps.
pub open spec fn set_dst_masked_code(
    code: Seq<Inst>,
    insn: Insn,
    val: usize,
    mask: u64,
) -> Seq<Inst> {
    let c = plus(code, Op::Const { ty: Ty::I64, bits: mask }, "");
    let c = plus(c, Op::ZExt { ty: Ty::I64, val }, "val");
    let c = plus(
        c,
        Op::Bin { op: BinOp::And, ty: Ty::I64, lhs: num(code, 1), rhs: num(code, 0) },
        "masked_val",
    );
    plus(c, Op::StoreReg { reg: insn.dst as usize, val: num(code, 2), aligned: false }, "")
}

/// Fills the destination register with a result of 64 bits (`wide`) or 32.
pub open spec fn set_code(code: Seq<Inst>, insn: Insn, val: usize, wide: bool) -> Seq<Inst> {
    if wide {
        set_dst_code(code, insn, val)
    } else {
        set_dst32_code(code, insn, val)
    }
}

/// Loads from memory at `base` plus an offset; the last instruction has the
/// result.
pub open spec fn load_code(code: Seq<Inst>, ty: Ty, base: usize, off: i16) -> Seq<Inst> {
    if off == 0 {
        plus(code, Op::Load { ty, addr: base }, "loaded")
    } else {
        let c = plus(code, Op::Const { ty: Ty::I64, bits: off as u64 }, "");
        let c = plus(
            c,
            Op::Bin { op: BinOp::Add, ty: Ty::I64, lhs: base, rhs: num(code, 0) },
            "addr_with_addr",
        );
        plus(c, Op::Load { ty, addr: num(code, 1) }, "loaded")
    }
}

/// Stores to memory at `base` plus an offset.
pub open spec fn store_code(
    code: Seq<Inst>,
    ty: Ty,
    base: usize,
    off: i16,
    val: usize,
) -> Seq<Inst> {
    if off == 0 {
        plus(code, Op::Store { ty, addr: base, val, aligned: false }, "")
    } else {
        let c = plus(code, Op::Const { ty: Ty::I64, bits: off as u64 }, "");
        let c = plus(
            c,
            Op::Bin { op: BinOp::Add, ty: Ty::I64, lhs: base, rhs: num(code, 0) },
            "addr",
        );
        plus(c, Op::Store { ty, addr: num(code, 1), val, aligned: true }, "")
    }
}

/// Widens the last result of the list to 64 bits, if it is narrower, and fills
/// the destination register with it.
pub open spec fn extend_code(code: Seq<Inst>, insn: Insn, ty: Ty) -> Seq<Inst> {
    if ty == Ty::I64 {
        set_dst_code(code, insn, num(code, -1))
    } else {
        let c = plus(code, Op::ZExt { ty: Ty::I64, val: num(code, -1) }, "ext");
        set_dst_code(c, insn, num(code, 0))
    }
}

/// A load from the packet: at its start plus the offset, plus the source
/// register if `ind`.
pub open spec fn load_abs_code(
    code: Seq<Inst>,
    insn: Insn,
    ty: Ty,
    ind: bool,
    mem_start: usize,
) -> Seq<Inst> {
    let c = plus(code, Op::Const { ty: Ty::I64, bits: insn.off as u64 }, "");
    let c = plus(
        c,
        Op::Bin { op: BinOp::Add, ty: Ty::I64, lhs: mem_start, rhs: num(code, 0) },
        "addr",
    );
    let c = if ind {
        plus(
            src_code(c, insn, Ty::I64),
            Op::Bin { op: BinOp::Add, ty: Ty::I64, lhs: num(code, 1), rhs: num(code, 2) },
            "ind_addr_with)_src",
        )
    } else {
        c
    };
    extend_code(plus(c, Op::Load { ty, addr: num(c, -1) }, "loaded"), insn, ty)
}

/// The 64-bit immediate of an instruction and the slot after it.
pub open spec fn wide_imm(low: Insn, high: Insn) -> u64 {
    (low.imm as u32 + 0x1_0000_0000 * (high.imm as u32)) as u64
}

/// A load from the address in the source register plus the offset.
pub open spec fn load_mem_code(code: Seq<Inst>, insn: Insn, ty: Ty) -> Seq<Inst> {
    let c = src_code(code, insn, Ty::I64);
    let c = plus(c, Op::Const { ty: Ty::I64, bits: insn.off as u64 }, "");
    let c = plus(
        c,
        Op::Bin { op: BinOp::Add, ty: Ty::I64, lhs: num(code, 0), rhs: num(code, 1) },
        "addr_with_addr",
    );
    extend_code(plus(c, Op::Load { ty, addr: num(code, 2) }, "loaded"), insn, ty)
}

/// A store to the address in the destination register plus the offset.
pub open spec fn store_mem_code(code: Seq<Inst>, insn: Insn, ty: Ty, reg: bool) -> Seq<Inst> {
    let c = operand_code(code, insn, Ty::I64, reg);
    let c = if ty == Ty::I64 {
        c
    } else {
        plus(c, Op::Trunc { ty, val: num(code, 0) }, "narrow")
    };
    store_code(dst_code(c, insn, Ty::I64), ty, num(c, 0), insn.off, num(c, -1))
}

/// The operation that does the work of an arithmetic operation, for all but the
/// move, which needs none.
pub open spec fn bin_of(op: AluOp) -> BinOp {
    match op {
        AluOp::Add => BinOp::Add,
        AluOp::Sub => BinOp::Sub,
        AluOp::Mul => BinOp::Mul,
        AluOp::Div => BinOp::UDiv,
        AluOp::Or => BinOp::Or,
        AluOp::And => BinOp::And,
        AluOp::Lsh => BinOp::Shl,
        AluOp::Rsh => BinOp::LShr,
        AluOp::Mod => BinOp::URem,
        AluOp::Xor => BinOp::Xor,
        AluOp::Mov => arbitrary(),
        AluOp::Arsh => BinOp::AShr,
    }
}

/// The name of the result of an arithmetic operation.
pub open spec fn alu_name(op: AluOp, wide: bool, reg: bool) -> &'static str {
    match (op, wide, reg) {
        (AluOp::Add, false, false) => "add32_imm",
        (AluOp::Sub, false, false) => "sub32_imm",
        (AluOp::Mul, false, false) => "mul32_imm",
        (AluOp::Div, false, false) => "div32_imm",
        (AluOp::Or, false, false) => "or32_imm",
        (AluOp::And, false, false) => "and32_imm",
        (AluOp::Lsh, false, false) => "lsh32_imm",
        (AluOp::Rsh, false, false) => "rsh32_imm",
        (AluOp::Mod, false, false) => "mod32_imm",
        (AluOp::Xor, false, false) => "xor32_imm",
        (AluOp::Mov, false, false) => "mov32_imm",
        (AluOp::Arsh, false, false) => "arsh32_imm",
        (AluOp::Add, false, true) => "add32_reg",
        (AluOp::Sub, false, true) => "sub32_reg",
        (AluOp::Mul, false, true) => "mul32_reg",
        (AluOp::Div, false, true) => "div32_reg",
        (AluOp::Or, false, true) => "or32_reg",
        (AluOp::And, false, true) => "and32_reg",
        (AluOp::Lsh, false, true) => "lsh32_reg",
        (AluOp::Rsh, false, true) => "rsh32_reg",
        (AluOp::Mod, false, true) => "mod32_reg",
        (AluOp::Xor, false, true) => "xor32_reg",
        (AluOp::Mov, false, true) => "mov32_reg",
        (AluOp::Arsh, false, true) => "arsh32_reg",
        (AluOp::Add, true, false) => "add64_imm",
        (AluOp::Sub, true, false) => "sub64_imm",
        (AluOp::Mul, true, false) => "mul64_imm",
        (AluOp::Div, true, false) => "div64_imm",
        (AluOp::Or, true, false) => "or64_imm",
        (AluOp::And, true, false) => "and64_imm",
        (AluOp::Lsh, true, false) => "lsh64_imm",
        (AluOp::Rsh, true, false) => "rsh64_imm",
        (AluOp::Mod, true, false) => "mod64_imm",
        (AluOp::Xor, true, false) => "xor64_imm",
        (AluOp::Mov, true, false) => "mov64_imm",
        (AluOp::Arsh, true, false) => "arsh64_imm",
        (AluOp::Add, true, true) => "add64_reg",
        (AluOp::Sub, true, true) => "sub64_reg",
        (AluOp::Mul, true, true) => "mul64_reg",
        (AluOp::Div, true, true) => "div64_reg",
        (AluOp::Or, true, true) => "or64_reg",
        (AluOp::And, true, true) => "and64_reg",
        (AluOp::Lsh, true, true) => "lsh64_reg",
        (AluOp::Rsh, true, true) => "rsh64_reg",
        (AluOp::Mod, true, true) => "mod64_reg",
        (AluOp::Xor, true, true) => "xor64_reg",
        (AluOp::Mov, true, true) => "mov64_reg",
        (AluOp::Arsh, true, true) => "arsh64_reg",
    }
}

/// A division or remainder by the source register. A divisor of zero is
/// replaced by one; the quotient is then zero, the remainder the dividend.
pub open spec fn div_reg_code(code: Seq<Inst>, insn: Insn, op: AluOp, wide: bool) -> Seq<Inst> {
    let ty = alu_ty(wide);
    let c = plus(code, Op::Const { ty, bits: 0 }, "");
    let c = plus(c, Op::Const { ty, bits: 1 }, "");
    let c = dst_code(c, insn, ty);
    let c = src_code(c, insn, ty);
    let c = plus(
        c,
        Op::Cmp { pred: Pred::Eq, ty, lhs: num(code, 3), rhs: num(code, 0) },
        "rhs_is_zero",
    );
    let c = plus(
        c,
        Op::Select { ty, cond: num(code, 4), yes: num(code, 1), no: num(code, 3) },
        "safe_rhs",
    );
    let c = plus(
        c,
        Op::Bin { op: bin_of(op), ty, lhs: num(code, 2), rhs: num(code, 5) },
        alu_name(op, wide, true),
    );
    let by_zero = if op == AluOp::Div {
        num(code, 0)
    } else {
        num(code, 2)
    };
    let c = plus(c, Op::Select { ty, cond: num(code, 4), yes: by_zero, no: num(code, 6) }, "res");
    set_code(c, insn, num(code, 7), wide)
}

/// Whether an arithmetic operation is a shift.
pub open spec fn is_shift(op: AluOp) -> bool {
    op == AluOp::Lsh || op == AluOp::Rsh || op == AluOp::Arsh
}

/// The bits of a shift amount that count: the amount is taken modulo the width.
pub open spec fn amount_mask(wide: bool) -> u64 {
    if wide {
        63
    } else {
        31
    }
}

/// A shift.
pub open spec fn shift_code(
    code: Seq<Inst>,
    insn: Insn,
    op: AluOp,
    wide: bool,
    reg: bool,
) -> Seq<Inst> {
    let ty = alu_ty(wide);
    let c = operand_code(dst_code(code, insn, ty), insn, ty, reg);
    let c = plus(c, Op::Const { ty, bits: amount_mask(wide) }, "");
    let c = plus(
        c,
        Op::Bin { op: BinOp::And, ty, lhs: num(code, 1), rhs: num(code, 2) },
        "amount",
    );
    let c = plus(
        c,
        Op::Bin { op: bin_of(op), ty, lhs: num(code, 0), rhs: num(code, 3) },
        alu_name(op, wide, reg),
    );
    set_code(c, insn, num(code, 4), wide)
}

/// An arithmetic operation with two operands.
pub open spec fn alu_code(
    code: Seq<Inst>,
    insn: Insn,
    op: AluOp,
    wide: bool,
    reg: bool,
) -> Seq<Inst> {
    let ty = alu_ty(wide);
    if op == AluOp::Mov {
        set_code(operand_code(code, insn, ty, reg), insn, num(code, 0), wide)
    } else if op == AluOp::Div || op == AluOp::Mod {
        if reg {
            div_reg_code(code, insn, op, wide)
        } else if insn.imm != 0 {
            let c = dst_code(imm_code(code, insn, ty), insn, ty);
            let c = plus(
                c,
                Op::Bin { op: bin_of(op), ty, lhs: num(code, 1), rhs: num(code, 0) },
                alu_name(op, wide, reg),
            );
            set_code(c, insn, num(code, 2), wide)
        } else if op == AluOp::Div {
            set_code(plus(code, Op::Const { ty, bits: 0 }, ""), insn, num(code, 0), wide)
        } else {
            code
        }
    } else if is_shift(op) {
        shift_code(code, insn, op, wide, reg)
    } else {
        let c = operand_code(dst_code(code, insn, ty), insn, ty, reg);
        let c = plus(
            c,
            Op::Bin { op: bin_of(op), ty, lhs: num(code, 0), rhs: num(code, 1) },
            alu_name(op, wide, reg),
        );
        set_code(c, insn, num(code, 2), wide)
    }
}

/// A negation.
pub open spec fn neg_code(code: Seq<Inst>, insn: Insn, wide: bool) -> Seq<Inst> {
    let c = dst_code(code, insn, alu_ty(wide));
    let c = plus(c, Op::Neg { ty: alu_ty(wide), val: num(code, 0) }, "neg32");
    set_code(c, insn, num(code, 1), wide)
}

/// Whether a conversion to big endian (`big`) or little endian has to reverse
/// the bytes.
pub open spec fn swaps(order: ByteOrder, big: bool) -> bool {
    if big {
        order == ByteOrder::Little
    } else {
        order == ByteOrder::Big
    }
}

/// A conversion of the byte order of the low 16, 32 or 64 bits.
pub open spec fn swap_code(code: Seq<Inst>, insn: Insn, order: ByteOrder, big: bool) -> Seq<Inst> {
    if !swaps(order, big) {
        code
    } else if insn.imm == 16 {
        let c = dst_code(code, insn, Ty::I16);
        let c = plus(c, Op::Bswap { ty: Ty::I16, val: num(code, 0) }, "bswap16");
        set_dst_masked_code(c, insn, num(code, 1), 0xffff)
    } else if insn.imm == 32 {
        let c = dst_code(code, insn, Ty::I32);
        let c = plus(c, Op::Bswap { ty: Ty::I32, val: num(code, 0) }, "bswap32");
        set_dst_masked_code(c, insn, num(code, 1), 0xffff_ffff)
    } else {
        let c = dst_code(code, insn, Ty::I64);
        let c = plus(c, Op::Bswap { ty: Ty::I64, val: num(code, 0) }, "bswap64");
        set_dst_code(c, insn, num(code, 1))
    }
}

/// The comparison that decides a conditional jump. The test for a common bit
/// compares the conjunction with zero.
pub open spec fn pred_of(cond: Cond) -> Pred {
    match cond {
        Cond::Eq => Pred::Eq,
        Cond::Gt => Pred::Ugt,
        Cond::Ge => Pred::Uge,
        Cond::AnyBit => Pred::Ne,
        Cond::Ne => Pred::Ne,
        Cond::Sgt => Pred::Sgt,
        Cond::Sge => Pred::Sge,
        Cond::Lt => Pred::Ult,
        Cond::Le => Pred::Ule,
        Cond::Slt => Pred::Slt,
        Cond::Sle => Pred::Sle,
    }
}

/// The integer type in which a conditional jump compares: 32 bits if the
/// operation code has a bit in common with the class of the 32-bit jumps.
pub open spec fn branch_ty(opc: u8) -> Ty {
    if (opc & BPF_JMP32) != 0 {
        Ty::I32
    } else {
        Ty::I64
    }
}

/// Whether a conditional jump compares with the source register.
pub open spec fn branch_reg(opc: u8) -> bool {
    (opc & BPF_X) != 0
}

/// A conditional jump to the second of two blocks, or to the first.
pub open spec fn branch_code(
    code: Seq<Inst>,
    insn: Insn,
    cond: Cond,
    blocks: (usize, usize),
) -> Seq<Inst> {
    let ty = branch_ty(insn.opc);
    let c = operand_code(dst_code(code, insn, ty), insn, ty, branch_reg(insn.opc));
    let c = if cond == Cond::AnyBit {
        let c = plus(
            c,
            Op::Bin { op: BinOp::And, ty, lhs: num(code, 0), rhs: num(code, 1) },
            "jset",
        );
        let c = plus(c, Op::Const { ty, bits: 0 }, "");
        plus(
            c,
            Op::Cmp { pred: Pred::Ne, ty, lhs: num(code, 2), rhs: num(code, 3) },
            "jset_cond",
        )
    } else {
        plus(
            c,
            Op::Cmp { pred: pred_of(cond), ty, lhs: num(code, 0), rhs: num(code, 1) },
            "cmp_res",
        )
    };
    plus(c, Op::CondBr { cond: num(c, -1), yes: blocks.1, no: blocks.0 }, "")
}

/// A return of R0.
pub open spec fn exit_code(code: Seq<Inst>) -> Seq<Inst> {
    let c = plus(code, Op::LoadReg { ty: Ty::I64, reg: 0 }, "ret_val");
    plus(c, Op::Ret { val: num(code, 0) }, "")
}

/// A call of a helper function with R1 to R5; its result goes to R0. The name
/// of the call is completed by the number of the helper function.
pub open spec fn call_code(code: Seq<Inst>, helper: u32) -> Seq<Inst> {
    let c = plus(code, Op::LoadReg { ty: Ty::I64, reg: 1 }, "arg1");
    let c = plus(c, Op::LoadReg { ty: Ty::I64, reg: 2 }, "arg2");
    let c = plus(c, Op::LoadReg { ty: Ty::I64, reg: 3 }, "arg3");
    let c = plus(c, Op::LoadReg { ty: Ty::I64, reg: 4 }, "arg4");
    let c = plus(c, Op::LoadReg { ty: Ty::I64, reg: 5 }, "arg5");
    let args = [num(code, 0), num(code, 1), num(code, 2), num(code, 3), num(code, 4)];
    let c = plus(c, Op::Call { helper, args }, "call_");
    plus(c, Op::StoreReg { reg: 0, val: num(code, 5), aligned: true }, "")
}

/// The instructions that the eBPF instruction at `pc` adds.
pub open spec fn insn_code(set: Setting, code: Seq<Inst>, prog: Seq<u8>, pc: int) -> Seq<Inst> {
    let insn = insn_at(prog, pc);
    let targets = set.graph.targets[pc as u32];
    match action(insn.opc) {
        Some(Action::LoadAbs { ty, ind }) => load_abs_code(code, insn, ty, ind, set.mem_start),
        Some(Action::LoadImm) => {
            let bits = wide_imm(insn, insn_at(prog, pc + 1));
            set_dst_code(plus(code, Op::Const { ty: Ty::I64, bits }, ""), insn, num(code, 0))
        },
        Some(Action::Load { ty }) => load_mem_code(code, insn, ty),
        Some(Action::Store { ty, reg }) => store_mem_code(code, insn, ty, reg),
        Some(Action::Alu { op, wide, reg }) => alu_code(code, insn, op, wide, reg),
        Some(Action::Neg { wide }) => neg_code(code, insn, wide),
        Some(Action::Swap { big }) => swap_code(code, insn, set.order, big),
        Some(Action::Jump) => plus(code, Op::Br { block: targets.1 }, ""),
        Some(Action::Branch { cond }) => branch_code(code, insn, cond, targets),
        Some(Action::Call) => call_code(code, insn.imm as u32),
        Some(Action::Exit) => exit_code(code),
        None => code,
    }
}

/// Whether the translation of an instruction refers to its destination
/// register.
pub open spec fn uses_dst(order: ByteOrder, insn: Insn) -> bool {
    match action(insn.opc) {
        Some(Action::Alu { op, reg, .. }) => !(op == AluOp::Mod && !reg && insn.imm == 0),
        Some(Action::Swap { big }) => swaps(order, big),
        Some(Action::Jump) => false,
        Some(Action::Call) => false,
        Some(Action::Exit) => false,
        _ => true,
    }
}

/// Whether the translation of an instruction refers to its source register.
pub open spec fn uses_src(insn: Insn) -> bool {
    match action(insn.opc) {
        Some(Action::LoadAbs { ind, .. }) => ind,
        Some(Action::Load { .. }) => true,
        Some(Action::Store { reg, .. }) => reg,
        Some(Action::Alu { reg, .. }) => reg,
        Some(Action::Branch { .. }) => branch_reg(insn.opc),
        _ => false,
    }
}

/// Whether the instruction at `pc` has a translation: it is one of the
/// operations that are supported, the registers it refers to exist, it is
/// complete, and a byte swap is one of 16, 32 or 64 bits.
pub open spec fn supported(order: ByteOrder, prog: Seq<u8>, pc: int) -> bool {
    let insn = insn_at(prog, pc);
    &&& slot_in(prog, pc)
    &&& action(insn.opc) is Some
    &&& uses_dst(order, insn) ==> insn.dst < NUM_REGS
    &&& uses_src(insn) ==> insn.src < NUM_REGS
    &&& action(insn.opc) == Some(Action::LoadImm) ==> slot_in(prog, pc + 1)
    &&& action(insn.opc) is Some && action(insn.opc)->0 is Swap && uses_dst(order, insn) ==> {
        insn.imm == 16 || insn.imm == 32 || insn.imm == 64
    }
}

/// Stores the result of instruction `val` in the first `n` registers.
pub open spec fn fill_regs_code(code: Seq<Inst>, val: usize, n: int) -> Seq<Inst>
    decreases n,
{
    if n <= 0 {
        code
    } else {
        plus(
            fill_regs_code(code, val, n - 1),
            Op::StoreReg { reg: (n - 1) as usize, val, aligned: true },
            "",
        )
    }
}

/// The sum of two 64-bit results.
pub open spec fn sum_code(code: Seq<Inst>, lhs: usize, rhs: usize, name: &'static str) -> Seq<
    Inst,
> {
    plus(code, Op::Bin { op: BinOp::Add, ty: Ty::I64, lhs, rhs }, name)
}

/// The instructions with which a function starts. They compute the bounds of
/// the packet, of the user memory and of the stack, and fill the registers: R1
/// with the start of the packet, R2 with its end, R10 with the end of the
/// stack, the others with zero.
pub open spec fn prologue_code() -> Seq<Inst> {
    let c = plus(seq![], Op::Position { block: ENTRY_BLOCK }, "");
    let c = plus(c, Op::PtrParam { index: 0 }, "mem_start");
    let c = plus(c, Op::IntParam { index: 1 }, "");
    let c = sum_code(c, MEM_START, 2, "mem_end");
    let c = plus(c, Op::PtrParam { index: 2 }, "umem_start");
    let c = plus(c, Op::IntParam { index: 3 }, "");
    let c = sum_code(c, 4, 5, "umem_end");
    let c = plus(c, Op::Stack { size: STACK_SIZE }, "stack_start_addr");
    let c = plus(c, Op::Const { ty: Ty::I64, bits: STACK_SIZE as u64 }, "");
    let c = sum_code(c, 7, 8, "stack_end_addr");
    let c = plus(c, Op::Const { ty: Ty::I64, bits: 0 }, "");
    let c = fill_regs_code(c, 10, NUM_REGS as int);
    let c = plus(c, Op::StoreReg { reg: 1, val: MEM_START, aligned: true }, "");
    let c = plus(c, Op::StoreReg { reg: 2, val: 3, aligned: true }, "");
    plus(c, Op::StoreReg { reg: 10, val: 9, aligned: true }, "")
}

/// The instructions that enter the block of the instruction at `pc`, if it
/// starts one. A block that has not been left leads on to it.
pub open spec fn enter_code(graph: Graph, code: Seq<Inst>, pc: int, left: bool) -> Seq<Inst> {
    if graph.blocks.contains_key(pc as u32) {
        let block = graph.blocks[pc as u32];
        let c = if left {
            code
        } else {
            plus(code, Op::Br { block }, "")
        };
        plus(c, Op::Position { block }, "")
    } else {
        code
    }
}

/// Whether an instruction calls a helper function that is not among `helpers`.
pub open spec fn calls_unknown(helpers: Set<u32>, insn: Insn) -> bool {
    action(insn.opc) == Some(Action::Call) && !helpers.contains(insn.imm as u32)
}

/// The instructions of a function after the eBPF instructions from `pc` on
/// have been added, and the helper function that ended this because it is
/// unknown. `left`: the instruction before has left its block.
pub open spec fn translation_from(
    set: Setting,
    code: Seq<Inst>,
    prog: Seq<u8>,
    pc: int,
    left: bool,
) -> (Seq<Inst>, Option<u32>)
    decreases bytes_from(prog, pc),
{
    let insn = insn_at(prog, pc);
    let c = enter_code(set.graph, code, pc, left);
    if 8 * pc >= prog.len() {
        (code, None)
    } else if calls_unknown(set.helpers, insn) {
        (c, Some(insn.imm as u32))
    } else {
        translation_from(
            set,
            insn_code(set, c, prog, pc),
            prog,
            next_slot(prog, pc),
            ends_block(insn.opc),
        )
    }
}

/// Whether the instructions from `pc` on have a translation, to the end or to
/// the first call of a helper function that is unknown.
pub open spec fn translatable(order: ByteOrder, helpers: Set<u32>, prog: Seq<u8>, pc: int) -> bool
    decreases bytes_from(prog, pc),
{
    8 * pc >= prog.len() || {
        &&& supported(order, prog, pc)
        &&& calls_unknown(helpers, insn_at(prog, pc)) || translatable(
            order,
            helpers,
            prog,
            next_slot(prog, pc),
        )
    }
}

/// Whether `val` is the number of the one instruction that `after` has more than
/// `before`.
pub open spec fn is_next(before: Seq<Inst>, after: Seq<Inst>, val: usize) -> bool {
    &&& val == before.len()
    &&& val == num(before, 0)
    &&& after.len() == before.len() + 1
    &&& after.len() <= usize::MAX
}

/// Whether the instruction at `insn_ptr` has a translation.
pub fn is_supported(order: ByteOrder, prog: &[u8], insn_ptr: usize) -> (res: bool)
    ensures
        res == supported(order, prog@, insn_ptr as int),
{
    let whole: usize = prog.len() / 8;
    assert(whole == prog@.len() / 8);
    if insn_ptr >= whole {
        return false;
    }
    let insn = get_insn(prog, insn_ptr);
    let dst_exists = (insn.dst as usize) < NUM_REGS;
    let src_exists = (insn.src as usize) < NUM_REGS;
    match decode(insn.opc) {
        Some(Action::LoadAbs { ind, .. }) => dst_exists && (!ind || src_exists),
        Some(Action::LoadImm) => dst_exists && insn_ptr + 1 < whole,
        Some(Action::Load { .. }) => dst_exists && src_exists,
        Some(Action::Store { reg, .. }) => dst_exists && (!reg || src_exists),
        Some(Action::Alu { op, reg, .. }) => {
            let unused = matches!(op, AluOp::Mod) && !reg && insn.imm == 0;
            (unused || dst_exists) && (!reg || src_exists)
        },
        Some(Action::Neg { .. }) => dst_exists,
        Some(Action::Swap { big }) => {
            let unused = !should_swap(order, big);
            unused || dst_exists && (insn.imm == 16 || insn.imm == 32 || insn.imm == 64)
        },
        Some(Action::Branch { .. }) => dst_exists && ((insn.opc & BPF_X) == 0 || src_exists),
        Some(_) => true,
        None => false,
    }
}

/// Whether a program has a translation, to the end or to the first call of a
/// helper function that is not among `helpers`.
pub fn is_translatable<H>(order: ByteOrder, helpers: &HashMap<u32, H>, prog: &[u8]) -> (res: bool)
    ensures
        res == translatable(order, helpers@.dom(), prog@, 0),
{
    let mut insn_ptr: usize = 0;
    let slots: usize = prog.len() / 8 + (if prog.len() % 8 == 0 {
        0
    } else {
        1
    });
    while insn_ptr < slots
        invariant
            slots == prog@.len() / 8 + (if prog@.len() % 8 == 0 {
                0int
            } else {
                1
            }),
            slots < usize::MAX - 2,
            translatable(order, helpers@.dom(), prog@, 0) == translatable(
                order,
                helpers@.dom(),
                prog@,
                insn_ptr as int,
            ),
        decreases slots + 1 - insn_ptr,
    {
        if !is_supported(order, prog, insn_ptr) {
            return false;
        }
        let insn = get_insn(prog, insn_ptr);
        if let Some(Action::Call) = decode(insn.opc) {
            if !helpers.contains_key(&(insn.imm as u32)) {
                return true;
            }
        }
        if insn.opc == LD_DW_IMM {
            // This instruction takes two slots
            insn_ptr = insn_ptr + 1;
        }
        insn_ptr = insn_ptr + 1;
    }
    true
}

/// Whether a conversion to big endian (`big`) or little endian has to reverse
/// the bytes.
fn should_swap(order: ByteOrder, big: bool) -> (res: bool)
    ensures
        res == swaps(order, big),
{
    if big {
        order == ByteOrder::Little
    } else {
        order == ByteOrder::Big
    }
}

/// The integer type of the arithmetic on 64 bits (`wide`) or 32.
fn alu_type(wide: bool) -> (ty: Ty)
    ensures
        ty == alu_ty(wide),
{
    if wide {
        Ty::I64
    } else {
        Ty::I32
    }
}

/// The operation that does the work of an arithmetic operation.
fn bin_op(op: AluOp) -> (res: BinOp)
    requires
        op != AluOp::Mov,
    ensures
        res == bin_of(op),
{
    match op {
        AluOp::Add => BinOp::Add,
        AluOp::Sub => BinOp::Sub,
        AluOp::Mul => BinOp::Mul,
        AluOp::Div => BinOp::UDiv,
        AluOp::Or => BinOp::Or,
        AluOp::And => BinOp::And,
        AluOp::Lsh => BinOp::Shl,
        AluOp::Rsh => BinOp::LShr,
        AluOp::Mod => BinOp::URem,
        AluOp::Xor => BinOp::Xor,
        _ => BinOp::AShr,
    }
}

/// The 64-bit immediate of an instruction and the slot after it.
fn join_imm(insn: &Insn, next_insn: &Insn) -> (imm: u64)
    ensures
        imm == wide_imm(*insn, *next_insn),
{
    let low: u32 = insn.imm as u32;
    let high: u32 = next_insn.imm as u32;
    assert((low as u64) | ((high as u64) << 32) == low + 0x1_0000_0000 * high) by (bit_vector);
    (low as u64) | ((high as u64) << 32)
}

/// The comparison that decides a conditional jump.
fn predicate(cond: Cond) -> (pred: Pred)
    ensures
        pred == pred_of(cond),
{
    match cond {
        Cond::Eq => Pred::Eq,
        Cond::Ne => Pred::Ne,
        Cond::Gt => Pred::Ugt,
        Cond::Ge => Pred::Uge,
        Cond::Lt => Pred::Ult,
        Cond::Le => Pred::Ule,
        Cond::Sgt => Pred::Sgt,
        Cond::Sge => Pred::Sge,
        Cond::Slt => Pred::Slt,
        Cond::Sle => Pred::Sle,
        Cond::AnyBit => Pred::Ne,
    }
}

/// The name of the result of an arithmetic operation.
fn alu_result_name(op: AluOp, wide: bool, reg: bool) -> (name: &'static str)
    ensures
        name == alu_name(op, wide, reg),
{
    match (op, wide, reg) {
        (AluOp::Add, false, false) => "add32_imm",
        (AluOp::Sub, false, false) => "sub32_imm",
        (AluOp::Mul, false, false) => "mul32_imm",
        (AluOp::Div, false, false) => "div32_imm",
        (AluOp::Or, false, false) => "or32_imm",
        (AluOp::And, false, false) => "and32_imm",
        (AluOp::Lsh, false, false) => "lsh32_imm",
        (AluOp::Rsh, false, false) => "rsh32_imm",
        (AluOp::Mod, false, false) => "mod32_imm",
        (AluOp::Xor, false, false) => "xor32_imm",
        (AluOp::Mov, false, false) => "mov32_imm",
        (AluOp::Arsh, false, false) => "arsh32_imm",
        (AluOp::Add, false, true) => "add32_reg",
        (AluOp::Sub, false, true) => "sub32_reg",
        (AluOp::Mul, false, true) => "mul32_reg",
        (AluOp::Div, false, true) => "div32_reg",
        (AluOp::Or, false, true) => "or32_reg",
        (AluOp::And, false, true) => "and32_reg",
        (AluOp::Lsh, false, true) => "lsh32_reg",
        (AluOp::Rsh, false, true) => "rsh32_reg",
        (AluOp::Mod, false, true) => "mod32_reg",
        (AluOp::Xor, false, true) => "xor32_reg",
        (AluOp::Mov, false, true) => "mov32_reg",
        (AluOp::Arsh, false, true) => "arsh32_reg",
        (AluOp::Add, true, false) => "add64_imm",
        (AluOp::Sub, true, false) => "sub64_imm",
        (AluOp::Mul, true, false) => "mul64_imm",
        (AluOp::Div, true, false) => "div64_imm",
        (AluOp::Or, true, false) => "or64_imm",
        (AluOp::And, true, false) => "and64_imm",
        (AluOp::Lsh, true, false) => "lsh64_imm",
        (AluOp::Rsh, true, false) => "rsh64_imm",
        (AluOp::Mod, true, false) => "mod64_imm",
        (AluOp::Xor, true, false) => "xor64_imm",
        (AluOp::Mov, true, false) => "mov64_imm",
        (AluOp::Arsh, true, false) => "arsh64_imm",
        (AluOp::Add, true, true) => "add64_reg",
        (AluOp::Sub, true, true) => "sub64_reg",
        (AluOp::Mul, true, true) => "mul64_reg",
        (AluOp::Div, true, true) => "div64_reg",
        (AluOp::Or, true, true) => "or64_reg",
        (AluOp::And, true, true) => "and64_reg",
        (AluOp::Lsh, true, true) => "lsh64_reg",
        (AluOp::Rsh, true, true) => "rsh64_reg",
        (AluOp::Mod, true, true) => "mod64_reg",
        (AluOp::Xor, true, true) => "xor64_reg",
        (AluOp::Mov, true, true) => "mov64_reg",
        (AluOp::Arsh, true, true) => "arsh64_reg",
    }
}

/// The instructions of a function.
pub struct Code {
    pub insts: Vec<Inst>,
}

impl View for Code {
    type V = Seq<Inst>;

    open spec fn view(&self) -> Seq<Inst> {
        self.insts@
    }
}

impl Code {
    /// The instructions with which a function starts.
    pub fn prologue() -> (code: Self)
        ensures
            code@ == prologue_code(),
    {
        let mut code = Code { insts: Vec::new() };
        code.add(Op::Position { block: ENTRY_BLOCK }, "");
        let mem_start: usize = code.add(Op::PtrParam { index: 0 }, "mem_start");
        let mem_len: usize = code.add(Op::IntParam { index: 1 }, "");
        let mem_end: usize = code.sum(mem_start, mem_len, "mem_end");
        let umem_start: usize = code.add(Op::PtrParam { index: 2 }, "umem_start");
        let umem_len: usize = code.add(Op::IntParam { index: 3 }, "");
        code.sum(umem_start, umem_len, "umem_end");
        let stack_start_addr: usize = code.add(Op::Stack { size: STACK_SIZE }, "stack_start_addr");
        let stack_size_val: usize = code.add(
            Op::Const { ty: Ty::I64, bits: STACK_SIZE as u64 },
            "",
        );
        let stack_end_addr: usize = code.sum(stack_start_addr, stack_size_val, "stack_end_addr");
        // Initialize other registers to 0
        let zero: usize = code.add(Op::Const { ty: Ty::I64, bits: 0 }, "");
        let ghost computed = code@;
        let mut i: usize = 0;
        while i < NUM_REGS
            invariant
                i <= NUM_REGS,
                code@ == fill_regs_code(computed, zero, i as int),
            decreases NUM_REGS - i,
        {
            code.add(Op::StoreReg { reg: i, val: zero, aligned: true }, "");
            i = i + 1;
        }
        code.add(Op::StoreReg { reg: 1, val: mem_start, aligned: true }, "");
        code.add(Op::StoreReg { reg: 2, val: mem_end, aligned: true }, "");
        code.add(Op::StoreReg { reg: 10, val: stack_end_addr, aligned: true }, "");
        code
    }

    /// The sum of two 64-bit results.
    fn sum(&mut self, lhs: usize, rhs: usize, name: &'static str) -> (val: usize)
        ensures
            final(self)@ == sum_code(old(self)@, lhs, rhs, name),
            is_next(old(self)@, final(self)@, val),
    {
        self.add(Op::Bin { op: BinOp::Add, ty: Ty::I64, lhs, rhs }, name)
    }

    /// Adds an instruction, and returns its number.
    pub fn add(&mut self, op: Op, name: &'static str) -> (number: usize)
        ensures
            final(self)@ == plus(old(self)@, op, name),
            is_next(old(self)@, final(self)@, number),
    {
        let number: usize = self.insts.len();
        self.insts.push(Inst { op, name });
        assert(self.insts@.len() == self.insts.len());
        number
    }

    /// The immediate, as a 64-bit constant.
    pub fn insn_imm(&mut self, insn: &Insn) -> (val: usize)
        ensures
            final(self)@ == imm_code(old(self)@, *insn, Ty::I64),
            is_next(old(self)@, final(self)@, val),
    {
        self.add(Op::Const { ty: Ty::I64, bits: insn.imm as u64 }, "")
    }

    /// The immediate, as a 32-bit constant.
    pub fn insn_imm32(&mut self, insn: &Insn) -> (val: usize)
        ensures
            final(self)@ == imm_code(old(self)@, *insn, Ty::I32),
            is_next(old(self)@, final(self)@, val),
    {
        self.add(Op::Const { ty: Ty::I32, bits: insn.imm as u64 }, "")
    }

    /// The destination register.
    pub fn insn_dst(&mut self, insn: &Insn) -> (val: usize)
        requires
            insn.dst < NUM_REGS,
        ensures
            final(self)@ == dst_code(old(self)@, *insn, Ty::I64),
            is_next(old(self)@, final(self)@, val),
    {
        self.add(Op::LoadReg { ty: Ty::I64, reg: insn.dst as usize }, "dst_val")
    }

    /// The low 32 bits of the destination register, on a little-endian machine.
    pub fn insn_dst32(&mut self, insn: &Insn) -> (val: usize)
        requires
            insn.dst < NUM_REGS,
        ensures
            final(self)@ == dst_code(old(self)@, *insn, Ty::I32),
            is_next(old(self)@, final(self)@, val),
    {
        self.add(Op::LoadReg { ty: Ty::I32, reg: insn.dst as usize }, "dst_val")
    }

    /// The low 16 bits of the destination register, on a little-endian machine.
    pub fn insn_dst16(&mut self, insn: &Insn) -> (val: usize)
        requires
            insn.dst < NUM_REGS,
        ensures
            final(self)@ == dst_code(old(self)@, *insn, Ty::I16),
            is_next(old(self)@, final(self)@, val),
    {
        self.add(Op::LoadReg { ty: Ty::I16, reg: insn.dst as usize }, "dst_val")
    }

    /// The source register.
    pub fn insn_src(&mut self, insn: &Insn) -> (val: usize)
        requires
            insn.src < NUM_REGS,
        ensures
            final(self)@ == src_code(old(self)@, *insn, Ty::I64),
            is_next(old(self)@, final(self)@, val),
    {
        self.add(Op::LoadReg { ty: Ty::I64, reg: insn.src as usize }, "src_val")
    }

    /// The low 32 bits of the source register, on a little-endian machine.
    pub fn insn_src32(&mut self, insn: &Insn) -> (val: usize)
        requires
            insn.src < NUM_REGS,
        ensures
            final(self)@ == src_code(old(self)@, *insn, Ty::I32),
            is_next(old(self)@, final(self)@, val),
    {
        self.add(Op::LoadReg { ty: Ty::I32, reg: insn.src as usize }, "src_val")
    }

    /// The destination register, of 64 bits (`wide`) or 32.
    fn dst(&mut self, insn: &Insn, wide: bool) -> (val: usize)
        requires
            insn.dst < NUM_REGS,
        ensures
            final(self)@ == dst_code(old(self)@, *insn, alu_ty(wide)),
            is_next(old(self)@, final(self)@, val),
    {
        if wide {
            self.insn_dst(insn)
        } else {
            self.insn_dst32(insn)
        }
    }

    /// The second operand, of 64 bits (`wide`) or 32.
    fn operand(&mut self, insn: &Insn, wide: bool, reg: bool) -> (val: usize)
        requires
            reg ==> insn.src < NUM_REGS,
        ensures
            final(self)@ == operand_code(old(self)@, *insn, alu_ty(wide), reg),
            is_next(old(self)@, final(self)@, val),
    {
        match (reg, wide) {
            (true, true) => self.insn_src(insn),
            (true, false) => self.insn_src32(insn),
            (false, true) => self.insn_imm(insn),
            (false, false) => self.insn_imm32(insn),
        }
    }

    /// Fills the destination register with a 64-bit result.
    pub fn set_dst(&mut self, insn: &Insn, val: usize)
        requires
            insn.dst < NUM_REGS,
        ensures
            final(self)@ == set_dst_code(old(self)@, *insn, val),
    {
        self.add(Op::StoreReg { reg: insn.dst as usize, val, aligned: true }, "");
    }

    /// Fills the destination register with the bits of a narrower result that
    /// a mask keeps.
    pub fn set_dst_masked(&mut self, insn: &Insn, val: usize, mask: u64)
        requires
            insn.dst < NUM_REGS,
        ensures
            final(self)@ == set_dst_masked_code(old(self)@, *insn, val, mask),
    {
        let mask: usize = self.add(Op::Const { ty: Ty::I64, bits: mask }, "");
        let val: usize = self.add(Op::ZExt { ty: Ty::I64, val }, "val");
        let masked_val: usize = self.add(
            Op::Bin { op: BinOp::And, ty: Ty::I64, lhs: val, rhs: mask },
            "masked_val",
        );
        self.add(Op::StoreReg { reg: insn.dst as usize, val: masked_val, aligned: false }, "");
    }

    /// Fills the destination register with a 32-bit result, the high half
    /// cleared.
    pub fn set_dst32(&mut self, insn: &Insn, val: usize)
        requires
            insn.dst < NUM_REGS,
        ensures
            final(self)@ == set_dst32_code(old(self)@, *insn, val),
    {
        let mask: usize = self.add(Op::Const { ty: Ty::I32, bits: 0xffff_ffff }, "");
        let val32: usize = self.add(
            Op::Bin { op: BinOp::And, ty: Ty::I32, lhs: val, rhs: mask },
            "val32",
        );
        let val32: usize = self.add(Op::ZExt { ty: Ty::I64, val: val32 }, "val32_z_ext");
        self.add(Op::StoreReg { reg: insn.dst as usize, val: val32, aligned: false }, "");
    }

    /// Fills the destination register with a result of 64 bits (`wide`) or 32.
    fn set(&mut self, insn: &Insn, val: usize, wide: bool)
        requires
            insn.dst < NUM_REGS,
        ensures
            final(self)@ == set_code(old(self)@, *insn, val, wide),
    {
        if wide {
            self.set_dst(insn, val);
        } else {
            self.set_dst32(insn, val);
        }
    }

    /// Loads from memory at `base` plus an offset.
    pub fn reg_load(&mut self, ty: Ty, base: usize, offset: i16) -> (val: usize)
        ensures
            final(self)@ == load_code(old(self)@, ty, base, offset),
            val == num(final(self)@, -1),
    {
        if offset == 0 {
            self.add(Op::Load { ty, addr: base }, "loaded")
        } else {
            let offset: usize = self.add(Op::Const { ty: Ty::I64, bits: offset as u64 }, "");
            let addr: usize = self.add(
                Op::Bin { op: BinOp::Add, ty: Ty::I64, lhs: base, rhs: offset },
                "addr_with_addr",
            );
            self.add(Op::Load { ty, addr }, "loaded")
        }
    }

    /// Stores to memory at `base` plus an offset.
    pub fn reg_store(&mut self, ty: Ty, base: usize, offset: i16, val: usize)
        ensures
            final(self)@ == store_code(old(self)@, ty, base, offset, val),
    {
        if offset == 0 {
            self.add(Op::Store { ty, addr: base, val, aligned: false }, "");
        } else {
            let offset: usize = self.add(Op::Const { ty: Ty::I64, bits: offset as u64 }, "");
            let addr: usize = self.add(
                Op::Bin { op: BinOp::Add, ty: Ty::I64, lhs: base, rhs: offset },
                "addr",
            );
            self.add(Op::Store { ty, addr, val, aligned: true }, "");
        }
    }

    /// Widens a result of type `ty` to 64 bits, if it is narrower, and fills
    /// the destination register with it.
    fn extend(&mut self, insn: &Insn, ty: Ty, val: usize)
        requires
            val == num(old(self)@, -1),
            insn.dst < NUM_REGS,
        ensures
            final(self)@ == extend_code(old(self)@, *insn, ty),
    {
        if ty == Ty::I64 {
            self.set_dst(insn, val);
        } else {
            let ext: usize = self.add(Op::ZExt { ty: Ty::I64, val }, "ext");
            self.set_dst(insn, ext);
        }
    }

    /// A load from the packet.
    fn load_abs(&mut self, insn: &Insn, ty: Ty, ind: bool, mem_start: usize)
        requires
            insn.dst < NUM_REGS,
            ind ==> insn.src < NUM_REGS,
        ensures
            final(self)@ == load_abs_code(old(self)@, *insn, ty, ind, mem_start),
    {
        let offset: usize = self.add(Op::Const { ty: Ty::I64, bits: insn.off as u64 }, "");
        let addr: usize = self.add(
            Op::Bin { op: BinOp::Add, ty: Ty::I64, lhs: mem_start, rhs: offset },
            "addr",
        );
        // IND instructions additionally add the value of the source register
        let addr: usize = if ind {
            let src_reg: usize = self.insn_src(insn);
            self.add(
                Op::Bin { op: BinOp::Add, ty: Ty::I64, lhs: addr, rhs: src_reg },
                "ind_addr_with)_src",
            )
        } else {
            addr
        };
        let loaded: usize = self.add(Op::Load { ty, addr }, "loaded");
        self.extend(insn, ty, loaded);
    }

    /// A load from the address in the source register plus the offset.
    fn load_mem(&mut self, insn: &Insn, ty: Ty)
        requires
            insn.dst < NUM_REGS,
            insn.src < NUM_REGS,
        ensures
            final(self)@ == load_mem_code(old(self)@, *insn, ty),
    {
        let base: usize = self.insn_src(insn);
        let offset: usize = self.add(Op::Const { ty: Ty::I64, bits: insn.off as u64 }, "");
        let addr: usize = self.add(
            Op::Bin { op: BinOp::Add, ty: Ty::I64, lhs: base, rhs: offset },
            "addr_with_addr",
        );
        let loaded: usize = self.add(Op::Load { ty, addr }, "loaded");
        self.extend(insn, ty, loaded);
    }

    /// A store to the address in the destination register plus the offset.
    fn store_mem(&mut self, insn: &Insn, ty: Ty, reg: bool)
        requires
            insn.dst < NUM_REGS,
            reg ==> insn.src < NUM_REGS,
        ensures
            final(self)@ == store_mem_code(old(self)@, *insn, ty, reg),
    {
        let value: usize = self.operand(insn, true, reg);
        let narrow: usize = if ty == Ty::I64 {
            value
        } else {
            self.add(Op::Trunc { ty, val: value }, "narrow")
        };
        let base: usize = self.insn_dst(insn);
        self.reg_store(ty, base, insn.off, narrow);
    }

    /// A division or remainder by the source register.
    fn div_reg(&mut self, insn: &Insn, op: AluOp, wide: bool)
        requires
            op == AluOp::Div || op == AluOp::Mod,
            insn.dst < NUM_REGS,
            insn.src < NUM_REGS,
        ensures
            final(self)@ == div_reg_code(old(self)@, *insn, op, wide),
    {
        let ty = alu_type(wide);
        let zero: usize = self.add(Op::Const { ty, bits: 0 }, "");
        let one: usize = self.add(Op::Const { ty, bits: 1 }, "");
        let lhs: usize = self.dst(insn, wide);
        let rhs: usize = self.operand(insn, wide, true);
        let rhs_is_zero: usize = self.add(
            Op::Cmp { pred: Pred::Eq, ty, lhs: rhs, rhs: zero },
            "rhs_is_zero",
        );
        let safe_rhs: usize = self.add(
            Op::Select { ty, cond: rhs_is_zero, yes: one, no: rhs },
            "safe_rhs",
        );
        let div_res: usize = self.add(
            Op::Bin { op: bin_op(op), ty, lhs, rhs: safe_rhs },
            alu_result_name(op, wide, true),
        );
        let by_zero: usize = match op {
            AluOp::Div => zero,
            _ => lhs,
        };
        let res: usize = self.add(
            Op::Select { ty, cond: rhs_is_zero, yes: by_zero, no: div_res },
            "res",
        );
        self.set(insn, res, wide);
    }

    /// A division or remainder by the immediate.
    fn div_imm(&mut self, insn: &Insn, op: AluOp, wide: bool)
        requires
            op == AluOp::Div || op == AluOp::Mod,
            op == AluOp::Div || insn.imm != 0 ==> insn.dst < NUM_REGS,
        ensures
            final(self)@ == alu_code(old(self)@, *insn, op, wide, false),
    {
        let ty = alu_type(wide);
        if insn.imm != 0 {
            let imm: usize = self.operand(insn, wide, false);
            let src: usize = self.dst(insn, wide);
            let res: usize = self.add(
                Op::Bin { op: bin_op(op), ty, lhs: src, rhs: imm },
                alu_result_name(op, wide, false),
            );
            self.set(insn, res, wide);
        } else if matches!(op, AluOp::Div) {
            let res: usize = self.add(Op::Const { ty, bits: 0 }, "");
            self.set(insn, res, wide);
        }
    }

    /// A shift, by an amount modulo the width.
    fn shift(&mut self, insn: &Insn, op: AluOp, wide: bool, reg: bool)
        requires
            is_shift(op),
            insn.dst < NUM_REGS,
            reg ==> insn.src < NUM_REGS,
        ensures
            final(self)@ == shift_code(old(self)@, *insn, op, wide, reg),
    {
        let ty = alu_type(wide);
        let lhs: usize = self.dst(insn, wide);
        let rhs: usize = self.operand(insn, wide, reg);
        let bits: u64 = if wide {
            63
        } else {
            31
        };
        let mask: usize = self.add(Op::Const { ty, bits }, "");
        let amount: usize = self.add(
            Op::Bin { op: BinOp::And, ty, lhs: rhs, rhs: mask },
            "amount",
        );
        let res: usize = self.add(
            Op::Bin { op: bin_op(op), ty, lhs, rhs: amount },
            alu_result_name(op, wide, reg),
        );
        self.set(insn, res, wide);
    }

    /// An arithmetic operation with two operands.
    fn alu(&mut self, insn: &Insn, op: AluOp, wide: bool, reg: bool)
        requires
            !(op == AluOp::Mod && !reg && insn.imm == 0) ==> insn.dst < NUM_REGS,
            reg ==> insn.src < NUM_REGS,
        ensures
            final(self)@ == alu_code(old(self)@, *insn, op, wide, reg),
    {
        match op {
            AluOp::Mov => {
                let val: usize = self.operand(insn, wide, reg);
                self.set(insn, val, wide);
            },
            AluOp::Div | AluOp::Mod => {
                if reg {
                    self.div_reg(insn, op, wide);
                } else {
                    self.div_imm(insn, op, wide);
                }
            },
            AluOp::Lsh | AluOp::Rsh | AluOp::Arsh => self.shift(insn, op, wide, reg),
            _ => {
                let lhs: usize = self.dst(insn, wide);
                let rhs: usize = self.operand(insn, wide, reg);
                let res: usize = self.add(
                    Op::Bin { op: bin_op(op), ty: alu_type(wide), lhs, rhs },
                    alu_result_name(op, wide, reg),
                );
                self.set(insn, res, wide);
            },
        }
    }

    /// A negation.
    fn neg(&mut self, insn: &Insn, wide: bool)
        requires
            insn.dst < NUM_REGS,
        ensures
            final(self)@ == neg_code(old(self)@, *insn, wide),
    {
        let src: usize = self.dst(insn, wide);
        let res: usize = self.add(Op::Neg { ty: alu_type(wide), val: src }, "neg32");
        self.set(insn, res, wide);
    }

    /// A conversion of the byte order.
    fn swap(&mut self, insn: &Insn, order: ByteOrder, big: bool)
        requires
            swaps(order, big) ==> insn.imm == 16 || insn.imm == 32 || insn.imm == 64,
            swaps(order, big) ==> insn.dst < NUM_REGS,
        ensures
            final(self)@ == swap_code(old(self)@, *insn, order, big),
    {
        if should_swap(order, big) {
            if insn.imm == 16 {
                let val: usize = self.insn_dst16(insn);
                let swapped: usize = self.add(Op::Bswap { ty: Ty::I16, val }, "bswap16");
                self.set_dst_masked(insn, swapped, 0xffff);
            } else if insn.imm == 32 {
                let val: usize = self.insn_dst32(insn);
                let swapped: usize = self.add(Op::Bswap { ty: Ty::I32, val }, "bswap32");
                self.set_dst_masked(insn, swapped, 0xffff_ffff);
            } else {
                let val: usize = self.insn_dst(insn);
                let swapped: usize = self.add(Op::Bswap { ty: Ty::I64, val }, "bswap64");
                self.set_dst(insn, swapped);
            }
        }
    }

    /// A conditional jump.
    fn branch(&mut self, insn: &Insn, cond: Cond, blocks: (usize, usize))
        requires
            insn.dst < NUM_REGS,
            branch_reg(insn.opc) ==> insn.src < NUM_REGS,
        ensures
            final(self)@ == branch_code(old(self)@, *insn, cond, blocks),
    {
        let (fallthrough, target): (usize, usize) = blocks;
        let is_reg = (insn.opc & BPF_X) != 0;
        let is_32 = (insn.opc & BPF_JMP32) != 0;
        let ty = alu_type(!is_32);
        let lhs: usize = self.dst(insn, !is_32);
        let rhs: usize = self.operand(insn, !is_32, is_reg);
        let holds: usize = match cond {
            Cond::AnyBit => {
                let jset_res: usize = self.add(Op::Bin { op: BinOp::And, ty, lhs, rhs }, "jset");
                let zero: usize = self.add(Op::Const { ty, bits: 0 }, "");
                self.add(Op::Cmp { pred: Pred::Ne, ty, lhs: jset_res, rhs: zero }, "jset_cond")
            },
            _ => self.add(Op::Cmp { pred: predicate(cond), ty, lhs, rhs }, "cmp_res"),
        };
        self.add(Op::CondBr { cond: holds, yes: target, no: fallthrough }, "");
    }

    /// A return of R0.
    fn exit(&mut self)
        ensures
            final(self)@ == exit_code(old(self)@),
    {
        let r0: usize = self.add(Op::LoadReg { ty: Ty::I64, reg: 0 }, "ret_val");
        self.add(Op::Ret { val: r0 }, "");
    }

    /// A call of a helper function.
    fn call(&mut self, helper: u32)
        ensures
            final(self)@ == call_code(old(self)@, helper),
    {
        let arg1: usize = self.add(Op::LoadReg { ty: Ty::I64, reg: 1 }, "arg1");
        let arg2: usize = self.add(Op::LoadReg { ty: Ty::I64, reg: 2 }, "arg2");
        let arg3: usize = self.add(Op::LoadReg { ty: Ty::I64, reg: 3 }, "arg3");
        let arg4: usize = self.add(Op::LoadReg { ty: Ty::I64, reg: 4 }, "arg4");
        let arg5: usize = self.add(Op::LoadReg { ty: Ty::I64, reg: 5 }, "arg5");
        let args = [arg1, arg2, arg3, arg4, arg5];
        let res: usize = self.add(Op::Call { helper, args }, "call_");
        // The result goes to R0 according to the eBPF ABI
        self.add(Op::StoreReg { reg: 0, val: res, aligned: true }, "");
    }

    /// Enters the block of the instruction at `insn_ptr`, if it starts one.
    fn enter(&mut self, cfg: &Cfg, insn_ptr: usize, left: bool)
        requires
            insn_ptr <= u32::MAX,
        ensures
            final(self)@ == enter_code(cfg@, old(self)@, insn_ptr as int, left),
    {
        if let Some(block) = cfg.insn_blocks.get(&(insn_ptr as u32)) {
            if !left {
                self.add(Op::Br { block: *block }, "");
            }
            self.add(Op::Position { block: *block }, "");
        }
    }

    /// Adds the translation of the instruction at `insn_ptr`.
    fn translate_insn(
        &mut self,
        prog: &[u8],
        insn_ptr: usize,
        cfg: &Cfg,
        order: ByteOrder,
        mem_start: usize,
    )
        requires
            insn_ptr < u32::MAX,
            supported(order, prog@, insn_ptr as int),
            ends_block(insn_at(prog@, insn_ptr as int).opc) ==> cfg@.targets.contains_key(
                insn_ptr as u32,
            ),
        ensures
            forall|set: Setting|
                set.order == order && set.graph == cfg@ && set.mem_start == mem_start
                    ==> final(self)@ == #[trigger] insn_code(
                    set,
                    old(self)@,
                    prog@,
                    insn_ptr as int,
                ),
    {
        let insn = get_insn(prog, insn_ptr);
        match decode(insn.opc) {
            Some(Action::LoadAbs { ty, ind }) => self.load_abs(&insn, ty, ind, mem_start),
            Some(Action::LoadImm) => {
                let next_insn = get_insn(prog, insn_ptr + 1);
                let bits: u64 = join_imm(&insn, &next_insn);
                let iconst: usize = self.add(Op::Const { ty: Ty::I64, bits }, "");
                self.set_dst(&insn, iconst);
            },
            Some(Action::Load { ty }) => self.load_mem(&insn, ty),
            Some(Action::Store { ty, reg }) => self.store_mem(&insn, ty, reg),
            Some(Action::Alu { op, wide, reg }) => self.alu(&insn, op, wide, reg),
            Some(Action::Neg { wide }) => self.neg(&insn, wide),
            Some(Action::Swap { big }) => self.swap(&insn, order, big),
            Some(Action::Jump) => {
                if let Some(targets) = cfg.insn_targets.get(&(insn_ptr as u32)) {
                    self.add(Op::Br { block: targets.1 }, "");
                }
            },
            Some(Action::Branch { cond }) => {
                if let Some(targets) = cfg.insn_targets.get(&(insn_ptr as u32)) {
                    self.branch(&insn, cond, *targets);
                }
            },
            Some(Action::Call) => self.call(insn.imm as u32),
            Some(Action::Exit) => self.exit(),
            None => {},
        }
    }

    /// Adds the translation of a program. A call of a helper function that is
    /// not among `helpers` is an error; what comes before it has been added.
    pub fn translate_program<H>(
        &mut self,
        prog: &[u8],
        cfg: &Cfg,
        helpers: &HashMap<u32, H>,
        order: ByteOrder,
        mem_start: usize,
    ) -> (res: Result<(), Error>)
        requires
            readable(prog@, 0),
            translatable(order, helpers@.dom(), prog@, 0),
            linked(cfg@, prog@, 0),
        ensures
            ({
                let set = Setting { order, helpers: helpers@.dom(), graph: cfg@, mem_start };
                let (code, unknown) = translation_from(set, old(self)@, prog@, 0, false);
                &&& final(self)@ == code
                &&& unknown is None ==> res == Ok::<(), Error>(())
                &&& unknown matches Some(id) ==> res == Err::<(), Error>(
                    Error::UnknownHelper { id },
                )
            }),
    {
        let ghost set = Setting { order, helpers: helpers@.dom(), graph: cfg@, mem_start };
        let mut insn_ptr: usize = 0;
        let mut prev_is_terminator = false;
        let slots: usize = prog.len() / 8 + (if prog.len() % 8 == 0 {
            0
        } else {
            1
        });
        while insn_ptr < slots
            invariant
                slots == prog@.len() / 8 + (if prog@.len() % 8 == 0 {
                    0int
                } else {
                    1
                }),
                slots < usize::MAX - 2,
                readable(prog@, insn_ptr as int),
                translatable(order, helpers@.dom(), prog@, insn_ptr as int),
                linked(cfg@, prog@, insn_ptr as int),
                set == (Setting { order, helpers: helpers@.dom(), graph: cfg@, mem_start }),
                translation_from(set, self@, prog@, insn_ptr as int, prev_is_terminator)
                    == translation_from(set, old(self)@, prog@, 0, false),
            decreases slots + 1 - insn_ptr,
        {
            let insn = get_insn(prog, insn_ptr);
            self.enter(cfg, insn_ptr, prev_is_terminator);
            if let Some(Action::Call) = decode(insn.opc) {
                let id: u32 = insn.imm as u32;
                if !helpers.contains_key(&id) {
                    return Err(Error::UnknownHelper { id });
                }
            }
            self.translate_insn(prog, insn_ptr, cfg, order, mem_start);
            prev_is_terminator = is_jump(insn.opc);
            if insn.opc == LD_DW_IMM {
                // This instruction takes two slots
                insn_ptr = insn_ptr + 1;
            }
            insn_ptr = insn_ptr + 1;
        }
        Ok(())
    }
}

} // verus!
