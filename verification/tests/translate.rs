use bpf_llvm::cfg::Cfg;
use bpf_llvm::ebpf::Insn;
use bpf_llvm::error::Error;
use bpf_llvm::ir::{BinOp, Inst, Op, Pred, Ty};
use bpf_llvm::translate::{is_supported, is_translatable, Code, MEM_START};
use bpf_llvm::word::ByteOrder;
use std::collections::HashMap;

fn translated(prog: &[u8], keys: &[u32], order: ByteOrder) -> (Vec<Inst>, Result<(), Error>) {
    let helpers: HashMap<u32, ()> = keys.iter().map(|k| (*k, ())).collect();
    assert!(is_translatable(order, &helpers, prog));
    let mut cfg = Cfg::new();
    cfg.build_cfg(prog);
    let mut code = Code { insts: Vec::new() };
    let res = code.translate_program(prog, &cfg, &helpers, order, MEM_START);
    (code.insts, res)
}

fn inst(op: Op, name: &'static str) -> Inst {
    Inst { op, name }
}

#[test]
fn prologue() {
    let insts = Code::prologue().insts;
    assert_eq!(insts.len(), 25);
    assert_eq!(insts[0], inst(Op::Position { block: 0 }, ""));
    assert_eq!(insts[MEM_START], inst(Op::PtrParam { index: 0 }, "mem_start"));
    let end = Op::Bin { op: BinOp::Add, ty: Ty::I64, lhs: 1, rhs: 2 };
    assert_eq!(insts[3], inst(end, "mem_end"));
    assert_eq!(insts[4], inst(Op::PtrParam { index: 2 }, "umem_start"));
    assert_eq!(insts[5], inst(Op::IntParam { index: 3 }, ""));
    assert_eq!(insts[7], inst(Op::Stack { size: 512 }, "stack_start_addr"));
    assert_eq!(insts[8], inst(Op::Const { ty: Ty::I64, bits: 512 }, ""));
    for reg in 0..11 {
        let zero = Op::StoreReg { reg, val: 10, aligned: true };
        assert_eq!(insts[11 + reg], inst(zero, ""));
    }
    assert_eq!(insts[22].op, Op::StoreReg { reg: 1, val: 1, aligned: true });
    assert_eq!(insts[23].op, Op::StoreReg { reg: 2, val: 3, aligned: true });
    assert_eq!(insts[24].op, Op::StoreReg { reg: 10, val: 9, aligned: true });
}

#[test]
fn exit_alone() {
    let (insts, res) = translated(&[0x95, 0, 0, 0, 0, 0, 0, 0], &[], ByteOrder::Little);
    assert_eq!(res, Ok(()));
    assert_eq!(
        insts,
        [
            inst(Op::LoadReg { ty: Ty::I64, reg: 0 }, "ret_val"),
            inst(Op::Ret { val: 0 }, ""),
        ]
    );
}

#[test]
fn add32_imm() {
    let (insts, _) = translated(&[0x04, 3, 0, 0, 0xff, 0xff, 0xff, 0xff], &[], ByteOrder::Little);
    let imm = Op::Const { ty: Ty::I32, bits: u64::MAX };
    assert_eq!(
        insts,
        [
            inst(Op::LoadReg { ty: Ty::I32, reg: 3 }, "dst_val"),
            inst(imm, ""),
            inst(Op::Bin { op: BinOp::Add, ty: Ty::I32, lhs: 0, rhs: 1 }, "add32_imm"),
            inst(Op::Const { ty: Ty::I32, bits: 0xffffffff }, ""),
            inst(Op::Bin { op: BinOp::And, ty: Ty::I32, lhs: 2, rhs: 3 }, "val32"),
            inst(Op::ZExt { ty: Ty::I64, val: 4 }, "val32_z_ext"),
            inst(Op::StoreReg { reg: 3, val: 5, aligned: false }, ""),
        ]
    );
}

#[test]
fn div64_reg() {
    let (insts, _) = translated(&[0x3f, 0x21, 0, 0, 0, 0, 0, 0], &[], ByteOrder::Little);
    let ty = Ty::I64;
    assert_eq!(
        insts,
        [
            inst(Op::Const { ty, bits: 0 }, ""),
            inst(Op::Const { ty, bits: 1 }, ""),
            inst(Op::LoadReg { ty, reg: 1 }, "dst_val"),
            inst(Op::LoadReg { ty, reg: 2 }, "src_val"),
            inst(Op::Cmp { pred: Pred::Eq, ty, lhs: 3, rhs: 0 }, "rhs_is_zero"),
            inst(Op::Select { ty, cond: 4, yes: 1, no: 3 }, "safe_rhs"),
            inst(Op::Bin { op: BinOp::UDiv, ty, lhs: 2, rhs: 5 }, "div64_reg"),
            inst(Op::Select { ty, cond: 4, yes: 0, no: 6 }, "res"),
            inst(Op::StoreReg { reg: 1, val: 7, aligned: true }, ""),
        ]
    );
}

#[test]
fn shift_amounts() {
    let (insts, _) = translated(&[0xcc, 0x21, 0, 0, 0, 0, 0, 0], &[], ByteOrder::Little);
    let ty = Ty::I32;
    assert_eq!(insts[0], inst(Op::LoadReg { ty, reg: 1 }, "dst_val"));
    assert_eq!(insts[1], inst(Op::LoadReg { ty, reg: 2 }, "src_val"));
    assert_eq!(insts[2], inst(Op::Const { ty, bits: 31 }, ""));
    assert_eq!(insts[3], inst(Op::Bin { op: BinOp::And, ty, lhs: 1, rhs: 2 }, "amount"));
    assert_eq!(insts[4], inst(Op::Bin { op: BinOp::AShr, ty, lhs: 0, rhs: 3 }, "arsh32_reg"));
    let (insts, _) = translated(&[0x67, 1, 0, 0, 65, 0, 0, 0], &[], ByteOrder::Little);
    let ty = Ty::I64;
    assert_eq!(
        insts,
        [
            inst(Op::LoadReg { ty, reg: 1 }, "dst_val"),
            inst(Op::Const { ty, bits: 65 }, ""),
            inst(Op::Const { ty, bits: 63 }, ""),
            inst(Op::Bin { op: BinOp::And, ty, lhs: 1, rhs: 2 }, "amount"),
            inst(Op::Bin { op: BinOp::Shl, ty, lhs: 0, rhs: 3 }, "lsh64_imm"),
            inst(Op::StoreReg { reg: 1, val: 4, aligned: true }, ""),
        ]
    );
}

#[test]
fn reads_after_writes() {
    let mut code = Code { insts: Vec::new() };
    let r3 = Insn { opc: 0x07, dst: 3, src: 0, off: 0, imm: 0 };
    let val = code.insn_dst(&r3);
    code.set_dst(&r3, val);
    assert_eq!(code.insn_dst(&r3), 2);
    assert_eq!(code.insts[1].op, Op::StoreReg { reg: 3, val: 0, aligned: true });
    assert_eq!(code.insts[2].op, Op::LoadReg { ty: Ty::I64, reg: 3 });
}

#[test]
fn blocks_lead_on() {
    // 0: jset r1, r2, +1; 1: mov r0, r1; 2: exit
    let prog = [
        [0x4d, 0x21, 1, 0, 0, 0, 0, 0],
        [0xbf, 0x10, 0, 0, 0, 0, 0, 0],
        [0x95, 0, 0, 0, 0, 0, 0, 0],
    ]
    .concat();
    let (insts, _) = translated(&prog, &[], ByteOrder::Little);
    let ty = Ty::I32;
    assert_eq!(
        insts,
        [
            inst(Op::LoadReg { ty, reg: 1 }, "dst_val"),
            inst(Op::LoadReg { ty, reg: 2 }, "src_val"),
            inst(Op::Bin { op: BinOp::And, ty, lhs: 0, rhs: 1 }, "jset"),
            inst(Op::Const { ty, bits: 0 }, ""),
            inst(Op::Cmp { pred: Pred::Ne, ty, lhs: 2, rhs: 3 }, "jset_cond"),
            inst(Op::CondBr { cond: 4, yes: 2, no: 1 }, ""),
            inst(Op::Position { block: 1 }, ""),
            inst(Op::LoadReg { ty: Ty::I64, reg: 1 }, "src_val"),
            inst(Op::StoreReg { reg: 0, val: 7, aligned: true }, ""),
            inst(Op::Br { block: 2 }, ""),
            inst(Op::Position { block: 2 }, ""),
            inst(Op::LoadReg { ty: Ty::I64, reg: 0 }, "ret_val"),
            inst(Op::Ret { val: 11 }, ""),
        ]
    );
}

#[test]
fn leaving_is_followed_by_entering() {
    let prog = [
        [0x15, 0, 2, 0, 0, 0, 0, 0],
        [0x05, 0, 1, 0, 0, 0, 0, 0],
        [0x95, 0, 0, 0, 0, 0, 0, 0],
        [0x1d, 0, 0xfc, 0xff, 0, 0, 0, 0],
        [0x95, 0, 0, 0, 0, 0, 0, 0],
    ]
    .concat();
    let (insts, _) = translated(&prog, &[], ByteOrder::Little);
    let mut entered = Vec::new();
    for (i, current) in insts.iter().enumerate() {
        let leaves = matches!(current.op, Op::Br { .. } | Op::CondBr { .. } | Op::Ret { .. });
        if leaves && i + 1 < insts.len() {
            assert!(matches!(insts[i + 1].op, Op::Position { .. }));
        }
        if let Op::Position { block } = current.op {
            assert!(!entered.contains(&block));
            entered.push(block);
        }
    }
    assert_eq!(entered.len(), 5);
}

#[test]
fn unknown_helpers() {
    let call = |id: u8| [0x85, 0, 0, 0, id, 0, 0, 0];
    let prog = [call(1), call(2), call(3)].concat();
    let (all, res) = translated(&prog, &[1, 2, 3], ByteOrder::Little);
    assert_eq!(res, Ok(()));
    assert_eq!(all.len(), 21);
    assert_eq!(all[5], inst(Op::Call { helper: 1, args: [0, 1, 2, 3, 4] }, "call_"));
    let (some, res) = translated(&prog, &[1, 3], ByteOrder::Little);
    assert_eq!(res, Err(Error::UnknownHelper { id: 2 }));
    assert_eq!(some, all[..7]);
    let negative = [0x85, 0, 0, 0, 0xff, 0xff, 0xff, 0xff];
    let (_, res) = translated(&negative, &[], ByteOrder::Little);
    assert_eq!(res, Err(Error::UnknownHelper { id: u32::MAX }));
}

#[test]
fn swaps_follow_the_byte_order() {
    let be32 = [0xdc, 4, 0, 0, 32, 0, 0, 0];
    let le32 = [0xd4, 4, 0, 0, 32, 0, 0, 0];
    let swap = [
        inst(Op::LoadReg { ty: Ty::I32, reg: 4 }, "dst_val"),
        inst(Op::Bswap { ty: Ty::I32, val: 0 }, "bswap32"),
        inst(Op::Const { ty: Ty::I64, bits: 0xffffffff }, ""),
        inst(Op::ZExt { ty: Ty::I64, val: 1 }, "val"),
        inst(Op::Bin { op: BinOp::And, ty: Ty::I64, lhs: 3, rhs: 2 }, "masked_val"),
        inst(Op::StoreReg { reg: 4, val: 4, aligned: false }, ""),
    ];
    assert_eq!(translated(&be32, &[], ByteOrder::Little).0, swap);
    assert_eq!(translated(&le32, &[], ByteOrder::Little).0, []);
    assert_eq!(translated(&be32, &[], ByteOrder::Big).0, []);
    assert_eq!(translated(&le32, &[], ByteOrder::Big).0, swap);
}

#[test]
fn offsets_of_stores() {
    // stxw [r2+0], r3 and stxw [r2-4], r3
    let (near, _) = translated(&[0x63, 0x32, 0, 0, 0, 0, 0, 0], &[], ByteOrder::Little);
    assert_eq!(near.len(), 4);
    assert_eq!(near[3].op, Op::Store { ty: Ty::I32, addr: 2, val: 1, aligned: false });
    let (far, _) = translated(&[0x63, 0x32, 0xfc, 0xff, 0, 0, 0, 0], &[], ByteOrder::Little);
    assert_eq!(far.len(), 6);
    assert_eq!(far[3].op, Op::Const { ty: Ty::I64, bits: 0xfffffffffffffffc });
    assert_eq!(far[4], inst(Op::Bin { op: BinOp::Add, ty: Ty::I64, lhs: 2, rhs: 3 }, "addr"));
    assert_eq!(far[5].op, Op::Store { ty: Ty::I32, addr: 4, val: 1, aligned: true });
}

#[test]
fn loads_by_address() {
    let mut code = Code { insts: Vec::new() };
    let insn = Insn { opc: 0x79, dst: 1, src: 2, off: 8, imm: 0 };
    let base = code.insn_src(&insn);
    assert_eq!(code.reg_load(Ty::I16, base, 0), 1);
    assert_eq!(code.reg_load(Ty::I8, base, -1), 4);
    assert_eq!(code.insts[1], inst(Op::Load { ty: Ty::I16, addr: 0 }, "loaded"));
    assert_eq!(code.insts[2].op, Op::Const { ty: Ty::I64, bits: u64::MAX });
    assert_eq!(code.insts[3].name, "addr_with_addr");
    assert_eq!(code.insts[4], inst(Op::Load { ty: Ty::I8, addr: 3 }, "loaded"));
}

#[test]
fn what_is_supported() {
    let supported = |insn: [u8; 8]| is_supported(ByteOrder::Little, &insn, 0);
    assert!(supported([0x07, 10, 0, 0, 0, 0, 0, 0]));
    assert!(!supported([0x07, 11, 0, 0, 0, 0, 0, 0]));
    assert!(supported([0x0f, 0xa0, 0, 0, 0, 0, 0, 0]));
    assert!(!supported([0x0f, 0xb0, 0, 0, 0, 0, 0, 0]));
    // The source register of an operation with an immediate is not looked at
    assert!(supported([0x07, 0xf0, 0, 0, 0, 0, 0, 0]));
    // A remainder by the immediate zero has no code
    assert!(supported([0x97, 15, 0, 0, 0, 0, 0, 0]));
    assert!(!supported([0x97, 15, 0, 0, 1, 0, 0, 0]));
    // The second slot is missing
    assert!(!supported([0x18, 0, 0, 0, 0, 0, 0, 0]));
    // A swap of 24 bits, needed or not
    assert!(!supported([0xdc, 0, 0, 0, 24, 0, 0, 0]));
    assert!(supported([0xd4, 0, 0, 0, 24, 0, 0, 0]));
    assert!(!supported([0xc3, 0, 0, 0, 0, 0, 0, 0]));
    assert!(!supported([0x8d, 0, 0, 0, 0, 0, 0, 0]));
    assert!(!is_supported(ByteOrder::Little, &[], 0));
}

#[test]
fn what_is_translatable() {
    let none: HashMap<u32, ()> = HashMap::new();
    let order = ByteOrder::Little;
    let bad = [0xff, 0, 0, 0, 0, 0, 0, 0];
    let call = [0x85, 0, 0, 0, 9, 0, 0, 0];
    assert!(is_translatable(order, &none, &[]));
    assert!(!is_translatable(order, &none, &bad));
    // What comes after an unknown helper function is not looked at
    assert!(is_translatable(order, &none, &[call, bad].concat()));
    assert!(!is_translatable(order, &none, &[bad, call].concat()));
    let known: HashMap<u32, ()> = [(9, ())].into_iter().collect();
    assert!(!is_translatable(order, &known, &[call, bad].concat()));
}
