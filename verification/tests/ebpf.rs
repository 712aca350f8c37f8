use bpf_llvm::ebpf::{decode, get_insn, Action, AluOp, Cond, Insn};
use bpf_llvm::ir::Ty;

#[test]
fn instruction_fields() {
    let prog = [0x07, 0xba, 0xfe, 0xff, 0x78, 0x56, 0x34, 0x92, 0x95, 0x21, 0x03, 0x04, 1, 0, 0, 0];
    let first = Insn { opc: 0x07, dst: 10, src: 11, off: -2, imm: 0x92345678u32 as i32 };
    let second = Insn { opc: 0x95, dst: 1, src: 2, off: 0x403, imm: 1 };
    assert_eq!(get_insn(&prog, 0), first);
    assert_eq!(get_insn(&prog, 1), second);
}

#[test]
fn actions() {
    assert_eq!(decode(0x18), Some(Action::LoadImm));
    assert_eq!(decode(0x38), Some(Action::LoadAbs { ty: Ty::I64, ind: false }));
    assert_eq!(decode(0x48), Some(Action::LoadAbs { ty: Ty::I16, ind: true }));
    assert_eq!(decode(0x61), Some(Action::Load { ty: Ty::I32 }));
    assert_eq!(decode(0x72), Some(Action::Store { ty: Ty::I8, reg: false }));
    assert_eq!(decode(0x7b), Some(Action::Store { ty: Ty::I64, reg: true }));
    assert_eq!(decode(0xb4), Some(Action::Alu { op: AluOp::Mov, wide: false, reg: false }));
    assert_eq!(decode(0xcf), Some(Action::Alu { op: AluOp::Arsh, wide: true, reg: true }));
    assert_eq!(decode(0x84), Some(Action::Neg { wide: false }));
    assert_eq!(decode(0xdc), Some(Action::Swap { big: true }));
    assert_eq!(decode(0x05), Some(Action::Jump));
    assert_eq!(decode(0x4e), Some(Action::Branch { cond: Cond::AnyBit }));
    assert_eq!(decode(0xd5), Some(Action::Branch { cond: Cond::Sle }));
    assert_eq!(decode(0x85), Some(Action::Call));
    assert_eq!(decode(0x95), Some(Action::Exit));
}

#[test]
fn codes_without_a_translation() {
    // XADD of both widths, the tail call, a 32-bit jump without condition
    for opc in [0xc3, 0xdb, 0x8d, 0x06, 0xff, 0x8c, 0x00] {
        assert_eq!(decode(opc), None);
    }
}

#[test]
fn how_many_codes_have_a_translation() {
    // 8 packet loads, the immediate load, 4 loads, 8 stores, 48 arithmetic
    // operations, 2 negations, 2 swaps, 44 conditional jumps, the jump, the
    // call and the exit
    let known = (0..=255).filter(|opc| decode(*opc).is_some()).count();
    assert_eq!(known, 8 + 1 + 4 + 8 + 48 + 2 + 2 + 44 + 3);
}
