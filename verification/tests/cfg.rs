use bpf_llvm::cfg::{is_jump, is_readable, Cfg, ENTRY_BLOCK};
use bpf_llvm::ebpf::Insn;

const EXIT: [u8; 8] = [0x95, 0, 0, 0, 0, 0, 0, 0];

fn jump(opc: u8, off: i16) -> [u8; 8] {
    let [low, high] = off.to_le_bytes();
    [opc, 0, low, high, 0, 0, 0, 0]
}

fn graph(prog: &[[u8; 8]]) -> Cfg {
    let bytes = prog.concat();
    assert!(is_readable(&bytes));
    let mut cfg = Cfg::new();
    cfg.build_cfg(&bytes);
    cfg
}

#[test]
fn empty_program() {
    let cfg = graph(&[]);
    assert!(cfg.insn_blocks.is_empty());
    assert!(cfg.insn_targets.is_empty());
    assert_eq!(cfg.labels, ["entry"]);
}

#[test]
fn blocks_of_jumps() {
    // 0: jeq +1, 1: ja +1, 2: exit, 3: exit
    let cfg = graph(&[jump(0x15, 1), jump(0x05, 1), EXIT, EXIT]);
    let blocks: Vec<(u32, usize)> = cfg.insn_blocks.iter().map(|(k, v)| (*k, *v)).collect();
    assert_eq!(blocks, [(1, 1), (2, 2), (3, 3), (4, 4)]);
    assert_eq!(cfg.insn_targets[&0], (1, 2));
    assert_eq!(cfg.insn_targets[&1], (2, 3));
    assert_eq!(cfg.insn_targets[&2], (3, 3));
    assert_eq!(cfg.insn_targets[&3], (4, 4));
    assert_eq!(cfg.labels, ["entry", "block_0", "block_1", "block_2", "block_3"]);
}

#[test]
fn jump_back_to_the_start() {
    let cfg = graph(&[jump(0x05, -1)]);
    assert_eq!(cfg.insn_targets[&0], (1, 2));
    assert_eq!(cfg.insn_blocks[&0], 2);
    assert_ne!(cfg.insn_blocks[&0], ENTRY_BLOCK);
}

#[test]
fn second_slot_is_no_instruction() {
    // The second slot of the immediate load looks like an exit
    let load = [0x18, 0, 0, 0, 1, 0, 0, 0];
    let cfg = graph(&[load, EXIT, jump(0x05, 0)]);
    assert_eq!(cfg.insn_targets.len(), 1);
    assert_eq!(cfg.insn_targets[&2], (1, 1));
}

#[test]
fn second_program_keeps_the_blocks() {
    let mut cfg = graph(&[jump(0x05, 1), EXIT]);
    assert_eq!(cfg.labels, ["entry", "block_0", "block_1"]);
    cfg.build_cfg(&[EXIT, EXIT, EXIT, EXIT].concat());
    // The labels are counted anew for each program
    assert_eq!(cfg.labels, ["entry", "block_0", "block_1", "block_0", "block_1"]);
    assert_eq!(cfg.insn_targets[&0], (1, 1));
    assert_eq!(cfg.insn_targets[&1], (2, 2));
    assert_eq!(cfg.insn_blocks[&3], 3);
}

#[test]
fn blocks_are_made_once() {
    let mut cfg = Cfg::new();
    let mut count = 7;
    let insn = Insn { opc: 0x15, dst: 0, src: 0, off: 3, imm: 0 };
    cfg.prepare_jump_blocks(5, &insn, &mut count);
    assert_eq!(count, 9);
    cfg.prepare_jump_blocks(5, &insn, &mut count);
    assert_eq!(count, 9);
    assert_eq!(cfg.labels, ["entry", "block_7", "block_8"]);
    assert_eq!(cfg.insn_blocks[&6], 1);
    assert_eq!(cfg.insn_blocks[&9], 2);
    assert_eq!(cfg.insn_targets.len(), 1);
    assert_eq!(cfg.insn_targets[&5], (1, 2));
}

#[test]
fn unreadable_programs() {
    assert!(is_readable(&[]));
    assert!(!is_readable(&EXIT[..7]));
    assert!(!is_readable(&[EXIT.as_slice(), &[0x95]].concat()));
    assert!(!is_readable(&jump(0x05, -2)));
    assert!(is_readable(&jump(0x05, -1)));
    assert!(is_readable(&jump(0x05, 1000)));
    // The first slot of an immediate load alone can be read
    assert!(is_readable(&[0x18, 0, 0, 0, 0, 0, 0, 0]));
}

#[test]
fn ends_of_blocks() {
    for opc in [0x05, 0x15, 0xde, 0x95, 0x8d] {
        assert!(is_jump(opc));
    }
    for opc in [0x85, 0x18, 0x07, 0x06, 0xff] {
        assert!(!is_jump(opc));
    }
}
