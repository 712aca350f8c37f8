use bpf_llvm::compiler::LLVMCompiler;
use bpf_llvm::ir::{BinOp, Inst, Op, Pred, Ty};
use bpf_llvm::word::ByteOrder;
use inkwell::context::Context;
use inkwell::module::Linkage;
use inkwell::AddressSpace;
use std::collections::HashMap;
use std::sync::atomic::{AtomicU64, Ordering};

const MEM: u64 = 0x1000;
const STACK: u64 = 0x8000;

fn number(text: &str) -> i64 {
    let (sign, digits) = match text.strip_prefix('-') {
        Some(rest) => (-1, rest),
        None => (1, text.trim_start_matches('+')),
    };
    let value = match digits.strip_prefix("0x") {
        Some(hex) => u64::from_str_radix(hex, 16).unwrap() as i64,
        None => digits.parse::<i64>().unwrap(),
    };
    sign * value
}

fn register(text: &str) -> Option<u8> {
    text.strip_prefix('r').map(|n| n.parse::<u8>().unwrap())
}

// [rN+off]
fn place(text: &str) -> (u8, i16) {
    let inner = text.trim_start_matches('[').trim_end_matches(']');
    match inner.split_once('+') {
        Some((reg, off)) => (register(reg).unwrap(), number(off) as i16),
        None => (register(inner).unwrap(), 0),
    }
}

fn insn(opc: u8, dst: u8, src: u8, off: i16, imm: i32) -> Vec<u8> {
    let mut bytes = vec![opc, src << 4 | dst];
    bytes.extend_from_slice(&off.to_le_bytes());
    bytes.extend_from_slice(&imm.to_le_bytes());
    bytes
}

fn operation(names: &[(&str, u8)], name: &str) -> Option<u8> {
    names.iter().find(|(n, _)| *n == name).map(|(_, code)| *code)
}

// Class bits for the name with or without a trailing 32
fn split_width(name: &str, wide: u8, narrow: u8) -> (&str, u8) {
    match name.strip_suffix("32") {
        Some(base) => (base, narrow),
        None => (name, wide),
    }
}

fn assemble(text: &str) -> Vec<u8> {
    let alu = [
        ("add", 0x00),
        ("sub", 0x10),
        ("mul", 0x20),
        ("div", 0x30),
        ("or", 0x40),
        ("and", 0x50),
        ("lsh", 0x60),
        ("rsh", 0x70),
        ("neg", 0x80),
        ("mod", 0x90),
        ("xor", 0xa0),
        ("mov", 0xb0),
        ("arsh", 0xc0),
    ];
    let jumps = [
        ("jeq", 0x10),
        ("jgt", 0x20),
        ("jge", 0x30),
        ("jset", 0x40),
        ("jne", 0x50),
        ("jsgt", 0x60),
        ("jsge", 0x70),
        ("jlt", 0xa0),
        ("jle", 0xb0),
        ("jslt", 0xc0),
        ("jsle", 0xd0),
    ];
    let sizes = [("w", 0x00), ("h", 0x08), ("b", 0x10), ("dw", 0x18)];
    let mut prog = Vec::new();
    for line in text.lines().map(str::trim).filter(|line| !line.is_empty()) {
        let (name, rest) = line.split_once(' ').unwrap_or((line, ""));
        let args: Vec<&str> = rest.split(',').map(str::trim).filter(|a| !a.is_empty()).collect();
        let (alu_base, alu_class) = split_width(name, 0x07, 0x04);
        let (jump_base, jump_class) = split_width(name, 0x05, 0x06);
        if name == "exit" {
            prog.extend(insn(0x95, 0, 0, 0, 0));
        } else if name == "ja" {
            prog.extend(insn(0x05, 0, 0, number(args[0]) as i16, 0));
        } else if name == "call" {
            prog.extend(insn(0x85, 0, 0, 0, number(args[0]) as i32));
        } else if name == "lddw" {
            let value = number(args[1]);
            prog.extend(insn(0x18, register(args[0]).unwrap(), 0, 0, value as i32));
            prog.extend(insn(0, 0, 0, 0, (value >> 32) as i32));
        } else if let Some(bits) = name.strip_prefix("be") {
            prog.extend(insn(0xdc, register(args[0]).unwrap(), 0, 0, number(bits) as i32));
        } else if let Some(bits) = name.strip_prefix("le") {
            prog.extend(insn(0xd4, register(args[0]).unwrap(), 0, 0, number(bits) as i32));
        } else if let Some(size) = name.strip_prefix("ldx").and_then(|s| operation(&sizes, s)) {
            let (src, off) = place(args[1]);
            prog.extend(insn(0x61 | size, register(args[0]).unwrap(), src, off, 0));
        } else if let Some(size) = name.strip_prefix("stx").and_then(|s| operation(&sizes, s)) {
            let (dst, off) = place(args[0]);
            prog.extend(insn(0x63 | size, dst, register(args[1]).unwrap(), off, 0));
        } else if let Some(size) = name.strip_prefix("st").and_then(|s| operation(&sizes, s)) {
            let (dst, off) = place(args[0]);
            prog.extend(insn(0x62 | size, dst, 0, off, number(args[1]) as i32));
        } else if let Some(op) = operation(&alu, alu_base) {
            let dst = register(args[0]).unwrap();
            let operand = if args.len() > 1 { args[1] } else { "0" };
            match register(operand) {
                Some(src) => prog.extend(insn(alu_class | op | 0x08, dst, src, 0, 0)),
                None => prog.extend(insn(alu_class | op, dst, 0, 0, number(operand) as i32)),
            }
        } else {
            let op = operation(&jumps, jump_base).unwrap();
            let dst = register(args[0]).unwrap();
            let off = number(args[2]) as i16;
            match register(args[1]) {
                Some(src) => prog.extend(insn(jump_class | op | 0x08, dst, src, off, 0)),
                None => prog.extend(insn(jump_class | op, dst, 0, off, number(args[1]) as i32)),
            }
        }
    }
    prog
}

fn bits(ty: Ty) -> u32 {
    match ty {
        Ty::I1 => 1,
        Ty::I8 => 8,
        Ty::I16 => 16,
        Ty::I32 => 32,
        Ty::I64 => 64,
    }
}

fn cut(ty: Ty, word: u64) -> u64 {
    match ty {
        Ty::I64 => word,
        _ => word & ((1 << bits(ty)) - 1),
    }
}

fn signed(ty: Ty, word: u64) -> i64 {
    let unused = 64 - bits(ty);
    ((word << unused) as i64) >> unused
}

fn bin(op: BinOp, ty: Ty, a: u64, b: u64) -> u64 {
    let word = match op {
        BinOp::Add => a.wrapping_add(b),
        BinOp::Sub => a.wrapping_sub(b),
        BinOp::Mul => a.wrapping_mul(b),
        BinOp::UDiv => a / b,
        BinOp::URem => a % b,
        BinOp::And => a & b,
        BinOp::Or => a | b,
        BinOp::Xor => a ^ b,
        BinOp::Shl => a << b,
        BinOp::LShr => a >> b,
        BinOp::AShr => (signed(ty, a) >> b) as u64,
    };
    cut(ty, word)
}

fn compare(pred: Pred, ty: Ty, a: u64, b: u64) -> bool {
    match pred {
        Pred::Eq => a == b,
        Pred::Ne => a != b,
        Pred::Ugt => a > b,
        Pred::Uge => a >= b,
        Pred::Ult => a < b,
        Pred::Ule => a <= b,
        Pred::Sgt => signed(ty, a) > signed(ty, b),
        Pred::Sge => signed(ty, a) >= signed(ty, b),
        Pred::Slt => signed(ty, a) < signed(ty, b),
        Pred::Sle => signed(ty, a) <= signed(ty, b),
    }
}

// Runs the instructions of a function on a little-endian machine, with a helper
// function that adds its five arguments up.
fn run(code: &[Inst], params: [u64; 4], mem: &mut HashMap<u64, u8>) -> u64 {
    let start = |block: usize| {
        let entry = Op::Position { block };
        code.iter().position(|inst| inst.op == entry).unwrap() + 1
    };
    let mut results: Vec<u64> = vec![0; code.len()];
    let mut regs: Vec<u64> = vec![0xdead; 11];
    let mut at = start(0);
    loop {
        let mut next = at + 1;
        match code[at].op {
            Op::Const { ty, bits } => results[at] = cut(ty, bits),
            Op::PtrParam { index } => results[at] = params[index as usize],
            Op::IntParam { index } => results[at] = params[index as usize],
            Op::Stack { .. } => results[at] = STACK,
            Op::LoadReg { ty, reg } => results[at] = cut(ty, regs[reg]),
            Op::StoreReg { reg, val, .. } => regs[reg] = results[val],
            Op::Load { ty, addr } => {
                let mut word: u64 = 0;
                for k in 0..bits(ty) as u64 / 8 {
                    word |= (mem[&(results[addr] + k)] as u64) << (8 * k);
                }
                results[at] = word;
            }
            Op::Store { ty, addr, val, .. } => {
                for k in 0..bits(ty) as u64 / 8 {
                    mem.insert(results[addr] + k, (results[val] >> (8 * k)) as u8);
                }
            }
            Op::Bin { op, ty, lhs, rhs } => results[at] = bin(op, ty, results[lhs], results[rhs]),
            Op::Neg { ty, val } => results[at] = cut(ty, results[val].wrapping_neg()),
            Op::ZExt { val, .. } => results[at] = results[val],
            Op::Trunc { ty, val } => results[at] = cut(ty, results[val]),
            Op::Cmp { pred, ty, lhs, rhs } => {
                results[at] = compare(pred, ty, results[lhs], results[rhs]) as u64
            }
            Op::Select { cond, yes, no, .. } => {
                results[at] = if results[cond] == 1 { results[yes] } else { results[no] }
            }
            Op::Bswap { ty, val } => results[at] = results[val].swap_bytes() >> (64 - bits(ty)),
            Op::Call { args, .. } => {
                results[at] = args.iter().fold(0, |sum, arg| results[*arg].wrapping_add(sum))
            }
            Op::Br { block } => next = start(block),
            Op::CondBr { cond, yes, no } => {
                next = start(if results[cond] == 1 { yes } else { no })
            }
            Op::Ret { val } => return results[val],
            Op::Position { .. } => panic!("ran past the end of a block"),
        }
        at = next;
    }
}

// The sum of five numbers, as a helper function.
fn sum(a: u64, b: u64, c: u64, d: u64, e: u64) -> u64 {
    a.wrapping_add(b).wrapping_add(c).wrapping_add(d).wrapping_add(e)
}

// Lets this machine run the function of a module on a packet, and returns the
// result and the packet as it is left. A constructor of the module calls the
// function.
fn execute<'ctx>(
    compiler: &mut LLVMCompiler<'ctx>,
    context: &'ctx Context,
    bytes: &[u8],
) -> (u64, Vec<u8>) {
    let mut words: Vec<AtomicU64> = vec![AtomicU64::new(0)];
    for chunk in bytes.chunks(8) {
        let mut word = [0; 8];
        word[..chunk.len()].copy_from_slice(chunk);
        words.push(AtomicU64::new(u64::from_ne_bytes(word)));
    }
    let start = words.as_ptr() as u64;
    let module = &compiler.unit.module;
    let i64_type = context.i64_type();
    let byte_ptr = context.i8_type().ptr_type(AddressSpace::default());
    let word_ptr = i64_type.ptr_type(AddressSpace::default());
    let caller = module.add_function("caller", context.void_type().fn_type(&[], false), None);
    let builder = context.create_builder();
    builder.position_at_end(context.append_basic_block(caller, "entry"));
    let args = [
        i64_type.const_int(start + 8, false).const_to_pointer(byte_ptr).into(),
        i64_type.const_int(bytes.len() as u64, false).into(),
        byte_ptr.const_null().into(),
        i64_type.const_zero().into(),
    ];
    let main = module.get_function("main").unwrap();
    let call = builder.build_call(main, &args, "").unwrap();
    let res = call.try_as_basic_value().left().unwrap();
    let place = i64_type.const_int(start, false).const_to_pointer(word_ptr);
    builder.build_store(place, res).unwrap();
    builder.build_return(None).unwrap();
    let entry = context.const_struct(
        &[
            context.i32_type().const_int(0, false).into(),
            caller.as_global_value().as_pointer_value().into(),
            byte_ptr.const_null().into(),
        ],
        false,
    );
    let list = entry.get_type().const_array(&[entry]);
    let constructors = module.add_global(list.get_type(), None, "llvm.global_ctors");
    constructors.set_linkage(Linkage::Appending);
    constructors.set_initializer(&list);
    let mut addrs: HashMap<u32, usize> = HashMap::new();
    for k in compiler.unit.helpers.keys() {
        addrs.insert(*k, sum as usize);
    }
    let engine = compiler.link(&addrs).unwrap();
    engine.run_static_constructors();
    let left: Vec<u8> = words[1..]
        .iter()
        .flat_map(|word| word.load(Ordering::SeqCst).to_ne_bytes())
        .take(bytes.len())
        .collect();
    (words[0].load(Ordering::SeqCst), left)
}

// Compiles a program.
fn compiled<'ctx>(prog: &[u8], context: &'ctx Context) -> LLVMCompiler<'ctx> {
    let helpers: HashMap<u32, ()> = [(1, ()), (7, ())].into_iter().collect();
    let mut compiler = LLVMCompiler::with_byte_order(helpers, context, ByteOrder::Little);
    assert!(compiler.can_compile(prog));
    let bitcode = compiler.compile_function(prog).unwrap();
    assert_eq!(&bitcode[..4], &[0x42, 0x43, 0xc0, 0xde]);
    compiler
}

// Compiles a program and runs the instructions that it became, by their meaning
// and on this machine.
fn check_raw(prog: &[u8], bytes: &[u8], expected: u64) -> HashMap<u64, u8> {
    let context = Context::create();
    let mut compiler = compiled(prog, &context);
    let mut mem: HashMap<u64, u8> = HashMap::new();
    for (k, byte) in bytes.iter().enumerate() {
        mem.insert(MEM + k as u64, *byte);
    }
    let res = run(&compiler.code.insts, [MEM, bytes.len() as u64, 0, 0], &mut mem);
    assert_eq!(res, expected);
    let (res, left) = execute(&mut compiler, &context, bytes);
    assert_eq!(res, expected);
    for (k, byte) in left.iter().enumerate() {
        assert_eq!(*byte, mem[&(MEM + k as u64)]);
    }
    mem
}

fn check(text: &str, bytes: &[u8], expected: u64) -> HashMap<u64, u8> {
    check_raw(&assemble(text), bytes, expected)
}

const PROG_TCP_PORT_80: [u8; 152] = [
    0x71, 0x12, 0x0c, 0x00, 0x00, 0x00, 0x00, 0x00, 0x71, 0x13, 0x0d, 0x00, 0x00, 0x00, 0x00, 0x00,
    0x67, 0x03, 0x00, 0x00, 0x08, 0x00, 0x00, 0x00, 0x4f, 0x23, 0x00, 0x00, 0x00, 0x00, 0x00, 0x00,
    0xb7, 0x00, 0x00, 0x00, 0x00, 0x00, 0x00, 0x00, 0x55, 0x03, 0x0c, 0x00, 0x08, 0x00, 0x00, 0x00,
    0x71, 0x12, 0x17, 0x00, 0x00, 0x00, 0x00, 0x00, 0x55, 0x02, 0x0a, 0x00, 0x06, 0x00, 0x00, 0x00,
    0x71, 0x12, 0x0e, 0x00, 0x00, 0x00, 0x00, 0x00, 0x07, 0x01, 0x00, 0x00, 0x0e, 0x00, 0x00, 0x00,
    0x57, 0x02, 0x00, 0x00, 0x0f, 0x00, 0x00, 0x00, 0x67, 0x02, 0x00, 0x00, 0x02, 0x00, 0x00, 0x00,
    0x0f, 0x21, 0x00, 0x00, 0x00, 0x00, 0x00, 0x00, 0x69, 0x12, 0x02, 0x00, 0x00, 0x00, 0x00, 0x00,
    0x15, 0x02, 0x02, 0x00, 0x00, 0x50, 0x00, 0x00, 0x69, 0x11, 0x00, 0x00, 0x00, 0x00, 0x00, 0x00,
    0x55, 0x01, 0x01, 0x00, 0x00, 0x50, 0x00, 0x00, 0xb7, 0x00, 0x00, 0x00, 0x01, 0x00, 0x00, 0x00,
    0x95, 0x00, 0x00, 0x00, 0x00, 0x00, 0x00, 0x00,
];

#[test]
fn test_llvm_add() {
    check(
        "
        mov32 r0, 0
        mov32 r1, 2
        add32 r0, 1
        add32 r0, r1
        exit
        ",
        &[],
        0x3,
    );
}

#[test]
fn test_llvm_alu64_arith() {
    check(
        "
        mov r0, 0
        mov r1, 1
        mov r2, 2
        mov r3, 3
        mov r4, 4
        mov r5, 5
        mov r6, 6
        mov r7, 7
        mov r8, 8
        mov r9, 9
        add r0, 23
        add r0, r7
        sub r0, 13
        sub r0, r1
        mul r0, 7
        mul r0, r3
        div r0, 2
        div r0, r4
        exit
        ",
        &[],
        0x2a,
    );
}

#[test]
fn test_llvm_alu64_bit() {
    check(
        "
        mov r0, 0
        mov r1, 1
        mov r2, 2
        mov r3, 3
        mov r4, 4
        mov r5, 5
        mov r6, 6
        mov r7, 7
        mov r8, 8
        or r0, r5
        or r0, 0xa0
        and r0, 0xa3
        mov r9, 0x91
        and r0, r9
        lsh r0, 32
        lsh r0, 22
        lsh r0, r8
        rsh r0, 32
        rsh r0, 19
        rsh r0, r7
        xor r0, 0x03
        xor r0, r2
        exit
        ",
        &[],
        0x11,
    );
}

#[test]
fn test_llvm_alu_arith() {
    check(
        "
        mov32 r0, 0
        mov32 r1, 1
        mov32 r2, 2
        mov32 r3, 3
        mov32 r4, 4
        mov32 r5, 5
        mov32 r6, 6
        mov32 r7, 7
        mov32 r8, 8
        mov32 r9, 9
        add32 r0, 23
        add32 r0, r7
        sub32 r0, 13
        sub32 r0, r1
        mul32 r0, 7
        mul32 r0, r3
        div32 r0, 2
        div32 r0, r4
        exit
        ",
        &[],
        0x2a,
    );
}

#[test]
fn test_llvm_alu_bit() {
    check(
        "
        mov32 r0, 0
        mov32 r1, 1
        mov32 r2, 2
        mov32 r3, 3
        mov32 r4, 4
        mov32 r5, 5
        mov32 r6, 6
        mov32 r7, 7
        mov32 r8, 8
        or32 r0, r5
        or32 r0, 0xa0
        and32 r0, 0xa3
        mov32 r9, 0x91
        and32 r0, r9
        lsh32 r0, 22
        lsh32 r0, r8
        rsh32 r0, 19
        rsh32 r0, r7
        xor32 r0, 0x03
        xor32 r0, r2
        exit
        ",
        &[],
        0x11,
    );
}

#[test]
fn test_llvm_arsh32_high_shift() {
    check(
        "
        mov r0, 8
        lddw r1, 0x100000001
        arsh32 r0, r1
        exit
        ",
        &[],
        0x4,
    );
}

#[test]
fn test_llvm_arsh() {
    check(
        "
        mov32 r0, 0xf8
        lsh32 r0, 28
        arsh32 r0, 16
        exit
        ",
        &[],
        0xffff8000,
    );
}

#[test]
fn test_llvm_arsh64() {
    check(
        "
        mov32 r0, 1
        lsh r0, 63
        arsh r0, 55
        mov32 r1, 5
        arsh r0, r1
        exit
        ",
        &[],
        0xfffffffffffffff8,
    );
}

#[test]
fn test_llvm_arsh_reg() {
    check(
        "
        mov32 r0, 0xf8
        mov32 r1, 16
        lsh32 r0, 28
        arsh32 r0, r1
        exit
        ",
        &[],
        0xffff8000,
    );
}

#[test]
fn test_llvm_be16_high() {
    check(
        "
        ldxdw r0, [r1]
        be16 r0
        exit
        ",
        &[0x11, 0x22, 0x33, 0x44, 0x55, 0x66, 0x77, 0x88],
        0x1122,
    );
}

#[test]
fn test_llvm_be32() {
    check(
        "
        ldxw r0, [r1]
        be32 r0
        exit
        ",
        &[0x11, 0x22, 0x33, 0x44],
        0x11223344,
    );
}

#[test]
fn test_llvm_be32_high() {
    check(
        "
        ldxdw r0, [r1]
        be32 r0
        exit
        ",
        &[0x11, 0x22, 0x33, 0x44, 0x55, 0x66, 0x77, 0x88],
        0x11223344,
    );
}

#[test]
fn test_llvm_be64() {
    check(
        "
        ldxdw r0, [r1]
        be64 r0
        exit
        ",
        &[0x11, 0x22, 0x33, 0x44, 0x55, 0x66, 0x77, 0x88],
        0x1122334455667788,
    );
}

#[test]
fn test_llvm_div32_imm() {
    check(
        "
        lddw r0, 0x10000000c
        div32 r0, 4
        exit
        ",
        &[],
        0x3,
    );
}

#[test]
fn test_llvm_div32_reg() {
    check(
        "
        lddw r0, 0x10000000c
        mov r1, 4
        div32 r0, r1
        exit
        ",
        &[],
        0x3,
    );
}

#[test]
fn test_llvm_div64_imm() {
    check(
        "
        mov r0, 0xc
        lsh r0, 32
        div r0, 4
        exit
        ",
        &[],
        0x300000000,
    );
}

#[test]
fn test_llvm_div64_reg() {
    check(
        "
        mov r0, 0xc
        lsh r0, 32
        mov r1, 4
        div r0, r1
        exit
        ",
        &[],
        0x300000000,
    );
}

#[test]
fn test_llvm_div64_by_zero_imm() {
    check(
        "
        mov32 r0, 1
        div r0, 0
        exit
        ",
        &[],
        0x0,
    );
}

#[test]
fn test_llvm_div_by_zero_imm() {
    check(
        "
        mov32 r0, 1
        div32 r0, 0
        exit
        ",
        &[],
        0x0,
    );
}

#[test]
fn test_llvm_mod64_by_zero_imm() {
    check(
        "
        mov32 r0, 1
        mod r0, 0
        exit
        ",
        &[],
        0x1,
    );
}

#[test]
fn test_llvm_mod_by_zero_imm() {
    check(
        "
        mov32 r0, 1
        mod32 r0, 0
        exit
        ",
        &[],
        0x1,
    );
}

#[test]
fn test_llvm_div64_by_zero_reg() {
    check(
        "
        mov32 r0, 1
        mov32 r1, 0
        div r0, r1
        exit
        ",
        &[],
        0x0,
    );
}

#[test]
fn test_llvm_div_by_zero_reg() {
    check(
        "
        mov32 r0, 1
        mov32 r1, 0
        div32 r0, r1
        exit
        ",
        &[],
        0x0,
    );
}

#[test]
fn test_llvm_mod64_by_zero_reg() {
    check(
        "
        mov32 r0, 1
        mov32 r1, 0
        mod r0, r1
        exit
        ",
        &[],
        0x1,
    );
}

#[test]
fn test_llvm_mod_by_zero_reg() {
    check(
        "
        mov32 r0, 1
        mov32 r1, 0
        mod32 r0, r1
        exit
        ",
        &[],
        0x1,
    );
}

#[test]
fn test_llvm_exit() {
    check(
        "
        mov r0, 0
        exit
        ",
        &[],
        0x0,
    );
}

#[test]
fn test_llvm_ja() {
    check(
        "
        mov r0, 1
        ja +1
        mov r0, 2
        exit
        ",
        &[],
        0x1,
    );
}

#[test]
fn test_llvm_jeq_imm() {
    check(
        "
        mov32 r0, 0
        mov32 r1, 0xa
        jeq r1, 0xb, +4
        mov32 r0, 1
        mov32 r1, 0xb
        jeq r1, 0xb, +1
        mov32 r0, 2
        exit
        ",
        &[],
        0x1,
    );
}

#[test]
fn test_llvm_jeq_reg() {
    check(
        "
        mov32 r0, 0
        mov32 r1, 0xa
        mov32 r2, 0xb
        jeq r1, r2, +4
        mov32 r0, 1
        mov32 r1, 0xb
        jeq r1, r2, +1
        mov32 r0, 2
        exit
        ",
        &[],
        0x1,
    );
}

#[test]
fn test_llvm_jge_imm() {
    check(
        "
        mov32 r0, 0
        mov32 r1, 0xa
        jge r1, 0xb, +4
        mov32 r0, 1
        mov32 r1, 0xc
        jge r1, 0xb, +1
        mov32 r0, 2
        exit
        ",
        &[],
        0x1,
    );
}

#[test]
fn test_llvm_jle_imm() {
    check(
        "
        mov32 r0, 0
        mov32 r1, 5
        jle r1, 4, +1
        jle r1, 6, +1
        exit
        jle r1, 5, +1
        exit
        mov32 r0, 1
        exit
        ",
        &[],
        0x1,
    );
}

#[test]
fn test_llvm_jle_reg() {
    check(
        "
        mov r0, 0
        mov r1, 5
        mov r2, 4
        mov r3, 6
        jle r1, r2, +2
        jle r1, r1, +1
        exit
        jle r1, r3, +1
        exit
        mov r0, 1
        exit
        ",
        &[],
        0x1,
    );
}

#[test]
fn test_llvm_jgt_imm() {
    check(
        "
        mov32 r0, 0
        mov32 r1, 5
        jgt r1, 6, +2
        jgt r1, 5, +1
        jgt r1, 4, +1
        exit
        mov32 r0, 1
        exit
        ",
        &[],
        0x1,
    );
}

#[test]
fn test_llvm_jgt_reg() {
    check(
        "
        mov r0, 0
        mov r1, 5
        mov r2, 6
        mov r3, 4
        jgt r1, r2, +2
        jgt r1, r1, +1
        jgt r1, r3, +1
        exit
        mov r0, 1
        exit
        ",
        &[],
        0x1,
    );
}

#[test]
fn test_llvm_jlt_imm() {
    check(
        "
        mov32 r0, 0
        mov32 r1, 5
        jlt r1, 4, +2
        jlt r1, 5, +1
        jlt r1, 6, +1
        exit
        mov32 r0, 1
        exit
        ",
        &[],
        0x1,
    );
}

#[test]
fn test_llvm_jlt_reg() {
    check(
        "
        mov r0, 0
        mov r1, 5
        mov r2, 4
        mov r3, 6
        jlt r1, r2, +2
        jlt r1, r1, +1
        jlt r1, r3, +1
        exit
        mov r0, 1
        exit
        ",
        &[],
        0x1,
    );
}

#[test]
fn test_llvm_jit_bounce() {
    check(
        "
        mov r0, 1
        mov r6, r0
        mov r7, r6
        mov r8, r7
        mov r9, r8
        mov r0, r9
        exit
        ",
        &[],
        0x1,
    );
}

#[test]
fn test_llvm_jne_reg() {
    check(
        "
        mov32 r0, 0
        mov32 r1, 0xb
        mov32 r2, 0xb
        jne r1, r2, +4
        mov32 r0, 1
        mov32 r1, 0xa
        jne r1, r2, +1
        mov32 r0, 2
        exit
        ",
        &[],
        0x1,
    );
}

#[test]
fn test_llvm_jset_imm() {
    check(
        "
        mov32 r0, 0
        mov32 r1, 0x7
        jset r1, 0x8, +4
        mov32 r0, 1
        mov32 r1, 0x9
        jset r1, 0x8, +1
        mov32 r0, 2
        exit
        ",
        &[],
        0x1,
    );
}

#[test]
fn test_llvm_jset_reg() {
    check(
        "
        mov32 r0, 0
        mov32 r1, 0x7
        mov32 r2, 0x8
        jset r1, r2, +4
        mov32 r0, 1
        mov32 r1, 0x9
        jset r1, r2, +1
        mov32 r0, 2
        exit
        ",
        &[],
        0x1,
    );
}

#[test]
fn test_llvm_jsge_imm() {
    check(
        "
        mov32 r0, 0
        mov r1, -2
        jsge r1, -1, +5
        jsge r1, 0, +4
        mov32 r0, 1
        mov r1, -1
        jsge r1, -1, +1
        mov32 r0, 2
        exit
        ",
        &[],
        0x1,
    );
}

#[test]
fn test_llvm_jsge_reg() {
    check(
        "
        mov32 r0, 0
        mov r1, -2
        mov r2, -1
        mov32 r3, 0
        jsge r1, r2, +5
        jsge r1, r3, +4
        mov32 r0, 1
        mov r1, r2
        jsge r1, r2, +1
        mov32 r0, 2
        exit
        ",
        &[],
        0x1,
    );
}

#[test]
fn test_llvm_jsle_imm() {
    check(
        "
        mov32 r0, 0
        mov r1, -2
        jsle r1, -3, +1
        jsle r1, -1, +1
        exit
        mov32 r0, 1
        jsle r1, -2, +1
        mov32 r0, 2
        exit
        ",
        &[],
        0x1,
    );
}

#[test]
fn test_llvm_jsle_reg() {
    check(
        "
        mov32 r0, 0
        mov r1, -1
        mov r2, -2
        mov32 r3, 0
        jsle r1, r2, +1
        jsle r1, r3, +1
        exit
        mov32 r0, 1
        mov r1, r2
        jsle r1, r2, +1
        mov32 r0, 2
        exit
        ",
        &[],
        0x1,
    );
}

#[test]
fn test_llvm_jsgt_imm() {
    check(
        "
        mov32 r0, 0
        mov r1, -2
        jsgt r1, -1, +4
        mov32 r0, 1
        mov32 r1, 0
        jsgt r1, -1, +1
        mov32 r0, 2
        exit
        ",
        &[],
        0x1,
    );
}

#[test]
fn test_llvm_jsgt_reg() {
    check(
        "
        mov32 r0, 0
        mov r1, -2
        mov r2, -1
        jsgt r1, r2, +4
        mov32 r0, 1
        mov32 r1, 0
        jsgt r1, r2, +1
        mov32 r0, 2
        exit
        ",
        &[],
        0x1,
    );
}

#[test]
fn test_llvm_jslt_imm() {
    check(
        "
        mov32 r0, 0
        mov r1, -2
        jslt r1, -3, +2
        jslt r1, -2, +1
        jslt r1, -1, +1
        exit
        mov32 r0, 1
        exit
        ",
        &[],
        0x1,
    );
}

#[test]
fn test_llvm_jslt_reg() {
    check(
        "
        mov32 r0, 0
        mov r1, -2
        mov r2, -3
        mov r3, -1
        jslt r1, r1, +2
        jslt r1, r2, +1
        jslt r1, r3, +1
        exit
        mov32 r0, 1
        exit
        ",
        &[],
        0x1,
    );
}

#[test]
fn test_llvm_jeq32_imm() {
    check(
        "
        mov r9, 1
        lsh r9, 32
        mov32 r0, 0x0
        mov32 r1, 0xa
        jeq32 r1, 0xb, +5
        mov32 r0, 1
        mov r1, 0xb
        or r1, r9
        jeq32 r1, 0xb, +1
        mov32 r0, 2
        exit
        ",
        &[],
        0x1,
    );
}

#[test]
fn test_llvm_jeq32_reg() {
    check(
        "
        mov r9, 1
        lsh r9, 32
        mov32 r0, 0
        mov32 r1, 0xa
        mov32 r2, 0xb
        jeq32 r1, r2, +5
        mov32 r0, 1
        mov32 r1, 0xb
        or r1, r9
        jeq32 r1, r2, +1
        mov32 r0, 2
        exit
        ",
        &[],
        0x1,
    );
}

#[test]
fn test_llvm_jge32_imm() {
    check(
        "
        mov r9, 1
        lsh r9, 32
        mov32 r0, 0
        mov32 r1, 0xa
        jge32 r1, 0xb, +5
        mov32 r0, 1
        or r1, r9
        mov32 r1, 0xc
        jge32 r1, 0xb, +1
        mov32 r0, 2
        exit
        ",
        &[],
        0x1,
    );
}

#[test]
fn test_llvm_jge32_reg() {
    check(
        "
        mov r9, 1
        lsh r9, 32
        mov32 r0, 0
        mov32 r1, 0xa
        mov32 r2, 0xb
        jge32 r1, r2, +5
        mov32 r0, 1
        or r1, r9
        mov32 r1, 0xc
        jge32 r1, r2, +1
        mov32 r0, 2
        exit
        ",
        &[],
        0x1,
    );
}

#[test]
fn test_llvm_jgt32_imm() {
    check(
        "
        mov r9, 1
        lsh r9, 32
        mov32 r0, 0
        mov32 r1, 5
        or r1, r9
        jgt32 r1, 6, +4
        jgt32 r1, 5, +3
        jgt32 r1, 4, +1
        exit
        mov32 r0, 1
        exit
        ",
        &[],
        0x1,
    );
}

#[test]
fn test_llvm_jgt32_reg() {
    check(
        "
        mov r9, 1
        lsh r9, 32
        mov r0, 0
        mov r1, 5
        mov32 r1, 5
        or r1, r9
        mov r2, 6
        mov r3, 4
        jgt32 r1, r2, +4
        jgt32 r1, r1, +3
        jgt32 r1, r3, +1
        exit
        mov r0, 1
        exit
        ",
        &[],
        0x1,
    );
}

#[test]
fn test_llvm_jle32_imm() {
    check(
        "
        mov r9, 1
        lsh r9, 32
        mov32 r0, 0
        mov32 r1, 5
        or r1, r9
        jle32 r1, 4, +5
        jle32 r1, 6, +1
        exit
        jle32 r1, 5, +1
        exit
        mov32 r0, 1
        exit
        ",
        &[],
        0x1,
    );
}

#[test]
fn test_llvm_jle32_reg() {
    check(
        "
        mov r9, 1
        lsh r9, 32
        mov r0, 0
        mov r1, 5
        mov r2, 4
        mov r3, 6
        or r1, r9
        jle32 r1, r2, +5
        jle32 r1, r1, +1
        exit
        jle32 r1, r3, +1
        exit
        mov r0, 1
        exit
        ",
        &[],
        0x1,
    );
}

#[test]
fn test_llvm_jlt32_imm() {
    check(
        "
        mov r9, 1
        lsh r9, 32
        mov32 r0, 0
        mov32 r1, 5
        or r1, r9
        jlt32 r1, 4, +4
        jlt32 r1, 5, +3
        jlt32 r1, 6, +1
        exit
        mov32 r0, 1
        exit
        ",
        &[],
        0x1,
    );
}

#[test]
fn test_llvm_jlt32_reg() {
    check(
        "
        mov r9, 1
        lsh r9, 32
        mov r0, 0
        mov r1, 5
        mov r2, 4
        mov r3, 6
        or r1, r9
        jlt32 r1, r2, +4
        jlt32 r1, r1, +3
        jlt32 r1, r3, +1
        exit
        mov r0, 1
        exit
        ",
        &[],
        0x1,
    );
}

#[test]
fn test_llvm_jne32_imm() {
    check(
        "
        mov r9, 1
        lsh r9, 32
        mov32 r0, 0
        mov32 r1, 0xb
        or r1, r9
        jne32 r1, 0xb, +4
        mov32 r0, 1
        mov32 r1, 0xa
        or r1, r9
        jne32 r1, 0xb, +1
        mov32 r0, 2
        exit
        ",
        &[],
        0x1,
    );
}

#[test]
fn test_llvm_jne32_reg() {
    check(
        "
        mov r9, 1
        lsh r9, 32
        mov32 r0, 0
        mov32 r1, 0xb
        or r1, r9
        mov32 r2, 0xb
        jne32 r1, r2, +4
        mov32 r0, 1
        mov32 r1, 0xa
        or r1, r9
        jne32 r1, r2, +1
        mov32 r0, 2
        exit
        ",
        &[],
        0x1,
    );
}

#[test]
fn test_llvm_jset32_imm() {
    check(
        "
        mov r9, 1
        lsh r9, 32
        mov32 r0, 0
        mov32 r1, 0x7
        or r1, r9
        jset32 r1, 0x8, +4
        mov32 r0, 1
        mov32 r1, 0x9
        jset32 r1, 0x8, +1
        mov32 r0, 2
        exit
        ",
        &[],
        0x1,
    );
}

#[test]
fn test_llvm_jset32_reg() {
    check(
        "
        mov r9, 1
        lsh r9, 32
        mov32 r0, 0
        mov32 r1, 0x7
        or r1, r9
        mov32 r2, 0x8
        jset32 r1, r2, +4
        mov32 r0, 1
        mov32 r1, 0x9
        jset32 r1, r2, +1
        mov32 r0, 2
        exit
        ",
        &[],
        0x1,
    );
}

#[test]
fn test_llvm_jsge32_imm() {
    check(
        "
        mov r9, 1
        lsh r9, 32
        mov32 r0, 0
        mov32 r1, -2
        or r1, r9
        jsge32 r1, -1, +5
        jsge32 r1, 0, +4
        mov32 r0, 1
        mov r1, -1
        jsge32 r1, -1, +1
        mov32 r0, 2
        exit
        ",
        &[],
        0x1,
    );
}

#[test]
fn test_llvm_lddw() {
    check(
        "
        lddw r0, 0x1122334455667788
        exit
        ",
        &[],
        0x1122334455667788,
    );
}

#[test]
fn test_llvm_lddw2() {
    check(
        "
        lddw r0, 0x0000000080000000
        exit
        ",
        &[],
        0x80000000,
    );
}

#[test]
fn test_llvm_ldxb_all() {
    check(
        "
        mov r0, r1
        ldxb r9, [r0+0]
        lsh r9, 0
        ldxb r8, [r0+1]
        lsh r8, 4
        ldxb r7, [r0+2]
        lsh r7, 8
        ldxb r6, [r0+3]
        lsh r6, 12
        ldxb r5, [r0+4]
        lsh r5, 16
        ldxb r4, [r0+5]
        lsh r4, 20
        ldxb r3, [r0+6]
        lsh r3, 24
        ldxb r2, [r0+7]
        lsh r2, 28
        ldxb r1, [r0+8]
        lsh r1, 32
        ldxb r0, [r0+9]
        lsh r0, 36
        or r0, r1
        or r0, r2
        or r0, r3
        or r0, r4
        or r0, r5
        or r0, r6
        or r0, r7
        or r0, r8
        or r0, r9
        exit
        ",
        &[0x00, 0x01, 0x02, 0x03, 0x04, 0x05, 0x06, 0x07, 0x08, 0x09],
        0x9876543210,
    );
}

#[test]
fn test_llvm_ldxb() {
    check(
        "
        ldxb r0, [r1+2]
        exit
        ",
        &[0xaa, 0xbb, 0x11, 0xcc, 0xdd],
        0x11,
    );
}

#[test]
fn test_llvm_ldxdw() {
    check(
        "
        ldxdw r0, [r1+2]
        exit
        ",
        &[0xaa, 0xbb, 0x11, 0x22, 0x33, 0x44, 0x55, 0x66, 0x77, 0x88, 0xcc, 0xdd],
        0x8877665544332211,
    );
}

#[test]
fn test_llvm_ldxh_all() {
    check(
        "
        mov r0, r1
        ldxh r9, [r0+0]
        be16 r9
        lsh r9, 0
        ldxh r8, [r0+2]
        be16 r8
        lsh r8, 4
        ldxh r7, [r0+4]
        be16 r7
        lsh r7, 8
        ldxh r6, [r0+6]
        be16 r6
        lsh r6, 12
        ldxh r5, [r0+8]
        be16 r5
        lsh r5, 16
        ldxh r4, [r0+10]
        be16 r4
        lsh r4, 20
        ldxh r3, [r0+12]
        be16 r3
        lsh r3, 24
        ldxh r2, [r0+14]
        be16 r2
        lsh r2, 28
        ldxh r1, [r0+16]
        be16 r1
        lsh r1, 32
        ldxh r0, [r0+18]
        be16 r0
        lsh r0, 36
        or r0, r1
        or r0, r2
        or r0, r3
        or r0, r4
        or r0, r5
        or r0, r6
        or r0, r7
        or r0, r8
        or r0, r9
        exit
        ",
        &[
            0x00, 0x00, 0x00, 0x01, 0x00, 0x02, 0x00, 0x03, 0x00, 0x04, 0x00, 0x05, 0x00, 0x06, 0x00,
            0x07, 0x00, 0x08, 0x00, 0x09
        ],
        0x9876543210,
    );
}

#[test]
fn test_llvm_ldxh_all2() {
    check(
        "
        mov r0, r1
        ldxh r9, [r0+0]
        be16 r9
        ldxh r8, [r0+2]
        be16 r8
        ldxh r7, [r0+4]
        be16 r7
        ldxh r6, [r0+6]
        be16 r6
        ldxh r5, [r0+8]
        be16 r5
        ldxh r4, [r0+10]
        be16 r4
        ldxh r3, [r0+12]
        be16 r3
        ldxh r2, [r0+14]
        be16 r2
        ldxh r1, [r0+16]
        be16 r1
        ldxh r0, [r0+18]
        be16 r0
        or r0, r1
        or r0, r2
        or r0, r3
        or r0, r4
        or r0, r5
        or r0, r6
        or r0, r7
        or r0, r8
        or r0, r9
        exit
        ",
        &[
            0x00, 0x01, 0x00, 0x02, 0x00, 0x04, 0x00, 0x08, 0x00, 0x10, 0x00, 0x20, 0x00, 0x40, 0x00,
            0x80, 0x01, 0x00, 0x02, 0x00
        ],
        0x3ff,
    );
}

#[test]
fn test_llvm_ldxh() {
    check(
        "
        ldxh r0, [r1+2]
        exit
        ",
        &[0xaa, 0xbb, 0x11, 0x22, 0xcc, 0xdd],
        0x2211,
    );
}

#[test]
fn test_llvm_ldxh_same_reg() {
    check(
        "
        mov r0, r1
        sth [r0], 0x1234
        ldxh r0, [r0]
        exit
        ",
        &[0xff, 0xff],
        0x1234,
    );
}

#[test]
fn test_llvm_ldxw_all() {
    check(
        "
        mov r0, r1
        ldxw r9, [r0+0]
        be32 r9
        ldxw r8, [r0+4]
        be32 r8
        ldxw r7, [r0+8]
        be32 r7
        ldxw r6, [r0+12]
        be32 r6
        ldxw r5, [r0+16]
        be32 r5
        ldxw r4, [r0+20]
        be32 r4
        ldxw r3, [r0+24]
        be32 r3
        ldxw r2, [r0+28]
        be32 r2
        ldxw r1, [r0+32]
        be32 r1
        ldxw r0, [r0+36]
        be32 r0
        or r0, r1
        or r0, r2
        or r0, r3
        or r0, r4
        or r0, r5
        or r0, r6
        or r0, r7
        or r0, r8
        or r0, r9
        exit
        ",
        &[
            0x00, 0x00, 0x00, 0x01, 0x00, 0x00, 0x00, 0x02, 0x00, 0x00, 0x00, 0x04, 0x00, 0x00, 0x00,
            0x08, 0x00, 0x00, 0x01, 0x00, 0x00, 0x00, 0x02, 0x00, 0x00, 0x00, 0x04, 0x00, 0x00, 0x00,
            0x08, 0x00, 0x00, 0x01, 0x00, 0x00, 0x00, 0x02, 0x00, 0x00
        ],
        0x030f0f,
    );
}

#[test]
fn test_llvm_ldxw() {
    check(
        "
        ldxw r0, [r1+2]
        exit
        ",
        &[0xaa, 0xbb, 0x11, 0x22, 0x33, 0x44, 0xcc, 0xdd],
        0x44332211,
    );
}

#[test]
fn test_llvm_tcp_port80_match() {
    check_raw(
        &PROG_TCP_PORT_80,
        &[
            0x00, 0x01, 0x02, 0x03, 0x04, 0x05, 0x00, 0x06, 0x07, 0x08, 0x09, 0x0a, 0x08, 0x00, 0x45,
            0x00, 0x00, 0x56, 0x00, 0x01, 0x00, 0x00, 0x40, 0x06, 0xf9, 0x4d, 0xc0, 0xa8, 0x00, 0x01,
            0xc0, 0xa8, 0x00, 0x02, 0x27, 0x10, 0x00, 0x50, 0x00, 0x00, 0x00, 0x00, 0x00, 0x00, 0x00,
            0x00, 0x50, 0x02, 0x20, 0x00, 0xc5, 0x18, 0x00, 0x00, 0x44, 0x44, 0x44, 0x44, 0x44, 0x44,
            0x44, 0x44, 0x44, 0x44, 0x44, 0x44, 0x44, 0x44, 0x44, 0x44, 0x44, 0x44, 0x44, 0x44, 0x44,
            0x44, 0x44, 0x44, 0x44, 0x44, 0x44, 0x44, 0x44, 0x44, 0x44, 0x44, 0x44, 0x44, 0x44, 0x44,
            0x44, 0x44, 0x44, 0x44, 0x44, 0x44, 0x44, 0x44, 0x44, 0x44,
        ],
        0x1,
    );
}

#[test]
fn test_llvm_tcp_port80_no_match() {
    check_raw(
        &PROG_TCP_PORT_80,
        &[
            0x00, 0x01, 0x02, 0x03, 0x04, 0x05, 0x00, 0x06, 0x07, 0x08, 0x09, 0x0a, 0x08, 0x00, 0x45,
            0x00, 0x00, 0x56, 0x00, 0x01, 0x00, 0x00, 0x40, 0x06, 0xf9, 0x4d, 0xc0, 0xa8, 0x00, 0x01,
            0xc0, 0xa8, 0x00, 0x02, 0x00, 0x16, 0x27, 0x10, 0x00, 0x00, 0x00, 0x00, 0x00, 0x00, 0x00,
            0x00, 0x51, 0x02, 0x20, 0x00, 0xc5, 0x18, 0x00, 0x00, 0x44, 0x44, 0x44, 0x44, 0x44, 0x44,
            0x44, 0x44, 0x44, 0x44, 0x44, 0x44, 0x44, 0x44, 0x44, 0x44, 0x44, 0x44, 0x44, 0x44, 0x44,
            0x44, 0x44, 0x44, 0x44, 0x44, 0x44, 0x44, 0x44, 0x44, 0x44, 0x44, 0x44, 0x44, 0x44, 0x44,
            0x44, 0x44, 0x44, 0x44, 0x44, 0x44, 0x44, 0x44, 0x44, 0x44,
        ],
        0x0,
    );
}

#[test]
fn test_llvm_tcp_port80_no_match_ethertype() {
    check_raw(
        &PROG_TCP_PORT_80,
        &[
            0x00, 0x01, 0x02, 0x03, 0x04, 0x05, 0x00, 0x06, 0x07, 0x08, 0x09, 0x0a, 0x08, 0x01, 0x45,
            0x00, 0x00, 0x56, 0x00, 0x01, 0x00, 0x00, 0x40, 0x06, 0xf9, 0x4d, 0xc0, 0xa8, 0x00, 0x01,
            0xc0, 0xa8, 0x00, 0x02, 0x27, 0x10, 0x00, 0x50, 0x00, 0x00, 0x00, 0x00, 0x00, 0x00, 0x00,
            0x00, 0x50, 0x02, 0x20, 0x00, 0xc5, 0x18, 0x00, 0x00, 0x44, 0x44, 0x44, 0x44, 0x44, 0x44,
            0x44, 0x44, 0x44, 0x44, 0x44, 0x44, 0x44, 0x44, 0x44, 0x44, 0x44, 0x44, 0x44, 0x44, 0x44,
            0x44, 0x44, 0x44, 0x44, 0x44, 0x44, 0x44, 0x44, 0x44, 0x44, 0x44, 0x44, 0x44, 0x44, 0x44,
            0x44, 0x44, 0x44, 0x44, 0x44, 0x44, 0x44, 0x44, 0x44, 0x44,
        ],
        0x0,
    );
}

#[test]
fn test_llvm_tcp_port80_no_match_proto() {
    check_raw(
        &PROG_TCP_PORT_80,
        &[
            0x00, 0x01, 0x02, 0x03, 0x04, 0x05, 0x00, 0x06, 0x07, 0x08, 0x09, 0x0a, 0x08, 0x00, 0x45,
            0x00, 0x00, 0x56, 0x00, 0x01, 0x00, 0x00, 0x40, 0x11, 0xf9, 0x4d, 0xc0, 0xa8, 0x00, 0x01,
            0xc0, 0xa8, 0x00, 0x02, 0x27, 0x10, 0x00, 0x50, 0x00, 0x00, 0x00, 0x00, 0x00, 0x00, 0x00,
            0x00, 0x50, 0x02, 0x20, 0x00, 0xc5, 0x18, 0x00, 0x00, 0x44, 0x44, 0x44, 0x44, 0x44, 0x44,
            0x44, 0x44, 0x44, 0x44, 0x44, 0x44, 0x44, 0x44, 0x44, 0x44, 0x44, 0x44, 0x44, 0x44, 0x44,
            0x44, 0x44, 0x44, 0x44, 0x44, 0x44, 0x44, 0x44, 0x44, 0x44, 0x44, 0x44, 0x44, 0x44, 0x44,
            0x44, 0x44, 0x44, 0x44, 0x44, 0x44, 0x44, 0x44, 0x44, 0x44,
        ],
        0x0,
    );
}

#[test]
fn helpers_get_r1_to_r5() {
    check(
        "
        mov r1, 1
        mov r2, 20
        mov r3, 300
        mov r4, 4000
        mov r5, 50000
        mov r6, 600000
        call 7
        exit
        ",
        &[],
        54321,
    );
}

#[test]
fn registers_at_the_start() {
    // R1 holds the start of the packet, R2 its end, R10 the end of the stack
    let context = Context::create();
    for (text, start) in [("mov r0, r1", MEM), ("mov r0, r2", MEM + 3), ("mov r0, r10", STACK + 512)] {
        let prog = [assemble(text), assemble("exit")].concat();
        let compiler = compiled(&prog, &context);
        assert_eq!(run(&compiler.code.insts, [MEM, 3, 0, 0], &mut HashMap::new()), start);
    }
    check("mov r0, r2\nsub r0, r1\nexit", &[1, 2, 3], 3);
    check("exit", &[1, 2, 3], 0);
    check("mov r0, r9\nexit", &[1, 2, 3], 0);
}

#[test]
fn stores_of_each_width() {
    let mem = check(
        "
        lddw r3, 0x1122334455667788
        stxdw [r1+0], r3
        stxw [r1+8], r3
        stxh [r1+12], r3
        stxb [r1+14], r3
        stdw [r1+16], -2
        stw [r1+24], -3
        sth [r1+28], -4
        stb [r1+30], -5
        exit
        ",
        &[0; 32],
        0,
    );
    let bytes: Vec<u8> = (0..32).map(|k| mem[&(MEM + k)]).collect();
    assert_eq!(bytes[..8], 0x1122334455667788u64.to_le_bytes());
    assert_eq!(bytes[8..12], 0x55667788u32.to_le_bytes());
    assert_eq!(bytes[12..16], [0x88, 0x77, 0x88, 0]);
    assert_eq!(bytes[16..24], (-2i64).to_le_bytes());
    assert_eq!(bytes[24..28], (-3i32).to_le_bytes());
    assert_eq!(bytes[28..32], [0xfc, 0xff, 0xfb, 0]);
}

#[test]
fn stack_is_memory() {
    let mut prog = assemble("mov r3, 77");
    // stxdw [r10-8], r3 and ldxdw r0, [r10-8]
    prog.extend(insn(0x7b, 10, 3, -8, 0));
    prog.extend(insn(0x79, 0, 10, -8, 0));
    prog.extend(assemble("exit"));
    check_raw(&prog, &[], 77);
}

#[test]
fn packet_loads() {
    // LD_ABS_H r0 at offset 1; LD_IND_B r0 at offset 1 plus R3
    let mut prog = insn(0x28, 0, 0, 1, 0);
    prog.extend(assemble("exit"));
    check_raw(&prog, &[0x10, 0x11, 0x12, 0x13], 0x1211);
    let mut prog = assemble("mov r3, 2");
    prog.extend(insn(0x50, 0, 3, 1, 0));
    prog.extend(assemble("exit"));
    check_raw(&prog, &[0x10, 0x11, 0x12, 0x13], 0x13);
}

#[test]
fn loops_jump_back() {
    check(
        "
        mov r0, 0
        mov r1, 10
        add r0, r1
        sub r1, 1
        jne r1, 0, -3
        exit
        ",
        &[],
        55,
    );
    // The first instruction starts a block of its own
    check("add r0, 3\njlt r0, 10, -2\nexit", &[], 12);
}

#[test]
fn jumps_compare_32_bits() {
    // 1 << 32 is not zero, but its low half is
    check("mov r3, 1\nlsh r3, 32\njeq r3, 0, +1\nexit\nmov r0, 1\nexit", &[], 1);
    check("mov r3, 1\nlsh r3, 32\njeq32 r3, 0, +1\nexit\nmov r0, 1\nexit", &[], 1);
}

#[test]
fn negation() {
    check("mov r0, 5\nneg r0\nexit", &[], 0xfffffffffffffffb);
    check("mov r0, 5\nneg32 r0\nexit", &[], 0xfffffffb);
    check("mov r0, 0\nneg r0\nexit", &[], 0);
}

#[test]
fn remainder_by_an_immediate_zero_changes_nothing() {
    check("lddw r0, 0x500000006\nmod32 r0, 0\nexit", &[], 0x500000006);
    check("lddw r0, 0x500000006\nmod r0, 0\nexit", &[], 0x500000006);
    check("lddw r0, 0x500000006\nmov r1, 0\nmod32 r0, r1\nexit", &[], 6);
    check("lddw r0, 0x500000007\nmod32 r0, 4\nexit", &[], 3);
    check("lddw r0, 0x500000007\nmov r1, 4\nmod r0, r1\nexit", &[], 3);
}

#[test]
fn swaps_to_little_endian_change_nothing() {
    check("lddw r0, 0x1122334455667788\nle16 r0\nexit", &[], 0x1122334455667788);
    check("lddw r0, 0x1122334455667788\nle64 r0\nexit", &[], 0x1122334455667788);
    check("lddw r0, 0x1122334455667788\nbe16 r0\nexit", &[], 0x8877);
}

#[test]
fn second_program_goes_on_in_the_function() {
    let context = Context::create();
    let helpers: HashMap<u32, ()> = HashMap::new();
    let mut compiler = LLVMCompiler::with_byte_order(helpers, &context, ByteOrder::Little);
    compiler.compile_function(&assemble("mov r0, 1")).unwrap();
    compiler.compile_function(&assemble("add r0, 2\nexit")).unwrap();
    let res = run(&compiler.code.insts, [MEM, 0, 0, 0], &mut HashMap::new());
    assert_eq!(res, 3);
    assert_eq!(execute(&mut compiler, &context, &[]).0, 3);
}

#[test]
fn shift_amounts_are_cut_to_the_width() {
    check("mov32 r0, 3\nlsh32 r0, 33\nexit", &[], 6);
    check("mov32 r0, 6\nmov r1, 33\nrsh32 r0, r1\nexit", &[], 3);
    check("mov32 r0, 0x80000000\nlddw r1, 0x100000024\narsh32 r0, r1\nexit", &[], 0xf8000000);
    check("mov r0, 3\nlsh r0, 65\nexit", &[], 6);
    check("mov r0, 6\nmov r1, -63\nrsh r0, r1\nexit", &[], 3);
    check("mov r0, -8\nmov r1, 66\narsh r0, r1\nexit", &[], 0xfffffffffffffffe);
    check("mov r0, 3\nmov r1, 64\nlsh r0, r1\nexit", &[], 3);
}

#[test]
fn narrow_results_clear_the_high_half() {
    check("mov r0, 0\nsub32 r0, 1\nexit", &[], 0xffffffff);
    check("mov r0, 2\nmov r1, 5\nsub32 r0, r1\nexit", &[], 0xfffffffd);
    check("mov r0, 3\nmul32 r0, -1\nexit", &[], 0xfffffffd);
    check("mov r0, 0x10000\nmov r1, 0x8000\nmul32 r0, r1\nexit", &[], 0x80000000);
    check("mov r0, -1\nadd32 r0, 0\nexit", &[], 0xffffffff);
    check("mov r0, -1\nor32 r0, 0\nexit", &[], 0xffffffff);
}
