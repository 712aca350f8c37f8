use bpf_llvm::compiler::{accepted, LLVMCompiler};
use bpf_llvm::error::Error;
use bpf_llvm::word::ByteOrder;
use inkwell::context::Context;
use inkwell::memory_buffer::MemoryBuffer;
use inkwell::module::Module;
use std::collections::HashMap;

const EXIT: [u8; 8] = [0x95, 0, 0, 0, 0, 0, 0, 0];

fn call(id: u8) -> [u8; 8] {
    [0x85, 0, 0, 0, id, 0, 0, 0]
}

fn keys(ids: &[u32]) -> HashMap<u32, ()> {
    ids.iter().map(|id| (*id, ())).collect()
}

#[test]
fn t1() {
    let ctx = Context::create();
    let mut compiler = LLVMCompiler::new(keys(&[]), &ctx).unwrap();
    let bc = compiler.compile_function(&EXIT).unwrap();
    let membuf = MemoryBuffer::create_from_memory_range(&bc, "t");
    let fresh = Context::create();
    let m = Module::parse_bitcode_from_buffer(&membuf, &fresh).unwrap();
    let main = m.get_function("main").unwrap();
    assert_eq!(main.count_params(), 4);
    assert_eq!(main.count_basic_blocks(), 2);
}

#[test]
fn byte_order_is_the_machines() {
    let ctx = Context::create();
    let compiler = LLVMCompiler::new(keys(&[]), &ctx).unwrap();
    let little = 1u16.to_ne_bytes() == [1, 0];
    let order = if little { ByteOrder::Little } else { ByteOrder::Big };
    assert_eq!(compiler.byte_ordering, order);
}

#[test]
fn functions_of_a_new_module() {
    let ctx = Context::create();
    let compiler = LLVMCompiler::with_byte_order(keys(&[3, 40]), &ctx, ByteOrder::Little);
    let module = &compiler.unit.module;
    assert_eq!(module.get_name().to_str(), Ok("ebpf_module"));
    for name in ["llvm.bswap.i16", "llvm.bswap.i32", "llvm.bswap.i64"] {
        assert_eq!(module.get_function(name).unwrap().count_params(), 1);
    }
    for name in ["helper_3", "helper_40"] {
        assert_eq!(module.get_function(name).unwrap().count_params(), 5);
    }
    assert!(module.get_function("helper_4").is_none());
    assert_eq!(module.get_function("main").unwrap().count_params(), 4);
    assert_eq!(compiler.unit.slots.len(), 11);
    for i in 0..11 {
        for j in 0..i {
            assert_ne!(compiler.unit.slots[i], compiler.unit.slots[j]);
        }
    }
    let mut declared = compiler.unit.declared.clone();
    declared.sort();
    assert_eq!(declared, [3, 40]);
}

#[test]
fn text_of_the_prologue() {
    let ctx = Context::create();
    let compiler = LLVMCompiler::with_byte_order(keys(&[]), &ctx, ByteOrder::Little);
    let ir = compiler.print_ir();
    for line in [
        "define i64 @main(i8* %mem_start, i64 %0, i8* %umem_start, i64 %1) {",
        "entry:",
        "  %r0 = alloca i64",
        "  %r10 = alloca i64",
        "  %mem_end = add i64 %2, %0",
        "  %umem_end = add i64 %3, %1",
        "  %stack_slot = alloca [512 x i8]",
        "  %stack_start_addr = ptrtoint [512 x i8]* %stack_slot to i64",
        "  %stack_end_addr = add i64 %stack_start_addr, 512",
        "  store i64 0, i64* %r0, align 8",
        "  store i64 %2, i64* %r1, align 8",
        "  store i64 %mem_end, i64* %r2, align 8",
        "  store i64 %stack_end_addr, i64* %r10, align 8",
    ] {
        assert!(ir.contains(line), "{} is missing in\n{}", line, ir);
    }
}

#[test]
fn text_of_each_instruction() {
    let ctx = Context::create();
    let mut compiler = LLVMCompiler::with_byte_order(keys(&[5]), &ctx, ByteOrder::Little);
    let prog = [
        [0x0f, 0x21, 0, 0, 0, 0, 0, 0],
        [0x1f, 0x21, 0, 0, 0, 0, 0, 0],
        [0x2f, 0x21, 0, 0, 0, 0, 0, 0],
        [0x3c, 0x21, 0, 0, 0, 0, 0, 0],
        [0x4f, 0x21, 0, 0, 0, 0, 0, 0],
        [0x5f, 0x21, 0, 0, 0, 0, 0, 0],
        [0x6f, 0x21, 0, 0, 0, 0, 0, 0],
        [0x7f, 0x21, 0, 0, 0, 0, 0, 0],
        [0x9f, 0x21, 0, 0, 0, 0, 0, 0],
        [0xaf, 0x21, 0, 0, 0, 0, 0, 0],
        [0xcf, 0x21, 0, 0, 0, 0, 0, 0],
        [0x87, 0x01, 0, 0, 0, 0, 0, 0],
        [0xdc, 0x01, 0, 0, 16, 0, 0, 0],
        [0x69, 0x21, 4, 0, 0, 0, 0, 0],
        [0x6b, 0x21, 4, 0, 0, 0, 0, 0],
        call(5),
        [0xa5, 0x01, 0, 0, 9, 0, 0, 0],
        EXIT,
    ]
    .concat();
    compiler.compile_function(&prog).unwrap();
    let ir = compiler.print_ir();
    for part in [
        "%add64_reg = add i64 ",
        "%sub64_reg = sub i64 ",
        "%mul64_reg = mul i64 ",
        "%rhs_is_zero = icmp eq i32 ",
        "%safe_rhs = select i1 %rhs_is_zero, i32 1, i32 ",
        "%div32_reg = udiv i32 ",
        "%res = select i1 %rhs_is_zero, i32 0, i32 %div32_reg",
        "%val32 = and i32 %res, -1",
        "%val32_z_ext = zext i32 %val32 to i64",
        "%or64_reg = or i64 ",
        "%and64_reg = and i64 ",
        "%lsh64_reg = shl i64 ",
        "%rsh64_reg = lshr i64 ",
        "%mod64_reg = urem i64 ",
        "%xor64_reg = xor i64 ",
        "%arsh64_reg = ashr i64 ",
        "%neg32 = sub i64 0, ",
        "%bswap16 = call i16 @llvm.bswap.i16(i16 ",
        "%masked_val = and i64 %val, 65535",
        "%addr_with_addr = add i64 ",
        "%loaded = load i16, i16* ",
        "%ext = zext i16 %loaded to i64",
        "%narrow = trunc i64 ",
        "store i16 %narrow, i16* ",
        "%call_5 = call i64 @helper_5(i64 %arg1, i64 %arg2, i64 %arg3, i64 %arg4, i64 %arg5)",
        "store i64 %call_5, i64* %r0, align 8",
        "%cmp_res = icmp ult i32 ",
        "br i1 %cmp_res, label %block_0, label %block_0",
        "block_0:",
        "%ret_val = load i64, i64* %r0, align 8",
        "ret i64 %ret_val",
    ] {
        assert!(ir.contains(part), "{} is missing in\n{}", part, ir);
    }
}

// The text of the module that one instruction and an exit become
fn text_of(insn: [u8; 8]) -> String {
    let ctx = Context::create();
    let mut compiler = LLVMCompiler::with_byte_order(keys(&[5]), &ctx, ByteOrder::Little);
    compiler.compile_function(&[insn, EXIT].concat()).unwrap();
    compiler.print_ir()
}

#[test]
fn operands_stand_in_order() {
    let r2_to_r1 = |opc: u8| [opc, 0x21, 0, 0, 0, 0, 0, 0];
    let lines = [
        (r2_to_r1(0x0f), "%add64_reg = add i64 %dst_val, %src_val\n"),
        (r2_to_r1(0x1f), "%sub64_reg = sub i64 %dst_val, %src_val\n"),
        (r2_to_r1(0x2f), "%mul64_reg = mul i64 %dst_val, %src_val\n"),
        (r2_to_r1(0x3f), "%rhs_is_zero = icmp eq i64 %src_val, 0\n"),
        (r2_to_r1(0x3f), "%safe_rhs = select i1 %rhs_is_zero, i64 1, i64 %src_val\n"),
        (r2_to_r1(0x3f), "%div64_reg = udiv i64 %dst_val, %safe_rhs\n"),
        (r2_to_r1(0x3f), "%res = select i1 %rhs_is_zero, i64 0, i64 %div64_reg\n"),
        (r2_to_r1(0x9f), "%mod64_reg = urem i64 %dst_val, %safe_rhs\n"),
        (r2_to_r1(0x9f), "%res = select i1 %rhs_is_zero, i64 %dst_val, i64 %mod64_reg\n"),
        (r2_to_r1(0x4f), "%or64_reg = or i64 %dst_val, %src_val\n"),
        (r2_to_r1(0x5f), "%and64_reg = and i64 %dst_val, %src_val\n"),
        (r2_to_r1(0xaf), "%xor64_reg = xor i64 %dst_val, %src_val\n"),
        (r2_to_r1(0x6f), "%lsh64_reg = shl i64 %dst_val, %amount\n"),
        (r2_to_r1(0x7f), "%rsh64_reg = lshr i64 %dst_val, %amount\n"),
        (r2_to_r1(0xcf), "%arsh64_reg = ashr i64 %dst_val, %amount\n"),
        (r2_to_r1(0x6f), "%amount = and i64 %src_val, 63\n"),
        (r2_to_r1(0x6c), "%amount = and i32 %src_val, 31\n"),
        ([0x74, 1, 0, 0, 33, 0, 0, 0], "%rsh32_imm = lshr i32 %dst_val, 1\n"),
        (r2_to_r1(0x87), "%neg32 = sub i64 0, %dst_val\n"),
        (r2_to_r1(0x1f), "%dst_val = load i64, i64* %r1, align 8\n"),
        (r2_to_r1(0x1f), "%src_val = load i64, i64* %r2, align 8\n"),
        (r2_to_r1(0x1f), "store i64 %sub64_reg, i64* %r1, align 8\n"),
        (r2_to_r1(0x1c), "%val32 = and i32 %sub32_reg, -1\n"),
        (r2_to_r1(0x1c), "store i64 %val32_z_ext, i64* %r1"),
        ([0x17, 1, 0, 0, 7, 0, 0, 0], "%sub64_imm = sub i64 %dst_val, 7\n"),
        ([0x14, 1, 0, 0, 0xfe, 0xff, 0xff, 0xff], "%sub32_imm = sub i32 %dst_val, -2\n"),
        ([0xb7, 1, 0, 0, 0xfe, 0xff, 0xff, 0xff], "store i64 -2, i64* %r1, align 8\n"),
        ([0xdc, 1, 0, 0, 64, 0, 0, 0], "%bswap64 = call i64 @llvm.bswap.i64(i64 %dst_val)\n"),
        ([0xdc, 1, 0, 0, 32, 0, 0, 0], "%bswap32 = call i32 @llvm.bswap.i32(i32 %dst_val)\n"),
        ([0xdc, 1, 0, 0, 32, 0, 0, 0], "%val = zext i32 %bswap32 to i64\n"),
        ([0x71, 0x21, 9, 0, 0, 0, 0, 0], "%addr_with_addr = add i64 %src_val, 9\n"),
        ([0x71, 0x21, 9, 0, 0, 0, 0, 0], " = inttoptr i64 %addr_with_addr to i8*\n"),
        ([0x71, 0x21, 9, 0, 0, 0, 0, 0], "%ext = zext i8 %loaded to i64\n"),
        ([0x63, 0x21, 9, 0, 0, 0, 0, 0], "%narrow = trunc i64 %src_val to i32\n"),
        ([0x63, 0x21, 9, 0, 0, 0, 0, 0], "%addr = add i64 %dst_val, 9\n"),
        ([0x63, 0x21, 9, 0, 0, 0, 0, 0], " = inttoptr i64 %addr to i32*\n"),
        ([0x38, 0x01, 9, 0, 0, 0, 0, 0], "%addr = add i64 %2, 9\n"),
        ([0xc5, 1, 0, 0, 9, 0, 0, 0], "%cmp_res = icmp slt i32 %dst_val, 9\n"),
        ([0xc5, 1, 1, 0, 9, 0, 0, 0], "br i1 %cmp_res, label %block_1, label %block_0\n"),
        ([0x4d, 0x21, 1, 0, 0, 0, 0, 0], "%jset = and i32 %dst_val, %src_val\n"),
        ([0x4d, 0x21, 1, 0, 0, 0, 0, 0], "%jset_cond = icmp ne i32 %jset, 0\n"),
        ([0x05, 0, 1, 0, 0, 0, 0, 0], "br label %block_1\n"),
        (call(5), "%arg3 = load i64, i64* %r3, align 8\n"),
    ];
    for (insn, line) in lines {
        let ir = text_of(insn);
        assert!(ir.contains(line), "{} is missing in\n{}", line, ir);
    }
    let narrow = text_of(r2_to_r1(0x1c));
    assert!(narrow.contains(" = bitcast i64* %r1 to i32*\n"));
    assert!(narrow.contains(" = bitcast i64* %r2 to i32*\n"));
    assert!(narrow.contains("%dst_val = load i32, i32* "));
}

#[test]
fn text_of_each_comparison() {
    let words = [
        (0x15, "eq"),
        (0x25, "ugt"),
        (0x35, "uge"),
        (0x55, "ne"),
        (0x65, "sgt"),
        (0x75, "sge"),
        (0xa5, "ult"),
        (0xb5, "ule"),
        (0xc5, "slt"),
        (0xd5, "sle"),
    ];
    for (opc, word) in words {
        let ctx = Context::create();
        let mut compiler = LLVMCompiler::with_byte_order(keys(&[]), &ctx, ByteOrder::Little);
        let jump = [opc, 0x01, 0, 0, 9, 0, 0, 0];
        compiler.compile_function(&[jump, EXIT].concat()).unwrap();
        let part = format!("%cmp_res = icmp {} i32 ", word);
        assert!(compiler.print_ir().contains(&part));
    }
}

#[test]
fn block_after_the_last_jump_stays_empty() {
    let ctx = Context::create();
    let mut compiler = LLVMCompiler::with_byte_order(keys(&[5]), &ctx, ByteOrder::Little);
    // 0: jeq +1, 1: call, 2: ja -3
    let jumps = [[0x15, 0x01, 1, 0, 9, 0, 0, 0], [0x05, 0, 0xfd, 0xff, 0, 0, 0, 0]];
    let prog = [jumps[0], call(5), jumps[1]].concat();
    assert!(compiler.can_compile(&prog));
    compiler.compile_function(&prog).unwrap();
    let blocks = &compiler.unit.blocks;
    let empty = blocks[compiler.cfg.insn_blocks[&3]];
    for block in blocks {
        assert_eq!(block.get_terminator().is_none(), *block == empty);
    }
}

#[test]
fn unknown_helper_is_an_error() {
    let ctx = Context::create();
    let mut compiler = LLVMCompiler::with_byte_order(keys(&[5]), &ctx, ByteOrder::Little);
    let prog = [call(5), call(6), EXIT].concat();
    assert!(compiler.can_compile(&prog));
    assert_eq!(compiler.compile_function(&prog), Err(Error::UnknownHelper { id: 6 }));
    let ir = compiler.print_ir();
    assert!(ir.contains("%call_5 = "));
    assert!(!ir.contains("ret i64"));
}

#[test]
fn programs_that_cannot_be_compiled() {
    let ctx = Context::create();
    let compiler = LLVMCompiler::with_byte_order(keys(&[]), &ctx, ByteOrder::Little);
    assert!(compiler.can_compile(&EXIT));
    assert!(!compiler.can_compile(&EXIT[..3]));
    assert!(!compiler.can_compile(&[0xff, 0, 0, 0, 0, 0, 0, 0]));
    assert!(!compiler.can_compile(&[0x05, 0, 0xfe, 0xff, 0, 0, 0, 0]));
}

#[test]
fn rejected_bitcode() {
    assert_eq!(accepted(vec![1, 2], true), Ok(vec![1, 2]));
    assert_eq!(accepted(vec![1, 2], false), Err(Error::Rejected));
}

#[test]
fn linking_works_once() {
    let ctx = Context::create();
    let mut compiler = LLVMCompiler::new(keys(&[5, 6]), &ctx).unwrap();
    compiler.compile_function(&[call(5), EXIT].concat()).unwrap();
    let addrs: HashMap<u32, usize> = [(5, 0x1234)].into_iter().collect();
    let engine = compiler.link(&addrs).unwrap();
    // The call of the helper function can be resolved
    assert_ne!(engine.get_function_address("main").unwrap(), 0);
    assert!(engine.get_function_address("other").is_err());
    assert!(matches!(compiler.link(&addrs), Err(Error::NoEngine)));
}
