//! What LLVM is asked for an instruction is what the instruction does.
//!
//! A request speaks of handles. The laws here take the words that the handles
//! stand for, and say of each request what it has to make of them.
use crate::arith::{
    congruent, is_arith, is_taken, law_alu, law_cond, lemma_cut, lemma_two_to, two_to,
};
use crate::ebpf::{AluOp, Cond};
use crate::emit::{request_of, value_ok};
use crate::ir::{
    effect, enter, fits, has_ty, result_ty, step, BinOp, Inst, Op, Pred, Run, State, Ty, World,
};
use crate::isa::{
    byte_of, byte_place, holds_bytes, lemma_loaded, lemma_slot_read, lemma_stored, lemma_swapped,
    slot_read,
};
use crate::llvm::{constant, int_ty, signature, Request, Signature, Unit};
use crate::machine::holds;
use crate::simulate::lemma_bin_is_alu;
use crate::translate::{bin_of, pred_of};
use crate::word::compare;
use inkwell::values::IntValue;
use vstd::prelude::*;

verus! {

/// Number of bits of an integer type.
pub open spec fn ty_bits(ty: Ty) -> int {
    match ty {
        Ty::I1 => 1,
        Ty::I8 => 8,
        Ty::I16 => 16,
        Ty::I32 => 32,
        Ty::I64 => 64,
    }
}

/// The number that an operation on integers has among the arithmetic operations.
pub open spec fn bin_number(op: BinOp) -> int {
    match op {
        BinOp::Add => 0,
        BinOp::Sub => 1,
        BinOp::Mul => 2,
        BinOp::UDiv => 3,
        BinOp::Or => 4,
        BinOp::And => 5,
        BinOp::Shl => 6,
        BinOp::LShr => 7,
        BinOp::URem => 9,
        BinOp::Xor => 10,
        BinOp::AShr => 12,
    }
}

/// The number that a comparison has among the conditions of jumps.
pub open spec fn pred_number(pred: Pred) -> int {
    match pred {
        Pred::Eq => 1,
        Pred::Ugt => 2,
        Pred::Uge => 3,
        Pred::Ne => 5,
        Pred::Sgt => 6,
        Pred::Sge => 7,
        Pred::Ult => 10,
        Pred::Ule => 11,
        Pred::Slt => 12,
        Pred::Sle => 13,
    }
}

/// Whether `r` is what a request makes of the words that its operands stand for.
pub open spec fn makes_of(rq: Request<'_>, w: spec_fn(IntValue<'_>) -> u64, r: int) -> bool {
    match rq {
        Request::Bin { op, lhs, rhs, .. } => {
            let bits = ty_bits(int_ty(lhs));
            &&& is_arith(bin_number(op), bits, w(lhs) as int, w(rhs) as int, r)
            &&& op == BinOp::UDiv || op == BinOp::URem ==> w(rhs) != 0
            &&& op == BinOp::Shl || op == BinOp::LShr || op == BinOp::AShr ==> w(rhs) < bits
        },
        Request::Neg { val, .. } => {
            let m = two_to(ty_bits(int_ty(val)));
            0 <= r < m && congruent(r + w(val), 0, m)
        },
        Request::ZExt { val, .. } => r == w(val),
        Request::Trunc { ty, val, .. } => r == w(val) as int % two_to(ty_bits(ty)),
        Request::Cmp { pred, lhs, rhs, .. } => r == if is_taken(
            pred_number(pred),
            two_to(ty_bits(int_ty(lhs))),
            w(lhs) as int,
            w(rhs) as int,
        ) {
            1int
        } else {
            0
        },
        Request::Select { cond, yes, no, .. } => r == if w(cond) == 1 {
            w(yes)
        } else {
            w(no)
        },
        _ => false,
    }
}

/// Whether instruction `i` can be asked for, and the handles of the results before
/// it stand for these results.
pub open spec fn told<'ctx>(
    u: Unit<'ctx>,
    code: Seq<Inst>,
    i: int,
    st: State,
    w: spec_fn(IntValue<'ctx>) -> u64,
) -> bool {
    &&& 0 <= i < code.len()
    &&& u.handles_ok()
    &&& u.values_ok(code)
    &&& fits(code.take(i), u.scope(), code[i].op)
    &&& forall|v: int|
        0 <= v < i && result_ty((#[trigger] code[v]).op) is Some ==> {
            &&& w(u.made@[v].value->0) == st.results[v]
            &&& st.results[v] < two_to(ty_bits(result_ty(code[v].op)->0))
        }
}

/// Whether an instruction only computes a word from words.
pub open spec fn is_computation(op: Op) -> bool {
    match op {
        Op::Bin { ty, .. } => ty == Ty::I32 || ty == Ty::I64,
        Op::Neg { ty, .. } => ty == Ty::I32 || ty == Ty::I64,
        Op::Cmp { ty, .. } => ty == Ty::I32 || ty == Ty::I64,
        Op::ZExt { .. } => true,
        Op::Trunc { .. } => true,
        Op::Select { .. } => true,
        _ => false,
    }
}

/// The arithmetic operation whose work an operation does.
spec fn alu_of(op: BinOp) -> AluOp {
    match op {
        BinOp::Add => AluOp::Add,
        BinOp::Sub => AluOp::Sub,
        BinOp::Mul => AluOp::Mul,
        BinOp::UDiv => AluOp::Div,
        BinOp::Or => AluOp::Or,
        BinOp::And => AluOp::And,
        BinOp::Shl => AluOp::Lsh,
        BinOp::LShr => AluOp::Rsh,
        BinOp::URem => AluOp::Mod,
        BinOp::Xor => AluOp::Xor,
        BinOp::AShr => AluOp::Arsh,
    }
}

/// The condition that a comparison decides.
spec fn cond_of(pred: Pred) -> Cond {
    match pred {
        Pred::Eq => Cond::Eq,
        Pred::Ne => Cond::Ne,
        Pred::Ugt => Cond::Gt,
        Pred::Uge => Cond::Ge,
        Pred::Ult => Cond::Lt,
        Pred::Ule => Cond::Le,
        Pred::Sgt => Cond::Sgt,
        Pred::Sge => Cond::Sge,
        Pred::Slt => Cond::Slt,
        Pred::Sle => Cond::Sle,
    }
}

/// An instruction that computes is one request, which makes of the operands what
/// the instruction has as its result, and which hands back the handle of that result.
/// Nothing else changes.
#[verifier::rlimit(60)]
#[verifier::spinoff_prover]
pub proof fn law_computation<'ctx>(
    u: Unit<'ctx>,
    code: Seq<Inst>,
    i: int,
    world: World,
    st: State,
    w: spec_fn(IntValue<'ctx>) -> u64,
)
    requires
        told(u, code, i, st, w),
        is_computation(code[i].op),
        effect(world, code[i].op, i, st) is Some,
    ensures
        ({
            let after = effect(world, code[i].op, i, st)->0;
            let asked = request_of(u, code[i], i);
            &&& asked.len() == 1
            &&& makes_of(asked[0], w, after.results[i] as int)
            &&& after.regs == st.regs
            &&& after.mem == st.mem
            &&& forall|v: int| v != i ==> #[trigger] after.results[v] == st.results[v]
            &&& match asked[0] {
                Request::Bin { res, .. } => res == u.made@[i].value->0,
                Request::Neg { res, .. } => res == u.made@[i].value->0,
                Request::ZExt { res, .. } => res == u.made@[i].value->0,
                Request::Trunc { res, .. } => res == u.made@[i].value->0,
                Request::Cmp { res, .. } => res == u.made@[i].value->0,
                Request::Select { res, .. } => res == u.made@[i].value->0,
                _ => false,
            }
        }),
{
    let before = code.take(i);
    lemma_two_to();
    assert forall|v: int| 0 <= v < i implies before[v] == #[trigger] code[v] by {}
    assert forall|v: int| 0 <= v < i implies value_ok(
        (#[trigger] code[v]).op,
        u.made@[v].value,
    ) by {}
    match code[i].op {
        Op::Bin { op, ty, lhs, rhs } => {
            assert(has_ty(before, lhs, ty) && has_ty(before, rhs, ty));
            assert(code[lhs as int] == before[lhs as int]);
            assert(code[rhs as int] == before[rhs as int]);
            let a = st.results[lhs as int];
            let b = st.results[rhs as int];
            let wide = ty == Ty::I64;
            assert(bin_of(alu_of(op)) == op);
            lemma_bin_is_alu(alu_of(op), wide, a, b);
            law_alu(alu_of(op), wide, a, b);
        },
        Op::Neg { ty, val } => {
            assert(code[val as int] == before[val as int]);
            lemma_cut(ty == Ty::I64, -(st.results[val as int] as int));
        },
        Op::Cmp { pred, ty, lhs, rhs } => {
            assert(has_ty(before, lhs, ty) && has_ty(before, rhs, ty));
            assert(code[lhs as int] == before[lhs as int]);
            assert(code[rhs as int] == before[rhs as int]);
            let a = st.results[lhs as int];
            let b = st.results[rhs as int];
            assert(pred_of(cond_of(pred)) == pred);
            assert(compare(pred, ty, a, b) == holds(cond_of(pred), ty, a, b));
            law_cond(cond_of(pred), ty == Ty::I64, a, b);
        },
        Op::ZExt { ty, val } => {
            assert(code[val as int] == before[val as int]);
        },
        Op::Trunc { ty, val } => {
            assert(code[val as int] == before[val as int]);
        },
        Op::Select { ty, cond, yes, no } => {
            assert(code[cond as int] == before[cond as int]);
            assert(code[yes as int] == before[yes as int]);
            assert(code[no as int] == before[no as int]);
        },
        _ => {},
    }
}

/// A constant needs no request: its handle is the constant that the instruction has as
/// its result, cut to the type.
pub proof fn law_constant<'ctx>(
    u: Unit<'ctx>,
    code: Seq<Inst>,
    i: int,
    world: World,
    st: State,
    w: spec_fn(IntValue<'ctx>) -> u64,
)
    requires
        told(u, code, i, st, w),
        code[i].op is Const,
    ensures
        ({
            let after = effect(world, code[i].op, i, st);
            let word = code[i].op->Const_bits as int % two_to(ty_bits(code[i].op->Const_ty));
            &&& request_of(u, code[i], i).len() == 0
            &&& after is Some
            &&& after->0 == (State { results: st.results.insert(i, word as u64), ..st })
            &&& constant(u.made@[i].value->0) == Some(word as u64)
        }),
{
    lemma_two_to();
    assert(value_ok(code[i].op, u.made@[i].value));
}

/// Where a function gets its words from: parameters are asked for by their numbers,
/// pointers among them become integers, and the stack is an area of as many bytes as
/// the instruction says.
pub proof fn law_sources<'ctx>(u: Unit<'ctx>, inst: Inst, i: int, world: World, st: State)
    requires
        inst.op is PtrParam || inst.op is IntParam || inst.op is Stack,
    ensures
        ({
            let after = effect(world, inst.op, i, st);
            let asked = request_of(u, inst, i);
            let res = u.made@[i].value->0;
            &&& after is Some
            &&& after->0.regs == st.regs
            &&& after->0.mem == st.mem
            &&& forall|v: int| v != i ==> #[trigger] after->0.results[v] == st.results[v]
            &&& match inst.op {
                Op::PtrParam { index } => {
                    &&& after->0.results[i] == world.params[index as int]
                    &&& asked.len() == 3
                    &&& asked[0] matches Request::PtrParam { function, index: n, ptr }
                    &&& asked[2] matches Request::PtrToInt { ptr: p, res: r, .. }
                    &&& function == u.function && n == index && p == ptr && r == res
                },
                Op::IntParam { index } => {
                    &&& after->0.results[i] == world.params[index as int]
                    &&& asked == seq![
                        Request::IntParam { function: u.function, index, res },
                    ]
                },
                Op::Stack { size } => {
                    &&& after->0.results[i] == world.stack
                    &&& asked.len() == 2
                    &&& asked[0] matches Request::Area { ty, len, ptr, .. }
                    &&& asked[1] matches Request::PtrToInt { ptr: p, res: r, .. }
                    &&& ty == Ty::I8 && len == size && p == ptr && r == res
                },
                _ => true,
            }
        }),
{
}

/// A register is read from its own slot: all of it, or the part of its slot that a
/// pointer to the narrower type finds.
pub proof fn law_register_read<'ctx>(u: Unit<'ctx>, inst: Inst, i: int, world: World, st: State)
    requires
        inst.op is LoadReg,
        inst.op->LoadReg_ty != Ty::I1,
    ensures
        ({
            let ty = inst.op->LoadReg_ty;
            let reg = inst.op->LoadReg_reg as int;
            let after = effect(world, inst.op, i, st);
            let asked = request_of(u, inst, i);
            &&& after is Some
            &&& after->0.regs == st.regs
            &&& after->0.mem == st.mem
            &&& forall|v: int| v != i ==> #[trigger] after->0.results[v] == st.results[v]
            &&& after->0.results[i] == slot_read(world.order, ty_bits(ty), st.regs[reg])
            &&& asked.len() == 2
            &&& if ty == Ty::I64 {
                &&& asked[0] matches Request::Load { ptr, res, .. }
                &&& ptr == u.slots@[reg] && res == u.made@[i].value->0
            } else {
                &&& asked[0] matches Request::PtrCast { ty: to, from, ptr, .. }
                &&& asked[1] matches Request::Load { ptr: p, res, .. }
                &&& to == ty && from == u.slots@[reg] && p == ptr
                &&& res == u.made@[i].value->0
            }
        }),
{
    lemma_slot_read(world.order, inst.op->LoadReg_ty, st.regs[inst.op->LoadReg_reg as int]);
}

/// A register is written to its own slot, and no other register changes.
pub proof fn law_register_write<'ctx>(
    u: Unit<'ctx>,
    code: Seq<Inst>,
    i: int,
    world: World,
    st: State,
    w: spec_fn(IntValue<'ctx>) -> u64,
)
    requires
        told(u, code, i, st, w),
        code[i].op is StoreReg,
        st.regs.len() == u.slots@.len(),
    ensures
        ({
            let reg = code[i].op->StoreReg_reg as int;
            let after = effect(world, code[i].op, i, st);
            let asked = request_of(u, code[i], i);
            &&& asked.len() >= 1
            &&& asked[0] matches Request::Store { ptr, val, .. }
            &&& ptr == u.slots@[reg]
            &&& after is Some
            &&& after->0.mem == st.mem
            &&& after->0.results == st.results
            &&& after->0.regs.len() == st.regs.len()
            &&& after->0.regs[reg] == w(val)
            &&& forall|r: int|
                0 <= r < st.regs.len() && r != reg ==> #[trigger] after->0.regs[r] == st.regs[r]
        }),
{
    let v = code[i].op->StoreReg_val as int;
    assert(has_ty(code.take(i), v as usize, Ty::I64));
    assert(code[v] == code.take(i)[v]);
}

/// A load asks for the integer of its type at the address that its operand stands for,
/// and has the bytes there as its result.
pub proof fn law_memory_read<'ctx>(
    u: Unit<'ctx>,
    code: Seq<Inst>,
    i: int,
    world: World,
    st: State,
    w: spec_fn(IntValue<'ctx>) -> u64,
)
    requires
        told(u, code, i, st, w),
        code[i].op is Load,
    ensures
        ({
            let after = effect(world, code[i].op, i, st);
            let asked = request_of(u, code[i], i);
            &&& asked.len() == 2
            &&& asked[0] matches Request::IntToPtr { ty, val, ptr, .. }
            &&& asked[1] matches Request::Load { ptr: p, res, .. }
            &&& ty == code[i].op->Load_ty && p == ptr && res == u.made@[i].value->0
            &&& after is Some
            &&& after->0.regs == st.regs
            &&& after->0.mem == st.mem
            &&& forall|v: int| v != i ==> #[trigger] after->0.results[v] == st.results[v]
            &&& after->0.results[i] < two_to(ty_bits(ty))
            &&& holds_bytes(
                world.order,
                st.mem,
                w(val),
                ty_bits(ty) / 8,
                after->0.results[i] as int,
            )
        }),
{
    let v = code[i].op->Load_addr as int;
    assert(has_ty(code.take(i), v as usize, Ty::I64));
    assert(code[v] == code.take(i)[v]);
    lemma_loaded(world.order, st.mem, st.results[v], code[i].op->Load_ty);
}

/// A store asks for its integer to go to the address that its operand stands for. If it
/// has an effect at all, the bytes there are those of the integer, and all other bytes
/// are as before.
pub proof fn law_memory_write<'ctx>(
    u: Unit<'ctx>,
    code: Seq<Inst>,
    i: int,
    world: World,
    st: State,
    w: spec_fn(IntValue<'ctx>) -> u64,
)
    requires
        told(u, code, i, st, w),
        code[i].op is Store,
    ensures
        ({
            let after = effect(world, code[i].op, i, st);
            let asked = request_of(u, code[i], i);
            &&& asked.len() >= 2
            &&& asked[0] matches Request::IntToPtr { ty, val: addr, ptr, .. }
            &&& asked[1] matches Request::Store { ptr: p, val, inst }
            &&& ty == code[i].op->Store_ty && p == ptr
            &&& code[i].op->Store_aligned ==> asked.len() == 3 && asked[2] == (Request::Align {
                inst,
                bytes: 8,
            })
            &&& !code[i].op->Store_aligned ==> asked.len() == 2
            &&& world.unaligned || !code[i].op->Store_aligned || w(addr) % 8 == 0 ==> after is Some
            &&& after is Some ==> {
                let n = ty_bits(ty) / 8;
                &&& after->0.regs == st.regs
                &&& after->0.results == st.results
                &&& holds_bytes(world.order, after->0.mem, w(addr), n, w(val) as int)
                &&& forall|at: u64|
                    (forall|k: int|
                        0 <= k < n ==> at != #[trigger] byte_place(world.order, w(addr), n, k))
                        ==> #[trigger] after->0.mem[at] == st.mem[at]
            }
        }),
{
    let a = code[i].op->Store_addr as int;
    let v = code[i].op->Store_val as int;
    assert(has_ty(code.take(i), a as usize, Ty::I64));
    assert(code[a] == code.take(i)[a]);
    assert(code[v] == code.take(i)[v]);
    lemma_stored(world.order, st.mem, st.results[a], code[i].op->Store_ty, st.results[v]);
}

/// A byte swap asks for a call of the function that swaps its type, and has the bytes of
/// the operand in opposite order as its result.
pub proof fn law_swap_call<'ctx>(
    u: Unit<'ctx>,
    code: Seq<Inst>,
    i: int,
    world: World,
    st: State,
    w: spec_fn(IntValue<'ctx>) -> u64,
)
    requires
        told(u, code, i, st, w),
        code[i].op is Bswap,
    ensures
        ({
            let after = effect(world, code[i].op, i, st);
            let asked = request_of(u, code[i], i);
            let ty = code[i].op->Bswap_ty;
            let n = ty_bits(ty) / 8;
            &&& asked.len() == 1
            &&& asked[0] matches Request::Call { function, args, res, .. }
            &&& signature(function) == (Signature::Swap { ty })
            &&& args.len() == 1
            &&& res == u.made@[i].value->0
            &&& after is Some
            &&& after->0.regs == st.regs
            &&& after->0.mem == st.mem
            &&& forall|v: int| v != i ==> #[trigger] after->0.results[v] == st.results[v]
            &&& after->0.results[i] < two_to(ty_bits(ty))
            &&& forall|k: int|
                0 <= k < n ==> #[trigger] byte_of(after->0.results[i] as int, k) == byte_of(
                    w(args[0]) as int,
                    n - 1 - k,
                )
        }),
{
    let v = code[i].op->Bswap_val as int;
    assert(code[v] == code.take(i)[v]);
    lemma_swapped(code[i].op->Bswap_ty, st.results[v]);
}

/// A call asks for a call of the helper function with its number, with the five
/// operands in order, and has what that function returns as its result.
pub proof fn law_helper_call<'ctx>(
    u: Unit<'ctx>,
    code: Seq<Inst>,
    i: int,
    world: World,
    st: State,
    w: spec_fn(IntValue<'ctx>) -> u64,
)
    requires
        told(u, code, i, st, w),
        code[i].op is Call,
    ensures
        ({
            let after = effect(world, code[i].op, i, st);
            let asked = request_of(u, code[i], i);
            let id = code[i].op->Call_helper;
            &&& asked.len() == 1
            &&& asked[0] matches Request::Call { function, args, res, .. }
            &&& function == u.helpers@[id]
            &&& args.len() == 5
            &&& res == u.made@[i].value->0
            &&& after is Some
            &&& after->0.regs == st.regs
            &&& forall|v: int| v != i ==> #[trigger] after->0.results[v] == st.results[v]
            &&& (after->0.results[i], after->0.mem) == (world.helper)(
                id,
                seq![w(args[0]), w(args[1]), w(args[2]), w(args[3]), w(args[4])],
                st.mem,
            )
        }),
{
    let args = code[i].op->Call_args;
    assert forall|k: int| 0 <= k < 5 implies (#[trigger] args[k]) < i && code[args[k] as int]
        == code.take(i)[args[k] as int] && result_ty(code[args[k] as int].op) is Some by {
        assert(has_ty(code.take(i), args[k], Ty::I64));
    }
    let asked = request_of(u, code[i], i);
    let given = asked[0]->Call_args;
    assert(args[0] < i && args[1] < i && args[2] < i && args[3] < i && args[4] < i);
    assert(crate::ir::arg_words(st, args) =~= seq![
        w(given[0]),
        w(given[1]),
        w(given[2]),
        w(given[3]),
        w(given[4]),
    ]);
}

/// Where a function goes on: a jump goes to the block that LLVM is asked to jump to, one
/// with a condition to the first of the two blocks if the condition is true, and a return
/// gives back the word that its operand stands for.
pub proof fn law_leaving<'ctx>(
    u: Unit<'ctx>,
    code: Seq<Inst>,
    i: int,
    world: World,
    st: State,
    w: spec_fn(IntValue<'ctx>) -> u64,
)
    requires
        told(u, code, i, st, w),
    ensures
        ({
            let next = step(code, world, Run::At { at: i, st });
            let asked = request_of(u, code[i], i);
            match code[i].op {
                Op::Br { .. } => exists|b: usize|
                    {
                        &&& b < u.blocks@.len()
                        &&& asked == seq![Request::Br { block: #[trigger] u.blocks@[b as int] }]
                        &&& next == enter(code, b, st)
                    },
                Op::CondBr { .. } => {
                    &&& asked.len() == 1
                    &&& asked[0] matches Request::CondBr { cond, target, fallthrough }
                    &&& exists|b: usize|
                        {
                            &&& b < u.blocks@.len()
                            &&& #[trigger] u.blocks@[b as int] == if w(cond) == 1 {
                                target
                            } else {
                                fallthrough
                            }
                            &&& next == enter(code, b, st)
                        }
                },
                Op::Ret { .. } => {
                    &&& asked.len() == 1
                    &&& asked[0] matches Request::Ret { val }
                    &&& next == (Run::Returned { word: w(val), mem: st.mem })
                },
                Op::Position { block } => {
                    asked == seq![Request::Position { block: u.blocks@[block as int] }]
                },
                _ => true,
            }
        }),
{
    match code[i].op {
        Op::Br { block } => {
            assert(u.blocks@[block as int] == u.blocks@[block as int]);
        },
        Op::CondBr { cond, yes, no } => {
            assert(code[cond as int] == code.take(i)[cond as int]);
            let b = if st.results[cond as int] == 1 {
                yes
            } else {
                no
            };
            assert(u.blocks@[b as int] == u.blocks@[b as int]);
        },
        Op::Ret { val } => {
            assert(code[val as int] == code.take(i)[val as int]);
        },
        _ => {},
    }
}

} // verus!
