//! The instructions that a translation consists of, and what they do.
//!
//! A translation is one list of instructions. `Position` names the basic block
//! that the instructions after it belong to. The other instructions are
//! numbered by their places in the list, and an operand is the number of the
//! instruction whose result it is.
//!
//! What the instructions do is a model of the instructions of LLVM. Registers
//! are kept in slots of their own, outside the memory that programs read and
//! write. A store that states an alignment of 8 is defined at addresses that
//! have it, and at all addresses where the machine does not mind; other accesses
//! are taken to work at any address.
use crate::word::{
    bin, compare, load_word, slot_part, store_word, swap_bytes, width, wrap, ByteOrder, Memory,
};
use vstd::prelude::*;

verus! {

/// An integer type.
#[derive(Clone, Copy, Debug, PartialEq, Eq, Structural)]
pub enum Ty {
    I1,
    I8,
    I16,
    I32,
    I64,
}

/// A binary operation on two integers of one type.
#[derive(Clone, Copy, Debug, PartialEq, Eq, Structural)]
pub enum BinOp {
    Add,
    Sub,
    Mul,
    UDiv,
    URem,
    And,
    Or,
    Xor,
    Shl,
    LShr,
    AShr,
}

/// A comparison of two integers of one type.
#[derive(Clone, Copy, Debug, PartialEq, Eq, Structural)]
pub enum Pred {
    Eq,
    Ne,
    Ugt,
    Uge,
    Ult,
    Ule,
    Sgt,
    Sge,
    Slt,
    Sle,
}

/// What an instruction does.
#[derive(Clone, Copy, Debug, PartialEq, Eq)]
pub enum Op {
    /// The constant `bits`, cut to the type.
    Const { ty: Ty, bits: u64 },
    /// A parameter of the function that is a pointer, as an integer.
    PtrParam { index: u32 },
    /// A parameter of the function that is an integer.
    IntParam { index: u32 },
    /// The address of a fresh area of `size` bytes on the stack.
    Stack { size: u32 },
    /// The low or high part, or all, of the slot of a register.
    LoadReg { ty: Ty, reg: usize },
    /// Fills the slot of a register; `aligned` states its alignment.
    StoreReg { reg: usize, val: usize, aligned: bool },
    /// The integer in memory at an address.
    Load { ty: Ty, addr: usize },
    /// Writes an integer to memory; `aligned` states that the address is a
    /// multiple of 8. Where it is not, the write is undefined, unless the machine
    /// does not mind.
    Store { ty: Ty, addr: usize, val: usize, aligned: bool },
    /// A binary operation.
    Bin { op: BinOp, ty: Ty, lhs: usize, rhs: usize },
    /// The negation.
    Neg { ty: Ty, val: usize },
    /// The same number in a wider type.
    ZExt { ty: Ty, val: usize },
    /// The low end of a number, in a narrower type.
    Trunc { ty: Ty, val: usize },
    /// The result of a comparison, of type `I1`.
    Cmp { pred: Pred, ty: Ty, lhs: usize, rhs: usize },
    /// One of two values, by a condition.
    Select { ty: Ty, cond: usize, yes: usize, no: usize },
    /// The bytes of a number in opposite order.
    Bswap { ty: Ty, val: usize },
    /// The result of a helper function.
    Call { helper: u32, args: [usize; 5] },
    /// A jump to a block.
    Br { block: usize },
    /// A jump to one of two blocks, by a condition.
    CondBr { cond: usize, yes: usize, no: usize },
    /// A return from the function.
    Ret { val: usize },
    /// The instructions that follow are added at the end of this block.
    Position { block: usize },
}

/// An instruction: what it does, and the name of its result.
#[derive(Clone, Copy, Debug, PartialEq, Eq)]
pub struct Inst {
    pub op: Op,
    pub name: &'static str,
}

/// The type of the result of an instruction, if it has one.
pub open spec fn result_ty(op: Op) -> Option<Ty> {
    match op {
        Op::Const { ty, .. } => Some(ty),
        Op::PtrParam { .. } => Some(Ty::I64),
        Op::IntParam { .. } => Some(Ty::I64),
        Op::Stack { .. } => Some(Ty::I64),
        Op::LoadReg { ty, .. } => Some(ty),
        Op::StoreReg { .. } => None,
        Op::Load { ty, .. } => Some(ty),
        Op::Store { .. } => None,
        Op::Bin { ty, .. } => Some(ty),
        Op::Neg { ty, .. } => Some(ty),
        Op::ZExt { ty, .. } => Some(ty),
        Op::Trunc { ty, .. } => Some(ty),
        Op::Cmp { .. } => Some(Ty::I1),
        Op::Select { ty, .. } => Some(ty),
        Op::Bswap { ty, .. } => Some(ty),
        Op::Call { .. } => Some(Ty::I64),
        Op::Br { .. } => None,
        Op::CondBr { .. } => None,
        Op::Ret { .. } => None,
        Op::Position { .. } => None,
    }
}

/// Whether the instruction numbered `val` has a result of type `ty`.
pub open spec fn has_ty(code: Seq<Inst>, val: usize, ty: Ty) -> bool {
    val < code.len() && result_ty(code[val as int].op) == Some(ty)
}

/// Whether the instruction numbered `val` has a result narrower than `ty`.
pub open spec fn narrower(code: Seq<Inst>, val: usize, ty: Ty) -> bool {
    &&& val < code.len()
    &&& result_ty(code[val as int].op) is Some
    &&& width(result_ty(code[val as int].op)->0) < width(ty)
}

/// Whether the instruction numbered `val` has a result wider than `ty`.
pub open spec fn wider(code: Seq<Inst>, val: usize, ty: Ty) -> bool {
    &&& val < code.len()
    &&& result_ty(code[val as int].op) is Some
    &&& width(result_ty(code[val as int].op)->0) > width(ty)
}

/// What the instructions of a function may refer to besides each other.
pub struct Scope {
    /// Number of basic blocks.
    pub blocks: nat,
    /// Number of register slots.
    pub slots: nat,
    /// The helper functions that have been declared.
    pub helpers: Set<u32>,
}

/// Whether `op` may follow the instructions `code`: its operands are earlier
/// results of the types it needs, and what else it names exists.
pub open spec fn fits(code: Seq<Inst>, scope: Scope, op: Op) -> bool {
    match op {
        Op::Const { .. } => true,
        Op::PtrParam { index } => index == 0 || index == 2,
        Op::IntParam { index } => index == 1 || index == 3,
        Op::Stack { .. } => true,
        Op::LoadReg { ty, reg } => reg < scope.slots && ty != Ty::I1,
        Op::StoreReg { reg, val, .. } => reg < scope.slots && has_ty(code, val, Ty::I64),
        Op::Load { ty, addr } => ty != Ty::I1 && has_ty(code, addr, Ty::I64),
        Op::Store { ty, addr, val, .. } => {
            &&& ty != Ty::I1
            &&& has_ty(code, addr, Ty::I64)
            &&& has_ty(code, val, ty)
        },
        Op::Bin { ty, lhs, rhs, .. } => has_ty(code, lhs, ty) && has_ty(code, rhs, ty),
        Op::Neg { ty, val } => has_ty(code, val, ty),
        Op::ZExt { ty, val } => narrower(code, val, ty),
        Op::Trunc { ty, val } => wider(code, val, ty),
        Op::Cmp { ty, lhs, rhs, .. } => has_ty(code, lhs, ty) && has_ty(code, rhs, ty),
        Op::Select { ty, cond, yes, no } => {
            &&& has_ty(code, cond, Ty::I1)
            &&& has_ty(code, yes, ty)
            &&& has_ty(code, no, ty)
        },
        Op::Bswap { ty, val } => {
            &&& ty == Ty::I16 || ty == Ty::I32 || ty == Ty::I64
            &&& has_ty(code, val, ty)
        },
        Op::Call { helper, args } => {
            &&& scope.helpers.contains(helper)
            &&& forall|k: int| 0 <= k < 5 ==> has_ty(code, #[trigger] args[k], Ty::I64)
        },
        Op::Br { block } => block < scope.blocks,
        Op::CondBr { cond, yes, no } => {
            &&& has_ty(code, cond, Ty::I1)
            &&& yes < scope.blocks
            &&& no < scope.blocks
        },
        Op::Ret { val } => has_ty(code, val, Ty::I64),
        Op::Position { block } => block < scope.blocks,
    }
}

/// Whether every instruction may stand where it stands.
pub open spec fn well_typed(code: Seq<Inst>, scope: Scope) -> bool {
    forall|i: int| 0 <= i < code.len() ==> fits(code.take(i), scope, (#[trigger] code[i]).op)
}

/// Whether the instruction leaves its block.
pub open spec fn is_terminator(op: Op) -> bool {
    op is Br || op is CondBr || op is Ret
}

/// What a run of a function depends on besides its instructions.
pub struct World {
    /// The byte order of the machine.
    pub order: ByteOrder,
    /// The parameters of the function; pointers as their addresses.
    pub params: Seq<u64>,
    /// Whether the machine writes at any address, also where the address was
    /// said to be aligned and is not.
    pub unaligned: bool,
    /// The address at which the area on the stack is placed.
    pub stack: u64,
    /// What a helper function returns, given its five arguments and the
    /// memory, and the memory that it leaves.
    pub helper: spec_fn(u32, Seq<u64>, Memory) -> (u64, Memory),
}

/// What changes while a function runs.
pub struct State {
    /// The latest results of the instructions, by number.
    pub results: Map<int, u64>,
    /// The register slots.
    pub regs: Seq<u64>,
    /// The memory.
    pub mem: Memory,
}

/// The state after instruction `i` has the result `word`.
pub open spec fn result(st: State, i: int, word: u64) -> State {
    State { results: st.results.insert(i, word), ..st }
}

/// The results of the instructions with the given numbers.
pub open spec fn arg_words(st: State, args: [usize; 5]) -> Seq<u64> {
    Seq::new(5, |k: int| st.results[args[k] as int])
}

/// What instruction `i` makes of a state, if it does not leave its block.
/// `None` where its effect is undefined.
pub open spec fn effect(world: World, op: Op, i: int, st: State) -> Option<State> {
    let val = |v: usize| st.results[v as int];
    match op {
        Op::Const { ty, bits } => Some(result(st, i, wrap(ty, bits as int))),
        Op::PtrParam { index } => Some(result(st, i, world.params[index as int])),
        Op::IntParam { index } => Some(result(st, i, world.params[index as int])),
        Op::Stack { .. } => Some(result(st, i, world.stack)),
        Op::LoadReg { ty, reg } => Some(
            result(st, i, slot_part(world.order, ty, st.regs[reg as int])),
        ),
        Op::StoreReg { reg, val: v, .. } => Some(
            State { regs: st.regs.update(reg as int, val(v)), ..st },
        ),
        Op::Load { ty, addr } => Some(result(st, i, load_word(world.order, st.mem, val(addr), ty))),
        Op::Store { ty, addr, val: v, aligned } => if aligned && !world.unaligned && val(addr)
            % 8 != 0 {
            None
        } else {
            Some(State { mem: store_word(world.order, st.mem, val(addr), ty, val(v)), ..st })
        },
        Op::Bin { op, ty, lhs, rhs } => match bin(op, ty, val(lhs), val(rhs)) {
            Some(word) => Some(result(st, i, word)),
            None => None,
        },
        Op::Neg { ty, val: v } => Some(result(st, i, wrap(ty, -(val(v) as int)))),
        Op::ZExt { val: v, .. } => Some(result(st, i, val(v))),
        Op::Trunc { ty, val: v } => Some(result(st, i, wrap(ty, val(v) as int))),
        Op::Cmp { pred, ty, lhs, rhs } => Some(
            result(
                st,
                i,
                if compare(pred, ty, val(lhs), val(rhs)) {
                    1
                } else {
                    0
                },
            ),
        ),
        Op::Select { cond, yes, no, .. } => Some(
            result(
                st,
                i,
                if val(cond) == 1 {
                    val(yes)
                } else {
                    val(no)
                },
            ),
        ),
        Op::Bswap { ty, val: v } => Some(result(st, i, swap_bytes(ty, val(v)))),
        Op::Call { helper, args } => {
            let (ret, mem) = (world.helper)(helper, arg_words(st, args), st.mem);
            Some(State { mem, ..result(st, i, ret) })
        },
        Op::Br { .. } => None,
        Op::CondBr { .. } => None,
        Op::Ret { .. } => None,
        Op::Position { .. } => None,
    }
}

/// Where a run stands.
pub enum Run {
    /// Before instruction `at`.
    At { at: int, st: State },
    /// The function has returned.
    Returned { word: u64, mem: Memory },
    /// Nothing is known of what happens.
    Undefined,
}

/// The number of the first instruction of a block.
pub open spec fn block_start(code: Seq<Inst>, block: usize) -> int {
    1 + choose|i: int| 0 <= i < code.len() && (#[trigger] code[i]).op == (Op::Position { block })
}

/// Whether instructions have been added to a block.
pub open spec fn has_block(code: Seq<Inst>, block: usize) -> bool {
    exists|i: int| 0 <= i < code.len() && (#[trigger] code[i]).op == (Op::Position { block })
}

/// Where a run stands after a jump to a block.
pub open spec fn enter(code: Seq<Inst>, block: usize, st: State) -> Run {
    if has_block(code, block) {
        Run::At { at: block_start(code, block), st }
    } else {
        Run::Undefined
    }
}

/// One step of a run. To run past the end of a block that has not been left is
/// undefined.
pub open spec fn step(code: Seq<Inst>, world: World, run: Run) -> Run {
    match run {
        Run::At { at, st } => if 0 <= at < code.len() {
            match code[at].op {
                Op::Br { block } => enter(code, block, st),
                Op::CondBr { cond, yes, no } => if st.results[cond as int] == 1 {
                    enter(code, yes, st)
                } else {
                    enter(code, no, st)
                },
                Op::Ret { val } => Run::Returned { word: st.results[val as int], mem: st.mem },
                op => match effect(world, op, at, st) {
                    Some(next) => Run::At { at: at + 1, st: next },
                    None => Run::Undefined,
                },
            }
        } else {
            Run::Undefined
        },
        done => done,
    }
}

/// A run after `n` steps.
pub open spec fn steps(code: Seq<Inst>, world: World, run: Run, n: nat) -> Run
    decreases n,
{
    if n == 0 {
        run
    } else {
        steps(code, world, step(code, world, run), (n - 1) as nat)
    }
}

} // verus!
