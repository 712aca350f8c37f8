//! The LLVM module that a translation is built in.
//!
//! LLVM hands out a handle for everything it is asked to make. What has been
//! asked of it for a module is named by `requests`, in order: the functions,
//! the blocks, and what the builder was asked to put into the blocks. It may
//! fold what it can compute, so a request need not add an instruction.
use crate::ir::{BinOp, Pred, Ty};
use crate::word::{width, wrap, ByteOrder};
use inkwell::basic_block::BasicBlock;
use inkwell::builder::Builder;
use inkwell::context::Context;
use inkwell::execution_engine::ExecutionEngine;
use inkwell::memory_buffer::MemoryBuffer;
use inkwell::module::Module;
use inkwell::support::LLVMString;
use inkwell::targets::ByteOrdering;
use inkwell::types::{ArrayType, FunctionType, IntType, PointerType};
use inkwell::values::{BasicValue, FunctionValue, InstructionValue, IntValue, PointerValue};
use inkwell::{AddressSpace, IntPredicate, OptimizationLevel};
use std::collections::HashMap;
use vstd::prelude::*;

verus! {

/// The context in which LLVM keeps types and constants.
#[verifier::external_type_specification]
#[verifier::external_body]
pub struct ExContext(Context);

/// A module.
#[verifier::external_type_specification]
#[verifier::external_body]
pub struct ExModule<'ctx>(Module<'ctx>);

/// The builder of instructions.
#[verifier::external_type_specification]
#[verifier::external_body]
pub struct ExBuilder<'ctx>(Builder<'ctx>);

/// An integer type.
#[verifier::external_type_specification]
#[verifier::external_body]
pub struct ExIntType<'ctx>(IntType<'ctx>);

/// The type of a pointer.
#[verifier::external_type_specification]
#[verifier::external_body]
pub struct ExPointerType<'ctx>(PointerType<'ctx>);

/// The type of an array.
#[verifier::external_type_specification]
#[verifier::external_body]
pub struct ExArrayType<'ctx>(ArrayType<'ctx>);

/// The type of a function.
#[verifier::external_type_specification]
#[verifier::external_body]
pub struct ExFunctionType<'ctx>(FunctionType<'ctx>);

/// A function.
#[verifier::external_type_specification]
#[verifier::external_body]
pub struct ExFunctionValue<'ctx>(FunctionValue<'ctx>);

/// A basic block.
#[verifier::external_type_specification]
#[verifier::external_body]
pub struct ExBasicBlock<'ctx>(BasicBlock<'ctx>);

/// A value that is an integer.
#[verifier::external_type_specification]
#[verifier::external_body]
pub struct ExIntValue<'ctx>(IntValue<'ctx>);

/// A value that is a pointer.
#[verifier::external_type_specification]
#[verifier::external_body]
pub struct ExPointerValue<'ctx>(PointerValue<'ctx>);

/// An instruction.
#[verifier::external_type_specification]
#[verifier::external_body]
pub struct ExInstructionValue<'ctx>(InstructionValue<'ctx>);

/// A machine that runs modules.
#[verifier::external_type_specification]
#[verifier::external_body]
pub struct ExExecutionEngine<'ctx>(ExecutionEngine<'ctx>);

/// A message of LLVM.
#[verifier::external_type_specification]
#[verifier::external_body]
pub struct ExLLVMString(LLVMString);

/// The types of the functions that a module needs.
#[derive(Clone, Copy, Debug, PartialEq, Eq)]
pub enum Signature {
    /// One integer to another of the same type.
    Swap { ty: Ty },
    /// Five 64-bit integers to one.
    Helper,
    /// A pointer and a 64-bit integer, twice, to a 64-bit integer.
    Main,
}

/// Something that LLVM has been asked to make for a module, with what it
/// handed back.
pub enum Request<'ctx> {
    /// The module itself.
    Module { name: Seq<char> },
    /// A function.
    Function { name: Seq<char>, sig: Signature, function: FunctionValue<'ctx> },
    /// A block at the end of a function.
    Block { function: FunctionValue<'ctx>, label: Seq<char>, block: BasicBlock<'ctx> },
    /// The builder goes on at the end of a block.
    Position { block: BasicBlock<'ctx> },
    /// A slot of 64 bits on the stack.
    Slot { name: Seq<char>, slot: PointerValue<'ctx> },
    /// An area of `len` integers on the stack.
    Area { ty: Ty, len: u32, name: Seq<char>, ptr: PointerValue<'ctx> },
    /// A parameter that is a pointer.
    PtrParam { function: FunctionValue<'ctx>, index: u32, ptr: PointerValue<'ctx> },
    /// A parameter that is an integer.
    IntParam { function: FunctionValue<'ctx>, index: u32, res: IntValue<'ctx> },
    /// A pointer gets a name.
    NamePtr { ptr: PointerValue<'ctx>, name: Seq<char> },
    /// A pointer as an integer of 64 bits.
    PtrToInt { ptr: PointerValue<'ctx>, name: Seq<char>, res: IntValue<'ctx> },
    /// An integer as a pointer to integers of a type.
    IntToPtr { ty: Ty, val: IntValue<'ctx>, name: Seq<char>, ptr: PointerValue<'ctx> },
    /// A pointer as one to integers of a type.
    PtrCast { ty: Ty, from: PointerValue<'ctx>, name: Seq<char>, ptr: PointerValue<'ctx> },
    /// The integer that a pointer points to.
    Load {
        ptr: PointerValue<'ctx>,
        name: Seq<char>,
        res: IntValue<'ctx>,
        inst: InstructionValue<'ctx>,
    },
    /// An integer goes where a pointer points to.
    Store { ptr: PointerValue<'ctx>, val: IntValue<'ctx>, inst: InstructionValue<'ctx> },
    /// An access to memory is said to be aligned.
    Align { inst: InstructionValue<'ctx>, bytes: u32 },
    /// A binary operation.
    Bin {
        op: BinOp,
        lhs: IntValue<'ctx>,
        rhs: IntValue<'ctx>,
        name: Seq<char>,
        res: IntValue<'ctx>,
    },
    /// The negation.
    Neg { val: IntValue<'ctx>, name: Seq<char>, res: IntValue<'ctx> },
    /// The same number in a wider type.
    ZExt { ty: Ty, val: IntValue<'ctx>, name: Seq<char>, res: IntValue<'ctx> },
    /// The low end of a number, in a narrower type.
    Trunc { ty: Ty, val: IntValue<'ctx>, name: Seq<char>, res: IntValue<'ctx> },
    /// A comparison.
    Cmp {
        pred: Pred,
        lhs: IntValue<'ctx>,
        rhs: IntValue<'ctx>,
        name: Seq<char>,
        res: IntValue<'ctx>,
    },
    /// One of two values.
    Select {
        cond: IntValue<'ctx>,
        yes: IntValue<'ctx>,
        no: IntValue<'ctx>,
        name: Seq<char>,
        res: IntValue<'ctx>,
    },
    /// A call.
    Call {
        function: FunctionValue<'ctx>,
        args: Seq<IntValue<'ctx>>,
        name: Seq<char>,
        res: IntValue<'ctx>,
    },
    /// A jump.
    Br { block: BasicBlock<'ctx> },
    /// A jump to one of two blocks.
    CondBr { cond: IntValue<'ctx>, target: BasicBlock<'ctx>, fallthrough: BasicBlock<'ctx> },
    /// A return.
    Ret { val: IntValue<'ctx> },
}

/// What has been asked of LLVM for a module.
pub uninterp spec fn requests(m: Module<'_>) -> Seq<Request<'_>>;

/// Whether a builder has been told where to add instructions.
pub uninterp spec fn positioned(b: Builder<'_>) -> bool;

/// Which integer type this is.
pub uninterp spec fn type_width(t: IntType<'_>) -> Ty;

/// The type of an integer value.
pub uninterp spec fn int_ty(v: IntValue<'_>) -> Ty;

/// The type of the integers that pointers of a type point to; `None` if they
/// point to anything else.
pub uninterp spec fn target(t: PointerType<'_>) -> Option<Ty>;

/// The type of the integer that a pointer points to; `None` if it points to
/// anything else.
pub uninterp spec fn pointee(p: PointerValue<'_>) -> Option<Ty>;

/// The type and the number of the integers in an array.
pub uninterp spec fn array_shape(t: ArrayType<'_>) -> (Ty, u32);

/// Whether an instruction is a load or a store.
pub uninterp spec fn is_access(i: InstructionValue<'_>) -> bool;

/// The word that a constant stands for; of other values nothing is said.
pub uninterp spec fn constant(v: IntValue<'_>) -> Option<u64>;

/// Which function type this is.
pub uninterp spec fn type_signature(t: FunctionType<'_>) -> Signature;

/// The type of a function.
pub uninterp spec fn signature(f: FunctionValue<'_>) -> Signature;

/// The bytes that LLVM writes for a module.
pub uninterp spec fn bitcode(m: Module<'_>) -> Seq<u8>;

/// The text that LLVM writes for a module.
pub uninterp spec fn text(m: Module<'_>) -> Seq<char>;

/// Where an execution engine has been told to find functions: each with its
/// address.
pub uninterp spec fn links(e: ExecutionEngine<'_>) -> Seq<(FunctionValue<'_>, usize)>;

/// What had been asked of LLVM for the module of an execution engine when the
/// engine was made.
pub uninterp spec fn loaded(e: ExecutionEngine<'_>) -> Seq<Request<'_>>;

/// The byte order of the machine that an execution engine makes code for.
pub uninterp spec fn engine_order(e: ExecutionEngine<'_>) -> ByteOrder;

/// Whether LLVM reads bytes as a module in a context.
pub uninterp spec fn parses(context: &Context, bytes: Seq<u8>) -> bool;

/// Whether a slot has been asked for.
pub open spec fn has_slot<'ctx>(asked: Seq<Request<'ctx>>, slot: PointerValue<'ctx>) -> bool {
    exists|i: int|
        0 <= i < asked.len() && (#[trigger] asked[i] matches Request::Slot { slot: s, .. } && s
            == slot)
}

/// The integer type `Context::bool_type` or one of `Context::i8_type`,
/// `i16_type`, `i32_type` and `i64_type` of the same name.
#[verifier::external_body]
pub(crate) fn int_type<'ctx>(context: &'ctx Context, ty: Ty) -> (res: IntType<'ctx>)
    ensures
        type_width(res) == ty,
{
    match ty {
        Ty::I1 => context.bool_type(),
        Ty::I8 => context.i8_type(),
        Ty::I16 => context.i16_type(),
        Ty::I32 => context.i32_type(),
        Ty::I64 => context.i64_type(),
    }
}

/// `IntType::const_int` without sign extension: the constant of the type whose
/// bits are the low ones of `bits`.
#[verifier::external_body]
pub(crate) fn const_int<'ctx>(ty: IntType<'ctx>, bits: u64) -> (res: IntValue<'ctx>)
    ensures
        int_ty(res) == type_width(ty),
        constant(res) == Some(wrap(type_width(ty), bits as int)),
{
    ty.const_int(bits, false)
}

/// `IntType::fn_type` from one integer to another of the type.
#[verifier::external_body]
pub(crate) fn swap_type<'ctx>(ty: IntType<'ctx>) -> (res: FunctionType<'ctx>)
    ensures
        type_signature(res) == (Signature::Swap { ty: type_width(ty) }),
{
    ty.fn_type(&[ty.into()], false)
}

/// `IntType::fn_type` from five 64-bit integers to one.
#[verifier::external_body]
pub(crate) fn helper_type<'ctx>(ty: IntType<'ctx>) -> (res: FunctionType<'ctx>)
    requires
        type_width(ty) == Ty::I64,
    ensures
        type_signature(res) == Signature::Helper,
{
    ty.fn_type(&[ty.into(), ty.into(), ty.into(), ty.into(), ty.into()], false)
}

/// `IntType::ptr_type`: the type of the pointers to integers of a type.
#[verifier::external_body]
pub(crate) fn ptr_type<'ctx>(ty: IntType<'ctx>) -> (res: PointerType<'ctx>)
    ensures
        target(res) == Some(type_width(ty)),
{
    ty.ptr_type(AddressSpace::default())
}

/// `IntType::array_type`: the type of the arrays of `len` integers of a type.
#[verifier::external_body]
pub(crate) fn array_type<'ctx>(ty: IntType<'ctx>, len: u32) -> (res: ArrayType<'ctx>)
    ensures
        array_shape(res) == (type_width(ty), len),
{
    ty.array_type(len)
}

/// `IntType::fn_type` from a pointer to bytes and a 64-bit integer, twice, to a
/// 64-bit integer.
#[verifier::external_body]
pub(crate) fn main_type<'ctx>(ty: IntType<'ctx>, ptr: PointerType<'ctx>) -> (res: FunctionType<
    'ctx,
>)
    requires
        type_width(ty) == Ty::I64,
        target(ptr) == Some(Ty::I8),
    ensures
        type_signature(res) == Signature::Main,
{
    ty.fn_type(&[ptr.into(), ty.into(), ptr.into(), ty.into()], false)
}

/// What LLVM has handed out for an instruction: its result, the pointer that was
/// made for it, and the load or store among what it became.
pub struct Made<'ctx> {
    pub value: Option<IntValue<'ctx>>,
    pub pointer: Option<PointerValue<'ctx>>,
    pub access: Option<InstructionValue<'ctx>>,
}

/// A module with the function that is being built in it, and the handles that
/// LLVM has handed out for it.
pub struct Unit<'ctx> {
    pub context: &'ctx Context,
    pub builder: Builder<'ctx>,
    pub module: Module<'ctx>,
    /// The function.
    pub function: FunctionValue<'ctx>,
    /// The functions that reverse the bytes of 16, 32 and 64 bits.
    pub intrinsics: [FunctionValue<'ctx>; 3],
    /// The helper functions.
    pub helpers: HashMap<u32, FunctionValue<'ctx>>,
    /// The helper functions in the order in which they have been declared.
    pub declared: Vec<u32>,
    /// The slots of the registers.
    pub slots: Vec<PointerValue<'ctx>>,
    /// The blocks, by number.
    pub blocks: Vec<BasicBlock<'ctx>>,
    /// What the instructions have become, by number.
    pub made: Vec<Made<'ctx>>,
}

/// Whether nothing but the module and the builder differs, and the builder
/// knows where to add instructions.
pub open spec fn same_tables<'ctx>(a: Unit<'ctx>, b: Unit<'ctx>) -> bool {
    &&& positioned(b.builder)
    &&& b == (Unit { module: b.module, builder: b.builder, ..a })
}

impl<'ctx> Unit<'ctx> {
    /// `Builder::build_int_add`: the sum of two integers of one type.
    #[verifier::external_body]
    pub(crate) fn build_add(
        &mut self,
        lhs: IntValue<'ctx>,
        rhs: IntValue<'ctx>,
        name: &str,
    ) -> (res: IntValue<'ctx>)
        requires
            positioned(old(self).builder),
            int_ty(lhs) == int_ty(rhs),
        ensures
            requests(final(self).module) == requests(old(self).module).push(
                Request::Bin { op: BinOp::Add, lhs, rhs, name: name@, res },
            ),
            same_tables(*old(self), *final(self)),
            int_ty(res) == int_ty(lhs),
    {
        self.builder.build_int_add(lhs, rhs, name).unwrap()
    }

    /// `Builder::build_int_sub`: the difference of two integers of one type.
    #[verifier::external_body]
    pub(crate) fn build_sub(
        &mut self,
        lhs: IntValue<'ctx>,
        rhs: IntValue<'ctx>,
        name: &str,
    ) -> (res: IntValue<'ctx>)
        requires
            positioned(old(self).builder),
            int_ty(lhs) == int_ty(rhs),
        ensures
            requests(final(self).module) == requests(old(self).module).push(
                Request::Bin { op: BinOp::Sub, lhs, rhs, name: name@, res },
            ),
            same_tables(*old(self), *final(self)),
            int_ty(res) == int_ty(lhs),
    {
        self.builder.build_int_sub(lhs, rhs, name).unwrap()
    }

    /// `Builder::build_int_mul`: the product of two integers of one type.
    #[verifier::external_body]
    pub(crate) fn build_mul(
        &mut self,
        lhs: IntValue<'ctx>,
        rhs: IntValue<'ctx>,
        name: &str,
    ) -> (res: IntValue<'ctx>)
        requires
            positioned(old(self).builder),
            int_ty(lhs) == int_ty(rhs),
        ensures
            requests(final(self).module) == requests(old(self).module).push(
                Request::Bin { op: BinOp::Mul, lhs, rhs, name: name@, res },
            ),
            same_tables(*old(self), *final(self)),
            int_ty(res) == int_ty(lhs),
    {
        self.builder.build_int_mul(lhs, rhs, name).unwrap()
    }

    /// `Builder::build_int_unsigned_div`: the unsigned quotient.
    #[verifier::external_body]
    pub(crate) fn build_udiv(
        &mut self,
        lhs: IntValue<'ctx>,
        rhs: IntValue<'ctx>,
        name: &str,
    ) -> (res: IntValue<'ctx>)
        requires
            positioned(old(self).builder),
            int_ty(lhs) == int_ty(rhs),
        ensures
            requests(final(self).module) == requests(old(self).module).push(
                Request::Bin { op: BinOp::UDiv, lhs, rhs, name: name@, res },
            ),
            same_tables(*old(self), *final(self)),
            int_ty(res) == int_ty(lhs),
    {
        self.builder.build_int_unsigned_div(lhs, rhs, name).unwrap()
    }

    /// `Builder::build_int_unsigned_rem`: the unsigned remainder.
    #[verifier::external_body]
    pub(crate) fn build_urem(
        &mut self,
        lhs: IntValue<'ctx>,
        rhs: IntValue<'ctx>,
        name: &str,
    ) -> (res: IntValue<'ctx>)
        requires
            positioned(old(self).builder),
            int_ty(lhs) == int_ty(rhs),
        ensures
            requests(final(self).module) == requests(old(self).module).push(
                Request::Bin { op: BinOp::URem, lhs, rhs, name: name@, res },
            ),
            same_tables(*old(self), *final(self)),
            int_ty(res) == int_ty(lhs),
    {
        self.builder.build_int_unsigned_rem(lhs, rhs, name).unwrap()
    }

    /// `Builder::build_and`: the bits that both integers have.
    #[verifier::external_body]
    pub(crate) fn build_and(
        &mut self,
        lhs: IntValue<'ctx>,
        rhs: IntValue<'ctx>,
        name: &str,
    ) -> (res: IntValue<'ctx>)
        requires
            positioned(old(self).builder),
            int_ty(lhs) == int_ty(rhs),
        ensures
            requests(final(self).module) == requests(old(self).module).push(
                Request::Bin { op: BinOp::And, lhs, rhs, name: name@, res },
            ),
            same_tables(*old(self), *final(self)),
            int_ty(res) == int_ty(lhs),
    {
        self.builder.build_and(lhs, rhs, name).unwrap()
    }

    /// `Builder::build_or`: the bits that one of two integers has.
    #[verifier::external_body]
    pub(crate) fn build_or(
        &mut self,
        lhs: IntValue<'ctx>,
        rhs: IntValue<'ctx>,
        name: &str,
    ) -> (res: IntValue<'ctx>)
        requires
            positioned(old(self).builder),
            int_ty(lhs) == int_ty(rhs),
        ensures
            requests(final(self).module) == requests(old(self).module).push(
                Request::Bin { op: BinOp::Or, lhs, rhs, name: name@, res },
            ),
            same_tables(*old(self), *final(self)),
            int_ty(res) == int_ty(lhs),
    {
        self.builder.build_or(lhs, rhs, name).unwrap()
    }

    /// `Builder::build_xor`: the bits in which two integers differ.
    #[verifier::external_body]
    pub(crate) fn build_xor(
        &mut self,
        lhs: IntValue<'ctx>,
        rhs: IntValue<'ctx>,
        name: &str,
    ) -> (res: IntValue<'ctx>)
        requires
            positioned(old(self).builder),
            int_ty(lhs) == int_ty(rhs),
        ensures
            requests(final(self).module) == requests(old(self).module).push(
                Request::Bin { op: BinOp::Xor, lhs, rhs, name: name@, res },
            ),
            same_tables(*old(self), *final(self)),
            int_ty(res) == int_ty(lhs),
    {
        self.builder.build_xor(lhs, rhs, name).unwrap()
    }

    /// `Builder::build_left_shift`: the bits moved to the high end.
    #[verifier::external_body]
    pub(crate) fn build_shl(
        &mut self,
        lhs: IntValue<'ctx>,
        rhs: IntValue<'ctx>,
        name: &str,
    ) -> (res: IntValue<'ctx>)
        requires
            positioned(old(self).builder),
            int_ty(lhs) == int_ty(rhs),
        ensures
            requests(final(self).module) == requests(old(self).module).push(
                Request::Bin { op: BinOp::Shl, lhs, rhs, name: name@, res },
            ),
            same_tables(*old(self), *final(self)),
            int_ty(res) == int_ty(lhs),
    {
        self.builder.build_left_shift(lhs, rhs, name).unwrap()
    }

    /// `Builder::build_right_shift`: the bits moved to the low end, with the sign
    /// bit (`sign_extend`) or zeros moving in.
    #[verifier::external_body]
    pub(crate) fn build_shr(
        &mut self,
        lhs: IntValue<'ctx>,
        rhs: IntValue<'ctx>,
        sign_extend: bool,
        name: &str,
    ) -> (res: IntValue<'ctx>)
        requires
            positioned(old(self).builder),
            int_ty(lhs) == int_ty(rhs),
        ensures
            requests(final(self).module) == requests(old(self).module).push(
                Request::Bin {
                    op: if sign_extend {
                        BinOp::AShr
                    } else {
                        BinOp::LShr
                    },
                    lhs,
                    rhs,
                    name: name@,
                    res,
                },
            ),
            same_tables(*old(self), *final(self)),
            int_ty(res) == int_ty(lhs),
    {
        self.builder.build_right_shift(lhs, rhs, sign_extend, name).unwrap()
    }

    /// `Builder::build_int_neg`: the negation.
    #[verifier::external_body]
    pub(crate) fn build_neg(&mut self, val: IntValue<'ctx>, name: &str) -> (res: IntValue<'ctx>)
        requires
            positioned(old(self).builder),
        ensures
            requests(final(self).module) == requests(old(self).module).push(
                Request::Neg { val, name: name@, res },
            ),
            same_tables(*old(self), *final(self)),
            int_ty(res) == int_ty(val),
    {
        self.builder.build_int_neg(val, name).unwrap()
    }

    /// `Builder::build_int_z_extend`: the number in a wider type.
    #[verifier::external_body]
    pub(crate) fn build_zext(
        &mut self,
        val: IntValue<'ctx>,
        ty: IntType<'ctx>,
        name: &str,
    ) -> (res: IntValue<'ctx>)
        requires
            positioned(old(self).builder),
            width(int_ty(val)) < width(type_width(ty)),
        ensures
            requests(final(self).module) == requests(old(self).module).push(
                Request::ZExt { ty: type_width(ty), val, name: name@, res },
            ),
            same_tables(*old(self), *final(self)),
            int_ty(res) == type_width(ty),
    {
        self.builder.build_int_z_extend(val, ty, name).unwrap()
    }

    /// `Builder::build_int_truncate`: the low end of the number, in a narrower
    /// type.
    #[verifier::external_body]
    pub(crate) fn build_trunc(
        &mut self,
        val: IntValue<'ctx>,
        ty: IntType<'ctx>,
        name: &str,
    ) -> (res: IntValue<'ctx>)
        requires
            positioned(old(self).builder),
            width(int_ty(val)) > width(type_width(ty)),
        ensures
            requests(final(self).module) == requests(old(self).module).push(
                Request::Trunc { ty: type_width(ty), val, name: name@, res },
            ),
            same_tables(*old(self), *final(self)),
            int_ty(res) == type_width(ty),
    {
        self.builder.build_int_truncate(val, ty, name).unwrap()
    }

    /// `Builder::build_int_compare` with the predicate of the same name.
    #[verifier::external_body]
    pub(crate) fn build_compare(
        &mut self,
        pred: Pred,
        lhs: IntValue<'ctx>,
        rhs: IntValue<'ctx>,
        name: &str,
    ) -> (res: IntValue<'ctx>)
        requires
            positioned(old(self).builder),
            int_ty(lhs) == int_ty(rhs),
        ensures
            requests(final(self).module) == requests(old(self).module).push(
                Request::Cmp { pred, lhs, rhs, name: name@, res },
            ),
            same_tables(*old(self), *final(self)),
            int_ty(res) == Ty::I1,
    {
        let op = match pred {
            Pred::Eq => IntPredicate::EQ,
            Pred::Ne => IntPredicate::NE,
            Pred::Ugt => IntPredicate::UGT,
            Pred::Uge => IntPredicate::UGE,
            Pred::Ult => IntPredicate::ULT,
            Pred::Ule => IntPredicate::ULE,
            Pred::Sgt => IntPredicate::SGT,
            Pred::Sge => IntPredicate::SGE,
            Pred::Slt => IntPredicate::SLT,
            Pred::Sle => IntPredicate::SLE,
        };
        self.builder.build_int_compare(op, lhs, rhs, name).unwrap()
    }

    /// `Builder::build_select`: one of two integers of one type, by a condition.
    #[verifier::external_body]
    pub(crate) fn build_select(
        &mut self,
        cond: IntValue<'ctx>,
        yes: IntValue<'ctx>,
        no: IntValue<'ctx>,
        name: &str,
    ) -> (res: IntValue<'ctx>)
        requires
            positioned(old(self).builder),
            int_ty(cond) == Ty::I1,
            int_ty(yes) == int_ty(no),
        ensures
            requests(final(self).module) == requests(old(self).module).push(
                Request::Select { cond, yes, no, name: name@, res },
            ),
            same_tables(*old(self), *final(self)),
            int_ty(res) == int_ty(yes),
    {
        self.builder.build_select(cond, yes, no, name).unwrap().into_int_value()
    }

    /// `FunctionValue::get_nth_param`: a pointer that is a parameter of the
    /// function.
    #[verifier::external_body]
    pub(crate) fn ptr_param(&mut self, index: u32) -> (res: PointerValue<'ctx>)
        requires
            positioned(old(self).builder),
            signature(old(self).function) == Signature::Main,
            index == 0 || index == 2,
        ensures
            requests(final(self).module) == requests(old(self).module).push(
                Request::PtrParam { function: old(self).function, index, ptr: res },
            ),
            same_tables(*old(self), *final(self)),
            pointee(res) == Some(Ty::I8),
    {
        self.function.get_nth_param(index).unwrap().into_pointer_value()
    }

    /// `FunctionValue::get_nth_param`: an integer that is a parameter of the
    /// function.
    #[verifier::external_body]
    pub(crate) fn int_param(&mut self, index: u32) -> (res: IntValue<'ctx>)
        requires
            positioned(old(self).builder),
            signature(old(self).function) == Signature::Main,
            index == 1 || index == 3,
        ensures
            requests(final(self).module) == requests(old(self).module).push(
                Request::IntParam { function: old(self).function, index, res },
            ),
            same_tables(*old(self), *final(self)),
            int_ty(res) == Ty::I64,
    {
        self.function.get_nth_param(index).unwrap().into_int_value()
    }

    /// `PointerValue::set_name`: a pointer gets a name.
    #[verifier::external_body]
    pub(crate) fn name_ptr(&mut self, ptr: PointerValue<'ctx>, name: &str)
        requires
            positioned(old(self).builder),
        ensures
            requests(final(self).module) == requests(old(self).module).push(
                Request::NamePtr { ptr, name: name@ },
            ),
            same_tables(*old(self), *final(self)),
    {
        ptr.set_name(name);
    }

    /// `Builder::build_ptr_to_int`: a pointer as an integer of 64 bits.
    #[verifier::external_body]
    pub(crate) fn build_ptr_to_int(
        &mut self,
        ptr: PointerValue<'ctx>,
        ty: IntType<'ctx>,
        name: &str,
    ) -> (res: IntValue<'ctx>)
        requires
            positioned(old(self).builder),
            type_width(ty) == Ty::I64,
        ensures
            requests(final(self).module) == requests(old(self).module).push(
                Request::PtrToInt { ptr, name: name@, res },
            ),
            same_tables(*old(self), *final(self)),
            int_ty(res) == Ty::I64,
    {
        self.builder.build_ptr_to_int(ptr, ty, name).unwrap()
    }

    /// `Builder::build_int_to_ptr`: an integer of 64 bits as a pointer.
    #[verifier::external_body]
    pub(crate) fn build_int_to_ptr(
        &mut self,
        val: IntValue<'ctx>,
        ty: PointerType<'ctx>,
        name: &str,
    ) -> (res: PointerValue<'ctx>)
        requires
            positioned(old(self).builder),
            int_ty(val) == Ty::I64,
            target(ty) is Some,
        ensures
            requests(final(self).module) == requests(old(self).module).push(
                Request::IntToPtr { ty: target(ty)->0, val, name: name@, ptr: res },
            ),
            same_tables(*old(self), *final(self)),
            pointee(res) == target(ty),
    {
        self.builder.build_int_to_ptr(val, ty, name).unwrap()
    }

    /// `Builder::build_pointer_cast`: a pointer as one of another type.
    #[verifier::external_body]
    pub(crate) fn build_ptr_cast(
        &mut self,
        from: PointerValue<'ctx>,
        ty: PointerType<'ctx>,
        name: &str,
    ) -> (res: PointerValue<'ctx>)
        requires
            positioned(old(self).builder),
            target(ty) is Some,
        ensures
            requests(final(self).module) == requests(old(self).module).push(
                Request::PtrCast { ty: target(ty)->0, from, name: name@, ptr: res },
            ),
            same_tables(*old(self), *final(self)),
            pointee(res) == target(ty),
    {
        self.builder.build_pointer_cast(from, ty, name).unwrap()
    }

    /// `Builder::build_alloca` of an array: an area on the stack.
    #[verifier::external_body]
    pub(crate) fn build_area(&mut self, ty: ArrayType<'ctx>, name: &str) -> (res: PointerValue<
        'ctx,
    >)
        requires
            positioned(old(self).builder),
        ensures
            requests(final(self).module) == requests(old(self).module).push(
                Request::Area {
                    ty: array_shape(ty).0,
                    len: array_shape(ty).1,
                    name: name@,
                    ptr: res,
                },
            ),
            same_tables(*old(self), *final(self)),
            pointee(res) is None,
    {
        self.builder.build_alloca(ty, name).unwrap()
    }

    /// `Builder::build_alloca` of an integer of 64 bits: a slot of its own, which
    /// none of those before it is.
    #[verifier::external_body]
    pub(crate) fn build_slot(&mut self, ty: IntType<'ctx>, name: &str) -> (res: PointerValue<'ctx>)
        requires
            positioned(old(self).builder),
            type_width(ty) == Ty::I64,
        ensures
            requests(final(self).module) == requests(old(self).module).push(
                Request::Slot { name: name@, slot: res },
            ),
            same_tables(*old(self), *final(self)),
            pointee(res) == Some(Ty::I64),
            !has_slot(requests(old(self).module), res),
    {
        self.builder.build_alloca(ty, name).unwrap()
    }

    /// `Builder::build_load`: the integer that a pointer points to, and the
    /// instruction that loads it.
    #[verifier::external_body]
    pub(crate) fn build_load(&mut self, ptr: PointerValue<'ctx>, name: &str) -> (res: (
        IntValue<'ctx>,
        InstructionValue<'ctx>,
    ))
        requires
            positioned(old(self).builder),
            pointee(ptr) is Some,
        ensures
            requests(final(self).module) == requests(old(self).module).push(
                Request::Load { ptr, name: name@, res: res.0, inst: res.1 },
            ),
            same_tables(*old(self), *final(self)),
            int_ty(res.0) == pointee(ptr)->0,
            is_access(res.1),
    {
        let load = self.builder.build_load(ptr, name).unwrap();
        (load.into_int_value(), load.as_instruction_value().unwrap())
    }

    /// `Builder::build_store`: an integer goes where a pointer points to.
    #[verifier::external_body]
    pub(crate) fn build_store(&mut self, ptr: PointerValue<'ctx>, val: IntValue<'ctx>) -> (res:
        InstructionValue<'ctx>)
        requires
            positioned(old(self).builder),
            pointee(ptr) == Some(int_ty(val)),
        ensures
            requests(final(self).module) == requests(old(self).module).push(
                Request::Store { ptr, val, inst: res },
            ),
            same_tables(*old(self), *final(self)),
            is_access(res),
    {
        self.builder.build_store(ptr, val).unwrap()
    }

    /// `InstructionValue::set_alignment`: a load or store is said to be aligned.
    #[verifier::external_body]
    pub(crate) fn align(&mut self, inst: InstructionValue<'ctx>, bytes: u32)
        requires
            positioned(old(self).builder),
            is_access(inst),
            bytes == 1 || bytes == 2 || bytes == 4 || bytes == 8,
        ensures
            requests(final(self).module) == requests(old(self).module).push(
                Request::Align { inst, bytes },
            ),
            same_tables(*old(self), *final(self)),
    {
        inst.set_alignment(bytes).unwrap();
    }

    /// `Builder::build_call` of a function of one integer.
    #[verifier::external_body]
    pub(crate) fn call_swap(
        &mut self,
        function: FunctionValue<'ctx>,
        val: IntValue<'ctx>,
        name: &str,
    ) -> (res: IntValue<'ctx>)
        requires
            positioned(old(self).builder),
            signature(function) == (Signature::Swap { ty: int_ty(val) }),
        ensures
            requests(final(self).module) == requests(old(self).module).push(
                Request::Call { function, args: seq![val], name: name@, res },
            ),
            same_tables(*old(self), *final(self)),
            int_ty(res) == int_ty(val),
    {
        let call = self.builder.build_call(function, &[val.into()], name).unwrap();
        call.try_as_basic_value().left().unwrap().into_int_value()
    }

    /// `Builder::build_call` of a function of five 64-bit integers.
    #[verifier::external_body]
    pub(crate) fn call_helper(
        &mut self,
        function: FunctionValue<'ctx>,
        args: [IntValue<'ctx>; 5],
        name: &str,
    ) -> (res: IntValue<'ctx>)
        requires
            positioned(old(self).builder),
            signature(function) == Signature::Helper,
            forall|k: int| 0 <= k < 5 ==> int_ty(#[trigger] args[k]) == Ty::I64,
        ensures
            requests(final(self).module) == requests(old(self).module).push(
                Request::Call { function, args: args@, name: name@, res },
            ),
            same_tables(*old(self), *final(self)),
            int_ty(res) == Ty::I64,
    {
        let args = args.map(|arg| arg.into());
        let call = self.builder.build_call(function, &args, name).unwrap();
        call.try_as_basic_value().left().unwrap().into_int_value()
    }

    /// `Builder::build_unconditional_branch`: a jump.
    #[verifier::external_body]
    pub(crate) fn build_br(&mut self, block: BasicBlock<'ctx>)
        requires
            positioned(old(self).builder),
        ensures
            requests(final(self).module) == requests(old(self).module).push(
                Request::Br { block },
            ),
            same_tables(*old(self), *final(self)),
    {
        self.builder.build_unconditional_branch(block).unwrap();
    }

    /// `Builder::build_conditional_branch`: a jump to one of two blocks.
    #[verifier::external_body]
    pub(crate) fn build_cond_br(
        &mut self,
        cond: IntValue<'ctx>,
        target: BasicBlock<'ctx>,
        fallthrough: BasicBlock<'ctx>,
    )
        requires
            positioned(old(self).builder),
            int_ty(cond) == Ty::I1,
        ensures
            requests(final(self).module) == requests(old(self).module).push(
                Request::CondBr { cond, target, fallthrough },
            ),
            same_tables(*old(self), *final(self)),
    {
        self.builder.build_conditional_branch(cond, target, fallthrough).unwrap();
    }

    /// `Builder::build_return`: a return of a 64-bit integer, from the function that
    /// the builder is in.
    #[verifier::external_body]
    pub(crate) fn build_ret(&mut self, val: IntValue<'ctx>)
        requires
            positioned(old(self).builder),
            int_ty(val) == Ty::I64,
        ensures
            requests(final(self).module) == requests(old(self).module).push(
                Request::Ret { val },
            ),
            same_tables(*old(self), *final(self)),
    {
        self.builder.build_return(Some(&val)).unwrap();
    }

    /// `Builder::position_at_end`: the builder goes on at the end of a block.
    #[verifier::external_body]
    pub(crate) fn position(&mut self, block: BasicBlock<'ctx>)
        ensures
            requests(final(self).module) == requests(old(self).module).push(
                Request::Position { block },
            ),
            same_tables(*old(self), *final(self)),
            positioned(final(self).builder),
    {
        self.builder.position_at_end(block);
    }

    /// `Context::append_basic_block`: a new block at the end of the function. The
    /// builder stays where it is.
    #[verifier::external_body]
    pub(crate) fn append_block(&mut self, label: &str) -> (res: BasicBlock<'ctx>)
        ensures
            requests(final(self).module) == requests(old(self).module).push(
                Request::Block { function: old(self).function, label: label@, block: res },
            ),
            positioned(final(self).builder) == positioned(old(self).builder),
            *final(self) == (Unit {
                module: final(self).module,
                builder: final(self).builder,
                ..*old(self)
            }),
    {
        self.context.append_basic_block(self.function, label)
    }

    /// `Module::write_bitcode_to_memory`: the bytes that LLVM writes for the
    /// module.
    #[verifier::external_body]
    pub(crate) fn write_bitcode(&self) -> (res: Vec<u8>)
        ensures
            res@ == bitcode(self.module),
    {
        self.module.write_bitcode_to_memory().as_slice().to_vec()
    }

    /// `Module::print_to_string`: the text that LLVM writes for the module.
    #[verifier::external_body]
    pub(crate) fn print(&self) -> (res: String)
        ensures
            res@ == text(self.module),
    {
        self.module.print_to_string().to_string()
    }
}

/// `Module::add_function`: a function with external linkage.
#[verifier::external_body]
pub(crate) fn add_function<'ctx>(
    module: &mut Module<'ctx>,
    name: &str,
    ty: FunctionType<'ctx>,
) -> (res: FunctionValue<'ctx>)
    ensures
        requests(*final(module)) == requests(*old(module)).push(
            Request::Function { name: name@, sig: type_signature(ty), function: res },
        ),
        signature(res) == type_signature(ty),
{
    module.add_function(name, ty, None)
}

/// `Context::create_module`: an empty module.
#[verifier::external_body]
pub(crate) fn create_module<'ctx>(context: &'ctx Context, name: &str) -> (res: Module<'ctx>)
    ensures
        requests(res) == seq![Request::Module { name: name@ }],
{
    context.create_module(name)
}

/// `Context::create_builder`: a builder that has not been told where to add
/// instructions.
#[verifier::external_body]
pub(crate) fn create_builder<'ctx>(context: &'ctx Context) -> (res: Builder<'ctx>)
    ensures
        !positioned(res),
{
    context.create_builder()
}

/// `Module::create_jit_execution_engine` without optimization: an engine that
/// runs the module as it was built, and has not been told of any function. The
/// engine may note the layout of the machine's data in the module. It fails if
/// LLVM cannot generate code for the machine, or if the module has an engine.
/// LLVM may have taken the module over by then, so nothing is said of the module
/// where it fails.
#[verifier::external_body]
pub(crate) fn create_engine<'ctx>(module: &mut Module<'ctx>) -> (res: Result<
    ExecutionEngine<'ctx>,
    LLVMString,
>)
    ensures
        res is Ok ==> requests(*final(module)) == requests(*old(module)),
        res is Ok ==> loaded(res->Ok_0) == requests(*old(module)),
        res is Ok ==> links(res->Ok_0) == Seq::<(FunctionValue<'ctx>, usize)>::empty(),
{
    module.create_jit_execution_engine(OptimizationLevel::None)
}

/// `TargetData::get_byte_ordering` of `ExecutionEngine::get_target_data`: the
/// byte order of the machine that the engine makes code for.
#[verifier::external_body]
pub(crate) fn engine_byte_order(engine: &ExecutionEngine<'_>) -> (res: ByteOrder)
    ensures
        res == engine_order(*engine),
{
    match engine.get_target_data().get_byte_ordering() {
        ByteOrdering::LittleEndian => ByteOrder::Little,
        ByteOrdering::BigEndian => ByteOrder::Big,
    }
}

/// `ExecutionEngine::add_global_mapping`: calls of a function go to an address.
#[verifier::external_body]
pub(crate) fn map_function<'ctx>(
    engine: &mut ExecutionEngine<'ctx>,
    function: FunctionValue<'ctx>,
    addr: usize,
)
    ensures
        links(*final(engine)) == links(*old(engine)).push((function, addr)),
        loaded(*final(engine)) == loaded(*old(engine)),
{
    engine.add_global_mapping(&function, addr);
}

/// `Module::parse_bitcode_from_buffer` on the buffer that
/// `MemoryBuffer::create_from_memory_range` makes of the bytes, which are those
/// that LLVM has written for a module. Nothing is said of the module that is
/// read.
#[verifier::external_body]
pub(crate) fn parse_bitcode<'ctx>(context: &'ctx Context, bytes: &[u8]) -> (res: Result<
    Module<'ctx>,
    LLVMString,
>)
    requires
        exists|m: Module<'ctx>| bytes@ == #[trigger] bitcode(m),
    ensures
        res is Ok == parses(context, bytes@),
{
    let buffer = MemoryBuffer::create_from_memory_range(bytes, "t");
    Module::parse_bitcode_from_buffer(&buffer, context)
}

} // verus!
