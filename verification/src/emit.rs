//! The instructions of a translation are handed to LLVM.
use crate::ir::{fits, has_ty, result_ty, well_typed, BinOp, Inst, Op, Scope, Ty};
use crate::label::{numbered, numbered_name};
use crate::llvm::{
    array_type, const_int, constant, int_ty, int_type, pointee, positioned, ptr_type, requests,
    same_tables, signature, Made, Request, Signature, Unit,
};
use crate::translate::Code;
use crate::word::wrap;
use inkwell::values::{InstructionValue, IntValue, PointerValue};
use vstd::prelude::*;

verus! {

/// Whether `v` can be the handle of the result of an instruction: one of the
/// type of the result, a constant for a constant, none for no result.
pub open spec fn value_ok(op: Op, v: Option<IntValue<'_>>) -> bool {
    match result_ty(op) {
        Some(ty) => {
            &&& v is Some
            &&& int_ty(v->0) == ty
            &&& op matches Op::Const { bits, .. } ==> constant(v->0) == Some(wrap(ty, bits as int))
        },
        None => v is None,
    }
}

/// The alignment in bytes that accesses are said to have where any is stated.
pub const ALIGNMENT: u32 = 8;

/// The name of the area that is the stack of a program.
pub const STACK_NAME: &'static str = "stack_slot";

/// The place of the function that reverses the bytes of a type.
pub open spec fn swap_index(ty: Ty) -> int {
    if ty == Ty::I16 {
        0
    } else if ty == Ty::I32 {
        1
    } else {
        2
    }
}

/// What LLVM is asked for a store.
pub open spec fn store_requests<'ctx>(
    ptr: PointerValue<'ctx>,
    val: IntValue<'ctx>,
    aligned: bool,
    inst: InstructionValue<'ctx>,
) -> Seq<Request<'ctx>> {
    if aligned {
        seq![Request::Store { ptr, val, inst }, Request::Align { inst, bytes: ALIGNMENT }]
    } else {
        seq![Request::Store { ptr, val, inst }]
    }
}

/// What LLVM is asked for instruction `i`, over the handles of a unit. A
/// constant is no matter of the module.
pub open spec fn request_of<'ctx>(u: Unit<'ctx>, inst: Inst, i: int) -> Seq<Request<'ctx>> {
    let val = |v: usize| u.made@[v as int].value->0;
    let res = u.made@[i].value->0;
    let ptr = u.made@[i].pointer->0;
    let access = u.made@[i].access->0;
    let name = inst.name@;
    match inst.op {
        Op::Const { .. } => seq![],
        Op::PtrParam { index } => seq![
            Request::PtrParam { function: u.function, index, ptr },
            Request::NamePtr { ptr, name },
            Request::PtrToInt { ptr, name: ""@, res },
        ],
        Op::IntParam { index } => seq![Request::IntParam { function: u.function, index, res }],
        Op::Stack { size } => seq![
            Request::Area { ty: Ty::I8, len: size, name: STACK_NAME@, ptr },
            Request::PtrToInt { ptr, name, res },
        ],
        Op::LoadReg { ty, reg } => if ty == Ty::I64 {
            seq![
                Request::Load { ptr: u.slots@[reg as int], name, res, inst: access },
                Request::Align { inst: access, bytes: ALIGNMENT },
            ]
        } else {
            seq![
                Request::PtrCast { ty, from: u.slots@[reg as int], name: ""@, ptr },
                Request::Load { ptr, name, res, inst: access },
            ]
        },
        Op::StoreReg { reg, val: v, aligned } => store_requests(
            u.slots@[reg as int],
            val(v),
            aligned,
            access,
        ),
        Op::Load { ty, addr } => seq![
            Request::IntToPtr { ty, val: val(addr), name: ""@, ptr },
            Request::Load { ptr, name, res, inst: access },
        ],
        Op::Store { ty, addr, val: v, aligned } => seq![
            Request::IntToPtr { ty, val: val(addr), name: ""@, ptr },
        ] + store_requests(ptr, val(v), aligned, access),
        Op::Bin { op, lhs, rhs, .. } => seq![
            Request::Bin { op, lhs: val(lhs), rhs: val(rhs), name, res },
        ],
        Op::Neg { val: v, .. } => seq![Request::Neg { val: val(v), name, res }],
        Op::ZExt { ty, val: v } => seq![Request::ZExt { ty, val: val(v), name, res }],
        Op::Trunc { ty, val: v } => seq![Request::Trunc { ty, val: val(v), name, res }],
        Op::Cmp { pred, lhs, rhs, .. } => seq![
            Request::Cmp { pred, lhs: val(lhs), rhs: val(rhs), name, res },
        ],
        Op::Select { cond, yes, no, .. } => seq![
            Request::Select { cond: val(cond), yes: val(yes), no: val(no), name, res },
        ],
        Op::Bswap { ty, val: v } => seq![
            Request::Call { function: u.intrinsics[swap_index(ty)], args: seq![val(v)], name, res },
        ],
        Op::Call { helper, args } => seq![
            Request::Call {
                function: u.helpers@[helper],
                args: seq![val(args[0]), val(args[1]), val(args[2]), val(args[3]), val(args[4])],
                name: numbered_name(name, helper as nat),
                res,
            },
        ],
        Op::Br { block } => seq![Request::Br { block: u.blocks@[block as int] }],
        Op::CondBr { cond, yes, no } => seq![
            Request::CondBr {
                cond: val(cond),
                target: u.blocks@[yes as int],
                fallthrough: u.blocks@[no as int],
            },
        ],
        Op::Ret { val: v } => seq![Request::Ret { val: val(v) }],
        Op::Position { block } => seq![Request::Position { block: u.blocks@[block as int] }],
    }
}

/// What LLVM is asked for the instructions from number `from` up to number `to`.
pub open spec fn asked<'ctx>(u: Unit<'ctx>, code: Seq<Inst>, from: int, to: int) -> Seq<
    Request<'ctx>,
>
    decreases to - from,
{
    if to <= from {
        seq![]
    } else {
        asked(u, code, from, to - 1) + request_of(u, code[to - 1], to - 1)
    }
}

/// What is asked for one instruction after another is what is asked for the first of
/// them and then for the rest, and for one instruction it is what that one needs.
pub proof fn law_asked_in_order(u: Unit<'_>, code: Seq<Inst>, from: int, mid: int, to: int)
    requires
        from <= mid <= to,
    ensures
        asked(u, code, from, to) == asked(u, code, from, mid) + asked(u, code, mid, to),
        asked(u, code, from, from).len() == 0,
        asked(u, code, from, from + 1) == request_of(u, code[from], from),
    decreases to - mid,
{
    reveal_with_fuel(asked, 2);
    assert(asked(u, code, from, from + 1) =~= request_of(u, code[from], from));
    if mid == to {
        assert(asked(u, code, from, to) =~= asked(u, code, from, mid) + asked(u, code, mid, to));
    } else {
        law_asked_in_order(u, code, from, mid, to - 1);
        assert(asked(u, code, from, to) =~= asked(u, code, from, mid) + asked(u, code, mid, to));
    }
}

/// Whether a unit has the context of another and all its handles.
pub open spec fn has_handles<'ctx>(u: Unit<'ctx>, of: Unit<'ctx>) -> bool {
    &&& u.context == of.context
    &&& u.declared@ == of.declared@
    &&& u.function == of.function
    &&& u.intrinsics == of.intrinsics
    &&& u.helpers == of.helpers
    &&& u.slots == of.slots
    &&& of.blocks@.len() <= u.blocks@.len()
    &&& forall|i: int| 0 <= i < of.blocks@.len() ==> u.blocks@[i] == #[trigger] of.blocks@[i]
    &&& of.made@.len() <= u.made@.len()
    &&& forall|i: int| 0 <= i < of.made@.len() ==> u.made@[i] == #[trigger] of.made@[i]
}

/// What has been asked is told over more handles as over fewer.
pub proof fn law_asked_stays(u: Unit<'_>, of: Unit<'_>, code: Seq<Inst>, from: int, to: int)
    requires
        0 <= from,
        to <= code.len(),
        has_handles(u, of),
        to <= of.made@.len(),
        well_typed(code, of.scope()),
    ensures
        asked(u, code, from, to) == asked(of, code, from, to),
    decreases to - from,
{
    if from < to {
        law_asked_stays(u, of, code, from, to - 1);
        assert(fits(code.take(to - 1), of.scope(), code[to - 1].op));
        lemma_request_stays(u, of, code, to - 1);
    }
}

proof fn lemma_request_stays(u: Unit<'_>, of: Unit<'_>, code: Seq<Inst>, i: int)
    requires
        0 <= i < code.len(),
        has_handles(u, of),
        i < of.made@.len(),
        fits(code.take(i), of.scope(), code[i].op),
    ensures
        request_of(u, code[i], i) == request_of(of, code[i], i),
{
    assert(u.made@[i] == of.made@[i]);
    assert forall|v: usize| v < i implies #[trigger] u.made@[v as int] == of.made@[
        v as int
    ] by {}
    match code[i].op {
        Op::Call { helper, args } => {
            assert(has_ty(code.take(i), args[0], Ty::I64));
            assert(has_ty(code.take(i), args[1], Ty::I64));
            assert(has_ty(code.take(i), args[2], Ty::I64));
            assert(has_ty(code.take(i), args[3], Ty::I64));
            assert(has_ty(code.take(i), args[4], Ty::I64));
        },
        _ => {},
    }
}

/// An instruction that became a result and nothing else.
fn result_made<'ctx>(val: IntValue<'ctx>) -> (res: Made<'ctx>)
    ensures
        res == (Made { value: Some(val), pointer: None, access: None }),
{
    Made { value: Some(val), pointer: None, access: None }
}

/// An instruction that has no result, pointer or access.
fn nothing_made<'ctx>() -> (res: Made<'ctx>)
    ensures
        res == (Made { value: None, pointer: None, access: None }),
{
    Made { value: None, pointer: None, access: None }
}

impl<'ctx> Unit<'ctx> {
    /// What instructions may refer to.
    pub open spec fn scope(self) -> Scope {
        Scope {
            blocks: self.blocks@.len(),
            slots: self.slots@.len(),
            helpers: self.helpers@.dom(),
        }
    }

    /// Whether the functions have the types that calls of them need, and the
    /// slots hold 64 bits.
    pub open spec fn handles_ok(self) -> bool {
        &&& signature(self.function) == Signature::Main
        &&& signature(self.intrinsics[0]) == (Signature::Swap { ty: Ty::I16 })
        &&& signature(self.intrinsics[1]) == (Signature::Swap { ty: Ty::I32 })
        &&& signature(self.intrinsics[2]) == (Signature::Swap { ty: Ty::I64 })
        &&& forall|k: u32| #[trigger]
            self.helpers@.contains_key(k) ==> signature(self.helpers@[k]) == Signature::Helper
        &&& forall|i: int|
            0 <= i < self.slots@.len() ==> pointee(#[trigger] self.slots@[i]) == Some(
                Ty::I64,
            )
    }

    /// Whether there is a handle for the result of each of the instructions.
    pub open spec fn values_ok(self, code: Seq<Inst>) -> bool {
        &&& self.made@.len() == code.len()
        &&& forall|i: int|
            0 <= i < code.len() ==> value_ok((#[trigger] code[i]).op, self.made@[i].value)
    }

    /// The handle of the result of an instruction.
    fn value(&self, val: usize) -> (res: IntValue<'ctx>)
        requires
            val < self.made@.len(),
            self.made@[val as int].value is Some,
        ensures
            res == self.made@[val as int].value->0,
    {
        self.made[val].value.unwrap()
    }

    /// Asks for a parameter that is a pointer, as an integer.
    fn emit_ptr_param(&mut self, index: u32, name: &str) -> (res: Made<'ctx>)
        requires
            positioned(old(self).builder),
            signature(old(self).function) == Signature::Main,
            index == 0 || index == 2,
        ensures
            requests(final(self).module) == requests(old(self).module) + seq![
                Request::PtrParam { function: old(self).function, index, ptr: res.pointer->0 },
                Request::NamePtr { ptr: res.pointer->0, name: name@ },
                Request::PtrToInt { ptr: res.pointer->0, name: ""@, res: res.value->0 },
            ],
            same_tables(*old(self), *final(self)),
            res.value is Some && int_ty(res.value->0) == Ty::I64,
    {
        let ptr = self.ptr_param(index);
        self.name_ptr(ptr, name);
        let val = self.build_ptr_to_int(ptr, int_type(self.context, Ty::I64), "");
        Made { value: Some(val), pointer: Some(ptr), access: None }
    }

    /// Asks for the stack of a program.
    fn emit_stack(&mut self, size: u32, name: &str) -> (res: Made<'ctx>)
        requires
            positioned(old(self).builder),
        ensures
            requests(final(self).module) == requests(old(self).module) + seq![
                Request::Area { ty: Ty::I8, len: size, name: STACK_NAME@, ptr: res.pointer->0 },
                Request::PtrToInt { ptr: res.pointer->0, name: name@, res: res.value->0 },
            ],
            same_tables(*old(self), *final(self)),
            res.value is Some && int_ty(res.value->0) == Ty::I64,
    {
        let ptr = self.build_area(array_type(int_type(self.context, Ty::I8), size), STACK_NAME);
        let val = self.build_ptr_to_int(ptr, int_type(self.context, Ty::I64), name);
        Made { value: Some(val), pointer: Some(ptr), access: None }
    }

    /// Asks for a register, or the part of its slot that has the type.
    fn emit_load_reg(&mut self, ty: Ty, slot: PointerValue<'ctx>, name: &str) -> (res: Made<'ctx>)
        requires
            positioned(old(self).builder),
            pointee(slot) == Some(Ty::I64),
        ensures
            requests(final(self).module) == requests(old(self).module) + if ty == Ty::I64 {
                seq![
                    Request::Load {
                        ptr: slot,
                        name: name@,
                        res: res.value->0,
                        inst: res.access->0,
                    },
                    Request::Align { inst: res.access->0, bytes: ALIGNMENT },
                ]
            } else {
                seq![
                    Request::PtrCast { ty, from: slot, name: ""@, ptr: res.pointer->0 },
                    Request::Load {
                        ptr: res.pointer->0,
                        name: name@,
                        res: res.value->0,
                        inst: res.access->0,
                    },
                ]
            },
            same_tables(*old(self), *final(self)),
            res.value is Some && int_ty(res.value->0) == ty,
    {
        if ty == Ty::I64 {
            let (val, inst) = self.build_load(slot, name);
            self.align(inst, ALIGNMENT);
            Made { value: Some(val), pointer: None, access: Some(inst) }
        } else {
            let ptr = self.build_ptr_cast(slot, ptr_type(int_type(self.context, ty)), "");
            let (val, inst) = self.build_load(ptr, name);
            Made { value: Some(val), pointer: Some(ptr), access: Some(inst) }
        }
    }

    /// Asks for a store.
    fn emit_store(
        &mut self,
        ptr: PointerValue<'ctx>,
        val: IntValue<'ctx>,
        aligned: bool,
    ) -> (res: InstructionValue<'ctx>)
        requires
            positioned(old(self).builder),
            pointee(ptr) == Some(int_ty(val)),
        ensures
            requests(final(self).module) == requests(old(self).module) + store_requests(
                ptr,
                val,
                aligned,
                res,
            ),
            same_tables(*old(self), *final(self)),
    {
        let inst = self.build_store(ptr, val);
        if aligned {
            self.align(inst, ALIGNMENT);
        }
        inst
    }

    /// Asks for the integer at an address.
    fn emit_load(&mut self, ty: Ty, addr: IntValue<'ctx>, name: &str) -> (res: Made<'ctx>)
        requires
            positioned(old(self).builder),
            int_ty(addr) == Ty::I64,
        ensures
            requests(final(self).module) == requests(old(self).module) + seq![
                Request::IntToPtr { ty, val: addr, name: ""@, ptr: res.pointer->0 },
                Request::Load {
                    ptr: res.pointer->0,
                    name: name@,
                    res: res.value->0,
                    inst: res.access->0,
                },
            ],
            same_tables(*old(self), *final(self)),
            res.value is Some && int_ty(res.value->0) == ty,
    {
        let ptr = self.build_int_to_ptr(addr, ptr_type(int_type(self.context, ty)), "");
        let (val, inst) = self.build_load(ptr, name);
        Made { value: Some(val), pointer: Some(ptr), access: Some(inst) }
    }

    /// Asks for an integer to go to an address.
    fn emit_store_at(
        &mut self,
        ty: Ty,
        addr: IntValue<'ctx>,
        val: IntValue<'ctx>,
        aligned: bool,
    ) -> (res: Made<'ctx>)
        requires
            positioned(old(self).builder),
            int_ty(addr) == Ty::I64,
            int_ty(val) == ty,
        ensures
            requests(final(self).module) == requests(old(self).module) + (seq![
                Request::IntToPtr { ty, val: addr, name: ""@, ptr: res.pointer->0 },
            ] + store_requests(res.pointer->0, val, aligned, res.access->0)),
            same_tables(*old(self), *final(self)),
            res.value is None,
    {
        let ptr = self.build_int_to_ptr(addr, ptr_type(int_type(self.context, ty)), "");
        let inst = self.emit_store(ptr, val, aligned);
        Made { value: None, pointer: Some(ptr), access: Some(inst) }
    }

    /// Asks for a binary operation.
    fn emit_bin(
        &mut self,
        op: BinOp,
        lhs: IntValue<'ctx>,
        rhs: IntValue<'ctx>,
        name: &str,
    ) -> (res: IntValue<'ctx>)
        requires
            positioned(old(self).builder),
            int_ty(lhs) == int_ty(rhs),
        ensures
            requests(final(self).module) == requests(old(self).module).push(
                Request::Bin { op, lhs, rhs, name: name@, res },
            ),
            same_tables(*old(self), *final(self)),
            int_ty(res) == int_ty(lhs),
    {
        match op {
            BinOp::Add => self.build_add(lhs, rhs, name),
            BinOp::Sub => self.build_sub(lhs, rhs, name),
            BinOp::Mul => self.build_mul(lhs, rhs, name),
            BinOp::UDiv => self.build_udiv(lhs, rhs, name),
            BinOp::URem => self.build_urem(lhs, rhs, name),
            BinOp::And => self.build_and(lhs, rhs, name),
            BinOp::Or => self.build_or(lhs, rhs, name),
            BinOp::Xor => self.build_xor(lhs, rhs, name),
            BinOp::Shl => self.build_shl(lhs, rhs, name),
            BinOp::LShr => self.build_shr(lhs, rhs, false, name),
            BinOp::AShr => self.build_shr(lhs, rhs, true, name),
        }
    }

    /// Asks for instruction `i`, whose operands have their handles.
    #[verifier::rlimit(40)]
    pub(crate) fn emit(&mut self, code: &Code, i: usize)
        requires
            i < code@.len(),
            old(self).handles_ok(),
            old(self).values_ok(code@.take(i as int)),
            fits(code@.take(i as int), old(self).scope(), code@[i as int].op),
            positioned(old(self).builder) || code@[i as int].op is Position,
        ensures
            requests(final(self).module) == requests(old(self).module) + request_of(
                *final(self),
                code@[i as int],
                i as int,
            ),
            positioned(final(self).builder),
            final(self).values_ok(code@.take(i + 1)),
            final(self).made@ == old(self).made@.push(final(self).made@[i as int]),
            *final(self) == (Unit {
                module: final(self).module,
                builder: final(self).builder,
                made: final(self).made,
                ..*old(self)
            }),
    {
        let ghost before = code@.take(i as int);
        proof {
            assert(code@.take(i + 1).drop_last() == before);
            assert(forall|k: int| 0 <= k < i ==> before[k] == code@[k]);
        }
        let inst = code.insts[i];
        let name = inst.name;
        let made: Made<'ctx> = match inst.op {
            Op::Const { ty, bits } => result_made(const_int(int_type(self.context, ty), bits)),
            Op::PtrParam { index } => self.emit_ptr_param(index, name),
            Op::IntParam { index } => result_made(self.int_param(index)),
            Op::Stack { size } => self.emit_stack(size, name),
            Op::LoadReg { ty, reg } => self.emit_load_reg(ty, self.slots[reg], name),
            Op::StoreReg { reg, val, aligned } => {
                let inst = self.emit_store(self.slots[reg], self.value(val), aligned);
                Made { value: None, pointer: None, access: Some(inst) }
            },
            Op::Load { ty, addr } => self.emit_load(ty, self.value(addr), name),
            Op::Store { ty, addr, val, aligned } => {
                self.emit_store_at(ty, self.value(addr), self.value(val), aligned)
            },
            Op::Bin { op, lhs, rhs, .. } => {
                result_made(self.emit_bin(op, self.value(lhs), self.value(rhs), name))
            },
            Op::Neg { val, .. } => result_made(self.build_neg(self.value(val), name)),
            Op::ZExt { ty, val } => {
                result_made(self.build_zext(self.value(val), int_type(self.context, ty), name))
            },
            Op::Trunc { ty, val } => {
                result_made(self.build_trunc(self.value(val), int_type(self.context, ty), name))
            },
            Op::Cmp { pred, lhs, rhs, .. } => {
                result_made(self.build_compare(pred, self.value(lhs), self.value(rhs), name))
            },
            Op::Select { cond, yes, no, .. } => {
                result_made(
                    self.build_select(self.value(cond), self.value(yes), self.value(no), name),
                )
            },
            Op::Bswap { ty, val } => {
                let function = match ty {
                    Ty::I16 => self.intrinsics[0],
                    Ty::I32 => self.intrinsics[1],
                    _ => self.intrinsics[2],
                };
                result_made(self.call_swap(function, self.value(val), name))
            },
            Op::Call { helper, args } => result_made(self.emit_call(helper, args, name)),
            Op::Br { block } => {
                self.build_br(self.blocks[block]);
                nothing_made()
            },
            Op::CondBr { cond, yes, no } => {
                self.build_cond_br(self.value(cond), self.blocks[yes], self.blocks[no]);
                nothing_made()
            },
            Op::Ret { val } => {
                self.build_ret(self.value(val));
                nothing_made()
            },
            Op::Position { block } => {
                self.position(self.blocks[block]);
                nothing_made()
            },
        };
        self.made.push(made);
    }

    /// Asks for the instructions from number `from` to the end.
    pub(crate) fn emit_from(&mut self, code: &Code, from: usize)
        requires
            from <= code@.len(),
            old(self).handles_ok(),
            old(self).values_ok(code@.take(from as int)),
            well_typed(code@, old(self).scope()),
            positioned(old(self).builder) || from < code@.len()
                && code@[from as int].op is Position,
        ensures
            requests(final(self).module) == requests(old(self).module) + asked(
                *final(self),
                code@,
                from as int,
                code@.len() as int,
            ),
            positioned(final(self).builder),
            final(self).values_ok(code@),
            has_handles(*final(self), *old(self)),
            *final(self) == (Unit {
                module: final(self).module,
                builder: final(self).builder,
                made: final(self).made,
                ..*old(self)
            }),
    {
        let mut i: usize = from;
        assert(requests(self.module) == requests(old(self).module) + asked(
            *self,
            code@,
            from as int,
            i as int,
        ));
        while i < code.insts.len()
            invariant
                from <= i <= code@.len(),
                self.handles_ok(),
                self.values_ok(code@.take(i as int)),
                well_typed(code@, self.scope()),
                positioned(self.builder) || i < code@.len() && code@[i as int].op is Position,
                i > from ==> positioned(self.builder),
                requests(self.module) == requests(old(self).module) + asked(
                    *self,
                    code@,
                    from as int,
                    i as int,
                ),
                has_handles(*self, *old(self)),
                *self == (Unit {
                    module: self.module,
                    builder: self.builder,
                    made: self.made,
                    ..*old(self)
                }),
            decreases code@.len() - i,
        {
            let ghost before = *self;
            self.emit(code, i);
            proof {
                law_asked_stays(*self, before, code@, from as int, i as int);
                assert(asked(*self, code@, from as int, i + 1) == asked(
                    *self,
                    code@,
                    from as int,
                    i as int,
                ) + request_of(*self, code@[i as int], i as int));
            }
            i = i + 1;
        }
        assert(code@.take(code@.len() as int) == code@);
    }

    /// Asks for the call of a helper function.
    fn emit_call(&mut self, helper: u32, args: [usize; 5], name: &str) -> (res: IntValue<'ctx>)
        requires
            positioned(old(self).builder),
            old(self).handles_ok(),
            old(self).helpers@.contains_key(helper),
            forall|k: int|
                0 <= k < 5 ==> (#[trigger] args[k]) < old(self).made@.len()
                    && old(self).made@[args[k] as int].value is Some && int_ty(
                    old(self).made@[args[k] as int].value->0,
                ) == Ty::I64,
        ensures
            ({
                let val = |v: usize| old(self).made@[v as int].value->0;
                requests(final(self).module) == requests(old(self).module).push(
                    Request::Call {
                        function: old(self).helpers@[helper],
                        args: seq![
                            val(args[0]),
                            val(args[1]),
                            val(args[2]),
                            val(args[3]),
                            val(args[4]),
                        ],
                        name: numbered_name(name@, helper as nat),
                        res,
                    },
                )
            }),
            same_tables(*old(self), *final(self)),
            int_ty(res) == Ty::I64,
    {
        let function = *self.helpers.get(&helper).unwrap();
        let values = [
            self.value(args[0]),
            self.value(args[1]),
            self.value(args[2]),
            self.value(args[3]),
            self.value(args[4]),
        ];
        let call_name = numbered(name, helper as u64);
        assert(values@ == seq![
            self.made@[args[0] as int].value->0,
            self.made@[args[1] as int].value->0,
            self.made@[args[2] as int].value->0,
            self.made@[args[3] as int].value->0,
            self.made@[args[4] as int].value->0,
        ]);
        self.call_helper(function, values, call_name.as_str())
    }
}

} // verus!
