//! The compiler: eBPF programs to LLVM modules.
use crate::accept::{is_end, is_good, is_walk, law_readable, law_translatable};
use crate::cfg::{
    entry_graph, graph_ok, graph_with, is_readable, law_labels_stay, linked, readable, Cfg, Draft,
    ENTRY_BLOCK,
};
use crate::correct::function_code;
use crate::ebpf::{insn_at, NUM_REGS};
use crate::emit::{asked, has_handles, request_of};
use crate::error::Error;
use crate::ir::{fits, has_ty, well_typed, Inst, Op, Scope, Ty};
use crate::label::{helper_symbol, numbered, numbered_name};
use crate::layout::{law_translation_extends, starts_with};
use crate::llvm::{
    add_function, bitcode, create_builder, create_engine, create_module, engine_byte_order,
    engine_order, has_slot, helper_type, int_type, links, loaded, main_type, map_function,
    parse_bitcode, parses, pointee, positioned, ptr_type, requests, signature, swap_type, text,
    type_signature, Made, Request, Signature, Unit,
};
use crate::translate::{
    is_translatable, prologue_code, translatable, translation_from, Code, Setting, MEM_START,
};
use crate::typing::{law_prologue_typed, law_translation_typed, scope_of};
use crate::word::ByteOrder;
use inkwell::basic_block::BasicBlock;
use inkwell::context::Context;
use inkwell::execution_engine::ExecutionEngine;
use inkwell::module::Module;
use inkwell::values::{FunctionValue, PointerValue};
use std::collections::HashMap;
use vstd::prelude::*;

verus! {

/// The name of the function that a program becomes.
pub const PROG_NAME: &'static str = "main";

/// Compiles eBPF programs to one function of an LLVM module.
pub struct LLVMCompiler<'ctx> {
    /// The module and its handles.
    pub unit: Unit<'ctx>,
    /// The blocks of the function.
    pub cfg: Cfg,
    /// The instructions that have been asked for.
    pub code: Code,
    /// The byte order of the machine that will run the function.
    pub byte_ordering: ByteOrder,
}

impl<'ctx> LLVMCompiler<'ctx> {
    /// Whether the handles fit the blocks and the instructions.
    pub open spec fn wf(self) -> bool {
        &&& self.unit.handles_ok()
        &&& self.unit.values_ok(self.code@)
        &&& positioned(self.unit.builder)
        &&& well_typed(self.code@, self.unit.scope())
        &&& has_ty(self.code@, MEM_START, Ty::I64)
        &&& graph_ok(self.cfg@)
        &&& self.unit.blocks@.len() == self.cfg@.labels.len()
        &&& self.unit.slots@.len() == NUM_REGS
        &&& self.unit.slots@.no_duplicates()
    }

    /// What the translation of a program depends on.
    pub open spec fn setting(self) -> Setting {
        Setting {
            order: self.byte_ordering,
            helpers: self.unit.helpers@.dom(),
            graph: self.cfg@,
            mem_start: MEM_START,
        }
    }

    /// Whether a program can be compiled, up to its first call of a helper
    /// function that has not been declared.
    pub open spec fn compilable(self, prog: Seq<u8>) -> bool {
        &&& readable(prog, 0)
        &&& translatable(self.byte_ordering, self.unit.helpers@.dom(), prog, 0)
    }
}

/// The blocks from number `from` on, as they have been asked for.
pub open spec fn block_requests<'ctx>(u: Unit<'ctx>, labels: Seq<Seq<char>>, from: int) -> Seq<
    Request<'ctx>,
> {
    Seq::new(
        (labels.len() - from) as nat,
        |k: int|
            Request::Block {
                function: u.function,
                label: labels[from + k],
                block: u.blocks@[from + k],
            },
    )
}

impl<'ctx> LLVMCompiler<'ctx> {
    /// Appends the blocks that have a label and no handle yet.
    fn append_blocks(&mut self)
        requires
            old(self).unit.blocks@.len() <= old(self).cfg@.labels.len(),
        ensures
            requests(final(self).unit.module) == requests(old(self).unit.module) + block_requests(
                final(self).unit,
                final(self).cfg@.labels,
                old(self).unit.blocks@.len() as int,
            ),
            positioned(final(self).unit.builder) == positioned(old(self).unit.builder),
            final(self).unit.blocks@.len() == final(self).cfg@.labels.len(),
            has_handles(final(self).unit, old(self).unit),
            *final(self) == (LLVMCompiler {
                unit: Unit {
                    module: final(self).unit.module,
                    builder: final(self).unit.builder,
                    blocks: final(self).unit.blocks,
                    ..old(self).unit
                },
                ..*old(self)
            }),
    {
        let ghost from = self.unit.blocks@.len() as int;
        assert(requests(self.unit.module) =~= requests(old(self).unit.module) + block_requests(
            self.unit,
            self.cfg@.labels.take(self.unit.blocks@.len() as int),
            from,
        ));
        while self.unit.blocks.len() < self.cfg.labels.len()
            invariant
                from == old(self).unit.blocks@.len(),
                from <= self.unit.blocks@.len() <= self.cfg@.labels.len(),
                positioned(self.unit.builder) == positioned(old(self).unit.builder),
                requests(self.unit.module) == requests(old(self).unit.module) + block_requests(
                    self.unit,
                    self.cfg@.labels.take(self.unit.blocks@.len() as int),
                    from,
                ),
                has_handles(self.unit, old(self).unit),
                *self == (LLVMCompiler {
                    unit: Unit {
                        module: self.unit.module,
                        builder: self.unit.builder,
                        blocks: self.unit.blocks,
                        ..old(self).unit
                    },
                    ..*old(self)
                }),
            decreases self.cfg@.labels.len() - self.unit.blocks@.len(),
        {
            let ghost before = self.unit;
            let i: usize = self.unit.blocks.len();
            let block = self.unit.append_block(self.cfg.labels[i].as_str());
            self.unit.blocks.push(block);
            proof {
                let old_part = block_requests(before, self.cfg@.labels.take(i as int), from);
                let new_part = block_requests(self.unit, self.cfg@.labels.take(i + 1), from);
                assert(new_part == old_part.push(
                    Request::Block {
                        function: before.function,
                        label: self.cfg@.labels[i as int],
                        block,
                    },
                ));
            }
        }
        assert(self.cfg@.labels.take(self.cfg@.labels.len() as int) == self.cfg@.labels);
    }
}

/// The helper functions, as they have been asked for.
pub open spec fn helper_requests<'ctx>(
    keys: Seq<u32>,
    functions: Map<u32, FunctionValue<'ctx>>,
) -> Seq<Request<'ctx>> {
    Seq::new(
        keys.len(),
        |i: int|
            Request::Function {
                name: helper_symbol(keys[i]),
                sig: Signature::Helper,
                function: functions[keys[i]],
            },
    )
}

/// Declares a helper function for each key, and returns the keys in the order
/// of the declarations, and the functions.
fn declare_helpers<'ctx, H>(
    module: &mut Module<'ctx>,
    context: &'ctx Context,
    helpers: &HashMap<u32, H>,
) -> (res: (Vec<u32>, HashMap<u32, FunctionValue<'ctx>>))
    ensures
        res.0@.no_duplicates(),
        res.0@.to_set() == helpers@.dom(),
        res.1@.dom() == helpers@.dom(),
        forall|k: u32| #[trigger]
            res.1@.contains_key(k) ==> signature(res.1@[k]) == Signature::Helper,
        requests(*final(module)) == requests(*old(module)) + helper_requests(res.0@, res.1@),
{
    let mut declared: Vec<u32> = Vec::new();
    let mut functions: HashMap<u32, FunctionValue<'ctx>> = HashMap::new();
    let ty = helper_type(int_type(context, Ty::I64));
    assert(requests(*module) =~= requests(*old(module)) + helper_requests(declared@, functions@));
    for k in it: helpers.keys()
        invariant
            it.seq().no_duplicates(),
            it.seq().unref().to_set() == helpers@.dom(),
            declared@ == it.seq().unref().take(it.index()),
            it.index() == it.seq().len() ==> declared@.to_set() == helpers@.dom(),
            functions@.dom() == declared@.to_set(),
            forall|k: u32| #[trigger]
                functions@.contains_key(k) ==> signature(functions@[k]) == Signature::Helper,
            type_signature(ty) == Signature::Helper,
            requests(*module) == requests(*old(module)) + helper_requests(
                declared@,
                functions@,
            ),
    {
        let name = numbered("helper_", *k as u64);
        let function = add_function(module, name.as_str(), ty);
        let ghost before = declared@;
        declared.push(*k);
        functions.insert(*k, function);
        proof {
            before.lemma_push_to_set_commute(*k);
            assert(it.seq().unref().take(it.seq().len() as int) == it.seq().unref());
        }
    }
    (declared, functions)
}

/// The slots of the registers, as they have been asked for.
pub open spec fn slot_requests<'ctx>(slots: Seq<PointerValue<'ctx>>) -> Seq<Request<'ctx>> {
    Seq::new(
        slots.len(),
        |i: int| Request::Slot { name: numbered_name("r"@, i as nat), slot: slots[i] },
    )
}

/// The functions of a module, as they have been asked for.
pub open spec fn function_requests<'ctx>(u: Unit<'ctx>) -> Seq<Request<'ctx>> {
    seq![
        Request::Module { name: "ebpf_module"@ },
        Request::Function {
            name: "llvm.bswap.i16"@,
            sig: Signature::Swap { ty: Ty::I16 },
            function: u.intrinsics[0],
        },
        Request::Function {
            name: "llvm.bswap.i32"@,
            sig: Signature::Swap { ty: Ty::I32 },
            function: u.intrinsics[1],
        },
        Request::Function {
            name: "llvm.bswap.i64"@,
            sig: Signature::Swap { ty: Ty::I64 },
            function: u.intrinsics[2],
        },
    ] + helper_requests(u.declared@, u.helpers@) + seq![
        Request::Function { name: PROG_NAME@, sig: Signature::Main, function: u.function },
    ]
}

/// What has been asked of LLVM before the first program: the functions, the
/// entry block, the slots of the registers and the prologue.
pub open spec fn first_requests<'ctx>(u: Unit<'ctx>) -> Seq<Request<'ctx>> {
    let code = prologue_code();
    function_requests(u) + block_requests(u, seq!["entry"@], 0) + asked(u, code, 0, 1)
        + slot_requests(u.slots@) + asked(u, code, 1, code.len() as int)
}

/// Whether a compiler is one to which no program has been added: it knows the
/// helper functions, and its module holds what comes before the first program.
pub open spec fn is_fresh<'ctx>(
    c: LLVMCompiler<'ctx>,
    helpers: Set<u32>,
    context: &'ctx Context,
    order: ByteOrder,
) -> bool {
    &&& c.wf()
    &&& c.byte_ordering == order
    &&& c.unit.context == context
    &&& c.unit.helpers@.dom() == helpers
    &&& c.unit.declared@.no_duplicates()
    &&& c.unit.declared@.to_set() == helpers
    &&& c.cfg@ == entry_graph()
    &&& c.code@ == prologue_code()
    &&& requests(c.unit.module) == first_requests(c.unit)
}

/// Whether LLVM has been asked for something.
pub open spec fn was_asked<'ctx>(asked: Seq<Request<'ctx>>, rq: Request<'ctx>) -> bool {
    exists|i: int| 0 <= i < asked.len() && #[trigger] asked[i] == rq
}

proof fn lemma_asked_more<'ctx>(a: Seq<Request<'ctx>>, b: Seq<Request<'ctx>>, rq: Request<'ctx>)
    requires
        was_asked(a, rq) || was_asked(b, rq),
    ensures
        was_asked(a + b, rq),
{
    if was_asked(a, rq) {
        let i = choose|i: int| 0 <= i < a.len() && #[trigger] a[i] == rq;
        assert((a + b)[i] == rq);
    } else {
        let i = choose|i: int| 0 <= i < b.len() && #[trigger] b[i] == rq;
        assert((a + b)[a.len() + i] == rq);
    }
}

/// A fresh compiler has asked for what its handles stand for: each helper function under
/// the symbol of its own key, the function `main`, the functions that swap 16, 32 and 64
/// bits, the entry block, and a slot for each register.
pub proof fn law_fresh<'ctx>(
    c: LLVMCompiler<'ctx>,
    helpers: Set<u32>,
    context: &'ctx Context,
    order: ByteOrder,
)
    requires
        is_fresh(c, helpers, context, order),
    ensures
        ({
            let asked = requests(c.unit.module);
            let u = c.unit;
            &&& forall|k: u32| #[trigger]
                helpers.contains(k) ==> was_asked(
                    asked,
                    Request::Function {
                        name: numbered_name("helper_"@, k as nat),
                        sig: Signature::Helper,
                        function: u.helpers@[k],
                    },
                )
            &&& was_asked(
                asked,
                Request::Function { name: "main"@, sig: Signature::Main, function: u.function },
            )
            &&& was_asked(
                asked,
                Request::Function {
                    name: "llvm.bswap.i16"@,
                    sig: Signature::Swap { ty: Ty::I16 },
                    function: u.intrinsics[0],
                },
            )
            &&& was_asked(
                asked,
                Request::Function {
                    name: "llvm.bswap.i32"@,
                    sig: Signature::Swap { ty: Ty::I32 },
                    function: u.intrinsics[1],
                },
            )
            &&& was_asked(
                asked,
                Request::Function {
                    name: "llvm.bswap.i64"@,
                    sig: Signature::Swap { ty: Ty::I64 },
                    function: u.intrinsics[2],
                },
            )
            &&& was_asked(
                asked,
                Request::Block { function: u.function, label: "entry"@, block: u.blocks@[0] },
            )
            &&& forall|r: int|
                0 <= r < 11 ==> was_asked(
                    asked,
                    Request::Slot {
                        name: numbered_name("r"@, r as nat),
                        slot: #[trigger] u.slots@[r],
                    },
                )
            &&& u.slots@.no_duplicates()
        }),
{
    let u = c.unit;
    let code = prologue_code();
    let functions = function_requests(u);
    let declared = helper_requests(u.declared@, u.helpers@);
    let entry = block_requests(u, seq!["entry"@], 0);
    let slots = slot_requests(u.slots@);
    let a = functions + entry;
    let b = a + asked(u, code, 0, 1);
    let d = b + slots;
    let all = d + asked(u, code, 1, code.len() as int);
    assert(requests(u.module) == all);
    assert forall|rq: Request<'ctx>| was_asked(functions, rq) implies #[trigger] was_asked(
        all,
        rq,
    ) by {
        lemma_asked_more(functions, entry, rq);
        lemma_asked_more(a, asked(u, code, 0, 1), rq);
        lemma_asked_more(b, slots, rq);
        lemma_asked_more(d, asked(u, code, 1, code.len() as int), rq);
    }
    assert(functions[1] is Function && functions[2] is Function && functions[3] is Function);
    assert forall|k: u32| #[trigger] helpers.contains(k) implies was_asked(
        all,
        Request::Function {
            name: numbered_name("helper_"@, k as nat),
            sig: Signature::Helper,
            function: u.helpers@[k],
        },
    ) by {
        assert(u.declared@.to_set().contains(k));
        let i = choose|i: int| 0 <= i < u.declared@.len() && u.declared@[i] == k;
        assert(functions[4 + i] == declared[i]);
    }
    assert(functions[4 + declared.len() as int] is Function);
    assert(entry[0] is Block);
    lemma_asked_more(functions, entry, entry[0]);
    lemma_asked_more(a, asked(u, code, 0, 1), entry[0]);
    lemma_asked_more(b, slots, entry[0]);
    lemma_asked_more(d, asked(u, code, 1, code.len() as int), entry[0]);
    assert forall|r: int| 0 <= r < 11 implies was_asked(
        all,
        Request::Slot { name: numbered_name("r"@, r as nat), slot: #[trigger] u.slots@[r] },
    ) by {
        let rq = slots[r];
        lemma_asked_more(b, slots, rq);
        lemma_asked_more(d, asked(u, code, 1, code.len() as int), rq);
    }
}

/// Each new block is asked for once, at the end of the function and under its own label, in
/// the order of their numbers.
pub proof fn law_blocks_asked<'ctx>(u: Unit<'ctx>, labels: Seq<Seq<char>>, from: int, i: int)
    requires
        0 <= from <= i < labels.len(),
    ensures
        block_requests(u, labels, from).len() == labels.len() - from,
        block_requests(u, labels, from)[i - from] == (Request::Block {
            function: u.function,
            label: labels[i],
            block: u.blocks@[i],
        }),
{
}

impl<'ctx> Unit<'ctx> {
    /// A module with the functions that a program needs.
    fn with_functions<H>(helpers: &HashMap<u32, H>, context: &'ctx Context) -> (unit: Self)
        ensures
            unit.handles_ok(),
            unit.context == context,
            unit.helpers@.dom() == helpers@.dom(),
            unit.declared@.no_duplicates(),
            unit.declared@.to_set() == helpers@.dom(),
            unit.slots@ == Seq::<PointerValue<'ctx>>::empty(),
            unit.blocks@ == Seq::<BasicBlock<'ctx>>::empty(),
            unit.made@ == Seq::<Made<'ctx>>::empty(),
            requests(unit.module) == function_requests(unit),
    {
        let mut module = create_module(context, "ebpf_module");
        let bswap16 = add_function(
            &mut module,
            "llvm.bswap.i16",
            swap_type(int_type(context, Ty::I16)),
        );
        let bswap32 = add_function(
            &mut module,
            "llvm.bswap.i32",
            swap_type(int_type(context, Ty::I32)),
        );
        let bswap64 = add_function(
            &mut module,
            "llvm.bswap.i64",
            swap_type(int_type(context, Ty::I64)),
        );
        let (declared, functions) = declare_helpers(&mut module, context, helpers);
        let ty = main_type(int_type(context, Ty::I64), ptr_type(int_type(context, Ty::I8)));
        let function = add_function(&mut module, PROG_NAME, ty);
        let unit = Unit {
            context,
            module,
            builder: create_builder(context),
            function,
            intrinsics: [bswap16, bswap32, bswap64],
            helpers: functions,
            declared,
            slots: Vec::new(),
            blocks: Vec::new(),
            made: Vec::new(),
        };
        assert(requests(unit.module) =~= function_requests(unit));
        unit
    }

    /// Makes the slots of the registers.
    fn build_slots(&mut self)
        requires
            positioned(old(self).builder),
            old(self).slots@.len() == 0,
        ensures
            positioned(final(self).builder),
            final(self).slots@.len() == NUM_REGS,
            final(self).slots@.no_duplicates(),
            forall|i: int|
                0 <= i < NUM_REGS ==> pointee(#[trigger] final(self).slots@[i]) == Some(Ty::I64),
            requests(final(self).module) == requests(old(self).module) + slot_requests(
                final(self).slots@,
            ),
            *final(self) == (Unit {
                module: final(self).module,
                builder: final(self).builder,
                slots: final(self).slots,
                ..*old(self)
            }),
    {
        assert(requests(self.module) =~= requests(old(self).module) + slot_requests(self.slots@));
        while self.slots.len() < NUM_REGS
            invariant
                self.slots@.len() <= NUM_REGS,
                self.slots@.no_duplicates(),
                forall|i: int|
                    0 <= i < self.slots@.len() ==> pointee(#[trigger] self.slots@[i]) == Some(Ty::I64),
                positioned(self.builder),
                requests(self.module) == requests(old(self).module) + slot_requests(self.slots@),
                *self == (Unit {
                    module: self.module,
                    builder: self.builder,
                    slots: self.slots,
                    ..*old(self)
                }),
            decreases NUM_REGS - self.slots@.len(),
        {
            let ghost before = self.slots@;
            let name = numbered("r", self.slots.len() as u64);
            let slot = self.build_slot(int_type(self.context, Ty::I64), name.as_str());
            proof {
                let asked = requests(old(self).module) + slot_requests(before);
                let from = requests(old(self).module).len();
                assert forall|i: int| 0 <= i < before.len() implies before[i] != slot by {
                    assert(asked[from + i] is Slot);
                    assert(has_slot(asked, before[i]));
                }
            }
            self.slots.push(slot);
            assert(slot_requests(self.slots@) == slot_requests(before).push(
                Request::Slot { name: name@, slot },
            ));
        }
    }
}

impl<'ctx> LLVMCompiler<'ctx> {
    /// A compiler for this machine, for programs that may call the helper
    /// functions with the given keys. The byte order is that of an engine which
    /// is made to find it out.
    pub fn new<H>(helpers: HashMap<u32, H>, context: &'ctx Context) -> (res: Result<Self, Error>)
        ensures
            match res {
                Ok(c) => {
                    &&& is_fresh(c, helpers@.dom(), context, c.byte_ordering)
                    &&& exists|engine: ExecutionEngine<'ctx>|
                        {
                            &&& #[trigger] engine_order(engine) == c.byte_ordering
                            &&& loaded(engine) == seq![Request::Module { name: "byte_ordering"@ }]
                        }
                },
                Err(error) => error == Error::NoEngine,
            },
    {
        let mut module = create_module(context, "byte_ordering");
        match create_engine(&mut module) {
            Ok(engine) => {
                let order = engine_byte_order(&engine);
                assert(engine_order(engine) == order);
                Ok(Self::with_byte_order(helpers, context, order))
            },
            Err(_) => Err(Error::NoEngine),
        }
    }

    /// A compiler for a machine of the given byte order, for programs that may
    /// call the helper functions with the given keys.
    pub fn with_byte_order<H>(
        helpers: HashMap<u32, H>,
        context: &'ctx Context,
        order: ByteOrder,
    ) -> (c: Self)
        ensures
            is_fresh(c, helpers@.dom(), context, order),
    {
        let mut c = LLVMCompiler {
            unit: Unit::with_functions(&helpers, context),
            cfg: Cfg::new(),
            code: Code::prologue(),
            byte_ordering: order,
        };
        c.append_blocks();
        proof {
            law_prologue_typed(helpers@.dom());
            assert(c.code@.take(0) =~= seq![]);
            assert(c.code@[0].op == (Op::Position { block: ENTRY_BLOCK }));
        }
        c.unit.emit(&c.code, 0);
        c.unit.build_slots();
        c.unit.emit_from(&c.code, 1);
        proof {
            reveal_with_fuel(asked, 2);
            assert(asked(c.unit, c.code@, 0, 1) =~= request_of(c.unit, c.code@[0], 0));
            assert(requests(c.unit.module) =~= first_requests(c.unit));
        }
        c
    }
}

/// A well typed list stays so when there are more blocks.
proof fn lemma_more_blocks(code: Seq<Inst>, scope: Scope, more: Scope)
    requires
        well_typed(code, scope),
        scope.blocks <= more.blocks,
        scope.slots == more.slots,
        scope.helpers == more.helpers,
    ensures
        well_typed(code, more),
{
    assert forall|i: int| 0 <= i < code.len() implies fits(
        code.take(i),
        more,
        (#[trigger] code[i]).op,
    ) by {
        assert(fits(code.take(i), scope, code[i].op));
    }
}

/// The bytes of a module, unless LLVM rejects them.
pub fn accepted(bytes: Vec<u8>, parsed: bool) -> (res: Result<Vec<u8>, Error>)
    ensures
        parsed ==> res == Ok::<Vec<u8>, Error>(bytes),
        !parsed ==> res == Err::<Vec<u8>, Error>(Error::Rejected),
{
    if parsed {
        Ok(bytes)
    } else {
        Err(Error::Rejected)
    }
}

impl<'ctx> LLVMCompiler<'ctx> {
    /// Whether a program can be compiled, up to its first call of a helper
    /// function that has not been declared.
    pub fn can_compile(&self, prog: &[u8]) -> (res: bool)
        ensures
            res == self.compilable(prog@),
    {
        is_readable(prog) && is_translatable(self.byte_ordering, &self.unit.helpers, prog)
    }

    /// Adds the translation of a program to the function, and returns the
    /// bytes that LLVM writes for the module. A call of a helper function that
    /// has not been declared is an error; what comes before it has been added.
    pub fn compile_function(&mut self, prog: &[u8]) -> (res: Result<Vec<u8>, Error>)
        requires
            old(self).wf(),
            old(self).compilable(prog@),
        ensures
            final(self).wf(),
            final(self).byte_ordering == old(self).byte_ordering,
            final(self).cfg@ == graph_with(old(self).cfg@, prog@),
            linked(final(self).cfg@, prog@, 0),
            has_handles(final(self).unit, old(self).unit),
            requests(final(self).unit.module) == requests(old(self).unit.module) + block_requests(
                final(self).unit,
                final(self).cfg@.labels,
                old(self).cfg@.labels.len() as int,
            ) + asked(
                final(self).unit,
                final(self).code@,
                old(self).code@.len() as int,
                final(self).code@.len() as int,
            ),
            ({
                let (code, unknown) = translation_from(
                    final(self).setting(),
                    old(self).code@,
                    prog@,
                    0,
                    false,
                );
                &&& final(self).code@ == code
                &&& starts_with(code, old(self).code@)
                &&& old(self).cfg@ == entry_graph() && old(self).code@ == prologue_code()
                    ==> function_code(
                    old(self).byte_ordering,
                    old(self).unit.helpers@.dom(),
                    prog@,
                ) == (code, unknown)
                &&& match unknown {
                    Some(id) => res == Err::<Vec<u8>, Error>(Error::UnknownHelper { id }),
                    None => if parses(
                        final(self).unit.context,
                        bitcode(final(self).unit.module),
                    ) {
                        res is Ok && res->Ok_0@ == bitcode(final(self).unit.module)
                    } else {
                        res == Err::<Vec<u8>, Error>(Error::Rejected)
                    },
                }
            }),
    {
        self.cfg.build_cfg(prog);
        proof {
            law_labels_stay(Draft { graph: old(self).cfg@, count: 0 }, prog@, 0);
        }
        self.append_blocks();
        let from: usize = self.code.insts.len();
        let ghost start = self.code@;
        proof {
            lemma_more_blocks(start, old(self).unit.scope(), self.unit.scope());
        }
        let translated = self.code.translate_program(
            prog,
            &self.cfg,
            &self.unit.helpers,
            self.byte_ordering,
            MEM_START,
        );
        proof {
            let set = self.setting();
            assert(self.code@.len() == self.code.insts.len());
            law_translation_extends(set, start, prog@, 0, false);
            law_translation_typed(set, start, prog@, 0, false);
            assert(self.code@.take(from as int) == start);
            assert(scope_of(set) == self.unit.scope());
        }
        self.unit.emit_from(&self.code, from);
        match translated {
            Ok(()) => {
                let bc = self.unit.write_bitcode();
                let parsed = parse_bitcode(self.unit.context, bc.as_slice()).is_ok();
                accepted(bc, parsed)
            },
            Err(error) => Err(error),
        }
    }

    /// The text that LLVM writes for the module.
    pub fn print_ir(&self) -> (ir: String)
        ensures
            ir@ == text(self.unit.module),
    {
        self.unit.print()
    }
}

/// Where calls of the helper functions with the given keys go.
pub open spec fn links_of<'ctx>(
    keys: Seq<u32>,
    functions: Map<u32, FunctionValue<'ctx>>,
    addrs: Map<u32, usize>,
) -> Seq<(FunctionValue<'ctx>, usize)> {
    Seq::new(keys.len(), |i: int| (functions[keys[i]], addrs[keys[i]]))
}

/// Whether an engine has been told where to find each of the helper functions, in
/// some order, and of no other function.
pub open spec fn is_linked<'ctx>(
    engine: ExecutionEngine<'ctx>,
    functions: Map<u32, FunctionValue<'ctx>>,
    addrs: Map<u32, usize>,
) -> bool {
    exists|keys: Seq<u32>|
        {
            &&& #[trigger] keys.no_duplicates()
            &&& keys.to_set() == addrs.dom()
            &&& links(engine) == links_of(keys, functions, addrs)
        }
}

/// Whether a list tells of each helper function of `addrs` its own address: the pair
/// of function and address stands in the list for each key, the list has as many
/// pairs as there are keys, and each is that of a key.
pub open spec fn tells_each<'ctx>(
    told: Seq<(FunctionValue<'ctx>, usize)>,
    functions: Map<u32, FunctionValue<'ctx>>,
    addrs: Map<u32, usize>,
) -> bool {
    &&& told.len() == addrs.dom().len()
    &&& forall|k: u32| #[trigger]
        addrs.contains_key(k) ==> told.contains((functions[k], addrs[k]))
    &&& forall|i: int| 0 <= i < told.len() ==> is_of_key(#[trigger] told[i], functions, addrs)
}

/// Whether a function and an address belong to one key.
pub open spec fn is_of_key<'ctx>(
    pair: (FunctionValue<'ctx>, usize),
    functions: Map<u32, FunctionValue<'ctx>>,
    addrs: Map<u32, usize>,
) -> bool {
    exists|k: u32| #[trigger] addrs.contains_key(k) && pair == (functions[k], addrs[k])
}

/// Calls of a helper function go to its own address: an engine that is linked has been
/// told the address of each key for the function of that key, and where the functions
/// differ it has been told no other address for that function.
pub proof fn law_helpers_linked<'ctx>(
    engine: ExecutionEngine<'ctx>,
    functions: Map<u32, FunctionValue<'ctx>>,
    addrs: Map<u32, usize>,
)
    requires
        is_linked(engine, functions, addrs),
    ensures
        tells_each(links(engine), functions, addrs),
        (forall|j: u32, k: u32|
            addrs.contains_key(j) && addrs.contains_key(k) && #[trigger] functions[j]
                == #[trigger] functions[k] ==> j == k) ==> forall|i: int, k: u32|
            0 <= i < links(engine).len() && addrs.contains_key(k) && (#[trigger] links(
                engine,
            )[i]).0 == #[trigger] functions[k] ==> links(engine)[i].1 == addrs[k],
{
    let keys = choose|keys: Seq<u32>|
        {
            &&& #[trigger] keys.no_duplicates()
            &&& keys.to_set() == addrs.dom()
            &&& links(engine) == links_of(keys, functions, addrs)
        };
    lemma_tells_each(keys, functions, addrs);
}

proof fn lemma_tells_each<'ctx>(
    keys: Seq<u32>,
    functions: Map<u32, FunctionValue<'ctx>>,
    addrs: Map<u32, usize>,
)
    requires
        keys.no_duplicates(),
        keys.to_set() == addrs.dom(),
    ensures
        tells_each(links_of(keys, functions, addrs), functions, addrs),
{
    let told = links_of(keys, functions, addrs);
    keys.unique_seq_to_set();
    assert forall|k: u32| #[trigger] addrs.contains_key(k) implies told.contains(
        (functions[k], addrs[k]),
    ) by {
        assert(keys.to_set().contains(k));
        let i = choose|i: int| 0 <= i < keys.len() && keys[i] == k;
        assert(told[i] == (functions[k], addrs[k]));
    }
    assert forall|i: int| 0 <= i < told.len() implies is_of_key(
        #[trigger] told[i],
        functions,
        addrs,
    ) by {
        assert(keys.to_set().contains(keys[i]));
        assert(addrs.contains_key(keys[i]));
        assert(told[i] == (functions[keys[i]], addrs[keys[i]]));
    }
}

/// A program can be compiled if its bytes fill whole slots, of which there are no more
/// than numbers of 32 bits, and each instruction on the walk through it can be
/// compiled and leads to a slot in the range of these numbers.
pub proof fn law_compilable<'ctx>(c: LLVMCompiler<'ctx>, prog: Seq<u8>, slots: Set<int>)
    requires
        is_walk(prog, slots),
        prog.len() % 8 == 0,
        prog.len() / 8 <= u32::MAX,
        forall|pc: int| #[trigger]
            slots.contains(pc) && 0 <= pc && 8 * pc < prog.len() ==> is_good(
                c.byte_ordering,
                prog,
                pc,
            ),
        forall|pc: int| #[trigger]
            slots.contains(pc) && 0 <= pc && 8 * pc < prog.len() && is_end(prog[8 * pc]) ==> 0 <= pc
                + 1 + insn_at(prog, pc).off <= u32::MAX,
    ensures
        c.compilable(prog),
{
    law_readable(prog, slots, 0);
    law_translatable(c.byte_ordering, c.unit.helpers@.dom(), prog, slots, 0);
}

impl<'ctx> LLVMCompiler<'ctx> {
    /// An engine that can run the module as it stands, in which calls of the
    /// helper functions go to the given addresses. There is none if LLVM cannot
    /// generate code for this machine, or if the module has one already; the
    /// compiler is to be dropped then.
    pub fn link(&mut self, addrs: &HashMap<u32, usize>) -> (res: Result<
        ExecutionEngine<'ctx>,
        Error,
    >)
        requires
            old(self).wf(),
            addrs@.dom().subset_of(old(self).unit.helpers@.dom()),
        ensures
            match res {
                Ok(engine) => {
                    &&& final(self).wf()
                    &&& requests(final(self).unit.module) == requests(old(self).unit.module)
                    &&& *final(self) == (LLVMCompiler {
                        unit: Unit { module: final(self).unit.module, ..old(self).unit },
                        ..*old(self)
                    })
                    &&& loaded(engine) == requests(final(self).unit.module)
                    &&& is_linked(engine, final(self).unit.helpers@, addrs@)
                    &&& tells_each(links(engine), final(self).unit.helpers@, addrs@)
                },
                Err(error) => error == Error::NoEngine,
            },
    {
        match create_engine(&mut self.unit.module) {
            Ok(mut engine) => {
                let keys = link_helpers(&mut engine, &self.unit.helpers, addrs);
                assert(keys@.no_duplicates());
                proof {
                    law_helpers_linked(engine, self.unit.helpers@, addrs@);
                }
                Ok(engine)
            },
            Err(_) => Err(Error::NoEngine),
        }
    }
}

/// Tells an engine where calls of the helper functions go, and returns the keys in
/// the order in which it was told.
pub fn link_helpers<'ctx>(
    engine: &mut ExecutionEngine<'ctx>,
    functions: &HashMap<u32, FunctionValue<'ctx>>,
    addrs: &HashMap<u32, usize>,
) -> (keys: Vec<u32>)
    requires
        addrs@.dom().subset_of(functions@.dom()),
        links(*old(engine)) == Seq::<(FunctionValue<'ctx>, usize)>::empty(),
    ensures
        keys@.no_duplicates(),
        keys@.to_set() == addrs@.dom(),
        links(*final(engine)) == links_of(keys@, functions@, addrs@),
        tells_each(links(*final(engine)), functions@, addrs@),
        loaded(*final(engine)) == loaded(*old(engine)),
{
    let mut keys: Vec<u32> = Vec::new();
    assert(links(*engine) =~= links_of(keys@, functions@, addrs@));
    for k in it: addrs.keys()
        invariant
            it.seq().no_duplicates(),
            it.seq().unref().to_set() == addrs@.dom(),
            keys@ == it.seq().unref().take(it.index()),
            it.index() == it.seq().len() ==> keys@.to_set() == addrs@.dom(),
            addrs@.dom().subset_of(functions@.dom()),
            links(*engine) == links_of(keys@, functions@, addrs@),
            loaded(*engine) == loaded(*old(engine)),
    {
        let ghost before = keys@;
        proof {
            assert(it.seq().unref()[it.index() as int] == *k);
            assert(it.seq().unref().to_set().contains(*k));
        }
        let function = *functions.get(k).unwrap();
        let addr: usize = *addrs.get(k).unwrap();
        map_function(engine, function, addr);
        keys.push(*k);
        proof {
            assert(links_of(keys@, functions@, addrs@) =~= links_of(
                before,
                functions@,
                addrs@,
            ).push((function, addr)));
            assert(it.index() + 1 == it.seq().len() ==> keys@ =~= it.seq().unref());
        }
    }
    proof {
        lemma_tells_each(keys@, functions@, addrs@);
    }
    keys
}

} // verus!
