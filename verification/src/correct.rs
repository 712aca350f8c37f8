//! A compiled program returns what the program returns.
use crate::cfg::{
    bytes_from, entry_graph, graph_ok, has_targets, jump_slot, law_graph_ok, law_jumps_linked,
    linked, next_slot, program_graph, readable, Draft, ENTRY_BLOCK,
};
use crate::ebpf::{action, ends_block, insn_at, Action, NUM_REGS};
use crate::ir::{block_start, enter, has_block, step, steps, Inst, Op, Run, State, Ty, World};
use crate::layout::{
    before, law_insn_adds, law_insn_in_place, law_next_follows, law_translation_extends,
    lemma_positions, lemma_reached_after, reached, starts_with,
};
use crate::machine::{
    advance, advance_by, faithful, first_regs, law_faithful_step, progress, progress_by, run_insn,
    storable, Machine, Progress,
};
use crate::simulate::{
    exec_to, law_insn_does_exactly, lemma_branch, lemma_exec_plus, machine_of, ready,
};
use crate::translate::{
    enter_code, fill_regs_code, insn_code, plus, prologue_code, sum_code, supported, translatable,
    translation_from, Setting, MEM_START, STACK_SIZE,
};
use crate::word::{wrap, ByteOrder, Memory};
use vstd::prelude::*;

verus! {

/// Steps add up.
proof fn lemma_steps_add(code: Seq<Inst>, world: World, run: Run, a: nat, b: nat)
    ensures
        steps(code, world, run, a + b) == steps(code, world, steps(code, world, run, a), b),
    decreases a,
{
    if a > 0 {
        lemma_steps_add(code, world, step(code, world, run), (a - 1) as nat, b);
    }
}

/// A run goes through instructions that neither leave nor enter a block.
proof fn lemma_exec_steps(full: Seq<Inst>, world: World, code: Seq<Inst>, from: int, st: State)
    requires
        starts_with(full, code),
        0 <= from <= code.len(),
        exec_to(world, code, from, st) is Some,
    ensures
        steps(full, world, Run::At { at: from, st }, (code.len() - from) as nat) == (Run::At {
            at: code.len() as int,
            st: exec_to(world, code, from, st)->0,
        }),
    decreases code.len(),
{
    if from < code.len() {
        let most = code.drop_last();
        lemma_exec_steps(full, world, most, from, st);
        let n = (most.len() - from) as nat;
        let run = Run::At { at: from, st };
        lemma_steps_add(full, world, run, n, 1);
        let at = steps(full, world, run, n);
        assert(full[code.len() - 1] == code[code.len() - 1]);
        reveal_with_fuel(steps, 2);
        assert(steps(full, world, at, 1) == step(full, world, at));
    }
}

/// What the translation of a whole program needs.
pub open spec fn compiles(set: Setting, start: Seq<Inst>, prog: Seq<u8>) -> bool {
    &&& readable(prog, 0)
    &&& graph_ok(set.graph)
    &&& linked(set.graph, prog, 0)
    &&& translatable(set.order, set.helpers, prog, 0)
    &&& translation_from(set, start, prog, 0, false).1 is None
    &&& translation_from(set, start, prog, 0, false).0.len() <= usize::MAX
    &&& set.mem_start < start.len()
    &&& forall|i: int|
        0 <= i < start.len() && (#[trigger] start[i]).op is Position ==> start[i].op == (
        Op::Position { block: ENTRY_BLOCK })
}

/// The instructions before the translation of the eBPF instruction at `pc`.
pub open spec fn place(set: Setting, start: Seq<Inst>, prog: Seq<u8>, pc: int) -> Seq<Inst> {
    before(set, start, prog, 0, false, pc)
}

/// A jump to the block of an instruction leads to the translation of the
/// instruction.
pub proof fn law_block_is_insn(set: Setting, start: Seq<Inst>, prog: Seq<u8>, pc: int, st: State)
    requires
        compiles(set, start, prog),
        reached(prog, 0, pc),
        pc < u32::MAX,
        set.graph.blocks.contains_key(pc as u32),
    ensures
        enter(
            translation_from(set, start, prog, 0, false).0,
            set.graph.blocks[pc as u32],
            st,
        ) == (Run::At { at: place(set, start, prog, pc).len() as int, st }),
{
    let full = translation_from(set, start, prog, 0, false).0;
    let block = set.graph.blocks[pc as u32];
    let here = place(set, start, prog, pc);
    law_insn_in_place(set, start, prog, 0, false, pc);
    law_insn_adds(set, here, prog, pc);
    let next = insn_code(set, here, prog, pc);
    let i = here.len() - 1;
    assert(full[i].op == (Op::Position { block })) by {
        assert(full[i] == next[i]);
        if ends_block(insn_at(prog, pc).opc) {
            assert(next.drop_last()[i] == here[i]);
        } else {
            assert(next[i] == here[i]);
        }
    }
    assert(has_block(full, block));
    let j = block_start(full, block) - 1;
    assert(0 <= j < full.len() && full[j].op == (Op::Position { block }));
    law_translation_extends(set, start, prog, 0, false);
    if j < start.len() {
        assert(full[j] == start[j]);
        assert(false);
    }
    let other = lemma_positions(set, start, prog, 0, false, j);
    lemma_reached_after(prog, 0, other);
    lemma_reached_after(prog, 0, pc);
    assert(set.graph.blocks.contains_key(other as u32));
    assert(other == pc);
}

/// The whole translation starts with what stands before the translation of an
/// instruction that is reached.
proof fn lemma_place(set: Setting, start: Seq<Inst>, prog: Seq<u8>, pc: int)
    requires
        compiles(set, start, prog),
        reached(prog, 0, pc),
    ensures
        starts_with(translation_from(set, start, prog, 0, false).0, place(set, start, prog, pc)),
        place(set, start, prog, pc).len() >= start.len(),
        insn_code(set, place(set, start, prog, pc), prog, pc).len() <= usize::MAX,
        supported(set.order, prog, pc),
        0 <= pc < u32::MAX,
        ends_block(insn_at(prog, pc).opc) ==> has_targets(set.graph, prog, pc),
{
    let full = translation_from(set, start, prog, 0, false).0;
    let here = place(set, start, prog, pc);
    law_insn_in_place(set, start, prog, 0, false, pc);
    law_insn_adds(set, here, prog, pc);
    let next = insn_code(set, here, prog, pc);
    assert forall|i: int| 0 <= i < here.len() implies #[trigger] full[i] == here[i] by {
        assert(full[i] == next[i]);
        if ends_block(insn_at(prog, pc).opc) {
            assert(next.drop_last()[i] == here[i]);
        } else {
            assert(next[i] == here[i]);
        }
    }
    lemma_reached_facts(set, prog, 0, pc);
}

proof fn lemma_reached_facts(set: Setting, prog: Seq<u8>, from: int, pc: int)
    requires
        0 <= from,
        readable(prog, from),
        linked(set.graph, prog, from),
        reached(prog, from, pc),
    ensures
        0 <= pc < u32::MAX,
        ends_block(insn_at(prog, pc).opc) ==> has_targets(set.graph, prog, pc),
    decreases bytes_from(prog, from),
{
    if from != pc {
        lemma_reached_facts(set, prog, next_slot(prog, from), pc);
    }
}

/// Whether a run of the translation stands where the program stands, with the
/// same registers and memory.
pub open spec fn stands(
    set: Setting,
    start: Seq<Inst>,
    prog: Seq<u8>,
    world: World,
    at: Progress,
    run: Run,
) -> bool {
    &&& at is At
    &&& run is At
    &&& run->at == place(set, start, prog, at->pc).len()
    &&& machine_of(run->st) == at->m
    &&& ready(set, world, start, run->st)
}

/// From the end of what precedes it, a run comes to the translation of the
/// instruction at `pc`.
proof fn lemma_go_on(
    set: Setting,
    start: Seq<Inst>,
    prog: Seq<u8>,
    world: World,
    code: Seq<Inst>,
    pc: int,
    st: State,
) -> (k: nat)
    requires
        compiles(set, start, prog),
        reached(prog, 0, pc),
        place(set, start, prog, pc) == enter_code(set.graph, code, pc, false),
    ensures
        steps(
            translation_from(set, start, prog, 0, false).0,
            world,
            Run::At { at: code.len() as int, st },
            k,
        ) == (Run::At { at: place(set, start, prog, pc).len() as int, st }),
{
    let full = translation_from(set, start, prog, 0, false).0;
    let run = Run::At { at: code.len() as int, st };
    lemma_place(set, start, prog, pc);
    if set.graph.blocks.contains_key(pc as u32) {
        law_block_is_insn(set, start, prog, pc, st);
        let here = place(set, start, prog, pc);
        assert(full[code.len() as int] == here[code.len() as int]);
        reveal_with_fuel(steps, 2);
        assert(steps(full, world, run, 1) == step(full, world, run));
        1
    } else {
        0
    }
}

/// A run goes through the translation of an instruction and on to the next.
proof fn lemma_straight(
    set: Setting,
    start: Seq<Inst>,
    prog: Seq<u8>,
    world: World,
    here: Seq<Inst>,
    code: Seq<Inst>,
    next: int,
    st: State,
) -> (k: nat)
    requires
        compiles(set, start, prog),
        starts_with(translation_from(set, start, prog, 0, false).0, code),
        here.len() <= code.len(),
        exec_to(world, code, here.len() as int, st) is Some,
        reached(prog, 0, next) ==> place(set, start, prog, next) == enter_code(
            set.graph,
            code,
            next,
            false,
        ),
    ensures
        reached(prog, 0, next) ==> steps(
            translation_from(set, start, prog, 0, false).0,
            world,
            Run::At { at: here.len() as int, st },
            k,
        ) == (Run::At {
            at: place(set, start, prog, next).len() as int,
            st: exec_to(world, code, here.len() as int, st)->0,
        }),
{
    let full = translation_from(set, start, prog, 0, false).0;
    let run = Run::At { at: here.len() as int, st };
    let st2 = exec_to(world, code, here.len() as int, st)->0;
    lemma_exec_steps(full, world, code, here.len() as int, st);
    if reached(prog, 0, next) {
        let a = (code.len() - here.len()) as nat;
        let b = lemma_go_on(set, start, prog, world, code, next, st2);
        lemma_steps_add(full, world, run, a, b);
        a + b
    } else {
        0
    }
}

/// What the translation of one instruction does to a run.
#[verifier::rlimit(60)]
#[verifier::spinoff_prover]
pub proof fn law_step_exactly(
    set: Setting,
    start: Seq<Inst>,
    prog: Seq<u8>,
    world: World,
    at: Progress,
    run: Run,
) -> (k: nat)
    requires
        compiles(set, start, prog),
        stands(set, start, prog, world, at, run),
        reached(prog, 0, at->pc),
        storable(prog, world, at->pc, at->m),
    ensures
        ({
            let full = translation_from(set, start, prog, 0, false).0;
            let next = advance(prog, world, at);
            &&& next is At && reached(prog, 0, next->pc) ==> stands(
                set,
                start,
                prog,
                world,
                next,
                steps(full, world, run, k),
            )
            &&& next is Exited ==> steps(full, world, run, k) == (Run::Returned {
                word: next->word,
                mem: next->Exited_mem,
            })
        }),
{
    let full = translation_from(set, start, prog, 0, false).0;
    let pc = at->pc;
    let st = run->st;
    let insn = insn_at(prog, pc);
    let here = place(set, start, prog, pc);
    let code = insn_code(set, here, prog, pc);
    lemma_place(set, start, prog, pc);
    law_insn_in_place(set, start, prog, 0, false, pc);
    if !ends_block(insn.opc) {
        law_insn_does_exactly(set, world, here, prog, pc, st);
        law_insn_adds(set, here, prog, pc);
        let next = next_slot(prog, pc);
        if reached(prog, 0, next) {
            lemma_reached_inside(prog, 0, next);
            law_next_follows(set, start, prog, 0, false, pc);
        }
        let st2 = exec_to(world, code, here.len() as int, st)->0;
        assert(st2.results[set.mem_start as int] == st.results[set.mem_start as int]);
        lemma_straight(set, start, prog, world, here, code, next, st)
    } else {
        lemma_leave(set, start, prog, world, at, run)
    }
}

/// What one instruction does to the program, its translation does to the run.
pub proof fn law_step(
    set: Setting,
    start: Seq<Inst>,
    prog: Seq<u8>,
    world: World,
    at: Progress,
    run: Run,
) -> (k: nat)
    requires
        compiles(set, start, prog),
        stands(set, start, prog, world, at, run),
        reached(prog, 0, at->pc),
        faithful(prog, world, at->pc, at->m),
    ensures
        ({
            let full = translation_from(set, start, prog, 0, false).0;
            let next = progress(prog, world, at);
            &&& next is At && reached(prog, 0, next->pc) ==> stands(
                set,
                start,
                prog,
                world,
                next,
                steps(full, world, run, k),
            )
            &&& next is Exited ==> steps(full, world, run, k) == (Run::Returned {
                word: next->word,
                mem: next->Exited_mem,
            })
        }),
{
    law_faithful_step(prog, world, at->pc, at->m);
    law_step_exactly(set, start, prog, world, at, run)
}

proof fn lemma_reached_inside(prog: Seq<u8>, from: int, pc: int)
    requires
        reached(prog, from, pc),
    ensures
        8 * pc < prog.len(),
    decreases bytes_from(prog, from),
{
    if from != pc {
        lemma_reached_inside(prog, next_slot(prog, from), pc);
    }
}

/// A jump to one of the blocks of the jump at `pc`.
proof fn lemma_enter_target(
    set: Setting,
    start: Seq<Inst>,
    prog: Seq<u8>,
    world: World,
    pc: int,
    target: int,
    st: State,
)
    requires
        compiles(set, start, prog),
        reached(prog, 0, pc),
        ends_block(insn_at(prog, pc).opc),
        target == pc + 1 || target == jump_slot(prog, pc),
        reached(prog, 0, target),
    ensures
        ({
            let full = translation_from(set, start, prog, 0, false).0;
            let targets = set.graph.targets[pc as u32];
            let block = if target == jump_slot(prog, pc) {
                targets.1
            } else {
                targets.0
            };
            enter(full, block, st) == (Run::At {
                at: place(set, start, prog, target).len() as int,
                st,
            })
        }),
{
    lemma_place(set, start, prog, pc);
    lemma_place(set, start, prog, target);
    law_block_is_insn(set, start, prog, target, st);
}

/// An instruction that ends its block.
proof fn lemma_leave(
    set: Setting,
    start: Seq<Inst>,
    prog: Seq<u8>,
    world: World,
    at: Progress,
    run: Run,
) -> (k: nat)
    requires
        compiles(set, start, prog),
        stands(set, start, prog, world, at, run),
        reached(prog, 0, at->pc),
        storable(prog, world, at->pc, at->m),
        ends_block(insn_at(prog, at->pc).opc),
    ensures
        ({
            let full = translation_from(set, start, prog, 0, false).0;
            let next = advance(prog, world, at);
            &&& next is At && reached(prog, 0, next->pc) ==> stands(
                set,
                start,
                prog,
                world,
                next,
                steps(full, world, run, k),
            )
            &&& next is Exited ==> steps(full, world, run, k) == (Run::Returned {
                word: next->word,
                mem: next->Exited_mem,
            })
        }),
{
    let full = translation_from(set, start, prog, 0, false).0;
    let pc = at->pc;
    let st = run->st;
    let insn = insn_at(prog, pc);
    let opc = insn.opc;
    let here = place(set, start, prog, pc);
    let code = insn_code(set, here, prog, pc);
    let targets = set.graph.targets[pc as u32];
    let from = here.len() as int;
    let next = advance(prog, world, at);
    lemma_place(set, start, prog, pc);
    law_insn_in_place(set, start, prog, 0, false, pc);
    reveal_with_fuel(steps, 2);
    if next is At && reached(prog, 0, next->pc) {
        lemma_enter_target(set, start, prog, world, pc, next->pc, st);
    }
    match action(opc) {
        Some(Action::Jump) => {
            assert(full[from] == code[from]);
            assert(steps(full, world, run, 1) == step(full, world, run));
            1
        },
        Some(Action::Branch { cond }) => {
            assert((opc & 6) != 0) by (bit_vector)
                requires
                    opc % 8 == 5 || opc % 8 == 6,
            ;
            lemma_branch(world, here, insn, cond, targets, st);
            let most = code.drop_last();
            assert(starts_with(full, most)) by {
                assert forall|i: int| 0 <= i < most.len() implies #[trigger] full[i] == most[i] by {
                    assert(full[i] == code[i]);
                }
            }
            lemma_exec_steps(full, world, most, from, st);
            let a = (most.len() - from) as nat;
            let st2 = exec_to(world, most, from, st)->0;
            lemma_steps_add(full, world, run, a, 1);
            let after = Run::At { at: most.len() as int, st: st2 };
            assert(full[most.len() as int] == code[most.len() as int]);
            assert(steps(full, world, after, 1) == step(full, world, after));
            if next is At && reached(prog, 0, next->pc) {
                lemma_enter_target(set, start, prog, world, pc, next->pc, st2);
            }
            a + 1
        },
        Some(Action::Exit) => {
            let load = Op::LoadReg { ty: Ty::I64, reg: 0 };
            let most = plus(here, load, "ret_val");
            assert(full[from] == code[from]);
            assert(full[from + 1] == code[from + 1]);
            crate::simulate::lemma_whole_slot(world.order, st.regs[0]);
            lemma_steps_add(full, world, run, 1, 1);
            assert(steps(full, world, run, 1) == step(full, world, run));
            let after = step(full, world, run);
            assert(steps(full, world, after, 1) == step(full, world, after));
            2
        },
        _ => 0,
    }
}

/// Whether the next `n` steps of a program stay on instructions that a walk from
/// its start comes to, and whose translations do what they do.
pub open spec fn faithful_by(prog: Seq<u8>, world: World, at: Progress, n: nat) -> bool
    decreases n,
{
    n == 0 || !(at is At) || {
        &&& reached(prog, 0, at->pc)
        &&& faithful(prog, world, at->pc, at->m)
        &&& faithful_by(prog, world, progress(prog, world, at), (n - 1) as nat)
    }
}

/// Whether the next `n` steps of a translation stay on instructions that a walk
/// from the start of the program comes to, and store where the machine can.
pub open spec fn storable_by(prog: Seq<u8>, world: World, at: Progress, n: nat) -> bool
    decreases n,
{
    n == 0 || !(at is At) || {
        &&& reached(prog, 0, at->pc)
        &&& storable(prog, world, at->pc, at->m)
        &&& storable_by(prog, world, advance(prog, world, at), (n - 1) as nat)
    }
}

proof fn lemma_faithful_step(prog: Seq<u8>, world: World, at: Progress)
    requires
        at is At,
        supported(world.order, prog, at->pc),
        at->m.regs.len() == NUM_REGS,
        faithful(prog, world, at->pc, at->m),
    ensures
        storable(prog, world, at->pc, at->m),
        advance(prog, world, at) == progress(prog, world, at),
        progress(prog, world, at) is At ==> progress(prog, world, at)->m.regs.len() == NUM_REGS,
{
    law_faithful_step(prog, world, at->pc, at->m);
    lemma_regs_stay(prog, world, at->pc, at->m);
}

/// No instruction loses a register.
proof fn lemma_regs_stay(prog: Seq<u8>, world: World, pc: int, m: Machine)
    requires
        m.regs.len() == NUM_REGS,
        supported(world.order, prog, pc),
        faithful(prog, world, pc, m),
    ensures
        run_insn(prog, world, pc, m) is At ==> run_insn(prog, world, pc, m)->m.regs.len()
            == NUM_REGS,
{
}

/// Where the translations of all instructions do what the instructions do, the
/// translation goes the way of the program.
#[verifier::rlimit(60)]
#[verifier::spinoff_prover]
proof fn lemma_faithful_by(
    set: Setting,
    start: Seq<Inst>,
    prog: Seq<u8>,
    world: World,
    at: Progress,
    n: nat,
)
    requires
        compiles(set, start, prog),
        world.order == set.order,
        at is At ==> at->m.regs.len() == NUM_REGS,
        faithful_by(prog, world, at, n),
    ensures
        storable_by(prog, world, at, n),
        advance_by(prog, world, at, n) == progress_by(prog, world, at, n),
    decreases n,
{
    if n > 0 {
        if at is At {
            lemma_place(set, start, prog, at->pc);
            lemma_faithful_step(prog, world, at);
        }
        lemma_faithful_by(set, start, prog, world, progress(prog, world, at), (n - 1) as nat);
    }
}

/// As long as a translation goes on, a run of it comes to where it stands, with the
/// same registers and memory.
pub proof fn law_follows_exactly(
    set: Setting,
    start: Seq<Inst>,
    prog: Seq<u8>,
    world: World,
    at: Progress,
    run: Run,
    n: nat,
) -> (k: nat)
    requires
        compiles(set, start, prog),
        stands(set, start, prog, world, at, run),
        storable_by(prog, world, at, n),
        advance_by(prog, world, at, n) is At,
        reached(prog, 0, advance_by(prog, world, at, n)->pc),
    ensures
        stands(
            set,
            start,
            prog,
            world,
            advance_by(prog, world, at, n),
            steps(translation_from(set, start, prog, 0, false).0, world, run, k),
        ),
    decreases n,
{
    if n == 0 {
        0
    } else {
        let full = translation_from(set, start, prog, 0, false).0;
        let next = advance(prog, world, at);
        let m = (n - 1) as nat;
        if !(next is At) {
            lemma_done_exactly(prog, world, next, m);
        }
        if m > 0 {
            reveal_with_fuel(storable_by, 2);
        }
        let a = law_step_exactly(set, start, prog, world, at, run);
        let after = steps(full, world, run, a);
        let b = law_follows_exactly(set, start, prog, world, next, after, m);
        lemma_steps_add(full, world, run, a, b);
        a + b
    }
}

/// As long as a program runs, a run of its translation comes to where the program
/// stands, with the same registers and memory.
pub proof fn law_follows(
    set: Setting,
    start: Seq<Inst>,
    prog: Seq<u8>,
    world: World,
    at: Progress,
    run: Run,
    n: nat,
) -> (k: nat)
    requires
        compiles(set, start, prog),
        stands(set, start, prog, world, at, run),
        faithful_by(prog, world, at, n),
        progress_by(prog, world, at, n) is At,
        reached(prog, 0, progress_by(prog, world, at, n)->pc),
    ensures
        stands(
            set,
            start,
            prog,
            world,
            progress_by(prog, world, at, n),
            steps(translation_from(set, start, prog, 0, false).0, world, run, k),
        ),
{
    lemma_faithful_by(set, start, prog, world, at, n);
    law_follows_exactly(set, start, prog, world, at, run, n)
}

/// If a translation exits, a run of it returns the word and leaves the memory that
/// it exits with.
#[verifier::rlimit(60)]
#[verifier::spinoff_prover]
pub proof fn law_run_exactly(
    set: Setting,
    start: Seq<Inst>,
    prog: Seq<u8>,
    world: World,
    at: Progress,
    run: Run,
    n: nat,
) -> (k: nat)
    requires
        compiles(set, start, prog),
        stands(set, start, prog, world, at, run),
        storable_by(prog, world, at, n),
        advance_by(prog, world, at, n) is Exited,
    ensures
        steps(translation_from(set, start, prog, 0, false).0, world, run, k) == (Run::Returned {
            word: advance_by(prog, world, at, n)->word,
            mem: advance_by(prog, world, at, n)->Exited_mem,
        }),
    decreases n,
{
    let full = translation_from(set, start, prog, 0, false).0;
    let next = advance(prog, world, at);
    let a = law_step_exactly(set, start, prog, world, at, run);
    let m = (n - 1) as nat;
    if next is At {
        let after = steps(full, world, run, a);
        reveal_with_fuel(advance_by, 2);
        reveal_with_fuel(storable_by, 2);
        assert(m > 0);
        let b = law_run_exactly(set, start, prog, world, next, after, m);
        lemma_steps_add(full, world, run, a, b);
        a + b
    } else {
        lemma_done_exactly(prog, world, next, m);
        a
    }
}

/// If a program exits, a run of its translation returns the same word and leaves
/// the same memory.
pub proof fn law_run(
    set: Setting,
    start: Seq<Inst>,
    prog: Seq<u8>,
    world: World,
    at: Progress,
    run: Run,
    n: nat,
) -> (k: nat)
    requires
        compiles(set, start, prog),
        stands(set, start, prog, world, at, run),
        faithful_by(prog, world, at, n),
        progress_by(prog, world, at, n) is Exited,
    ensures
        steps(translation_from(set, start, prog, 0, false).0, world, run, k) == (Run::Returned {
            word: progress_by(prog, world, at, n)->word,
            mem: progress_by(prog, world, at, n)->Exited_mem,
        }),
{
    lemma_faithful_by(set, start, prog, world, at, n);
    law_run_exactly(set, start, prog, world, at, run, n)
}

proof fn lemma_done_exactly(prog: Seq<u8>, world: World, at: Progress, n: nat)
    requires
        !(at is At),
    ensures
        advance_by(prog, world, at, n) == at,
    decreases n,
{
    if n > 0 {
        lemma_done_exactly(prog, world, at, (n - 1) as nat);
    }
}

proof fn lemma_fill_regs(world: World, code: Seq<Inst>, val: usize, n: int, from: int, st: State)
    requires
        0 <= from <= code.len(),
        0 <= n <= NUM_REGS,
        val < code.len(),
        exec_to(world, code, from, st) is Some,
        exec_to(world, code, from, st)->0.regs.len() == NUM_REGS,
    ensures
        ({
            let s = exec_to(world, code, from, st)->0;
            let c = fill_regs_code(code, val, n);
            let after = exec_to(world, c, from, st);
            &&& c.len() == code.len() + n
            &&& starts_with(c, code)
            &&& forall|i: int|
                code.len() <= i < c.len() ==> !((#[trigger] c[i]).op is Position)
            &&& after is Some
            &&& after->0.regs.len() == NUM_REGS
            &&& after->0.mem == s.mem
            &&& after->0.results == s.results
            &&& forall|r: int|
                0 <= r < n ==> #[trigger] after->0.regs[r] == s.results[val as int]
        }),
    decreases n,
{
    if n > 0 {
        lemma_fill_regs(world, code, val, n - 1, from, st);
        let c = fill_regs_code(code, val, n - 1);
        let op = Op::StoreReg { reg: (n - 1) as usize, val, aligned: true };
        lemma_exec_plus(world, c, op, "", from, st);
    }
}

/// The instructions with which a function starts fill the registers as a program
/// expects them.
#[verifier::rlimit(40)]
pub proof fn law_prologue(world: World, st: State)
    requires
        st.regs.len() == NUM_REGS,
    ensures
        ({
            let after = exec_to(world, prologue_code(), 1, st);
            &&& after is Some
            &&& after->0.regs == first_regs(world, STACK_SIZE as int)
            &&& after->0.mem == st.mem
            &&& after->0.results[MEM_START as int] == world.params[0]
            &&& prologue_code().len() == 25
            &&& prologue_code()[0].op == (Op::Position { block: ENTRY_BLOCK })
            &&& forall|i: int|
                0 < i < prologue_code().len() ==> !((#[trigger] prologue_code()[i]).op is Position)
        }),
{
    let zero = zero_code();
    lemma_prologue_values(world, st);
    lemma_fill_regs(world, zero, 10, NUM_REGS as int, 1, st);
    let c = fill_regs_code(zero, 10, NUM_REGS as int);
    let op1 = Op::StoreReg { reg: 1, val: MEM_START, aligned: true };
    let op2 = Op::StoreReg { reg: 2, val: 3, aligned: true };
    let op3 = Op::StoreReg { reg: 10, val: 9, aligned: true };
    lemma_exec_plus(world, c, op1, "", 1, st);
    let c1 = plus(c, op1, "");
    lemma_exec_plus(world, c1, op2, "", 1, st);
    let c2 = plus(c1, op2, "");
    lemma_exec_plus(world, c2, op3, "", 1, st);
    assert(prologue_code() == plus(c2, op3, ""));
    let after = exec_to(world, prologue_code(), 1, st)->0;
    assert(after.regs == first_regs(world, STACK_SIZE as int));
    assert(c[0] == zero[0]);
    assert forall|i: int| 0 < i < prologue_code().len() implies !((#[trigger] prologue_code()[
    i]).op is Position) by {
        if i < c.len() {
            assert(prologue_code()[i] == c[i]);
        }
        if i < zero.len() {
            assert(c[i] == zero[i]);
        }
    }
}

/// The start of the prologue, up to the constant zero.
spec fn zero_code() -> Seq<Inst> {
    let c = plus(seq![], Op::Position { block: ENTRY_BLOCK }, "");
    let c = plus(c, Op::PtrParam { index: 0 }, "mem_start");
    let c = plus(c, Op::IntParam { index: 1 }, "");
    let c = sum_code(c, MEM_START, 2, "mem_end");
    let c = plus(c, Op::PtrParam { index: 2 }, "umem_start");
    let c = plus(c, Op::IntParam { index: 3 }, "");
    let c = sum_code(c, 4, 5, "umem_end");
    let c = plus(c, Op::Stack { size: STACK_SIZE }, "stack_start_addr");
    let c = plus(c, Op::Const { ty: Ty::I64, bits: STACK_SIZE as u64 }, "");
    let c = sum_code(c, 7, 8, "stack_end_addr");
    plus(c, Op::Const { ty: Ty::I64, bits: 0 }, "")
}

proof fn lemma_prologue_values(world: World, st: State)
    ensures
        ({
            let c = zero_code();
            let s = exec_to(world, c, 1, st);
            &&& c.len() == 11
            &&& c[0].op == (Op::Position { block: ENTRY_BLOCK })
            &&& forall|i: int| 0 < i < c.len() ==> !((#[trigger] c[i]).op is Position)
            &&& s is Some
            &&& s->0.regs == st.regs
            &&& s->0.mem == st.mem
            &&& s->0.results[1] == world.params[0]
            &&& s->0.results[3] == wrap(Ty::I64, world.params[0] + world.params[1])
            &&& s->0.results[9] == wrap(Ty::I64, world.stack + STACK_SIZE)
            &&& s->0.results[10] == 0
        }),
{
    broadcast use lemma_exec_plus;

}

/// A function that holds one program: the prologue and the translation of the
/// program.
pub open spec fn function_code(order: ByteOrder, helpers: Set<u32>, prog: Seq<u8>) -> (
    Seq<Inst>,
    Option<u32>,
) {
    let set = Setting { order, helpers, graph: program_graph(prog), mem_start: MEM_START };
    translation_from(set, prologue_code(), prog, 0, false)
}

/// The machine before the first instruction of a program.
pub open spec fn first_machine(world: World, mem: Memory) -> Progress {
    Progress::At { pc: 0, m: Machine { regs: first_regs(world, STACK_SIZE as int), mem } }
}

/// A function that holds one program has what the translation of the program needs.
proof fn lemma_function_compiles(helpers: Set<u32>, prog: Seq<u8>, world: World, st: State)
    requires
        readable(prog, 0),
        translatable(world.order, helpers, prog, 0),
        program_graph(prog).labels.len() <= usize::MAX,
        function_code(world.order, helpers, prog).0.len() <= usize::MAX,
        function_code(world.order, helpers, prog).1 is None,
        st.regs.len() == NUM_REGS,
    ensures
        compiles(
            Setting {
                order: world.order,
                helpers,
                graph: program_graph(prog),
                mem_start: MEM_START,
            },
            prologue_code(),
            prog,
        ),
{
    let first = Draft { graph: entry_graph(), count: 0 };
    law_graph_ok(first, prog, 0);
    law_jumps_linked(first, prog, 0);
    law_prologue(world, st);
}

/// If the translation of a program exits, running the function that holds it from
/// the start returns the word and leaves the memory that it exits with.
pub proof fn law_compiled_exactly(
    helpers: Set<u32>,
    prog: Seq<u8>,
    world: World,
    st: State,
    n: nat,
) -> (k: nat)
    requires
        readable(prog, 0),
        translatable(world.order, helpers, prog, 0),
        program_graph(prog).labels.len() <= usize::MAX,
        function_code(world.order, helpers, prog).0.len() <= usize::MAX,
        function_code(world.order, helpers, prog).1 is None,
        st.regs.len() == NUM_REGS,
        advance_by(prog, world, first_machine(world, st.mem), n) is Exited,
        storable_by(prog, world, first_machine(world, st.mem), n),
    ensures
        ({
            let end = advance_by(prog, world, first_machine(world, st.mem), n);
            let code = function_code(world.order, helpers, prog).0;
            steps(code, world, enter(code, ENTRY_BLOCK, st), k) == (Run::Returned {
                word: end->word,
                mem: end->Exited_mem,
            })
        }),
{
    let graph = program_graph(prog);
    let set = Setting { order: world.order, helpers, graph, mem_start: MEM_START };
    let start = prologue_code();
    let full = translation_from(set, start, prog, 0, false).0;
    lemma_function_compiles(helpers, prog, world, st);
    law_prologue(world, st);
    law_translation_extends(set, start, prog, 0, false);
    assert(full[0] == start[0]);
    assert(has_block(full, ENTRY_BLOCK));
    let j = block_start(full, ENTRY_BLOCK) - 1;
    assert(0 <= j < full.len() && full[j].op == (Op::Position { block: ENTRY_BLOCK }));
    if 0 < j < start.len() {
        assert(full[j] == start[j]);
    } else if j >= start.len() {
        let pc = lemma_positions(set, start, prog, 0, false, j);
        assert(set.graph.blocks.contains_key(pc as u32));
    }
    assert(j == 0);
    let run = Run::At { at: 1, st };
    let a = lemma_straight(set, start, prog, world, seq![start[0]], start, 0, st);
    let after = steps(full, world, run, a);
    let at = first_machine(world, st.mem);
    assert(n > 0);
    let b = law_run_exactly(set, start, prog, world, at, after, n);
    lemma_steps_add(full, world, run, a, b);
    a + b
}

/// If a program exits, running the function that holds it from the start returns
/// the same word and leaves the same memory.
pub proof fn law_compiled_program(
    helpers: Set<u32>,
    prog: Seq<u8>,
    world: World,
    st: State,
    n: nat,
) -> (k: nat)
    requires
        readable(prog, 0),
        translatable(world.order, helpers, prog, 0),
        program_graph(prog).labels.len() <= usize::MAX,
        function_code(world.order, helpers, prog).0.len() <= usize::MAX,
        function_code(world.order, helpers, prog).1 is None,
        st.regs.len() == NUM_REGS,
        progress_by(prog, world, first_machine(world, st.mem), n) is Exited,
        faithful_by(prog, world, first_machine(world, st.mem), n),
    ensures
        ({
            let end = progress_by(prog, world, first_machine(world, st.mem), n);
            let code = function_code(world.order, helpers, prog).0;
            steps(code, world, enter(code, ENTRY_BLOCK, st), k) == (Run::Returned {
                word: end->word,
                mem: end->Exited_mem,
            })
        }),
{
    let graph = program_graph(prog);
    let set = Setting { order: world.order, helpers, graph, mem_start: MEM_START };
    lemma_function_compiles(helpers, prog, world, st);
    lemma_faithful_by(set, prologue_code(), prog, world, first_machine(world, st.mem), n);
    law_compiled_exactly(helpers, prog, world, st, n)
}

} // verus!
