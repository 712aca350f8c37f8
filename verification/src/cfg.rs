//! The control-flow graph of a program: which instructions start a basic
//! block, and the blocks that each jump leads to.
use crate::ebpf::{
    decode, ends_block, get_insn, insn_at, slot_in, Action, Insn, LD_DW_IMM, TAIL_CALL,
};
use crate::label::{block_label, gen_next_label, next_count};
use std::collections::BTreeMap;
use vstd::prelude::*;

verus! {

/// The number of the block in which a function starts.
pub const ENTRY_BLOCK: usize = 0;

/// The blocks of a function. They are numbered from zero, the entry block, in
/// the order of their creation.
pub struct Cfg {
    /// The block that starts at an instruction.
    pub insn_blocks: BTreeMap<u32, usize>,
    /// The blocks after a jump: the one of the next instruction, the one of
    /// the instruction at its offset.
    pub insn_targets: BTreeMap<u32, (usize, usize)>,
    /// The labels of the blocks.
    pub labels: Vec<String>,
}

/// A control-flow graph under construction.
#[verifier::ext_equal]
pub struct Graph {
    pub blocks: Map<u32, usize>,
    pub targets: Map<u32, (usize, usize)>,
    pub labels: Seq<Seq<char>>,
}

impl View for Cfg {
    type V = Graph;

    open spec fn view(&self) -> Graph {
        Graph {
            blocks: self.insn_blocks@,
            targets: self.insn_targets@,
            labels: self.labels@.map_values(|label: String| label@),
        }
    }
}

/// The slot after an instruction. The load of a 64-bit immediate takes two.
pub open spec fn next_slot(prog: Seq<u8>, pc: int) -> int {
    if insn_at(prog, pc).opc == LD_DW_IMM {
        pc + 2
    } else {
        pc + 1
    }
}

/// The slot that an offset leads to from slot `pc`.
pub open spec fn target_slot(pc: int, off: i16) -> int {
    pc + 1 + off
}

/// The slot that the offset of an instruction leads to.
pub open spec fn jump_slot(prog: Seq<u8>, pc: int) -> int {
    target_slot(pc, insn_at(prog, pc).off)
}

/// Number of bytes of the program from slot `pc` on.
pub open spec fn bytes_from(prog: Seq<u8>, pc: int) -> nat {
    if 8 * pc >= prog.len() {
        0
    } else {
        (prog.len() - 8 * pc) as nat
    }
}

/// Whether every instruction from `pc` on can be read, and no jump leads to a
/// slot before the first or past the range of slot numbers.
pub open spec fn readable(prog: Seq<u8>, pc: int) -> bool
    decreases bytes_from(prog, pc),
{
    8 * pc >= prog.len() || {
        &&& slot_in(prog, pc)
        &&& pc < u32::MAX
        &&& ends_block(insn_at(prog, pc).opc) ==> 0 <= jump_slot(prog, pc) <= u32::MAX
        &&& readable(prog, next_slot(prog, pc))
    }
}

/// A graph under construction, with the count of the labels handed out.
#[verifier::ext_equal]
pub struct Draft {
    pub graph: Graph,
    pub count: usize,
}

/// The graph with a block at `pc`. A new one gets the next number, and the next
/// label.
pub open spec fn with_block(d: Draft, pc: u32) -> Draft {
    if d.graph.blocks.contains_key(pc) {
        d
    } else {
        Draft {
            graph: Graph {
                blocks: d.graph.blocks.insert(pc, d.graph.labels.len() as usize),
                labels: d.graph.labels.push(block_label(d.count as nat)),
                ..d.graph
            },
            count: next_count(d.count),
        }
    }
}

/// The graph with the blocks that a jump in slot `pc` with an offset needs.
pub open spec fn with_jump(d: Draft, pc: int, off: i16) -> Draft {
    let next = (pc + 1) as u32;
    let target = target_slot(pc, off) as u32;
    let made = with_block(with_block(d, next), target);
    let blocks = (made.graph.blocks[next], made.graph.blocks[target]);
    Draft {
        graph: Graph { targets: made.graph.targets.insert(pc as u32, blocks), ..made.graph },
        ..made
    }
}

/// The graph with the blocks that the instruction at `pc` needs.
pub open spec fn with_insn(d: Draft, prog: Seq<u8>, pc: int) -> Draft {
    let insn = insn_at(prog, pc);
    if ends_block(insn.opc) {
        with_jump(d, pc, insn.off)
    } else {
        d
    }
}

/// The graph with the blocks that the instructions from `pc` on need.
pub open spec fn draft_from(d: Draft, prog: Seq<u8>, pc: int) -> Draft
    decreases bytes_from(prog, pc),
{
    if 8 * pc >= prog.len() {
        d
    } else {
        draft_from(with_insn(d, prog, pc), prog, next_slot(prog, pc))
    }
}

/// The graph with the blocks that a program needs. Their labels are numbered
/// from zero.
pub open spec fn graph_with(g: Graph, prog: Seq<u8>) -> Graph {
    draft_from(Draft { graph: g, count: 0 }, prog, 0).graph
}

/// The numbers are below the number of blocks, and no two instructions share a
/// block or take the entry block.
pub open spec fn graph_ok(g: Graph) -> bool {
    &&& g.labels.len() >= 1
    &&& g.labels.len() <= usize::MAX
    &&& forall|pc: u32| #[trigger]
        g.blocks.contains_key(pc) ==> ENTRY_BLOCK < g.blocks[pc] < g.labels.len()
    &&& forall|a: u32, b: u32|
        #![trigger g.blocks.contains_key(a), g.blocks.contains_key(b)]
        g.blocks.contains_key(a) && g.blocks.contains_key(b) && g.blocks[a] == g.blocks[b] ==> a
            == b
    &&& forall|pc: u32| #[trigger]
        g.targets.contains_key(pc) ==> g.targets[pc].0 < g.labels.len() && g.targets[pc].1
            < g.labels.len()
}

/// A graph with the entry block alone.
pub open spec fn entry_graph() -> Graph {
    Graph { blocks: Map::empty(), targets: Map::empty(), labels: seq!["entry"@] }
}

/// The graph of a program.
pub open spec fn program_graph(prog: Seq<u8>) -> Graph {
    graph_with(entry_graph(), prog)
}

/// Whether each jump from `pc` on has its two blocks: the one that starts at
/// the next instruction, and the one that starts at its offset.
pub open spec fn linked(g: Graph, prog: Seq<u8>, pc: int) -> bool
    decreases bytes_from(prog, pc),
{
    8 * pc >= prog.len() || {
        &&& ends_block(insn_at(prog, pc).opc) ==> has_targets(g, prog, pc)
        &&& linked(g, prog, next_slot(prog, pc))
    }
}

/// Whether the jump at `pc` has its two blocks.
pub open spec fn has_targets(g: Graph, prog: Seq<u8>, pc: int) -> bool {
    let next = (pc + 1) as u32;
    let target = jump_slot(prog, pc) as u32;
    &&& g.blocks.contains_key(next)
    &&& g.blocks.contains_key(target)
    &&& g.targets.contains_key(pc as u32)
    &&& g.targets[pc as u32] == (g.blocks[next], g.blocks[target])
}

/// The instructions from `pc` on keep the targets of the jumps before, and every
/// block.
proof fn lemma_draft_keeps(d: Draft, prog: Seq<u8>, pc: int)
    requires
        readable(prog, pc),
        0 <= pc,
    ensures
        ({
            let g = d.graph;
            let made = draft_from(d, prog, pc).graph;
            &&& forall|at: u32| #[trigger]
                g.blocks.contains_key(at) ==> made.blocks.contains_key(at) && made.blocks[at]
                    == g.blocks[at]
            &&& forall|at: u32|
                at < pc && #[trigger] g.targets.contains_key(at) ==> made.targets.contains_key(at)
                    && made.targets[at] == g.targets[at]
        }),
    decreases bytes_from(prog, pc),
{
    if 8 * pc < prog.len() {
        let g = d.graph;
        let d1 = with_insn(d, prog, pc);
        let g1 = d1.graph;
        lemma_draft_keeps(d1, prog, next_slot(prog, pc));
        assert forall|at: u32| #[trigger] g.blocks.contains_key(at) implies g1.blocks.contains_key(
            at,
        ) && g1.blocks[at] == g.blocks[at] by {}
        assert forall|at: u32|
            at < pc && #[trigger] g.targets.contains_key(at) implies g1.targets.contains_key(at)
            && g1.targets[at] == g.targets[at] by {}
    }
}

/// A graph never loses a label.
pub proof fn law_labels_stay(d: Draft, prog: Seq<u8>, pc: int)
    requires
        0 <= pc,
        readable(prog, pc),
    ensures
        d.graph.labels.is_prefix_of(draft_from(d, prog, pc).graph.labels),
    decreases bytes_from(prog, pc),
{
    if 8 * pc < prog.len() {
        let d1 = with_insn(d, prog, pc);
        law_labels_stay(d1, prog, next_slot(prog, pc));
        assert(d.graph.labels.is_prefix_of(d1.graph.labels));
    }
}

/// The graph of a program gives each block its own number, below the number of
/// blocks.
pub proof fn law_graph_ok(d: Draft, prog: Seq<u8>, pc: int)
    requires
        0 <= pc,
        readable(prog, pc),
        graph_ok(d.graph),
        draft_from(d, prog, pc).graph.labels.len() <= usize::MAX,
    ensures
        graph_ok(draft_from(d, prog, pc).graph),
    decreases bytes_from(prog, pc),
{
    if 8 * pc < prog.len() {
        let d1 = with_insn(d, prog, pc);
        law_labels_stay(d1, prog, next_slot(prog, pc));
        if ends_block(insn_at(prog, pc).opc) {
            lemma_with_jump_ok(d, pc, insn_at(prog, pc).off);
        }
        law_graph_ok(d1, prog, next_slot(prog, pc));
    }
}

proof fn lemma_with_block_ok(d: Draft, pc: u32)
    requires
        graph_ok(d.graph),
        with_block(d, pc).graph.labels.len() <= usize::MAX,
    ensures
        graph_ok(with_block(d, pc).graph),
{
}

proof fn lemma_with_jump_ok(d: Draft, pc: int, off: i16)
    requires
        graph_ok(d.graph),
        with_jump(d, pc, off).graph.labels.len() <= usize::MAX,
    ensures
        graph_ok(with_jump(d, pc, off).graph),
{
    let next = (pc + 1) as u32;
    lemma_with_block_ok(d, next);
    lemma_with_block_ok(with_block(d, next), target_slot(pc, off) as u32);
}

/// Making the blocks of a jump a second time changes nothing.
pub proof fn law_jump_blocks_once(d: Draft, pc: int, off: i16)
    requires
        0 <= pc < u32::MAX,
        0 <= target_slot(pc, off) <= u32::MAX,
    ensures
        with_jump(with_jump(d, pc, off), pc, off) == with_jump(d, pc, off),
{
    let once = with_jump(d, pc, off);
    assert(with_jump(once, pc, off).graph.targets =~= once.graph.targets);
}

/// Every jump of a program has its two blocks in the graph of the program.
pub proof fn law_jumps_linked(d: Draft, prog: Seq<u8>, pc: int)
    requires
        readable(prog, pc),
        0 <= pc,
    ensures
        linked(draft_from(d, prog, pc).graph, prog, pc),
    decreases bytes_from(prog, pc),
{
    if 8 * pc < prog.len() {
        let d1 = with_insn(d, prog, pc);
        law_jumps_linked(d1, prog, next_slot(prog, pc));
        lemma_draft_keeps(d1, prog, next_slot(prog, pc));
        if ends_block(insn_at(prog, pc).opc) {
            assert(has_targets(d1.graph, prog, pc));
        }
    }
}

/// Whether the instruction ends its basic block.
pub fn is_jump(opc: u8) -> (res: bool)
    ensures
        res == ends_block(opc),
{
    if opc == TAIL_CALL {
        return true;
    }
    match decode(opc) {
        Some(Action::Jump) => true,
        Some(Action::Branch { .. }) => true,
        Some(Action::Exit) => true,
        _ => false,
    }
}

/// Whether every instruction of a program can be read, and no jump leads to a
/// slot before the first or past the range of slot numbers.
pub fn is_readable(prog: &[u8]) -> (res: bool)
    ensures
        res == readable(prog@, 0),
{
    let mut insn_ptr: usize = 0;
    let whole: usize = prog.len() / 8;
    let slots: usize = whole + (if prog.len() % 8 == 0 {
        0
    } else {
        1
    });
    while insn_ptr < slots
        invariant
            whole == prog@.len() / 8,
            slots == whole + (if prog@.len() % 8 == 0 {
                0int
            } else {
                1
            }),
            slots < usize::MAX - 2,
            readable(prog@, 0) == readable(prog@, insn_ptr as int),
        decreases slots + 1 - insn_ptr,
    {
        if insn_ptr >= whole || insn_ptr >= u32::MAX as usize {
            return false;
        }
        let insn = get_insn(prog, insn_ptr);
        if is_jump(insn.opc) {
            let target: i64 = insn_ptr as i64 + 1 + insn.off as i64;
            if target < 0 || target > u32::MAX as i64 {
                return false;
            }
        }
        if insn.opc == LD_DW_IMM {
            // This instruction takes two slots
            insn_ptr = insn_ptr + 1;
        }
        insn_ptr = insn_ptr + 1;
    }
    true
}

impl Cfg {
    /// A graph with the entry block alone.
    pub fn new() -> (cfg: Self)
        ensures
            cfg@ == entry_graph(),
            graph_ok(cfg@),
    {
        let mut labels: Vec<String> = Vec::new();
        labels.push("entry".to_owned());
        let cfg = Cfg { insn_blocks: BTreeMap::new(), insn_targets: BTreeMap::new(), labels };
        assert(cfg@.labels == seq!["entry"@]);
        cfg
    }

    /// Makes the blocks that the jump `insn` at `insn_ptr` needs, and notes
    /// them for it.
    pub fn prepare_jump_blocks(&mut self, insn_ptr: usize, insn: &Insn, label_cnt: &mut usize)
        requires
            insn_ptr < u32::MAX,
            0 <= target_slot(insn_ptr as int, insn.off) <= u32::MAX,
        ensures
            (Draft { graph: final(self)@, count: *final(label_cnt) }) == with_jump(
                Draft { graph: old(self)@, count: *old(label_cnt) },
                insn_ptr as int,
                insn.off,
            ),
            graph_ok(old(self)@) ==> graph_ok(final(self)@),
    {
        let ghost d = Draft { graph: self@, count: *label_cnt };
        let insn_ptr: u32 = insn_ptr as u32;
        let next_pc: u32 = insn_ptr + 1;
        let target_pc: u32 = (next_pc as i64 + insn.off as i64) as u32;
        // This is the fallthrough block
        let fallthrough_block: usize = self.block_at(next_pc, label_cnt);
        // Jump target
        let target_block: usize = self.block_at(target_pc, label_cnt);
        // Mark the blocks for this instruction
        self.insn_targets.insert(insn_ptr, (fallthrough_block, target_block));
        proof {
            assert(self.labels@.len() == self.labels.len());
            assert(self@ == with_jump(d, insn_ptr as int, insn.off).graph);
            if graph_ok(d.graph) {
                lemma_with_jump_ok(d, insn_ptr as int, insn.off);
            }
        }
    }

    /// Walks the program and makes the blocks that its jumps need. Their
    /// labels are numbered from zero.
    pub fn build_cfg(&mut self, prog: &[u8])
        requires
            readable(prog@, 0),
        ensures
            final(self)@ == graph_with(old(self)@, prog@),
            graph_ok(old(self)@) ==> graph_ok(final(self)@),
            linked(final(self)@, prog@, 0),
    {
        let ghost first = Draft { graph: self@, count: 0 };
        proof {
            law_jumps_linked(first, prog@, 0);
        }
        let mut label_cnt: usize = 0;
        let mut insn_ptr: usize = 0;
        let slots: usize = prog.len() / 8 + (if prog.len() % 8 == 0 {
            0
        } else {
            1
        });
        while insn_ptr < slots
            invariant
                slots == prog@.len() / 8 + (if prog@.len() % 8 == 0 {
                    0int
                } else {
                    1
                }),
                slots < usize::MAX - 2,
                readable(prog@, insn_ptr as int),
                graph_ok(old(self)@) ==> graph_ok(self@),
                draft_from(Draft { graph: self@, count: label_cnt }, prog@, insn_ptr as int)
                    == draft_from(first, prog@, 0),
            decreases slots + 1 - insn_ptr,
        {
            let insn = get_insn(prog, insn_ptr);
            if insn.opc == LD_DW_IMM {
                // This instruction takes two slots
                insn_ptr = insn_ptr + 1;
            } else if is_jump(insn.opc) {
                self.prepare_jump_blocks(insn_ptr, &insn, &mut label_cnt);
            }
            insn_ptr = insn_ptr + 1;
        }
    }

    /// The block that starts at `pc`, made if there is none.
    fn block_at(&mut self, pc: u32, label_cnt: &mut usize) -> (block: usize)
        ensures
            (Draft { graph: final(self)@, count: *final(label_cnt) }) == with_block(
                Draft { graph: old(self)@, count: *old(label_cnt) },
                pc,
            ),
            final(self)@.blocks[pc] == block,
    {
        match self.insn_blocks.get(&pc) {
            Some(block) => *block,
            None => {
                let block: usize = self.labels.len();
                let label = gen_next_label(label_cnt);
                self.labels.push(label);
                self.insn_blocks.insert(pc, block);
                proof {
                    assert(self.labels@.len() == self.labels.len());
                    assert(self@.labels == old(self)@.labels.push(label@));
                }
                block
            },
        }
    }
}

} // verus!
