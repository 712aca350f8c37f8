# bpf_llvm

A compiler from eBPF programs to LLVM modules, verified with Verus.

- `src/ebpf.rs`, `src/cfg.rs`: instructions and their encoding; the basic blocks of a program.
- `src/ir.rs`, `src/word.rs`: the instructions that a program is translated to, and what they do.
- `src/translate.rs`: the translation.
- `src/llvm.rs`, `src/emit.rs`, `src/compiler.rs`: the module that LLVM builds.
- `src/machine.rs`: what eBPF programs do.
- `src/layout.rs`, `src/typing.rs`, `src/simulate.rs`, `src/correct.rs`: the translation is well
  formed, and does what the program does.

LLVM is reached through inkwell. What is believed of it stands in `src/llvm.rs`, function by
function; the rest is proved. `app/` runs compiled programs.

What the translated instructions do is said in `src/ir.rs`, which is a model of LLVM's
instructions; that LLVM generates code to this model is not proved.

A translated program does what the program does, step by step, where `faithful` in
`src/machine.rs` holds. It does not

- where a register that does not exist is named but left as it is;
- on a big-endian machine, where a narrow operand is not at the low end of its register slot;
- at a store with an offset, whose address is said to be a multiple of 8 and is not;
- at the 32-bit remainder by an immediate zero, which leaves the high half of the register;
- at a byte swap to the order of the machine, which leaves the high part of the register;
- at a jump that compares 64 bits, where the low 32 bits give another answer.
