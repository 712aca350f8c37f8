//! A compiler from eBPF programs to LLVM modules.
//!
//! A program is first turned into a list of instructions (`translate`), over
//! the blocks that its jumps need (`cfg`). The list is then handed to LLVM
//! (`emit`), and LLVM writes the module out or loads it (`compiler`).
//!
//! What the instructions of the list do is stated in `ir`, what eBPF programs
//! do in `machine`; `correct` proves that the list does what the program does.
//!
//! The laws of the library say what this comes to, in terms of numbers, bits and
//! bytes: what each eBPF instruction does (`isa`, over the relations in `arith`),
//! which programs are compiled (`accept`), what the pieces of a translation do
//! (`pieces`) and what LLVM is asked for them (`meaning`), and what a compiled
//! program returns (`whole`).
pub mod accept;
pub mod arith;
pub mod cfg;
pub mod compiler;
pub mod correct;
pub mod ebpf;
pub mod emit;
pub mod error;
pub mod ir;
pub mod isa;
pub mod label;
pub mod layout;
pub mod llvm;
pub mod machine;
pub mod meaning;
pub mod pieces;
pub mod simulate;
pub mod translate;
pub mod typing;
pub mod whole;
pub mod word;
