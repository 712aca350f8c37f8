use bpf_llvm::error::Error;
use bpf_llvm::label::{gen_next_label, numbered};

#[test]
fn labels_count_up() {
    let mut count = 0;
    assert_eq!(gen_next_label(&mut count), "block_0");
    assert_eq!(gen_next_label(&mut count), "block_1");
    count = 99;
    assert_eq!(gen_next_label(&mut count), "block_99");
    assert_eq!(gen_next_label(&mut count), "block_100");
    assert_eq!(count, 101);
}

#[test]
fn label_count_wraps_around() {
    let mut count = usize::MAX;
    assert_eq!(gen_next_label(&mut count), format!("block_{}", usize::MAX));
    assert_eq!(count, 0);
}

#[test]
fn numbers_in_names() {
    assert_eq!(numbered("helper_", 0), "helper_0");
    assert_eq!(numbered("helper_", 4294967295), "helper_4294967295");
    assert_eq!(numbered("r", 10), "r10");
}

#[test]
fn different_numbers_give_different_labels() {
    let mut count = 0;
    let mut labels: Vec<String> = (0..300).map(|_| gen_next_label(&mut count)).collect();
    assert_eq!(labels[299], "block_299");
    assert_eq!(count, 300);
    labels.sort();
    labels.dedup();
    assert_eq!(labels.len(), 300);
}

#[test]
fn error_texts() {
    let unknown = Error::UnknownHelper { id: 0x1aF };
    assert_eq!(unknown.message(), "[LLVM] Error: unknown helper function (id: 0x1af)");
    let zero = Error::UnknownHelper { id: 0 };
    assert_eq!(zero.message(), "[LLVM] Error: unknown helper function (id: 0x0)");
    let top = Error::UnknownHelper { id: u32::MAX };
    assert_eq!(top.message(), "[LLVM] Error: unknown helper function (id: 0xffffffff)");
    assert_eq!(Error::NoEngine.message(), "[LLVM] Error: no execution engine");
    assert_eq!(Error::Rejected.message(), "[LLVM] Error: invalid bitcode");
}
