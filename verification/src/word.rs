//! Machine words: integers of a given type held in 64 bits, their arithmetic,
//! and the bytes that hold them in memory.
use crate::ir::{BinOp, Pred, Ty};
use vstd::arithmetic::div_mod::{
    lemma_fundamental_div_mod, lemma_mod_decreases, lemma_mod_multiples_vanish,
};
use vstd::prelude::*;

verus! {

/// The order in which the bytes of a word lie in memory.
#[derive(Clone, Copy, Debug, PartialEq, Eq, Structural)]
pub enum ByteOrder {
    Little,
    Big,
}

/// Memory, byte by byte.
pub type Memory = Map<u64, u8>;

/// Number of bits of a type.
pub open spec fn width(ty: Ty) -> nat {
    match ty {
        Ty::I1 => 1,
        Ty::I8 => 8,
        Ty::I16 => 16,
        Ty::I32 => 32,
        Ty::I64 => 64,
    }
}

/// Number of values of a type, two to the power of its width.
pub open spec fn modulus(ty: Ty) -> int {
    match ty {
        Ty::I1 => 2,
        Ty::I8 => 0x100,
        Ty::I16 => 0x1_0000,
        Ty::I32 => 0x1_0000_0000,
        Ty::I64 => 0x1_0000_0000_0000_0000,
    }
}

/// The word of type `ty` that is congruent to `value`.
pub open spec fn wrap(ty: Ty, value: int) -> u64 {
    (value % modulus(ty)) as u64
}

/// The two's complement reading of a word.
pub open spec fn signed(ty: Ty, word: u64) -> int {
    if 2 * word < modulus(ty) {
        word as int
    } else {
        word - modulus(ty)
    }
}

/// The binary operations on words. `None` where the operation is undefined: a
/// division by zero, or a shift by as many bits as the type has or more.
pub open spec fn bin(op: BinOp, ty: Ty, lhs: u64, rhs: u64) -> Option<u64> {
    match op {
        BinOp::Add => Some(wrap(ty, lhs + rhs)),
        BinOp::Sub => Some(wrap(ty, lhs - rhs)),
        BinOp::Mul => Some(wrap(ty, lhs * rhs)),
        BinOp::UDiv => if rhs == 0 {
            None
        } else {
            Some(lhs / rhs)
        },
        BinOp::URem => if rhs == 0 {
            None
        } else {
            Some(lhs % rhs)
        },
        BinOp::And => Some(lhs & rhs),
        BinOp::Or => Some(lhs | rhs),
        BinOp::Xor => Some(lhs ^ rhs),
        BinOp::Shl => if rhs >= width(ty) {
            None
        } else {
            Some(wrap(ty, (lhs << rhs) as int))
        },
        BinOp::LShr => if rhs >= width(ty) {
            None
        } else {
            Some(lhs >> rhs)
        },
        BinOp::AShr => if rhs >= width(ty) {
            None
        } else {
            Some(wrap(ty, (signed(ty, lhs) as i64 >> rhs) as int))
        },
    }
}

/// The comparisons of words.
pub open spec fn compare(pred: Pred, ty: Ty, lhs: u64, rhs: u64) -> bool {
    match pred {
        Pred::Eq => lhs == rhs,
        Pred::Ne => lhs != rhs,
        Pred::Ugt => lhs > rhs,
        Pred::Uge => lhs >= rhs,
        Pred::Ult => lhs < rhs,
        Pred::Ule => lhs <= rhs,
        Pred::Sgt => signed(ty, lhs) > signed(ty, rhs),
        Pred::Sge => signed(ty, lhs) >= signed(ty, rhs),
        Pred::Slt => signed(ty, lhs) < signed(ty, rhs),
        Pred::Sle => signed(ty, lhs) <= signed(ty, rhs),
    }
}

/// Byte `k` of a word, counted from the low end.
pub open spec fn byte(word: u64, k: int) -> u64 {
    if k == 0 {
        word % 0x100
    } else if k == 1 {
        word / 0x100 % 0x100
    } else if k == 2 {
        word / 0x1_0000 % 0x100
    } else if k == 3 {
        word / 0x100_0000 % 0x100
    } else if k == 4 {
        word / 0x1_0000_0000 % 0x100
    } else if k == 5 {
        word / 0x100_0000_0000 % 0x100
    } else if k == 6 {
        word / 0x1_0000_0000_0000 % 0x100
    } else {
        word / 0x100_0000_0000_0000 % 0x100
    }
}

/// Number of bytes that a word of the type takes in memory.
pub open spec fn bytes(ty: Ty) -> int {
    match ty {
        Ty::I1 => 1,
        Ty::I8 => 1,
        Ty::I16 => 2,
        Ty::I32 => 4,
        Ty::I64 => 8,
    }
}

/// The number that the first `n` of the given bytes make, low byte first.
pub open spec fn number(byte_of: spec_fn(int) -> u64, n: int) -> int
    decreases n,
{
    if n <= 0 {
        0
    } else {
        byte_of(0) + 0x100 * number(|k: int| byte_of(k + 1), n - 1)
    }
}

/// The word with its bytes in the opposite order.
pub open spec fn swap_bytes(ty: Ty, word: u64) -> u64 {
    wrap(ty, number(bytes_back(ty, word), bytes(ty)))
}

/// The bytes of a word, counted from the high end.
pub open spec fn bytes_back(ty: Ty, word: u64) -> spec_fn(int) -> u64 {
    |k: int| byte(word, bytes(ty) - 1 - k)
}

/// The address `k` bytes past `addr`; addresses wrap around.
pub open spec fn address(addr: u64, k: int) -> u64 {
    wrap(Ty::I64, addr + k)
}

/// The place in memory of byte `k` of a word, counted from the low end.
pub open spec fn place(order: ByteOrder, addr: u64, ty: Ty, k: int) -> u64 {
    match order {
        ByteOrder::Little => address(addr, k),
        ByteOrder::Big => address(addr, bytes(ty) - 1 - k),
    }
}

/// The bytes at `addr` that make a word of type `ty`, counted from the low end.
pub open spec fn bytes_at(order: ByteOrder, mem: Memory, addr: u64, ty: Ty) -> spec_fn(int) -> u64 {
    |k: int| mem[place(order, addr, ty, k)] as u64
}

/// The word of type `ty` that the memory holds at `addr`.
pub open spec fn load_word(order: ByteOrder, mem: Memory, addr: u64, ty: Ty) -> u64 {
    wrap(ty, number(bytes_at(order, mem, addr, ty), bytes(ty)))
}

/// The memory after bytes `k` and on of the word have been written at `addr`.
pub open spec fn store_bytes(
    order: ByteOrder,
    mem: Memory,
    addr: u64,
    ty: Ty,
    word: u64,
    k: int,
) -> Memory
    decreases bytes(ty) - k,
{
    if k >= bytes(ty) {
        mem
    } else {
        let at = place(order, addr, ty, k);
        store_bytes(order, mem.insert(at, byte(word, k) as u8), addr, ty, word, k + 1)
    }
}

/// The memory after the word has been written at `addr`.
pub open spec fn store_word(order: ByteOrder, mem: Memory, addr: u64, ty: Ty, word: u64) -> Memory {
    store_bytes(order, mem, addr, ty, word, 0)
}

/// What a load of type `ty` finds in an eight-byte slot that holds `word`: its
/// low end on a little-endian machine, its high end on a big-endian one.
pub open spec fn slot_part(order: ByteOrder, ty: Ty, word: u64) -> u64 {
    match order {
        ByteOrder::Little => wrap(ty, word as int),
        ByteOrder::Big => wrap(ty, (word >> (64 - width(ty)) as u64) as int),
    }
}

/// A word of the type is not changed by a cut to it.
pub proof fn lemma_wrap_same(ty: Ty, word: u64)
    requires
        word < modulus(ty),
    ensures
        wrap(ty, word as int) == word,
{
    assert(word as int % modulus(ty) == word) by (nonlinear_arith)
        requires
            0 <= word < modulus(ty),
    ;
}

/// Negation may be applied to a word or to what it was cut from.
pub proof fn lemma_wrap_neg(ty: Ty, word: u64)
    ensures
        wrap(ty, -(wrap(ty, word as int) as int)) == wrap(ty, -(word as int)),
{
    let m = modulus(ty);
    let q = word as int / m;
    let r = word as int % m;
    lemma_fundamental_div_mod(word as int, m);
    lemma_mod_multiples_vanish(-q, -r, m);
    assert(m * (-q) == -(m * q)) by (nonlinear_arith);
    assert(0 <= r <= word) by {
        lemma_mod_decreases(word as nat, m as nat);
    }
}

/// Two bytes of a word lie in two places.
proof fn lemma_places_differ(order: ByteOrder, addr: u64, ty: Ty, i: int, j: int)
    requires
        0 <= i < j < bytes(ty),
    ensures
        place(order, addr, ty, i) != place(order, addr, ty, j),
{
}

/// Writing the bytes from `k` on puts each in its place and leaves the others as
/// they are.
pub proof fn lemma_store_bytes(
    order: ByteOrder,
    mem: Memory,
    addr: u64,
    ty: Ty,
    word: u64,
    k: int,
    j: int,
)
    requires
        0 <= k,
        0 <= j < bytes(ty),
    ensures
        store_bytes(order, mem, addr, ty, word, k)[place(order, addr, ty, j)] == if j >= k {
            byte(word, j) as u8
        } else {
            mem[place(order, addr, ty, j)]
        },
    decreases bytes(ty) - k,
{
    if k < bytes(ty) {
        let next = mem.insert(place(order, addr, ty, k), byte(word, k) as u8);
        lemma_store_bytes(order, next, addr, ty, word, k + 1, j);
        if j < k {
            lemma_places_differ(order, addr, ty, j, k);
        } else if k < j {
            lemma_places_differ(order, addr, ty, k, j);
        }
    }
}

/// Writing bytes changes nothing outside their places.
pub proof fn lemma_store_frame(
    order: ByteOrder,
    mem: Memory,
    addr: u64,
    ty: Ty,
    word: u64,
    k: int,
    at: u64,
)
    requires
        0 <= k,
        forall|j: int| 0 <= j < bytes(ty) ==> at != #[trigger] place(order, addr, ty, j),
    ensures
        store_bytes(order, mem, addr, ty, word, k)[at] == mem[at],
        store_bytes(order, mem, addr, ty, word, k).contains_key(at) == mem.contains_key(at),
    decreases bytes(ty) - k,
{
    if k < bytes(ty) {
        let here = place(order, addr, ty, k);
        let next = mem.insert(here, byte(word, k) as u8);
        lemma_store_frame(order, next, addr, ty, word, k + 1, at);
    }
}

/// Number of words of `n` bytes.
pub open spec fn limit(n: int) -> int
    decreases n,
{
    if n <= 0 {
        1
    } else {
        0x100 * limit(n - 1)
    }
}

/// The bytes past the lowest are those of the word without it.
pub proof fn lemma_byte_shift(word: u64, k: int)
    requires
        0 <= k < 7,
    ensures
        byte(word / 0x100, k) == byte(word, k + 1),
{
    assert(word / 0x100 / 0x100 == word / 0x1_0000);
    assert(word / 0x100 / 0x1_0000 == word / 0x100_0000);
    assert(word / 0x100 / 0x100_0000 == word / 0x1_0000_0000);
    assert(word / 0x100 / 0x1_0000_0000 == word / 0x100_0000_0000);
    assert(word / 0x100 / 0x100_0000_0000 == word / 0x1_0000_0000_0000);
    assert(word / 0x100 / 0x1_0000_0000_0000 == word / 0x100_0000_0000_0000);
}

/// A word is the number that its bytes make.
proof fn lemma_number_of_bytes(word: u64, n: int, byte_of: spec_fn(int) -> u64)
    requires
        0 <= n <= 8,
        word < limit(n),
        forall|k: int| 0 <= k < n ==> #[trigger] byte_of(k) == byte(word, k),
    ensures
        number(byte_of, n) == word,
    decreases n,
{
    if n > 0 {
        let rest = |k: int| byte_of(k + 1);
        assert forall|k: int| 0 <= k < n - 1 implies #[trigger] rest(k) == byte(
            word / 0x100,
            k,
        ) by {
            lemma_byte_shift(word, k);
            assert(byte_of(k + 1) == byte(word, k + 1));
        }
        lemma_number_of_bytes(word / 0x100, n - 1, rest);
        assert(byte_of(0) == byte(word, 0));
    }
}

/// A load gives back the word that was stored at the same address.
pub proof fn law_load_after_store(order: ByteOrder, mem: Memory, addr: u64, ty: Ty, word: u64)
    requires
        ty != Ty::I1,
        word < modulus(ty),
    ensures
        load_word(order, store_word(order, mem, addr, ty, word), addr, ty) == word,
{
    let after = store_word(order, mem, addr, ty, word);
    let n = bytes(ty);
    let byte_of = bytes_at(order, after, addr, ty);
    assert forall|k: int| 0 <= k < n implies #[trigger] byte_of(k) == byte(word, k) by {
        lemma_store_bytes(order, mem, addr, ty, word, 0, k);
        assert(byte(word, k) < 0x100);
    }
    reveal_with_fuel(limit, 9);
    lemma_number_of_bytes(word, n, byte_of);
    lemma_wrap_same(ty, word);
}

/// The bytes of a number are those that it was made of.
pub proof fn lemma_byte_of_number(byte_of: spec_fn(int) -> u64, n: int, k: int)
    requires
        0 <= k < n <= 8,
        forall|i: int| 0 <= i < n ==> #[trigger] byte_of(i) < 0x100,
    ensures
        0 <= number(byte_of, n) < limit(n),
        byte(number(byte_of, n) as u64, k) == byte_of(k),
    decreases n,
{
    reveal_with_fuel(limit, 9);
    let rest = |i: int| byte_of(i + 1);
    assert(byte_of(0) < 0x100);
    if n == 1 {
        assert(number(rest, 0) == 0);
    } else {
        assert forall|i: int| 0 <= i < n - 1 implies #[trigger] rest(i) < 0x100 by {
            assert(byte_of(i + 1) < 0x100);
        }
        let below = if k == 0 {
            0
        } else {
            k - 1
        };
        lemma_byte_of_number(rest, n - 1, below);
        let word = number(byte_of, n) as u64;
        assert(word / 0x100 == number(rest, n - 1));
        if k > 0 {
            lemma_byte_shift(word, k - 1);
        }
    }
}

/// Reversing the bytes of a word twice gives the word back.
pub proof fn law_swap_twice(ty: Ty, word: u64)
    requires
        ty != Ty::I1,
        word < modulus(ty),
    ensures
        swap_bytes(ty, swap_bytes(ty, word)) == word,
{
    let n = bytes(ty);
    let back = bytes_back(ty, word);
    let swapped = swap_bytes(ty, word);
    reveal_with_fuel(limit, 9);
    assert forall|i: int| 0 <= i < n implies #[trigger] back(i) < 0x100 by {}
    lemma_byte_of_number(back, n, 0);
    lemma_wrap_same(ty, number(back, n) as u64);
    let twice = bytes_back(ty, swapped);
    assert forall|k: int| 0 <= k < n implies #[trigger] twice(k) == byte(word, k) by {
        lemma_byte_of_number(back, n, n - 1 - k);
        assert(back(n - 1 - k) == byte(word, k));
    }
    lemma_number_of_bytes(word, n, twice);
    lemma_wrap_same(ty, word);
}

} // verus!
