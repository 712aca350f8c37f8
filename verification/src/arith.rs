//! What the arithmetic of words comes to, in terms of whole numbers and bits.
//!
//! The relations here say of a result what it has to satisfy. They speak of
//! numbers alone, so that they can be held against `word` and `machine`.
use crate::ebpf::{AluOp, Cond};
use crate::ir::Ty;
use crate::machine::{alu, holds};
use crate::translate::alu_ty;
use crate::word::{signed, wrap};
use vstd::arithmetic::div_mod::{
    lemma_fundamental_div_mod, lemma_mod_bound, lemma_mod_multiples_vanish,
};
use vstd::prelude::*;

verus! {

/// Bit `k` of a number.
pub open spec fn bit(x: int, k: int) -> bool
    decreases k,
{
    if k <= 0 {
        x % 2 == 1
    } else {
        bit(x / 2, k - 1)
    }
}

/// Two to the power of `k`.
pub open spec fn two_to(k: int) -> int
    decreases k,
{
    if k <= 0 {
        1
    } else {
        2 * two_to(k - 1)
    }
}

/// A number below `m` read as one of the numbers from minus half of `m` on.
pub open spec fn as_signed(x: int, m: int) -> int {
    if 2 * x < m {
        x
    } else {
        x - m
    }
}

/// Whether `x` and `y` differ by a multiple of `m`.
pub open spec fn congruent(x: int, y: int, m: int) -> bool {
    (x - y) % m == 0
}

/// Whether `q` is `a` divided by `b`, rounded down.
pub open spec fn is_quotient(a: int, b: int, q: int) -> bool {
    q * b <= a < (q + 1) * b
}

/// Whether `r` is what division of `a` by `b` leaves.
pub open spec fn is_remainder(a: int, b: int, r: int) -> bool {
    0 <= r < b && congruent(a, r, b)
}

/// Whether the bits of `r` come from those of `a` and `b`, each from the two in its
/// place.
pub open spec fn is_bitwise(f: spec_fn(bool, bool) -> bool, a: int, b: int, r: int) -> bool {
    forall|k: int| 0 <= k < 64 ==> #[trigger] bit(r, k) == f(bit(a, k), bit(b, k))
}

/// The four bits of an arithmetic operation code that tell the operation, and
/// whether `r` is what it makes of `a` and `b` on words of `bits` bits. Shift amounts
/// count modulo `bits`.
pub open spec fn is_arith(op: int, bits: int, a: int, b: int, r: int) -> bool {
    let m = two_to(bits);
    let p = two_to(b % bits);
    &&& 0 <= r < m
    &&& op == 0 ==> congruent(r, a + b, m)
    &&& op == 1 ==> congruent(r + b, a, m)
    &&& op == 2 ==> congruent(r, a * b, m)
    &&& op == 3 ==> if b == 0 {
        r == 0
    } else {
        is_quotient(a, b, r)
    }
    &&& op == 4 ==> is_bitwise(|x: bool, y: bool| x || y, a, b, r)
    &&& op == 5 ==> is_bitwise(|x: bool, y: bool| x && y, a, b, r)
    &&& op == 6 ==> congruent(r, a * p, m)
    &&& op == 7 ==> is_quotient(a, p, r)
    &&& op == 9 ==> if b == 0 {
        r == a
    } else {
        is_remainder(a, b, r)
    }
    &&& op == 10 ==> is_bitwise(|x: bool, y: bool| x != y, a, b, r)
    &&& op == 11 ==> r == b
    &&& op == 12 ==> is_quotient(as_signed(a, m), p, as_signed(r, m))
}

/// The four bits of a jump's operation code that tell the condition, and whether
/// it holds of `a` and `b` as words below `m`.
pub open spec fn is_taken(op: int, m: int, a: int, b: int) -> bool {
    ||| op == 1 && a == b
    ||| op == 2 && a > b
    ||| op == 3 && a >= b
    ||| op == 4 && exists|k: int| 0 <= k < 64 && #[trigger] bit(a, k) && bit(b, k)
    ||| op == 5 && a != b
    ||| op == 6 && as_signed(a, m) > as_signed(b, m)
    ||| op == 7 && as_signed(a, m) >= as_signed(b, m)
    ||| op == 10 && a < b
    ||| op == 11 && a <= b
    ||| op == 12 && as_signed(a, m) < as_signed(b, m)
    ||| op == 13 && as_signed(a, m) <= as_signed(b, m)
}

pub proof fn lemma_two_to()
    ensures
        two_to(0) == 1,
        two_to(1) == 2,
        two_to(8) == 0x100,
        two_to(16) == 0x1_0000,
        two_to(32) == 0x1_0000_0000,
        two_to(64) == 0x1_0000_0000_0000_0000,
{
    reveal_with_fuel(two_to, 17);
    assert(two_to(32) == 0x1_0000 * two_to(16));
    assert(two_to(48) == 0x1_0000 * two_to(32));
    assert(two_to(64) == 0x1_0000 * two_to(48));
}

proof fn lemma_two_to_positive(k: int)
    ensures
        two_to(k) >= 1,
    decreases k,
{
    if k > 0 {
        lemma_two_to_positive(k - 1);
    }
}

/// The bits of bitwise results.
proof fn lemma_bitwise(a: u64, b: u64, k: int)
    requires
        0 <= k,
    ensures
        bit((a | b) as int, k) == (bit(a as int, k) || bit(b as int, k)),
        bit((a & b) as int, k) == (bit(a as int, k) && bit(b as int, k)),
        bit((a ^ b) as int, k) == (bit(a as int, k) != bit(b as int, k)),
    decreases k,
{
    assert({
        &&& (a | b) / 2 == (a / 2) | (b / 2)
        &&& (a & b) / 2 == (a / 2) & (b / 2)
        &&& (a ^ b) / 2 == (a / 2) ^ (b / 2)
        &&& ((a | b) % 2 == 1) == (a % 2 == 1 || b % 2 == 1)
        &&& ((a & b) % 2 == 1) == (a % 2 == 1 && b % 2 == 1)
        &&& ((a ^ b) % 2 == 1) == ((a % 2 == 1) != (b % 2 == 1))
    }) by (bit_vector);
    if k > 0 {
        lemma_bitwise(a / 2, b / 2, k - 1);
    }
}

/// The conjunction has the bits that both words have, the disjunction those that one of
/// them has, and the exclusive disjunction those in which they differ.
pub proof fn law_bitwise(a: u64, b: u64)
    ensures
        is_bitwise(|x: bool, y: bool| x && y, a as int, b as int, (a & b) as int),
        is_bitwise(|x: bool, y: bool| x || y, a as int, b as int, (a | b) as int),
        is_bitwise(|x: bool, y: bool| x != y, a as int, b as int, (a ^ b) as int),
{
    assert forall|k: int| 0 <= k < 64 implies {
        #[trigger] bit((a & b) as int, k) == (bit(a as int, k) && bit(b as int, k))
    } by {
        lemma_bitwise(a, b, k);
    }
    assert forall|k: int| 0 <= k < 64 implies {
        #[trigger] bit((a | b) as int, k) == (bit(a as int, k) || bit(b as int, k))
    } by {
        lemma_bitwise(a, b, k);
    }
    assert forall|k: int| 0 <= k < 64 implies {
        #[trigger] bit((a ^ b) as int, k) == (bit(a as int, k) != bit(b as int, k))
    } by {
        lemma_bitwise(a, b, k);
    }
}

/// A number that is not zero has a bit.
proof fn lemma_some_bit(x: int, n: int) -> (k: int)
    requires
        0 < x < two_to(n),
        0 <= n,
    ensures
        0 <= k < n,
        bit(x, k),
    decreases n,
{
    if x % 2 == 1 {
        0
    } else {
        lemma_some_bit(x / 2, n - 1) + 1
    }
}

/// Two words have a bit in common if their conjunction is not zero.
pub proof fn lemma_common_bit(a: u64, b: u64)
    ensures
        (a & b != 0) == exists|k: int|
            0 <= k < 64 && #[trigger] bit(a as int, k) && bit(b as int, k),
{
    if a & b != 0 {
        lemma_two_to();
        let k = lemma_some_bit((a & b) as int, 64);
        lemma_bitwise(a, b, k);
    } else {
        assert forall|k: int| 0 <= k < 64 implies !(#[trigger] bit(a as int, k) && bit(
            b as int,
            k,
        )) by {
            lemma_bitwise(a, b, k);
            lemma_no_bit(k);
        }
    }
}

proof fn lemma_no_bit(k: int)
    ensures
        !bit(0, k),
    decreases k,
{
    if k > 0 {
        lemma_no_bit(k - 1);
    }
}

proof fn lemma_shl(a: u64, s: u64)
    requires
        s < 64,
    ensures
        congruent((a << s) as int, a * two_to(s as int), 0x1_0000_0000_0000_0000),
    decreases s,
{
    if s == 0 {
        assert(a << 0 == a) by (bit_vector);
    } else {
        let t = (s - 1) as u64;
        lemma_shl(a, t);
        let x = a << t;
        let y = a << s;
        assert(y == 2 * x || y == 2 * x - 0x1_0000_0000_0000_0000) by (bit_vector)
            requires
                0 < s < 64,
                t == s - 1,
                x == a << t,
                y == a << s,
        ;
        let m = 0x1_0000_0000_0000_0000int;
        let z = a * two_to(t as int);
        let d = (x - z) / m;
        assert(x - z == m * d) by {
            lemma_fundamental_div_mod(x - z, m);
        }
        assert(a * two_to(s as int) == 2 * z) by (nonlinear_arith)
            requires
                z == a * two_to(t as int),
                two_to(s as int) == 2 * two_to(t as int),
        ;
        assert((y - 2 * z) % m == 0);
    }
}

proof fn lemma_shr(a: u64, s: u64)
    requires
        s < 64,
    ensures
        is_quotient(a as int, two_to(s as int), (a >> s) as int),
    decreases s,
{
    if s == 0 {
        assert(a >> 0 == a) by (bit_vector);
    } else {
        let t = (s - 1) as u64;
        lemma_shr(a, t);
        lemma_two_to_positive(t as int);
        let x = a >> t;
        let y = a >> s;
        assert(2 * y <= x <= 2 * y + 1) by (bit_vector)
            requires
                0 < s < 64,
                t == s - 1,
                x == a >> t,
                y == a >> s,
        ;
        lemma_halve(a as int, two_to(t as int), x as int, y as int);
    }
}

/// A quotient by a number, and half of it.
proof fn lemma_halve(a: int, p: int, x: int, y: int)
    requires
        is_quotient(a, p, x),
        2 * y <= x <= 2 * y + 1,
        p > 0,
    ensures
        is_quotient(a, 2 * p, y),
{
    assert(y * (2 * p) <= x * p) by (nonlinear_arith)
        requires
            2 * y <= x,
            p > 0,
    ;
    assert((x + 1) * p <= (y + 1) * (2 * p)) by (nonlinear_arith)
        requires
            x <= 2 * y + 1,
            p > 0,
    ;
}

proof fn lemma_sar(a: i64, s: u64)
    requires
        s < 64,
    ensures
        is_quotient(a as int, two_to(s as int), (a >> s) as int),
    decreases s,
{
    if s == 0 {
        assert(a >> 0 == a) by (bit_vector);
    } else {
        let t = (s - 1) as u64;
        lemma_sar(a, t);
        lemma_two_to_positive(t as int);
        let x = a >> t;
        let y = a >> s;
        assert(2 * y <= x <= 2 * y + 1) by (bit_vector)
            requires
                0 < s < 64,
                t == s - 1,
                x == a >> t,
                y == a >> s,
        ;
        lemma_halve(a as int, two_to(t as int), x as int, y as int);
    }
}

/// The number of an arithmetic operation in operation codes.
pub open spec fn alu_number(op: AluOp) -> int {
    match op {
        AluOp::Add => 0,
        AluOp::Sub => 1,
        AluOp::Mul => 2,
        AluOp::Div => 3,
        AluOp::Or => 4,
        AluOp::And => 5,
        AluOp::Lsh => 6,
        AluOp::Rsh => 7,
        AluOp::Mod => 9,
        AluOp::Xor => 10,
        AluOp::Mov => 11,
        AluOp::Arsh => 12,
    }
}

/// Number of bits of the arithmetic on 64 bits (`wide`) or 32.
pub open spec fn alu_bits(wide: bool) -> int {
    if wide {
        64
    } else {
        32
    }
}

/// A word is congruent to what it was cut from.
pub proof fn lemma_cut(wide: bool, x: int)
    ensures
        0 <= wrap(alu_ty(wide), x) < two_to(alu_bits(wide)),
        congruent(wrap(alu_ty(wide), x) as int, x, two_to(alu_bits(wide))),
{
    lemma_two_to();
    if wide {
        assert(wrap(Ty::I64, x) == x % 0x1_0000_0000_0000_0000);
    } else {
        assert(wrap(Ty::I32, x) == x % 0x1_0000_0000);
    }
}

proof fn lemma_congruent_trans(x: int, y: int, z: int, m: int)
    requires
        m > 0,
        congruent(x, y, m),
        congruent(y, z, m),
    ensures
        congruent(x, z, m),
{
    lemma_fundamental_div_mod(x - y, m);
    lemma_fundamental_div_mod(y - z, m);
    let p = (x - y) / m;
    let q = (y - z) / m;
    assert(m * (p + q) == m * p + m * q) by (nonlinear_arith);
    lemma_mod_multiples_vanish(p + q, 0, m);
    assert(x - z == m * (p + q) + 0);
}

/// The arithmetic operations do what their numbers say.
#[verifier::rlimit(40)]
#[verifier::spinoff_prover]
pub proof fn law_alu(op: AluOp, wide: bool, a: u64, b: u64)
    requires
        a < two_to(alu_bits(wide)),
        b < two_to(alu_bits(wide)),
    ensures
        is_arith(
            alu_number(op),
            alu_bits(wide),
            a as int,
            b as int,
            alu(op, alu_ty(wide), a, b) as int,
        ),
{
    let ty = alu_ty(wide);
    let n = alu_bits(wide);
    let m = two_to(n);
    let amount = b % (n as u64);
    let r = alu(op, ty, a, b);
    lemma_two_to();
    lemma_narrow(a, b, amount);
    assert(amount < n);
    assert(amount == b as int % n);
    match op {
        AluOp::Add => {
            lemma_cut(wide, a + b);
        },
        AluOp::Sub => {
            lemma_cut(wide, a - b);
            assert((r + b) - a == r - (a - b));
        },
        AluOp::Mul => {
            lemma_cut(wide, a * b);
        },
        AluOp::Div => {
            if b != 0 {
                lemma_division(a as int, b as int);
            }
        },
        AluOp::Or => {
            law_bitwise(a, b);
        },
        AluOp::And => {
            law_bitwise(a, b);
        },
        AluOp::Xor => {
            law_bitwise(a, b);
        },
        AluOp::Lsh => {
            let x = (a << amount) as int;
            let y = a * two_to(amount as int);
            lemma_shl(a, amount);
            lemma_cut(wide, x);
            if !wide {
                lemma_fundamental_div_mod(x - y, 0x1_0000_0000_0000_0000);
                assert((x - y) % 0x1_0000_0000 == 0);
            }
            lemma_congruent_trans(r as int, x, y, m);
        },
        AluOp::Rsh => {
            lemma_shr(a, amount);
        },
        AluOp::Mod => {
            if b != 0 {
                lemma_division(a as int, b as int);
            }
        },
        AluOp::Mov => {},
        AluOp::Arsh => {
            let sa = signed(ty, a) as i64;
            assert(sa == as_signed(a as int, m));
            lemma_sar(sa, amount);
            lemma_two_to_positive(amount as int);
            let q = sa >> amount;
            assert(-m <= 2 * q < m) by {
                lemma_quotient_bound(sa as int, two_to(amount as int), q as int, m);
            }
            assert(as_signed(r as int, m) == q);
        },
    }
}

/// The quotient is no farther from zero than the dividend.
proof fn lemma_quotient_bound(a: int, p: int, q: int, m: int)
    requires
        is_quotient(a, p, q),
        p >= 1,
        m >= 2,
        -m <= 2 * a < m,
    ensures
        -m <= 2 * q < m,
{
    if q >= 0 {
        assert(q <= q * p) by (nonlinear_arith)
            requires
                q >= 0,
                p >= 1,
        ;
    } else {
        assert((q + 1) * p <= q + 1) by (nonlinear_arith)
            requires
                q + 1 <= 0,
                p >= 1,
        ;
    }
}

/// Quotient and remainder of whole numbers.
proof fn lemma_division(a: int, b: int)
    requires
        0 <= a,
        0 < b,
    ensures
        is_quotient(a, b, a / b),
        is_remainder(a, b, a % b),
        0 <= a / b <= a,
        a % b <= a,
{
    lemma_fundamental_div_mod(a, b);
    lemma_mod_bound(a, b);
    let q = a / b;
    assert(q * b == b * q) by (nonlinear_arith);
    assert((q + 1) * b == q * b + b) by (nonlinear_arith);
    lemma_mod_multiples_vanish(q, 0, b);
    assert(a - a % b == b * q + 0);
    assert(q >= 0) by (nonlinear_arith)
        requires
            (q + 1) * b > a,
            a >= 0,
            b > 0,
    ;
    assert(q <= q * b) by (nonlinear_arith)
        requires
            q >= 0,
            b >= 1,
    ;
}

/// Bitwise results and right shifts are no longer than their operands.
proof fn lemma_narrow(a: u64, b: u64, amount: u64)
    ensures
        a < 0x1_0000_0000 && b < 0x1_0000_0000 ==> {
            &&& a | b < 0x1_0000_0000
            &&& a ^ b < 0x1_0000_0000
        },
        a & b <= a,
        a >> amount <= a,
{
    assert(a < 0x1_0000_0000 && b < 0x1_0000_0000 ==> {
        &&& a | b < 0x1_0000_0000
        &&& a ^ b < 0x1_0000_0000
    }) by (bit_vector);
    assert(a & b <= a && a >> amount <= a) by (bit_vector);
}

/// The number of a condition in operation codes.
pub open spec fn cond_number(cond: Cond) -> int {
    match cond {
        Cond::Eq => 1,
        Cond::Gt => 2,
        Cond::Ge => 3,
        Cond::AnyBit => 4,
        Cond::Ne => 5,
        Cond::Sgt => 6,
        Cond::Sge => 7,
        Cond::Lt => 10,
        Cond::Le => 11,
        Cond::Slt => 12,
        Cond::Sle => 13,
    }
}

/// The conditions of jumps hold when their numbers say so.
pub proof fn law_cond(cond: Cond, wide: bool, a: u64, b: u64)
    ensures
        holds(cond, alu_ty(wide), a, b) == is_taken(
            cond_number(cond),
            two_to(alu_bits(wide)),
            a as int,
            b as int,
        ),
{
    lemma_two_to();
    lemma_common_bit(a, b);
}

} // verus!
