//! Names that carry a number: the labels of basic blocks, the symbols of
//! helper functions.
use vstd::prelude::*;
use vstd::string::StringExecFns;

verus! {

/// The digit that stands for `d`, in bases up to sixteen.
pub open spec fn digit(d: int) -> char {
    if d < 10 {
        (0x30 + d) as char
    } else {
        (0x57 + d) as char
    }
}

/// The digits of a number in a base, the most significant first.
pub open spec fn digits(n: nat, base: nat) -> Seq<char>
    decreases n,
{
    if base < 2 || n < base {
        seq![digit(n as int)]
    } else {
        proof {
            assert(n / base < n) by (nonlinear_arith)
                requires
                    n >= base,
                    base >= 2,
            ;
        }
        digits(n / base, base).push(digit((n % base) as int))
    }
}

/// A prefix followed by a number in base ten.
pub open spec fn numbered_name(prefix: Seq<char>, n: nat) -> Seq<char> {
    prefix + digits(n, 10)
}

/// The label of the block numbered `n`.
pub open spec fn block_label(n: nat) -> Seq<char> {
    numbered_name("block_"@, n)
}

/// The symbol of the helper function numbered `id`.
pub open spec fn helper_symbol(id: u32) -> Seq<char> {
    numbered_name("helper_"@, id as nat)
}

/// The digit that stands for `d`, as a string.
fn digit_str(d: u64) -> (res: &'static str)
    requires
        d < 16,
    ensures
        res@ == seq![digit(d as int)],
{
    proof {
        reveal_strlit("0");
        reveal_strlit("1");
        reveal_strlit("2");
        reveal_strlit("3");
        reveal_strlit("4");
        reveal_strlit("5");
        reveal_strlit("6");
        reveal_strlit("7");
        reveal_strlit("8");
        reveal_strlit("9");
        reveal_strlit("a");
        reveal_strlit("b");
        reveal_strlit("c");
        reveal_strlit("d");
        reveal_strlit("e");
        reveal_strlit("f");
    }
    match d {
        0 => "0",
        1 => "1",
        2 => "2",
        3 => "3",
        4 => "4",
        5 => "5",
        6 => "6",
        7 => "7",
        8 => "8",
        9 => "9",
        10 => "a",
        11 => "b",
        12 => "c",
        13 => "d",
        14 => "e",
        _ => "f",
    }
}

/// Appends the digits of a number to a string.
pub fn append_digits(text: &mut String, n: u64, base: u64)
    requires
        2 <= base <= 16,
    ensures
        final(text)@ == old(text)@ + digits(n as nat, base as nat),
    decreases n,
{
    if n >= base {
        assert(n / base < n) by (nonlinear_arith)
            requires
                n >= base,
                base >= 2,
        ;
        append_digits(text, n / base, base);
    }
    let ghost before = text@;
    text.append(digit_str(n % base));
    proof {
        assert(text@ == before.push(digit((n % base) as int)));
        if n < base {
            assert(n % base == n) by (nonlinear_arith)
                requires
                    n < base,
            ;
        } else {
            let high = digits((n / base) as nat, base as nat);
            assert(text@ == old(text)@ + high.push(digit((n % base) as int)));
        }
    }
}

/// A prefix followed by a number in base ten.
pub fn numbered(prefix: &str, n: u64) -> (name: String)
    ensures
        name@ == numbered_name(prefix@, n as nat),
{
    let mut name = String::from_str(prefix);
    append_digits(&mut name, n, 10);
    name
}

/// The count after one more label. It wraps around.
pub open spec fn next_count(count: usize) -> usize {
    if count == usize::MAX {
        0
    } else {
        (count + 1) as usize
    }
}

/// The count after `n` more labels.
pub open spec fn count_after(count: usize, n: nat) -> usize
    decreases n,
{
    if n == 0 {
        count
    } else {
        next_count(count_after(count, (n - 1) as nat))
    }
}

/// The labels that are handed out one after another, `n` of them.
pub open spec fn labels_from(count: usize, n: nat) -> Seq<Seq<char>> {
    Seq::new(n, |i: int| block_label(count_after(count, i as nat) as nat))
}

/// Hands out the label of the next block, and counts it. The count wraps
/// around.
pub fn gen_next_label(label_cnt: &mut usize) -> (label: String)
    ensures
        label@ == block_label(*old(label_cnt) as nat),
        *final(label_cnt) == next_count(*old(label_cnt)),
{
    let cnt: usize = *label_cnt;
    *label_cnt = cnt.wrapping_add(1);
    numbered("block_", cnt as u64)
}

/// Different digits stand for different numbers.
proof fn lemma_digit_injective(a: int, b: int)
    requires
        0 <= a < 16,
        0 <= b < 16,
        digit(a) == digit(b),
    ensures
        a == b,
{
}

/// Different numbers have different digits.
pub proof fn law_digits_injective(m: nat, n: nat, base: nat)
    requires
        2 <= base <= 16,
        digits(m, base) == digits(n, base),
    ensures
        m == n,
    decreases m,
{
    let dm = digits(m, base);
    let dn = digits(n, base);
    if m < base && n < base {
        assert(dm[0] == digit(m as int) && dn[0] == digit(n as int));
        lemma_digit_injective(m as int, n as int);
    } else if m < base {
        lemma_digits_nonempty(n / base, base);
        assert(dn.len() == digits(n / base, base).len() + 1);
    } else if n < base {
        lemma_digits_nonempty(m / base, base);
        assert(dm.len() == digits(m / base, base).len() + 1);
    } else {
        assert(dm.drop_last() == digits(m / base, base));
        assert(dn.drop_last() == digits(n / base, base));
        assert(dm.last() == digit((m % base) as int));
        assert(dn.last() == digit((n % base) as int));
        assert(m / base < m && m % base < base && n % base < base) by (nonlinear_arith)
            requires
                m >= base,
                base >= 2,
        ;
        lemma_digit_injective((m % base) as int, (n % base) as int);
        law_digits_injective(m / base, n / base, base);
        vstd::arithmetic::div_mod::lemma_fundamental_div_mod(m as int, base as int);
        vstd::arithmetic::div_mod::lemma_fundamental_div_mod(n as int, base as int);
    }
}

/// A number has at least one digit.
proof fn lemma_digits_nonempty(n: nat, base: nat)
    ensures
        digits(n, base).len() >= 1,
    decreases n,
{
    if !(base < 2 || n < base) {
        assert(n / base < n) by (nonlinear_arith)
            requires
                n >= base,
                base >= 2,
        ;
    }
}

/// Blocks with different numbers have different labels.
pub proof fn law_labels_differ(m: nat, n: nat)
    requires
        m != n,
    ensures
        block_label(m) != block_label(n),
{
    if block_label(m) == block_label(n) {
        let k = "block_"@.len() as int;
        assert(block_label(m).skip(k) == digits(m, 10));
        assert(block_label(n).skip(k) == digits(n, 10));
        law_digits_injective(m, n, 10);
    }
}

proof fn lemma_count_after(count: usize, n: nat)
    requires
        n <= usize::MAX,
    ensures
        count_after(count, n) == if count + n <= usize::MAX {
            count + n
        } else {
            count + n - usize::MAX - 1
        },
    decreases n,
{
    if n > 0 {
        lemma_count_after(count, (n - 1) as nat);
    }
}

/// Labels that are handed out one after another all differ. If the count does not
/// wrap around, they carry the numbers from the count on, and the count has
/// grown by their number.
pub proof fn law_labels_handed_out(count: usize, n: nat)
    requires
        n <= usize::MAX,
    ensures
        labels_from(count, n).no_duplicates(),
        count + n <= usize::MAX ==> {
            &&& labels_from(count, n) == Seq::new(n, |i: int| block_label((count + i) as nat))
            &&& count_after(count, n) == count + n
        },
{
    let labels = labels_from(count, n);
    assert forall|i: int, j: int| 0 <= i < n && 0 <= j < n && i != j implies labels[i]
        != labels[j] by {
        lemma_count_after(count, i as nat);
        lemma_count_after(count, j as nat);
        law_labels_differ(
            count_after(count, i as nat) as nat,
            count_after(count, j as nat) as nat,
        );
    }
    lemma_count_after(count, n);
    if count + n <= usize::MAX {
        assert forall|i: int| 0 <= i < n implies labels[i] == block_label((count + i) as nat) by {
            lemma_count_after(count, i as nat);
        }
    }
}

/// The number that a digit stands for: 0 to 9, then a to f.
pub open spec fn digit_value(c: char) -> int {
    if '0' <= c <= '9' {
        c as int - '0' as int
    } else if 'a' <= c <= 'f' {
        c as int - 'a' as int + 10
    } else {
        -1
    }
}

/// The number that a row of digits stands for in a base.
pub open spec fn value_of(text: Seq<char>, base: int) -> int
    decreases text.len(),
{
    if text.len() == 0 {
        0
    } else {
        value_of(text.drop_last(), base) * base + digit_value(text.last())
    }
}

/// The digits of a number, read again, give the number. All are digits of the base, and
/// only zero starts with a zero.
pub proof fn law_digits_value(n: nat, base: nat)
    requires
        2 <= base <= 16,
    ensures
        value_of(digits(n, base), base as int) == n,
        digits(n, base).len() >= 1,
        forall|i: int|
            0 <= i < digits(n, base).len() ==> 0 <= digit_value(#[trigger] digits(n, base)[i])
                < base,
        n > 0 ==> digits(n, base)[0] != '0',
    decreases n,
{
    let text = digits(n, base);
    if n < base {
        assert(text.drop_last() =~= seq![]);
        assert(value_of(text.drop_last(), base as int) == 0);
        assert(0 * base == 0);
    } else {
        assert(n / base < n && n % base < base && n / base > 0) by (nonlinear_arith)
            requires
                n >= base,
                base >= 2,
        ;
        law_digits_value(n / base, base);
        let high = digits(n / base, base);
        assert(text.drop_last() =~= high);
        vstd::arithmetic::div_mod::lemma_fundamental_div_mod(n as int, base as int);
        assert((n / base) * base == base * (n / base)) by (nonlinear_arith);
        assert forall|i: int| 0 <= i < text.len() implies 0 <= digit_value(#[trigger] text[i])
            < base by {
            if i < high.len() {
                assert(text[i] == high[i]);
            }
        }
        assert(text[0] == high[0]);
    }
}

/// A name that carries a number is the prefix, and then a number that reads as the one it
/// was given; the labels of blocks start with `block_`, the symbols of helper functions
/// with `helper_`.
pub proof fn law_names(prefix: Seq<char>, n: nat, id: u32)
    ensures
        numbered_name(prefix, n).len() > prefix.len(),
        numbered_name(prefix, n).take(prefix.len() as int) == prefix,
        value_of(numbered_name(prefix, n).skip(prefix.len() as int), 10) == n,
        block_label(n) == numbered_name("block_"@, n),
        helper_symbol(id) == numbered_name("helper_"@, id as nat),
{
    law_digits_value(n, 10);
    assert(numbered_name(prefix, n).take(prefix.len() as int) =~= prefix);
    assert(numbered_name(prefix, n).skip(prefix.len() as int) =~= digits(n, 10));
}

/// Different helper functions have different symbols.
pub proof fn law_symbols_differ(a: u32, b: u32)
    requires
        a != b,
    ensures
        helper_symbol(a) != helper_symbol(b),
{
    law_names("helper_"@, a as nat, a);
    law_names("helper_"@, b as nat, b);
}

} // verus!
