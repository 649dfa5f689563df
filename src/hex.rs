//! Lower-case hexadecimal digits: their mathematical meaning and a verified
//! writer that appends them to a `String`.

use vstd::prelude::*;

verus! {

/// The sixteen lower-case hexadecimal digits, in order of value.
pub open spec fn hex_alphabet() -> Seq<char> {
    seq!['0', '1', '2', '3', '4', '5', '6', '7', '8', '9', 'a', 'b', 'c', 'd', 'e', 'f']
}

/// The lowest `n` hexadecimal digits of `v`, most significant first
/// (leading zeros included).
pub open spec fn hex_fixed(v: nat, n: nat) -> Seq<char>
    decreases n,
{
    if n == 0 {
        Seq::empty()
    } else {
        hex_fixed(v / 16, (n - 1) as nat).push(hex_alphabet()[(v % 16) as int])
    }
}

/// How many hexadecimal digits `v` has when written without leading zeros
/// (zero is written with one digit).
pub open spec fn digit_count(v: nat) -> nat
    decreases v,
{
    if v < 16 {
        1
    } else {
        1 + digit_count(v / 16)
    }
}

/// `v` in hexadecimal, padded on the left with zeros to at least `width`
/// digits, as `format!("{:0width$x}", v)` writes it.
pub open spec fn hex_padded(v: nat, width: nat) -> Seq<char> {
    hex_fixed(v, if digit_count(v) < width { width } else { digit_count(v) })
}

pub open spec fn pow16(k: nat) -> nat
    decreases k,
{
    if k == 0 {
        1
    } else {
        16 * pow16((k - 1) as nat)
    }
}

/// Every digit written is one of the sixteen hexadecimal digits.
pub proof fn lemma_hex_fixed_digits(v: nat, n: nat)
    ensures
        hex_fixed(v, n).len() == n,
        forall|i: int| #![auto] 0 <= i < n ==> hex_alphabet().contains(hex_fixed(v, n)[i]),
    decreases n,
{
    if n > 0 {
        lemma_hex_fixed_digits(v / 16, (n - 1) as nat);
        let d = hex_alphabet()[(v % 16) as int];
        assert(hex_alphabet()[(v % 16) as int] == d);
        assert(hex_alphabet().contains(d));
    }
}

/// A number below `16^k` has at most `k` digits.
pub proof fn lemma_digit_count_bound(v: nat, k: nat)
    requires
        k >= 1,
        v < pow16(k),
    ensures
        digit_count(v) <= k,
    decreases k,
{
    if v >= 16 {
        let k1 = (k - 1) as nat;
        if k1 == 0 {
            assert(pow16(k) == 16) by {
                assert(pow16(0) == 1);
            }
        } else {
            assert(v / 16 < pow16(k1)) by (nonlinear_arith)
                requires
                    v < 16 * pow16(k1),
            ;
            lemma_digit_count_bound(v / 16, k1);
        }
    }
}

proof fn lemma_pow16_32()
    ensures
        pow16(32) == 0x1_0000_0000_0000_0000_0000_0000_0000_0000,
{
    reveal_with_fuel(pow16, 33);
}

/// Appends the hexadecimal digit of value `d`.
fn push_digit(out: &mut String, d: u8)
    requires
        d < 16,
    ensures
        final(out)@ == old(out)@.push(hex_alphabet()[d as int]),
{
    let s: &str = match d {
        0 => "0",
        1 => "1",
        2 => "2",
        3 => "3",
        4 => "4",
        5 => "5",
        6 => "6",
        7 => "7",
        8 => "8",
        9 => "9",
        10 => "a",
        11 => "b",
        12 => "c",
        13 => "d",
        14 => "e",
        _ => "f",
    };
    proof {
        reveal_strlit("0");
        reveal_strlit("1");
        reveal_strlit("2");
        reveal_strlit("3");
        reveal_strlit("4");
        reveal_strlit("5");
        reveal_strlit("6");
        reveal_strlit("7");
        reveal_strlit("8");
        reveal_strlit("9");
        reveal_strlit("a");
        reveal_strlit("b");
        reveal_strlit("c");
        reveal_strlit("d");
        reveal_strlit("e");
        reveal_strlit("f");
    }
    assert(s@ =~= seq![hex_alphabet()[d as int]]);
    out.append(s);
}

/// Appends the lowest `n` hexadecimal digits of `v`, leading zeros included.
pub fn append_hex_fixed(out: &mut String, v: u128, n: usize)
    ensures
        final(out)@ == old(out)@ + hex_fixed(v as nat, n as nat),
    decreases n,
{
    if n == 0 {
        assert(old(out)@ + hex_fixed(v as nat, 0) =~= old(out)@);
    } else {
        append_hex_fixed(out, v / 16, n - 1);
        push_digit(out, (v % 16) as u8);
        assert(final(out)@ =~= old(out)@ + hex_fixed(v as nat, n as nat));
    }
}

/// The number of digits of `v` in hexadecimal, without leading zeros.
pub fn hex_digit_count(v: u128) -> (n: usize)
    ensures
        n == digit_count(v as nat),
        n <= 32,
{
    proof {
        lemma_pow16_32();
        lemma_digit_count_bound(v as nat, 32);
    }
    let mut x: u128 = v;
    let mut n: usize = 1;
    while x >= 16
        invariant
            n + digit_count(x as nat) == digit_count(v as nat) + 1,
            digit_count(v as nat) <= 32,
        decreases x,
    {
        x = x / 16;
        n = n + 1;
    }
    n
}

/// Appends `v` in hexadecimal, zero-padded to at least `width` digits.
pub fn append_hex_padded(out: &mut String, v: u128, width: usize)
    ensures
        final(out)@ == old(out)@ + hex_padded(v as nat, width as nat),
{
    let count = hex_digit_count(v);
    let n: usize = if count < width { width } else { count };
    append_hex_fixed(out, v, n);
}

} // verus!
