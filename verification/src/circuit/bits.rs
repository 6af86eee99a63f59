//! Numbers and their binary digits.
use vstd::arithmetic::div_mod::lemma_div_denominator;
use vstd::prelude::*;

use crate::field::{add_mod, modulus, mul_mod};
use crate::tree::{capacity, lemma_width_of_root, lemma_width_positive, path_directions, width};
use crate::tree::TREE_DEPTH;

verus! {

/// The number whose binary digits are given, the least significant first.
pub open spec fn bits_value(bits: Seq<bool>) -> nat
    decreases bits.len(),
{
    if bits.len() == 0 {
        0
    } else {
        bit_value(bits[0]) + 2 * bits_value(bits.drop_first())
    }
}

/// One for a digit that is set, else zero.
pub open spec fn bit_value(bit: bool) -> nat {
    if bit {
        1
    } else {
        0
    }
}

/// The first `n` binary digits of a number, the least significant first.
pub open spec fn digits(x: nat, n: nat) -> Seq<bool> {
    Seq::new(n, |k: int| (x / width(k as nat)) % 2 == 1)
}

/// The digits of a number stand for it where there are enough of them.
pub proof fn lemma_digits(x: nat, n: nat)
    requires
        x < width(n),
    ensures
        bits_value(digits(x, n)) == x,
    decreases n,
{
    let bits = digits(x, n);
    if n > 0 {
        let m = (n - 1) as nat;
        assert forall|k: int| 0 <= k < m implies #[trigger] bits.drop_first()[k] == digits(
            x / 2,
            m,
        )[k] by {
            lemma_width_positive(k as nat);
            lemma_div_denominator(x as int, 2, width(k as nat) as int);
            assert(width((k + 1) as nat) == 2 * width(k as nat));
        }
        assert(bits.drop_first() =~= digits(x / 2, m));
        lemma_digits(x / 2, m);
        assert(x / width(0) == x) by (nonlinear_arith)
            requires
                width(0) == 1,
        ;
        assert(bits[0] == (x % 2 == 1));
    }
}

/// So many digits stand for no greater number.
pub proof fn lemma_bits_bound(bits: Seq<bool>)
    ensures
        bits_value(bits) < width(bits.len()),
    decreases bits.len(),
{
    if bits.len() > 0 {
        lemma_bits_bound(bits.drop_first());
    }
}

/// The directions on the way from a leaf to the root are the digits of its place.
pub proof fn lemma_directions_value(index: nat)
    requires
        index < capacity(),
    ensures
        bits_value(path_directions(index)) == index,
{
    lemma_width_of_root();
    lemma_digits(index, TREE_DEPTH as nat);
    assert(path_directions(index) =~= digits(index, TREE_DEPTH as nat));
}

/// Numbers of 64 digits are those that fit in a `u64`.
pub proof fn lemma_width_of_u64()
    ensures
        width(64) == 0x1_0000_0000_0000_0000,
{
    lemma_width_of_root();
    assert(width(32) == 0x1_0000_0000);
    reveal_with_fuel(width, 33);
    assert(width(64) == 0x1_0000_0000 * width(32));
}

/// One more digit in front, in the field.
pub proof fn lemma_digit_in_front(bit: bool, rest: nat)
    ensures
        add_mod(mul_mod(2, rest % modulus()), bit_value(bit)) == (bit_value(bit) + 2 * rest)
            % modulus(),
{
    let m = modulus() as int;
    let b = bit_value(bit) as int;
    vstd::arithmetic::div_mod::lemma_mul_mod_noop_right(2, rest as int, m);
    vstd::arithmetic::div_mod::lemma_add_mod_noop(2 * rest as int, b, m);
    vstd::arithmetic::div_mod::lemma_add_mod_noop((2 * rest as int) % m, b, m);
    vstd::arithmetic::div_mod::lemma_mod_twice(2 * rest as int, m);
}

/// Digits stand for a number in the binary system: one more digit in front doubles the rest, and no
/// two lists of one length stand for one number.
pub proof fn law_binary_digits(bits: Seq<bool>, other: Seq<bool>)
    requires
        bits.len() == other.len(),
    ensures
        bits_value(Seq::empty()) == 0,
        bits_value(seq![true] + bits) == 1 + 2 * bits_value(bits),
        bits_value(seq![false] + bits) == 2 * bits_value(bits),
        bits_value(bits) == bits_value(other) ==> bits == other,
    decreases bits.len(),
{
    assert((seq![true] + bits).drop_first() =~= bits);
    assert((seq![false] + bits).drop_first() =~= bits);
    if bits.len() > 0 {
        law_binary_digits(bits.drop_first(), other.drop_first());
        if bits_value(bits) == bits_value(other) {
            assert(bits[0] == other[0]);
            assert(bits =~= seq![bits[0]] + bits.drop_first());
            assert(other =~= seq![other[0]] + other.drop_first());
        }
    } else {
        assert(bits =~= other);
    }
}

} // verus!
