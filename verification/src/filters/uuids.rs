//! The text of a UUID: the 32 hexadecimal digits of its 128 bits, the highest
//! first, in groups of 8, 4, 4, 4 and 12 with a hyphen between one group and
//! the next.

use vstd::prelude::*;
use vstd::arithmetic::div_mod::{
    lemma_basic_div, lemma_div_denominator, lemma_fundamental_div_mod,
};
use super::grammar::{hex_digit_value, is_hex, uuid_shape};

verus! {

/// 16 to the power of `k`.
pub open spec fn sixteen_to(k: nat) -> nat
    decreases k,
{
    if k == 0 {
        1
    } else {
        16 * sixteen_to((k - 1) as nat)
    }
}

/// The lower-case hexadecimal digit of `v`, which is under 16.
pub open spec fn hex_digit(v: nat) -> char {
    if v == 0 {
        '0'
    } else if v == 1 {
        '1'
    } else if v == 2 {
        '2'
    } else if v == 3 {
        '3'
    } else if v == 4 {
        '4'
    } else if v == 5 {
        '5'
    } else if v == 6 {
        '6'
    } else if v == 7 {
        '7'
    } else if v == 8 {
        '8'
    } else if v == 9 {
        '9'
    } else if v == 10 {
        'a'
    } else if v == 11 {
        'b'
    } else if v == 12 {
        'c'
    } else if v == 13 {
        'd'
    } else if v == 14 {
        'e'
    } else {
        'f'
    }
}

/// Whether a hyphen stands at place `i` of the text of a UUID.
pub open spec fn is_hyphen_place(i: int) -> bool {
    i == 8 || i == 13 || i == 18 || i == 23
}

/// How many hyphens stand before place `i` of the text of a UUID.
pub open spec fn hyphens_before(i: int) -> int {
    if i > 23 {
        4
    } else if i > 18 {
        3
    } else if i > 13 {
        2
    } else if i > 8 {
        1
    } else {
        0
    }
}

/// The place in the text of a UUID at which the digit of number `k` stands,
/// counted from 0.
pub open spec fn digit_place(k: int) -> int {
    if k >= 20 {
        k + 4
    } else if k >= 16 {
        k + 3
    } else if k >= 12 {
        k + 2
    } else if k >= 8 {
        k + 1
    } else {
        k
    }
}

/// The digit of number `k` of the 32 hexadecimal digits of `bits`, the highest
/// being number 0.
pub open spec fn digit_of(bits: u128, k: int) -> nat {
    (bits as nat / sixteen_to((31 - k) as nat)) % 16
}

/// The text of the UUID of these 128 bits.
pub open spec fn uuid_to_text(bits: u128) -> Seq<char> {
    Seq::new(
        36,
        |i: int|
            if is_hyphen_place(i) {
                '-'
            } else {
                hex_digit(digit_of(bits, i - hyphens_before(i)))
            },
    )
}

/// The number that the first `n` hexadecimal digits of the text `t` of a UUID
/// write.
pub open spec fn digits_value(t: Seq<char>, n: nat) -> nat
    decreases n,
{
    if n == 0 {
        0
    } else {
        16 * digits_value(t, (n - 1) as nat) + hex_digit_value(t[digit_place(n - 1)])
    }
}

/// The 128 bits of the UUID that a text of the shape of a UUID writes.
pub open spec fn uuid_of_text(t: Seq<char>) -> u128 {
    digits_value(t, 32) as u128
}

/// The lower-case digit of a number under 16 is a hexadecimal digit and
/// writes that number.
pub proof fn lemma_hex_digit(v: nat)
    requires
        v < 16,
    ensures
        is_hex(hex_digit(v)),
        hex_digit_value(hex_digit(v)) == v,
        0x30 <= hex_digit(v) as u32 <= 0x66,
{
}

/// 16 to the power of 32 is 2 to the power of 128.
proof fn lemma_sixteen_to_32()
    ensures
        sixteen_to(32) == 0x1_0000_0000_0000_0000_0000_0000_0000_0000,
{
    assert(sixteen_to(8) == 0x1_0000_0000) by {
        reveal_with_fuel(sixteen_to, 9);
    }
    assert(sixteen_to(16) == 0x1_0000_0000_0000_0000) by {
        reveal_with_fuel(sixteen_to, 9);
    }
    assert(sixteen_to(24) == 0x1_0000_0000_0000_0000_0000_0000) by {
        reveal_with_fuel(sixteen_to, 9);
    }
    assert(sixteen_to(32) == 0x1_0000_0000_0000_0000_0000_0000_0000_0000) by {
        reveal_with_fuel(sixteen_to, 9);
    }
}

/// A power of 16 is positive.
proof fn lemma_sixteen_to_is_positive(k: nat)
    ensures
        sixteen_to(k) > 0,
    decreases k,
{
    if k > 0 {
        lemma_sixteen_to_is_positive((k - 1) as nat);
    }
}

/// The text of a UUID has 36 characters and the shape of a UUID.
pub proof fn lemma_text_has_shape(bits: u128)
    ensures
        uuid_to_text(bits).len() == 36,
        uuid_shape(uuid_to_text(bits), 0),
{
    let t = uuid_to_text(bits);
    assert forall|i: int| 0 <= i < 36 implies if is_hyphen_place(i) {
        #[trigger] t[0 + i] == '-'
    } else {
        is_hex(t[0 + i])
    } by {
        if !is_hyphen_place(i) {
            lemma_hex_digit(digit_of(bits, i - hyphens_before(i)));
        }
    }
}

/// The first `n` digits of the text of a UUID write its bits without the
/// lowest `32 - n` digits.
proof fn lemma_digits_of_text(bits: u128, n: nat)
    requires
        n <= 32,
    ensures
        digits_value(uuid_to_text(bits), n) == bits as nat / sixteen_to((32 - n) as nat),
    decreases n,
{
    let t = uuid_to_text(bits);
    if n == 0 {
        lemma_sixteen_to_32();
        lemma_basic_div(bits as int, sixteen_to(32) as int);
    } else {
        let k = (n - 1) as nat;
        lemma_digits_of_text(bits, k);
        let low = sixteen_to((31 - k) as nat);
        let x = bits as nat / low;
        lemma_sixteen_to_is_positive((31 - k) as nat);
        assert(sixteen_to((32 - k) as nat) == 16 * low);
        lemma_div_denominator(bits as int, low as int, 16);
        assert(low * 16 == 16 * low) by (nonlinear_arith);
        assert(bits as nat / sixteen_to((32 - k) as nat) == x / 16);
        lemma_fundamental_div_mod(x as int, 16);
        let place = digit_place(k as int);
        assert(!is_hyphen_place(place));
        assert(place - hyphens_before(place) == k);
        assert(t[place] == hex_digit(digit_of(bits, k as int)));
        assert(digit_of(bits, k as int) == x % 16);
        lemma_hex_digit(x % 16);
        assert(digits_value(t, n) == 16 * digits_value(t, k) + hex_digit_value(t[place]));
    }
}

/// The bits of a UUID are those that its text writes.
pub proof fn lemma_text_writes_the_bits(bits: u128)
    ensures
        uuid_of_text(uuid_to_text(bits)) == bits,
{
    lemma_digits_of_text(bits, 32);
    assert(sixteen_to(0) == 1);
}

} // verus!
