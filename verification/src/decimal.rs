//! Decimal notation for integers of any size.
//!
//! Amounts are kept as decimal strings because a token amount can need up to
//! 256 bits and a sum of amounts even more. This module says what number a
//! string of digits denotes and how a number is written.

use vstd::prelude::*;

verus! {

/// Whether `c` is one of the characters `0` to `9`.
pub open spec fn is_digit(c: char) -> bool {
    '0' <= c && c <= '9'
}

/// The number that the digit character `c` stands for.
pub open spec fn digit_of(c: char) -> nat {
    (c as int - '0' as int) as nat
}

/// The character for the digit `d`, for `d` below ten.
pub open spec fn digit_char(d: nat) -> char {
    ('0' as int + d) as char
}

/// Whether `s` is a non-empty string of digits.
pub open spec fn is_decimal(s: Seq<char>) -> bool {
    s.len() > 0 && forall|i: int| 0 <= i < s.len() ==> is_digit(#[trigger] s[i])
}

/// The number that a string of digits denotes, most significant digit first.
pub open spec fn decimal_value(s: Seq<char>) -> nat
    decreases s.len(),
{
    if s.len() == 0 {
        0
    } else {
        10 * decimal_value(s.drop_last()) + digit_of(s.last())
    }
}

/// The decimal notation of `n`: no leading zeros, and `0` for zero.
pub open spec fn nat_decimal(n: nat) -> Seq<char>
    decreases n,
{
    if n < 10 {
        seq![digit_char(n)]
    } else {
        nat_decimal(n / 10).push(digit_char(n % 10))
    }
}

/// The decimal notation of an integer, with a leading `-` below zero.
pub open spec fn int_decimal(i: int) -> Seq<char> {
    if i < 0 {
        seq!['-'] + nat_decimal((-i) as nat)
    } else {
        nat_decimal(i as nat)
    }
}

/// The integer that a decimal string with an optional leading `-` denotes.
pub open spec fn signed_value(s: Seq<char>) -> int {
    if s.len() > 0 && s[0] == '-' {
        -(decimal_value(s.skip(1)) as int)
    } else {
        decimal_value(s) as int
    }
}

/// The notation of a number is a string of digits.
pub proof fn lemma_nat_decimal_is_decimal(n: nat)
    ensures
        is_decimal(nat_decimal(n)),
    decreases n,
{
    if n >= 10 {
        lemma_nat_decimal_is_decimal(n / 10);
    }
}

/// Reading back the notation of a number gives the number.
pub proof fn lemma_decimal_value_of_nat_decimal(n: nat)
    ensures
        decimal_value(nat_decimal(n)) == n,
    decreases n,
{
    let s = nat_decimal(n);
    if n < 10 {
        assert(s.drop_last() =~= Seq::<char>::empty());
        assert(decimal_value(s.drop_last()) == 0);
    } else {
        lemma_decimal_value_of_nat_decimal(n / 10);
        assert(s.drop_last() =~= nat_decimal(n / 10));
    }
}

/// Reading back the notation of an integer gives the integer.
pub proof fn lemma_signed_value_of_int_decimal(i: int)
    ensures
        signed_value(int_decimal(i)) == i,
{
    if i < 0 {
        let m = (-i) as nat;
        lemma_decimal_value_of_nat_decimal(m);
        assert(int_decimal(i).skip(1) =~= nat_decimal(m));
    } else {
        lemma_decimal_value_of_nat_decimal(i as nat);
        lemma_nat_decimal_is_decimal(i as nat);
        assert(is_digit(nat_decimal(i as nat)[0]));
    }
}

} // verus!
