//! Non-negative integers of any size, with the arithmetic that net-flow
//! accounting needs: addition, subtraction, and decimal input and output.

use vstd::prelude::*;
use vstd::string::StringSliceAdditionalSpecFns;
use crate::decimal::{
    decimal_value, digit_char, digit_of, int_decimal, is_decimal, is_digit, nat_decimal,
};

verus! {

/// Ten to the power `n`.
spec fn pow10(n: nat) -> nat
    decreases n,
{
    if n == 0 {
        1
    } else {
        10 * pow10((n - 1) as nat)
    }
}

/// The number that a sequence of digits denotes, least significant first.
spec fn digits_value(d: Seq<u8>) -> nat
    decreases d.len(),
{
    if d.len() == 0 {
        0
    } else {
        d[0] as nat + 10 * digits_value(d.skip(1))
    }
}

/// Whether every element of `d` is a digit.
spec fn all_digits(d: Seq<u8>) -> bool {
    forall|i: int| 0 <= i < d.len() ==> #[trigger] d[i] <= 9
}

/// The digit of `d` at position `i`, zero beyond its end.
spec fn digit_at(d: Seq<u8>, i: int) -> nat {
    if 0 <= i < d.len() {
        d[i] as nat
    } else {
        0
    }
}

/// The number that the lowest `i` digits of `d` denote.
spec fn low_value(d: Seq<u8>, i: int) -> nat {
    if i >= d.len() {
        digits_value(d)
    } else if i <= 0 {
        0
    } else {
        digits_value(d.take(i))
    }
}

/// The digits of a decimal string in reverse order, as numbers.
spec fn reversed_digits(s: Seq<char>) -> Seq<u8> {
    Seq::new(s.len(), |t: int| digit_of(s[s.len() - 1 - t]) as u8)
}

proof fn lemma_value_push(d: Seq<u8>, x: u8)
    ensures
        digits_value(d.push(x)) == digits_value(d) + x * pow10(d.len()),
    decreases d.len(),
{
    let e = d.push(x);
    if d.len() == 0 {
        assert(e.skip(1) =~= Seq::<u8>::empty());
        assert(digits_value(e.skip(1)) == 0);
        assert(digits_value(e) == x);
        assert(x * pow10(d.len()) == x) by (nonlinear_arith)
            requires
                pow10(d.len()) == 1,
        ;
    } else {
        assert(e[0] == d[0]);
        lemma_value_push(d.skip(1), x);
        assert(e.skip(1) =~= d.skip(1).push(x));
        assert(10 * (x * pow10((d.len() - 1) as nat)) == x * pow10(d.len())) by (nonlinear_arith)
            requires
                pow10(d.len()) == 10 * pow10((d.len() - 1) as nat),
        ;
    }
}

proof fn lemma_value_bound(d: Seq<u8>)
    requires
        all_digits(d),
    ensures
        digits_value(d) < pow10(d.len()),
    decreases d.len(),
{
    if d.len() > 0 {
        assert(all_digits(d.skip(1))) by {
            assert forall|i: int| 0 <= i < d.skip(1).len() implies #[trigger] d.skip(1)[i] <= 9 by {
                assert(d.skip(1)[i] == d[i + 1]);
            }
        }
        lemma_value_bound(d.skip(1));
    }
}

proof fn lemma_low_value_step(d: Seq<u8>, i: int)
    requires
        0 <= i,
    ensures
        low_value(d, i + 1) == low_value(d, i) + digit_at(d, i) * pow10(i as nat),
{
    if i < d.len() {
        let p = d.take(i);
        assert(d.take(i + 1) =~= p.push(d[i]));
        lemma_value_push(p, d[i]);
        if i + 1 == d.len() {
            assert(d.take(i + 1) =~= d);
        }
        if i == 0 {
            assert(digits_value(p) == 0);
        }
    } else {
        assert(digit_at(d, i) * pow10(i as nat) == 0) by (nonlinear_arith)
            requires
                digit_at(d, i) == 0,
        ;
    }
}

proof fn lemma_reversed_digits_value(s: Seq<char>)
    requires
        forall|i: int| 0 <= i < s.len() ==> is_digit(#[trigger] s[i]),
    ensures
        digits_value(reversed_digits(s)) == decimal_value(s),
        all_digits(reversed_digits(s)),
    decreases s.len(),
{
    let r = reversed_digits(s);
    if s.len() > 0 {
        let t = s.drop_last();
        lemma_reversed_digits_value(t);
        assert(r.skip(1) =~= reversed_digits(t));
        assert(is_digit(s[s.len() - 1]));
    }
    assert forall|i: int| 0 <= i < r.len() implies #[trigger] r[i] <= 9 by {
        assert(is_digit(s[s.len() - 1 - i]));
    }
}

/// The digit `x` as text.
fn digit_text(x: u8) -> (t: &'static str)
    requires
        x <= 9,
    ensures
        t@ == seq![digit_char(x as nat)],
{
    proof {
        reveal_strlit("0");
        reveal_strlit("1");
        reveal_strlit("2");
        reveal_strlit("3");
        reveal_strlit("4");
        reveal_strlit("5");
        reveal_strlit("6");
        reveal_strlit("7");
        reveal_strlit("8");
        reveal_strlit("9");
    }
    let t = match x {
        0 => "0",
        1 => "1",
        2 => "2",
        3 => "3",
        4 => "4",
        5 => "5",
        6 => "6",
        7 => "7",
        8 => "8",
        _ => "9",
    };
    proof {
        assert(t@ =~= seq![digit_char(x as nat)]);
    }
    t
}

/// A non-negative integer of any size.
///
/// The view of an amount is the number it holds.
pub struct Amount {
    /// Decimal digits, least significant first. Leading zeros may be present.
    digits: Vec<u8>,
}

impl View for Amount {
    type V = nat;

    closed spec fn view(&self) -> nat {
        digits_value(self.digits@)
    }
}

impl Amount {
    #[verifier::type_invariant]
    spec fn well_formed(&self) -> bool {
        all_digits(self.digits@)
    }

    /// The amount zero.
    pub fn zero() -> (r: Amount)
        ensures
            r@ == 0,
    {
        Amount { digits: Vec::new() }
    }

    /// Reads an amount from decimal notation.
    ///
    /// Accepts exactly the non-empty strings of digits; leading zeros are
    /// allowed and do not change the value.
    pub fn parse(s: &str) -> (r: Option<Amount>)
        ensures
            r is Some <==> is_decimal(s@),
            r matches Some(a) ==> a@ == decimal_value(s@),
    {
        broadcast use vstd::string::is_ascii_spec_bytes;

        if !s.is_ascii() {
            proof {
                if is_decimal(s@) {
                    assert forall|i: int| 0 <= i < s@.len() implies '\0' <= #[trigger] s@[i]
                        <= '\u{7f}' by {
                        assert(is_digit(s@[i]));
                    }
                    assert(vstd::utf8::is_ascii_chars(s@));
                    assert(vstd::string::is_ascii(s));
                }
            }
            return None;
        }
        let bytes = s.as_bytes();
        let n: usize = bytes.len();
        proof {
            assert(bytes@ =~= Seq::new(s@.len(), |i: int| s@[i] as u8));
        }
        if n == 0 {
            return None;
        }
        let mut digits: Vec<u8> = Vec::new();
        let mut i: usize = n;
        while i > 0
            invariant
                vstd::utf8::is_ascii_chars(s@),
                n == s@.len(),
                bytes@ == Seq::new(s@.len(), |i: int| s@[i] as u8),
                i <= n,
                digits@.len() == n - i,
                forall|j: int| i <= j < n ==> is_digit(#[trigger] s@[j]),
                forall|t: int|
                    0 <= t < digits@.len() ==> #[trigger] digits@[t] == digit_of(
                        s@[n - 1 - t],
                    ) as u8,
            decreases i,
        {
            let b: u8 = bytes[i - 1];
            proof {
                assert(b == s@[i - 1] as u8);
                assert('\0' <= s@[i - 1] <= '\u{7f}');
            }
            if b < 48 || b > 57 {
                return None;
            }
            digits.push(b - 48);
            i = i - 1;
        }
        proof {
            assert(digits@ =~= reversed_digits(s@));
            lemma_reversed_digits_value(s@);
        }
        Some(Amount { digits })
    }

    /// Writes the amount in decimal notation, without leading zeros.
    pub fn to_decimal(&self) -> (s: String)
        ensures
            s@ == nat_decimal(self@),
    {
        proof {
            use_type_invariant(self);
        }
        let ghost d = self.digits@;
        let mut k: usize = self.digits.len();
        while k > 0 && self.digits[k - 1] == 0
            invariant
                d == self.digits@,
                k <= d.len(),
                low_value(d, k as int) == digits_value(d),
            decreases k,
        {
            proof {
                lemma_low_value_step(d, k - 1);
                assert(digit_at(d, k - 1) * pow10((k - 1) as nat) == 0) by (nonlinear_arith)
                    requires
                        digit_at(d, k - 1) == 0,
                ;
            }
            k = k - 1;
        }
        let mut s = String::new();
        if k == 0 {
            s.append(digit_text(0));
            proof {
                assert(s@ =~= seq!['0']);
            }
            return s;
        }
        let mut i: usize = k;
        while i > 0
            invariant
                d == self.digits@,
                all_digits(d),
                0 < k <= d.len(),
                d[k - 1] != 0,
                i <= k,
                i == k ==> s@ == Seq::<char>::empty(),
                i < k ==> s@ == nat_decimal(digits_value(d.subrange(i as int, k as int))),
                i < k ==> digits_value(d.subrange(i as int, k as int)) > 0,
            decreases i,
        {
            let x: u8 = self.digits[i - 1];
            let ghost c: char = digit_char(x as nat);
            proof {
                let lower = d.subrange(i - 1, k as int);
                let upper = d.subrange(i as int, k as int);
                assert(lower.skip(1) =~= upper);
                assert(lower[0] == x);
                assert(s@ + seq![c] =~= s@.push(c));
                let v = digits_value(upper);
                let w = digits_value(lower);
                assert(w == x + 10 * v);
                if i == k {
                    assert(v == 0);
                    assert(s@.push(c) =~= seq![c]);
                } else {
                    assert(w / 10 == v);
                    assert(w % 10 == x);
                }
            }
            s.append(digit_text(x));
            i = i - 1;
        }
        proof {
            assert(d.subrange(0, k as int) =~= d.take(k as int));
            if k == d.len() {
                assert(d.take(k as int) =~= d);
            }
        }
        s
    }

    /// The digit at position `i`, zero beyond the highest digit held.
    fn digit(&self, i: usize) -> (x: u8)
        ensures
            x == digit_at(self.digits@, i as int),
            x <= 9,
    {
        proof {
            use_type_invariant(self);
        }
        if i < self.digits.len() {
            self.digits[i]
        } else {
            0
        }
    }

    /// The sum of two amounts.
    pub fn plus(&self, other: &Amount) -> (r: Amount)
        ensures
            r@ == self@ + other@,
    {
        let ghost a = self.digits@;
        let ghost b = other.digits@;
        let n: usize = if self.digits.len() >= other.digits.len() {
            self.digits.len()
        } else {
            other.digits.len()
        };
        let mut digits: Vec<u8> = Vec::new();
        let mut carry: u8 = 0;
        let mut i: usize = 0;
        while i < n
            invariant
                a == self.digits@,
                b == other.digits@,
                n >= a.len(),
                n >= b.len(),
                i <= n,
                carry <= 1,
                digits@.len() == i,
                all_digits(digits@),
                digits_value(digits@) + carry * pow10(i as nat) == low_value(a, i as int)
                    + low_value(b, i as int),
            decreases n - i,
        {
            let x: u8 = self.digit(i);
            let y: u8 = other.digit(i);
            let t: u8 = x + y + carry;
            let z: u8 = if t >= 10 {
                t - 10
            } else {
                t
            };
            let next: u8 = if t >= 10 {
                1
            } else {
                0
            };
            proof {
                let p = pow10(i as nat);
                lemma_low_value_step(a, i as int);
                lemma_low_value_step(b, i as int);
                lemma_value_push(digits@, z);
                assert(pow10((i + 1) as nat) == 10 * p);
                assert(z * p + next * (10 * p) == x * p + y * p + carry * p) by (nonlinear_arith)
                    requires
                        z + 10 * next == x + y + carry,
                ;
            }
            digits.push(z);
            carry = next;
            i = i + 1;
        }
        proof {
            lemma_value_push(digits@, carry);
        }
        if carry > 0 {
            digits.push(carry);
        } else {
            proof {
                assert(carry * pow10(n as nat) == 0) by (nonlinear_arith)
                    requires
                        carry == 0,
                ;
            }
        }
        Amount { digits }
    }

    /// The difference of two amounts, where it is not negative.
    ///
    /// Returns `None` exactly when `other` is the larger one.
    pub fn checked_minus(&self, other: &Amount) -> (r: Option<Amount>)
        ensures
            r is Some <==> self@ >= other@,
            r matches Some(d) ==> d@ == self@ - other@,
    {
        let ghost a = self.digits@;
        let ghost b = other.digits@;
        let n: usize = if self.digits.len() >= other.digits.len() {
            self.digits.len()
        } else {
            other.digits.len()
        };
        let mut digits: Vec<u8> = Vec::new();
        let mut borrow: u8 = 0;
        let mut i: usize = 0;
        while i < n
            invariant
                a == self.digits@,
                b == other.digits@,
                n >= a.len(),
                n >= b.len(),
                i <= n,
                borrow <= 1,
                digits@.len() == i,
                all_digits(digits@),
                digits_value(digits@) + low_value(b, i as int) == low_value(a, i as int) + borrow
                    * pow10(i as nat),
            decreases n - i,
        {
            let x: u8 = self.digit(i);
            let y: u8 = other.digit(i) + borrow;
            let z: u8 = if x >= y {
                x - y
            } else {
                x + 10 - y
            };
            let next: u8 = if x >= y {
                0
            } else {
                1
            };
            proof {
                let p = pow10(i as nat);
                let yd = digit_at(b, i as int);
                lemma_low_value_step(a, i as int);
                lemma_low_value_step(b, i as int);
                lemma_value_push(digits@, z);
                assert(pow10((i + 1) as nat) == 10 * p);
                assert(z * p + yd * p + borrow * p == x * p + next * (10 * p)) by (nonlinear_arith)
                    requires
                        z + yd + borrow == x + 10 * next,
                ;
            }
            digits.push(z);
            borrow = next;
            i = i + 1;
        }
        proof {
            lemma_value_bound(digits@);
            if borrow == 0 {
                assert(borrow * pow10(n as nat) == 0) by (nonlinear_arith)
                    requires
                        borrow == 0,
                ;
            } else {
                assert(borrow * pow10(n as nat) == pow10(n as nat)) by (nonlinear_arith)
                    requires
                        borrow == 1,
                ;
            }
        }
        if borrow == 0 {
            Some(Amount { digits })
        } else {
            None
        }
    }

    /// Writes the difference `inflow - outflow` in decimal notation, with a
    /// leading `-` where the outflow is the larger one.
    pub fn net_decimal(inflow: &Amount, outflow: &Amount) -> (s: String)
        ensures
            s@ == int_decimal(inflow@ - outflow@),
    {
        match inflow.checked_minus(outflow) {
            Some(d) => d.to_decimal(),
            None => {
                let d = outflow.checked_minus(inflow).unwrap();
                let mut s = String::new();
                s.append("-");
                let digits = d.to_decimal();
                s.append(digits.as_str());
                proof {
                    reveal_strlit("-");
                    assert(s@ =~= seq!['-'] + nat_decimal(d@));
                }
                s
            },
        }
    }
}

} // verus!
