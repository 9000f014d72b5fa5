//! Decimal numbers as Numeric and Float fields hold them: a sign and the
//! digits on either side of the point, kept exactly as they were written.

use vstd::prelude::*;
use crate::bytes::{copy_range, filled, is_blank, push_all};
use crate::digits::{
    all_digits, count_digits, decimal_digits, digit_run, digits_value, is_digit,
    lemma_decimal_digits_shape, lemma_digit_run_prefix, lemma_digit_run_shape, push_decimal, ZERO,
};

verus! {

/// The sign of a negative number.
pub const MINUS: u8 = 0x2d;

/// The sign that a number may carry and need not.
pub const PLUS: u8 = 0x2b;

/// The decimal point.
pub const POINT: u8 = 0x2e;

/// A decimal number: its sign, the digits before the point and the digits
/// after it, as ASCII.
pub struct DecimalModel {
    pub negative: bool,
    pub int_digits: Seq<u8>,
    pub frac_digits: Seq<u8>,
}

impl DecimalModel {
    /// Digits only, and at least one of them.
    pub open spec fn wf(self) -> bool {
        &&& all_digits(self.int_digits)
        &&& all_digits(self.frac_digits)
        &&& self.int_digits.len() + self.frac_digits.len() >= 1
    }

    /// The number times ten to the count of its digits after the point.
    pub open spec fn unscaled(self) -> int {
        let magnitude = digits_value(self.int_digits + self.frac_digits) as int;
        if self.negative {
            -magnitude
        } else {
            magnitude
        }
    }

    /// How many digits stand after the point.
    pub open spec fn scale(self) -> nat {
        self.frac_digits.len()
    }

    /// The same number with zeros added after the point up to `decimals`
    /// digits.
    pub open spec fn rescaled(self, decimals: nat) -> DecimalModel {
        DecimalModel {
            negative: self.negative,
            int_digits: self.int_digits,
            frac_digits: self.frac_digits + filled(
                ZERO,
                (decimals - self.frac_digits.len()) as nat,
            ),
        }
    }
}

/// Ten to the `n`.
pub open spec fn pow10(n: nat) -> nat
    decreases n,
{
    if n == 0 {
        1
    } else {
        10 * pow10((n - 1) as nat)
    }
}

/// Zeros behind digits make the number that they spell ten times as large
/// each.
pub proof fn lemma_digits_value_zeros(digits: Seq<u8>, zeros: nat)
    ensures
        digits_value(digits + filled(ZERO, zeros)) == digits_value(digits) * pow10(zeros),
    decreases zeros,
{
    let s = digits + filled(ZERO, zeros);
    if zeros == 0 {
        assert(s =~= digits);
        assert(pow10(0) == 1);
        assert(digits_value(digits) * 1 == digits_value(digits));
    } else {
        let fewer = (zeros - 1) as nat;
        lemma_digits_value_zeros(digits, fewer);
        assert(s.drop_last() =~= digits + filled(ZERO, fewer));
        assert(s.last() == ZERO);
        assert(digits_value(s) == 10 * digits_value(s.drop_last()));
        assert(pow10(zeros) == 10 * pow10(fewer));
        assert(10 * (digits_value(digits) * pow10(fewer)) == digits_value(digits) * pow10(zeros))
            by (nonlinear_arith)
            requires
                pow10(zeros) == 10 * pow10(fewer),
        ;
    }
}

/// A number with zeros added after the point is the same number: what it
/// is times ten to the count of its digits after the point has grown by the
/// zeros that were added.
pub proof fn lemma_rescaled_value(d: DecimalModel, decimals: nat)
    requires
        d.scale() <= decimals,
    ensures
        d.rescaled(decimals).scale() == decimals,
        d.rescaled(decimals).unscaled() == d.unscaled() * pow10((decimals - d.scale()) as nat),
        d.wf() ==> d.rescaled(decimals).wf(),
{
    let zeros = (decimals - d.scale()) as nat;
    let r = d.rescaled(decimals);
    lemma_digits_value_zeros(d.int_digits + d.frac_digits, zeros);
    assert(r.int_digits + r.frac_digits =~= d.int_digits + d.frac_digits + filled(ZERO, zeros));
    let magnitude = digits_value(d.int_digits + d.frac_digits) as int;
    assert((-magnitude) * pow10(zeros) == -(magnitude * pow10(zeros))) by (nonlinear_arith);
    if d.wf() {
        assert forall|i: int| 0 <= i < r.frac_digits.len() implies is_digit(
            #[trigger] r.frac_digits[i],
        ) by {
            if i < d.frac_digits.len() {
                assert(r.frac_digits[i] == d.frac_digits[i]);
            }
        }
    }
}

/// The sign of a number as it is written: a minus or nothing.
pub open spec fn sign_text(negative: bool) -> Seq<u8> {
    if negative {
        seq![MINUS]
    } else {
        Seq::empty()
    }
}

/// The number as text: the sign, the digits, and the point where digits
/// follow it.
pub open spec fn decimal_text(d: DecimalModel) -> Seq<u8> {
    sign_text(d.negative) + d.int_digits + if d.frac_digits.len() > 0 {
        seq![POINT] + d.frac_digits
    } else {
        Seq::empty()
    }
}

/// The number that a text spells: an optional sign, digits, and optionally a
/// point and more digits, with a digit somewhere. Nothing else is a number.
pub open spec fn parse_decimal(text: Seq<u8>) -> Option<DecimalModel> {
    let signed = text.len() > 0 && (text[0] == MINUS || text[0] == PLUS);
    let body = if signed {
        text.skip(1)
    } else {
        text
    };
    let k = digit_run(body) as int;
    let rest = body.skip(k);
    let frac = if rest.len() > 0 {
        rest.skip(1)
    } else {
        Seq::empty()
    };
    if (rest.len() == 0 || rest[0] == POINT) && all_digits(frac) && k + frac.len() >= 1 {
        Some(
            DecimalModel {
                negative: signed && text[0] == MINUS,
                int_digits: body.take(k),
                frac_digits: frac,
            },
        )
    } else {
        None
    }
}

/// The text of a number parses as that number.
pub proof fn lemma_decimal_text_parses(d: DecimalModel)
    requires
        d.wf(),
    ensures
        parse_decimal(decimal_text(d)) == Some(d),
        decimal_text(d).len() >= 1,
        !is_blank(decimal_text(d)[0]),
        !is_blank(decimal_text(d).last()),
{
    let tail = if d.frac_digits.len() > 0 {
        seq![POINT] + d.frac_digits
    } else {
        Seq::empty()
    };
    let text = decimal_text(d);
    let body = d.int_digits + tail;
    assert(text == sign_text(d.negative) + d.int_digits + tail);
    if d.int_digits.len() > 0 {
        assert(is_digit(d.int_digits[0]));
    }
    if d.frac_digits.len() > 0 {
        assert(is_digit(d.frac_digits.last()));
    } else {
        assert(is_digit(d.int_digits.last()));
    }
    if d.int_digits.len() > 0 {
        assert(body[0] == d.int_digits[0]);
    } else {
        assert(body[0] == tail[0] && tail[0] == POINT);
    }
    if d.negative {
        assert(text[0] == MINUS);
        assert(text.skip(1) =~= body);
    } else {
        assert(text =~= body);
        assert(text[0] == body[0]);
    }
    lemma_digit_run_prefix(d.int_digits, tail);
    let k = d.int_digits.len() as int;
    assert(digit_run(body) == k);
    assert(body.take(k) =~= d.int_digits);
    assert(body.skip(k) =~= tail);
    if tail.len() > 0 {
        assert(tail[0] == POINT);
        assert(tail.skip(1) =~= d.frac_digits);
    } else {
        assert(d.frac_digits =~= Seq::<u8>::empty());
    }
    assert(text.last() == body.last());
    if d.frac_digits.len() > 0 {
        assert(body.last() == d.frac_digits.last());
    } else {
        assert(body =~= d.int_digits);
    }
}

/// A decimal number.
#[derive(Debug, PartialEq, Eq)]
pub struct Decimal {
    negative: bool,
    int_digits: Vec<u8>,
    frac_digits: Vec<u8>,
}

impl View for Decimal {
    type V = DecimalModel;

    closed spec fn view(&self) -> DecimalModel {
        DecimalModel {
            negative: self.negative,
            int_digits: self.int_digits@,
            frac_digits: self.frac_digits@,
        }
    }
}

impl Clone for Decimal {
    fn clone(&self) -> (d: Decimal)
        ensures
            d@ == self@,
    {
        proof {
            use_type_invariant(self);
        }
        let int_digits = copy_range(self.int_digits.as_slice(), 0, self.int_digits.len());
        let frac_digits = copy_range(self.frac_digits.as_slice(), 0, self.frac_digits.len());
        assert(int_digits@ =~= self.int_digits@);
        assert(frac_digits@ =~= self.frac_digits@);
        Decimal { negative: self.negative, int_digits, frac_digits }
    }
}

impl Decimal {
    #[verifier::type_invariant]
    closed spec fn inv(self) -> bool {
        self@.wf()
    }

    /// The number that `text` spells, if it spells one.
    pub fn parse(text: &[u8]) -> (r: Option<Decimal>)
        ensures
            r.is_some() == parse_decimal(text@).is_some(),
            r matches Some(d) ==> Some(d@) == parse_decimal(text@) && d@.wf(),
    {
        let n = text.len();
        let mut start: usize = 0;
        let mut negative = false;
        if n > 0 && (text[0] == MINUS || text[0] == PLUS) {
            start = 1;
            negative = text[0] == MINUS;
        }
        let ghost body = text@.skip(start as int);
        assert(body == if start == 1 {
            text@.skip(1)
        } else {
            text@
        }) by {
            assert(text@.skip(0) =~= text@);
        }
        let k = count_digits(text, start);
        let int_end = start + k;
        proof {
            lemma_digit_run_shape(body);
            assert(body.skip(k as int) =~= text@.skip(int_end as int));
            assert(body.take(k as int) =~= text@.subrange(start as int, int_end as int));
        }
        let int_digits = copy_range(text, start, int_end);
        let mut frac_digits: Vec<u8> = Vec::new();
        if int_end < n {
            if text[int_end] != POINT {
                return None;
            }
            let ghost frac = text@.skip(int_end + 1);
            assert(text@.skip(int_end as int).skip(1) =~= frac);
            let f = count_digits(text, int_end + 1);
            proof {
                lemma_digit_run_shape(frac);
            }
            if int_end + 1 + f != n {
                return None;
            }
            assert(frac =~= text@.subrange(int_end + 1, n as int));
            frac_digits = copy_range(text, int_end + 1, n);
        }
        if int_digits.len() + frac_digits.len() == 0 {
            return None;
        }
        Some(Decimal { negative, int_digits, frac_digits })
    }

    /// The whole number `value`.
    pub fn from_i64(value: i64) -> (d: Decimal)
        ensures
            d@.negative == (value < 0),
            d@.int_digits == decimal_digits(vstd::math::abs(value as int)),
            d@.frac_digits.len() == 0,
            d@.unscaled() == value,
            d@.wf(),
    {
        let magnitude: u64 = if value >= 0 {
            value as u64
        } else {
            ((-(value + 1)) as u64) + 1
        };
        let mut int_digits: Vec<u8> = Vec::new();
        push_decimal(&mut int_digits, magnitude);
        proof {
            lemma_decimal_digits_shape(magnitude as nat);
            assert(int_digits@ =~= decimal_digits(magnitude as nat));
            assert(int_digits@ + Seq::<u8>::empty() =~= int_digits@);
        }
        Decimal { negative: value < 0, int_digits, frac_digits: Vec::new() }
    }

    /// The number as text.
    pub fn to_text(&self) -> (text: Vec<u8>)
        ensures
            text@ == decimal_text(self@),
            self@.wf(),
    {
        proof {
            use_type_invariant(self);
        }
        let mut text: Vec<u8> = Vec::new();
        if self.negative {
            text.push(MINUS);
        }
        push_all(&mut text, self.int_digits.as_slice());
        if self.frac_digits.len() > 0 {
            text.push(POINT);
            push_all(&mut text, self.frac_digits.as_slice());
        }
        assert(text@ =~= decimal_text(self@));
        text
    }

    /// The number times ten to the count of its digits after the point, if
    /// 64 bits can hold it.
    pub fn unscaled(&self) -> (r: Option<i64>)
        ensures
            r.is_some() == (i64::MIN <= self@.unscaled() <= i64::MAX),
            r matches Some(v) ==> v == self@.unscaled(),
    {
        proof {
            use_type_invariant(self);
        }
        let mut digits: Vec<u8> = Vec::new();
        push_all(&mut digits, self.int_digits.as_slice());
        push_all(&mut digits, self.frac_digits.as_slice());
        proof {
            assert(digits@ =~= self@.int_digits + self@.frac_digits);
            assert forall|i: int| 0 <= i < digits@.len() implies is_digit(
                #[trigger] digits@[i],
            ) by {
                if i < self@.int_digits.len() {
                    assert(digits@[i] == self@.int_digits[i]);
                } else {
                    assert(digits@[i] == self@.frac_digits[i - self@.int_digits.len()]);
                }
            }
        }
        match crate::digits::parse_u64(digits.as_slice()) {
            None => None,
            Some(magnitude) => {
                if self.negative {
                    if magnitude <= 0x7fff_ffff_ffff_ffff {
                        Some(-(magnitude as i64))
                    } else if magnitude == 0x8000_0000_0000_0000 {
                        Some(i64::MIN)
                    } else {
                        None
                    }
                } else {
                    if magnitude <= 0x7fff_ffff_ffff_ffff {
                        Some(magnitude as i64)
                    } else {
                        None
                    }
                }
            },
        }
    }

    /// Whether the number carries a minus.
    pub fn is_negative(&self) -> (negative: bool)
        ensures
            negative == self@.negative,
    {
        self.negative
    }

    /// The digits before the point.
    pub fn int_digits(&self) -> (digits: &[u8])
        ensures
            digits@ == self@.int_digits,
            self@.wf(),
    {
        proof {
            use_type_invariant(self);
        }
        self.int_digits.as_slice()
    }

    /// The digits after the point.
    pub fn frac_digits(&self) -> (digits: &[u8])
        ensures
            digits@ == self@.frac_digits,
            self@.wf(),
    {
        proof {
            use_type_invariant(self);
        }
        self.frac_digits.as_slice()
    }

    /// How many digits stand after the point.
    pub fn scale(&self) -> (n: usize)
        ensures
            n == self@.scale(),
    {
        self.frac_digits.len()
    }
}

} // verus!
