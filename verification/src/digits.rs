//! Decimal digits in ASCII: the text form of block references and dates.

use vstd::prelude::*;

verus! {

/// The digit 0.
pub const ZERO: u8 = 0x30;

/// The digit 9.
pub const NINE: u8 = 0x39;

/// Whether a byte is a decimal digit.
pub open spec fn is_digit(b: u8) -> bool {
    ZERO <= b <= NINE
}

/// Whether `s` holds decimal digits and nothing else.
pub open spec fn all_digits(s: Seq<u8>) -> bool {
    forall|i: int| 0 <= i < s.len() ==> is_digit(#[trigger] s[i])
}

/// The number that a run of digits spells, most significant digit first.
pub open spec fn digits_value(s: Seq<u8>) -> nat
    decreases s.len(),
{
    if s.len() == 0 {
        0
    } else {
        (10 * digits_value(s.drop_last()) + (s.last() - ZERO)) as nat
    }
}

/// `n` in `width` digits, with zeros in front; the digits above `width` are
/// cut off.
pub open spec fn fixed_digits(n: nat, width: nat) -> Seq<u8>
    decreases width,
{
    if width == 0 {
        Seq::empty()
    } else {
        fixed_digits(n / 10, (width - 1) as nat).push((ZERO + n % 10) as u8)
    }
}

/// `n` in as few digits as it takes, at least one.
pub open spec fn decimal_digits(n: nat) -> Seq<u8>
    decreases n,
{
    if n < 10 {
        seq![(ZERO + n) as u8]
    } else {
        decimal_digits(n / 10).push((ZERO + n % 10) as u8)
    }
}

/// How many digits stand at the start of `s`.
pub open spec fn digit_run(s: Seq<u8>) -> nat
    decreases s.len(),
{
    if s.len() > 0 && is_digit(s[0]) {
        1 + digit_run(s.drop_first())
    } else {
        0
    }
}

/// A number in `width` digits is `width` digits.
pub proof fn lemma_fixed_digits_shape(n: nat, width: nat)
    ensures
        fixed_digits(n, width).len() == width,
        all_digits(fixed_digits(n, width)),
    decreases width,
{
    if width > 0 {
        lemma_fixed_digits_shape(n / 10, (width - 1) as nat);
    }
}

/// Two digits spell every number below a hundred, and reading them gives it
/// back.
pub proof fn lemma_two_digits(n: nat)
    requires
        n < 100,
    ensures
        fixed_digits(n, 2).len() == 2,
        all_digits(fixed_digits(n, 2)),
        digits_value(fixed_digits(n, 2)) == n,
        fixed_digits(n, 2) == seq![(ZERO + n / 10) as u8, (ZERO + n % 10) as u8],
{
    lemma_fixed_digits_shape(n, 2);
    reveal_with_fuel(fixed_digits, 3);
    let s = fixed_digits(n, 2);
    assert(s =~= seq![(ZERO + n / 10) as u8, (ZERO + n % 10) as u8]);
    lemma_digits_value_two(s);
}

/// Four digits spell every number below ten thousand, and reading them gives
/// it back.
pub proof fn lemma_four_digits(n: nat)
    requires
        n < 10000,
    ensures
        fixed_digits(n, 4).len() == 4,
        all_digits(fixed_digits(n, 4)),
        digits_value(fixed_digits(n, 4)) == n,
        fixed_digits(n, 4) == seq![
            (ZERO + n / 1000) as u8,
            (ZERO + (n / 100) % 10) as u8,
            (ZERO + (n / 10) % 10) as u8,
            (ZERO + n % 10) as u8,
        ],
{
    lemma_fixed_digits_shape(n, 4);
    reveal_with_fuel(fixed_digits, 5);
    let s = fixed_digits(n, 4);
    assert(s =~= seq![
        (ZERO + n / 1000) as u8,
        (ZERO + (n / 100) % 10) as u8,
        (ZERO + (n / 10) % 10) as u8,
        (ZERO + n % 10) as u8,
    ]);
    lemma_digits_value_four(s);
}

/// What two digits spell.
pub proof fn lemma_digits_value_two(s: Seq<u8>)
    requires
        s.len() == 2,
    ensures
        digits_value(s) == 10 * (s[0] - ZERO) + (s[1] - ZERO) || !all_digits(s),
{
    if all_digits(s) {
        let a = s.drop_last();
        assert(a.drop_last().len() == 0);
        assert(digits_value(a.drop_last()) == 0);
        assert(a.last() == s[0]);
        assert(is_digit(s[0]) && is_digit(s[1]));
        assert(digits_value(a) == s[0] - ZERO);
    }
}

/// What four digits spell.
pub proof fn lemma_digits_value_four(s: Seq<u8>)
    requires
        s.len() == 4,
    ensures
        digits_value(s) == 1000 * (s[0] - ZERO) + 100 * (s[1] - ZERO) + 10 * (s[2] - ZERO) + (s[3]
            - ZERO) || !all_digits(s),
{
    if all_digits(s) {
        let a = s.drop_last();
        let b = a.drop_last();
        assert(is_digit(s[0]) && is_digit(s[1]) && is_digit(s[2]) && is_digit(s[3]));
        assert(b.len() == 2 && b[0] == s[0] && b[1] == s[1]);
        assert(is_digit(b[0]) && is_digit(b[1]));
        lemma_digits_value_two(b);
        assert(a.last() == s[2]);
        assert(digits_value(a) == 10 * digits_value(b) + (s[2] - ZERO));
    }
}

/// The digits of a number are digits, at least one, and spell the number.
pub proof fn lemma_decimal_digits_shape(n: nat)
    ensures
        decimal_digits(n).len() >= 1,
        all_digits(decimal_digits(n)),
        digits_value(decimal_digits(n)) == n,
    decreases n,
{
    let s = decimal_digits(n);
    if n < 10 {
        assert(s.drop_last().len() == 0);
        assert(digits_value(s.drop_last()) == 0);
    } else {
        lemma_decimal_digits_shape(n / 10);
        assert(s.drop_last() =~= decimal_digits(n / 10));
    }
}

/// A number that fits 32 bits takes at most ten digits, and the first of
/// them is no blank byte.
pub proof fn lemma_u32_digits(n: nat)
    requires
        n <= u32::MAX,
    ensures
        1 <= decimal_digits(n).len() <= 10,
{
    reveal_with_fuel(decimal_digits, 11);
}

/// A value grows with every digit that is read.
pub proof fn lemma_digits_value_prefix(s: Seq<u8>, k: int)
    requires
        0 <= k <= s.len(),
        all_digits(s),
    ensures
        digits_value(s.take(k)) <= digits_value(s),
    decreases s.len() - k,
{
    if k < s.len() {
        lemma_digits_value_prefix(s, k + 1);
        assert(s.take(k + 1).drop_last() =~= s.take(k));
    } else {
        assert(s.take(k) =~= s);
    }
}

/// The digits in front of something that is no digit are a whole run.
pub proof fn lemma_digit_run_prefix(digits: Seq<u8>, rest: Seq<u8>)
    requires
        all_digits(digits),
        rest.len() == 0 || !is_digit(rest[0]),
    ensures
        digit_run(digits + rest) == digits.len(),
    decreases digits.len(),
{
    let s = digits + rest;
    if digits.len() == 0 {
        assert(s =~= rest);
    } else {
        assert(s[0] == digits[0]);
        assert(s.drop_first() =~= digits.drop_first() + rest);
        lemma_digit_run_prefix(digits.drop_first(), rest);
    }
}

/// A run of digits is digits, ends where something else stands, and is
/// all of `s` exactly when `s` is digits only.
pub proof fn lemma_digit_run_shape(s: Seq<u8>)
    ensures
        digit_run(s) <= s.len(),
        all_digits(s.take(digit_run(s) as int)),
        digit_run(s) == s.len() || !is_digit(s[digit_run(s) as int]),
        (digit_run(s) == s.len()) == all_digits(s),
    decreases s.len(),
{
    if s.len() > 0 && is_digit(s[0]) {
        let t = s.drop_first();
        lemma_digit_run_shape(t);
        let k = digit_run(s);
        assert forall|i: int| 0 <= i < k implies is_digit(#[trigger] s.take(k as int)[i]) by {
            if i > 0 {
                assert(s.take(k as int)[i] == t.take(k - 1)[i - 1]);
            }
        }
        if k < s.len() {
            assert(s[k as int] == t[k - 1]);
        }
        if all_digits(t) {
            assert forall|i: int| 0 <= i < s.len() implies is_digit(#[trigger] s[i]) by {
                if i > 0 {
                    assert(s[i] == t[i - 1]);
                }
            }
        }
        if all_digits(s) {
            assert forall|i: int| 0 <= i < t.len() implies is_digit(#[trigger] t[i]) by {
                assert(t[i] == s[i + 1]);
            }
        }
    } else {
        assert(s.take(0).len() == 0);
    }
}

/// How many digits stand in `s` from `from` on.
pub fn count_digits(s: &[u8], from: usize) -> (n: usize)
    requires
        from <= s@.len(),
    ensures
        n == digit_run(s@.skip(from as int)),
        from + n <= s@.len(),
{
    let mut i: usize = from;
    proof {
        lemma_digit_run_shape(s@.skip(from as int));
    }
    while i < s.len() && ZERO <= s[i] && s[i] <= NINE
        invariant
            from <= i <= s@.len(),
            digit_run(s@.skip(from as int)) == (i - from) + digit_run(s@.skip(i as int)),
        decreases s@.len() - i,
    {
        assert(s@.skip(i as int).drop_first() =~= s@.skip(i + 1));
        i = i + 1;
    }
    i - from
}

/// Reads a run of digits as a number that fits 32 bits.
pub fn parse_u32(s: &[u8]) -> (r: Option<u32>)
    ensures
        r.is_some() == (s@.len() >= 1 && all_digits(s@) && digits_value(s@) <= u32::MAX),
        r matches Some(v) ==> v == digits_value(s@),
{
    match parse_u64(s) {
        Some(v) => if v <= u32::MAX as u64 {
            Some(v as u32)
        } else {
            None
        },
        None => None,
    }
}

/// Reads a run of digits as a number that fits 64 bits.
pub fn parse_u64(s: &[u8]) -> (r: Option<u64>)
    ensures
        r.is_some() == (s@.len() >= 1 && all_digits(s@) && digits_value(s@) <= u64::MAX),
        r matches Some(v) ==> v == digits_value(s@),
{
    if s.len() == 0 {
        return None;
    }
    let mut acc: u64 = 0;
    let mut i: usize = 0;
    assert(s@.take(0).len() == 0);
    while i < s.len()
        invariant
            i <= s@.len(),
            all_digits(s@.take(i as int)),
            acc == digits_value(s@.take(i as int)),
        decreases s@.len() - i,
    {
        let b = s[i];
        if b < ZERO || b > NINE {
            return None;
        }
        let d: u64 = (b - ZERO) as u64;
        proof {
            assert(s@.take(i + 1).drop_last() =~= s@.take(i as int));
            assert(s@.take(i + 1).last() == b);
            assert forall|j: int| 0 <= j < i + 1 implies is_digit(#[trigger] s@.take(i + 1)[j]) by {
                if j < i {
                    assert(s@.take(i + 1)[j] == s@.take(i as int)[j]);
                }
            }
        }
        if acc > (u64::MAX - d) / 10 {
            proof {
                if all_digits(s@) {
                    lemma_digits_value_prefix(s@, i + 1);
                }
            }
            return None;
        }
        acc = acc * 10 + d;
        i = i + 1;
    }
    assert(s@.take(s@.len() as int) =~= s@);
    Some(acc)
}

/// Appends `n` in as few digits as it takes.
pub fn push_decimal(dest: &mut Vec<u8>, n: u64)
    ensures
        final(dest)@ == old(dest)@ + decimal_digits(n as nat),
    decreases n,
{
    if n < 10 {
        dest.push(ZERO + n as u8);
        assert(dest@ =~= old(dest)@ + decimal_digits(n as nat));
    } else {
        push_decimal(dest, n / 10);
        dest.push(ZERO + (n % 10) as u8);
        assert(dest@ =~= old(dest)@ + decimal_digits(n as nat));
    }
}

} // verus!
