//! Numbers as text: decimal, fixed-width digits, and reading them back.

use vstd::prelude::*;
use crate::text::chars_of;

verus! {

// ---------------------------------------------------------------------------
// Writing
// ---------------------------------------------------------------------------

/// The digit with the value `d`: `0` to `9`, then `a` to `f`.
pub open spec fn digit(d: int) -> char {
    if d < 10 {
        (48 + d) as char
    } else {
        (87 + d) as char
    }
}

/// `n` in decimal, without leading zeros.
pub open spec fn decimal(n: nat) -> Seq<char>
    decreases n,
{
    if n < 10 {
        seq![digit(n as int)]
    } else {
        decimal(n / 10).push(digit((n % 10) as int))
    }
}

/// The last `width` digits of `n` in the given base, with leading zeros.
pub open spec fn fixed_digits(n: nat, width: nat, base: nat) -> Seq<char>
    decreases width,
{
    if width == 0 {
        Seq::empty()
    } else {
        fixed_digits(n / base, (width - 1) as nat, base).push(digit((n % base) as int))
    }
}

/// The digit with the value `d`.
pub fn digit_char(d: u64) -> (c: char)
    requires
        d < 16,
    ensures
        c == digit(d as int),
{
    if d < 10 {
        (48u8 + d as u8) as char
    } else {
        (87u8 + d as u8) as char
    }
}

/// Adds `n` in decimal.
pub fn push_decimal(out: &mut String, n: u64)
    ensures
        final(out)@ == old(out)@ + decimal(n as nat),
    decreases n,
{
    if n >= 10 {
        push_decimal(out, n / 10);
    }
    out.push(digit_char(n % 10));
    assert(out@ =~= old(out)@ + decimal(n as nat));
}

/// Adds the last `width` digits of `n` in the given base.
pub fn push_fixed(out: &mut String, n: u64, width: u32, base: u64)
    requires
        2 <= base <= 16,
    ensures
        final(out)@ == old(out)@ + fixed_digits(n as nat, width as nat, base as nat),
    decreases width,
{
    if width > 0 {
        push_fixed(out, n / base, width - 1, base);
        out.push(digit_char(n % base));
    }
    assert(out@ =~= old(out)@ + fixed_digits(n as nat, width as nat, base as nat));
}

// ---------------------------------------------------------------------------
// Reading
// ---------------------------------------------------------------------------

/// Tells whether `c` is one of `0` to `9`.
pub open spec fn is_digit(c: char) -> bool {
    48 <= c as u32 <= 57
}

/// The number that a sequence of decimal digits stands for.
pub open spec fn number(s: Seq<char>) -> nat
    decreases s.len(),
{
    if s.len() == 0 {
        0
    } else {
        number(s.drop_last()) * 10 + (s.last() as u32 - 48) as nat
    }
}

/// `s` without one plus sign at its start.
pub open spec fn without_plus(s: Seq<char>) -> Seq<char> {
    if s.len() > 0 && s[0] == '+' {
        s.drop_first()
    } else {
        s
    }
}

/// Tells whether `s` is a number: digits, at least one, perhaps after a plus sign.
pub open spec fn is_number(s: Seq<char>) -> bool {
    &&& without_plus(s).len() > 0
    &&& forall|i: int| 0 <= i < without_plus(s).len() ==> is_digit(#[trigger] without_plus(s)[i])
}

/// The number that `s` stands for, if it is a number of at most `max`.
pub open spec fn parsed(s: Seq<char>, max: nat) -> Option<nat> {
    if is_number(s) && number(without_plus(s)) <= max {
        Some(number(without_plus(s)))
    } else {
        None
    }
}

/// Reads a number of at most `max`.
pub fn parse_number(s: &str, max: u64) -> (r: Option<u64>)
    ensures
        match r {
            Some(n) => parsed(s@, max as nat) == Some(n as nat),
            None => parsed(s@, max as nat) is None,
        },
{
    let v: Vec<char> = chars_of(s);
    let from: usize = if v.len() > 0 && v[0] == '+' {
        1
    } else {
        0
    };
    let ghost digits = without_plus(s@);
    assert(digits =~= v@.skip(from as int));
    if from == v.len() {
        return None;
    }
    let mut n: u64 = 0;
    let mut i: usize = from;
    let mut over: bool = false;
    assert(digits.take(0) =~= Seq::<char>::empty());
    while i < v.len()
        invariant
            v@ == s@,
            from <= i <= v@.len(),
            digits == without_plus(s@),
            digits == v@.skip(from as int),
            forall|j: int| 0 <= j < i - from ==> is_digit(#[trigger] digits[j]),
            over ==> number(digits.take(i - from)) > max,
            !over ==> n == number(digits.take(i - from)) && n <= max,
        decreases v.len() - i,
    {
        let u: u32 = v[i] as u32;
        assert(digits[i - from] == v@[i as int]);
        if u < 48 || u > 57 {
            return None;
        }
        assert(digits.take(i + 1 - from).drop_last() =~= digits.take(i - from));
        if !over {
            let d: u64 = (u - 48) as u64;
            if d > max || n > max / 10 || n * 10 > max - d {
                over = true;
            } else {
                n = n * 10 + d;
            }
        }
        i = i + 1;
    }
    assert(digits.take(v.len() - from) =~= digits);
    if over {
        None
    } else {
        Some(n)
    }
}

// ---------------------------------------------------------------------------
// Laws
// ---------------------------------------------------------------------------

proof fn lemma_decimal_digits(n: nat)
    ensures
        decimal(n).len() > 0,
        forall|i: int| 0 <= i < decimal(n).len() ==> is_digit(#[trigger] decimal(n)[i]),
        number(decimal(n)) == n,
    decreases n,
{
    if n < 10 {
        assert(decimal(n).drop_last() =~= Seq::<char>::empty());
        assert(number(Seq::<char>::empty()) == 0);
    } else {
        lemma_decimal_digits(n / 10);
        assert(decimal(n).drop_last() =~= decimal(n / 10));
    }
}

/// A number written in decimal is read back as itself.
pub proof fn law_decimal_read_back(n: nat, max: nat)
    requires
        n <= max,
    ensures
        parsed(decimal(n), max) == Some(n),
{
    lemma_decimal_digits(n);
    assert(is_digit(decimal(n)[0]));
    assert(without_plus(decimal(n)) == decimal(n));
}

/// A decimal number holds digits only, so no separator of any stored form.
pub proof fn law_decimal_is_digits(n: nat, i: int)
    requires
        0 <= i < decimal(n).len(),
    ensures
        is_digit(decimal(n)[i]),
{
    lemma_decimal_digits(n);
}

/// The number that digits of the given base stand for.
pub open spec fn value(s: Seq<char>, base: nat) -> nat
    decreases s.len(),
{
    if s.len() == 0 {
        0
    } else {
        value(s.drop_last(), base) * base + digit_value(s.last())
    }
}

/// The value of one digit.
pub open spec fn digit_value(c: char) -> nat {
    if is_digit(c) {
        (c as u32 - 48) as nat
    } else {
        (c as u32 - 87) as nat
    }
}

/// Fixed-width digits have that width, and stand for the number they were made
/// from if it fits.
pub proof fn law_fixed_digits(n: nat, width: nat, base: nat)
    requires
        2 <= base <= 16,
    ensures
        fixed_digits(n, width, base).len() == width,
        n < vstd::arithmetic::power::pow(base as int, width) ==> value(
            fixed_digits(n, width, base),
            base,
        ) == n,
    decreases width,
{
    reveal(vstd::arithmetic::power::pow);
    if width > 0 {
        let w = (width - 1) as nat;
        law_fixed_digits(n / base, w, base);
        assert(fixed_digits(n, width, base).drop_last() =~= fixed_digits(n / base, w, base));
        if n < vstd::arithmetic::power::pow(base as int, width) {
            let p = vstd::arithmetic::power::pow(base as int, w);
            assert(n / base < p) by (nonlinear_arith)
                requires
                    n < base * p,
                    base >= 2,
            ;
            vstd::arithmetic::div_mod::lemma_fundamental_div_mod(n as int, base as int);
            assert((n / base) * base == base * (n / base)) by (nonlinear_arith);
        }
    }
}

/// Fixed-width decimal digits are the decimal number with zeros before it.
pub proof fn law_fixed_digits_pad_decimal(n: nat, width: nat)
    requires
        decimal(n).len() <= width,
    ensures
        fixed_digits(n, width, 10) == Seq::new((width - decimal(n).len()) as nat, |i: int| '0')
            + decimal(n),
    decreases width,
{
    let zeros = Seq::new((width - decimal(n).len()) as nat, |i: int| '0');
    if width == 0 {
        lemma_decimal_digits(n);
    } else {
        let w = (width - 1) as nat;
        if n < 10 {
            assert(n / 10 == 0 && n % 10 == n);
            lemma_zeros(w);
            assert(fixed_digits(n, width, 10) =~= zeros + decimal(n));
        } else {
            law_fixed_digits_pad_decimal(n / 10, w);
            assert(fixed_digits(n, width, 10) =~= zeros + decimal(n));
        }
    }
}

proof fn lemma_zeros(width: nat)
    ensures
        fixed_digits(0, width, 10) == Seq::new(width, |i: int| '0'),
    decreases width,
{
    if width > 0 {
        lemma_zeros((width - 1) as nat);
    }
    assert(fixed_digits(0, width, 10) =~= Seq::new(width, |i: int| '0'));
}

/// Decimal digits count by their place: the first of them as many times ten as
/// digits follow it, the last once.
pub proof fn law_digits_count_by_place(s: Seq<char>)
    requires
        s.len() > 0,
        forall|i: int| 0 <= i < s.len() ==> is_digit(#[trigger] s[i]),
    ensures
        number(s) == (s[0] as u32 - '0' as u32) * vstd::arithmetic::power::pow(
            10,
            (s.len() - 1) as nat,
        ) + number(s.drop_first()),
        number(Seq::empty()) == 0,
    decreases s.len(),
{
    reveal(vstd::arithmetic::power::pow);
    assert(is_digit(s[0]));
    if s.len() == 1 {
        assert(s.drop_last() =~= Seq::<char>::empty());
        assert(s.drop_first() =~= Seq::<char>::empty());
    } else {
        let init = s.drop_last();
        assert forall|i: int| 0 <= i < init.len() implies is_digit(#[trigger] init[i]) by {
            assert(init[i] == s[i]);
        }
        law_digits_count_by_place(init);
        assert(is_digit(s[s.len() - 1]));
        assert(s.drop_first().drop_last() =~= init.drop_first());
        assert(s.drop_first().last() == s.last());
        let d = s[0] as u32 - '0' as u32;
        let p = vstd::arithmetic::power::pow(10, (s.len() - 2) as nat);
        assert((d * p) * 10 == d * (10 * p)) by (nonlinear_arith);
    }
}

/// A number is written with digits only, and without a zero before it.
pub proof fn law_decimal_is_plain(n: nat)
    ensures
        decimal(n).len() > 0,
        forall|i: int| 0 <= i < decimal(n).len() ==> is_digit(#[trigger] decimal(n)[i]),
        decimal(n)[0] == '0' ==> decimal(n).len() == 1,
        number(decimal(n)) == n,
    decreases n,
{
    lemma_decimal_digits(n);
    if n >= 10 {
        law_decimal_is_plain(n / 10);
        lemma_decimal_digits(n / 10);
        assert(decimal(n)[0] == decimal(n / 10)[0]);
        if decimal(n / 10)[0] == '0' {
            assert(decimal(n / 10).drop_last() =~= Seq::<char>::empty());
            assert(number(Seq::<char>::empty()) == 0);
            assert(number(decimal(n / 10)) == 0);
        }
    }
}

/// Only digits make a number, at least one, perhaps after one plus sign; zeros
/// before it do not count, and it must not be greater than allowed.
pub proof fn law_parsed(s: Seq<char>, max: nat)
    ensures
        s.len() > 0 && (forall|i: int| 0 <= i < s.len() ==> is_digit(#[trigger] s[i])) ==> {
            &&& number(s) <= max ==> parsed(s, max) == Some(number(s))
            &&& number(s) > max ==> parsed(s, max) is None
            &&& parsed(seq!['+'] + s, max) == parsed(s, max)
            &&& parsed(seq!['0'] + s, max) == parsed(s, max)
        },
        s.len() == 0 ==> parsed(s, max) is None && parsed(seq!['+'] + s, max) is None,
        forall|i: int|
            0 <= i < s.len() && !is_digit(#[trigger] s[i]) && !(i == 0 && s[0] == '+') ==> parsed(
                s,
                max,
            ) is None,
{
    let plus = seq!['+'] + s;
    let zero = seq!['0'] + s;
    assert(plus.drop_first() =~= s);
    assert(zero.drop_first() =~= s);
    if s.len() > 0 && (forall|i: int| 0 <= i < s.len() ==> is_digit(#[trigger] s[i])) {
        assert(is_digit(s[0]));
        assert(without_plus(s) == s);
        assert(without_plus(plus) == s);
        assert(without_plus(zero) == zero);
        assert forall|i: int| 0 <= i < zero.len() implies is_digit(#[trigger] zero[i]) by {
            if i > 0 {
                assert(zero[i] == s[i - 1]);
            }
        }
        law_digits_count_by_place(zero);
        assert(0 * vstd::arithmetic::power::pow(10, s.len()) == 0) by (nonlinear_arith);
    }
    assert forall|i: int|
        0 <= i < s.len() && !is_digit(#[trigger] s[i]) && !(i == 0 && s[0] == '+') implies parsed(
        s,
        max,
    ) is None by {
        if s[0] == '+' {
            assert(s.drop_first()[i - 1] == s[i]);
        } else {
            assert(without_plus(s)[i] == s[i]);
        }
    }
}

/// The sixteen digits, in order.
pub proof fn law_digits(d: int)
    requires
        0 <= d < 16,
    ensures
        digit(d) == "0123456789abcdef"@[d],
        digit_value(digit(d)) == d,
{
    reveal_strlit("0123456789abcdef");
}

} // verus!
