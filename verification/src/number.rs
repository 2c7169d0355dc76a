//! Decimal numbers as text.
use crate::text::chars_of;
use vstd::prelude::*;

verus! {

/// Whether a character is an ASCII digit.
pub open spec fn is_digit(c: char) -> bool {
    '0' <= c <= '9'
}

/// The value of an ASCII digit.
pub open spec fn digit_value(c: char) -> nat {
    (c as u32 - '0' as u32) as nat
}

/// The ASCII digit with a value below ten.
pub open spec fn digit_char(d: nat) -> char {
    ('0' as u32 + d) as char
}

/// The decimal digits of a number, without leading zeros.
pub open spec fn decimal(n: nat) -> Seq<char>
    decreases n,
{
    if n < 10 {
        seq![digit_char(n)]
    } else {
        decimal(n / 10).push(digit_char(n % 10))
    }
}

/// The number that a run of digits denotes.
pub open spec fn digits_value(s: Seq<char>) -> nat
    decreases s.len(),
{
    if s.len() == 0 {
        0
    } else {
        digits_value(s.drop_last()) * 10 + digit_value(s.last())
    }
}

/// A text without the plus sign that it may start with.
pub open spec fn without_plus(s: Seq<char>) -> Seq<char> {
    if s.len() > 0 && s[0] == '+' {
        s.drop_first()
    } else {
        s
    }
}

/// The number that a text denotes: one or more ASCII digits, after a plus sign or not, whose value
/// fits.
pub open spec fn number_in(s: Seq<char>) -> Option<usize> {
    let d = without_plus(s);
    if d.len() > 0 && (forall|i: int| 0 <= i < d.len() ==> is_digit(#[trigger] d[i]))
        && digits_value(d) <= usize::MAX {
        Some(digits_value(d) as usize)
    } else {
        None
    }
}

/// A longer run of digits denotes no smaller a number.
proof fn lemma_digits_grow(s: Seq<char>, n: int)
    requires
        0 <= n <= s.len(),
    ensures
        digits_value(s.take(n)) <= digits_value(s),
    decreases s.len() - n,
{
    if n < s.len() {
        lemma_digits_grow(s, n + 1);
        assert(s.take(n + 1).drop_last() == s.take(n));
    } else {
        assert(s.take(n) == s);
    }
}

/// The decimal digits of a number.
pub fn to_decimal(n: usize) -> (r: String)
    ensures
        r@ == decimal(n as nat),
    decreases n,
{
    let digit: char = (48 + (n % 10) as u8) as char;
    if n < 10 {
        let mut r: String = String::new();
        r.push(digit);
        assert(r@ == decimal(n as nat));
        r
    } else {
        let mut r: String = to_decimal(n / 10);
        r.push(digit);
        r
    }
}

/// The number that a text denotes.
pub fn parse_number(s: &str) -> (r: Option<usize>)
    ensures
        r == number_in(s@),
{
    let chars: Vec<char> = chars_of(s);
    let start: usize = if chars.len() > 0 && chars[0] == '+' {
        1
    } else {
        0
    };
    let ghost d = s@.skip(start as int);
    assert(d == without_plus(s@));
    if start == chars.len() {
        return None;
    }
    let mut value: usize = 0;
    let mut i: usize = start;
    while i < chars.len()
        invariant
            chars@ == s@,
            d == s@.skip(start as int),
            start <= i <= chars@.len(),
            d == without_plus(s@),
            forall|j: int| 0 <= j < i - start ==> is_digit(#[trigger] d[j]),
            value == digits_value(d.take(i - start)),
        decreases chars@.len() - i,
    {
        let c: char = chars[i];
        assert(d[i - start] == c);
        if c < '0' || c > '9' {
            assert(!is_digit(d[i - start]));
            return None;
        }
        let digit: usize = (c as u8 - 48) as usize;
        proof {
            assert(d.take(i - start + 1).drop_last() == d.take(i - start));
            lemma_digits_grow(d, i - start + 1);
        }
        match value.checked_mul(10) {
            Some(tens) => match tens.checked_add(digit) {
                Some(sum) => {
                    value = sum;
                },
                None => {
                    return None;
                },
            },
            None => {
                return None;
            },
        }
        i += 1;
    }
    assert(d.take(d.len() as int) == d);
    Some(value)
}

/// Reading back the digits of a number gives the number.
pub proof fn number_reads_back(n: usize)
    ensures
        number_in(decimal(n as nat)) == Some(n),
{
    lemma_decimal(n as nat);
    let s = decimal(n as nat);
    assert(is_digit(s[0]));
}

/// The digits of a number are digits, at least one of them, and denote the number.
pub proof fn lemma_decimal(n: nat)
    ensures
        decimal(n).len() > 0,
        forall|i: int| 0 <= i < decimal(n).len() ==> is_digit(#[trigger] decimal(n)[i]),
        digits_value(decimal(n)) == n,
    decreases n,
{
    if n < 10 {
        assert(decimal(n).drop_last() == Seq::<char>::empty());
        assert(digits_value(decimal(n).drop_last()) == 0);
    } else {
        lemma_decimal(n / 10);
        assert(decimal(n).drop_last() == decimal(n / 10));
    }
}

/// The digits of a number are those of its tenth part, and one more for the rest.
pub proof fn decimal_adds_a_digit(n: nat, d: nat)
    requires
        d < 10,
    ensures
        decimal(d) == seq![("0123456789"@)[d as int]],
        n > 0 ==> decimal(10 * n + d) == decimal(n).push(("0123456789"@)[d as int]),
{
    reveal_strlit("0123456789");
    assert(digit_char(d) == ("0123456789"@)[d as int]);
    assert((10 * n + d) / 10 == n && (10 * n + d) % 10 == d);
}

/// One more digit makes a number ten times as large, and adds the digit; a single digit is its own
/// value. A number that is too large is none.
pub proof fn number_grows_by_a_digit(s: Seq<char>, c: char, d: nat)
    requires
        d < 10,
        c == ("0123456789"@)[d as int],
    ensures
        number_in(seq![c]) == Some(d as usize),
        number_in(s) matches Some(n) ==> number_in(s.push(c)) == if 10 * n + d <= usize::MAX {
            Some((10 * n + d) as usize)
        } else {
            None
        },
{
    reveal_strlit("0123456789");
    assert(is_digit(c) && digit_value(c) == d);
    let one = seq![c];
    assert(without_plus(one) == one);
    assert(one.drop_last() =~= Seq::<char>::empty());
    assert(digits_value(one.drop_last()) == 0);
    assert(digits_value(one) == d);
    assert(one[0] == c);
    assert(number_in(one) == Some(d as usize));
    if let Some(n) = number_in(s) {
        let a = without_plus(s);
        let b = without_plus(s.push(c));
        assert(s.push(c)[0] == s[0]);
        assert(b =~= a.push(c));
        assert(b.drop_last() =~= a);
        assert(digits_value(b) == digits_value(a) * 10 + d);
        assert forall|i: int| 0 <= i < b.len() implies is_digit(#[trigger] b[i]) by {
            if i < a.len() {
                assert(b[i] == a[i]);
            }
        }
    }
}

/// A plus sign before a digit does not matter.
pub proof fn plus_sign_does_not_matter(s: Seq<char>)
    requires
        s.len() > 0,
        s[0] != '+',
    ensures
        number_in(seq!['+'] + s) == number_in(s),
{
    let t = seq!['+'] + s;
    assert(t[0] == '+');
    assert(t.drop_first() =~= s);
}

/// Only digits, at least one of them, after a plus sign or not, denote a number.
pub proof fn numbers_are_made_of_digits(s: Seq<char>)
    ensures
        number_in(s) is Some ==> s.len() > 0 && (s[0] == '+' ==> s.len() > 1) && forall|i: int|
            0 <= i < s.len() ==> ('0' <= #[trigger] s[i] <= '9' || i == 0 && s[i] == '+'),
{
    if number_in(s) is Some {
        let d = without_plus(s);
        assert forall|i: int| 0 <= i < s.len() implies ('0' <= #[trigger] s[i] <= '9' || i == 0
            && s[i] == '+') by {
            if s[0] == '+' {
                if i > 0 {
                    assert(is_digit(d[i - 1]));
                }
            } else {
                assert(is_digit(d[i]));
            }
        }
    }
}

/// Digits that denote no number, since it is too large, denote none with more digits behind them.
pub proof fn too_large_stays_too_large(s: Seq<char>, c: char)
    requires
        s.len() > 0,
        forall|i: int| 0 <= i < s.len() ==> '0' <= #[trigger] s[i] <= '9',
        number_in(s) is None,
    ensures
        number_in(s.push(c)) is None,
{
    let t = s.push(c);
    assert(s[0] != '+');
    assert(t[0] == s[0]);
    assert forall|i: int| 0 <= i < s.len() implies is_digit(#[trigger] s[i]) by {
        assert('0' <= s[i] <= '9');
    }
    assert(t.drop_last() =~= s);
    assert(digits_value(t) >= digits_value(s) * 10);
}

} // verus!
