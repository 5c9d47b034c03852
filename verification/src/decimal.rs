//! Decimal numbers as text.
use vstd::prelude::*;

use crate::text::chars_of;

verus! {

/// Whether `c` is a decimal digit.
pub open spec fn is_digit(c: char) -> bool {
    '0' <= c <= '9'
}

/// The decimal digit of the number `n`.
pub open spec fn digit(n: nat) -> char {
    ('0' as int + n) as char
}

/// The number `n` in decimal digits, without leading zeros.
pub open spec fn decimal(n: nat) -> Seq<char>
    decreases n,
{
    if n < 10 {
        seq![digit(n)]
    } else {
        decimal(n / 10).push(digit(n % 10))
    }
}

/// The number that decimal digits stand for.
pub open spec fn value_of(digits: Seq<char>) -> nat
    decreases digits.len(),
{
    if digits.len() == 0 {
        0
    } else {
        value_of(digits.drop_last()) * 10 + (digits.last() as nat - '0' as nat) as nat
    }
}

/// Whether `s` consists of digits, at least one.
pub open spec fn is_digits(s: Seq<char>) -> bool {
    s.len() > 0 && forall|i: int| 0 <= i < s.len() ==> is_digit(#[trigger] s[i])
}

/// `s` without one plus sign at its start that something follows.
pub open spec fn without_plus(s: Seq<char>) -> Seq<char> {
    if s.len() > 1 && s[0] == '+' {
        s.skip(1)
    } else {
        s
    }
}

/// The number that `s` stands for: digits, behind a plus sign or not, whose
/// value a `usize` can hold.
pub open spec fn parsed(s: Seq<char>) -> Option<usize> {
    let digits = without_plus(s);
    if is_digits(digits) && value_of(digits) <= usize::MAX {
        Some(value_of(digits) as usize)
    } else {
        None
    }
}

/// More digits never make a smaller number.
proof fn lemma_value_grows(s: Seq<char>, n: int)
    requires
        0 <= n <= s.len(),
        forall|i: int| 0 <= i < s.len() ==> is_digit(#[trigger] s[i]),
    ensures
        value_of(s.take(n)) <= value_of(s),
    decreases s.len(),
{
    if n == s.len() {
        assert(s.take(n) =~= s);
    } else {
        let front = s.drop_last();
        assert forall|i: int| 0 <= i < front.len() implies is_digit(#[trigger] front[i]) by {
            assert(front[i] == s[i]);
        }
        lemma_value_grows(front, n);
        assert(front.take(n) =~= s.take(n));
    }
}

/// The digits of a number stand for that number.
proof fn lemma_value_of_decimal(n: nat)
    ensures
        is_digits(decimal(n)),
        value_of(decimal(n)) == n,
    decreases n,
{
    reveal_with_fuel(value_of, 2);
    if n < 10 {
        assert(decimal(n).drop_last() =~= seq![]);
    } else {
        let front = decimal(n / 10);
        lemma_value_of_decimal(n / 10);
        assert(decimal(n).drop_last() =~= front);
        assert(digit(n % 10) as int == '0' as int + n % 10);
        assert forall|i: int| 0 <= i < decimal(n).len() implies is_digit(
            #[trigger] decimal(n)[i],
        ) by {
            if i < front.len() {
                assert(decimal(n)[i] == front[i]);
            }
        }
    }
}

/// Reading a number that was written in decimal gives that number.
pub proof fn parsing_undoes_formatting(n: usize)
    ensures
        parsed(decimal(n as nat)) == Some(n),
{
    lemma_value_of_decimal(n as nat);
    assert(is_digit(decimal(n as nat)[0]));
}

/// The number `n` in decimal digits.
pub fn format_usize(n: usize) -> (r: String)
    ensures
        r@ == decimal(n as nat),
{
    let mut reversed: Vec<char> = Vec::new();
    let mut rest: usize = n;
    while rest >= 10
        invariant
            decimal(n as nat) == decimal(rest as nat) + reversed@.reverse(),
        decreases rest,
    {
        let ghost before = reversed@;
        let ghost whole = rest as nat;
        let c = digit_char(rest % 10);
        reversed.push(c);
        rest = rest / 10;
        assert(decimal(rest as nat) + reversed@.reverse() =~= decimal(rest as nat).push(c)
            + before.reverse());
        assert(decimal(whole) == decimal(rest as nat).push(c));
    }
    let ghost before = reversed@;
    reversed.push(digit_char(rest));
    assert(reversed@.reverse() =~= decimal(rest as nat) + before.reverse());
    let mut out = String::new();
    let mut i: usize = reversed.len();
    while i > 0
        invariant
            i <= reversed@.len(),
            out@ == reversed@.reverse().take(reversed@.len() - i),
        decreases i,
    {
        i -= 1;
        out.push(reversed[i]);
        assert(out@ =~= reversed@.reverse().take(reversed@.len() - i));
    }
    assert(reversed@.reverse().take(reversed@.len() as int) =~= reversed@.reverse());
    out
}

/// The decimal digit of a number below ten.
fn digit_char(n: usize) -> (r: char)
    requires
        n < 10,
    ensures
        r == digit(n as nat),
{
    ('0' as u8 + n as u8) as char
}

/// The number that `s` stands for, if it is one that a `usize` can hold.
pub fn parse_usize(s: &str) -> (r: Option<usize>)
    ensures
        r == parsed(s@),
{
    let chars = chars_of(s);
    let start: usize = if chars.len() > 1 && chars[0] == '+' { 1 } else { 0 };
    let ghost digits = without_plus(s@);
    assert(digits =~= s@.skip(start as int));
    if chars.len() == 0 {
        return None;
    }
    let mut value: usize = 0;
    let mut i: usize = start;
    assert(digits.take(0) =~= seq![]);
    while i < chars.len()
        invariant
            chars@ == s@,
            start <= i <= chars@.len(),
            start <= 1,
            digits == without_plus(s@),
            digits == s@.skip(start as int),
            forall|j: int| 0 <= j < i - start ==> is_digit(#[trigger] digits[j]),
            value == value_of(digits.take(i - start)),
        decreases chars@.len() - i,
    {
        let c = chars[i];
        let ghost k = i - start;
        assert(digits[k] == c);
        if !('0' <= c && c <= '9') {
            assert(!is_digit(digits[k]));
            return None;
        }
        let d: usize = (c as u32 - '0' as u32) as usize;
        assert(digits.take(k + 1).drop_last() =~= digits.take(k));
        assert(value_of(digits.take(k + 1)) == value * 10 + d);
        if value > (usize::MAX - d) / 10 {
            assert(value * 10 + d > usize::MAX);
            proof {
                if is_digits(digits) {
                    lemma_value_grows(digits, k + 1);
                }
            }
            return None;
        }
        value = value * 10 + d;
        i += 1;
    }
    assert(digits.take(i - start) =~= digits);
    Some(value)
}

/// The digits of a number are those of a tenth of it, and then the last one.
pub proof fn digits_are_decimal(n: nat, d: nat)
    requires
        d < 10,
    ensures
        decimal(d) == seq![(48 + d) as char],
        n > 0 ==> decimal(10 * n + d) == decimal(n) + seq![(48 + d) as char],
{
    if n > 0 {
        assert((10 * n + d) / 10 == n && (10 * n + d) % 10 == d);
        assert(decimal(n).push(digit(d)) =~= decimal(n) + seq![digit(d)]);
    }
}

/// Zeros.
pub open spec fn zeros(k: nat) -> Seq<char> {
    Seq::new(k, |i: int| '0')
}

/// A text is read as the number `n` exactly if it is `n` in decimal digits,
/// behind any number of zeros, and these behind a plus sign or not.
pub proof fn parsing_reads_decimal_digits(s: Seq<char>, n: usize)
    ensures
        parsed(s) == Some(n) <==> exists|k: nat|
            s == #[trigger] zeros(k) + decimal(n as nat) || s == seq!['+'] + (zeros(k) + decimal(
                n as nat,
            )),
{
    let digits = without_plus(s);
    if parsed(s) == Some(n) {
        let k = lemma_digits_are_padded(digits);
        assert(zeros(k) + decimal(n as nat) == digits);
        if digits != s {
            assert(s =~= seq!['+'] + digits);
        }
    }
    if exists|k: nat|
        s == #[trigger] zeros(k) + decimal(n as nat) || s == seq!['+'] + (zeros(k) + decimal(
            n as nat,
        )) {
        let k = choose|k: nat|
            s == #[trigger] zeros(k) + decimal(n as nat) || s == seq!['+'] + (zeros(k) + decimal(
                n as nat,
            ));
        let t = zeros(k) + decimal(n as nat);
        lemma_value_of_padded(k, n as nat);
        assert(is_digit(t[0]));
        if s == t {
            assert(digits == t);
        } else {
            assert(s[0] == '+');
            assert(s.skip(1) =~= t);
        }
    }
}

/// Leading zeros do not change a number.
proof fn lemma_value_of_padded(k: nat, n: nat)
    ensures
        is_digits(zeros(k) + decimal(n)),
        value_of(zeros(k) + decimal(n)) == n,
    decreases n,
{
    let s = zeros(k) + decimal(n);
    lemma_value_of_decimal(n);
    assert forall|i: int| 0 <= i < s.len() implies is_digit(#[trigger] s[i]) by {
        if i >= k {
            assert(s[i] == decimal(n)[i - k]);
        }
    }
    if n < 10 {
        assert(s.drop_last() =~= zeros(k));
        lemma_value_of_zeros(k);
        assert(digit(n) as int == '0' as int + n);
        assert(s.last() == digit(n));
    } else {
        lemma_value_of_padded(k, n / 10);
        assert(s.drop_last() =~= zeros(k) + decimal(n / 10));
        assert(digit(n % 10) as int == '0' as int + n % 10);
        assert(s.last() == digit(n % 10));
    }
}

/// Zeros stand for zero.
proof fn lemma_value_of_zeros(k: nat)
    ensures
        value_of(zeros(k)) == 0,
    decreases k,
{
    if k > 0 {
        lemma_value_of_zeros((k - 1) as nat);
        assert(zeros(k).drop_last() =~= zeros((k - 1) as nat));
    }
}

/// Digits are the decimal form of their number, behind zeros.
proof fn lemma_digits_are_padded(s: Seq<char>) -> (k: nat)
    requires
        is_digits(s),
    ensures
        s == zeros(k) + decimal(value_of(s)),
    decreases s.len(),
{
    let front = s.drop_last();
    let c = s.last();
    assert(is_digit(s[s.len() - 1]));
    let d = (c as int - '0' as int) as nat;
    assert(digit(d) == c);
    if front.len() == 0 {
        assert(value_of(front) == 0);
        assert(s =~= zeros(0) + decimal(value_of(s)));
        0
    } else {
        assert forall|i: int| 0 <= i < front.len() implies is_digit(#[trigger] front[i]) by {
            assert(front[i] == s[i]);
        }
        let k = lemma_digits_are_padded(front);
        let m = value_of(front);
        assert(value_of(s) == m * 10 + d);
        digits_are_decimal(m, d);
        if m > 0 {
            assert(decimal(value_of(s)) == decimal(m) + seq![c]);
            assert(s =~= front + seq![c]);
            assert(zeros(k) + (decimal(m) + seq![c]) =~= front + seq![c]);
            k
        } else {
            assert(decimal(0) =~= seq!['0']);
            assert(front =~= zeros(k + 1));
            assert(s =~= zeros(k + 1) + decimal(value_of(s)));
            k + 1
        }
    }
}

} // verus!
