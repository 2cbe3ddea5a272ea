//! Decimal integers in strings.

use vstd::arithmetic::power::pow;
use vstd::prelude::*;
use vstd::string::StrSliceExecFns;

verus! {

/// Whether `c` is one of the characters 0 to 9.
pub open spec fn is_digit(c: char) -> bool {
    '0' <= c && c <= '9'
}

/// The number that a row of digits stands for.
pub open spec fn digits_value(s: Seq<char>) -> nat
    decreases s.len(),
{
    if s.len() == 0 {
        0
    } else {
        10 * digits_value(s.drop_last()) + (s.last() as nat - '0' as nat) as nat
    }
}

/// `s` is a row of at least one digit and nothing else.
pub open spec fn all_digits(s: Seq<char>) -> bool {
    s.len() > 0 && forall|i: int| 0 <= i < s.len() ==> is_digit(#[trigger] s[i])
}

/// The number that a row of digits stands for, unless it is over `max`.
pub open spec fn digits_up_to(s: Seq<char>, max: nat) -> Option<nat> {
    if all_digits(s) && digits_value(s) <= max {
        Some(digits_value(s))
    } else {
        None
    }
}

/// The number that `s` stands for: digits after an optional plus sign, a
/// number of at most `max`.
pub open spec fn unsigned_value(s: Seq<char>, max: nat) -> Option<nat> {
    if s.len() > 0 && s[0] == '+' {
        digits_up_to(s.skip(1), max)
    } else {
        digits_up_to(s, max)
    }
}

/// The number that `s` stands for: digits after an optional sign, a number in
/// the range of `i64`.
pub open spec fn signed_value(s: Seq<char>) -> Option<int> {
    if s.len() > 0 && s[0] == '-' {
        match digits_up_to(s.skip(1), 0x8000_0000_0000_0000) {
            Some(v) => Some(-(v as int)),
            None => None,
        }
    } else {
        match unsigned_value(s, 0x7fff_ffff_ffff_ffff) {
            Some(v) => Some(v as int),
            None => None,
        }
    }
}

/// More digits never make a smaller number.
proof fn lemma_prefix_is_no_larger(s: Seq<char>, k: int)
    requires
        0 <= k <= s.len(),
    ensures
        digits_value(s.take(k)) <= digits_value(s),
    decreases s.len(),
{
    if k < s.len() {
        lemma_prefix_is_no_larger(s.drop_last(), k);
        assert(s.drop_last().take(k) == s.take(k));
    } else {
        assert(s.take(k) == s);
    }
}

/// Reads the digits of `s` from `start` to its end.
fn parse_digits(s: &str, start: usize, max: u64) -> (r: Option<u64>)
    requires
        start <= s@.len(),
    ensures
        match r {
            Some(v) => digits_up_to(s@.skip(start as int), max as nat) == Some(v as nat),
            None => digits_up_to(s@.skip(start as int), max as nat) is None,
        },
{
    let len: usize = s.unicode_len();
    let ghost digits = s@.skip(start as int);
    let mut value: u64 = 0;
    let mut i: usize = start;
    assert(digits.take(0) == Seq::<char>::empty());
    while i < len
        invariant
            len == s@.len(),
            start <= i <= len,
            digits == s@.skip(start as int),
            forall|j: int| 0 <= j < i - start ==> is_digit(#[trigger] digits[j]),
            value == digits_value(digits.take(i - start)),
            value <= max,
        decreases len - i,
    {
        let c: char = s.get_char(i);
        assert(c == digits[i - start]);
        if c < '0' || c > '9' {
            return None;
        }
        let d: u64 = c as u64 - '0' as u64;
        assert(digits.take(i - start + 1).drop_last() == digits.take(i - start));
        proof {
            lemma_prefix_is_no_larger(digits, i - start + 1);
        }
        if value > max / 10 {
            return None;
        }
        let tens: u64 = value * 10;
        if d > max - tens {
            return None;
        }
        value = tens + d;
        i = i + 1;
    }
    assert(digits.take(len - start) == digits);
    if len == start {
        None
    } else {
        Some(value)
    }
}

/// Parses digits after an optional plus sign; `None` where `s` is anything
/// else or the number is over `max`.
pub fn parse_unsigned(s: &str, max: u64) -> (r: Option<u64>)
    ensures
        match r {
            Some(v) => unsigned_value(s@, max as nat) == Some(v as nat),
            None => unsigned_value(s@, max as nat) is None,
        },
{
    if s.unicode_len() > 0 && s.get_char(0) == '+' {
        parse_digits(s, 1, max)
    } else {
        assert(s@.skip(0) == s@);
        parse_digits(s, 0, max)
    }
}

/// Whether `s` is a signed integer other than zero; `None` where it is no
/// integer in the range of `i64`.
pub fn parse_nonzero(s: &str) -> (r: Option<bool>)
    ensures
        match r {
            Some(b) => signed_value(s@) is Some && b == (signed_value(s@)->0 != 0),
            None => signed_value(s@) is None,
        },
{
    let magnitude = if s.unicode_len() > 0 && s.get_char(0) == '-' {
        parse_digits(s, 1, 0x8000_0000_0000_0000)
    } else {
        parse_unsigned(s, 0x7fff_ffff_ffff_ffff)
    };
    match magnitude {
        Some(v) => Some(v != 0),
        None => None,
    }
}

proof fn lemma_value_of_joined(front: Seq<char>, back: Seq<char>)
    ensures
        digits_value(front + back) == digits_value(front) * pow(10, back.len()) + digits_value(
            back,
        ),
        pow(10, back.len()) > 0,
    decreases back.len(),
{
    reveal(pow);
    if back.len() == 0 {
        assert(front + back =~= front);
        assert(digits_value(front) * 1 == digits_value(front));
    } else {
        let short = back.drop_last();
        lemma_value_of_joined(front, short);
        assert((front + back).drop_last() =~= front + short);
        let a = digits_value(front) as int;
        let p = pow(10, short.len());
        assert(pow(10, back.len()) == 10 * p);
        assert(10 * (a * p) == a * (10 * p)) by (nonlinear_arith);
    }
}

/// Digits are read in base ten: those in front weigh ten times as much for
/// each digit behind them, and one digit alone stands for its own value.
pub proof fn law_digits_are_decimal(front: Seq<char>, back: Seq<char>, c: char)
    requires
        is_digit(c),
    ensures
        digits_value(front + back) == digits_value(front) * pow(10, back.len()) + digits_value(
            back,
        ),
        digits_value(seq![c]) == c as nat - '0' as nat,
        digits_value(Seq::<char>::empty()) == 0,
{
    lemma_value_of_joined(front, back);
    assert(seq![c].drop_last() =~= Seq::<char>::empty());
    assert(digits_value(seq![c].drop_last()) == 0);
}

/// A row of digits is read as its number wherever that is not too large, with
/// or without a plus sign in front.
pub proof fn law_digits_are_read(digits: Seq<char>, max: nat)
    requires
        digits.len() > 0,
        forall|i: int| 0 <= i < digits.len() ==> '0' <= #[trigger] digits[i] <= '9',
    ensures
        digits_value(digits) <= max ==> unsigned_value(digits, max) == Some(digits_value(digits)),
        digits_value(digits) > max ==> unsigned_value(digits, max) is None,
        unsigned_value(seq!['+'] + digits, max) == unsigned_value(digits, max),
        digits_value(digits) <= i64::MAX ==> signed_value(digits) == Some(
            digits_value(digits) as int,
        ),
        digits_value(digits) > i64::MAX ==> signed_value(digits) is None,
        signed_value(seq!['+'] + digits) == signed_value(digits),
        digits_value(digits) <= i64::MAX + 1 ==> signed_value(seq!['-'] + digits) == Some(
            -(digits_value(digits) as int),
        ),
        digits_value(digits) > i64::MAX + 1 ==> signed_value(seq!['-'] + digits) is None,
{
    assert((seq!['+'] + digits).skip(1) =~= digits);
    assert((seq!['-'] + digits).skip(1) =~= digits);
    assert((seq!['+'] + digits)[0] == '+');
    assert((seq!['-'] + digits)[0] == '-');
    assert('0' <= digits[0]);
    assert(all_digits(digits));
}

/// Nothing else is read: neither an empty text, nor a sign alone, nor a text
/// with anything but a digit in it, a sign at its start aside.
pub proof fn law_nothing_else_is_read(text: Seq<char>, max: nat, i: int)
    ensures
        unsigned_value(Seq::<char>::empty(), max) is None,
        signed_value(Seq::<char>::empty()) is None,
        text.len() == 1 && (text[0] == '+' || text[0] == '-') ==> unsigned_value(text, max) is None
            && signed_value(text) is None,
        0 < i < text.len() && !('0' <= text[i] <= '9') ==> unsigned_value(text, max) is None
            && signed_value(text) is None,
        text.len() > 0 && text[0] != '+' && !('0' <= text[0] <= '9') ==> unsigned_value(
            text,
            max,
        ) is None && (text[0] != '-' ==> signed_value(text) is None),
{
    if text.len() > 0 {
        let rest = text.skip(1);
        assert(rest.len() == text.len() - 1);
        if 0 < i < text.len() && !is_digit(text[i]) {
            assert(rest[i - 1] == text[i]);
            assert(!is_digit(rest[i - 1]));
        }
    }
}

} // verus!
