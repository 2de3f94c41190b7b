//! Unsigned decimal numbers, read from text.

use crate::text::{chars_of, code, decimal, digit};
use vstd::prelude::*;

verus! {

/// Why a text is not a number.
#[derive(Clone, Copy, PartialEq, Eq, Debug, Structural)]
pub enum NumberError {
    /// There is no character.
    Empty,
    /// A character is not a decimal digit, or a sign stands alone.
    InvalidDigit,
    /// The digits up to some point exceed the largest value.
    TooLarge,
}

/// Whether `c` is an ASCII digit.
pub open spec fn is_digit(c: char) -> bool {
    '0' as int <= c as int <= '9' as int
}

/// The value of the ASCII digit `c`.
pub open spec fn digit_value(c: char) -> nat {
    (c as int - '0' as int) as nat
}

/// Reads the digits of `s` from the left onto `acc`. The first character that is no digit, or
/// whose digit takes the value above `max`, decides the error.
pub open spec fn scan(s: Seq<char>, acc: nat, max: nat) -> Result<nat, NumberError>
    decreases s.len(),
{
    if s.len() == 0 {
        Ok(acc)
    } else if !is_digit(s[0]) {
        Err(NumberError::InvalidDigit)
    } else if acc * 10 + digit_value(s[0]) > max {
        Err(NumberError::TooLarge)
    } else {
        scan(s.drop_first(), acc * 10 + digit_value(s[0]), max)
    }
}

/// Where the digits of `s` start: behind a leading plus sign.
pub open spec fn digits_start(s: Seq<char>) -> int {
    if s.len() > 0 && s[0] == '+' {
        1
    } else {
        0
    }
}

/// The number that `s` writes, at most `max`: an optional plus sign, then at least one digit.
pub open spec fn number(s: Seq<char>, max: nat) -> Result<nat, NumberError> {
    if s.len() == 0 {
        Err(NumberError::Empty)
    } else if s.len() == digits_start(s) {
        Err(NumberError::InvalidDigit)
    } else {
        scan(s.skip(digits_start(s)), 0, max)
    }
}

/// The value of a sequence of digits, without a bound.
pub open spec fn digits_value(s: Seq<char>) -> nat
    decreases s.len(),
{
    if s.len() == 0 {
        0
    } else {
        digits_value(s.drop_last()) * 10 + digit_value(s.last())
    }
}

/// Whether `s` holds digits only.
pub open spec fn all_digits(s: Seq<char>) -> bool {
    forall|i: int| 0 <= i < s.len() ==> is_digit(#[trigger] s[i])
}

/// Reads `s` as a decimal number of at most `max`.
pub fn parse_number(s: &str, max: u64) -> (r: Result<u64, NumberError>)
    ensures
        match r {
            Ok(n) => number(s@, max as nat) == Ok::<nat, NumberError>(n as nat),
            Err(e) => number(s@, max as nat) == Err::<nat, NumberError>(e),
        },
{
    let cs = chars_of(s);
    if cs.len() == 0 {
        return Err(NumberError::Empty);
    }
    let start: usize = if cs[0] == '+' { 1 } else { 0 };
    if cs.len() == start {
        return Err(NumberError::InvalidDigit);
    }
    let mut acc: u64 = 0;
    let mut i: usize = start;
    while i < cs.len()
        invariant
            cs@ == s@,
            i <= cs.len(),
            acc <= max,
            number(s@, max as nat) == scan(s@.skip(i as int), acc as nat, max as nat),
        decreases cs.len() - i,
    {
        let c = cs[i];
        assert(s@.skip(i as int)[0] == c);
        assert(s@.skip(i as int).drop_first() =~= s@.skip(i + 1));
        let n: u32 = code(c);
        if n < 48 || n > 57 {
            return Err(NumberError::InvalidDigit);
        }
        let d: u64 = (n - 48) as u64;
        assert(is_digit(c) && digit_value(c) == d);
        match acc.checked_mul(10) {
            None => {
                return Err(NumberError::TooLarge);
            },
            Some(tens) => match tens.checked_add(d) {
                None => {
                    return Err(NumberError::TooLarge);
                },
                Some(next) => {
                    if next > max {
                        return Err(NumberError::TooLarge);
                    }
                    acc = next;
                },
            },
        }
        i += 1;
    }
    Ok(acc)
}

/// Reads `s` as a number that fits in a `usize`.
pub fn parse_usize(s: &str) -> (r: Result<usize, NumberError>)
    ensures
        match r {
            Ok(n) => number(s@, usize::MAX as nat) == Ok::<nat, NumberError>(n as nat),
            Err(e) => number(s@, usize::MAX as nat) == Err::<nat, NumberError>(e),
        },
{
    match parse_number(s, usize::MAX as u64) {
        Ok(n) => {
            proof {
                lemma_number_bound(s@, usize::MAX as nat);
            }
            Ok(n as usize)
        },
        Err(e) => Err(e),
    }
}

impl NumberError {
    /// The sentence that describes the error.
    pub open spec fn description(self) -> Seq<char> {
        match self {
            NumberError::Empty => "cannot parse integer from empty string"@,
            NumberError::InvalidDigit => "invalid digit found in string"@,
            NumberError::TooLarge => "number too large to fit in target type"@,
        }
    }

    /// The sentence that describes the error.
    pub fn describe(self) -> (r: &'static str)
        ensures
            r@ == self.description(),
    {
        match self {
            NumberError::Empty => "cannot parse integer from empty string",
            NumberError::InvalidDigit => "invalid digit found in string",
            NumberError::TooLarge => "number too large to fit in target type",
        }
    }
}

proof fn lemma_scan_bound(s: Seq<char>, acc: nat, max: nat)
    requires
        acc <= max,
    ensures
        scan(s, acc, max) matches Ok(n) ==> n <= max,
    decreases s.len(),
{
    if s.len() > 0 && is_digit(s[0]) && acc * 10 + digit_value(s[0]) <= max {
        lemma_scan_bound(s.drop_first(), acc * 10 + digit_value(s[0]), max);
    }
}

proof fn lemma_number_bound(s: Seq<char>, max: nat)
    ensures
        number(s, max) matches Ok(n) ==> n <= max,
{
    if s.len() > digits_start(s) {
        lemma_scan_bound(s.skip(digits_start(s)), 0, max);
    }
}

proof fn lemma_digits_value_grows(s: Seq<char>, i: int)
    requires
        0 <= i <= s.len(),
    ensures
        digits_value(s.take(i)) <= digits_value(s),
    decreases s.len(),
{
    if i < s.len() {
        assert(s.drop_last().take(i) =~= s.take(i));
        lemma_digits_value_grows(s.drop_last(), i);
    } else {
        assert(s.take(i) =~= s);
    }
}

proof fn lemma_scan_rest(s: Seq<char>, i: int, max: nat)
    requires
        all_digits(s),
        0 <= i <= s.len(),
        digits_value(s.take(i)) <= max,
    ensures
        scan(s.skip(i), digits_value(s.take(i)), max) == (if digits_value(s) <= max {
            Ok::<nat, NumberError>(digits_value(s))
        } else {
            Err(NumberError::TooLarge)
        }),
    decreases s.len() - i,
{
    if i == s.len() {
        assert(s.take(i) =~= s);
    } else {
        let rest = s.skip(i);
        assert(rest[0] == s[i]);
        assert(rest.drop_first() =~= s.skip(i + 1));
        assert(s.take(i + 1).drop_last() =~= s.take(i));
        lemma_digits_value_grows(s, i + 1);
        if digits_value(s.take(i + 1)) <= max {
            lemma_scan_rest(s, i + 1, max);
        }
    }
}

/// A non-empty text of digits alone is read as its value when that is at most `max`, and is
/// too large otherwise.
pub proof fn law_digits_are_read_as_their_value(s: Seq<char>, max: nat)
    requires
        s.len() > 0,
        all_digits(s),
    ensures
        number(s, max) == (if digits_value(s) <= max {
            Ok::<nat, NumberError>(digits_value(s))
        } else {
            Err(NumberError::TooLarge)
        }),
{
    assert(is_digit(s[0]));
    assert(s.take(0) =~= Seq::<char>::empty());
    lemma_scan_rest(s, 0, max);
}

/// A plus sign in front of a text that starts with a digit changes nothing.
pub proof fn law_plus_sign_is_optional(s: Seq<char>, max: nat)
    requires
        s.len() > 0,
        is_digit(s[0]),
    ensures
        number(seq!['+'] + s, max) == number(s, max),
{
    assert((seq!['+'] + s).skip(1) =~= s);
    assert(s.skip(0) =~= s);
}

proof fn lemma_digit_value(d: int)
    requires
        0 <= d < 10,
    ensures
        is_digit(digit(d)),
        digit_value(digit(d)) == d,
{
    reveal_strlit("0123456789");
}

pub(crate) proof fn lemma_decimal_value(n: nat)
    ensures
        decimal(n).len() > 0,
        all_digits(decimal(n)),
        digits_value(decimal(n)) == n,
    decreases n,
{
    let s = decimal(n);
    if n < 10 {
        lemma_digit_value(n as int);
        assert(s.drop_last() =~= Seq::<char>::empty());
        assert(digits_value(s.drop_last()) == 0);
    } else {
        lemma_digit_value((n % 10) as int);
        lemma_decimal_value(n / 10);
        assert(s.drop_last() =~= decimal(n / 10));
    }
}

/// A number printed in decimal is read back as itself.
pub proof fn law_printed_number_is_read_back(n: nat, max: nat)
    requires
        n <= max,
    ensures
        number(decimal(n), max) == Ok::<nat, NumberError>(n),
{
    lemma_decimal_value(n);
    law_digits_are_read_as_their_value(decimal(n), max);
}

/// Digits are read from the left: one more digit multiplies what is before it by ten, and adds
/// its own value.
pub proof fn law_digits_have_their_place_value(s: Seq<char>, c: char)
    requires
        '0' as int <= c as int <= '9' as int,
    ensures
        digits_value(Seq::empty()) == 0,
        digits_value(s.push(c)) == 10 * digits_value(s) + (c as int - '0' as int),
{
    assert(s.push(c).drop_last() =~= s);
}

/// Whether the first `k` characters of `b` are digits of a value of at most `max`, and no digit
/// comes next.
pub open spec fn breaks_off(b: Seq<char>, k: int, max: nat) -> bool {
    &&& 0 <= k < b.len()
    &&& forall|i: int| 0 <= i < k ==> '0' as int <= (#[trigger] b[i]) as int <= '9' as int
    &&& !('0' as int <= b[k] as int <= '9' as int)
    &&& digits_value(b.take(k)) <= max
}

/// Whether the first `k` characters of `b` are digits of a value above `max`.
pub open spec fn exceeds(b: Seq<char>, k: int, max: nat) -> bool {
    &&& 0 < k <= b.len()
    &&& forall|i: int| 0 <= i < k ==> '0' as int <= (#[trigger] b[i]) as int <= '9' as int
    &&& digits_value(b.take(k)) > max
}

proof fn lemma_scan_outcome(b: Seq<char>, i: int, max: nat)
    requires
        0 <= i <= b.len(),
        forall|j: int| 0 <= j < i ==> is_digit(#[trigger] b[j]),
        digits_value(b.take(i)) <= max,
    ensures
        match scan(b.skip(i), digits_value(b.take(i)), max) {
            Ok(n) => all_digits(b) && n == digits_value(b) && n <= max,
            Err(NumberError::InvalidDigit) => exists|k: int| breaks_off(b, k, max),
            Err(NumberError::TooLarge) => exists|k: int| exceeds(b, k, max),
            Err(NumberError::Empty) => false,
        },
    decreases b.len() - i,
{
    if i == b.len() {
        assert(b.take(i) =~= b);
    } else {
        let rest = b.skip(i);
        assert(rest[0] == b[i]);
        assert(rest.drop_first() =~= b.skip(i + 1));
        assert(b.take(i + 1).drop_last() =~= b.take(i));
        if !is_digit(b[i]) {
            assert(breaks_off(b, i, max));
        } else if digits_value(b.take(i + 1)) > max {
            assert(exceeds(b, i + 1, max));
        } else {
            lemma_scan_outcome(b, i + 1, max);
        }
    }
}

/// `s` without the plus sign that it may start with.
pub open spec fn behind_plus(s: Seq<char>) -> Seq<char> {
    if s.len() > 0 && s[0] == '+' {
        s.skip(1)
    } else {
        s
    }
}

/// What a number is, and why a text is none. Behind an optional plus sign a number is one digit
/// or more, and nothing else, and its value is at most `max`. Reading stops at the first
/// character that is no digit, or with which the value exceeds `max`, and tells which.
pub proof fn law_what_is_a_number(s: Seq<char>, max: nat)
    ensures
        number(s, max) is Ok <==> {
            &&& behind_plus(s).len() > 0
            &&& forall|i: int|
                0 <= i < behind_plus(s).len() ==> '0' as int <= (#[trigger] behind_plus(
                    s,
                )[i]) as int <= '9' as int
            &&& digits_value(behind_plus(s)) <= max
        },
        number(s, max) matches Ok(n) ==> n == digits_value(behind_plus(s)),
        number(s, max) == Err::<nat, NumberError>(NumberError::Empty) <==> s.len() == 0,
        number(s, max) == Err::<nat, NumberError>(NumberError::InvalidDigit) <==> s.len() > 0 && (
        behind_plus(s).len() == 0 || exists|k: int| breaks_off(behind_plus(s), k, max)),
        number(s, max) == Err::<nat, NumberError>(NumberError::TooLarge) <==> exists|k: int|
            exceeds(behind_plus(s), k, max),
{
    let b = behind_plus(s);
    assert(s.skip(0) =~= s);
    assert(b.skip(0) =~= b);
    assert(b.take(0) =~= Seq::<char>::empty());
    lemma_scan_outcome(b, 0, max);
    if exists|k: int| breaks_off(b, k, max) {
        let k = choose|k: int| breaks_off(b, k, max);
        assert forall|j: int| !exceeds(b, j, max) by {
            if exceeds(b, j, max) {
                if j <= k {
                    assert(b.take(k).take(j) =~= b.take(j));
                    lemma_digits_value_grows(b.take(k), j);
                } else {
                    assert(is_digit(b[k]));
                }
            }
        }
    }
    if all_digits(b) && digits_value(b) <= max {
        assert forall|j: int| !exceeds(b, j, max) by {
            if exceeds(b, j, max) {
                lemma_digits_value_grows(b, j);
            }
        }
        assert forall|j: int| !breaks_off(b, j, max) by {
            if breaks_off(b, j, max) {
                assert(is_digit(b[j]));
            }
        }
    }
}

} // verus!
