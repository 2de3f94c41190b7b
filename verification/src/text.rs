//! Strings: comparison, white space, decimal rendering, quoting.

use vstd::arithmetic::div_mod::lemma_div_denominator;
use vstd::arithmetic::power::{lemma_pow0, lemma_pow1, lemma_pow_positive, pow};
use vstd::prelude::*;
use vstd::string::*;

verus! {

/// Whether `a` and `b` hold the same characters.
pub fn same(a: &str, b: &str) -> (r: bool)
    ensures
        r == (a@ == b@),
{
    a.to_owned() == b.to_owned()
}

/// The characters of `s`, in order.
pub fn chars_of(s: &str) -> (r: Vec<char>)
    ensures
        r@ == s@,
{
    let mut r: Vec<char> = Vec::new();
    for c in it: s.chars()
        invariant
            r@ == s@.take(it.index() as int),
            it.seq() == s@,
    {
        r.push(c);
    }
    r
}

/// The code point of `c`.
pub fn code(c: char) -> (n: u32)
    ensures
        n == c as int,
{
    c as u32
}

/// The Unicode property `White_Space`, by code point.
pub open spec fn white_space_code(n: int) -> bool {
    ||| 0x9 <= n <= 0xd
    ||| n == 0x20
    ||| n == 0x85
    ||| n == 0xa0
    ||| n == 0x1680
    ||| 0x2000 <= n <= 0x200a
    ||| n == 0x2028
    ||| n == 0x2029
    ||| n == 0x202f
    ||| n == 0x205f
    ||| n == 0x3000
}

/// Whether `c` is white space.
pub open spec fn white_space(c: char) -> bool {
    white_space_code(c as int)
}

/// Whether `c` has the Unicode property `White_Space`.
pub fn is_white_space(c: char) -> (r: bool)
    ensures
        r == white_space(c),
{
    let n: u32 = code(c);
    (0x9 <= n && n <= 0xd) || n == 0x20 || n == 0x85 || n == 0xa0 || n == 0x1680 || (0x2000 <= n
        && n <= 0x200a) || n == 0x2028 || n == 0x2029 || n == 0x202f || n == 0x205f || n == 0x3000
}

/// `s` without the white space it starts with.
pub open spec fn without_leading_space(s: Seq<char>) -> Seq<char>
    decreases s.len(),
{
    if s.len() > 0 && white_space(s[0]) {
        without_leading_space(s.drop_first())
    } else {
        s
    }
}

/// `s` without the white space it ends with.
pub open spec fn without_trailing_space(s: Seq<char>) -> Seq<char>
    decreases s.len(),
{
    if s.len() > 0 && white_space(s.last()) {
        without_trailing_space(s.drop_last())
    } else {
        s
    }
}

/// `s` without the white space around it.
pub open spec fn trimmed(s: Seq<char>) -> Seq<char> {
    without_trailing_space(without_leading_space(s))
}

/// `s` without the white space around it.
pub fn trim(s: &str) -> (r: &str)
    ensures
        r@ == trimmed(s@),
{
    let cs = chars_of(s);
    let mut from: usize = 0;
    assert(s@.skip(0) =~= s@);
    while from < cs.len() && is_white_space(cs[from])
        invariant
            cs@ == s@,
            from <= cs.len(),
            without_leading_space(s@) == without_leading_space(s@.skip(from as int)),
        decreases cs.len() - from,
    {
        proof {
            assert(s@.skip(from as int).drop_first() =~= s@.skip(from + 1));
        }
        from += 1;
    }
    let mut to: usize = cs.len();
    let ghost body = s@.skip(from as int);
    assert(body =~= s@.subrange(from as int, to as int));
    while from < to && is_white_space(cs[to - 1])
        invariant
            cs@ == s@,
            from <= to <= cs.len(),
            without_trailing_space(body) == without_trailing_space(
                s@.subrange(from as int, to as int),
            ),
        decreases to,
    {
        proof {
            assert(s@.subrange(from as int, to as int).drop_last() =~= s@.subrange(
                from as int,
                to - 1,
            ));
        }
        to -= 1;
    }
    s.substring_char(from, to)
}

/// The character that stands for the digit `d`.
pub open spec fn digit(d: int) -> char {
    "0123456789"@[d]
}

/// `n` in decimal, without leading zeros.
pub open spec fn decimal(n: nat) -> Seq<char>
    decreases n,
{
    if n < 10 {
        seq![digit(n as int)]
    } else {
        decimal(n / 10).push(digit((n % 10) as int))
    }
}

/// The digit `d` as a string.
pub fn digit_text(d: usize) -> (r: &'static str)
    requires
        d < 10,
    ensures
        r@ == seq![digit(d as int)],
{
    proof {
        reveal_strlit("0123456789");
    }
    let r = "0123456789".substring_char(d, d + 1);
    assert(r@ =~= seq![digit(d as int)]);
    r
}

/// `n` in decimal.
pub fn decimal_text(n: u64) -> (r: String)
    ensures
        r@ == decimal(n as nat),
    decreases n,
{
    if n < 10 {
        digit_text(n as usize).to_owned()
    } else {
        let mut r = decimal_text(n / 10);
        let last = digit_text((n % 10) as usize);
        r.append(last);
        assert(r@ =~= decimal(n as nat));
        r
    }
}

/// What `{:?}` prints for a string that holds `s`: the string in double quotes, with what
/// is not printable escaped.
pub uninterp spec fn debug_quoted(s: Seq<char>) -> Seq<char>;

/// Formats `s` with `{:?}`, std's `Debug` of `str`. The text depends on the characters of `s`
/// alone; which of them are escaped, and how, is left to std.
#[verifier::external_body]
pub(crate) fn quote(s: &str) -> (r: String)
    ensures
        r@ == debug_quoted(s@),
{
    format!("{:?}", s)
}

/// A digit is the character that many places behind `0`.
pub proof fn law_digits_follow_each_other(d: int)
    requires
        0 <= d < 10,
    ensures
        digit(d) as int == '0' as int + d,
{
    reveal_strlit("0123456789");
}

/// `decimal` writes in base ten: the digit in the place of weight `10^k`, counted from the
/// right, is that of `n` in this place; and there are just as many digits as `n` needs, one at
/// least.
pub proof fn law_decimal_writes_in_base_ten(n: nat, k: nat)
    ensures
        decimal(n).len() >= 1,
        n < pow(10, decimal(n).len()),
        decimal(n).len() > 1 ==> pow(10, (decimal(n).len() - 1) as nat) <= n,
        k < decimal(n).len() ==> decimal(n)[decimal(n).len() - 1 - k] as int == '0' as int + (
        n as int / pow(10, k)) % 10,
    decreases n,
{
    reveal(pow);
    lemma_pow0(10);
    lemma_pow1(10);
    if n < 10 {
        law_digits_follow_each_other(n as int);
    } else {
        let m = n / 10;
        let len = decimal(m).len();
        law_digits_follow_each_other((n % 10) as int);
        law_decimal_writes_in_base_ten(m, 0);
        assert(pow(10, len + 1) == 10 * pow(10, len));
        assert(pow(10, len) == 10 * pow(10, (len - 1) as nat));
        if 0 < k <= len {
            let j = (k - 1) as nat;
            law_decimal_writes_in_base_ten(m, j);
            lemma_pow_positive(10, j);
            lemma_div_denominator(n as int, 10, pow(10, j));
            assert(pow(10, k) == 10 * pow(10, j));
            assert(decimal(n)[len - k] == decimal(m)[len - 1 - j]);
        }
    }
}

/// What trimming keeps of a text is one stretch of it: there is only white space before and
/// behind the stretch, and it neither starts nor ends with any. Gives the stretch.
pub proof fn law_trimming_keeps_what_is_between_the_space(s: Seq<char>) -> (r: (int, int))
    ensures
        0 <= r.0 <= r.1 <= s.len(),
        trimmed(s) == s.subrange(r.0, r.1),
        forall|i: int| 0 <= i < r.0 || r.1 <= i < s.len() ==> white_space(#[trigger] s[i]),
        r.0 < r.1 ==> !white_space(s[r.0]) && !white_space(s[r.1 - 1]),
    decreases s.len(),
{
    if s.len() == 0 {
        assert(trimmed(s) =~= s.subrange(0, 0));
        (0, 0)
    } else if white_space(s[0]) {
        let rest = s.drop_first();
        let (a, b) = law_trimming_keeps_what_is_between_the_space(rest);
        assert(rest.subrange(a, b) =~= s.subrange(a + 1, b + 1));
        assert forall|i: int| 0 <= i < a + 1 || b + 1 <= i < s.len() implies white_space(
            #[trigger] s[i],
        ) by {
            if i > 0 {
                assert(rest[i - 1] == s[i]);
            }
        }
        (a + 1, b + 1)
    } else {
        let b = lemma_trailing_space(s);
        (0, b)
    }
}

proof fn lemma_trailing_space(s: Seq<char>) -> (b: int)
    requires
        s.len() > 0,
        !white_space(s[0]),
    ensures
        0 < b <= s.len(),
        without_trailing_space(s) == s.subrange(0, b),
        forall|i: int| b <= i < s.len() ==> white_space(#[trigger] s[i]),
        !white_space(s[b - 1]),
    decreases s.len(),
{
    if white_space(s.last()) {
        let rest = s.drop_last();
        let b = lemma_trailing_space(rest);
        assert(rest.subrange(0, b) =~= s.subrange(0, b));
        assert forall|i: int| b <= i < s.len() implies white_space(#[trigger] s[i]) by {
            if i < rest.len() {
                assert(rest[i] == s[i]);
            }
        }
        b
    } else {
        assert(s.subrange(0, s.len() as int) =~= s);
        s.len() as int
    }
}

/// A line with the text `s`.
pub open spec fn line(s: Seq<char>) -> Seq<char> {
    s.push('\n')
}

/// A line with the text `s` where there is one, and nothing else.
pub open spec fn line_if(there: bool, s: Seq<char>) -> Seq<char> {
    if there {
        line(s)
    } else {
        Seq::<char>::empty()
    }
}

} // verus!
