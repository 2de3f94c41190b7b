//! Byte sizes: reading them with a suffix, and printing them for people.

use crate::number::{
    is_digit, law_printed_number_is_read_back, lemma_decimal_value, number, parse_usize,
    NumberError,
};
use crate::text::{
    chars_of, debug_quoted, decimal, decimal_text, digit, digit_text,
    law_digits_follow_each_other, law_trimming_keeps_what_is_between_the_space, quote, trim,
    trimmed, white_space, without_leading_space,
};
use vstd::arithmetic::power2::{lemma2_to64, lemma_pow2_unfold, pow2};
use vstd::prelude::*;
use vstd::string::*;

verus! {

/// What the last character of `t` multiplies a size by: `k`, `m` and `g`, in either case, are
/// the binary multiples, and any other character multiplies by one.
pub open spec fn multiplier(t: Seq<char>) -> nat {
    if t.len() == 0 {
        1
    } else if t.last() == 'k' || t.last() == 'K' {
        1024
    } else if t.last() == 'm' || t.last() == 'M' {
        1024 * 1024
    } else if t.last() == 'g' || t.last() == 'G' {
        1024 * 1024 * 1024
    } else {
        1
    }
}

/// `t` without the suffix that multiplies it.
pub open spec fn without_suffix(t: Seq<char>) -> Seq<char> {
    if multiplier(t) == 1 {
        t
    } else {
        t.drop_last()
    }
}

/// The size in bytes that `s` writes. White space may stand around the size, and between the
/// number and its suffix. The number itself is at most `usize::MAX`.
pub open spec fn size(s: Seq<char>) -> Result<nat, NumberError> {
    let t = trimmed(s);
    match number(trimmed(without_suffix(t)), usize::MAX as nat) {
        Ok(n) => Ok(n * multiplier(t)),
        Err(e) => Err(e),
    }
}

/// Whether `s` is no size, or one whose bytes can be counted in a `usize`.
pub open spec fn size_fits(s: Seq<char>) -> bool {
    size(s) matches Ok(n) ==> n <= usize::MAX
}

/// The message for a text, given in quotes, that is no size.
pub open spec fn invalid_size(quoted: Seq<char>, e: NumberError) -> Seq<char> {
    "invalid size "@ + quoted + ": "@ + e.description()
}

/// The message for a text, given in quotes, that is no size.
pub fn invalid_size_message(quoted: &str, e: NumberError) -> (r: String)
    ensures
        r@ == invalid_size(quoted@, e),
{
    let mut r = "invalid size ".to_owned();
    r.append(quoted);
    r.append(": ");
    r.append(e.describe());
    r
}

/// The number and the multiplier of the size that `s` writes.
fn read_size(s: &str) -> (r: Result<(usize, usize), NumberError>)
    ensures
        match r {
            Ok((n, m)) => {
                &&& size(s@) == Ok::<nat, NumberError>((n * m) as nat)
                &&& 1 <= m <= 1024 * 1024 * 1024
            },
            Err(e) => size(s@) == Err::<nat, NumberError>(e),
        },
{
    let t = trim(s);
    let cs = chars_of(t);
    let len: usize = cs.len();
    let m: usize = if len == 0 {
        1
    } else {
        let last = cs[len - 1];
        if last == 'k' || last == 'K' {
            1024
        } else if last == 'm' || last == 'M' {
            1024 * 1024
        } else if last == 'g' || last == 'G' {
            1024 * 1024 * 1024
        } else {
            1
        }
    };
    let digits = if m == 1 {
        t
    } else {
        t.substring_char(0, len - 1)
    };
    assert(digits@ =~= without_suffix(t@));
    match parse_usize(trim(digits)) {
        Ok(n) => {
            assert((n * m) as nat == n as nat * m as nat);
            Ok((n, m))
        },
        Err(e) => Err(e),
    }
}

/// Whether the bytes of the size `s` can be counted, or `s` is no size.
pub fn fits(s: &str) -> (r: bool)
    ensures
        r == size_fits(s@),
        !r <==> (size(s@) matches Ok(n) && n > usize::MAX),
{
    match read_size(s) {
        Ok((n, m)) => match n.checked_mul(m) {
            Some(_) => true,
            None => false,
        },
        Err(_) => true,
    }
}

/// Parse a byte size with an optional `k`/`m`/`g` suffix (binary multiples).
pub fn parse_size(s: &str) -> (r: Result<usize, String>)
    requires
        size_fits(s@),
    ensures
        match r {
            Ok(n) => size(s@) == Ok::<nat, NumberError>(n as nat),
            Err(m) => size(s@) matches Err(e) && m@ == invalid_size(debug_quoted(trimmed(s@)), e),
        },
{
    match read_size(s) {
        Ok((n, m)) => Ok(n * m),
        Err(e) => Err(invalid_size_message(quote(trim(s)).as_str(), e)),
    }
}

/// `a / b` to the nearest integer, and to the even one of the two where both are as near.
pub open spec fn round_half_even(a: nat, b: nat) -> nat
    recommends
        b > 0,
{
    if 2 * (a % b) < b {
        a / b
    } else if 2 * (a % b) > b {
        a / b + 1
    } else {
        a / b + (a / b) % 2
    }
}

/// The distance between neighbouring doubles at `n`: the smallest power of two of which `n`
/// holds fewer than 2^53.
pub open spec fn double_spacing(n: nat) -> nat
    decreases n,
{
    if n < 0x20_0000_0000_0000 {
        1
    } else {
        2 * double_spacing(n / 2)
    }
}

/// `n` as the nearest double, whose significand has 53 bits.
pub open spec fn nearest_double(n: nat) -> nat {
    round_half_even(n, double_spacing(n)) * double_spacing(n)
}

/// `1024` to the power of `i`.
pub open spec fn unit_bytes(i: nat) -> nat
    decreases i,
{
    if i == 0 {
        1
    } else {
        1024 * unit_bytes((i - 1) as nat)
    }
}

/// Which unit a size of `v` bytes is printed in: the largest of which it holds one, up to
/// `TiB`.
pub open spec fn unit_of(v: nat) -> nat {
    if v < 1024 {
        0
    } else if v < 1024 * 1024 {
        1
    } else if v < 1024 * 1024 * 1024 {
        2
    } else if v < 1024 * 1024 * 1024 * 1024 {
        3
    } else {
        4
    }
}

/// The name of the `i`th unit.
pub open spec fn unit_name(i: nat) -> Seq<char> {
    if i == 0 {
        "B"@
    } else if i == 1 {
        "KiB"@
    } else if i == 2 {
        "MiB"@
    } else if i == 3 {
        "GiB"@
    } else {
        "TiB"@
    }
}

/// `h` hundredths, with two digits behind the point.
pub open spec fn two_places(h: nat) -> Seq<char> {
    decimal(h / 100) + "."@ + seq![digit((h / 10 % 10) as int)] + seq![digit((h % 10) as int)]
}

/// A size of `n` bytes for people: below a KiB the exact count; from there on a double's
/// worth of `n` in the largest unit that fits, to two places.
pub open spec fn human(n: nat) -> Seq<char> {
    let v = nearest_double(n);
    let i = unit_of(v);
    if i == 0 {
        decimal(n) + " "@ + unit_name(0)
    } else {
        two_places(round_half_even(100 * v, unit_bytes(i))) + " "@ + unit_name(i)
    }
}

fn unit_text(i: u64) -> (r: &'static str)
    ensures
        r@ == unit_name(i as nat),
{
    if i == 0 {
        "B"
    } else if i == 1 {
        "KiB"
    } else if i == 2 {
        "MiB"
    } else if i == 3 {
        "GiB"
    } else {
        "TiB"
    }
}

fn rounded(a: u128, b: u128) -> (r: u128)
    requires
        0 < b <= 0x1_0000_0000_0000_0000,
        a <= 0x1_0000_0000_0000_0000_00,
    ensures
        r == round_half_even(a as nat, b as nat),
        r <= a / b + 1,
{
    let q: u128 = a / b;
    let rest: u128 = a % b;
    if 2 * rest < b {
        q
    } else if 2 * rest > b {
        q + 1
    } else {
        q + q % 2
    }
}

fn spacing(n: u64) -> (r: u64)
    ensures
        r == double_spacing(n as nat),
        1 <= r < 0x1000,
        n < 0x20_0000_0000_0000 * r,
        r > 1 ==> n >= 0x10_0000_0000_0000 * r,
    decreases n,
{
    if n < 0x20_0000_0000_0000 {
        1
    } else {
        let half = spacing(n / 2);
        2 * half
    }
}

/// A byte count with a binary unit, for people.
pub fn human_bytes(n: u64) -> (r: String)
    ensures
        r@ == human(n as nat),
{
    let gap: u64 = spacing(n);
    let units: u128 = rounded(n as u128, gap as u128);
    proof {
        vstd::arithmetic::div_mod::lemma_fundamental_div_mod(n as int, gap as int);
        let q: int = n as int / gap as int;
        assert(units * gap <= gap * q + gap) by (nonlinear_arith)
            requires
                units <= q + 1,
                0 < gap,
        ;
    }
    let v: u128 = units * (gap as u128);
    assert(v == nearest_double(n as nat));
    let (i, unit): (u64, u128) = if v < 0x400 {
        (0, 1)
    } else if v < 0x10_0000 {
        (1, 0x400)
    } else if v < 0x4000_0000 {
        (2, 0x10_0000)
    } else if v < 0x100_0000_0000 {
        (3, 0x4000_0000)
    } else {
        (4, 0x100_0000_0000)
    };
    proof {
        reveal_with_fuel(unit_bytes, 5);
        assert(i == unit_of(v as nat));
        assert(unit == unit_bytes(i as nat));
    }
    if i == 0 {
        let mut r = decimal_text(n);
        r.append(" ");
        r.append(unit_text(0));
        r
    } else {
        let rounded_hundredths: u128 = rounded(100 * v, unit);
        assert(rounded_hundredths <= u64::MAX);
        let h: u64 = rounded_hundredths as u64;
        let mut r = decimal_text(h / 100);
        r.append(".");
        r.append(digit_text((h / 10 % 10) as usize));
        r.append(digit_text((h % 10) as usize));
        r.append(" ");
        r.append(unit_text(i));
        assert(h == round_half_even(100 * v as nat, unit as nat));
        r
    }
}

proof fn lemma_leading_space_of_push(t: Seq<char>, c: char)
    requires
        !white_space(c),
    ensures
        without_leading_space(t.push(c)) == without_leading_space(t).push(c),
    decreases t.len(),
{
    if t.len() > 0 && white_space(t[0]) {
        assert(t.push(c).drop_first() =~= t.drop_first().push(c));
        lemma_leading_space_of_push(t.drop_first(), c);
    }
}

proof fn lemma_trimmed_push(t: Seq<char>, c: char)
    requires
        !white_space(c),
    ensures
        trimmed(t.push(c)) == without_leading_space(t).push(c),
{
    lemma_leading_space_of_push(t, c);
}

/// The case of a suffix does not matter.
pub proof fn law_suffix_case_is_ignored(t: Seq<char>)
    ensures
        size(t.push('k')) == size(t.push('K')),
        size(t.push('m')) == size(t.push('M')),
        size(t.push('g')) == size(t.push('G')),
{
    let u = without_leading_space(t);
    assert forall|c: char| !white_space(c) implies #[trigger] trimmed(t.push(c)) == u.push(c)
        && u.push(c).drop_last() == u by {
        lemma_trimmed_push(t, c);
        assert(u.push(c).drop_last() =~= u);
    }
}

/// A plain number is that many bytes, and `k`, `m` and `g` behind it are binary multiples.
pub proof fn law_suffixes_are_binary_multiples(n: nat)
    requires
        n <= usize::MAX,
    ensures
        size(decimal(n)) == Ok::<nat, NumberError>(n),
        size(decimal(n).push('k')) == Ok::<nat, NumberError>(n * 1024),
        size(decimal(n).push('m')) == Ok::<nat, NumberError>(n * (1024 * 1024)),
        size(decimal(n).push('g')) == Ok::<nat, NumberError>(n * (1024 * 1024 * 1024)),
{
    let d = decimal(n);
    lemma_decimal_value(n);
    assert(is_digit(d[0]) && is_digit(d.last()));
    law_printed_number_is_read_back(n, usize::MAX as nat);
    assert(trimmed(d) == d);
    assert(multiplier(d) == 1);
    assert(n * multiplier(d) == n);
    assert forall|c: char| !white_space(c) implies #[trigger] trimmed(d.push(c)) == d.push(c)
        && d.push(c).drop_last() == d by {
        lemma_trimmed_push(d, c);
        assert(d.push(c).drop_last() =~= d);
    }
}

proof fn lemma_space_around(s: Seq<char>, w: char)
    requires
        white_space(w),
    ensures
        trimmed(seq![w] + s) == trimmed(s),
        trimmed(s.push(w)) == trimmed(s),
    decreases s.len(),
{
    assert((seq![w] + s).drop_first() =~= s);
    if s.len() == 0 {
        assert(s.push(w).drop_first() =~= s);
    } else if white_space(s[0]) {
        assert(s.push(w).drop_first() =~= s.drop_first().push(w));
        lemma_space_around(s.drop_first(), w);
    } else {
        assert(s.push(w).drop_last() =~= s);
    }
}

/// White space before or behind a size is ignored.
pub proof fn law_space_around_a_size_is_ignored(s: Seq<char>, w: char)
    requires
        white_space(w),
    ensures
        size(seq![w] + s) == size(s),
        size(s.push(w)) == size(s),
{
    lemma_space_around(s, w);
}

/// Below 2^53 bytes the printed hundredths are those nearest to the true size.
pub proof fn law_printed_size_is_nearest(n: nat)
    requires
        1024 <= n < 0x20_0000_0000_0000,
    ensures
        ({
            let i = unit_of(n);
            let unit = unit_bytes(i);
            let h = round_half_even(100 * n, unit);
            &&& human(n) == two_places(h) + " "@ + unit_name(i)
            &&& -(unit as int) <= 2 * (h * unit - 100 * n) <= unit
        }),
{
    let i = unit_of(n);
    let unit = unit_bytes(i);
    assert(double_spacing(n) == 1);
    assert(round_half_even(n, 1) == n);
    assert(nearest_double(n) == n * 1);
    reveal_with_fuel(unit_bytes, 5);
    let a = (100 * n) as int;
    let u = unit as int;
    vstd::arithmetic::div_mod::lemma_fundamental_div_mod(a, u);
    let q = a / u;
    assert((q + 1) * u == q * u + u) by (nonlinear_arith);
    assert(u * q == q * u) by (nonlinear_arith);
}

/// `r` with its number multiplied by `m`.
pub open spec fn times(r: Result<nat, NumberError>, m: nat) -> Result<nat, NumberError> {
    match r {
        Ok(n) => Ok(n * m),
        Err(e) => Err(e),
    }
}

proof fn lemma_leading_space_twice(s: Seq<char>)
    ensures
        without_leading_space(without_leading_space(s)) == without_leading_space(s),
    decreases s.len(),
{
    if s.len() > 0 && white_space(s[0]) {
        lemma_leading_space_twice(s.drop_first());
    }
}

/// A suffix behind any text multiplies the number in the text: `k` by 1024, and each of `m` and
/// `g` by 1024 times the one before it. Where the text holds no number, neither does it with
/// the suffix, for the same reason.
pub proof fn law_suffix_multiplies_the_number(t: Seq<char>)
    ensures
        ({
            let plain = number(trimmed(t), usize::MAX as nat);
            &&& size(t.push('k')) == times(plain, 1024)
            &&& size(t.push('K')) == times(plain, 1024)
            &&& size(t.push('m')) == times(plain, 1_048_576)
            &&& size(t.push('M')) == times(plain, 1_048_576)
            &&& size(t.push('g')) == times(plain, 1_073_741_824)
            &&& size(t.push('G')) == times(plain, 1_073_741_824)
        }),
{
    let u = without_leading_space(t);
    lemma_leading_space_twice(t);
    assert(trimmed(u) == trimmed(t));
    assert forall|c: char| !white_space(c) implies #[trigger] trimmed(t.push(c)) == u.push(c)
        && u.push(c).drop_last() == u by {
        lemma_trimmed_push(t, c);
        assert(u.push(c).drop_last() =~= u);
    }
}

/// A text that does not end in a suffix, but for white space, is a plain number of bytes or no
/// size.
pub proof fn law_size_without_suffix_is_a_number(s: Seq<char>)
    requires
        ({
            let t = trimmed(s);
            t.len() == 0 || !(t.last() == 'k' || t.last() == 'K' || t.last() == 'm' || t.last()
                == 'M' || t.last() == 'g' || t.last() == 'G')
        }),
    ensures
        size(s) == number(trimmed(s), usize::MAX as nat),
{
    let t = trimmed(s);
    lemma_trimmed_twice(s);
    if let Ok(n) = number(t, usize::MAX as nat) {
        assert(n * 1 == n);
    }
}

proof fn lemma_trimmed_twice(s: Seq<char>)
    ensures
        trimmed(trimmed(s)) == trimmed(s),
{
    let (a, b) = law_trimming_keeps_what_is_between_the_space(s);
    let t = trimmed(s);
    if t.len() > 0 {
        assert(t[0] == s[a]);
        assert(t.last() == s[b - 1]);
    }
}

/// The message for a text that is no size holds the text as it was quoted, and the reason.
pub proof fn law_invalid_size_is_quoted_with_its_reason(quoted: Seq<char>, e: NumberError)
    ensures
        invalid_size(quoted, e) == "invalid size "@ + quoted + ": "@ + match e {
            NumberError::Empty => "cannot parse integer from empty string"@,
            NumberError::InvalidDigit => "invalid digit found in string"@,
            NumberError::TooLarge => "number too large to fit in target type"@,
        },
{
}

/// Whether `q` is the integer nearest to `a / b`, and the even one of two that are as near.
pub open spec fn is_nearest(q: nat, a: nat, b: nat) -> bool {
    let off = 2 * (q * b - a);
    &&& -(b as int) <= off <= b
    &&& off == b || off == -(b as int) ==> q % 2 == 0
}

/// Whether `v` is the double nearest to `n`: a multiple `q` of a power of two, `gap`, of which
/// `n` holds at least 2^52 (unless it is one) and fewer than 2^53.
pub open spec fn is_double(v: nat, n: nat, gap: nat, q: nat) -> bool {
    &&& exists|k: nat| gap == #[trigger] pow2(k)
    &&& gap == 1 || n >= 0x10_0000_0000_0000 * gap
    &&& n < 0x20_0000_0000_0000 * gap
    &&& is_nearest(q, n, gap)
    &&& v == q * gap
}

proof fn lemma_rounding_is_nearest(a: nat, b: nat)
    requires
        b > 0,
    ensures
        is_nearest(round_half_even(a, b), a, b),
{
    let x = a as int;
    let y = b as int;
    vstd::arithmetic::div_mod::lemma_fundamental_div_mod(x, y);
    let q = x / y;
    assert((q + 1) * y == q * y + y) by (nonlinear_arith);
    assert(y * q == q * y) by (nonlinear_arith);
    assert((q + 0) * y == q * y);
}

proof fn lemma_spacing(n: nat)
    ensures
        exists|k: nat| double_spacing(n) == #[trigger] pow2(k),
        double_spacing(n) >= 1,
        double_spacing(n) == 1 || n >= 0x10_0000_0000_0000 * double_spacing(n),
        n < 0x20_0000_0000_0000 * double_spacing(n),
    decreases n,
{
    lemma2_to64();
    if n < 0x20_0000_0000_0000 {
        assert(double_spacing(n) == pow2(0));
    } else {
        lemma_spacing(n / 2);
        let k = choose|k: nat| double_spacing(n / 2) == #[trigger] pow2(k);
        lemma_pow2_unfold(k + 1);
        assert(double_spacing(n) == pow2(k + 1));
    }
}

/// A size for people. Below 1024 it is the number of bytes. From there on it is the number of
/// hundredths `h` nearest to the double `v` nearest to `n`, in the largest of four units that
/// `v` holds once, with a point before the last two digits. Gives `v`, `h` and how `v` comes
/// about.
pub proof fn law_how_sizes_are_printed(n: nat) -> (r: (nat, nat, nat, nat))
    ensures
        n < 1024 ==> human(n) == decimal(n) + " B"@,
        n >= 1024 ==> {
            let (v, h, gap, q) = r;
            let (unit, name) = if v < 1_048_576 {
                (1024nat, " KiB"@)
            } else if v < 1_073_741_824 {
                (1_048_576nat, " MiB"@)
            } else if v < 1_099_511_627_776 {
                (1_073_741_824nat, " GiB"@)
            } else {
                (1_099_511_627_776nat, " TiB"@)
            };
            let tenths = ('0' as int + h / 10 % 10) as char;
            let hundredths = ('0' as int + h % 10) as char;
            &&& is_double(v, n, gap, q)
            &&& is_nearest(h, 100 * v, unit)
            &&& human(n) == decimal(h / 100) + seq!['.', tenths, hundredths] + name
        },
{
    lemma_spacing(n);
    let gap = double_spacing(n);
    let q = round_half_even(n, gap);
    let v = q * gap;
    lemma_rounding_is_nearest(n, gap);
    reveal_with_fuel(unit_bytes, 5);
    reveal_strlit(" ");
    reveal_strlit(".");
    reveal_strlit("B");
    reveal_strlit("KiB");
    reveal_strlit("MiB");
    reveal_strlit("GiB");
    reveal_strlit("TiB");
    reveal_strlit(" B");
    reveal_strlit(" KiB");
    reveal_strlit(" MiB");
    reveal_strlit(" GiB");
    reveal_strlit(" TiB");
    if n < 0x20_0000_0000_0000 {
        assert(gap == 1);
        assert(q == n);
        assert(v == n);
    } else {
        assert(v >= 1024) by {
            assert(2 * (q * gap - n) >= -(gap as int));
        }
    }
    if n < 1024 {
        assert(human(n) =~= decimal(n) + " B"@);
        (v, 0, gap, q)
    } else {
        let i = unit_of(v);
        let unit = unit_bytes(i);
        let h = round_half_even(100 * v, unit);
        lemma_rounding_is_nearest(100 * v, unit);
        law_digits_follow_each_other((h / 10 % 10) as int);
        law_digits_follow_each_other((h % 10) as int);
        let tenths = ('0' as int + h / 10 % 10) as char;
        let hundredths = ('0' as int + h % 10) as char;
        assert(digit((h / 10 % 10) as int) == tenths);
        assert(digit((h % 10) as int) == hundredths);
        let whole = decimal(h / 100);
        assert(two_places(h) =~= whole + seq!['.', tenths, hundredths]);
        assert(" "@ + unit_name(1) =~= " KiB"@);
        assert(" "@ + unit_name(2) =~= " MiB"@);
        assert(" "@ + unit_name(3) =~= " GiB"@);
        assert(" "@ + unit_name(4) =~= " TiB"@);
        assert(human(n) =~= two_places(h) + (" "@ + unit_name(i)));
        (v, h, gap, q)
    }
}

} // verus!
