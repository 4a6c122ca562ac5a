//! Numbers written in decimal, and read back.

use vstd::prelude::*;

use crate::binary64::writing::ten_to;
use crate::text::chars_of;

verus! {

// ── Writing ──────────────────────────────────────────────────────────────

/// The character of a decimal digit.
pub open spec fn digit_char(d: int) -> char {
    (48 + d) as char
}

/// `n` in decimal, without leading zeros.
pub open spec fn dec(n: nat) -> Seq<char>
    decreases n,
{
    if n < 10 {
        seq![digit_char(n as int)]
    } else {
        dec(n / 10).push(digit_char((n % 10) as int))
    }
}

/// `n` in decimal, with a minus sign where it is negative.
pub open spec fn dec_signed(n: int) -> Seq<char> {
    if n < 0 {
        "-"@ + dec((-n) as nat)
    } else {
        dec(n as nat)
    }
}

/// The last `width` decimal digits of `n`, with leading zeros.
pub open spec fn zero_padded(n: nat, width: nat) -> Seq<char>
    decreases width,
{
    if width == 0 {
        Seq::empty()
    } else {
        zero_padded(n / 10, (width - 1) as nat).push(digit_char((n % 10) as int))
    }
}

pub(crate) fn digit(d: u8) -> (c: char)
    requires
        d < 10,
    ensures
        c == digit_char(d as int),
{
    (48 + d) as char
}

/// `n` in decimal.
pub fn decimal(n: u128) -> (out: String)
    ensures
        out@ == dec(n as nat),
    decreases n,
{
    if n < 10 {
        let mut out = String::new();
        out.push(digit(n as u8));
        proof {
            assert(out@ =~= seq![digit_char(n as int)]);
        }
        out
    } else {
        let mut out = decimal(n / 10);
        out.push(digit((n % 10) as u8));
        out
    }
}

/// `n` in decimal, with a minus sign where it is negative.
pub fn decimal_signed(n: i128) -> (out: String)
    requires
        n > i128::MIN,
    ensures
        out@ == dec_signed(n as int),
{
    if n < 0 {
        let mut out = "-".to_owned();
        out.append(decimal((-n) as u128).as_str());
        out
    } else {
        decimal(n as u128)
    }
}

/// The last `width` decimal digits of `n`, with leading zeros.
pub fn padded(n: u128, width: usize) -> (out: String)
    ensures
        out@ == zero_padded(n as nat, width as nat),
    decreases width,
{
    if width == 0 {
        String::new()
    } else {
        let mut out = padded(n / 10, width - 1);
        out.push(digit((n % 10) as u8));
        out
    }
}

// ── Reading ──────────────────────────────────────────────────────────────

/// Whether a character is one of `0` to `9`.
pub open spec fn is_digit(c: char) -> bool {
    48 <= c as u32 <= 57
}

/// Whether every character is a decimal digit.
pub open spec fn all_digits(s: Seq<char>) -> bool {
    forall|i: int| 0 <= i < s.len() ==> is_digit(#[trigger] s[i])
}

/// The number that a row of decimal digits stands for.
pub open spec fn digits_value(s: Seq<char>) -> nat
    decreases s.len(),
{
    if s.len() == 0 {
        0
    } else {
        digits_value(s.drop_last()) * 10 + (s.last() as u32 - 48) as nat
    }
}

/// `s` without the plus sign that a number may begin with.
pub open spec fn unsigned_part(s: Seq<char>) -> Seq<char> {
    if s.len() > 0 && s[0] == '+' {
        s.drop_first()
    } else {
        s
    }
}

/// What an unsigned decimal number reads as: digits, at least one, after an
/// optional plus sign, and at most `max` in value.
pub open spec fn read_number(s: Seq<char>, max: nat) -> Option<nat> {
    let d = unsigned_part(s);
    if d.len() > 0 && all_digits(d) && digits_value(d) <= max {
        Some(digits_value(d))
    } else {
        None
    }
}

proof fn lemma_value_grows(s: Seq<char>, k: int)
    requires
        0 <= k <= s.len(),
        all_digits(s),
    ensures
        digits_value(s.take(k)) <= digits_value(s),
    decreases s.len(),
{
    if k < s.len() {
        assert(s.drop_last().take(k) =~= s.take(k));
        lemma_value_grows(s.drop_last(), k);
    } else {
        assert(s.take(k) =~= s);
    }
}

/// The number that `s` stands for, if it stands for one that is at most `max`.
pub fn parse_up_to(s: &str, max: u64) -> (r: Option<u64>)
    ensures
        match r {
            Some(n) => read_number(s@, max as nat) == Some(n as nat),
            None => read_number(s@, max as nat) is None,
        },
{
    let cs = chars_of(s);
    let start: usize = if cs.len() > 0 && cs[0] == '+' { 1 } else { 0 };
    let ghost d = unsigned_part(s@);
    proof {
        assert(d =~= cs@.subrange(start as int, cs@.len() as int));
    }
    if start == cs.len() {
        return None;
    }
    let mut value: u64 = 0;
    let mut i: usize = start;
    while i < cs.len()
        invariant
            cs@ == s@,
            start <= i <= cs.len(),
            d == unsigned_part(s@),
            d == cs@.subrange(start as int, cs@.len() as int),
            d.len() > 0,
            all_digits(d.take(i - start)),
            value == digits_value(d.take(i - start)),
            value <= max,
        decreases cs.len() - i,
    {
        let c = cs[i];
        let n: u32 = c as u32;
        let ghost now = d.take(i - start + 1);
        proof {
            assert(now.drop_last() =~= d.take(i - start));
            assert(now.last() == c);
            assert(d[i - start] == c);
        }
        if n < 48 || n > 57 {
            return None;
        }
        proof {
            assert(all_digits(now)) by {
                assert forall|j: int| 0 <= j < now.len() implies is_digit(#[trigger] now[j]) by {
                    if j < i - start {
                        assert(now[j] == d.take(i - start)[j]);
                    }
                }
            }
            if all_digits(d) {
                lemma_value_grows(d, i - start + 1);
            }
        }
        let step: u128 = value as u128 * 10 + (n - 48) as u128;
        if step > max as u128 {
            return None;
        }
        value = step as u64;
        i += 1;
    }
    proof {
        assert(d.take(i - start) =~= d);
    }
    Some(value)
}

/// The `u32` that `s` stands for.
pub fn parse_u32(s: &str) -> (r: Option<u32>)
    ensures
        match r {
            Some(n) => read_number(s@, u32::MAX as nat) == Some(n as nat),
            None => read_number(s@, u32::MAX as nat) is None,
        },
{
    match parse_up_to(s, 0xffff_ffff) {
        Some(n) => Some(n as u32),
        None => None,
    }
}

/// The `u64` that `s` stands for.
pub fn parse_u64(s: &str) -> (r: Option<u64>)
    ensures
        match r {
            Some(n) => read_number(s@, u64::MAX as nat) == Some(n as nat),
            None => read_number(s@, u64::MAX as nat) is None,
        },
{
    parse_up_to(s, 0xffff_ffff_ffff_ffff)
}

// ── Laws ─────────────────────────────────────────────────────────────────

/// A number in decimal is a row of digits, at least one, and stands for the number.
pub proof fn lemma_dec(n: nat)
    ensures
        dec(n).len() > 0,
        all_digits(dec(n)),
        digits_value(dec(n)) == n,
    decreases n,
{
    if n < 10 {
        assert(dec(n).drop_last() =~= Seq::empty());
        assert(digits_value(dec(n).drop_last()) == 0);
    } else {
        lemma_dec(n / 10);
        assert(dec(n).drop_last() =~= dec(n / 10));
    }
}

/// Reading gives back what was written: the decimal text of a number that is
/// not over the limit reads as that number.
pub proof fn law_number_round_trip(n: nat, max: nat)
    requires
        n <= max,
    ensures
        read_number(dec(n), max) == Some(n),
{
    lemma_dec(n);
    assert(is_digit(dec(n)[0]));
}

/// Two numbers with the same decimal text are the same number.
pub proof fn law_decimal_injective(a: nat, b: nat)
    requires
        dec(a) == dec(b),
    ensures
        a == b,
{
    lemma_dec(a);
    lemma_dec(b);
}

/// A number in decimal begins with no zero, unless it is zero.
pub proof fn law_no_leading_zero(n: nat)
    ensures
        n > 0 ==> dec(n)[0] != '0',
        dec(0) == seq!['0'],
    decreases n,
{
    if n >= 10 {
        law_no_leading_zero(n / 10);
        lemma_dec(n / 10);
        assert(dec(n)[0] == dec(n / 10)[0]);
    }
}

/// A row of digits counts by tens: the last digit counts one, each other ten
/// times what it would count in the place behind it.
pub proof fn law_digits_count_by_tens(s: Seq<char>, c: char)
    requires
        '0' <= c <= '9',
    ensures
        digits_value(Seq::empty()) == 0,
        digits_value(s.push(c)) == 10 * digits_value(s) + (c as int - '0' as int),
{
    assert(s.push(c).drop_last() =~= s);
}

/// A row of digits reads as the number that it stands for, with or without a
/// plus sign before it, unless that is above the limit.
pub proof fn law_digits_are_read(s: Seq<char>, max: nat)
    requires
        s.len() > 0,
        forall|i: int| 0 <= i < s.len() ==> '0' <= #[trigger] s[i] <= '9',
    ensures
        digits_value(s) <= max ==> read_number(s, max) == Some(digits_value(s)) && read_number(
            seq!['+'] + s,
            max,
        ) == Some(digits_value(s)),
        digits_value(s) > max ==> read_number(s, max) is None && read_number(
            seq!['+'] + s,
            max,
        ) is None,
{
    assert((seq!['+'] + s).drop_first() =~= s);
    assert('0' <= s[0] <= '9');
    assert forall|i: int| 0 <= i < s.len() implies is_digit(#[trigger] s[i]) by {}
}

/// A text with anything but digits, behind the plus sign that it may begin
/// with, reads as no number, and neither does one without a digit.
pub proof fn law_other_texts_are_no_numbers(s: Seq<char>, max: nat, i: int)
    requires
        s.len() == 0 || s == seq!['+'] || (0 <= i < s.len() && !('0' <= s[i] <= '9') && (i > 0
            || s[0] != '+')),
    ensures
        read_number(s, max) is None,
{
    let d = unsigned_part(s);
    if s == seq!['+'] {
        assert(d =~= Seq::empty());
    } else if s.len() > 0 {
        if s[0] == '+' {
            assert(d[i - 1] == s[i]);
            lemma_is_digit(d[i - 1]);
        } else {
            lemma_is_digit(d[i]);
        }
    }
}

proof fn lemma_is_digit(c: char)
    ensures
        is_digit(c) <==> '0' <= c <= '9',
{
}

/// The last digits of a number, with leading zeros: as many as asked for, and
/// they stand for what is left of the number over that power of ten.
pub proof fn law_zero_padded(n: nat, width: nat)
    ensures
        zero_padded(n, width).len() == width,
        forall|i: int| 0 <= i < width ==> '0' <= #[trigger] zero_padded(n, width)[i] <= '9',
        n < ten_to(width) ==> digits_value(zero_padded(n, width)) == n,
    decreases width,
{
    if width > 0 {
        let before = zero_padded(n / 10, (width - 1) as nat);
        law_zero_padded(n / 10, (width - 1) as nat);
        assert(zero_padded(n, width).drop_last() =~= before);
        assert forall|i: int| 0 <= i < width implies '0' <= #[trigger] zero_padded(n, width)[i]
            <= '9' by {
            if i < width - 1 {
                assert(zero_padded(n, width)[i] == before[i]);
            }
        }
    }
}

/// A negative number has a minus sign before it, and no other number has.
pub proof fn law_sign_is_written(n: nat)
    ensures
        dec_signed(n as int) == dec(n),
        n > 0 ==> dec_signed(-(n as int)) == seq!['-'] + dec(n),
{
    assert("-"@ =~= seq!['-']) by {
        reveal_strlit("-");
    }
}

} // verus!
