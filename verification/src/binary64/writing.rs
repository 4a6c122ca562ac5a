//! How binary64 numbers are written.

use vstd::arithmetic::div_mod::{lemma_fundamental_div_mod, lemma_fundamental_div_mod_converse};
use vstd::prelude::*;

use crate::binary64::rounding::{
    divide_to_nearest, lemma_eight_more, lemma_nearest_of_multiple, lemma_nearest_scaled,
    lemma_no_shift, lemma_scaled_division, lemma_two_adds, lemma_two_grows, lemma_two_positive,
    power_of_two,
};
use crate::binary64::{nearest, one, two_to, Binary64, FULL, INFINITY};
use crate::number::{
    all_digits, dec, decimal, digit, digit_char, digits_value, law_no_leading_zero, law_zero_padded,
    lemma_dec, padded, zero_padded,
};

verus! {

/// Ten to the power of `k`.
pub open spec fn ten_to(k: nat) -> nat
    decreases k,
{
    if k == 0 {
        1
    } else {
        10 * ten_to((k - 1) as nat)
    }
}

/// The sign of a number, as it is written.
pub open spec fn sign_text(negative: bool) -> Seq<char> {
    if negative {
        "-"@
    } else {
        ""@
    }
}

/// A number in decimal with `places` decimals: rounded to the nearest, a tie
/// to the even digit.
pub open spec fn fixed_text(t: Binary64, places: nat) -> Seq<char> {
    if t.is_nan() {
        "NaN"@
    } else if t.is_infinite() {
        sign_text(t.is_negative()) + "inf"@
    } else {
        let q = nearest(t.size() * ten_to(places), one());
        sign_text(t.is_negative()) + dec(q / ten_to(places)) + "."@ + zero_padded(
            q % ten_to(places),
            places,
        )
    }
}

/// The largest whole number that is not above a number, in decimal.
pub open spec fn floor_text(t: Binary64) -> Seq<char> {
    if t.is_nan() {
        "NaN"@
    } else if t.is_infinite() {
        sign_text(t.is_negative()) + "inf"@
    } else {
        let part = t.size() % one();
        sign_text(t.is_negative()) + dec(
            t.size() / one() + if t.is_negative() && part > 0 {
                1nat
            } else {
                0nat
            },
        )
    }
}

/// What is left of a number over whole multiples of 60, rounded to a whole
/// number, in two characters where there is one digit.
pub open spec fn sixtieths_text(t: Binary64) -> Seq<char> {
    if !t.is_finite() {
        "NaN"@
    } else {
        let left = nearest(t.size() % (60 * one()), one());
        let front = if t.is_negative() {
            "-"@
        } else if left < 10 {
            "0"@
        } else {
            ""@
        };
        front + dec(left)
    }
}

proof fn lemma_ten_grows(a: nat, b: nat)
    requires
        a <= b,
    ensures
        0 < ten_to(a) <= ten_to(b),
    decreases b,
{
    if a < b {
        lemma_ten_grows(a, (b - 1) as nat);
    } else if b > 0 {
        lemma_ten_grows((a - 1) as nat, (b - 1) as nat);
    }
}

fn power_of_ten(k: usize) -> (r: u128)
    requires
        k <= 9,
    ensures
        r == ten_to(k as nat),
        0 < r <= 1_000_000_000,
{
    let mut r: u128 = 1;
    let mut i: usize = 0;
    proof {
        reveal_with_fuel(ten_to, 10);
        assert(ten_to(9) == 1_000_000_000);
    }
    while i < k
        invariant
            i <= k <= 9,
            r == ten_to(i as nat),
            0 < r <= 1_000_000_000,
            ten_to(9) == 1_000_000_000,
        decreases k - i,
    {
        proof {
            lemma_ten_grows((i + 1) as nat, 9);
        }
        r = r * 10;
        i += 1;
    }
    r
}

/// The number that decimal digits stand for, the lowest first.
spec fn read_low_first(ds: Seq<u8>) -> nat
    decreases ds.len(),
{
    if ds.len() == 0 {
        0
    } else {
        read_low_first(ds.drop_last()) + ds.last() as nat * ten_to((ds.len() - 1) as nat)
    }
}

spec fn are_digits(ds: Seq<u8>) -> bool {
    forall|i: int| 0 <= i < ds.len() ==> #[trigger] ds[i] < 10
}

/// Digits that do not end in a zero that is not needed.
spec fn is_tight(ds: Seq<u8>) -> bool {
    are_digits(ds) && ds.len() > 0 && (ds.len() > 1 ==> ds.last() > 0)
}

proof fn lemma_lowest(ds: Seq<u8>)
    requires
        ds.len() > 0,
    ensures
        read_low_first(ds) == ds[0] as nat + 10 * read_low_first(ds.drop_first()),
    decreases ds.len(),
{
    if ds.len() == 1 {
        assert(ds.drop_last() =~= Seq::empty());
        assert(ds.drop_first() =~= Seq::empty());
        assert(ten_to(0) == 1);
        assert(ds.last() as nat * ten_to(0) == ds.last()) by (nonlinear_arith)
            requires
                ten_to(0) == 1,
        ;
    } else {
        let before = ds.drop_last();
        let rest = ds.drop_first();
        lemma_lowest(before);
        assert(before.drop_first() =~= rest.drop_last());
        assert(rest.last() == ds.last());
        let x = ds.last() as int;
        let p = ten_to((ds.len() - 2) as nat) as int;
        assert(ten_to((ds.len() - 1) as nat) == 10 * p);
        assert(x * (10 * p) == 10 * (x * p)) by (nonlinear_arith);
    }
}

proof fn lemma_tight_is_positive(ds: Seq<u8>)
    requires
        are_digits(ds),
        ds.len() > 0,
        ds.last() > 0,
    ensures
        read_low_first(ds) > 0,
{
    lemma_ten_grows((ds.len() - 1) as nat, (ds.len() - 1) as nat);
    let p = ten_to((ds.len() - 1) as nat) as int;
    assert(ds.last() as int * p > 0) by (nonlinear_arith)
        requires
            ds.last() > 0,
            p > 0,
    ;
}

/// The digits, the highest first.
spec fn high_first(ds: Seq<u8>) -> Seq<char>
    decreases ds.len(),
{
    if ds.len() == 0 {
        Seq::empty()
    } else {
        high_first(ds.drop_first()).push(digit_char(ds[0] as int))
    }
}

proof fn lemma_high_first(ds: Seq<u8>)
    requires
        is_tight(ds),
    ensures
        high_first(ds) == dec(read_low_first(ds)),
    decreases ds.len(),
{
    lemma_lowest(ds);
    let rest = ds.drop_first();
    assert(ds[0] < 10);
    if ds.len() == 1 {
        assert(rest =~= Seq::empty());
        assert(high_first(rest) =~= Seq::<char>::empty());
        assert(high_first(ds) =~= seq![digit_char(ds[0] as int)]);
    } else {
        assert forall|i: int| 0 <= i < rest.len() implies #[trigger] rest[i] < 10 by {
            assert(rest[i] == ds[i + 1]);
        }
        assert(rest.last() == ds.last());
        lemma_high_first(rest);
        lemma_tight_is_positive(rest);
    }
}

/// Digits of `n`, the lowest first.
fn low_first(n: u64) -> (ds: Vec<u8>)
    ensures
        is_tight(ds@),
        read_low_first(ds@) == n,
    decreases n,
{
    let mut ds: Vec<u8> = Vec::new();
    ds.push((n % 10) as u8);
    proof {
        lemma_lowest(ds@);
        assert(ds@.drop_first() =~= Seq::empty());
    }
    let mut left: u64 = n / 10;
    let ghost mut p: nat = 10;
    proof {
        reveal_with_fuel(ten_to, 2);
        assert(left * p + read_low_first(ds@) == n);
    }
    while left > 0
        invariant
            are_digits(ds@),
            ds@.len() > 0,
            p == ten_to(ds@.len()),
            left * p + read_low_first(ds@) == n,
            left == 0 ==> is_tight(ds@),
        decreases left,
    {
        let ghost before = ds@;
        let d = (left % 10) as u8;
        ds.push(d);
        proof {
            assert(ds@.drop_last() =~= before);
            let (a, b) = ((left / 10) as int, d as int);
            assert(left * p == a * (10 * p) + b * p) by (nonlinear_arith)
                requires
                    left == 10 * a + b,
            ;
            p = 10 * p;
        }
        left = left / 10;
    }
    ds
}

fn double(ds: &mut Vec<u8>)
    requires
        is_tight(old(ds)@),
    ensures
        is_tight(final(ds)@),
        read_low_first(final(ds)@) == 2 * read_low_first(old(ds)@),
{
    let ghost all = ds@;
    let mut carry: u8 = 0;
    let mut i: usize = 0;
    let ghost mut p: nat = 1;
    while i < ds.len()
        invariant
            i <= ds@.len(),
            ds@.len() == all.len(),
            is_tight(all),
            carry <= 1,
            p == ten_to(i as nat),
            forall|j: int| 0 <= j < i ==> #[trigger] ds@[j] < 10,
            forall|j: int| i <= j < all.len() ==> ds@[j] == #[trigger] all[j],
            read_low_first(ds@.take(i as int)) + carry * p == 2 * read_low_first(
                all.take(i as int),
            ),
            i > 0 && all[i - 1] > 0 ==> carry > 0 || ds@[i - 1] > 0,
        decreases ds.len() - i,
    {
        let ghost before = ds@;
        assert(ds@[i as int] == all[i as int]);
        let d: u8 = ds[i] * 2 + carry;
        let ghost c = carry as int;
        ds.set(i, d % 10);
        carry = d / 10;
        proof {
            let now = ds@.take(i + 1);
            assert(now.drop_last() =~= before.take(i as int));
            assert(all.take(i + 1).drop_last() =~= all.take(i as int));
            let (x, y) = (all[i as int] as int, (d % 10) as int);
            assert(c * p + 2 * (x * p) == y * p + carry * (10 * p)) by (nonlinear_arith)
                requires
                    2 * x + c == y + 10 * carry,
            ;
            p = 10 * p;
        }
        i += 1;
    }
    proof {
        assert(ds@.take(i as int) =~= ds@);
        assert(all.take(i as int) =~= all);
    }
    if carry > 0 {
        let ghost before = ds@;
        ds.push(carry);
        assert(ds@.drop_last() =~= before);
    }
}

/// `m` times two to the power of `k`, in decimal.
fn decimal_of_shifted(m: u64, k: i32) -> (out: String)
    requires
        k >= 0,
    ensures
        out@ == dec(m as nat * two_to(k as nat)),
{
    let mut ds = low_first(m);
    let mut i: i32 = 0;
    proof {
        lemma_no_shift(m as nat);
    }
    while i < k
        invariant
            0 <= i <= k,
            is_tight(ds@),
            read_low_first(ds@) == m as nat * two_to(i as nat),
        decreases k - i,
    {
        double(&mut ds);
        proof {
            let p = two_to(i as nat) as int;
            assert(m * (2 * p) == 2 * (m * p)) by (nonlinear_arith);
        }
        i += 1;
    }
    let mut out = String::new();
    let mut j: usize = ds.len();
    assert(high_first(ds@.skip(j as int)) =~= out@);
    while j > 0
        invariant
            j <= ds@.len(),
            are_digits(ds@),
            out@ == high_first(ds@.skip(j as int)),
        decreases j,
    {
        j -= 1;
        assert(ds@.skip(j as int).drop_first() =~= ds@.skip(j + 1));
        out.push(digit(ds[j]));
    }
    proof {
        assert(ds@.skip(0) =~= ds@);
        lemma_high_first(ds@);
    }
    out
}

impl Binary64 {
    /// The number in decimal, rounded to `places` decimals.
    pub fn fixed(self, places: usize) -> (out: String)
        requires
            0 < places <= 9,
        ensures
            out@ == fixed_text(self, places as nat),
    {
        let far = self.without_sign();
        if far > INFINITY {
            return "NaN".to_owned();
        }
        let mut out = sign(self.minus_sign());
        if far == INFINITY {
            out.append("inf");
            return out;
        }
        let (m, s) = self.parts();
        let scale = power_of_ten(places);
        let ghost size = self.size();
        let ghost t = ten_to(places as nat);
        if s >= 1074 {
            proof {
                let w = m as nat * two_to((s - 1074) as nat);
                lemma_two_adds((s - 1074) as nat, 1074);
                lemma_two_positive(1074);
                assert(size * t == (w * t) * one()) by (nonlinear_arith)
                    requires
                        size == m as nat * (two_to((s - 1074) as nat) * one()),
                        w == m as nat * two_to((s - 1074) as nat),
                ;
                lemma_nearest_of_multiple(w * t, one());
                lemma_fundamental_div_mod_converse((w * t) as int, t as int, w as int, 0);
            }
            out.append(decimal_of_shifted(m, s - 1074).as_str());
            out.append(".");
            out.append(padded(0, places).as_str());
            return out;
        }
        proof {
            assert(m * scale <= 0x20_0000_0000_0000 * 1_000_000_000) by (nonlinear_arith)
                requires
                    0 <= m <= 0x20_0000_0000_0000,
                    0 < scale <= 1_000_000_000,
            ;
        }
        let q = divide_by_power(m as u128 * scale, 1074 - s);
        proof {
            lemma_two_adds((1074 - s) as nat, s as nat);
            lemma_two_positive(s as nat);
            lemma_two_positive((1074 - s) as nat);
            let a = m as nat * t;
            assert(size * t == a * two_to(s as nat)) by (nonlinear_arith)
                requires
                    size == m as nat * two_to(s as nat),
                    a == m as nat * t,
            ;
            lemma_nearest_scaled(a, two_to((1074 - s) as nat), two_to(s as nat));
        }
        out.append(decimal(q / scale).as_str());
        out.append(".");
        out.append(padded(q % scale, places).as_str());
        out
    }

    /// The largest whole number that is not above the number, in decimal.
    pub fn floor(self) -> (out: String)
        ensures
            out@ == floor_text(self),
    {
        let far = self.without_sign();
        if far > INFINITY {
            return "NaN".to_owned();
        }
        let negative = self.minus_sign();
        let mut out = sign(negative);
        if far == INFINITY {
            out.append("inf");
            return out;
        }
        let (m, s) = self.parts();
        if s >= 1074 {
            proof {
                let w = m as nat * two_to((s - 1074) as nat);
                lemma_two_adds((s - 1074) as nat, 1074);
                lemma_two_positive(1074);
                assert(self.size() == w * one()) by (nonlinear_arith)
                    requires
                        self.size() == m as nat * (two_to((s - 1074) as nat) * one()),
                        w == m as nat * two_to((s - 1074) as nat),
                ;
                lemma_fundamental_div_mod_converse((w * one()) as int, one() as int, w as int, 0);
            }
            out.append(decimal_of_shifted(m, s - 1074).as_str());
            return out;
        }
        let (q, rest) = split_at_power(m, 1074 - s);
        proof {
            lemma_split_size(m as nat, s as nat);
        }
        let more: u128 = if negative && rest > 0 { 1 } else { 0 };
        out.append(decimal(q as u128 + more).as_str());
        out
    }

    /// The whole part of a number below 2⁵³.
    pub fn truncated(self) -> (r: u64)
        requires
            self.is_finite(),
            self.shift() < 1074,
        ensures
            r == self.size() / one(),
    {
        let (m, s) = self.parts();
        proof {
            lemma_split_size(m as nat, s as nat);
        }
        split_at_power(m, 1074 - s).0
    }

    /// What is left of the number over whole multiples of 60, rounded, in two
    /// characters where there is one digit.
    pub fn sixtieths(self) -> (out: String)
        ensures
            out@ == sixtieths_text(self),
    {
        if self.without_sign() >= INFINITY {
            return "NaN".to_owned();
        }
        let (m, s) = self.parts();
        let left: u128 = if s >= 1074 {
            proof {
                lemma_two_adds((s - 1074) as nat, 1074);
                lemma_two_positive(1074);
                let w = m as nat * two_to((s - 1074) as nat);
                assert(self.size() == w * one()) by (nonlinear_arith)
                    requires
                        self.size() == m as nat * (two_to((s - 1074) as nat) * one()),
                        w == m as nat * two_to((s - 1074) as nat),
                ;
                lemma_scaled_division(w, 60, one());
                lemma_nearest_of_multiple(w % 60, one());
            }
            over_sixty(m, s - 1074) as u128
        } else {
            let k: i32 = 1074 - s;
            proof {
                lemma_two_adds(k as nat, s as nat);
                lemma_two_positive(s as nat);
                lemma_two_positive(k as nat);
                let b = 60 * two_to(k as nat);
                let u = two_to(s as nat);
                assert(60 * one() == b * u) by (nonlinear_arith)
                    requires
                        one() == two_to(k as nat) * u,
                        b == 60 * two_to(k as nat),
                ;
                lemma_scaled_division(m as nat, b, u);
                lemma_nearest_scaled(m as nat % b, two_to(k as nat), u);
            }
            if k >= 60 {
                proof {
                    lemma_sixty();
                    lemma_two_grows(60, k as nat);
                    lemma_fundamental_div_mod_converse(
                        m as int,
                        60 * two_to(k as nat) as int,
                        0,
                        m as int,
                    );
                    lemma_fundamental_div_mod_converse(
                        m as int,
                        two_to(k as nat) as int,
                        0,
                        m as int,
                    );
                }
                0
            } else {
                let b = power_of_two(k as u32);
                proof {
                    lemma_sixty();
                    lemma_two_grows(k as nat, 60);
                }
                divide_to_nearest(m as u128 % (60 * b), b)
            }
        };
        let mut out = if self.minus_sign() {
            "-".to_owned()
        } else if left < 10 {
            "0".to_owned()
        } else {
            "".to_owned()
        };
        out.append(decimal(left).as_str());
        out
    }
}

fn sign(negative: bool) -> (out: String)
    ensures
        out@ == sign_text(negative),
{
    if negative {
        "-".to_owned()
    } else {
        "".to_owned()
    }
}

proof fn lemma_sixty()
    ensures
        two_to(60) == 0x1000_0000_0000_0000,
        two_to(100) == 0x10_0000_0000_0000_0000_0000_0000,
{
    reveal_with_fuel(two_to, 5);
    lemma_eight_more(4);
    lemma_eight_more(12);
    lemma_eight_more(20);
    lemma_eight_more(28);
    lemma_eight_more(36);
    lemma_eight_more(44);
    lemma_eight_more(52);
    lemma_eight_more(60);
    lemma_eight_more(68);
    lemma_eight_more(76);
    lemma_eight_more(84);
    lemma_eight_more(92);
}

/// `a` over two to the power of `k`, rounded to the nearest whole number.
fn divide_by_power(a: u128, k: i32) -> (q: u128)
    requires
        0 <= k,
        a < 0x1_0000_0000_0000_0000_0000_0000,
    ensures
        q == nearest(a as nat, two_to(k as nat)),
{
    if k >= 100 {
        proof {
            lemma_sixty();
            lemma_two_grows(100, k as nat);
            lemma_fundamental_div_mod_converse(a as int, two_to(k as nat) as int, 0, a as int);
        }
        0
    } else {
        divide_to_nearest(a, power_of_two(k as u32))
    }
}

/// `m` divided by two to the power of `k`, and what is left over.
fn split_at_power(m: u64, k: i32) -> (r: (u64, u64))
    requires
        0 <= k,
        m < FULL,
    ensures
        r.0 == m as nat / two_to(k as nat),
        r.1 == m as nat % two_to(k as nat),
{
    if k >= 60 {
        proof {
            lemma_sixty();
            lemma_two_grows(60, k as nat);
            lemma_fundamental_div_mod_converse(m as int, two_to(k as nat) as int, 0, m as int);
        }
        (0, m)
    } else {
        let b = power_of_two(k as u32);
        proof {
            lemma_sixty();
            lemma_two_grows(k as nat, 60);
        }
        (m / b as u64, m % b as u64)
    }
}

proof fn lemma_split_size(m: nat, s: nat)
    requires
        s <= 1074,
    ensures
        (m * two_to(s)) / one() == m / two_to((1074 - s) as nat),
        (m * two_to(s)) % one() > 0 <==> m % two_to((1074 - s) as nat) > 0,
{
    let b = two_to((1074 - s) as nat);
    lemma_two_adds((1074 - s) as nat, s);
    lemma_two_positive(s);
    lemma_two_positive((1074 - s) as nat);
    lemma_scaled_division(m, b, two_to(s));
    let r = (m % b) as int;
    assert(r * two_to(s) > 0 <==> r > 0) by (nonlinear_arith)
        requires
            two_to(s) > 0,
            r >= 0,
    ;
}

/// What is left over of `m` times two to the power of `k`, divided by 60.
fn over_sixty(m: u64, k: i32) -> (r: u64)
    requires
        0 <= k,
    ensures
        r == (m as nat * two_to(k as nat)) % 60,
{
    let mut r: u64 = m % 60;
    let mut i: i32 = 0;
    proof {
        lemma_no_shift(m as nat);
    }
    while i < k
        invariant
            0 <= i <= k,
            r < 60,
            r == (m as nat * two_to(i as nat)) % 60,
        decreases k - i,
    {
        proof {
            let p = two_to(i as nat) as int;
            assert(m * (2 * p) == 2 * (m * p)) by (nonlinear_arith);
        }
        r = (2 * r) % 60;
        i += 1;
    }
    r
}

/// The powers of ten.
pub proof fn law_powers_of_ten(k: nat)
    ensures
        ten_to(0) == 1,
        ten_to(k + 1) == 10 * ten_to(k),
{
}

/// A finite number is written as its sign, whole digits, a dot and as many
/// decimals as asked for. They stand for the number to within half a unit of
/// the last decimal, and a number halfway between two is written as the even one.
pub proof fn law_fixed_text_is_near(t: Binary64, places: nat)
    requires
        t.is_finite(),
    ensures
        ({
            let text = fixed_text(t, places);
            let sign = if t.is_negative() {
                1int
            } else {
                0
            };
            let dot = text.len() - places - 1;
            let (front, back) = (text.subrange(sign, dot), text.skip(dot + 1));
            let n = (digits_value(front) * ten_to(places) + digits_value(back)) * one();
            let exact = t.size() * ten_to(places);
            &&& sign < dot
            &&& t.is_negative() ==> text[0] == '-'
            &&& text[dot] == '.'
            &&& all_digits(front) && all_digits(back)
            &&& front.len() == 1 || front[0] != '0'
            &&& 2 * (n - exact) <= one() && 2 * (exact - n) <= one()
            &&& 2 * (n - exact) == one() || 2 * (exact - n) == one() ==> (digits_value(front)
                * ten_to(places) + digits_value(back)) % 2 == 0
        }),
{
    let q = nearest(t.size() * ten_to(places), one());
    let (a, b) = (q / ten_to(places), q % ten_to(places));
    let text = fixed_text(t, places);
    let sign = if t.is_negative() {
        1int
    } else {
        0
    };
    let dot = text.len() - places - 1;
    lemma_ten_grows(0, places);
    lemma_two_positive(1074);
    lemma_dec(a);
    law_no_leading_zero(a);
    law_zero_padded(b, places);
    assert(sign_text(t.is_negative()).len() == sign && "."@ =~= seq!['.'] && (t.is_negative()
        ==> sign_text(true)[0] == '-')) by {
        reveal_strlit("-");
        reveal_strlit("");
        reveal_strlit(".");
    }
    assert(text.subrange(sign, dot) =~= dec(a));
    assert(text.skip(dot + 1) =~= zero_padded(b, places));
    assert(all_digits(zero_padded(b, places)));
    assert(a * ten_to(places) + b == q) by {
        lemma_fundamental_div_mod(q as int, ten_to(places) as int);
        assert(a * ten_to(places) == ten_to(places) * a) by (nonlinear_arith);
    }
    law_rounded_to_whole(t.size() * ten_to(places), one());
    if dec(a).len() > 1 {
        assert(a > 0) by {
            if a == 0 {
                assert(dec(a).len() == 1);
            }
        }
    }
}

/// A quotient is rounded to a whole number that is no farther from it than a
/// half, and halfway between two to the even one.
pub proof fn law_rounded_to_whole(a: nat, b: nat)
    requires
        b > 0,
    ensures
        ({
            let n = nearest(a, b) * b;
            &&& 2 * (n - a) <= b && 2 * (a - n) <= b
            &&& 2 * (n - a) == b || 2 * (a - n) == b ==> nearest(a, b) % 2 == 0
        }),
{
    lemma_fundamental_div_mod(a as int, b as int);
    let (q, rest) = (a / b, a % b);
    assert(q * b == b * q && (q + 1) * b == b * q + b) by (nonlinear_arith);
}

/// What is no number is written as such.
pub proof fn law_other_numbers_are_named(t: Binary64, places: nat)
    ensures
        t.is_nan() ==> fixed_text(t, places) == "NaN"@ && floor_text(t) == "NaN"@,
        t.is_infinite() && !t.is_negative() ==> fixed_text(t, places) == "inf"@ && floor_text(t)
            == "inf"@,
        t.is_infinite() && t.is_negative() ==> fixed_text(t, places) == "-inf"@ && floor_text(t)
            == "-inf"@,
        !t.is_finite() ==> sixtieths_text(t) == "NaN"@,
{
    assert(sign_text(false) + "inf"@ =~= "inf"@ && sign_text(true) + "inf"@ =~= "-inf"@) by {
        reveal_strlit("-");
        reveal_strlit("");
        reveal_strlit("inf");
        reveal_strlit("-inf");
    }
}

/// The whole part of a number that is not negative: digits for the largest
/// whole number that is not above it.
pub proof fn law_floor_text(t: Binary64)
    requires
        t.is_finite(),
        !t.is_negative(),
    ensures
        all_digits(floor_text(t)),
        floor_text(t).len() == 1 || floor_text(t)[0] != '0',
        digits_value(floor_text(t)) * one() <= t.size() < (digits_value(floor_text(t)) + 1) * one(),
{
    lemma_two_positive(1074);
    let n = t.size() / one();
    assert(sign_text(false) =~= Seq::empty()) by {
        reveal_strlit("");
    }
    assert(floor_text(t) == sign_text(false) + dec(n + 0nat));
    assert(sign_text(false) + dec(n) =~= dec(n));
    assert(floor_text(t) == dec(n));
    lemma_dec(n);
    law_no_leading_zero(n);
    lemma_fundamental_div_mod(t.size() as int, one() as int);
    assert(n * one() == one() * n && (n + 1) * one() == one() * n + one()) by (nonlinear_arith);
    if n == 0 {
        assert(dec(n).len() == 1);
    }
}

/// What is left over multiples of 60, of a number that is not negative: two
/// digits, which stand for it to within a half.
pub proof fn law_sixtieths_text(t: Binary64)
    requires
        t.is_finite(),
        !t.is_negative(),
    ensures
        sixtieths_text(t).len() == 2,
        all_digits(sixtieths_text(t)),
        ({
            let left = t.size() % (60 * one());
            let n = digits_value(sixtieths_text(t)) * one();
            2 * (n - left) <= one() && 2 * (left - n) <= one()
        }),
{
    let left = t.size() % (60 * one());
    let n = nearest(left, one());
    lemma_two_positive(1074);
    law_rounded_to_whole(left, one());
    lemma_dec(n);
    assert(n <= 60) by (nonlinear_arith)
        requires
            2 * (n * one() - left) <= one(),
            left < 60 * one(),
            one() > 0,
    ;
    let text = sixtieths_text(t);
    reveal_strlit("0");
    reveal_strlit("");
    if n < 10 {
        assert(text =~= seq!['0'] + dec(n));
        assert(text.drop_last() =~= seq!['0']);
        assert(dec(n) =~= seq![digit_char(n as int)]);
        assert(text =~= seq!['0'].push(digit_char(n as int)));
        assert(seq!['0'].drop_last() =~= Seq::empty());
        assert(digits_value(seq!['0'].drop_last()) == 0);
        assert(digits_value(seq!['0']) == 0);
    } else {
        assert(text =~= dec(n));
        assert(n / 10 < 10);
        assert(dec(n / 10).len() == 1);
    }
}

/// The whole part of a negative number: a minus sign and digits for the least
/// whole number that is not below its size.
pub proof fn law_floor_text_of_negative(t: Binary64)
    requires
        t.is_finite(),
        t.is_negative(),
    ensures
        ({
            let digits = floor_text(t).drop_first();
            &&& floor_text(t)[0] == '-'
            &&& all_digits(digits)
            &&& t.size() <= digits_value(digits) * one() < t.size() + one()
        }),
{
    lemma_two_positive(1074);
    let part = t.size() % one();
    let n = t.size() / one() + if part > 0 {
        1nat
    } else {
        0nat
    };
    assert(sign_text(true) =~= seq!['-']) by {
        reveal_strlit("-");
    }
    assert(floor_text(t) == sign_text(true) + dec(n));
    assert(floor_text(t).drop_first() =~= dec(n));
    lemma_dec(n);
    lemma_fundamental_div_mod(t.size() as int, one() as int);
    let q = t.size() / one();
    assert(q * one() == one() * q && (q + 1) * one() == one() * q + one()) by (nonlinear_arith);
}

/// What is left over multiples of 60, of a negative number: a minus sign and
/// digits for what is left of its size, to within a half.
pub proof fn law_sixtieths_text_of_negative(t: Binary64)
    requires
        t.is_finite(),
        t.is_negative(),
    ensures
        ({
            let digits = sixtieths_text(t).drop_first();
            let left = t.size() % (60 * one());
            let n = digits_value(digits) * one();
            &&& sixtieths_text(t)[0] == '-'
            &&& all_digits(digits)
            &&& 2 * (n - left) <= one() && 2 * (left - n) <= one()
        }),
{
    let left = t.size() % (60 * one());
    let n = nearest(left, one());
    lemma_two_positive(1074);
    law_rounded_to_whole(left, one());
    lemma_dec(n);
    assert("-"@ =~= seq!['-']) by {
        reveal_strlit("-");
    }
    assert(sixtieths_text(t) == "-"@ + dec(n));
    assert(sixtieths_text(t).drop_first() =~= dec(n));
}

} // verus!
