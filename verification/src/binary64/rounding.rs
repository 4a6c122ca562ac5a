//! How numbers are rounded to binary64 numbers.

use vstd::arithmetic::div_mod::{lemma_fundamental_div_mod, lemma_fundamental_div_mod_converse};
use vstd::prelude::*;

use crate::binary64::{
    digits_of, nearest, rounded, scale_of, shift_of, size_at, size_of, two_to, FULL, HALF,
    INFINITY,
};

verus! {

// ── Powers of two ────────────────────────────────────────────────────────

pub(crate) proof fn lemma_two_positive(k: nat)
    ensures
        two_to(k) > 0,
    decreases k,
{
    if k > 0 {
        lemma_two_positive((k - 1) as nat);
    }
}

pub(crate) proof fn lemma_two_adds(a: nat, b: nat)
    ensures
        two_to(a + b) == two_to(a) * two_to(b),
    decreases b,
{
    if b > 0 {
        lemma_two_adds(a, (b - 1) as nat);
        let x = two_to(a) as int;
        let y = two_to((b - 1) as nat) as int;
        assert(x * (2 * y) == 2 * (x * y)) by (nonlinear_arith);
    } else {
        assert(two_to(a) * 1 == two_to(a));
    }
}

pub(crate) proof fn lemma_two_grows(a: nat, b: nat)
    requires
        a <= b,
    ensures
        two_to(a) <= two_to(b),
    decreases b,
{
    if a < b {
        lemma_two_grows(a, (b - 1) as nat);
        lemma_two_positive((b - 1) as nat);
    }
}

pub(crate) proof fn lemma_eight_more(k: nat)
    ensures
        two_to(k + 8) == 256 * two_to(k),
{
    reveal_with_fuel(two_to, 9);
}

pub(crate) proof fn lemma_two_constants()
    ensures
        two_to(0) == 1,
        two_to(1) == 2,
        two_to(7) == 128,
        two_to(64) == 0x1_0000_0000_0000_0000,
        two_to(126) == 0x4000_0000_0000_0000_0000_0000_0000_0000,
{
    reveal_with_fuel(two_to, 8);
    lemma_eight_more(0);
    lemma_eight_more(8);
    lemma_eight_more(16);
    lemma_eight_more(24);
    lemma_eight_more(32);
    lemma_eight_more(40);
    lemma_eight_more(48);
    lemma_eight_more(56);
    lemma_eight_more(6);
    lemma_eight_more(14);
    lemma_eight_more(22);
    lemma_eight_more(30);
    lemma_eight_more(38);
    lemma_eight_more(46);
    lemma_eight_more(54);
    lemma_eight_more(62);
    lemma_eight_more(70);
    lemma_eight_more(78);
    lemma_eight_more(86);
    lemma_eight_more(94);
    lemma_eight_more(102);
    lemma_eight_more(110);
    lemma_eight_more(118);
}

pub(crate) proof fn lemma_no_shift(n: nat)
    ensures
        two_to(0) == 1,
        n * two_to(0) == n,
        two_to(0) * n == n,
{
    assert(n * two_to(0) == n && two_to(0) * n == n) by (nonlinear_arith)
        requires
            two_to(0) == 1,
    ;
}

pub(crate) fn power_of_two(k: u32) -> (r: u128)
    requires
        k <= 126,
    ensures
        r == two_to(k as nat),
        0 < r <= 0x4000_0000_0000_0000_0000_0000_0000_0000,
{
    let mut r: u128 = 1;
    let mut i: u32 = 0;
    proof {
        lemma_two_constants();
    }
    while i < k
        invariant
            i <= k <= 126,
            r == two_to(i as nat),
            0 < r,
            two_to(126) == 0x4000_0000_0000_0000_0000_0000_0000_0000,
        decreases k - i,
    {
        proof {
            lemma_two_grows((i + 1) as nat, 126);
        }
        r = r * 2;
        i += 1;
    }
    proof {
        lemma_two_grows(k as nat, 126);
    }
    r
}

// ── The nearest whole number ─────────────────────────────────────────────

pub(crate) proof fn lemma_scaled_division(a: nat, b: nat, c: nat)
    requires
        b > 0,
        c > 0,
    ensures
        b * c > 0,
        (a * c) / (b * c) == a / b,
        (a * c) % (b * c) == (a % b) * c,
{
    let q = (a / b) as int;
    let r = (a % b) as int;
    lemma_fundamental_div_mod(a as int, b as int);
    assert(a * c == q * (b * c) + r * c && 0 <= r * c < b * c) by (nonlinear_arith)
        requires
            a == b * q + r,
            0 <= r < b,
            c > 0,
    ;
    lemma_fundamental_div_mod_converse((a * c) as int, (b * c) as int, q, r * c);
}

pub(crate) proof fn lemma_nearest_scaled(a: nat, b: nat, c: nat)
    requires
        b > 0,
        c > 0,
    ensures
        b * c > 0,
        nearest(a * c, b * c) == nearest(a, b),
{
    lemma_scaled_division(a, b, c);
    let r = (a % b) as int;
    assert(2 * (r * c) > b * c <==> 2 * r > b) by (nonlinear_arith)
        requires
            c > 0,
    ;
    assert(2 * (r * c) == b * c <==> 2 * r == b) by (nonlinear_arith)
        requires
            c > 0,
    ;
}

pub(crate) proof fn lemma_nearest_of_multiple(a: nat, b: nat)
    requires
        b > 0,
    ensures
        nearest(a * b, b) == a,
{
    lemma_fundamental_div_mod_converse((a * b) as int, b as int, a as int, 0);
}

/// The nearest whole number lies within half a unit.
pub(crate) proof fn lemma_nearest_is_near(a: nat, b: nat)
    requires
        b > 0,
    ensures
        2 * (nearest(a, b) * b) <= 2 * a + b,
        2 * a <= 2 * (nearest(a, b) * b) + b,
{
    let q = (a / b) as int;
    let r = (a % b) as int;
    lemma_fundamental_div_mod(a as int, b as int);
    assert(q * b == a - r) by (nonlinear_arith)
        requires
            a == b * q + r,
    ;
    assert((q + 1) * b == q * b + b) by (nonlinear_arith);
}

pub(crate) proof fn lemma_nearest_grows(a: nat, b: nat, d: nat)
    requires
        d > 0,
        a <= b,
    ensures
        nearest(a, d) <= nearest(b, d),
{
    let (p, q) = ((a / d) as int, (b / d) as int);
    let (r, s) = ((a % d) as int, (b % d) as int);
    lemma_fundamental_div_mod(a as int, d as int);
    lemma_fundamental_div_mod(b as int, d as int);
    assert(p <= q && (p == q ==> r <= s)) by (nonlinear_arith)
        requires
            a == d * p + r,
            b == d * q + s,
            a <= b,
            0 <= r < d,
            0 <= s < d,
            d > 0,
    ;
}

/// `a / b`, rounded to the nearest whole number.
pub(crate) fn divide_to_nearest(a: u128, b: u128) -> (q: u128)
    requires
        0 < b <= 0x4000_0000_0000_0000_0000_0000_0000_0000,
        a < 0xffff_ffff_ffff_ffff_ffff_ffff_ffff_ffff,
    ensures
        q == nearest(a as nat, b as nat),
{
    let q = a / b;
    let rest = a % b;
    proof {
        assert(a / b <= a) by (nonlinear_arith)
            requires
                b > 0,
        ;
    }
    if 2 * rest > b || (2 * rest == b && q % 2 == 1) {
        q + 1
    } else {
        q
    }
}

// ── Scales ───────────────────────────────────────────────────────────────

/// Whether `s` places are to be dropped of `n / d`, and no fewer.
pub open spec fn fits(n: nat, d: nat, s: nat) -> bool {
    &&& n < d * two_to(s) * FULL
    &&& s > 0 ==> n >= d * two_to(s) * HALF
}

pub(crate) proof fn lemma_scale(n: nat, d: nat)
    requires
        d > 0,
    ensures
        fits(n, d, scale_of(n, d)),
    decreases n - d,
{
    if n < d * FULL {
        lemma_no_shift(d);
    } else {
        let s = scale_of(n, d);
        let t = (s - 1) as nat;
        lemma_scale(n, 2 * d);
        let p = two_to(t) as int;
        assert(2 * d * p == d * (2 * p)) by (nonlinear_arith);
        assert(two_to(s) == 2 * p);
        if t == 0 {
            lemma_no_shift(2 * d);
        }
    }
}

pub(crate) proof fn lemma_scale_is(n: nat, d: nat, s: nat)
    requires
        d > 0,
        fits(n, d, s),
    ensures
        scale_of(n, d) == s,
    decreases s,
{
    if s == 0 {
        lemma_no_shift(d);
    } else {
        let t = (s - 1) as nat;
        let p = two_to(t) as int;
        assert(two_to(s) == 2 * p);
        assert(2 * d * p == d * (2 * p)) by (nonlinear_arith);
        lemma_two_positive(t);
        assert(2 * d * p >= 2 * d) by (nonlinear_arith)
            requires
                p >= 1,
                d > 0,
        ;
        lemma_scale_is(n, 2 * d, t);
    }
}

pub(crate) proof fn lemma_rounded_is(n: nat, d: nat, s: nat)
    requires
        d > 0,
        fits(n, d, s),
        s <= 2045,
    ensures
        rounded(n, d) == s * HALF as nat + nearest(n, d * two_to(s)),
        nearest(n, d * two_to(s)) <= FULL,
        s > 0 ==> nearest(n, d * two_to(s)) >= HALF,
        rounded(n, d) <= INFINITY,
{
    lemma_scale_is(n, d, s);
    lemma_two_positive(s);
    let u = d * two_to(s);
    assert(u > 0) by (nonlinear_arith)
        requires
            u == d * two_to(s),
            d > 0,
            two_to(s) > 0,
    ;
    lemma_nearest_of_multiple(FULL as nat, u);
    lemma_nearest_of_multiple(HALF as nat, u);
    assert(u * FULL == FULL * u && u * HALF == HALF * u) by (nonlinear_arith);
    lemma_nearest_grows(n, FULL as nat * u, u);
    if s > 0 {
        lemma_nearest_grows(HALF as nat * u, n, u);
    }
}

pub(crate) proof fn lemma_rounded_bound(n: nat, d: nat)
    requires
        d > 0,
    ensures
        rounded(n, d) <= INFINITY,
{
    lemma_scale(n, d);
    if scale_of(n, d) <= 2045 {
        lemma_rounded_is(n, d, scale_of(n, d));
    }
}

pub(crate) proof fn lemma_rounded_scaled(n: nat, d: nat, c: nat)
    requires
        d > 0,
        c > 0,
    ensures
        d * c > 0,
        rounded(n * c, d * c) == rounded(n, d),
{
    let s = scale_of(n, d);
    lemma_scale(n, d);
    lemma_two_positive(s);
    let p = two_to(s) as int;
    let u = d * p;
    assert(d * c > 0) by (nonlinear_arith)
        requires
            d > 0,
            c > 0,
    ;
    assert(d * c * p == u * c) by (nonlinear_arith)
        requires
            u == d * p,
    ;
    assert(n < u * FULL ==> n * c < u * c * FULL) by (nonlinear_arith)
        requires
            c > 0,
    ;
    assert(n >= u * HALF ==> n * c >= u * c * HALF) by (nonlinear_arith)
        requires
            c > 0,
    ;
    assert(u > 0) by (nonlinear_arith)
        requires
            u == d * p,
            d > 0,
            p > 0,
    ;
    lemma_scale_is(n * c, d * c, s);
    lemma_nearest_scaled(n, u as nat, c);
}

/// Equal fractions are rounded to the same number.
pub(crate) proof fn lemma_rounded_fraction(n: nat, d: nat, m: nat, e: nat)
    requires
        d > 0,
        e > 0,
        n * e == m * d,
    ensures
        rounded(n, d) == rounded(m, e),
{
    lemma_rounded_scaled(n, d, e);
    lemma_rounded_scaled(m, e, d);
    assert(d * e == e * d) by (nonlinear_arith);
}

/// A number of no more than 53 digits is not changed.
pub(crate) proof fn lemma_rounded_exact(m: nat, k: nat)
    requires
        m < FULL,
        k <= 2045,
    ensures
        rounded(m * two_to(k), 1) < INFINITY,
        size_at(rounded(m * two_to(k), 1)) == m * two_to(k),
{
    let n = m * two_to(k);
    let s = scale_of(n, 1);
    lemma_scale(n, 1);
    lemma_two_positive(s);
    if s > k {
        lemma_two_adds(k, (s - k) as nat);
        lemma_two_grows(1, (s - k) as nat);
        assert(two_to(1) == 2) by {
            reveal_with_fuel(two_to, 2);
        }
        lemma_two_positive(k);
        assert(false) by (nonlinear_arith)
            requires
                n == m * two_to(k),
                m < FULL,
                n >= two_to(s) * HALF,
                two_to(s) == two_to(k) * two_to((s - k) as nat),
                two_to((s - k) as nat) >= 2,
                two_to(k) > 0,
                FULL == 2 * HALF,
        ;
    }
    let p = two_to((k - s) as nat);
    let w = m * p;
    lemma_two_adds((k - s) as nat, s);
    assert(n == w * two_to(s)) by (nonlinear_arith)
        requires
            n == m * (p * two_to(s)),
            w == m * p,
    ;
    lemma_nearest_of_multiple(w, two_to(s));
    assert(1 * two_to(s) == two_to(s));
    lemma_rounded_is(n, 1, s);
    assert(w < FULL) by (nonlinear_arith)
        requires
            w * two_to(s) < two_to(s) * FULL,
            two_to(s) > 0,
    ;
    let far = s * HALF as nat + w;
    if far >= HALF {
        lemma_fundamental_div_mod_converse(far as int, HALF as int, (s + 1) as int, w - HALF);
    }
}

/// Every finite number is rounded to itself.
pub(crate) proof fn lemma_rounded_size(far: nat)
    requires
        far < INFINITY,
    ensures
        rounded(size_at(far), 1) == far,
{
    let m = digits_of(far);
    let s = shift_of(far);
    let n = m * two_to(s);
    lemma_two_positive(s);
    assert(n < 1 * two_to(s) * FULL) by (nonlinear_arith)
        requires
            n == m * two_to(s),
            m < FULL,
            two_to(s) > 0,
    ;
    if s > 0 {
        assert(n >= 1 * two_to(s) * HALF) by (nonlinear_arith)
            requires
                n == m * two_to(s),
                m >= HALF,
        ;
    }
    lemma_rounded_is(n, 1, s);
    lemma_nearest_of_multiple(m, two_to(s));
    assert(1 * two_to(s) == two_to(s));
    if far >= HALF {
        lemma_fundamental_div_mod(far as int, HALF as int);
    }
}

/// Rounding keeps the order.
pub(crate) proof fn lemma_rounded_grows(n: nat, m: nat, d: nat)
    requires
        d > 0,
        n <= m,
    ensures
        rounded(n, d) <= rounded(m, d),
{
    let s = scale_of(n, d);
    let t = scale_of(m, d);
    lemma_scale(n, d);
    lemma_scale(m, d);
    lemma_rounded_bound(n, d);
    if s > t {
        lemma_two_grows(t + 1, s);
        let (p, q) = (two_to(s) as int, two_to(t) as int);
        assert(d * p * HALF >= d * q * FULL) by (nonlinear_arith)
            requires
                p >= 2 * q,
                d > 0,
                FULL == 2 * HALF,
        ;
    }
    if t <= 2045 {
        lemma_rounded_is(n, d, s);
        lemma_rounded_is(m, d, t);
        if s == t {
            lemma_two_positive(s);
            assert(d * two_to(s) > 0) by (nonlinear_arith)
                requires
                    d > 0,
                    two_to(s) > 0,
            ;
            lemma_nearest_grows(n, m, d * two_to(s));
        }
    }
}

/// A rounded number is its digits, shifted as they were.
pub(crate) proof fn lemma_rounded_value(n: nat)
    requires
        rounded(n, 1) < INFINITY,
    ensures
        scale_of(n, 1) <= 2045,
        size_at(rounded(n, 1)) == nearest(n, two_to(scale_of(n, 1))) * two_to(scale_of(n, 1)),
{
    let s = scale_of(n, 1);
    lemma_scale(n, 1);
    lemma_rounded_is(n, 1, s);
    lemma_two_positive(s);
    let u = two_to(s);
    assert(1 * u == u);
    let w = nearest(n, u);
    let far = s * HALF as nat + w;
    if w == FULL {
        lemma_fundamental_div_mod_converse(far as int, HALF as int, (s + 2) as int, 0);
        assert(two_to(s + 1) == 2 * u);
        assert(size_at(far) == HALF as nat * two_to(s + 1));
        assert(size_at(far) == w * u) by (nonlinear_arith)
            requires
                size_at(far) == HALF as nat * (2 * u),
                w == 2 * HALF as nat,
        ;
    } else if far >= HALF {
        lemma_fundamental_div_mod_converse(far as int, HALF as int, (s + 1) as int, w - HALF);
        assert(size_at(far) == w * u);
    } else {
        assert(size_at(far) == w * u);
    }
}

/// A number lies within one part in 2⁵³ of what it was rounded from.
pub(crate) proof fn lemma_rounded_is_near(n: nat)
    requires
        rounded(n, 1) < INFINITY,
    ensures
        (size_at(rounded(n, 1)) - n) * FULL <= n,
        (n - size_at(rounded(n, 1))) * FULL <= n,
{
    let s = scale_of(n, 1);
    let u = two_to(s);
    lemma_scale(n, 1);
    lemma_rounded_value(n);
    lemma_two_positive(s);
    lemma_nearest_is_near(n, u);
    assert(1 * u == u);
    let e = size_at(rounded(n, 1)) - n;
    if s == 0 {
        lemma_no_shift(nearest(n, 1));
        assert(n % 1 == 0 && n / 1 == n);
        assert(e == 0);
    } else {
        assert(e * FULL <= n && -e * FULL <= n) by (nonlinear_arith)
            requires
                2 * e <= u,
                -2 * e <= u,
                n >= u * HALF,
                FULL == 2 * HALF,
        ;
    }
}

/// There is no number between two neighbours of 53 digits.
pub(crate) proof fn lemma_none_between(far: nat, s: nat, q: nat)
    requires
        far < INFINITY,
        s > 0 ==> q >= HALF,
    ensures
        size_at(far) <= q * two_to(s) || size_at(far) >= (q + 1) * two_to(s),
{
    let x = size_at(far);
    let d = digits_of(far);
    let t = shift_of(far);
    let u = two_to(s);
    lemma_two_positive(s);
    lemma_two_positive(t);
    if t < s {
        lemma_two_grows(t + 1, s);
        assert(x <= q * u) by (nonlinear_arith)
            requires
                x == d * two_to(t),
                d < FULL,
                FULL == 2 * HALF,
                u >= 2 * two_to(t),
                q >= HALF,
                two_to(t) > 0,
        ;
    } else {
        let k = d * two_to((t - s) as nat);
        lemma_two_adds((t - s) as nat, s);
        assert(x == k * u) by (nonlinear_arith)
            requires
                x == d * (two_to((t - s) as nat) * u),
                k == d * two_to((t - s) as nat),
        ;
        if k <= q {
            assert(k * u <= q * u) by (nonlinear_arith)
                requires
                    k <= q,
            ;
        } else {
            assert(k * u >= (q + 1) * u) by (nonlinear_arith)
                requires
                    k >= q + 1,
            ;
        }
    }
}

/// No finite number is nearer to what was rounded.
pub(crate) proof fn lemma_none_nearer(n: nat, far: nat)
    requires
        far < INFINITY,
        rounded(n, 1) < INFINITY,
    ensures
        size_of(size_at(rounded(n, 1)) - n) <= size_of(size_at(far) - n),
{
    let s = scale_of(n, 1);
    let u = two_to(s);
    lemma_scale(n, 1);
    lemma_rounded_value(n);
    lemma_two_positive(s);
    assert(1 * u == u);
    let q = n / u;
    let r = (n % u) as int;
    lemma_fundamental_div_mod(n as int, u as int);
    assert(q * u == n - r && (q + 1) * u == n - r + u) by (nonlinear_arith)
        requires
            n == u * q + r,
    ;
    if s > 0 {
        assert(q >= HALF) by (nonlinear_arith)
            requires
                n >= u * HALF,
                n == u * q + r,
                r < u,
                u > 0,
        ;
    }
    lemma_none_between(far, s, q);
}

/// A rounded fraction is its digits, shifted as they were.
pub(crate) proof fn lemma_rounded_fraction_value(n: nat, d: nat)
    requires
        d > 0,
        rounded(n, d) < INFINITY,
    ensures
        scale_of(n, d) <= 2045,
        fits(n, d, scale_of(n, d)),
        size_at(rounded(n, d)) == nearest(n, d * two_to(scale_of(n, d))) * two_to(
            scale_of(n, d),
        ),
{
    let s = scale_of(n, d);
    lemma_scale(n, d);
    lemma_rounded_is(n, d, s);
    let p = two_to(s);
    let w = nearest(n, d * p);
    let far = s * HALF as nat + w;
    if w == FULL {
        lemma_fundamental_div_mod_converse(far as int, HALF as int, (s + 2) as int, 0);
        assert(two_to(s + 1) == 2 * p);
        assert(size_at(far) == HALF as nat * two_to(s + 1));
        assert(size_at(far) == w * p) by (nonlinear_arith)
            requires
                size_at(far) == HALF as nat * (2 * p),
                w == 2 * HALF as nat,
        ;
    } else if far >= HALF {
        lemma_fundamental_div_mod_converse(far as int, HALF as int, (s + 1) as int, w - HALF);
        assert(size_at(far) == w * p);
    } else {
        assert(size_at(far) == w * p);
    }
}

/// No finite number is nearer to a fraction than the one it is rounded to.
pub(crate) proof fn lemma_none_nearer_to_fraction(n: nat, d: nat, far: nat)
    requires
        d > 0,
        far < INFINITY,
        rounded(n, d) < INFINITY,
    ensures
        size_of(size_at(rounded(n, d)) * d - n) <= size_of(size_at(far) * d - n),
{
    let s = scale_of(n, d);
    let p = two_to(s) as int;
    lemma_rounded_fraction_value(n, d);
    lemma_two_positive(s);
    let u = d * p;
    assert(u > 0) by (nonlinear_arith)
        requires
            u == d * p,
            d > 0,
            p > 0,
    ;
    let q = n as int / u;
    let r = n as int % u;
    lemma_fundamental_div_mod(n as int, u);
    assert(q >= 0) by (nonlinear_arith)
        requires
            q == n as int / u,
            u > 0,
    ;
    assert(q * u == n - r && (q + 1) * u == n - r + u) by (nonlinear_arith)
        requires
            n == u * q + r,
    ;
    if s > 0 {
        assert(q >= HALF) by (nonlinear_arith)
            requires
                n >= u * HALF,
                n == u * q + r,
                r < u,
                u > 0,
        ;
    }
    lemma_none_between(far, s, q as nat);
    let y = size_at(far) as int;
    if y <= q * p {
        assert(y * d <= q * u) by (nonlinear_arith)
            requires
                y <= q * p,
                u == d * p,
                d > 0,
        ;
    } else {
        assert(y * d >= (q + 1) * u) by (nonlinear_arith)
            requires
                y >= (q + 1) * p,
                u == d * p,
                d > 0,
        ;
    }
    let w = nearest(n, u as nat) as int;
    assert(size_at(rounded(n, d)) * d == w * u) by (nonlinear_arith)
        requires
            size_at(rounded(n, d)) == w * p,
            u == d * p,
    ;
}

/// Where another number is just as near to a fraction as the one it is rounded
/// to, that one is even.
pub(crate) proof fn lemma_tie_is_even(n: nat, d: nat, far: nat)
    requires
        d > 0,
        far < INFINITY,
        rounded(n, d) < INFINITY,
        size_at(far) != size_at(rounded(n, d)),
        size_of(size_at(rounded(n, d)) * d - n) == size_of(size_at(far) * d - n),
    ensures
        rounded(n, d) % 2 == 0,
{
    let s = scale_of(n, d);
    let p = two_to(s) as int;
    lemma_rounded_fraction_value(n, d);
    lemma_rounded_is(n, d, s);
    lemma_two_positive(s);
    let u = d * p;
    assert(u > 0) by (nonlinear_arith)
        requires
            u == d * p,
            d > 0,
            p > 0,
    ;
    let q = n as int / u;
    let r = n as int % u;
    lemma_fundamental_div_mod(n as int, u);
    assert(q >= 0) by (nonlinear_arith)
        requires
            q == n as int / u,
            u > 0,
    ;
    assert(q * u == n - r && (q + 1) * u == n - r + u) by (nonlinear_arith)
        requires
            n == u * q + r,
    ;
    if s > 0 {
        assert(q >= HALF) by (nonlinear_arith)
            requires
                n >= u * HALF,
                n == u * q + r,
                r < u,
                u > 0,
        ;
    }
    lemma_none_between(far, s, q as nat);
    let y = size_at(far) as int;
    let x = size_at(rounded(n, d)) as int;
    let w = nearest(n, u as nat) as int;
    assert(x * d == w * u) by (nonlinear_arith)
        requires
            x == w * p,
            u == d * p,
    ;
    assert(y * d != x * d) by (nonlinear_arith)
        requires
            y != x,
            d > 0,
    ;
    if y <= q * p {
        assert(y * d <= q * u) by (nonlinear_arith)
            requires
                y <= q * p,
                u == d * p,
                d > 0,
        ;
    } else {
        assert(y * d >= (q + 1) * u) by (nonlinear_arith)
            requires
                y >= (q + 1) * p,
                u == d * p,
                d > 0,
        ;
    }
    assert(2 * r == u);
    assert(w % 2 == 0);
    assert(s * HALF as nat == 2 * (s * 0x8_0000_0000_0000)) by (nonlinear_arith)
        requires
            HALF == 2 * 0x8_0000_0000_0000,
    ;
}

/// A number lies within one part in 2⁵³ of the fraction that it was rounded
/// from, unless that is too small to have all its digits.
pub(crate) proof fn lemma_rounded_fraction_is_near(n: nat, d: nat)
    requires
        d > 0,
        rounded(n, d) < INFINITY,
        n >= d * HALF,
    ensures
        (size_at(rounded(n, d)) * d - n) * FULL <= n,
        (n - size_at(rounded(n, d)) * d) * FULL <= n,
{
    let s = scale_of(n, d);
    let p = two_to(s) as int;
    lemma_rounded_fraction_value(n, d);
    lemma_two_positive(s);
    let u = d * p;
    assert(u > 0) by (nonlinear_arith)
        requires
            u == d * p,
            d > 0,
            p > 0,
    ;
    let w = nearest(n, u as nat) as int;
    lemma_nearest_is_near(n, u as nat);
    assert(size_at(rounded(n, d)) * d == w * u) by (nonlinear_arith)
        requires
            size_at(rounded(n, d)) == w * p,
            u == d * p,
    ;
    if s == 0 {
        lemma_no_shift(d);
    }
    let e = size_at(rounded(n, d)) * d - n;
    assert(e * FULL <= n && -e * FULL <= n) by (nonlinear_arith)
        requires
            2 * e <= u,
            -2 * e <= u,
            n >= u * HALF,
            FULL == 2 * HALF,
    ;
}

/// Larger bits make a larger number.
pub(crate) proof fn lemma_size_grows(a: nat, b: nat)
    requires
        a < b < INFINITY,
    ensures
        size_at(a) < size_at(b),
{
    lemma_rounded_size(a);
    lemma_rounded_size(b);
    if size_at(a) >= size_at(b) {
        lemma_rounded_grows(size_at(b), size_at(a), 1);
    }
}

// ── Rounding, step by step ───────────────────────────────────────────────

/// `k` where it is positive, else 0.
pub open spec fn up(k: int) -> nat {
    if k > 0 {
        k as nat
    } else {
        0
    }
}

/// The bits of the number nearest to `m` times two to the power of `k`, in
/// units of 2⁻¹⁰⁷⁴.
pub(crate) fn round(m: u128, k: i32) -> (r: u64)
    requires
        m < 0x100_0000_0000_0000_0000_0000_0000_0000,
        -5000 <= k <= 5000,
    ensures
        r == rounded(m as nat * two_to(up(k as int)), two_to(up(-k))),
        r <= INFINITY,
{
    let ghost (m0, k0) = (m as nat, k as int);
    let mut m = m;
    let mut k = k;
    proof {
        lemma_two_positive(up(-k));
        lemma_rounded_bound(m0 * two_to(up(k0)), two_to(up(-k0)));
    }
    if m == 0 {
        proof {
            let d = two_to(up(-k0));
            assert(0 * two_to(up(k0)) == 0) by (nonlinear_arith);
            lemma_no_shift(d);
            lemma_rounded_is(0, d, 0);
            lemma_nearest_of_multiple(0, d);
        }
        return 0;
    }
    while m < 0x10_0000_0000_0000 && k > 0
        invariant
            m < 0x100_0000_0000_0000_0000_0000_0000_0000,
            -5000 <= k <= k0 <= 5000,
            k0 > 0 ==> k >= 0,
            k0 <= 0 ==> k == k0 && m == m0,
            m as nat * two_to(up(k as int)) == m0 * two_to(up(k0)),
        decreases k,
    {
        proof {
            let p = two_to((k - 1) as nat) as int;
            assert(m * (2 * p) == (m * 2) * p) by (nonlinear_arith);
        }
        m = m * 2;
        k = k - 1;
    }
    let ghost n = m as nat * two_to(up(k as int));
    let ghost d = two_to(up(-k));
    let mut u: i32 = 0;
    let mut b: u128 = 1;
    proof {
        lemma_two_constants();
        assert(two_to(0) == 1);
    }
    while u < 126 && (k + u < 0 || m / b >= 0x20_0000_0000_0000)
        invariant
            0 <= u <= 126,
            -5000 <= k <= 5000,
            b == two_to(u as nat),
            0 < b <= 0x4000_0000_0000_0000_0000_0000_0000_0000,
            m < 0x100_0000_0000_0000_0000_0000_0000_0000,
            two_to(126) == 0x4000_0000_0000_0000_0000_0000_0000_0000,
            u == 0 && k > 0 ==> m >= HALF,
            u > 0 && k + u > 0 ==> m >= b * HALF,
        decreases 126 - u,
    {
        proof {
            lemma_two_grows((u + 1) as nat, 126);
            if k + u >= 0 {
                assert(m >= b * 0x20_0000_0000_0000) by (nonlinear_arith)
                    requires
                        m / b >= 0x20_0000_0000_0000,
                        b > 0,
                ;
            }
        }
        b = b * 2;
        u = u + 1;
    }
    if k + u < 0 {
        proof {
            lemma_two_grows(127, up(-k));
            assert(two_to(127) == 2 * two_to(126));
            lemma_no_shift(m as nat);
            lemma_no_shift(d);
            lemma_fundamental_div_mod_converse(n as int, d as int, 0, n as int);
            lemma_rounded_is(n, d, 0);
        }
        return 0;
    }
    let ghost s = (k + u) as nat;
    proof {
        assert(m < b * 0x20_0000_0000_0000) by {
            assert(m < b * 0x20_0000_0000_0000) by (nonlinear_arith)
                requires
                    m / b < 0x20_0000_0000_0000 || (u == 126 && b
                        == 0x4000_0000_0000_0000_0000_0000_0000_0000 && m
                        < 0x100_0000_0000_0000_0000_0000_0000_0000),
                    b > 0,
            ;
        }
        if k >= 0 {
            let p = two_to(k as nat);
            lemma_two_positive(k as nat);
            lemma_two_adds(k as nat, u as nat);
            assert(d == 1) by {
                assert(two_to(0) == 1);
            }
            let v = d * two_to(s);
            assert(v == b as nat * p) by (nonlinear_arith)
                requires
                    v == 1 * (p * b as nat),
            ;
            assert(n < v * FULL) by (nonlinear_arith)
                requires
                    n == m as nat * p,
                    v == b as nat * p,
                    m < b * FULL,
                    p > 0,
            ;
            if s > 0 {
                assert(n >= v * HALF) by (nonlinear_arith)
                    requires
                        n == m as nat * p,
                        v == b as nat * p,
                        m >= b * HALF,
                        p > 0,
                ;
            }
            lemma_nearest_scaled(m as nat, b as nat, p);
        } else {
            lemma_two_adds(up(-k), s);
            lemma_no_shift(m as nat);
        }
        assert(fits(n, d, s));
        if s <= 2045 {
            lemma_rounded_is(n, d, s);
        } else {
            lemma_scale_is(n, d, s);
        }
    }
    if k + u > 2045 {
        INFINITY
    } else {
        (k + u) as u64 * 0x10_0000_0000_0000 + divide_to_nearest(m, b) as u64
    }
}

/// What is left over of a division counts as one more digit, if there is any.
pub open spec fn with_rest(n: nat, d: nat) -> nat {
    2 * (n / d) + if n % d > 0 {
        1nat
    } else {
        0nat
    }
}

pub(crate) proof fn lemma_with_rest_bounds(n: nat, d: nat, x: nat)
    requires
        d > 0,
    ensures
        with_rest(n, d) < 2 * x <==> n < d * x,
{
    let q = (n / d) as int;
    let r = (n % d) as int;
    lemma_fundamental_div_mod(n as int, d as int);
    assert(q < x <==> n < d * x) by (nonlinear_arith)
        requires
            n == d * q + r,
            0 <= r < d,
    ;
}

pub(crate) proof fn lemma_nearest_with_rest(n: nat, d: nat, h: nat)
    requires
        d > 0,
        h > 0,
    ensures
        nearest(n, d * (2 * h)) == nearest(with_rest(n, d), 2 * (2 * h)),
{
    let b = 2 * h;
    let q = n / d;
    let r = (n % d) as int;
    let p = (q / b) as int;
    let t = (q % b) as int;
    lemma_fundamental_div_mod(n as int, d as int);
    lemma_fundamental_div_mod(q as int, b as int);
    let rest = t * d + r;
    assert(n == p * (d * b) + rest && 0 <= rest < d * b) by (nonlinear_arith)
        requires
            n == d * q + r,
            q == b * p + t,
            0 <= r < d,
            0 <= t < b,
            rest == t * d + r,
    ;
    lemma_fundamental_div_mod_converse(n as int, (d * b) as int, p, rest);
    let w = with_rest(n, d) as int;
    let left = w - p * (2 * b);
    assert(left == 2 * t + (w - 2 * q)) by (nonlinear_arith)
        requires
            left == w - p * (2 * b),
            q == b * p + t,
    ;
    lemma_fundamental_div_mod_converse(w, (2 * b) as int, p, left);
    if t < h {
        assert(2 * rest < d * b) by (nonlinear_arith)
            requires
                rest == t * d + r,
                r < d,
                t <= h - 1,
                b == 2 * h,
                d > 0,
        ;
    } else if t == h {
        assert(2 * rest == d * b + 2 * r) by (nonlinear_arith)
            requires
                rest == t * d + r,
                t == h,
                b == 2 * h,
        ;
    } else {
        assert(2 * rest > d * b) by (nonlinear_arith)
            requires
                rest == t * d + r,
                r >= 0,
                t >= h + 1,
                b == 2 * h,
                d > 0,
        ;
    }
}

/// A quotient of more than sixty digits can be rounded by them and whether
/// anything is left over.
pub(crate) proof fn lemma_rounded_quotient(n: nat, d: nat, p: nat, q: nat)
    requires
        d > 0,
        n / d >= 0x1000_0000_0000_0000,
    ensures
        rounded(n * two_to(p), d * two_to(q)) == rounded(
            with_rest(n, d) * two_to(p),
            2 * two_to(q),
        ),
{
    let w = with_rest(n, d);
    let (x, y) = (two_to(p), two_to(q));
    lemma_two_positive(p);
    lemma_two_positive(q);
    let s = scale_of(w * x, 2 * y);
    lemma_scale(w * x, 2 * y);
    lemma_two_positive(s);
    lemma_two_adds(q, s);
    lemma_two_constants();
    let z = two_to(q + s);
    assert(2 * y * two_to(s) == 2 * z) by (nonlinear_arith)
        requires
            z == y * two_to(s),
    ;
    assert(z > 128 * x) by (nonlinear_arith)
        requires
            w * x < 2 * z * FULL,
            w >= 0x2000_0000_0000_0000,
            FULL == 0x20_0000_0000_0000,
            x > 0,
    ;
    if q + s <= p + 7 {
        lemma_two_adds(p, 7);
        lemma_two_grows(q + s, p + 7);
        assert(x * 128 == 128 * x);
        assert(false);
    }
    let g = (q + s - p - 1) as nat;
    let h = two_to(g);
    lemma_two_positive(g);
    lemma_two_adds(g + 1, p);
    let b = 2 * h;
    assert(two_to(g + 1) == b);
    assert(z == b * x);
    lemma_with_rest_bounds(n, d, b * FULL as nat);
    lemma_with_rest_bounds(n, d, b * HALF as nat);
    let e = d * y;
    assert(e > 0) by (nonlinear_arith)
        requires
            e == d * y,
            d > 0,
            y > 0,
    ;
    let v = d * b;
    assert(v > 0) by (nonlinear_arith)
        requires
            v == d * b,
            d > 0,
            b > 0,
    ;
    assert(e * two_to(s) == v * x) by (nonlinear_arith)
        requires
            e == d * y,
            b * x == y * two_to(s),
            v == d * b,
    ;
    assert(w < 2 * (b * FULL)) by (nonlinear_arith)
        requires
            w * x < 2 * (b * x) * FULL,
            x > 0,
    ;
    assert(d * (b * FULL) == v * FULL && d * (b * HALF) == v * HALF) by (nonlinear_arith)
        requires
            v == d * b,
    ;
    assert(n * x < v * x * FULL) by (nonlinear_arith)
        requires
            n < v * FULL,
            x > 0,
    ;
    if s > 0 {
        assert(w >= 2 * (b * HALF)) by (nonlinear_arith)
            requires
                w * x >= 2 * (b * x) * HALF,
                x > 0,
        ;
        assert(n * x >= v * x * HALF) by (nonlinear_arith)
            requires
                n >= v * HALF,
                x > 0,
        ;
    }
    lemma_scale_is(n * x, e, s);
    lemma_nearest_scaled(n, v, x);
    lemma_nearest_scaled(w, 2 * b, x);
    assert(2 * b * x == 2 * z) by (nonlinear_arith)
        requires
            z == b * x,
    ;
    lemma_nearest_with_rest(n, d, h);
}

/// What is far smaller than a number does not change it.
pub(crate) proof fn lemma_rounded_far(m: nat, s: nat, e: nat, less: bool)
    requires
        HALF <= m < FULL,
        1 <= s <= 2045,
        4 * e < two_to(s),
    ensures
        rounded(
            if less {
                (m * two_to(s) - e) as nat
            } else {
                m * two_to(s) + e
            },
            1,
        ) == s * HALF as nat + m,
{
    let u = two_to(s);
    lemma_two_positive(s);
    assert(1 * u == u);
    assert(m * u <= u * FULL - u && m * u >= u * HALF) by (nonlinear_arith)
        requires
            HALF <= m <= FULL - 1,
            u > 0,
    ;
    if !less || e == 0 {
        let n = m * u + e;
        assert(fits(n, 1, s));
        lemma_rounded_is(n, 1, s);
        lemma_fundamental_div_mod_converse(n as int, u as int, m as int, e as int);
    } else if m > HALF {
        let n = (m * u - e) as nat;
        assert(m * u >= u * HALF + u) by (nonlinear_arith)
            requires
                m >= HALF + 1,
                u > 0,
        ;
        assert(fits(n, 1, s));
        lemma_rounded_is(n, 1, s);
        assert((m - 1) * u == m * u - u) by (nonlinear_arith);
        lemma_fundamental_div_mod_converse(n as int, u as int, m - 1, u - e);
    } else {
        let t = (s - 1) as nat;
        let v = two_to(t);
        let n = (m * u - e) as nat;
        assert(u == 2 * v);
        assert(1 * v == v);
        assert(HALF as nat * u == FULL as nat * v) by (nonlinear_arith)
            requires
                u == 2 * v,
                FULL == 2 * HALF,
        ;
        assert(v * FULL == FULL * v && v * HALF == HALF * v) by (nonlinear_arith);
        assert(FULL * v == 2 * (HALF * v)) by (nonlinear_arith)
            requires
                FULL == 2 * HALF,
        ;
        assert(HALF * v >= v) by (nonlinear_arith)
            requires
                v > 0,
                HALF >= 1,
        ;
        assert(fits(n, 1, t));
        lemma_rounded_is(n, 1, t);
        assert((FULL - 1) * v == FULL * v - v) by (nonlinear_arith);
        lemma_fundamental_div_mod_converse(n as int, v as int, FULL - 1, v - e);
    }
}

} // verus!
