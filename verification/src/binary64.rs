//! Binary64 numbers, the floating-point numbers of 64 bits: what they are, what
//! is computed with them, and how they are written.

use vstd::arithmetic::div_mod::lemma_fundamental_div_mod;
use vstd::prelude::*;

use crate::binary64::rounding::{
    lemma_nearest_of_multiple, lemma_no_shift, lemma_none_nearer, lemma_none_nearer_to_fraction,
    lemma_rounded_bound, lemma_rounded_exact, lemma_rounded_far, lemma_rounded_fraction,
    lemma_rounded_fraction_is_near, lemma_rounded_grows, lemma_rounded_is, lemma_rounded_is_near,
    lemma_rounded_quotient, lemma_rounded_scaled, lemma_rounded_size, lemma_size_grows,
    lemma_tie_is_even, lemma_two_adds, lemma_two_constants, lemma_two_grows, lemma_two_positive,
    power_of_two, round, up,
};

pub mod rounding;
pub mod writing;

verus! {

// ── Numbers ──────────────────────────────────────────────────────────────

/// The bit of the sign: 2⁶³.
pub const SIGN: u64 = 0x8000_0000_0000_0000;

/// The bits of infinity. A number without its sign is finite below, and none
/// above.
pub const INFINITY: u64 = 0x7ff0_0000_0000_0000;

/// 2⁵².
pub const HALF: u64 = 0x10_0000_0000_0000;

/// 2⁵³: what the digits of a number stay below.
pub const FULL: u64 = 0x20_0000_0000_0000;

/// Two to the power of `k`.
pub open spec fn two_to(k: nat) -> nat
    decreases k,
{
    if k == 0 {
        1
    } else {
        2 * two_to((k - 1) as nat)
    }
}

/// One, in units of 2⁻¹⁰⁷⁴, of which every finite number is a whole multiple.
pub open spec fn one() -> nat {
    two_to(1074)
}

/// How far `n` is from 0.
pub open spec fn size_of(n: int) -> nat {
    if n < 0 {
        (-n) as nat
    } else {
        n as nat
    }
}

/// A binary64 number, by its bits.
#[derive(Debug, Clone, Copy, PartialEq, Eq, Structural)]
pub struct Binary64 {
    pub bits: u64,
}

impl Binary64 {
    pub open spec fn is_negative(self) -> bool {
        self.bits >= SIGN
    }

    /// The bits without the sign.
    pub open spec fn far(self) -> nat {
        (self.bits % SIGN) as nat
    }

    pub open spec fn is_nan(self) -> bool {
        self.far() > INFINITY
    }

    pub open spec fn is_infinite(self) -> bool {
        self.far() == INFINITY
    }

    pub open spec fn is_finite(self) -> bool {
        self.far() < INFINITY
    }

    /// The binary digits of a finite number, as a whole number.
    pub open spec fn digits(self) -> nat {
        digits_of(self.far())
    }

    /// How many places the digits stand to the left of the last there is.
    pub open spec fn shift(self) -> nat {
        shift_of(self.far())
    }

    /// How far a finite number is from 0, in units of 2⁻¹⁰⁷⁴.
    pub open spec fn size(self) -> nat {
        size_at(self.far())
    }

    /// A finite number, in units of 2⁻¹⁰⁷⁴.
    pub open spec fn value(self) -> int {
        if self.is_negative() {
            -self.size()
        } else {
            self.size() as int
        }
    }

    /// The place of a number in the order of all that are numbers.
    pub open spec fn order(self) -> int {
        if self.is_negative() {
            -self.far()
        } else {
            self.far() as int
        }
    }
}

/// The binary digits of the number with these bits.
pub open spec fn digits_of(far: nat) -> nat {
    if far < HALF {
        far
    } else {
        far % HALF as nat + HALF as nat
    }
}

/// How many places the digits of the number with these bits are shifted.
pub open spec fn shift_of(far: nat) -> nat {
    if far < HALF {
        0
    } else {
        (far / HALF as nat - 1) as nat
    }
}

/// The number with these bits, in units of 2⁻¹⁰⁷⁴.
pub open spec fn size_at(far: nat) -> nat {
    digits_of(far) * two_to(shift_of(far))
}

/// Whether `a < b`. A comparison with what is no number does not hold.
pub open spec fn less(a: Binary64, b: Binary64) -> bool {
    !a.is_nan() && !b.is_nan() && a.order() < b.order()
}

/// Whether `a > 0`.
pub open spec fn is_positive(a: Binary64) -> bool {
    0 < a.bits <= INFINITY
}

/// The number with these bits and a sign.
pub open spec fn signed(negative: bool, far: nat) -> Binary64 {
    Binary64 {
        bits: (if negative {
            far + SIGN
        } else {
            far as int
        }) as u64,
    }
}

/// What is no number.
pub open spec fn nan() -> Binary64 {
    Binary64 { bits: 0x7ff8_0000_0000_0000 }
}

/// Zero.
pub open spec fn zero() -> Binary64 {
    Binary64 { bits: 0 }
}

// ── Rounding ─────────────────────────────────────────────────────────────

/// `a / b` rounded to the nearest whole number; a tie goes to the even one.
pub open spec fn nearest(a: nat, b: nat) -> nat {
    let q = a / b;
    let rest = a % b;
    if 2 * rest > b || (2 * rest == b && q % 2 == 1) {
        q + 1
    } else {
        q
    }
}

/// How many places are to be dropped so that no more than 53 digits are left
/// of `n / d`.
pub open spec fn scale_of(n: nat, d: nat) -> nat
    decreases n - d,
{
    if d == 0 || n < d * FULL {
        0
    } else {
        1 + scale_of(n, 2 * d)
    }
}

/// The bits of the number nearest to `n / d` units of 2⁻¹⁰⁷⁴: 53 digits of it,
/// rounded, behind the number of places dropped. Digits that are rounded up to
/// the 54th carry into that number, and what is too large into infinity.
pub open spec fn rounded(n: nat, d: nat) -> nat {
    let s = scale_of(n, d);
    if s > 2045 {
        INFINITY as nat
    } else {
        s * HALF as nat + nearest(n, d * two_to(s))
    }
}

// ── Arithmetic ───────────────────────────────────────────────────────────

/// The number nearest to `n`.
pub open spec fn whole(n: nat) -> Binary64 {
    signed(false, rounded(n * one(), 1))
}

pub open spec fn opposite(a: Binary64) -> Binary64 {
    signed(!a.is_negative(), a.far())
}

/// `a + b`.
pub open spec fn sum(a: Binary64, b: Binary64) -> Binary64 {
    if a.is_nan() || b.is_nan() || (a.is_infinite() && b.is_infinite() && a.is_negative()
        != b.is_negative()) {
        nan()
    } else if a.is_infinite() {
        a
    } else if b.is_infinite() {
        b
    } else {
        let v = a.value() + b.value();
        if v == 0 {
            signed(a.is_negative() && b.is_negative(), 0)
        } else {
            signed(v < 0, rounded(size_of(v), 1))
        }
    }
}

/// `a - b`.
pub open spec fn difference(a: Binary64, b: Binary64) -> Binary64 {
    sum(a, opposite(b))
}

/// `a / b`.
pub open spec fn quotient(a: Binary64, b: Binary64) -> Binary64 {
    let negative = a.is_negative() != b.is_negative();
    if a.is_nan() || b.is_nan() || (a.is_infinite() && b.is_infinite()) || (a.far() == 0 && b.far()
        == 0) {
        nan()
    } else if a.is_infinite() || b.far() == 0 {
        signed(negative, INFINITY as nat)
    } else if b.is_infinite() {
        signed(negative, 0)
    } else {
        signed(negative, rounded(a.size() * one(), b.size()))
    }
}

/// `a * 100`.
pub open spec fn hundredfold(a: Binary64) -> Binary64 {
    if a.is_nan() {
        nan()
    } else if a.is_infinite() {
        a
    } else {
        signed(a.is_negative(), rounded(a.size() * 100, 1))
    }
}

/// The larger of `a` and 0; 0 where `a` is no number.
pub open spec fn at_least_zero(a: Binary64) -> Binary64 {
    if is_positive(a) {
        a
    } else {
        zero()
    }
}

// ── Computing ────────────────────────────────────────────────────────────

fn with_sign(negative: bool, far: u64) -> (r: Binary64)
    requires
        far <= INFINITY,
    ensures
        r == signed(negative, far as nat),
        r.far() == far,
        r.is_negative() == negative,
{
    Binary64 { bits: if negative { far + 0x8000_0000_0000_0000 } else { far } }
}

impl Binary64 {
    pub fn zero() -> (r: Binary64)
        ensures
            r == zero(),
    {
        Binary64 { bits: 0 }
    }

    /// The number nearest to `n`.
    pub fn whole(n: u64) -> (r: Binary64)
        ensures
            r == whole(n as nat),
    {
        proof {
            assert(two_to(0) == 1);
        }
        with_sign(false, round(n as u128, 1074))
    }

    fn without_sign(self) -> (r: u64)
        ensures
            r == self.far(),
    {
        self.bits % 0x8000_0000_0000_0000
    }

    fn minus_sign(self) -> (r: bool)
        ensures
            r == self.is_negative(),
    {
        self.bits >= 0x8000_0000_0000_0000
    }

    /// The digits of a finite number, and their shift.
    fn parts(self) -> (r: (u64, i32))
        requires
            self.is_finite(),
        ensures
            r.0 == self.digits(),
            r.1 == self.shift(),
            r.0 < FULL,
            0 <= r.1 <= 2045,
            r.1 > 0 ==> r.0 >= HALF,
            r.0 == 0 <==> self.far() == 0,
            self.size() == r.0 as nat * two_to(r.1 as nat),
    {
        let far = self.without_sign();
        if far < 0x10_0000_0000_0000 {
            (far, 0)
        } else {
            (
                far % 0x10_0000_0000_0000 + 0x10_0000_0000_0000,
                (far / 0x10_0000_0000_0000) as i32 - 1,
            )
        }
    }

    pub fn opposite(self) -> (r: Binary64)
        ensures
            r == opposite(self),
    {
        if self.minus_sign() {
            Binary64 { bits: self.bits - 0x8000_0000_0000_0000 }
        } else {
            Binary64 { bits: self.bits + 0x8000_0000_0000_0000 }
        }
    }

    /// The sum of two finite numbers, the digits of the second shifted no more
    /// than those of the first.
    fn plus_finite(self, other: Binary64) -> (r: Binary64)
        requires
            self.is_finite(),
            other.is_finite(),
            self.shift() >= other.shift(),
        ensures
            r == sum(self, other),
    {
        let (m, s) = self.parts();
        let (n, t) = other.parts();
        let gap: i32 = s - t;
        let ghost v = self.value() + other.value();
        if gap > 64 {
            proof {
                let e = other.size();
                lemma_two_adds(t as nat, gap as nat);
                lemma_two_constants();
                lemma_two_grows(64, gap as nat);
                lemma_two_positive(t as nat);
                let p = two_to(t as nat);
                let g = two_to(gap as nat);
                assert(4 * e < two_to(s as nat)) by (nonlinear_arith)
                    requires
                        e == n as nat * p,
                        n < FULL,
                        FULL == 0x20_0000_0000_0000,
                        two_to(s as nat) == p * g,
                        g >= 0x1_0000_0000_0000_0000,
                        p > 0,
                ;
                assert(self.size() >= two_to(s as nat)) by (nonlinear_arith)
                    requires
                        self.size() == m as nat * two_to(s as nat),
                        m >= HALF,
                        HALF >= 1,
                ;
                lemma_rounded_far(
                    m as nat,
                    s as nat,
                    e,
                    self.is_negative() != other.is_negative(),
                );
            }
            return self;
        }
        let p = power_of_two(gap as u32);
        proof {
            lemma_two_constants();
            lemma_two_grows(gap as nat, 64);
            assert(m * p < 0x20_0000_0000_0000 * 0x1_0000_0000_0000_0000) by (nonlinear_arith)
                requires
                    0 <= m < 0x20_0000_0000_0000,
                    0 < p <= 0x1_0000_0000_0000_0000,
            ;
        }
        let a: u128 = m as u128 * p;
        let b: u128 = n as u128;
        let same = self.minus_sign() == other.minus_sign();
        let (c, negative): (u128, bool) = if same {
            (a + b, self.minus_sign())
        } else if a >= b {
            (a - b, self.minus_sign())
        } else {
            (b - a, other.minus_sign())
        };
        proof {
            let u = two_to(t as nat) as int;
            lemma_two_positive(t as nat);
            lemma_two_adds(gap as nat, t as nat);
            assert(self.size() == a * u) by (nonlinear_arith)
                requires
                    self.size() == m as nat * (p as nat * u),
                    a == m * p,
            ;
            assert((a + b) * u == a * u + b * u && (a - b) * u == a * u - b * u && (b - a) * u == b
                * u - a * u) by (nonlinear_arith);
            assert(size_of(v) == c * u);
            assert(c == 0 <==> c * u == 0) by (nonlinear_arith)
                requires
                    u > 0,
            ;
            assert(c > 0 ==> c * u > 0) by (nonlinear_arith)
                requires
                    u > 0,
            ;
            assert(c > 0 ==> (v < 0) == negative);
            assert(two_to(0) == 1);
        }
        if c == 0 {
            with_sign(self.minus_sign() && other.minus_sign(), 0)
        } else {
            with_sign(negative, round(c, t))
        }
    }

    pub fn plus(self, other: Binary64) -> (r: Binary64)
        ensures
            r == sum(self, other),
    {
        let a = self.without_sign();
        let b = other.without_sign();
        if a > INFINITY || b > INFINITY || (a == INFINITY && b == INFINITY && self.minus_sign()
            != other.minus_sign()) {
            Binary64 { bits: 0x7ff8_0000_0000_0000 }
        } else if a == INFINITY {
            self
        } else if b == INFINITY {
            other
        } else {
            let (_, s) = self.parts();
            let (_, t) = other.parts();
            if s >= t {
                self.plus_finite(other)
            } else {
                other.plus_finite(self)
            }
        }
    }

    pub fn minus(self, other: Binary64) -> (r: Binary64)
        ensures
            r == difference(self, other),
    {
        self.plus(other.opposite())
    }

    /// The bits of the quotient of two finite numbers, without a sign.
    fn divide_finite(self, other: Binary64) -> (r: u64)
        requires
            self.is_finite(),
            other.is_finite(),
            other.far() > 0,
        ensures
            r == rounded(self.size() * one(), other.size()),
            r <= INFINITY,
    {
        let (m0, s) = self.parts();
        let (d, t) = other.parts();
        let ghost n0 = self.size() * one();
        let ghost d0 = other.size();
        proof {
            lemma_two_positive(t as nat);
            assert(d0 > 0) by (nonlinear_arith)
                requires
                    d0 == d as nat * two_to(t as nat),
                    d > 0,
                    two_to(t as nat) > 0,
            ;
        }
        if m0 == 0 {
            proof {
                assert(n0 == 0) by (nonlinear_arith)
                    requires
                        n0 == self.size() * one(),
                        self.size() == 0 * two_to(s as nat),
                ;
                lemma_no_shift(d0);
                lemma_rounded_is(0, d0, 0);
                lemma_nearest_of_multiple(0, d0);
            }
            return 0;
        }
        let mut m: u64 = m0;
        let mut x: i32 = 0;
        proof {
            lemma_no_shift(m0 as nat);
        }
        while m < 0x10_0000_0000_0000
            invariant
                0 < m < FULL,
                0 <= x <= 64,
                m == m0 as nat * two_to(x as nat),
                m0 > 0,
                x < 64 || m >= HALF,
            decreases 0x20_0000_0000_0000 - m,
        {
            proof {
                let p = two_to(x as nat) as int;
                assert(m0 * (2 * p) == 2 * (m0 * p)) by (nonlinear_arith);
                if x == 63 {
                    lemma_two_constants();
                    assert(m0 * p >= p) by (nonlinear_arith)
                        requires
                            m0 >= 1,
                            p >= 0,
                    ;
                }
            }
            m = m * 2;
            x = x + 1;
        }
        let n: u128 = m as u128 * 0x1_0000_0000_0000_0000;
        let q: u128 = n / d as u128;
        let rest: u128 = n % d as u128;
        proof {
            assert(q >= 0x1000_0000_0000_0000 && q <= n) by (nonlinear_arith)
                requires
                    q == n / d as u128,
                    n >= 0x10_0000_0000_0000 * 0x1_0000_0000_0000_0000,
                    0 < d < 0x20_0000_0000_0000,
            ;
        }
        let w: u128 = 2 * q + if rest > 0 { 1u128 } else { 0u128 };
        let e: i32 = s + 1074 - t - x - 64;
        proof {
            lemma_rounded_quotient(n as nat, d as nat, up(e as int), up(-e));
            lemma_divided(m0 as nat, s as nat, d as nat, t as nat, x as nat, n as nat);
            lemma_two_positive(up(-e));
            lemma_two_positive(up(1 - e));
            let (a, b) = (two_to(up(e as int)), 2 * two_to(up(-e)));
            let (f, g) = (two_to(up(e - 1)), two_to(up(1 - e)));
            assert(a * g == f * b) by {
                if e > 0 {
                    assert(a == 2 * f);
                    lemma_no_shift(a);
                    lemma_no_shift(f);
                    assert(f * b == 2 * f) by (nonlinear_arith)
                        requires
                            b == 2,
                    ;
                } else {
                    assert(g == b);
                    assert(a == f);
                }
            }
            assert(w as nat * a * g == w as nat * f * b) by (nonlinear_arith)
                requires
                    a * g == f * b,
            ;
            lemma_rounded_fraction(w as nat * a, b, w as nat * f, g);
        }
        round(w, e - 1)
    }

    pub fn divide(self, other: Binary64) -> (r: Binary64)
        ensures
            r == quotient(self, other),
    {
        let a = self.without_sign();
        let b = other.without_sign();
        let negative = self.minus_sign() != other.minus_sign();
        if a > INFINITY || b > INFINITY || (a == INFINITY && b == INFINITY) || (a == 0 && b == 0) {
            Binary64 { bits: 0x7ff8_0000_0000_0000 }
        } else if a == INFINITY || b == 0 {
            with_sign(negative, INFINITY)
        } else if b == INFINITY {
            with_sign(negative, 0)
        } else {
            with_sign(negative, self.divide_finite(other))
        }
    }

    pub fn hundredfold(self) -> (r: Binary64)
        ensures
            r == hundredfold(self),
    {
        let far = self.without_sign();
        if far > INFINITY {
            return Binary64 { bits: 0x7ff8_0000_0000_0000 };
        }
        if far == INFINITY {
            return self;
        }
        let (m, s) = self.parts();
        proof {
            let p = two_to(s as nat);
            assert(m as nat * p * 100 == (m as nat * 100) * p) by (nonlinear_arith);
            assert(two_to(0) == 1);
        }
        with_sign(self.minus_sign(), round(m as u128 * 100, s))
    }

    /// The larger of the number and 0; 0 where it is no number.
    pub fn or_zero(self) -> (r: Binary64)
        ensures
            r == at_least_zero(self),
    {
        if self.is_above_zero() {
            self
        } else {
            Binary64 { bits: 0 }
        }
    }

    /// Whether the number is greater than 0.
    pub fn is_above_zero(self) -> (r: bool)
        ensures
            r == is_positive(self),
    {
        0 < self.bits && self.bits <= INFINITY
    }

    /// Whether the number is less than another.
    pub fn is_less(self, other: Binary64) -> (r: bool)
        ensures
            r == less(self, other),
    {
        let a = self.without_sign();
        let b = other.without_sign();
        if a > INFINITY || b > INFINITY {
            false
        } else if self.minus_sign() {
            if other.minus_sign() {
                b < a
            } else {
                a > 0 || b > 0
            }
        } else {
            !other.minus_sign() && a < b
        }
    }
}

proof fn lemma_divided(m0: nat, s: nat, d: nat, t: nat, x: nat, n: nat)
    requires
        d > 0,
        n == m0 * two_to(x) * 0x1_0000_0000_0000_0000,
    ensures
        ({
            let e = s + 1074 - t - x - 64;
            rounded(m0 * two_to(s) * one(), d * two_to(t)) == rounded(
                n * two_to(up(e)),
                d * two_to(up(-e)),
            )
        }),
{
    let e = s + 1074 - t - x - 64;
    let (p, q) = (up(e), up(-e));
    lemma_two_constants();
    lemma_two_positive(t);
    lemma_two_positive(q);
    lemma_two_adds(s, 1074);
    lemma_two_adds(s + 1074, q);
    lemma_two_adds(x, 64);
    lemma_two_adds(x + 64, p);
    lemma_two_adds(x + 64 + p, t);
    let (f, g) = (two_to(s) * one(), two_to(x) * two_to(64));
    let (y, z) = (two_to(p), two_to(q));
    let u = two_to(t);
    assert(f * z == g * y * u);
    assert(d * u > 0 && d * z > 0) by (nonlinear_arith)
        requires
            d > 0,
            u > 0,
            z > 0,
    ;
    assert(m0 * two_to(s) * one() == m0 * f) by (nonlinear_arith)
        requires
            f == two_to(s) * one(),
    ;
    assert(n == m0 * g) by (nonlinear_arith)
        requires
            n == m0 * two_to(x) * two_to(64),
            g == two_to(x) * two_to(64),
    ;
    assert(m0 * f * (d * z) == m0 * g * y * (d * u)) by (nonlinear_arith)
        requires
            f * z == g * y * u,
    ;
    lemma_rounded_fraction(m0 * f, d * u, n * y, d * z);
}

// ── Laws ─────────────────────────────────────────────────────────────────

/// Whether `n` is no farther from `exact` than one part in 2⁵³ of it.
pub open spec fn is_near(n: int, exact: int) -> bool {
    (n - exact) * FULL <= exact && (exact - n) * FULL <= exact
}

/// A number is rounded to the one nearest to it: no finite number is nearer.
pub proof fn law_rounded_to_the_nearest(n: nat, far: nat)
    requires
        far < INFINITY,
        rounded(n, 1) < INFINITY,
    ensures
        size_of(size_at(rounded(n, 1)) - n) <= size_of(size_at(far) - n),
{
    lemma_none_nearer(n, far);
}

/// Every finite number is rounded to itself.
pub proof fn law_numbers_are_kept(far: nat)
    requires
        far < INFINITY,
    ensures
        rounded(size_at(far), 1) == far,
{
    lemma_rounded_size(far);
}

/// Powers of two are positive, and multiply as their exponents add.
pub proof fn law_powers_of_two(a: nat, b: nat)
    ensures
        two_to(a) > 0,
        two_to(b) > 0,
        two_to(a + b) == two_to(a) * two_to(b),
{
    lemma_two_positive(a);
    lemma_two_positive(b);
    lemma_two_adds(a, b);
}

/// Finite numbers are in the order of what they stand for.
pub proof fn law_order_is_that_of_values(a: Binary64, b: Binary64)
    requires
        a.is_finite(),
        b.is_finite(),
    ensures
        less(a, b) <==> a.value() < b.value(),
        is_positive(a) <==> a.value() > 0,
{
    lemma_sizes_compare(a.far(), b.far());
    lemma_sizes_compare(b.far(), a.far());
    lemma_sizes_compare(0, a.far());
    lemma_sizes_compare(0, b.far());
    lemma_no_shift(0);
}

proof fn lemma_sizes_compare(a: nat, b: nat)
    requires
        a < INFINITY,
        b < INFINITY,
    ensures
        a < b <==> size_at(a) < size_at(b),
        size_at(0) == 0,
{
    lemma_no_shift(0);
    if a < b {
        lemma_size_grows(a, b);
    } else if b < a {
        lemma_size_grows(b, a);
    }
}

/// A whole number below 2⁵³ is held as it is.
pub proof fn law_whole_is_exact(n: nat)
    requires
        n < FULL,
    ensures
        whole(n).is_finite(),
        whole(n).value() == n * one(),
{
    lemma_rounded_exact(n, 1074);
}

/// A whole number is held as a number that is not negative.
pub proof fn law_whole_is_not_negative(n: nat)
    ensures
        !whole(n).is_negative(),
        !whole(n).is_nan(),
{
    lemma_rounded_bound(n * one(), 1);
}

/// A quotient is negative where one of the numbers is and the other is not,
/// unless it is no number. A hundredfold has the sign of the number.
pub proof fn law_signs(a: Binary64, b: Binary64)
    ensures
        quotient(a, b).is_negative() ==> a.is_negative() != b.is_negative(),
        quotient(a, b).is_nan() || (quotient(a, b).is_negative() <==> a.is_negative()
            != b.is_negative()),
        hundredfold(a).is_negative() ==> a.is_negative(),
        a.is_nan() || (hundredfold(a).is_negative() <==> a.is_negative()),
{
    if a.is_finite() && b.is_finite() && b.far() > 0 {
        lemma_sizes_compare(0, b.far());
        lemma_rounded_bound(a.size() * one(), b.size());
    }
    lemma_rounded_bound(a.size() * 100, 1);
}

/// A number from 0 up to a whole number has a whole part below that.
pub proof fn law_below_whole(a: Binary64, n: nat)
    requires
        n < HALF,
        !a.is_negative(),
        less(a, whole(n)),
    ensures
        a.is_finite(),
        a.shift() < 1074,
        a.size() / one() < n,
{
    law_whole_is_exact(n);
    law_whole_is_not_negative(n);
    law_order_is_that_of_values(a, whole(n));
    lemma_two_positive(1074);
    let size = a.size();
    if a.shift() >= 1074 {
        lemma_two_grows(1074, a.shift());
        assert(size >= HALF * one()) by (nonlinear_arith)
            requires
                size == a.digits() * two_to(a.shift()),
                a.digits() >= HALF,
                two_to(a.shift()) >= one(),
        ;
        assert(HALF * one() >= n * one()) by (nonlinear_arith)
            requires
                n < HALF,
        ;
    }
    assert(size / one() < n) by (nonlinear_arith)
        requires
            size < n * one(),
            one() > 0,
    ;
}

proof fn lemma_signed(negative: bool, far: nat)
    requires
        far <= INFINITY,
    ensures
        signed(negative, far).far() == far,
        signed(negative, far).is_negative() == negative,
{
}

/// The bits of a sum of finite numbers.
proof fn lemma_finite_sum(a: Binary64, b: Binary64)
    requires
        a.is_finite(),
        b.is_finite(),
    ensures
        ({
            let v = a.value() + b.value();
            &&& sum(a, b).far() == if v == 0 {
                0
            } else {
                rounded(size_of(v), 1)
            }
            &&& v != 0 ==> sum(a, b).is_negative() == (v < 0)
        }),
{
    let v = a.value() + b.value();
    lemma_rounded_bound(size_of(v), 1);
    lemma_signed(v < 0, rounded(size_of(v), 1));
    lemma_signed(a.is_negative() && b.is_negative(), 0);
}

proof fn lemma_opposite(b: Binary64)
    requires
        b.is_finite(),
    ensures
        opposite(b).is_finite(),
        opposite(b).value() == -b.value(),
{
    lemma_signed(!b.is_negative(), b.far());
}

proof fn lemma_nothing()
    ensures
        size_at(0) == 0,
{
    lemma_no_shift(0);
}

/// A positive number is rounded to one that is near, and no larger than a
/// number that it is not above.
proof fn lemma_rounded_below(v: nat, far: nat)
    requires
        far < INFINITY,
        v <= size_at(far),
    ensures
        rounded(v, 1) <= far,
        size_at(rounded(v, 1)) <= size_at(far),
        is_near(size_at(rounded(v, 1)) as int, v as int),
{
    lemma_rounded_size(far);
    lemma_rounded_grows(v, size_at(far), 1);
    lemma_rounded_is_near(v);
    lemma_sizes_compare(far, rounded(v, 1));
}

proof fn lemma_rounded_above(v: nat, far: nat)
    requires
        far < INFINITY,
        size_at(far) <= v,
        rounded(v, 1) < INFINITY,
    ensures
        size_at(far) <= size_at(rounded(v, 1)),
{
    lemma_rounded_size(far);
    lemma_rounded_grows(size_at(far), v, 1);
    lemma_sizes_compare(rounded(v, 1), far);
}

/// A difference of numbers of which the second is no larger is within one part
/// in 2⁵³ of what it should be, and neither negative nor larger than the first.
pub proof fn law_difference_is_near(a: Binary64, b: Binary64)
    requires
        a.is_finite(),
        b.is_finite(),
        0 <= b.value() <= a.value(),
    ensures
        difference(a, b).is_finite(),
        0 <= difference(a, b).value() <= a.value(),
        is_near(difference(a, b).value(), a.value() - b.value()),
{
    lemma_opposite(b);
    lemma_finite_sum(a, opposite(b));
    lemma_nothing();
    let v = (a.value() - b.value()) as nat;
    if v != 0 {
        lemma_rounded_below(v, a.far());
    }
}

/// A sum is the number nearest to the exact one: no finite number is nearer.
pub proof fn law_sum_is_nearest(a: Binary64, b: Binary64, c: Binary64)
    requires
        a.is_finite(),
        b.is_finite(),
        c.is_finite(),
        sum(a, b).is_finite(),
    ensures
        size_of(sum(a, b).value() - (a.value() + b.value())) <= size_of(
            c.value() - (a.value() + b.value()),
        ),
{
    let v = a.value() + b.value();
    lemma_finite_sum(a, b);
    lemma_nothing();
    if v != 0 {
        lemma_none_nearer(size_of(v), c.far());
        lemma_none_nearer(size_of(v), 0);
    }
}

/// A difference is the number nearest to the exact one.
pub proof fn law_difference_is_nearest(a: Binary64, b: Binary64, c: Binary64)
    requires
        a.is_finite(),
        b.is_finite(),
        c.is_finite(),
        difference(a, b).is_finite(),
    ensures
        size_of(difference(a, b).value() - (a.value() - b.value())) <= size_of(
            c.value() - (a.value() - b.value()),
        ),
{
    lemma_opposite(b);
    law_sum_is_nearest(a, opposite(b), c);
}

/// A quotient is the number nearest to the exact one: times what it was divided
/// by, no finite number is nearer to what was divided. Its sign is given by
/// [`law_signs`].
pub proof fn law_quotient_is_nearest(a: Binary64, b: Binary64, c: Binary64)
    requires
        a.is_finite(),
        b.is_finite(),
        b.value() != 0,
        c.is_finite(),
        quotient(a, b).is_finite(),
    ensures
        size_of(quotient(a, b).size() * b.size() - a.size() * one()) <= size_of(
            c.size() * b.size() - a.size() * one(),
        ),
{
    lemma_nothing();
    lemma_sizes_compare(0, b.far());
    let n = a.size() * one();
    lemma_rounded_bound(n, b.size());
    lemma_signed(a.is_negative() != b.is_negative(), rounded(n, b.size()));
    lemma_none_nearer_to_fraction(n, b.size(), c.far());
}

/// A quotient is within one part in 2⁵³ of the exact one, unless that is too
/// small for a number to have all its digits.
pub proof fn law_quotient_is_near(a: Binary64, b: Binary64)
    requires
        a.is_finite(),
        b.is_finite(),
        b.value() != 0,
        quotient(a, b).is_finite(),
        a.size() * one() >= b.size() * HALF,
    ensures
        is_near((quotient(a, b).size() * b.size()) as int, (a.size() * one()) as int),
{
    lemma_nothing();
    lemma_sizes_compare(0, b.far());
    let n = a.size() * one();
    lemma_rounded_bound(n, b.size());
    lemma_signed(a.is_negative() != b.is_negative(), rounded(n, b.size()));
    lemma_rounded_fraction_is_near(n, b.size());
}

/// A hundredfold is the number nearest to the exact one.
pub proof fn law_hundredfold_is_nearest(a: Binary64, c: Binary64)
    requires
        a.is_finite(),
        c.is_finite(),
        hundredfold(a).is_finite(),
    ensures
        size_of(hundredfold(a).size() - a.size() * 100) <= size_of(c.size() - a.size() * 100),
{
    lemma_rounded_bound(a.size() * 100, 1);
    lemma_signed(a.is_negative(), rounded(a.size() * 100, 1));
    lemma_none_nearer(a.size() * 100, c.far());
}

/// A whole number is held as the number nearest to it.
pub proof fn law_whole_is_nearest(n: nat, c: Binary64)
    requires
        c.is_finite(),
        whole(n).is_finite(),
    ensures
        size_of(whole(n).value() - n * one()) <= size_of(c.value() - n * one()),
        is_near(whole(n).value(), (n * one()) as int),
{
    lemma_nothing();
    lemma_rounded_bound(n * one(), 1);
    lemma_signed(false, rounded(n * one(), 1));
    lemma_none_nearer(n * one(), c.far());
    lemma_none_nearer(n * one(), 0);
    lemma_rounded_is_near(n * one());
}

/// Zero is nothing.
pub proof fn law_zero()
    ensures
        zero().is_finite(),
        zero().value() == 0,
        !is_positive(zero()),
{
    lemma_nothing();
}

/// The larger of a finite number and 0.
pub proof fn law_at_least_zero(a: Binary64)
    requires
        a.is_finite(),
    ensures
        at_least_zero(a).is_finite(),
        at_least_zero(a).value() == if a.value() > 0 {
            a.value()
        } else {
            0
        },
{
    lemma_nothing();
    law_order_is_that_of_values(a, a);
}

/// A sum of numbers that are not negative, of which the second is less than
/// 2¹¹³⁹ units, is finite and within one part in 2⁵³ of the exact one.
pub proof fn law_small_step_is_near(a: Binary64, b: Binary64)
    requires
        a.is_finite(),
        b.is_finite(),
        0 <= a.value(),
        0 <= b.value() < two_to(1139),
    ensures
        sum(a, b).is_finite(),
        is_near(sum(a, b).value(), a.value() + b.value()),
{
    let v = (a.value() + b.value()) as nat;
    lemma_finite_sum(a, b);
    lemma_nothing();
    if v != 0 {
        lemma_small_step(a, b.value() as nat);
        lemma_rounded_is_near(v);
    }
}

proof fn lemma_small_step(a: Binary64, e: nat)
    requires
        a.is_finite(),
        0 <= a.value(),
        e < two_to(1139),
    ensures
        rounded(a.value() as nat + e, 1) < INFINITY,
{
    let (m, s) = (a.digits(), a.shift());
    let last = (INFINITY - 1) as nat;
    let top = two_to(2045);
    lemma_nothing();
    lemma_sizes_compare(0, a.far());
    lemma_two_adds(1139, 906);
    lemma_two_grows(3, 906);
    lemma_two_positive(1139);
    assert(two_to(3) == 8) by {
        reveal_with_fuel(two_to, 4);
    }
    assert(top >= 8 * two_to(1139)) by (nonlinear_arith)
        requires
            top == two_to(1139) * two_to(906),
            two_to(906) >= 8,
            two_to(1139) > 0,
    ;
    if s == 2045 {
        lemma_rounded_far(m, s, e, false);
        assert(a.value() == m * two_to(s));
    } else {
        assert(s <= 2044);
        lemma_two_grows(s, 2044);
        lemma_two_positive(s);
        assert(top == 2 * two_to(2044));
        let size = m * two_to(s);
        assert(size <= HALF * top) by (nonlinear_arith)
            requires
                size == m * two_to(s),
                m < FULL,
                FULL == 2 * HALF,
                two_to(s) <= two_to(2044),
                top == 2 * two_to(2044),
        ;
        assert(size_at(last) == (FULL - 1) * top) by {
            assert(last / HALF as nat == 2046 && last % HALF as nat == HALF - 1);
        }
        assert(size + e <= (FULL - 1) * top) by (nonlinear_arith)
            requires
                size <= HALF * top,
                e <= top,
                FULL == 2 * HALF,
                HALF >= 2,
        ;
        lemma_rounded_size(last);
        lemma_rounded_grows(size + e, size_at(last), 1);
    }
}

/// A sum of numbers that are not negative is not negative.
pub proof fn law_sum_keeps_sign(a: Binary64, b: Binary64)
    requires
        a.is_finite(),
        b.is_finite(),
        0 <= a.value(),
        0 <= b.value(),
        sum(a, b).is_finite(),
    ensures
        0 <= sum(a, b).value(),
{
    lemma_finite_sum(a, b);
    lemma_nothing();
}

/// A difference is not positive where the second number is larger.
pub proof fn law_negative_difference(a: Binary64, b: Binary64)
    requires
        a.is_finite(),
        b.is_finite(),
        a.value() < b.value(),
    ensures
        !is_positive(difference(a, b)),
{
    lemma_opposite(b);
    lemma_finite_sum(a, opposite(b));
}

/// Larger whole numbers are held as numbers that are no smaller.
pub proof fn law_whole_grows(m: nat, n: nat)
    requires
        m <= n,
    ensures
        whole(m).far() <= whole(n).far(),
        !whole(m).is_negative(),
        !whole(n).is_negative(),
{
    assert(m * one() <= n * one()) by (nonlinear_arith)
        requires
            m <= n,
    ;
    lemma_rounded_grows(m * one(), n * one(), 1);
    lemma_rounded_bound(n * one(), 1);
}

/// A whole number of 64 bits is held as a finite number.
pub proof fn law_whole_is_finite(n: nat)
    requires
        n <= u64::MAX,
    ensures
        whole(n).is_finite(),
{
    lemma_two_constants();
    lemma_two_adds(64, 1074);
    lemma_rounded_exact(1, 1138);
    lemma_two_positive(1074);
    assert(n * one() <= 1 * two_to(1138)) by (nonlinear_arith)
        requires
            n <= 0x1_0000_0000_0000_0000,
            two_to(1138) == 0x1_0000_0000_0000_0000 * one(),
    ;
    lemma_rounded_grows(n * one(), 1 * two_to(1138), 1);
}

/// A number divided by one that is at least 1 is no larger.
pub proof fn law_quotient_shrinks(a: Binary64, d: Binary64)
    requires
        !a.is_negative(),
        a.is_finite(),
        d.is_finite(),
        d.size() >= one(),
    ensures
        quotient(a, d).far() <= a.far(),
        !d.is_negative() ==> !quotient(a, d).is_negative(),
{
    lemma_two_positive(1074);
    lemma_sizes_compare(0, d.far());
    assert(a.size() * one() <= a.size() * d.size()) by (nonlinear_arith)
        requires
            d.size() >= one(),
    ;
    lemma_rounded_grows(a.size() * one(), a.size() * d.size(), d.size());
    lemma_rounded_scaled(a.size(), 1, d.size());
    assert(1 * d.size() == d.size());
    lemma_rounded_size(a.far());
}

/// A larger number divided by the same is no smaller.
pub proof fn law_quotient_grows(a: Binary64, b: Binary64, d: Binary64)
    requires
        !a.is_negative(),
        !b.is_negative(),
        !d.is_negative(),
        a.far() <= b.far() < INFINITY,
        0 < d.far() < INFINITY,
    ensures
        quotient(a, d).far() <= quotient(b, d).far() <= INFINITY,
        !quotient(a, d).is_negative(),
        !quotient(b, d).is_negative(),
{
    lemma_sizes_compare(b.far(), a.far());
    lemma_sizes_compare(0, d.far());
    assert(a.size() * one() <= b.size() * one()) by (nonlinear_arith)
        requires
            a.size() <= b.size(),
    ;
    lemma_rounded_grows(a.size() * one(), b.size() * one(), d.size());
    lemma_rounded_bound(b.size() * one(), d.size());
}

/// The difference is exact where it has no more than 53 digits.
pub proof fn law_short_difference_is_exact(a: Binary64, b: Binary64, m: nat, k: nat)
    requires
        a.is_finite(),
        b.is_finite(),
        a.value() - b.value() == m * two_to(k),
        m < FULL,
        k <= 2045,
    ensures
        difference(a, b).is_finite(),
        difference(a, b).value() == a.value() - b.value(),
{
    lemma_opposite(b);
    lemma_finite_sum(a, opposite(b));
    lemma_nothing();
    lemma_rounded_exact(m, k);
}

/// A sum of numbers that are not negative is no smaller than either, and no
/// larger than a number that is no smaller than the exact sum.
pub proof fn law_sum_keeps_bounds(a: Binary64, b: Binary64, c: Binary64)
    requires
        a.is_finite(),
        b.is_finite(),
        c.is_finite(),
        0 <= a.value(),
        0 <= b.value(),
        a.value() + b.value() <= c.value(),
    ensures
        sum(a, b).is_finite(),
        a.value() <= sum(a, b).value() <= c.value(),
        b.value() <= sum(a, b).value(),
{
    let v = (a.value() + b.value()) as nat;
    lemma_finite_sum(a, b);
    lemma_nothing();
    if v != 0 {
        lemma_rounded_below(v, c.far());
        lemma_rounded_above(v, a.far());
        lemma_rounded_above(v, b.far());
    }
}

/// A number is positive just where it is above 0.
pub proof fn law_positive_is_above_zero(a: Binary64)
    ensures
        a.is_finite() ==> (is_positive(a) <==> a.value() > 0),
        a.is_infinite() ==> (is_positive(a) <==> !a.is_negative()),
        a.is_nan() ==> !is_positive(a),
{
    if a.is_finite() {
        lemma_sizes_compare(0, a.far());
    }
}

/// Nothing but what is no number comes of what is no number, and it is neither
/// less than anything nor more. Where at least 0 is asked for it counts as 0.
pub proof fn law_no_number_comes_of_none(a: Binary64, b: Binary64)
    requires
        a.is_nan(),
    ensures
        sum(a, b).is_nan() && sum(b, a).is_nan(),
        difference(a, b).is_nan() && difference(b, a).is_nan(),
        quotient(a, b).is_nan() && quotient(b, a).is_nan(),
        hundredfold(a).is_nan(),
        !less(a, b) && !less(b, a),
        at_least_zero(a) == zero(),
{
}

/// What is infinite stays so whatever finite number is added, taken away or
/// divided by, and any finite number divided by it is nothing.
pub proof fn law_infinite_numbers(a: Binary64, b: Binary64)
    requires
        a.is_infinite(),
        b.is_finite(),
    ensures
        sum(a, b) == a && sum(b, a) == a,
        difference(a, b) == a,
        quotient(a, b).is_infinite(),
        quotient(b, a).is_finite() && quotient(b, a).value() == 0,
        hundredfold(a) == a,
        !a.is_negative() ==> at_least_zero(a) == a && less(b, a),
        a.is_negative() ==> at_least_zero(a) == zero() && less(a, b),
{
    lemma_nothing();
    lemma_signed(!b.is_negative(), b.far());
    lemma_signed(a.is_negative() != b.is_negative(), INFINITY as nat);
    lemma_signed(a.is_negative() != b.is_negative(), 0);
}

/// The hundredfold of a larger number is no smaller.
pub proof fn law_hundredfold_grows(a: Binary64, b: Binary64)
    requires
        !a.is_negative(),
        !b.is_negative(),
        a.far() <= b.far() <= INFINITY,
    ensures
        hundredfold(a).far() <= hundredfold(b).far() <= INFINITY,
        !hundredfold(a).is_negative(),
        !hundredfold(b).is_negative(),
{
    if a.far() < INFINITY {
        lemma_rounded_bound(a.size() * 100, 1);
        lemma_signed(false, rounded(a.size() * 100, 1));
    }
    if b.far() < INFINITY {
        lemma_sizes_compare(b.far(), a.far());
        lemma_rounded_grows(a.size() * 100, b.size() * 100, 1);
        lemma_rounded_bound(b.size() * 100, 1);
        lemma_signed(false, rounded(b.size() * 100, 1));
    }
}

/// What the bits of a finite number stand for: the last 52 are its digits, with
/// one more before them unless the eleven bits of its place are 0, and they are
/// shifted by one less than that place; the first bit is the sign.
pub proof fn law_what_the_bits_stand_for(a: Binary64)
    requires
        a.is_finite(),
    ensures
        ({
            let half = 0x10_0000_0000_0000nat;
            let far = a.bits as nat % 0x8000_0000_0000_0000;
            let (place, digits) = (far / half, far % half);
            &&& a.is_negative() <==> a.bits >= 0x8000_0000_0000_0000
            &&& place < 2047
            &&& place == 0 ==> a.size() == digits
            &&& place > 0 ==> a.size() == (half + digits) * two_to((place - 1) as nat)
            &&& a.value() == if a.is_negative() {
                -a.size()
            } else {
                a.size() as int
            }
        }),
{
    let far = a.far();
    if far < HALF {
        lemma_no_shift(far);
    }
}

/// Powers of two, one after another.
pub proof fn law_next_power_of_two(k: nat)
    ensures
        two_to(0) == 1,
        two_to(k + 1) == 2 * two_to(k),
        one() == two_to(1074),
{
}

/// A result halfway between two numbers is the one whose last digit is even:
/// where another number of the same sign is just as near to the exact result,
/// the digits of the one that is given are even.
pub proof fn law_halfway_goes_to_even_digits(a: Binary64, b: Binary64, c: Binary64)
    requires
        a.is_finite(),
        b.is_finite(),
        c.is_finite(),
    ensures
        ({
            let (r, exact) = (sum(a, b), a.value() + b.value());
            r.is_finite() && c.is_negative() == r.is_negative() && c.size() != r.size() && size_of(
                c.value() - exact,
            ) == size_of(r.value() - exact) ==> r.digits() % 2 == 0
        }),
        ({
            let (r, exact) = (quotient(a, b), a.size() * one());
            b.value() != 0 && r.is_finite() && c.size() != r.size() && size_of(
                c.size() * b.size() - exact,
            ) == size_of(r.size() * b.size() - exact) ==> r.digits() % 2 == 0
        }),
        ({
            let (r, exact) = (hundredfold(a), a.size() * 100);
            r.is_finite() && c.size() != r.size() && size_of(c.size() - exact) == size_of(
                r.size() - exact,
            ) ==> r.digits() % 2 == 0
        }),
{
    lemma_nothing();
    lemma_finite_sum(a, b);
    let v = a.value() + b.value();
    let s = sum(a, b);
    if s.is_finite() && c.is_negative() == s.is_negative() && c.size() != s.size() && size_of(
        c.value() - v,
    ) == size_of(s.value() - v) && v != 0 {
        lemma_tie_is_even(size_of(v), 1, c.far());
        lemma_even_digits(s.far());
    }
    if b.value() != 0 {
        let q = quotient(a, b);
        let n = a.size() * one();
        lemma_sizes_compare(0, b.far());
        lemma_rounded_bound(n, b.size());
        lemma_signed(a.is_negative() != b.is_negative(), rounded(n, b.size()));
        if q.is_finite() && c.size() != q.size() && size_of(c.size() * b.size() - n) == size_of(
            q.size() * b.size() - n,
        ) {
            lemma_tie_is_even(n, b.size(), c.far());
            lemma_even_digits(q.far());
        }
    }
    let h = hundredfold(a);
    let n = a.size() * 100;
    lemma_rounded_bound(n, 1);
    lemma_signed(a.is_negative(), rounded(n, 1));
    if h.is_finite() && c.size() != h.size() && size_of(c.size() - n) == size_of(h.size() - n) {
        lemma_tie_is_even(n, 1, c.far());
        lemma_even_digits(h.far());
    }
}

proof fn lemma_even_digits(far: nat)
    requires
        far % 2 == 0,
    ensures
        digits_of(far) % 2 == 0,
{
    lemma_fundamental_div_mod(far as int, HALF as int);
}

/// The opposite of a number is as far from 0 on the other side.
pub proof fn law_opposite(a: Binary64)
    ensures
        opposite(opposite(a)) == a,
        opposite(a).is_negative() != a.is_negative(),
        a.is_finite() ==> opposite(a).is_finite() && opposite(a).value() == -a.value(),
        a.is_infinite() ==> opposite(a).is_infinite(),
        a.is_nan() ==> opposite(a).is_nan(),
{
}

/// A sum has the sign of the exact one. Where that is 0 it is positive, unless
/// both numbers are negative; what is asked to be at least 0 is never negative.
pub proof fn law_sign_of_a_sum(a: Binary64, b: Binary64)
    requires
        a.is_finite(),
        b.is_finite(),
    ensures
        a.value() + b.value() != 0 ==> sum(a, b).is_negative() == (a.value() + b.value() < 0),
        a.value() + b.value() == 0 ==> sum(a, b).is_negative() == (a.is_negative()
            && b.is_negative()) && sum(a, b).far() == 0,
        !at_least_zero(a).is_negative(),
        !zero().is_negative() && zero().far() == 0,
        nan().is_nan(),
{
    lemma_finite_sum(a, b);
    lemma_signed(a.is_negative() && b.is_negative(), 0);
}

/// Infinity over infinity, zero over zero, and infinity less infinity are no
/// numbers; anything else over zero is infinite.
pub proof fn law_where_there_is_no_result(a: Binary64, b: Binary64)
    ensures
        a.is_infinite() && b.is_infinite() ==> quotient(a, b).is_nan(),
        a.is_infinite() && b.is_infinite() && a.is_negative() != b.is_negative() ==> sum(
            a,
            b,
        ).is_nan(),
        a.is_infinite() && b.is_infinite() && a.is_negative() == b.is_negative() ==> sum(a, b) == a,
        a.far() == 0 && b.far() == 0 ==> quotient(a, b).is_nan(),
        0 < a.far() <= INFINITY && b.far() == 0 ==> quotient(a, b).is_infinite(),
{
    lemma_signed(a.is_negative() != b.is_negative(), INFINITY as nat);
}

} // verus!
