//! Exact rationals: every quantity in the library is one of these.
//!
//! A value is kept in lowest terms with a positive denominator, so two
//! values are equal exactly when their fields are. Both fields stay within
//! `±BOUND`, the range of an `i128` without its lowest value.
//!
//! The operations work in `i128` the way a careful fixed-width rational
//! does: a product cancels across before it multiplies, a sum goes over the
//! least common multiple of the denominators, a quotient cancels the two
//! numerators and the two denominators against each other. Where one of
//! those intermediate `i128` values would overflow, the `checked_*` forms
//! answer `None` instead of wrapping; each such condition is spelled out in
//! `mul_fits`, `add_fits` and `div_fits`. Otherwise the answer is the exact
//! result, reduced.

use vstd::prelude::*;
use vstd::arithmetic::div_mod::{
    lemma_fundamental_div_mod, lemma_mod_multiples_basic, lemma_mod_self_0, lemma_small_mod,
};
use vstd::arithmetic::mul::{lemma_mul_is_commutative, lemma_mul_is_distributive_add_other_way};

verus! {

/// The largest magnitude a numerator or denominator may have: `i128::MAX`.
pub const BOUND: i128 = 0x7fff_ffff_ffff_ffff_ffff_ffff_ffff_ffff;

pub open spec fn abs(x: int) -> nat {
    if x < 0 {
        (-x) as nat
    } else {
        x as nat
    }
}

/// Euclid's greatest common divisor.
pub open spec fn gcd(a: nat, b: nat) -> nat
    decreases b,
{
    if b == 0 {
        a
    } else {
        gcd(b, a % b)
    }
}

/// `g` divides `x` (for a positive `g`).
pub open spec fn divides(g: int, x: int) -> bool {
    x % g == 0
}

pub proof fn lemma_gcd(a: nat, b: nat)
    requires
        a > 0 || b > 0,
    ensures
        gcd(a, b) > 0,
        divides(gcd(a, b) as int, a as int),
        divides(gcd(a, b) as int, b as int),
    decreases b,
{
    if b == 0 {
        lemma_mod_self_0(a as int);
    } else {
        let r = a % b;
        lemma_gcd(b, r);
        let g = gcd(b, r) as int;
        let q = (a / b) as int;
        lemma_fundamental_div_mod(a as int, b as int);
        lemma_fundamental_div_mod(b as int, g);
        lemma_fundamental_div_mod(r as int, g);
        let k1 = b as int / g;
        let k2 = r as int / g;
        assert(a as int == (k1 * q + k2) * g) by (nonlinear_arith)
            requires
                a as int == b * q + r,
                b as int == g * k1 + 0,
                r as int == g * k2 + 0,
        ;
        lemma_mod_multiples_basic(k1 * q + k2, g);
    }
}

/// When `g` divides a non-negative `x`, `x / g` times `g` gives back `x`.
pub proof fn lemma_exact_div(x: int, g: int)
    requires
        g > 0,
        x >= 0,
        divides(g, x),
    ensures
        (x / g) * g == x,
        0 <= x / g <= x,
        x > 0 ==> x / g >= 1,
{
    lemma_fundamental_div_mod(x, g);
    assert((x / g) * g == x) by (nonlinear_arith)
        requires
            x == g * (x / g) + 0,
    ;
    assert(0 <= x / g <= x) by (nonlinear_arith)
        requires
            (x / g) * g == x,
            g > 0,
            x >= 0,
    ;
    assert(x > 0 ==> x / g >= 1) by (nonlinear_arith)
        requires
            (x / g) * g == x,
            g > 0,
            x / g >= 0,
    ;
}

/// The greatest common divisor of a number and one is one.
pub proof fn lemma_gcd_one(n: nat)
    ensures
        gcd(1, n) == 1,
        gcd(n, 1) == 1,
{
    reveal_with_fuel(gcd, 3);
    if n > 1 {
        lemma_small_mod(1, n);
    }
}

/// A fraction whose parts are already within the bounds reduces to one
/// that is too.
pub proof fn lemma_make_small(n: int, d: int)
    requires
        d != 0,
        abs(n) <= BOUND,
        abs(d) <= BOUND,
    ensures
        make(n, d) is Some,
{
    lemma_gcd(abs(n), abs(d));
    let g = gcd(abs(n), abs(d)) as int;
    lemma_exact_div(abs(n) as int, g);
    lemma_exact_div(abs(d) as int, g);
}

/// An exact rational in lowest terms.
#[derive(Debug, Clone, Copy, PartialEq, Eq, Hash, Structural)]
pub struct Rational {
    numer: i128,
    denom: i128,
}

/// The reduced form of `n / d`, or `None` when it does not fit the bounds.
pub closed spec fn make(n: int, d: int) -> Option<Rational>
    recommends
        d != 0,
{
    let g = gcd(abs(n), abs(d)) as int;
    let rn = abs(n) as int / g;
    let rd = abs(d) as int / g;
    if rn > BOUND || rd > BOUND {
        None
    } else {
        Some(
            Rational {
                numer: (if (n < 0) != (d < 0) {
                    -rn
                } else {
                    rn
                }) as i128,
                denom: rd as i128,
            },
        )
    }
}

/// A whole number as a rational.
pub closed spec fn from_int(v: int) -> Rational {
    Rational { numer: v as i128, denom: 1 }
}

/// The raw pair `n / d`, as written (no reduction).
pub closed spec fn ratio(n: int, d: int) -> Rational {
    Rational { numer: n as i128, denom: d as i128 }
}

/// Ceiling of `n / d` for a positive `d`.
pub open spec fn ceil_int(n: int, d: int) -> int {
    if n >= 0 {
        (n + d - 1) / d
    } else {
        -((-n) / d)
    }
}

/// Whether every intermediate of the cancelled product `x * y` stays within
/// the bounds: the numerators over the cross factors, and the denominators
/// over theirs.
pub open spec fn mul_fits(x: Rational, y: Rational) -> bool {
    let g1 = gcd(abs(x.num()), abs(y.den())) as int;
    let g2 = gcd(abs(y.num()), abs(x.den())) as int;
    &&& (abs(x.num()) as int / g1) * (abs(y.num()) as int / g2) <= BOUND
    &&& (x.den() / g2) * (y.den() / g1) <= BOUND
}

/// Whether every intermediate of `x + y` over the least common multiple of
/// the denominators stays within the bounds: the multiple itself, each
/// numerator raised to it, and their sum.
pub open spec fn add_fits(x: Rational, y: Rational) -> bool {
    let g = gcd(abs(x.den()), abs(y.den())) as int;
    let db = y.den() / g;
    let bb = x.den() / g;
    &&& x.den() * db <= BOUND
    &&& abs(x.num() * db) <= BOUND
    &&& abs(y.num() * bb) <= BOUND
    &&& abs(x.num() * db + y.num() * bb) <= BOUND
}

/// Whether every intermediate of the cancelled quotient `x / y` stays within
/// the bounds.
pub open spec fn div_fits(x: Rational, y: Rational) -> bool {
    let g1 = gcd(abs(x.num()), abs(y.num())) as int;
    let g2 = gcd(abs(x.den()), abs(y.den())) as int;
    &&& (abs(x.num()) as int / g1) * (y.den() / g2) <= BOUND
    &&& (x.den() / g2) * (abs(y.num()) as int / g1) <= BOUND
}

impl Rational {
    #[verifier::type_invariant]
    pub closed spec fn inv(self) -> bool {
        &&& 0 < self.denom <= BOUND
        &&& -BOUND <= self.numer <= BOUND
    }

    pub closed spec fn num(self) -> int {
        self.numer as int
    }

    pub closed spec fn den(self) -> int {
        self.denom as int
    }

    /// Whether a value obeys the bounds every exact value obeys.
    pub closed spec fn in_range(self) -> bool {
        &&& 0 < self.denom <= BOUND
        &&& -BOUND <= self.numer <= BOUND
    }

    /// The product, reduced, when its intermediates fit.
    pub closed spec fn spec_mul(self, other: Rational) -> Option<Rational> {
        if mul_fits(self, other) {
            make(self.num() * other.num(), self.den() * other.den())
        } else {
            None
        }
    }

    /// The sum, reduced, when its intermediates fit.
    pub closed spec fn spec_add(self, other: Rational) -> Option<Rational> {
        if add_fits(self, other) {
            make(self.num() * other.den() + other.num() * self.den(), self.den() * other.den())
        } else {
            None
        }
    }

    /// The quotient, reduced, when its intermediates fit.
    pub closed spec fn spec_div(self, other: Rational) -> Option<Rational>
        recommends
            other.num() != 0,
    {
        if div_fits(self, other) {
            make(self.num() * other.den(), self.den() * other.num())
        } else {
            None
        }
    }

    pub closed spec fn spec_ceil(self) -> Rational {
        from_int(ceil_int(self.num(), self.den()))
    }

    /// `self < other` as numbers.
    pub closed spec fn spec_lt(self, other: Rational) -> bool {
        self.num() * other.den() < other.num() * self.den()
    }

    fn check(&self)
        ensures
            self.in_range(),
    {
        proof {
            use_type_invariant(self);
        }
    }

    /// Reduces `n / d` to lowest terms; `None` when the result is out of range.
    pub fn reduce(n: i128, d: i128) -> (r: Option<Rational>)
        requires
            d != 0,
        ensures
            r == make(n as int, d as int),
    {
        reduce_parts(
            (n < 0) != (d < 0),
            magnitude(n),
            magnitude(d),
            Ghost(n as int),
            Ghost(d as int),
        )
    }

    /// `numer / denom` in lowest terms. The caller shows the result fits.
    pub fn new(numer: i128, denom: i128) -> (r: Rational)
        requires
            denom != 0,
            make(numer as int, denom as int) is Some,
        ensures
            r == make(numer as int, denom as int)->0,
    {
        match Self::reduce(numer, denom) {
            Some(r) => r,
            None => {
                proof {
                    assert(false);
                }
                Rational { numer: 0, denom: 1 }
            },
        }
    }

    pub fn from_integer(value: i128) -> (r: Rational)
        requires
            -BOUND <= value <= BOUND,
        ensures
            r == from_int(value as int),
    {
        Rational { numer: value, denom: 1 }
    }

    /// A literal already in lowest terms, such as a conversion factor.
    pub(crate) fn lit(numer: i128, denom: i128) -> (r: Rational)
        requires
            0 < denom <= BOUND,
            -BOUND <= numer <= BOUND,
        ensures
            r == ratio(numer as int, denom as int),
            r.num() == numer,
            r.den() == denom,
    {
        Rational { numer, denom }
    }

    pub fn zero() -> (r: Rational)
        ensures
            r == from_int(0),
    {
        Rational { numer: 0, denom: 1 }
    }

    pub fn numer(&self) -> (n: i128)
        ensures
            n == self.num(),
            -BOUND <= n <= BOUND,
    {
        self.check();
        self.numer
    }

    pub fn denom(&self) -> (d: i128)
        ensures
            d == self.den(),
            0 < d <= BOUND,
    {
        self.check();
        self.denom
    }

    pub fn is_zero(&self) -> (b: bool)
        ensures
            b == (self.num() == 0),
    {
        self.numer == 0
    }

    /// The product, cancelled across before it is multiplied out.
    pub fn checked_mul(&self, other: &Rational) -> (r: Option<Rational>)
        ensures
            r == self.spec_mul(*other),
    {
        self.check();
        other.check();
        let (a, b, c, d) = (self.numer, self.denom, other.numer, other.denom);
        let ma = magnitude(a);
        let mc = magnitude(c);
        let ub = b as u128;
        let ud = d as u128;
        let g1 = gcd_of(ma, ud);
        let g2 = gcd_of(mc, ub);
        proof {
            lemma_gcd(ma as nat, ud as nat);
            lemma_gcd(mc as nat, ub as nat);
            lemma_exact_div(ma as int, g1 as int);
            lemma_exact_div(ud as int, g1 as int);
            lemma_exact_div(mc as int, g2 as int);
            lemma_exact_div(ub as int, g2 as int);
        }
        let a1 = ma / g1;
        let d1 = ud / g1;
        let c1 = mc / g2;
        let b1 = ub / g2;
        let p = match a1.checked_mul(c1) {
            Some(p) => p,
            None => return None,
        };
        let q = match b1.checked_mul(d1) {
            Some(q) => q,
            None => return None,
        };
        if p > BOUND as u128 || q > BOUND as u128 {
            return None;
        }
        let neg = (a < 0) != (c < 0);
        let ghost sp: int = if neg {
            -(p as int)
        } else {
            p as int
        };
        proof {
            assert(q >= 1) by (nonlinear_arith)
                requires
                    q == b1 * d1,
                    b1 >= 1,
                    d1 >= 1,
            ;
            lemma_abs_mul(a as int, c as int);
            lemma_sign_mul(a as int, c as int);
            let gg = g1 as int * g2 as int;
            assert(gg > 0) by (nonlinear_arith)
                requires
                    g1 > 0,
                    g2 > 0,
                    gg == g1 * g2,
            ;
            assert(ma * mc == p * gg) by (nonlinear_arith)
                requires
                    ma == a1 * g1,
                    mc == c1 * g2,
                    p == a1 * c1,
                    gg == g1 * g2,
            ;
            assert(b * d == q * gg) by (nonlinear_arith)
                requires
                    b == b1 * g2,
                    d == d1 * g1,
                    q == b1 * d1,
                    gg == g1 * g2,
            ;
            let ac = a as int * c as int;
            assert(abs(ac) == p * gg);
            if neg {
                assert(ac == -(p * gg));
                assert(sp * gg == -(p * gg)) by (nonlinear_arith)
                    requires
                        sp == -(p as int),
                ;
            } else {
                assert(ac == p * gg);
            }
            assert(b * d > 0) by (nonlinear_arith)
                requires
                    b > 0,
                    d > 0,
            ;
            assert(sp * (b * d) == (a * c) * q) by (nonlinear_arith)
                requires
                    sp * gg == a * c,
                    b * d == q * gg,
            ;
            lemma_make_same(sp, q as int, a * c, b * d);
        }
        reduce_parts(neg, p, q, Ghost(sp), Ghost(q as int))
    }

    /// The sum, over the least common multiple of the denominators.
    pub fn checked_add(&self, other: &Rational) -> (r: Option<Rational>)
        ensures
            r == self.spec_add(*other),
    {
        self.check();
        other.check();
        let (a, b, c, d) = (self.numer, self.denom, other.numer, other.denom);
        let ub = b as u128;
        let ud = d as u128;
        let g = gcd_of(ub, ud);
        proof {
            lemma_gcd(ub as nat, ud as nat);
            lemma_exact_div(ub as int, g as int);
            lemma_exact_div(ud as int, g as int);
        }
        let bb = (ub / g) as i128;
        let db = (ud / g) as i128;
        let lcm = match b.checked_mul(db) {
            Some(l) => l,
            None => return None,
        };
        let lhs = match a.checked_mul(db) {
            Some(x) => x,
            None => return None,
        };
        let rhs = match c.checked_mul(bb) {
            Some(x) => x,
            None => return None,
        };
        let t = match lhs.checked_add(rhs) {
            Some(x) => x,
            None => return None,
        };
        if lhs == i128::MIN || rhs == i128::MIN || t == i128::MIN {
            return None;
        }
        proof {
            let gi = g as int;
            assert(lcm > 0) by (nonlinear_arith)
                requires
                    lcm == b * db,
                    b > 0,
                    db >= 1,
            ;
            assert(t * (b * d) == (a * d + c * b) * lcm) by (nonlinear_arith)
                requires
                    b == bb * gi,
                    d == db * gi,
                    t == a * db + c * bb,
                    lcm == b * db,
            ;
            assert(b * d > 0) by (nonlinear_arith)
                requires
                    b > 0,
                    d > 0,
            ;
            lemma_make_same(t as int, lcm as int, a * d + c * b, b * d);
        }
        Self::reduce(t, lcm)
    }

    /// The quotient, its numerators and its denominators cancelled against
    /// each other before they are multiplied out.
    pub fn checked_div(&self, other: &Rational) -> (r: Option<Rational>)
        requires
            other.num() != 0,
        ensures
            r == self.spec_div(*other),
    {
        self.check();
        other.check();
        let (a, b, c, d) = (self.numer, self.denom, other.numer, other.denom);
        let ma = magnitude(a);
        let mc = magnitude(c);
        let ub = b as u128;
        let ud = d as u128;
        let g1 = gcd_of(ma, mc);
        let g2 = gcd_of(ub, ud);
        proof {
            lemma_gcd(ma as nat, mc as nat);
            lemma_gcd(ub as nat, ud as nat);
            lemma_exact_div(ma as int, g1 as int);
            lemma_exact_div(mc as int, g1 as int);
            lemma_exact_div(ub as int, g2 as int);
            lemma_exact_div(ud as int, g2 as int);
        }
        let a1 = ma / g1;
        let c1 = mc / g1;
        let b1 = ub / g2;
        let d1 = ud / g2;
        let p = match a1.checked_mul(d1) {
            Some(p) => p,
            None => return None,
        };
        let q = match b1.checked_mul(c1) {
            Some(q) => q,
            None => return None,
        };
        if p > BOUND as u128 || q > BOUND as u128 {
            return None;
        }
        let neg = (a < 0) != (c < 0);
        let ghost sp: int = if neg {
            -(p as int)
        } else {
            p as int
        };
        proof {
            assert(q >= 1) by (nonlinear_arith)
                requires
                    q == b1 * c1,
                    b1 >= 1,
                    c1 >= 1,
            ;
            let gg = g1 as int * g2 as int;
            assert(gg > 0) by (nonlinear_arith)
                requires
                    g1 > 0,
                    g2 > 0,
                    gg == g1 * g2,
            ;
            assert(b * c != 0) by (nonlinear_arith)
                requires
                    b > 0,
                    c != 0,
            ;
            assert(ma * d == p * gg) by (nonlinear_arith)
                requires
                    ma == a1 * g1,
                    d == d1 * g2,
                    p == a1 * d1,
                    gg == g1 * g2,
            ;
            assert(b * mc == q * gg) by (nonlinear_arith)
                requires
                    b == b1 * g2,
                    mc == c1 * g1,
                    q == b1 * c1,
                    gg == g1 * g2,
            ;
            lemma_signed_quotient(a as int, b as int, c as int, d as int, p as int, q as int, gg);
            lemma_make_same(sp, q as int, a * d, b * c);
        }
        reduce_parts(neg, p, q, Ghost(sp), Ghost(q as int))
    }

    /// The smallest whole number not below `self`.
    pub fn ceil(&self) -> (r: Rational)
        ensures
            r == self.spec_ceil(),
    {
        self.check();
        let (n, d) = (self.numer, self.denom);
        let c: i128 = if n >= 0 {
            let q = n / d;
            let up = n % d != 0;
            proof {
                lemma_fundamental_div_mod(n as int, d as int);
                lemma_fundamental_div_mod(n as int + d as int - 1, d as int);
                let r = n as int % d as int;
                let q2 = (n as int + d as int - 1) / (d as int);
                let r2 = (n as int + d as int - 1) % (d as int);
                assert(q2 == if up { q + 1 } else { q as int }) by (nonlinear_arith)
                    requires
                        n == d * q + r,
                        0 <= r < d,
                        n + d - 1 == d * q2 + r2,
                        0 <= r2 < d,
                        up == (r != 0),
                ;
                assert(up ==> d >= 2 && q <= n / 2) by (nonlinear_arith)
                    requires
                        n == d * q + r,
                        0 <= r < d,
                        up == (r != 0),
                        q >= 0,
                ;
            }
            if up {
                q + 1
            } else {
                q
            }
        } else {
            assert(0 <= (-(n as int)) / (d as int) <= -(n as int)) by (nonlinear_arith)
                requires
                    n < 0,
                    d >= 1,
            ;
            -((-n) / d)
        };
        Rational { numer: c, denom: 1 }
    }

    /// `self < k` for a whole number `k`.
    pub fn lt_whole(&self, k: i128) -> (b: bool)
        requires
            -BOUND <= k <= BOUND,
        ensures
            b == self.spec_lt(from_int(k as int)),
    {
        self.check();
        let (n, d) = (self.numer, self.denom);
        let floor: i128 = if n >= 0 {
            n / d
        } else {
            let q = (-n) / d;
            let r = (-n) % d;
            proof {
                lemma_fundamental_div_mod(-(n as int), d as int);
                assert(q as int * d as int <= -(n as int)) by (nonlinear_arith)
                    requires
                        -(n as int) == d * q + r,
                        r >= 0,
                ;
                assert(q >= 0) by (nonlinear_arith)
                    requires
                        -(n as int) == d * q + r,
                        0 <= r < d,
                        n < 0,
                ;
                assert(q <= -(n as int)) by (nonlinear_arith)
                    requires
                        -(n as int) == d * q + r,
                        0 <= r,
                        d >= 1,
                        q >= 0,
                ;
            }
            if r == 0 {
                -q
            } else {
                -q - 1
            }
        };
        proof {
            lemma_fundamental_div_mod(n as int, d as int);
            if n >= 0 {
                assert(n / d == n as int / d as int);
            } else {
                let q = (-n) as int / d as int;
                let r = (-n) as int % d as int;
                lemma_fundamental_div_mod(-(n as int), d as int);
                assert(floor as int == n as int / d as int) by (nonlinear_arith)
                    requires
                        -(n as int) == d * q + r,
                        0 <= r < d,
                        n == d * (n / d) + n % d,
                        0 <= n % d < d,
                        floor == if r == 0 { -q } else { -q - 1 },
                ;
            }
            let f = n as int / d as int;
            assert((n < k * d) == (f < k)) by (nonlinear_arith)
                requires
                    n == d * f + n % d,
                    0 <= n % d < d,
            ;
        }
        floor < k
    }
}

/// `|x|` as an unsigned number; every `i128` has one.
fn magnitude(x: i128) -> (m: u128)
    ensures
        m == abs(x as int),
{
    if x < 0 {
        ((-(x + 1)) as u128) + 1
    } else {
        x as u128
    }
}

/// Reduces the fraction of magnitudes `an / ad`, negative when `neg`, to
/// lowest terms: the same as reducing any `n / d` with those magnitudes and
/// that sign.
fn reduce_parts(neg: bool, an: u128, ad: u128, Ghost(n): Ghost<int>, Ghost(d): Ghost<int>) -> (r:
    Option<Rational>)
    requires
        d != 0,
        abs(n) == an,
        abs(d) == ad,
        an > 0 ==> neg == ((n < 0) != (d < 0)),
    ensures
        r == make(n, d),
{
    let g = gcd_of(an, ad);
    proof {
        lemma_gcd(an as nat, ad as nat);
        lemma_exact_div(an as int, g as int);
        lemma_exact_div(ad as int, g as int);
    }
    let rn = an / g;
    let rd = ad / g;
    if rn > BOUND as u128 || rd > BOUND as u128 {
        return None;
    }
    let m = rn as i128;
    let numer: i128 = if neg {
        -m
    } else {
        m
    };
    proof {
        if an == 0 {
            assert(rn == 0);
        }
    }
    Some(Rational { numer, denom: rd as i128 })
}

/// `|x·y| = |x|·|y|`.
pub proof fn lemma_abs_mul(x: int, y: int)
    ensures
        abs(x * y) == abs(x) * abs(y),
{
    if x >= 0 && y >= 0 {
        assert(x * y >= 0) by (nonlinear_arith)
            requires
                x >= 0,
                y >= 0,
        ;
    } else if x >= 0 {
        assert(x * y <= 0 && -(x * y) == x * (-y)) by (nonlinear_arith)
            requires
                x >= 0,
                y < 0,
        ;
    } else if y >= 0 {
        assert(x * y <= 0 && -(x * y) == (-x) * y) by (nonlinear_arith)
            requires
                x < 0,
                y >= 0,
        ;
    } else {
        assert(x * y > 0 && x * y == (-x) * (-y)) by (nonlinear_arith)
            requires
                x < 0,
                y < 0,
        ;
    }
}

/// The sign of a product follows the signs of its factors.
pub proof fn lemma_sign_mul(x: int, y: int)
    ensures
        ((x < 0) != (y < 0)) ==> x * y <= 0,
        ((x < 0) == (y < 0)) ==> x * y >= 0,
        x != 0 && y != 0 ==> x * y != 0,
{
    assert(((x < 0) != (y < 0)) ==> x * y <= 0) by (nonlinear_arith);
    assert(((x < 0) == (y < 0)) ==> x * y >= 0) by (nonlinear_arith);
    assert(x != 0 && y != 0 ==> x * y != 0) by (nonlinear_arith);
}

/// The cancelled quotient `±p / q` is the quotient `(a·d) / (b·c)`.
proof fn lemma_signed_quotient(a: int, b: int, c: int, d: int, p: int, q: int, gg: int)
    requires
        b > 0,
        d > 0,
        c != 0,
        q > 0,
        gg > 0,
        abs(a) * d == p * gg,
        b * abs(c) == q * gg,
    ensures
        (if (a < 0) != (c < 0) {
            -p
        } else {
            p
        }) * (b * c) == (a * d) * q,
{
    let sp = if (a < 0) != (c < 0) {
        -p
    } else {
        p
    };
    if a >= 0 && c > 0 {
        assert(sp * (b * c) == (a * d) * q) by (nonlinear_arith)
            requires
                sp == p,
                a * d == p * gg,
                b * c == q * gg,
        ;
    } else if a >= 0 {
        assert(sp == -p);
        assert(a * d == p * gg);
        assert(b * (-c) == q * gg);
        assert(sp * (b * c) == (a * d) * q) by (nonlinear_arith)
            requires
                sp == -p,
                a * d == p * gg,
                b * (-c) == q * gg,
        ;
    } else if c > 0 {
        assert(sp * (b * c) == (a * d) * q) by (nonlinear_arith)
            requires
                sp == -p,
                (-a) * d == p * gg,
                b * c == q * gg,
        ;
    } else {
        assert(sp * (b * c) == (a * d) * q) by (nonlinear_arith)
            requires
                sp == p,
                (-a) * d == p * gg,
                b * (-c) == q * gg,
        ;
    }
}

/// The reduced parts of `n / d` share no factor: a combination of them
/// makes one.
proof fn lemma_reduced_parts(n: int, d: int) -> (xy: (int, int))
    requires
        d != 0,
    ensures
        gcd(abs(n), abs(d)) > 0,
        (abs(n) as int / gcd(abs(n), abs(d)) as int) * gcd(abs(n), abs(d)) == abs(n),
        (abs(d) as int / gcd(abs(n), abs(d)) as int) * gcd(abs(n), abs(d)) == abs(d),
        abs(d) as int / gcd(abs(n), abs(d)) as int >= 1,
        abs(n) as int / gcd(abs(n), abs(d)) as int >= 0,
        xy.0 * (abs(n) as int / gcd(abs(n), abs(d)) as int) + xy.1 * (abs(d) as int / gcd(
            abs(n),
            abs(d),
        ) as int) == 1,
{
    lemma_gcd(abs(n), abs(d));
    let g = gcd(abs(n), abs(d)) as int;
    lemma_exact_div(abs(n) as int, g);
    lemma_exact_div(abs(d) as int, g);
    let rn = abs(n) as int / g;
    let rd = abs(d) as int / g;
    let (x, y) = lemma_bezout(abs(n), abs(d));
    assert(x * rn + y * rd == 1) by (nonlinear_arith)
        requires
            x * abs(n) + y * abs(d) == g,
            rn * g == abs(n),
            rd * g == abs(d),
            g > 0,
    ;
    (x, y)
}

/// Two fractions in lowest terms, over positive denominators, that are the
/// same number are the same fraction.
proof fn lemma_coprime_unique(p1: int, q1: int, p2: int, q2: int, x1: int, y1: int, x2: int, y2: int)
    requires
        q1 > 0,
        q2 > 0,
        p1 * q2 == p2 * q1,
        x1 * p1 + y1 * q1 == 1,
        x2 * p2 + y2 * q2 == 1,
    ensures
        p1 == p2,
        q1 == q2,
{
    let k1 = x2 * p1 + y2 * q1;
    let k2 = x1 * p2 + y1 * q2;
    assert(q1 == q2 * k1) by (nonlinear_arith)
        requires
            p1 * q2 == p2 * q1,
            x2 * p2 + y2 * q2 == 1,
            k1 == x2 * p1 + y2 * q1,
    ;
    assert(q2 == q1 * k2) by (nonlinear_arith)
        requires
            p1 * q2 == p2 * q1,
            x1 * p1 + y1 * q1 == 1,
            k2 == x1 * p2 + y1 * q2,
    ;
    assert(k1 >= 1 && k2 >= 1) by (nonlinear_arith)
        requires
            q1 == q2 * k1,
            q2 == q1 * k2,
            q1 > 0,
            q2 > 0,
    ;
    assert(q1 * (k1 * k2 - 1) == 0) by (nonlinear_arith)
        requires
            q1 == q2 * k1,
            q2 == q1 * k2,
    ;
    assert(k1 * k2 == 1) by (nonlinear_arith)
        requires
            q1 * (k1 * k2 - 1) == 0,
            q1 > 0,
    ;
    assert(k1 == 1) by (nonlinear_arith)
        requires
            k1 * k2 == 1,
            k1 >= 1,
            k2 >= 1,
    ;
    assert(p1 == p2) by (nonlinear_arith)
        requires
            p1 * q2 == p2 * q1,
            q1 == q2,
            q2 > 0,
    ;
}

/// Reducing depends only on the number a fraction is: fractions that are
/// the same number reduce alike, and fit alike.
pub proof fn lemma_make_same(n1: int, d1: int, n2: int, d2: int)
    requires
        d1 != 0,
        d2 != 0,
        n1 * d2 == n2 * d1,
    ensures
        make(n1, d1) == make(n2, d2),
{
    let (x1, y1) = lemma_reduced_parts(n1, d1);
    let (x2, y2) = lemma_reduced_parts(n2, d2);
    let g1 = gcd(abs(n1), abs(d1)) as int;
    let g2 = gcd(abs(n2), abs(d2)) as int;
    let rn1 = abs(n1) as int / g1;
    let rd1 = abs(d1) as int / g1;
    let rn2 = abs(n2) as int / g2;
    let rd2 = abs(d2) as int / g2;
    lemma_abs_mul(n1, d2);
    lemma_abs_mul(n2, d1);
    let an1 = abs(n1) as int;
    let ad1 = abs(d1) as int;
    let an2 = abs(n2) as int;
    let ad2 = abs(d2) as int;
    assert(an1 * ad2 == an2 * ad1);
    assert(an1 * ad2 == (rn1 * rd2) * (g1 * g2)) by (nonlinear_arith)
        requires
            rn1 * g1 == an1,
            rd2 * g2 == ad2,
    ;
    assert(an2 * ad1 == (rn2 * rd1) * (g1 * g2)) by (nonlinear_arith)
        requires
            rn2 * g2 == an2,
            rd1 * g1 == ad1,
    ;
    assert((rn1 * rd2 - rn2 * rd1) * (g1 * g2) == 0) by (nonlinear_arith)
        requires
            (rn1 * rd2) * (g1 * g2) == (rn2 * rd1) * (g1 * g2),
    ;
    assert(g1 * g2 > 0) by (nonlinear_arith)
        requires
            g1 > 0,
            g2 > 0,
    ;
    assert(rn1 * rd2 - rn2 * rd1 == 0) by (nonlinear_arith)
        requires
            (rn1 * rd2 - rn2 * rd1) * (g1 * g2) == 0,
            g1 * g2 > 0,
    ;
    lemma_coprime_unique(rn1, rd1, rn2, rd2, x1, y1, x2, y2);
    if rn1 != 0 {
        assert(n1 != 0 && n2 != 0);
        assert((n1 * d2 > 0) == ((n1 > 0) == (d2 > 0))) by (nonlinear_arith)
            requires
                n1 != 0,
                d2 != 0,
        ;
        assert((n2 * d1 > 0) == ((n2 > 0) == (d1 > 0))) by (nonlinear_arith)
            requires
                n2 != 0,
                d1 != 0,
        ;
    }
}

/// `n1 / d1` and `n2 / d2` are the same number (for non-zero denominators).
pub open spec fn same_ratio(n1: int, d1: int, n2: int, d2: int) -> bool {
    n1 * d2 == n2 * d1
}

/// `r` is the number `n / d`.
pub open spec fn denotes(r: Rational, n: int, d: int) -> bool {
    same_ratio(r.num(), r.den(), n, d)
}

pub proof fn lemma_same_ratio_trans(n1: int, d1: int, n2: int, d2: int, n3: int, d3: int)
    requires
        d2 != 0,
        same_ratio(n1, d1, n2, d2),
        same_ratio(n2, d2, n3, d3),
    ensures
        same_ratio(n1, d1, n3, d3),
{
    assert((n1 * d3 - n3 * d1) * d2 == 0) by (nonlinear_arith)
        requires
            n1 * d2 == n2 * d1,
            n2 * d3 == n3 * d2,
    ;
    assert(n1 * d3 - n3 * d1 == 0) by (nonlinear_arith)
        requires
            (n1 * d3 - n3 * d1) * d2 == 0,
            d2 != 0,
    ;
}

pub proof fn lemma_same_ratio_mul(a: int, b: int, e: int, f: int, c: int, d: int, g: int, h: int)
    requires
        same_ratio(a, b, e, f),
        same_ratio(c, d, g, h),
    ensures
        same_ratio(a * c, b * d, e * g, f * h),
{
    lemma_swap(a, c, f, h);
    lemma_swap(e, g, b, d);
    assert((a * f) * (c * h) == (e * b) * (g * d));
    lemma_swap(e, b, g, d);
}

pub proof fn lemma_same_ratio_add(a: int, b: int, e: int, f: int, c: int, d: int, g: int, h: int)
    requires
        same_ratio(a, b, e, f),
        same_ratio(c, d, g, h),
    ensures
        same_ratio(a * d + c * b, b * d, e * h + g * f, f * h),
{
    let x = a * d;
    let y = c * b;
    let z = f * h;
    lemma_mul_is_distributive_add_other_way(z, x, y);
    lemma_swap(a, d, f, h);
    lemma_regroup(c, b, f, h);
    assert((a * f) * (d * h) == (e * b) * (d * h));
    assert((c * h) * (b * f) == (g * d) * (b * f));
    lemma_regroup(e, b, d, h);
    lemma_regroup(g, d, b, f);
    lemma_mul_is_commutative(d, b);
    lemma_mul_is_distributive_add_other_way(b * d, e * h, g * f);
}

/// `(p·q)·(r·s) = (p·r)·(q·s)`.
proof fn lemma_swap(p: int, q: int, r: int, s: int)
    ensures
        (p * q) * (r * s) == (p * r) * (q * s),
{
    assert((p * q) * (r * s) == (p * r) * (q * s)) by (nonlinear_arith);
}

/// `(p·q)·(r·s) = (p·s)·(q·r)`.
proof fn lemma_regroup(p: int, q: int, r: int, s: int)
    ensures
        (p * q) * (r * s) == (p * s) * (q * r),
{
    assert((p * q) * (r * s) == (p * s) * (q * r)) by (nonlinear_arith);
}

/// A reduced fraction is the number it was reduced from, over a positive
/// denominator.
pub proof fn lemma_make_denotes(n: int, d: int)
    requires
        d != 0,
        make(n, d) is Some,
    ensures
        denotes(make(n, d)->0, n, d),
        (make(n, d)->0).den() > 0,
        (make(n, d)->0).in_range(),
{
    lemma_gcd(abs(n), abs(d));
    let g = gcd(abs(n), abs(d)) as int;
    let an = abs(n) as int;
    let ad = abs(d) as int;
    lemma_exact_div(an, g);
    lemma_exact_div(ad, g);
    let rn = an / g;
    let rd = ad / g;
    let r = make(n, d)->0;
    assert(r.den() == rd);
    assert(rd > 0) by (nonlinear_arith)
        requires
            rd * g == ad,
            ad > 0,
            g > 0,
            rd >= 0,
    ;
    assert(0 <= rn <= BOUND && rd <= BOUND);
    if (n < 0) != (d < 0) {
        assert(r.num() == -rn);
    } else {
        assert(r.num() == rn);
    }
    assert(r.in_range());
    assert(rn * ad == an * rd) by (nonlinear_arith)
        requires
            rn * g == an,
            rd * g == ad,
    ;
    if n < 0 {
        if d < 0 {
            assert(rn * d == n * rd) by (nonlinear_arith)
                requires rn * ad == an * rd, an == -n, ad == -d;
        } else {
            assert(-rn * d == n * rd) by (nonlinear_arith)
                requires rn * ad == an * rd, an == -n, ad == d;
        }
    } else {
        if d < 0 {
            assert(-rn * d == n * rd) by (nonlinear_arith)
                requires rn * ad == an * rd, an == n, ad == -d;
        } else {
            assert(rn * d == n * rd) by (nonlinear_arith)
                requires rn * ad == an * rd, an == n, ad == d;
        }
    }
}

/// The product and sum of two values are the numbers they should be.
pub proof fn lemma_arith_denotes(a: Rational, b: Rational)
    requires
        a.in_range(),
        b.in_range(),
    ensures
        a.spec_mul(b) matches Some(c) ==> denotes(c, a.num() * b.num(), a.den() * b.den())
            && c.in_range(),
        a.spec_add(b) matches Some(c) ==> denotes(c, a.num() * b.den() + b.num() * a.den(), a.den()
            * b.den()) && c.in_range(),
        a.den() > 0,
        b.den() > 0,
{
    assert(a.den() * b.den() > 0) by (nonlinear_arith)
        requires
            a.den() > 0,
            b.den() > 0,
    ;
    if a.spec_mul(b) is Some {
        lemma_make_denotes(a.num() * b.num(), a.den() * b.den());
        lemma_make_range(a.num() * b.num(), a.den() * b.den());
    }
    if a.spec_add(b) is Some {
        lemma_make_denotes(a.num() * b.den() + b.num() * a.den(), a.den() * b.den());
        lemma_make_range(a.num() * b.den() + b.num() * a.den(), a.den() * b.den());
    }
}

/// Bézout: some combination of `a` and `b` makes their greatest common
/// divisor.
pub proof fn lemma_bezout(a: nat, b: nat) -> (xy: (int, int))
    ensures
        xy.0 * a + xy.1 * b == gcd(a, b),
    decreases b,
{
    if b == 0 {
        (1, 0)
    } else {
        let r = a % b;
        let (x, y) = lemma_bezout(b, r);
        let q = a as int / b as int;
        lemma_fundamental_div_mod(a as int, b as int);
        assert(y * a + (x - q * y) * b == x * b + y * r) by (nonlinear_arith)
            requires
                a == b * q + r,
        ;
        (y, x - q * y)
    }
}

/// Whenever `n / d` fits the bounds, so does the reduced form of any
/// fraction equal to it: reducing cannot leave a part larger than `n` or
/// `d`.
pub proof fn lemma_make_fits(nn: int, dd: int, n: int, d: int)
    requires
        dd > 0,
        0 < d <= BOUND,
        nn >= 0,
        0 <= n <= BOUND,
        nn * d == n * dd,
    ensures
        make(nn, dd) is Some,
{
    lemma_gcd(abs(nn), abs(dd));
    let g = gcd(abs(nn), abs(dd)) as int;
    lemma_exact_div(nn, g);
    lemma_exact_div(dd, g);
    let rn = nn / g;
    let rd = dd / g;
    let (x, y) = lemma_bezout(abs(nn), abs(dd));
    assert(x * rn + y * rd == 1) by (nonlinear_arith)
        requires
            x * nn + y * dd == g,
            rn * g == nn,
            rd * g == dd,
            g > 0,
    ;
    assert(rn * d == n * rd) by (nonlinear_arith)
        requires
            nn * d == n * dd,
            rn * g == nn,
            rd * g == dd,
            g > 0,
    ;
    let k = x * n + y * d;
    assert(n == rn * k && d == rd * k) by (nonlinear_arith)
        requires
            x * rn + y * rd == 1,
            rn * d == n * rd,
            k == x * n + y * d,
    ;
    assert(k >= 1 && rd <= d) by (nonlinear_arith)
        requires
            d == rd * k,
            d > 0,
            rd >= 0,
    ;
    assert(rn <= n) by (nonlinear_arith)
        requires
            n == rn * k,
            k >= 1,
            rn >= 0,
    ;
}

/// `r` is in lowest terms: it is its own reduced form.
pub open spec fn reduced(r: Rational) -> bool {
    make(r.num(), r.den()) == Some(r)
}

/// What reducing gives is in lowest terms.
pub proof fn lemma_make_reduced(n: int, d: int)
    requires
        d != 0,
        make(n, d) is Some,
    ensures
        reduced(make(n, d)->0),
{
    let r = make(n, d)->0;
    lemma_make_denotes(n, d);
    lemma_make_same(r.num(), r.den(), n, d);
}

/// A whole number is in lowest terms.
pub proof fn lemma_whole_reduced(k: int)
    requires
        -BOUND <= k <= BOUND,
    ensures
        reduced(from_int(k)),
{
    lemma_gcd_one(abs(k));
    lemma_from_int(k);
    assert(abs(1int) == 1);
    assert(gcd(abs(k), abs(1int)) == 1);
    assert(abs(k) as int / 1int == abs(k));
    assert(1int / 1int == 1);
    assert(make(k, 1) == Some(from_int(k)));
}

/// The parts of a value in lowest terms share no factor.
proof fn lemma_reduced_bezout(r: Rational) -> (uv: (int, int))
    requires
        reduced(r),
        r.in_range(),
    ensures
        uv.0 * abs(r.num()) + uv.1 * r.den() == 1,
{
    let (x, y) = lemma_reduced_parts(r.num(), r.den());
    let g = gcd(abs(r.num()), abs(r.den())) as int;
    let rn = abs(r.num()) as int / g;
    let rd = abs(r.den()) as int / g;
    assert(rd == r.den());
    assert(rn == abs(r.num()));
    (x, y)
}

/// A product of two numbers that each share no factor with `z` shares none
/// with it either.
proof fn lemma_coprime_product(x: int, y: int, z: int, u1: int, v1: int, u2: int, v2: int) -> (uv: (
    int,
    int,
))
    requires
        u1 * x + v1 * z == 1,
        u2 * y + v2 * z == 1,
    ensures
        uv.0 * (x * y) + uv.1 * z == 1,
{
    let u = u1 * u2;
    let v = u1 * x * v2 + v1 * u2 * y + v1 * v2 * z;
    let l = u1 * x;
    let m = v1 * z;
    assert((l + m) * (u2 * y + v2 * z) == l * (u2 * y) + l * (v2 * z) + m * (u2 * y) + m * (v2 * z))
        by (nonlinear_arith);
    lemma_swap(u1, x, u2, y);
    assert(l * (v2 * z) == (u1 * x * v2) * z) by (nonlinear_arith)
        requires
            l == u1 * x,
    ;
    assert(m * (u2 * y) == (v1 * u2 * y) * z) by (nonlinear_arith)
        requires
            m == v1 * z,
    ;
    assert(m * (v2 * z) == (v1 * v2 * z) * z) by (nonlinear_arith)
        requires
            m == v1 * z,
    ;
    assert(v * z == (u1 * x * v2) * z + (v1 * u2 * y) * z + (v1 * v2 * z) * z) by (nonlinear_arith)
        requires
            v == u1 * x * v2 + v1 * u2 * y + v1 * v2 * z,
    ;
    assert((l + m) * (u2 * y + v2 * z) == 1) by (nonlinear_arith)
        requires
            l + m == 1,
            u2 * y + v2 * z == 1,
    ;
    (u, v)
}

/// For values in lowest terms the cancelled product is the reduced product:
/// a product fails only when the reduced result itself is out of range.
pub proof fn lemma_mul_exact(x: Rational, y: Rational)
    requires
        x.in_range(),
        y.in_range(),
        reduced(x),
        reduced(y),
    ensures
        x.spec_mul(y) == make(x.num() * y.num(), x.den() * y.den()),
{
    let (a, b, c, d) = (x.num(), x.den(), y.num(), y.den());
    let aa = abs(a) as int;
    let cc = abs(c) as int;
    let (ux, vx) = lemma_reduced_bezout(x);
    let (uy, vy) = lemma_reduced_bezout(y);
    let g1 = gcd(abs(a), abs(d)) as int;
    let g2 = gcd(abs(c), abs(b)) as int;
    let (s1, t1) = lemma_reduced_parts(a, d);
    let (s2, t2) = lemma_reduced_parts(c, b);
    let a1 = aa / g1;
    let d1 = d / g1;
    let c1 = cc / g2;
    let b1 = b / g2;
    assert(abs(d) == d && abs(b) == b);
    // a1 and b1, c1 and d1: parts of coprime numbers.
    assert((ux * g1) * a1 + (vx * g2) * b1 == 1) by (nonlinear_arith)
        requires
            ux * aa + vx * b == 1,
            a1 * g1 == aa,
            b1 * g2 == b,
    ;
    assert((uy * g2) * c1 + (vy * g1) * d1 == 1) by (nonlinear_arith)
        requires
            uy * cc + vy * d == 1,
            c1 * g2 == cc,
            d1 * g1 == d,
    ;
    let (e1, f1) = lemma_coprime_product(a1, c1, b1, ux * g1, vx * g2, s2, t2);
    let (e2, f2) = lemma_coprime_product(a1, c1, d1, s1, t1, uy * g2, vy * g1);
    let p = a1 * c1;
    let q = b1 * d1;
    let (e3, f3) = lemma_coprime_product(b1, d1, p, f1, e1, f2, e2);
    assert(q >= 1) by (nonlinear_arith)
        requires
            q == b1 * d1,
            b1 >= 1,
            d1 >= 1,
    ;
    // The reduced parts of a·c over b·d are p and q.
    lemma_abs_mul(a, c);
    let gg = g1 * g2;
    assert(abs(a * c) == p * gg) by (nonlinear_arith)
        requires
            abs(a * c) == aa * cc,
            a1 * g1 == aa,
            c1 * g2 == cc,
            p == a1 * c1,
            gg == g1 * g2,
    ;
    assert(b * d == q * gg) by (nonlinear_arith)
        requires
            b1 * g2 == b,
            d1 * g1 == d,
            q == b1 * d1,
            gg == g1 * g2,
    ;
    assert(b * d > 0) by (nonlinear_arith)
        requires
            b > 0,
            d > 0,
    ;
    let (xr, yr) = lemma_reduced_parts(a * c, b * d);
    let gr = gcd(abs(a * c), abs(b * d)) as int;
    let rn = abs(a * c) as int / gr;
    let rd = abs(b * d) as int / gr;
    assert(abs(b * d) == b * d);
    assert(gg > 0) by (nonlinear_arith)
        requires
            g1 > 0,
            g2 > 0,
            gg == g1 * g2,
    ;
    assert((rn * q - p * rd) * (gr * gg) == 0) by (nonlinear_arith)
        requires
            rn * gr == p * gg,
            rd * gr == q * gg,
    ;
    assert(gr * gg > 0) by (nonlinear_arith)
        requires
            gr > 0,
            gg > 0,
    ;
    assert(rn * q == p * rd) by (nonlinear_arith)
        requires
            (rn * q - p * rd) * (gr * gg) == 0,
            gr * gg > 0,
    ;
    assert(f3 * p + e3 * q == 1);
    lemma_coprime_unique(rn, rd, p, q, xr, yr, f3, e3);
}

/// For values in lowest terms the cancelled quotient is the reduced
/// quotient: a division fails only when the reduced result itself is out of
/// range.
pub proof fn lemma_div_exact(x: Rational, y: Rational)
    requires
        x.in_range(),
        y.in_range(),
        reduced(x),
        reduced(y),
        y.num() != 0,
    ensures
        x.spec_div(y) == make(x.num() * y.den(), x.den() * y.num()),
{
    let (a, b, c, d) = (x.num(), x.den(), y.num(), y.den());
    let aa = abs(a) as int;
    let cc = abs(c) as int;
    let (ux, vx) = lemma_reduced_bezout(x);
    let (uy, vy) = lemma_reduced_bezout(y);
    let g1 = gcd(abs(a), abs(c)) as int;
    let g2 = gcd(abs(b), abs(d)) as int;
    let (s1, t1) = lemma_reduced_parts(a, c);
    let (s2, t2) = lemma_reduced_parts(b, d);
    lemma_gcd(abs(b), abs(d));
    lemma_exact_div(b, g2);
    lemma_gcd(abs(a), abs(c));
    lemma_exact_div(cc, g1);
    let a1 = aa / g1;
    let c1 = cc / g1;
    let b1 = b / g2;
    let d1 = d / g2;
    assert(abs(d) == d && abs(b) == b);
    assert((ux * g1) * a1 + (vx * g2) * b1 == 1) by (nonlinear_arith)
        requires
            ux * aa + vx * b == 1,
            a1 * g1 == aa,
            b1 * g2 == b,
    ;
    assert((uy * g1) * c1 + (vy * g2) * d1 == 1) by (nonlinear_arith)
        requires
            uy * cc + vy * d == 1,
            c1 * g1 == cc,
            d1 * g2 == d,
    ;
    // a1·d1 shares nothing with b1, nor with c1.
    let (e1, f1) = lemma_coprime_product(a1, d1, b1, ux * g1, vx * g2, t2, s2);
    let (e2, f2) = lemma_coprime_product(a1, d1, c1, s1, t1, vy * g2, uy * g1);
    let p = a1 * d1;
    let q = b1 * c1;
    let (e3, f3) = lemma_coprime_product(b1, c1, p, f1, e1, f2, e2);
    assert(q >= 1) by (nonlinear_arith)
        requires
            q == b1 * c1,
            b1 >= 1,
            c1 >= 1,
    ;
    lemma_abs_mul(a, d);
    lemma_abs_mul(b, c);
    let gg = g1 * g2;
    assert(abs(a * d) == p * gg) by (nonlinear_arith)
        requires
            abs(a * d) == aa * d,
            a1 * g1 == aa,
            d1 * g2 == d,
            p == a1 * d1,
            gg == g1 * g2,
    ;
    assert(abs(b * c) == q * gg) by (nonlinear_arith)
        requires
            abs(b * c) == b * cc,
            b1 * g2 == b,
            c1 * g1 == cc,
            q == b1 * c1,
            gg == g1 * g2,
    ;
    assert(b * c != 0) by (nonlinear_arith)
        requires
            b > 0,
            c != 0,
    ;
    let (xr, yr) = lemma_reduced_parts(a * d, b * c);
    let gr = gcd(abs(a * d), abs(b * c)) as int;
    let rn = abs(a * d) as int / gr;
    let rd = abs(b * c) as int / gr;
    assert(gg > 0) by (nonlinear_arith)
        requires
            g1 > 0,
            g2 > 0,
            gg == g1 * g2,
    ;
    assert((rn * q - p * rd) * (gr * gg) == 0) by (nonlinear_arith)
        requires
            rn * gr == p * gg,
            rd * gr == q * gg,
    ;
    assert(gr * gg > 0) by (nonlinear_arith)
        requires
            gr > 0,
            gg > 0,
    ;
    assert(rn * q == p * rd) by (nonlinear_arith)
        requires
            (rn * q - p * rd) * (gr * gg) == 0,
            gr * gg > 0,
    ;
    assert(f3 * p + e3 * q == 1);
    lemma_coprime_unique(rn, rd, p, q, xr, yr, f3, e3);
}

/// The product `x·y`, reduced, when it is within the bounds.
pub open spec fn exact_mul(x: Rational, y: Rational) -> Option<Rational> {
    make(x.num() * y.num(), x.den() * y.den())
}

/// The quotient `x / y`, reduced, when it is within the bounds.
pub open spec fn exact_div(x: Rational, y: Rational) -> Option<Rational> {
    make(x.num() * y.den(), x.den() * y.num())
}

/// A product of values in lowest terms is the exact product, which is in
/// lowest terms again.
pub proof fn lemma_mul_is_exact(x: Rational, y: Rational)
    requires
        x.in_range(),
        y.in_range(),
        reduced(x),
        reduced(y),
    ensures
        x.spec_mul(y) == exact_mul(x, y),
        exact_mul(x, y) matches Some(r) ==> r.in_range() && reduced(r),
{
    lemma_mul_exact(x, y);
    assert(x.den() * y.den() > 0) by (nonlinear_arith)
        requires
            x.den() > 0,
            y.den() > 0,
    ;
    if exact_mul(x, y) is Some {
        lemma_make_reduced(x.num() * y.num(), x.den() * y.den());
        lemma_make_range(x.num() * y.num(), x.den() * y.den());
    }
}

/// A quotient of values in lowest terms is the exact quotient, which is in
/// lowest terms again.
pub proof fn lemma_div_is_exact(x: Rational, y: Rational)
    requires
        x.in_range(),
        y.in_range(),
        reduced(x),
        reduced(y),
        y.num() != 0,
    ensures
        x.spec_div(y) == exact_div(x, y),
        exact_div(x, y) matches Some(r) ==> r.in_range() && reduced(r),
{
    lemma_div_exact(x, y);
    assert(x.den() * y.num() != 0) by (nonlinear_arith)
        requires
            x.den() > 0,
            y.num() != 0,
    ;
    if exact_div(x, y) is Some {
        lemma_make_reduced(x.num() * y.den(), x.den() * y.num());
        lemma_make_range(x.num() * y.den(), x.den() * y.num());
    }
}

/// A fraction written in lowest terms is reduced.
pub proof fn lemma_ratio_reduced(n: int, d: int)
    requires
        0 <= n <= BOUND,
        0 < d <= BOUND,
        gcd(n as nat, d as nat) == 1,
    ensures
        reduced(ratio(n, d)),
        ratio(n, d).in_range(),
{
    assert(n / 1 == n && d / 1 == d);
}

/// A product whose plain parts fit always exists, and its reduced parts are
/// no larger than those plain parts.
pub proof fn lemma_mul_small(x: Rational, y: Rational)
    requires
        x.in_range(),
        y.in_range(),
        abs(x.num()) * abs(y.num()) <= BOUND,
        x.den() * y.den() <= BOUND,
    ensures
        x.spec_mul(y) matches Some(r) && r.in_range() && abs(r.num()) <= abs(x.num()) * abs(
            y.num(),
        ) && r.den() <= x.den() * y.den(),
{
    let (a, b, c, d) = (x.num(), x.den(), y.num(), y.den());
    let aa = abs(a) as int;
    let cc = abs(c) as int;
    lemma_gcd(abs(a), abs(d));
    lemma_gcd(abs(c), abs(b));
    let g1 = gcd(abs(a), abs(d)) as int;
    let g2 = gcd(abs(c), abs(b)) as int;
    lemma_exact_div(aa, g1);
    lemma_exact_div(d, g1);
    lemma_exact_div(cc, g2);
    lemma_exact_div(b, g2);
    assert((aa / g1) * (cc / g2) <= aa * cc) by (nonlinear_arith)
        requires
            0 <= aa / g1 <= aa,
            0 <= cc / g2 <= cc,
    ;
    assert((b / g2) * (d / g1) <= b * d) by (nonlinear_arith)
        requires
            0 <= b / g2 <= b,
            0 <= d / g1 <= d,
    ;
    assert(mul_fits(x, y));
    lemma_abs_mul(a, c);
    lemma_abs_mul(b, d);
    assert(b * d > 0) by (nonlinear_arith)
        requires
            b > 0,
            d > 0,
    ;
    lemma_make_small(a * c, b * d);
    lemma_make_parts_shrink(a * c, b * d);
    lemma_make_range(a * c, b * d);
}

/// A quotient whose plain parts fit always exists, and its reduced parts
/// are no larger than those plain parts.
pub proof fn lemma_div_small(x: Rational, y: Rational)
    requires
        x.in_range(),
        y.in_range(),
        y.num() != 0,
        abs(x.num()) * y.den() <= BOUND,
        x.den() * abs(y.num()) <= BOUND,
    ensures
        x.spec_div(y) matches Some(r) && r.in_range() && abs(r.num()) <= abs(x.num()) * y.den()
            && r.den() <= x.den() * abs(y.num()),
{
    let (a, b, c, d) = (x.num(), x.den(), y.num(), y.den());
    let aa = abs(a) as int;
    let cc = abs(c) as int;
    lemma_gcd(abs(a), abs(c));
    lemma_gcd(abs(b), abs(d));
    let g1 = gcd(abs(a), abs(c)) as int;
    let g2 = gcd(abs(b), abs(d)) as int;
    lemma_exact_div(aa, g1);
    lemma_exact_div(cc, g1);
    lemma_exact_div(b, g2);
    lemma_exact_div(d, g2);
    assert((aa / g1) * (d / g2) <= aa * d) by (nonlinear_arith)
        requires
            0 <= aa / g1 <= aa,
            0 <= d / g2 <= d,
    ;
    assert((b / g2) * (cc / g1) <= b * cc) by (nonlinear_arith)
        requires
            0 <= b / g2 <= b,
            0 <= cc / g1 <= cc,
    ;
    assert(div_fits(x, y));
    lemma_abs_mul(a, d);
    lemma_abs_mul(b, c);
    assert(b * c != 0) by (nonlinear_arith)
        requires
            b > 0,
            c != 0,
    ;
    lemma_make_small(a * d, b * c);
    lemma_make_parts_shrink(a * d, b * c);
    lemma_make_range(a * d, b * c);
}

/// What a sum, a quotient and a product are made of.
pub proof fn lemma_spec_ops(a: Rational, b: Rational)
    ensures
        a.spec_add(b) == (if add_fits(a, b) {
            make(a.num() * b.den() + b.num() * a.den(), a.den() * b.den())
        } else {
            None
        }),
        a.spec_div(b) == (if div_fits(a, b) {
            make(a.num() * b.den(), a.den() * b.num())
        } else {
            None
        }),
        a.spec_mul(b) == (if mul_fits(a, b) {
            make(a.num() * b.num(), a.den() * b.den())
        } else {
            None
        }),
{
}

/// A whole number plus a fraction: the sum over the fraction's denominator,
/// whenever that numerator and the whole number raised to it fit.
pub proof fn lemma_add_whole(w: int, f: Rational)
    requires
        -BOUND <= w <= BOUND,
        f.in_range(),
        abs(w * f.den()) <= BOUND,
        abs(w * f.den() + f.num()) <= BOUND,
    ensures
        from_int(w).spec_add(f) == make(w * f.den() + f.num(), f.den()),
{
    let x = from_int(w);
    lemma_gcd_one(abs(f.den()));
    assert(x.den() == 1);
    assert(gcd(abs(x.den()), abs(f.den())) == 1);
    assert(f.den() / 1 == f.den());
    assert(add_fits(x, f));
    assert(w * f.den() + f.num() * 1 == w * f.den() + f.num());
    assert(1 * f.den() == f.den());
}

/// One whole number over another is the fraction they make.
pub proof fn lemma_div_whole(a: int, b: int)
    requires
        0 <= a <= BOUND,
        0 < b <= BOUND,
    ensures
        from_int(a).spec_div(from_int(b)) == make(a, b),
{
    let x = from_int(a);
    let y = from_int(b);
    lemma_gcd(abs(a), abs(b));
    let g = gcd(abs(a), abs(b)) as int;
    lemma_exact_div(a, g);
    lemma_exact_div(b, g);
    lemma_gcd_one(1);
    assert(gcd(abs(x.den()), abs(y.den())) == 1);
    assert((a / g) * 1 <= BOUND);
    assert(1 * (b / g) <= BOUND);
    assert(div_fits(x, y));
    assert(a * 1 == a && 1 * b == b);
}

/// A value times a positive whole number: the product of the numerator
/// over the denominator, whenever that product fits.
pub proof fn lemma_mul_whole(v: Rational, k: int)
    requires
        v.in_range(),
        0 < k <= BOUND,
        abs(v.num() * k) <= BOUND,
    ensures
        v.spec_mul(from_int(k)) == make(v.num() * k, v.den()),
{
    let y = from_int(k);
    let an = abs(v.num());
    lemma_gcd_one(an);
    lemma_gcd(k as nat, abs(v.den()));
    let g2 = gcd(k as nat, abs(v.den())) as int;
    lemma_exact_div(k, g2);
    lemma_exact_div(v.den(), g2);
    assert(gcd(an, abs(y.den())) == 1);
    assert(an as int / 1 == an);
    assert(abs(y.num()) == k);
    lemma_abs_mul(v.num(), k);
    assert((an as int) * (k / g2) <= an * k) by (nonlinear_arith)
        requires
            0 <= k / g2 <= k,
            an >= 0,
    ;
    assert((v.den() / g2) * (1int / 1int) <= BOUND) by (nonlinear_arith)
        requires
            0 <= v.den() / g2 <= v.den(),
            v.den() <= BOUND,
    ;
    assert(mul_fits(v, y));
    assert(v.den() * 1 == v.den());
}

/// A value divided by a positive whole number: the value over the product
/// of its denominator and that number, whenever that product fits.
pub proof fn lemma_div_by_whole(v: Rational, k: int)
    requires
        v.in_range(),
        0 < k <= BOUND,
        v.den() * k <= BOUND,
    ensures
        v.spec_div(from_int(k)) == make(v.num(), v.den() * k),
{
    let y = from_int(k);
    let an = abs(v.num());
    lemma_gcd(an, k as nat);
    let g1 = gcd(an, k as nat) as int;
    lemma_exact_div(an as int, g1);
    lemma_exact_div(k, g1);
    lemma_gcd_one(abs(v.den()));
    assert(gcd(abs(v.den()), abs(y.den())) == 1);
    assert(abs(y.num()) == k);
    assert((an as int / g1) * (1int / 1int) <= BOUND) by (nonlinear_arith)
        requires
            0 <= an as int / g1 <= an,
            an <= BOUND,
    ;
    assert((v.den() / 1int) * (k / g1) <= BOUND) by (nonlinear_arith)
        requires
            0 <= k / g1 <= k,
            v.den() * k <= BOUND,
            v.den() > 0,
    ;
    assert(div_fits(v, y));
    assert(v.num() * 1 == v.num());
}

/// The bounds a value within range obeys.
pub proof fn lemma_in_range(r: Rational)
    requires
        r.in_range(),
    ensures
        0 < r.den() <= BOUND,
        -BOUND <= r.num() <= BOUND,
{
}

/// Reducing never makes a part larger, and leaves a positive denominator.
pub proof fn lemma_make_parts_shrink(n: int, d: int)
    requires
        d != 0,
        make(n, d) is Some,
    ensures
        abs((make(n, d)->0).num()) <= abs(n),
        0 < (make(n, d)->0).den() <= abs(d),
{
    lemma_gcd(abs(n), abs(d));
    let g = gcd(abs(n), abs(d)) as int;
    lemma_exact_div(abs(n) as int, g);
    lemma_exact_div(abs(d) as int, g);
}

/// A reduced fraction obeys the bounds.
pub proof fn lemma_make_range(n: int, d: int)
    requires
        d != 0,
        make(n, d) is Some,
    ensures
        (make(n, d)->0).in_range(),
{
    lemma_make_denotes(n, d);
}

/// A whole number is itself over one.
pub proof fn lemma_from_int(v: int)
    requires
        -BOUND <= v <= BOUND,
    ensures
        from_int(v).num() == v,
        from_int(v).den() == 1,
        from_int(v).in_range(),
{
}

/// A fraction written over one is the whole number.
pub proof fn lemma_ratio_whole(n: int)
    ensures
        ratio(n, 1) == from_int(n),
{
}

/// A fraction written within the bounds is its own parts.
pub proof fn lemma_ratio(n: int, d: int)
    requires
        -BOUND <= n <= BOUND,
        0 < d <= BOUND,
    ensures
        ratio(n, d).num() == n,
        ratio(n, d).den() == d,
        ratio(n, d).in_range(),
{
}

/// Euclid's algorithm.
fn gcd_of(a: u128, b: u128) -> (g: u128)
    ensures
        g == gcd(a as nat, b as nat),
{
    let mut x = a;
    let mut y = b;
    while y != 0
        invariant
            gcd(x as nat, y as nat) == gcd(a as nat, b as nat),
        decreases y,
    {
        let t = x % y;
        x = y;
        y = t;
    }
    x
}

} // verus!
