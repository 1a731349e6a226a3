//! Fractional voting power: the share of the total stake that stands behind
//! a validator or a set of validators, held as an exact fraction in lowest
//! terms.

use vstd::arithmetic::div_mod::{
    lemma_fundamental_div_mod, lemma_mod_multiples_basic, lemma_truncate_middle,
};
use std::cmp::Ordering;
use vstd::prelude::*;
use vstd::std_specs::cmp::PartialOrdSpecImpl;

verus! {

/// The greatest common divisor of two naturals; `gcd(0, 0)` is 0.
pub open spec fn gcd(a: nat, b: nat) -> nat
    decreases b,
{
    if b == 0 {
        a
    } else {
        gcd(b, a % b)
    }
}

/// The greatest common divisor of two numbers that are not both zero is
/// positive.
pub proof fn lemma_gcd_positive(a: nat, b: nat)
    requires
        a > 0 || b > 0,
    ensures
        gcd(a, b) > 0,
    decreases b,
{
    if b != 0 {
        lemma_gcd_positive(b, a % b);
    }
}

/// The greatest common divisor divides both numbers.
pub proof fn lemma_gcd_divides(a: nat, b: nat)
    requires
        a > 0 || b > 0,
    ensures
        gcd(a, b) > 0,
        a % gcd(a, b) == 0,
        b % gcd(a, b) == 0,
        a == gcd(a, b) * (a / gcd(a, b)),
        b == gcd(a, b) * (b / gcd(a, b)),
    decreases b,
{
    lemma_gcd_positive(a, b);
    let g = gcd(a, b) as int;
    if b == 0 {
        lemma_mod_multiples_basic(1, g);
        lemma_mod_multiples_basic(0, g);
    } else {
        let r = a % b;
        lemma_gcd_divides(b, r);
        lemma_fundamental_div_mod(a as int, b as int);
        let bq = b as int / g;
        let rq = r as int / g;
        let q = a as int / b as int;
        assert(a as int == g * (bq * q + rq)) by (nonlinear_arith)
            requires
                a as int == b as int * q + r as int,
                b as int == g * bq,
                r as int == g * rq,
        ;
        lemma_mod_multiples_basic(bq * q + rq, g);
        assert((bq * q + rq) * g == g * (bq * q + rq)) by (nonlinear_arith);
    }
    lemma_fundamental_div_mod(a as int, g);
    lemma_fundamental_div_mod(b as int, g);
}

/// Every common divisor of two numbers divides their greatest common divisor.
pub proof fn lemma_common_divisor_divides_gcd(c: nat, a: nat, b: nat)
    requires
        c > 0,
        a % c == 0,
        b % c == 0,
    ensures
        gcd(a, b) % c == 0,
    decreases b,
{
    if b != 0 {
        let r = a % b;
        let ci = c as int;
        lemma_fundamental_div_mod(a as int, b as int);
        lemma_fundamental_div_mod(a as int, ci);
        lemma_fundamental_div_mod(b as int, ci);
        let x = a as int / ci;
        let y = b as int / ci;
        let q = a as int / b as int;
        assert(r as int == (x - y * q) * ci) by (nonlinear_arith)
            requires
                a as int == b as int * q + r as int,
                a as int == ci * x,
                b as int == ci * y,
        ;
        lemma_mod_multiples_basic(x - y * q, ci);
        lemma_common_divisor_divides_gcd(c, b, r);
    }
}

/// Dividing two numbers by their greatest common divisor leaves two numbers
/// that have no common divisor but 1.
pub proof fn lemma_quotients_coprime(a: nat, b: nat)
    requires
        b > 0,
    ensures
        gcd(a, b) > 0,
        b / gcd(a, b) > 0,
        gcd(a / gcd(a, b), b / gcd(a, b)) == 1,
{
    lemma_gcd_divides(a, b);
    let g = gcd(a, b);
    let x = a / g;
    let y = b / g;
    assert(y > 0) by (nonlinear_arith)
        requires
            b == g * y,
            b > 0,
            g > 0,
    ;
    lemma_gcd_divides(x, y);
    let h = gcd(x, y);
    let xq = x / h;
    let yq = y / h;
    let gh = g * h;
    assert(gh > 0) by (nonlinear_arith)
        requires
            gh == g * h,
            g > 0,
            h > 0,
    ;
    assert(a as int == xq as int * gh as int) by (nonlinear_arith)
        requires
            a == g * x,
            x == h * xq,
            gh == g * h,
    ;
    assert(b as int == yq as int * gh as int) by (nonlinear_arith)
        requires
            b == g * y,
            y == h * yq,
            gh == g * h,
    ;
    lemma_mod_multiples_basic(xq as int, gh as int);
    lemma_mod_multiples_basic(yq as int, gh as int);
    lemma_common_divisor_divides_gcd(gh, a, b);
    lemma_fundamental_div_mod(g as int, gh as int);
    let k = g as int / gh as int;
    assert(h == 1) by (nonlinear_arith)
        requires
            g as int == gh as int * k,
            gh == g * h,
            g > 0,
            h > 0,
    ;
}

/// A fraction of naturals, as contracts speak of it.
pub struct Ratio {
    pub numer: nat,
    pub denom: nat,
}

impl Ratio {
    /// The fraction `numer / denom` in lowest terms.
    pub open spec fn reduced(numer: nat, denom: nat) -> Ratio {
        Ratio { numer: numer / gcd(numer, denom), denom: denom / gcd(numer, denom) }
    }

    /// The denominator is positive and shares no divisor with the numerator.
    pub open spec fn in_lowest_terms(self) -> bool {
        self.denom > 0 && gcd(self.numer, self.denom) == 1
    }

    /// `self <= other`, as rationals.
    pub open spec fn le(self, other: Ratio) -> bool {
        self.numer * other.denom <= other.numer * self.denom
    }

    /// `self < other`, as rationals.
    pub open spec fn lt(self, other: Ratio) -> bool {
        self.numer * other.denom < other.numer * self.denom
    }

    /// Strictly more than two thirds: the quorum.
    pub open spec fn exceeds_two_thirds(self) -> bool {
        3 * self.numer > 2 * self.denom
    }

    /// The numerator of `self + other` over the least common denominator.
    pub open spec fn sum_numer(self, other: Ratio) -> nat {
        let g = gcd(self.denom, other.denom);
        self.numer * (other.denom / g) + other.numer * (self.denom / g)
    }

    /// The least common denominator of `self` and `other`.
    pub open spec fn common_denom(self, other: Ratio) -> nat {
        (self.denom / gcd(self.denom, other.denom)) * other.denom
    }

    /// Both parts of `self + other` over the least common denominator fit in
    /// 64 bits.
    pub open spec fn sum_fits(self, other: Ratio) -> bool {
        self.common_denom(other) <= u64::MAX && self.sum_numer(other) <= u64::MAX
    }

    /// `self + other` in lowest terms.
    pub open spec fn plus(self, other: Ratio) -> Ratio {
        Ratio::reduced(self.sum_numer(other), self.common_denom(other))
    }
}

/// `reduced` yields a fraction in lowest terms that has the value of the one
/// it was given.
pub proof fn lemma_reduced(numer: nat, denom: nat)
    requires
        denom > 0,
    ensures
        Ratio::reduced(numer, denom).in_lowest_terms(),
        Ratio::reduced(numer, denom).numer * denom == numer * Ratio::reduced(numer, denom).denom,
        Ratio::reduced(numer, denom).numer <= numer,
        Ratio::reduced(numer, denom).denom <= denom,
{
    lemma_quotients_coprime(numer, denom);
    lemma_gcd_divides(numer, denom);
    let g = gcd(numer, denom);
    let n = numer / g;
    let d = denom / g;
    assert(n * denom == numer * d && n <= numer && d <= denom) by (nonlinear_arith)
        requires
            numer == g * n,
            denom == g * d,
            g > 0,
    ;
}

/// `plus` is the sum of the two fractions: over the product of the
/// denominators, its parts stand as those of `a/b + c/d = (ad + cb)/(bd)`.
pub proof fn lemma_plus_is_sum(a: Ratio, b: Ratio)
    requires
        a.denom > 0,
        b.denom > 0,
    ensures
        a.plus(b).in_lowest_terms(),
        a.plus(b).numer * (a.denom * b.denom) == (a.numer * b.denom + b.numer * a.denom)
            * a.plus(b).denom,
        a.plus(b).numer <= a.sum_numer(b),
        a.plus(b).denom <= a.common_denom(b),
{
    lemma_gcd_divides(a.denom, b.denom);
    let g = gcd(a.denom, b.denom);
    let ad = a.denom / g;
    let bd = b.denom / g;
    let n = a.sum_numer(b);
    let l = a.common_denom(b);
    assert(l > 0) by (nonlinear_arith)
        requires
            l == ad * b.denom,
            a.denom == g * ad,
            a.denom > 0,
            b.denom > 0,
            g > 0,
    ;
    lemma_reduced(n, l);
    let r = a.plus(b);
    assert(n * (a.denom * b.denom) == (a.numer * b.denom + b.numer * a.denom) * l)
        by (nonlinear_arith)
        requires
            n == a.numer * bd + b.numer * ad,
            l == ad * b.denom,
            a.denom == g * ad,
            b.denom == g * bd,
    ;
    assert(r.numer * (a.denom * b.denom) * l == (a.numer * b.denom + b.numer * a.denom) * r.denom
        * l) by (nonlinear_arith)
        requires
            r.numer * l == n * r.denom,
            n * (a.denom * b.denom) == (a.numer * b.denom + b.numer * a.denom) * l,
    ;
    assert(r.numer * (a.denom * b.denom) == (a.numer * b.denom + b.numer * a.denom) * r.denom)
        by (nonlinear_arith)
        requires
            r.numer * (a.denom * b.denom) * l == (a.numer * b.denom + b.numer * a.denom)
                * r.denom * l,
            l > 0,
    ;
}

/// A common factor of two numbers is a factor of their greatest common
/// divisor: `gcd(k * a, k * b) == k * gcd(a, b)`.
pub proof fn lemma_gcd_scales(k: nat, a: nat, b: nat)
    ensures
        gcd(k * a, k * b) == k * gcd(a, b),
    decreases b,
{
    if b == 0 {
        assert(k * b == 0) by (nonlinear_arith)
            requires
                b == 0,
        ;
    } else if k == 0 {
        assert(k * a == 0 && k * b == 0) by (nonlinear_arith)
            requires
                k == 0,
        ;
        assert(k * gcd(a, b) == 0) by (nonlinear_arith)
            requires
                k == 0,
        ;
    } else {
        lemma_truncate_middle(a as int, k as int, b as int);
        assert(k * b > 0) by (nonlinear_arith)
            requires
                k > 0,
                b > 0,
        ;
        assert((k * a) % (k * b) == k * (a % b));
        lemma_gcd_scales(k, b, a % b);
    }
}

/// A number that divides a product and shares no divisor with one factor
/// divides the other factor.
pub proof fn lemma_coprime_divisor(a: nat, b: nat, c: nat)
    requires
        b > 0,
        gcd(a, b) == 1,
        (a * c) % b == 0,
    ensures
        c % b == 0,
{
    lemma_gcd_scales(c, a, b);
    assert(c * a == a * c) by (nonlinear_arith);
    lemma_mod_multiples_basic(c as int, b as int);
    lemma_common_divisor_divides_gcd(b, c * a, c * b);
    assert(c * gcd(a, b) == c) by (nonlinear_arith)
        requires
            gcd(a, b) == 1,
    ;
}

/// Two fractions in lowest terms that have the same value are the same
/// fraction.
pub proof fn lemma_lowest_terms_are_unique(x: Ratio, y: Ratio)
    requires
        x.in_lowest_terms(),
        y.in_lowest_terms(),
        x.numer * y.denom == y.numer * x.denom,
    ensures
        x == y,
{
    lemma_mod_multiples_basic(y.numer as int, x.denom as int);
    lemma_coprime_divisor(x.numer, x.denom, y.denom);
    lemma_mod_multiples_basic(x.numer as int, y.denom as int);
    lemma_coprime_divisor(y.numer, y.denom, x.denom);
    lemma_fundamental_div_mod(y.denom as int, x.denom as int);
    lemma_fundamental_div_mod(x.denom as int, y.denom as int);
    let p = y.denom as int / x.denom as int;
    let q = x.denom as int / y.denom as int;
    assert(x.denom == y.denom) by (nonlinear_arith)
        requires
            y.denom as int == x.denom as int * p,
            x.denom as int == y.denom as int * q,
            x.denom > 0,
            y.denom > 0,
    ;
    assert(x.numer == y.numer) by (nonlinear_arith)
        requires
            x.numer * y.denom == y.numer * x.denom,
            x.denom == y.denom,
            x.denom > 0,
    ;
}

/// The sum of two fractions does not depend on their order.
pub proof fn lemma_plus_commutes(a: Ratio, b: Ratio)
    requires
        a.denom > 0,
        b.denom > 0,
    ensures
        a.plus(b) == b.plus(a),
{
    lemma_plus_is_sum(a, b);
    lemma_plus_is_sum(b, a);
    let r = a.plus(b);
    let s = b.plus(a);
    assert(r.numer * s.denom == s.numer * r.denom) by (nonlinear_arith)
        requires
            r.numer * (a.denom * b.denom) == (a.numer * b.denom + b.numer * a.denom) * r.denom,
            s.numer * (b.denom * a.denom) == (b.numer * a.denom + a.numer * b.denom) * s.denom,
            a.denom > 0,
            b.denom > 0,
    ;
    lemma_lowest_terms_are_unique(r, s);
}

/// The sum of three fractions, added one after the other, has the value
/// of `a/b + c/d + e/f = (adf + cbf + ebd)/(bdf)`.
pub proof fn lemma_plus_of_three(a: Ratio, b: Ratio, c: Ratio)
    requires
        a.denom > 0,
        b.denom > 0,
        c.denom > 0,
    ensures
        a.plus(b).plus(c).in_lowest_terms(),
        a.plus(b).plus(c).numer * (a.denom * b.denom * c.denom) == (a.numer * b.denom * c.denom
            + b.numer * a.denom * c.denom + c.numer * a.denom * b.denom) * a.plus(b).plus(
            c,
        ).denom,
{
    lemma_plus_is_sum(a, b);
    let ab = a.plus(b);
    lemma_plus_is_sum(ab, c);
    let r = ab.plus(c);
    let bd = a.denom * b.denom;
    let two = a.numer * b.denom + b.numer * a.denom;
    let three = a.numer * b.denom * c.denom + b.numer * a.denom * c.denom + c.numer * a.denom
        * b.denom;
    let qf = ab.denom * c.denom;
    let mixed = ab.numer * c.denom + c.numer * ab.denom;
    assert(three == two * c.denom + c.numer * bd) by (nonlinear_arith)
        requires
            three == a.numer * b.denom * c.denom + b.numer * a.denom * c.denom + c.numer
                * a.denom * b.denom,
            two == a.numer * b.denom + b.numer * a.denom,
            bd == a.denom * b.denom,
    ;
    assert(mixed * bd == ab.numer * bd * c.denom + c.numer * bd * ab.denom)
        by (nonlinear_arith)
        requires
            mixed == ab.numer * c.denom + c.numer * ab.denom,
    ;
    assert(ab.numer * bd * c.denom == two * c.denom * ab.denom) by (nonlinear_arith)
        requires
            ab.numer * bd == two * ab.denom,
    ;
    assert(mixed * bd == three * ab.denom) by (nonlinear_arith)
        requires
            mixed * bd == ab.numer * bd * c.denom + c.numer * bd * ab.denom,
            ab.numer * bd * c.denom == two * c.denom * ab.denom,
            three == two * c.denom + c.numer * bd,
    ;
    assert(r.numer * qf * bd == mixed * bd * r.denom) by (nonlinear_arith)
        requires
            r.numer * qf == mixed * r.denom,
    ;
    assert(r.numer * (bd * c.denom) * ab.denom == r.numer * qf * bd) by (nonlinear_arith)
        requires
            qf == ab.denom * c.denom,
    ;
    assert(r.numer * (bd * c.denom) * ab.denom == three * r.denom * ab.denom)
        by (nonlinear_arith)
        requires
            r.numer * (bd * c.denom) * ab.denom == r.numer * qf * bd,
            r.numer * qf * bd == mixed * bd * r.denom,
            mixed * bd == three * ab.denom,
    ;
    assert(r.numer * (bd * c.denom) == three * r.denom) by (nonlinear_arith)
        requires
            r.numer * (bd * c.denom) * ab.denom == three * r.denom * ab.denom,
            ab.denom > 0,
    ;
}

/// The sum of three fractions does not depend on which two are added
/// first.
pub proof fn lemma_plus_associates(a: Ratio, b: Ratio, c: Ratio)
    requires
        a.denom > 0,
        b.denom > 0,
        c.denom > 0,
    ensures
        a.plus(b).plus(c) == a.plus(b.plus(c)),
{
    lemma_plus_is_sum(b, c);
    lemma_plus_commutes(a, b.plus(c));
    lemma_plus_of_three(a, b, c);
    lemma_plus_of_three(b, c, a);
    let r = a.plus(b).plus(c);
    let s = b.plus(c).plus(a);
    let parts = a.denom * b.denom * c.denom;
    let whole = a.numer * b.denom * c.denom + b.numer * a.denom * c.denom + c.numer * a.denom
        * b.denom;
    assert(b.denom * c.denom * a.denom == parts) by (nonlinear_arith)
        requires
            parts == a.denom * b.denom * c.denom,
    ;
    assert(b.numer * c.denom * a.denom + c.numer * b.denom * a.denom + a.numer * b.denom
        * c.denom == whole) by (nonlinear_arith)
        requires
            whole == a.numer * b.denom * c.denom + b.numer * a.denom * c.denom + c.numer
                * a.denom * b.denom,
    ;
    assert(parts > 0) by (nonlinear_arith)
        requires
            parts == a.denom * b.denom * c.denom,
            a.denom > 0,
            b.denom > 0,
            c.denom > 0,
    ;
    assert(r.numer * s.denom * parts == s.numer * r.denom * parts) by (nonlinear_arith)
        requires
            r.numer * parts == whole * r.denom,
            s.numer * parts == whole * s.denom,
    ;
    assert(r.numer * s.denom == s.numer * r.denom) by (nonlinear_arith)
        requires
            r.numer * s.denom * parts == s.numer * r.denom * parts,
            parts > 0,
    ;
    lemma_lowest_terms_are_unique(r, s);
}

/// Adding a fraction never lowers the value.
pub proof fn lemma_plus_grows(a: Ratio, b: Ratio)
    requires
        a.denom > 0,
        b.denom > 0,
    ensures
        a.le(a.plus(b)),
        b.numer > 0 ==> a.lt(a.plus(b)),
{
    lemma_plus_is_sum(a, b);
    let r = a.plus(b);
    assert(a.numer * r.denom * b.denom <= r.numer * a.denom * b.denom && (b.numer > 0 ==> a.numer
        * r.denom * b.denom < r.numer * a.denom * b.denom)) by (nonlinear_arith)
        requires
            r.numer * (a.denom * b.denom) == (a.numer * b.denom + b.numer * a.denom) * r.denom,
            a.denom > 0,
            r.denom > 0,
    ;
    assert(a.numer * r.denom <= r.numer * a.denom && (b.numer > 0 ==> a.numer * r.denom < r.numer
        * a.denom)) by (nonlinear_arith)
        requires
            a.numer * r.denom * b.denom <= r.numer * a.denom * b.denom,
            b.numer > 0 ==> a.numer * r.denom * b.denom < r.numer * a.denom * b.denom,
            b.denom > 0,
    ;
}

/// The order of fractions with positive denominators is transitive.
pub proof fn lemma_le_transitive(a: Ratio, b: Ratio, c: Ratio)
    requires
        a.denom > 0,
        b.denom > 0,
        c.denom > 0,
        a.le(b),
        b.le(c),
    ensures
        a.le(c),
        a.lt(b) || b.lt(c) ==> a.lt(c),
{
    assert(a.numer * c.denom * b.denom <= c.numer * a.denom * b.denom && (a.lt(b) || b.lt(c)
        ==> a.numer * c.denom * b.denom < c.numer * a.denom * b.denom)) by (nonlinear_arith)
        requires
            a.numer * b.denom <= b.numer * a.denom,
            b.numer * c.denom <= c.numer * b.denom,
            a.lt(b) <==> a.numer * b.denom < b.numer * a.denom,
            b.lt(c) <==> b.numer * c.denom < c.numer * b.denom,
            a.denom > 0,
            c.denom > 0,
    ;
    assert(a.numer * c.denom <= c.numer * a.denom && (a.lt(b) || b.lt(c) ==> a.numer * c.denom
        < c.numer * a.denom)) by (nonlinear_arith)
        requires
            a.numer * c.denom * b.denom <= c.numer * a.denom * b.denom,
            a.lt(b) || b.lt(c) ==> a.numer * c.denom * b.denom < c.numer * a.denom * b.denom,
            b.denom > 0,
    ;
}

/// The greatest common divisor, by Euclid's algorithm.
fn greatest_common_divisor(a: u128, b: u128) -> (g: u128)
    ensures
        g == gcd(a as nat, b as nat),
{
    let mut x: u128 = a;
    let mut y: u128 = b;
    while y != 0
        invariant
            gcd(x as nat, y as nat) == gcd(a as nat, b as nat),
        decreases y,
    {
        let r: u128 = x % y;
        x = y;
        y = r;
    }
    x
}

/// A share of the total voting power: a fraction in lowest terms with a
/// positive denominator.
#[derive(Clone, Copy, Debug, PartialEq, Eq, Structural)]
pub struct FractionalVotingPower {
    numer: u64,
    denom: u64,
}

impl View for FractionalVotingPower {
    type V = Ratio;

    closed spec fn view(&self) -> Ratio {
        Ratio { numer: self.numer as nat, denom: self.denom as nat }
    }
}

impl FractionalVotingPower {
    /// What holds of every value of this type.
    #[verifier::type_invariant]
    pub open spec fn well_formed(self) -> bool {
        self@.in_lowest_terms()
    }

    /// The fraction `numer / denom`, brought to lowest terms. It is refused
    /// where the denominator is zero or the fraction is more than 1.
    pub fn new(numer: u64, denom: u64) -> (power: Option<Self>)
        ensures
            power is Some <==> denom != 0 && numer <= denom,
            power matches Some(p) ==> p@ == Ratio::reduced(numer as nat, denom as nat),
    {
        if numer > denom {
            return None;
        }
        FractionalVotingPower::from_parts(numer, denom)
    }

    /// The fraction `numer / denom`, brought to lowest terms, whether or not
    /// it is more than 1: a sum of voting powers as it was stored. It is
    /// refused where the denominator is zero.
    pub fn from_parts(numer: u64, denom: u64) -> (power: Option<Self>)
        ensures
            power is Some <==> denom != 0,
            power matches Some(p) ==> p@ == Ratio::reduced(numer as nat, denom as nat),
    {
        if denom == 0 {
            return None;
        }
        proof {
            lemma_reduced(numer as nat, denom as nat);
            lemma_gcd_divides(numer as nat, denom as nat);
        }
        let g: u128 = greatest_common_divisor(numer as u128, denom as u128);
        let n: u128 = numer as u128 / g;
        let d: u128 = denom as u128 / g;
        Some(FractionalVotingPower { numer: n as u64, denom: d as u64 })
    }

    /// Two thirds: a quorum is any voting power strictly above it.
    pub fn two_thirds() -> (power: Self)
        ensures
            power@ == (Ratio { numer: 2, denom: 3 }),
    {
        proof {
            reveal_with_fuel(gcd, 5);
        }
        FractionalVotingPower { numer: 2, denom: 3 }
    }

    /// The numerator of the fraction in lowest terms.
    pub fn numer(&self) -> (n: u64)
        ensures
            n == self@.numer,
    {
        self.numer
    }

    /// The denominator of the fraction in lowest terms.
    pub fn denom(&self) -> (d: u64)
        ensures
            d == self@.denom,
            d > 0,
    {
        proof {
            use_type_invariant(self);
        }
        self.denom
    }

    /// `self + other` in lowest terms. The sum is formed over the least
    /// common denominator, and refused where that denominator or the
    /// numerator over it does not fit in 64 bits.
    pub fn checked_add(&self, other: &Self) -> (sum: Option<Self>)
        ensures
            sum is Some <==> self@.sum_fits(other@),
            sum matches Some(s) ==> s@ == self@.plus(other@),
    {
        proof {
            use_type_invariant(self);
            use_type_invariant(other);
            lemma_gcd_divides(self.denom as nat, other.denom as nat);
            lemma_plus_is_sum(self@, other@);
        }
        let g: u128 = greatest_common_divisor(self.denom as u128, other.denom as u128);
        let sd: u128 = self.denom as u128 / g;
        let od: u128 = other.denom as u128 / g;
        let bound: u128 = 0xffff_ffff_ffff_ffff;
        assert(sd * (other.denom as u128) <= bound * bound) by (nonlinear_arith)
            requires
                sd <= bound,
                other.denom as u128 <= bound,
        ;
        assert((self.numer as u128) * od <= bound * bound) by (nonlinear_arith)
            requires
                od <= bound,
                self.numer as u128 <= bound,
        ;
        assert((other.numer as u128) * sd <= bound * bound) by (nonlinear_arith)
            requires
                sd <= bound,
                other.numer as u128 <= bound,
        ;
        let l: u128 = sd * (other.denom as u128);
        let n1: u128 = (self.numer as u128) * od;
        let n2: u128 = (other.numer as u128) * sd;
        if l > bound || n1 > bound || n2 > bound {
            return None;
        }
        let n: u128 = n1 + n2;
        if n > bound {
            return None;
        }
        proof {
            lemma_gcd_divides(n as nat, l as nat);
        }
        let h: u128 = greatest_common_divisor(n, l);
        Some(FractionalVotingPower { numer: (n / h) as u64, denom: (l / h) as u64 })
    }

    /// `self <= other`, as rationals.
    pub fn le(&self, other: &Self) -> (b: bool)
        ensures
            b == self@.le(other@),
    {
        let bound: u128 = 0xffff_ffff_ffff_ffff;
        assert((self.numer as u128) * (other.denom as u128) <= bound * bound) by (nonlinear_arith)
            requires
                self.numer as u128 <= bound,
                other.denom as u128 <= bound,
        ;
        assert((other.numer as u128) * (self.denom as u128) <= bound * bound) by (nonlinear_arith)
            requires
                other.numer as u128 <= bound,
                self.denom as u128 <= bound,
        ;
        (self.numer as u128) * (other.denom as u128) <= (other.numer as u128) * (self.denom as u128)
    }

    /// `self < other`, as rationals.
    pub fn lt(&self, other: &Self) -> (b: bool)
        ensures
            b == self@.lt(other@),
    {
        let bound: u128 = 0xffff_ffff_ffff_ffff;
        assert((self.numer as u128) * (other.denom as u128) <= bound * bound) by (nonlinear_arith)
            requires
                self.numer as u128 <= bound,
                other.denom as u128 <= bound,
        ;
        assert((other.numer as u128) * (self.denom as u128) <= bound * bound) by (nonlinear_arith)
            requires
                other.numer as u128 <= bound,
                self.denom as u128 <= bound,
        ;
        (self.numer as u128) * (other.denom as u128) < (other.numer as u128) * (self.denom as u128)
    }

    /// `self >= other`, as rationals.
    pub fn ge(&self, other: &Self) -> (b: bool)
        ensures
            b == other@.le(self@),
    {
        other.le(self)
    }

    /// `self > other`, as rationals.
    pub fn gt(&self, other: &Self) -> (b: bool)
        ensures
            b == other@.lt(self@),
    {
        other.lt(self)
    }

    /// Whether this voting power is a quorum: strictly more than two thirds.
    pub fn exceeds_two_thirds(&self) -> (b: bool)
        ensures
            b == self@.exceeds_two_thirds(),
    {
        let two_thirds = FractionalVotingPower::two_thirds();
        self.gt(&two_thirds)
    }
}

/// Two voting powers are the same exactly where their fractions are.
pub proof fn lemma_view_is_one_to_one(a: FractionalVotingPower, b: FractionalVotingPower)
    ensures
        (a@ == b@) == (a == b),
{
}

/// Two voting powers are the same exactly where they have the same value:
/// where each is at most the other.
pub proof fn lemma_same_exactly_when_same_value(a: FractionalVotingPower, b: FractionalVotingPower)
    requires
        a.well_formed(),
        b.well_formed(),
    ensures
        (a == b) == (a@.le(b@) && b@.le(a@)),
{
    if a@.le(b@) && b@.le(a@) {
        lemma_lowest_terms_are_unique(a@, b@);
    }
}

impl PartialOrd for FractionalVotingPower {
    /// The order of the values.
    fn partial_cmp(&self, other: &Self) -> (order: Option<Ordering>) {
        if self.lt(other) {
            Some(Ordering::Less)
        } else if other.lt(self) {
            Some(Ordering::Greater)
        } else {
            Some(Ordering::Equal)
        }
    }
}

impl PartialOrdSpecImpl for FractionalVotingPower {
    open spec fn obeys_partial_cmp_spec() -> bool {
        true
    }

    open spec fn partial_cmp_spec(&self, other: &Self) -> Option<Ordering> {
        if self@.lt(other@) {
            Some(Ordering::Less)
        } else if other@.lt(self@) {
            Some(Ordering::Greater)
        } else {
            Some(Ordering::Equal)
        }
    }
}

impl Default for FractionalVotingPower {
    /// No voting power at all.
    fn default() -> (power: Self)
        ensures
            power@ == (Ratio { numer: 0, denom: 1 }),
    {
        proof {
            reveal_with_fuel(gcd, 3);
        }
        FractionalVotingPower { numer: 0, denom: 1 }
    }
}

} // verus!
