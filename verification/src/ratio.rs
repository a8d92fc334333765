//! Exact rational numbers in lowest terms, with checked arithmetic.

use vstd::prelude::*;
use vstd::arithmetic::div_mod::*;
use vstd::arithmetic::mul::*;

verus! {

/// Greatest common divisor of two naturals, by Euclid's recursion.
pub open spec fn gcd(a: nat, b: nat) -> nat
    decreases b,
{
    if b == 0 {
        a
    } else {
        gcd(b, a % b)
    }
}

/// `d` divides `n`.
pub open spec fn divides(d: nat, n: nat) -> bool {
    exists|k: nat| n == #[trigger] (d * k)
}

/// The greatest common divisor divides both of its arguments.
pub proof fn lemma_gcd_divides(a: nat, b: nat)
    ensures
        divides(gcd(a, b), a),
        divides(gcd(a, b), b),
    decreases b,
{
    if b == 0 {
        assert(a == a * 1);
        assert(0 == a * 0);
    } else {
        lemma_gcd_divides(b, a % b);
        let g = gcd(a, b);
        let kb = choose|k: nat| b == #[trigger] (g * k);
        let kr = choose|k: nat| a % b == #[trigger] (g * k);
        lemma_fundamental_div_mod(a as int, b as int);
        let q = a / b;
        assert(a == g * (kb * q + kr)) by (nonlinear_arith)
            requires
                a == b * q + a % b,
                b == g * kb,
                a % b == g * kr,
        ;
    }
}

/// The greatest common divisor is positive unless both arguments are zero.
pub proof fn lemma_gcd_positive(a: nat, b: nat)
    requires
        a > 0 || b > 0,
    ensures
        gcd(a, b) > 0,
    decreases b,
{
    if b != 0 {
        lemma_gcd_positive(b, a % b);
    }
}

/// Every common divisor of two numbers divides their greatest common divisor.
pub proof fn lemma_gcd_greatest(a: nat, b: nat, d: nat)
    requires
        divides(d, a),
        divides(d, b),
    ensures
        divides(d, gcd(a, b)),
    decreases b,
{
    if b != 0 {
        let ka = choose|k: nat| a == #[trigger] (d * k);
        let kb = choose|k: nat| b == #[trigger] (d * k);
        lemma_fundamental_div_mod(a as int, b as int);
        let q = a / b;
        let r = a % b;
        assert(r == d * (ka - kb * q)) by (nonlinear_arith)
            requires
                a == b * q + r,
                a == d * ka,
                b == d * kb,
        ;
        if d == 0 {
            assert(b == 0) by (nonlinear_arith)
                requires
                    b == d * kb,
                    d == 0,
            ;
        } else {
            assert(ka - kb * q >= 0) by (nonlinear_arith)
                requires
                    r == d * (ka - kb * q),
                    r >= 0,
                    d > 0,
            ;
            assert(r == d * ((ka - kb * q) as nat));
        }
        lemma_gcd_greatest(b, r, d);
    }
}

/// Executable greatest common divisor.
pub fn gcd_u128(a: u128, b: u128) -> (g: u128)
    ensures
        g == gcd(a as nat, b as nat),
{
    let mut x: u128 = a;
    let mut y: u128 = b;
    while y != 0
        invariant
            gcd(x as nat, y as nat) == gcd(a as nat, b as nat),
        decreases y,
    {
        let r: u128 = x % y;
        x = y;
        y = r;
    }
    x
}


/// Absolute value of an integer.
pub open spec fn magnitude(n: int) -> nat {
    if n < 0 {
        (-n) as nat
    } else {
        n as nat
    }
}

/// Largest magnitude that a numerator or denominator may have.
pub const LIMIT: i64 = 0x7fff_ffff_ffff_ffff;

/// An exact rational number `num / den`.
#[derive(Clone, Copy, Debug, PartialEq, Eq, Structural)]
pub struct Ratio {
    pub num: i64,
    pub den: i64,
}

/// The fraction `n / d` divided through by the greatest common divisor of
/// its terms.
pub open spec fn reduced(n: int, d: int) -> (int, int) {
    let g = gcd(magnitude(n), magnitude(d)) as int;
    (n / g, d / g)
}

/// `n / d` in lowest terms as a `Ratio`, when both terms are within `LIMIT`.
pub open spec fn normalize(n: int, d: int) -> Option<Ratio> {
    let (rn, rd) = reduced(n, d);
    if -LIMIT <= rn <= LIMIT && 1 <= rd <= LIMIT {
        Some(Ratio { num: rn as i64, den: rd as i64 })
    } else {
        None
    }
}

/// Reducing a fraction keeps its value: the reduced terms, cross-multiplied
/// with the given ones, agree, and the reduced terms are no larger.
pub proof fn lemma_reduced_value(n: int, d: int)
    requires
        d > 0,
    ensures
        reduced(n, d).1 > 0,
        reduced(n, d).0 * d == n * reduced(n, d).1,
        magnitude(reduced(n, d).0) <= magnitude(n),
        reduced(n, d).1 <= d,
        n >= 0 ==> reduced(n, d).0 >= 0,
        n <= 0 ==> reduced(n, d).0 <= 0,
        n == 0 ==> reduced(n, d) == (0int, 1int),
{
    let m = magnitude(n);
    let g = gcd(m, d as nat);
    lemma_gcd_positive(m, d as nat);
    lemma_gcd_divides(m, d as nat);
    let km = choose|k: nat| m == #[trigger] (g * k);
    let kd = choose|k: nat| d as nat == #[trigger] (g * k);
    let gi = g as int;
    lemma_div_multiples_vanish(kd as int, gi);
    assert(gi * kd == kd * gi) by (nonlinear_arith);
    assert(d / gi == kd);
    let kn: int = if n < 0 { -(km as int) } else { km as int };
    assert(n == gi * kn) by (nonlinear_arith)
        requires
            m == g * km,
            gi == g,
            kn == (if n < 0 { -(km as int) } else { km as int }),
            m == (if n < 0 { -n } else { n }),
    ;
    lemma_div_multiples_vanish(kn, gi);
    assert(gi * kn == kn * gi) by (nonlinear_arith);
    assert(n / gi == kn);
    assert(kn * d == n * kd) by (nonlinear_arith)
        requires
            n == gi * kn,
            d == gi * kd,
    ;
    assert(kd > 0 && kd <= d) by (nonlinear_arith)
        requires
            d == gi * kd,
            d > 0,
            gi > 0,
            kd >= 0,
    ;
    assert(km <= m) by (nonlinear_arith)
        requires
            m == gi * km,
            gi > 0,
            km >= 0,
    ;
    if n == 0 {
        assert(g == d) by {
            reveal_with_fuel(gcd, 3);
            lemma_small_mod(0, d as nat);
        }
        lemma_div_by_self(d);
        assert(km == 0) by (nonlinear_arith)
            requires
                0 == gi * km,
                gi > 0,
        ;
    }
}

impl Ratio {
    /// Well-formedness: a positive denominator, and both terms within `LIMIT`.
    pub open spec fn wf(self) -> bool {
        &&& -LIMIT <= self.num <= LIMIT
        &&& 1 <= self.den <= LIMIT
    }

    /// Two ratios denote the same number.
    pub open spec fn same_value(self, other: Ratio) -> bool {
        self.num * other.den == other.num * self.den
    }

    /// The ratio denotes the number `n / d`.
    pub open spec fn is_value(self, n: int, d: int) -> bool {
        self.num * d == n * self.den
    }

    pub open spec fn spec_zero() -> Ratio {
        Ratio { num: 0, den: 1 }
    }

    pub open spec fn spec_one() -> Ratio {
        Ratio { num: 1, den: 1 }
    }

    pub open spec fn spec_from_int(n: i32) -> Ratio {
        Ratio { num: n as i64, den: 1 }
    }

    /// The sum of two ratios, unless its lowest terms exceed `LIMIT`.
    pub open spec fn spec_checked_add(self, other: Ratio) -> Option<Ratio> {
        normalize(self.num * other.den + other.num * self.den, self.den * other.den)
    }

    /// The product of two ratios, unless its lowest terms exceed `LIMIT`.
    pub open spec fn spec_checked_mul(self, other: Ratio) -> Option<Ratio> {
        normalize(self.num * other.num, self.den * other.den)
    }

    /// The quotient of two ratios, unless the divisor is zero or the lowest
    /// terms of the quotient exceed `LIMIT`.
    pub open spec fn spec_checked_div(self, other: Ratio) -> Option<Ratio> {
        if other.num == 0 {
            None
        } else if other.num > 0 {
            normalize(self.num * other.den, self.den * other.num)
        } else {
            normalize(-(self.num * other.den), -(self.den * other.num))
        }
    }

    /// What `new` returns: `num / den` in lowest terms with the sign carried
    /// by the numerator.
    pub open spec fn spec_new(num: i64, den: i64) -> Option<Ratio> {
        if den == 0 {
            None
        } else if den > 0 {
            normalize(num as int, den as int)
        } else {
            normalize(-(num as int), -(den as int))
        }
    }

    pub open spec fn spec_lt(self, other: Ratio) -> bool {
        self.num * other.den < other.num * self.den
    }

    pub open spec fn spec_le(self, other: Ratio) -> bool {
        self.num * other.den <= other.num * self.den
    }
}


/// Dividing the negation of a multiple of `g` by `g` negates the quotient.
proof fn lemma_div_negated_multiple(m: nat, g: nat)
    requires
        g > 0,
        divides(g, m),
    ensures
        (-(m as int)) / (g as int) == -((m as int) / (g as int)),
{
    let k = choose|k: nat| m == #[trigger] (g * k);
    let gi = g as int;
    let ki = k as int;
    lemma_div_multiples_vanish(ki, gi);
    lemma_div_multiples_vanish(-ki, gi);
    assert(gi * ki == ki * gi) by (nonlinear_arith);
    assert(gi * (-ki) == -(m as int)) by (nonlinear_arith)
        requires
            m == gi * ki,
    ;
    assert((-ki) * gi == gi * (-ki)) by (nonlinear_arith);
}

/// Bounds on a product of two terms that are within `LIMIT`.
proof fn lemma_product_bound(a: int, b: int)
    requires
        -LIMIT <= a <= LIMIT,
        -LIMIT <= b <= LIMIT,
    ensures
        -(LIMIT * LIMIT) <= a * b <= LIMIT * LIMIT,
        LIMIT * LIMIT == 0x3fff_ffff_ffff_ffff_0000_0000_0000_0001,
{
    assert(-(LIMIT * LIMIT) <= a * b <= LIMIT * LIMIT) by (nonlinear_arith)
        requires
            -LIMIT <= a <= LIMIT,
            -LIMIT <= b <= LIMIT,
    ;
    assert(0x7fff_ffff_ffff_ffffint * 0x7fff_ffff_ffff_ffffint
        == 0x3fff_ffff_ffff_ffff_0000_0000_0000_0001) by (nonlinear_arith);
}

/// The ratio of a sign and a magnitude over a positive denominator, in
/// lowest terms.
pub fn from_magnitude(negative: bool, m: u128, d: u128) -> (r: Option<Ratio>)
    requires
        d > 0,
    ensures
        r == normalize(
            if negative {
                -(m as int)
            } else {
                m as int
            },
            d as int,
        ),
        r is Some ==> r->0.wf() && r->0.is_reduced(),
{
    let g: u128 = gcd_u128(m, d);
    let ghost n: int = if negative { -(m as int) } else { m as int };
    proof {
        lemma_gcd_positive(m as nat, d as nat);
        lemma_gcd_divides(m as nat, d as nat);
        lemma_reduced_value(n, d as int);
        lemma_reduced_is_lowest(n, d as int);
        assert(magnitude(n) == m as nat);
        assert(magnitude(d as int) == d as nat);
        if negative {
            lemma_div_negated_multiple(m as nat, g as nat);
        }
    }
    let rm: u128 = m / g;
    let rd: u128 = d / g;
    assert(reduced(n, d as int).1 == rd);
    assert(reduced(n, d as int).0 == (if negative { -(rm as int) } else { rm as int }));
    if rm > 0x7fff_ffff_ffff_ffff || rd > 0x7fff_ffff_ffff_ffff {
        return None;
    }
    let mag: i64 = rm as i64;
    let num: i64 = if negative {
        -mag
    } else {
        mag
    };
    Some(Ratio { num, den: rd as i64 })
}

/// The ratio `n / d` of a signed numerator over a positive denominator, in
/// lowest terms.
pub fn from_signed(n: i128, d: i128) -> (r: Option<Ratio>)
    requires
        d > 0,
        n > i128::MIN,
    ensures
        r == normalize(n as int, d as int),
        r is Some ==> r->0.wf() && r->0.is_reduced(),
{
    if n < 0 {
        let m: i128 = -n;
        from_magnitude(true, m as u128, d as u128)
    } else {
        from_magnitude(false, n as u128, d as u128)
    }
}

impl Ratio {
    /// The ratio `num / den` in lowest terms; `None` when `den` is zero or
    /// the result would not fit.
    pub fn new(num: i64, den: i64) -> (r: Option<Ratio>)
        ensures
            r == Ratio::spec_new(num, den),
            r is Some ==> r->0.wf() && r->0.is_reduced(),
    {
        if den == 0 {
            None
        } else if den > 0 {
            from_signed(num as i128, den as i128)
        } else {
            from_signed(-(num as i128), -(den as i128))
        }
    }

    /// Zero.
    pub fn zero() -> (r: Ratio)
        ensures
            r == Ratio::spec_zero(),
            r.wf(),
            r.is_reduced(),
    {
        proof {
            lemma_whole_is_reduced(0);
        }
        Ratio { num: 0, den: 1 }
    }

    /// One.
    pub fn one() -> (r: Ratio)
        ensures
            r == Ratio::spec_one(),
            r.wf(),
            r.is_reduced(),
    {
        proof {
            lemma_whole_is_reduced(1);
        }
        Ratio { num: 1, den: 1 }
    }

    /// The whole number `n`.
    pub fn from_int(n: i32) -> (r: Ratio)
        ensures
            r == Ratio::spec_from_int(n),
            r.wf(),
            r.is_reduced(),
    {
        proof {
            lemma_whole_is_reduced(n as int);
        }
        Ratio { num: n as i64, den: 1 }
    }

    /// The numerator.
    pub fn numer(&self) -> (n: i64)
        ensures
            n == self.num,
    {
        self.num
    }

    /// The denominator.
    pub fn denom(&self) -> (d: i64)
        ensures
            d == self.den,
    {
        self.den
    }

    /// Checked addition.
    pub fn checked_add(&self, other: &Ratio) -> (r: Option<Ratio>)
        requires
            self.wf(),
            other.wf(),
        ensures
            r == self.spec_checked_add(*other),
            r is Some ==> r->0.wf() && r->0.is_reduced(),
    {
        proof {
            lemma_product_bound(self.num as int, other.den as int);
            lemma_product_bound(other.num as int, self.den as int);
            lemma_product_bound(self.den as int, other.den as int);
            assert(self.den * other.den > 0) by (nonlinear_arith)
                requires
                    self.den >= 1,
                    other.den >= 1,
            ;
        }
        let n: i128 = (self.num as i128) * (other.den as i128) + (other.num as i128) * (
        self.den as i128);
        let d: i128 = (self.den as i128) * (other.den as i128);
        from_signed(n, d)
    }

    /// Checked multiplication.
    pub fn checked_mul(&self, other: &Ratio) -> (r: Option<Ratio>)
        requires
            self.wf(),
            other.wf(),
        ensures
            r == self.spec_checked_mul(*other),
            r is Some ==> r->0.wf() && r->0.is_reduced(),
    {
        proof {
            lemma_product_bound(self.num as int, other.num as int);
            lemma_product_bound(self.den as int, other.den as int);
            assert(self.den * other.den > 0) by (nonlinear_arith)
                requires
                    self.den >= 1,
                    other.den >= 1,
            ;
        }
        let n: i128 = (self.num as i128) * (other.num as i128);
        let d: i128 = (self.den as i128) * (other.den as i128);
        from_signed(n, d)
    }

    /// Checked division.
    pub fn checked_div(&self, other: &Ratio) -> (r: Option<Ratio>)
        requires
            self.wf(),
            other.wf(),
        ensures
            r == self.spec_checked_div(*other),
            r is Some ==> r->0.wf() && r->0.is_reduced(),
    {
        if other.num == 0 {
            return None;
        }
        proof {
            lemma_product_bound(self.num as int, other.den as int);
            lemma_product_bound(self.den as int, other.num as int);
            if other.num > 0 {
                assert(self.den * other.num > 0) by (nonlinear_arith)
                    requires
                        self.den >= 1,
                        other.num >= 1,
                ;
            } else {
                assert(self.den * other.num < 0) by (nonlinear_arith)
                    requires
                        self.den >= 1,
                        other.num <= -1,
                ;
            }
        }
        let n: i128 = (self.num as i128) * (other.den as i128);
        let d: i128 = (self.den as i128) * (other.num as i128);
        if other.num > 0 {
            from_signed(n, d)
        } else {
            from_signed(-n, -d)
        }
    }

    /// Whether the ratio is well formed.
    pub fn is_wf(&self) -> (b: bool)
        ensures
            b == self.wf(),
    {
        -LIMIT <= self.num && self.num <= LIMIT && 1 <= self.den && self.den <= LIMIT
    }

    /// Whether the ratio is zero.
    pub fn is_zero(&self) -> (b: bool)
        ensures
            b == (self.num == 0),
    {
        self.num == 0
    }

    /// Whether the ratio is greater than zero.
    pub fn is_positive(&self) -> (b: bool)
        ensures
            b == (self.num > 0),
    {
        self.num > 0
    }

    /// Whether the ratio is less than zero.
    pub fn is_negative(&self) -> (b: bool)
        ensures
            b == (self.num < 0),
    {
        self.num < 0
    }

    /// Whether `self` is strictly less than `other` as a number.
    pub fn lt(&self, other: &Ratio) -> (b: bool)
        requires
            self.wf(),
            other.wf(),
        ensures
            b == self.spec_lt(*other),
    {
        proof {
            lemma_product_bound(self.num as int, other.den as int);
            lemma_product_bound(other.num as int, self.den as int);
        }
        (self.num as i128) * (other.den as i128) < (other.num as i128) * (self.den as i128)
    }

    /// Whether `self` and `other` are the same number.
    pub fn eq_value(&self, other: &Ratio) -> (b: bool)
        requires
            self.wf(),
            other.wf(),
        ensures
            b == self.same_value(*other),
    {
        proof {
            lemma_product_bound(self.num as int, other.den as int);
            lemma_product_bound(other.num as int, self.den as int);
        }
        (self.num as i128) * (other.den as i128) == (other.num as i128) * (self.den as i128)
    }
}

/// Where `normalize` gives a ratio, that ratio is well formed and denotes
/// `n / d`.
pub proof fn lemma_normalize_value(n: int, d: int)
    requires
        d > 0,
        normalize(n, d) is Some,
    ensures
        normalize(n, d)->0.wf(),
        normalize(n, d)->0.is_value(n, d),
        n >= 0 ==> normalize(n, d)->0.num >= 0,
        n > 0 ==> normalize(n, d)->0.num > 0,
        n == 0 ==> normalize(n, d)->0 == Ratio::spec_zero(),
{
    lemma_reduced_value(n, d);
    let r = normalize(n, d)->0;
    if n > 0 && r.num == 0 {
        assert(0 * d == 0) by (nonlinear_arith);
        assert(n * r.den > 0) by (nonlinear_arith)
            requires
                n > 0,
                r.den > 0,
        ;
    }
}

/// Swapping the last two factors of a product of three.
pub proof fn lemma_swap_last(a: int, b: int, c: int)
    ensures
        (a * b) * c == (a * c) * b,
{
    lemma_mul_is_associative(a, b, c);
    lemma_mul_is_associative(a, c, b);
    lemma_mul_is_commutative(b, c);
}

/// Cancelling a positive common factor.
pub proof fn lemma_cancel(x: int, y: int, d: int)
    requires
        d > 0,
        x * d == y * d,
    ensures
        x == y,
{
    assert(x == y) by (nonlinear_arith)
        requires
            d > 0,
            x * d == y * d,
    ;
}

/// If `cn / cd == an / ad + bn / bd` holds after scaling by `d`, it holds.
proof fn lemma_add_cross(
    cn: int,
    cd: int,
    an: int,
    ad: int,
    bn: int,
    bd: int,
    na: int,
    nb: int,
    d: int,
)
    requires
        d > 0,
        an * d == na * ad,
        bn * d == nb * bd,
        cn * d == (na + nb) * cd,
    ensures
        cn * (ad * bd) == (an * bd + bn * ad) * cd,
{
    let lhs = cn * (ad * bd);
    let rhs = (an * bd + bn * ad) * cd;
    let x = an * bd * cd;
    let y = bn * ad * cd;
    assert(rhs == x + y) by (nonlinear_arith)
        requires
            rhs == (an * bd + bn * ad) * cd,
            x == an * bd * cd,
            y == bn * ad * cd,
    ;
    let p = an * d;
    let q = bn * d;
    let r = cn * d;
    assert(x * d == p * (bd * cd)) by (nonlinear_arith)
        requires
            x == an * bd * cd,
            p == an * d,
    ;
    assert(y * d == q * (ad * cd)) by (nonlinear_arith)
        requires
            y == bn * ad * cd,
            q == bn * d,
    ;
    assert(lhs * d == r * (ad * bd)) by (nonlinear_arith)
        requires
            lhs == cn * (ad * bd),
            r == cn * d,
    ;
    let u = na * ad;
    let v = nb * bd;
    let w = (na + nb) * cd;
    let t = ad * (bd * cd);
    assert(bd * (ad * cd) == t) by (nonlinear_arith)
        requires
            t == ad * (bd * cd),
    ;
    assert(cd * (ad * bd) == t) by (nonlinear_arith)
        requires
            t == ad * (bd * cd),
    ;
    lemma_mul_is_associative(na, ad, bd * cd);
    lemma_mul_is_associative(nb, bd, ad * cd);
    lemma_mul_is_associative(na + nb, cd, ad * bd);
    lemma_mul_is_distributive_add_other_way(t, na, nb);
    assert(u * (bd * cd) + v * (ad * cd) == w * (ad * bd));
    assert(rhs * d == x * d + y * d) by (nonlinear_arith)
        requires
            rhs == x + y,
    ;
    lemma_cancel(lhs, rhs, d);
}

/// Three ratios that denote `na / d`, `nb / d` and `(na + nb) / d`: the third
/// is the sum of the first two.
pub proof fn lemma_value_add(a: Ratio, b: Ratio, c: Ratio, na: int, nb: int, d: int)
    requires
        d > 0,
        a.is_value(na, d),
        b.is_value(nb, d),
        c.is_value(na + nb, d),
    ensures
        c.num * (a.den * b.den) == (a.num * b.den + b.num * a.den) * c.den,
{
    lemma_add_cross(
        c.num as int,
        c.den as int,
        a.num as int,
        a.den as int,
        b.num as int,
        b.den as int,
        na,
        nb,
        d,
    );
}

/// Two ratios that denote `n / d` and `k * n / d`: the second is `k` times
/// the first.
pub proof fn lemma_value_scale(a: Ratio, c: Ratio, n: int, k: int, d: int)
    requires
        d > 0,
        a.is_value(n, d),
        c.is_value(k * n, d),
    ensures
        c.num * a.den == k * a.num * c.den,
{
    let lhs = c.num * a.den;
    let rhs = k * a.num * c.den;
    assert(lhs * d == (c.num * d) * a.den) by (nonlinear_arith)
        requires
            lhs == c.num * a.den,
    ;
    assert(rhs * d == (k * (a.num * d)) * c.den) by (nonlinear_arith)
        requires
            rhs == k * a.num * c.den,
    ;
    assert(((k * n) * c.den) * a.den == (k * (n * a.den)) * c.den) by (nonlinear_arith);
    lemma_cancel(lhs, rhs, d);
}

/// Two ratios that denote the same fraction are the same number.
pub proof fn lemma_value_unique(a: Ratio, b: Ratio, n: int, d: int)
    requires
        d > 0,
        a.is_value(n, d),
        b.is_value(n, d),
    ensures
        a.same_value(b),
{
    let lhs = a.num * b.den;
    let rhs = b.num * a.den;
    assert(lhs * d == (a.num * d) * b.den) by (nonlinear_arith)
        requires
            lhs == a.num * b.den,
    ;
    assert(rhs * d == (b.num * d) * a.den) by (nonlinear_arith)
        requires
            rhs == b.num * a.den,
    ;
    assert((n * a.den) * b.den == (n * b.den) * a.den) by (nonlinear_arith);
    lemma_cancel(lhs, rhs, d);
}

/// A ratio that denotes `(k * n) / (k * d)` denotes `n / d`.
pub proof fn lemma_value_cancel_factor(a: Ratio, k: int, n: int, d: int)
    requires
        k > 0,
        a.is_value(k * n, k * d),
    ensures
        a.is_value(n, d),
{
    let lhs = a.num * d;
    let rhs = n * a.den;
    lemma_mul_is_associative(a.num as int, k, d);
    lemma_swap_last(a.num as int, d, k);
    lemma_mul_is_associative(k, n, a.den as int);
    lemma_mul_is_commutative(k, n * a.den);
    lemma_cancel(lhs, rhs, k);
}

/// A sum that `checked_add` gives is exactly the sum of the two ratios.
pub proof fn lemma_checked_add_value(a: Ratio, b: Ratio)
    requires
        a.wf(),
        b.wf(),
        a.spec_checked_add(b) is Some,
    ensures
        a.spec_checked_add(b)->0.wf(),
        a.spec_checked_add(b)->0.is_value(a.num * b.den + b.num * a.den, a.den * b.den),
{
    assert(a.den * b.den > 0) by (nonlinear_arith)
        requires
            a.den >= 1,
            b.den >= 1,
    ;
    lemma_normalize_value(a.num * b.den + b.num * a.den, a.den * b.den);
}

/// A product that `checked_mul` gives is exactly the product of the two
/// ratios.
pub proof fn lemma_checked_mul_value(a: Ratio, b: Ratio)
    requires
        a.wf(),
        b.wf(),
        a.spec_checked_mul(b) is Some,
    ensures
        a.spec_checked_mul(b)->0.wf(),
        a.spec_checked_mul(b)->0.is_value(a.num * b.num, a.den * b.den),
{
    assert(a.den * b.den > 0) by (nonlinear_arith)
        requires
            a.den >= 1,
            b.den >= 1,
    ;
    lemma_normalize_value(a.num * b.num, a.den * b.den);
}

/// A quotient that `checked_div` gives is exactly the quotient of the two
/// ratios, and is not negative where neither of them is.
pub proof fn lemma_checked_div_value(a: Ratio, b: Ratio)
    requires
        a.wf(),
        b.wf(),
        a.spec_checked_div(b) is Some,
    ensures
        b.num != 0,
        a.spec_checked_div(b)->0.wf(),
        a.spec_checked_div(b)->0.is_value(a.num * b.den, a.den * b.num),
        (a.num >= 0 && b.num > 0) ==> a.spec_checked_div(b)->0.num >= 0,
        (a.num > 0 && b.num > 0) ==> a.spec_checked_div(b)->0.num > 0,
{
    let n = a.num * b.den;
    let d = a.den * b.num;
    let r = a.spec_checked_div(b)->0;
    if b.num > 0 {
        assert(d > 0) by (nonlinear_arith)
            requires
                d == a.den * b.num,
                a.den >= 1,
                b.num >= 1,
        ;
        lemma_normalize_value(n, d);
        if a.num >= 0 {
            assert(n >= 0) by (nonlinear_arith)
                requires
                    n == a.num * b.den,
                    a.num >= 0,
                    b.den >= 1,
            ;
        }
        if a.num > 0 {
            assert(n > 0) by (nonlinear_arith)
                requires
                    n == a.num * b.den,
                    a.num >= 1,
                    b.den >= 1,
            ;
        }
    } else {
        assert(-d > 0) by (nonlinear_arith)
            requires
                d == a.den * b.num,
                a.den >= 1,
                b.num <= -1,
        ;
        lemma_normalize_value(-n, -d);
        assert(r.num * (-d) == (-n) * r.den);
        assert(r.num * d == n * r.den) by (nonlinear_arith)
            requires
                r.num * (-d) == (-n) * r.den,
        ;
    }
}

/// Two naturals that divide each other are equal.
pub proof fn lemma_divides_antisymmetric(x: nat, y: nat)
    requires
        divides(x, y),
        divides(y, x),
    ensures
        x == y,
{
    let k1 = choose|k: nat| y == #[trigger] (x * k);
    let k2 = choose|k: nat| x == #[trigger] (y * k);
    if x == 0 {
        assert(y == 0) by (nonlinear_arith)
            requires
                y == x * k1,
                x == 0,
        ;
    } else {
        assert(k1 == 1) by (nonlinear_arith)
            requires
                y == x * k1,
                x == y * k2,
                x > 0,
        ;
        assert(x * 1 == x);
    }
}

/// The greatest common divisor does not depend on the order of its
/// arguments.
pub proof fn lemma_gcd_symmetric(a: nat, b: nat)
    ensures
        gcd(a, b) == gcd(b, a),
{
    lemma_gcd_divides(a, b);
    lemma_gcd_divides(b, a);
    lemma_gcd_greatest(b, a, gcd(a, b));
    lemma_gcd_greatest(a, b, gcd(b, a));
    lemma_divides_antisymmetric(gcd(a, b), gcd(b, a));
}

/// Multiplying both arguments by `k` multiplies the greatest common divisor
/// by `k`.
pub proof fn lemma_gcd_scales(k: nat, a: nat, b: nat)
    requires
        k > 0,
    ensures
        gcd(k * a, k * b) == k * gcd(a, b),
    decreases b,
{
    if b == 0 {
        assert(k * b == 0) by (nonlinear_arith)
            requires
                b == 0,
        ;
    } else {
        lemma_truncate_middle(a as int, k as int, b as int);
        assert(k * b > 0);
        assert((k * a) % (k * b) == k * (a % b));
        lemma_gcd_scales(k, b, a % b);
    }
}

/// A number that divides a product and has no common divisor with one
/// factor divides the other factor.
pub proof fn lemma_coprime_divides(a: nat, b: nat, c: nat)
    requires
        gcd(a, b) == 1,
        divides(a, b * c),
    ensures
        divides(a, c),
{
    if c == 0 {
        assert(c == a * 0);
    } else {
        lemma_gcd_scales(c, a, b);
        assert(c * 1 == c);
        lemma_mul_is_commutative(c as int, a as int);
        lemma_mul_is_commutative(c as int, b as int);
        assert(a * c == a * c);
        assert(divides(a, a * c));
        lemma_gcd_greatest(a * c, b * c, a);
    }
}

impl Ratio {
    /// The ratio is in lowest terms.
    pub open spec fn is_reduced(self) -> bool {
        gcd(magnitude(self.num as int), magnitude(self.den as int)) == 1
    }
}

/// A reduced fraction is in lowest terms.
pub proof fn lemma_reduced_is_lowest(n: int, d: int)
    requires
        d > 0,
    ensures
        gcd(magnitude(reduced(n, d).0), magnitude(reduced(n, d).1)) == 1,
{
    let m = magnitude(n);
    let g = gcd(m, d as nat);
    lemma_gcd_positive(m, d as nat);
    lemma_gcd_divides(m, d as nat);
    let km = choose|k: nat| m == #[trigger] (g * k);
    let kd = choose|k: nat| d as nat == #[trigger] (g * k);
    let gi = g as int;
    lemma_div_multiples_vanish(kd as int, gi);
    assert(gi * kd == kd * gi) by (nonlinear_arith);
    assert(d / gi == kd);
    let kn: int = if n < 0 { -(km as int) } else { km as int };
    assert(n == gi * kn) by (nonlinear_arith)
        requires
            m == g * km,
            gi == g,
            kn == (if n < 0 { -(km as int) } else { km as int }),
            m == (if n < 0 { -n } else { n }),
    ;
    lemma_div_multiples_vanish(kn, gi);
    assert(gi * kn == kn * gi) by (nonlinear_arith);
    assert(n / gi == kn);
    assert(magnitude(kn) == km);
    assert(magnitude(kd as int) == kd);
    lemma_gcd_scales(g, km, kd);
    assert(gcd(km, kd) == 1) by (nonlinear_arith)
        requires
            g == g * gcd(km, kd),
            g > 0,
    ;
}

/// What `normalize` gives is in lowest terms.
pub proof fn lemma_normalize_reduced(n: int, d: int)
    requires
        d > 0,
        normalize(n, d) is Some,
    ensures
        normalize(n, d)->0.is_reduced(),
{
    lemma_reduced_is_lowest(n, d);
}

/// Two ratios in lowest terms that are the same number are equal.
pub proof fn lemma_reduced_unique(a: Ratio, b: Ratio)
    requires
        a.wf(),
        b.wf(),
        a.is_reduced(),
        b.is_reduced(),
        a.same_value(b),
    ensures
        a == b,
{
    let an = a.num as int;
    let ad = a.den as int;
    let bn = b.num as int;
    let bd = b.den as int;
    let am = magnitude(an);
    let bm = magnitude(bn);
    assert(am * bd == bm * ad) by (nonlinear_arith)
        requires
            an * bd == bn * ad,
            ad >= 1,
            bd >= 1,
            am == (if an < 0 { -an } else { an }),
            bm == (if bn < 0 { -bn } else { bn }),
    ;
    let adn = ad as nat;
    let bdn = bd as nat;
    // the denominator of each divides that of the other
    lemma_gcd_symmetric(am, adn);
    lemma_gcd_symmetric(bm, bdn);
    assert(am * bdn == adn * bm) by (nonlinear_arith)
        requires
            am * bd == bm * ad,
            adn == ad,
            bdn == bd,
    ;
    assert(divides(adn, am * bdn));
    lemma_coprime_divides(adn, am, bdn);
    assert(bm * adn == bdn * am) by (nonlinear_arith)
        requires
            am * bd == bm * ad,
            adn == ad,
            bdn == bd,
    ;
    assert(divides(bdn, bm * adn));
    lemma_coprime_divides(bdn, bm, adn);
    lemma_divides_antisymmetric(adn, bdn);
    assert(an == bn) by (nonlinear_arith)
        requires
            an * bd == bn * ad,
            ad == bd,
            ad >= 1,
    ;
}

/// Two fractions `n1 / d1` and `n2 / d2` are the same number.
pub open spec fn same_fraction(n1: int, d1: int, n2: int, d2: int) -> bool {
    n1 * d2 == n2 * d1
}

/// Being the same number is transitive across a fraction with a positive
/// denominator.
pub proof fn lemma_same_fraction_transitive(
    an: int,
    ad: int,
    bn: int,
    bd: int,
    cn: int,
    cd: int,
)
    requires
        bd > 0,
        same_fraction(an, ad, bn, bd),
        same_fraction(bn, bd, cn, cd),
    ensures
        same_fraction(an, ad, cn, cd),
{
    let lhs = an * cd;
    let rhs = cn * ad;
    lemma_swap_last(an, cd, bd);
    lemma_swap_last(bn, ad, cd);
    lemma_swap_last(cn, bd, ad);
    assert(lhs * bd == (an * bd) * cd);
    assert((bn * ad) * cd == (bn * cd) * ad);
    assert((cn * bd) * ad == rhs * bd);
    lemma_cancel(lhs, rhs, bd);
}

/// Sums of fractions that are the same numbers are the same number.
pub proof fn lemma_same_fraction_add(
    x1n: int,
    x1d: int,
    x2n: int,
    x2d: int,
    y1n: int,
    y1d: int,
    y2n: int,
    y2d: int,
)
    requires
        same_fraction(x1n, x1d, x2n, x2d),
        same_fraction(y1n, y1d, y2n, y2d),
    ensures
        same_fraction(
            x1n * y1d + y1n * x1d,
            x1d * y1d,
            x2n * y2d + y2n * x2d,
            x2d * y2d,
        ),
{
    let p = x1n * x2d;
    let q = y1n * y2d;
    let u = y1d * y2d;
    let v = x1d * x2d;
    // left side: (x1n * y1d + y1n * x1d) * (x2d * y2d) == p * u + q * v
    lemma_mul_is_distributive_add_other_way(x2d * y2d, x1n * y1d, y1n * x1d);
    assert((x1n * y1d) * (x2d * y2d) == p * u) by {
        lemma_mul_is_associative(x1n * y1d, x2d, y2d);
        lemma_swap_last(x1n, y1d, x2d);
        lemma_mul_is_associative(x1n * x2d, y1d, y2d);
    }
    assert((y1n * x1d) * (x2d * y2d) == q * v) by {
        lemma_mul_is_commutative(x2d, y2d);
        lemma_mul_is_associative(y1n * x1d, y2d, x2d);
        lemma_swap_last(y1n, x1d, y2d);
        lemma_mul_is_associative(y1n * y2d, x1d, x2d);
    }
    // right side: (x2n * y2d + y2n * x2d) * (x1d * y1d) == (x2n * x1d) * u + (y2n * y1d) * v
    lemma_mul_is_distributive_add_other_way(x1d * y1d, x2n * y2d, y2n * x2d);
    assert((x2n * y2d) * (x1d * y1d) == (x2n * x1d) * u) by {
        lemma_mul_is_associative(x2n * y2d, x1d, y1d);
        lemma_swap_last(x2n, y2d, x1d);
        lemma_mul_is_associative(x2n * x1d, y2d, y1d);
        lemma_mul_is_commutative(y2d, y1d);
    }
    assert((y2n * x2d) * (x1d * y1d) == (y2n * y1d) * v) by {
        lemma_mul_is_commutative(x1d, y1d);
        lemma_mul_is_associative(y2n * x2d, y1d, x1d);
        lemma_swap_last(y2n, x2d, y1d);
        lemma_mul_is_associative(y2n * y1d, x2d, x1d);
        lemma_mul_is_commutative(x2d, x1d);
    }
}

/// Multiples of fractions that are the same number are the same number.
pub proof fn lemma_same_fraction_scale(k: int, n1: int, d1: int, n2: int, d2: int)
    requires
        same_fraction(n1, d1, n2, d2),
    ensures
        same_fraction(k * n1, d1, k * n2, d2),
{
    lemma_mul_is_associative(k, n1, d2);
    lemma_mul_is_associative(k, n2, d1);
}

/// A whole number over one is in lowest terms.
pub proof fn lemma_whole_is_reduced(n: int)
    ensures
        gcd(magnitude(n), 1) == 1,
{
    reveal_with_fuel(gcd, 3);
    lemma_mod_division_less_than_divisor(magnitude(n) as int, 1);
}

} // verus!
