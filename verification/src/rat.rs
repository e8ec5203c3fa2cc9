//! Exact rational numbers over `i64`, kept in canonical (fully reduced) form.
//!
//! The sandbox's camera and pointer math are specified over exact rationals:
//! a value `num / den` with `den >= 1` and `gcd(|num|, den) == 1`. Keeping
//! every value canonical makes structural equality coincide with equality of
//! the represented rational numbers, so contracts can pin results down to the
//! exact struct value. Operations reduce through a verified Euclidean gcd and
//! report `None` when the reduced result does not fit in `i64`.

use vstd::arithmetic::div_mod::{lemma_fundamental_div_mod, lemma_fundamental_div_mod_converse};
use vstd::prelude::*;

verus! {

/// Greatest common divisor by Euclid's algorithm; `gcd_nat(a, 0) == a`.
pub open spec fn gcd_nat(a: nat, b: nat) -> nat
    decreases b,
{
    if b == 0 {
        a
    } else {
        gcd_nat(b, a % b)
    }
}

/// `d` divides `n` over the integers.
pub open spec fn divides(d: int, n: int) -> bool {
    exists|k: int| n == #[trigger] (d * k)
}

/// Absolute value of an integer, as a natural number.
pub open spec fn abs_int(n: int) -> nat {
    if n >= 0 {
        n as nat
    } else {
        (-n) as nat
    }
}

/// The gcd of two naturals divides both of them.
pub proof fn lemma_gcd_divides(a: nat, b: nat)
    ensures
        divides(gcd_nat(a, b) as int, a as int),
        divides(gcd_nat(a, b) as int, b as int),
    decreases b,
{
    if b == 0 {
        assert(a as int == gcd_nat(a, b) as int * 1);
        assert(b as int == gcd_nat(a, b) as int * 0);
    } else {
        lemma_gcd_divides(b, a % b);
        let g = gcd_nat(b, a % b) as int;
        let k1 = choose|k: int| b as int == #[trigger] (g * k);
        let k2 = choose|k: int| (a % b) as int == #[trigger] (g * k);
        lemma_fundamental_div_mod(a as int, b as int);
        let q = a as int / b as int;
        assert(a as int == g * (q * k1 + k2)) by (nonlinear_arith)
            requires
                a as int == b as int * q + (a % b) as int,
                b as int == g * k1,
                (a % b) as int == g * k2,
        ;
    }
}

/// Any positive common divisor of `a` and `b` divides their gcd.
pub proof fn lemma_divides_gcd(d: int, a: nat, b: nat)
    requires
        d >= 1,
        divides(d, a as int),
        divides(d, b as int),
    ensures
        divides(d, gcd_nat(a, b) as int),
    decreases b,
{
    if b == 0 {
    } else {
        let k1 = choose|k: int| a as int == #[trigger] (d * k);
        let k2 = choose|k: int| b as int == #[trigger] (d * k);
        lemma_fundamental_div_mod(a as int, b as int);
        let q = a as int / b as int;
        assert((a % b) as int == d * (k1 - q * k2)) by (nonlinear_arith)
            requires
                a as int == b as int * q + (a % b) as int,
                a as int == d * k1,
                b as int == d * k2,
        ;
        lemma_divides_gcd(d, b, a % b);
    }
}

/// The gcd of two naturals is positive unless both are zero.
pub proof fn lemma_gcd_pos(a: nat, b: nat)
    requires
        a >= 1 || b >= 1,
    ensures
        gcd_nat(a, b) >= 1,
    decreases b,
{
    if b != 0 {
        lemma_gcd_pos(b, a % b);
    }
}

/// Exact division: if `n == g * k` with `g >= 1` then `n / g == k`.
pub proof fn lemma_exact_div(n: int, g: int, k: int)
    requires
        g >= 1,
        n == g * k,
    ensures
        n / g == k,
{
    assert(n == k * g + 0) by (nonlinear_arith)
        requires n == g * k,
    ;
    lemma_fundamental_div_mod_converse(n, g, k, 0);
}

/// The reducing divisor used to canonicalize the fraction `n / d`.
pub open spec fn canon_g(n: int, d: int) -> nat {
    gcd_nat(abs_int(n), abs_int(d))
}

/// Numerator of the canonical form of `n / d` (for `d >= 1`).
pub open spec fn canon_num(n: int, d: int) -> int {
    n / canon_g(n, d) as int
}

/// Denominator of the canonical form of `n / d` (for `d >= 1`).
pub open spec fn canon_den(n: int, d: int) -> int {
    d / canon_g(n, d) as int
}

/// An exact rational number; the invariant [`Rat::wf`] keeps it canonical.
#[derive(Clone, Copy, Debug, PartialEq, Eq, Structural)]
pub struct Rat {
    /// Numerator; carries the sign.
    pub num: i64,
    /// Denominator; always positive in well-formed values.
    pub den: i64,
}

impl Rat {
    /// A well-formed rational: positive denominator, fully reduced, and with
    /// a numerator whose negation still fits (so `i64::MIN` is excluded).
    pub open spec fn wf(self) -> bool {
        &&& self.den >= 1
        &&& self.num > i64::MIN
        &&& gcd_nat(abs_int(self.num as int), self.den as nat) == 1
    }
}

/// Everything the canonicalization of `n / d` (with `d >= 1`) guarantees:
/// the reduced pair represents the same rational, is coprime, no larger in
/// magnitude, and keeps the numerator's sign.
pub proof fn lemma_canon(n: int, d: int)
    requires
        d >= 1,
    ensures
        canon_g(n, d) >= 1,
        divides(canon_g(n, d) as int, n),
        divides(canon_g(n, d) as int, d),
        1 <= canon_den(n, d) <= d,
        abs_int(canon_num(n, d)) == abs_int(n) / canon_g(n, d),
        abs_int(canon_num(n, d)) <= abs_int(n),
        canon_num(n, d) * d == n * canon_den(n, d),
        gcd_nat(abs_int(canon_num(n, d)), canon_den(n, d) as nat) == 1,
        n == 0 ==> canon_num(n, d) == 0 && canon_den(n, d) == 1,
        n > 0 ==> canon_num(n, d) >= 1,
        n < 0 ==> canon_num(n, d) <= -1,
{
    let a = abs_int(n);
    let g = canon_g(n, d) as int;
    lemma_gcd_pos(a, d as nat);
    lemma_gcd_divides(a, d as nat);
    let ka = choose|k: int| a as int == #[trigger] (g * k);
    let kd = choose|k: int| d == #[trigger] (g * k);
    assert(ka >= 0) by (nonlinear_arith)
        requires g >= 1, a as int == g * ka, a as int >= 0,
    ;
    assert(kd >= 1) by (nonlinear_arith)
        requires g >= 1, d == g * kd, d >= 1,
    ;
    lemma_exact_div(a as int, g, ka);
    lemma_exact_div(d, g, kd);
    assert(canon_den(n, d) == kd);
    assert(kd <= d) by (nonlinear_arith)
        requires g >= 1, d == g * kd, kd >= 1,
    ;
    // The signed numerator divides out exactly as its magnitude does.
    let cn = canon_num(n, d);
    if n >= 0 {
        assert(n == g * ka);
        lemma_exact_div(n, g, ka);
        assert(cn == ka);
        assert(divides(g, n));
    } else {
        assert(n == g * (-ka)) by (nonlinear_arith)
            requires a as int == g * ka, n == -(a as int),
        ;
        lemma_exact_div(n, g, -ka);
        assert(cn == -ka);
        assert(divides(g, n));
    }
    assert(abs_int(cn) == ka);
    assert(ka <= a as int) by (nonlinear_arith)
        requires g >= 1, a as int == g * ka, ka >= 0,
    ;
    // Same rational value: cn * d == n * kd, both equal to +-(ka * g * kd).
    if n >= 0 {
        assert(cn * d == n * kd) by (nonlinear_arith)
            requires cn == ka, n == g * ka, d == g * kd,
        ;
    } else {
        assert(cn * d == n * kd) by (nonlinear_arith)
            requires cn == -ka, n == -(g * ka), d == g * kd,
        ;
    }
    // Coprimality: a further common divisor of the reduced pair would make
    // a larger common divisor of the original pair.
    let g2 = gcd_nat(abs_int(cn), kd as nat) as int;
    lemma_gcd_pos(kd as nat, 0);
    lemma_gcd_pos(abs_int(cn), kd as nat);
    lemma_gcd_divides(abs_int(cn), kd as nat);
    let m1 = choose|k: int| abs_int(cn) as int == #[trigger] (g2 * k);
    let m2 = choose|k: int| kd == #[trigger] (g2 * k);
    assert(a as int == (g * g2) * m1) by (nonlinear_arith)
        requires a as int == g * ka, ka == abs_int(cn) as int, abs_int(cn) as int == g2 * m1,
    ;
    assert(d == (g * g2) * m2) by (nonlinear_arith)
        requires d == g * kd, kd == g2 * m2,
    ;
    assert(g * g2 >= 1) by (nonlinear_arith)
        requires g >= 1, g2 >= 1,
    ;
    lemma_divides_gcd(g * g2, a, d as nat);
    let m3 = choose|k: int| g == #[trigger] ((g * g2) * k);
    assert(g2 == 1) by (nonlinear_arith)
        requires g >= 1, g2 >= 1, g == (g * g2) * m3,
    ;
    // Sign of the reduced numerator follows the sign of n.
    if n > 0 {
        assert(cn >= 1) by (nonlinear_arith)
            requires g >= 1, n == g * cn, n >= 1,
        ;
    }
    if n < 0 {
        assert(cn <= -1) by (nonlinear_arith)
            requires g >= 1, n == g * cn, n <= -1,
        ;
    }
    if n == 0 {
        reveal_with_fuel(gcd_nat, 3);
        assert(g == d);
        lemma_exact_div(0, d, 0);
        lemma_exact_div(d, d, 1);
    }
}

/// Does the canonical form of `n / d` fit the `i64` representation?
pub open spec fn rat_fits(n: int, d: int) -> bool {
    &&& -(i64::MAX as int) <= canon_num(n, d) <= i64::MAX as int
    &&& canon_den(n, d) <= i64::MAX as int
}

/// The canonical `Rat` for `n / d` (meaningful for `d >= 1` when it fits).
pub open spec fn rat_canon(n: int, d: int) -> Rat {
    Rat { num: canon_num(n, d) as i64, den: canon_den(n, d) as i64 }
}

/// Canonicalize `n / d` if the reduced form is representable.
pub open spec fn rat_make(n: int, d: int) -> Option<Rat> {
    if rat_fits(n, d) {
        Some(rat_canon(n, d))
    } else {
        None
    }
}

/// Bound on a product of two values drawn from `[-m, m]` and `[0, m]`.
proof fn lemma_prod_bound(a: int, b: int, m: int)
    requires
        -m <= a <= m,
        0 <= b <= m,
        0 <= m,
    ensures
        -(m * m) <= a * b <= m * m,
{
    assert(-(m * m) <= a * b <= m * m) by (nonlinear_arith)
        requires -m <= a <= m, 0 <= b <= m, 0 <= m,
    ;
}

/// A well-formed result of `rat_make` is canonical and represents `n / d`.
pub proof fn lemma_rat_make(n: int, d: int)
    requires
        d >= 1,
    ensures
        rat_make(n, d) matches Some(c) ==> {
            &&& c.wf()
            &&& c.num * d == n * c.den
            &&& n == 0 ==> c.num == 0 && c.den == 1
            &&& n > 0 ==> c.num >= 1
            &&& n < 0 ==> c.num <= -1
        },
{
    lemma_canon(n, d);
}

/// Euclid's algorithm on machine words.
fn gcd_u128(a0: u128, b0: u128) -> (g: u128)
    ensures
        g == gcd_nat(a0 as nat, b0 as nat),
{
    let mut a = a0;
    let mut b = b0;
    while b != 0
        invariant
            gcd_nat(a as nat, b as nat) == gcd_nat(a0 as nat, b0 as nat),
        decreases b,
    {
        let r = a % b;
        a = b;
        b = r;
    }
    a
}

/// Reduce `n / d` to canonical form, if the result is representable.
fn rat_make_exec(n: i128, d: i128) -> (r: Option<Rat>)
    requires
        1 <= d <= i64::MAX as int * i64::MAX as int,
        -(i64::MAX as int * i64::MAX as int) * 2 <= n <= i64::MAX as int * i64::MAX as int * 2,
    ensures
        r == rat_make(n as int, d as int),
        r matches Some(c) ==> c.wf() && c.num * d == n * c.den,
{
    proof {
        lemma_canon(n as int, d as int);
    }
    let an: u128 = if n >= 0 {
        n as u128
    } else {
        (-n) as u128
    };
    let g: u128 = gcd_u128(an, d as u128);
    let qn: u128 = an / g;
    let qd: u128 = (d as u128) / g;
    proof {
        assert(qn == abs_int(canon_num(n as int, d as int)));
        assert(qd == canon_den(n as int, d as int));
    }
    if qn <= i64::MAX as u128 && qd <= i64::MAX as u128 {
        let num: i64 = if n >= 0 {
            qn as i64
        } else {
            -(qn as i64)
        };
        let den: i64 = qd as i64;
        proof {
            assert(num as int == canon_num(n as int, d as int));
            lemma_rat_make(n as int, d as int);
        }
        Some(Rat { num, den })
    } else {
        None
    }
}

/// Sum of `a` and `b` as an unreduced fraction, and its canonical form.
pub open spec fn rat_add_spec(a: Rat, b: Rat) -> Option<Rat> {
    rat_make(a.num * b.den + b.num * a.den, a.den * b.den)
}

/// Difference `a - b` in canonical form.
pub open spec fn rat_sub_spec(a: Rat, b: Rat) -> Option<Rat> {
    rat_make(a.num * b.den - b.num * a.den, a.den * b.den)
}

/// Product `a * b` in canonical form.
pub open spec fn rat_mul_spec(a: Rat, b: Rat) -> Option<Rat> {
    rat_make(a.num * b.num, a.den * b.den)
}

/// Quotient `a / b` in canonical form; meaningful only for `b.num != 0`.
pub open spec fn rat_div_spec(a: Rat, b: Rat) -> Option<Rat> {
    if b.num > 0 {
        rat_make(a.num * b.den, a.den * b.num)
    } else {
        rat_make(-(a.num * b.den), -(a.den * b.num))
    }
}

/// Canonical form of `num / den`, for any nonzero `den`.
pub open spec fn rat_new_spec(num: int, den: int) -> Rat {
    if den >= 1 {
        rat_canon(num, den)
    } else {
        rat_canon(-num, -den)
    }
}

impl Rat {
    /// The canonical rational equal to `num / den`; never fails, since the
    /// reduced parts are no larger than the inputs.
    pub fn new(num: i64, den: i64) -> (r: Rat)
        requires
            den != 0,
            num > i64::MIN,
            den > i64::MIN,
        ensures
            r == rat_new_spec(num as int, den as int),
            r.wf(),
    {
        let (n, d): (i128, i128) = if den >= 1 {
            (num as i128, den as i128)
        } else {
            (-(num as i128), -(den as i128))
        };
        proof {
            lemma_canon(n as int, d as int);
        }
        let r = rat_make_exec(n, d);
        match r {
            Some(c) => c,
            None => unreached(),
        }
    }

    /// The rational zero, `0 / 1`.
    pub fn zero() -> (r: Rat)
        ensures
            r == (Rat { num: 0, den: 1 }),
            r.wf(),
    {
        proof {
            lemma_gcd_one_den(0);
        }
        Rat { num: 0, den: 1 }
    }

    /// The integer `i` as a rational `i / 1`.
    pub fn from_int(i: i64) -> (r: Rat)
        requires
            i > i64::MIN,
        ensures
            r == (Rat { num: i, den: 1 }),
            r.wf(),
    {
        proof {
            lemma_gcd_one_den(i as int);
        }
        Rat { num: i, den: 1 }
    }

    /// Exact negation; canonical form is preserved.
    pub fn neg(self) -> (r: Rat)
        requires
            self.wf(),
        ensures
            r.num == -self.num && r.den == self.den,
            r.wf(),
    {
        proof {
            assert(abs_int(-self.num as int) == abs_int(self.num as int));
        }
        Rat { num: -self.num, den: self.den }
    }

    /// Exact sum, reduced; `None` when the reduced result exceeds `i64`.
    pub fn checked_add(self, rhs: Rat) -> (r: Option<Rat>)
        requires
            self.wf(),
            rhs.wf(),
        ensures
            r == rat_add_spec(self, rhs),
            r matches Some(c) ==> c.wf(),
    {
        proof {
            lemma_rat_op_bounds(self, rhs);
        }
        let n: i128 = (self.num as i128) * (rhs.den as i128) + (rhs.num as i128) * (self.den
            as i128);
        let d: i128 = (self.den as i128) * (rhs.den as i128);
        rat_make_exec(n, d)
    }

    /// Exact difference, reduced; `None` when the result exceeds `i64`.
    pub fn checked_sub(self, rhs: Rat) -> (r: Option<Rat>)
        requires
            self.wf(),
            rhs.wf(),
        ensures
            r == rat_sub_spec(self, rhs),
            r matches Some(c) ==> c.wf(),
    {
        proof {
            lemma_rat_op_bounds(self, rhs);
        }
        let n: i128 = (self.num as i128) * (rhs.den as i128) - (rhs.num as i128) * (self.den
            as i128);
        let d: i128 = (self.den as i128) * (rhs.den as i128);
        rat_make_exec(n, d)
    }

    /// Exact product, reduced; `None` when the result exceeds `i64`.
    pub fn checked_mul(self, rhs: Rat) -> (r: Option<Rat>)
        requires
            self.wf(),
            rhs.wf(),
        ensures
            r == rat_mul_spec(self, rhs),
            r matches Some(c) ==> c.wf(),
    {
        proof {
            lemma_rat_op_bounds(self, rhs);
        }
        let n: i128 = (self.num as i128) * (rhs.num as i128);
        let d: i128 = (self.den as i128) * (rhs.den as i128);
        rat_make_exec(n, d)
    }

    /// Exact quotient, reduced; `None` when the result exceeds `i64`.
    pub fn checked_div(self, rhs: Rat) -> (r: Option<Rat>)
        requires
            self.wf(),
            rhs.wf(),
            rhs.num != 0,
        ensures
            r == rat_div_spec(self, rhs),
            r matches Some(c) ==> c.wf(),
    {
        proof {
            lemma_rat_op_bounds(self, rhs);
        }
        let n0: i128 = (self.num as i128) * (rhs.den as i128);
        let d0: i128 = (self.den as i128) * (rhs.num as i128);
        if rhs.num > 0 {
            proof {
                assert(d0 >= 1) by (nonlinear_arith)
                    requires
                        d0 == (self.den as int) * (rhs.num as int),
                        self.den >= 1,
                        rhs.num >= 1,
                ;
            }
            rat_make_exec(n0, d0)
        } else {
            proof {
                assert(-d0 >= 1) by (nonlinear_arith)
                    requires
                        d0 == (self.den as int) * (rhs.num as int),
                        self.den >= 1,
                        rhs.num <= -1,
                ;
            }
            rat_make_exec(-n0, -d0)
        }
    }

    /// Reciprocal of a positive rational; swapping the coprime parts stays
    /// canonical.
    pub fn recip(self) -> (r: Rat)
        requires
            self.wf(),
            self.num >= 1,
        ensures
            r.num == self.den,
            r.den == self.num,
            r.wf(),
    {
        proof {
            lemma_gcd_comm(abs_int(self.num as int), self.den as nat);
        }
        Rat { num: self.den, den: self.num }
    }

    /// Nearest integer to this rational, ties rounded away from zero.
    pub fn round(self) -> (r: i64)
        requires
            self.wf(),
        ensures
            r == rat_round_spec(self),
            -(i64::MAX as int) <= r <= i64::MAX as int,
    {
        let an: u128 = if self.num >= 0 {
            self.num as u128
        } else {
            (-(self.num as i128)) as u128
        };
        let q: u128 = (2 * an + self.den as u128) / (2 * (self.den as u128));
        proof {
            lemma_round_bound(an as int, self.den as int);
        }
        if self.num >= 0 {
            q as i64
        } else {
            -(q as i64)
        }
    }
}

/// `gcd(|i|, 1) == 1`, so any integer over denominator 1 is canonical.
pub proof fn lemma_gcd_one_den(i: int)
    ensures
        gcd_nat(abs_int(i), 1) == 1,
{
    reveal_with_fuel(gcd_nat, 3);
    assert(abs_int(i) % 1 == 0);
}

/// Products of well-formed numerators and denominators fit the bounds that
/// [`rat_make_exec`] asks for.
proof fn lemma_rat_op_bounds(a: Rat, b: Rat)
    requires
        a.wf(),
        b.wf(),
    ensures
        1 <= a.den as int * b.den as int <= i64::MAX as int * i64::MAX as int,
        -(i64::MAX as int * i64::MAX as int) <= a.num as int * b.den as int <= i64::MAX as int
            * i64::MAX as int,
        -(i64::MAX as int * i64::MAX as int) <= b.num as int * a.den as int <= i64::MAX as int
            * i64::MAX as int,
        -(i64::MAX as int * i64::MAX as int) <= a.num as int * b.num as int <= i64::MAX as int
            * i64::MAX as int,
        -(i64::MAX as int * i64::MAX as int) <= a.den as int * b.num as int <= i64::MAX as int
            * i64::MAX as int,
{
    let m = i64::MAX as int;
    lemma_prod_bound(a.num as int, b.den as int, m);
    lemma_prod_bound(b.num as int, a.den as int, m);
    assert(1 <= a.den as int * b.den as int <= m * m) by (nonlinear_arith)
        requires 1 <= a.den as int <= m, 1 <= b.den as int <= m,
    ;
    assert(-(m * m) <= a.num as int * b.num as int <= m * m) by (nonlinear_arith)
        requires -m <= a.num as int <= m, -m <= b.num as int <= m,
    ;
    assert(-(m * m) <= a.den as int * b.num as int <= m * m) by (nonlinear_arith)
        requires 1 <= a.den as int <= m, -m <= b.num as int <= m,
    ;
}

/// The rational zero, as a spec value.
pub open spec fn rat_zero() -> Rat {
    Rat { num: 0, den: 1 }
}

/// The rational one, as a spec value.
pub open spec fn rat_one() -> Rat {
    Rat { num: 1, den: 1 }
}

/// The gcd is symmetric in its arguments.
pub proof fn lemma_gcd_comm(a: nat, b: nat)
    ensures
        gcd_nat(a, b) == gcd_nat(b, a),
{
    if a == 0 && b == 0 {
        reveal_with_fuel(gcd_nat, 2);
    } else {
        let g1 = gcd_nat(a, b);
        let g2 = gcd_nat(b, a);
        lemma_gcd_pos(a, b);
        lemma_gcd_pos(b, a);
        lemma_gcd_divides(a, b);
        lemma_gcd_divides(b, a);
        lemma_divides_gcd(g1 as int, b, a);
        lemma_divides_gcd(g2 as int, a, b);
        let k1 = choose|k: int| g2 as int == #[trigger] ((g1 as int) * k);
        let k2 = choose|k: int| g1 as int == #[trigger] ((g2 as int) * k);
        assert(g1 == g2) by (nonlinear_arith)
            requires
                g1 >= 1,
                g2 >= 1,
                g2 as int == (g1 as int) * k1,
                g1 as int == (g2 as int) * k2,
        ;
    }
}

/// A well-formed rational is already canonical: re-making it from its own
/// parts returns it unchanged.
pub proof fn lemma_rat_make_canonical(c: Rat)
    requires
        c.wf(),
    ensures
        rat_make(c.num as int, c.den as int) == Some(c),
{
    let n = c.num as int;
    let d = c.den as int;
    assert(canon_g(n, d) == 1);
    lemma_exact_div(n, 1, n);
    lemma_exact_div(d, 1, d);
}

/// Zero over any positive denominator canonicalizes to `0 / 1`.
pub proof fn lemma_rat_make_zero(d: int)
    requires
        d >= 1,
    ensures
        rat_make(0, d) == Some(Rat { num: 0, den: 1 }),
{
    reveal_with_fuel(gcd_nat, 3);
    assert((0 as nat) % (d as nat) == 0);
    assert(canon_g(0, d) == d);
    lemma_exact_div(0, d, 0);
    lemma_exact_div(d, d, 1);
}

/// Value of [`Rat::round`]: nearest integer, ties away from zero.
pub open spec fn rat_round_spec(r: Rat) -> int {
    if r.num >= 0 {
        (2 * r.num + r.den) / (2 * r.den)
    } else {
        -((2 * (-r.num) + r.den) / (2 * r.den))
    }
}

/// The rounding quotient `(2a + d) / (2d)` lies between `0` and `a`.
proof fn lemma_round_bound(a: int, d: int)
    requires
        a >= 0,
        d >= 1,
    ensures
        0 <= (2 * a + d) / (2 * d) <= a,
{
    let q = (2 * a + d) / (2 * d);
    let r = (2 * a + d) % (2 * d);
    lemma_fundamental_div_mod(2 * a + d, 2 * d);
    assert(0 <= r < 2 * d);
    assert(0 <= q <= a) by (nonlinear_arith)
        requires
            2 * a + d == (2 * d) * q + r,
            0 <= r < 2 * d,
            a >= 0,
            d >= 1,
    ;
}

} // verus!
