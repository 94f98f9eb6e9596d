//! Exact rational arithmetic.
//!
//! Every circuit quantity (resistance, source value, gain, matrix entry,
//! solved voltage) is an exact rational so that assembly and solving are
//! reproducible bit for bit: each operation returns the unique reduced
//! representative of its mathematical result, or reports that it does not
//! fit the machine range.

use vstd::prelude::*;
use vstd::arithmetic::div_mod::{
    lemma_add_mod_noop, lemma_div_multiples_vanish, lemma_fundamental_div_mod, lemma_mod_self_0,
    lemma_mul_mod_noop_left, lemma_small_mod,
};

verus! {

/// A rational number at the specification level: numerator `n` over
/// denominator `d`. A value is meaningful only when `d != 0`.
pub struct Q {
    pub n: int,
    pub d: int,
}

pub open spec fn q_zero() -> Q {
    Q { n: 0, d: 1 }
}

pub open spec fn q_one() -> Q {
    Q { n: 1, d: 1 }
}

/// Equality of the represented values, by cross multiplication.
pub open spec fn q_eq(a: Q, b: Q) -> bool {
    a.n * b.d == b.n * a.d
}

pub open spec fn q_add(a: Q, b: Q) -> Q {
    Q { n: a.n * b.d + b.n * a.d, d: a.d * b.d }
}

pub open spec fn q_neg(a: Q) -> Q {
    Q { n: -a.n, d: a.d }
}

pub open spec fn q_sub(a: Q, b: Q) -> Q {
    q_add(a, q_neg(b))
}

pub open spec fn q_mul(a: Q, b: Q) -> Q {
    Q { n: a.n * b.n, d: a.d * b.d }
}

/// Reciprocal, with the sign kept on the numerator.
pub open spec fn q_recip(a: Q) -> Q {
    if a.n < 0 {
        Q { n: -a.d, d: -a.n }
    } else {
        Q { n: a.d, d: a.n }
    }
}

pub open spec fn abs_int(x: int) -> nat {
    if x < 0 {
        (-x) as nat
    } else {
        x as nat
    }
}

/// Greatest common divisor by Euclid's recursion.
pub open spec fn gcd(a: nat, b: nat) -> nat
    decreases b,
{
    if b == 0 {
        a
    } else {
        gcd(b, a % b)
    }
}

/// The reduced representative of `a`: positive denominator, both parts
/// divided by their greatest common divisor. This is the canonical form
/// that every executable operation returns.
pub open spec fn q_norm(a: Q) -> Q
    recommends
        a.d != 0,
{
    let n1 = if a.d < 0 {
        -a.n
    } else {
        a.n
    };
    let d1 = if a.d < 0 {
        -a.d
    } else {
        a.d
    };
    let g = gcd(abs_int(n1), d1 as nat) as int;
    Q { n: n1 / g, d: d1 / g }
}

/// Whether a specification-level rational fits the executable representation.
pub open spec fn q_fits(a: Q) -> bool {
    &&& -(i64::MAX as int) <= a.n <= i64::MAX as int
    &&& 0 < a.d <= i64::MAX as int
}

/// The divisor returned by Euclid's recursion is positive and divides both
/// arguments whenever the second argument is positive.
pub proof fn lemma_gcd_divides(a: nat, b: nat)
    ensures
        b > 0 ==> gcd(a, b) > 0,
        b > 0 ==> (a as int) % (gcd(a, b) as int) == 0,
        b > 0 ==> (b as int) % (gcd(a, b) as int) == 0,
    decreases b,
{
    if b > 0 {
        let r = a % b;
        assert(gcd(a, b) == gcd(b, r));
        if r == 0 {
            assert(gcd(b, 0) == b);
            lemma_mod_self_0(b as int);
            lemma_fundamental_div_mod(a as int, b as int);
            assert((a as int) % (b as int) == 0);
        } else {
            lemma_gcd_divides(b, r);
            let g = gcd(b, r) as int;
            lemma_fundamental_div_mod(a as int, b as int);
            let quot = (a as int) / (b as int);
            assert(a as int == (b as int) * quot + (r as int));
            lemma_mul_mod_noop_left(b as int, quot, g);
            lemma_small_mod(0nat, g as nat);
            assert(((b as int) * quot) % g == 0);
            lemma_add_mod_noop((b as int) * quot, r as int, g);
            assert((a as int) % g == 0);
        }
    }
}

/// A value with zero remainder against a positive divisor, in absolute
/// value, is that divisor times its own quotient.
proof fn lemma_exact_div(x: int, g: int)
    requires
        g > 0,
        (abs_int(x) as int) % g == 0,
    ensures
        x == g * (x / g),
{
    if x >= 0 {
        lemma_fundamental_div_mod(x, g);
    } else {
        let ax = -x;
        lemma_fundamental_div_mod(ax, g);
        let k = ax / g;
        assert(ax == g * k);
        assert(x == g * (-k)) by {
            assert(g * (-k) == -(g * k)) by (nonlinear_arith);
        }
        lemma_div_multiples_vanish(-k, g);
        assert((g * (-k)) / g == -k);
    }
}

/// A positive value divided by a positive exact divisor stays positive.
proof fn lemma_exact_div_pos(x: int, g: int)
    requires
        g > 0,
        x > 0,
        x % g == 0,
    ensures
        x / g > 0,
        x == g * (x / g),
{
    lemma_fundamental_div_mod(x, g);
    let k = x / g;
    assert(x == g * k);
    if k <= 0 {
        assert(g * k <= 0) by (nonlinear_arith)
            requires
                g > 0,
                k <= 0,
        ;
        assert(false);
    }
}

/// Normalization keeps the value: the reduced form is equal, as a rational,
/// to its argument, and its denominator is positive.
pub proof fn lemma_q_norm_equiv(a: Q)
    requires
        a.d != 0,
    ensures
        q_norm(a).d > 0,
        q_eq(q_norm(a), a),
{
    let n1 = if a.d < 0 {
        -a.n
    } else {
        a.n
    };
    let d1 = if a.d < 0 {
        -a.d
    } else {
        a.d
    };
    lemma_gcd_divides(abs_int(n1), d1 as nat);
    let g = gcd(abs_int(n1), d1 as nat) as int;
    assert(abs_int(n1) == abs_int(a.n));
    lemma_exact_div(n1, g);
    lemma_exact_div_pos(d1, g);
    let p = n1 / g;
    let k = d1 / g;
    assert(n1 == g * p);
    assert(d1 == g * k);
    if a.d < 0 {
        assert(p * a.d == a.n * k) by (nonlinear_arith)
            requires
                -a.n == g * p,
                -a.d == g * k,
        ;
    } else {
        assert(p * a.d == a.n * k) by (nonlinear_arith)
            requires
                a.n == g * p,
                a.d == g * k,
                g > 0,
        ;
    }
}

/// Cross-multiplied equality is transitive through a meaningful middle value.
pub proof fn lemma_q_eq_trans(a: Q, b: Q, c: Q)
    requires
        q_eq(a, b),
        q_eq(b, c),
        b.d != 0,
    ensures
        q_eq(a, c),
{
    assert(a.n * c.d == c.n * a.d) by (nonlinear_arith)
        requires
            a.n * b.d == b.n * a.d,
            b.n * c.d == c.n * b.d,
            b.d != 0,
    ;
}

pub proof fn lemma_q_eq_sym(a: Q, b: Q)
    requires
        q_eq(a, b),
    ensures
        q_eq(b, a),
{
}

/// Addition respects value equality in its first argument.
#[verifier::rlimit(100)]
proof fn lemma_q_add_congr_one(a: Q, a2: Q, b: Q)
    requires
        q_eq(a, a2),
    ensures
        q_eq(q_add(a, b), q_add(a2, b)),
{
    assert((a.n * b.d + b.n * a.d) * (a2.d * b.d) == (a2.n * b.d + b.n * a2.d) * (a.d
        * b.d)) by (nonlinear_arith)
        requires
            a.n * a2.d == a2.n * a.d,
    ;
}

/// Addition of rationals is commutative on representatives.
pub proof fn lemma_q_add_comm(a: Q, b: Q)
    ensures
        q_add(a, b) == q_add(b, a),
{
    assert(a.n * b.d + b.n * a.d == b.n * a.d + a.n * b.d);
    assert(a.d * b.d == b.d * a.d) by (nonlinear_arith);
}

/// Addition respects value equality.
pub proof fn lemma_q_add_congr(a: Q, a2: Q, b: Q, b2: Q)
    requires
        q_eq(a, a2),
        q_eq(b, b2),
        a2.d != 0,
        b.d != 0,
    ensures
        q_eq(q_add(a, b), q_add(a2, b2)),
{
    lemma_q_add_congr_one(a, a2, b);
    lemma_q_add_comm(a2, b);
    lemma_q_add_congr_one(b, b2, a2);
    lemma_q_add_comm(b2, a2);
    assert(q_add(a2, b).d == a2.d * b.d);
    assert(a2.d * b.d != 0) by (nonlinear_arith)
        requires
            a2.d != 0,
            b.d != 0,
    ;
    lemma_q_eq_trans(q_add(a, b), q_add(a2, b), q_add(a2, b2));
}

/// Addition of rationals is associative on representatives.
#[verifier::rlimit(100)]
pub proof fn lemma_q_add_assoc(a: Q, b: Q, c: Q)
    ensures
        q_add(q_add(a, b), c) == q_add(a, q_add(b, c)),
{
    assert((a.n * b.d + b.n * a.d) * c.d + c.n * (a.d * b.d) == a.n * (b.d * c.d) + (b.n * c.d
        + c.n * b.d) * a.d) by (nonlinear_arith);
    assert((a.d * b.d) * c.d == a.d * (b.d * c.d)) by (nonlinear_arith);
}

/// Meaningful denominators stay meaningful under addition and multiplication.
pub proof fn lemma_q_den_pos(a: Q, b: Q)
    requires
        a.d > 0,
        b.d > 0,
    ensures
        q_add(a, b).d > 0,
        q_mul(a, b).d > 0,
{
    assert(a.d * b.d > 0) by (nonlinear_arith)
        requires
            a.d > 0,
            b.d > 0,
    ;
}

/// Bound on a product of bounded factors.
proof fn lemma_abs_prod_bound(x: int, y: int, m: int)
    by (nonlinear_arith)
    requires
        -m <= x <= m,
        -m <= y <= m,
        0 <= m,
    ensures
        -(m * m) <= x * y <= m * m,
{
}

/// Euclid's algorithm.
fn gcd_u128(a: u128, b: u128) -> (g: u128)
    ensures
        g as nat == gcd(a as nat, b as nat),
{
    let mut x = a;
    let mut y = b;
    while y != 0
        invariant
            gcd(x as nat, y as nat) == gcd(a as nat, b as nat),
        decreases y,
    {
        let t = x % y;
        x = y;
        y = t;
    }
    x
}

/// An exact rational in reduced form: the denominator is positive and the
/// two parts are coprime; the numerator stays within `-i64::MAX ..= i64::MAX`
/// so that negation never overflows.
#[derive(Clone, Copy, PartialEq, Eq, Structural, Debug)]
pub struct Rat {
    num: i64,
    den: i64,
}

impl View for Rat {
    type V = Q;

    closed spec fn view(&self) -> Q {
        Q { n: self.num as int, d: self.den as int }
    }
}

impl Rat {
    /// Type invariant: every executable rational fits the machine range,
    /// with a positive denominator.
    #[verifier::type_invariant]
    pub open spec fn well_formed(self) -> bool {
        q_fits(self@)
    }

    /// The rational `n / d`, reduced; `None` when `d` is zero or the reduced
    /// form does not fit the machine range.
    pub fn new(n: i64, d: i64) -> (r: Option<Rat>)
        ensures
            d == 0 ==> r is None,
            d != 0 ==> match r {
                Some(c) => c@ == q_norm(Q { n: n as int, d: d as int }),
                None => !q_fits(q_norm(Q { n: n as int, d: d as int })),
            },
    {
        if d == 0 {
            return None;
        }
        if d < 0 {
            Self::norm_i128(-(n as i128), -(d as i128))
        } else {
            Self::norm_i128(n as i128, d as i128)
        }
    }

    /// The whole number `n`.
    pub fn from_int(n: i64) -> (r: Rat)
        requires
            n > i64::MIN,
        ensures
            r@ == (Q { n: n as int, d: 1 }),
    {
        Rat { num: n, den: 1 }
    }

    pub fn zero() -> (r: Rat)
        ensures
            r@ == q_zero(),
    {
        Rat { num: 0, den: 1 }
    }

    pub fn one() -> (r: Rat)
        ensures
            r@ == q_one(),
    {
        Rat { num: 1, den: 1 }
    }

    pub fn num(&self) -> (r: i64)
        ensures
            r as int == self@.n,
    {
        self.num
    }

    pub fn den(&self) -> (r: i64)
        ensures
            r as int == self@.d,
    {
        self.den
    }

    pub fn is_zero(&self) -> (r: bool)
        ensures
            r == (self@.n == 0),
    {
        self.num == 0
    }

    /// Whether `self` and `other` represent the same value.
    pub fn eq_value(&self, other: &Rat) -> (r: bool)
        ensures
            r == q_eq(self@, other@),
    {
        proof {
            use_type_invariant(self);
            use_type_invariant(other);
            lemma_abs_prod_bound(self@.n, other@.d, i64::MAX as int);
            lemma_abs_prod_bound(other@.n, self@.d, i64::MAX as int);
        }
        (self.num as i128) * (other.den as i128) == (other.num as i128) * (self.den as i128)
    }

    pub fn neg(self) -> (r: Rat)
        ensures
            r@ == q_neg(self@),
    {
        proof {
            use_type_invariant(self);
        }
        Rat { num: -self.num, den: self.den }
    }

    /// The reduced sum, or `None` when it does not fit the machine range.
    pub fn add(self, other: Rat) -> (r: Option<Rat>)
        ensures
            match r {
                Some(c) => c@ == q_norm(q_add(self@, other@)),
                None => !q_fits(q_norm(q_add(self@, other@))),
            },
    {
        proof {
            use_type_invariant(self);
            use_type_invariant(other);
            lemma_abs_prod_bound(self@.n, other@.d, i64::MAX as int);
            lemma_abs_prod_bound(other@.n, self@.d, i64::MAX as int);
            lemma_abs_prod_bound(self@.d, other@.d, i64::MAX as int);
            lemma_q_den_pos(self@, other@);
        }
        let n = (self.num as i128) * (other.den as i128) + (other.num as i128) * (self.den
            as i128);
        let d = (self.den as i128) * (other.den as i128);
        Self::norm_i128(n, d)
    }

    /// The reduced difference, or `None` when it does not fit.
    pub fn sub(self, other: Rat) -> (r: Option<Rat>)
        ensures
            match r {
                Some(c) => c@ == q_norm(q_sub(self@, other@)),
                None => !q_fits(q_norm(q_sub(self@, other@))),
            },
    {
        self.add(other.neg())
    }

    /// The reduced product, or `None` when it does not fit.
    pub fn mul(self, other: Rat) -> (r: Option<Rat>)
        ensures
            match r {
                Some(c) => c@ == q_norm(q_mul(self@, other@)),
                None => !q_fits(q_norm(q_mul(self@, other@))),
            },
    {
        proof {
            use_type_invariant(self);
            use_type_invariant(other);
            lemma_abs_prod_bound(self@.n, other@.n, i64::MAX as int);
            lemma_abs_prod_bound(self@.d, other@.d, i64::MAX as int);
            lemma_q_den_pos(self@, other@);
        }
        let n = (self.num as i128) * (other.num as i128);
        let d = (self.den as i128) * (other.den as i128);
        Self::norm_i128(n, d)
    }

    /// The reciprocal of a nonzero value; always fits because the parts swap.
    pub fn recip(self) -> (r: Rat)
        requires
            self@.n != 0,
        ensures
            r@ == q_recip(self@),
    {
        proof {
            use_type_invariant(self);
        }
        if self.num < 0 {
            Rat { num: -self.den, den: -self.num }
        } else {
            Rat { num: self.den, den: self.num }
        }
    }

    /// The reduced quotient by a nonzero value, or `None` when it does not
    /// fit.
    pub fn div(self, other: Rat) -> (r: Option<Rat>)
        requires
            other@.n != 0,
        ensures
            match r {
                Some(c) => c@ == q_norm(q_mul(self@, q_recip(other@))),
                None => !q_fits(q_norm(q_mul(self@, q_recip(other@)))),
            },
    {
        self.mul(other.recip())
    }

    /// Reduce `n / d` with a positive denominator.
    fn norm_i128(n: i128, d: i128) -> (r: Option<Rat>)
        requires
            d > 0,
            n > i128::MIN,
        ensures
            match r {
                Some(c) => c@ == q_norm(Q { n: n as int, d: d as int }),
                None => !q_fits(q_norm(Q { n: n as int, d: d as int })),
            },
    {
        let ghost q = Q { n: n as int, d: d as int };
        let neg = n < 0;
        let n_abs: u128 = if neg {
            (-n) as u128
        } else {
            n as u128
        };
        let d_u: u128 = d as u128;
        proof {
            assert(n_abs as nat == abs_int(q.n));
        }
        let g = gcd_u128(n_abs, d_u);
        proof {
            lemma_gcd_divides(n_abs as nat, d_u as nat);
            lemma_exact_div(q.n, g as int);
            lemma_exact_div_pos(q.d, g as int);
        }
        let rn = n_abs / g;
        let rd = d_u / g;
        proof {
            assert(rd as int == q.d / (g as int));
            assert(rd >= 1);
            if neg {
                assert(q.n == -(n_abs as int));
                assert((g as int) * (q.n / (g as int)) == q.n);
                assert(q.n / (g as int) == -(rn as int)) by {
                    let k = (n_abs as int) / (g as int);
                    lemma_fundamental_div_mod(n_abs as int, g as int);
                    assert(n_abs as int == (g as int) * k);
                    assert(q.n == (g as int) * (-k)) by (nonlinear_arith)
                        requires
                            q.n == -(n_abs as int),
                            n_abs as int == (g as int) * k,
                    ;
                    lemma_div_multiples_vanish(-k, g as int);
                }
            } else {
                assert(q.n / (g as int) == rn as int);
            }
            assert(q_norm(q) == (Q { n: q.n / (g as int), d: q.d / (g as int) }));
        }
        if rn <= (i64::MAX as u128) && rd <= (i64::MAX as u128) {
            let den = rd as i64;
            let num = if neg {
                -(rn as i64)
            } else {
                rn as i64
            };
            Some(Rat { num, den })
        } else {
            None
        }
    }
}

/// Two reduced rationals with the same specification view are the same value.
pub proof fn lemma_rat_view_injective(a: Rat, b: Rat)
    requires
        a@ == b@,
    ensures
        a == b,
{
}

} // verus!
