//! Credit for one answer, as an exact fraction, and its decay past a time
//! limit.

use vstd::prelude::*;

verus! {

/// A fraction of two integers: the mathematical value of a [`Score`].
pub struct Ratio {
    pub num: int,
    pub den: int,
}

impl Ratio {
    /// No credit.
    pub open spec fn zero() -> Ratio {
        Ratio { num: 0, den: 1 }
    }

    /// Full credit.
    pub open spec fn one() -> Ratio {
        Ratio { num: 1, den: 1 }
    }

    /// A fraction between 0 and 1 with a usable denominator.
    pub open spec fn in_unit_range(self) -> bool {
        0 < self.den && 0 <= self.num <= self.den
    }

    /// Both fractions denote the same number.
    pub open spec fn same_value(self, other: Ratio) -> bool {
        self.num * other.den == other.num * self.den
    }

    /// Half of this fraction.
    pub open spec fn halved(self) -> Ratio {
        Ratio { num: self.num, den: 2 * self.den }
    }
}

/// The credit earned by one answer: `num / den`, between 0 and 1.
#[derive(Clone, Copy, Debug, PartialEq, Eq, Structural)]
pub struct Score {
    pub num: u128,
    pub den: u128,
}

impl View for Score {
    type V = Ratio;

    open spec fn view(&self) -> Ratio {
        Ratio { num: self.num as int, den: self.den as int }
    }
}

impl Score {
    /// The denominator is positive and the value lies in `[0, 1]`.
    pub open spec fn wf(&self) -> bool {
        self@.in_unit_range()
    }

    /// No credit.
    pub fn zero() -> (s: Score)
        ensures
            s@ == Ratio::zero(),
            s.wf(),
    {
        Score { num: 0, den: 1 }
    }

    /// Full credit.
    pub fn full() -> (s: Score)
        ensures
            s@ == Ratio::one(),
            s.wf(),
    {
        Score { num: 1, den: 1 }
    }

    /// Full credit if `earned`, none otherwise.
    pub fn all_or_nothing(earned: bool) -> (s: Score)
        ensures
            s@ == (if earned {
                Ratio::one()
            } else {
                Ratio::zero()
            }),
            s.wf(),
    {
        if earned {
            Score::full()
        } else {
            Score::zero()
        }
    }

    /// The credit for `part` items out of `whole`.
    pub fn fraction(part: usize, whole: usize) -> (s: Score)
        requires
            0 < whole,
            part <= whole,
        ensures
            s@ == (Ratio { num: part as int, den: whole as int }),
            s.wf(),
    {
        Score { num: part as u128, den: whole as u128 }
    }

    /// Whether the whole credit was earned.
    pub fn is_full(&self) -> (b: bool)
        ensures
            b == (self.num == self.den),
    {
        self.num == self.den
    }

    /// Whether no credit was earned.
    pub fn is_zero(&self) -> (b: bool)
        ensures
            b == (self.num == 0),
    {
        self.num == 0
    }
}

/// A share of a hundred: `num / den`, between 0 and 100.
#[derive(Clone, Copy, Debug, PartialEq, Eq, Structural)]
pub struct Percentage {
    pub num: u128,
    pub den: u128,
}

impl View for Percentage {
    type V = Ratio;

    open spec fn view(&self) -> Ratio {
        Ratio { num: self.num as int, den: self.den as int }
    }
}

impl Percentage {
    /// The denominator is positive and the value lies in `[0, 100]`.
    pub open spec fn wf(&self) -> bool {
        0 < self.den && self.num <= 100 * self.den
    }
}

/// The credit left of `base` and whether the limit was passed, for an answer
/// that took `elapsed_ms` milliseconds under a limit of `timeout` seconds.
///
/// Within the limit the credit is untouched. Between one and two times the
/// limit it falls linearly from `base` to nothing; from twice the limit on
/// nothing is left.
pub open spec fn decay(base: Ratio, timeout: Option<u64>, elapsed_ms: int) -> (Ratio, bool) {
    match timeout {
        None => (base, false),
        Some(secs) => {
            let t = secs as int * 1000;
            if elapsed_ms <= t {
                (base, false)
            } else if elapsed_ms < 2 * t {
                (Ratio { num: base.num * (2 * t - elapsed_ms), den: base.den * t }, true)
            } else {
                (Ratio::zero(), true)
            }
        },
    }
}

/// Whether the denominator of `base`, scaled by the time limit in
/// milliseconds, still fits in `u128`.
pub open spec fn decay_fits(base: Score, timeout: Option<u64>) -> bool {
    timeout matches Some(secs) ==> base.den * (secs * 1000) <= u128::MAX
}

/// Applies [`decay`] to `base_score`.
///
/// `elapsed_ms` is the time the answer took, in milliseconds.
pub fn calculate_score(base_score: Score, timeout: Option<u64>, elapsed_ms: u128) -> (r: (
    Score,
    bool,
))
    requires
        base_score.wf(),
        decay_fits(base_score, timeout),
    ensures
        r.0@ == decay(base_score@, timeout, elapsed_ms as int).0,
        r.1 == decay(base_score@, timeout, elapsed_ms as int).1,
        r.0.wf(),
{
    match timeout {
        None => (base_score, false),
        Some(secs) => {
            let t: u128 = (secs as u128) * 1000;
            if elapsed_ms <= t {
                (base_score, false)
            } else if elapsed_ms < 2 * t {
                let left: u128 = 2 * t - elapsed_ms;
                assert(base_score.num * left <= base_score.den * t) by (nonlinear_arith)
                    requires
                        base_score.num <= base_score.den,
                        left <= t,
                ;
                assert(0 < base_score.den * t) by (nonlinear_arith)
                    requires
                        0 < base_score.den,
                        0 < t,
                ;
                (Score { num: base_score.num * left, den: base_score.den * t }, true)
            } else {
                (Score::zero(), true)
            }
        },
    }
}

/// Without a time limit the credit is never reduced.
pub proof fn law_decay_untimed(base: Ratio, elapsed_ms: int)
    ensures
        decay(base, None, elapsed_ms) == (base, false),
{
}

/// An answer given at once, or exactly at the limit, keeps its whole credit.
pub proof fn law_decay_within_limit(base: Ratio, secs: u64)
    ensures
        decay(base, Some(secs), 0) == (base, false),
        decay(base, Some(secs), secs * 1000) == (base, false),
{
}

/// At twice a positive limit nothing is left, and the limit counts as passed.
pub proof fn law_decay_at_double(base: Ratio, secs: u64)
    requires
        secs > 0,
    ensures
        decay(base, Some(secs), 2 * (secs * 1000)) == (Ratio::zero(), true),
{
}

/// At one and a half times a positive limit half of the credit is left.
pub proof fn law_decay_halfway(base: Ratio, secs: u64)
    requires
        secs > 0,
    ensures
        decay(base, Some(secs), secs * 1500).1,
        decay(base, Some(secs), secs * 1500).0.same_value(base.halved()),
{
    let t = secs as int * 1000;
    let e = secs as int * 1500;
    let r = decay(base, Some(secs), e).0;
    assert(r.num == base.num * (secs * 500));
    assert(r.den == base.den * t);
    assert((base.num * (secs * 500)) * (2 * base.den) == base.num * (base.den * (secs * 1000)))
        by (nonlinear_arith);
}

/// Decayed credit is still a fraction between 0 and 1, and never more than
/// the credit it started from.
pub proof fn law_decay_bounded(base: Ratio, timeout: Option<u64>, elapsed_ms: int)
    requires
        base.in_unit_range(),
        0 <= elapsed_ms,
    ensures
        decay(base, timeout, elapsed_ms).0.in_unit_range(),
        decay(base, timeout, elapsed_ms).0.num * base.den <= base.num * decay(
            base,
            timeout,
            elapsed_ms,
        ).0.den,
{
    if let Some(secs) = timeout {
        let t = secs as int * 1000;
        if t < elapsed_ms < 2 * t {
            let left = 2 * t - elapsed_ms;
            assert(base.num * left <= base.den * t) by (nonlinear_arith)
                requires
                    0 <= base.num <= base.den,
                    0 <= left <= t,
            ;
            assert(0 < base.den * t && 0 <= base.num * left) by (nonlinear_arith)
                requires
                    0 < base.den,
                    0 <= base.num,
                    0 < t,
                    0 <= left,
            ;
            assert((base.num * left) * base.den <= base.num * (base.den * t)) by (nonlinear_arith)
                requires
                    0 <= base.num,
                    0 < base.den,
                    0 <= left <= t,
            ;
        }
    }
}

/// The greatest common divisor of `a` and `b`, as Euclid finds it.
pub open spec fn gcd(a: nat, b: nat) -> nat
    decreases b,
{
    if b == 0 {
        a
    } else {
        gcd(b, a % b)
    }
}

/// The greatest common divisor of two numbers that are not both zero is
/// positive and divides both.
pub proof fn lemma_gcd_divides(a: nat, b: nat)
    requires
        a > 0 || b > 0,
    ensures
        gcd(a, b) > 0,
        a % gcd(a, b) == 0,
        b % gcd(a, b) == 0,
    decreases b,
{
    if b != 0 {
        let r = a % b;
        lemma_gcd_divides(b, r);
        let g = gcd(a, b);
        assert(g == gcd(b, r));
        vstd::arithmetic::div_mod::lemma_fundamental_div_mod(a as int, b as int);
        let q = a as int / b as int;
        let bq = b as int / g as int;
        let rq = r as int / g as int;
        vstd::arithmetic::div_mod::lemma_fundamental_div_mod(b as int, g as int);
        vstd::arithmetic::div_mod::lemma_fundamental_div_mod(r as int, g as int);
        assert(a == g * (bq * q + rq)) by (nonlinear_arith)
            requires
                a == b * q + r,
                b == g * bq,
                r == g * rq,
        ;
        vstd::arithmetic::div_mod::lemma_mod_multiples_basic(bq * q + rq, g as int);
        assert((g * (bq * q + rq)) == (bq * q + rq) * g) by (nonlinear_arith);
    }
}

/// The greatest common divisor of `a` and `b`.
pub fn greatest_common_divisor(a: u128, b: u128) -> (g: u128)
    ensures
        g == gcd(a as nat, b as nat),
{
    let mut x: u128 = a;
    let mut y: u128 = b;
    while y != 0
        invariant
            gcd(x as nat, y as nat) == gcd(a as nat, b as nat),
        decreases y,
    {
        let r: u128 = x % y;
        x = y;
        y = r;
    }
    x
}

impl Ratio {
    /// The sum of two fractions, over the least denominator that the
    /// greatest common divisor of theirs gives.
    pub open spec fn plus(self, other: Ratio) -> Ratio {
        let g = gcd(self.den as nat, other.den as nat) as int;
        Ratio {
            num: self.num * (other.den / g) + other.num * (self.den / g),
            den: self.den * (other.den / g),
        }
    }
}

/// The sum of two fractions with positive denominators is their sum as
/// numbers, and its denominator is a multiple of both.
pub proof fn lemma_plus(a: Ratio, b: Ratio)
    requires
        a.den > 0,
        b.den > 0,
    ensures
        a.plus(b).same_value(Ratio { num: a.num * b.den + b.num * a.den, den: a.den * b.den }),
        a.plus(b).den >= a.den,
        a.plus(b).den > 0,
        a.plus(b).den == b.den * (a.den / (gcd(a.den as nat, b.den as nat) as int)),
        a.den / (gcd(a.den as nat, b.den as nat) as int) >= 1,
        b.den / (gcd(a.den as nat, b.den as nat) as int) >= 1,
{
    lemma_gcd_divides(a.den as nat, b.den as nat);
    let g = gcd(a.den as nat, b.den as nat) as int;
    let left = b.den / g;
    let right = a.den / g;
    vstd::arithmetic::div_mod::lemma_fundamental_div_mod(a.den, g);
    vstd::arithmetic::div_mod::lemma_fundamental_div_mod(b.den, g);
    assert(left >= 1 && right >= 1) by (nonlinear_arith)
        requires
            b.den == g * left,
            a.den == g * right,
            a.den > 0,
            b.den > 0,
            g > 0,
    ;
    assert(a.den * left == b.den * right) by (nonlinear_arith)
        requires
            b.den == g * left,
            a.den == g * right,
    ;
    assert(a.den * left >= a.den) by (nonlinear_arith)
        requires
            left >= 1,
            a.den > 0,
    ;
    let x = a.num * left + b.num * right;
    let d = a.den * left;
    assert(a.den * b.den == g * d) by (nonlinear_arith)
        requires
            b.den == g * left,
            d == a.den * left,
    ;
    assert(a.num * b.den + b.num * a.den == g * x) by (nonlinear_arith)
        requires
            b.den == g * left,
            a.den == g * right,
            x == a.num * left + b.num * right,
    ;
    assert(x * (g * d) == (g * x) * d) by (nonlinear_arith);
}

/// In a product of two products the inner factors may change places.
pub proof fn lemma_mul_exchange(p: int, q: int, r: int, s: int)
    ensures
        (p * q) * (r * s) == (p * r) * (q * s),
{
    vstd::arithmetic::mul::lemma_mul_is_associative(p, q, r * s);
    vstd::arithmetic::mul::lemma_mul_is_associative(q, r, s);
    vstd::arithmetic::mul::lemma_mul_is_commutative(q, r);
    vstd::arithmetic::mul::lemma_mul_is_associative(r, q, s);
    vstd::arithmetic::mul::lemma_mul_is_associative(p, r, q * s);
}

/// Adding `x` to each of two fractions that are equal as numbers leaves
/// them equal: the cross products of the two sums agree.
pub proof fn lemma_sums_agree(t: Ratio, s: Ratio, x: Ratio)
    requires
        t.same_value(s),
    ensures
        (Ratio { num: t.num * x.den + x.num * t.den, den: t.den * x.den }).same_value(
            Ratio { num: s.num * x.den + x.num * s.den, den: s.den * x.den },
        ),
{
    let e = x.den;
    // left cross product
    vstd::arithmetic::mul::lemma_mul_is_distributive_add_other_way(
        s.den * e,
        t.num * e,
        x.num * t.den,
    );
    lemma_mul_exchange(t.num, e, s.den, e);
    lemma_mul_exchange(x.num, t.den, s.den, e);
    // right cross product
    vstd::arithmetic::mul::lemma_mul_is_distributive_add_other_way(
        t.den * e,
        s.num * e,
        x.num * s.den,
    );
    lemma_mul_exchange(s.num, e, t.den, e);
    lemma_mul_exchange(x.num, s.den, t.den, e);
    vstd::arithmetic::mul::lemma_mul_is_commutative(t.den, s.den);
}

} // verus!
