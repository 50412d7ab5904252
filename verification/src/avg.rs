//! Exact rational arithmetic for the computed-field stage: the arithmetic
//! mean of a sequence of rationals, and rounding to the nearest half.
//!
//! Sums are kept reduced (by the greatest common divisor) at every step;
//! a value whose reduced form does not fit the `Rational` representation
//! is reported as an overflow, never silently truncated.

use vstd::prelude::*;
use vstd::arithmetic::div_mod::{
    lemma_fundamental_div_mod, lemma_mod_multiples_basic, lemma_mod_self_0, lemma_small_mod,
};
use crate::document::{rden, Rational};

verus! {

/// The greatest common divisor, by Euclid's recursion.
pub open spec fn gcd(a: nat, b: nat) -> nat
    decreases b,
{
    if b == 0 {
        a
    } else {
        gcd(b, a % b)
    }
}

/// The greatest common divisor of two numbers, not both zero, is at least
/// one and divides both.
pub proof fn lemma_gcd_divides(a: nat, b: nat)
    requires
        a + b > 0,
    ensures
        gcd(a, b) >= 1,
        a as int % (gcd(a, b) as int) == 0,
        b as int % (gcd(a, b) as int) == 0,
    decreases b,
{
    if b == 0 {
        lemma_mod_self_0(a as int);
        lemma_small_mod(0, a);
    } else {
        let r = a % b;
        lemma_gcd_divides(b, r);
        let g = gcd(b, r) as int;
        lemma_fundamental_div_mod(a as int, b as int);
        lemma_fundamental_div_mod(b as int, g);
        lemma_fundamental_div_mod(r as int, g);
        let k = (a as int / b as int) * (b as int / g) + (r as int / g);
        assert(a as int == k * g) by (nonlinear_arith)
            requires
                a as int == b as int * (a as int / b as int) + r as int,
                b as int == g * (b as int / g),
                r as int == g * (r as int / g),
                k == (a as int / b as int) * (b as int / g) + (r as int / g),
        ;
        lemma_mod_multiples_basic(k, g);
    }
}

/// The magnitude of an integer.
pub open spec fn iabs(n: int) -> nat {
    if n >= 0 {
        n as nat
    } else {
        (-n) as nat
    }
}

/// `n / d` in lowest terms, when numerator and denominator of the reduced
/// fraction fit the `Rational` representation; `None` otherwise.
pub open spec fn reduce_spec(n: int, d: int) -> Option<Rational>
    recommends
        1 <= d,
{
    let g = gcd(iabs(n), d as nat) as int;
    let n2 = n / g;
    let d2 = d / g;
    if -0x8000_0000_0000_0000 <= n2 <= 0x7fff_ffff_ffff_ffff && d2 <= 0xffff_ffff_ffff_ffffu64
        as int {
        Some(Rational { num: n2 as i64, den: d2 as u64 })
    } else {
        None
    }
}

/// Reduction keeps the value: the reduced fraction equals `n / d`, and its
/// denominator is positive.
pub proof fn lemma_reduce_value(n: int, d: int)
    requires
        1 <= d,
        reduce_spec(n, d) is Some,
    ensures
        (reduce_spec(n, d)->Some_0.num as int) * d == n * rden(reduce_spec(n, d)->Some_0),
        rden(reduce_spec(n, d)->Some_0) == d / (gcd(iabs(n), d as nat) as int),
{
    let g = gcd(iabs(n), d as nat) as int;
    lemma_gcd_divides(iabs(n), d as nat);
    lemma_fundamental_div_mod(d as int, g);
    lemma_fundamental_div_mod(iabs(n) as int, g);
    let r = reduce_spec(n, d)->Some_0;
    assert(iabs(n) as int % g == 0);
    if n >= 0 {
        lemma_fundamental_div_mod(n, g);
        assert(n % g == 0);
    } else {
        assert(iabs(n) as int == -n);
        assert((-n) == g * ((-n) / g));
        assert(n == g * (-((-n) / g))) by (nonlinear_arith)
            requires
                (-n) == g * ((-n) / g),
        ;
        lemma_mod_multiples_basic(-((-n) / g), g);
        lemma_fundamental_div_mod(n, g);
    }
    // d / g >= 1 because g divides d and d >= 1
    assert(d == g * (d / g));
    assert(d / g >= 1) by (nonlinear_arith)
        requires
            d == g * (d / g),
            d >= 1,
            g >= 1,
    ;
    assert(r.den as int == d / g);
    assert(r.den >= 1);
    assert(rden(r) == d / g);
    assert(n == g * (n / g));
    assert((n / g) * d == n * (d / g)) by (nonlinear_arith)
        requires
            n == g * (n / g),
            d == g * (d / g),
    ;
}

/// The sum of two rationals, reduced; `None` when the exact numerator
/// leaves `(-2^127, 2^127)` or the reduced form does not fit.
pub open spec fn add_step(acc: Rational, x: Rational) -> Option<Rational> {
    let p = (acc.num as int) * rden(x) + (x.num as int) * rden(acc);
    let d = rden(acc) * rden(x);
    if -0x8000_0000_0000_0000_0000_0000_0000_0000 < p
        < 0x8000_0000_0000_0000_0000_0000_0000_0000 {
        reduce_spec(p, d)
    } else {
        None
    }
}

/// `acc` plus the sum of `s`, reduced at every step.
pub open spec fn sum_from(acc: Rational, s: Seq<Rational>) -> Option<Rational>
    decreases s.len(),
{
    if s.len() == 0 {
        Some(acc)
    } else {
        match add_step(acc, s[0]) {
            Option::None => None,
            Option::Some(a) => sum_from(a, s.drop_first()),
        }
    }
}

/// The arithmetic mean of `s`: `Some(None)` for an empty sequence (the
/// explicit no-value marker), `Some(Some(m))` for the exact reduced mean,
/// and `None` when a step of the computation leaves the representation.
pub open spec fn mean_spec(s: Seq<Rational>) -> Option<Option<Rational>> {
    if s.len() == 0 {
        Some(None)
    } else {
        match sum_from(Rational { num: 0, den: 1 }, s) {
            Option::None => None,
            Option::Some(t) => match reduce_spec(t.num as int, rden(t) * s.len()) {
                Option::None => None,
                Option::Some(m) => Some(Some(m)),
            },
        }
    }
}

/// The sum of the numerators of `s`.
pub open spec fn int_sum(s: Seq<Rational>) -> int
    decreases s.len(),
{
    if s.len() == 0 {
        0
    } else {
        s[0].num + int_sum(s.drop_first())
    }
}

/// A product of an `i64`-sized factor and a `u64`-sized positive factor
/// stays strictly inside `(-2^127, 2^127)`.
proof fn lemma_prod_in_i128(x: int, y: int)
    requires
        -0x8000_0000_0000_0000 <= x <= 0x7fff_ffff_ffff_ffff,
        1 <= y <= 0xffff_ffff_ffff_ffff,
    ensures
        -0x8000_0000_0000_0000_0000_0000_0000_0000 < x * y
            < 0x8000_0000_0000_0000_0000_0000_0000_0000,
{
    assert(-0x8000_0000_0000_0000_0000_0000_0000_0000 < x * y
        < 0x8000_0000_0000_0000_0000_0000_0000_0000) by (nonlinear_arith)
        requires
            -0x8000_0000_0000_0000 <= x <= 0x7fff_ffff_ffff_ffff,
            1 <= y <= 0xffff_ffff_ffff_ffff,
    ;
}

/// A product of two positive `u64`-sized factors fits `u128`.
proof fn lemma_den_prod_in_u128(x: int, y: int)
    requires
        1 <= x <= 0xffff_ffff_ffff_ffff,
        1 <= y <= 0xffff_ffff_ffff_ffff,
    ensures
        1 <= x * y < 0x1_0000_0000_0000_0000_0000_0000_0000_0000,
{
    assert(1 <= x * y < 0x1_0000_0000_0000_0000_0000_0000_0000_0000) by (nonlinear_arith)
        requires
            1 <= x <= 0xffff_ffff_ffff_ffff,
            1 <= y <= 0xffff_ffff_ffff_ffff,
    ;
}

/// The denominator a rational is read with, as a `u64`.
pub fn rden_exec(r: &Rational) -> (d: u64)
    ensures
        d as int == rden(*r),
        1 <= d,
{
    if r.den == 0 {
        1
    } else {
        r.den
    }
}

/// Euclid's algorithm.
fn gcd_exec(a0: u128, b0: u128) -> (g: u128)
    ensures
        g as nat == gcd(a0 as nat, b0 as nat),
{
    let mut a = a0;
    let mut b = b0;
    while b != 0
        invariant
            gcd(a as nat, b as nat) == gcd(a0 as nat, b0 as nat),
        decreases b,
    {
        let t = a % b;
        a = b;
        b = t;
    }
    a
}

/// Reduces `n / d` to lowest terms, as `reduce_spec` describes.
fn reduce(n: i128, d: u128) -> (r: Option<Rational>)
    requires
        1 <= d < 0x1_0000_0000_0000_0000_0000_0000_0000_0000,
        -0x8000_0000_0000_0000_0000_0000_0000_0000 < n,
    ensures
        r == reduce_spec(n as int, d as int),
{
    let m: u128 = if n >= 0 {
        n as u128
    } else {
        (-n) as u128
    };
    proof {
        assert(m as nat == iabs(n as int));
        lemma_gcd_divides(m as nat, d as nat);
    }
    let g = gcd_exec(m, d);
    let ghost gi = g as int;
    let m2 = m / g;
    let d2 = d / g;
    proof {
        // exactness of both divisions
        lemma_fundamental_div_mod(m as int, gi);
        lemma_fundamental_div_mod(d as int, gi);
        if n < 0 {
            // (-(m / g)) is the Euclidean quotient of n by g
            assert(m as int == gi * (m as int / gi));
            assert(n as int == gi * (-(m as int / gi))) by (nonlinear_arith)
                requires
                    m as int == gi * (m as int / gi),
                    n as int == -(m as int),
            ;
            vstd::arithmetic::div_mod::lemma_div_multiples_vanish(-(m as int / gi), gi);
        }
        assert(m2 as int == m as int / gi);
        assert(d2 as int == d as int / gi);
    }
    if n >= 0 {
        if m2 <= 0x7fff_ffff_ffff_ffff && d2 <= 0xffff_ffff_ffff_ffff {
            Some(Rational { num: m2 as i64, den: d2 as u64 })
        } else {
            None
        }
    } else {
        if m2 <= 0x8000_0000_0000_0000 && d2 <= 0xffff_ffff_ffff_ffff {
            let n2: i128 = -(m2 as i128);
            Some(Rational { num: n2 as i64, den: d2 as u64 })
        } else {
            None
        }
    }
}

/// One reduced addition, as `add_step` describes.
pub fn add_step_exec(acc: &Rational, x: &Rational) -> (r: Option<Rational>)
    ensures
        r == add_step(*acc, *x),
{
    let ad = rden_exec(acc);
    let xd = rden_exec(x);
    proof {
        lemma_prod_in_i128(acc.num as int, xd as int);
        lemma_prod_in_i128(x.num as int, ad as int);
        lemma_den_prod_in_u128(ad as int, xd as int);
    }
    let p1: i128 = (acc.num as i128) * (xd as i128);
    let p2: i128 = (x.num as i128) * (ad as i128);
    let d: u128 = (ad as u128) * (xd as u128);
    match p1.checked_add(p2) {
        Option::None => None,
        Option::Some(p) => {
            if p == i128::MIN {
                None
            } else {
                reduce(p, d)
            }
        },
    }
}

/// The arithmetic mean of the entries, as `mean_spec` describes:
/// `Some(None)` when there are no entries, `None` on overflow.
pub fn mean(entries: &Vec<Rational>) -> (r: Option<Option<Rational>>)
    ensures
        r == mean_spec(entries@),
{
    let n = entries.len();
    if n == 0 {
        return Some(None);
    }
    let mut acc = Rational { num: 0, den: 1 };
    let mut i: usize = 0;
    proof {
        assert(entries@.skip(0) =~= entries@);
    }
    while i < n
        invariant
            n == entries@.len(),
            i <= n,
            sum_from(Rational { num: 0, den: 1 }, entries@) == sum_from(acc, entries@.skip(i as int)),
        decreases n - i,
    {
        proof {
            assert(entries@.skip(i as int).len() > 0);
            assert(entries@.skip(i as int)[0] == entries@[i as int]);
            assert(entries@.skip(i as int).drop_first() =~= entries@.skip(i as int + 1));
        }
        match add_step_exec(&acc, &entries[i]) {
            Option::None => {
                return None;
            },
            Option::Some(a) => {
                acc = a;
            },
        }
        i += 1;
    }
    proof {
        assert(entries@.skip(n as int) =~= Seq::<Rational>::empty());
        lemma_den_prod_in_u128(rden(acc), n as int);
    }
    let ad = rden_exec(&acc);
    let d: u128 = (ad as u128) * (n as u128);
    match reduce(acc.num as i128, d) {
        Option::None => None,
        Option::Some(m) => Some(Some(m)),
    }
}

/// Summing integer-valued rationals keeps an integer value: the exact sum
/// of the numerators, whenever no step overflows.
pub proof fn lemma_sum_of_integers(acc: Rational, s: Seq<Rational>)
    requires
        rden(acc) == 1,
        forall|i: int| 0 <= i < s.len() ==> rden(#[trigger] s[i]) == 1,
    ensures
        sum_from(acc, s) is Some ==> rden(sum_from(acc, s)->Some_0) == 1
            && sum_from(acc, s)->Some_0.num == acc.num + int_sum(s),
    decreases s.len(),
{
    if s.len() > 0 {
        assert(s[0] == s[0]);
        let p = (acc.num as int) * rden(s[0]) + (s[0].num as int) * rden(acc);
        assert(p == acc.num + s[0].num);
        match add_step(acc, s[0]) {
            Option::None => {},
            Option::Some(a) => {
                // the step reduces p / 1: gcd(|p|, 1) == 1
                if p != 0 {
                    lemma_gcd_divides(1, iabs(p) % 1);
                    lemma_small_mod(0, 1);
                }
                assert(gcd(iabs(p), 1) == gcd(1, iabs(p) % 1));
                assert(iabs(p) % 1 == 0) by {
                    lemma_mod_multiples_basic(iabs(p) as int, 1);
                };
                assert(gcd(iabs(p), 1) == 1);
                assert(a.num as int == p / 1 && a.den as int == 1int / 1);
                assert(a.num as int == p && a.den == 1);
                lemma_sum_of_integers(a, s.drop_first());
                assert(int_sum(s) == s[0].num + int_sum(s.drop_first()));
            },
        }
    }
}

/// The mean of integer-valued rationals equals their exact sum over their
/// count, and the mean of nothing is the no-value marker.
pub proof fn lemma_mean_of_integers(s: Seq<Rational>)
    requires
        forall|i: int| 0 <= i < s.len() ==> rden(#[trigger] s[i]) == 1,
    ensures
        s.len() == 0 ==> mean_spec(s) == Some(Option::<Rational>::None),
        (s.len() > 0 && mean_spec(s) matches Some(Some(m))) ==> (mean_spec(
            s,
        )->Some_0->Some_0.num as int) * (s.len() as int) == int_sum(s) * rden(
            mean_spec(s)->Some_0->Some_0,
        ),
{
    if s.len() > 0 {
        let z = Rational { num: 0, den: 1 };
        lemma_sum_of_integers(z, s);
        match sum_from(z, s) {
            Option::None => {},
            Option::Some(t) => {
                let d = rden(t) * s.len();
                assert(d == s.len());
                match reduce_spec(t.num as int, d) {
                    Option::None => {},
                    Option::Some(m) => {
                        lemma_reduce_value(t.num as int, d);
                    },
                }
            },
        }
    }
}

/// The exact sum `acc_n / acc_d + s[0] + s[1] + ...` as one fraction,
/// with no reduction and no bound on its size.
pub open spec fn exact_sum(acc_n: int, acc_d: int, s: Seq<Rational>) -> (int, int)
    decreases s.len(),
{
    if s.len() == 0 {
        (acc_n, acc_d)
    } else {
        exact_sum(acc_n * rden(s[0]) + s[0].num * acc_d, acc_d * rden(s[0]), s.drop_first())
    }
}

/// The exact sum's denominator stays positive.
proof fn lemma_exact_sum_den(acc_n: int, acc_d: int, s: Seq<Rational>)
    requires
        acc_d >= 1,
    ensures
        exact_sum(acc_n, acc_d, s).1 >= 1,
    decreases s.len(),
{
    if s.len() > 0 {
        assert(acc_d * rden(s[0]) >= 1) by (nonlinear_arith)
            requires
                acc_d >= 1,
                rden(s[0]) >= 1,
        ;
        lemma_exact_sum_den(
            acc_n * rden(s[0]) + s[0].num * acc_d,
            acc_d * rden(s[0]),
            s.drop_first(),
        );
    }
}

/// Value-equal starting fractions give value-equal exact sums.
proof fn lemma_exact_sum_equiv(an: int, ad: int, bn: int, bd: int, s: Seq<Rational>)
    requires
        ad >= 1,
        bd >= 1,
        an * bd == bn * ad,
    ensures
        exact_sum(an, ad, s).0 * exact_sum(bn, bd, s).1 == exact_sum(bn, bd, s).0 * exact_sum(
            an,
            ad,
            s,
        ).1,
    decreases s.len(),
{
    if s.len() > 0 {
        let e = rden(s[0]);
        let q = s[0].num as int;
        assert((an * e + q * ad) * (bd * e) == (bn * e + q * bd) * (ad * e) && ad * e >= 1 && bd
            * e >= 1) by (nonlinear_arith)
            requires
                an * bd == bn * ad,
                ad >= 1,
                bd >= 1,
                e >= 1,
        ;
        lemma_exact_sum_equiv(an * e + q * ad, ad * e, bn * e + q * bd, bd * e, s.drop_first());
    }
}

/// A reduced running sum carries the exact sum's value.
proof fn lemma_sum_from_exact(acc: Rational, s: Seq<Rational>)
    ensures
        sum_from(acc, s) matches Some(r) ==> (r.num as int) * exact_sum(
            acc.num as int,
            rden(acc),
            s,
        ).1 == exact_sum(acc.num as int, rden(acc), s).0 * rden(r),
    decreases s.len(),
{
    if s.len() > 0 {
        match add_step(acc, s[0]) {
            Option::None => {},
            Option::Some(a) => {
                let x = s[0];
                let p = (acc.num as int) * rden(x) + (x.num as int) * rden(acc);
                let d = rden(acc) * rden(x);
                assert(rden(acc) * rden(x) >= 1) by (nonlinear_arith)
                    requires
                        rden(acc) >= 1,
                        rden(x) >= 1,
                ;
                lemma_reduce_value(p, d);
                assert((a.num as int) * d == p * rden(a));
                lemma_sum_from_exact(a, s.drop_first());
                lemma_exact_sum_equiv(a.num as int, rden(a), p, d, s.drop_first());
                lemma_exact_sum_den(a.num as int, rden(a), s.drop_first());
                lemma_exact_sum_den(p, d, s.drop_first());
                match sum_from(a, s.drop_first()) {
                    Option::None => {},
                    Option::Some(r) => {
                        let ea = exact_sum(a.num as int, rden(a), s.drop_first());
                        let ep = exact_sum(p, d, s.drop_first());
                        assert((r.num as int) * ea.1 == ea.0 * rden(r));
                        assert((r.num as int) * ep.1 == ep.0 * rden(r)) by (nonlinear_arith)
                            requires
                                (r.num as int) * ea.1 == ea.0 * rden(r),
                                ea.0 * ep.1 == ep.0 * ea.1,
                                ea.1 >= 1,
                                ep.1 >= 1,
                                rden(r) >= 1,
                        ;
                    },
                }
            },
        }
    }
}

/// The mean is exact: whenever it is a value `m`, `m` equals the exact
/// rational sum of the entries divided by their count.
pub proof fn lemma_mean_exact(s: Seq<Rational>)
    ensures
        (s.len() > 0 && mean_spec(s) matches Some(Some(m))) ==> {
            let e = exact_sum(0, 1, s);
            (mean_spec(s)->Some_0->Some_0.num as int) * (e.1 * s.len()) == e.0 * rden(
                mean_spec(s)->Some_0->Some_0,
            )
        },
{
    if s.len() > 0 {
        let z = Rational { num: 0, den: 1 };
        lemma_sum_from_exact(z, s);
        lemma_exact_sum_den(0, 1, s);
        match sum_from(z, s) {
            Option::None => {},
            Option::Some(t) => {
                let e = exact_sum(0, 1, s);
                let d = rden(t) * s.len();
                assert(rden(t) * s.len() >= 1) by (nonlinear_arith)
                    requires
                        rden(t) >= 1,
                        s.len() >= 1,
                ;
                match reduce_spec(t.num as int, d) {
                    Option::None => {},
                    Option::Some(m) => {
                        lemma_reduce_value(t.num as int, d);
                        assert((m.num as int) * (e.1 * s.len()) == e.0 * rden(m))
                            by (nonlinear_arith)
                            requires
                                (m.num as int) * (rden(t) * s.len()) == (t.num as int) * rden(m),
                                (t.num as int) * e.1 == e.0 * rden(t),
                                rden(t) >= 1,
                                e.1 >= 1,
                                s.len() >= 1,
                                rden(m) >= 1,
                        ;
                    },
                }
            },
        }
    }
}

/// `v` rounded to the nearest half: twice the value is rounded to the
/// nearest integer (ties away from zero) and divided by two. `None` when
/// the rounded numerator leaves `i64`.
pub open spec fn round_half_spec(v: Rational) -> Option<Rational> {
    let k = if v.num >= 0 {
        (4 * (v.num as int) + rden(v)) / (2 * rden(v))
    } else {
        -((4 * -(v.num as int) + rden(v)) / (2 * rden(v)))
    };
    if -0x8000_0000_0000_0000 <= k <= 0x7fff_ffff_ffff_ffff {
        Some(Rational { num: k as i64, den: 2 })
    } else {
        None
    }
}

/// Rounds to the nearest half, as `round_half_spec` describes.
pub fn round_half(v: &Rational) -> (r: Option<Rational>)
    ensures
        r == round_half_spec(*v),
{
    let d = rden_exec(v) as u128;
    let m: u128 = if v.num >= 0 {
        v.num as u128
    } else {
        proof {
            assert(v.num as int >= -0x8000_0000_0000_0000);
        }
        (-(v.num as i128)) as u128
    };
    proof {
        assert(4 * (m as int) + d as int <= 4 * 0x8000_0000_0000_0000 + 0xffff_ffff_ffff_ffff);
    }
    let k0: u128 = (4 * m + d) / (2 * d);
    proof {
        vstd::arithmetic::div_mod::lemma_div_nonincreasing((4 * m + d) as int, (2 * d) as int);
        vstd::arithmetic::div_mod::lemma_div_pos_is_pos((4 * m + d) as int, (2 * d) as int);
    }
    if v.num >= 0 {
        if k0 <= 0x7fff_ffff_ffff_ffff {
            Some(Rational { num: k0 as i64, den: 2 })
        } else {
            None
        }
    } else {
        if k0 <= 0x8000_0000_0000_0000 {
            Some(Rational { num: (-(k0 as i128)) as i64, den: 2 })
        } else {
            None
        }
    }
}

} // verus!
