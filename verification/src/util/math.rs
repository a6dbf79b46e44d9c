//! Fractions: reducing one and bounding its terms.
use vstd::arithmetic::div_mod::{lemma_fundamental_div_mod, lemma_mod_pos_bound};
use vstd::arithmetic::mul::lemma_mul_upper_bound;
use vstd::prelude::*;

verus! {

/// The greatest common divisor of two numbers, by Euclid's algorithm; that of
/// zero and zero is zero.
pub open spec fn gcd_of(x: nat, y: nat) -> nat
    decreases x,
{
    if x == 0 {
        y
    } else {
        gcd_of(y % x, x)
    }
}

/// The greatest common divisor of two numbers that are not both zero is not
/// zero, and is at most the larger of them.
pub proof fn lemma_gcd_bounds(x: nat, y: nat)
    requires
        x != 0 || y != 0,
    ensures
        1 <= gcd_of(x, y),
        gcd_of(x, y) <= if x >= y {
            x
        } else {
            y
        },
    decreases x,
{
    if x != 0 {
        lemma_mod_pos_bound(y as int, x as int);
        lemma_gcd_bounds(y % x, x);
    }
}

/// Computes the greatest common divisor.
pub fn gcd(x: u32, y: u32) -> (g: u32)
    ensures
        g == gcd_of(x as nat, y as nat),
{
    let mut a = x;
    let mut b = y;
    while a != 0
        invariant
            gcd_of(a as nat, b as nat) == gcd_of(x as nat, y as nat),
        decreases a,
    {
        proof {
            lemma_mod_pos_bound(b as int, a as int);
        }
        let r = b % a;
        b = a;
        a = r;
    }
    b
}

/// Where the continued fraction of `n / d` has come to: two fractions in
/// a row that approach it, `p_before / q_before` and behind it `p_last / q_last`.
pub struct Approach {
    pub p_before: int,
    pub q_before: int,
    pub p_last: int,
    pub q_last: int,
}

/// Follows the continued fraction of a quotient for as long as the
/// denominators stay within `max`. Each step divides, takes the next
/// fraction from the last two, and goes on with divisor and remainder.
pub open spec fn approach(at: Approach, n: int, d: int, max: int) -> Approach
    decreases d,
{
    if d <= 0 || n < 0 {
        at
    } else {
        let a = n / d;
        let q_next = at.q_before + a * at.q_last;
        if q_next > max {
            at
        } else {
            approach(
                Approach { p_before: at.p_last, q_before: at.q_last, p_last: at.p_before + a * at.p_last, q_last: q_next },
                d,
                n % d,
                max,
            )
        }
    }
}

/// The distance of a number from zero.
pub open spec fn magnitude(v: int) -> int {
    if v < 0 {
        -v
    } else {
        v
    }
}

/// Whether `p / q` lies nearer to `a / b` than `r / s` does. All
/// denominators are positive.
pub open spec fn nearer(p: int, q: int, r: int, s: int, a: int, b: int) -> bool {
    magnitude(p * b - a * q) * s < magnitude(r * b - a * s) * q
}

/// The fraction with a denominator of at most `max` that stands for `a / b`,
/// a proper fraction in lowest terms whose denominator is larger than `max`:
/// the last fraction that the continued fraction reaches within the bound,
/// or the fraction between it and the one before whose denominator comes as
/// near to the bound as it can, whichever of the two lies nearer to `a / b`.
pub open spec fn bounded(a: int, b: int, max: int) -> (int, int) {
    let at = approach(Approach { p_before: 1, q_before: 0, p_last: 0, q_last: 1 }, b, a, max);
    let k = (max - at.q_before) / at.q_last;
    let between = (at.p_before + k * at.p_last, at.q_before + k * at.q_last);
    if nearer(between.0, between.1, at.p_last, at.q_last, a, b) {
        between
    } else {
        (at.p_last, at.q_last)
    }
}

/// The ratio `x : y` in lowest terms, and with terms no larger than `max`
/// where the lowest terms are larger. A ratio whose smaller term comes down
/// to one has no such form.
pub open spec fn limited(x: int, y: int, max: int) -> Option<(int, int)> {
    let small = if x > y {
        y
    } else {
        x
    };
    let large = if x > y {
        x
    } else {
        y
    };
    let g = gcd_of(small as nat, large as nat) as int;
    let a = small / g;
    let b = large / g;
    if a == 1 {
        None
    } else {
        let (p, q) = if b > max {
            bounded(a, b, max)
        } else {
            (a, b)
        };
        Some(
            if x > y {
                (q, p)
            } else {
                (p, q)
            },
        )
    }
}

/// Why a ratio has no limited form.
#[derive(Clone, Copy, Debug, PartialEq, Eq, Structural)]
pub enum RatioError {
    /// The smaller term of the ratio is one in lowest terms.
    UnitTerm,
}

/// What holds of the two fractions while the continued fraction is
/// followed.
pub open spec fn approach_inv(at: Approach, n: int, d: int, max: int) -> bool {
    &&& 0 <= d <= n
    &&& 0 <= at.p_before <= at.q_before + 1
    &&& 0 <= at.p_last <= at.q_last
    &&& at.p_before <= at.q_before || (at.p_last == 0 && at.q_before == 0 && at.q_last == 1)
    &&& 0 <= at.q_before <= max
    &&& 1 <= at.q_last <= max
}

/// One step keeps what holds of the two fractions.
proof fn lemma_approach_step(at: Approach, n: int, d: int, max: int)
    requires
        approach_inv(at, n, d, max),
        d > 0,
        at.q_before + (n / d) * at.q_last <= max,
    ensures
        approach_inv(
            Approach {
                p_before: at.p_last,
                q_before: at.q_last,
                p_last: at.p_before + (n / d) * at.p_last,
                q_last: at.q_before + (n / d) * at.q_last,
            },
            d,
            n % d,
            max,
        ),
        n / d >= 1,
        at.p_before + (n / d) * at.p_last <= at.q_before + (n / d) * at.q_last,
{
    let a = n / d;
    lemma_fundamental_div_mod(n, d);
    lemma_mod_pos_bound(n, d);
    assert(a >= 1) by (nonlinear_arith)
        requires
            n == d * a + (n % d),
            0 <= n % d < d,
            d <= n,
            d > 0,
    ;
    assert(a * at.p_last <= a * at.q_last) by (nonlinear_arith)
        requires
            a >= 1,
            0 <= at.p_last <= at.q_last,
    ;
    assert(a * at.q_last >= 1) by (nonlinear_arith)
        requires
            a >= 1,
            at.q_last >= 1,
    ;
    assert(a * at.p_last >= 0) by (nonlinear_arith)
        requires
            a >= 1,
            at.p_last >= 0,
    ;
    if at.p_last == 0 {
        assert(a * at.p_last == 0) by (nonlinear_arith)
            requires
                at.p_last == 0,
        ;
    }
}

/// Brings the ratio `x : y` to lowest terms and, where these are larger than
/// `max`, to the nearest ratio with terms within `max` that the continued
/// fraction offers. The order of the two terms is kept.
pub fn limit_ratio(x: u32, y: u32, max: u32) -> (ratio: Result<(u32, u32), RatioError>)
    requires
        x != 0 || y != 0,
        max >= 1,
    ensures
        match ratio {
            Ok((p, q)) => limited(x as int, y as int, max as int) == Some((p as int, q as int)),
            Err(RatioError::UnitTerm) => limited(x as int, y as int, max as int) is None,
        },
        ratio matches Ok((p, q)) ==> p <= max && q <= max,
{
    let swapped = x > y;
    let small = if swapped {
        y
    } else {
        x
    };
    let large = if swapped {
        x
    } else {
        y
    };
    proof {
        lemma_gcd_bounds(small as nat, large as nat);
    }
    let g = gcd(small, large);
    let a = small / g;
    let b = large / g;
    if a == 1 {
        return Err(RatioError::UnitTerm);
    }
    proof {
        assert(a <= b) by (nonlinear_arith)
            requires
                small <= large,
                g >= 1,
                a == small as int / g as int,
                b == large as int / g as int,
        ;
    }
    if b <= max {
        return Ok(
            if swapped {
                (b, a)
            } else {
                (a, b)
            },
        );
    }
    let mut p_before: u32 = 1;
    let mut q_before: u32 = 0;
    let mut p_last: u32 = 0;
    let mut q_last: u32 = 1;
    let mut n: u32 = b;
    let mut d: u32 = a;
    let mut within = true;
    let ghost start = Approach { p_before: 1, q_before: 0, p_last: 0, q_last: 1 };
    while within && d != 0
        invariant
            max >= 1,
            approach_inv(
                Approach { p_before: p_before as int, q_before: q_before as int, p_last: p_last as int, q_last: q_last as int },
                n as int,
                d as int,
                max as int,
            ),
            within ==> approach(start, b as int, a as int, max as int) == approach(
                Approach { p_before: p_before as int, q_before: q_before as int, p_last: p_last as int, q_last: q_last as int },
                n as int,
                d as int,
                max as int,
            ),
            !within ==> approach(start, b as int, a as int, max as int) == (Approach {
                p_before: p_before as int,
                q_before: q_before as int,
                p_last: p_last as int,
                q_last: q_last as int,
            }),
        decreases
                if within {
                    d as int + 1
                } else {
                    0
                },
    {
        let step = n / d;
        proof {
            lemma_mul_upper_bound(
                step as int,
                u32::MAX as int,
                q_last as int,
                u32::MAX as int,
            );
            lemma_mul_upper_bound(
                step as int,
                u32::MAX as int,
                p_last as int,
                u32::MAX as int,
            );
            lemma_mod_pos_bound(n as int, d as int);
        }
        let q_next: u64 = q_before as u64 + step as u64 * q_last as u64;
        if q_next > max as u64 {
            within = false;
        } else {
            proof {
                lemma_approach_step(
                    Approach { p_before: p_before as int, q_before: q_before as int, p_last: p_last as int, q_last: q_last as int },
                    n as int,
                    d as int,
                    max as int,
                );
            }
            let p_next: u64 = p_before as u64 + step as u64 * p_last as u64;
            p_before = p_last;
            q_before = q_last;
            p_last = p_next as u32;
            q_last = q_next as u32;
            let rest = n % d;
            n = d;
            d = rest;
        }
    }
    let ghost at = Approach { p_before: p_before as int, q_before: q_before as int, p_last: p_last as int, q_last: q_last as int };
    proof {
        assert(approach(start, b as int, a as int, max as int) == at);
    }
    let k = (max - q_before) / q_last;
    proof {
        lemma_fundamental_div_mod((max - q_before) as int, q_last as int);
        lemma_mod_pos_bound((max - q_before) as int, q_last as int);
        assert(k * q_last <= max - q_before) by (nonlinear_arith)
            requires
                (max - q_before) as int == q_last as int * k as int + ((max - q_before) as int % q_last as int),
                0 <= (max - q_before) as int % q_last as int,
        ;
        assert(k * p_last <= k * q_last) by (nonlinear_arith)
            requires
                0 <= p_last <= q_last,
                0 <= k,
        ;
        assert(0 <= k * p_last) by (nonlinear_arith)
            requires
                0 <= p_last,
                0 <= k,
        ;
        if p_last == 0 {
            assert(k * p_last == 0) by (nonlinear_arith)
                requires
                    p_last == 0,
            ;
        }
        if q_last == 1 {
            assert(k * q_last == k) by (nonlinear_arith)
                requires
                    q_last == 1,
            ;
        }
    }
    let between_p: u32 = p_before + k * p_last;
    let between_q: u32 = q_before + k * q_last;
    let nearer_between = is_nearer(between_p, between_q, p_last, q_last, a, b);
    let (p, q) = if nearer_between {
        (between_p, between_q)
    } else {
        (p_last, q_last)
    };
    Ok(
        if swapped {
            (q, p)
        } else {
            (p, q)
        },
    )
}

/// Whether `p / q` lies nearer to `a / b` than `r / s` does.
fn is_nearer(p: u32, q: u32, r: u32, s: u32, a: u32, b: u32) -> (yes: bool)
    ensures
        yes == nearer(p as int, q as int, r as int, s as int, a as int, b as int),
{
    proof {
        lemma_mul_upper_bound(p as int, u32::MAX as int, b as int, u32::MAX as int);
        lemma_mul_upper_bound(a as int, u32::MAX as int, q as int, u32::MAX as int);
        lemma_mul_upper_bound(r as int, u32::MAX as int, b as int, u32::MAX as int);
        lemma_mul_upper_bound(a as int, u32::MAX as int, s as int, u32::MAX as int);
    }
    let pb: u64 = p as u64 * b as u64;
    let aq: u64 = a as u64 * q as u64;
    let rb: u64 = r as u64 * b as u64;
    let az: u64 = a as u64 * s as u64;
    let left: u64 = if pb >= aq {
        pb - aq
    } else {
        aq - pb
    };
    let right: u64 = if rb >= az {
        rb - az
    } else {
        az - rb
    };
    proof {
        lemma_mul_upper_bound(left as int, u64::MAX as int, s as int, u32::MAX as int);
        lemma_mul_upper_bound(right as int, u64::MAX as int, q as int, u32::MAX as int);
    }
    left as u128 * (s as u128) < right as u128 * (q as u128)
}

} // verus!
