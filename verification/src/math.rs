//! The numeric built-ins on scaled counts: square root, sine, cosine, the
//! exponential and the natural logarithm. Each executable function computes
//! exactly the value its spec function describes; the series are truncated
//! polynomials on the reduced argument, and every intermediate product that
//! cannot be held falls back as the spec says (for sine and cosine such a
//! fallback is out of reach of real arguments, for the exponential it is the
//! overflow report).
use vstd::prelude::*;
use crate::num::{Num, SCALE, iabs};

verus! {

/// Scaled half circle constant.
pub const PI_FX: u128 = 3_141_592_653;

/// Scaled full circle constant.
pub const TWO_PI_FX: u128 = 6_283_185_307;

/// Scaled quarter circle constant.
pub const HALF_PI_FX: u128 = 1_570_796_326;

/// Scaled base of the natural logarithm.
pub const E_FX: u128 = 2_718_281_828;

/// Scaled natural logarithm of two.
pub const LN2_FX: u128 = 693_147_180;

/// `a * b / SCALE / c`, truncating, with zero where the product cannot be
/// held.
pub open spec fn md_s(a: int, b: int, c: int) -> int {
    if a * b > u128::MAX {
        0
    } else {
        a * b / (SCALE as int) / c
    }
}

fn md(a: u128, b: u128, c: u128) -> (r: u128)
    requires
        c >= 1,
    ensures
        r == md_s(a as int, b as int, c as int),
{
    match a.checked_mul(b) {
        Some(p) => p / SCALE / c,
        None => 0,
    }
}

/// Saturating difference.
pub open spec fn ssub_s(a: int, b: int) -> int {
    if b <= a {
        a - b
    } else {
        0
    }
}

fn ssub(a: u128, b: u128) -> (r: u128)
    ensures
        r == ssub_s(a as int, b as int),
{
    if b <= a {
        a - b
    } else {
        0
    }
}

/// Bounded sum: zero where the sum cannot be held.
pub open spec fn sadd_s(a: int, b: int) -> int {
    if a + b > u128::MAX {
        0
    } else {
        a + b
    }
}

fn sadd(a: u128, b: u128) -> (r: u128)
    ensures
        r == sadd_s(a as int, b as int),
{
    match a.checked_add(b) {
        Some(s) => s,
        None => 0,
    }
}

/// The truncated sine polynomial on a reduced argument in the first quarter.
pub open spec fn sin_poly_s(t: int) -> int {
    let t2 = md_s(t, t, 1);
    let u3 = md_s(t, t2, 6);
    let u5 = md_s(u3, t2, 20);
    let u7 = md_s(u5, t2, 42);
    let u9 = md_s(u7, t2, 72);
    let u11 = md_s(u9, t2, 110);
    let u13 = md_s(u11, t2, 156);
    let pos = sadd_s(sadd_s(sadd_s(t, u5), u9), u13);
    let neg = sadd_s(sadd_s(u3, u7), u11);
    ssub_s(pos, neg)
}

fn sin_poly(t: u128) -> (r: u128)
    ensures
        r == sin_poly_s(t as int),
{
    let t2 = md(t, t, 1);
    let u3 = md(t, t2, 6);
    let u5 = md(u3, t2, 20);
    let u7 = md(u5, t2, 42);
    let u9 = md(u7, t2, 72);
    let u11 = md(u9, t2, 110);
    let u13 = md(u11, t2, 156);
    let pos = sadd(sadd(sadd(t, u5), u9), u13);
    let neg = sadd(sadd(u3, u7), u11);
    ssub(pos, neg)
}

/// The sine magnitude and sign over one turn: the argument is the reduced
/// angle in scaled units, within `[0, TWO_PI_FX)`.
pub open spec fn sin_turn_s(a: int) -> int {
    if a <= PI_FX {
        let t = if a <= HALF_PI_FX {
            a
        } else {
            PI_FX - a
        };
        sin_poly_s(t)
    } else {
        let b = a - PI_FX;
        let t = if b <= HALF_PI_FX {
            b
        } else {
            ssub_s(PI_FX as int, b)
        };
        -sin_poly_s(t)
    }
}

fn sin_turn(a: u128) -> (r: Num)
    requires
        a < TWO_PI_FX,
    ensures
        r@ == sin_turn_s(a as int),
{
    if a <= PI_FX {
        let t = if a <= HALF_PI_FX {
            a
        } else {
            PI_FX - a
        };
        Num { neg: false, mag: sin_poly(t) }
    } else {
        let b = a - PI_FX;
        let t = if b <= HALF_PI_FX {
            b
        } else {
            ssub(PI_FX, b)
        };
        let m = sin_poly(t);
        Num { neg: true, mag: m }
    }
}

/// The sine of a scaled count: the angle is reduced modulo one turn, and an
/// angle below zero flips the sign.
pub open spec fn sin_fx(x: int) -> int {
    let a = iabs(x) % (TWO_PI_FX as nat);
    if x < 0 {
        -sin_turn_s(a as int)
    } else {
        sin_turn_s(a as int)
    }
}

pub fn sin_num(x: Num) -> (r: Num)
    ensures
        r@ == sin_fx(x@),
{
    let a = x.mag % TWO_PI_FX;
    let s = sin_turn(a);
    proof {
        assert(iabs(x@) == x.mag);
    }
    if x.neg && x.mag > 0 {
        s.neg_of()
    } else {
        s
    }
}

/// The cosine of a scaled count: the sine a quarter turn ahead, on the
/// magnitude of the angle.
pub open spec fn cos_fx(x: int) -> int {
    let a = ((iabs(x) % (TWO_PI_FX as nat) + HALF_PI_FX) as int) % (TWO_PI_FX as int);
    sin_turn_s(a)
}

pub fn cos_num(x: Num) -> (r: Num)
    ensures
        r@ == cos_fx(x@),
{
    let a = (x.mag % TWO_PI_FX + HALF_PI_FX) % TWO_PI_FX;
    proof {
        assert(iabs(x@) == x.mag);
    }
    sin_turn(a)
}

/// The whole-power part of the exponential: `e` taken to the `n`, scaled,
/// with nothing where a product cannot be held.
pub open spec fn exp_int_s(n: nat) -> Option<int>
    decreases n,
{
    if n == 0 {
        Some(SCALE as int)
    } else {
        match exp_int_s((n - 1) as nat) {
            None => None,
            Some(acc) => {
                if acc * E_FX > u128::MAX {
                    None
                } else {
                    Some(acc * E_FX / (SCALE as int))
                }
            },
        }
    }
}

fn exp_int(n: u128) -> (r: Option<u128>)
    ensures
        match exp_int_s(n as nat) {
            Some(v) => r matches Some(m) && m == v,
            None => r is None,
        },
    decreases n,
{
    if n == 0 {
        Some(SCALE)
    } else {
        match exp_int(n - 1) {
            None => None,
            Some(acc) => match acc.checked_mul(E_FX) {
                Some(p) => Some(p / SCALE),
                None => None,
            },
        }
    }
}

/// The truncated exponential polynomial on a fractional argument.
pub open spec fn exp_poly_s(f: int) -> int {
    let v1 = f;
    let v2 = md_s(v1, f, 2);
    let v3 = md_s(v2, f, 3);
    let v4 = md_s(v3, f, 4);
    let v5 = md_s(v4, f, 5);
    let v6 = md_s(v5, f, 6);
    let v7 = md_s(v6, f, 7);
    let v8 = md_s(v7, f, 8);
    let v9 = md_s(v8, f, 9);
    let v10 = md_s(v9, f, 10);
    let v11 = md_s(v10, f, 11);
    let v12 = md_s(v11, f, 12);
    let low = sadd_s(sadd_s(sadd_s(v1, v2), sadd_s(v3, v4)), sadd_s(sadd_s(v5, v6), v7));
    let high = sadd_s(sadd_s(sadd_s(v8, v9), sadd_s(v10, v11)), v12);
    sadd_s(sadd_s(SCALE as int, low), high)
}

fn exp_poly(f: u128) -> (r: u128)
    ensures
        r == exp_poly_s(f as int),
{
    let v1 = f;
    let v2 = md(v1, f, 2);
    let v3 = md(v2, f, 3);
    let v4 = md(v3, f, 4);
    let v5 = md(v4, f, 5);
    let v6 = md(v5, f, 6);
    let v7 = md(v6, f, 7);
    let v8 = md(v7, f, 8);
    let v9 = md(v8, f, 9);
    let v10 = md(v9, f, 10);
    let v11 = md(v10, f, 11);
    let v12 = md(v11, f, 12);
    let low = sadd(sadd(sadd(v1, v2), sadd(v3, v4)), sadd(sadd(v5, v6), v7));
    let high = sadd(sadd(sadd(v8, v9), sadd(v10, v11)), v12);
    sadd(sadd(SCALE, low), high)
}

/// The exponential of a nonnegative scaled count, or nothing where the result
/// cannot be held.
pub open spec fn exp_pos_s(x: nat) -> Option<int> {
    let n = x / (SCALE as nat);
    let f = x % (SCALE as nat);
    match exp_int_s(n) {
        None => None,
        Some(acc) => {
            let ef = exp_poly_s(f as int);
            if acc * ef > u128::MAX {
                None
            } else {
                Some(acc * ef / (SCALE as int))
            }
        },
    }
}

/// The exponential of any scaled count. A negative argument inverts the
/// positive result; one whose positive result cannot be held gives zero, as
/// the true value is below one scaled unit. Nothing is reported only for a
/// positive argument out of range.
pub open spec fn exp_fx(x: int) -> Option<int> {
    if x >= 0 {
        exp_pos_s(iabs(x))
    } else {
        match exp_pos_s(iabs(x)) {
            None => Some(0),
            Some(v) => {
                if v == 0 {
                    Some(0)
                } else {
                    Some((SCALE * SCALE) as int / v)
                }
            },
        }
    }
}

pub fn exp_num(x: Num) -> (r: Option<Num>)
    ensures
        match exp_fx(x@) {
            Some(v) => r matches Some(n) && n@ == v,
            None => r is None,
        },
{
    proof {
        assert(iabs(x@) == x.mag);
    }
    let n = x.mag / SCALE;
    let f = x.mag % SCALE;
    let pos: Option<u128> = match exp_int(n) {
        None => None,
        Some(acc) => {
            let ef = exp_poly(f);
            match acc.checked_mul(ef) {
                Some(p) => Some(p / SCALE),
                None => None,
            }
        },
    };
    if x.neg && x.mag > 0 {
        match pos {
            None => Some(Num { neg: false, mag: 0 }),
            Some(v) => {
                if v == 0 {
                    Some(Num { neg: false, mag: 0 })
                } else {
                    Some(Num { neg: false, mag: (SCALE * SCALE) / v })
                }
            },
        }
    } else {
        match pos {
            None => None,
            Some(v) => Some(Num { neg: false, mag: v }),
        }
    }
}

/// Halvings that bring a scaled count under two units; the count and the
/// result are coupled by the spec alone.
pub open spec fn norm_down_s(m: int, k: int) -> (int, int)
    decreases m,
{
    if m >= 2 * SCALE {
        norm_down_s(m / 2, k + 1)
    } else {
        (m, k)
    }
}

/// Doublings that bring a positive scaled count up to one unit.
pub open spec fn norm_up_s(m: int, k: int) -> (int, int)
    decreases (if m < SCALE {
        (SCALE as int) - m
    } else {
        0int
    }),
{
    if 0 < m < SCALE {
        norm_up_s(2 * m, k + 1)
    } else {
        (m, k)
    }
}

/// The truncated logarithm series on a normalized count within one and two
/// units: twice the odd-power sum of `(m - 1)/(m + 1)`.
pub open spec fn ln_poly_s(m: int) -> int {
    let t = (m - SCALE) * SCALE / (m + SCALE);
    let w = md_s(t, t, 1);
    let a3 = md_s(t, w, 1);
    let a5 = md_s(a3, w, 1);
    let a7 = md_s(a5, w, 1);
    let a9 = md_s(a7, w, 1);
    let a11 = md_s(a9, w, 1);
    let a13 = md_s(a11, w, 1);
    let a15 = md_s(a13, w, 1);
    let a17 = md_s(a15, w, 1);
    let a19 = md_s(a17, w, 1);
    let s = sadd_s(
        sadd_s(sadd_s(t, a3 / 3), sadd_s(a5 / 5, a7 / 7)),
        sadd_s(
            sadd_s(a9 / 9, a11 / 11),
            sadd_s(sadd_s(a13 / 13, a15 / 15), sadd_s(a17 / 17, a19 / 19)),
        ),
    );
    sadd_s(s, s)
}

fn ln_poly(m: u128) -> (r: u128)
    requires
        SCALE <= m < 2 * SCALE,
    ensures
        r == ln_poly_s(m as int),
{
    let t = (m - SCALE) * SCALE / (m + SCALE);
    let w = md(t, t, 1);
    let a3 = md(t, w, 1);
    let a5 = md(a3, w, 1);
    let a7 = md(a5, w, 1);
    let a9 = md(a7, w, 1);
    let a11 = md(a9, w, 1);
    let a13 = md(a11, w, 1);
    let a15 = md(a13, w, 1);
    let a17 = md(a15, w, 1);
    let a19 = md(a17, w, 1);
    let s = sadd(
        sadd(sadd(t, a3 / 3), sadd(a5 / 5, a7 / 7)),
        sadd(
            sadd(a9 / 9, a11 / 11),
            sadd(sadd(a13 / 13, a15 / 15), sadd(a17 / 17, a19 / 19)),
        ),
    );
    sadd(s, s)
}

/// The natural logarithm of a positive scaled count: the series on the
/// normalized count plus the halving balance times the logarithm of two.
pub open spec fn ln_fx(x: int) -> int {
    let (dm, kd) = norm_down_s(x, 0);
    let (m, ku) = norm_up_s(dm, 0);
    let s = ln_poly_s(m);
    let diff = kd - ku;
    if diff >= 0 {
        sadd_s(s, diff * LN2_FX)
    } else {
        let d = (-diff) * LN2_FX;
        if d <= s {
            s - d
        } else {
            -(d - s)
        }
    }
}

#[verifier::rlimit(60)]
pub fn ln_num(x: Num) -> (r: Num)
    requires
        x@ > 0,
    ensures
        r@ == ln_fx(x@),
{
    proof {
        assert(iabs(x@) == x.mag);
    }
    let mut m: u128 = x.mag;
    let mut kd: u128 = 0;
    proof {
        vstd::arithmetic::power2::lemma2_to64();
        assert(norm_down_s(x@, 0) == norm_down_s(m as int, kd as int));
    }
    while m >= 2 * SCALE
        invariant
            x@ == x.mag,
            norm_down_s(x@, 0) == norm_down_s(m as int, kd as int),
            m >= 1,
            m * vstd::arithmetic::power2::pow2(kd as nat) <= x@,
            kd <= 127,
        decreases m,
    {
        proof {
            vstd::arithmetic::power2::lemma_pow2_unfold((kd + 1) as nat);
            assert((m / 2) * vstd::arithmetic::power2::pow2((kd + 1) as nat) <= m
                * vstd::arithmetic::power2::pow2(kd as nat)) by (nonlinear_arith)
                requires
                    vstd::arithmetic::power2::pow2((kd + 1) as nat) == 2
                        * vstd::arithmetic::power2::pow2(kd as nat),
                    vstd::arithmetic::power2::pow2(kd as nat) >= 0,
                    m >= 0,
            ;
            if kd >= 127 {
                vstd::arithmetic::power2::lemma2_to64();
                vstd::arithmetic::power2::lemma_pow2_adds(64, 63);
                vstd::arithmetic::power2::lemma_pow2_adds(64, 64);
                vstd::arithmetic::power2::lemma_pow2_strictly_increases(127, kd as nat + 1);
                assert((m / 2) * vstd::arithmetic::power2::pow2((kd + 1) as nat)
                    >= vstd::arithmetic::power2::pow2((kd + 1) as nat)) by (nonlinear_arith)
                    requires
                        m / 2 >= 1,
                        vstd::arithmetic::power2::pow2((kd + 1) as nat) >= 0,
                ;
                assert(false);
            }
        }
        m = m / 2;
        kd = kd + 1;
    }
    proof {
        assert(norm_down_s(x@, 0) == (m as int, kd as int));
    }
    let ghost mid = m as int;
    let mut ku: u128 = 0;
    proof {
        vstd::arithmetic::power2::lemma2_to64();
        assert(norm_up_s(mid, 0) == norm_up_s(m as int, ku as int));
    }
    while m < SCALE
        invariant
            norm_up_s(mid, 0) == norm_up_s(m as int, ku as int),
            1 <= m < 2 * SCALE,
            vstd::arithmetic::power2::pow2(ku as nat) <= m,
            ku <= 30,
        decreases (if m >= SCALE {
            0int
        } else {
            SCALE as int - m
        }),
    {
        proof {
            vstd::arithmetic::power2::lemma_pow2_unfold((ku + 1) as nat);
            if ku >= 30 {
                vstd::arithmetic::power2::lemma2_to64();
                vstd::arithmetic::power2::lemma_pow2_strictly_increases(30, ku as nat);
                assert(false);
            }
        }
        m = m * 2;
        ku = ku + 1;
    }
    proof {
        assert(norm_up_s(mid, 0) == (m as int, ku as int));
    }
    let s = ln_poly(m);
    if kd >= ku {
        let whole = (kd - ku) * LN2_FX;
        Num { neg: false, mag: sadd(s, whole) }
    } else {
        let down = (ku - kd) * LN2_FX;
        if down <= s {
            Num { neg: false, mag: s - down }
        } else {
            Num { neg: true, mag: down - s }
        }
    }
}

/// The square root of a nonnegative scaled count: the greatest count whose
/// square does not pass the widened argument.
pub open spec fn sqrt_floor(v: nat) -> nat {
    choose|n: nat| #[trigger] (n * n) <= v && v < (n + 1) * (n + 1)
}

proof fn lemma_sqrt_unique(v: nat, r: nat)
    requires
        r * r <= v,
        v < (r + 1) * (r + 1),
    ensures
        sqrt_floor(v) == r,
{
    assert(exists|n: nat| #[trigger] (n * n) <= v && v < (n + 1) * (n + 1)) by {
        assert(r * r <= v && v < (r + 1) * (r + 1));
    }
    let c = sqrt_floor(v);
    assert(c * c <= v && v < (c + 1) * (c + 1));
    if c < r {
        assert((c + 1) * (c + 1) <= r * r) by (nonlinear_arith)
            requires
                c + 1 <= r,
        ;
    }
    if r < c {
        assert((r + 1) * (r + 1) <= c * c) by (nonlinear_arith)
            requires
                r + 1 <= c,
        ;
    }
}

/// Whether the widened square-root argument can be held.
pub open spec fn sqrt_ok(x: int) -> bool {
    x * SCALE <= u128::MAX
}

/// The square root of a nonnegative scaled count, where the widened argument
/// can be held.
pub fn sqrt_num(x: Num) -> (r: Option<Num>)
    requires
        x@ >= 0,
    ensures
        (r is Some) == sqrt_ok(x@),
        r is Some ==> r->0@ == sqrt_floor((x@ * SCALE) as nat),
{
    proof {
        assert(iabs(x@) == x.mag);
    }
    let v = match x.mag.checked_mul(SCALE) {
        Some(v) => v,
        None => {
            return None;
        },
    };
    let mut lo: u128 = 0;
    let mut hi: u128 = 0x1_0000_0000_0000_0000;
    proof {
        assert((hi as int) * (hi as int) > v) by (nonlinear_arith)
            requires
                hi == 0x1_0000_0000_0000_0000,
                v <= u128::MAX,
        ;
    }
    while lo + 1 < hi
        invariant
            lo < hi <= 0x1_0000_0000_0000_0000,
            (lo as int) * (lo as int) <= v,
            (hi as int) * (hi as int) > v,
        decreases hi - lo,
    {
        let mid = lo + (hi - lo) / 2;
        proof {
            assert(mid * mid <= (0x1_0000_0000_0000_0000u128 - 1) * (
            0x1_0000_0000_0000_0000u128 - 1)) by (nonlinear_arith)
                requires
                    mid <= 0x1_0000_0000_0000_0000u128 - 1,
            ;
        }
        if mid * mid <= v {
            lo = mid;
        } else {
            hi = mid;
        }
    }
    proof {
        lemma_sqrt_unique(v as nat, lo as nat);
    }
    Some(Num { neg: false, mag: lo })
}

} // verus!
