//! Script numbers: exact decimals with nine fractional digits, held as a sign
//! and a magnitude counted in scaled units (`SCALE` units per whole one).
//! Arithmetic is exact; an operation whose magnitude would not fit reports
//! that instead of wrapping.
use vstd::prelude::*;

verus! {

/// Scaled units per whole unit: nine decimal places.
pub const SCALE: u128 = 1_000_000_000;

/// A script number. Its mathematical value is `view / SCALE`; the view is the
/// signed count of scaled units. A zero magnitude means zero whatever the sign.
#[derive(Clone, Copy)]
pub struct Num {
    pub neg: bool,
    pub mag: u128,
}

impl View for Num {
    type V = int;

    open spec fn view(&self) -> int {
        if self.neg {
            -(self.mag as int)
        } else {
            self.mag as int
        }
    }
}

/// Absolute value of a mathematical integer.
pub open spec fn iabs(i: int) -> nat {
    if i < 0 {
        (-i) as nat
    } else {
        i as nat
    }
}

/// The magnitude fits in a number's magnitude field.
pub open spec fn fits(i: int) -> bool {
    iabs(i) <= u128::MAX
}

/// Scaled count of a sum, when it fits.
pub open spec fn sum_ok(a: int, b: int) -> bool {
    fits(a + b)
}

/// A product of scaled counts is computed as `|a|*|b| / SCALE`, truncated
/// toward zero; it is reported only when the intermediate product fits.
pub open spec fn prod_ok(a: int, b: int) -> bool {
    iabs(a) * iabs(b) <= u128::MAX
}

pub open spec fn prod_val(a: int, b: int) -> int {
    let m = (iabs(a) * iabs(b)) / (SCALE as nat);
    if (a < 0) == (b < 0) {
        m as int
    } else {
        -(m as int)
    }
}

/// A quotient of scaled counts is `|a|*SCALE / |b|`, truncated toward zero;
/// it is reported only when the widened dividend fits.
pub open spec fn quot_ok(a: int, b: int) -> bool {
    iabs(a) * SCALE <= u128::MAX
}

pub open spec fn quot_val(a: int, b: int) -> int {
    let m = (iabs(a) * (SCALE as nat)) / iabs(b);
    if (a < 0) == (b < 0) {
        m as int
    } else {
        -(m as int)
    }
}

impl Num {
    pub fn zero() -> (r: Num)
        ensures
            r@ == 0,
    {
        Num { neg: false, mag: 0 }
    }

    pub fn is_zero(&self) -> (r: bool)
        ensures
            r == (self@ == 0),
    {
        self.mag == 0
    }

    pub fn neg_of(self) -> (r: Num)
        ensures
            r@ == -self@,
    {
        Num { neg: !self.neg, mag: self.mag }
    }

    /// Exact sum; reports nothing when the magnitude of the sum cannot be held.
    pub fn add(self, o: Num) -> (r: Option<Num>)
        ensures
            (r is Some) == sum_ok(self@, o@),
            r is Some ==> r->0@ == self@ + o@,
    {
        if self.neg == o.neg {
            match self.mag.checked_add(o.mag) {
                Some(m) => Some(Num { neg: self.neg, mag: m }),
                None => None,
            }
        } else if self.mag >= o.mag {
            Some(Num { neg: self.neg, mag: self.mag - o.mag })
        } else {
            Some(Num { neg: o.neg, mag: o.mag - self.mag })
        }
    }

    pub fn sub(self, o: Num) -> (r: Option<Num>)
        ensures
            (r is Some) == sum_ok(self@, -o@),
            r is Some ==> r->0@ == self@ - o@,
    {
        self.add(o.neg_of())
    }

    /// Truncating product of two scaled counts.
    pub fn mul(self, o: Num) -> (r: Option<Num>)
        ensures
            (r is Some) == prod_ok(self@, o@),
            r is Some ==> r->0@ == prod_val(self@, o@),
    {
        match self.mag.checked_mul(o.mag) {
            Some(p) => {
                let r = Num { neg: self.neg != o.neg, mag: p / SCALE };
                proof {
                    assert(iabs(self@) == self.mag && iabs(o@) == o.mag);
                    assert(p == iabs(self@) * iabs(o@));
                    assert(r.mag == (iabs(self@) * iabs(o@)) / (SCALE as nat));
                }
                Some(r)
            },
            None => None,
        }
    }

    /// Truncating quotient of two scaled counts; the divisor must not be zero.
    pub fn div(self, o: Num) -> (r: Option<Num>)
        requires
            o@ != 0,
        ensures
            (r is Some) == quot_ok(self@, o@),
            r is Some ==> r->0@ == quot_val(self@, o@),
    {
        match self.mag.checked_mul(SCALE) {
            Some(w) => Some(Num { neg: self.neg != o.neg, mag: w / o.mag }),
            None => None,
        }
    }

    pub fn eq_val(self, o: Num) -> (r: bool)
        ensures
            r == (self@ == o@),
    {
        (self.mag == 0 && o.mag == 0) || (self.neg == o.neg && self.mag == o.mag)
    }

    pub fn lt(self, o: Num) -> (r: bool)
        ensures
            r == (self@ < o@),
    {
        if self.neg && o.neg {
            o.mag < self.mag
        } else if !self.neg && !o.neg {
            self.mag < o.mag
        } else if self.neg {
            self.mag > 0 || o.mag > 0
        } else {
            false
        }
    }

    pub fn le(self, o: Num) -> (r: bool)
        ensures
            r == (self@ <= o@),
    {
        !o.lt(self)
    }

    pub fn gt(self, o: Num) -> (r: bool)
        ensures
            r == (self@ > o@),
    {
        o.lt(self)
    }

    pub fn ge(self, o: Num) -> (r: bool)
        ensures
            r == (self@ >= o@),
    {
        !self.lt(o)
    }

    /// The whole number `n`, as a scaled count, when it fits.
    pub fn from_u64(n: u64) -> (r: Option<Num>)
        ensures
            (r is Some) == (n * SCALE <= u128::MAX),
            r is Some ==> r->0@ == n * SCALE,
    {
        match (n as u128).checked_mul(SCALE) {
            Some(m) => Some(Num { neg: false, mag: m }),
            None => None,
        }
    }
}

} // verus!
