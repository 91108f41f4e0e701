//! Fixed-point arithmetic kernel: exact ratios with directional rounding,
//! per-million and per-cent fractions, and 18-decimal fixed-point prices.

use vstd::prelude::*;
use vstd::arithmetic::div_mod::{
    lemma_div_denominator, lemma_div_is_ordered, lemma_fundamental_div_mod,
    lemma_fundamental_div_mod_converse,
};
use vstd::arithmetic::power2::{lemma2_to64, lemma2_to64_rest, lemma_pow2_adds, lemma_pow2_unfold, pow2};

verus! {

/// Accuracy of a `Price`: one whole unit is this many inner units.
pub const PRICE_ACCURACY: u128 = 1_000_000_000_000_000_000;

/// Parts of a `Permill` that make up one whole.
pub const PERMILL_ACCURACY: u32 = 1_000_000;

/// Parts of a `Percent` that make up one whole.
pub const PERCENT_ACCURACY: u8 = 100;

/// Failure of a checked arithmetic step.
#[derive(Clone, Copy, Debug, PartialEq, Eq, Structural)]
pub enum ArithmeticError {
    Underflow,
    Overflow,
}

/// `a * b / c` rounded as `rounding` says, when the divisor is non-zero and
/// the quotient fits in 128 bits.
pub open spec fn checked_ratio(a: int, b: int, c: int, rounding: Rounding) -> Option<u128> {
    if 0 < c && ratio_rounded(a, b, c, rounding) <= u128::MAX {
        Some(ratio_rounded(a, b, c, rounding) as u128)
    } else {
        None
    }
}

/// `a * b / c` rounded down.
pub open spec fn ratio_floor(a: int, b: int, c: int) -> int {
    a * b / c
}

/// `a * b / c` rounded up.
pub open spec fn ratio_ceil(a: int, b: int, c: int) -> int {
    (a * b + c - 1) / c
}

proof fn lemma_top_powers()
    ensures
        pow2(0) == 1,
        pow2(127) == 0x8000_0000_0000_0000_0000_0000_0000_0000,
        pow2(128) == 0x1_0000_0000_0000_0000_0000_0000_0000_0000,
{
    lemma2_to64();
    lemma2_to64_rest();
    lemma_pow2_adds(63, 64);
    lemma_pow2_adds(64, 64);
}

/// One step of the long division: the quotient and remainder of
/// `a * (2 * done + bit)` by `c`, from those of `a * done`.
proof fn lemma_division_step(
    a: int,
    c: int,
    aq: int,
    ar: int,
    done: int,
    bit: int,
    q: int,
    r: int,
    q_new: int,
    r_new: int,
)
    requires
        c > 0,
        a == c * aq + ar,
        0 <= ar < c,
        q * c + r == a * done,
        0 <= r < c,
        bit == 0 || bit == 1,
        ({
            let r1 = if r >= c - r { r - (c - r) } else { r + r };
            let k1: int = if r >= c - r { 1 } else { 0 };
            let r2 = if bit == 1 { if r1 >= c - ar { r1 - (c - ar) } else { r1 + ar } } else { r1 };
            let k2: int = if bit == 1 && r1 >= c - ar { 1 } else { 0 };
            &&& q_new == 2 * q + k1 + bit * aq + k2
            &&& r_new == r2
        }),
    ensures
        q_new * c + r_new == a * (2 * done + bit),
        0 <= r_new < c,
{
    assert(q_new * c + r_new == 2 * (q * c + r) + bit * (aq * c + ar)) by (nonlinear_arith)
        requires
            ({
                let r1 = if r >= c - r { r - (c - r) } else { r + r };
                let k1: int = if r >= c - r { 1 } else { 0 };
                let r2 = if bit == 1 { if r1 >= c - ar { r1 - (c - ar) } else { r1 + ar } } else { r1 };
                let k2: int = if bit == 1 && r1 >= c - ar { 1 } else { 0 };
                &&& q_new == 2 * q + k1 + bit * aq + k2
                &&& r_new == r2
            }),
            bit == 0 || bit == 1,
    ;
    assert(a * (2 * done + bit) == 2 * (a * done) + bit * a) by (nonlinear_arith);
    assert(aq * c == c * aq) by (nonlinear_arith);
}

/// `(a * b) / c` and `(a * b) % c`, by long division over the bits of `b`
/// from the most significant one, with every intermediate value below
/// 2^128; `None` exactly when the quotient does not fit in 128 bits.
fn mul_div_rem(a: u128, b: u128, c: u128) -> (res: Option<(u128, u128)>)
    requires
        c > 0,
    ensures
        match res {
            Some((q, r)) => q == (a as int * b as int) / (c as int) && r == (a as int * b as int)
                % (c as int),
            None => (a as int * b as int) / (c as int) > u128::MAX,
        },
{
    let aq = a / c;
    let ar = a % c;
    proof {
        lemma_fundamental_div_mod(a as int, c as int);
        lemma_top_powers();
        lemma_div_denominator(b as int, 1, pow2(128) as int);
    }
    let mut q: u128 = 0;
    let mut r: u128 = 0;
    let mut p: u128 = 0x8000_0000_0000_0000_0000_0000_0000_0000;
    let mut i: u32 = 0;
    let ghost mut done: int = 0;
    assert(done == (b as int) / (pow2(128) as int));
    while i < 128
        invariant
            i <= 128,
            i < 128 ==> p as nat == pow2((127 - i) as nat),
            done == (b as int) / (pow2((128 - i) as nat) as int),
            0 <= done <= b,
            q as int * c as int + r as int == a as int * done,
            r < c,
            a as int == c as int * aq as int + ar as int,
            ar < c,
            c > 0,
        decreases 128 - i,
    {
        let ghost s = (127 - i) as nat;
        proof {
            lemma_pow2_unfold(s + 1);
            vstd::arithmetic::power2::lemma_pow2_pos(s);
            lemma_div_denominator(b as int, pow2(s) as int, 2);
            lemma_fundamental_div_mod((b as int) / (pow2(s) as int), 2);
            lemma_fundamental_div_mod(b as int, pow2(s) as int);
        }
        let bit = (b / p) % 2;
        let ghost done2 = 2 * done + bit as int;
        proof {
            assert(done2 == (b as int) / (pow2(s) as int));
            assert(0 <= done2 <= b) by (nonlinear_arith)
                requires
                    b as int == pow2(s) * done2 + (b as int) % (pow2(s) as int),
                    0 <= (b as int) % (pow2(s) as int),
                    pow2(s) >= 1,
                    done2 >= 0,
            ;
        }
        let ghost r1: int = if r >= c - r { r - (c - r) } else { r + r };
        let ghost k1: int = if r >= c - r { 1 } else { 0 };
        let ghost r2: int = if bit == 1 { if r1 >= c - ar { r1 - (c - ar) } else { r1 + ar } } else { r1 };
        let ghost k2: int = if bit == 1 && r1 >= c - ar { 1 } else { 0 };
        let ghost q_new: int = 2 * q + k1 + bit * aq + k2;
        proof {
            lemma_division_step(
                a as int,
                c as int,
                aq as int,
                ar as int,
                done,
                bit as int,
                q as int,
                r as int,
                q_new,
                r2,
            );
            lemma_fundamental_div_mod_converse(a as int * done2, c as int, q_new, r2);
            assert(a as int * done2 <= a as int * b as int) by (nonlinear_arith)
                requires
                    done2 <= b,
                    a >= 0,
            ;
            lemma_div_is_ordered(a as int * done2, a as int * b as int, c as int);
            assert(q_new >= 0) by (nonlinear_arith)
                requires
                    q >= 0,
                    k1 >= 0,
                    k2 >= 0,
                    bit >= 0,
                    aq >= 0,
                    q_new == 2 * q + k1 + bit * aq + k2,
            ;
        }
        let ghost q0 = q as int;
        q = match q.checked_mul(2) {
            Some(v) => v,
            None => return None,
        };
        if r >= c - r {
            r = r - (c - r);
            q = match q.checked_add(1) {
                Some(v) => v,
                None => return None,
            };
        } else {
            r = r + r;
        }
        assert(q as int == 2 * q0 + k1);
        assert(r as int == r1);
        if bit == 1 {
            q = match q.checked_add(aq) {
                Some(v) => v,
                None => {
                    assert(q_new >= 2 * q0 + k1 + aq);
                    return None;
                },
            };
            if r >= c - ar {
                r = r - (c - ar);
                q = match q.checked_add(1) {
                    Some(v) => v,
                    None => {
                        assert(q_new == 2 * q0 + k1 + aq + 1);
                        return None;
                    },
                };
            } else {
                r = r + ar;
            }
        }
        proof {
            done = done2;
        }
        i = i + 1;
        if i < 128 {
            proof {
                lemma_pow2_unfold(s);
            }
            p = p / 2;
        }
    }
    proof {
        assert((b as int) / 1 == b as int);
    }
    proof {
        lemma_fundamental_div_mod_converse(a as int * b as int, c as int, q as int, r as int);
    }
    Some((q, r))
}

proof fn lemma_ceil_from_floor(p: int, c: int)
    requires
        p >= 0,
        c > 0,
    ensures
        (p + c - 1) / c == p / c + (if p % c == 0 { 0int } else { 1int }),
{
    lemma_fundamental_div_mod(p, c);
    let q = p / c;
    let r = p % c;
    assert(p == q * c + r) by (nonlinear_arith)
        requires
            p == c * q + r,
    ;
    if r == 0 {
        lemma_fundamental_div_mod_converse(p + c - 1, c, q, c - 1);
    } else {
        assert(p + c - 1 == (q + 1) * c + (r - 1)) by (nonlinear_arith)
            requires
                p == q * c + r,
        ;
        lemma_fundamental_div_mod_converse(p + c - 1, c, q + 1, r - 1);
    }
}

/// `a * b / c` rounded down.
pub fn checked_mul_div(a: u128, b: u128, c: u128) -> (r: Option<u128>)
    ensures
        r == checked_ratio(a as int, b as int, c as int, Rounding::Down),
{
    if c == 0 {
        return None;
    }
    match mul_div_rem(a, b, c) {
        Some((q, _)) => Some(q),
        None => None,
    }
}

/// `a * b / c` rounded up.
pub fn checked_mul_div_ceil(a: u128, b: u128, c: u128) -> (r: Option<u128>)
    ensures
        r == checked_ratio(a as int, b as int, c as int, Rounding::Up),
{
    if c == 0 {
        return None;
    }
    proof {
        assert((a as int) * (b as int) >= 0) by (nonlinear_arith);
        lemma_ceil_from_floor((a as int) * (b as int), c as int);
    }
    match mul_div_rem(a, b, c) {
        Some((q, rem)) => if rem == 0 {
            Some(q)
        } else {
            q.checked_add(1)
        },
        None => None,
    }
}

/// Direction in which a ratio is rounded: in favour of the pool or of the user.
#[derive(Clone, Copy, Debug, PartialEq, Eq, Structural)]
pub enum Rounding {
    Down,
    Up,
}

/// `a * b / c` rounded as `rounding` says.
pub open spec fn ratio_rounded(a: int, b: int, c: int, rounding: Rounding) -> int {
    match rounding {
        Rounding::Down => ratio_floor(a, b, c),
        Rounding::Up => ratio_ceil(a, b, c),
    }
}

/// `a * b / c` rounded as `rounding` says.
pub fn multiply_by_rational(a: u128, b: u128, c: u128, rounding: Rounding) -> (r: Option<u128>)
    ensures
        r == checked_ratio(a as int, b as int, c as int, rounding),
{
    match rounding {
        Rounding::Down => checked_mul_div(a, b, c),
        Rounding::Up => checked_mul_div_ceil(a, b, c),
    }
}

proof fn lemma_fraction_bounded(x: int, p: int, d: int)
    requires
        x >= 0,
        0 <= p <= d,
        d > 0,
    ensures
        0 <= ratio_floor(x, p, d) <= ratio_ceil(x, p, d) <= x,
{
    assert(0 <= x * p <= x * d) by (nonlinear_arith)
        requires
            x >= 0,
            0 <= p <= d,
    ;
    lemma_ceil_from_floor(x * p, d);
    lemma_fundamental_div_mod(x * p, d);
    lemma_fundamental_div_mod(x * d, d);
    assert((x * d) / d == x) by {
        lemma_fundamental_div_mod_converse(x * d, d, x, 0);
    }
    assert(ratio_ceil(x, p, d) <= x) by (nonlinear_arith)
        requires
            x * p == d * ((x * p) / d) + (x * p) % d,
            0 <= (x * p) % d < d,
            x * p <= x * d,
            ratio_ceil(x, p, d) == (x * p) / d + (if (x * p) % d == 0 { 0int } else { 1int }),
            d > 0,
    ;
    assert(0 <= ratio_floor(x, p, d)) by (nonlinear_arith)
        requires
            x * p == d * ((x * p) / d) + (x * p) % d,
            0 <= (x * p) % d < d,
            x * p >= 0,
            d > 0,
    ;
}

/// A fraction in parts per million, at most one whole.
#[derive(Clone, Copy, Debug, PartialEq, Eq, Structural)]
pub struct Permill {
    pub parts: u32,
}

impl Permill {
    pub open spec fn wf(self) -> bool {
        self.parts <= PERMILL_ACCURACY
    }

    /// The fraction of `parts` per million, capped at one whole.
    pub fn from_parts(parts: u32) -> (r: Permill)
        ensures
            r.wf(),
            r.parts == if parts <= PERMILL_ACCURACY { parts } else { PERMILL_ACCURACY },
    {
        if parts <= PERMILL_ACCURACY {
            Permill { parts }
        } else {
            Permill { parts: PERMILL_ACCURACY }
        }
    }

    /// `percent` per cent, capped at one whole.
    pub fn from_percent(percent: u32) -> (r: Permill)
        ensures
            r.wf(),
            r.parts == if percent <= 100 { percent * 10_000 } else { PERMILL_ACCURACY as int },
    {
        if percent <= 100 {
            Permill { parts: percent * 10_000 }
        } else {
            Permill { parts: PERMILL_ACCURACY }
        }
    }

    /// The fraction `n / d` rounded down to whole parts per million; `None`
    /// when `d` is zero or `n > d`.
    pub fn from_rational(n: u32, d: u32) -> (r: Option<Permill>)
        ensures
            match r {
                Some(p) => d > 0 && n <= d && p.wf() && p.parts == ratio_floor(
                    n as int,
                    PERMILL_ACCURACY as int,
                    d as int,
                ),
                None => d == 0 || n > d,
            },
    {
        if d == 0 || n > d {
            return None;
        }
        proof {
            lemma_fraction_bounded(PERMILL_ACCURACY as int, n as int, d as int);
            assert(ratio_floor(PERMILL_ACCURACY as int, n as int, d as int) == ratio_floor(
                n as int,
                PERMILL_ACCURACY as int,
                d as int,
            )) by (nonlinear_arith);
        }
        let v = checked_mul_div(n as u128, PERMILL_ACCURACY as u128, d as u128);
        match v {
            Some(v) => Some(Permill { parts: v as u32 }),
            None => None,
        }
    }

    pub fn is_zero(&self) -> (r: bool)
        ensures
            r == (self.parts == 0),
    {
        self.parts == 0
    }

    /// One whole minus this fraction.
    pub fn complement(&self) -> (r: Permill)
        requires
            self.wf(),
        ensures
            r.wf(),
            r.parts == PERMILL_ACCURACY - self.parts,
    {
        Permill { parts: PERMILL_ACCURACY - self.parts }
    }

    /// This fraction of `x`, rounded down.
    pub fn mul_floor(&self, x: u128) -> (r: u128)
        requires
            self.wf(),
        ensures
            r == ratio_floor(x as int, self.parts as int, PERMILL_ACCURACY as int),
            r <= x,
    {
        proof {
            lemma_fraction_bounded(x as int, self.parts as int, PERMILL_ACCURACY as int);
        }
        match checked_mul_div(x, self.parts as u128, PERMILL_ACCURACY as u128) {
            Some(v) => v,
            None => 0,
        }
    }

    /// This fraction of `x`, rounded up.
    pub fn mul_ceil(&self, x: u128) -> (r: u128)
        requires
            self.wf(),
        ensures
            r == ratio_ceil(x as int, self.parts as int, PERMILL_ACCURACY as int),
            r <= x,
    {
        proof {
            lemma_fraction_bounded(x as int, self.parts as int, PERMILL_ACCURACY as int);
        }
        match checked_mul_div_ceil(x, self.parts as u128, PERMILL_ACCURACY as u128) {
            Some(v) => v,
            None => 0,
        }
    }

    /// This fraction as an 18-decimal fixed-point number.
    pub fn to_price(&self) -> (r: Price)
        requires
            self.wf(),
        ensures
            r.inner == self.parts * 1_000_000_000_000,
    {
        Price { inner: self.parts as u128 * 1_000_000_000_000 }
    }
}

/// A fraction in per cent, at most one whole.
#[derive(Clone, Copy, Debug, PartialEq, Eq, Structural)]
pub struct Percent {
    pub parts: u8,
}

impl Percent {
    pub open spec fn wf(self) -> bool {
        self.parts <= PERCENT_ACCURACY
    }

    /// `percent` per cent, capped at one whole.
    pub fn from_percent(percent: u8) -> (r: Percent)
        ensures
            r.wf(),
            r.parts == if percent <= PERCENT_ACCURACY { percent } else { PERCENT_ACCURACY },
    {
        if percent <= PERCENT_ACCURACY {
            Percent { parts: percent }
        } else {
            Percent { parts: PERCENT_ACCURACY }
        }
    }

    pub fn is_zero(&self) -> (r: bool)
        ensures
            r == (self.parts == 0),
    {
        self.parts == 0
    }

    /// This fraction of `x`, rounded down.
    pub fn mul_floor(&self, x: u128) -> (r: u128)
        requires
            self.wf(),
        ensures
            r == ratio_floor(x as int, self.parts as int, PERCENT_ACCURACY as int),
            r <= x,
    {
        proof {
            lemma_fraction_bounded(x as int, self.parts as int, PERCENT_ACCURACY as int);
        }
        match checked_mul_div(x, self.parts as u128, PERCENT_ACCURACY as u128) {
            Some(v) => v,
            None => 0,
        }
    }
}

/// An unsigned fixed-point number with 18 decimals: `inner / 10^18`.
#[derive(Clone, Copy, Debug, PartialEq, Eq, Structural)]
pub struct Price {
    pub inner: u128,
}

impl Price {
    pub fn from_inner(inner: u128) -> (r: Price)
        ensures
            r.inner == inner,
    {
        Price { inner }
    }

    /// The whole number `n`; `None` when it does not fit.
    pub fn checked_from_integer(n: u128) -> (r: Option<Price>)
        ensures
            match r {
                Some(p) => p.inner == n * PRICE_ACCURACY,
                None => n * PRICE_ACCURACY > u128::MAX,
            },
    {
        match n.checked_mul(PRICE_ACCURACY) {
            Some(v) => Some(Price { inner: v }),
            None => None,
        }
    }

    /// `n / d` rounded down to 18 decimals.
    pub fn checked_from_rational(n: u128, d: u128) -> (r: Option<Price>)
        ensures
            match checked_ratio(n as int, PRICE_ACCURACY as int, d as int, Rounding::Down) {
                Some(v) => r == Some(Price { inner: v }),
                None => r is None,
            },
    {
        match checked_mul_div(n, PRICE_ACCURACY, d) {
            Some(v) => Some(Price { inner: v }),
            None => None,
        }
    }

    pub fn is_zero(&self) -> (r: bool)
        ensures
            r == (self.inner == 0),
    {
        self.inner == 0
    }

    /// This number times the integer `x`, rounded down; `None` when the
    /// product does not fit in 128 bits.
    pub fn checked_mul_int(&self, x: u128) -> (r: Option<u128>)
        ensures
            r == checked_ratio(self.inner as int, x as int, PRICE_ACCURACY as int, Rounding::Down),
    {
        checked_mul_div(self.inner, x, PRICE_ACCURACY)
    }
}

} // verus!
