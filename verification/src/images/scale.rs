//! Scaling lengths by a ratio, as IEEE double precision does it.
//!
//! A length is scaled in two steps: the ratio of two lengths is rounded to the
//! nearest number with 53 significant bits, and so is its product with the
//! length. Both steps are carried out here on whole numbers, so the result is
//! that of the floating-point unit to the last bit.

use vstd::prelude::*;

verus! {

/// Numbers of 53 significant bits are below this.
pub const BITS_53: u128 = 0x20_0000_0000_0000;

/// The whole number nearest to `num / den`; of two, the even one.
pub open spec fn nearest(num: int, den: int) -> int {
    let q = num / den;
    let r = num % den;
    if 2 * r < den || (2 * r == den && q % 2 == 0) {
        q
    } else {
        q + 1
    }
}

/// `num / den` doubled, numerator and denominator, until the numerator is `lim`
/// at least.
pub open spec fn widened(num: int, den: int, lim: int) -> (int, int)
    decreases 2 * lim - num,
{
    if num >= lim || num <= 0 {
        (num, den)
    } else {
        widened(2 * num, 2 * den, lim)
    }
}

/// The double nearest to `a / b`, as a fraction.
pub open spec fn quotient(a: int, b: int) -> (int, int) {
    let (num, den) = widened(a, 1, b * (BITS_53 / 2));
    (nearest(num, b), den)
}

/// The power of two, `u` or more, in which `p` counts fewer than 53 bits' worth.
pub open spec fn unit(p: int, u: int) -> int
    decreases 2 * p - BITS_53 * u,
{
    if u <= 0 || p < BITS_53 * u {
        u
    } else {
        unit(p, 2 * u)
    }
}

/// The number with 53 significant bits nearest to `p`.
pub open spec fn rounded(p: int) -> int {
    nearest(p, unit(p, 1)) * unit(p, 1)
}

/// The double nearest to `d` times the double nearest to `a / b`, as a fraction.
pub open spec fn product(d: int, a: int, b: int) -> (int, int) {
    let (m, den) = quotient(a, b);
    (rounded(d * m), den)
}

/// `d` scaled by `a / b`, rounded down.
pub open spec fn scaled_floor(d: int, a: int, b: int) -> int {
    product(d, a, b).0 / product(d, a, b).1
}

/// `d` scaled by `a / b`, rounded up.
pub open spec fn scaled_ceil(d: int, a: int, b: int) -> int {
    (product(d, a, b).0 + product(d, a, b).1 - 1) / product(d, a, b).1
}

/// `d` scaled by `a / b`, rounded to the nearest whole number, halves up.
pub open spec fn scaled_round(d: int, a: int, b: int) -> int {
    (2 * product(d, a, b).0 + product(d, a, b).1) / (2 * product(d, a, b).1)
}

/// A ratio of two lengths, rounded to a double.
#[derive(Clone, Copy)]
pub struct Ratio {
    a: u32,
    b: u32,
    numerator: u128,
    denominator: u128,
}

fn nearest_of(num: u128, den: u128) -> (r: u128)
    requires
        0 < den <= 0x1_0000_0000_0000_0000_0000_0000,
        num <= 0x1_0000_0000_0000_0000_0000_0000,
    ensures
        r == nearest(num as int, den as int),
        r <= num + 1,
{
    let q: u128 = num / den;
    let rem: u128 = num % den;
    assert(q <= num) by (nonlinear_arith)
        requires
            q == num / den,
            den > 0,
    ;
    if 2 * rem < den || (2 * rem == den && q % 2 == 0) {
        q
    } else {
        q + 1
    }
}

proof fn lemma_nearest(num: int, den: int)
    requires
        num >= 0,
        den > 0,
    ensures
        2 * den * nearest(num, den) <= 2 * num + den,
        2 * num <= 2 * den * nearest(num, den) + den,
        0 <= nearest(num, den),
{
    let q = num / den;
    let r = num % den;
    assert(num == den * q + r && 0 <= r < den && q >= 0) by (nonlinear_arith)
        requires
            q == num / den,
            r == num % den,
            den > 0,
            num >= 0,
    ;
    assert(2 * den * q == 2 * (den * q)) by (nonlinear_arith);
    assert(2 * den * (q + 1) == 2 * (den * q) + 2 * den) by (nonlinear_arith);
}

proof fn lemma_widened(num: int, den: int, lim: int)
    requires
        0 < num < 2 * lim,
        0 < den,
    ensures
        lim <= widened(num, den, lim).0 < 2 * lim,
        0 < widened(num, den, lim).1,
        widened(num, den, lim).0 * den == num * widened(num, den, lim).1,
    decreases 2 * lim - num,
{
    if num < lim {
        lemma_widened(2 * num, 2 * den, lim);
        let (n, d) = widened(num, den, lim);
        assert(n * den == num * d) by (nonlinear_arith)
            requires
                n * (2 * den) == (2 * num) * d,
        ;
    }
}

/// The two steps of a quotient: `num / den` is `a / b` blown up, and the
/// quotient is within half of it.
proof fn lemma_quotient(a: int, b: int)
    requires
        0 < a < 0x1_0000_0000,
        0 < b < 0x1_0000_0000,
    ensures
        quotient(a, b).1 > 0,
        quotient(a, b).0 > 0,
        b * (BITS_53 / 2) <= a * quotient(a, b).1 < b * BITS_53,
        2 * b * quotient(a, b).0 <= 2 * (a * quotient(a, b).1) + b,
        2 * (a * quotient(a, b).1) <= 2 * b * quotient(a, b).0 + b,
        quotient(a, b).0 <= BITS_53,
        quotient(a, b).1 <= b * BITS_53,
{
    let half = BITS_53 / 2;
    let lim = b * half;
    assert(a < 2 * lim) by (nonlinear_arith)
        requires
            lim == b * half,
            half == 0x10_0000_0000_0000,
            b >= 1,
            a < 0x1_0000_0000,
    ;
    lemma_widened(a, 1, lim);
    let (num, den) = widened(a, 1, lim);
    assert(num == a * den);
    lemma_nearest(num, b);
    let m = nearest(num, b);
    assert(2 * lim == b * BITS_53) by (nonlinear_arith)
        requires
            lim == b * half,
            2 * half == BITS_53,
    ;
    assert(m <= BITS_53) by (nonlinear_arith)
        requires
            2 * b * m <= 2 * num + b,
            num < b * BITS_53,
            b > 0,
    ;
    assert(m > 0) by (nonlinear_arith)
        requires
            2 * num <= 2 * b * m + b,
            num >= b * half,
            half == 0x10_0000_0000_0000,
            b > 0,
    ;
    assert(den <= a * den) by (nonlinear_arith)
        requires
            a >= 1,
            den > 0,
    ;
}

proof fn lemma_unit(p: int, u: int)
    requires
        p >= 0,
        u > 0,
        u == 1 || (BITS_53 / 2) * u <= p,
    ensures
        unit(p, u) >= u,
        unit(p, u) == 1 || (BITS_53 / 2) * unit(p, u) <= p,
    decreases 2 * p - BITS_53 * u,
{
    if p >= BITS_53 * u {
        lemma_unit(p, 2 * u);
    }
}

/// Rounding changes a number by less than one part in 2^53.
proof fn lemma_rounded(p: int)
    requires
        p >= 0,
    ensures
        0 <= rounded(p),
        BITS_53 * rounded(p) <= (BITS_53 + 1) * p,
        (BITS_53 - 1) * p <= BITS_53 * rounded(p),
{
    let u = unit(p, 1);
    lemma_unit(p, 1);
    lemma_nearest(p, u);
    let n = nearest(p, u);
    assert(2 * (n * u) <= 2 * p + u) by (nonlinear_arith)
        requires
            2 * u * n <= 2 * p + u,
    ;
    assert(2 * p <= 2 * (n * u) + u) by (nonlinear_arith)
        requires
            2 * p <= 2 * u * n + u,
    ;
    assert(0 <= n * u) by (nonlinear_arith)
        requires
            n >= 0,
            u > 0,
    ;
    if u == 1 {
        assert(nearest(p, 1) == p);
    }
}

/// A length below `b`, scaled by `a / b`, stays below `a`, where that is no
/// smaller than `b`.
pub proof fn lemma_scaled_below(d: int, a: int, b: int)
    requires
        0 <= d < b <= a < 0x1_0000_0000,
    ensures
        product(d, a, b).1 > 0,
        0 <= product(d, a, b).0,
        scaled_floor(d, a, b) < a,
        0 <= scaled_floor(d, a, b),
{
    lemma_quotient(a, b);
    let (m, den) = quotient(a, b);
    let x = a * den;
    let p = d * m;
    assert(p >= 0) by (nonlinear_arith)
        requires
            d >= 0,
            m > 0,
            p == d * m,
    ;
    lemma_rounded(p);
    let r = rounded(p);
    let bx = b * x;
    // Twice b p is at most (b - 1)(2 x + b).
    assert(2 * (b * p) <= 2 * bx - 2 * x + b * b) by (nonlinear_arith)
        requires
            p == d * m,
            d <= b - 1,
            d >= 0,
            2 * b * m <= 2 * x + b,
            x >= 0,
            b > 0,
            bx == b * x,
            m > 0,
    {
        assert(2 * (b * p) == d * (2 * b * m));
        assert(d * (2 * b * m) <= d * (2 * x + b));
        assert(d * (2 * x + b) <= (b - 1) * (2 * x + b));
        assert((b - 1) * (2 * x + b) == 2 * (b * x) - 2 * x + b * b - b);
    }
    assert(b * b <= 0x1_0000_0000 * b) by (nonlinear_arith)
        requires
            0 < b < 0x1_0000_0000,
    ;
    assert(bx <= 0x1_0000_0000 * x) by (nonlinear_arith)
        requires
            bx == b * x,
            0 < b < 0x1_0000_0000,
            x >= 0,
    ;
    assert(r < x) by {
        if r >= x {
            assert(BITS_53 * x <= (BITS_53 + 1) * p);
            assert(2 * BITS_53 * bx <= (BITS_53 + 1) * (2 * (b * p))) by (nonlinear_arith)
                requires
                    BITS_53 * x <= (BITS_53 + 1) * p,
                    b > 0,
                    bx == b * x,
            ;
            let bp = b * p;
            assert(b * 0x10_0000_0000_0000 <= x);
            assert(2 * 0x20_0000_0000_0000 * bx <= 0x20_0000_0000_0001 * (2 * bp));
            assert(2 * bp <= 2 * bx - 2 * x + 0x1_0000_0000 * b);
            assert(x > 0);
        }
    }
    assert(r / den < a && 0 <= r / den) by (nonlinear_arith)
        requires
            0 <= r < a * den,
            den > 0,
    ;
}

/// A length scaled by a ratio below one does not grow.
pub proof fn lemma_scaled_shrinks(d: int, a: int, b: int)
    requires
        0 <= d < 0x1_0000_0000,
        0 < a < b < 0x1_0000_0000,
    ensures
        product(d, a, b).1 > 0,
        0 <= product(d, a, b).0,
        0 <= scaled_round(d, a, b) <= d,
{
    lemma_quotient(a, b);
    let (m, den) = quotient(a, b);
    let p = d * m;
    assert(m <= den) by (nonlinear_arith)
        requires
            2 * b * m <= 2 * (a * den) + b,
            a <= b - 1,
            b * 0x10_0000_0000_0000 <= a * den,
            0 < b < 0x1_0000_0000,
            den > 0,
            a > 0,
    {
        assert(a * den <= b * den - den);
        assert(b <= den) by (nonlinear_arith)
            requires
                b * 0x10_0000_0000_0000 <= a * den,
                a < 0x1_0000_0000,
                a > 0,
                b > 0,
                den > 0,
        ;
    }
    assert(0 <= p <= d * den) by (nonlinear_arith)
        requires
            d >= 0,
            0 < m <= den,
            p == d * m,
    ;
    lemma_rounded(p);
    let r = rounded(p);
    let dd = d * den;
    assert(dd <= 0x1_0000_0000 * den) by (nonlinear_arith)
        requires
            dd == d * den,
            d < 0x1_0000_0000,
            den > 0,
    ;
    assert(2 * r < 2 * dd + den);
    assert((2 * r + den) / (2 * den) <= d && 0 <= (2 * r + den) / (2 * den)) by (nonlinear_arith)
        requires
            0 <= r,
            2 * r < 2 * dd + den,
            dd == d * den,
            den > 0,
    ;
}

/// A length of at most `b`, scaled by `a / b`, comes to `a` at most, and `b`
/// itself to `a`.
pub proof fn lemma_scaled_within(d: int, a: int, b: int)
    requires
        0 <= d <= b,
        0 < a < 0x1_0000_0000,
        0 < b < 0x1_0000_0000,
    ensures
        0 <= scaled_round(d, a, b) <= a,
        scaled_round(b, a, b) == a,
{
    lemma_quotient(a, b);
    let (m, den) = quotient(a, b);
    let x = a * den;
    let p = d * m;
    let top = b * m;
    assert(0 <= p <= top) by (nonlinear_arith)
        requires
            0 <= d <= b,
            m > 0,
            p == d * m,
            top == b * m,
    ;
    assert(2 * b * m == 2 * top) by (nonlinear_arith)
        requires
            top == b * m,
    ;
    lemma_rounded(p);
    lemma_rounded(top);
    let r = rounded(p);
    let t = rounded(top);
    assert(x <= 0x1_0000_0000 * den) by (nonlinear_arith)
        requires
            x == a * den,
            a < 0x1_0000_0000,
            den > 0,
    ;
    assert(b * 0x10_0000_0000_0000 <= x);
    assert(2 * r < 2 * x + den);
    assert(2 * t < 2 * x + den);
    assert(2 * x <= 2 * t + den);
    assert(0 <= (2 * r + den) / (2 * den) <= a) by (nonlinear_arith)
        requires
            0 <= r,
            2 * r < 2 * x + den,
            x == a * den,
            den > 0,
    ;
    assert((2 * t + den) / (2 * den) == a) by (nonlinear_arith)
        requires
            2 * t < 2 * x + den,
            2 * x <= 2 * t + den,
            x == a * den,
            den > 0,
    ;
}

/// What a scaled length may be off by, as a part of one: one in so many.
pub const FINENESS: u32 = 0x8_0000;

/// A length of at most `b`, scaled by `a / b`, comes as near to the exact value as
/// makes no difference: rounding moves it by one part in [`FINENESS`] of one at
/// most.
pub proof fn lemma_scaled_near(d: int, a: int, b: int)
    requires
        0 <= d <= b < 0x1_0000_0000,
        0 < a < 0x1_0000_0000,
        0 < b,
    ensures
        product(d, a, b).1 > 0,
        0 <= product(d, a, b).0,
        FINENESS * (product(d, a, b).0 * b - d * a * product(d, a, b).1) <= b * product(d, a, b).1,
        FINENESS * (d * a * product(d, a, b).1 - product(d, a, b).0 * b) <= b * product(d, a, b).1,
{
    lemma_quotient(a, b);
    let (m, den) = quotient(a, b);
    let p = d * m;
    let exact = d * a * den;
    assert(p >= 0) by (nonlinear_arith)
        requires
            d >= 0,
            m > 0,
            p == d * m,
    ;
    lemma_rounded(p);
    let r = rounded(p);
    // The quotient is off by half a unit, d times.
    assert(2 * (b * p) <= 2 * exact + d * b && 2 * exact <= 2 * (b * p) + d * b)
        by (nonlinear_arith)
        requires
            p == d * m,
            d >= 0,
            exact == d * a * den,
            2 * b * m <= 2 * (a * den) + b,
            2 * (a * den) <= 2 * b * m + b,
    {
        assert(d * (2 * b * m) <= d * (2 * (a * den) + b));
        assert(d * (2 * (a * den)) <= d * (2 * b * m + b));
        assert(d * (2 * b * m) == 2 * (b * p));
        assert(d * (2 * (a * den)) == 2 * exact);
        assert(d * (2 * (a * den) + b) == 2 * exact + d * b);
        assert(d * (2 * b * m + b) == 2 * (b * p) + d * b);
    }
    let bb = b * b;
    assert(d * b <= bb) by (nonlinear_arith)
        requires
            0 <= d <= b,
            bb == b * b,
    ;
    let bp = b * p;
    assert(bp <= bb * 0x20_0000_0000_0000) by (nonlinear_arith)
        requires
            bp == b * p,
            p == d * m,
            0 <= d <= b,
            0 < m <= 0x20_0000_0000_0000,
            bb == b * b,
            b > 0,
    {
        assert(d * m <= b * 0x20_0000_0000_0000);
        assert(b * (d * m) <= b * (b * 0x20_0000_0000_0000));
    }
    let br = r * b;
    assert(0x20_0000_0000_0000 * br <= 0x20_0000_0000_0001 * bp && 0x1f_ffff_ffff_ffff * bp
        <= 0x20_0000_0000_0000 * br) by (nonlinear_arith)
        requires
            0x20_0000_0000_0000 * r <= 0x20_0000_0000_0001 * p,
            0x1f_ffff_ffff_ffff * p <= 0x20_0000_0000_0000 * r,
            b > 0,
            br == r * b,
            bp == b * p,
    ;
    // The denominator is much larger than b.
    let bd = b * den;
    assert(bb * 0x10_0000 <= bd) by (nonlinear_arith)
        requires
            b * 0x10_0000_0000_0000 <= a * den,
            a < 0x1_0000_0000,
            a > 0,
            b > 0,
            den > 0,
            bb == b * b,
            bd == b * den,
    {
        assert(a * den <= 0x1_0000_0000 * den);
        assert(b * 0x10_0000 <= den);
        assert(b * (b * 0x10_0000) <= b * den);
    }
    assert(2 * (br - exact) <= 3 * bb);
    assert(2 * (exact - br) <= 3 * bb);
}

impl Ratio {
    /// The length above.
    pub closed spec fn over(self) -> int {
        self.a as int
    }

    /// The length below.
    pub closed spec fn under(self) -> int {
        self.b as int
    }

    /// Neither length is zero, and the quotient is theirs.
    pub closed spec fn well_formed(self) -> bool {
        &&& self.a > 0
        &&& self.b > 0
        &&& self.numerator == quotient(self.a as int, self.b as int).0
        &&& self.denominator == quotient(self.a as int, self.b as int).1
    }

    /// The ratio of `a` and `b`.
    pub fn new(a: u32, b: u32) -> (r: Ratio)
        requires
            a > 0,
            b > 0,
        ensures
            r.well_formed(),
            r.over() == a,
            r.under() == b,
    {
        proof {
            lemma_quotient(a as int, b as int);
        }
        let lim: u128 = b as u128 * (BITS_53 / 2);
        let mut num: u128 = a as u128;
        let mut den: u128 = 1;
        assert(num < 2 * lim);
        while num < lim
            invariant
                0 < den <= num < 2 * lim,
                lim <= 0x1_0000_0000 * BITS_53,
                widened(num as int, den as int, lim as int) == widened(a as int, 1, lim as int),
            decreases 2 * lim - num,
        {
            num = 2 * num;
            den = 2 * den;
        }
        Ratio { a, b, numerator: nearest_of(num, b as u128), denominator: den }
    }

    /// `d` times the ratio, rounded to a double, as a fraction.
    fn times(&self, d: u32) -> (r: (u128, u128))
        requires
            self.well_formed(),
        ensures
            r.0 == product(d as int, self.over(), self.under()).0,
            r.1 == product(d as int, self.over(), self.under()).1,
            0 < r.1 <= 0x1_0000_0000 * BITS_53,
            r.0 <= 0x4_0000_0000 * BITS_53,
    {
        proof {
            lemma_quotient(self.a as int, self.b as int);
        }
        let m: u128 = self.numerator;
        assert(d * m <= 0x1_0000_0000 * BITS_53) by (nonlinear_arith)
            requires
                d < 0x1_0000_0000,
                m <= BITS_53,
        ;
        assert(d * m >= 0) by (nonlinear_arith);
        let p: u128 = d as u128 * m;
        let mut u: u128 = 1;
        while p >= BITS_53 * u
            invariant
                p <= 0x1_0000_0000 * BITS_53,
                0 < u <= 0x2_0000_0000,
                unit(p as int, u as int) == unit(p as int, 1),
            decreases 2 * p - BITS_53 * u,
        {
            u = 2 * u;
        }
        let n = nearest_of(p, u);
        proof {
            lemma_nearest(p as int, u as int);
            assert(n * u <= 2 * p + 1) by (nonlinear_arith)
                requires
                    2 * u * n <= 2 * p + u,
                    u == 1 || u <= p,
                    u > 0,
            ;
            lemma_rounded(p as int);
        }
        (n * u, self.denominator)
    }

    /// `d` scaled, rounded down.
    pub fn floor(&self, d: u32) -> (r: u128)
        requires
            self.well_formed(),
        ensures
            r == scaled_floor(d as int, self.over(), self.under()),
    {
        let (num, den) = self.times(d);
        num / den
    }

    /// `d` scaled, rounded up.
    pub fn ceil(&self, d: u32) -> (r: u128)
        requires
            self.well_formed(),
        ensures
            r == scaled_ceil(d as int, self.over(), self.under()),
    {
        let (num, den) = self.times(d);
        (num + den - 1) / den
    }

    /// `d` scaled, rounded to the nearest whole number, halves up.
    pub fn round(&self, d: u32) -> (r: u128)
        requires
            self.well_formed(),
        ensures
            r == scaled_round(d as int, self.over(), self.under()),
    {
        let (num, den) = self.times(d);
        (2 * num + den) / (2 * den)
    }
}

} // verus!
