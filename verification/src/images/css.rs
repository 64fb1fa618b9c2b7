//! Lengths in CSS pixels.

use crate::numbers;
use crate::numbers::digits_from;
use crate::numbers::parse_u64;
use crate::text;
use crate::text::index_at;
use crate::text::lowered;
use crate::text::matches_at;
use crate::text::piece;
use crate::text::same;
use crate::text::split_at_char;
use crate::text::trimmed;
use crate::text::CharClass;
use vstd::prelude::*;

verus! {

/// Ten to the power of `n`.
pub open spec fn pow10(n: int) -> int
    decreases n,
{
    if n <= 0 {
        1
    } else {
        10 * pow10(n - 1)
    }
}

/// Two to the power of `n`.
pub open spec fn pow2(n: int) -> int
    decreases n,
{
    if n <= 0 {
        1
    } else {
        2 * pow2(n - 1)
    }
}

/// The digits of `f` from `i` on, as a number.
pub open spec fn digits_value(f: Seq<char>, i: int) -> int
    decreases f.len() - i,
{
    if i < 0 || i >= f.len() {
        0
    } else {
        (f[i] as u32 - 48) * pow10(f.len() - i - 1) + digits_value(f, i + 1)
    }
}

/// How fine a double is around `k` and a half: the distance to the half below
/// which a number is taken for it is this power of two's part of one half.
pub open spec fn fineness(k: int) -> int
    decreases k,
{
    if k <= 0 {
        54
    } else if k == 1 {
        52
    } else {
        fineness(k / 2) - 1
    }
}

/// Whether `k` and the decimal fraction `f` make half or more, once the sum is
/// rounded to a double.
pub open spec fn rounds_up(k: int, f: Seq<char>) -> bool {
    let one = pow10(f.len() as int);
    (one - 2 * digits_value(f, 0)) * pow2(fineness(k)) <= one
}

/// A decimal number rounded to a double and then to a whole number, halves up;
/// `None` where `s` is no decimal number, or the result is below one or takes
/// more than 32 bits.
pub open spec fn whole_pixels(s: Seq<char>) -> Option<int> {
    let (whole, f) = match text::index_from(s, '.', 0) {
        Some(i) => (s.take(i), s.skip(i + 1)),
        None => (s, Seq::empty()),
    };
    let k = numbers::value(whole) as int;
    let px = if rounds_up(k, f) {
        k + 1
    } else {
        k
    };
    if !numbers::all_digits(whole) || !numbers::all_digits(f) || whole.len() + f.len() == 0 {
        None
    } else if k <= u32::MAX && 1 <= px <= u32::MAX {
        Some(px)
    } else {
        None
    }
}

/// `v` without the unit, in lower or upper case.
pub open spec fn without_unit(v: Seq<char>) -> Seq<char> {
    if text::ends_with(v, "px"@) || text::ends_with(v, "PX"@) {
        v.take(v.len() - 2)
    } else {
        v
    }
}

/// A length in CSS pixels: `640`, `640px`, `320.5px`. Percentages, `auto` and
/// other units are `None`.
pub open spec fn css_pixels(v: Seq<char>) -> Option<int> {
    whole_pixels(text::trim(without_unit(text::trim(v, CharClass::Space)), CharClass::Space))
}

/// The value of `decl` where it declares `prop`.
pub open spec fn declared(decl: Seq<char>, prop: Seq<char>) -> Option<int> {
    match text::index_from(decl, ':', 0) {
        Some(i) => if text::lowercase(text::trim(decl.take(i), CharClass::Space)) == prop {
            css_pixels(decl.skip(i + 1))
        } else {
            None
        },
        None => None,
    }
}

/// The first length that one of `decls`, from `i` on, declares `prop` to be.
pub open spec fn first_declared(decls: Seq<Seq<char>>, prop: Seq<char>, i: int) -> Option<int>
    decreases decls.len() - i,
{
    if i < 0 || i >= decls.len() {
        None
    } else if declared(decls[i], prop) is Some {
        declared(decls[i], prop)
    } else {
        first_declared(decls, prop, i + 1)
    }
}

/// The length that an inline style gives `prop`.
pub open spec fn style_pixels(style: Seq<char>, prop: Seq<char>) -> Option<int> {
    first_declared(text::split(style, ';'), prop, 0)
}

// ---------------------------------------------------------------------------
// Fractions
// ---------------------------------------------------------------------------

/// The number that the digits from `i` on stand for.
spec fn number(d: Seq<u8>, i: int) -> int
    decreases d.len() - i,
{
    if i < 0 || i >= d.len() {
        0
    } else {
        d[i] * pow10(d.len() - i - 1) + number(d, i + 1)
    }
}

spec fn is_decimal(d: Seq<u8>) -> bool {
    forall|i: int| 0 <= i < d.len() ==> #[trigger] d[i] < 10
}

proof fn lemma_number_bound(d: Seq<u8>, i: int)
    requires
        is_decimal(d),
        0 <= i <= d.len(),
    ensures
        0 <= number(d, i) < pow10(d.len() - i),
    decreases d.len() - i,
{
    if i < d.len() {
        lemma_number_bound(d, i + 1);
        let p = pow10(d.len() - i - 1);
        let x = d[i] as int;
        assert(pow10(d.len() - i) == 10 * p);
        assert(0 <= x * p <= 9 * p) by (nonlinear_arith)
            requires
                0 <= x <= 9,
                p > 0,
        ;
    }
}

/// Digits that are alike from `i` on stand for the same number there.
proof fn lemma_number_same(d: Seq<u8>, e: Seq<u8>, i: int)
    requires
        d.len() == e.len(),
        0 <= i,
        forall|j: int| i <= j < d.len() ==> d[j] == e[j],
    ensures
        number(d, i) == number(e, i),
    decreases d.len() - i,
{
    if i < d.len() {
        lemma_number_same(d, e, i + 1);
    }
}

/// Doubles a run of digits; whether a one is carried out of it.
fn double(d: &mut Vec<u8>) -> (carried: bool)
    requires
        is_decimal(old(d)@),
    ensures
        is_decimal(final(d)@),
        final(d)@.len() == old(d)@.len(),
        carried == (2 * number(old(d)@, 0) >= pow10(old(d)@.len() as int)),
        number(final(d)@, 0) == if carried {
            2 * number(old(d)@, 0) - pow10(old(d)@.len() as int)
        } else {
            2 * number(old(d)@, 0)
        },
{
    let ghost start = d@;
    let n: usize = d.len();
    let mut carry: u8 = 0;
    let mut i: usize = n;
    while i > 0
        invariant
            n == start.len(),
            i <= n,
            d@.len() == n,
            is_decimal(start),
            is_decimal(d@),
            carry <= 1,
            forall|j: int| 0 <= j < i ==> d@[j] == start[j],
            number(d@, i as int) + carry * pow10(n - i) == 2 * number(start, i as int),
        decreases i,
    {
        i -= 1;
        let ghost before = d@;
        let x: u8 = 2 * d[i] + carry;
        let ghost was = carry;
        let low: u8 = x % 10;
        carry = x / 10;
        d.set(i, low);
        proof {
            lemma_number_same(before, d@, i + 1);
            let p = pow10(n - i - 1);
            assert(pow10(n - i) == 10 * p);
            let a = start[i as int] as int;
            assert(x == 2 * a + was);
            assert(x == 10 * carry + low);
            assert(low * p + carry * (10 * p) == 2 * (a * p) + was * p) by (nonlinear_arith)
                requires
                    2 * a + was == 10 * carry + low,
            ;
        }
    }
    proof {
        lemma_number_bound(d@, 0);
        assert(carry * pow10(n as int) == if carry == 1 {
            pow10(n as int)
        } else {
            0
        });
    }
    carry == 1
}

proof fn lemma_pow10_positive(n: int)
    ensures
        pow10(n) > 0,
    decreases n,
{
    if n > 0 {
        lemma_pow10_positive(n - 1);
    }
}

proof fn lemma_pow2_positive(n: int)
    ensures
        pow2(n) > 0,
    decreases n,
{
    if n > 0 {
        lemma_pow2_positive(n - 1);
    }
}

proof fn lemma_fineness(k: int)
    requires
        k <= u32::MAX,
    ensures
        20 <= fineness(k) <= 54,
        k > 0 ==> fineness(k) <= 52,
{
    assert(pow2(32) == 0x1_0000_0000) by {
        reveal_with_fuel(pow2, 33);
    }
    lemma_fineness_within(k, 32);
}

proof fn lemma_fineness_within(k: int, bits: int)
    requires
        0 < bits,
        k < pow2(bits),
    ensures
        53 - bits <= fineness(k) <= 54,
        k > 0 ==> fineness(k) <= 52,
    decreases bits,
{
    reveal_with_fuel(pow2, 2);
    if k > 1 {
        if bits == 1 {
            assert(false);
        }
        lemma_fineness_within(k / 2, bits - 1);
    }
}

/// The fineness around `k` and a half.
fn fineness_of(k: u32) -> (r: u32)
    ensures
        r == fineness(k as int),
        20 <= r <= 54,
{
    proof {
        lemma_fineness(k as int);
    }
    if k == 0 {
        return 54;
    }
    let mut rest: u32 = k;
    let mut less: u32 = 0;
    while rest > 1
        invariant
            1 <= rest,
            less <= 52,
            20 <= fineness(k as int) <= 52,
            fineness(rest as int) - less == fineness(k as int),
            fineness(rest as int) <= 52,
        decreases rest,
    {
        proof {
            lemma_fineness((rest / 2) as int);
        }
        rest = rest / 2;
        less += 1;
    }
    52 - less
}

/// One more doubling, of the part that is missing of one.
proof fn lemma_doubling(g: int, one: int, m: int)
    requires
        0 <= g < one,
        m > 0,
    ensures
        2 * g >= one ==> ((one - g) * pow2(m) <= one) == ((one - (2 * g - one)) * pow2(m - 1)
            <= one),
        2 * g < one ==> (one - g) * pow2(m) > one,
{
    lemma_pow2_positive(m - 1);
    let q = pow2(m - 1);
    assert(pow2(m) == 2 * q);
    assert((one - g) * (2 * q) == (one - (2 * g - one)) * q) by (nonlinear_arith);
    if 2 * g < one {
        assert((one - g) * (2 * q) > one) by (nonlinear_arith)
            requires
                2 * g < one,
                q >= 1,
                g >= 0,
        ;
    }
}

proof fn lemma_same_digits(f: Seq<char>, d: Seq<u8>, i: int)
    requires
        f.len() == d.len(),
        0 <= i,
        forall|j: int| 0 <= j < f.len() ==> d[j] == f[j] as u32 - 48,
    ensures
        digits_value(f, i) == number(d, i),
    decreases f.len() - i,
{
    if i < f.len() {
        lemma_same_digits(f, d, i + 1);
    }
}

/// Whether `k` and the fraction `f` make half or more, as a double.
fn half_or_more(k: u32, f: &[char]) -> (r: bool)
    requires
        numbers::all_digits(f@),
    ensures
        r == rounds_up(k as int, f@),
{
    let mut d: Vec<u8> = Vec::new();
    let mut i: usize = 0;
    while i < f.len()
        invariant
            i <= f@.len(),
            d@.len() == i,
            numbers::all_digits(f@),
            forall|j: int| 0 <= j < i ==> #[trigger] d@[j] == f@[j] as u32 - 48 && d@[j] < 10,
        decreases f@.len() - i,
    {
        let c: char = f[i];
        assert(numbers::is_digit(f@[i as int]));
        d.push((c as u32 - 48) as u8);
        i += 1;
    }
    let ghost one = pow10(f@.len() as int);
    let m: u32 = fineness_of(k);
    proof {
        lemma_same_digits(f@, d@, 0);
        lemma_number_bound(d@, 0);
        lemma_pow2_positive(m as int);
    }
    let ghost twice = 2 * number(d@, 0);
    if double(&mut d) {
        assert((one - twice) * pow2(m as int) <= 0) by (nonlinear_arith)
            requires
                twice >= one,
                pow2(m as int) > 0,
        ;
        return true;
    }
    let mut left: u32 = m;
    while left > 0
        invariant
            left <= m,
            m == fineness(k as int),
            is_decimal(d@),
            d@.len() == f@.len(),
            one == pow10(f@.len() as int),
            ((one - number(d@, 0)) * pow2(left as int) <= one) == rounds_up(k as int, f@),
        decreases left,
    {
        proof {
            lemma_number_bound(d@, 0);
            lemma_doubling(number(d@, 0), one, left as int);
        }
        if !double(&mut d) {
            return false;
        }
        left -= 1;
    }
    proof {
        lemma_number_bound(d@, 0);
        assert(pow2(0) == 1);
    }
    true
}

// ---------------------------------------------------------------------------
// Lengths
// ---------------------------------------------------------------------------

proof fn lemma_no_plus(whole: Seq<char>)
    requires
        numbers::all_digits(whole),
        whole.len() > 0,
    ensures
        numbers::unsigned(whole) == Some(numbers::value(whole)),
{
    assert(numbers::is_digit(whole[0]));
}

fn pixels_of(s: &[char]) -> (r: Option<u32>)
    ensures
        match r {
            Some(px) => whole_pixels(s@) == Some(px as int),
            None => whole_pixels(s@) is None,
        },
{
    let n: usize = s.len();
    let (whole, f): (Vec<char>, Vec<char>) = match index_at(s, '.', 0) {
        Some(i) => {
            let whole = piece(s, 0, i);
            let f = piece(s, i + 1, n);
            assert(whole@ =~= s@.take(i as int));
            assert(f@ =~= s@.skip(i + 1));
            (whole, f)
        },
        None => {
            let whole = piece(s, 0, n);
            assert(whole@ =~= s@);
            let f: Vec<char> = Vec::new();
            assert(f@ =~= Seq::<char>::empty());
            (whole, f)
        },
    };
    assert(whole@.skip(0) =~= whole@);
    assert(f@.skip(0) =~= f@);
    if !digits_from(&whole, 0) || !digits_from(&f, 0) || (whole.len() == 0 && f.len() == 0) {
        return None;
    }
    let k: u64 = if whole.len() == 0 {
        0
    } else {
        proof {
            lemma_no_plus(whole@);
        }
        match parse_u64(&whole) {
            Some(k) => k,
            None => {
                return None;
            },
        }
    };
    if k > u32::MAX as u64 {
        return None;
    }
    let px: u64 = if half_or_more(k as u32, &f) {
        k + 1
    } else {
        k
    };
    if 1 <= px && px <= u32::MAX as u64 {
        Some(px as u32)
    } else {
        None
    }
}

/// A length in CSS pixels: `640`, `640px`, `320.5px`. Percentages, `auto` and
/// other units are `None`.
pub fn css_px(value: &[char]) -> (r: Option<u32>)
    ensures
        match r {
            Some(px) => css_pixels(value@) == Some(px as int),
            None => css_pixels(value@) is None,
        },
{
    let v = trimmed(value, CharClass::Space);
    proof {
        reveal_strlit("px");
        reveal_strlit("PX");
    }
    let n: usize = v.len();
    let lower: [char; 2] = ['p', 'x'];
    let upper: [char; 2] = ['P', 'X'];
    assert(lower@ =~= "px"@);
    assert(upper@ =~= "PX"@);
    let end: usize = if n >= 2 && (matches_at(&v, &lower, n - 2) || matches_at(&v, &upper, n - 2)) {
        n - 2
    } else {
        n
    };
    let num = piece(&v, 0, end);
    assert(num@ =~= without_unit(v@));
    let s = trimmed(&num, CharClass::Space);
    pixels_of(&s)
}

/// The length that an inline style gives `prop`, which is in lower case.
pub fn style_px(style: &[char], prop: &[char]) -> (r: Option<u32>)
    ensures
        match r {
            Some(px) => style_pixels(style@, prop@) == Some(px as int),
            None => style_pixels(style@, prop@) is None,
        },
{
    let decls = split_at_char(style, ';');
    let mut i: usize = 0;
    while i < decls.len()
        invariant
            i <= decls@.len(),
            text::views(decls@) == text::split(style@, ';'),
            style_pixels(style@, prop@) == first_declared(
                text::split(style@, ';'),
                prop@,
                i as int,
            ),
        decreases decls@.len() - i,
    {
        let decl = &decls[i];
        assert(text::split(style@, ';')[i as int] == decl@);
        let n: usize = decl.len();
        match index_at(decl, ':', 0) {
            Some(k) => {
                let key = piece(decl, 0, k);
                assert(key@ =~= decl@.take(k as int));
                if same(&lowered(&trimmed(&key, CharClass::Space)), prop) {
                    let value = piece(decl, k + 1, n);
                    assert(value@ =~= decl@.skip(k + 1));
                    let px = css_px(&value);
                    if px.is_some() {
                        return px;
                    }
                }
            },
            None => {},
        }
        i += 1;
    }
    None
}

} // verus!
