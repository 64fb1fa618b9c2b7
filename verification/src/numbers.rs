//! Decimal numbers in text.

use crate::text;
use crate::text::string_of;
use vstd::prelude::*;

verus! {

/// The decimal digit for `d`.
pub open spec fn digit(d: int) -> char
    recommends
        0 <= d < 10,
{
    ((48 + d) as u32) as char
}

/// Whether `c` is a decimal digit.
pub open spec fn is_digit(c: char) -> bool {
    '0' <= c <= '9'
}

/// Whether every character of `s` is a decimal digit.
pub open spec fn all_digits(s: Seq<char>) -> bool {
    forall|i: int| 0 <= i < s.len() ==> is_digit(#[trigger] s[i])
}

/// The number that a run of digits stands for.
pub open spec fn value(s: Seq<char>) -> nat
    decreases s.len(),
{
    if s.len() == 0 {
        0
    } else {
        value(s.drop_last()) * 10 + (s.last() as u32 - 48) as nat
    }
}

/// The digits of `n`, without zeros in front.
pub open spec fn dec(n: nat) -> Seq<char>
    decreases n,
{
    if n < 10 {
        seq![digit(n as int)]
    } else {
        dec(n / 10).push(digit((n % 10) as int))
    }
}

/// So many zeros.
pub open spec fn zeros(n: int) -> Seq<char> {
    Seq::new(
        if n > 0 {
            n as nat
        } else {
            0
        },
        |i: int| '0',
    )
}

/// The digits of `n`, with zeros in front where there are fewer than `width`.
pub open spec fn padded(n: nat, width: int) -> Seq<char> {
    zeros(width - dec(n).len()) + dec(n)
}

/// The unsigned number that `s` writes: one digit or more, perhaps behind a
/// plus sign.
pub open spec fn unsigned(s: Seq<char>) -> Option<nat> {
    let digits = if s.len() > 0 && s[0] == '+' {
        s.skip(1)
    } else {
        s
    };
    if digits.len() > 0 && all_digits(digits) {
        Some(value(digits))
    } else {
        None
    }
}

/// The unsigned number that `s` writes, where it is no larger than `max`.
pub open spec fn unsigned_up_to(s: Seq<char>, max: int) -> Option<nat> {
    match unsigned(s) {
        Some(n) => if n <= max {
            Some(n)
        } else {
            None
        },
        None => None,
    }
}

/// A digit more makes the number no smaller.
proof fn lemma_value_prefix(s: Seq<char>, i: int)
    requires
        0 <= i <= s.len(),
    ensures
        value(s.take(i)) <= value(s),
    decreases s.len() - i,
{
    if i < s.len() {
        assert(s.take(i + 1).drop_last() =~= s.take(i));
        lemma_value_prefix(s, i + 1);
    } else {
        assert(s.take(i) =~= s);
    }
}

/// The digits of a number are digits, and stand for it.
pub proof fn lemma_dec(n: nat)
    ensures
        dec(n).len() > 0,
        all_digits(dec(n)),
        value(dec(n)) == n,
    decreases n,
{
    if n >= 10 {
        lemma_dec(n / 10);
        let d = digit((n % 10) as int);
        assert(dec(n).drop_last() =~= dec(n / 10));
        assert(is_digit(d));
    } else {
        let s = dec(n);
        assert(s.drop_last() =~= Seq::<char>::empty());
        assert(value(s.drop_last()) == 0);
    }
}

/// Zeros in front do not count.
proof fn lemma_value_zeros(n: int, s: Seq<char>)
    requires
        n >= 0,
    ensures
        value(zeros(n) + s) == value(s),
    decreases s.len(), n,
{
    let all = zeros(n) + s;
    if s.len() > 0 {
        assert(all.drop_last() =~= zeros(n) + s.drop_last());
        lemma_value_zeros(n, s.drop_last());
    } else if n > 0 {
        assert(all.drop_last() =~= zeros(n - 1) + s);
        lemma_value_zeros(n - 1, s);
    } else {
        assert(all =~= s);
    }
}

/// A padded number is made of digits, stands for the number, and is as long as
/// asked for, or longer.
pub proof fn lemma_padded(n: nat, width: int)
    ensures
        padded(n, width).len() >= width,
        padded(n, width).len() > 0,
        all_digits(padded(n, width)),
        value(padded(n, width)) == n,
        unsigned(padded(n, width)) == Some(n),
{
    lemma_dec(n);
    let k = width - dec(n).len();
    if k > 0 {
        lemma_value_zeros(k, dec(n));
    } else {
        assert(padded(n, width) =~= dec(n));
    }
    assert(is_digit(padded(n, width)[0]));
}

/// A number below a power of ten has no more digits than its exponent.
pub proof fn lemma_dec_len(n: nat)
    ensures
        n < 10 ==> dec(n).len() == 1,
        n < 100 ==> dec(n).len() <= 2,
        n < 1000 ==> dec(n).len() <= 3,
        n < 10_000 ==> dec(n).len() <= 4,
{
    reveal_with_fuel(dec, 4);
}

/// The digits of `n`.
pub fn dec_of(n: u128) -> (v: Vec<char>)
    ensures
        v@ == dec(n as nat),
    decreases n,
{
    let d: u8 = (n % 10) as u8;
    let c: char = (48 + d) as char;
    assert(c == digit((n % 10) as int));
    if n < 10 {
        let mut v: Vec<char> = Vec::new();
        v.push(c);
        assert(v@ =~= dec(n as nat));
        v
    } else {
        let mut v = dec_of(n / 10);
        v.push(c);
        v
    }
}

/// The digits of `n`, padded with zeros.
pub fn padded_of(n: u64, width: usize) -> (v: Vec<char>)
    ensures
        v@ == padded(n as nat, width as int),
{
    let digits = dec_of(n as u128);
    let mut v: Vec<char> = Vec::new();
    let mut left: usize = if width > digits.len() {
        width - digits.len()
    } else {
        0
    };
    let ghost total = left as int;
    assert(v@ =~= zeros(total - left));
    while left > 0
        invariant
            left <= total,
            v@ == zeros(total - left),
        decreases left,
    {
        v.push('0');
        left -= 1;
        assert(v@ =~= zeros(total - left));
    }
    text::extend(&mut v, &digits);
    assert(v@ =~= padded(n as nat, width as int));
    v
}

/// The text of `n`.
pub fn decimal(n: u64) -> (s: String)
    ensures
        s@ == dec(n as nat),
{
    let v = dec_of(n as u128);
    string_of(&v)
}

/// Whether every character of `v` from `from` on is a digit.
pub fn digits_from(v: &[char], from: usize) -> (r: bool)
    requires
        from <= v@.len(),
    ensures
        r == all_digits(v@.skip(from as int)),
{
    let mut i: usize = from;
    while i < v.len()
        invariant
            from <= i <= v@.len(),
            forall|j: int| from <= j < i ==> is_digit(v@[j]),
        decreases v.len() - i,
    {
        if !('0' <= v[i] && v[i] <= '9') {
            assert(!is_digit(v@.skip(from as int)[i - from]));
            return false;
        }
        i += 1;
    }
    assert forall|k: int| 0 <= k < v@.skip(from as int).len() implies is_digit(
        #[trigger] v@.skip(from as int)[k],
    ) by {
        assert(is_digit(v@[from + k]));
    }
    true
}

/// The unsigned number that `v` writes, where it fits 64 bits.
pub fn parse_u64(v: &[char]) -> (r: Option<u64>)
    ensures
        match r {
            Some(n) => unsigned_up_to(v@, u64::MAX as int) == Some(n as nat),
            None => unsigned_up_to(v@, u64::MAX as int) is None,
        },
{
    let total: usize = v.len();
    let from: usize = if total > 0 && v[0] == '+' {
        1
    } else {
        0
    };
    let ghost digits = v@.skip(from as int);
    proof {
        if from == 0 {
            assert(digits =~= v@);
        }
    }
    if from == total || !digits_from(v, from) {
        return None;
    }
    let mut n: u64 = 0;
    let mut i: usize = from;
    assert(digits.take(0) =~= Seq::<char>::empty());
    while i < total
        invariant
            from <= i <= total,
            total == v@.len(),
            digits == v@.skip(from as int),
            all_digits(digits),
            digits.len() > 0,
            unsigned(v@) == Some(value(digits)),
            n == value(digits.take(i - from)),
        decreases total - i,
    {
        let c: char = v[i];
        assert(c == digits[i - from]);
        assert(is_digit(digits[i - from]));
        let d: u64 = (c as u32 - 48) as u64;
        let ghost next = digits.take(i - from + 1);
        proof {
            assert(next.drop_last() =~= digits.take(i - from));
            assert(value(next) == n * 10 + d);
            lemma_value_prefix(digits, i - from + 1);
        }
        if n > u64::MAX / 10 || n * 10 > u64::MAX - d {
            return None;
        }
        n = n * 10 + d;
        i += 1;
    }
    assert(digits.take(total - from) =~= digits);
    Some(n)
}

} // verus!
