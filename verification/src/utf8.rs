//! UTF-8 that arrives in chunks: what is malformed is replaced, and what is
//! merely cut off waits for the next chunk.

use vstd::prelude::*;

verus! {

/// `char::from_u32`: a character for every Unicode scalar value, `None` for
/// any other number.
pub assume_specification[ char::from_u32 ](i: u32) -> (c: Option<char>)
    ensures
        vstd::utf8::is_scalar(i) ==> c == Some(i as char),
        !vstd::utf8::is_scalar(i) ==> c is None,
;

/// What stands at the front of a run of bytes.
pub enum Unit {
    /// Nothing: the run is empty.
    End,
    /// The start of a character whose other bytes are still to come.
    Cut,
    /// So many bytes that no character starts with.
    Bad(int),
    /// A character and how many bytes it takes.
    Good(char, int),
}

/// How many bytes a character takes whose first byte is `b`; 0 where no
/// character starts with `b`.
pub open spec fn width(b: u8) -> int {
    if b <= 0x7f {
        1
    } else if 0xc2 <= b <= 0xdf {
        2
    } else if 0xe0 <= b <= 0xef {
        3
    } else if 0xf0 <= b <= 0xf4 {
        4
    } else {
        0
    }
}

/// Whether `c` may follow the first byte `b`. Four first bytes narrow the
/// range, which rules out overlong forms, surrogates and what lies beyond the
/// last character.
pub open spec fn second_fits(b: u8, c: u8) -> bool {
    if b == 0xe0 {
        0xa0 <= c <= 0xbf
    } else if b == 0xed {
        0x80 <= c <= 0x9f
    } else if b == 0xf0 {
        0x90 <= c <= 0xbf
    } else if b == 0xf4 {
        0x80 <= c <= 0x8f
    } else {
        0x80 <= c <= 0xbf
    }
}

/// How many bytes at the front of `b` belong together: the first one and those
/// after it that fit.
pub open spec fn fitting(b: Seq<u8>) -> int
    recommends
        b.len() > 0,
{
    let n = width(b[0]);
    if n <= 1 || b.len() < 2 || !second_fits(b[0], b[1]) {
        1
    } else if n == 2 || b.len() < 3 || !vstd::utf8::is_continuation_byte(b[2]) {
        2
    } else if n == 3 || b.len() < 4 || !vstd::utf8::is_continuation_byte(b[3]) {
        3
    } else {
        4
    }
}

/// What stands at the front of `b`.
pub open spec fn first_unit(b: Seq<u8>) -> Unit {
    if b.len() == 0 {
        Unit::End
    } else if width(b[0]) == 0 {
        Unit::Bad(1)
    } else if fitting(b) == width(b[0]) {
        Unit::Good(vstd::utf8::decode_first_scalar(b) as char, width(b[0]))
    } else if fitting(b) == b.len() {
        Unit::Cut
    } else {
        Unit::Bad(fitting(b))
    }
}

/// The character that stands for malformed bytes.
pub open spec fn replacement() -> char {
    '\u{fffd}'
}

/// The characters of `b`, each malformed run replaced, and the bytes left over
/// of a character that `b` cuts off.
pub open spec fn decoded(b: Seq<u8>) -> (Seq<char>, Seq<u8>)
    decreases b.len(),
{
    match first_unit(b) {
        Unit::End => (seq![], seq![]),
        Unit::Cut => (seq![], b),
        Unit::Bad(n) => {
            let rest = decoded(b.skip(n));
            (seq![replacement()] + rest.0, rest.1)
        },
        Unit::Good(c, n) => {
            let rest = decoded(b.skip(n));
            (seq![c] + rest.0, rest.1)
        },
    }
}

/// The unit at the front, in full, is the same whatever comes after it.
proof fn lemma_first_unit_append(a: Seq<u8>, b: Seq<u8>)
    requires
        !(first_unit(a) is End),
        !(first_unit(a) is Cut),
    ensures
        first_unit(a + b) == first_unit(a),
{
    let all = a + b;
    assert(all[0] == a[0]);
    if a.len() > 1 {
        assert(all[1] == a[1]);
    }
    if a.len() > 2 {
        assert(all[2] == a[2]);
    }
    if a.len() > 3 {
        assert(all[3] == a[3]);
    }
}

/// Bytes decode to the same characters however they are cut in two, as long as
/// what the first part leaves over is put in front of the second.
pub proof fn decoding_ignores_chunk_boundaries(a: Seq<u8>, b: Seq<u8>)
    ensures
        decoded(a + b).0 == decoded(a).0 + decoded(decoded(a).1 + b).0,
        decoded(a + b).1 == decoded(decoded(a).1 + b).1,
    decreases a.len(),
{
    match first_unit(a) {
        Unit::End => {
            assert(a + b =~= b);
            assert(decoded(a).1 + b =~= b);
        },
        Unit::Cut => {},
        Unit::Bad(n) => {
            lemma_first_unit_append(a, b);
            assert((a + b).skip(n) =~= a.skip(n) + b);
            decoding_ignores_chunk_boundaries(a.skip(n), b);
            assert(decoded(a + b).0 =~= decoded(a).0 + decoded(decoded(a).1 + b).0);
        },
        Unit::Good(c, n) => {
            lemma_first_unit_append(a, b);
            assert((a + b).skip(n) =~= a.skip(n) + b);
            decoding_ignores_chunk_boundaries(a.skip(n), b);
            assert(decoded(a + b).0 =~= decoded(a).0 + decoded(decoded(a).1 + b).0);
        },
    }
}

proof fn lemma_width_2(a: u8, b: u8)
    requires
        vstd::utf8::is_leading_byte_width_2(a),
        vstd::utf8::is_continuation_byte(b),
    ensures
        0x80 <= vstd::utf8::codepoint_width_2(a, b) <==> width(a) == 2,
        vstd::utf8::codepoint_width_2(a, b) <= 0x7ff,
{
    assert(0x80 <= (((a & 0x1f) as u32) << 6 | ((b & 0x3f) as u32)) <==> a >= 0xc2)
        by (bit_vector)
        requires
            0xc0 <= a <= 0xdf,
            0x80 <= b <= 0xbf,
    ;
    assert((((a & 0x1f) as u32) << 6 | ((b & 0x3f) as u32)) <= 0x7ff) by (bit_vector)
        requires
            0xc0 <= a <= 0xdf,
            0x80 <= b <= 0xbf,
    ;
}

proof fn lemma_width_3(a: u8, b: u8, c: u8)
    requires
        vstd::utf8::is_leading_byte_width_3(a),
        vstd::utf8::is_continuation_byte(b),
        vstd::utf8::is_continuation_byte(c),
    ensures
        ({
            let p = vstd::utf8::codepoint_width_3(a, b, c);
            (0x800 <= p && !(0xd800 <= p <= 0xdfff)) <==> second_fits(a, b)
        }),
        vstd::utf8::codepoint_width_3(a, b, c) <= 0xffff,
{
    assert(0x800 <= (((a & 0x0f) as u32) << 12 | ((b & 0x3f) as u32) << 6 | ((c & 0x3f) as u32))
        <==> a > 0xe0 || b >= 0xa0) by (bit_vector)
        requires
            0xe0 <= a <= 0xef,
            0x80 <= b <= 0xbf,
            0x80 <= c <= 0xbf,
    ;
    assert((0xd800 <= (((a & 0x0f) as u32) << 12 | ((b & 0x3f) as u32) << 6 | ((c & 0x3f) as u32))
        && (((a & 0x0f) as u32) << 12 | ((b & 0x3f) as u32) << 6 | ((c & 0x3f) as u32)) <= 0xdfff)
        <==> a == 0xed && b >= 0xa0) by (bit_vector)
        requires
            0xe0 <= a <= 0xef,
            0x80 <= b <= 0xbf,
            0x80 <= c <= 0xbf,
    ;
    assert((((a & 0x0f) as u32) << 12 | ((b & 0x3f) as u32) << 6 | ((c & 0x3f) as u32)) <= 0xffff)
        by (bit_vector)
        requires
            0xe0 <= a <= 0xef,
            0x80 <= b <= 0xbf,
            0x80 <= c <= 0xbf,
    ;
}

proof fn lemma_width_4(a: u8, b: u8, c: u8, d: u8)
    requires
        vstd::utf8::is_leading_byte_width_4(a),
        vstd::utf8::is_continuation_byte(b),
        vstd::utf8::is_continuation_byte(c),
        vstd::utf8::is_continuation_byte(d),
    ensures
        0x10000 <= vstd::utf8::codepoint_width_4(a, b, c, d) <= 0x10ffff <==> a <= 0xf4
            && second_fits(a, b),
{
    assert(0x10000 <= (((a & 0x07) as u32) << 18 | ((b & 0x3f) as u32) << 12 | ((c & 0x3f) as u32)
        << 6 | ((d & 0x3f) as u32)) <==> a > 0xf0 || b >= 0x90) by (bit_vector)
        requires
            0xf0 <= a <= 0xf7,
            0x80 <= b <= 0xbf,
            0x80 <= c <= 0xbf,
            0x80 <= d <= 0xbf,
    ;
    assert((((a & 0x07) as u32) << 18 | ((b & 0x3f) as u32) << 12 | ((c & 0x3f) as u32) << 6 | ((d
        & 0x3f) as u32)) <= 0x10ffff <==> a < 0xf4 || (a == 0xf4 && b <= 0x8f)) by (bit_vector)
        requires
            0xf0 <= a <= 0xf7,
            0x80 <= b <= 0xbf,
            0x80 <= c <= 0xbf,
            0x80 <= d <= 0xbf,
    ;
}

/// A character stands at the front exactly where the bytes there are the
/// well-formed encoding of one.
pub proof fn good_is_well_formed(b: Seq<u8>)
    ensures
        first_unit(b) is Good <==> vstd::utf8::valid_first_scalar(b),
        first_unit(b) matches Unit::Good(c, n) ==> n == vstd::utf8::length_of_first_scalar(b)
            && vstd::utf8::is_scalar(vstd::utf8::decode_first_scalar(b)) && n <= b.len(),
{
    if b.len() > 0 {
        let a = b[0];
        if vstd::utf8::is_leading_byte_width_1(a) {
            assert((a & 0x7f) as u32 <= 0x7f) by (bit_vector);
        } else if vstd::utf8::is_leading_byte_width_2(a) {
            if b.len() >= 2 && vstd::utf8::is_continuation_byte(b[1]) {
                lemma_width_2(a, b[1]);
            }
        } else if vstd::utf8::is_leading_byte_width_3(a) {
            if b.len() >= 3 && vstd::utf8::is_continuation_byte(b[1])
                && vstd::utf8::is_continuation_byte(b[2]) {
                lemma_width_3(a, b[1], b[2]);
            }
        } else if vstd::utf8::is_leading_byte_width_4(a) {
            if b.len() >= 4 && vstd::utf8::is_continuation_byte(b[1])
                && vstd::utf8::is_continuation_byte(b[2]) && vstd::utf8::is_continuation_byte(
                b[3],
            ) {
                lemma_width_4(a, b[1], b[2], b[3]);
            }
        }
    }
}

/// Well-formed text comes out as it went in, with nothing left over.
pub proof fn decoding_undoes_encoding(s: Seq<char>)
    ensures
        decoded(vstd::utf8::encode_utf8(s)) == (s, Seq::<u8>::empty()),
    decreases s.len(),
{
    let b = vstd::utf8::encode_utf8(s);
    if s.len() > 0 {
        vstd::utf8::encode_utf8_first_scalar(s);
        good_is_well_formed(b);
        vstd::utf8::char_u32_cast(s[0], vstd::utf8::decode_first_scalar(b));
        let n = vstd::utf8::length_of_first_scalar(b);
        assert(b.skip(n) =~= vstd::utf8::encode_utf8(s.drop_first()));
        decoding_undoes_encoding(s.drop_first());
        assert(seq![s[0]] + s.drop_first() =~= s);
    }
}

/// The characters of `bytes`, each malformed run replaced, and the bytes left
/// over of a character that `bytes` cuts off.
pub fn decode(bytes: &[u8]) -> (r: (Vec<char>, Vec<u8>))
    ensures
        (r.0@, r.1@) == decoded(bytes@),
{
    let mut out: Vec<char> = Vec::new();
    let mut i: usize = 0;
    let total: usize = bytes.len();
    assert(bytes@.skip(0) =~= bytes@);
    assert(out@ + decoded(bytes@).0 =~= decoded(bytes@).0);
    while i < total
        invariant
            total == bytes@.len(),
            i <= total,
            out@ + decoded(bytes@.skip(i as int)).0 == decoded(bytes@).0,
            decoded(bytes@.skip(i as int)).1 == decoded(bytes@).1,
        decreases total - i,
    {
        let ghost b = bytes@.skip(i as int);
        let ghost before = out@;
        let n = width_of(bytes[i]);
        let k = fitting_at(bytes, i);
        assert(k == fitting(b));
        if n != 0 && k == n {
            let c = scalar_at(bytes, i);
            out.push(c);
            i += k;
            assert(b.skip(k as int) =~= bytes@.skip(i as int));
            assert(out@ + decoded(bytes@.skip(i as int)).0 =~= before + decoded(b).0);
        } else if n != 0 && k == total - i {
            let mut left: Vec<u8> = Vec::new();
            let from: usize = i;
            let mut j: usize = i;
            while j < total
                invariant
                    from <= j <= total,
                    total == bytes@.len(),
                    left@ == bytes@.subrange(from as int, j as int),
                decreases total - j,
            {
                left.push(bytes[j]);
                j += 1;
                assert(bytes@.subrange(from as int, j as int) =~= bytes@.subrange(
                    from as int,
                    j - 1,
                ).push(bytes@[j - 1]));
            }
            assert(left@ =~= b);
            assert(out@ + Seq::<char>::empty() =~= out@);
            return (out, left);
        } else {
            let bad: usize = if n == 0 {
                1
            } else {
                k
            };
            out.push('\u{fffd}');
            i += bad;
            assert(b.skip(bad as int) =~= bytes@.skip(i as int));
            assert(out@ + decoded(bytes@.skip(i as int)).0 =~= before + decoded(b).0);
        }
    }
    assert(bytes@.skip(i as int) =~= Seq::<u8>::empty());
    assert(out@ + Seq::<char>::empty() =~= out@);
    (out, Vec::new())
}

fn width_of(b: u8) -> (n: usize)
    ensures
        n == width(b),
{
    if b <= 0x7f {
        1
    } else if 0xc2 <= b && b <= 0xdf {
        2
    } else if 0xe0 <= b && b <= 0xef {
        3
    } else if 0xf0 <= b && b <= 0xf4 {
        4
    } else {
        0
    }
}

fn continues(b: u8) -> (r: bool)
    ensures
        r == vstd::utf8::is_continuation_byte(b),
{
    0x80 <= b && b <= 0xbf
}

fn second_fits_at(b: u8, c: u8) -> (r: bool)
    ensures
        r == second_fits(b, c),
{
    if b == 0xe0 {
        0xa0 <= c && c <= 0xbf
    } else if b == 0xed {
        0x80 <= c && c <= 0x9f
    } else if b == 0xf0 {
        0x90 <= c && c <= 0xbf
    } else if b == 0xf4 {
        0x80 <= c && c <= 0x8f
    } else {
        0x80 <= c && c <= 0xbf
    }
}

fn fitting_at(bytes: &[u8], i: usize) -> (k: usize)
    requires
        i < bytes@.len(),
    ensures
        k == fitting(bytes@.skip(i as int)),
        i + k <= bytes@.len(),
        1 <= k <= 4,
{
    let n = width_of(bytes[i]);
    let left: usize = bytes.len() - i;
    if n <= 1 || left < 2 || !second_fits_at(bytes[i], bytes[i + 1]) {
        1
    } else if n == 2 || left < 3 || !continues(bytes[i + 2]) {
        2
    } else if n == 3 || left < 4 || !continues(bytes[i + 3]) {
        3
    } else {
        4
    }
}

/// The character that stands in full at `i`.
fn scalar_at(bytes: &[u8], i: usize) -> (c: char)
    requires
        i < bytes@.len(),
        first_unit(bytes@.skip(i as int)) is Good,
    ensures
        c == vstd::utf8::decode_first_scalar(bytes@.skip(i as int)) as char,
{
    proof {
        good_is_well_formed(bytes@.skip(i as int));
    }
    let total: usize = bytes.len();
    let a: u8 = bytes[i];
    let p: u32 = if a <= 0x7f {
        (a & 0x7f) as u32
    } else if a <= 0xdf {
        (((a & 0x1f) as u32) << 6) | ((bytes[i + 1] & 0x3f) as u32)
    } else if a <= 0xef {
        (((a & 0x0f) as u32) << 12) | (((bytes[i + 1] & 0x3f) as u32) << 6) | ((bytes[i + 2]
            & 0x3f) as u32)
    } else {
        (((a & 0x07) as u32) << 18) | (((bytes[i + 1] & 0x3f) as u32) << 12) | (((bytes[i + 2]
            & 0x3f) as u32) << 6) | ((bytes[i + 3] & 0x3f) as u32)
    };
    assert(p == vstd::utf8::decode_first_scalar(bytes@.skip(i as int)));
    match char::from_u32(p) {
        Some(c) => c,
        None => '\u{fffd}',
    }
}

} // verus!
