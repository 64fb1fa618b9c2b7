//! Encoding for upload, shared by every way an image comes in: bound the pixel
//! size, then encode as PNG.

use crate::error::ClipboardError;
use crate::images::decode;
use crate::images::scale;
use crate::images::scale::Ratio;
use crate::images::ImageAttachment;
use crate::images::ImageMime;
use crate::images::ImageOrigin;
use vstd::prelude::*;

verus! {

/// Long edge, in pixels, above which an image is made smaller before it is
/// encoded. Vision models cap images at about this size themselves, so anything
/// larger only makes the request longer.
pub const MAX_IMAGE_LONG_EDGE: u32 = 1568;

/// Most pixels that an image may have to be decoded at all.
pub const MAX_IMAGE_PIXELS: u64 = 64_000_000;

/// Refuses an image of more pixels than [`MAX_IMAGE_PIXELS`].
pub fn check_pixel_budget(width: u32, height: u32) -> (r: Result<(), ClipboardError>)
    ensures
        match r {
            Ok(_) => width * height <= MAX_IMAGE_PIXELS,
            Err(e) => width * height > MAX_IMAGE_PIXELS && e == (ClipboardError::ImageTooLarge {
                width,
                height,
            }),
        },
{
    assert(width * height <= 0x1_0000_0000 * 0x1_0000_0000 - 1) by (nonlinear_arith)
        requires
            width <= 0xffff_ffff,
            height <= 0xffff_ffff,
    ;
    assert(width * height >= 0) by (nonlinear_arith);
    if width as u64 * height as u64 > MAX_IMAGE_PIXELS {
        Err(ClipboardError::ImageTooLarge { width, height })
    } else {
        Ok(())
    }
}

// ---------------------------------------------------------------------------
// Making smaller
// ---------------------------------------------------------------------------

/// The run of source pixels that pixel `i` of a row of `dst` covers, out of a
/// row of `src`: one at least.
pub open spec fn span(i: int, src: int, dst: int) -> (int, int) {
    let lo = scale::scaled_floor(i, src, dst);
    let up = scale::scaled_ceil(i + 1, src, dst);
    let hi = if up < src {
        up
    } else {
        src
    };
    (
        lo,
        if hi > lo + 1 {
            hi
        } else {
            lo + 1
        },
    )
}

/// Channel `c` of the pixel at `x`, `y` of an RGBA image `width` pixels wide.
pub open spec fn channel(px: Seq<u8>, width: int, x: int, y: int, c: int) -> int {
    px[(y * width + x) * 4 + c] as int
}

/// The sum of a channel over part of a row.
pub open spec fn row_sum(px: Seq<u8>, width: int, x0: int, x1: int, y: int, c: int) -> int
    decreases x1 - x0,
{
    if x1 <= x0 {
        0
    } else {
        row_sum(px, width, x0, x1 - 1, y, c) + channel(px, width, x1 - 1, y, c)
    }
}

/// The sum of a channel over a rectangle.
pub open spec fn area_sum(
    px: Seq<u8>,
    width: int,
    x0: int,
    x1: int,
    y0: int,
    y1: int,
    c: int,
) -> int
    decreases y1 - y0,
{
    if y1 <= y0 {
        0
    } else {
        area_sum(px, width, x0, x1, y0, y1 - 1, c) + row_sum(px, width, x0, x1, y1 - 1, c)
    }
}

/// The average of a channel over a rectangle, rounded down.
pub open spec fn average(
    px: Seq<u8>,
    width: int,
    x: (int, int),
    y: (int, int),
    c: int,
) -> int {
    area_sum(px, width, x.0, x.1, y.0, y.1, c) / ((y.1 - y.0) * (x.1 - x.0))
}

/// An RGBA image of `src_w` by `src_h` pixels made `dst_w` by `dst_h`: each
/// channel of each pixel is the average over the pixels that it covers.
pub open spec fn resampled(
    px: Seq<u8>,
    src_w: int,
    src_h: int,
    dst_w: int,
    dst_h: int,
) -> Seq<u8> {
    Seq::new(
        (dst_w * dst_h * 4) as nat,
        |i: int|
            average(
                px,
                src_w,
                span((i / 4) % dst_w, src_w, dst_w),
                span((i / 4) / dst_w, src_h, dst_h),
                i % 4,
            ) as u8,
    )
}

/// The span of every pixel of a row of `dst`.
fn spans(src: u32, dst: u32) -> (r: Vec<(u32, u32)>)
    requires
        0 < dst <= src,
    ensures
        r@.len() == dst,
        forall|i: int|
            0 <= i < dst ==> (#[trigger] r@[i]).0 == span(i, src as int, dst as int).0 && r@[i].1
                == span(i, src as int, dst as int).1 && r@[i].0 < r@[i].1 <= src,
{
    let ratio = Ratio::new(src, dst);
    let mut r: Vec<(u32, u32)> = Vec::new();
    let mut i: u32 = 0;
    while i < dst
        invariant
            0 < dst <= src,
            i <= dst,
            ratio.well_formed(),
            ratio.over() == src,
            ratio.under() == dst,
            r@.len() == i,
            forall|j: int|
                0 <= j < i ==> (#[trigger] r@[j]).0 == span(j, src as int, dst as int).0 && r@[j].1
                    == span(j, src as int, dst as int).1 && r@[j].0 < r@[j].1 <= src,
        decreases dst - i,
    {
        proof {
            scale::lemma_scaled_below(i as int, src as int, dst as int);
        }
        let lo: u32 = ratio.floor(i) as u32;
        let up: u128 = ratio.ceil(i + 1);
        let mut hi: u32 = if up < src as u128 {
            up as u32
        } else {
            src
        };
        if hi < lo + 1 {
            hi = lo + 1;
        }
        r.push((lo, hi));
        i += 1;
    }
    r
}

pub proof fn lemma_index(x: int, y: int, width: int, height: int, len: int)
    requires
        0 <= x < width,
        0 <= y < height,
        width * height * 4 <= len,
    ensures
        0 <= (y * width + x) * 4,
        (y * width + x) * 4 + 3 < len,
{
    assert(0 <= y * width && y * width + width <= width * height) by (nonlinear_arith)
        requires
            0 <= y < height,
            width > 0,
    ;
}

/// The average of each channel over a rectangle.
fn block_average(px: &[u8], width: u32, height: Ghost<u32>, x: (u32, u32), y: (u32, u32)) -> (r: (
    u8,
    u8,
    u8,
    u8,
))
    requires
        x.0 < x.1 <= width,
        y.0 < y.1 <= height@,
        width * height@ * 4 <= px@.len(),
        width * height@ * 4 <= u32::MAX,
    ensures
        ({
            let xs = (x.0 as int, x.1 as int);
            let ys = (y.0 as int, y.1 as int);
            &&& r.0 == average(px@, width as int, xs, ys, 0)
            &&& r.1 == average(px@, width as int, xs, ys, 1)
            &&& r.2 == average(px@, width as int, xs, ys, 2)
            &&& r.3 == average(px@, width as int, xs, ys, 3)
        }),
{
    let ghost w = width as int;
    let ghost x0 = x.0 as int;
    let ghost x1 = x.1 as int;
    let ghost y0 = y.0 as int;
    let ghost y1 = y.1 as int;
    let ghost total = (y1 - y0) * (x1 - x0);
    proof {
        assert(0 < total <= width * height@) by (nonlinear_arith)
            requires
                total == (y1 - y0) * (x1 - x0),
                0 <= x0 < x1 <= width,
                0 <= y0 < y1 <= height@,
        ;
    }
    let len: usize = px.len();
    let mut s0: u64 = 0;
    let mut s1: u64 = 0;
    let mut s2: u64 = 0;
    let mut s3: u64 = 0;
    let mut count: u64 = 0;
    let mut sy: u32 = y.0;
    while sy < y.1
        invariant
            w == width,
            x0 == x.0,
            x1 == x.1,
            y0 == y.0,
            y1 == y.1,
            0 <= x0 < x1 <= width,
            0 <= y0 <= sy <= y1 <= height@,
            total == (y1 - y0) * (x1 - x0),
            total <= u32::MAX,
            len == px@.len(),
            width * height@ * 4 <= len,
            count == (sy - y0) * (x1 - x0),
            count <= total,
            s0 == area_sum(px@, w, x0, x1, y0, sy as int, 0),
            s1 == area_sum(px@, w, x0, x1, y0, sy as int, 1),
            s2 == area_sum(px@, w, x0, x1, y0, sy as int, 2),
            s3 == area_sum(px@, w, x0, x1, y0, sy as int, 3),
            s0 <= 255 * count,
            s1 <= 255 * count,
            s2 <= 255 * count,
            s3 <= 255 * count,
        decreases y1 - sy,
    {
        let ghost before = (s0, s1, s2, s3, count);
        proof {
            assert((sy - y0) * (x1 - x0) + (x1 - x0) == (sy + 1 - y0) * (x1 - x0))
                by (nonlinear_arith);
            assert((sy + 1 - y0) * (x1 - x0) <= total) by (nonlinear_arith)
                requires
                    total == (y1 - y0) * (x1 - x0),
                    sy + 1 <= y1,
                    x0 < x1,
            ;
        }
        let mut sx: u32 = x.0;
        while sx < x.1
            invariant
                w == width,
                x0 == x.0,
                x1 == x.1,
                0 <= x0 <= sx <= x1 <= width,
                0 <= sy < height@,
                total <= u32::MAX,
                len == px@.len(),
                width * height@ * 4 <= len,
                before.4 + (x1 - x0) <= total,
                count == before.4 + (sx - x0),
                s0 == before.0 + row_sum(px@, w, x0, sx as int, sy as int, 0),
                s1 == before.1 + row_sum(px@, w, x0, sx as int, sy as int, 1),
                s2 == before.2 + row_sum(px@, w, x0, sx as int, sy as int, 2),
                s3 == before.3 + row_sum(px@, w, x0, sx as int, sy as int, 3),
                s0 <= 255 * count,
                s1 <= 255 * count,
                s2 <= 255 * count,
                s3 <= 255 * count,
            decreases x1 - sx,
        {
            proof {
                lemma_index(sx as int, sy as int, w, height@ as int, px@.len() as int);
                assert(0 <= sy * width <= 0xffff_ffff * 0xffff_ffff) by (nonlinear_arith)
                    requires
                        0 <= sy <= 0xffff_ffff,
                        0 <= width <= 0xffff_ffff,
                ;
            }
            let i: usize = ((sy as u64 * width as u64 + sx as u64) as usize) * 4;
            s0 += px[i] as u64;
            s1 += px[i + 1] as u64;
            s2 += px[i + 2] as u64;
            s3 += px[i + 3] as u64;
            count += 1;
            sx += 1;
        }
        sy += 1;
    }
    proof {
        assert(s0 as int / count as int <= 255 && s1 as int / count as int <= 255 && s2 as int
            / count as int <= 255 && s3 as int / count as int <= 255) by (nonlinear_arith)
            requires
                count > 0,
                s0 <= 255 * count,
                s1 <= 255 * count,
                s2 <= 255 * count,
                s3 <= 255 * count,
        ;
    }
    ((s0 / count) as u8, (s1 / count) as u8, (s2 / count) as u8, (s3 / count) as u8)
}

/// Makes an RGBA image smaller by averaging areas, which avoids the aliasing
/// that picking single pixels would bring.
pub fn box_resample(src: &[u8], src_w: u32, src_h: u32, dst_w: u32, dst_h: u32) -> (r: Vec<u8>)
    requires
        0 < dst_w <= src_w,
        0 < dst_h <= src_h,
        src_w * src_h * 4 <= src@.len(),
        src_w * src_h * 4 <= u32::MAX,
    ensures
        r@ == resampled(src@, src_w as int, src_h as int, dst_w as int, dst_h as int),
{
    let columns = spans(src_w, dst_w);
    let rows = spans(src_h, dst_h);
    let mut dst: Vec<u8> = Vec::new();
    let ghost want = resampled(src@, src_w as int, src_h as int, dst_w as int, dst_h as int);
    proof {
        assert(0 < dst_w * dst_h <= src_w * src_h) by (nonlinear_arith)
            requires
                0 < dst_w <= src_w,
                0 < dst_h <= src_h,
        ;
    }
    let total: u32 = dst_w * dst_h;
    let mut n: u32 = 0;
    while n < total
        invariant
            n <= total,
            total == dst_w * dst_h,
            0 < dst_w,
            total * 4 == want.len(),
            want == resampled(src@, src_w as int, src_h as int, dst_w as int, dst_h as int),
            columns@.len() == dst_w,
            rows@.len() == dst_h,
            forall|i: int|
                0 <= i < dst_w ==> (#[trigger] columns@[i]).0 == span(
                    i,
                    src_w as int,
                    dst_w as int,
                ).0 && columns@[i].1 == span(i, src_w as int, dst_w as int).1 && columns@[i].0
                    < columns@[i].1 <= src_w,
            forall|i: int|
                0 <= i < dst_h ==> (#[trigger] rows@[i]).0 == span(i, src_h as int, dst_h as int).0
                    && rows@[i].1 == span(i, src_h as int, dst_h as int).1 && rows@[i].0
                    < rows@[i].1 <= src_h,
            src_w * src_h * 4 <= src@.len(),
            src_w * src_h * 4 <= u32::MAX,
            dst@ == want.take(n * 4),
        decreases total - n,
    {
        let dx: u32 = n % dst_w;
        let dy: u32 = n / dst_w;
        assert(dy < dst_h) by (nonlinear_arith)
            requires
                dy == n / dst_w,
                n < dst_w * dst_h,
                dst_w > 0,
        ;
        let x = columns[dx as usize];
        let y = rows[dy as usize];
        let (r, g, b, a) = block_average(src, src_w, Ghost(src_h), x, y);
        dst.push(r);
        dst.push(g);
        dst.push(b);
        dst.push(a);
        proof {
            let at = n * 4;
            assert(at / 4 == n && (at + 1) / 4 == n && (at + 2) / 4 == n && (at + 3) / 4 == n);
            assert(want[at] == r);
            assert(want[at + 1] == g);
            assert(want[at + 2] == b);
            assert(want[at + 3] == a);
            assert(dst@ =~= want.take(at + 4));
        }
        n += 1;
    }
    assert(want.take(total * 4) =~= want);
    dst
}

/// The size that an image is made: `None` where it is within the bound, and of
/// an image without pixels.
pub open spec fn smaller_size(width: int, height: int) -> Option<(int, int)> {
    let long = if width > height {
        width
    } else {
        height
    };
    if width == 0 || height == 0 || long <= MAX_IMAGE_LONG_EDGE {
        None
    } else {
        let w = scale::scaled_round(width, MAX_IMAGE_LONG_EDGE as int, long);
        let h = scale::scaled_round(height, MAX_IMAGE_LONG_EDGE as int, long);
        Some(
            (
                if w < 1 {
                    1
                } else {
                    w
                },
                if h < 1 {
                    1
                } else {
                    h
                },
            ),
        )
    }
}

/// Whether an image of this size and its pixels can be made smaller: where it
/// is over the bound, all its pixels are there and can be counted.
pub open spec fn can_downscale(len: nat, width: int, height: int) -> bool {
    smaller_size(width, height) is Some ==> width * height * 4 <= len && width * height * 4
        <= u32::MAX
}

/// Makes an RGBA image smaller so that its long edge is at most
/// [`MAX_IMAGE_LONG_EDGE`], keeping its shape; `None` where it is within the
/// bound already.
pub fn downscale_rgba(bytes: &[u8], width: u32, height: u32) -> (r: Option<(Vec<u8>, u32, u32)>)
    requires
        can_downscale(bytes@.len(), width as int, height as int),
    ensures
        match smaller_size(width as int, height as int) {
            Some((w, h)) => r matches Some(t) && t.0@ == resampled(
                bytes@,
                width as int,
                height as int,
                w,
                h,
            ) && t.1 == w && t.2 == h && 0 < w <= width && 0 < h <= height && w * h * 4
                == t.0@.len() && w * h * 4 <= u32::MAX,
            None => r is None,
        },
{
    if width == 0 || height == 0 {
        return None;
    }
    let long: u32 = if width > height {
        width
    } else {
        height
    };
    if long <= MAX_IMAGE_LONG_EDGE {
        return None;
    }
    proof {
        scale::lemma_scaled_shrinks(width as int, MAX_IMAGE_LONG_EDGE as int, long as int);
        scale::lemma_scaled_shrinks(height as int, MAX_IMAGE_LONG_EDGE as int, long as int);
    }
    let ratio = Ratio::new(MAX_IMAGE_LONG_EDGE, long);
    let mut new_w: u32 = ratio.round(width) as u32;
    if new_w < 1 {
        new_w = 1;
    }
    let mut new_h: u32 = ratio.round(height) as u32;
    if new_h < 1 {
        new_h = 1;
    }
    proof {
        assert(0 <= new_w * new_h <= width * height) by (nonlinear_arith)
            requires
                0 < new_w <= width,
                0 < new_h <= height,
        ;
    }
    Some((box_resample(bytes, width, height, new_w, new_h), new_w, new_h))
}

/// Whether every pixel has the four channels `color`.
pub open spec fn one_color(px: Seq<u8>, color: Seq<u8>) -> bool {
    forall|i: int| 0 <= i < px.len() ==> #[trigger] px[i] == color[i % 4]
}

proof fn lemma_one_color_row(
    px: Seq<u8>,
    color: Seq<u8>,
    width: int,
    height: int,
    x0: int,
    x1: int,
    y: int,
    c: int,
)
    requires
        one_color(px, color),
        0 <= c < 4,
        0 <= x0 <= x1 <= width,
        0 <= y < height,
        width * height * 4 <= px.len(),
    ensures
        row_sum(px, width, x0, x1, y, c) == color[c] * (x1 - x0),
    decreases x1 - x0,
{
    if x0 < x1 {
        lemma_one_color_row(px, color, width, height, x0, x1 - 1, y, c);
        lemma_index(x1 - 1, y, width, height, px.len() as int);
        let n = y * width + (x1 - 1);
        assert((n * 4 + c) % 4 == c);
        assert(px[n * 4 + c] == color[(n * 4 + c) % 4]);
        assert(color[c] * (x1 - 1 - x0) + color[c] == color[c] * (x1 - x0)) by (nonlinear_arith);
    } else {
        assert(color[c] * (x1 - x0) == 0) by (nonlinear_arith)
            requires
                x1 == x0,
        ;
    }
}

proof fn lemma_one_color_area(
    px: Seq<u8>,
    color: Seq<u8>,
    width: int,
    height: int,
    x0: int,
    x1: int,
    y0: int,
    y1: int,
    c: int,
)
    requires
        one_color(px, color),
        0 <= c < 4,
        0 <= x0 <= x1 <= width,
        0 <= y0 <= y1 <= height,
        width * height * 4 <= px.len(),
    ensures
        area_sum(px, width, x0, x1, y0, y1, c) == color[c] * ((y1 - y0) * (x1 - x0)),
    decreases y1 - y0,
{
    if y0 < y1 {
        lemma_one_color_area(px, color, width, height, x0, x1, y0, y1 - 1, c);
        lemma_one_color_row(px, color, width, height, x0, x1, y1 - 1, c);
        assert(color[c] * ((y1 - 1 - y0) * (x1 - x0)) + color[c] * (x1 - x0) == color[c] * ((y1 - y0) * (x1
            - x0))) by (nonlinear_arith);
    } else {
        assert(color[c] * ((y1 - y0) * (x1 - x0)) == 0) by (nonlinear_arith)
            requires
                y1 == y0,
        ;
    }
}

/// An image of one color keeps it, whatever size it is made.
pub proof fn one_color_stays(
    px: Seq<u8>,
    color: Seq<u8>,
    src_w: int,
    src_h: int,
    dst_w: int,
    dst_h: int,
)
    requires
        one_color(px, color),
        0 < dst_w <= src_w < 0x1_0000_0000,
        0 < dst_h <= src_h < 0x1_0000_0000,
        src_w * src_h * 4 <= px.len(),
    ensures
        resampled(px, src_w, src_h, dst_w, dst_h).len() == dst_w * dst_h * 4,
        one_color(resampled(px, src_w, src_h, dst_w, dst_h), color),
{
    assert(dst_w * dst_h > 0) by (nonlinear_arith)
        requires
            dst_w > 0,
            dst_h > 0,
    ;
    assert forall|i: int| 0 <= i < dst_w * dst_h * 4 implies #[trigger] resampled(
        px,
        src_w,
        src_h,
        dst_w,
        dst_h,
    )[i] == color[i % 4] by {
        let n = i / 4;
        let dx = n % dst_w;
        let dy = n / dst_w;
        assert(0 <= dx < dst_w && 0 <= dy < dst_h) by (nonlinear_arith)
            requires
                dx == n % dst_w,
                dy == n / dst_w,
                0 <= n < dst_w * dst_h,
                dst_w > 0,
        ;
        scale::lemma_scaled_below(dx, src_w, dst_w);
        scale::lemma_scaled_below(dy, src_h, dst_h);
        let (x0, x1) = span(dx, src_w, dst_w);
        let (y0, y1) = span(dy, src_h, dst_h);
        lemma_one_color_area(px, color, src_w, src_h, x0, x1, y0, y1, i % 4);
        let area = (y1 - y0) * (x1 - x0);
        let v = color[i % 4] as int;
        assert(area > 0) by (nonlinear_arith)
            requires
                area == (y1 - y0) * (x1 - x0),
                y0 < y1,
                x0 < x1,
        ;
        assert((v * area) / area == v) by (nonlinear_arith)
            requires
                area > 0,
        ;
    }
}

/// Making an image smaller puts its long edge on the bound, and leaves the
/// other within it: an image needs it once at most.
pub proof fn smaller_is_small_enough(width: int, height: int)
    requires
        0 <= width < 0x1_0000_0000,
        0 <= height < 0x1_0000_0000,
    ensures
        smaller_size(width, height) matches Some((w, h)) ==> {
            &&& 0 < w <= MAX_IMAGE_LONG_EDGE
            &&& 0 < h <= MAX_IMAGE_LONG_EDGE
            &&& w == MAX_IMAGE_LONG_EDGE || h == MAX_IMAGE_LONG_EDGE
            &&& smaller_size(w, h) is None
        },
{
    let long = if width > height {
        width
    } else {
        height
    };
    if width > 0 && height > 0 && long > MAX_IMAGE_LONG_EDGE {
        scale::lemma_scaled_within(width, MAX_IMAGE_LONG_EDGE as int, long);
        scale::lemma_scaled_within(height, MAX_IMAGE_LONG_EDGE as int, long);
    }
}

/// Each pixel of a row that is made smaller covers its share of the row it came
/// from: pixel `i` of `dst` what lies between `i / dst` and `(i + 1) / dst` of the
/// way along, rounded out to whole pixels. The spans start at the start, end at the
/// end, and leave no gap. Rounding in double precision moves a bound by less than
/// one part in [`scale::FINENESS`] of a pixel.
pub proof fn spans_cover_the_row(i: int, src: int, dst: int)
    requires
        0 <= i < dst <= src < 0x1_0000_0000,
    ensures
        0 <= span(i, src, dst).0 < span(i, src, dst).1 <= src,
        scale::FINENESS * (span(i, src, dst).0 * dst - i * src) <= dst,
        scale::FINENESS * (i * src - (span(i, src, dst).0 + 1) * dst) <= dst,
        scale::FINENESS * ((i + 1) * src - span(i, src, dst).1 * dst) <= dst,
        scale::FINENESS * ((span(i, src, dst).1 - 1) * dst - (i + 1) * src) <= dst,
        i == 0 ==> span(i, src, dst).0 == 0,
        i == dst - 1 ==> span(i, src, dst).1 == src,
        i + 1 < dst ==> span(i, src, dst).0 <= span(i + 1, src, dst).0 <= span(i, src, dst).1,
{
    lemma_floor(i, src, dst);
    lemma_ceil(i + 1, src, dst);
    scale::lemma_scaled_below(i, src, dst);
    let (lo, hi) = span(i, src, dst);
    let up = scale::scaled_ceil(i + 1, src, dst);
    let target = (i + 1) * src;
    assert(target == i * src + src) by (nonlinear_arith)
        requires
            target == (i + 1) * src,
    ;
    assert(target <= src * dst) by (nonlinear_arith)
        requires
            target == (i + 1) * src,
            i + 1 <= dst,
            src > 0,
    ;
    if hi == src {
        assert(src * dst == hi * dst);
        if up >= src {
            assert((hi - 1) * dst <= (up - 1) * dst) by (nonlinear_arith)
                requires
                    hi <= up,
                    dst > 0,
            ;
        }
    }
    if i == 0 {
        assert(0 * scale::quotient(src, dst).0 == 0);
        assert(scale::unit(0, 1) == 1);
        assert(scale::nearest(0, 1) == 0);
        let u = scale::unit(0, 1);
        assert(scale::nearest(0, u) * u == 0) by (nonlinear_arith)
            requires
                scale::nearest(0, u) == 0,
        ;
        assert(scale::rounded(0) == 0);
        assert(i * scale::quotient(src, dst).0 == 0);
        let den = scale::product(i, src, dst).1;
        assert(0int / den == 0) by (nonlinear_arith)
            requires
                den > 0,
        ;
    }
    if i == dst - 1 {
        assert(up >= src) by (nonlinear_arith)
            requires
                scale::FINENESS * (target - up * dst) <= dst,
                target == dst * src,
                dst > 0,
                scale::FINENESS == 0x8_0000,
        ;
    }
    if i + 1 < dst {
        lemma_floor(i + 1, src, dst);
        scale::lemma_scaled_below(i + 1, src, dst);
        let next = scale::scaled_floor(i + 1, src, dst);
        let (r, den) = scale::product(i + 1, src, dst);
        assert(r / den <= (r + den - 1) / den) by (nonlinear_arith)
            requires
                den > 0,
                r >= 0,
        ;
        assert(lo <= next) by {
            scale::lemma_scaled_near(i, src, dst);
            scale::lemma_scaled_near(i + 1, src, dst);
            let (q, d) = scale::product(i, src, dst);
            assert(d == den);
            assert(q <= r) by (nonlinear_arith)
                requires
                    0x8_0000 * (q * dst - i * src * den) <= dst * den,
                    0x8_0000 * ((i + 1) * src * den - r * dst) <= dst * den,
                    dst <= src,
                    dst > 0,
                    den > 0,
            {
                assert((i + 1) * src * den == i * src * den + src * den);
                assert(dst * den <= src * den);
                assert(q * dst <= r * dst);
            }
            assert(q / den <= r / den) by (nonlinear_arith)
                requires
                    q <= r,
                    den > 0,
            ;
        }
    }
}

proof fn lemma_floor(d: int, src: int, dst: int)
    requires
        0 <= d <= dst <= src < 0x1_0000_0000,
        0 < dst,
    ensures
        scale::FINENESS * (scale::scaled_floor(d, src, dst) * dst - d * src) <= dst,
        scale::FINENESS * (d * src - (scale::scaled_floor(d, src, dst) + 1) * dst) <= dst,
{
    scale::lemma_scaled_near(d, src, dst);
    let (r, den) = scale::product(d, src, dst);
    let lo = r / den;
    let exact = d * src;
    assert(lo * den <= r < (lo + 1) * den) by (nonlinear_arith)
        requires
            lo == r / den,
            den > 0,
            r >= 0,
    ;
    assert(exact * den == d * src * den);
    assert(0x8_0000 * (lo * dst - exact) <= dst) by (nonlinear_arith)
        requires
            lo * den <= r,
            0x8_0000 * (r * dst - exact * den) <= dst * den,
            den > 0,
            dst > 0,
    {
        assert(lo * den * dst <= r * dst);
        assert((0x8_0000 * (lo * dst - exact)) * den <= dst * den);
    }
    assert(0x8_0000 * (exact - (lo + 1) * dst) <= dst) by (nonlinear_arith)
        requires
            r < (lo + 1) * den,
            0x8_0000 * (exact * den - r * dst) <= dst * den,
            den > 0,
            dst > 0,
    {
        assert(r * dst <= (lo + 1) * den * dst);
        assert((0x8_0000 * (exact - (lo + 1) * dst)) * den <= dst * den);
    }
}

proof fn lemma_ceil(d: int, src: int, dst: int)
    requires
        0 <= d <= dst <= src < 0x1_0000_0000,
        0 < dst,
    ensures
        scale::FINENESS * (d * src - scale::scaled_ceil(d, src, dst) * dst) <= dst,
        scale::FINENESS * ((scale::scaled_ceil(d, src, dst) - 1) * dst - d * src) <= dst,
{
    scale::lemma_scaled_near(d, src, dst);
    let (r, den) = scale::product(d, src, dst);
    let up = (r + den - 1) / den;
    let exact = d * src;
    assert((up - 1) * den < r <= up * den) by (nonlinear_arith)
        requires
            up == (r + den - 1) / den,
            den > 0,
            r >= 0,
    ;
    assert(exact * den == d * src * den);
    assert(0x8_0000 * (exact - up * dst) <= dst) by (nonlinear_arith)
        requires
            r <= up * den,
            0x8_0000 * (exact * den - r * dst) <= dst * den,
            den > 0,
            dst > 0,
    {
        assert(r * dst <= up * den * dst);
        assert((0x8_0000 * (exact - up * dst)) * den <= dst * den);
    }
    assert(0x8_0000 * ((up - 1) * dst - exact) <= dst) by (nonlinear_arith)
        requires
            (up - 1) * den < r,
            0x8_0000 * (r * dst - exact * den) <= dst * den,
            den > 0,
            dst > 0,
    {
        assert((up - 1) * den * dst <= r * dst);
        assert((0x8_0000 * ((up - 1) * dst - exact)) * den <= dst * den);
    }
}

/// No pixel of a row is lost: each is covered by one that stands for it.
pub proof fn every_pixel_is_covered(x: int, src: int, dst: int) -> (i: int)
    requires
        0 < dst <= src < 0x1_0000_0000,
        0 <= x < src,
    ensures
        0 <= i < dst,
        span(i, src, dst).0 <= x < span(i, src, dst).1,
{
    spans_cover_the_row(dst - 1, src, dst);
    lemma_covered_up_to(x, src, dst, dst - 1)
}

proof fn lemma_covered_up_to(x: int, src: int, dst: int, n: int) -> (i: int)
    requires
        0 <= n < dst <= src < 0x1_0000_0000,
        0 <= x < span(n, src, dst).1,
    ensures
        0 <= i <= n,
        span(i, src, dst).0 <= x < span(i, src, dst).1,
    decreases n,
{
    spans_cover_the_row(n, src, dst);
    if span(n, src, dst).0 <= x {
        n
    } else {
        spans_cover_the_row(n - 1, src, dst);
        lemma_covered_up_to(x, src, dst, n - 1)
    }
}

/// Whether pixel `x` of a row of `src` lies where pixel `i` of a row of `dst` does,
/// give or take a pixel.
pub open spec fn lies_near(x: int, i: int, src: int, dst: int) -> bool {
    i * src - 2 * dst < x * dst < (i + 1) * src + dst
}

proof fn lemma_lies_near(x: int, i: int, src: int, dst: int)
    requires
        0 <= i < dst <= src < 0x1_0000_0000,
        span(i, src, dst).0 <= x < span(i, src, dst).1,
    ensures
        lies_near(x, i, src, dst),
{
    spans_cover_the_row(i, src, dst);
    let (lo, hi) = span(i, src, dst);
    let from = i * src;
    let to = (i + 1) * src;
    assert(from - 2 * dst < x * dst < to + dst) by (nonlinear_arith)
        requires
            lo <= x <= hi - 1,
            0x8_0000 * (from - (lo + 1) * dst) <= dst,
            0x8_0000 * ((hi - 1) * dst - to) <= dst,
            dst > 0,
    {
        assert(lo * dst <= x * dst <= (hi - 1) * dst);
        assert((lo + 1) * dst == lo * dst + dst);
    }
}

proof fn lemma_flat_row(px: Seq<u8>, width: int, x0: int, x1: int, y: int, c: int, v: int)
    requires
        x0 <= x1,
        forall|x: int| x0 <= x < x1 ==> #[trigger] channel(px, width, x, y, c) == v,
    ensures
        row_sum(px, width, x0, x1, y, c) == v * (x1 - x0),
    decreases x1 - x0,
{
    if x0 < x1 {
        lemma_flat_row(px, width, x0, x1 - 1, y, c, v);
        assert(channel(px, width, x1 - 1, y, c) == v);
        assert(v * (x1 - 1 - x0) + v == v * (x1 - x0)) by (nonlinear_arith);
    } else {
        assert(v * (x1 - x0) == 0) by (nonlinear_arith)
            requires
                x1 == x0,
        ;
    }
}

proof fn lemma_even_rows(
    px: Seq<u8>,
    width: int,
    x0: int,
    x1: int,
    y0: int,
    y1: int,
    c: int,
    row: int,
)
    requires
        y0 <= y1,
        forall|y: int| y0 <= y < y1 ==> #[trigger] row_sum(px, width, x0, x1, y, c) == row,
    ensures
        area_sum(px, width, x0, x1, y0, y1, c) == row * (y1 - y0),
    decreases y1 - y0,
{
    if y0 < y1 {
        lemma_even_rows(px, width, x0, x1, y0, y1 - 1, c, row);
        assert(row_sum(px, width, x0, x1, y1 - 1, c) == row);
        assert(row * (y1 - 1 - y0) + row == row * (y1 - y0)) by (nonlinear_arith);
    } else {
        assert(row * (y1 - y0) == 0) by (nonlinear_arith)
            requires
                y1 == y0,
        ;
    }
}

/// An image that is made smaller shows the whole picture, every part of it in its
/// place: where all the pixels around a spot have the same value, so has the pixel
/// that stands for the spot, in the same channel.
pub proof fn the_picture_keeps_its_place(
    px: Seq<u8>,
    src_w: int,
    src_h: int,
    dst_w: int,
    dst_h: int,
    x: int,
    y: int,
    c: int,
    v: u8,
)
    requires
        0 <= x < dst_w <= src_w < 0x1_0000_0000,
        0 <= y < dst_h <= src_h < 0x1_0000_0000,
        0 <= c < 4,
        src_w * src_h * 4 <= px.len(),
        forall|u: int, w: int|
            0 <= u < src_w && 0 <= w < src_h && lies_near(u, x, src_w, dst_w) && lies_near(
                w,
                y,
                src_h,
                dst_h,
            ) ==> #[trigger] channel(px, src_w, u, w, c) == v,
    ensures
        channel(resampled(px, src_w, src_h, dst_w, dst_h), dst_w, x, y, c) == v,
{
    let (x0, x1) = span(x, src_w, dst_w);
    let (y0, y1) = span(y, src_h, dst_h);
    spans_cover_the_row(x, src_w, dst_w);
    spans_cover_the_row(y, src_h, dst_h);
    assert forall|w: int| y0 <= w < y1 implies #[trigger] row_sum(px, src_w, x0, x1, w, c) == v * (x1
        - x0) by {
        lemma_lies_near(w, y, src_h, dst_h);
        assert forall|u: int| x0 <= u < x1 implies #[trigger] channel(px, src_w, u, w, c) == v by {
            lemma_lies_near(u, x, src_w, dst_w);
        }
        lemma_flat_row(px, src_w, x0, x1, w, c, v as int);
    }
    lemma_even_rows(px, src_w, x0, x1, y0, y1, c, v * (x1 - x0));
    let area = (y1 - y0) * (x1 - x0);
    assert(v * (x1 - x0) * (y1 - y0) == v * area) by (nonlinear_arith)
        requires
            area == (y1 - y0) * (x1 - x0),
    ;
    assert(area > 0) by (nonlinear_arith)
        requires
            area == (y1 - y0) * (x1 - x0),
            y0 < y1,
            x0 < x1,
    ;
    assert((v * area) / area == v) by (nonlinear_arith)
        requires
            area > 0,
    ;
    lemma_pixel_at(px, src_w, src_h, dst_w, dst_h, x, y, c);
}

proof fn lemma_pixel_at(
    px: Seq<u8>,
    src_w: int,
    src_h: int,
    dst_w: int,
    dst_h: int,
    x: int,
    y: int,
    c: int,
)
    requires
        0 <= x < dst_w,
        0 <= y < dst_h,
        0 <= c < 4,
    ensures
        channel(resampled(px, src_w, src_h, dst_w, dst_h), dst_w, x, y, c) == average(
            px,
            src_w,
            span(x, src_w, dst_w),
            span(y, src_h, dst_h),
            c,
        ) as u8,
{
    let n = y * dst_w + x;
    assert(n / dst_w == y && n % dst_w == x && 0 <= n < dst_w * dst_h) by (nonlinear_arith)
        requires
            n == y * dst_w + x,
            0 <= x < dst_w,
            0 <= y < dst_h,
    ;
    let i = n * 4 + c;
    assert(i / 4 == n && i % 4 == c);
}

/// An average weighs every pixel alike: of a block whose left columns have one value
/// and whose right columns have another, each counts for as many columns as it has.
pub proof fn columns_weigh_alike(
    px: Seq<u8>,
    width: int,
    x: (int, int),
    y: (int, int),
    c: int,
    mid: int,
    a: int,
    b: int,
)
    requires
        0 <= a,
        0 <= b,
        x.0 <= mid <= x.1,
        x.0 < x.1,
        y.0 < y.1,
        forall|u: int, w: int|
            x.0 <= u < mid && y.0 <= w < y.1 ==> #[trigger] channel(px, width, u, w, c) == a,
        forall|u: int, w: int|
            mid <= u < x.1 && y.0 <= w < y.1 ==> #[trigger] channel(px, width, u, w, c) == b,
    ensures
        average(px, width, x, y, c) == (a * (mid - x.0) + b * (x.1 - mid)) / (x.1 - x.0),
{
    let row = a * (mid - x.0) + b * (x.1 - mid);
    assert forall|w: int| y.0 <= w < y.1 implies #[trigger] row_sum(px, width, x.0, x.1, w, c)
        == row by {
        lemma_row_split(px, width, x.0, mid, x.1, w, c);
        lemma_flat_row(px, width, x.0, mid, w, c, a);
        lemma_flat_row(px, width, mid, x.1, w, c, b);
    }
    lemma_even_rows(px, width, x.0, x.1, y.0, y.1, c, row);
    let rows = y.1 - y.0;
    assert(row >= 0) by (nonlinear_arith)
        requires
            row == a * (mid - x.0) + b * (x.1 - mid),
            0 <= a,
            0 <= b,
            x.0 <= mid <= x.1,
    ;
    lemma_common_factor(row, rows, x.1 - x.0);
}

/// And so it is with rows.
pub proof fn rows_weigh_alike(
    px: Seq<u8>,
    width: int,
    x: (int, int),
    y: (int, int),
    c: int,
    mid: int,
    a: int,
    b: int,
)
    requires
        0 <= a,
        0 <= b,
        y.0 <= mid <= y.1,
        x.0 < x.1,
        y.0 < y.1,
        forall|u: int, w: int|
            x.0 <= u < x.1 && y.0 <= w < mid ==> #[trigger] channel(px, width, u, w, c) == a,
        forall|u: int, w: int|
            x.0 <= u < x.1 && mid <= w < y.1 ==> #[trigger] channel(px, width, u, w, c) == b,
    ensures
        average(px, width, x, y, c) == (a * (mid - y.0) + b * (y.1 - mid)) / (y.1 - y.0),
{
    let columns = x.1 - x.0;
    assert forall|w: int| y.0 <= w < mid implies #[trigger] row_sum(px, width, x.0, x.1, w, c) == a
        * columns by {
        lemma_flat_row(px, width, x.0, x.1, w, c, a);
    }
    assert forall|w: int| mid <= w < y.1 implies #[trigger] row_sum(px, width, x.0, x.1, w, c) == b
        * columns by {
        lemma_flat_row(px, width, x.0, x.1, w, c, b);
    }
    lemma_even_rows(px, width, x.0, x.1, y.0, mid, c, a * columns);
    lemma_even_rows(px, width, x.0, x.1, mid, y.1, c, b * columns);
    lemma_area_split(px, width, x.0, x.1, y.0, mid, y.1, c);
    let sum = a * (mid - y.0) + b * (y.1 - mid);
    assert(a * columns * (mid - y.0) + b * columns * (y.1 - mid) == sum * columns)
        by (nonlinear_arith)
        requires
            sum == a * (mid - y.0) + b * (y.1 - mid),
    ;
    assert(sum >= 0) by (nonlinear_arith)
        requires
            sum == a * (mid - y.0) + b * (y.1 - mid),
            0 <= a,
            0 <= b,
            y.0 <= mid <= y.1,
    ;
    lemma_common_factor(sum, columns, y.1 - y.0);
    assert(columns * (y.1 - y.0) == (y.1 - y.0) * columns) by (nonlinear_arith);
}

proof fn lemma_row_split(px: Seq<u8>, width: int, x0: int, mid: int, x1: int, y: int, c: int)
    requires
        x0 <= mid <= x1,
    ensures
        row_sum(px, width, x0, x1, y, c) == row_sum(px, width, x0, mid, y, c) + row_sum(
            px,
            width,
            mid,
            x1,
            y,
            c,
        ),
    decreases x1 - mid,
{
    if mid < x1 {
        lemma_row_split(px, width, x0, mid, x1 - 1, y, c);
    }
}

proof fn lemma_area_split(
    px: Seq<u8>,
    width: int,
    x0: int,
    x1: int,
    y0: int,
    mid: int,
    y1: int,
    c: int,
)
    requires
        y0 <= mid <= y1,
    ensures
        area_sum(px, width, x0, x1, y0, y1, c) == area_sum(px, width, x0, x1, y0, mid, c)
            + area_sum(px, width, x0, x1, mid, y1, c),
    decreases y1 - mid,
{
    if mid < y1 {
        lemma_area_split(px, width, x0, x1, y0, mid, y1 - 1, c);
    }
}

proof fn lemma_common_factor(n: int, k: int, d: int)
    requires
        n >= 0,
        k > 0,
        d > 0,
    ensures
        (n * k) / (k * d) == n / d,
{
    assert(n * k >= 0) by (nonlinear_arith)
        requires
            n >= 0,
            k > 0,
    ;
    vstd::arithmetic::div_mod::lemma_div_denominator(n * k, k, d);
    vstd::arithmetic::div_mod::lemma_div_multiples_vanish(n, k);
    assert(k * n == n * k) by (nonlinear_arith);
}

/// An image that is made smaller keeps its shape: its long edge comes to the bound,
/// and the other to as much less, to the nearest pixel, but for an edge that would
/// vanish. Rounding in double precision moves it by no more than one part in
/// [`scale::FINENESS`] of a pixel.
pub proof fn the_shape_is_kept(width: int, height: int)
    requires
        0 <= width < 0x1_0000_0000,
        0 <= height < 0x1_0000_0000,
    ensures
        (smaller_size(width, height) is Some) == (width > 0 && height > 0 && (width
            > MAX_IMAGE_LONG_EDGE || height > MAX_IMAGE_LONG_EDGE)),
        smaller_size(width, height) matches Some((w, h)) ==> {
            &&& width >= height ==> w == MAX_IMAGE_LONG_EDGE && to_scale(h, height, width)
            &&& height >= width ==> h == MAX_IMAGE_LONG_EDGE && to_scale(w, width, height)
        },
{
    let long = if width > height {
        width
    } else {
        height
    };
    if smaller_size(width, height) is Some {
        scale::lemma_scaled_within(width, MAX_IMAGE_LONG_EDGE as int, long);
        scale::lemma_scaled_within(height, MAX_IMAGE_LONG_EDGE as int, long);
        lemma_round(width, MAX_IMAGE_LONG_EDGE as int, long);
        lemma_round(height, MAX_IMAGE_LONG_EDGE as int, long);
    }
}

/// Whether an edge `n` stands for `edge` as the bound stands for `long`, to the
/// nearest pixel.
pub open spec fn to_scale(n: int, edge: int, long: int) -> bool {
    let exact = edge * MAX_IMAGE_LONG_EDGE;
    ||| n == 1 && 2 * exact < 2 * long
    ||| scale::FINENESS * (2 * (n * long - exact)) <= (scale::FINENESS + 2) * long
        && scale::FINENESS * (2 * (exact - n * long)) <= (scale::FINENESS + 2) * long
}

proof fn lemma_round(d: int, a: int, b: int)
    requires
        0 < d <= b < 0x1_0000_0000,
        0 < a < b,
    ensures
        ({
            let n = scale::scaled_round(d, a, b);
            &&& scale::FINENESS * (2 * (n * b - d * a)) <= (scale::FINENESS + 2) * b
            &&& scale::FINENESS * (2 * (d * a - n * b)) <= (scale::FINENESS + 2) * b
            &&& n < 1 ==> 2 * (d * a) < 2 * b
        }),
{
    scale::lemma_scaled_near(d, a, b);
    let (r, den) = scale::product(d, a, b);
    let n = (2 * r + den) / (2 * den);
    let exact = d * a;
    assert(n * (2 * den) <= 2 * r + den < (n + 1) * (2 * den)) by (nonlinear_arith)
        requires
            n == (2 * r + den) / (2 * den),
            den > 0,
            r >= 0,
    ;
    assert(exact * den == d * a * den);
    assert(0x8_0000 * (2 * (n * b - exact)) <= 0x8_0002 * b) by (nonlinear_arith)
        requires
            n * (2 * den) <= 2 * r + den,
            0x8_0000 * (r * b - exact * den) <= b * den,
            den > 0,
            b > 0,
    {
        assert(n * (2 * den) * b <= (2 * r + den) * b);
        assert((0x8_0000 * (2 * (n * b - exact))) * den <= (0x8_0002 * b) * den);
    }
    assert(0x8_0000 * (2 * (exact - n * b)) <= 0x8_0002 * b) by (nonlinear_arith)
        requires
            2 * r + den < (n + 1) * (2 * den),
            0x8_0000 * (exact * den - r * b) <= b * den,
            den > 0,
            b > 0,
    {
        assert((2 * r + den) * b <= (n + 1) * (2 * den) * b);
        assert((0x8_0000 * (2 * (exact - n * b))) * den <= (0x8_0002 * b) * den);
    }
    if n < 1 {
        assert(n * b <= 0) by (nonlinear_arith)
            requires
                n < 1,
                b > 0,
        ;
        assert(n >= 0) by (nonlinear_arith)
            requires
                n == (2 * r + den) / (2 * den),
                den > 0,
                r >= 0,
        ;
        assert(n * b == 0) by (nonlinear_arith)
            requires
                n == 0,
        ;
    }
}

// ---------------------------------------------------------------------------
// PNG
// ---------------------------------------------------------------------------

/// The PNG file of an RGBA image, or what is wrong with it.
pub uninterp spec fn png_of(px: Seq<u8>, width: u32, height: u32) -> Result<Seq<u8>, Seq<char>>;

/// The bytes that every PNG file starts with.
pub open spec fn png_signature() -> Seq<u8> {
    seq![0x89, 0x50, 0x4e, 0x47, 0x0d, 0x0a, 0x1a, 0x0a]
}

/// Whether a file is read as an image of this size with these pixels, within the
/// limits that go with the size.
pub open spec fn shows(file: Seq<u8>, px: Seq<u8>, width: u32, height: u32) -> bool {
    &&& decode::image_size(file) == Some((width, height))
    &&& decode::image_pixels(file, width, height, decode::MAX_DECODE_BYTES) == Some(
        (px, width, height),
    )
}

/// `png::Encoder` with 8-bit RGBA, writing into memory: the file, and the text
/// of the error, depend on the pixels and the size alone. It fails where an
/// edge is zero and where the number of bytes is not four for each pixel, and
/// nowhere else. The file starts with the signature of PNG, and a decoder reads
/// the pixels back, where they are within the budget.
#[verifier::external_body]
fn png_encode(bytes: &[u8], width: u32, height: u32) -> (r: Result<Vec<u8>, String>)
    requires
        width * height * 4 <= usize::MAX,
    ensures
        match r {
            Ok(file) => png_of(bytes@, width, height) == Ok::<Seq<u8>, Seq<char>>(file@),
            Err(why) => png_of(bytes@, width, height) == Err::<Seq<u8>, Seq<char>>(why@),
        },
        (r is Ok) == (width > 0 && height > 0 && bytes@.len() == width * height * 4),
        r matches Ok(file) ==> png_signature().is_prefix_of(file@),
        r matches Ok(file) ==> width * height <= MAX_IMAGE_PIXELS ==> shows(
            file@,
            bytes@,
            width,
            height,
        ),
{
    let mut out = Vec::new();
    let mut encoder = png::Encoder::new(&mut out, width, height);
    encoder.set_color(png::ColorType::Rgba);
    encoder.set_depth(png::BitDepth::Eight);
    let mut writer = encoder.write_header().map_err(|e| e.to_string())?;
    writer.write_image_data(bytes).map_err(|e| e.to_string())?;
    drop(writer);
    Ok(out)
}

/// Encodes an RGBA image as PNG. Decoding the file gives the pixels back, where
/// they are within the budget.
pub fn rgba_to_png(bytes: &[u8], width: u32, height: u32) -> (r: Result<Vec<u8>, ClipboardError>)
    requires
        width * height * 4 <= usize::MAX,
    ensures
        match r {
            Ok(file) => png_of(bytes@, width, height) == Ok::<Seq<u8>, Seq<char>>(file@),
            Err(e) => e matches ClipboardError::ImageEncodeFailed(why) && png_of(
                bytes@,
                width,
                height,
            ) == Err::<Seq<u8>, Seq<char>>(why@),
        },
        r is Ok <==> width > 0 && height > 0 && bytes@.len() == width * height * 4,
        r matches Ok(file) ==> png_signature().is_prefix_of(file@),
        r matches Ok(file) ==> width * height <= MAX_IMAGE_PIXELS ==> decode::decoded(file@)
            == Ok::<_, (u32, u32)>(Some((bytes@, width, height))),
{
    match png_encode(bytes, width, height) {
        Ok(file) => Ok(file),
        Err(why) => Err(ClipboardError::ImageEncodeFailed(why)),
    }
}

/// What an image is sent as: its pixels and their size once the long edge is
/// bounded.
pub open spec fn sent(px: Seq<u8>, width: u32, height: u32) -> (Seq<u8>, u32, u32) {
    match smaller_size(width as int, height as int) {
        Some((w, h)) => (
            resampled(px, width as int, height as int, w, h),
            w as u32,
            h as u32,
        ),
        None => (px, width, height),
    }
}

proof fn lemma_sent_fits(px: Seq<u8>, width: u32, height: u32)
    ensures
        sent(px, width, height).1 * sent(px, width, height).2 <= MAX_IMAGE_PIXELS,
{
    let (_, w, h) = sent(px, width, height);
    smaller_is_small_enough(width as int, height as int);
    assert(0 <= w * h <= MAX_IMAGE_PIXELS) by (nonlinear_arith)
        requires
            w == 0 || h == 0 || 0 <= w <= 1568 && 0 <= h <= 1568,
    ;
}

/// Bounds the size of an RGBA image and encodes it as PNG. An image of no or
/// too few or too many bytes for its size cannot be encoded. Decoding the file
/// gives back what is sent.
pub fn encode_rgba_for_upload(rgba: Vec<u8>, width: u32, height: u32) -> (r: Result<
    Vec<u8>,
    ClipboardError,
>)
    requires
        can_downscale(rgba@.len(), width as int, height as int),
        width * height * 4 <= usize::MAX,
    ensures
        ({
            let (px, w, h) = sent(rgba@, width, height);
            &&& match r {
                Ok(file) => png_of(px, w, h) == Ok::<Seq<u8>, Seq<char>>(file@),
                Err(e) => e matches ClipboardError::ImageEncodeFailed(why) && png_of(px, w, h)
                    == Err::<Seq<u8>, Seq<char>>(why@),
            }
            &&& r is Ok <==> w > 0 && h > 0 && px.len() == w * h * 4
            &&& r matches Ok(file) ==> decode::decoded(file@) == Ok::<_, (u32, u32)>(
                Some((px, w, h)),
            )
        }),
{
    proof {
        lemma_sent_fits(rgba@, width, height);
    }
    match downscale_rgba(&rgba, width, height) {
        Some((resized, new_w, new_h)) => rgba_to_png(&resized, new_w, new_h),
        None => rgba_to_png(&rgba, width, height),
    }
}

/// Makes an image that is ready to be sent, and notes what size it came in.
pub fn encode_for_upload(rgba: Vec<u8>, width: u32, height: u32, origin: ImageOrigin) -> (r: Result<
    ImageAttachment,
    ClipboardError,
>)
    requires
        can_downscale(rgba@.len(), width as int, height as int),
        width * height * 4 <= usize::MAX,
    ensures
        ({
            let (px, w, h) = sent(rgba@, width, height);
            &&& match r {
                Ok(att) => png_of(px, w, h) == Ok::<Seq<u8>, Seq<char>>(att.bytes@) && att.mime
                    == ImageMime::Png && att.width == w && att.height == h && att.source_width
                    == width && att.source_height == height && att.origin == origin,
                Err(e) => e matches ClipboardError::ImageEncodeFailed(why) && png_of(px, w, h)
                    == Err::<Seq<u8>, Seq<char>>(why@),
            }
            &&& r is Ok <==> w > 0 && h > 0 && px.len() == w * h * 4
            &&& r matches Ok(att) ==> decode::decoded(att.bytes@) == Ok::<_, (u32, u32)>(
                Some((px, w, h)),
            )
        }),
{
    proof {
        lemma_sent_fits(rgba@, width, height);
    }
    let (px, w, h) = match downscale_rgba(&rgba, width, height) {
        Some(smaller) => smaller,
        None => (rgba, width, height),
    };
    match rgba_to_png(&px, w, h) {
        Ok(file) => Ok(
            ImageAttachment {
                bytes: std::sync::Arc::new(file),
                mime: ImageMime::Png,
                width: w,
                height: h,
                source_width: width,
                source_height: height,
                origin,
            },
        ),
        Err(e) => Err(e),
    }
}

} // verus!
