//! Which images referenced from rich text are worth sending.
//!
//! Two stages: [`prefilter`] goes by the markup, before any bytes are fetched,
//! and [`assess_pixels`] by the decoded pixels. [`select_top`] bounds how many
//! are sent: the largest, in document order. An image that was copied directly
//! or as a file was meant, and is never filtered.

use crate::images::encode;
use crate::images::fetch;
use crate::images::fetch::has_scheme;
use crate::text;
use crate::text::chars_of;
use crate::text::find_at;
use crate::text::index_at;
use crate::text::lowered;
use crate::text::matches_at;
use crate::text::piece;
use crate::text::trimmed;
use crate::text::CharClass;
use vstd::prelude::*;

verus! {

/// Displayed size below which an image is dropped before it is fetched. Loose
/// on purpose: a thumbnail may stand for a much larger original.
pub const MIN_DISPLAY_EDGE_PX: u32 = 48;

/// Short edge below which nothing legible is left for a vision model.
pub const MIN_SHORT_EDGE_PX: u32 = 128;

/// Area below which an image is an icon or an avatar. With the short edge's
/// bound, a wide chart is kept.
pub const MIN_AREA_PX: u64 = 40_000;

/// Ratio of long to short edge above which an image is a spacer or a rule.
pub const MAX_ASPECT_RATIO: u32 = 20;

/// Range of a channel below which an image counts as one flat color.
pub const UNIFORM_RANGE: u8 = 10;

/// Images sent with one request at most.
pub const MAX_IMAGES: usize = 4;

/// Words that mark decoration, looked for in the path, the class and the
/// alternative text.
pub const DECORATIVE_TOKENS: [&'static str; 10] = [
    "emoji",
    "icon",
    "avatar",
    "spacer",
    "tracking",
    "pixel",
    "logo",
    "bullet",
    "smiley",
    "sprite",
];

/// Why an image was left out.
#[derive(Debug, Clone, PartialEq, Eq)]
pub enum Rejection {
    /// Displayed or decoded size below the bound.
    TooSmall { width: u32, height: u32 },
    /// Too long for its width.
    Elongated,
    /// One flat color.
    Uniform,
    /// The word that marks it as decoration.
    Decorative(&'static str),
    /// A vector image: cannot be decoded, and nearly always an icon.
    Vector,
}

/// What is in a [`Rejection`].
pub enum RejectionView {
    TooSmall { width: u32, height: u32 },
    Elongated,
    Uniform,
    Decorative(Seq<char>),
    Vector,
}

impl Rejection {
    /// What is in it.
    pub open spec fn view(&self) -> RejectionView {
        match self {
            Rejection::TooSmall { width, height } => RejectionView::TooSmall {
                width: *width,
                height: *height,
            },
            Rejection::Elongated => RejectionView::Elongated,
            Rejection::Uniform => RejectionView::Uniform,
            Rejection::Decorative(t) => RejectionView::Decorative(t@),
            Rejection::Vector => RejectionView::Vector,
        }
    }
}

/// What markup says about an image before its bytes are fetched.
#[derive(Debug, Clone, PartialEq, Eq)]
pub struct ImgHint<'a> {
    pub src: &'a str,
    /// Displayed width in CSS pixels.
    pub width: Option<u32>,
    /// Displayed height in CSS pixels.
    pub height: Option<u32>,
    pub alt: Option<&'a str>,
    pub class: Option<&'a str>,
}

/// What is in an [`ImgHint`].
#[verifier::ext_equal]
pub struct HintView {
    pub src: Seq<char>,
    pub width: Option<u32>,
    pub height: Option<u32>,
    pub alt: Option<Seq<char>>,
    pub class: Option<Seq<char>>,
}

impl<'a> ImgHint<'a> {
    /// What is in it.
    pub open spec fn view(&self) -> HintView {
        HintView {
            src: self.src@,
            width: self.width,
            height: self.height,
            alt: match self.alt {
                Some(t) => Some(t@),
                None => None,
            },
            class: match self.class {
                Some(t) => Some(t@),
                None => None,
            },
        }
    }
}

impl<'a> Default for ImgHint<'a> {
    fn default() -> (r: ImgHint<'a>)
        ensures
            r@ == (HintView { src: ""@, width: None, height: None, alt: None, class: None }),
    {
        ImgHint { src: "", width: None, height: None, alt: None, class: None }
    }
}

// ---------------------------------------------------------------------------
// By the markup
// ---------------------------------------------------------------------------

/// Where the query or the fragment of a path starts; its end where it has none.
pub open spec fn path_end(s: Seq<char>, from: int) -> int
    decreases s.len() - from,
{
    if from >= s.len() || s[from] == '?' || s[from] == '#' {
        from
    } else {
        path_end(s, from + 1)
    }
}

/// What comes before query and fragment.
pub open spec fn without_tail(s: Seq<char>) -> Seq<char> {
    s.take(path_end(s, 0))
}

/// What follows a host that stands at the start.
pub open spec fn past_host(s: Seq<char>) -> Seq<char> {
    match text::index_from(s, '/', 0) {
        Some(j) => s.skip(j),
        None => Seq::empty(),
    }
}

/// What follows scheme and host, or the host alone where the scheme is left
/// open (`//host/path`).
pub open spec fn after_host(s: Seq<char>) -> Seq<char> {
    match text::find_from(s, "://"@, 0) {
        Some(i) => past_host(s.skip(i + 3)),
        None => if text::starts_with(s, "//"@) {
            past_host(s.skip(2))
        } else {
            s
        },
    }
}

/// The path of a source, in lower case, without scheme, host, query and
/// fragment, so that none of these looks like decoration. A `data:` URI has
/// none.
pub open spec fn src_path(src: Seq<char>) -> Option<Seq<char>> {
    let s = text::trim(src, CharClass::Space);
    if fetch::schemed(s, "data:"@) {
        None
    } else {
        Some(text::lowercase(after_host(without_tail(s))))
    }
}

/// Whether a source is a vector image.
pub open spec fn is_vector(src: Seq<char>) -> bool {
    fetch::schemed(text::trim(src, CharClass::Space), "data:image/svg"@) || (src_path(
        src,
    ) matches Some(p) && text::ends_with(p, ".svg"@))
}

/// Whether `word` occurs in `t`, if there is a `t`.
pub open spec fn mentions(t: Option<Seq<char>>, word: Seq<char>) -> bool {
    t matches Some(s) && text::find_from(s, word, 0) is Some
}

/// Whether the path, the class or the alternative text has `word` in it.
pub open spec fn hints_at(hint: HintView, word: Seq<char>) -> bool {
    ||| mentions(src_path(hint.src), word)
    ||| mentions(low(hint.class), word)
    ||| mentions(low(hint.alt), word)
}

/// A text in lower case, if there is one.
pub open spec fn low(t: Option<Seq<char>>) -> Option<Seq<char>> {
    match t {
        Some(s) => Some(text::lowercase(s)),
        None => None,
    }
}

/// The first of [`DECORATIVE_TOKENS`], from `i` on, that the markup mentions.
pub open spec fn decoration(hint: HintView, i: int) -> Option<Seq<char>>
    decreases DECORATIVE_TOKENS@.len() - i,
{
    if i < 0 || i >= DECORATIVE_TOKENS@.len() {
        None
    } else if hints_at(hint, DECORATIVE_TOKENS@[i]@) {
        Some(DECORATIVE_TOKENS@[i]@)
    } else {
        decoration(hint, i + 1)
    }
}

/// Whether a displayed edge is below the bound; one that is not given never is.
pub open spec fn too_short(edge: Option<u32>) -> bool {
    edge matches Some(px) && px < MIN_DISPLAY_EDGE_PX
}

/// An edge, or zero where it is not given.
pub open spec fn or_zero(edge: Option<u32>) -> u32 {
    match edge {
        Some(px) => px,
        None => 0,
    }
}

/// Why the markup alone rules an image out, if it does.
pub open spec fn markup_rejection(hint: HintView) -> Option<RejectionView> {
    if too_short(hint.width) || too_short(hint.height) {
        Some(
            RejectionView::TooSmall { width: or_zero(hint.width), height: or_zero(hint.height) },
        )
    } else if is_vector(hint.src) {
        Some(RejectionView::Vector)
    } else {
        match decoration(hint, 0) {
            Some(word) => Some(RejectionView::Decorative(word)),
            None => None,
        }
    }
}

fn path_past_host(s: &[char], from: usize) -> (r: Vec<char>)
    requires
        from <= s@.len(),
    ensures
        r@ == past_host(s@.skip(from as int)),
{
    let total: usize = s.len();
    let host = piece(s, from, total);
    assert(host@ =~= s@.skip(from as int));
    match index_at(&host, '/', 0) {
        Some(j) => {
            let path = piece(&host, j, host.len());
            assert(path@ =~= host@.skip(j as int));
            path
        },
        None => {
            let none: Vec<char> = Vec::new();
            assert(none@ =~= Seq::<char>::empty());
            none
        },
    }
}

fn path_of(src: &str) -> (r: Option<Vec<char>>)
    ensures
        match r {
            Some(p) => src_path(src@) == Some(p@),
            None => src_path(src@) is None,
        },
{
    let s = trimmed(&chars_of(src), CharClass::Space);
    if has_scheme(&s, "data:") {
        return None;
    }
    let mut end: usize = 0;
    while end < s.len() && s[end] != '?' && s[end] != '#'
        invariant
            end <= s@.len(),
            path_end(s@, end as int) == path_end(s@, 0),
        decreases s@.len() - end,
    {
        end += 1;
    }
    let whole = piece(&s, 0, end);
    assert(whole@ =~= without_tail(s@));
    proof {
        reveal_strlit("://");
        reveal_strlit("//");
    }
    let path: Vec<char> = match find_at(&whole, &chars_of("://"), 0) {
        Some(i) => path_past_host(&whole, i + 3),
        None => if matches_at(&whole, &chars_of("//"), 0) {
            path_past_host(&whole, 2)
        } else {
            whole
        },
    };
    Some(lowered(&path))
}

fn vector(src: &str) -> (r: bool)
    ensures
        r == is_vector(src@),
{
    let s = trimmed(&chars_of(src), CharClass::Space);
    if has_scheme(&s, "data:image/svg") {
        return true;
    }
    match path_of(src) {
        Some(p) => {
            let suffix = chars_of(".svg");
            p.len() >= suffix.len() && matches_at(&p, &suffix, p.len() - suffix.len())
        },
        None => false,
    }
}

fn lowered_text(t: Option<&str>) -> (r: Option<Vec<char>>)
    ensures
        match r {
            Some(v) => t matches Some(s) && v@ == text::lowercase(s@),
            None => t is None,
        },
{
    match t {
        Some(s) => Some(lowered(&chars_of(s))),
        None => None,
    }
}

fn mentioned(t: &Option<Vec<char>>, word: &[char]) -> (r: bool)
    ensures
        r == mentions(
            match t {
                Some(v) => Some(v@),
                None => None,
            },
            word@,
        ),
{
    match t {
        Some(v) => find_at(v, word, 0).is_some(),
        None => false,
    }
}

fn decorative_token(hint: &ImgHint) -> (r: Option<&'static str>)
    ensures
        match r {
            Some(t) => decoration(hint@, 0) == Some(t@),
            None => decoration(hint@, 0) is None,
        },
{
    let path = path_of(hint.src);
    let class = lowered_text(hint.class);
    let alt = lowered_text(hint.alt);
    let mut i: usize = 0;
    while i < 10
        invariant
            i <= 10,
            decoration(hint@, 0) == decoration(hint@, i as int),
            match path {
                Some(p) => src_path(hint@.src) == Some(p@),
                None => src_path(hint@.src) is None,
            },
            match class {
                Some(v) => low(hint@.class) == Some(v@),
                None => low(hint@.class) is None,
            },
            match alt {
                Some(v) => low(hint@.alt) == Some(v@),
                None => low(hint@.alt) is None,
            },
        decreases 10 - i,
    {
        let word = chars_of(DECORATIVE_TOKENS[i]);
        if mentioned(&path, &word) || mentioned(&class, &word) || mentioned(&alt, &word) {
            return Some(DECORATIVE_TOKENS[i]);
        }
        i += 1;
    }
    None
}

fn below(edge: Option<u32>) -> (r: bool)
    ensures
        r == too_short(edge),
{
    match edge {
        Some(px) => px < MIN_DISPLAY_EDGE_PX,
        None => false,
    }
}

/// First stage: decides from the markup alone. `Ok` means that the image is
/// worth fetching; an edge that is not given never rules it out.
pub fn prefilter(hint: &ImgHint) -> (r: Result<(), Rejection>)
    ensures
        match r {
            Ok(_) => markup_rejection(hint@) is None,
            Err(e) => markup_rejection(hint@) == Some(e@),
        },
{
    if below(hint.width) || below(hint.height) {
        return Err(
            Rejection::TooSmall {
                width: hint.width.unwrap_or(0),
                height: hint.height.unwrap_or(0),
            },
        );
    }
    if vector(hint.src) {
        return Err(Rejection::Vector);
    }
    match decorative_token(hint) {
        Some(word) => Err(Rejection::Decorative(word)),
        None => Ok(()),
    }
}

/// Whether `s` has none of the characters that end a host or a path.
pub open spec fn unbroken(s: Seq<char>) -> bool {
    forall|k: int| 0 <= k < s.len() ==> s[k] != '?' && s[k] != '#'
}

/// A source with scheme and host: `tail` is its query and its fragment.
pub open spec fn address(
    scheme: Seq<char>,
    host: Seq<char>,
    path: Seq<char>,
    tail: Seq<char>,
) -> Seq<char> {
    scheme + "://"@ + host + path + tail
}

/// Of a source with scheme and host the path alone is looked at: no host name
/// and no query trips a word.
pub proof fn only_the_path_counts(
    scheme: Seq<char>,
    host: Seq<char>,
    path: Seq<char>,
    tail: Seq<char>,
)
    requires
        !scheme.contains(':') && unbroken(scheme),
        !host.contains('/') && unbroken(host),
        path.len() > 0 ==> path[0] == '/',
        unbroken(path),
        tail.len() > 0 ==> tail[0] == '?' || tail[0] == '#',
        text::trim(address(scheme, host, path, tail), CharClass::Space) == address(
            scheme,
            host,
            path,
            tail,
        ),
        !fetch::schemed(address(scheme, host, path, tail), "data:"@),
    ensures
        src_path(address(scheme, host, path, tail)) == Some(text::lowercase(path)),
{
    reveal_strlit("://");
    let mark = "://"@;
    let whole = address(scheme, host, path, tail);
    let s = scheme + mark + host + path;
    lemma_path_end(whole, s.len() as int, 0);
    assert(without_tail(whole) =~= s);
    let n = scheme.len() as int;
    assert(s.subrange(n, n + 3) =~= mark);
    assert forall|j: int| 0 <= j < n implies !#[trigger] text::occurs_at(s, mark, j) by {
        assert(scheme.contains(scheme[j]));
        assert(s.subrange(j, j + 3)[0] == scheme[j]);
    }
    text::lemma_find_from_is(s, mark, 0, n);
    let rest = s.skip(n + 3);
    assert(rest =~= host + path);
    assert forall|j: int| 0 <= j < host.len() implies rest[j] != '/' by {
        assert(host.contains(host[j]));
    }
    if path.len() > 0 {
        text::lemma_index_from_is(rest, '/', 0, host.len() as int);
        assert(rest.skip(host.len() as int) =~= path);
    } else {
        text::lemma_index_from(rest, '/', 0);
        assert(path =~= Seq::empty());
    }
}

proof fn lemma_path_end(s: Seq<char>, end: int, from: int)
    requires
        0 <= from <= end <= s.len(),
        end < s.len() ==> s[end] == '?' || s[end] == '#',
        forall|k: int| from <= k < end ==> s[k] != '?' && s[k] != '#',
    ensures
        path_end(s, from) == end,
    decreases end - from,
{
    if from < end {
        lemma_path_end(s, end, from + 1);
    }
}

// ---------------------------------------------------------------------------
// By the pixels
// ---------------------------------------------------------------------------

/// Samples along an edge at most.
pub const MAX_SAMPLES: u32 = 64;

/// The distance of the samples along an edge: the least that keeps them to
/// [`MAX_SAMPLES`].
pub open spec fn sample_step(edge: int) -> int {
    (edge + MAX_SAMPLES - 1) / MAX_SAMPLES as int
}

/// Whether the pixel at `x`, `y` is one of the samples.
pub open spec fn sampled(width: int, height: int, x: int, y: int) -> bool {
    &&& 0 <= x < width
    &&& 0 <= y < height
    &&& x % sample_step(width) == 0
    &&& y % sample_step(height) == 0
}

/// Whether no two samples differ by [`UNIFORM_RANGE`] or more in channel `c`.
pub open spec fn flat(px: Seq<u8>, width: int, height: int, c: int) -> bool {
    forall|x: int, y: int, u: int, v: int|
        #![trigger sampled(width, height, x, y), sampled(width, height, u, v)]
        sampled(width, height, x, y) && sampled(width, height, u, v) ==> encode::channel(
            px,
            width,
            x,
            y,
            c,
        ) - encode::channel(px, width, u, v, c) < UNIFORM_RANGE
}

/// Why the pixels rule an image out, if they do.
pub open spec fn pixel_rejection(px: Seq<u8>, width: u32, height: u32) -> Option<RejectionView> {
    let (short, long) = if width < height {
        (width, height)
    } else {
        (height, width)
    };
    if width == 0 || height == 0 || width * height * 4 != px.len() {
        Some(RejectionView::TooSmall { width, height })
    } else if short < MIN_SHORT_EDGE_PX || width * height < MIN_AREA_PX {
        Some(RejectionView::TooSmall { width, height })
    } else if long > short * MAX_ASPECT_RATIO {
        Some(RejectionView::Elongated)
    } else if forall|c: int| 0 <= c < 4 ==> #[trigger] flat(px, width as int, height as int, c) {
        Some(RejectionView::Uniform)
    } else {
        None
    }
}

fn step_of(edge: u32) -> (step: usize)
    requires
        edge > 0,
    ensures
        step == sample_step(edge as int),
        1 <= step <= edge,
{
    if edge % MAX_SAMPLES == 0 {
        (edge / MAX_SAMPLES) as usize
    } else {
        (edge / MAX_SAMPLES) as usize + 1
    }
}

/// Whether the samples are flat in one channel.
fn channel_flat(px: &[u8], width: u32, height: u32, c: usize) -> (r: bool)
    requires
        width > 0,
        height > 0,
        width * height * 4 == px@.len(),
        c < 4,
    ensures
        r == flat(px@, width as int, height as int, c as int),
{
    let step_x: usize = step_of(width);
    let step_y: usize = step_of(height);
    let w: usize = width as usize;
    let h: usize = height as usize;
    let total: usize = px.len();
    assert(w * 4 <= total && h * 4 <= total) by (nonlinear_arith)
        requires
            w * h * 4 == total,
            w > 0,
            h > 0,
    ;
    let ghost wi = width as int;
    let ghost hi_ = height as int;
    let mut lo: u8 = 255;
    let mut hi: u8 = 0;
    // Where the lowest and the highest value were found.
    let ghost mut at_lo = (0int, 0int);
    let ghost mut at_hi = (0int, 0int);
    let mut y: usize = 0;
    while y < h
        invariant
            w == wi == width,
            h == hi_ == height,
            wi > 0,
            hi_ > 0,
            total == px@.len(),
            w * h * 4 == total,
            w * 4 <= total,
            h * 4 <= total,
            c < 4,
            step_x == sample_step(wi),
            step_y == sample_step(hi_),
            1 <= step_y <= h,
            1 <= step_x <= w,
            y % step_y == 0,
            y <= h + step_y,
            forall|u: int, v: int|
                #![trigger sampled(wi, hi_, u, v)]
                sampled(wi, hi_, u, v) && v < y ==> lo <= encode::channel(px@, wi, u, v, c as int)
                    <= hi,
            y == 0 ==> lo == 255 && hi == 0,
            y > 0 ==> sampled(wi, hi_, at_lo.0, at_lo.1) && lo == encode::channel(
                px@,
                wi,
                at_lo.0,
                at_lo.1,
                c as int,
            ),
            y > 0 ==> sampled(wi, hi_, at_hi.0, at_hi.1) && hi == encode::channel(
                px@,
                wi,
                at_hi.0,
                at_hi.1,
                c as int,
            ),
        decreases h + step_y - y,
    {
        let mut x: usize = 0;
        while x < w
            invariant
                w == wi == width,
                h == hi_ == height,
                total == px@.len(),
                w * h * 4 == total,
                c < 4,
                y < h,
                y % step_y == 0,
                step_x == sample_step(wi),
                step_y == sample_step(hi_),
                1 <= step_x <= w,
                x % step_x == 0,
                x <= w + step_x,
                forall|u: int, v: int|
                    #![trigger sampled(wi, hi_, u, v)]
                    sampled(wi, hi_, u, v) && (v < y || (v == y && u < x)) ==> lo
                        <= encode::channel(px@, wi, u, v, c as int) <= hi,
                y == 0 && x == 0 ==> lo == 255 && hi == 0,
                y > 0 || x > 0 ==> sampled(wi, hi_, at_lo.0, at_lo.1) && lo == encode::channel(
                    px@,
                    wi,
                    at_lo.0,
                    at_lo.1,
                    c as int,
                ),
                y > 0 || x > 0 ==> sampled(wi, hi_, at_hi.0, at_hi.1) && hi == encode::channel(
                    px@,
                    wi,
                    at_hi.0,
                    at_hi.1,
                    c as int,
                ),
            decreases w + step_x - x,
        {
            proof {
                encode::lemma_index(x as int, y as int, wi, hi_, total as int);
                assert(0 <= y * w) by (nonlinear_arith);
                assert(sampled(wi, hi_, x as int, y as int));
            }
            let value: u8 = px[(y * w + x) * 4 + c];
            if value < lo || (x == 0 && y == 0) {
                lo = value;
                proof {
                    at_lo = (x as int, y as int);
                }
            }
            if value > hi || (x == 0 && y == 0) {
                hi = value;
                proof {
                    at_hi = (x as int, y as int);
                }
            }
            proof {
                lemma_next_multiple(x as int, step_x as int);
                assert forall|u: int, v: int|
                    #![trigger sampled(wi, hi_, u, v)]
                    sampled(wi, hi_, u, v) && (v < y || (v == y && u < x + step_x)) implies lo
                    <= encode::channel(px@, wi, u, v, c as int) <= hi by {
                    if v == y && u >= x {
                        lemma_between_multiples(x as int, u, step_x as int);
                    }
                }
            }
            x += step_x;
        }
        proof {
            lemma_next_multiple(y as int, step_y as int);
            assert forall|u: int, v: int|
                #![trigger sampled(wi, hi_, u, v)]
                sampled(wi, hi_, u, v) && v < y + step_y implies lo <= encode::channel(
                px@,
                wi,
                u,
                v,
                c as int,
            ) <= hi by {
                if v >= y {
                    lemma_between_multiples(y as int, v, step_y as int);
                }
            }
        }
        y += step_y;
    }
    proof {
        if hi - lo >= UNIFORM_RANGE {
            assert(sampled(wi, hi_, at_hi.0, at_hi.1) && sampled(wi, hi_, at_lo.0, at_lo.1));
        }
    }
    hi - lo < UNIFORM_RANGE
}

proof fn lemma_next_multiple(x: int, step: int)
    requires
        x >= 0,
        step > 0,
        x % step == 0,
    ensures
        (x + step) % step == 0,
{
    vstd::arithmetic::div_mod::lemma_mod_add_multiples_vanish(x, step);
}

proof fn lemma_between_multiples(x: int, u: int, step: int)
    requires
        0 <= x <= u < x + step,
        step > 0,
        x % step == 0,
        u % step == 0,
    ensures
        u == x,
{
    assert(u == x) by (nonlinear_arith)
        requires
            0 <= x <= u < x + step,
            step > 0,
            x % step == 0,
            u % step == 0,
    ;
}

/// The samples make up a grid of at most [`MAX_SAMPLES`] by [`MAX_SAMPLES`]
/// pixels: each lies at one of that many multiples of the step along either
/// edge.
pub proof fn samples_are_few(width: int, height: int, x: int, y: int)
    requires
        sampled(width, height, x, y),
    ensures
        exists|i: int, j: int|
            #![trigger i * sample_step(width), j * sample_step(height)]
            0 <= i < MAX_SAMPLES && 0 <= j < MAX_SAMPLES && x == i * sample_step(width) && y == j
                * sample_step(height),
{
    let i = lemma_few_along(width, x);
    let j = lemma_few_along(height, y);
    assert(x == i * sample_step(width) && y == j * sample_step(height));
}

proof fn lemma_few_along(edge: int, x: int) -> (i: int)
    requires
        0 <= x < edge,
        x % sample_step(edge) == 0,
    ensures
        0 <= i < MAX_SAMPLES,
        x == i * sample_step(edge),
{
    let step = sample_step(edge);
    let i = x / step;
    vstd::arithmetic::div_mod::lemma_fundamental_div_mod(x, step);
    assert(x == i * step && 0 <= i < 64) by (nonlinear_arith)
        requires
            x == step * i,
            step > 0,
            0 <= x < edge,
            edge <= 64 * step,
    ;
    i
}

/// Second stage: decides from the pixels of a decoded RGBA image.
pub fn assess_pixels(rgba: &[u8], width: u32, height: u32) -> (r: Result<(), Rejection>)
    ensures
        match r {
            Ok(_) => pixel_rejection(rgba@, width, height) is None,
            Err(e) => pixel_rejection(rgba@, width, height) == Some(e@),
        },
{
    proof {
        assert(0 <= width * height <= 0xffff_ffff * 0xffff_ffff) by (nonlinear_arith)
            requires
                0 <= width <= 0xffff_ffff,
                0 <= height <= 0xffff_ffff,
        ;
    }
    let area: u64 = width as u64 * height as u64;
    let total: usize = rgba.len();
    if width == 0 || height == 0 || area as u128 * 4 != total as u128 {
        return Err(Rejection::TooSmall { width, height });
    }
    let (short, long) = if width < height {
        (width, height)
    } else {
        (height, width)
    };
    if short < MIN_SHORT_EDGE_PX || area < MIN_AREA_PX {
        return Err(Rejection::TooSmall { width, height });
    }
    if long as u64 > short as u64 * MAX_ASPECT_RATIO as u64 {
        return Err(Rejection::Elongated);
    }
    let mut c: usize = 0;
    while c < 4
        invariant
            c <= 4,
            width > 0,
            height > 0,
            width * height * 4 == rgba@.len(),
            forall|d: int| 0 <= d < c ==> #[trigger] flat(rgba@, width as int, height as int, d),
            pixel_rejection(rgba@, width, height) == if forall|d: int|
                0 <= d < 4 ==> #[trigger] flat(rgba@, width as int, height as int, d) {
                Some(RejectionView::Uniform)
            } else {
                None
            },
        decreases 4 - c,
    {
        if !channel_flat(rgba, width, height, c) {
            assert(!flat(rgba@, width as int, height as int, c as int));
            return Ok(());
        }
        c += 1;
    }
    Err(Rejection::Uniform)
}

// ---------------------------------------------------------------------------
// How many
// ---------------------------------------------------------------------------

/// Whether item `j` goes before item `i`: it is larger, or as large and earlier.
pub open spec fn outranks(areas: Seq<u64>, j: int, i: int) -> bool {
    areas[j] > areas[i] || (areas[j] == areas[i] && j < i)
}

/// How many of the first `n` items go before item `i`.
pub open spec fn rank(areas: Seq<u64>, i: int, n: int) -> int
    decreases n,
{
    if n <= 0 {
        0
    } else {
        rank(areas, i, n - 1) + if outranks(areas, n - 1, i) {
            1int
        } else {
            0
        }
    }
}

/// Whether item `i` is among the `max` largest.
pub open spec fn kept(areas: Seq<u64>, max: int, i: int) -> bool {
    rank(areas, i, areas.len() as int) < max
}

/// Those of the first `n` items that are among the `max` largest.
pub open spec fn survivors<T>(items: Seq<(T, u64)>, max: int, n: int) -> Seq<T>
    decreases n,
{
    if n <= 0 {
        Seq::empty()
    } else if kept(areas_of(items), max, n - 1) {
        survivors(items, max, n - 1).push(items[n - 1].0)
    } else {
        survivors(items, max, n - 1)
    }
}

/// The areas of the items.
pub open spec fn areas_of<T>(items: Seq<(T, u64)>) -> Seq<u64> {
    items.map_values(|t: (T, u64)| t.1)
}

/// Whether item `i` is among the `max` largest.
fn is_kept<T>(items: &Vec<(T, u64)>, max: usize, i: usize) -> (r: bool)
    requires
        i < items@.len(),
    ensures
        r == kept(areas_of(items@), max as int, i as int),
{
    let mut before: usize = 0;
    let mut j: usize = 0;
    while j < items.len()
        invariant
            i < items@.len(),
            j <= items@.len(),
            before <= j,
            before == rank(areas_of(items@), i as int, j as int),
        decreases items@.len() - j,
    {
        if items[j].1 > items[i].1 || (items[j].1 == items[i].1 && j < i) {
            before += 1;
        }
        j += 1;
    }
    before < max
}

/// Keeps the `max` largest items, in their order.
pub fn select_top<T>(items: Vec<(T, u64)>, max: usize) -> (r: Vec<T>)
    ensures
        r@ == survivors(items@, max as int, items@.len() as int),
{
    let n: usize = items.len();
    let mut keep: Vec<bool> = Vec::new();
    let mut i: usize = 0;
    while i < n
        invariant
            n == items@.len(),
            i <= n,
            keep@.len() == i,
            forall|j: int|
                0 <= j < i ==> #[trigger] keep@[j] == kept(areas_of(items@), max as int, j),
        decreases n - i,
    {
        keep.push(is_kept(&items, max, i));
        i += 1;
    }
    let ghost all = items@;
    let mut rest = items;
    let mut r: Vec<T> = Vec::new();
    let mut k: usize = 0;
    assert(all.skip(0) =~= all);
    while k < n
        invariant
            n == all.len(),
            k <= n,
            rest@ == all.skip(k as int),
            keep@.len() == n,
            forall|j: int| 0 <= j < n ==> #[trigger] keep@[j] == kept(areas_of(all), max as int, j),
            r@ == survivors(all, max as int, k as int),
        decreases n - k,
    {
        let (item, _) = rest.remove(0);
        assert(rest@ =~= all.skip(k + 1));
        if keep[k] {
            r.push(item);
        }
        k += 1;
    }
    r
}

proof fn lemma_rank_bounds(areas: Seq<u64>, i: int, m: int)
    requires
        0 <= i < areas.len(),
        0 <= m,
    ensures
        0 <= rank(areas, i, m) <= m,
        i < m ==> rank(areas, i, m) < m,
    decreases m,
{
    if m > 0 {
        lemma_rank_bounds(areas, i, m - 1);
    }
}

/// An item that goes before another has the lower rank.
proof fn lemma_rank_lower(areas: Seq<u64>, j: int, i: int, m: int)
    requires
        0 <= i < areas.len(),
        0 <= j < areas.len(),
        0 <= m,
        outranks(areas, j, i),
    ensures
        rank(areas, j, m) + if j < m {
            1int
        } else {
            0
        } <= rank(areas, i, m),
    decreases m,
{
    if m > 0 {
        lemma_rank_lower(areas, j, i, m - 1);
    }
}

/// Nothing that is left out is larger than anything that is kept.
pub proof fn the_largest_are_kept(areas: Seq<u64>, max: int, i: int, j: int)
    requires
        0 <= i < areas.len(),
        0 <= j < areas.len(),
        kept(areas, max, i),
        !kept(areas, max, j),
    ensures
        areas[j] <= areas[i],
{
    if outranks(areas, j, i) {
        lemma_rank_lower(areas, j, i, areas.len() as int);
    }
}

/// The items among the first `n` that are kept.
spec fn kept_set(areas: Seq<u64>, max: int, n: int) -> Set<int> {
    Set::new(|i: int| 0 <= i < n && kept(areas, max, i))
}

proof fn lemma_survivor_count<T>(items: Seq<(T, u64)>, max: int, n: int)
    requires
        0 <= n <= items.len(),
    ensures
        kept_set(areas_of(items), max, n).finite(),
        survivors(items, max, n).len() == kept_set(areas_of(items), max, n).len(),
    decreases n,
{
    let areas = areas_of(items);
    if n == 0 {
        assert(kept_set(areas, max, 0) =~= Set::empty());
    } else {
        lemma_survivor_count(items, max, n - 1);
        if kept(areas, max, n - 1) {
            assert(kept_set(areas, max, n) =~= kept_set(areas, max, n - 1).insert(n - 1));
        } else {
            assert(kept_set(areas, max, n) =~= kept_set(areas, max, n - 1));
        }
    }
}

/// As many items are kept as may be: `max`, or all where there are fewer.
pub proof fn as_many_as_may_be_are_kept<T>(items: Seq<(T, u64)>, max: int)
    requires
        0 <= max,
    ensures
        survivors(items, max, items.len() as int).len() == if max < items.len() {
            max
        } else {
            items.len() as int
        },
{
    let areas = areas_of(items);
    let n = items.len() as int;
    let top = if max < n {
        max
    } else {
        n
    };
    let all = vstd::set_lib::set_int_range(0, n);
    let place = |i: int| rank(areas, i, n);
    vstd::set_lib::lemma_int_range(0, n);
    vstd::set_lib::lemma_int_range(0, top);
    assert forall|i: int| 0 <= i < n implies 0 <= #[trigger] place(i) < n by {
        lemma_rank_bounds(areas, i, n);
    }
    assert forall|i: int, j: int|
        all.contains(i) && all.contains(j) && #[trigger] place(i) == #[trigger] place(
            j,
        ) implies i == j by {
        if outranks(areas, i, j) {
            lemma_rank_lower(areas, i, j, n);
        } else if outranks(areas, j, i) {
            lemma_rank_lower(areas, j, i, n);
        }
    }
    let places = all.map(place);
    all.lemma_map_finite(place);
    vstd::set_lib::lemma_map_size(all, places, place);
    assert(places.subset_of(all));
    vstd::set_lib::lemma_subset_equality(places, all);
    let keep = kept_set(areas, max, n);
    lemma_survivor_count(items, max, n);
    vstd::relations::lemma_injective_on_subset(place, keep, all);
    assert(keep.map(place) =~= vstd::set_lib::set_int_range(0, top)) by {
        assert forall|p: int| 0 <= p < top implies keep.map(place).contains(p) by {
            assert(places.contains(p));
            let i = choose|i: int| all.contains(i) && place(i) == p;
            assert(keep.contains(i));
        }
    }
    vstd::set_lib::lemma_map_size(keep, keep.map(place), place);
}

} // verus!
