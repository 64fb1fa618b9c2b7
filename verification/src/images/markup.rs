//! Images referenced from the HTML that a clipboard holds, made into
//! attachments: what the markup says, then the bytes, the pixels, and how many
//! are sent.

use crate::images::decode;
use crate::images::decode::decode_rgba;
use crate::images::encode;
use crate::images::encode::encode_for_upload;
use crate::images::filter;
use crate::images::filter::assess_pixels;
use crate::images::filter::prefilter;
use crate::images::filter::select_top;
use crate::images::filter::MAX_IMAGES;
use crate::images::html;
use crate::images::html::fragment;
use crate::images::html::img_refs;
use crate::images::html::ImgRef;
use crate::images::AttachmentView;
use crate::images::ImageAttachment;
use crate::images::ImageMime;
use crate::images::ImageOrigin;
use vstd::prelude::*;

verus! {

/// Images fetched at most. A page can refer to hundreds; the first that pass
/// the markup's filter get their bytes.
pub const MAX_FETCHES: usize = MAX_IMAGES * 2;

/// What the filter goes by.
pub open spec fn hint_of(r: html::RefView) -> filter::HintView {
    filter::HintView {
        src: r.src,
        width: as_u32(r.width),
        height: as_u32(r.height),
        alt: r.alt,
        class: r.class,
    }
}

/// A length, if there is one.
pub open spec fn as_u32(n: Option<int>) -> Option<u32> {
    match n {
        Some(v) => Some(v as u32),
        None => None,
    }
}

/// The sources of the first `n` references that pass the markup's filter, up to
/// [`MAX_FETCHES`].
pub open spec fn worth_fetching(refs: Seq<html::RefView>, n: int) -> Seq<Seq<char>>
    decreases n,
{
    if n <= 0 {
        Seq::empty()
    } else {
        let before = worth_fetching(refs, n - 1);
        if before.len() < MAX_FETCHES && filter::markup_rejection(hint_of(refs[n - 1])) is None {
            before.push(refs[n - 1].src)
        } else {
            before
        }
    }
}

/// The sources in `page` that are worth fetching.
pub open spec fn wanted(page: Seq<char>) -> Seq<Seq<char>> {
    let refs = html::references(html::fragment_of(page), 0, Seq::empty());
    worth_fetching(refs, refs.len() as int)
}

/// The views of a run of texts.
pub open spec fn texts(v: Seq<String>) -> Seq<Seq<char>> {
    v.map_values(|s: String| s@)
}

proof fn lemma_worth_fetching(refs: Seq<html::RefView>, n: int, m: int)
    requires
        0 <= n <= m,
        worth_fetching(refs, n).len() >= MAX_FETCHES,
    ensures
        worth_fetching(refs, m) == worth_fetching(refs, n),
    decreases m - n,
{
    if n < m {
        lemma_worth_fetching(refs, n, m - 1);
    }
}

/// The sources in `page` that are worth fetching, in document order.
pub fn wanted_sources(page: &str) -> (r: Vec<String>)
    ensures
        texts(r@) == wanted(page@),
        r@.len() <= MAX_FETCHES,
{
    let body = fragment(page);
    let refs = img_refs(body.as_str());
    let ghost views = html::refs_view(refs@);
    let mut r: Vec<String> = Vec::new();
    let mut i: usize = 0;
    assert(texts(r@) =~= Seq::empty());
    while i < refs.len()
        invariant
            i <= refs@.len(),
            views == html::refs_view(refs@),
            r@.len() <= MAX_FETCHES,
            texts(r@) == worth_fetching(views, i as int),
            wanted(page@) == worth_fetching(views, refs@.len() as int),
        decreases refs@.len() - i,
    {
        if r.len() >= MAX_FETCHES {
            proof {
                lemma_worth_fetching(views, i as int, refs@.len() as int);
            }
            return r;
        }
        let one: &ImgRef = &refs[i];
        assert(views[i as int] == one@);
        let ghost before = texts(r@);
        let hint = one.hint();
        assert(hint@ =~= hint_of(one@));
        if prefilter(&hint).is_ok() {
            r.push(one.src.clone());
            assert(texts(r@) =~= before.push(one.src@));
        }
        i += 1;
    }
    r
}

/// The attachment made of fetched bytes: `None` where they are no image, too
/// many pixels, not worth sending, or cannot be encoded.
pub open spec fn attached(b: Seq<u8>) -> Option<AttachmentView> {
    match decode::decoded(b) {
        Ok(Some((px, w, h))) => if filter::pixel_rejection(px, w, h) is None {
            let (small, sent_w, sent_h) = encode::sent(px, w, h);
            match encode::png_of(small, sent_w, sent_h) {
                Ok(file) => Some(
                    AttachmentView {
                        bytes: file,
                        mime: ImageMime::Png,
                        width: sent_w,
                        height: sent_h,
                        source_width: w,
                        source_height: h,
                        origin: ImageOrigin::Markup,
                    },
                ),
                Err(_) => None,
            }
        } else {
            None
        },
        _ => None,
    }
}

/// Makes fetched bytes an attachment. Bytes that are no image, have too many
/// pixels, or are not worth sending are skipped.
pub fn attachment_from(bytes: &[u8]) -> (r: Option<ImageAttachment>)
    ensures
        match r {
            Some(a) => attached(bytes@) == Some(a@),
            None => attached(bytes@) is None,
        },
{
    match decode_rgba(bytes) {
        Ok(Some((px, w, h))) => {
            if assess_pixels(&px, w, h).is_err() {
                return None;
            }
            let total: usize = px.len();
            assert(w * h * 4 == total);
            match encode_for_upload(px, w, h, ImageOrigin::Markup) {
                Ok(a) => Some(a),
                Err(_) => None,
            }
        },
        _ => None,
    }
}

/// The attachments made of the first `n` answers, in order.
pub open spec fn attachments(answers: Seq<Option<Vec<u8>>>, n: int) -> Seq<AttachmentView>
    decreases n,
{
    if n <= 0 {
        Seq::empty()
    } else {
        let before = attachments(answers, n - 1);
        match answers[n - 1] {
            Some(b) => match attached(b@) {
                Some(a) => before.push(a),
                None => before,
            },
            None => before,
        }
    }
}

/// The views of a run of attachments.
pub open spec fn attachments_view(v: Seq<ImageAttachment>) -> Seq<AttachmentView> {
    v.map_values(|a: ImageAttachment| a@)
}

/// The attachments with their areas.
pub open spec fn with_areas(images: Seq<ImageAttachment>) -> Seq<(ImageAttachment, u64)> {
    images.map_values(|a: ImageAttachment| (a, (a.width * a.height) as u64))
}

/// The attachments that are sent: the [`MAX_IMAGES`] largest, in order.
pub open spec fn capped(images: Seq<ImageAttachment>) -> Seq<ImageAttachment> {
    filter::survivors(with_areas(images), MAX_IMAGES as int, images.len() as int)
}

/// Keeps the [`MAX_IMAGES`] largest attachments, in their order.
pub fn cap_for_request(images: Vec<ImageAttachment>) -> (r: Vec<ImageAttachment>)
    ensures
        r@ == capped(images@),
        r@.len() <= MAX_IMAGES,
        images@.len() <= MAX_IMAGES ==> r@.len() == images@.len(),
{
    let ghost all = images@;
    let mut rest = images;
    let n: usize = rest.len();
    let mut items: Vec<(ImageAttachment, u64)> = Vec::new();
    let mut i: usize = 0;
    assert(all.skip(0) =~= all);
    assert(with_areas(all).take(0) =~= items@);
    while i < n
        invariant
            n == all.len(),
            i <= n,
            rest@ == all.skip(i as int),
            items@ == with_areas(all).take(i as int),
        decreases n - i,
    {
        let a = rest.remove(0);
        assert(rest@ =~= all.skip(i + 1));
        assert(0 <= a.width * a.height <= 0xffff_ffff * 0xffff_ffff) by (nonlinear_arith)
            requires
                0 <= a.width <= 0xffff_ffff,
                0 <= a.height <= 0xffff_ffff,
        ;
        let area: u64 = a.width as u64 * a.height as u64;
        items.push((a, area));
        assert(with_areas(all).take(i + 1) =~= with_areas(all).take(i as int).push((a, area)));
        i += 1;
    }
    assert(with_areas(all).take(n as int) =~= with_areas(all));
    proof {
        filter::as_many_as_may_be_are_kept(with_areas(all), MAX_IMAGES as int);
    }
    select_top(items, MAX_IMAGES)
}

/// Whether `answer` is what `fetch` may give for the source `src`.
pub open spec fn answered<F: Fn(&str) -> Option<Vec<u8>>>(
    fetch: F,
    src: Seq<char>,
    answer: Option<Vec<u8>>,
) -> bool {
    exists|s: &str| s@ == src && #[trigger] call_ensures(fetch, (s,), answer)
}

/// Whether `sent` is what becomes of a page when `fetch` gives `answers` for the
/// sources that are worth fetching, one each.
pub open spec fn resolved<F: Fn(&str) -> Option<Vec<u8>>>(
    page: Seq<char>,
    fetch: F,
    answers: Seq<Option<Vec<u8>>>,
    images: Seq<ImageAttachment>,
    sent: Seq<ImageAttachment>,
) -> bool {
    &&& answers.len() == wanted(page).len()
    &&& forall|i: int|
        0 <= i < answers.len() ==> #[trigger] answered(fetch, wanted(page)[i], answers[i])
    &&& attachments_view(images) == attachments(answers, answers.len() as int)
    &&& sent == capped(images)
}

/// Resolves the references in `page` into attachments. `fetch` gives the bytes
/// behind a source, if they can be had; it is called once for each source that
/// is worth fetching, in document order, and for no other. What cannot be had
/// or used is skipped: the text is still worth sending.
pub fn images_from_html<F: Fn(&str) -> Option<Vec<u8>>>(page: &str, fetch: &F) -> (r: Vec<
    ImageAttachment,
>)
    requires
        forall|s: &str|
            wanted(page@).contains(s@) ==> #[trigger] call_requires(*fetch, (s,)),
    ensures
        exists|answers: Seq<Option<Vec<u8>>>, images: Seq<ImageAttachment>|
            resolved(page@, *fetch, answers, images, r@),
        r@.len() <= MAX_IMAGES,
{
    let sources = wanted_sources(page);
    let mut images: Vec<ImageAttachment> = Vec::new();
    let ghost mut answers: Seq<Option<Vec<u8>>> = Seq::empty();
    let mut i: usize = 0;
    assert(attachments_view(images@) =~= Seq::empty());
    while i < sources.len()
        invariant
            i <= sources@.len(),
            texts(sources@) == wanted(page@),
            forall|s: &str|
                wanted(page@).contains(s@) ==> #[trigger] call_requires(*fetch, (s,)),
            answers.len() == i,
            forall|j: int|
                0 <= j < i ==> #[trigger] answered(*fetch, wanted(page@)[j], answers[j]),
            attachments_view(images@) == attachments(answers, i as int),
        decreases sources@.len() - i,
    {
        let src: &str = sources[i].as_str();
        assert(wanted(page@)[i as int] == src@);
        let answer = fetch(src);
        let ghost before = attachments_view(images@);
        let ghost earlier = answers;
        proof {
            assert(call_ensures(*fetch, (src,), answer));
            assert(answered(*fetch, wanted(page@)[i as int], answer));
            answers = answers.push(answer);
            lemma_attachments_prefix(earlier, answers, i as int);
        }
        match answer {
            Some(bytes) => {
                match attachment_from(&bytes) {
                    Some(a) => {
                        images.push(a);
                        assert(attachments_view(images@) =~= before.push(a@));
                    },
                    None => {},
                }
            },
            None => {},
        }
        i += 1;
    }
    let ghost all = images@;
    let r = cap_for_request(images);
    assert(resolved(page@, *fetch, answers, all, r@));
    r
}

proof fn lemma_attachments_prefix(a: Seq<Option<Vec<u8>>>, b: Seq<Option<Vec<u8>>>, n: int)
    requires
        forall|i: int| 0 <= i < n ==> a[i] == b[i],
    ensures
        attachments(a, n) == attachments(b, n),
    decreases n,
{
    if n > 0 {
        lemma_attachments_prefix(a, b, n - 1);
    }
}

} // verus!
