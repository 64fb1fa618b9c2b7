//! Files copied in a file manager, made into content: text files become text,
//! PNG files become images. Anything else is refused by name, so that nothing
//! is dropped silently.

use crate::clipboard;
use crate::clipboard::blank;
use crate::clipboard::ClipboardContent;
use crate::error::ClipboardError;
use crate::error::PlatformError;
use crate::images::encode;
use crate::images::encode::check_pixel_budget;
use crate::images::encode::encode_rgba_for_upload;
use crate::images::encode::MAX_IMAGE_PIXELS;
use crate::text;
use crate::text::chars_of;
use crate::text::lowered;
use crate::text::piece;
use crate::text::push_text;
use crate::text::same;
use crate::text::string_of;
use crate::utf8;
use std::sync::Arc;
use vstd::prelude::*;

verus! {

/// Bytes of one text file at most. A longer one is refused and not cut: an
/// input cut in silence gets an answer that is wrong with confidence.
pub const MAX_TEXT_FILE_BYTES: u64 = 1024 * 1024;

/// Bytes of all text files together at most.
pub const MAX_TOTAL_TEXT_BYTES: u64 = 2 * 1024 * 1024;

/// Bytes of a PNG file at most.
pub const MAX_IMAGE_FILE_BYTES: u64 = 32 * 1024 * 1024;

/// What a file system says about a file.
#[derive(Debug, Clone, Copy, PartialEq, Eq, Structural)]
pub struct FileStat {
    pub is_dir: bool,
    pub len: u64,
}

/// A file: its name, what the file system says about it, and its bytes, or why
/// these could not be had.
#[derive(Debug)]
pub struct FileRecord {
    pub name: String,
    pub stat: Result<FileStat, String>,
    pub bytes: Result<Vec<u8>, String>,
}

/// What is in a [`FileRecord`].
pub struct RecordView {
    pub name: Seq<char>,
    pub stat: Result<FileStat, Seq<char>>,
    pub bytes: Result<Seq<u8>, Seq<char>>,
}

impl FileRecord {
    /// What is in it.
    pub open spec fn view(&self) -> RecordView {
        RecordView {
            name: self.name@,
            stat: match self.stat {
                Ok(s) => Ok(s),
                Err(why) => Err(why@),
            },
            bytes: match self.bytes {
                Ok(b) => Ok(b@),
                Err(why) => Err(why@),
            },
        }
    }
}

/// What is in a run of records.
pub open spec fn records_view(v: Seq<FileRecord>) -> Seq<RecordView> {
    v.map_values(|r: FileRecord| r@)
}

/// Why there is no content: what a [`ClipboardError`] says.
#[verifier::ext_equal]
pub enum Failure {
    /// There is nothing to take.
    NoFiles,
    ReadFailed { name: Seq<char>, reason: Seq<char> },
    TooLarge { name: Seq<char>, limit: u64 },
    ImageTooLarge { width: u32, height: u32 },
    EncodeFailed(Seq<char>),
    Unsupported(Seq<Seq<char>>),
    /// Nothing but white space.
    Empty,
    /// No copy came.
    NoCopy,
    Cancelled,
    /// The copy chord could not be sent.
    NotSent(PlatformError),
    NoAccess(Seq<char>),
    NotWritten(Seq<char>),
}

/// The failure that an error stands for.
pub open spec fn failure(e: ClipboardError) -> Failure {
    match e {
        ClipboardError::NoTextInClipboard => Failure::NoFiles,
        ClipboardError::FileReadFailed { name, reason } => Failure::ReadFailed {
            name: name@,
            reason: reason@,
        },
        ClipboardError::FileTooLarge { name, limit_bytes } => Failure::TooLarge {
            name: name@,
            limit: limit_bytes,
        },
        ClipboardError::ImageTooLarge { width, height } => Failure::ImageTooLarge {
            width,
            height,
        },
        ClipboardError::ImageEncodeFailed(why) => Failure::EncodeFailed(why@),
        ClipboardError::UnsupportedFiles(names) => Failure::Unsupported(
            clipboard::names_view(names@),
        ),
        ClipboardError::EmptyCopy => Failure::Empty,
        ClipboardError::NoTextAfterCopy => Failure::NoCopy,
        ClipboardError::Cancelled => Failure::Cancelled,
        ClipboardError::CopyFailed(e) => Failure::NotSent(e),
        ClipboardError::AccessFailed(why) => Failure::NoAccess(why@),
        ClipboardError::WriteFailed(why) => Failure::NotWritten(why@),
    }
}

// ---------------------------------------------------------------------------
// Names
// ---------------------------------------------------------------------------

/// The last index below `n` at which `c` stands in `s`.
pub open spec fn last_index(s: Seq<char>, c: char, n: int) -> Option<int>
    decreases n,
{
    if n <= 0 {
        None
    } else if s[n - 1] == c {
        Some(n - 1)
    } else {
        last_index(s, c, n - 1)
    }
}

/// Whether a file's name has the extension `png`, in any case. A dot in front
/// makes no extension.
pub open spec fn is_png(name: Seq<char>) -> bool {
    match last_index(name, '.', name.len() as int) {
        Some(i) => i > 0 && text::lowercase(name.skip(i + 1)) == "png"@,
        None => false,
    }
}

/// Whether a file's name has the extension `png`, in any case.
pub fn is_png_name(name: &str) -> (r: bool)
    ensures
        r == is_png(name@),
{
    let v = chars_of(name);
    let total: usize = v.len();
    let mut n: usize = total;
    while n > 0
        invariant
            n <= total,
            total == v@.len(),
            v@ == name@,
            last_index(v@, '.', total as int) == last_index(v@, '.', n as int),
        decreases n,
    {
        if v[n - 1] == '.' {
            let extension = piece(&v, n, total);
            assert(extension@ =~= v@.skip(n as int));
            return n > 1 && same(&lowered(&extension), &chars_of("png"));
        }
        n -= 1;
    }
    false
}

// ---------------------------------------------------------------------------
// Text
// ---------------------------------------------------------------------------

/// The text whose UTF-8 is `b`, where there is one and it has no NUL. Anything
/// else is binary, whatever its name.
pub open spec fn text_of(b: Seq<u8>) -> Option<Seq<char>> {
    if b.contains(0u8) || !vstd::utf8::valid_utf8(b) {
        None
    } else {
        Some(vstd::utf8::decode_utf8(b))
    }
}

fn same_bytes(a: &[u8], b: &[u8]) -> (r: bool)
    ensures
        r == (a@ == b@),
{
    if a.len() != b.len() {
        return false;
    }
    let mut i: usize = 0;
    while i < a.len()
        invariant
            i <= a@.len(),
            a@.len() == b@.len(),
            forall|j: int| 0 <= j < i ==> a@[j] == b@[j],
        decreases a@.len() - i,
    {
        if a[i] != b[i] {
            return false;
        }
        i += 1;
    }
    assert(a@ =~= b@);
    true
}

/// The text whose UTF-8 is `bytes`, where there is one and it has no NUL.
pub fn as_text(bytes: &[u8]) -> (r: Option<String>)
    ensures
        match r {
            Some(s) => text_of(bytes@) == Some(s@) && vstd::utf8::encode_utf8(s@) == bytes@,
            None => text_of(bytes@) is None,
        },
{
    let mut i: usize = 0;
    while i < bytes.len()
        invariant
            i <= bytes@.len(),
            forall|j: int| 0 <= j < i ==> bytes@[j] != 0,
        decreases bytes@.len() - i,
    {
        if bytes[i] == 0 {
            assert(bytes@.contains(bytes@[i as int]));
            return None;
        }
        i += 1;
    }
    assert(!bytes@.contains(0u8));
    let (chars, rest) = utf8::decode(bytes);
    let s = string_of(&chars);
    if rest.len() == 0 && same_bytes(s.as_str().as_bytes(), bytes) {
        proof {
            vstd::utf8::encode_utf8_valid_utf8(s@);
            vstd::utf8::encode_utf8_decode_utf8(s@);
        }
        return Some(s);
    }
    proof {
        if vstd::utf8::valid_utf8(bytes@) {
            let t = vstd::utf8::decode_utf8(bytes@);
            vstd::utf8::decode_utf8_encode_utf8(bytes@);
            utf8::decoding_undoes_encoding(t);
            assert(rest@ =~= Seq::<u8>::empty());
            assert(s@ == t);
        }
    }
    None
}

// ---------------------------------------------------------------------------
// PNG
// ---------------------------------------------------------------------------

/// How the samples of a decoded PNG make up pixels.
#[derive(Debug, Clone, Copy, PartialEq, Eq, Structural)]
pub enum PngColor {
    Grayscale,
    GrayscaleAlpha,
    Rgb,
    Rgba,
    Indexed,
}

/// Samples for each pixel.
pub open spec fn samples(color: PngColor) -> int {
    match color {
        PngColor::Grayscale => 1,
        PngColor::GrayscaleAlpha => 2,
        PngColor::Rgb => 3,
        PngColor::Rgba => 4,
        PngColor::Indexed => 1,
    }
}

/// The size that the header of a PNG file gives, where a decoder that may take
/// so many bytes reads it.
pub uninterp spec fn png_size(b: Seq<u8>, limit: usize) -> Option<(u32, u32)>;

/// The samples of a PNG file, where a decoder that may take so many bytes
/// decodes it.
pub uninterp spec fn png_samples(b: Seq<u8>, limit: usize) -> Option<(PngColor, Seq<u8>)>;

/// `png::Decoder::read_info`: the size in the header depends on the bytes and
/// the limit alone.
#[verifier::external_body]
fn read_png_size(bytes: &[u8], limit: usize) -> (r: Option<(u32, u32)>)
    ensures
        r == png_size(bytes@, limit),
{
    let limits = png::Limits { bytes: limit };
    let mut decoder = png::Decoder::new_with_limits(std::io::Cursor::new(bytes), limits);
    decoder.set_transformations(png::Transformations::normalize_to_color8());
    let reader = decoder.read_info().ok()?;
    Some((reader.info().width, reader.info().height))
}

/// `png::Reader::next_frame` of the first frame, with every sample made eight
/// bits: the samples depend on the bytes and the limit alone. The first frame
/// has the size that the header gives, and its samples are all there.
#[verifier::external_body]
fn read_png_samples(bytes: &[u8], limit: usize) -> (r: Option<(PngColor, Vec<u8>, u32, u32)>)
    requires
        png_size(bytes@, limit) matches Some((w, h)) && w * h <= MAX_IMAGE_PIXELS,
    ensures
        match r {
            Some((color, px, w, h)) => png_samples(bytes@, limit) == Some((color, px@)) && png_size(
                bytes@,
                limit,
            ) == Some((w, h)) && px@.len() == w * h * samples(color),
            None => png_samples(bytes@, limit) is None,
        },
{
    let limits = png::Limits { bytes: limit };
    let mut decoder = png::Decoder::new_with_limits(std::io::Cursor::new(bytes), limits);
    decoder.set_transformations(png::Transformations::normalize_to_color8());
    let mut reader = decoder.read_info().ok()?;
    let mut buf = vec![0u8; reader.output_buffer_size()?];
    let info = reader.next_frame(&mut buf).ok()?;
    buf.truncate(info.buffer_size());
    let color = match info.color_type {
        png::ColorType::Grayscale => PngColor::Grayscale,
        png::ColorType::GrayscaleAlpha => PngColor::GrayscaleAlpha,
        png::ColorType::Rgb => PngColor::Rgb,
        png::ColorType::Rgba => PngColor::Rgba,
        png::ColorType::Indexed => PngColor::Indexed,
    };
    Some((color, buf, info.width, info.height))
}

/// Channel `c` of pixel `n`: gray stands for all three colors, and what has no
/// alpha is opaque.
pub open spec fn rgba_channel(color: PngColor, px: Seq<u8>, n: int, c: int) -> u8 {
    match color {
        PngColor::Rgba => px[4 * n + c],
        PngColor::Rgb => if c == 3 {
            255
        } else {
            px[3 * n + c]
        },
        PngColor::GrayscaleAlpha => if c == 3 {
            px[2 * n + 1]
        } else {
            px[2 * n]
        },
        _ => if c == 3 {
            255
        } else {
            px[n]
        },
    }
}

/// The pixels as RGBA.
pub open spec fn rgba_pixels(color: PngColor, px: Seq<u8>) -> Seq<u8> {
    Seq::new(
        (px.len() as int / samples(color) * 4) as nat,
        |i: int| rgba_channel(color, px, i / 4, i % 4),
    )
}

/// Bytes that the decoder may take: one RGBA image at the budget.
pub const PNG_LIMIT: usize = 256_000_000;

/// What becomes of a PNG file: its RGBA pixels and size, nothing where it
/// cannot be decoded, or the size that is over the budget.
pub open spec fn png_pixels(b: Seq<u8>) -> Result<Option<(Seq<u8>, u32, u32)>, (u32, u32)> {
    match png_size(b, PNG_LIMIT) {
        Some((w, h)) => if w * h > MAX_IMAGE_PIXELS {
            Err((w, h))
        } else {
            match png_samples(b, PNG_LIMIT) {
                Some((color, px)) => if color == PngColor::Indexed {
                    Ok(None)
                } else {
                    Ok(Some((rgba_pixels(color, px), w, h)))
                },
                None => Ok(None),
            }
        },
        None => Ok(None),
    }
}

/// The pixels as RGBA.
fn to_rgba(color: PngColor, px: &[u8]) -> (r: Vec<u8>)
    requires
        color != PngColor::Indexed,
    ensures
        r@ == rgba_pixels(color, px@),
{
    let per: usize = match color {
        PngColor::Grayscale => 1,
        PngColor::GrayscaleAlpha => 2,
        PngColor::Rgb => 3,
        _ => 4,
    };
    let n: usize = px.len() / per;
    let ghost want = rgba_pixels(color, px@);
    let mut out: Vec<u8> = Vec::new();
    let mut i: usize = 0;
    assert(want.len() == n * 4) by {
        assert(px@.len() as int / samples(color) == n);
    }
    assert(want.take(0) =~= out@);
    assert(n * per <= px@.len()) by (nonlinear_arith)
        requires
            n == px@.len() as int / per as int,
            per > 0,
    ;
    while i < n
        invariant
            color != PngColor::Indexed,
            per == samples(color),
            1 <= per <= 4,
            i <= n,
            n * per <= px@.len(),
            px@.len() <= usize::MAX,
            want == rgba_pixels(color, px@),
            want.len() == n * 4,
            out@ == want.take(i * 4),
        decreases n - i,
    {
        assert(i * per + per <= n * per) by (nonlinear_arith)
            requires
                i < n,
                per >= 1,
        ;
        assert(0 <= i * per) by (nonlinear_arith);
        let at: usize = i * per;
        let pixel: (u8, u8, u8, u8) = match color {
            PngColor::Rgba => (px[at], px[at + 1], px[at + 2], px[at + 3]),
            PngColor::Rgb => (px[at], px[at + 1], px[at + 2], 255),
            PngColor::GrayscaleAlpha => (px[at], px[at], px[at], px[at + 1]),
            _ => (px[at], px[at], px[at], 255),
        };
        out.push(pixel.0);
        out.push(pixel.1);
        out.push(pixel.2);
        out.push(pixel.3);
        proof {
            let k = i * 4;
            assert(k / 4 == i && (k + 1) / 4 == i && (k + 2) / 4 == i && (k + 3) / 4 == i);
            assert(want[k] == pixel.0);
            assert(want[k + 1] == pixel.1);
            assert(want[k + 2] == pixel.2);
            assert(want[k + 3] == pixel.3);
            assert(out@ =~= want.take(k + 4));
        }
        i += 1;
    }
    assert(want.take(n * 4) =~= want);
    out
}

/// Decodes a PNG file into RGBA. `Ok(None)` where it cannot be decoded, `Err`
/// only for an image over the pixel budget.
pub fn decode_png_rgba(bytes: &[u8]) -> (r: Result<Option<(Vec<u8>, u32, u32)>, ClipboardError>)
    ensures
        match r {
            Ok(Some((px, w, h))) => png_pixels(bytes@) == Ok::<_, (u32, u32)>(Some((px@, w, h)))
                && w * h <= MAX_IMAGE_PIXELS && px@.len() == w * h * 4,
            Ok(None) => png_pixels(bytes@) == Ok::<Option<(Seq<u8>, u32, u32)>, (u32, u32)>(None),
            Err(e) => e matches ClipboardError::ImageTooLarge { width, height } && png_pixels(
                bytes@,
            ) == Err::<Option<(Seq<u8>, u32, u32)>, _>((width, height)),
        },
{
    let (width, height) = match read_png_size(bytes, PNG_LIMIT) {
        Some(size) => size,
        None => {
            return Ok(None);
        },
    };
    match check_pixel_budget(width, height) {
        Ok(_) => {},
        Err(e) => {
            return Err(e);
        },
    }
    match read_png_samples(bytes, PNG_LIMIT) {
        Some((color, px, w, h)) => {
            if let PngColor::Indexed = color {
                return Ok(None);
            }
            proof {
                let area = w * h;
                assert(area >= 0) by (nonlinear_arith)
                    requires
                        area == w * h,
                ;
                let per = samples(color);
                assert((area * per) / per == area) by (nonlinear_arith)
                    requires
                        per > 0,
                ;
            }
            let rgba = to_rgba(color, &px);
            Ok(Some((rgba, w, h)))
        },
        None => Ok(None),
    }
}

// ---------------------------------------------------------------------------
// Taking files
// ---------------------------------------------------------------------------

/// What one file gives.
pub enum Part {
    Unsupported,
    Image(Seq<u8>),
    Text(Seq<char>),
    Failed(Failure),
}

/// What a file's bytes give once they are read as PNG.
pub open spec fn png_part(b: Seq<u8>) -> Part {
    match png_pixels(b) {
        Ok(Some((px, w, h))) => {
            let (small, sent_w, sent_h) = encode::sent(px, w, h);
            match encode::png_of(small, sent_w, sent_h) {
                Ok(file) => Part::Image(file),
                Err(why) => Part::Failed(Failure::EncodeFailed(why)),
            }
        },
        Ok(None) => Part::Unsupported,
        Err((width, height)) => Part::Failed(Failure::ImageTooLarge { width, height }),
    }
}

/// How long a file may be.
pub open spec fn size_limit(name: Seq<char>) -> u64 {
    if is_png(name) {
        MAX_IMAGE_FILE_BYTES
    } else {
        MAX_TEXT_FILE_BYTES
    }
}

/// What a file gives.
pub open spec fn part(r: RecordView) -> Part {
    match r.stat {
        Err(reason) => Part::Failed(Failure::ReadFailed { name: r.name, reason }),
        Ok(stat) => if stat.is_dir {
            Part::Unsupported
        } else if stat.len > size_limit(r.name) {
            Part::Failed(Failure::TooLarge { name: r.name, limit: size_limit(r.name) })
        } else {
            match r.bytes {
                Err(reason) => Part::Failed(Failure::ReadFailed { name: r.name, reason }),
                Ok(b) => if is_png(r.name) {
                    png_part(b)
                } else {
                    match text_of(b) {
                        Some(t) => Part::Text(t),
                        None => Part::Unsupported,
                    }
                },
            }
        },
    }
}

/// What was taken so far.
#[verifier::ext_equal]
pub struct Taken {
    /// Texts that are more than white space, with the names of their files.
    pub texts: Seq<(Seq<char>, Seq<char>)>,
    pub images: Seq<Seq<u8>>,
    pub names: Seq<Seq<char>>,
    pub unsupported: Seq<Seq<char>>,
    /// Bytes of all texts.
    pub total_text: int,
}

/// Nothing taken yet.
pub open spec fn nothing() -> Taken {
    Taken {
        texts: Seq::empty(),
        images: Seq::empty(),
        names: Seq::empty(),
        unsupported: Seq::empty(),
        total_text: 0,
    }
}

/// `t` with what a file called `name` gives.
pub open spec fn with_part(t: Taken, name: Seq<char>, p: Part) -> Result<Taken, Failure> {
    match p {
        Part::Failed(f) => Err(f),
        Part::Unsupported => Ok(Taken { unsupported: t.unsupported.push(name), ..t }),
        Part::Image(file) => Ok(
            Taken { images: t.images.push(file), names: t.names.push(name), ..t },
        ),
        Part::Text(body) => {
            let total = t.total_text + text::byte_len(body);
            if total > MAX_TOTAL_TEXT_BYTES {
                Err(Failure::TooLarge { name, limit: MAX_TOTAL_TEXT_BYTES })
            } else {
                Ok(
                    Taken {
                        texts: if clipboard::is_blank(body) {
                            t.texts
                        } else {
                            t.texts.push((name, body))
                        },
                        names: t.names.push(name),
                        total_text: total,
                        ..t
                    },
                )
            }
        },
    }
}

/// What the first `n` files give, one after the other; the first failure ends
/// it.
pub open spec fn taken(records: Seq<RecordView>, n: int) -> Result<Taken, Failure>
    decreases n,
{
    if n <= 0 {
        Ok(nothing())
    } else {
        match taken(records, n - 1) {
            Ok(t) => with_part(t, records[n - 1].name, part(records[n - 1])),
            Err(f) => Err(f),
        }
    }
}

/// A text under a line with its name.
pub open spec fn headed(name: Seq<char>, body: Seq<char>) -> Seq<char> {
    "=== "@ + name + " ===\n"@ + body
}

/// The texts under their names, a line break between them.
pub open spec fn joined(texts: Seq<(Seq<char>, Seq<char>)>) -> Seq<char>
    decreases texts.len(),
{
    if texts.len() == 0 {
        Seq::empty()
    } else if texts.len() == 1 {
        headed(texts[0].0, texts[0].1)
    } else {
        joined(texts.drop_last()) + "\n"@ + headed(texts.last().0, texts.last().1)
    }
}

/// The text that several texts make: one stands as it is.
pub open spec fn whole_text(texts: Seq<(Seq<char>, Seq<char>)>) -> Option<Seq<char>> {
    if texts.len() == 0 {
        None
    } else if texts.len() == 1 {
        Some(texts[0].1)
    } else {
        Some(joined(texts))
    }
}

/// The content that was taken.
pub open spec fn content_of(t: Taken) -> Result<clipboard::ContentView, Failure> {
    if t.unsupported.len() > 0 {
        Err(Failure::Unsupported(t.unsupported))
    } else if t.texts.len() == 0 && t.images.len() == 0 {
        Err(Failure::Empty)
    } else {
        Ok(
            clipboard::ContentView {
                text: whole_text(t.texts),
                images: t.images,
                files: t.names,
            },
        )
    }
}

/// The content that files make.
pub open spec fn content_of_files(records: Seq<RecordView>) -> Result<
    clipboard::ContentView,
    Failure,
> {
    if records.len() == 0 {
        Err(Failure::NoFiles)
    } else {
        match taken(records, records.len() as int) {
            Ok(t) => content_of(t),
            Err(f) => Err(f),
        }
    }
}

/// Takes files one by one.
#[derive(Debug)]
pub struct Ingest {
    texts: Vec<(String, String)>,
    images: Vec<Arc<Vec<u8>>>,
    names: Vec<String>,
    unsupported: Vec<String>,
    total_text: u64,
}

/// What is in a run of named texts.
pub open spec fn texts_view(v: Seq<(String, String)>) -> Seq<(Seq<char>, Seq<char>)> {
    v.map_values(|t: (String, String)| (t.0@, t.1@))
}

impl View for Ingest {
    type V = Taken;

    closed spec fn view(&self) -> Taken {
        Taken {
            texts: texts_view(self.texts@),
            images: clipboard::images_view(self.images@),
            names: clipboard::names_view(self.names@),
            unsupported: clipboard::names_view(self.unsupported@),
            total_text: self.total_text as int,
        }
    }
}

/// Whether a file's bytes matter: where they do not, what the file system says
/// about it settles what it gives.
pub open spec fn needs_bytes(name: Seq<char>, stat: Result<FileStat, Seq<char>>) -> bool {
    match stat {
        Ok(s) => !s.is_dir && s.len <= size_limit(name),
        Err(_) => false,
    }
}

impl Ingest {
    /// Nothing taken yet.
    pub fn new() -> (r: Ingest)
        ensures
            r@ == nothing(),
            r@.total_text <= MAX_TOTAL_TEXT_BYTES,
    {
        let r = Ingest {
            texts: Vec::new(),
            images: Vec::new(),
            names: Vec::new(),
            unsupported: Vec::new(),
            total_text: 0,
        };
        assert(r@ =~= nothing());
        r
    }

    /// Whether the file is to be read.
    pub fn wants_bytes(&self, name: &str, stat: &Result<FileStat, String>) -> (r: bool)
        ensures
            r == needs_bytes(
                name@,
                match *stat {
                    Ok(s) => Ok(s),
                    Err(why) => Err(why@),
                },
            ),
    {
        match stat {
            Ok(s) => !s.is_dir && s.len <= limit_of(name),
            Err(_) => false,
        }
    }

    /// Takes one file.
    pub fn add(&mut self, record: FileRecord) -> (r: Result<(), ClipboardError>)
        requires
            old(self)@.total_text <= MAX_TOTAL_TEXT_BYTES,
        ensures
            final(self)@.total_text <= MAX_TOTAL_TEXT_BYTES,
            match r {
                Ok(_) => with_part(old(self)@, record@.name, part(record@)) == Ok::<Taken, Failure>(
                    final(self)@,
                ),
                Err(e) => with_part(old(self)@, record@.name, part(record@)) == Err::<
                    Taken,
                    Failure,
                >(failure(e)) && final(self)@ == old(self)@,
            },
    {
        let ghost before = self@;
        let name = record.name;
        let stat = match record.stat {
            Ok(stat) => stat,
            Err(reason) => {
                return Err(ClipboardError::FileReadFailed { name, reason });
            },
        };
        if stat.is_dir {
            self.unsupported.push(name);
            assert(self@.unsupported =~= before.unsupported.push(name@));
            assert(self@ =~= Taken { unsupported: before.unsupported.push(name@), ..before });
            return Ok(());
        }
        let limit_bytes: u64 = limit_of(name.as_str());
        if stat.len > limit_bytes {
            return Err(ClipboardError::FileTooLarge { name, limit_bytes });
        }
        let bytes = match record.bytes {
            Ok(bytes) => bytes,
            Err(reason) => {
                return Err(ClipboardError::FileReadFailed { name, reason });
            },
        };
        if is_png_name(name.as_str()) {
            match decode_png_rgba(&bytes) {
                Ok(Some((rgba, w, h))) => {
                    match encode_rgba_for_upload(rgba, w, h) {
                        Ok(file) => {
                            self.images.push(Arc::new(file));
                            self.names.push(name);
                            assert(self@.images =~= before.images.push(file@));
                            assert(self@.names =~= before.names.push(name@));
                            Ok(())
                        },
                        Err(e) => Err(e),
                    }
                },
                Ok(None) => {
                    self.unsupported.push(name);
                    assert(self@.unsupported =~= before.unsupported.push(name@));
                    Ok(())
                },
                Err(e) => Err(e),
            }
        } else {
            match as_text(&bytes) {
                Some(body) => {
                    let len: usize = bytes.len();
                    if len as u64 > MAX_TOTAL_TEXT_BYTES - self.total_text {
                        return Err(
                            ClipboardError::FileTooLarge { name, limit_bytes: MAX_TOTAL_TEXT_BYTES },
                        );
                    }
                    self.total_text = self.total_text + len as u64;
                    let copy = text::copy_str(name.as_str());
                    self.names.push(copy);
                    assert(self@.names =~= before.names.push(name@));
                    if !blank(body.as_str()) {
                        self.texts.push((name, body));
                        assert(self@.texts =~= before.texts.push((name@, body@)));
                    }
                    Ok(())
                },
                None => {
                    self.unsupported.push(name);
                    assert(self@.unsupported =~= before.unsupported.push(name@));
                    Ok(())
                },
            }
        }
    }

    /// The content of the files that were taken.
    pub fn finish(self) -> (r: Result<ClipboardContent, ClipboardError>)
        ensures
            match r {
                Ok(c) => content_of(self@) == Ok::<clipboard::ContentView, Failure>(c@),
                Err(e) => content_of(self@) == Err::<clipboard::ContentView, Failure>(failure(e)),
            },
    {
        if self.unsupported.len() > 0 {
            return Err(ClipboardError::UnsupportedFiles(self.unsupported));
        }
        let text: Option<String> = if self.texts.len() == 0 {
            None
        } else if self.texts.len() == 1 {
            Some(text::copy_str(self.texts[0].1.as_str()))
        } else {
            Some(join(&self.texts))
        };
        if text.is_none() && self.images.len() == 0 {
            return Err(ClipboardError::EmptyCopy);
        }
        Ok(ClipboardContent { text, images: self.images, files: self.names })
    }
}

fn limit_of(name: &str) -> (r: u64)
    ensures
        r == size_limit(name@),
{
    if is_png_name(name) {
        MAX_IMAGE_FILE_BYTES
    } else {
        MAX_TEXT_FILE_BYTES
    }
}

fn push_headed(v: &mut Vec<char>, name: &str, body: &str)
    ensures
        final(v)@ == old(v)@ + headed(name@, body@),
{
    let ghost before = v@;
    push_text(v, "=== ");
    push_text(v, name);
    push_text(v, " ===\n");
    push_text(v, body);
    assert(v@ =~= before + headed(name@, body@));
}

fn join(texts: &Vec<(String, String)>) -> (r: String)
    requires
        texts@.len() > 0,
    ensures
        r@ == joined(texts_view(texts@)),
{
    let ghost all = texts_view(texts@);
    let mut v: Vec<char> = Vec::new();
    push_headed(&mut v, texts[0].0.as_str(), texts[0].1.as_str());
    let mut i: usize = 1;
    proof {
        assert(all.take(1)[0] == all[0]);
        assert(v@ =~= joined(all.take(1)));
    }
    while i < texts.len()
        invariant
            1 <= i <= texts@.len(),
            all == texts_view(texts@),
            v@ == joined(all.take(i as int)),
        decreases texts@.len() - i,
    {
        push_text(&mut v, "\n");
        push_headed(&mut v, texts[i].0.as_str(), texts[i].1.as_str());
        proof {
            assert(all.take(i + 1).drop_last() =~= all.take(i as int));
            assert(all.take(i + 1).last() == all[i as int]);
        }
        i += 1;
    }
    assert(all.take(i as int) =~= all);
    string_of(&v)
}

/// The content that files make: text files become the text, one as it is,
/// several under their names; PNG files become images. Any other file fails the
/// whole.
pub fn ingest_files(files: Vec<FileRecord>) -> (r: Result<ClipboardContent, ClipboardError>)
    ensures
        match r {
            Ok(c) => content_of_files(records_view(files@)) == Ok::<clipboard::ContentView, Failure>(
                c@,
            ),
            Err(e) => content_of_files(records_view(files@)) == Err::<
                clipboard::ContentView,
                Failure,
            >(failure(e)),
        },
{
    let n: usize = files.len();
    if n == 0 {
        return Err(ClipboardError::NoTextInClipboard);
    }
    let ghost all = records_view(files@);
    let ghost raw = files@;
    let mut rest = files;
    let mut ingest = Ingest::new();
    let mut i: usize = 0;
    assert(raw.skip(0) =~= raw);
    while i < n
        invariant
            n == raw.len(),
            n > 0,
            i <= n,
            raw == files@,
            all == records_view(raw),
            rest@ == raw.skip(i as int),
            taken(all, i as int) == Ok::<Taken, Failure>(ingest@),
            ingest@.total_text <= MAX_TOTAL_TEXT_BYTES,
        decreases n - i,
    {
        let record = rest.remove(0);
        assert(rest@ =~= raw.skip(i + 1));
        let ghost one = record@;
        assert(all[i as int] == one);
        match ingest.add(record) {
            Ok(_) => {},
            Err(e) => {
                proof {
                    assert(taken(all, i + 1) == Err::<Taken, Failure>(failure(e)));
                    lemma_failure_stays(all, i + 1, n as int);
                }
                return Err(e);
            },
        }
        i += 1;
    }
    ingest.finish()
}

proof fn lemma_failure_stays(records: Seq<RecordView>, n: int, m: int)
    requires
        0 <= n <= m,
        taken(records, n) is Err,
    ensures
        taken(records, m) == taken(records, n),
    decreases m - n,
{
    if n < m {
        lemma_failure_stays(records, n, m - 1);
    }
}

/// The names of the first `n` files.
pub open spec fn names_of(records: Seq<RecordView>, n: int) -> Seq<Seq<char>> {
    Seq::new(n as nat, |i: int| records[i].name)
}

proof fn lemma_names(records: Seq<RecordView>, n: int)
    requires
        0 <= n <= records.len(),
    ensures
        taken(records, n) matches Ok(t) ==> t.names.len() + t.unsupported.len() == n && (
        t.unsupported.len() == 0 ==> t.names == names_of(records, n)),
    decreases n,
{
    if n == 0 {
        assert(names_of(records, 0) =~= Seq::empty());
    } else {
        lemma_names(records, n - 1);
        assert(names_of(records, n) =~= names_of(records, n - 1).push(records[n - 1].name));
    }
}

/// Nothing is dropped silently: content that files make names every one of
/// them, in order.
pub proof fn every_file_is_named(records: Seq<RecordView>)
    ensures
        content_of_files(records) matches Ok(c) ==> c.files == names_of(
            records,
            records.len() as int,
        ),
{
    lemma_names(records, records.len() as int);
}

/// A file whose bytes are not asked for gives the same whatever they are.
pub proof fn unread_bytes_do_not_matter(a: RecordView, b: RecordView)
    requires
        a.name == b.name,
        a.stat == b.stat,
        !needs_bytes(a.name, a.stat),
    ensures
        part(a) == part(b),
{
}

// ---------------------------------------------------------------------------
// What goes in and what comes out
// ---------------------------------------------------------------------------

/// Texts of several files stand one below the other, each whole under a line with
/// its name: a further file adds its own at the end and leaves the rest as it is.
pub proof fn texts_stand_under_their_names(
    texts: Seq<(Seq<char>, Seq<char>)>,
    name: Seq<char>,
    body: Seq<char>,
)
    ensures
        texts.len() >= 2 ==> whole_text(texts.push((name, body))) == Some(
            whole_text(texts)->0 + "\n=== "@ + name + " ===\n"@ + body,
        ),
        texts.len() == 1 ==> whole_text(texts.push((name, body))) == Some(
            "=== "@ + texts[0].0 + " ===\n"@ + texts[0].1 + "\n=== "@ + name + " ===\n"@ + body,
        ),
        texts.len() == 0 ==> whole_text(texts.push((name, body))) == Some(body),
{
    reveal_strlit("\n");
    reveal_strlit("=== ");
    reveal_strlit("\n=== ");
    let more = texts.push((name, body));
    assert(more.drop_last() =~= texts);
    assert("\n=== "@ =~= "\n"@ + "=== "@);
    if texts.len() >= 1 {
        assert(joined(more) =~= joined(texts) + "\n=== "@ + name + " ===\n"@ + body);
    }
    if texts.len() == 1 {
        assert(joined(texts) =~= "=== "@ + texts[0].0 + " ===\n"@ + texts[0].1);
    }
}

proof fn lemma_joined_holds(texts: Seq<(Seq<char>, Seq<char>)>, i: int) -> (at: int)
    requires
        0 <= i < texts.len(),
    ensures
        text::occurs_at(
            joined(texts),
            "=== "@ + texts[i].0 + " ===\n"@ + texts[i].1,
            at,
        ),
    decreases texts.len(),
{
    let want = "=== "@ + texts[i].0 + " ===\n"@ + texts[i].1;
    let all = joined(texts);
    if texts.len() == 1 {
        assert(all.subrange(0, want.len() as int) =~= want);
        0
    } else if i == texts.len() - 1 {
        let at = all.len() - want.len();
        assert(all.subrange(at, at + want.len()) =~= want);
        at
    } else {
        let at = lemma_joined_holds(texts.drop_last(), i);
        let front = joined(texts.drop_last());
        assert(all.subrange(at, at + want.len()) =~= front.subrange(at, at + want.len()));
        at
    }
}

/// Whether a file can be read as text: no directory, no PNG, short enough, and its
/// bytes are those of a text.
pub open spec fn is_text_file(r: RecordView) -> bool {
    &&& r.stat matches Ok(s) && !s.is_dir && s.len <= 1024 * 1024
    &&& !is_png(r.name)
    &&& r.bytes matches Ok(b) && vstd::utf8::valid_utf8(b) && !b.contains(0u8)
}

/// Whether a file can be read as an image: no directory, a PNG by its name, short
/// enough, and a PNG by its bytes, within the budget.
pub open spec fn is_image_file(r: RecordView) -> bool {
    &&& r.stat matches Ok(s) && !s.is_dir && s.len <= 32 * 1024 * 1024
    &&& is_png(r.name)
    &&& r.bytes matches Ok(b) && (png_pixels(b) matches Ok(Some((px, w, h))) && {
        let (small, sw, sh) = encode::sent(px, w, h);
        encode::png_of(small, sw, sh) is Ok
    })
}

/// The text of a file.
pub open spec fn body(r: RecordView) -> Seq<char> {
    vstd::utf8::decode_utf8(r.bytes->Ok_0)
}

/// The texts of the first `n` files that are more than white space, with their
/// names.
pub open spec fn bodies(records: Seq<RecordView>, n: int) -> Seq<(Seq<char>, Seq<char>)>
    decreases n,
{
    if n <= 0 {
        seq![]
    } else if !is_png(records[n - 1].name) && !clipboard::is_blank(body(records[n - 1])) {
        bodies(records, n - 1).push((records[n - 1].name, body(records[n - 1])))
    } else {
        bodies(records, n - 1)
    }
}

/// The images of the first `n` files.
pub open spec fn pictures(records: Seq<RecordView>, n: int) -> Seq<Seq<u8>>
    decreases n,
{
    if n <= 0 {
        seq![]
    } else if is_png(records[n - 1].name) {
        let (px, w, h) = png_pixels(records[n - 1].bytes->Ok_0)->Ok_0->0;
        let (small, sw, sh) = encode::sent(px, w, h);
        pictures(records, n - 1).push(encode::png_of(small, sw, sh)->Ok_0)
    } else {
        pictures(records, n - 1)
    }
}

/// Bytes of the texts of the first `n` files.
pub open spec fn text_bytes(records: Seq<RecordView>, n: int) -> int
    decreases n,
{
    if n <= 0 {
        0
    } else if !is_png(records[n - 1].name) {
        text_bytes(records, n - 1) + records[n - 1].bytes->Ok_0.len()
    } else {
        text_bytes(records, n - 1)
    }
}

proof fn lemma_text_bytes(records: Seq<RecordView>, n: int, m: int)
    requires
        0 <= n <= m,
    ensures
        0 <= text_bytes(records, n) <= text_bytes(records, m),
    decreases m,
{
    if n < m {
        lemma_text_bytes(records, n, m - 1);
    } else if m > 0 {
        lemma_text_bytes(records, m - 1, m - 1);
    }
}

proof fn lemma_all_taken(records: Seq<RecordView>, n: int)
    requires
        0 <= n <= records.len(),
        forall|i: int|
            0 <= i < n ==> is_text_file(#[trigger] records[i]) || is_image_file(records[i]),
        text_bytes(records, n) <= 2 * 1024 * 1024,
    ensures
        taken(records, n) matches Ok(t) && t.texts == bodies(records, n) && t.images == pictures(
            records,
            n,
        ) && t.unsupported.len() == 0 && t.total_text == text_bytes(records, n),
    decreases n,
{
    if n > 0 {
        let r = records[n - 1];
        lemma_text_bytes(records, n - 1, n);
        lemma_all_taken(records, n - 1);
        assert(is_text_file(r) || is_image_file(r));
        if is_text_file(r) {
            let b = r.bytes->Ok_0;
            vstd::utf8::decode_utf8_encode_utf8(b);
        }
    }
}

/// Good files are taken, and taken whole: where each is a text or an image that can
/// be read, and the texts are not too long together, the content has every text and
/// every image, in their order.
pub proof fn good_files_are_taken(records: Seq<RecordView>)
    requires
        forall|i: int|
            0 <= i < records.len() ==> is_text_file(#[trigger] records[i]) || is_image_file(
                records[i],
            ),
        text_bytes(records, records.len() as int) <= 2 * 1024 * 1024,
        bodies(records, records.len() as int).len() + pictures(records, records.len() as int).len()
            > 0,
    ensures
        content_of_files(records) matches Ok(c) && c.images == pictures(
            records,
            records.len() as int,
        ) && c.text == whole_text(bodies(records, records.len() as int)),
{
    if records.len() > 0 {
        lemma_all_taken(records, records.len() as int);
    }
}

/// Nothing that cannot be read slips through: content that files make comes from
/// files each of which is a text or an image that can be read, and whose texts are
/// not too long together.
pub proof fn content_comes_from_good_files(records: Seq<RecordView>, i: int)
    requires
        content_of_files(records) is Ok,
        0 <= i < records.len(),
    ensures
        is_text_file(records[i]) || is_image_file(records[i]),
        text_bytes(records, records.len() as int) <= 2 * 1024 * 1024,
{
    let n = records.len() as int;
    lemma_good_so_far(records, n, i);
}

proof fn lemma_good_so_far(records: Seq<RecordView>, n: int, i: int)
    requires
        0 <= n <= records.len(),
        taken(records, n) matches Ok(t) && t.unsupported.len() == 0,
    ensures
        0 <= i < n ==> is_text_file(records[i]) || is_image_file(records[i]),
        taken(records, n)->Ok_0.total_text == text_bytes(records, n),
        text_bytes(records, n) <= 2 * 1024 * 1024,
    decreases n,
{
    if n > 0 {
        lemma_good_so_far(records, n - 1, i);
        let r = records[n - 1];
        if part(r) is Text {
            let b = r.bytes->Ok_0;
            vstd::utf8::decode_utf8_encode_utf8(b);
        }
    }
}

/// Every text is in the content under its own name, to the last character; a single
/// one stands alone.
pub proof fn every_text_is_there(records: Seq<RecordView>, i: int) -> (at: int)
    requires
        content_of_files(records) is Ok,
        0 <= i < records.len(),
        is_text_file(records[i]),
        !clipboard::is_blank(body(records[i])),
    ensures
        content_of_files(records)->Ok_0.text matches Some(s) && (s == body(records[i])
            || text::occurs_at(
            s,
            "=== "@ + records[i].name + " ===\n"@ + body(records[i]),
            at,
        )),
{
    let n = records.len() as int;
    assert forall|k: int| 0 <= k < n implies is_text_file(#[trigger] records[k]) || is_image_file(
        records[k],
    ) by {
        content_comes_from_good_files(records, k);
    }
    content_comes_from_good_files(records, i);
    lemma_all_taken(records, n);
    let k = lemma_body_at(records, n, i);
    let texts = bodies(records, n);
    if texts.len() == 1 {
        0
    } else {
        lemma_joined_holds(texts, k)
    }
}

proof fn lemma_body_at(records: Seq<RecordView>, n: int, i: int) -> (k: int)
    requires
        0 <= i < n,
        !is_png(records[i].name),
        !clipboard::is_blank(body(records[i])),
    ensures
        0 <= k < bodies(records, n).len(),
        bodies(records, n)[k] == (records[i].name, body(records[i])),
    decreases n,
{
    if i == n - 1 {
        bodies(records, n).len() - 1
    } else {
        lemma_body_at(records, n - 1, i)
    }
}

/// What cannot be read is refused, all of it by name, unless something worse comes
/// of the files: a file that cannot be had, or too much of it.
pub proof fn what_cannot_be_read_is_named(records: Seq<RecordView>, i: int)
    requires
        0 <= i < records.len(),
        records[i].stat matches Ok(s) && (s.is_dir || s.len <= 1024 * 1024 && !is_png(
            records[i].name,
        ) && (records[i].bytes matches Ok(b) && (b.contains(0u8) || !vstd::utf8::valid_utf8(b)))),
    ensures
        content_of_files(records) matches Err(f) && (f matches Failure::Unsupported(names)
            ==> names.contains(records[i].name)),
        content_of_files(records)->Err_0 is Unsupported || taken(records, records.len() as int)
            is Err,
{
    let n = records.len() as int;
    assert(part(records[i]) is Unsupported);
    if taken(records, n) is Ok {
        lemma_unsupported_stays(records, n, i);
    } else {
        lemma_no_such_failure(records, n);
    }
}

proof fn lemma_unsupported_stays(records: Seq<RecordView>, n: int, i: int)
    requires
        0 <= i < n <= records.len(),
        taken(records, n) is Ok,
        part(records[i]) is Unsupported,
    ensures
        taken(records, n)->Ok_0.unsupported.contains(records[i].name),
    decreases n,
{
    let now = taken(records, n)->Ok_0.unsupported;
    if i == n - 1 {
        assert(now[now.len() - 1] == records[i].name);
    } else {
        lemma_unsupported_stays(records, n - 1, i);
        let before = taken(records, n - 1)->Ok_0.unsupported;
        let k = choose|k: int| 0 <= k < before.len() && before[k] == records[i].name;
        assert(now[k] == records[i].name);
    }
}

proof fn lemma_no_such_failure(records: Seq<RecordView>, n: int)
    requires
        0 <= n <= records.len(),
    ensures
        taken(records, n) matches Err(f) ==> !(f is Unsupported),
    decreases n,
{
    if n > 0 {
        lemma_no_such_failure(records, n - 1);
    }
}

/// What a file is goes by the end of its name: what follows the last dot, in any
/// case, where something stands before the dot.
pub proof fn the_extension_tells(stem: Seq<char>, extension: Seq<char>)
    requires
        !extension.contains('.'),
    ensures
        is_png(stem + seq!['.'] + extension) == (stem.len() > 0 && text::lowercase(extension)
            == "png"@),
        !is_png(extension),
{
    let name = stem + seq!['.'] + extension;
    lemma_last_index(name, '.', name.len() as int, stem.len() as int);
    assert(name.skip(stem.len() + 1int) =~= extension);
    lemma_no_index(extension, '.', extension.len() as int);
}

proof fn lemma_last_index(s: Seq<char>, c: char, n: int, i: int)
    requires
        0 <= i < n <= s.len(),
        s[i] == c,
        !s.skip(i + 1).contains(c),
    ensures
        last_index(s, c, n) == Some(i),
    decreases n,
{
    if n - 1 > i {
        assert(s.skip(i + 1)[n - 1 - (i + 1)] == s[n - 1]);
        lemma_last_index(s, c, n - 1, i);
    }
}

proof fn lemma_no_index(s: Seq<char>, c: char, n: int)
    requires
        0 <= n <= s.len(),
        !s.contains(c),
    ensures
        last_index(s, c, n) is None,
    decreases n,
{
    if n > 0 {
        assert(s.contains(s[n - 1]));
        lemma_no_index(s, c, n - 1);
    }
}

/// Pixels keep their colors: what has three or four samples keeps them in their
/// order, gray goes into all three colors, and what has no alpha is opaque.
pub proof fn pixels_keep_their_colors(px: Seq<u8>, n: int)
    requires
        0 <= n,
    ensures
        4 * n + 4 <= px.len() ==> rgba_pixels(PngColor::Rgba, px).subrange(4 * n, 4 * n + 4)
            == px.subrange(4 * n, 4 * n + 4),
        3 * n + 3 <= px.len() ==> rgba_pixels(PngColor::Rgb, px).subrange(4 * n, 4 * n + 4)
            == px.subrange(3 * n, 3 * n + 3).push(255),
        2 * n + 2 <= px.len() ==> rgba_pixels(PngColor::GrayscaleAlpha, px).subrange(
            4 * n,
            4 * n + 4,
        ) == seq![px[2 * n], px[2 * n], px[2 * n], px[2 * n + 1]],
        n < px.len() ==> rgba_pixels(PngColor::Grayscale, px).subrange(4 * n, 4 * n + 4) == seq![
            px[n],
            px[n],
            px[n],
            255u8,
        ],
{
    if 4 * n + 4 <= px.len() {
        assert(rgba_pixels(PngColor::Rgba, px).subrange(4 * n, 4 * n + 4) =~= px.subrange(
            4 * n,
            4 * n + 4,
        ));
    }
    if 3 * n + 3 <= px.len() {
        assert(rgba_pixels(PngColor::Rgb, px).subrange(4 * n, 4 * n + 4) =~= px.subrange(
            3 * n,
            3 * n + 3,
        ).push(255));
    }
    if 2 * n + 2 <= px.len() {
        assert(rgba_pixels(PngColor::GrayscaleAlpha, px).subrange(4 * n, 4 * n + 4) =~= seq![
            px[2 * n],
            px[2 * n],
            px[2 * n],
            px[2 * n + 1],
        ]);
    }
    if n < px.len() {
        assert(rgba_pixels(PngColor::Grayscale, px).subrange(4 * n, 4 * n + 4) =~= seq![
            px[n],
            px[n],
            px[n],
            255u8,
        ]);
    }
}

} // verus!
