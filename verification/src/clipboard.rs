//! What a clipboard holds, and how a copy out of another program is awaited.
//!
//! Moments are nanoseconds on a monotonic clock.

use crate::error::ClipboardError;
use crate::error::PlatformError;
use crate::files;
use crate::files::ingest_files;
use crate::files::Failure;
use crate::files::FileRecord;
use crate::hotkey::MILLISECOND;
use crate::text;
use crate::text::chars_of;
use crate::text::trimmed;
use crate::text::CharClass;
use std::sync::Arc;
use vstd::prelude::*;

verus! {

/// How often to look for the copy.
pub const CLIPBOARD_POLL_INTERVAL_MS: u64 = 50;

/// How long to look for the copy.
pub const CLIPBOARD_POLL_TIMEOUT_MS: u64 = 500;

/// How long to wait at most for the hotkey's modifiers to be released before
/// the copy chord is sent. A watcher that is stuck cannot stall a capture.
pub const MODIFIER_RELEASE_TIMEOUT_MS: u64 = 300;

/// How often to look at the modifiers.
pub const MODIFIER_RELEASE_POLL_INTERVAL_MS: u64 = 10;

/// How long to let things settle once the modifiers are released.
pub const MODIFIER_RELEASE_GRACE_MS: u64 = 40;

/// How long to let things settle where nothing watches the modifiers.
pub const FALLBACK_MODIFIER_SETTLE_MS: u64 = 200;

/// Text, images, or both.
#[derive(Debug, Clone, PartialEq)]
pub struct ClipboardContent {
    pub text: Option<String>,
    /// Images encoded as PNG.
    pub images: Vec<Arc<Vec<u8>>>,
    /// Names of the files that the content was read from. Shown, never sent.
    pub files: Vec<String>,
}

/// What is in a [`ClipboardContent`].
#[verifier::ext_equal]
pub struct ContentView {
    pub text: Option<Seq<char>>,
    pub images: Seq<Seq<u8>>,
    pub files: Seq<Seq<char>>,
}

/// What is in a run of images.
pub open spec fn images_view(v: Seq<Arc<Vec<u8>>>) -> Seq<Seq<u8>> {
    v.map_values(|b: Arc<Vec<u8>>| b@)
}

/// What is in a run of texts.
pub open spec fn names_view(v: Seq<String>) -> Seq<Seq<char>> {
    v.map_values(|s: String| s@)
}

/// Whether `s` is nothing but white space.
pub open spec fn is_blank(s: Seq<char>) -> bool {
    text::trim(s, CharClass::Space).len() == 0
}

/// Whether `s` is nothing but white space.
pub fn blank(s: &str) -> (r: bool)
    ensures
        r == is_blank(s@),
{
    trimmed(&chars_of(s), CharClass::Space).len() == 0
}

impl ClipboardContent {
    /// What is in it.
    pub open spec fn view(&self) -> ContentView {
        ContentView {
            text: match self.text {
                Some(t) => Some(t@),
                None => None,
            },
            images: images_view(self.images@),
            files: names_view(self.files@),
        }
    }

    /// Text alone.
    pub fn text_only(text: String) -> (r: ClipboardContent)
        ensures
            r@ == (ContentView { text: Some(text@), images: Seq::empty(), files: Seq::empty() }),
    {
        let r = ClipboardContent { text: Some(text), images: Vec::new(), files: Vec::new() };
        assert(r@.images =~= Seq::empty());
        assert(r@.files =~= Seq::empty());
        r
    }

    /// Whether there is neither text nor image.
    pub fn is_empty(&self) -> (r: bool)
        ensures
            r == (self@.text is None && self@.images.len() == 0),
    {
        self.text.is_none() && self.images.len() == 0
    }

    /// Whether there is text that is more than white space.
    pub fn has_text(&self) -> (r: bool)
        ensures
            r == (self@.text matches Some(t) && !is_blank(t)),
    {
        match &self.text {
            Some(t) => !blank(t.as_str()),
            None => false,
        }
    }

    /// Whether there is an image.
    pub fn has_images(&self) -> (r: bool)
        ensures
            r == (self@.images.len() > 0),
    {
        self.images.len() > 0
    }

    /// Whether there are images and no text at all; text that is only white
    /// space counts as text here.
    pub fn is_image_only(&self) -> (r: bool)
        ensures
            r == (self@.text is None && self@.images.len() > 0),
    {
        self.text.is_none() && self.has_images()
    }
}

// ---------------------------------------------------------------------------
// Reading
// ---------------------------------------------------------------------------

/// `t`, unless it is only white space.
pub open spec fn worded(t: Option<Seq<char>>) -> Option<Seq<char>> {
    match t {
        Some(s) => if is_blank(s) {
            None
        } else {
            Some(s)
        },
        None => None,
    }
}

fn keep_worded(t: Option<String>) -> (r: Option<String>)
    ensures
        (match r {
            Some(s) => Some(s@),
            None => None,
        }) == worded(
            match t {
                Some(s) => Some(s@),
                None => None,
            },
        ),
{
    match t {
        Some(s) => if blank(s.as_str()) {
            None
        } else {
            Some(s)
        },
        None => None,
    }
}

/// The clipboard's text; none, and nothing but white space, is an error.
pub fn read_clipboard(t: Option<String>) -> (r: Result<String, ClipboardError>)
    ensures
        match r {
            Ok(s) => t == Some(s) && !is_blank(s@),
            Err(e) => e is NoTextInClipboard && (t matches Some(s) ==> is_blank(s@)),
        },
{
    match t {
        Some(s) => if blank(s.as_str()) {
            Err(ClipboardError::NoTextInClipboard)
        } else {
            Ok(s)
        },
        None => Err(ClipboardError::NoTextInClipboard),
    }
}

/// What a clipboard holds. Text and images count only where there are no files:
/// a file manager that copies files also offers their names as text.
#[derive(Debug)]
pub struct Held {
    pub files: Vec<FileRecord>,
    pub text: Option<String>,
    /// The images, or why they cannot be used.
    pub images: Result<Vec<Arc<Vec<u8>>>, ClipboardError>,
}

/// The content made of what a clipboard holds: `None` where there is nothing,
/// and text that is only white space counts for nothing.
pub open spec fn held(h: Held) -> Result<Option<ContentView>, Failure> {
    if h.files@.len() > 0 {
        match files::content_of_files(files::records_view(h.files@)) {
            Ok(c) => Ok(Some(c)),
            Err(f) => Err(f),
        }
    } else {
        match h.images {
            Err(e) => Err(files::failure(e)),
            Ok(v) => {
                let wording = worded(
                    match h.text {
                        Some(s) => Some(s@),
                        None => None,
                    },
                );
                if wording is None && v@.len() == 0 {
                    Ok(None)
                } else {
                    Ok(
                        Some(
                            ContentView {
                                text: wording,
                                images: images_view(v@),
                                files: Seq::empty(),
                            },
                        ),
                    )
                }
            },
        }
    }
}

/// What a reading came to.
pub open spec fn reading_view(r: Result<Option<ClipboardContent>, ClipboardError>) -> Result<
    Option<ContentView>,
    Failure,
> {
    match r {
        Ok(Some(c)) => Ok(Some(c@)),
        Ok(None) => Ok(None),
        Err(e) => Err(files::failure(e)),
    }
}

/// What an outcome says.
pub open spec fn outcome_view(r: Result<ClipboardContent, ClipboardError>) -> Result<
    ContentView,
    Failure,
> {
    match r {
        Ok(c) => Ok(c@),
        Err(e) => Err(files::failure(e)),
    }
}

fn take_held(h: Held) -> (r: Result<Option<ClipboardContent>, ClipboardError>)
    ensures
        reading_view(r) == held(h),
{
    if h.files.len() > 0 {
        return match ingest_files(h.files) {
            Ok(c) => Ok(Some(c)),
            Err(e) => Err(e),
        };
    }
    match h.images {
        Err(e) => Err(e),
        Ok(images) => {
            let content = ClipboardContent {
                text: keep_worded(h.text),
                images,
                files: Vec::new(),
            };
            assert(content@.files =~= Seq::empty());
            if content.is_empty() {
                Ok(None)
            } else {
                Ok(Some(content))
            }
        },
    }
}

/// The content of a clipboard, which is an error where there is none, and where
/// what there is cannot be used.
pub fn read_content(h: Held) -> (r: Result<ClipboardContent, ClipboardError>)
    ensures
        outcome_view(r) == match held(h) {
            Ok(Some(c)) => Ok(c),
            Ok(None) => Err(Failure::NoFiles),
            Err(f) => Err(f),
        },
{
    match take_held(h) {
        Ok(Some(c)) => Ok(c),
        Ok(None) => Err(ClipboardError::NoTextInClipboard),
        Err(e) => Err(e),
    }
}

// ---------------------------------------------------------------------------
// Capturing a selection
// ---------------------------------------------------------------------------

/// `start` and so many milliseconds later, as far as the clock goes.
pub open spec fn later(start: u64, ms: u64) -> u64 {
    if start + ms * MILLISECOND <= u64::MAX {
        (start + ms * MILLISECOND) as u64
    } else {
        u64::MAX
    }
}

fn moment_after(start: u64, ms: u64) -> (r: u64)
    requires
        ms <= 1_000_000,
    ensures
        r == later(start, ms),
{
    start.saturating_add(ms * MILLISECOND)
}

/// What a capture sleeps for.
#[derive(Debug, Clone, Copy, PartialEq, Eq, Structural)]
pub enum Pause {
    /// The hotkey's modifiers are to be released, so that the copy chord is not
    /// mixed up with keys that are still down. It is waited until this moment
    /// at most: a watcher that is stuck cannot stall a capture.
    Release { deadline: u64 },
    /// The modifiers were released; things are to settle.
    Grace,
    /// Nothing watches the modifiers; they are to be released meanwhile.
    Settle,
    /// The copy is to come.
    Copy(CopyWait),
}

/// Waits for a copy to come.
#[derive(Debug, Clone, Copy, PartialEq, Eq, Structural)]
pub struct CopyWait {
    /// The clipboard's change counter before the copy.
    pub baseline: u64,
    /// When it is given up.
    pub deadline: u64,
    /// Whether the counter has changed.
    pub copy_landed: bool,
}

/// What a capture does next. The clipboard is never cleared for it, so one that
/// fails leaves it as it was.
#[derive(Debug)]
pub enum CaptureStep {
    /// Sleep for so many milliseconds, and go on with [`Pause::over`].
    Sleep(u64, Pause),
    /// Take the change counter, send the copy chord, and go on with [`copied`].
    Copy,
    /// Read what the clipboard holds, and go on with [`CopyWait::read`].
    Read(CopyWait),
    /// It is over.
    Finish(Result<ClipboardContent, ClipboardError>),
}

/// What a [`CaptureStep`] says.
pub enum StepView {
    Sleep(u64, Pause),
    Copy,
    Read(CopyWait),
    Finish(Result<ContentView, Failure>),
}

impl CaptureStep {
    /// What it says.
    pub open spec fn view(&self) -> StepView {
        match self {
            CaptureStep::Sleep(ms, pause) => StepView::Sleep(*ms, *pause),
            CaptureStep::Copy => StepView::Copy,
            CaptureStep::Read(w) => StepView::Read(*w),
            CaptureStep::Finish(r) => StepView::Finish(outcome_view(*r)),
        }
    }
}

/// How a capture is given up.
pub open spec fn given_up() -> StepView {
    StepView::Finish(Err(Failure::Cancelled))
}

/// What is done about the modifiers: it is waited while they are held and there
/// is time left.
pub open spec fn after_release(deadline: u64, is_held: bool, cancelled: bool, now: u64) -> StepView {
    if cancelled {
        given_up()
    } else if is_held && now < deadline {
        StepView::Sleep(MODIFIER_RELEASE_POLL_INTERVAL_MS, Pause::Release { deadline })
    } else {
        StepView::Sleep(MODIFIER_RELEASE_GRACE_MS, Pause::Grace)
    }
}

/// What is done where no content is there yet. A copy that came and holds
/// nothing is another failure than none.
pub open spec fn without_content(w: CopyWait, now: u64) -> StepView {
    if now < w.deadline {
        StepView::Sleep(CLIPBOARD_POLL_INTERVAL_MS, Pause::Copy(w))
    } else if w.copy_landed {
        StepView::Finish(Err(Failure::Empty))
    } else {
        StepView::Finish(Err(Failure::NoCopy))
    }
}

/// What is done after a pause. `count` is the clipboard's change counter.
pub open spec fn after_pause(
    p: Pause,
    is_held: bool,
    cancelled: bool,
    count: u64,
    now: u64,
) -> StepView {
    match p {
        Pause::Release { deadline } => after_release(deadline, is_held, cancelled, now),
        Pause::Grace => StepView::Copy,
        Pause::Settle => if cancelled {
            given_up()
        } else {
            StepView::Copy
        },
        Pause::Copy(w) => if cancelled {
            given_up()
        } else if count != w.baseline {
            StepView::Read(CopyWait { copy_landed: true, ..w })
        } else {
            without_content(w, now)
        },
    }
}

fn watch_release(deadline: u64, is_held: bool, cancelled: bool, now: u64) -> (r: CaptureStep)
    ensures
        r@ == after_release(deadline, is_held, cancelled, now),
{
    if cancelled {
        CaptureStep::Finish(Err(ClipboardError::Cancelled))
    } else if is_held && now < deadline {
        CaptureStep::Sleep(MODIFIER_RELEASE_POLL_INTERVAL_MS, Pause::Release { deadline })
    } else {
        CaptureStep::Sleep(MODIFIER_RELEASE_GRACE_MS, Pause::Grace)
    }
}

/// Begins to capture what is selected in another program. `watched` tells
/// whether the modifiers are watched, and `is_held` whether they are then held.
pub fn capture(watched: bool, is_held: bool, cancelled: bool, now: u64) -> (r: CaptureStep)
    ensures
        r@ == if watched {
            after_release(later(now, MODIFIER_RELEASE_TIMEOUT_MS), is_held, cancelled, now)
        } else {
            StepView::Sleep(FALLBACK_MODIFIER_SETTLE_MS, Pause::Settle)
        },
{
    if watched {
        let deadline = moment_after(now, MODIFIER_RELEASE_TIMEOUT_MS);
        watch_release(deadline, is_held, cancelled, now)
    } else {
        CaptureStep::Sleep(FALLBACK_MODIFIER_SETTLE_MS, Pause::Settle)
    }
}

/// Goes on once the chord was sent, or was not.
pub fn copied(baseline: u64, sent: Result<(), PlatformError>, now: u64) -> (r: CaptureStep)
    ensures
        r@ == match sent {
            Ok(_) => StepView::Sleep(
                CLIPBOARD_POLL_INTERVAL_MS,
                Pause::Copy(
                    CopyWait {
                        baseline,
                        deadline: later(now, CLIPBOARD_POLL_TIMEOUT_MS),
                        copy_landed: false,
                    },
                ),
            ),
            Err(e) => StepView::Finish(Err(Failure::NotSent(e))),
        },
{
    match sent {
        Ok(_) => {
            let deadline = moment_after(now, CLIPBOARD_POLL_TIMEOUT_MS);
            let wait = CopyWait { baseline, deadline, copy_landed: false };
            CaptureStep::Sleep(CLIPBOARD_POLL_INTERVAL_MS, Pause::Copy(wait))
        },
        Err(e) => CaptureStep::Finish(Err(ClipboardError::CopyFailed(e))),
    }
}

impl Pause {
    /// Goes on after the pause. `count` is the clipboard's change counter; it
    /// may change before the content is there.
    pub fn over(self, is_held: bool, cancelled: bool, count: u64, now: u64) -> (r: CaptureStep)
        ensures
            r@ == after_pause(self, is_held, cancelled, count, now),
    {
        match self {
            Pause::Release { deadline } => watch_release(deadline, is_held, cancelled, now),
            Pause::Grace => CaptureStep::Copy,
            Pause::Settle => if cancelled {
                CaptureStep::Finish(Err(ClipboardError::Cancelled))
            } else {
                CaptureStep::Copy
            },
            Pause::Copy(wait) => if cancelled {
                CaptureStep::Finish(Err(ClipboardError::Cancelled))
            } else if count != wait.baseline {
                CaptureStep::Read(
                    CopyWait {
                        baseline: wait.baseline,
                        deadline: wait.deadline,
                        copy_landed: true,
                    },
                )
            } else {
                wait.expire(now)
            },
        }
    }
}

impl CopyWait {
    fn expire(self, now: u64) -> (r: CaptureStep)
        ensures
            r@ == without_content(self, now),
    {
        if now < self.deadline {
            CaptureStep::Sleep(CLIPBOARD_POLL_INTERVAL_MS, Pause::Copy(self))
        } else if self.copy_landed {
            CaptureStep::Finish(Err(ClipboardError::EmptyCopy))
        } else {
            CaptureStep::Finish(Err(ClipboardError::NoTextAfterCopy))
        }
    }

    /// Goes on with what the clipboard holds; where that is nothing, the
    /// content may still come.
    pub fn read(self, h: Held, now: u64) -> (r: CaptureStep)
        ensures
            r@ == match held(h) {
                Ok(Some(c)) => StepView::Finish(Ok(c)),
                Ok(None) => without_content(self, now),
                Err(f) => StepView::Finish(Err(f)),
            },
    {
        match take_held(h) {
            Ok(Some(c)) => CaptureStep::Finish(Ok(c)),
            Ok(None) => self.expire(now),
            Err(e) => CaptureStep::Finish(Err(e)),
        }
    }
}

/// A capture that is cancelled ends after the pause that it is in, unless the
/// chord is about to be sent.
pub proof fn cancelled_captures_end(p: Pause, is_held: bool, count: u64, now: u64)
    requires
        !(p is Grace),
    ensures
        after_pause(p, is_held, true, count, now) == given_up(),
{
}

/// No chord is sent while the modifiers are seen to be held and there is time
/// left, and none later than one more pause after that.
pub proof fn the_chord_waits_for_the_modifiers(
    deadline: u64,
    is_held: bool,
    held_then: bool,
    cancelled: bool,
    count: u64,
    now: u64,
    then: u64,
)
    ensures
        ({
            let step = after_pause(Pause::Release { deadline }, is_held, cancelled, count, now);
            &&& !(step is Copy)
            &&& step matches StepView::Sleep(_, p) ==> (p == Pause::Release { deadline } && is_held
                && now < deadline) || (p == Pause::Grace && after_pause(
                p,
                held_then,
                cancelled,
                count,
                then,
            ) == StepView::Copy)
        }),
{
}

/// Once its time is over, a capture that waits for the copy does not sleep any
/// more, whatever came.
pub proof fn captures_come_to_an_end(w: CopyWait, is_held: bool, cancelled: bool, count: u64, now: u64)
    requires
        now >= w.deadline,
    ensures
        ({
            let step = after_pause(Pause::Copy(w), is_held, cancelled, count, now);
            step is Finish || (step matches StepView::Read(next) && next.deadline == w.deadline
                && without_content(next, now) == StepView::Finish(Err(Failure::Empty)))
        }),
{
}

} // verus!
