//! A record of the frames that were drawn, and what of it is kept when the
//! window goes from one state to another.

use crate::numbers;
use crate::numbers::padded_of;
use crate::numbers::parse_u64;
use crate::text;
use crate::text::chars_of;
use crate::text::push_text;
use crate::text::str_same;
use crate::text::string_of;
use crate::text::trimmed;
use crate::text::CharClass;
use vstd::prelude::*;

verus! {

/// How many frames are kept.
pub const RING_CAPACITY: usize = 120;

/// How many of the frames before a transition are kept with it.
pub const TAIL_FRAMES: usize = 20;

/// How many frames after the window has settled it is captured.
pub const POST_SETTLE_DELAY: u64 = 10;

/// How many frames a capture may take to come.
pub const STALE_FRAMES: u64 = 30;

/// The gray that transparent parts are shown over, unless told otherwise.
pub const DEFAULT_BACKDROP: u8 = 20;

/// One frame.
#[derive(Debug, Clone, Copy, PartialEq)]
pub struct FrameSnapshot {
    /// Its number.
    pub frame: u64,
    pub state: &'static str,
    pub mode: &'static str,
    /// Whether the window was meant to have a size.
    pub shown: bool,
    /// Whether it had the size that it was meant to have, nearly.
    pub settled: bool,
    /// Stands for its size and place: equal where they are, and only there.
    pub geometry: u64,
    /// Whether the user moved it.
    pub user_repositioned: bool,
}

/// A transition, with the frames around it.
#[derive(Debug)]
pub struct TransitionContext {
    pub from: String,
    pub to: String,
    /// The number of the first frame after it.
    pub frame: u64,
    pub timestamp: String,
    /// The last frame before it.
    pub snapshot: Option<FrameSnapshot>,
    /// The last frames before it.
    pub ring_tail: Vec<FrameSnapshot>,
    /// The frames after it.
    pub post_frames: Vec<FrameSnapshot>,
    /// Whether the window kept its size and place; `None` where it need not.
    pub geometry_stable: Option<bool>,
}

/// What a transition says.
#[verifier::ext_equal]
pub struct ContextView {
    pub from: Seq<char>,
    pub to: Seq<char>,
    pub frame: u64,
    pub timestamp: Seq<char>,
    pub snapshot: Option<FrameSnapshot>,
    pub ring_tail: Seq<FrameSnapshot>,
    pub post_frames: Seq<FrameSnapshot>,
    pub geometry_stable: Option<bool>,
}

impl TransitionContext {
    /// What it says.
    pub open spec fn view(&self) -> ContextView {
        ContextView {
            from: self.from@,
            to: self.to@,
            frame: self.frame,
            timestamp: self.timestamp@,
            snapshot: self.snapshot,
            ring_tail: self.ring_tail@,
            post_frames: self.post_frames@,
            geometry_stable: self.geometry_stable,
        }
    }
}

/// What is to be written of a transition, and the name to write it under.
#[derive(Debug)]
pub struct Dump {
    pub prefix: String,
    pub context: TransitionContext,
}

/// What is to be done about capturing the window.
#[derive(Debug, Clone, Copy, PartialEq, Eq, Structural)]
pub enum CaptureStep {
    /// Nothing.
    Idle,
    /// Another frame is needed.
    Repaint,
    /// Another frame is needed, and the capture of this one.
    Capture,
}

/// Records frames and transitions.
#[derive(Debug)]
pub struct DiagCollector {
    ring: Vec<FrameSnapshot>,
    frame_counter: u64,
    pending_screenshot: bool,
    screenshot_requested: bool,
    settled_at_frame: Option<u64>,
    dump_counter: u32,
    transition_ctx: Option<TransitionContext>,
}

/// What a collector knows.
#[verifier::ext_equal]
pub struct CollectorView {
    /// The frames that are kept, the newest last.
    pub ring: Seq<FrameSnapshot>,
    /// How many frames there were.
    pub frames: u64,
    /// Whether a transition waits for the window to be captured.
    pub pending: bool,
    /// Whether the capture was asked for.
    pub requested: bool,
    /// The frame at which the window had settled.
    pub settled_at: Option<u64>,
    /// How many transitions were written.
    pub dumps: u32,
    pub transition: Option<ContextView>,
}

/// What an optional transition says.
pub open spec fn context_view(c: Option<TransitionContext>) -> Option<ContextView> {
    match c {
        Some(t) => Some(t@),
        None => None,
    }
}

impl View for DiagCollector {
    type V = CollectorView;

    closed spec fn view(&self) -> CollectorView {
        CollectorView {
            ring: self.ring@,
            frames: self.frame_counter,
            pending: self.pending_screenshot,
            requested: self.screenshot_requested,
            settled_at: self.settled_at_frame,
            dumps: self.dump_counter,
            transition: context_view(self.transition_ctx),
        }
    }
}

/// Whether a collector is in order: it keeps no more frames than it may, and
/// knows of no frame that is yet to come.
pub open spec fn well_formed(c: CollectorView) -> bool {
    &&& c.ring.len() <= RING_CAPACITY
    &&& c.settled_at matches Some(f) ==> f <= c.frames
}

/// The newest `n` of `v`.
pub open spec fn newest(v: Seq<FrameSnapshot>, n: int) -> Seq<FrameSnapshot> {
    if v.len() <= n {
        v
    } else {
        v.skip(v.len() - n)
    }
}

/// The frames from number `first` on.
pub open spec fn frames_from(v: Seq<FrameSnapshot>, first: u64) -> Seq<FrameSnapshot>
    decreases v.len(),
{
    if v.len() == 0 {
        seq![]
    } else if v.last().frame >= first {
        frames_from(v.drop_last(), first).push(v.last())
    } else {
        frames_from(v.drop_last(), first)
    }
}

/// Whether a state is one in which the window must not move. Where the size is
/// changed on purpose, or another window is up, it may.
pub open spec fn is_steady(state: Seq<char>) -> bool {
    !(state == "Hidden"@ || state == "Settings"@ || state == "SettingsEdited"@ || state
        == "SettingsSwitched"@ || state == "Resized"@ || state == "Scrolled"@)
}

/// The first frame from `i` on in which the window was meant to have a size.
pub open spec fn first_shown(v: Seq<FrameSnapshot>, i: int) -> Option<int>
    decreases v.len() - i,
{
    if i < 0 || i >= v.len() {
        None
    } else if v[i].shown {
        Some(i)
    } else {
        first_shown(v, i + 1)
    }
}

/// Whether the window kept its size and place over these frames; `None` where
/// it was not there.
pub open spec fn stability(v: Seq<FrameSnapshot>) -> Option<bool> {
    match first_shown(v, 0) {
        Some(i) => Some(
            forall|j: int|
                0 <= j < v.len() && (#[trigger] v[j]).shown ==> v[j].geometry == v[i].geometry,
        ),
        None => None,
    }
}

/// A transition with the frames after it.
pub open spec fn judged(c: ContextView, ring: Seq<FrameSnapshot>) -> ContextView {
    let post = frames_from(ring, c.frame);
    ContextView {
        post_frames: post,
        geometry_stable: if is_steady(c.from) && is_steady(c.to) && stability(post) is Some {
            stability(post)
        } else {
            c.geometry_stable
        },
        ..c
    }
}

/// The name under which the transition number `n` is written.
pub open spec fn dump_name(n: u32, from: Seq<char>, to: Seq<char>) -> Seq<char> {
    numbers::padded(n as nat, 3) + "_"@ + from + "_to_"@ + to
}

/// Whether the capture has not come in time.
pub open spec fn is_stale(c: CollectorView) -> bool {
    c.pending && (c.transition matches Some(t) && c.frames - t.frame > STALE_FRAMES)
}

/// Whether `d` is what is to be written of the transition of `c`.
pub open spec fn dumps_transition(d: Dump, c: CollectorView) -> bool {
    c.transition matches Some(t) && d.context@ == judged(t, c.ring) && d.prefix@ == dump_name(
        (c.dumps + 1) as u32,
        t.from,
        t.to,
    )
}

fn steady(state: &str) -> (r: bool)
    ensures
        r == is_steady(state@),
{
    !(str_same(state, "Hidden") || str_same(state, "Settings") || str_same(state, "SettingsEdited")
        || str_same(state, "SettingsSwitched") || str_same(state, "Resized") || str_same(
        state,
        "Scrolled",
    ))
}

fn keep_from(v: &Vec<FrameSnapshot>, first: u64) -> (r: Vec<FrameSnapshot>)
    ensures
        r@ == frames_from(v@, first),
{
    let mut r: Vec<FrameSnapshot> = Vec::new();
    let mut i: usize = 0;
    assert(v@.take(0) =~= seq![]);
    while i < v.len()
        invariant
            i <= v@.len(),
            r@ == frames_from(v@.take(i as int), first),
        decreases v.len() - i,
    {
        assert(v@.take(i + 1).drop_last() =~= v@.take(i as int));
        if v[i].frame >= first {
            r.push(v[i]);
        }
        i += 1;
    }
    assert(v@.take(i as int) =~= v@);
    r
}

fn judge(v: &Vec<FrameSnapshot>) -> (r: Option<bool>)
    ensures
        r == stability(v@),
{
    let mut i: usize = 0;
    while i < v.len() && !v[i].shown
        invariant
            i <= v@.len(),
            first_shown(v@, 0) == first_shown(v@, i as int),
            forall|j: int| 0 <= j < i ==> !(#[trigger] v@[j]).shown,
        decreases v.len() - i,
    {
        i += 1;
    }
    if i == v.len() {
        return None;
    }
    let first = v[i].geometry;
    let mut k: usize = i;
    while k < v.len()
        invariant
            i <= k <= v@.len(),
            i < v@.len(),
            first == v@[i as int].geometry,
            first_shown(v@, 0) == Some(i as int),
            forall|j: int| 0 <= j < k && (#[trigger] v@[j]).shown ==> v@[j].geometry == first,
        decreases v.len() - k,
    {
        if v[k].shown && v[k].geometry != first {
            assert(v@[k as int].shown);
            return Some(false);
        }
        k += 1;
    }
    Some(true)
}

fn name_dump(n: u32, from: &str, to: &str) -> (r: String)
    ensures
        r@ == dump_name(n, from@, to@),
{
    let mut v = padded_of(n as u64, 3);
    push_text(&mut v, "_");
    push_text(&mut v, from);
    push_text(&mut v, "_to_");
    push_text(&mut v, to);
    string_of(&v)
}

fn finalize_geometry(ring: &Vec<FrameSnapshot>, tctx: TransitionContext) -> (r: TransitionContext)
    ensures
        r@ == judged(tctx@, ring@),
{
    let mut t = tctx;
    t.post_frames = keep_from(ring, t.frame);
    if steady(t.from.as_str()) && steady(t.to.as_str()) {
        let s = judge(&t.post_frames);
        if s.is_some() {
            t.geometry_stable = s;
        }
    }
    t
}

impl DiagCollector {
    /// An empty record.
    pub fn new() -> (r: Self)
        ensures
            r@ == (CollectorView {
                ring: seq![],
                frames: 0,
                pending: false,
                requested: false,
                settled_at: None,
                dumps: 0,
                transition: None,
            }),
            well_formed(r@),
    {
        DiagCollector {
            ring: Vec::new(),
            frame_counter: 0,
            pending_screenshot: false,
            screenshot_requested: false,
            settled_at_frame: None,
            dump_counter: 0,
            transition_ctx: None,
        }
    }

    /// How many frames there were.
    pub fn frame_counter(&self) -> (r: u64)
        ensures
            r == self@.frames,
    {
        self.frame_counter
    }

    /// Records a frame. The oldest makes room for it.
    pub fn record_frame(&mut self, snapshot: FrameSnapshot)
        requires
            well_formed(old(self)@),
            old(self)@.frames < u64::MAX,
        ensures
            well_formed(final(self)@),
            final(self)@ == (CollectorView {
                ring: newest(old(self)@.ring, RING_CAPACITY - 1).push(snapshot),
                frames: (old(self)@.frames + 1) as u64,
                ..old(self)@
            }),
    {
        if self.ring.len() >= RING_CAPACITY {
            let _ = self.ring.remove(0);
            assert(self.ring@ =~= newest(old(self)@.ring, RING_CAPACITY - 1));
        }
        self.ring.push(snapshot);
        self.frame_counter += 1;
    }

    /// Notes a transition. The window is captured once it has settled.
    pub fn on_state_transition(&mut self, from: &str, to: &str, timestamp: String)
        requires
            well_formed(old(self)@),
        ensures
            well_formed(final(self)@),
            final(self)@ == (CollectorView {
                pending: true,
                requested: false,
                settled_at: None,
                transition: Some(
                    ContextView {
                        from: from@,
                        to: to@,
                        frame: old(self)@.frames,
                        timestamp: timestamp@,
                        snapshot: if old(self)@.ring.len() > 0 {
                            Some(old(self)@.ring.last())
                        } else {
                            None
                        },
                        ring_tail: newest(old(self)@.ring, TAIL_FRAMES as int),
                        post_frames: seq![],
                        geometry_stable: None,
                    },
                ),
                ..old(self)@
            }),
    {
        let total: usize = self.ring.len();
        let first: usize = if total > TAIL_FRAMES {
            total - TAIL_FRAMES
        } else {
            0
        };
        let mut tail: Vec<FrameSnapshot> = Vec::new();
        let mut i: usize = first;
        while i < total
            invariant
                first <= i <= total,
                total == self.ring@.len(),
                tail@ == self.ring@.subrange(first as int, i as int),
            decreases total - i,
        {
            tail.push(self.ring[i]);
            i += 1;
            assert(tail@ =~= self.ring@.subrange(first as int, i as int));
        }
        assert(tail@ =~= newest(self.ring@, TAIL_FRAMES as int));
        let snapshot = if total > 0 {
            Some(self.ring[total - 1])
        } else {
            None
        };
        self.transition_ctx = Some(
            TransitionContext {
                from: from.to_owned(),
                to: to.to_owned(),
                frame: self.frame_counter,
                timestamp,
                snapshot,
                ring_tail: tail,
                post_frames: Vec::new(),
                geometry_stable: None,
            },
        );
        self.pending_screenshot = true;
        self.screenshot_requested = false;
        self.settled_at_frame = None;
    }

    /// What is to be done after a frame: the window is captured a little after
    /// it has settled, when it is fully there.
    pub fn tick_screenshot(&mut self) -> (r: CaptureStep)
        requires
            well_formed(old(self)@),
        ensures
            well_formed(final(self)@),
            ({
                let c = old(self)@;
                let waits = c.pending && !c.requested;
                let settled = c.ring.len() > 0 && c.ring.last().settled;
                let since = match c.settled_at {
                    Some(f) => f,
                    None => c.frames,
                };
                let due = waits && settled && c.frames - since >= POST_SETTLE_DELAY;
                &&& r == if !waits {
                    CaptureStep::Idle
                } else if due {
                    CaptureStep::Capture
                } else {
                    CaptureStep::Repaint
                }
                &&& final(self)@ == (CollectorView {
                    requested: c.requested || due,
                    settled_at: if waits && settled {
                        Some(since)
                    } else {
                        c.settled_at
                    },
                    ..c
                })
            }),
    {
        if !self.pending_screenshot || self.screenshot_requested {
            return CaptureStep::Idle;
        }
        let total: usize = self.ring.len();
        if total == 0 || !self.ring[total - 1].settled {
            return CaptureStep::Repaint;
        }
        let since: u64 = match self.settled_at_frame {
            Some(f) => f,
            None => self.frame_counter,
        };
        self.settled_at_frame = Some(since);
        if self.frame_counter - since >= POST_SETTLE_DELAY {
            self.screenshot_requested = true;
            return CaptureStep::Capture;
        }
        CaptureStep::Repaint
    }

    /// What is to be written now that the window was captured.
    pub fn on_screenshot(&mut self) -> (r: Option<Dump>)
        requires
            well_formed(old(self)@),
            old(self)@.dumps < u32::MAX,
        ensures
            well_formed(final(self)@),
            r is Some == (old(self)@.pending && old(self)@.transition is Some),
            r matches Some(d) ==> dumps_transition(d, old(self)@),
            final(self)@ == if old(self)@.pending {
                CollectorView {
                    pending: false,
                    requested: false,
                    dumps: (old(self)@.dumps + 1) as u32,
                    transition: None,
                    ..old(self)@
                }
            } else {
                old(self)@
            },
    {
        if !self.pending_screenshot {
            return None;
        }
        self.pending_screenshot = false;
        self.screenshot_requested = false;
        self.dump_counter += 1;
        match self.transition_ctx.take() {
            Some(tctx) => {
                let context = finalize_geometry(&self.ring, tctx);
                let prefix = name_dump(
                    self.dump_counter,
                    context.from.as_str(),
                    context.to.as_str(),
                );
                Some(Dump { prefix, context })
            },
            None => None,
        }
    }

    /// What is to be written without a capture, where none came in time.
    pub fn flush_pending_if_stale(&mut self) -> (r: Option<Dump>)
        requires
            well_formed(old(self)@),
            old(self)@.dumps < u32::MAX,
        ensures
            well_formed(final(self)@),
            r is Some == is_stale(old(self)@),
            r matches Some(d) ==> dumps_transition(d, old(self)@),
            final(self)@ == if is_stale(old(self)@) {
                CollectorView {
                    pending: false,
                    dumps: (old(self)@.dumps + 1) as u32,
                    transition: None,
                    ..old(self)@
                }
            } else {
                old(self)@
            },
    {
        if !self.pending_screenshot {
            return None;
        }
        let stale = match &self.transition_ctx {
            Some(t) => self.frame_counter > t.frame && self.frame_counter - t.frame > STALE_FRAMES,
            None => false,
        };
        if !stale {
            return None;
        }
        self.pending_screenshot = false;
        self.dump_counter += 1;
        match self.transition_ctx.take() {
            Some(tctx) => {
                let context = finalize_geometry(&self.ring, tctx);
                let prefix = name_dump(
                    self.dump_counter,
                    context.from.as_str(),
                    context.to.as_str(),
                );
                Some(Dump { prefix, context })
            },
            None => None,
        }
    }
}

/// The gray that transparent parts are shown over.
pub fn backdrop_level(value: Option<&str>) -> (r: u8)
    ensures
        r == match value {
            Some(v) => match numbers::unsigned_up_to(text::trim(v@, CharClass::Space), u8::MAX as int) {
                Some(n) => n as u8,
                None => DEFAULT_BACKDROP,
            },
            None => DEFAULT_BACKDROP,
        },
{
    match value {
        Some(s) => {
            let v = chars_of(s);
            let t = trimmed(&v, CharClass::Space);
            match parse_u64(&t) {
                Some(n) => if n <= 255 {
                    n as u8
                } else {
                    DEFAULT_BACKDROP
                },
                None => DEFAULT_BACKDROP,
            }
        },
        None => DEFAULT_BACKDROP,
    }
}

/// A color whose alpha is multiplied into its channels.
#[derive(Debug, Clone, Copy, PartialEq, Eq, Structural)]
pub struct Premultiplied {
    pub r: u8,
    pub g: u8,
    pub b: u8,
    pub a: u8,
}

/// A channel over a gray, to the nearest whole number: what the alpha leaves of
/// the gray is added. It never lies halfway between two numbers, as the number
/// that alpha is a part of is odd.
pub open spec fn blended(channel: u8, alpha: u8, gray: u8) -> u8 {
    let whole = (2 * (255 * channel + gray * (255 - alpha)) + 255) / 510;
    if whole > 255 {
        255
    } else {
        whole as u8
    }
}

/// Channel `c` of a color over a gray; the result is opaque.
pub open spec fn over_gray(p: Premultiplied, gray: u8, c: int) -> u8 {
    if c == 0 {
        blended(p.r, p.a, gray)
    } else if c == 1 {
        blended(p.g, p.a, gray)
    } else if c == 2 {
        blended(p.b, p.a, gray)
    } else {
        255
    }
}

fn blend(channel: u8, alpha: u8, gray: u8) -> (r: u8)
    ensures
        r == blended(channel, alpha, gray),
{
    assert(gray * (255 - alpha) <= 255 * 255) by (nonlinear_arith)
        requires
            gray <= 255,
            alpha <= 255,
    ;
    assert(0 <= gray * (255 - alpha)) by (nonlinear_arith)
        requires
            alpha <= 255,
    ;
    let rest: u32 = gray as u32 * (255 - alpha as u32);
    let whole: u32 = (2 * (255 * channel as u32 + rest) + 255) / 510;
    if whole > 255 {
        255
    } else {
        whole as u8
    }
}

/// The RGBA bytes of a picture over a gray, so that its transparent parts can be
/// seen.
pub fn flatten(picture: &[Premultiplied], gray: u8) -> (r: Vec<u8>)
    ensures
        r@.len() == picture@.len() * 4,
        forall|i: int, c: int|
            0 <= i < picture@.len() && 0 <= c < 4 ==> #[trigger] r@[4 * i + c] == over_gray(
                picture@[i],
                gray,
                c,
            ),
{
    let mut r: Vec<u8> = Vec::new();
    let mut n: usize = 0;
    while n < picture.len()
        invariant
            n <= picture@.len(),
            r@.len() == n * 4,
            forall|i: int, c: int|
                0 <= i < n && 0 <= c < 4 ==> #[trigger] r@[4 * i + c] == over_gray(
                    picture@[i],
                    gray,
                    c,
                ),
        decreases picture.len() - n,
    {
        let p = picture[n];
        r.push(blend(p.r, p.a, gray));
        r.push(blend(p.g, p.a, gray));
        r.push(blend(p.b, p.a, gray));
        r.push(255);
        n += 1;
    }
    r
}

} // verus!
