//! Telling a single tap of the hotkey from a double tap.
//!
//! Moments are nanoseconds on a monotonic clock.

use vstd::prelude::*;

verus! {

/// Nanoseconds in a millisecond.
pub const MILLISECOND: u64 = 1_000_000;

/// How long after a tap a second one makes a double tap, unless the
/// configuration says otherwise.
///
/// A single tap shows nothing until this window has passed, so the value is a
/// direct cost on every single tap. Typical double taps are 250 to 350 ms apart.
pub const DEFAULT_DOUBLE_TAP_TIMEOUT: u64 = 350 * MILLISECOND;

/// What became of a hotkey press.
#[derive(Debug, Clone, Copy, PartialEq, Eq, Structural)]
pub enum TapAction {
    /// A first tap; a second one may follow.
    Pending,
    /// No second tap came in time.
    SingleTap,
    /// The second tap came in time.
    DoubleTap,
    /// A further tap while the modifiers stay held: on to the next mode.
    CycleAdvance,
    /// The modifiers were released: commit the mode. `is_double_tap` says what
    /// kind of trigger started the gesture.
    CycleCommit { is_double_tap: bool },
}

/// A tap action with the mouse position at the first key press, in whatever
/// coordinates the platform has.
#[derive(Debug, Clone, Copy)]
pub struct TapEvent<P> {
    pub action: TapAction,
    pub mouse_pos: Option<P>,
}

/// How long it is since `then`, at `now`; nothing where `now` is earlier.
pub open spec fn elapsed(then: u64, now: u64) -> int {
    if now >= then {
        now - then
    } else {
        0
    }
}

/// Detects single and double taps of a hotkey.
#[derive(Debug)]
pub struct HotkeyDetector {
    last_press: Option<u64>,
    timeout: u64,
}

/// What a detector knows: the first tap it waits on, and its window.
pub struct DetectorView {
    pub last_press: Option<u64>,
    pub timeout: u64,
}

impl View for HotkeyDetector {
    type V = DetectorView;

    closed spec fn view(&self) -> DetectorView {
        DetectorView { last_press: self.last_press, timeout: self.timeout }
    }
}

/// Whether a press at `now` completes a double tap.
pub open spec fn completes(d: DetectorView, now: u64) -> bool {
    d.last_press matches Some(then) && elapsed(then, now) <= d.timeout
}

/// Whether the tap that `d` waits on has become a single tap by `now`.
pub open spec fn timed_out(d: DetectorView, now: u64) -> bool {
    d.last_press matches Some(then) && elapsed(then, now) > d.timeout
}

impl Default for HotkeyDetector {
    fn default() -> (d: HotkeyDetector)
        ensures
            d@ == (DetectorView { last_press: None, timeout: DEFAULT_DOUBLE_TAP_TIMEOUT }),
    {
        HotkeyDetector::new()
    }
}

impl HotkeyDetector {
    /// A detector with the default window.
    pub fn new() -> (d: HotkeyDetector)
        ensures
            d@ == (DetectorView { last_press: None, timeout: DEFAULT_DOUBLE_TAP_TIMEOUT }),
    {
        HotkeyDetector::with_timeout(DEFAULT_DOUBLE_TAP_TIMEOUT)
    }

    /// A detector with the window `timeout`.
    pub fn with_timeout(timeout: u64) -> (d: HotkeyDetector)
        ensures
            d@ == (DetectorView { last_press: None, timeout }),
    {
        HotkeyDetector { last_press: None, timeout }
    }

    /// Whether a press at `now` would complete a double tap.
    pub fn completes_at(&self, now: u64) -> (r: bool)
        ensures
            r == completes(self@, now),
    {
        match self.last_press {
            Some(then) => now.saturating_sub(then) <= self.timeout,
            None => false,
        }
    }

    /// Takes note of a press: `DoubleTap` where it comes within the window of a
    /// first one, `Pending` where it is a first one itself.
    pub fn on_press(&mut self, now: u64) -> (r: TapAction)
        ensures
            final(self)@.timeout == old(self)@.timeout,
            completes(old(self)@, now) ==> r == TapAction::DoubleTap,
            !completes(old(self)@, now) ==> r == TapAction::Pending,
            final(self)@.last_press == if completes(old(self)@, now) {
                None
            } else {
                Some(now)
            },
    {
        if self.completes_at(now) {
            self.last_press = None;
            TapAction::DoubleTap
        } else {
            self.last_press = Some(now);
            TapAction::Pending
        }
    }

    /// Whether a first tap waits for a second one.
    pub fn is_pending(&self) -> (r: bool)
        ensures
            r == (self@.last_press is Some),
    {
        self.last_press.is_some()
    }

    /// Whether the waiting tap has become a single tap by `now`; it then waits
    /// no more.
    pub fn check_timeout(&mut self, now: u64) -> (r: bool)
        ensures
            r == timed_out(old(self)@, now),
            final(self)@.timeout == old(self)@.timeout,
            final(self)@.last_press == if r {
                None
            } else {
                old(self)@.last_press
            },
    {
        match self.last_press {
            Some(then) => {
                if now.saturating_sub(then) > self.timeout {
                    self.last_press = None;
                    true
                } else {
                    false
                }
            },
            None => false,
        }
    }
}

/// The double-tap window that a configured number of milliseconds stands for:
/// none, and zero, which would make a double tap impossible, stand for the
/// default. A number too large for the clock is as good as no limit.
pub fn double_tap_window(configured_ms: Option<u64>) -> (r: u64)
    ensures
        match configured_ms {
            Some(ms) => r == if ms == 0 {
                DEFAULT_DOUBLE_TAP_TIMEOUT as int
            } else if ms * MILLISECOND <= u64::MAX {
                ms * MILLISECOND
            } else {
                u64::MAX as int
            },
            None => r == DEFAULT_DOUBLE_TAP_TIMEOUT,
        },
{
    match configured_ms {
        Some(ms) => if ms == 0 {
            DEFAULT_DOUBLE_TAP_TIMEOUT
        } else if ms <= u64::MAX / MILLISECOND {
            ms * MILLISECOND
        } else {
            u64::MAX
        },
        None => DEFAULT_DOUBLE_TAP_TIMEOUT,
    }
}

/// A press is never both: a waiting tap either can be completed or has timed
/// out, at every moment.
pub proof fn a_waiting_tap_is_open_or_over(d: DetectorView, now: u64)
    requires
        d.last_press is Some,
    ensures
        completes(d, now) != timed_out(d, now),
{
}

} // verus!
