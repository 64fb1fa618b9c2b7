//! The overlay window: its handle, its style and its place.

use vstd::prelude::*;

verus! {

/// Style of a window that clicks do not bring to the front.
pub const WS_EX_NOACTIVATE: u32 = 0x0800_0000;

/// Style of a window without a place in the taskbar.
pub const WS_EX_TOOLWINDOW: u32 = 0x0000_0080;

/// Style of a window that has a place in the taskbar whatever else it is.
pub const WS_EX_APPWINDOW: u32 = 0x0004_0000;

/// Where a window is put that is not to be seen.
pub const OFFSCREEN: i32 = -32000;

/// The window's handle, once it was found.
#[derive(Debug, Clone, Copy, PartialEq, Eq, Structural)]
pub struct HandleCache {
    handle: Option<u64>,
    failed: bool,
}

/// What a [`HandleCache`] knows.
pub struct CacheView {
    /// The handle.
    pub handle: Option<u64>,
    /// Whether the last search found nothing.
    pub failed: bool,
}

impl View for HandleCache {
    type V = CacheView;

    closed spec fn view(&self) -> CacheView {
        CacheView { handle: self.handle, failed: self.failed }
    }
}

impl HandleCache {
    /// Nothing is known.
    pub fn new() -> (r: Self)
        ensures
            r@ == (CacheView { handle: None, failed: false }),
    {
        HandleCache { handle: None, failed: false }
    }

    /// The handle to try.
    pub fn candidate(&self) -> (r: Option<u64>)
        ensures
            r == self@.handle,
    {
        self.handle
    }

    /// Notes whether the handle that was tried still stands for a window; one
    /// that does not is forgotten, and a search is due.
    pub fn tried(&mut self, valid: bool)
        ensures
            final(self)@ == if old(self)@.handle is None {
                old(self)@
            } else if valid {
                CacheView { failed: false, ..old(self)@ }
            } else {
                CacheView { handle: None, ..old(self)@ }
            },
    {
        if self.handle.is_some() {
            if valid {
                self.failed = false;
            } else {
                self.handle = None;
            }
        }
    }

    /// Notes what a search found. Tells whether a failure is worth a warning:
    /// only the first of several is.
    pub fn searched(&mut self, found: Option<u64>) -> (warn: bool)
        ensures
            warn == (found is None && !old(self)@.failed),
            final(self)@ == match found {
                Some(h) => CacheView { handle: Some(h), failed: false },
                None => CacheView { failed: true, ..old(self)@ },
            },
    {
        match found {
            Some(h) => {
                self.handle = Some(h);
                self.failed = false;
                false
            },
            None => {
                let warn = !self.failed;
                self.failed = true;
                warn
            },
        }
    }
}

/// The style with which clicks bring the window to the front or do not; `None`
/// where it has it.
pub fn no_activate_style(style: u32, enabled: bool) -> (r: Option<u32>)
    ensures
        ({
            let wanted = if enabled {
                style | WS_EX_NOACTIVATE
            } else {
                style & !WS_EX_NOACTIVATE
            };
            r == if wanted == style {
                None
            } else {
                Some(wanted)
            }
        }),
{
    let wanted = if enabled {
        style | WS_EX_NOACTIVATE
    } else {
        style & !WS_EX_NOACTIVATE
    };
    if wanted == style {
        None
    } else {
        Some(wanted)
    }
}

/// The style that keeps the window out of the taskbar; `None` where it has it.
pub fn tool_window_style(style: u32) -> (r: Option<u32>)
    ensures
        ({
            let wanted = (style | WS_EX_TOOLWINDOW) & !WS_EX_APPWINDOW;
            r == if wanted == style {
                None
            } else {
                Some(wanted)
            }
        }),
        r matches Some(s) ==> s & 0x80 == 0x80 && s & 0x40000 == 0,
{
    let wanted = (style | WS_EX_TOOLWINDOW) & !WS_EX_APPWINDOW;
    assert(((style | 0x80) & !0x40000u32) & 0x80 == 0x80) by (bit_vector);
    assert(((style | 0x80) & !0x40000u32) & 0x40000 == 0) by (bit_vector);
    if wanted == style {
        None
    } else {
        Some(wanted)
    }
}

/// Half of a length, towards zero.
pub open spec fn half(n: int) -> int {
    if n >= 0 {
        n / 2
    } else {
        -((-n) / 2)
    }
}

/// Where a window's left or top edge goes so that its middle is at `at`: `low`
/// and `high` are the edges that it has.
pub fn centered(at: i32, low: i32, high: i32) -> (r: i32)
    requires
        i32::MIN <= high - low <= i32::MAX,
        i32::MIN <= at - half(high - low) <= i32::MAX,
    ensures
        r == at - half(high - low),
{
    let size: i64 = high as i64 - low as i64;
    let part: i64 = if size >= 0 {
        size / 2
    } else {
        -((-size) / 2)
    };
    (at as i64 - part) as i32
}

} // verus!
