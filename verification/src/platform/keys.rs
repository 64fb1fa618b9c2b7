//! The key strokes that are made for the user.

use crate::error::PlatformError;
use crate::numbers;
use crate::numbers::dec_of;
use crate::platform::modifier_watcher::VK_CONTROL;
use crate::platform::modifier_watcher::VK_SHIFT;
use crate::text::chars_of;
use crate::text::extend;
use crate::text::push_text;
use crate::text::string_of;
use vstd::prelude::*;

verus! {

/// Key code of C.
pub const VK_C: u32 = 0x43;

/// Key code of V.
pub const VK_V: u32 = 0x56;

/// How long it is between two key events, in milliseconds.
pub const KEY_EVENT_DELAY_MS: u64 = 50;

/// How long the focus takes to go over to another program, in milliseconds.
pub const FOCUS_TRANSFER_DELAY_MS: u64 = 100;

/// A key that goes down or up.
#[derive(Debug, Clone, Copy, PartialEq, Eq, Structural)]
pub struct KeyStroke {
    pub key: u32,
    pub down: bool,
}

/// What is done with a key combination.
#[derive(Debug, Clone, Copy, PartialEq, Eq, Structural)]
pub enum Chord {
    Copy,
    Paste,
}

/// The key that goes with Ctrl.
pub open spec fn chord_key(chord: Chord) -> u32 {
    match chord {
        Chord::Copy => VK_C,
        Chord::Paste => VK_V,
    }
}

/// Which of two keys are down after some strokes.
pub open spec fn is_down(v: Seq<KeyStroke>, key: u32, before: bool) -> bool
    decreases v.len(),
{
    if v.len() == 0 {
        before
    } else if v.last().key == key {
        v.last().down
    } else {
        is_down(v.drop_last(), key, before)
    }
}

/// The strokes of a key combination. Modifiers that the user holds are let go
/// of first: they would make it another one.
pub open spec fn chord_strokes(chord: Chord) -> Seq<KeyStroke> {
    seq![
        KeyStroke { key: VK_SHIFT, down: false },
        KeyStroke { key: VK_CONTROL, down: false },
        KeyStroke { key: VK_CONTROL, down: true },
        KeyStroke { key: chord_key(chord), down: true },
        KeyStroke { key: chord_key(chord), down: false },
        KeyStroke { key: VK_CONTROL, down: false },
    ]
}

/// The strokes of a key combination.
pub fn chord_keys(chord: Chord) -> (r: Vec<KeyStroke>)
    ensures
        r@ == chord_strokes(chord),
{
    let key = match chord {
        Chord::Copy => VK_C,
        Chord::Paste => VK_V,
    };
    let mut r: Vec<KeyStroke> = Vec::new();
    r.push(KeyStroke { key: VK_SHIFT, down: false });
    r.push(KeyStroke { key: VK_CONTROL, down: false });
    r.push(KeyStroke { key: VK_CONTROL, down: true });
    r.push(KeyStroke { key, down: true });
    r.push(KeyStroke { key, down: false });
    r.push(KeyStroke { key: VK_CONTROL, down: false });
    assert(r@ =~= chord_strokes(chord));
    r
}

/// Whatever is held before a key combination: its key goes down with Ctrl held
/// and Shift not, and neither is down at the end.
pub proof fn chords_are_clean(chord: Chord, ctrl: bool, shift: bool)
    ensures
        chord_strokes(chord)[3] == (KeyStroke { key: chord_key(chord), down: true }),
        is_down(chord_strokes(chord).take(3), VK_CONTROL, ctrl),
        !is_down(chord_strokes(chord).take(3), VK_SHIFT, shift),
        !is_down(chord_strokes(chord), VK_CONTROL, ctrl),
        !is_down(chord_strokes(chord), VK_SHIFT, shift),
        !is_down(chord_strokes(chord), chord_key(chord), false),
{
    reveal_with_fuel(is_down, 7);
}

/// What went wrong where not all strokes got through.
pub open spec fn shortfall(sent: u32, wanted: nat) -> Seq<char> {
    "SendInput returned "@ + numbers::dec(sent as nat) + ", expected "@ + numbers::dec(wanted)
}

/// Whether all strokes of a key combination got through.
pub fn check_sent(chord: Chord, sent: u32) -> (r: Result<(), PlatformError>)
    ensures
        r is Ok == (sent == chord_strokes(chord).len()),
        r matches Err(e) ==> match chord {
            Chord::Copy => e matches PlatformError::CopyFailed(s) && s@ == shortfall(
                sent,
                chord_strokes(chord).len(),
            ),
            Chord::Paste => e matches PlatformError::PasteFailed(s) && s@ == shortfall(
                sent,
                chord_strokes(chord).len(),
            ),
        },
{
    if sent == 6 {
        return Ok(());
    }
    let mut v = chars_of("SendInput returned ");
    let n = dec_of(sent as u128);
    extend(&mut v, &n);
    push_text(&mut v, ", expected ");
    let m = dec_of(6);
    extend(&mut v, &m);
    let why = string_of(&v);
    match chord {
        Chord::Copy => Err(PlatformError::CopyFailed(why)),
        Chord::Paste => Err(PlatformError::PasteFailed(why)),
    }
}

} // verus!
