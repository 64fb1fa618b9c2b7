//! Whether the modifiers that keep the mode picker open are held.

use vstd::prelude::*;

verus! {

/// Window message of a key that goes up.
pub const WM_KEYUP: u32 = 0x0101;

/// Window message of a key that goes up while Alt is held.
pub const WM_SYSKEYUP: u32 = 0x0105;

/// Key codes of the modifiers: either one, the left one and the right one.
pub const VK_SHIFT: u32 = 0x10;

pub const VK_CONTROL: u32 = 0x11;

pub const VK_LSHIFT: u32 = 0xa0;

pub const VK_RSHIFT: u32 = 0xa1;

pub const VK_LCONTROL: u32 = 0xa2;

pub const VK_RCONTROL: u32 = 0xa3;

/// What is known of the modifiers Ctrl and Shift. There is one such record, which
/// a watcher writes and others read; it has no copies that could fall behind.
#[derive(Debug, PartialEq, Eq, Structural)]
pub struct ModifierState {
    held: bool,
    active: bool,
}

/// What a [`ModifierState`] says.
pub struct ModifierView {
    /// Whether both are held.
    pub held: bool,
    /// Whether anything watches the keyboard; where nothing does, `held` says
    /// nothing.
    pub active: bool,
}

impl View for ModifierState {
    type V = ModifierView;

    closed spec fn view(&self) -> ModifierView {
        ModifierView { held: self.held, active: self.active }
    }
}

impl Default for ModifierState {
    fn default() -> (r: Self)
        ensures
            r@ == (ModifierView { held: false, active: false }),
    {
        ModifierState { held: false, active: false }
    }
}

impl ModifierState {
    /// Nothing is held, and nothing watches.
    pub fn new() -> (r: Self)
        ensures
            r@ == (ModifierView { held: false, active: false }),
    {
        ModifierState { held: false, active: false }
    }

    /// Whether Ctrl and Shift are both held.
    pub fn combo_held(&self) -> (r: bool)
        ensures
            r == self@.held,
    {
        self.held
    }

    /// Whether anything watches the keyboard.
    pub fn is_active(&self) -> (r: bool)
        ensures
            r == self@.active,
    {
        self.active
    }

    /// Notes which of the two are held.
    pub fn set(&mut self, ctrl: bool, shift: bool)
        ensures
            final(self)@ == (ModifierView { held: ctrl && shift, ..old(self)@ }),
    {
        self.held = ctrl && shift;
    }

    /// Notes that the keyboard is watched.
    pub fn set_active(&mut self)
        ensures
            final(self)@ == (ModifierView { active: true, ..old(self)@ }),
    {
        self.active = true;
    }
}

/// Whether a key code is that of a Ctrl key.
pub open spec fn is_ctrl(vk: u32) -> bool {
    vk == VK_CONTROL || vk == VK_LCONTROL || vk == VK_RCONTROL
}

/// Whether a key code is that of a Shift key.
pub open spec fn is_shift(vk: u32) -> bool {
    vk == VK_SHIFT || vk == VK_LSHIFT || vk == VK_RSHIFT
}

/// Follows single keys.
#[derive(Debug, Clone, Copy, PartialEq, Eq, Structural)]
pub struct KeyTracker {
    pub ctrl_down: bool,
    pub shift_down: bool,
}

impl KeyTracker {
    /// No key is down.
    pub fn new() -> (r: Self)
        ensures
            r == (KeyTracker { ctrl_down: false, shift_down: false }),
    {
        KeyTracker { ctrl_down: false, shift_down: false }
    }

    /// Notes a key event, where it is one of a modifier. Tells whether it was.
    pub fn on_key(&mut self, vk: u32, message: u32, state: &mut ModifierState) -> (r: bool)
        ensures
            r == (is_ctrl(vk) || is_shift(vk)),
            final(self).ctrl_down == if is_ctrl(vk) {
                message != WM_KEYUP && message != WM_SYSKEYUP
            } else {
                old(self).ctrl_down
            },
            final(self).shift_down == if is_shift(vk) {
                message != WM_KEYUP && message != WM_SYSKEYUP
            } else {
                old(self).shift_down
            },
            final(state)@ == if r {
                ModifierView {
                    held: final(self).ctrl_down && final(self).shift_down,
                    ..old(state)@
                }
            } else {
                old(state)@
            },
    {
        let up = message == WM_KEYUP || message == WM_SYSKEYUP;
        let ctrl = vk == VK_CONTROL || vk == VK_LCONTROL || vk == VK_RCONTROL;
        let shift = vk == VK_SHIFT || vk == VK_LSHIFT || vk == VK_RSHIFT;
        if !ctrl && !shift {
            return false;
        }
        if ctrl {
            self.ctrl_down = !up;
        }
        if shift {
            self.shift_down = !up;
        }
        state.set(self.ctrl_down, self.shift_down);
        true
    }
}

} // verus!
