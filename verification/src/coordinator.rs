//! From hotkey presses to gestures.
//!
//! A gesture is a trigger (a single or a double tap), any number of advances
//! through the modes while the modifiers stay held, and one commit when they
//! are released. The thread that waits for hotkey events hands each of them to
//! a [`Coordinator`] and does what it answers.

use crate::hotkey;
use crate::hotkey::HotkeyDetector;
use crate::hotkey::TapAction;
use crate::hotkey::TapEvent;
use vstd::prelude::*;

verus! {

/// How long to wait for an event, in milliseconds, while something is pending.
pub const POLL_INTERVAL_MS: u64 = 50;

/// How far a gesture has come.
#[derive(Debug, Clone, Copy, PartialEq, Eq, Structural)]
pub enum Phase {
    /// No gesture in progress.
    Idle,
    /// A first tap was seen; it may become a single or a double tap.
    AwaitingTrigger,
    /// Triggered, and the modifiers still held: further taps cycle the mode.
    Cycling { is_double_tap: bool },
}

/// Something for the thread to do.
#[derive(Debug)]
pub enum Act<P> {
    /// Get the window ready to be shown.
    PreShow,
    /// Send the event to the window, and have it repaint.
    Send(TapEvent<P>),
}

/// Turns presses and releases into gestures.
#[derive(Debug)]
pub struct Coordinator<P> {
    detector: HotkeyDetector,
    pending_mouse_pos: Option<P>,
    phase: Phase,
}

/// What a coordinator knows.
#[verifier::ext_equal]
pub struct CoordinatorView<P> {
    pub detector: hotkey::DetectorView,
    /// Where the mouse was at the first press of the gesture.
    pub pending_mouse_pos: Option<P>,
    pub phase: Phase,
}

impl<P> View for Coordinator<P> {
    type V = CoordinatorView<P>;

    closed spec fn view(&self) -> CoordinatorView<P> {
        CoordinatorView {
            detector: self.detector@,
            pending_mouse_pos: self.pending_mouse_pos,
            phase: self.phase,
        }
    }
}

impl<P> CoordinatorView<P> {
    /// A tap waits for its second exactly while the trigger is awaited.
    pub open spec fn well_formed(self) -> bool {
        (self.phase is AwaitingTrigger) == (self.detector.last_press is Some)
    }
}

/// One thing that happens to a coordinator.
pub struct Input<P> {
    /// Whether the hotkey was pressed; a release, and no event in time, are
    /// none.
    pub pressed: bool,
    /// Whether the modifiers are held.
    pub held: bool,
    pub now: u64,
    /// Where the mouse is.
    pub mouse_pos: Option<P>,
}

/// Whether `input` is a first tap.
pub open spec fn is_first_tap<P>(s: CoordinatorView<P>, pressed: bool, now: u64) -> bool {
    pressed && !(s.phase is Cycling) && !hotkey::completes(s.detector, now)
}

/// What triggers a gesture on `input`, if anything does.
pub open spec fn trigger<P>(s: CoordinatorView<P>, input: Input<P>) -> Option<TapAction> {
    if s.phase is Cycling {
        None
    } else if input.pressed {
        if hotkey::completes(s.detector, input.now) {
            Some(TapAction::DoubleTap)
        } else {
            None
        }
    } else if hotkey::timed_out(s.detector, input.now) {
        Some(TapAction::SingleTap)
    } else {
        None
    }
}

/// Sends `action` without a position.
pub open spec fn plain<P>(action: TapAction) -> Act<P> {
    Act::Send(TapEvent { action, mouse_pos: None })
}

/// The end of a gesture: nothing as long as the modifiers are held.
pub open spec fn commit<P>(is_double_tap: bool, held: bool) -> Seq<Act<P>> {
    if held {
        seq![]
    } else {
        seq![plain(TapAction::CycleCommit { is_double_tap })]
    }
}

/// Where a triggered gesture stands.
pub open spec fn triggered_phase(is_double_tap: bool, held: bool) -> Phase {
    if held {
        Phase::Cycling { is_double_tap }
    } else {
        Phase::Idle
    }
}

/// What `input` makes of `s`.
pub open spec fn next<P>(s: CoordinatorView<P>, input: Input<P>) -> CoordinatorView<P> {
    match s.phase {
        Phase::Cycling { is_double_tap } => CoordinatorView {
            phase: triggered_phase(is_double_tap, input.held),
            ..s
        },
        _ => if let Some(t) = trigger(s, input) {
            CoordinatorView {
                detector: hotkey::DetectorView { last_press: None, ..s.detector },
                pending_mouse_pos: None,
                phase: triggered_phase(t == TapAction::DoubleTap, input.held),
            }
        } else if input.pressed {
            CoordinatorView {
                detector: hotkey::DetectorView { last_press: Some(input.now), ..s.detector },
                pending_mouse_pos: input.mouse_pos,
                phase: Phase::AwaitingTrigger,
            }
        } else {
            s
        },
    }
}

/// What there is to do about `input`.
pub open spec fn acts<P>(s: CoordinatorView<P>, input: Input<P>) -> Seq<Act<P>> {
    match s.phase {
        Phase::Cycling { is_double_tap } => (if input.pressed {
            seq![plain(TapAction::CycleAdvance)]
        } else {
            seq![]
        }) + commit(is_double_tap, input.held),
        _ => if let Some(t) = trigger(s, input) {
            seq![Act::PreShow, Act::Send(TapEvent { action: t, mouse_pos: s.pending_mouse_pos })]
                + commit(t == TapAction::DoubleTap, input.held)
        } else {
            seq![]
        },
    }
}

impl<P> Coordinator<P> {
    /// A coordinator at rest, with the double-tap window `timeout`.
    pub fn new(timeout: u64) -> (r: Coordinator<P>)
        ensures
            r@ == (CoordinatorView {
                detector: hotkey::DetectorView { last_press: None, timeout },
                pending_mouse_pos: None::<P>,
                phase: Phase::Idle,
            }),
            r@.well_formed(),
    {
        Coordinator {
            detector: HotkeyDetector::with_timeout(timeout),
            pending_mouse_pos: None,
            phase: Phase::Idle,
        }
    }

    /// Whether to poll for events, so that a second tap that does not come and
    /// a release of the modifiers are noticed, instead of waiting for one.
    pub fn polling(&self) -> (r: bool)
        ensures
            r == (self@.detector.last_press is Some || self@.phase is Cycling),
    {
        self.detector.is_pending() || matches!(self.phase, Phase::Cycling { .. })
    }

    /// Whether the mouse position is wanted with this event: with a first tap
    /// alone, so that the window appears where the hotkey was pressed.
    pub fn wants_position(&self, pressed: bool, now: u64) -> (r: bool)
        ensures
            r == is_first_tap(self@, pressed, now),
    {
        pressed && !matches!(self.phase, Phase::Cycling { .. }) && !self.detector.completes_at(now)
    }

    /// Ends the triggered gesture where the modifiers are not held.
    fn resolve_trigger(&mut self, is_double_tap: bool, held: bool, todo: &mut Vec<Act<P>>)
        ensures
            final(self)@ == (CoordinatorView {
                phase: triggered_phase(is_double_tap, held),
                ..old(self)@
            }),
            final(todo)@ == old(todo)@ + commit::<P>(is_double_tap, held),
    {
        if held {
            self.phase = Phase::Cycling { is_double_tap };
        } else {
            todo.push(
                Act::Send(
                    TapEvent {
                        action: TapAction::CycleCommit { is_double_tap },
                        mouse_pos: None,
                    },
                ),
            );
            self.phase = Phase::Idle;
        }
    }

    /// Takes one event, or the lack of one, and says what to do about it.
    pub fn step(&mut self, input: Input<P>) -> (todo: Vec<Act<P>>)
        requires
            old(self)@.well_formed(),
        ensures
            final(self)@.well_formed(),
            final(self)@ == next(old(self)@, input),
            todo@ == acts(old(self)@, input),
    {
        let mut todo: Vec<Act<P>> = Vec::new();
        if let Phase::Cycling { is_double_tap } = self.phase {
            if input.pressed {
                todo.push(
                    Act::Send(TapEvent { action: TapAction::CycleAdvance, mouse_pos: None }),
                );
            }
            self.resolve_trigger(is_double_tap, input.held, &mut todo);
            return todo;
        }
        if input.pressed {
            match self.detector.on_press(input.now) {
                TapAction::DoubleTap => {
                    todo.push(Act::PreShow);
                    todo.push(
                        Act::Send(
                            TapEvent {
                                action: TapAction::DoubleTap,
                                mouse_pos: self.pending_mouse_pos.take(),
                            },
                        ),
                    );
                    self.resolve_trigger(true, input.held, &mut todo);
                },
                _ => {
                    self.pending_mouse_pos = input.mouse_pos;
                    self.phase = Phase::AwaitingTrigger;
                },
            }
        } else if self.detector.check_timeout(input.now) {
            todo.push(Act::PreShow);
            todo.push(
                Act::Send(
                    TapEvent {
                        action: TapAction::SingleTap,
                        mouse_pos: self.pending_mouse_pos.take(),
                    },
                ),
            );
            self.resolve_trigger(false, input.held, &mut todo);
        }
        todo
    }
}

/// What a run of inputs makes of `s`.
pub open spec fn after<P>(s: CoordinatorView<P>, inputs: Seq<Input<P>>) -> CoordinatorView<P>
    decreases inputs.len(),
{
    if inputs.len() == 0 {
        s
    } else {
        next(after(s, inputs.drop_last()), inputs.last())
    }
}

/// What there is to do about a run of inputs.
pub open spec fn done<P>(s: CoordinatorView<P>, inputs: Seq<Input<P>>) -> Seq<Act<P>>
    decreases inputs.len(),
{
    if inputs.len() == 0 {
        seq![]
    } else {
        done(s, inputs.drop_last()) + acts(after(s, inputs.drop_last()), inputs.last())
    }
}

/// Where the window finds itself after what it was sent.
pub enum Gesture {
    /// Between gestures.
    Rest,
    /// The window is being made ready for a trigger.
    Ready,
    /// In a gesture of this kind, before its commit.
    Open { is_double_tap: bool },
}

/// How one thing done moves a gesture on; `None` where it has no place.
pub open spec fn moved<P>(g: Gesture, act: Act<P>) -> Option<Gesture> {
    match act {
        Act::PreShow => if g is Rest {
            Some(Gesture::Ready)
        } else {
            None
        },
        Act::Send(event) => match (g, event.action) {
            (Gesture::Ready, TapAction::SingleTap) => Some(Gesture::Open { is_double_tap: false }),
            (Gesture::Ready, TapAction::DoubleTap) => Some(Gesture::Open { is_double_tap: true }),
            (Gesture::Open { .. }, TapAction::CycleAdvance) => Some(g),
            (
                Gesture::Open { is_double_tap },
                TapAction::CycleCommit { is_double_tap: other },
            ) => if is_double_tap == other {
                Some(Gesture::Rest)
            } else {
                None
            },
            _ => None,
        },
    }
}

/// Where a run of things done leads from rest; `None` where one has no place.
pub open spec fn gesture<P>(todo: Seq<Act<P>>) -> Option<Gesture>
    decreases todo.len(),
{
    if todo.len() == 0 {
        Some(Gesture::Rest)
    } else {
        match gesture(todo.drop_last()) {
            Some(g) => moved(g, todo.last()),
            None => None,
        }
    }
}

/// The gesture that a phase stands in.
pub open spec fn gesture_of(phase: Phase) -> Gesture {
    match phase {
        Phase::Cycling { is_double_tap } => Gesture::Open { is_double_tap },
        _ => Gesture::Rest,
    }
}

proof fn lemma_one_more<P>(todo: Seq<Act<P>>, act: Act<P>)
    ensures
        gesture(todo.push(act)) == match gesture(todo) {
            Some(g) => moved(g, act),
            None => None,
        },
{
    assert(todo.push(act).drop_last() =~= todo);
}

/// What is done about one input moves the gesture where the phase goes.
proof fn lemma_step_keeps_order<P>(todo: Seq<Act<P>>, s: CoordinatorView<P>, input: Input<P>)
    requires
        s.well_formed(),
        gesture(todo) == Some(gesture_of(s.phase)),
    ensures
        next(s, input).well_formed(),
        gesture(todo + acts(s, input)) == Some(gesture_of(next(s, input).phase)),
{
    let new = acts(s, input);
    if new.len() == 0 {
        assert(todo + new =~= todo);
    } else if new.len() == 1 {
        assert(todo + new =~= todo.push(new[0]));
        lemma_one_more(todo, new[0]);
    } else if new.len() == 2 {
        assert(todo + new =~= todo.push(new[0]).push(new[1]));
        lemma_one_more(todo, new[0]);
        lemma_one_more(todo.push(new[0]), new[1]);
    } else {
        assert(new.len() == 3);
        assert(todo + new =~= todo.push(new[0]).push(new[1]).push(new[2]));
        lemma_one_more(todo, new[0]);
        lemma_one_more(todo.push(new[0]), new[1]);
        lemma_one_more(todo.push(new[0]).push(new[1]), new[2]);
    }
}

/// Whatever happens, what the window is sent is a run of whole gestures and at
/// most one unfinished one: the window is made ready, the trigger comes, then
/// advances, then exactly one commit of the trigger's kind.
pub proof fn gestures_are_well_ordered<P>(s: CoordinatorView<P>, inputs: Seq<Input<P>>)
    requires
        s.well_formed(),
        s.phase is Idle,
    ensures
        after(s, inputs).well_formed(),
        gesture(done(s, inputs)) == Some(gesture_of(after(s, inputs).phase)),
    decreases inputs.len(),
{
    if inputs.len() > 0 {
        gestures_are_well_ordered(s, inputs.drop_last());
        lemma_step_keeps_order(
            done(s, inputs.drop_last()),
            after(s, inputs.drop_last()),
            inputs.last(),
        );
    }
}

/// Once the modifiers are released, no gesture stays open.
pub proof fn releasing_commits<P>(s: CoordinatorView<P>, input: Input<P>)
    requires
        s.well_formed(),
        !input.held,
    ensures
        !(next(s, input).phase is Cycling),
{
}

} // verus!
