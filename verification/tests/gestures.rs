use clip_llm::coordinator::Act;
use clip_llm::coordinator::Coordinator;
use clip_llm::coordinator::Input;
use clip_llm::hotkey::double_tap_window;
use clip_llm::hotkey::HotkeyDetector;
use clip_llm::hotkey::TapAction;
use clip_llm::hotkey::DEFAULT_DOUBLE_TAP_TIMEOUT;
use clip_llm::hotkey::MILLISECOND;
use clip_llm::platform::keys::check_sent;
use clip_llm::platform::keys::chord_keys;
use clip_llm::platform::keys::Chord;
use clip_llm::platform::keys::KeyStroke;
use clip_llm::platform::keys::VK_C;
use clip_llm::platform::keys::VK_V;
use clip_llm::platform::modifier_watcher::KeyTracker;
use clip_llm::platform::modifier_watcher::VK_CONTROL;
use clip_llm::platform::modifier_watcher::VK_LSHIFT;
use clip_llm::platform::modifier_watcher::VK_RCONTROL;
use clip_llm::platform::modifier_watcher::VK_SHIFT;
use clip_llm::platform::modifier_watcher::WM_KEYUP;
use clip_llm::platform::ModifierState;
use clip_llm::PlatformError;

const START: u64 = 1_000_000 * MILLISECOND;

fn ms(n: u64) -> u64 {
    START + n * MILLISECOND
}

// --- taps ---

#[test]
fn single_press_returns_pending() {
    let mut d = HotkeyDetector::new();
    assert_eq!(d.on_press(ms(0)), TapAction::Pending);
}

#[test]
fn double_press_returns_double_tap() {
    let mut d = HotkeyDetector::new();
    assert_eq!(d.on_press(ms(0)), TapAction::Pending);
    assert_eq!(d.on_press(ms(0)), TapAction::DoubleTap);
}

#[test]
fn timeout_resets_to_pending() {
    let mut d = HotkeyDetector::new();
    assert_eq!(d.on_press(ms(0)), TapAction::Pending);
    assert_eq!(d.on_press(ms(550)), TapAction::Pending);
}

#[test]
fn resets_after_double_tap() {
    let mut d = HotkeyDetector::new();
    assert_eq!(d.on_press(ms(0)), TapAction::Pending);
    assert_eq!(d.on_press(ms(0)), TapAction::DoubleTap);
    assert_eq!(d.on_press(ms(0)), TapAction::Pending);
}

#[test]
fn check_timeout_confirms_single_tap() {
    let mut d = HotkeyDetector::new();
    assert_eq!(d.on_press(ms(0)), TapAction::Pending);
    assert!(!d.check_timeout(ms(0)));
    assert!(d.check_timeout(ms(550)));
    assert!(!d.check_timeout(ms(550)));
}

#[test]
fn check_timeout_not_triggered_after_double_tap() {
    let mut d = HotkeyDetector::new();
    assert_eq!(d.on_press(ms(0)), TapAction::Pending);
    assert_eq!(d.on_press(ms(0)), TapAction::DoubleTap);
    assert!(!d.check_timeout(ms(550)));
}

#[test]
fn a_tap_is_open_up_to_the_window_and_over_after_it() {
    let mut d = HotkeyDetector::with_timeout(350 * MILLISECOND);
    d.on_press(ms(0));
    assert!(d.is_pending());
    assert!(d.completes_at(ms(350)));
    assert!(!d.check_timeout(ms(350)));
    assert!(!d.completes_at(ms(350) + 1));
    assert!(d.check_timeout(ms(350) + 1));
    assert!(!d.is_pending());
}

#[test]
fn the_window_is_what_the_file_says() {
    assert_eq!(double_tap_window(None), DEFAULT_DOUBLE_TAP_TIMEOUT);
    assert_eq!(double_tap_window(Some(0)), DEFAULT_DOUBLE_TAP_TIMEOUT);
    assert_eq!(double_tap_window(Some(500)), 500 * MILLISECOND);
    assert_eq!(double_tap_window(Some(u64::MAX)), u64::MAX);
    assert_eq!(DEFAULT_DOUBLE_TAP_TIMEOUT, 350 * MILLISECOND);
}

// --- gestures ---

type Place = (i32, i32);

fn coordinator() -> Coordinator<Place> {
    Coordinator::new(500 * MILLISECOND)
}

/// Hands one event over as the waiting thread does.
fn step(c: &mut Coordinator<Place>, pressed: bool, held: bool, now: u64) -> Vec<Act<Place>> {
    let mouse_pos = if c.wants_position(pressed, now) { Some((100, 200)) } else { None };
    c.step(Input { pressed, held, now, mouse_pos })
}

fn sent(acts: &[Act<Place>]) -> Vec<(TapAction, Option<Place>)> {
    acts.iter()
        .filter_map(|a| match a {
            Act::Send(e) => Some((e.action, e.mouse_pos)),
            Act::PreShow => None,
        })
        .collect()
}

fn shows(acts: &[Act<Place>]) -> usize {
    acts.iter().filter(|a| matches!(a, Act::PreShow)).count()
}

#[test]
fn single_tap_sends_action_and_calls_pre_show() {
    let mut c = coordinator();
    assert!(!c.polling());
    assert!(step(&mut c, true, false, ms(0)).is_empty());
    assert!(c.polling());
    assert!(step(&mut c, false, false, ms(450)).is_empty());
    let acts = step(&mut c, false, false, ms(550));
    let events = sent(&acts);
    assert_eq!(events[0].0, TapAction::SingleTap);
    assert!(events[0].1.is_some());
    assert_eq!(shows(&acts), 1);
    assert!(matches!(acts[0], Act::PreShow));
}

#[test]
fn double_tap_sends_action() {
    let mut c = coordinator();
    step(&mut c, true, false, ms(0));
    let acts = step(&mut c, true, false, ms(10));
    let events = sent(&acts);
    assert_eq!(events[0].0, TapAction::DoubleTap);
    assert!(events[0].1.is_some());
}

#[test]
fn release_events_ignored() {
    let mut c = coordinator();
    assert!(step(&mut c, false, false, ms(0)).is_empty());
    assert!(step(&mut c, false, false, ms(100)).is_empty());
}

#[test]
fn cycling_advances_then_commits_on_release() {
    let mut c = coordinator();
    step(&mut c, true, true, ms(0));
    let acts = step(&mut c, true, true, ms(10));
    assert_eq!(sent(&acts), vec![(TapAction::DoubleTap, Some((100, 200)))]);
    let acts = step(&mut c, true, true, ms(20));
    assert_eq!(sent(&acts), vec![(TapAction::CycleAdvance, None)]);
    assert!(c.polling());
    let acts = step(&mut c, false, false, ms(70));
    assert_eq!(sent(&acts), vec![(TapAction::CycleCommit { is_double_tap: true }, None)]);
    assert!(!c.polling());
}

#[test]
fn trigger_commits_immediately_when_not_held() {
    let mut c = coordinator();
    step(&mut c, true, false, ms(0));
    let acts = step(&mut c, false, false, ms(550));
    let events = sent(&acts);
    assert_eq!(events[0].0, TapAction::SingleTap);
    assert_eq!(events[1], (TapAction::CycleCommit { is_double_tap: false }, None));
    assert_eq!(events.len(), 2);
}

// --- modifiers and key strokes ---

#[test]
fn both_modifiers_have_to_be_held() {
    let mut state = ModifierState::default();
    assert!(!state.combo_held() && !state.is_active());
    state.set_active();
    state.set(true, false);
    assert!(!state.combo_held() && state.is_active());
    state.set(true, true);
    assert!(state.combo_held());
}

#[test]
fn single_keys_are_followed() {
    let down = 0x100;
    let mut keys = KeyTracker::new();
    let mut state = ModifierState::new();
    assert!(keys.on_key(VK_RCONTROL, down, &mut state));
    assert!(!state.combo_held());
    assert!(keys.on_key(VK_LSHIFT, down, &mut state));
    assert!(state.combo_held());
    assert!(!keys.on_key(VK_C, down, &mut state));
    assert!(state.combo_held());
    assert!(keys.on_key(VK_SHIFT, WM_KEYUP, &mut state));
    assert!(!state.combo_held());
}

#[test]
fn a_chord_lets_go_of_the_modifiers_first() {
    let stroke = |key: u32, down: bool| KeyStroke { key, down };
    assert_eq!(
        chord_keys(Chord::Copy),
        vec![
            stroke(VK_SHIFT, false),
            stroke(VK_CONTROL, false),
            stroke(VK_CONTROL, true),
            stroke(VK_C, true),
            stroke(VK_C, false),
            stroke(VK_CONTROL, false),
        ]
    );
    assert_eq!(chord_keys(Chord::Paste)[3], stroke(VK_V, true));
}

#[test]
fn strokes_that_do_not_get_through_are_an_error() {
    assert!(check_sent(Chord::Copy, 6).is_ok());
    match check_sent(Chord::Copy, 4) {
        Err(PlatformError::CopyFailed(why)) => {
            assert_eq!(why, "SendInput returned 4, expected 6")
        }
        other => panic!("{other:?}"),
    }
    assert!(matches!(check_sent(Chord::Paste, 0), Err(PlatformError::PasteFailed(_))));
}
