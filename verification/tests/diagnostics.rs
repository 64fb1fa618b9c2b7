use clip_llm::diagnostics::collector::backdrop_level;
use clip_llm::diagnostics::collector::flatten;
use clip_llm::diagnostics::collector::CaptureStep;
use clip_llm::diagnostics::collector::Premultiplied;
use clip_llm::diagnostics::collector::POST_SETTLE_DELAY;
use clip_llm::diagnostics::collector::RING_CAPACITY;
use clip_llm::diagnostics::collector::STALE_FRAMES;
use clip_llm::diagnostics::collector::TAIL_FRAMES;
use clip_llm::diagnostics::mock_response;
use clip_llm::diagnostics::runner::all_scenarios;
use clip_llm::diagnostics::runner::choose_scenarios;
use clip_llm::diagnostics::runner::RunnerPhase;
use clip_llm::diagnostics::runner::STARTUP_DELAY;
use clip_llm::diagnostics::DiagCollector;
use clip_llm::diagnostics::DiagScenarioRunner;
use clip_llm::diagnostics::FrameSnapshot;
use clip_llm::diagnostics::ScenarioAction;
use clip_llm::ProcessMode;

const NOW: u64 = 1_000_000_000;

/// Expire the current delay so the next tick proceeds immediately.
fn expire_delay(runner: &mut DiagScenarioRunner) {
    runner.delay_until = 0;
}

#[test]
fn startup_delay_returns_none() {
    let runner = DiagScenarioRunner::new(None, NOW);
    // Delay is in the future, so tick should return nothing.
    assert!(matches!(runner.phase, RunnerPhase::StartupDelay));
    let mut runner = runner;
    assert!(matches!(runner.tick("Hidden", NOW), ScenarioAction::Nothing));
}

#[test]
fn first_scenario_after_delay() {
    let mut runner = DiagScenarioRunner::new(None, NOW);
    expire_delay(&mut runner);

    match runner.tick("Hidden", NOW) {
        ScenarioAction::ShowOverlay { mode, text } => {
            assert_eq!(mode, ProcessMode::Translate);
            assert_eq!(text, "Hello");
        }
        other => panic!("expected ShowOverlay, got {other:?}"),
    }
}

#[test]
fn result_triggers_wait_to_hide() {
    let mut runner = DiagScenarioRunner::new(None, NOW);
    expire_delay(&mut runner);

    // First scenario injection.
    let action = runner.tick("Hidden", NOW);
    assert!(matches!(action, ScenarioAction::ShowOverlay { .. }));

    // Simulate worker completing — overlay shows "Result".
    // Runner should transition to WaitingToHide phase.
    assert!(matches!(runner.tick("Result", NOW), ScenarioAction::Nothing));
    assert_eq!(runner.phase, RunnerPhase::WaitingToHide);
}

#[test]
fn mode_switch_scenario_flow() {
    let mut runner = DiagScenarioRunner::new(None, NOW);
    expire_delay(&mut runner);

    // Consume first two scenarios (short_text, long_text).
    // Scenario 1: short_text
    runner.tick("Hidden", NOW); // ShowOverlay
    runner.tick("Result", NOW); // -> WaitingToHide
    expire_delay(&mut runner);
    runner.tick("Result", NOW); // HideOverlay
    expire_delay(&mut runner);

    // Scenario 2: long_text
    runner.tick("Hidden", NOW); // ShowOverlay
    runner.tick("Result", NOW); // -> WaitingToHide
    expire_delay(&mut runner);
    runner.tick("Result", NOW); // HideOverlay
    expire_delay(&mut runner);

    // Scenario 3: mode_switch — should trigger SwitchMode after result.
    let action = runner.tick("Hidden", NOW);
    assert!(matches!(action, ScenarioAction::ShowOverlay { .. }));

    // Result arrives — runner should return SwitchMode.
    match runner.tick("Result", NOW) {
        ScenarioAction::SwitchMode(mode) => {
            assert_eq!(mode, ProcessMode::Rephrase);
        }
        other => panic!("expected SwitchMode, got {other:?}"),
    }

    // After switch, wait for new result.
    assert!(matches!(runner.tick("Processing", NOW), ScenarioAction::Nothing));

    // New result arrives.
    assert!(matches!(runner.tick("Result", NOW), ScenarioAction::Nothing));
    assert_eq!(runner.phase, RunnerPhase::WaitingToHide);
}

#[test]
fn hide_after_display_delay() {
    let mut runner = DiagScenarioRunner::new(None, NOW);
    expire_delay(&mut runner);

    runner.tick("Hidden", NOW); // ShowOverlay
    runner.tick("Result", NOW); // -> WaitingToHide

    // Expire display delay.
    expire_delay(&mut runner);

    // Next tick should hide.
    assert!(matches!(runner.tick("Result", NOW), ScenarioAction::HideOverlay));
}

#[test]
fn quit_after_all_scenarios() {
    let mut runner = DiagScenarioRunner::new(None, NOW);
    let scenario_count = runner.scenarios.len();
    expire_delay(&mut runner);

    // Every scenario: inject, reach its result state, take at most one
    // follow-up step (mode switch, settings edit, model switch, resize,
    // scroll), then hide. error_display (index 3) produces the Error state.
    for i in 0..scenario_count {
        let settings = runner.scenarios.first().is_some_and(|s| s.settings);
        let capture_first = runner.scenarios.first().is_some_and(|s| s.capture_first);
        let action = runner.tick("Hidden", NOW); // ShowOverlay / OpenSettings / BeginCapture
        if settings {
            assert!(matches!(action, ScenarioAction::OpenSettings), "scenario {i}: {action:?}");
        } else if capture_first {
            // The capture is displayed for CAPTURE_DISPLAY, then committed.
            assert!(matches!(action, ScenarioAction::BeginCapture { .. }), "scenario {i}: {action:?}");
            expire_delay(&mut runner);
            let commit = runner.tick("Capturing", NOW);
            assert!(matches!(commit, ScenarioAction::ShowOverlay { .. }),
                "scenario {i}: expected ShowOverlay after the capture, got {commit:?}");
        } else {
            assert!(matches!(action, ScenarioAction::ShowOverlay { .. }),
                "scenario {i}: expected ShowOverlay, got {action:?}");
        }

        // error_display scenario produces Error, settings the pseudo-state,
        // the rest produce Result.
        let result_state = if settings { "Settings" } else if i == 3 { "Error" } else { "Result" };

        // A follow-up step makes the runner wait for the state it produces.
        match runner.tick(result_state, NOW) {
            ScenarioAction::SwitchMode(_) => {
                runner.tick("Processing", NOW);
                runner.tick("Result", NOW);
            }
            ScenarioAction::EditSettingsSample => {
                runner.tick("SettingsEdited", NOW);
            }
            ScenarioAction::SelectModel(_) => {
                runner.tick("SettingsSwitched", NOW);
            }
            ScenarioAction::Resize(..) => {
                runner.tick("Resized", NOW);
            }
            ScenarioAction::ScrollBody { .. } => {
                runner.tick("Scrolled", NOW);
            }
            _ => {}
        }
        // Expire display delay and hide.
        expire_delay(&mut runner);
        let hide = runner.tick(result_state, NOW);
        if settings {
            assert!(matches!(hide, ScenarioAction::CloseSettings), "scenario {i}: {hide:?}");
        } else {
            assert!(matches!(hide, ScenarioAction::HideOverlay), "scenario {i}: {hide:?}");
        }
        expire_delay(&mut runner);
    }

    // One more tick to transition from WaitingToInject (empty) to Finishing.
    assert!(matches!(runner.tick("Hidden", NOW), ScenarioAction::Nothing));
    assert_eq!(runner.phase, RunnerPhase::Finishing);

    expire_delay(&mut runner);
    assert!(matches!(runner.tick("Hidden", NOW), ScenarioAction::Quit));
}

#[test]
fn done_returns_none() {
    let mut runner = DiagScenarioRunner::new(None, NOW);
    runner.phase = RunnerPhase::Done;

    assert!(matches!(runner.tick("Hidden", NOW), ScenarioAction::Nothing));
    assert!(matches!(runner.tick("Result", NOW), ScenarioAction::Nothing));
}

#[test]
fn scenarios_can_be_chosen() {
    let names = |list| -> Vec<&'static str> {
        choose_scenarios(list).iter().map(|s| s.name).collect()
    };
    assert_eq!(names(None).len(), all_scenarios().len());
    assert_eq!(names(Some("  ")).len(), all_scenarios().len());
    assert_eq!(names(Some("error_display, short_text")), ["short_text", "error_display"]);
    assert!(names(Some("nonsense")).is_empty());
}

#[test]
fn the_startup_delay_is_kept_to_the_nanosecond() {
    let mut runner = DiagScenarioRunner::new(Some("short_text"), NOW);
    assert_eq!(runner.delay_until, NOW + STARTUP_DELAY);
    assert!(matches!(runner.tick("Hidden", NOW + STARTUP_DELAY - 1), ScenarioAction::Nothing));
    assert!(matches!(
        runner.tick("Hidden", NOW + STARTUP_DELAY),
        ScenarioAction::ShowOverlay { .. }
    ));
    assert_eq!(DiagScenarioRunner::new(None, u64::MAX).delay_until, u64::MAX);
}

#[test]
fn every_scenario_has_a_canned_answer() {
    for s in all_scenarios() {
        assert_eq!(mock_response(s.input).is_err(), s.name == "error_display", "{}", s.name);
    }
    assert_eq!(mock_response("Hello").unwrap(), "[mock] Translated: Hello");
    let long = mock_response("The quick brown fox jumps over").unwrap();
    assert!(long.starts_with("[mock] Translated output for: The quick brown fox ...\nLine 1: "));
    assert!(long.contains("\nLine 15: "));
    // A text is cut where a character ends.
    let long = mock_response("\u{bc88}\u{c5ed}\u{bc88}\u{c5ed}\u{bc88}\u{c5ed}\u{bc88}").unwrap();
    assert!(long.starts_with(
        "[mock] Translated output for: \u{bc88}\u{c5ed}\u{bc88}\u{c5ed}\u{bc88}\u{c5ed}...\nLine 1: "
    ));
    assert!(mock_response("__ERROR__\u{bc88}\u{bc88}\u{bc88}\u{bc88}").is_err());
    assert_eq!(
        mock_response("__ERROR__").unwrap_err(),
        "Connection refused: vLLM server not reachable at localhost:8000"
    );
}

// --- the record ---

fn frame(number: u64, geometry: u64) -> FrameSnapshot {
    FrameSnapshot {
        frame: number,
        state: "Result",
        mode: "Translate",
        shown: true,
        settled: true,
        geometry,
        user_repositioned: false,
    }
}

fn record(c: &mut DiagCollector, n: u64, geometry: u64) {
    for _ in 0..n {
        let number = c.frame_counter();
        c.record_frame(frame(number, geometry));
    }
}

#[test]
fn a_transition_is_captured_once_the_window_has_settled() {
    let mut c = DiagCollector::new();
    assert_eq!(c.tick_screenshot(), CaptureStep::Idle);
    record(&mut c, 30, 7);
    c.on_state_transition("Processing", "Result", "t".to_string());
    assert_eq!(c.tick_screenshot(), CaptureStep::Repaint);
    record(&mut c, POST_SETTLE_DELAY - 1, 7);
    assert_eq!(c.tick_screenshot(), CaptureStep::Repaint);
    record(&mut c, 1, 7);
    assert_eq!(c.tick_screenshot(), CaptureStep::Capture);
    assert_eq!(c.tick_screenshot(), CaptureStep::Idle);
    let dump = c.on_screenshot().unwrap();
    assert_eq!(dump.prefix, "001_Processing_to_Result");
    assert_eq!(dump.context.frame, 30);
    assert_eq!(dump.context.snapshot.unwrap().frame, 29);
    assert_eq!(dump.context.ring_tail.len(), TAIL_FRAMES);
    assert_eq!(dump.context.post_frames.len() as u64, POST_SETTLE_DELAY);
    assert_eq!(dump.context.geometry_stable, Some(true));
    assert!(c.on_screenshot().is_none());
}

#[test]
fn a_window_that_moves_is_not_stable() {
    let mut c = DiagCollector::new();
    c.on_state_transition("Processing", "Result", "t".to_string());
    record(&mut c, 1, 7);
    record(&mut c, 1, 8);
    assert_eq!(c.on_screenshot().unwrap().context.geometry_stable, Some(false));
    c.on_state_transition("Hidden", "Result", "t".to_string());
    record(&mut c, 1, 9);
    record(&mut c, 1, 8);
    let dump = c.on_screenshot().unwrap();
    assert_eq!(dump.prefix, "002_Hidden_to_Result");
    assert_eq!(dump.context.geometry_stable, None);
}

#[test]
fn a_capture_that_does_not_come_is_done_without() {
    let mut c = DiagCollector::new();
    c.on_state_transition("Processing", "Result", "t".to_string());
    record(&mut c, STALE_FRAMES, 7);
    assert!(c.flush_pending_if_stale().is_none());
    record(&mut c, 1, 7);
    assert!(c.flush_pending_if_stale().is_some());
    assert!(c.flush_pending_if_stale().is_none());
}

#[test]
fn the_oldest_frame_makes_room() {
    let mut c = DiagCollector::new();
    c.on_state_transition("Processing", "Result", "t".to_string());
    record(&mut c, RING_CAPACITY as u64 + 5, 7);
    let dump = c.on_screenshot().unwrap();
    assert_eq!(dump.context.post_frames.len(), RING_CAPACITY);
    assert_eq!(dump.context.post_frames[0].frame, 5);
}

#[test]
fn the_backdrop_is_a_gray() {
    assert_eq!(backdrop_level(None), 20);
    assert_eq!(backdrop_level(Some(" 255 ")), 255);
    assert_eq!(backdrop_level(Some("256")), 20);
    assert_eq!(backdrop_level(Some("-1")), 20);
}

#[test]
fn pictures_are_shown_over_the_backdrop() {
    let clear = Premultiplied { r: 0, g: 0, b: 0, a: 0 };
    let half = Premultiplied { r: 100, g: 0, b: 128, a: 128 };
    let opaque = Premultiplied { r: 1, g: 2, b: 3, a: 255 };
    assert_eq!(flatten(&[clear, half, opaque], 20), [
        20, 20, 20, 255, 110, 10, 138, 255, 1, 2, 3, 255
    ]);
    for fg in [0u8, 1, 99, 255] {
        for a in 0..=255u8 {
            for gray in [0u8, 20, 254, 255] {
                let exact = fg as f32 + gray as f32 * (1.0 - a as f32 / 255.0);
                let p = Premultiplied { r: fg, g: fg, b: fg, a };
                assert_eq!(flatten(&[p], gray)[0], exact.round().min(255.0) as u8);
            }
        }
    }
}
