use clip_llm::config::Config;
use clip_llm::config::LoadOutcome;
use clip_llm::platform::startup::hotkey_alert;
use clip_llm::platform::startup::select_wgpu_adapter;
use clip_llm::platform::startup::start;
use clip_llm::platform::startup::startup_notice;
use clip_llm::platform::startup::DeviceKind;
use clip_llm::platform::startup::ProfileOutcome;
use clip_llm::platform::startup::Startup;
use clip_llm::platform::tray::init_tray;
use clip_llm::platform::tray::update_tray_config;
use clip_llm::platform::tray::update_tray_model;
use clip_llm::platform::tray::update_tray_probe;
use clip_llm::platform::tray::update_tray_requests;
use clip_llm::platform::tray::update_tray_telemetry;
use clip_llm::platform::tray::ClickStep;
use clip_llm::platform::tray::Command;
use clip_llm::platform::tray::Entry;
use clip_llm::platform::tray::Row;
use clip_llm::platform::tray::TrayAction;
use clip_llm::platform::tray::TrayModel;
use clip_llm::platform::tray::TrayRequests;
use clip_llm::platform::window::centered;
use clip_llm::platform::window::no_activate_style;
use clip_llm::platform::window::tool_window_style;
use clip_llm::platform::window::HandleCache;
use clip_llm::platform::window::WS_EX_APPWINDOW;
use clip_llm::platform::window::WS_EX_NOACTIVATE;
use clip_llm::platform::window::WS_EX_TOOLWINDOW;
use clip_llm::ApiError;
use clip_llm::HotkeyError;

fn model(label: &str, unavailable: Option<&str>) -> TrayModel {
    TrayModel { label: label.to_string(), unavailable: unavailable.map(str::to_string) }
}

fn models() -> Vec<TrayModel> {
    vec![model("a", None), model("b", Some("no key")), model("c", None)]
}

fn labels(entries: &[Entry]) -> Vec<String> {
    entries
        .iter()
        .map(|e| match e {
            Entry::Single(Row::Item { label, .. }) => label.clone(),
            Entry::Single(Row::Check { label, .. }) => label.clone(),
            Entry::Single(Row::Separator) => "-".to_string(),
            Entry::Submenu { label, .. } => label.clone(),
        })
        .collect()
}

// --- the menu ---

#[test]
fn the_menu_lists_the_models_where_there_is_a_choice() {
    let config = Config::default();
    let tray = init_tray(&models(), &config, &LoadOutcome::NoFile, true);
    assert_eq!(
        labels(&tray.entries),
        [
            "About clip-llm",
            "Settings\u{2026}",
            "Open Config",
            "Reload Config",
            "Model",
            "Status",
            "-",
            "Launch at Login",
            "-",
            "Quit",
        ]
    );
    let Entry::Submenu { rows, .. } = &tray.entries[4] else { panic!("no submenu") };
    assert_eq!(rows.len(), 4);
    assert!(matches!(
        &rows[0],
        Row::Check { label, checked: true, command: Command::SelectModel(0) } if label == "a"
    ));
    assert!(matches!(
        &rows[1],
        Row::Check { label, checked: false, command: Command::SelectModel(1) } if label == "c"
    ));
    assert!(matches!(&rows[2], Row::Separator));
    assert!(matches!(
        &rows[3],
        Row::Item { label, command: None } if label == "b \u{2014} unavailable: no key"
    ));
    assert_eq!(tray.status.model, "Model: a");

    let tray = init_tray(&vec![model("a", None)], &config, &LoadOutcome::NoFile, true);
    assert!(!labels(&tray.entries).contains(&"Model".to_string()));
}

#[test]
fn the_status_tells_what_is_set() {
    let mut config = Config::default();
    let tray = init_tray(&vec![], &config, &LoadOutcome::NoFile, false);
    assert_eq!(tray.status.endpoint, "Endpoint: (default)");
    assert_eq!(tray.status.model, "Model: (default)");
    assert_eq!(tray.status.streaming, "Streaming: on");
    assert_eq!(tray.status.config, "Config: none (defaults)");
    assert_eq!(tray.status.telemetry, "Telemetry: off");
    config.api.streaming = Some(false);
    config.telemetry.url = Some("http://l".to_string());
    let failed = LoadOutcome::Failed { path: "p".to_string(), reason: "invalid TOML" };
    let tray = init_tray(&vec![], &config, &failed, false);
    assert_eq!(tray.status.streaming, "Streaming: off");
    assert_eq!(tray.status.config, "Config: error \u{2014} invalid TOML");
    assert_eq!(tray.status.telemetry, "Telemetry \u{2192} http://l (info)");
    let tray = init_tray(&vec![], &config, &LoadOutcome::Loaded("p".to_string()), false);
    assert_eq!(tray.status.config, "Config: loaded (p)");
}

#[test]
fn the_status_can_be_changed() {
    let config = Config::default();
    let mut tray = init_tray(&models(), &config, &LoadOutcome::NoFile, true);
    update_tray_model(&mut tray, 1);
    let checked: Vec<bool> = tray.models.iter().map(|m| m.checked).collect();
    assert_eq!(checked, [false, true]);
    assert_eq!(tray.status.model, "Model: c");
    update_tray_model(&mut tray, 9);
    assert_eq!(tray.status.model, "Model: c");
    let checked: Vec<bool> = tray.models.iter().map(|m| m.checked).collect();
    assert_eq!(checked, [false, true]);
    update_tray_config(&mut tray.status, "Config: reloaded");
    assert_eq!(tray.status.config, "Config: reloaded");
    update_tray_probe(&mut tray.status, false, "prompt tag");
    assert_eq!(tray.status.vision, "Vision: not supported");
    assert_eq!(tray.status.thinking, "Thinking ctrl: prompt tag");
    update_tray_telemetry(&mut tray.status, 12, 3);
    assert_eq!(tray.status.telemetry, "Telemetry: 12 shipped, 3 dropped");
    update_tray_requests(&mut tray.status, 2, 1, "ok");
    assert_eq!(tray.status.requests, "Requests: 3 (\u{2713}2 \u{2717}1, 33% err)");
    assert_eq!(tray.status.last, "Last: ok");
    update_tray_requests(&mut tray.status, 0, 0, "-");
    assert_eq!(tray.status.requests, "Requests: 0 (\u{2713}0 \u{2717}0, 0% err)");
}

#[test]
fn clicks_are_taken_once() {
    let mut r = TrayRequests::new(false);
    assert_eq!(r.click(Command::OpenSettings, false), ClickStep::Wake);
    assert_eq!(r.click(Command::ReloadConfig, false), ClickStep::Wake);
    assert_eq!(r.click(Command::SelectModel(1), false), ClickStep::Wake);
    assert_eq!(r.click(Command::SelectModel(2), false), ClickStep::Wake);
    assert_eq!(r.click(Command::About, true), ClickStep::Repaint);
    assert_eq!(r.click(Command::About, false), ClickStep::ShowAbout);
    assert_eq!(r.click(Command::OpenConfig, false), ClickStep::OpenConfig);
    let p = r.poll_tray_events();
    assert!(p.about && !p.quit && !p.check_launch);
    assert_eq!(p.action, Some(TrayAction::SelectModel(2)));
    assert_eq!(r.poll_tray_events().action, None);
    r.click(Command::Quit, false);
    assert!(r.poll_tray_events().quit);
}

#[test]
fn a_check_mark_that_may_be_wrong_is_looked_up() {
    let mut r = TrayRequests::new(false);
    assert_eq!(r.click(Command::LaunchAtLogin, false), ClickStep::SetLaunchAtLogin(true));
    assert!(r.launch_switched(true, false));
    assert!(r.poll_tray_events().check_launch);
    r.launch_is(true);
    assert_eq!(r.click(Command::LaunchAtLogin, false), ClickStep::SetLaunchAtLogin(false));
    assert!(!r.launch_switched(false, true));
    assert!(!r.poll_tray_events().check_launch);
    assert_eq!(r.click(Command::LaunchAtLogin, false), ClickStep::SetLaunchAtLogin(true));
}

// --- the start ---

fn outcome(name: &str, error: Option<ApiError>) -> ProfileOutcome {
    ProfileOutcome { name: name.to_string(), error }
}

#[test]
fn the_first_profile_has_to_be_in_order() {
    let unset = start(vec![outcome("a", Some(ApiError::MissingConfig("api_key")))]);
    assert!(matches!(unset, Startup::Unset(ApiError::MissingConfig("api_key"))));
    let fail = start(vec![outcome("a", Some(ApiError::InvalidConfig("x".to_string())))]);
    assert!(matches!(fail, Startup::Fail(ApiError::InvalidConfig(_))));
    let run = start(vec![
        outcome("a", None),
        outcome("b", Some(ApiError::InvalidConfig("x".to_string()))),
        outcome("c", None),
    ]);
    let Startup::Run(models) = run else { panic!("cannot run") };
    assert_eq!(
        models,
        [model("a", None), model("c", None), model("b", Some("invalid configuration: x"))]
    );
}

#[test]
fn what_is_wrong_is_said() {
    let failed = LoadOutcome::Failed { path: "/c.toml".to_string(), reason: "invalid TOML" };
    assert_eq!(
        startup_notice(&failed).unwrap(),
        "Config file ignored (invalid TOML): /c.toml \u{2014} using built-in defaults."
    );
    assert_eq!(startup_notice(&LoadOutcome::NoFile), None);
    let alert = hotkey_alert(&HotkeyError::RegisterFailed("taken".to_string()));
    assert!(alert.starts_with(
        "clip-llm could not register the Ctrl+Shift+C hotkey (failed to register hotkey: taken)."
    ));
}

#[test]
fn the_first_of_the_best_adapters_is_taken() {
    let (cpu, other) = (DeviceKind::Cpu, DeviceKind::Other);
    let (own, built_in) = (DeviceKind::DiscreteGpu, DeviceKind::IntegratedGpu);
    assert_eq!(select_wgpu_adapter(&[cpu, built_in, own, own]), Ok(2));
    assert_eq!(select_wgpu_adapter(&[cpu, other, DeviceKind::VirtualGpu]), Ok(1));
    assert_eq!(select_wgpu_adapter(&[]), Err("no wgpu adapter found".to_string()));
}

// --- the window ---

#[test]
fn a_handle_is_kept_while_it_is_good() {
    let mut c = HandleCache::new();
    assert_eq!(c.candidate(), None);
    assert!(c.searched(None));
    assert!(!c.searched(None));
    assert!(!c.searched(Some(5)));
    assert_eq!(c.candidate(), Some(5));
    c.tried(true);
    assert_eq!(c.candidate(), Some(5));
    c.tried(false);
    assert_eq!(c.candidate(), None);
    assert!(c.searched(None));
}

#[test]
fn styles_are_set_where_they_are_not() {
    assert_eq!(no_activate_style(1, true), Some(1 | WS_EX_NOACTIVATE));
    assert_eq!(no_activate_style(1 | WS_EX_NOACTIVATE, true), None);
    assert_eq!(no_activate_style(1 | WS_EX_NOACTIVATE, false), Some(1));
    assert_eq!(tool_window_style(1 | WS_EX_APPWINDOW), Some(1 | WS_EX_TOOLWINDOW));
    assert_eq!(tool_window_style(WS_EX_TOOLWINDOW), None);
}

#[test]
fn a_window_is_centered() {
    assert_eq!(centered(500, 0, 201), 400);
    assert_eq!(centered(500, 10, 10), 500);
    assert_eq!(centered(0, 5, 2), 1);
}
