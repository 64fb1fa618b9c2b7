//! Scenarios that are played through, one after the other, to see what the
//! window does.
//!
//! Moments are nanoseconds on a monotonic clock.

use crate::config;
use crate::hotkey;
use crate::mode::ProcessMode;
use crate::text;
use crate::text::chars_of;
use crate::text::same;
use crate::text::split_at_char;
use crate::text::str_same;
use crate::text::trimmed;
use crate::text::CharClass;
use vstd::prelude::*;

verus! {

/// How long the first scenario waits.
pub const STARTUP_DELAY: u64 = 2000 * hotkey::MILLISECOND;

/// How long it is from one scenario to the next.
pub const BETWEEN_DELAY: u64 = 1500 * hotkey::MILLISECOND;

/// How long a result is shown.
pub const RESULT_DISPLAY: u64 = 1000 * hotkey::MILLISECOND;

/// How long the capturing view is up before the content is committed.
pub const CAPTURE_DISPLAY: u64 = 900 * hotkey::MILLISECOND;

/// How long it is from the last scenario to the end.
pub const QUIT_DELAY: u64 = 1000 * hotkey::MILLISECOND;

/// One scenario.
#[derive(Debug, Clone, Copy, PartialEq)]
pub struct Scenario {
    pub name: &'static str,
    pub input: &'static str,
    pub mode: ProcessMode,
    /// The mode to switch to once the result is there.
    pub switch_to: Option<ProcessMode>,
    /// Opens the settings panel in place of processing a text.
    pub settings: bool,
    /// Edits the settings once the panel is up.
    pub settings_edit: bool,
    /// The size to drag the panel to once the result is there.
    pub resize_to: Option<(u32, u32)>,
    /// Starts with the capturing view.
    pub capture_first: bool,
    /// How many pages to scroll once the result is there.
    pub scroll_pages: u8,
    /// The profile to switch to once the panel is up.
    pub select_model: Option<usize>,
}

/// What a scenario says.
#[verifier::ext_equal]
pub struct ScenarioView {
    pub name: Seq<char>,
    pub input: Seq<char>,
    pub mode: ProcessMode,
    pub switch_to: Option<ProcessMode>,
    pub settings: bool,
    pub settings_edit: bool,
    pub resize_to: Option<(u32, u32)>,
    pub capture_first: bool,
    pub scroll_pages: u8,
    pub select_model: Option<usize>,
}

/// A scenario that only shows a text and its result.
pub open spec fn plain(name: Seq<char>, input: Seq<char>, mode: ProcessMode) -> ScenarioView {
    ScenarioView {
        name,
        input,
        mode,
        switch_to: None,
        settings: false,
        settings_edit: false,
        resize_to: None,
        capture_first: false,
        scroll_pages: 0,
        select_model: None,
    }
}

impl Scenario {
    /// What it says.
    pub open spec fn view(&self) -> ScenarioView {
        ScenarioView {
            name: self.name@,
            input: self.input@,
            mode: self.mode,
            switch_to: self.switch_to,
            settings: self.settings,
            settings_edit: self.settings_edit,
            resize_to: self.resize_to,
            capture_first: self.capture_first,
            scroll_pages: self.scroll_pages,
            select_model: self.select_model,
        }
    }

    /// A scenario that only shows a text and its result.
    pub fn plain(name: &'static str, input: &'static str, mode: ProcessMode) -> (r: Self)
        ensures
            r@ == plain(name@, input@, mode),
    {
        Scenario {
            name,
            input,
            mode,
            switch_to: None,
            settings: false,
            settings_edit: false,
            resize_to: None,
            capture_first: false,
            scroll_pages: 0,
            select_model: None,
        }
    }
}

/// What scenarios say.
pub open spec fn scenarios_view(v: Seq<Scenario>) -> Seq<ScenarioView> {
    v.map_values(|s: Scenario| s@)
}

pub const SHORT_TEXT_INPUT: &'static str = "Hello";

pub const LONG_TEXT_INPUT: &'static str = "The quick brown fox jumps over the lazy dog. \
    This is a longer paragraph that should wrap across multiple lines \
    in the overlay window. It contains enough text to test the scroll \
    area behavior when the content exceeds the maximum result height.\n\n\
    Line 3: Testing multi-line content display.\n\
    Line 4: The overlay should expand to accommodate this text.\n\
    Line 5: ScrollArea should activate when content is tall enough.\n\
    Line 6: Checking vertical space allocation after state transition.\n\
    Line 7: This line tests the Area feedback loop fix.\n\
    Line 8: Content size should reflect actual rendered height.\n\
    Line 9: The viewport should resize to match desired_size.\n\
    Line 10: Final line of the long text scenario.";

pub const MODE_SWITCH_INPUT: &'static str = "Testing mode switch from Translate to Rephrase.";

pub const ERROR_DISPLAY_INPUT: &'static str = "__ERROR__";

pub const KOREAN_TEXT_INPUT: &'static str = "안녕하세요. 이것은 한국어 텍스트 렌더링을 테스트하기 위한 시나리오입니다.";

pub const REPHRASE_MODE_INPUT: &'static str = "This sentense has speling erors that need correcting.";

pub const SUMMARIZE_MODE_INPUT: &'static str = "Rust is a systems programming language focused on safety, speed, and \
    concurrency. It achieves memory safety without garbage collection through \
    its ownership system with three key rules: each value has exactly one owner, \
    ownership can be transferred (moved) but not implicitly copied, and when the \
    owner goes out of scope the value is dropped. The borrow checker enforces \
    these rules at compile time, preventing data races and use-after-free bugs \
    without any runtime overhead. Rust also provides fearless concurrency through \
    its type system, ensuring thread safety at compile time rather than relying \
    on runtime checks or locks.";

pub const LONG_SINGLE_LINE_INPUT: &'static str = "A";

pub const CAPTURING_INPUT: &'static str = "Text already on the clipboard, shown while the modifiers are still held so the mode can be picked.";

pub const SCROLLED_INPUT: &'static str = "Scroll me: the long mock reply is paged down once so both fades show.";

pub const RESIZED_MIN_INPUT: &'static str = "Resize me: the long mock reply must scroll inside the smallest panel.";

/// All scenarios, in the order in which they are played.
pub open spec fn catalog() -> Seq<ScenarioView> {
    seq![
        plain("short_text"@, SHORT_TEXT_INPUT@, ProcessMode::Translate),
        plain("long_text"@, LONG_TEXT_INPUT@, ProcessMode::Translate),
        ScenarioView {
            switch_to: Some(ProcessMode::Rephrase),
            ..plain("mode_switch"@, MODE_SWITCH_INPUT@, ProcessMode::Translate)
        },
        plain("error_display"@, ERROR_DISPLAY_INPUT@, ProcessMode::Translate),
        plain("korean_text"@, KOREAN_TEXT_INPUT@, ProcessMode::Translate),
        plain("rephrase_mode"@, REPHRASE_MODE_INPUT@, ProcessMode::Rephrase),
        plain("summarize_mode"@, SUMMARIZE_MODE_INPUT@, ProcessMode::Summarize),
        plain("long_single_line"@, LONG_SINGLE_LINE_INPUT@, ProcessMode::Translate),
        ScenarioView {
            capture_first: true,
            ..plain("capturing"@, CAPTURING_INPUT@, ProcessMode::Translate)
        },
        ScenarioView {
            scroll_pages: 1,
            ..plain("scrolled"@, SCROLLED_INPUT@, ProcessMode::Translate)
        },
        ScenarioView {
            resize_to: Some((100, 100)),
            ..plain("resized_min"@, RESIZED_MIN_INPUT@, ProcessMode::Translate)
        },
        ScenarioView {
            settings: true,
            ..plain("settings"@, ""@, ProcessMode::Translate)
        },
        ScenarioView {
            settings: true,
            select_model: Some(1),
            ..plain("settings_switched"@, ""@, ProcessMode::Translate)
        },
        ScenarioView {
            settings: true,
            settings_edit: true,
            ..plain("settings_edited"@, ""@, ProcessMode::Translate)
        },
    ]
}

/// All scenarios, in the order in which they are played.
pub fn all_scenarios() -> (r: Vec<Scenario>)
    ensures
        scenarios_view(r@) == catalog(),
{
    let mut all: Vec<Scenario> = Vec::new();
    all.push(Scenario::plain("short_text", SHORT_TEXT_INPUT, ProcessMode::Translate));
    all.push(Scenario::plain("long_text", LONG_TEXT_INPUT, ProcessMode::Translate));
    all.push(
        Scenario {
            switch_to: Some(ProcessMode::Rephrase),
            ..Scenario::plain("mode_switch", MODE_SWITCH_INPUT, ProcessMode::Translate)
        },
    );
    all.push(Scenario::plain("error_display", ERROR_DISPLAY_INPUT, ProcessMode::Translate));
    all.push(Scenario::plain("korean_text", KOREAN_TEXT_INPUT, ProcessMode::Translate));
    all.push(Scenario::plain("rephrase_mode", REPHRASE_MODE_INPUT, ProcessMode::Rephrase));
    all.push(Scenario::plain("summarize_mode", SUMMARIZE_MODE_INPUT, ProcessMode::Summarize));
    all.push(Scenario::plain("long_single_line", LONG_SINGLE_LINE_INPUT, ProcessMode::Translate));
    all.push(
        Scenario {
            capture_first: true,
            ..Scenario::plain("capturing", CAPTURING_INPUT, ProcessMode::Translate)
        },
    );
    all.push(
        Scenario {
            scroll_pages: 1,
            ..Scenario::plain("scrolled", SCROLLED_INPUT, ProcessMode::Translate)
        },
    );
    all.push(
        Scenario {
            resize_to: Some((100, 100)),
            ..Scenario::plain("resized_min", RESIZED_MIN_INPUT, ProcessMode::Translate)
        },
    );
    all.push(
        Scenario {
            settings: true,
            ..Scenario::plain("settings", "", ProcessMode::Translate)
        },
    );
    all.push(
        Scenario {
            settings: true,
            select_model: Some(1),
            ..Scenario::plain("settings_switched", "", ProcessMode::Translate)
        },
    );
    all.push(
        Scenario {
            settings: true,
            settings_edit: true,
            ..Scenario::plain("settings_edited", "", ProcessMode::Translate)
        },
    );
    assert(scenarios_view(all@) =~= catalog());
    all
}

// ---------------------------------------------------------------------------
// The runner
// ---------------------------------------------------------------------------

/// How far a runner is.
#[derive(Debug, Clone, Copy, PartialEq, Eq, Structural)]
pub enum RunnerPhase {
    /// Before the first scenario.
    StartupDelay,
    /// Between two scenarios, with the window hidden.
    WaitingToInject,
    /// The capturing view is up; the content is yet to be committed.
    WaitingToCommit,
    /// A scenario is on; its result is yet to come.
    WaitingForResult,
    /// The result is shown.
    WaitingToHide,
    /// Something was changed; its result is yet to come.
    WaitingForSwitchResult,
    /// All scenarios are done.
    Finishing,
    /// The end.
    Done,
}

/// What a runner asks for.
#[derive(Debug)]
pub enum ScenarioAction {
    /// Nothing is to be done.
    Nothing,
    /// Process a text.
    ShowOverlay { mode: ProcessMode, text: String },
    SwitchMode(ProcessMode),
    HideOverlay,
    OpenSettings,
    /// Edit the open settings.
    EditSettingsSample,
    CloseSettings,
    /// Drag the panel to this size.
    Resize(u32, u32),
    /// Show the capturing view with a text that was picked.
    BeginCapture { text: String },
    /// Scroll so many pages down.
    ScrollBody { pages: u8 },
    /// Switch to another profile.
    SelectModel(usize),
    /// All scenarios are done: end the program.
    Quit,
}

/// What an action says.
#[verifier::ext_equal]
pub enum ActionView {
    /// Nothing is to be done.
    Nothing,
    ShowOverlay(ProcessMode, Seq<char>),
    SwitchMode(ProcessMode),
    HideOverlay,
    OpenSettings,
    EditSettingsSample,
    CloseSettings,
    Resize(u32, u32),
    BeginCapture(Seq<char>),
    ScrollBody(u8),
    SelectModel(usize),
    Quit,
}

/// How an action is passed on.
#[derive(Debug, Clone, Copy, PartialEq, Eq, Structural)]
pub enum Delivery {
    /// Not at all.
    Nothing,
    /// As it is.
    Send,
    /// After the window was brought up.
    ShowThenSend,
    /// As the last one.
    SendAndStop,
}

impl ScenarioAction {
    /// What it says.
    pub open spec fn view(&self) -> ActionView {
        match self {
            ScenarioAction::Nothing => ActionView::Nothing,
            ScenarioAction::ShowOverlay { mode, text } => ActionView::ShowOverlay(*mode, text@),
            ScenarioAction::SwitchMode(m) => ActionView::SwitchMode(*m),
            ScenarioAction::HideOverlay => ActionView::HideOverlay,
            ScenarioAction::OpenSettings => ActionView::OpenSettings,
            ScenarioAction::EditSettingsSample => ActionView::EditSettingsSample,
            ScenarioAction::CloseSettings => ActionView::CloseSettings,
            ScenarioAction::Resize(w, h) => ActionView::Resize(*w, *h),
            ScenarioAction::BeginCapture { text } => ActionView::BeginCapture(text@),
            ScenarioAction::ScrollBody { pages } => ActionView::ScrollBody(*pages),
            ScenarioAction::SelectModel(i) => ActionView::SelectModel(*i),
            ScenarioAction::Quit => ActionView::Quit,
        }
    }

    /// How the action is passed on. The window has to be up for a text to be
    /// processed or the settings to be opened.
    pub fn delivery(&self) -> (r: Delivery)
        ensures
            r == match self@ {
                ActionView::Nothing => Delivery::Nothing,
                ActionView::Quit => Delivery::SendAndStop,
                ActionView::ShowOverlay(_, _) => Delivery::ShowThenSend,
                ActionView::OpenSettings => Delivery::ShowThenSend,
                _ => Delivery::Send,
            },
    {
        match self {
            ScenarioAction::Nothing => Delivery::Nothing,
            ScenarioAction::Quit => Delivery::SendAndStop,
            ScenarioAction::ShowOverlay { .. } => Delivery::ShowThenSend,
            ScenarioAction::OpenSettings => Delivery::ShowThenSend,
            _ => Delivery::Send,
        }
    }
}

/// Plays scenarios.
#[derive(Debug)]
pub struct DiagScenarioRunner {
    /// The scenarios that are left, with the current one first.
    pub scenarios: Vec<Scenario>,
    pub phase: RunnerPhase,
    /// When the current delay ends.
    pub delay_until: u64,
}

/// What a runner knows.
#[verifier::ext_equal]
pub struct RunnerView {
    pub scenarios: Seq<ScenarioView>,
    pub phase: RunnerPhase,
    pub delay_until: u64,
}

/// The moment `delay` after `now`, as far as the clock goes.
pub open spec fn after(now: u64, delay: u64) -> u64 {
    if now + delay <= u64::MAX {
        (now + delay) as u64
    } else {
        u64::MAX
    }
}

/// Whether a comma-separated list holds a name.
pub open spec fn is_listed(list: Seq<char>, name: Seq<char>) -> bool {
    exists|i: int|
        0 <= i < text::split(list, ',').len() && text::trim(
            #[trigger] text::split(list, ',')[i],
            CharClass::Space,
        ) == name
}

/// The scenarios that a list names, in their own order.
pub open spec fn listed(v: Seq<ScenarioView>, list: Seq<char>) -> Seq<ScenarioView>
    decreases v.len(),
{
    if v.len() == 0 {
        seq![]
    } else if is_listed(list, v.last().name) {
        listed(v.drop_last(), list).push(v.last())
    } else {
        listed(v.drop_last(), list)
    }
}

/// The scenarios to play: those that a list names, or all where it is blank.
pub open spec fn chosen(list: Option<Seq<char>>) -> Seq<ScenarioView> {
    match list {
        Some(l) => if text::trim(l, CharClass::Space).len() > 0 {
            listed(catalog(), l)
        } else {
            catalog()
        },
        None => catalog(),
    }
}

/// What the current scenario asks for once its result is there.
pub open spec fn follow_up(s: ScenarioView) -> ActionView {
    match s.switch_to {
        Some(m) => ActionView::SwitchMode(m),
        None => if s.settings_edit {
            ActionView::EditSettingsSample
        } else {
            match s.select_model {
                Some(i) => ActionView::SelectModel(i),
                None => match s.resize_to {
                    Some((w, h)) => ActionView::Resize(w, h),
                    None => if s.scroll_pages > 0 {
                        ActionView::ScrollBody(s.scroll_pages)
                    } else {
                        ActionView::Nothing
                    },
                },
            }
        },
    }
}

/// Whether a scenario's result is there.
pub open spec fn has_result(state: Seq<char>) -> bool {
    state == "Result"@ || state == "Error"@ || state == "Settings"@
}

/// Whether the result of a change is there.
pub open spec fn has_changed(state: Seq<char>) -> bool {
    state == "Result"@ || state == "Error"@ || state == "SettingsEdited"@ || state
        == "SettingsSwitched"@ || state == "Resized"@ || state == "Scrolled"@
}

/// What a runner does at `now`, with the window in `state`, and what it then
/// knows.
pub open spec fn step(r: RunnerView, state: Seq<char>, now: u64) -> (RunnerView, ActionView) {
    let same = (r, ActionView::Nothing);
    match r.phase {
        RunnerPhase::StartupDelay | RunnerPhase::WaitingToInject => if now < r.delay_until {
            same
        } else if r.scenarios.len() == 0 {
            (
                RunnerView {
                    phase: RunnerPhase::Finishing,
                    delay_until: after(now, QUIT_DELAY),
                    ..r
                },
                ActionView::Nothing,
            )
        } else if r.scenarios[0].settings {
            (RunnerView { phase: RunnerPhase::WaitingForResult, ..r }, ActionView::OpenSettings)
        } else if r.scenarios[0].capture_first {
            (
                RunnerView {
                    phase: RunnerPhase::WaitingToCommit,
                    delay_until: after(now, CAPTURE_DISPLAY),
                    ..r
                },
                ActionView::BeginCapture(r.scenarios[0].input),
            )
        } else {
            (
                RunnerView { phase: RunnerPhase::WaitingForResult, ..r },
                ActionView::ShowOverlay(r.scenarios[0].mode, r.scenarios[0].input),
            )
        },
        RunnerPhase::WaitingToCommit => if now < r.delay_until || r.scenarios.len() == 0 {
            same
        } else {
            (
                RunnerView { phase: RunnerPhase::WaitingForResult, ..r },
                ActionView::ShowOverlay(r.scenarios[0].mode, r.scenarios[0].input),
            )
        },
        RunnerPhase::WaitingForResult => if !has_result(state) {
            same
        } else if r.scenarios.len() > 0 && follow_up(r.scenarios[0]) != ActionView::Nothing {
            (
                RunnerView { phase: RunnerPhase::WaitingForSwitchResult, ..r },
                follow_up(r.scenarios[0]),
            )
        } else {
            (
                RunnerView {
                    phase: RunnerPhase::WaitingToHide,
                    delay_until: after(now, RESULT_DISPLAY),
                    ..r
                },
                ActionView::Nothing,
            )
        },
        RunnerPhase::WaitingForSwitchResult => if !has_changed(state) {
            same
        } else {
            (
                RunnerView {
                    phase: RunnerPhase::WaitingToHide,
                    delay_until: after(now, RESULT_DISPLAY),
                    ..r
                },
                ActionView::Nothing,
            )
        },
        RunnerPhase::WaitingToHide => if now < r.delay_until {
            same
        } else {
            (
                RunnerView {
                    scenarios: if r.scenarios.len() > 0 {
                        r.scenarios.drop_first()
                    } else {
                        r.scenarios
                    },
                    phase: RunnerPhase::WaitingToInject,
                    delay_until: after(now, BETWEEN_DELAY),
                },
                if r.scenarios.len() > 0 && r.scenarios[0].settings {
                    ActionView::CloseSettings
                } else {
                    ActionView::HideOverlay
                },
            )
        },
        RunnerPhase::Finishing => if now < r.delay_until {
            same
        } else {
            (RunnerView { phase: RunnerPhase::Done, ..r }, ActionView::Quit)
        },
        RunnerPhase::Done => same,
    }
}

fn in_list(list: &Vec<Vec<char>>, name: &str) -> (r: bool)
    ensures
        r == exists|i: int|
            0 <= i < list@.len() && text::trim(
                #[trigger] text::views(list@)[i],
                CharClass::Space,
            ) == name@,
{
    let wanted = chars_of(name);
    let mut i: usize = 0;
    while i < list.len()
        invariant
            i <= list@.len(),
            wanted@ == name@,
            forall|j: int|
                0 <= j < i ==> text::trim(#[trigger] text::views(list@)[j], CharClass::Space)
                    != name@,
        decreases list.len() - i,
    {
        let t = trimmed(&list[i], CharClass::Space);
        if same(&t, &wanted) {
            assert(text::trim(text::views(list@)[i as int], CharClass::Space) == name@);
            return true;
        }
        i += 1;
    }
    false
}

/// The scenarios to play.
pub fn choose_scenarios(list: Option<&str>) -> (r: Vec<Scenario>)
    ensures
        scenarios_view(r@) == chosen(config::str_view(list)),
{
    let all = all_scenarios();
    let l = match list {
        Some(l) => l,
        None => return all,
    };
    let v = chars_of(l);
    let t = trimmed(&v, CharClass::Space);
    if t.len() == 0 {
        return all;
    }
    let names = split_at_char(&v, ',');
    let ghost views = scenarios_view(all@);
    let mut r: Vec<Scenario> = Vec::new();
    let mut i: usize = 0;
    assert(views.take(0) =~= seq![]);
    assert(scenarios_view(r@) =~= seq![]);
    while i < all.len()
        invariant
            i <= all@.len(),
            views == scenarios_view(all@),
            text::views(names@) == text::split(l@, ','),
            scenarios_view(r@) == listed(views.take(i as int), l@),
        decreases all.len() - i,
    {
        let s = all[i];
        let ghost before = scenarios_view(r@);
        assert(views.take(i + 1).drop_last() =~= views.take(i as int));
        assert(names@.len() == text::views(names@).len());
        if in_list(&names, s.name) {
            r.push(s);
            assert(scenarios_view(r@) =~= before.push(s@));
        }
        i += 1;
    }
    assert(views.take(i as int) =~= views);
    r
}

impl DiagScenarioRunner {
    /// What it knows.
    pub open spec fn view(&self) -> RunnerView {
        RunnerView {
            scenarios: scenarios_view(self.scenarios@),
            phase: self.phase,
            delay_until: self.delay_until,
        }
    }

    /// A runner for the scenarios that `list` names, separated by commas, or
    /// for all of them.
    pub fn new(list: Option<&str>, now: u64) -> (r: Self)
        ensures
            r@ == (RunnerView {
                scenarios: chosen(config::str_view(list)),
                phase: RunnerPhase::StartupDelay,
                delay_until: after(now, STARTUP_DELAY),
            }),
    {
        DiagScenarioRunner {
            scenarios: choose_scenarios(list),
            phase: RunnerPhase::StartupDelay,
            delay_until: now.saturating_add(STARTUP_DELAY),
        }
    }

    fn inject(&mut self, now: u64) -> (r: ScenarioAction)
        requires
            old(self).phase is StartupDelay || old(self).phase is WaitingToInject,
            now >= old(self).delay_until,
        ensures
            (final(self)@, r@) == step(old(self)@, seq![], now),
    {
        if self.scenarios.len() == 0 {
            self.phase = RunnerPhase::Finishing;
            self.delay_until = now.saturating_add(QUIT_DELAY);
            return ScenarioAction::Nothing;
        }
        let scenario = self.scenarios[0];
        assert(scenarios_view(self.scenarios@)[0] == scenario@);
        if scenario.settings {
            self.phase = RunnerPhase::WaitingForResult;
            return ScenarioAction::OpenSettings;
        }
        if scenario.capture_first {
            self.phase = RunnerPhase::WaitingToCommit;
            self.delay_until = now.saturating_add(CAPTURE_DISPLAY);
            return ScenarioAction::BeginCapture { text: scenario.input.to_owned() };
        }
        self.phase = RunnerPhase::WaitingForResult;
        ScenarioAction::ShowOverlay { mode: scenario.mode, text: scenario.input.to_owned() }
    }

    fn follow(&self) -> (r: ScenarioAction)
        ensures
            r@ == if self@.scenarios.len() > 0 {
                follow_up(self@.scenarios[0])
            } else {
                ActionView::Nothing
            },
    {
        if self.scenarios.len() == 0 {
            return ScenarioAction::Nothing;
        }
        let s = self.scenarios[0];
        assert(scenarios_view(self.scenarios@)[0] == s@);
        if let Some(m) = s.switch_to {
            return ScenarioAction::SwitchMode(m);
        }
        if s.settings_edit {
            return ScenarioAction::EditSettingsSample;
        }
        if let Some(i) = s.select_model {
            return ScenarioAction::SelectModel(i);
        }
        if let Some((w, h)) = s.resize_to {
            return ScenarioAction::Resize(w, h);
        }
        if s.scroll_pages > 0 {
            return ScenarioAction::ScrollBody { pages: s.scroll_pages };
        }
        ScenarioAction::Nothing
    }

    /// What to do at `now`, with the window in `overlay_state`.
    pub fn tick(&mut self, overlay_state: &str, now: u64) -> (r: ScenarioAction)
        ensures
            (final(self)@, r@) == step(old(self)@, overlay_state@, now),
    {
        match self.phase {
            RunnerPhase::StartupDelay | RunnerPhase::WaitingToInject => {
                if now < self.delay_until {
                    return ScenarioAction::Nothing;
                }
                self.inject(now)
            },
            RunnerPhase::WaitingToCommit => {
                if now < self.delay_until || self.scenarios.len() == 0 {
                    return ScenarioAction::Nothing;
                }
                let scenario = self.scenarios[0];
                assert(scenarios_view(self.scenarios@)[0] == scenario@);
                self.phase = RunnerPhase::WaitingForResult;
                ScenarioAction::ShowOverlay {
                    mode: scenario.mode,
                    text: scenario.input.to_owned(),
                }
            },
            RunnerPhase::WaitingForResult => {
                if !(str_same(overlay_state, "Result") || str_same(overlay_state, "Error")
                    || str_same(overlay_state, "Settings")) {
                    return ScenarioAction::Nothing;
                }
                let action = self.follow();
                match action {
                    ScenarioAction::Nothing => {
                        self.delay_until = now.saturating_add(RESULT_DISPLAY);
                        self.phase = RunnerPhase::WaitingToHide;
                    },
                    _ => {
                        self.phase = RunnerPhase::WaitingForSwitchResult;
                    },
                }
                action
            },
            RunnerPhase::WaitingForSwitchResult => {
                if str_same(overlay_state, "Result") || str_same(overlay_state, "Error") || str_same(
                    overlay_state,
                    "SettingsEdited",
                ) || str_same(overlay_state, "SettingsSwitched") || str_same(
                    overlay_state,
                    "Resized",
                ) || str_same(overlay_state, "Scrolled") {
                    self.delay_until = now.saturating_add(RESULT_DISPLAY);
                    self.phase = RunnerPhase::WaitingToHide;
                }
                ScenarioAction::Nothing
            },
            RunnerPhase::WaitingToHide => {
                if now < self.delay_until {
                    return ScenarioAction::Nothing;
                }
                let mut settings = false;
                if self.scenarios.len() > 0 {
                    let ghost before = scenarios_view(self.scenarios@);
                    let done = self.scenarios.remove(0);
                    settings = done.settings;
                    assert(scenarios_view(self.scenarios@) =~= before.drop_first());
                    assert(before[0] == done@);
                }
                self.delay_until = now.saturating_add(BETWEEN_DELAY);
                self.phase = RunnerPhase::WaitingToInject;
                if settings {
                    ScenarioAction::CloseSettings
                } else {
                    ScenarioAction::HideOverlay
                }
            },
            RunnerPhase::Finishing => {
                if now < self.delay_until {
                    return ScenarioAction::Nothing;
                }
                self.phase = RunnerPhase::Done;
                ScenarioAction::Quit
            },
            RunnerPhase::Done => ScenarioAction::Nothing,
        }
    }
}

/// Whether a runner is in order: it is in the middle of a scenario only where
/// there is one, and at the end only where none is left.
pub open spec fn in_order(r: RunnerView) -> bool {
    match r.phase {
        RunnerPhase::StartupDelay | RunnerPhase::WaitingToInject => true,
        RunnerPhase::WaitingToCommit
        | RunnerPhase::WaitingForResult
        | RunnerPhase::WaitingToHide
        | RunnerPhase::WaitingForSwitchResult => r.scenarios.len() > 0,
        RunnerPhase::Finishing | RunnerPhase::Done => r.scenarios.len() == 0,
    }
}

/// Every step keeps a runner in order. A scenario leaves the list only when its
/// window is closed, the first one first, and the program is ended only when
/// none is left, and only once.
pub proof fn scenarios_are_played_in_order(r: RunnerView, state: Seq<char>, now: u64)
    requires
        in_order(r),
    ensures
        in_order(step(r, state, now).0),
        step(r, state, now).0.scenarios == if step(r, state, now).1 is HideOverlay || step(
            r,
            state,
            now,
        ).1 is CloseSettings {
            r.scenarios.drop_first()
        } else {
            r.scenarios
        },
        step(r, state, now).1 is Quit ==> r.scenarios.len() == 0 && step(r, state, now).0.phase
            is Done,
        r.phase is Done ==> step(r, state, now) == (r, ActionView::Nothing),
{
}

/// Nothing happens while a delay runs.
pub proof fn delays_are_kept(r: RunnerView, state: Seq<char>, now: u64)
    requires
        now < r.delay_until,
        !(r.phase is WaitingForResult),
        !(r.phase is WaitingForSwitchResult),
    ensures
        step(r, state, now) == (r, ActionView::Nothing),
{
}

/// How many phases a runner is away from its end, at most.
pub open spec fn left_to_do(r: RunnerView) -> int {
    6 * r.scenarios.len() + match r.phase {
        RunnerPhase::StartupDelay => 2int,
        RunnerPhase::WaitingToInject => 2,
        RunnerPhase::WaitingToCommit => 1,
        RunnerPhase::WaitingForResult => 0,
        RunnerPhase::WaitingForSwitchResult => -1,
        RunnerPhase::WaitingToHide => -2,
        RunnerPhase::Finishing => 1,
        RunnerPhase::Done => 0,
    }
}

/// Every step that changes the phase brings a runner nearer to its end.
pub proof fn the_end_comes_nearer(r: RunnerView, state: Seq<char>, now: u64)
    requires
        in_order(r),
    ensures
        left_to_do(r) >= 0,
        step(r, state, now).0.phase != r.phase ==> left_to_do(step(r, state, now).0) < left_to_do(
            r,
        ),
        step(r, state, now).0.phase == r.phase ==> step(r, state, now).0 == r,
{
}

} // verus!
