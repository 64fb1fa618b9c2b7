//! The menu of the tray icon: what it shows, and what a click on it does.

use crate::config;
use crate::config::Config;
use crate::config::LoadOutcome;
use crate::config::OutcomeView;
use crate::numbers;
use crate::numbers::dec_of;
use crate::text::chars_of;
use crate::text::concat;
use crate::text::copy_str;
use crate::text::extend;
use crate::text::push_text;
use crate::text::string_of;
use vstd::prelude::*;

verus! {

/// A model profile in the menu.
#[derive(Debug, Clone, PartialEq)]
pub struct TrayModel {
    pub label: String,
    /// Why it cannot be used, where it cannot.
    pub unavailable: Option<String>,
}

/// What a [`TrayModel`] says.
#[verifier::ext_equal]
pub struct ModelView {
    pub label: Seq<char>,
    pub unavailable: Option<Seq<char>>,
}

impl TrayModel {
    /// What it says.
    pub open spec fn view(&self) -> ModelView {
        ModelView { label: self.label@, unavailable: config::text_view(self.unavailable) }
    }
}

/// What models say.
pub open spec fn models_view(v: Seq<TrayModel>) -> Seq<ModelView> {
    v.map_values(|m: TrayModel| m@)
}

/// What a row of the menu is for.
#[derive(Debug, Clone, Copy, PartialEq, Eq, Structural)]
pub enum Command {
    About,
    OpenSettings,
    OpenConfig,
    ReloadConfig,
    /// Use the profile with this number.
    SelectModel(usize),
    LaunchAtLogin,
    Quit,
}

/// A row of the menu.
#[derive(Debug)]
pub enum Row {
    /// A text; one without a command cannot be clicked.
    Item { label: String, command: Option<Command> },
    /// A text with a check mark.
    Check { label: String, checked: bool, command: Command },
    Separator,
}

/// What a row says.
#[verifier::ext_equal]
pub enum RowView {
    Item(Seq<char>, Option<Command>),
    Check(Seq<char>, bool, Command),
    Separator,
}

/// An entry of the menu.
#[derive(Debug)]
pub enum Entry {
    Single(Row),
    Submenu { label: String, rows: Vec<Row> },
}

/// What an entry says.
#[verifier::ext_equal]
pub enum EntryView {
    Single(RowView),
    Submenu(Seq<char>, Seq<RowView>),
}

impl Row {
    /// What it says.
    pub open spec fn view(&self) -> RowView {
        match self {
            Row::Item { label, command } => RowView::Item(label@, *command),
            Row::Check { label, checked, command } => RowView::Check(label@, *checked, *command),
            Row::Separator => RowView::Separator,
        }
    }
}

/// What rows say.
pub open spec fn rows_view(v: Seq<Row>) -> Seq<RowView> {
    v.map_values(|r: Row| r@)
}

impl Entry {
    /// What it says.
    pub open spec fn view(&self) -> EntryView {
        match self {
            Entry::Single(r) => EntryView::Single(r@),
            Entry::Submenu { label, rows } => EntryView::Submenu(label@, rows_view(rows@)),
        }
    }
}

/// What entries say.
pub open spec fn entries_view(v: Seq<Entry>) -> Seq<EntryView> {
    v.map_values(|e: Entry| e@)
}

// ---------------------------------------------------------------------------
// The models
// ---------------------------------------------------------------------------

/// The models that can be used.
pub open spec fn usable(v: Seq<ModelView>) -> Seq<ModelView>
    decreases v.len(),
{
    if v.len() == 0 {
        seq![]
    } else if v.last().unavailable is None {
        usable(v.drop_last()).push(v.last())
    } else {
        usable(v.drop_last())
    }
}

/// The models that cannot be used.
pub open spec fn unusable(v: Seq<ModelView>) -> Seq<ModelView>
    decreases v.len(),
{
    if v.len() == 0 {
        seq![]
    } else if v.last().unavailable is None {
        unusable(v.drop_last())
    } else {
        unusable(v.drop_last()).push(v.last())
    }
}

/// The row of a model that can be used.
pub open spec fn usable_row(i: int, m: ModelView) -> RowView {
    RowView::Check(m.label, i == 0, Command::SelectModel(i as usize))
}

/// The row of a model that cannot be used.
pub open spec fn unusable_row(m: ModelView) -> RowView {
    RowView::Item(
        m.label + " \u{2014} unavailable: "@ + match m.unavailable {
            Some(why) => why,
            None => seq![],
        },
        None,
    )
}

/// The rows of the models: those that can be used, and after a line those that
/// cannot.
pub open spec fn model_rows(v: Seq<ModelView>) -> Seq<RowView> {
    let first = usable(v).map(|i: int, m: ModelView| usable_row(i, m));
    if unusable(v).len() == 0 {
        first
    } else {
        first.push(RowView::Separator) + unusable(v).map_values(|m: ModelView| unusable_row(m))
    }
}

/// A model that can be used, and whether it is the one in use.
#[derive(Debug)]
pub struct ModelItem {
    pub label: String,
    pub checked: bool,
}

/// What the models that can be used show.
pub open spec fn items_view(v: Seq<ModelItem>) -> Seq<(Seq<char>, bool)> {
    v.map_values(|m: ModelItem| (m.label@, m.checked))
}

/// What the models show at the start: the first one is in use.
pub open spec fn first_items(v: Seq<ModelView>) -> Seq<(Seq<char>, bool)> {
    usable(v).map(|i: int, m: ModelView| (m.label, i == 0))
}

// ---------------------------------------------------------------------------
// The status rows
// ---------------------------------------------------------------------------

/// The texts of the status submenu.
#[derive(Debug)]
pub struct StatusRows {
    pub endpoint: String,
    pub model: String,
    pub streaming: String,
    pub config: String,
    pub vision: String,
    pub thinking: String,
    pub requests: String,
    pub last: String,
    pub telemetry: String,
}

/// What a [`StatusRows`] says.
#[verifier::ext_equal]
pub struct StatusView {
    pub endpoint: Seq<char>,
    pub model: Seq<char>,
    pub streaming: Seq<char>,
    pub config: Seq<char>,
    pub vision: Seq<char>,
    pub thinking: Seq<char>,
    pub requests: Seq<char>,
    pub last: Seq<char>,
    pub telemetry: Seq<char>,
}

impl StatusRows {
    /// What they say.
    pub open spec fn view(&self) -> StatusView {
        StatusView {
            endpoint: self.endpoint@,
            model: self.model@,
            streaming: self.streaming@,
            config: self.config@,
            vision: self.vision@,
            thinking: self.thinking@,
            requests: self.requests@,
            last: self.last@,
            telemetry: self.telemetry@,
        }
    }
}

/// The name of the model in use at the start.
pub open spec fn first_model(v: Seq<ModelView>, c: Config) -> Seq<char> {
    if usable(v).len() > 0 {
        usable(v)[0].label
    } else {
        config::or_default(c.api.model, "(default)"@)
    }
}

/// What came of reading the configuration, for the menu.
pub open spec fn outcome_text(o: OutcomeView) -> Seq<char> {
    match o {
        OutcomeView::Loaded(path) => "Config: loaded ("@ + path + ")"@,
        OutcomeView::NoFile => "Config: none (defaults)"@,
        OutcomeView::Failed(_, reason) => "Config: error \u{2014} "@ + reason,
    }
}

/// Where logs are sent to, for the menu.
pub open spec fn telemetry_text(c: Config) -> Seq<char> {
    match config::non_empty(config::text_view(c.telemetry.url)) {
        Some(url) => "Telemetry \u{2192} "@ + url + " ("@ + config::or_default(
            c.telemetry.level,
            "info"@,
        ) + ")"@,
        None => "Telemetry: off"@,
    }
}

/// What the status rows say at the start.
pub open spec fn first_status(v: Seq<ModelView>, c: Config, o: OutcomeView) -> StatusView {
    StatusView {
        endpoint: "Endpoint: "@ + config::or_default(c.api.endpoint, "(default)"@),
        model: "Model: "@ + first_model(v, c),
        streaming: if c.api.streaming == Some(false) {
            "Streaming: off"@
        } else {
            "Streaming: on"@
        },
        config: outcome_text(o),
        vision: "Vision: probing\u{2026}"@,
        thinking: "Thinking ctrl: probing\u{2026}"@,
        requests: "Requests: none yet"@,
        last: "Last: \u{2014}"@,
        telemetry: telemetry_text(c),
    }
}

/// A row that only says something.
pub open spec fn note(label: Seq<char>) -> RowView {
    RowView::Item(label, None)
}

/// The rows of the status submenu.
pub open spec fn status_rows(s: StatusView) -> Seq<RowView> {
    seq![
        note(s.endpoint),
        note(s.model),
        note(s.streaming),
        note(s.config),
        RowView::Separator,
        note(s.vision),
        note(s.thinking),
        RowView::Separator,
        note(s.requests),
        note(s.last),
        note(s.telemetry),
    ]
}

/// An entry that does something.
pub open spec fn button(label: Seq<char>, command: Command) -> EntryView {
    EntryView::Single(RowView::Item(label, Some(command)))
}

/// The whole menu. There is a submenu for the models only where there is a
/// choice.
pub open spec fn menu(v: Seq<ModelView>, s: StatusView, launch: bool) -> Seq<EntryView> {
    let top = seq![
        button("About clip-llm"@, Command::About),
        button("Settings\u{2026}"@, Command::OpenSettings),
        button("Open Config"@, Command::OpenConfig),
        button("Reload Config"@, Command::ReloadConfig),
    ];
    let models = if v.len() > 1 {
        seq![EntryView::Submenu("Model"@, model_rows(v))]
    } else {
        seq![]
    };
    let bottom = seq![
        EntryView::Submenu("Status"@, status_rows(s)),
        EntryView::Single(RowView::Separator),
        EntryView::Single(RowView::Check("Launch at Login"@, launch, Command::LaunchAtLogin)),
        EntryView::Single(RowView::Separator),
        button("Quit"@, Command::Quit),
    ];
    top + models + bottom
}

/// The menu, and what of it changes later.
#[derive(Debug)]
pub struct Tray {
    pub entries: Vec<Entry>,
    pub status: StatusRows,
    pub models: Vec<ModelItem>,
}

fn text_or<'a>(s: Option<&'a str>, other: &'a str) -> (r: &'a str)
    ensures
        r@ == match s {
            Some(t) => t@,
            None => other@,
        },
{
    match s {
        Some(t) => t,
        None => other,
    }
}

fn make_model_rows(models: &Vec<TrayModel>) -> (r: Vec<Row>)
    ensures
        rows_view(r@) == model_rows(models_view(models@)),
{
    let ghost all = models_view(models@);
    let mut first: Vec<Row> = Vec::new();
    let mut others: Vec<Row> = Vec::new();
    let mut i: usize = 0;
    let mut count: usize = 0;
    assert(all.take(0) =~= seq![]);
    assert(rows_view(first@) =~= usable(all.take(0)).map(|i: int, m: ModelView| usable_row(i, m)));
    assert(rows_view(others@) =~= unusable(all.take(0)).map_values(
        |m: ModelView| unusable_row(m),
    ));
    while i < models.len()
        invariant
            i <= models@.len(),
            all == models_view(models@),
            count == usable(all.take(i as int)).len(),
            count <= i,
            rows_view(first@) == usable(all.take(i as int)).map(
                |i: int, m: ModelView| usable_row(i, m),
            ),
            rows_view(others@) == unusable(all.take(i as int)).map_values(
                |m: ModelView| unusable_row(m),
            ),
        decreases models.len() - i,
    {
        let m = &models[i];
        let ghost before = all.take(i as int);
        let ghost after = all.take(i + 1);
        assert(after.drop_last() =~= before);
        assert(after.last() == m@);
        let ghost rows = rows_view(first@);
        let ghost rest = rows_view(others@);
        match &m.unavailable {
            None => {
                let row = Row::Check {
                    label: m.label.clone(),
                    checked: count == 0,
                    command: Command::SelectModel(count),
                };
                first.push(row);
                assert(row@ == usable_row(count as int, m@));
                assert(rows_view(first@) =~= rows.push(row@));
                assert(rows_view(first@) =~= usable(after).map(
                    |i: int, m: ModelView| usable_row(i, m),
                ));
                count += 1;
            },
            Some(why) => {
                let mut v = chars_of(m.label.as_str());
                push_text(&mut v, " \u{2014} unavailable: ");
                push_text(&mut v, why.as_str());
                let row = Row::Item { label: string_of(&v), command: None };
                others.push(row);
                assert(row@ == unusable_row(m@));
                assert(rows_view(others@) =~= rest.push(row@));
                assert(rows_view(others@) =~= unusable(after).map_values(
                    |m: ModelView| unusable_row(m),
                ));
            },
        }
        i += 1;
    }
    assert(all.take(i as int) =~= all);
    if others.len() > 0 {
        let ghost rows = rows_view(first@);
        let ghost rest = rows_view(others@);
        first.push(Row::Separator);
        assert(rows_view(first@) =~= rows.push(RowView::Separator));
        let ghost start = rows_view(first@);
        first.append(&mut others);
        assert(rows_view(first@) =~= start + rest);
    }
    first
}

fn make_items(models: &Vec<TrayModel>) -> (r: Vec<ModelItem>)
    ensures
        items_view(r@) == first_items(models_view(models@)),
{
    let ghost all = models_view(models@);
    let mut r: Vec<ModelItem> = Vec::new();
    let mut i: usize = 0;
    assert(all.take(0) =~= seq![]);
    assert(items_view(r@) =~= first_items(all.take(0)));
    while i < models.len()
        invariant
            i <= models@.len(),
            all == models_view(models@),
            items_view(r@) == first_items(all.take(i as int)),
        decreases models.len() - i,
    {
        let m = &models[i];
        let ghost after = all.take(i + 1);
        assert(after.drop_last() =~= all.take(i as int));
        assert(after.last() == m@);
        if m.unavailable.is_none() {
            let ghost before = items_view(r@);
            assert(before.len() == r@.len());
            let item = ModelItem { label: m.label.clone(), checked: r.len() == 0 };
            r.push(item);
            assert(items_view(r@) =~= before.push((item.label@, item.checked)));
            assert(items_view(r@) =~= first_items(after));
        }
        i += 1;
    }
    assert(all.take(i as int) =~= all);
    r
}

fn make_status(items: &Vec<ModelItem>, models: &Vec<TrayModel>, config: &Config, outcome: &LoadOutcome) -> (r:
    StatusRows)
    requires
        items_view(items@) == first_items(models_view(models@)),
    ensures
        r@ == first_status(models_view(models@), *config, outcome@),
{
    let endpoint = concat("Endpoint: ", text_or(config.api_endpoint(), "(default)"));
    assert(items_view(items@).len() == items@.len());
    let model = if items.len() > 0 {
        assert(items_view(items@)[0].0 == items@[0].label@);
        concat("Model: ", items[0].label.as_str())
    } else {
        concat("Model: ", text_or(config.api_model(), "(default)"))
    };
    let streaming = match config.api_streaming() {
        Some(false) => "Streaming: off",
        _ => "Streaming: on",
    };
    let config_text = match outcome {
        LoadOutcome::Loaded(path) => {
            let mut v = chars_of("Config: loaded (");
            push_text(&mut v, path.as_str());
            push_text(&mut v, ")");
            string_of(&v)
        },
        LoadOutcome::NoFile => copy_str("Config: none (defaults)"),
        LoadOutcome::Failed { path: _, reason } => concat("Config: error \u{2014} ", reason),
    };
    let telemetry = match config.telemetry_url() {
        Some(url) => {
            let mut v = chars_of("Telemetry \u{2192} ");
            push_text(&mut v, url);
            push_text(&mut v, " (");
            push_text(&mut v, text_or(config.telemetry_level(), "info"));
            push_text(&mut v, ")");
            string_of(&v)
        },
        None => copy_str("Telemetry: off"),
    };
    StatusRows {
        endpoint,
        model,
        streaming: streaming.to_owned(),
        config: config_text,
        vision: "Vision: probing\u{2026}".to_owned(),
        thinking: "Thinking ctrl: probing\u{2026}".to_owned(),
        requests: "Requests: none yet".to_owned(),
        last: "Last: \u{2014}".to_owned(),
        telemetry,
    }
}

fn make_note(label: &String) -> (r: Row)
    ensures
        r@ == note(label@),
{
    Row::Item { label: label.clone(), command: None }
}

fn make_status_rows(s: &StatusRows) -> (r: Vec<Row>)
    ensures
        rows_view(r@) == status_rows(s@),
{
    let mut r: Vec<Row> = Vec::new();
    r.push(make_note(&s.endpoint));
    r.push(make_note(&s.model));
    r.push(make_note(&s.streaming));
    r.push(make_note(&s.config));
    r.push(Row::Separator);
    r.push(make_note(&s.vision));
    r.push(make_note(&s.thinking));
    r.push(Row::Separator);
    r.push(make_note(&s.requests));
    r.push(make_note(&s.last));
    r.push(make_note(&s.telemetry));
    assert(rows_view(r@) =~= status_rows(s@));
    r
}

fn make_button(label: &str, command: Command) -> (r: Entry)
    ensures
        r@ == button(label@, command),
{
    Entry::Single(Row::Item { label: label.to_owned(), command: Some(command) })
}

/// The menu for these models: `outcome` tells what came of reading the
/// configuration, and `launch` whether the program is started at login.
pub fn init_tray(models: &Vec<TrayModel>, config: &Config, outcome: &LoadOutcome, launch: bool) -> (r:
    Tray)
    ensures
        r.status@ == first_status(models_view(models@), *config, outcome@),
        items_view(r.models@) == first_items(models_view(models@)),
        entries_view(r.entries@) == menu(models_view(models@), r.status@, launch),
{
    let items = make_items(models);
    let status = make_status(&items, models, config, outcome);
    let mut entries: Vec<Entry> = Vec::new();
    entries.push(make_button("About clip-llm", Command::About));
    entries.push(make_button("Settings\u{2026}", Command::OpenSettings));
    entries.push(make_button("Open Config", Command::OpenConfig));
    entries.push(make_button("Reload Config", Command::ReloadConfig));
    assert(models_view(models@).len() == models@.len());
    if models.len() > 1 {
        entries.push(
            Entry::Submenu { label: "Model".to_owned(), rows: make_model_rows(models) },
        );
    }
    entries.push(Entry::Submenu { label: "Status".to_owned(), rows: make_status_rows(&status) });
    entries.push(Entry::Single(Row::Separator));
    entries.push(
        Entry::Single(
            Row::Check {
                label: "Launch at Login".to_owned(),
                checked: launch,
                command: Command::LaunchAtLogin,
            },
        ),
    );
    entries.push(Entry::Single(Row::Separator));
    entries.push(make_button("Quit", Command::Quit));
    assert(entries_view(entries@) =~= menu(models_view(models@), status@, launch));
    Tray { entries, status, models: items }
}

// ---------------------------------------------------------------------------
// Changes
// ---------------------------------------------------------------------------

/// Says what came of reading the configuration again.
pub fn update_tray_config(status: &mut StatusRows, text: &str)
    ensures
        final(status)@ == (StatusView { config: text@, ..old(status)@ }),
{
    status.config = text.to_owned();
}

/// The models with the one of number `index` in use, and no other.
pub open spec fn with_active(v: Seq<(Seq<char>, bool)>, index: int) -> Seq<(Seq<char>, bool)> {
    v.map(|i: int, m: (Seq<char>, bool)| (m.0, i == index))
}

/// Shows which model is in use. Nothing changes where there is no such model.
pub fn update_tray_model(tray: &mut Tray, index: usize)
    ensures
        final(tray).entries == old(tray).entries,
        items_view(final(tray).models@) == if index < old(tray).models@.len() {
            with_active(items_view(old(tray).models@), index as int)
        } else {
            items_view(old(tray).models@)
        },
        final(tray).status@ == if index < old(tray).models@.len() {
            StatusView {
                model: "Model: "@ + old(tray).models@[index as int].label@,
                ..old(tray).status@
            }
        } else {
            old(tray).status@
        },
{
    let ghost before = items_view(tray.models@);
    let ghost entries = tray.entries;
    let ghost status = tray.status@;
    let ghost labels = tray.models@;
    let total: usize = tray.models.len();
    if index >= total {
        return ;
    }
    let mut i: usize = 0;
    while i < total
        invariant
            i <= total,
            total == tray.models@.len(),
            total == labels.len(),
            before == items_view(labels),
            tray.entries == entries,
            tray.status@ == status,
            forall|j: int|
                0 <= j < total ==> (#[trigger] tray.models@[j]).label@ == labels[j].label@,
            forall|j: int| 0 <= j < i ==> (#[trigger] tray.models@[j]).checked == (j == index),
        decreases total - i,
    {
        let item = ModelItem { label: tray.models[i].label.clone(), checked: i == index };
        tray.models.set(i, item);
        i += 1;
    }
    assert(items_view(tray.models@) =~= with_active(before, index as int));
    tray.status.model = concat("Model: ", tray.models[index].label.as_str());
}

/// Says what the model can do, once that was found out.
pub fn update_tray_probe(status: &mut StatusRows, vision_supported: bool, thinking_label: &str)
    ensures
        final(status)@ == (StatusView {
            vision: if vision_supported {
                "Vision: supported"@
            } else {
                "Vision: not supported"@
            },
            thinking: "Thinking ctrl: "@ + thinking_label@,
            ..old(status)@
        }),
{
    let vision = if vision_supported {
        "Vision: supported"
    } else {
        "Vision: not supported"
    };
    status.vision = vision.to_owned();
    status.thinking = concat("Thinking ctrl: ", thinking_label);
}

/// Says how many log records were sent, and how many were not.
pub fn update_tray_telemetry(status: &mut StatusRows, shipped: u64, dropped: u64)
    ensures
        final(status)@ == (StatusView {
            telemetry: "Telemetry: "@ + numbers::dec(shipped as nat) + " shipped, "@ + numbers::dec(
                dropped as nat,
            ) + " dropped"@,
            ..old(status)@
        }),
{
    let mut v = chars_of("Telemetry: ");
    let s = dec_of(shipped as u128);
    extend(&mut v, &s);
    push_text(&mut v, " shipped, ");
    let d = dec_of(dropped as u128);
    extend(&mut v, &d);
    push_text(&mut v, " dropped");
    status.telemetry = string_of(&v);
}

/// How many of a hundred requests failed.
pub open spec fn error_rate(ok: u32, err: u32) -> nat {
    if ok + err == 0 {
        0
    } else {
        (err as nat * 100) / ((ok + err) as nat)
    }
}

/// Says how many requests there were, how many failed, and what came of the
/// last one.
pub fn update_tray_requests(status: &mut StatusRows, ok: u32, err: u32, last: &str)
    requires
        ok + err <= u32::MAX,
        err * 100 <= u32::MAX,
    ensures
        final(status)@ == (StatusView {
            requests: "Requests: "@ + numbers::dec((ok + err) as nat) + " (\u{2713}"@ + numbers::dec(
                ok as nat,
            ) + " \u{2717}"@ + numbers::dec(err as nat) + ", "@ + numbers::dec(error_rate(ok, err))
                + "% err)"@,
            last: "Last: "@ + last@,
            ..old(status)@
        }),
{
    let total: u32 = ok + err;
    let rate: u32 = if total == 0 {
        0
    } else {
        err * 100 / total
    };
    let mut v = chars_of("Requests: ");
    let t = dec_of(total as u128);
    extend(&mut v, &t);
    push_text(&mut v, " (\u{2713}");
    let o = dec_of(ok as u128);
    extend(&mut v, &o);
    push_text(&mut v, " \u{2717}");
    let e = dec_of(err as u128);
    extend(&mut v, &e);
    push_text(&mut v, ", ");
    let p = dec_of(rate as u128);
    extend(&mut v, &p);
    push_text(&mut v, "% err)");
    status.requests = string_of(&v);
    status.last = concat("Last: ", last);
}

// ---------------------------------------------------------------------------
// Clicks
// ---------------------------------------------------------------------------

/// What the program is to do about a click, once the window is drawn again.
#[derive(Debug, Clone, Copy, PartialEq, Eq, Structural)]
pub enum TrayAction {
    /// Use the profile with this number.
    SelectModel(usize),
    ReloadConfig,
    OpenSettings,
}

/// What is to be done about a click at once.
#[derive(Debug, Clone, Copy, PartialEq, Eq, Structural)]
pub enum ClickStep {
    /// Draw the window, which has to be up for that.
    Wake,
    /// Draw the window.
    Repaint,
    ShowAbout,
    OpenConfig,
    /// Switch starting at login on or off, and tell with
    /// [`TrayRequests::launch_switched`] whether it worked.
    SetLaunchAtLogin(bool),
}

/// What was clicked and is yet to be done.
#[derive(Debug, Clone, Copy, PartialEq, Eq, Structural)]
pub struct TrayRequests {
    quit: bool,
    reload: bool,
    settings: bool,
    model: Option<usize>,
    about: bool,
    launch: bool,
    launch_revert: bool,
}

/// What a [`TrayRequests`] knows.
pub struct RequestsView {
    pub quit: bool,
    pub reload: bool,
    pub settings: bool,
    pub model: Option<usize>,
    pub about: bool,
    /// Whether the program is started at login, as far as is known.
    pub launch: bool,
    /// Whether the check mark of that may be wrong.
    pub launch_revert: bool,
}

impl View for TrayRequests {
    type V = RequestsView;

    closed spec fn view(&self) -> RequestsView {
        RequestsView {
            quit: self.quit,
            reload: self.reload,
            settings: self.settings,
            model: self.model,
            about: self.about,
            launch: self.launch,
            launch_revert: self.launch_revert,
        }
    }
}

/// What is to be done when the window is drawn.
#[derive(Debug, Clone, Copy, PartialEq, Eq, Structural)]
pub struct Polled {
    pub about: bool,
    pub action: Option<TrayAction>,
    /// Look up whether the program is started at login, tell with
    /// [`TrayRequests::launch_is`], and set the check mark.
    pub check_launch: bool,
    pub quit: bool,
}

impl TrayRequests {
    /// Nothing was clicked.
    pub fn new(launch: bool) -> (r: Self)
        ensures
            r@ == (RequestsView {
                quit: false,
                reload: false,
                settings: false,
                model: None,
                about: false,
                launch,
                launch_revert: false,
            }),
    {
        TrayRequests {
            quit: false,
            reload: false,
            settings: false,
            model: None,
            about: false,
            launch,
            launch_revert: false,
        }
    }

    /// Notes a click. `about_later` tells that the window about the program can
    /// only be shown while the own one is drawn.
    pub fn click(&mut self, command: Command, about_later: bool) -> (r: ClickStep)
        ensures
            r == match command {
                Command::Quit
                | Command::OpenSettings
                | Command::ReloadConfig
                | Command::SelectModel(_) => ClickStep::Wake,
                Command::About => if about_later {
                    ClickStep::Repaint
                } else {
                    ClickStep::ShowAbout
                },
                Command::OpenConfig => ClickStep::OpenConfig,
                Command::LaunchAtLogin => ClickStep::SetLaunchAtLogin(!old(self)@.launch),
            },
            final(self)@ == match command {
                Command::Quit => RequestsView { quit: true, ..old(self)@ },
                Command::OpenSettings => RequestsView { settings: true, ..old(self)@ },
                Command::ReloadConfig => RequestsView { reload: true, ..old(self)@ },
                Command::SelectModel(i) => RequestsView { model: Some(i), ..old(self)@ },
                Command::About => RequestsView { about: old(self)@.about || about_later, ..old(
                    self,
                )@ },
                Command::OpenConfig => old(self)@,
                Command::LaunchAtLogin => old(self)@,
            },
    {
        match command {
            Command::Quit => {
                self.quit = true;
                ClickStep::Wake
            },
            Command::About => {
                if about_later {
                    self.about = true;
                    ClickStep::Repaint
                } else {
                    ClickStep::ShowAbout
                }
            },
            Command::OpenConfig => ClickStep::OpenConfig,
            Command::OpenSettings => {
                self.settings = true;
                ClickStep::Wake
            },
            Command::ReloadConfig => {
                self.reload = true;
                ClickStep::Wake
            },
            Command::SelectModel(i) => {
                self.model = Some(i);
                ClickStep::Wake
            },
            Command::LaunchAtLogin => ClickStep::SetLaunchAtLogin(!self.launch),
        }
    }

    /// Notes what came of switching starting at login. Tells whether the window
    /// has to be drawn, to put the check mark right.
    pub fn launch_switched(&mut self, target: bool, worked: bool) -> (r: bool)
        ensures
            r == !worked,
            final(self)@ == if worked {
                RequestsView { launch: target, ..old(self)@ }
            } else {
                RequestsView { launch_revert: true, ..old(self)@ }
            },
    {
        if worked {
            self.launch = target;
            false
        } else {
            self.launch_revert = true;
            true
        }
    }

    /// Notes whether the program is started at login.
    pub fn launch_is(&mut self, actual: bool)
        ensures
            final(self)@ == (RequestsView { launch: actual, ..old(self)@ }),
    {
        self.launch = actual;
    }

    /// What is to be done now; it is then forgotten. Of several requests a
    /// chosen model comes first, then reading the configuration again.
    pub fn poll_tray_events(&mut self) -> (r: Polled)
        ensures
            r == (Polled {
                about: old(self)@.about,
                action: match old(self)@.model {
                    Some(i) => Some(TrayAction::SelectModel(i)),
                    None => if old(self)@.reload {
                        Some(TrayAction::ReloadConfig)
                    } else if old(self)@.settings {
                        Some(TrayAction::OpenSettings)
                    } else {
                        None
                    },
                },
                check_launch: old(self)@.launch_revert,
                quit: old(self)@.quit,
            }),
            final(self)@ == (RequestsView {
                quit: false,
                reload: false,
                settings: false,
                model: None,
                about: false,
                launch: old(self)@.launch,
                launch_revert: false,
            }),
    {
        let action = match self.model {
            Some(i) => Some(TrayAction::SelectModel(i)),
            None => if self.reload {
                Some(TrayAction::ReloadConfig)
            } else if self.settings {
                Some(TrayAction::OpenSettings)
            } else {
                None
            },
        };
        let r = Polled { about: self.about, action, check_launch: self.launch_revert, quit: self.quit };
        self.quit = false;
        self.reload = false;
        self.settings = false;
        self.model = None;
        self.about = false;
        self.launch_revert = false;
        r
    }
}

/// The models that can be used have the numbers of the rows that stand for
/// them, and every row with a command stands for one.
pub proof fn rows_stand_for_models(v: Seq<ModelView>, i: int)
    requires
        0 <= i < model_rows(v).len(),
        usable(v).len() <= usize::MAX,
    ensures
        i < usable(v).len() ==> model_rows(v)[i] == RowView::Check(
            usable(v)[i].label,
            i == 0,
            Command::SelectModel(i as usize),
        ),
        i >= usable(v).len() ==> model_rows(v)[i] is Separator || model_rows(v)[i] is Item
            && model_rows(v)[i]->Item_1 is None,
{
}

/// However the models change, the one that is in use is the only one that is
/// checked.
pub proof fn one_model_is_checked(v: Seq<(Seq<char>, bool)>, index: int, i: int)
    requires
        0 <= i < v.len(),
        0 <= index < v.len(),
    ensures
        with_active(v, index).len() == v.len(),
        with_active(v, index)[i].0 == v[i].0,
        with_active(v, index)[i].1 == (i == index),
{
}

} // verus!
