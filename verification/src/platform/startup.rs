//! What is decided before the first window is there.

use crate::config::LoadOutcome;
use crate::config::OutcomeView;
use crate::error;
use crate::error::ApiError;
use crate::error::HotkeyError;
use crate::platform::tray;
use crate::platform::tray::ModelView;
use crate::platform::tray::TrayModel;
use crate::text::chars_of;
use crate::text::push_text;
use crate::text::string_of;
use vstd::prelude::*;

verus! {

/// Title of the window that says that the hotkey cannot be had.
pub const HOTKEY_ALERT_TITLE: &'static str = "clip-llm: hotkey registration failed";

/// Why the hotkey cannot be had, as a rule.
pub const HOTKEY_ALERT_REASONS: &'static str = ").\n\nThis usually means either:\n- clip-llm is already running, or\n- another app has reserved this key combination.";

/// What is said where the hotkey cannot be had.
pub fn hotkey_alert(e: &HotkeyError) -> (r: String)
    ensures
        r@ == "clip-llm could not register the Ctrl+Shift+C hotkey ("@ + error::hotkey_message(*e)
            + HOTKEY_ALERT_REASONS@,
{
    let mut v = chars_of("clip-llm could not register the Ctrl+Shift+C hotkey (");
    push_text(&mut v, e.message().as_str());
    push_text(&mut v, HOTKEY_ALERT_REASONS);
    string_of(&v)
}

/// What is said where the configuration cannot be used.
pub fn startup_notice(outcome: &LoadOutcome) -> (r: Option<String>)
    ensures
        match (r, outcome@) {
            (Some(s), OutcomeView::Failed(path, reason)) => s@ == "Config file ignored ("@ + reason
                + "): "@ + path + " \u{2014} using built-in defaults."@,
            (None, OutcomeView::NoFile) => true,
            (None, OutcomeView::Loaded(_)) => true,
            _ => false,
        },
{
    match outcome {
        LoadOutcome::Failed { path, reason } => {
            let mut v = chars_of("Config file ignored (");
            push_text(&mut v, reason);
            push_text(&mut v, "): ");
            push_text(&mut v, path.as_str());
            push_text(&mut v, " \u{2014} using built-in defaults.");
            Some(string_of(&v))
        },
        _ => None,
    }
}

/// What came of setting up a profile.
#[derive(Debug)]
pub struct ProfileOutcome {
    pub name: String,
    /// What is wrong with it, where something is.
    pub error: Option<ApiError>,
}

/// Whether the program can run.
#[derive(Debug)]
pub enum Startup {
    /// With these models in the menu.
    Run(Vec<TrayModel>),
    /// Not before a setting is made, for which a file is to be written.
    Unset(ApiError),
    /// Not at all.
    Fail(ApiError),
}

/// The model that a profile becomes.
pub open spec fn model_of(o: ProfileOutcome) -> ModelView {
    ModelView {
        label: o.name@,
        unavailable: match o.error {
            Some(e) => Some(error::api_message(e)),
            None => None,
        },
    }
}

/// The models that the profiles become, in their order.
pub open spec fn models_of(v: Seq<ProfileOutcome>) -> Seq<ModelView> {
    v.map_values(|o: ProfileOutcome| model_of(o))
}

/// Decides whether the program can run. The first profile has to be in order;
/// further ones that are not come last in the menu.
pub fn start(outcomes: Vec<ProfileOutcome>) -> (r: Startup)
    ensures
        match r {
            Startup::Run(models) => {
                &&& outcomes@.len() > 0 ==> outcomes@[0].error is None
                &&& tray::models_view(models@) == tray::usable(models_of(outcomes@))
                    + tray::unusable(models_of(outcomes@))
            },
            Startup::Unset(e) => outcomes@.len() > 0 && outcomes@[0].error == Some(e) && e
                is MissingConfig,
            Startup::Fail(e) => outcomes@.len() > 0 && outcomes@[0].error == Some(e) && !(e
                is MissingConfig),
        },
{
    let ghost raw = outcomes@;
    let ghost all = models_of(raw);
    let mut models: Vec<TrayModel> = Vec::new();
    let mut others: Vec<TrayModel> = Vec::new();
    let mut rest = outcomes;
    let total: usize = rest.len();
    let mut i: usize = 0;
    assert(all.take(0) =~= seq![]);
    assert(rest@ =~= raw.skip(0));
    assert(tray::models_view(models@) =~= seq![]);
    assert(tray::models_view(others@) =~= seq![]);
    while i < total
        invariant
            i <= total,
            total == raw.len(),
            raw == outcomes@,
            all == models_of(raw),
            rest@ == raw.skip(i as int),
            i > 0 ==> raw[0].error is None,
            tray::models_view(models@) == tray::usable(all.take(i as int)),
            tray::models_view(others@) == tray::unusable(all.take(i as int)),
        decreases total - i,
    {
        let outcome = rest.remove(0);
        assert(rest@ =~= raw.skip(i + 1));
        assert(outcome == raw[i as int]);
        let ghost after = all.take(i + 1);
        assert(after.drop_last() =~= all.take(i as int));
        assert(after.last() == model_of(outcome));
        let ghost first = tray::models_view(models@);
        let ghost last = tray::models_view(others@);
        match outcome.error {
            None => {
                let m = TrayModel { label: outcome.name, unavailable: None };
                models.push(m);
                assert(tray::models_view(models@) =~= first.push(m@));
            },
            Some(e) => {
                if i == 0 {
                    return match e {
                        ApiError::MissingConfig(_) => Startup::Unset(e),
                        _ => Startup::Fail(e),
                    };
                }
                let m = TrayModel { label: outcome.name, unavailable: Some(e.message()) };
                others.push(m);
                assert(tray::models_view(others@) =~= last.push(m@));
            },
        }
        i += 1;
    }
    assert(all.take(i as int) =~= all);
    let ghost first = tray::models_view(models@);
    let ghost last = tray::models_view(others@);
    models.append(&mut others);
    assert(tray::models_view(models@) =~= first + last);
    Startup::Run(models)
}

/// Setting the models that cannot be used apart changes nothing about either
/// kind: the numbers of the ones that can be used are those of their profiles.
pub proof fn setting_apart_keeps_the_order(v: Seq<ModelView>)
    ensures
        tray::usable(tray::usable(v) + tray::unusable(v)) == tray::usable(v),
        tray::unusable(tray::usable(v) + tray::unusable(v)) == tray::unusable(v),
{
    lemma_usable(v);
    lemma_apart(tray::usable(v), tray::unusable(v));
}

proof fn lemma_usable(v: Seq<ModelView>)
    ensures
        forall|i: int|
            0 <= i < tray::usable(v).len() ==> (#[trigger] tray::usable(v)[i]).unavailable is None,
        forall|i: int|
            0 <= i < tray::unusable(v).len() ==> (#[trigger] tray::unusable(v)[i]).unavailable
                is Some,
    decreases v.len(),
{
    if v.len() > 0 {
        lemma_usable(v.drop_last());
    }
}

proof fn lemma_apart(a: Seq<ModelView>, b: Seq<ModelView>)
    requires
        forall|i: int| 0 <= i < a.len() ==> (#[trigger] a[i]).unavailable is None,
        forall|i: int| 0 <= i < b.len() ==> (#[trigger] b[i]).unavailable is Some,
    ensures
        tray::usable(a + b) == a,
        tray::unusable(a + b) == b,
    decreases a.len() + b.len(),
{
    let v = a + b;
    if b.len() > 0 {
        assert(v.drop_last() =~= a + b.drop_last());
        lemma_apart(a, b.drop_last());
        assert(v.last() == b.last());
        assert(b.drop_last().push(b.last()) =~= b);
    } else if a.len() > 0 {
        assert(v.drop_last() =~= a.drop_last() + b);
        lemma_apart(a.drop_last(), b);
        assert(v.last() == a.last());
        assert(a.drop_last().push(a.last()) =~= a);
        assert(b =~= seq![]);
    } else {
        assert(v =~= seq![]);
        assert(a =~= seq![]);
        assert(b =~= seq![]);
    }
}

// ---------------------------------------------------------------------------
// The graphics adapter
// ---------------------------------------------------------------------------

/// What kind of device an adapter is.
#[derive(Debug, Clone, Copy, PartialEq, Eq, Structural)]
pub enum DeviceKind {
    Other,
    IntegratedGpu,
    DiscreteGpu,
    VirtualGpu,
    Cpu,
}

/// How good a device is: the less the better.
pub open spec fn rank(k: DeviceKind) -> int {
    match k {
        DeviceKind::DiscreteGpu => 0,
        DeviceKind::IntegratedGpu => 1,
        DeviceKind::VirtualGpu => 2,
        DeviceKind::Other => 2,
        DeviceKind::Cpu => 3,
    }
}

fn rank_of(k: DeviceKind) -> (r: u8)
    ensures
        r == rank(k),
{
    match k {
        DeviceKind::DiscreteGpu => 0,
        DeviceKind::IntegratedGpu => 1,
        DeviceKind::VirtualGpu => 2,
        DeviceKind::Other => 2,
        DeviceKind::Cpu => 3,
    }
}

/// Picks an adapter: the first of the best. A graphics card of its own is
/// better than one of the processor's, and both are better than anything else;
/// computing in software is the last resort.
pub fn select_wgpu_adapter(kinds: &[DeviceKind]) -> (r: Result<usize, String>)
    ensures
        match r {
            Ok(i) => {
                &&& i < kinds@.len()
                &&& forall|j: int| 0 <= j < kinds@.len() ==> rank(kinds@[i as int]) <= rank(#[trigger] kinds@[j])
                &&& forall|j: int| 0 <= j < i ==> rank(kinds@[i as int]) < rank(#[trigger] kinds@[j])
            },
            Err(e) => kinds@.len() == 0 && e@ == "no wgpu adapter found"@,
        },
{
    let total: usize = kinds.len();
    if total == 0 {
        return Err("no wgpu adapter found".to_owned());
    }
    let mut best: usize = 0;
    let mut i: usize = 1;
    while i < total
        invariant
            best < i <= total,
            total == kinds@.len(),
            forall|j: int| 0 <= j < i ==> rank(kinds@[best as int]) <= rank(#[trigger] kinds@[j]),
            forall|j: int| 0 <= j < best ==> rank(kinds@[best as int]) < rank(#[trigger] kinds@[j]),
        decreases total - i,
    {
        if rank_of(kinds[i]) < rank_of(kinds[best]) {
            best = i;
        }
        i += 1;
    }
    Ok(best)
}

} // verus!
