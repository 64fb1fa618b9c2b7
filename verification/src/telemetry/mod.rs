//! Which log records are sent to a server, and how.

use crate::config;
use crate::config::Config;
use crate::telemetry::victoria::ConfigView;
use crate::telemetry::victoria::VictoriaConfig;
use crate::text;
use crate::text::chars_of;
use crate::text::lowered;
use crate::text::same;
use vstd::prelude::*;

pub mod victoria;

verus! {

/// The part of the program whose records are sent. Others are not: sending
/// would make records of its own.
pub const TARGET: &'static str = "clip_llm";

/// How many records are sent together at most, unless the configuration says
/// otherwise.
pub const DEFAULT_BATCH_MAX: usize = 200;

/// How important a record is, from the least to the most.
#[derive(Debug, Clone, Copy, PartialEq, Eq, Structural)]
pub enum Level {
    Trace,
    Debug,
    Info,
    Warn,
    Error,
}

/// The level that a text names, in any case.
pub open spec fn named_level(s: Seq<char>) -> Option<Level> {
    let low = text::lowercase(s);
    if low == "trace"@ {
        Some(Level::Trace)
    } else if low == "debug"@ {
        Some(Level::Debug)
    } else if low == "info"@ {
        Some(Level::Info)
    } else if low == "warn"@ {
        Some(Level::Warn)
    } else if low == "error"@ {
        Some(Level::Error)
    } else {
        None
    }
}

/// The level that a text names, where it names one.
pub fn read_level(s: &str) -> (r: Option<Level>)
    ensures
        r == named_level(s@),
{
    let v = chars_of(s);
    let low = lowered(&v);
    if same(&low, &chars_of("trace")) {
        Some(Level::Trace)
    } else if same(&low, &chars_of("debug")) {
        Some(Level::Debug)
    } else if same(&low, &chars_of("info")) {
        Some(Level::Info)
    } else if same(&low, &chars_of("warn")) {
        Some(Level::Warn)
    } else if same(&low, &chars_of("error")) {
        Some(Level::Error)
    } else {
        None
    }
}

/// The level that a text names; [`Level::Info`] where it names none.
pub fn parse_level(s: &str) -> (r: Level)
    ensures
        r == match named_level(s@) {
            Some(l) => l,
            None => Level::Info,
        },
{
    match read_level(s) {
        Some(l) => l,
        None => Level::Info,
    }
}

/// How records are sent.
#[derive(Debug)]
pub struct SinkPlan {
    pub sink: VictoriaConfig,
    /// The least level that is sent.
    pub level: Level,
    /// Whether the configuration names a level that is none.
    pub level_unknown: bool,
}

/// Whether and how records are sent. `flush_ns` is how long a record waits for
/// others.
pub fn plan(config: &Config, flush_ns: u64) -> (r: Option<SinkPlan>)
    ensures
        r is Some == (config::non_empty(config::text_view(config.telemetry.url)) is Some),
        r matches Some(p) ==> {
            let level = named_level(config::or_default(config.telemetry.level, "info"@));
            &&& p.sink@ == (ConfigView {
                url: config.telemetry.url->0@,
                batch_max: match config.telemetry.batch_max {
                    Some(n) => if n > 0 {
                        n
                    } else {
                        1
                    },
                    None => DEFAULT_BATCH_MAX,
                },
                flush_ns,
            })
            &&& p.level == match level {
                Some(l) => l,
                None => Level::Info,
            }
            &&& p.level_unknown == (level is None)
        },
{
    match config.telemetry_url() {
        Some(url) => {
            let name = match config.telemetry_level() {
                Some(l) => l,
                None => "info",
            };
            let level = read_level(name);
            let batch_max: usize = match config.telemetry_batch_max() {
                Some(n) => if n > 0 {
                    n
                } else {
                    1
                },
                None => DEFAULT_BATCH_MAX,
            };
            Some(
                SinkPlan {
                    sink: VictoriaConfig { url: url.to_owned(), batch_max, flush_ns },
                    level: match level {
                        Some(l) => l,
                        None => Level::Info,
                    },
                    level_unknown: level.is_none(),
                },
            )
        },
        None => None,
    }
}

} // verus!
