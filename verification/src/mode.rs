//! What can be done with a text, and how.

use vstd::prelude::*;

verus! {

/// Name of the language that texts are translated into.
pub const PRIMARY_LANG: &'static str = "Korean";

/// Name of the language that texts in the primary one are translated into.
pub const SECONDARY_LANG: &'static str = "English";

/// The tone of a rephrased text.
#[derive(Debug, Clone, Copy, PartialEq, Eq, Hash, Structural)]
pub enum RephraseStyle {
    /// Errors only: tone and style stay.
    Correct,
    /// Friendly and conversational.
    Casual,
    /// Polite and formal.
    Formal,
    /// Concise and professional.
    Business,
    /// In precise technical terms.
    Technical,
}

impl Default for RephraseStyle {
    fn default() -> (r: Self)
        ensures
            r == RephraseStyle::Correct,
    {
        RephraseStyle::Correct
    }
}

impl RephraseStyle {
    /// All styles, in the order in which they are offered.
    pub const ALL: [RephraseStyle; 5] = [
        RephraseStyle::Correct,
        RephraseStyle::Casual,
        RephraseStyle::Formal,
        RephraseStyle::Business,
        RephraseStyle::Technical,
    ];

    /// What the style is called.
    pub fn label(self) -> (r: &'static str)
        ensures
            r@ == match self {
                RephraseStyle::Correct => "Correct"@,
                RephraseStyle::Casual => "Casual"@,
                RephraseStyle::Formal => "Formal"@,
                RephraseStyle::Business => "Business"@,
                RephraseStyle::Technical => "Technical"@,
            },
    {
        match self {
            RephraseStyle::Correct => "Correct",
            RephraseStyle::Casual => "Casual",
            RephraseStyle::Formal => "Formal",
            RephraseStyle::Business => "Business",
            RephraseStyle::Technical => "Technical",
        }
    }
}

/// The length of a rephrased text.
#[derive(Debug, Clone, Copy, PartialEq, Eq, Hash, Structural)]
pub enum RephraseLength {
    /// The essential points only.
    Terse,
    /// Without redundancy.
    Brief,
    /// As long as the text.
    Same,
    /// With more context or detail.
    Detailed,
    /// A thorough explanation.
    Full,
}

impl Default for RephraseLength {
    fn default() -> (r: Self)
        ensures
            r == RephraseLength::Same,
    {
        RephraseLength::Same
    }
}

impl RephraseLength {
    /// All lengths, from short to long.
    pub const ALL: [RephraseLength; 5] = [
        RephraseLength::Terse,
        RephraseLength::Brief,
        RephraseLength::Same,
        RephraseLength::Detailed,
        RephraseLength::Full,
    ];

    /// What the length is called.
    pub fn label(self) -> (r: &'static str)
        ensures
            r@ == match self {
                RephraseLength::Terse => "Terse"@,
                RephraseLength::Brief => "Brief"@,
                RephraseLength::Same => "Same"@,
                RephraseLength::Detailed => "Detailed"@,
                RephraseLength::Full => "Full"@,
            },
    {
        match self {
            RephraseLength::Terse => "Terse",
            RephraseLength::Brief => "Brief",
            RephraseLength::Same => "Same",
            RephraseLength::Detailed => "Detailed",
            RephraseLength::Full => "Full",
        }
    }
}

/// Whether the model is to think first.
#[derive(Debug, Clone, Copy, PartialEq, Eq, Hash, Structural)]
pub enum ThinkingMode {
    Think,
    NoThink,
}

impl ThinkingMode {
    pub const ALL: [ThinkingMode; 2] = [ThinkingMode::Think, ThinkingMode::NoThink];

    /// What the mode is called.
    pub fn label(self) -> (r: &'static str)
        ensures
            r@ == match self {
                ThinkingMode::Think => "Think"@,
                ThinkingMode::NoThink => "No Think"@,
            },
    {
        match self {
            ThinkingMode::Think => "Think",
            ThinkingMode::NoThink => "No Think",
        }
    }
}

/// How a text is rephrased.
#[derive(Debug, Clone, Copy, PartialEq, Eq, Hash, Structural)]
pub struct RephraseParams {
    pub style: RephraseStyle,
    pub length: RephraseLength,
}

impl Default for RephraseParams {
    fn default() -> (r: Self)
        ensures
            r.style == RephraseStyle::Correct,
            r.length == RephraseLength::Same,
    {
        RephraseParams { style: RephraseStyle::Correct, length: RephraseLength::Same }
    }
}

/// What is done with a text.
#[derive(Debug, Clone, Copy, PartialEq, Eq, Hash, Structural)]
pub enum ProcessMode {
    Translate,
    Rephrase,
    Summarize,
}

impl Default for ProcessMode {
    fn default() -> (r: Self)
        ensures
            r == ProcessMode::Translate,
    {
        ProcessMode::Translate
    }
}

/// The mode after `m` in display order; after the last comes the first.
pub open spec fn mode_after(m: ProcessMode) -> ProcessMode {
    match m {
        ProcessMode::Translate => ProcessMode::Rephrase,
        ProcessMode::Rephrase => ProcessMode::Summarize,
        ProcessMode::Summarize => ProcessMode::Translate,
    }
}

/// The first of `targets` that comes after `m` in display order, going round;
/// `m` where there is no other.
pub open spec fn next_mode(m: ProcessMode, targets: Seq<ProcessMode>) -> ProcessMode {
    let one = mode_after(m);
    let two = mode_after(one);
    if targets.contains(one) {
        one
    } else if targets.contains(two) {
        two
    } else {
        m
    }
}

/// What the mode is called.
pub open spec fn mode_label(m: ProcessMode) -> Seq<char> {
    match m {
        ProcessMode::Translate => "Translate"@,
        ProcessMode::Rephrase => "Rephrase"@,
        ProcessMode::Summarize => "Summarize"@,
    }
}

/// What is shown while the mode is at work.
pub open spec fn mode_processing_label(m: ProcessMode) -> Seq<char> {
    match m {
        ProcessMode::Translate => "Translating..."@,
        ProcessMode::Rephrase => "Rephrasing..."@,
        ProcessMode::Summarize => "Summarizing..."@,
    }
}

fn holds_mode(targets: &[ProcessMode], m: ProcessMode) -> (r: bool)
    ensures
        r == targets@.contains(m),
{
    let mut i: usize = 0;
    while i < targets.len()
        invariant
            i <= targets@.len(),
            forall|j: int| 0 <= j < i ==> targets@[j] != m,
        decreases targets.len() - i,
    {
        if targets[i] == m {
            assert(targets@[i as int] == m);
            return true;
        }
        i += 1;
    }
    false
}

impl ProcessMode {
    /// All modes, in display order.
    pub const ALL: [ProcessMode; 3] = [
        ProcessMode::Translate,
        ProcessMode::Rephrase,
        ProcessMode::Summarize,
    ];

    /// What the mode is called.
    pub fn label(self) -> (r: &'static str)
        ensures
            r@ == mode_label(self),
    {
        match self {
            ProcessMode::Translate => "Translate",
            ProcessMode::Rephrase => "Rephrase",
            ProcessMode::Summarize => "Summarize",
        }
    }

    /// What is shown while the mode is at work.
    pub fn processing_label(self) -> (r: &'static str)
        ensures
            r@ == mode_processing_label(self),
    {
        match self {
            ProcessMode::Translate => "Translating...",
            ProcessMode::Rephrase => "Rephrasing...",
            ProcessMode::Summarize => "Summarizing...",
        }
    }

    /// Whether the model thinks first in this mode, unless told otherwise.
    pub fn default_thinking(self) -> (r: ThinkingMode)
        ensures
            r == (if self == ProcessMode::Summarize {
                ThinkingMode::Think
            } else {
                ThinkingMode::NoThink
            }),
    {
        match self {
            ProcessMode::Translate | ProcessMode::Rephrase => ThinkingMode::NoThink,
            ProcessMode::Summarize => ThinkingMode::Think,
        }
    }

    /// The first of `targets` after this mode in display order, going round;
    /// this mode itself where there is no other.
    pub fn next_available(self, targets: &[ProcessMode]) -> (r: ProcessMode)
        ensures
            r == next_mode(self, targets@),
            targets@.len() > 0 ==> targets@.contains(r),
    {
        let (one, two) = match self {
            ProcessMode::Translate => (ProcessMode::Rephrase, ProcessMode::Summarize),
            ProcessMode::Rephrase => (ProcessMode::Summarize, ProcessMode::Translate),
            ProcessMode::Summarize => (ProcessMode::Translate, ProcessMode::Rephrase),
        };
        proof {
            if targets@.len() > 0 && !targets@.contains(one) && !targets@.contains(two) {
                assert(targets@.contains(targets@[0]));
            }
        }
        if holds_mode(targets, one) {
            one
        } else if holds_mode(targets, two) {
            two
        } else {
            self
        }
    }

    /// What is shown while the mode is at work; correcting has a label of its
    /// own.
    pub fn processing_label_rephrase(self, params: RephraseParams) -> (r: &'static str)
        ensures
            r@ == (if self == ProcessMode::Rephrase && params.style == RephraseStyle::Correct {
                "Correcting..."@
            } else {
                mode_processing_label(self)
            }),
    {
        if self == ProcessMode::Rephrase && params.style == RephraseStyle::Correct {
            "Correcting..."
        } else {
            self.processing_label()
        }
    }
}

/// The result of going `n` steps.
pub open spec fn modes_after(m: ProcessMode, targets: Seq<ProcessMode>, n: nat) -> ProcessMode
    decreases n,
{
    if n == 0 {
        m
    } else {
        next_mode(modes_after(m, targets, (n - 1) as nat), targets)
    }
}

/// Going on from mode to mode reaches every target: the second target after at
/// most two steps, the third after at most three.
pub proof fn cycling_reaches_every_target(m: ProcessMode, targets: Seq<ProcessMode>, t: ProcessMode)
    requires
        targets.contains(t),
    ensures
        exists|n: nat| 1 <= n <= 3 && #[trigger] modes_after(m, targets, n) == t,
{
    assert(modes_after(m, targets, 0) == m);
    let a = modes_after(m, targets, 1);
    let b = modes_after(m, targets, 2);
    let c = modes_after(m, targets, 3);
    assert(a == next_mode(m, targets));
    assert(b == next_mode(a, targets));
    assert(c == next_mode(b, targets));
    assert(t == a || t == b || t == c);
}

} // verus!
