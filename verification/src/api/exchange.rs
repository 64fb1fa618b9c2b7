//! One exchange with the server: the probes that are due, the request, and the
//! tries that it takes. Each step says what is to be done next.

use crate::api::client;
use crate::api::client::classify_kwargs_status;
use crate::api::client::classify_prompt_tag;
use crate::api::client::note_response;
use crate::api::client::retry_delay;
use crate::api::client::ClientView;
use crate::api::client::KwargsVerdict;
use crate::api::client::LlmClient;
use crate::api::client::Outgoing;
use crate::api::client::ThinkingControlMethod;
use crate::clipboard;
use crate::clipboard::ClipboardContent;
use crate::config;
use crate::config::Config;
use crate::debug::DebugCapture;
use crate::error::ApiError;
use crate::error::HttpFailure;
use crate::json;
use crate::mode::ProcessMode;
use crate::mode::RephraseParams;
use crate::mode::ThinkingMode;
use vstd::prelude::*;

verus! {

/// What is asked of the model.
#[derive(Debug, Clone, Copy, PartialEq, Eq, Structural)]
pub struct Job {
    pub mode: ProcessMode,
    pub params: RephraseParams,
    pub thinking: ThinkingMode,
    /// Whether the answer is to come piece by piece.
    pub stream: bool,
}

/// What a probe is for.
#[derive(Debug, Clone, Copy, PartialEq, Eq, Structural)]
pub enum Probing {
    /// Whether the model sees images.
    Vision,
    /// Whether its thinking is switched by `chat_template_kwargs`.
    Kwargs { vision: bool },
    /// Whether it is switched by a tag in the system prompt.
    PromptTag { vision: bool },
}

/// What is to be done next.
#[derive(Debug)]
pub enum Step {
    /// Send this body, not streamed, and go on with [`Probing::answered`].
    Probe { body: String, probing: Probing },
    /// Send the request, and go on with [`sent`].
    Send { request: Outgoing, attempt: u32 },
    /// Wait for so many milliseconds, and then send the request.
    Wait { ms: u64, request: Outgoing, attempt: u32 },
    /// The server has taken the request: read its answer.
    Accepted,
    /// There is none.
    Failed(ApiError),
}

/// What a [`Step`] says.
pub enum StepView {
    Probe(Seq<char>, Probing),
    /// The body, how long the answer may take to begin, and which try it is.
    Send(Seq<char>, Option<u64>, int),
    Wait(u64, Seq<char>, Option<u64>, int),
    Accepted,
    Failed(ApiError),
}

impl Step {
    /// What it says.
    pub open spec fn view(&self) -> StepView {
        match self {
            Step::Probe { body, probing } => StepView::Probe(body@, *probing),
            Step::Send { request, attempt } => StepView::Send(
                request.body@,
                request.headers_timeout_secs,
                *attempt as int,
            ),
            Step::Wait { ms, request, attempt } => StepView::Wait(
                *ms,
                request.body@,
                request.headers_timeout_secs,
                *attempt as int,
            ),
            Step::Accepted => StepView::Accepted,
            Step::Failed(e) => StepView::Failed(*e),
        }
    }
}

// ---------------------------------------------------------------------------
// Up to the first try
// ---------------------------------------------------------------------------

/// The body of the request.
pub open spec fn body(
    client: ClientView,
    c: Config,
    content: clipboard::ContentView,
    job: Job,
    vision: bool,
    control: ThinkingControlMethod,
) -> json::Ordered {
    client::completion_body(
        client,
        c,
        content,
        job.mode,
        job.params,
        job.thinking,
        vision,
        control,
        job.stream,
    )
}

/// What is done once nothing is left to probe for: the request is sent, unless
/// there is nothing of use in it.
pub open spec fn ready(
    client: ClientView,
    c: Config,
    content: clipboard::ContentView,
    job: Job,
    vision: bool,
    control: ThinkingControlMethod,
) -> StepView {
    if client::unusable(content, vision) {
        StepView::Failed(ApiError::NoUsableContent)
    } else {
        StepView::Send(
            json::line_text(body(client, c, content, job, vision, control)),
            if job.stream {
                Some(client.initial_response_timeout_secs)
            } else {
                None
            },
            1,
        )
    }
}

/// What is done once it is known whether the model sees images.
pub open spec fn after_vision(
    client: ClientView,
    c: Config,
    content: clipboard::ContentView,
    job: Job,
    vision: bool,
) -> StepView {
    match client.thinking_control {
        Some(control) => ready(client, c, content, job, vision, control),
        None => StepView::Probe(
            json::line_text(client::kwargs_probe(client.model)),
            Probing::Kwargs { vision },
        ),
    }
}

/// What is done first: what is not settled is probed for.
pub open spec fn first(
    client: ClientView,
    c: Config,
    content: clipboard::ContentView,
    job: Job,
) -> StepView {
    match client.supports_vision {
        Some(vision) => after_vision(client, c, content, job, vision),
        None => StepView::Probe(
            json::line_text(client::vision_probe(client.model)),
            Probing::Vision,
        ),
    }
}

/// Whether `new` is `old` with what is noted before the step: the request,
/// where it is to be sent, with long inline data left out.
pub open spec fn noted(
    old: DebugCapture,
    new: DebugCapture,
    step: StepView,
    client: ClientView,
    body: json::Ordered,
) -> bool {
    if step is Send {
        &&& config::text_view(new.endpoint) == Some(client.endpoint)
        &&& config::text_view(new.request) == Some(json::pretty(client::elided(json::said(body))))
        &&& new == (DebugCapture { endpoint: new.endpoint, request: new.request, ..old })
    } else {
        new == old
    }
}

fn make_ready(
    client: &LlmClient,
    config: &Config,
    content: &ClipboardContent,
    job: Job,
    vision: bool,
    control: ThinkingControlMethod,
    capture: &mut DebugCapture,
) -> (r: Step)
    requires
        client::images_fit(content@),
    ensures
        r@ == ready(client@, *config, content@, job, vision, control),
        noted(
            *old(capture),
            *final(capture),
            r@,
            client@,
            body(client@, *config, content@, job, vision, control),
        ),
{
    let built = client.build(
        config,
        content,
        job.mode,
        job.params,
        job.thinking,
        vision,
        control,
        job.stream,
        capture,
    );
    match built {
        Ok(request) => Step::Send { request, attempt: 1 },
        Err(e) => Step::Failed(e),
    }
}

fn go_on_after_vision(
    client: &LlmClient,
    config: &Config,
    content: &ClipboardContent,
    job: Job,
    vision: bool,
    capture: &mut DebugCapture,
) -> (r: Step)
    requires
        client::images_fit(content@),
    ensures
        r@ == after_vision(client@, *config, content@, job, vision),
        noted(
            *old(capture),
            *final(capture),
            r@,
            client@,
            body(client@, *config, content@, job, vision, client@.thinking_control->0),
        ),
{
    match client.known_thinking() {
        Some(control) => make_ready(client, config, content, job, vision, control, capture),
        None => Step::Probe {
            body: client.kwargs_probe_body(),
            probing: Probing::Kwargs { vision },
        },
    }
}

/// Begins an exchange about `content`.
pub fn begin(
    client: &LlmClient,
    config: &Config,
    content: &ClipboardContent,
    job: Job,
    capture: &mut DebugCapture,
) -> (r: Step)
    requires
        client::images_fit(content@),
    ensures
        r@ == first(client@, *config, content@, job),
        noted(
            *old(capture),
            *final(capture),
            r@,
            client@,
            body(
                client@,
                *config,
                content@,
                job,
                client@.supports_vision->0,
                client@.thinking_control->0,
            ),
        ),
{
    match client.known_vision() {
        Some(vision) => go_on_after_vision(client, config, content, job, vision, capture),
        None => Step::Probe { body: client.vision_probe_body(), probing: Probing::Vision },
    }
}

/// What the status of the probe for vision settles; no status where the server
/// was not reached.
pub open spec fn vision_verdict(status: Option<u16>) -> Option<bool> {
    match status {
        Some(s) => if 200 <= s < 300 {
            Some(true)
        } else if s == 400 || s == 422 || s == 429 {
            Some(false)
        } else {
            None
        },
        None => None,
    }
}

/// What is known of the client's model after a probe was answered.
pub open spec fn learned(
    client: ClientView,
    probing: Probing,
    status: Option<u16>,
    reply: Seq<char>,
) -> ClientView {
    match probing {
        Probing::Vision => if client.supports_vision is Some {
            client
        } else {
            ClientView { supports_vision: vision_verdict(status), ..client }
        },
        Probing::Kwargs { .. } => if client.thinking_control is Some {
            client
        } else {
            ClientView {
                thinking_control: match client::kwargs_verdict(status) {
                    KwargsVerdict::Settled(m) => Some(m),
                    _ => None,
                },
                ..client
            }
        },
        Probing::PromptTag { .. } => if client.thinking_control is Some {
            client
        } else {
            ClientView { thinking_control: client::prompt_tag_verdict(status, reply), ..client }
        },
    }
}

/// Whether the model sees images, as far as is known; what is not settled
/// counts as no.
pub open spec fn sees(client: ClientView, probing: Probing) -> bool {
    match probing {
        Probing::Vision => client.supports_vision == Some(true),
        Probing::Kwargs { vision } => vision,
        Probing::PromptTag { vision } => vision,
    }
}

/// How the model's thinking is switched, as far as is known; what is not
/// settled counts as not at all.
pub open spec fn switched(client: ClientView) -> ThinkingControlMethod {
    match client.thinking_control {
        Some(m) => m,
        None => ThinkingControlMethod::Unsupported,
    }
}

/// What is done after a probe was answered, with what was learned from it.
pub open spec fn after_probe(
    client: ClientView,
    c: Config,
    content: clipboard::ContentView,
    job: Job,
    probing: Probing,
    status: Option<u16>,
) -> StepView {
    match probing {
        Probing::Vision => after_vision(client, c, content, job, sees(client, probing)),
        Probing::Kwargs { vision } => if client::kwargs_verdict(status)
            == KwargsVerdict::TryPromptTag {
            StepView::Probe(
                json::line_text(client::prompt_tag_probe(client.model)),
                Probing::PromptTag { vision },
            )
        } else {
            ready(client, c, content, job, vision, switched(client))
        },
        Probing::PromptTag { vision } => ready(client, c, content, job, vision, switched(client)),
    }
}

impl Probing {
    /// Goes on once the probe was answered with a status and a body; no status
    /// where the server was not reached. What the answer settles, the client
    /// keeps.
    pub fn answered(
        self,
        client: &mut LlmClient,
        config: &Config,
        content: &ClipboardContent,
        job: Job,
        status: Option<u16>,
        reply: &str,
        capture: &mut DebugCapture,
    ) -> (r: Step)
        requires
            client::images_fit(content@),
        ensures
            final(client)@ == learned(old(client)@, self, status, reply@),
            r@ == after_probe(final(client)@, *config, content@, job, self, status),
            noted(
                *old(capture),
                *final(capture),
                r@,
                final(client)@,
                body(
                    final(client)@,
                    *config,
                    content@,
                    job,
                    sees(final(client)@, self),
                    switched(final(client)@),
                ),
            ),
    {
        match self {
            Probing::Vision => {
                let vision = client.probe_vision(status);
                go_on_after_vision(client, config, content, job, vision, capture)
            },
            Probing::Kwargs { vision } => {
                let shown = match classify_kwargs_status(status) {
                    KwargsVerdict::Settled(m) => Some(m),
                    KwargsVerdict::TryPromptTag => {
                        return Step::Probe {
                            body: client.prompt_tag_probe_body(),
                            probing: Probing::PromptTag { vision },
                        };
                    },
                    KwargsVerdict::Inconclusive => None,
                };
                let control = client.probe_thinking(shown);
                make_ready(client, config, content, job, vision, control, capture)
            },
            Probing::PromptTag { vision } => {
                let control = client.probe_thinking(classify_prompt_tag(status, reply));
                make_ready(client, config, content, job, vision, control, capture)
            },
        }
    }
}

// ---------------------------------------------------------------------------
// Tries
// ---------------------------------------------------------------------------

/// What came of sending a request.
#[derive(Debug)]
pub enum Reply {
    /// No answer began.
    Lost(ApiError),
    /// An answer began.
    Head {
        status: u16,
        /// The `Retry-After` header.
        retry_after: Option<String>,
        /// The whole body, of a refusal.
        error_body: Option<String>,
        /// What the refusal is called.
        message: String,
    },
}

/// Why a request failed, if it did.
pub open spec fn refusal(reply: Reply) -> Option<ApiError> {
    match reply {
        Reply::Lost(e) => Some(e),
        Reply::Head { status, message, .. } => if 400 <= status < 600 {
            Some(
                ApiError::Http(
                    HttpFailure { connect: false, timeout: false, status: Some(status), message },
                ),
            )
        } else {
            None
        },
    }
}

/// How long to wait, in milliseconds, before a request that failed so is sent
/// again; `None` where it is not worth another try.
pub open spec fn pause(reply: Reply) -> Option<int> {
    match refusal(reply) {
        Some(e) => if client::transient(e) {
            Some(client::RETRY_DELAY_MS as int)
        } else if client::rate_limited(e) {
            match reply {
                Reply::Lost(_) => Some(client::RETRY_AFTER_DEFAULT_MS as int),
                Reply::Head { retry_after, .. } => Some(
                    client::wait_asked(config::text_view(retry_after)),
                ),
            }
        } else {
            None
        },
        None => None,
    }
}

/// What is done after a try.
pub open spec fn after_try(
    request: Seq<char>,
    timeout: Option<u64>,
    attempt: int,
    reply: Reply,
) -> StepView {
    match refusal(reply) {
        None => StepView::Accepted,
        Some(e) => match pause(reply) {
            Some(ms) => if attempt <= client::MAX_RETRIES {
                StepView::Wait(ms as u64, request, timeout, attempt + 1)
            } else {
                StepView::Failed(e)
            },
            None => StepView::Failed(e),
        },
    }
}

/// Goes on after the try number `attempt`. The head of an answer is noted in
/// `capture`, and the body of a refusal; an answer that is none drops the body
/// of an earlier try.
pub fn sent(request: Outgoing, attempt: u32, reply: Reply, capture: &mut DebugCapture) -> (r: Step)
    ensures
        r@ == after_try(request.body@, request.headers_timeout_secs, attempt as int, reply),
        *final(capture) == match reply {
            Reply::Lost(_) => *old(capture),
            Reply::Head { status, error_body, .. } => DebugCapture {
                status: Some(status),
                response_raw: if 400 <= status < 600 {
                    error_body
                } else {
                    None
                },
                ..*old(capture)
            },
        },
{
    let (error, retry_after) = match reply {
        Reply::Lost(e) => (e, None),
        Reply::Head { status, retry_after, error_body, message } => {
            let asked = config::as_text(&retry_after);
            match note_response(capture, status, asked, error_body, message) {
                Ok(_) => {
                    return Step::Accepted;
                },
                Err(refused) => (refused.error, refused.retry_after),
            }
        },
    };
    match retry_delay(attempt, &error, retry_after) {
        Some(ms) => Step::Wait { ms, request, attempt: attempt + 1 },
        None => Step::Failed(error),
    }
}

// ---------------------------------------------------------------------------
// What holds of every exchange
// ---------------------------------------------------------------------------

/// A request is sent again only so often, after a pause that is bounded
/// whatever the server asks for, and it is the same request.
pub proof fn tries_are_bounded(
    request: Seq<char>,
    timeout: Option<u64>,
    attempt: int,
    reply: Reply,
)
    requires
        attempt >= 1,
    ensures
        after_try(request, timeout, attempt, reply) matches StepView::Wait(ms, again, limit, next)
            ==> {
            &&& next == attempt + 1
            &&& next <= client::MAX_RETRIES + 1
            &&& ms <= client::RETRY_AFTER_MAX_MS
            &&& again == request
            &&& limit == timeout
        },
        attempt > client::MAX_RETRIES ==> after_try(request, timeout, attempt, reply) is Accepted
            || after_try(request, timeout, attempt, reply) is Failed,
{
    if let Reply::Head { retry_after, .. } = reply {
        client::lemma_wait_asked(config::text_view(retry_after));
    }
}

/// What is settled is not probed for again: neither before the next exchange nor
/// in the rest of this one.
pub proof fn probes_are_not_repeated(
    client: ClientView,
    c: Config,
    content: clipboard::ContentView,
    job: Job,
    probing: Probing,
    status: Option<u16>,
    reply: Seq<char>,
)
    ensures
        client.supports_vision is Some && client.thinking_control is Some ==> !(first(
            client,
            c,
            content,
            job,
        ) is Probe),
        ({
            let now = learned(client, probing, status, reply);
            &&& client.supports_vision is Some ==> now.supports_vision == client.supports_vision
            &&& client.thinking_control is Some ==> now.thinking_control == client.thinking_control
            &&& after_probe(now, c, content, job, probing, status) matches StepView::Probe(_, next)
                ==> match next {
                Probing::Vision => false,
                Probing::Kwargs { .. } => probing is Vision && now.thinking_control is None,
                Probing::PromptTag { .. } => probing is Kwargs,
            }
        }),
{
}

/// A rate limit is settled as well: the server is not asked again.
pub proof fn rate_limits_settle_probes(client: ClientView, vision: bool, reply: Seq<char>)
    requires
        client.supports_vision is None,
        client.thinking_control is None,
    ensures
        learned(client, Probing::Vision, Some(429), reply).supports_vision == Some(false),
        learned(client, Probing::Kwargs { vision }, Some(429), reply).thinking_control == Some(
            ThinkingControlMethod::Unsupported,
        ),
        learned(client, Probing::PromptTag { vision }, Some(429), reply).thinking_control == Some(
            ThinkingControlMethod::Unsupported,
        ),
{
}

} // verus!
