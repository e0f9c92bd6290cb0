//! Summarization adapter: builds a provider-agnostic chat request from a
//! window of events and recent report context, and decodes the provider's
//! answer. The HTTP transport and the response JSON live outside the
//! library; this module speaks plain values.

use vstd::prelude::*;
use crate::doc::json_text;
use crate::ingest::tok_matches_at;
use crate::models::ActivityLog;
use crate::models::AiReport;
use crate::models::EventModel;
use crate::models::LogSource;
use crate::models::ReportModel;
use crate::redact::tok_at;
use crate::settings::AiSettings;
use crate::settings::trim_str;
use crate::settings::trimmed;
use crate::store::report_views;
use crate::store::views_of;
use crate::time::format_rfc3339;
use crate::time::rfc3339_of;
use crate::time::valid_ts;

verus! {

broadcast use vstd::seq::group_seq_axioms, vstd::std_specs::vec::group_vec_axioms;

/// Why summarization failed.
#[derive(Debug, PartialEq, Eq)]
pub enum SummarizeError {
    /// The event window is empty; the provider is never called for it.
    EmptyInput,
    /// The provider answered with a failure status; its body is kept.
    ProviderError(u16, String),
    /// The provider's body could not be read as a chat response.
    DecodeError,
    /// The response carried no non-empty textual choice.
    EmptyResponse,
}

/// One chat message of a completion request.
pub struct ChatMessage {
    pub role: String,
    pub content: String,
}

/// A provider-agnostic completion request. Temperature is in thousandths.
pub struct ChatRequest {
    pub model: String,
    pub messages: Vec<ChatMessage>,
    pub temperature_milli: u32,
    pub max_tokens: Option<u32>,
}

/// Temperature used when the settings leave it open: 0.2.
pub const DEFAULT_TEMPERATURE_MILLI: u32 = 200;

/// Each recent report is truncated to this many characters of context.
pub const RECENT_REPORT_MAX_CHARS: usize = 500;

/// The fixed system instruction: the summarization task, the output schema,
/// and the privacy directive.
pub const SYSTEM_PROMPT: &'static str = "You are a technical documentation assistant. You receive a chronological stream of a developer's activity: terminal commands, browser visits and editor edits, grouped by source, one line per event with its timestamp.\nWrite one concise work-log entry in Markdown with these sections:\n## Time range\n**Context:** one sentence naming the main focus.\n### Key actions\n- significant technical steps, with research connected to implementation.\n### References\n- links that mattered, with a short note each.\n### Notable commands\nOnly the critical or successful commands.\nIgnore trivial navigation, unrelated browsing and corrected typos.\nNever include passwords, API keys, secrets or personal data; if one appears in the logs, write [REDACTED_SECRET] instead.";

/// The fixed prompt of the connection test.
pub const TEST_PROMPT: &'static str = "Say 'Connection successful' if you can read this.";

// ---------------------------------------------------------------------------
// Substring search and URL heuristics
// ---------------------------------------------------------------------------

/// First position at or after `i` where `t` occurs in `s`, or -1.
pub open spec fn find_tok_from(s: Seq<char>, t: Seq<char>, i: int) -> int
    decreases s.len() - i,
{
    if i < 0 || i >= s.len() {
        -1
    } else if tok_at(s, i, t) {
        i
    } else {
        find_tok_from(s, t, i + 1)
    }
}

/// `t` occurs somewhere in `s`.
pub open spec fn contains_tok(s: Seq<char>, t: Seq<char>) -> bool {
    find_tok_from(s, t, 0) >= 0
}

pub fn contains_str(s: &str, t: &str) -> (r: bool)
    ensures
        r == contains_tok(s@, t@),
{
    let n = s.unicode_len();
    let mut i: usize = 0;
    while i < n
        invariant
            i <= n,
            n == s@.len(),
            find_tok_from(s@, t@, 0) == find_tok_from(s@, t@, i as int),
        decreases n - i,
    {
        if tok_matches_at(s, i, t) {
            return true;
        }
        i = i + 1;
    }
    false
}

/// The model the summarizer asks for: the configured name when one is set,
/// else a default guessed from the provider URL's domain. The hosted-provider
/// defaults are stand-in identifiers, not a hard contract; a deployment that
/// points at a hosted provider should configure the model name.
pub open spec fn model_for(model_name: Seq<char>, provider_url: Seq<char>) -> Seq<char> {
    if trimmed(model_name).len() > 0 {
        trimmed(model_name)
    } else if contains_tok(provider_url, "openai.com"@) {
        "gpt-4o-mini"@
    } else if contains_tok(provider_url, "anthropic.com"@) {
        "anthropic-default-model"@
    } else {
        "local-model"@
    }
}

pub fn select_model(settings: &AiSettings) -> (r: String)
    ensures
        r@ == model_for(settings.model_name@, settings.provider_url@),
{
    let t = trim_str(settings.model_name.as_str());
    if t.as_str().unicode_len() > 0 {
        t
    } else if contains_str(settings.provider_url.as_str(), "openai.com") {
        String::from_str("gpt-4o-mini")
    } else if contains_str(settings.provider_url.as_str(), "anthropic.com") {
        String::from_str("anthropic-default-model")
    } else {
        String::from_str("local-model")
    }
}

/// The model the connection test asks for.
pub open spec fn test_model_for(provider_url: Seq<char>) -> Seq<char> {
    if contains_tok(provider_url, "openai.com"@) {
        "gpt-3.5-turbo"@
    } else {
        "llama-3-8b-instruct"@
    }
}

pub fn select_test_model(settings: &AiSettings) -> (r: String)
    ensures
        r@ == test_model_for(settings.provider_url@),
{
    if contains_str(settings.provider_url.as_str(), "openai.com") {
        String::from_str("gpt-3.5-turbo")
    } else {
        String::from_str("llama-3-8b-instruct")
    }
}

/// The provider URL with trailing slashes dropped.
pub open spec fn base_end(s: Seq<char>, e: int) -> int
    decreases e,
{
    if e <= 0 || e > s.len() {
        0
    } else if s[e - 1] == '/' {
        base_end(s, e - 1)
    } else {
        e
    }
}

/// The completion endpoint: the provider URL without trailing slashes, with
/// the chat-completions path appended.
pub open spec fn endpoint_of(provider_url: Seq<char>) -> Seq<char> {
    provider_url.subrange(0, base_end(provider_url, provider_url.len() as int))
        + "/chat/completions"@
}

pub fn completion_endpoint(settings: &AiSettings) -> (r: String)
    ensures
        r@ == endpoint_of(settings.provider_url@),
{
    let s = settings.provider_url.as_str();
    let n = s.unicode_len();
    let mut b: usize = n;
    while b > 0 && s.get_char(b - 1) == '/'
        invariant
            b <= n,
            n == s@.len(),
            base_end(s@, n as int) == base_end(s@, b as int),
        decreases b,
    {
        b = b - 1;
    }
    let mut out = String::from_str(s.substring_char(0, b));
    out.append("/chat/completions");
    out
}

/// The bearer token the request carries: the configured key when it is
/// non-empty.
pub open spec fn auth_of(api_key: Option<Seq<char>>) -> Option<Seq<char>> {
    match api_key {
        Some(k) => if k.len() > 0 {
            Some(k)
        } else {
            None
        },
        None => None,
    }
}

pub fn auth_token(settings: &AiSettings) -> (r: Option<String>)
    ensures
        crate::models::opt_view(r) == auth_of(crate::models::opt_view(settings.api_key)),
{
    match &settings.api_key {
        Some(k) => {
            if k.as_str().unicode_len() > 0 {
                Some(k.clone())
            } else {
                None
            }
        },
        None => None,
    }
}

// ---------------------------------------------------------------------------
// Rendering the user message
// ---------------------------------------------------------------------------

/// One line per event: its timestamp and its most telling projection, or
/// the payload itself where no projection applies.
pub open spec fn line_body(e: EventModel) -> Seq<char> {
    match e.source {
        LogSource::Terminal => match e.command {
            Some(c) => c,
            None => json_text(e.payload),
        },
        LogSource::Browser => match e.url {
            Some(u) => u + (match e.title {
                Some(t) => " "@ + t,
                None => Seq::empty(),
            }),
            None => json_text(e.payload),
        },
        LogSource::Editor => match e.file_path {
            Some(f) => f,
            None => json_text(e.payload),
        },
        LogSource::Other => json_text(e.payload),
    }
}

pub open spec fn event_line(e: EventModel) -> Seq<char> {
    "- ["@ + rfc3339_of(e.timestamp) + "] "@ + line_body(e) + "\n"@
}

/// The lines of the events of one source, in given (chronological) order.
pub open spec fn lines_for(events: Seq<EventModel>, src: LogSource, i: int) -> Seq<char>
    decreases events.len() - i,
{
    if i < 0 || i >= events.len() {
        Seq::empty()
    } else if events[i].source == src {
        event_line(events[i]) + lines_for(events, src, i + 1)
    } else {
        lines_for(events, src, i + 1)
    }
}

pub open spec fn section_header(src: LogSource) -> Seq<char> {
    match src {
        LogSource::Terminal => "Terminal commands:\n"@,
        LogSource::Browser => "Browser visits:\n"@,
        LogSource::Editor => "Editor edits:\n"@,
        LogSource::Other => "Other activity:\n"@,
    }
}

/// The chronological, source-grouped rendering of the window.
pub open spec fn rendered_events(events: Seq<EventModel>) -> Seq<char> {
    "Chronological activity by source:\n"@ + section_header(LogSource::Terminal) + lines_for(
        events,
        LogSource::Terminal,
        0,
    ) + section_header(LogSource::Browser) + lines_for(events, LogSource::Browser, 0)
        + section_header(LogSource::Editor) + lines_for(events, LogSource::Editor, 0)
        + section_header(LogSource::Other) + lines_for(events, LogSource::Other, 0)
}

/// A recent report, truncated to bound the context's size.
pub open spec fn truncated_summary(s: Seq<char>) -> Seq<char> {
    if s.len() <= RECENT_REPORT_MAX_CHARS as int {
        s
    } else {
        s.take(RECENT_REPORT_MAX_CHARS as int)
    }
}

pub open spec fn context_lines(rs: Seq<ReportModel>, i: int) -> Seq<char>
    decreases rs.len() - i,
{
    if i < 0 || i >= rs.len() {
        Seq::empty()
    } else {
        "- "@ + truncated_summary(rs[i].summary) + "\n"@ + context_lines(rs, i + 1)
    }
}

/// The optional recent-context block: absent when there are no reports.
pub open spec fn report_context(rs: Seq<ReportModel>) -> Seq<char> {
    if rs.len() == 0 {
        Seq::empty()
    } else {
        "Recent context:\n"@ + context_lines(rs, 0)
    }
}

/// The whole user message: recent context, then the rendered window.
pub open spec fn user_message(events: Seq<EventModel>, rs: Seq<ReportModel>) -> Seq<char> {
    report_context(rs) + rendered_events(events)
}

fn append_event_line(out: &mut String, e: &ActivityLog)
    requires
        valid_ts(e@.timestamp),
    ensures
        final(out)@ == old(out)@ + event_line(e@),
{
    out.append("- [");
    let ts = format_rfc3339(e.timestamp);
    out.append(ts.as_str());
    out.append("] ");
    match e.source {
        LogSource::Terminal => {
            match &e.command {
                Some(c) => {
                    out.append(c.as_str());
                },
                None => {
                    let j = crate::doc::to_json(&e.payload);
                    out.append(j.as_str());
                },
            }
        },
        LogSource::Browser => {
            match &e.url {
                Some(u) => {
                    out.append(u.as_str());
                    match &e.title {
                        Some(t) => {
                            out.append(" ");
                            out.append(t.as_str());
                        },
                        None => {},
                    }
                },
                None => {
                    let j = crate::doc::to_json(&e.payload);
                    out.append(j.as_str());
                },
            }
        },
        LogSource::Editor => {
            match &e.file_path {
                Some(f) => {
                    out.append(f.as_str());
                },
                None => {
                    let j = crate::doc::to_json(&e.payload);
                    out.append(j.as_str());
                },
            }
        },
        LogSource::Other => {
            let j = crate::doc::to_json(&e.payload);
            out.append(j.as_str());
        },
    }
    out.append("\n");
    proof {
        assert(final(out)@ =~= old(out)@ + event_line(e@));
    }
}

#[verifier::loop_isolation(false)]
fn append_section(out: &mut String, events: &Vec<ActivityLog>, src: LogSource, header: &str)
    requires
        header@ == section_header(src),
        forall|i: int| 0 <= i < events@.len() ==> valid_ts(#[trigger] events@[i]@.timestamp),
    ensures
        final(out)@ == old(out)@ + section_header(src) + lines_for(views_of(events@), src, 0),
{
    out.append(header);
    let ghost ev = views_of(events@);
    let n = events.len();
    let mut i: usize = 0;
    while i < n
        invariant
            i <= n,
            n == events@.len(),
            out@ + lines_for(ev, src, i as int) == old(out)@ + section_header(src) + lines_for(
                ev,
                src,
                0,
            ),
        decreases n - i,
    {
        let ghost pre = out@;
        let matches_src = match (events[i].source, src) {
            (LogSource::Terminal, LogSource::Terminal) => true,
            (LogSource::Browser, LogSource::Browser) => true,
            (LogSource::Editor, LogSource::Editor) => true,
            (LogSource::Other, LogSource::Other) => true,
            _ => false,
        };
        if matches_src {
            append_event_line(out, &events[i]);
        }
        proof {
            assert(ev[i as int] == events@[i as int]@);
            assert(out@ + lines_for(ev, src, i + 1) =~= pre + lines_for(ev, src, i as int));
        }
        i = i + 1;
    }
}

#[verifier::loop_isolation(false)]
fn append_context(out: &mut String, reports: &Vec<AiReport>)
    ensures
        final(out)@ == old(out)@ + report_context(report_views(reports@)),
{
    let ghost rs = report_views(reports@);
    if reports.len() == 0 {
        return ;
    }
    out.append("Recent context:\n");
    let n = reports.len();
    let mut i: usize = 0;
    while i < n
        invariant
            i <= n,
            n == reports@.len(),
            n > 0,
            out@ + context_lines(rs, i as int) == old(out)@ + report_context(rs),
        decreases n - i,
    {
        let ghost pre = out@;
        out.append("- ");
        let s = reports[i].summary.as_str();
        let l = s.unicode_len();
        if l <= RECENT_REPORT_MAX_CHARS {
            out.append(s);
        } else {
            out.append(s.substring_char(0, RECENT_REPORT_MAX_CHARS));
        }
        out.append("\n");
        proof {
            assert(rs[i as int] == reports@[i as int]@);
            assert(out@ + context_lines(rs, i + 1) =~= pre + context_lines(rs, i as int));
        }
        i = i + 1;
    }
}

// ---------------------------------------------------------------------------
// Building requests
// ---------------------------------------------------------------------------

/// The temperature the request carries.
pub open spec fn temperature_of(s: AiSettings) -> u32 {
    match s.temperature_milli {
        Some(t) => t,
        None => DEFAULT_TEMPERATURE_MILLI,
    }
}

/// Build the summarization request for a window of events with recent
/// report context. An empty window is rejected before any request exists,
/// so the provider is never called for it.
pub fn build_summary_request(
    settings: &AiSettings,
    events: &Vec<ActivityLog>,
    recent_reports: &Vec<AiReport>,
) -> (r: Result<ChatRequest, SummarizeError>)
    requires
        forall|i: int| 0 <= i < events@.len() ==> valid_ts(#[trigger] events@[i]@.timestamp),
    ensures
        (events@.len() == 0) <==> (r == Err::<ChatRequest, SummarizeError>(
            SummarizeError::EmptyInput,
        )),
        (events@.len() == 0) <==> (r is Err),
        (match r {
            Ok(req) => {
                &&& req.model@ == model_for(settings.model_name@, settings.provider_url@)
                &&& req.temperature_milli == temperature_of(*settings)
                &&& req.max_tokens is None
                &&& req.messages@.len() == 2
                &&& req.messages@[0].role@ == "system"@
                &&& req.messages@[0].content@ == SYSTEM_PROMPT@
                &&& req.messages@[1].role@ == "user"@
                &&& req.messages@[1].content@ == user_message(
                    views_of(events@),
                    report_views(recent_reports@),
                )
            },
            Err(_) => true,
        }),
{
    if events.len() == 0 {
        return Err(SummarizeError::EmptyInput);
    }
    let model = select_model(settings);
    let temperature_milli = match settings.temperature_milli {
        Some(t) => t,
        None => DEFAULT_TEMPERATURE_MILLI,
    };
    let mut content = String::new();
    append_context(&mut content, recent_reports);
    content.append("Chronological activity by source:\n");
    append_section(&mut content, events, LogSource::Terminal, "Terminal commands:\n");
    append_section(&mut content, events, LogSource::Browser, "Browser visits:\n");
    append_section(&mut content, events, LogSource::Editor, "Editor edits:\n");
    append_section(&mut content, events, LogSource::Other, "Other activity:\n");
    proof {
        assert(content@ =~= user_message(views_of(events@), report_views(recent_reports@)));
    }
    let mut messages: Vec<ChatMessage> = Vec::new();
    messages.push(ChatMessage { role: String::from_str("system"), content: String::from_str(SYSTEM_PROMPT) });
    messages.push(ChatMessage { role: String::from_str("user"), content });
    Ok(ChatRequest { model, messages, temperature_milli, max_tokens: None })
}

/// Build the minimal fixed request of the connection test.
pub fn build_test_request(settings: &AiSettings) -> (r: ChatRequest)
    ensures
        r.model@ == test_model_for(settings.provider_url@),
        r.temperature_milli == 100,
        r.max_tokens == Some(10u32),
        r.messages@.len() == 1,
        r.messages@[0].role@ == "user"@,
        r.messages@[0].content@ == TEST_PROMPT@,
{
    let model = select_test_model(settings);
    let mut messages: Vec<ChatMessage> = Vec::new();
    messages.push(ChatMessage { role: String::from_str("user"), content: String::from_str(TEST_PROMPT) });
    ChatRequest { model, messages, temperature_milli: 100, max_tokens: Some(10) }
}

// ---------------------------------------------------------------------------
// Decoding responses
// ---------------------------------------------------------------------------

/// The models of a sequence of strings.
pub open spec fn string_views(s: Seq<String>) -> Seq<Seq<char>> {
    s.map_values(|x: String| x@)
}

/// The first choice whose trimmed text is non-empty, from `i` on.
pub open spec fn first_choice_from(cs: Seq<Seq<char>>, i: int) -> Option<Seq<char>>
    decreases cs.len() - i,
{
    if i < 0 || i >= cs.len() {
        None
    } else if trimmed(cs[i]).len() > 0 {
        Some(trimmed(cs[i]))
    } else {
        first_choice_from(cs, i + 1)
    }
}

/// A success status of the provider.
pub open spec fn status_ok(status: u16) -> bool {
    200 <= status < 300
}

/// Decode the provider's answer: a failure status keeps the body as the
/// provider error; an unreadable body is a decode error; a readable body
/// yields the first non-empty textual choice, trimmed, or the
/// empty-response error. `choices` carries the textual choices the
/// transport read from the body, or nothing when the body was unreadable.
#[verifier::loop_isolation(false)]
pub fn decode_chat_response(status: u16, body: &str, choices: Option<Vec<String>>) -> (r: Result<
    String,
    SummarizeError,
>)
    ensures
        !status_ok(status) ==> (match r {
            Err(SummarizeError::ProviderError(st, b)) => st == status && b@ == body@,
            _ => false,
        }),
        status_ok(status) && choices is None ==> r == Err::<String, SummarizeError>(
            SummarizeError::DecodeError,
        ),
        (match choices {
            Some(cs) => status_ok(status) ==> (match first_choice_from(string_views(cs@), 0) {
                Some(t) => r matches Ok(s) && s@ == t,
                None => r == Err::<String, SummarizeError>(SummarizeError::EmptyResponse),
            }),
            None => true,
        }),
{
    if !(200 <= status && status < 300) {
        return Err(SummarizeError::ProviderError(status, String::from_str(body)));
    }
    let cs = match choices {
        Some(cs) => cs,
        None => {
            return Err(SummarizeError::DecodeError);
        },
    };
    let ghost csv = string_views(cs@);
    let n = cs.len();
    let mut i: usize = 0;
    while i < n
        invariant
            i <= n,
            n == cs@.len(),
            csv == string_views(cs@),
            csv.len() == n,
            forall|k: int| 0 <= k < n ==> #[trigger] csv[k] == cs@[k]@,
            first_choice_from(csv, 0) == first_choice_from(csv, i as int),
        decreases n - i,
    {
        let t = trim_str(cs[i].as_str());
        if t.as_str().unicode_len() > 0 {
            return Ok(t);
        }
        i = i + 1;
    }
    Err(SummarizeError::EmptyResponse)
}

/// What the connection test reports.
#[derive(Debug, PartialEq, Eq)]
pub enum ConnectionTest {
    /// The provider answered with a success status and a chat-shaped body.
    Success(u16),
    /// The provider answered with a failure status; its body is kept.
    BadStatus(u16, String),
    /// The provider answered, but not with a chat-shaped body.
    BadFormat(u16),
}

/// Judge the connection test's outcome. `has_choices` says whether the
/// transport could read the body and found a choices list in it, or
/// nothing when the body was unreadable.
pub fn interpret_test_response(status: u16, body: &str, has_choices: Option<bool>) -> (r:
    ConnectionTest)
    ensures
        !status_ok(status) ==> (match r {
            ConnectionTest::BadStatus(st, b) => st == status && b@ == body@,
            _ => false,
        }),
        status_ok(status) ==> (if has_choices == Some(true) {
            r == ConnectionTest::Success(status)
        } else {
            r == ConnectionTest::BadFormat(status)
        }),
{
    if !(200 <= status && status < 300) {
        return ConnectionTest::BadStatus(status, String::from_str(body));
    }
    match has_choices {
        Some(true) => ConnectionTest::Success(status),
        _ => ConnectionTest::BadFormat(status),
    }
}

} // verus!
