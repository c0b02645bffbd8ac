//! One request through the local proxy: which provider it is for,
//! what is sent upstream, and what Codex gets back, including every error
//! reply. The application looks the provider up, parses, and talks to the
//! upstream; after each it reports back, and the machine here decides.
use vstd::prelude::*;

use crate::connection::ProbeOutcome;
use crate::json::{items_view, jset, Json, JsonV};
use crate::provider::copy_string;
use crate::proxy::{
    chat_endpoint, chat_endpoint_of, chat_request, chat_to_responses_events, effective_model_of, error_body,
    response_events, stamps_needed,
};
use crate::text::{chars_of, decimal, decimal_exec, extend_chars, extend_str, string_of};

verus! {

/// Where a proxied request stands.
#[derive(Clone, Copy)]
pub enum ExchangeStep {
    /// Nothing has happened yet.
    Start,
    /// The provider named in the path is being looked up.
    FindProvider,
    /// The request body is being parsed as JSON.
    ParseRequest,
    /// The Chat Completions request is on its way upstream.
    CallUpstream,
    /// The upstream reply is being parsed as JSON.
    ParseReply,
    /// The reply to Codex is decided.
    Finished,
}

/// What the application reports.
pub enum ExchangeEvent {
    Begin,
    /// The upstream base URL and configured model of the provider with the
    /// requested id, if there is one.
    ProviderFound { upstream: Option<(String, String)> },
    /// The request body as JSON, or the parser's error.
    RequestParsed { request: Result<Json, String> },
    /// What became of the upstream call.
    UpstreamAnswered { outcome: ProbeOutcome },
    /// The upstream reply as JSON, or the parser's error.
    ReplyParsed { reply: Result<Json, String> },
}

/// What the machine asks for.
pub enum ExchangeAction {
    FindProvider,
    ParseRequest,
    /// Send `body` to `endpoint`, with the caller's authorization.
    CallUpstream { endpoint: String, body: Json },
    /// Parse the upstream reply `text`.
    ParseReply { text: String },
    /// Answer Codex with this status and JSON body.
    ReplyError { status: u16, body: Json },
    /// Answer Codex with these server-sent events.
    ReplyEvents { events: Vec<Json> },
}

/// A request through the proxy: the provider id from the path, and what is
/// known of its upstream so far.
pub struct Exchange {
    pub step: ExchangeStep,
    pub provider: String,
    pub base_url: String,
    /// The configured model of the provider; once the request is parsed,
    /// the model that is sent upstream.
    pub model: String,
    pub endpoint: String,
}

/// The events that each step can report.
pub open spec fn exchange_accepts(step: ExchangeStep, e: ExchangeEvent) -> bool {
    match step {
        ExchangeStep::Start => e is Begin,
        ExchangeStep::FindProvider => e is ProviderFound,
        ExchangeStep::ParseRequest => e is RequestParsed,
        ExchangeStep::CallUpstream => e is UpstreamAnswered,
        ExchangeStep::ParseReply => e is ReplyParsed,
        ExchangeStep::Finished => false,
    }
}

/// The error body `{"error": {"message": m}}`.
pub open spec fn error_json(m: Seq<char>) -> JsonV {
    JsonV::Object(seq![("error"@, JsonV::Object(seq![("message"@, JsonV::Str(m))]))])
}

/// Action `a` answers Codex with `status` and the error message `m`.
pub open spec fn replies_error(a: ExchangeAction, status: u16, m: Seq<char>) -> bool {
    a matches ExchangeAction::ReplyError { status: s, body } && s == status && body@ == error_json(m)
}

/// The next step of request `x` after its step reported `e`: unknown
/// providers get 404, unparsable requests 400, unreachable upstreams and
/// unparsable replies 502, upstream errors their own status; a good reply
/// becomes the Responses event stream for the model that was sent.
pub open spec fn exchange_next_ok(x: Exchange, e: ExchangeEvent, y: Exchange, a: ExchangeAction) -> bool {
    &&& y.provider@ == x.provider@
    &&& match (x.step, e) {
        (ExchangeStep::Start, _) => y.step is FindProvider && a is FindProvider,
        (ExchangeStep::FindProvider, ExchangeEvent::ProviderFound { upstream }) => match upstream {
            None => y.step is Finished && replies_error(a, 404, "未知的 provider："@ + x.provider@),
            Some((base, model)) => y.step is ParseRequest && a is ParseRequest && y.base_url@ == base@
                && y.model@ == model@,
        },
        (ExchangeStep::ParseRequest, ExchangeEvent::RequestParsed { request }) => match request {
            Err(err) => y.step is Finished && replies_error(a, 400, "无法解析请求体："@ + err@),
            Ok(req) => {
                let model = effective_model_of(x.model@, req@);
                let endpoint = chat_endpoint_of(x.base_url@);
                &&& y.step is CallUpstream
                &&& y.model@ == model
                &&& y.endpoint@ == endpoint
                &&& a matches ExchangeAction::CallUpstream { endpoint: ep, body } && ep@ == endpoint && body@ == jset(
                    chat_request(req@),
                    "model"@,
                    JsonV::Str(model),
                )
            },
        },
        (ExchangeStep::CallUpstream, ExchangeEvent::UpstreamAnswered { outcome }) => match outcome {
            ProbeOutcome::Failed { error } => y.step is Finished && replies_error(
                a,
                502,
                "无法连接上游 "@ + x.endpoint@ + "："@ + error@,
            ),
            ProbeOutcome::Responded { status, reason, body } => if 200 <= status <= 299 {
                &&& y.step is ParseReply
                &&& y.model@ == x.model@
                &&& a matches ExchangeAction::ParseReply { text } && text@ == body@
            } else {
                y.step is Finished && replies_error(
                    a,
                    status,
                    "上游返回 "@ + decimal(status as nat) + " "@ + reason@ + ": "@ + body@,
                )
            },
        },
        (ExchangeStep::ParseReply, ExchangeEvent::ReplyParsed { reply }) => match reply {
            Err(err) => y.step is Finished && replies_error(a, 502, "上游响应不是合法 JSON："@ + err@),
            Ok(chat) => {
                &&& y.step is Finished
                &&& a matches ExchangeAction::ReplyEvents { events } && exists|created: u64, stamps: Seq<u128>|
                    stamps.len() >= stamps_needed(chat@) && items_view(events@) == response_events(
                        chat@,
                        x.model@,
                        created,
                        stamps,
                    )
            },
        },
        _ => false,
    }
}

fn message(prefix: &str, text: &str) -> (r: String)
    ensures
        r@ == prefix@ + text@,
{
    let mut m = chars_of(prefix);
    extend_str(&mut m, text);
    string_of(&m)
}

/// Whether step `step` can report event `e` (see `exchange_accepts`).
pub fn exchange_accepts_event(step: ExchangeStep, e: &ExchangeEvent) -> (r: bool)
    ensures
        r == exchange_accepts(step, *e),
{
    match step {
        ExchangeStep::Start => matches!(e, ExchangeEvent::Begin),
        ExchangeStep::FindProvider => matches!(e, ExchangeEvent::ProviderFound { .. }),
        ExchangeStep::ParseRequest => matches!(e, ExchangeEvent::RequestParsed { .. }),
        ExchangeStep::CallUpstream => matches!(e, ExchangeEvent::UpstreamAnswered { .. }),
        ExchangeStep::ParseReply => matches!(e, ExchangeEvent::ReplyParsed { .. }),
        ExchangeStep::Finished => false,
    }
}

/// A request for the provider with id `provider`, before anything happened.
pub fn exchange_for(provider: String) -> (r: Exchange)
    ensures
        r.step is Start,
        r.provider@ == provider@,
{
    Exchange { step: ExchangeStep::Start, provider, base_url: String::new(), model: String::new(), endpoint: String::new() }
}

/// The next step of a proxied request after its step reported `e`.
pub fn exchange_step(x: Exchange, e: ExchangeEvent) -> (r: (Exchange, ExchangeAction))
    requires
        exchange_accepts(x.step, e),
    ensures
        exchange_next_ok(x, e, r.0, r.1),
{
    let ghost x0 = x;
    let Exchange { step, provider, base_url, model, endpoint } = x;
    match (step, e) {
        (ExchangeStep::Start, _) => (
            Exchange { step: ExchangeStep::FindProvider, provider, base_url, model, endpoint },
            ExchangeAction::FindProvider,
        ),
        (ExchangeStep::FindProvider, ExchangeEvent::ProviderFound { upstream }) => match upstream {
            None => {
                let m = message("未知的 provider：", provider.as_str());
                (
                    Exchange { step: ExchangeStep::Finished, provider, base_url, model, endpoint },
                    ExchangeAction::ReplyError { status: 404, body: error_body(m.as_str()) },
                )
            },
            Some((b, md)) => (
                Exchange { step: ExchangeStep::ParseRequest, provider, base_url: b, model: md, endpoint },
                ExchangeAction::ParseRequest,
            ),
        },
        (ExchangeStep::ParseRequest, ExchangeEvent::RequestParsed { request }) => match request {
            Err(err) => {
                let m = message("无法解析请求体：", err.as_str());
                (
                    Exchange { step: ExchangeStep::Finished, provider, base_url, model, endpoint },
                    ExchangeAction::ReplyError { status: 400, body: error_body(m.as_str()) },
                )
            },
            Ok(req) => {
                let (body, effective) = crate::proxy::forward_request(&req, model.as_str());
                let ep = chat_endpoint(base_url.as_str());
                let sent = copy_string(&ep);
                (
                    Exchange { step: ExchangeStep::CallUpstream, provider, base_url, model: effective, endpoint: ep },
                    ExchangeAction::CallUpstream { endpoint: sent, body },
                )
            },
        },
        (ExchangeStep::CallUpstream, ExchangeEvent::UpstreamAnswered { outcome }) => match outcome {
            ProbeOutcome::Failed { error } => {
                let mut m = chars_of("无法连接上游 ");
                extend_str(&mut m, endpoint.as_str());
                extend_str(&mut m, "：");
                extend_str(&mut m, error.as_str());
                let text = string_of(&m);
                (
                    Exchange { step: ExchangeStep::Finished, provider, base_url, model, endpoint },
                    ExchangeAction::ReplyError { status: 502, body: error_body(text.as_str()) },
                )
            },
            ProbeOutcome::Responded { status, reason, body } => {
                if 200 <= status && status <= 299 {
                    (
                        Exchange { step: ExchangeStep::ParseReply, provider, base_url, model, endpoint },
                        ExchangeAction::ParseReply { text: body },
                    )
                } else {
                    let mut m = chars_of("上游返回 ");
                    let code = decimal_exec(status as u64);
                    extend_chars(&mut m, &code);
                    extend_str(&mut m, " ");
                    extend_str(&mut m, reason.as_str());
                    extend_str(&mut m, ": ");
                    extend_str(&mut m, body.as_str());
                    let text = string_of(&m);
                    proof {
                        assert(text@ =~= "上游返回 "@ + decimal(status as nat) + " "@ + reason@ + ": "@ + body@);
                    }
                    (
                        Exchange { step: ExchangeStep::Finished, provider, base_url, model, endpoint },
                        ExchangeAction::ReplyError { status, body: error_body(text.as_str()) },
                    )
                }
            },
        },
        (ExchangeStep::ParseReply, ExchangeEvent::ReplyParsed { reply }) => match reply {
            Err(err) => {
                let m = message("上游响应不是合法 JSON：", err.as_str());
                (
                    Exchange { step: ExchangeStep::Finished, provider, base_url, model, endpoint },
                    ExchangeAction::ReplyError { status: 502, body: error_body(m.as_str()) },
                )
            },
            Ok(chat) => {
                let events = chat_to_responses_events(&chat, model.as_str());
                (
                    Exchange { step: ExchangeStep::Finished, provider, base_url, model, endpoint },
                    ExchangeAction::ReplyEvents { events },
                )
            },
        },
        (_, _) => {
            proof {
                assert(false);
            }
            (
                Exchange { step: ExchangeStep::Finished, provider, base_url, model, endpoint },
                ExchangeAction::FindProvider,
            )
        },
    }
}

} // verus!
