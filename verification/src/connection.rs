//! The connection test of a provider form: which key and endpoint are tried
//! with which request, and how the answer is reported.
use vstd::prelude::*;

use crate::json::{arr1, obj2, obj4, Json, JsonV};
use crate::provider::{copy_string, normalized_url};
use crate::text::{
    chars_of, decimal, extend_chars, extend_str, int_text_exec, slice_chars, str_eq, string_of, trim,
    trim_end_char_exec, trim_exec,
};

verus! {

/// What the form holds when "test" is pressed.
pub struct ProviderTestInput {
    pub profile_id: Option<String>,
    pub base_url: String,
    pub model: String,
    pub api_key: Option<String>,
    pub wire_api: String,
}

/// The outcome shown to the user.
pub struct ProviderTestResult {
    pub ok: bool,
    pub status: u16,
    pub latency_ms: u64,
    pub message: String,
    pub suggest_chat: bool,
}

/// The request that tests a provider.
pub struct ConnectionProbe {
    pub key: String,
    pub endpoint: String,
    pub body: Json,
    pub is_chat: bool,
}

/// How the test request went.
pub enum ProbeOutcome {
    /// The provider answered with this status, reason phrase and body.
    Responded { status: u16, reason: String, body: String },
    /// No answer; the error as text.
    Failed { error: String },
}

pub open spec fn opt_seq(s: Option<String>) -> Option<Seq<char>> {
    match s {
        Some(v) => Some(v@),
        None => None,
    }
}

/// The key to test with: the typed one (trimmed) unless it is blank, else the
/// stored one; an error when there is neither.
pub open spec fn test_key_of(typed: Option<Seq<char>>, stored: Option<Seq<char>>) -> Result<Seq<char>, Seq<char>> {
    match typed {
        Some(t) if trim(t).len() > 0 => Ok(trim(t)),
        _ => match stored {
            Some(k) => Ok(k),
            None => Err("请填写 API Key 后再测试。"@),
        },
    }
}

/// The smallest request for each protocol.
pub open spec fn probe_body_of(is_chat: bool, model: Seq<char>) -> JsonV {
    if is_chat {
        JsonV::Object(
            seq![
                ("model"@, JsonV::Str(model)),
                (
                    "messages"@,
                    JsonV::Array(
                        seq![JsonV::Object(seq![("role"@, JsonV::Str("user"@)), ("content"@, JsonV::Str("ping"@))])],
                    ),
                ),
                ("max_tokens"@, JsonV::UInt(1)),
                ("stream"@, JsonV::Bool(false)),
            ],
        )
    } else {
        JsonV::Object(
            seq![
                ("model"@, JsonV::Str(model)),
                ("input"@, JsonV::Str("ping"@)),
                ("max_output_tokens"@, JsonV::UInt(16)),
                ("stream"@, JsonV::Bool(false)),
            ],
        )
    }
}

/// The endpoint for each protocol.
pub open spec fn probe_endpoint_of(is_chat: bool, base: Seq<char>) -> Seq<char> {
    if is_chat {
        base + "/chat/completions"@
    } else {
        base + "/responses"@
    }
}

fn probe_body(is_chat: bool, model: &String) -> (r: Json)
    ensures
        r@ == probe_body_of(is_chat, model@),
{
    if is_chat {
        let msg = obj2("role", Json::string("user"), "content", Json::string("ping"));
        obj4(
            "model",
            Json::Str(copy_string(model)),
            "messages",
            arr1(msg),
            "max_tokens",
            Json::UInt(1),
            "stream",
            Json::Bool(false),
        )
    } else {
        obj4(
            "model",
            Json::Str(copy_string(model)),
            "input",
            Json::string("ping"),
            "max_output_tokens",
            Json::UInt(16),
            "stream",
            Json::Bool(false),
        )
    }
}

/// The stored key is only wanted when no key was typed (or a blank one).
pub fn needs_stored_key(input: &ProviderTestInput) -> (r: bool)
    ensures
        r == !(opt_seq(input.api_key) matches Some(t) && trim(t).len() > 0),
{
    match &input.api_key {
        Some(k) => trim_exec(&chars_of(k.as_str())).len() == 0,
        None => true,
    }
}

/// The test request for a form: `stored_key` is the key kept for the
/// provider being edited, if any. Fails without a key or without a base URL.
pub fn plan_connection_test(input: &ProviderTestInput, stored_key: Option<String>) -> (r: Result<ConnectionProbe, String>)
    ensures
        match test_key_of(opt_seq(input.api_key), opt_seq(stored_key)) {
            Err(e) => r matches Err(m) && m@ == e,
            Ok(k) => if normalized_url(input.base_url@).len() == 0 {
                r matches Err(m) && m@ == "请填写 Base URL。"@
            } else {
                r matches Ok(p) && p.key@ == k && p.is_chat == (input.wire_api@ == "chat"@) && p.endpoint@
                    == probe_endpoint_of(p.is_chat, normalized_url(input.base_url@)) && p.body@ == probe_body_of(
                    p.is_chat,
                    trim(input.model@),
                )
            },
        },
{
    let typed = match &input.api_key {
        Some(k) => {
            let t = trim_exec(&chars_of(k.as_str()));
            if t.len() > 0 {
                Some(string_of(&t))
            } else {
                None
            }
        },
        None => None,
    };
    let key = match typed {
        Some(k) => k,
        None => match stored_key {
            Some(k) => k,
            None => return Err(string_of(&chars_of("请填写 API Key 后再测试。"))),
        },
    };
    let base = trim_end_char_exec(&trim_exec(&chars_of(input.base_url.as_str())), '/');
    if base.len() == 0 {
        return Err(string_of(&chars_of("请填写 Base URL。")));
    }
    let model = string_of(&trim_exec(&chars_of(input.model.as_str())));
    let is_chat = str_eq(input.wire_api.as_str(), "chat");
    let mut endpoint = slice_chars(&base, 0, base.len());
    if is_chat {
        extend_str(&mut endpoint, "/chat/completions");
    } else {
        extend_str(&mut endpoint, "/responses");
    }
    assert(base@ == normalized_url(input.base_url@));
    Ok(ConnectionProbe { key, endpoint: string_of(&endpoint), body: probe_body(is_chat, &model), is_chat })
}

/// At most 200 characters of a reply body, trimmed, with `…` when cut.
pub open spec fn brief_of(text: Seq<char>) -> Seq<char> {
    let t = trim(text);
    if t.len() > 200 {
        t.take(200) + "…"@
    } else {
        t
    }
}

pub fn brief(text: &str) -> (r: String)
    ensures
        r@ == brief_of(text@),
{
    let t = trim_exec(&chars_of(text));
    if t.len() > 200 {
        let mut out = slice_chars(&t, 0, 200);
        extend_str(&mut out, "…");
        string_of(&out)
    } else {
        string_of(&t)
    }
}

/// The report of a test: success for a 2xx status with the endpoint and the
/// latency; a hint to use the chat protocol when `/responses` is missing
/// (404); otherwise the status, its reason and the start of the body; or that
/// the provider could not be reached.
pub open spec fn test_result_ok(endpoint: Seq<char>, is_chat: bool, latency_ms: u64, outcome: ProbeOutcome, r: ProviderTestResult) -> bool {
    match outcome {
        ProbeOutcome::Responded { status, reason, body } => {
            let ok = 200 <= status <= 299;
            let suggest = !is_chat && status == 404;
            &&& r.ok == ok
            &&& r.status == status
            &&& r.latency_ms == latency_ms
            &&& r.suggest_chat == suggest
            &&& r.message@ == if ok {
                "连接成功 · "@ + endpoint + " · "@ + decimal(latency_ms as nat) + "ms"@
            } else if suggest {
                "该服务没有 /responses 接口，应使用 Chat Completions（本地代理）。"@
            } else {
                decimal(status as nat) + " "@ + reason@ + " · "@ + brief_of(body@)
            }
        },
        ProbeOutcome::Failed { error } => {
            &&& !r.ok
            &&& r.status == 0
            &&& r.latency_ms == latency_ms
            &&& !r.suggest_chat
            &&& r.message@ == "无法连接 "@ + endpoint + "："@ + error@
        },
    }
}

/// The report of a connection test.
pub fn connection_result(endpoint: &str, is_chat: bool, latency_ms: u64, outcome: ProbeOutcome) -> (r: ProviderTestResult)
    ensures
        test_result_ok(endpoint@, is_chat, latency_ms, outcome, r),
{
    match outcome {
        ProbeOutcome::Responded { status, reason, body } => {
            let ok = 200 <= status && status <= 299;
            let suggest = !is_chat && status == 404;
            let message = if ok {
                let mut m = chars_of("连接成功 · ");
                extend_str(&mut m, endpoint);
                extend_str(&mut m, " · ");
                let lat = crate::text::decimal_exec(latency_ms);
                extend_chars(&mut m, &lat);
                extend_str(&mut m, "ms");
                string_of(&m)
            } else if suggest {
                string_of(&chars_of("该服务没有 /responses 接口，应使用 Chat Completions（本地代理）。"))
            } else {
                let mut m = crate::text::decimal_exec(status as u64);
                extend_str(&mut m, " ");
                extend_str(&mut m, reason.as_str());
                extend_str(&mut m, " · ");
                extend_str(&mut m, brief(body.as_str()).as_str());
                string_of(&m)
            };
            ProviderTestResult { ok, status, latency_ms, message, suggest_chat: suggest }
        },
        ProbeOutcome::Failed { error } => {
            let mut m = chars_of("无法连接 ");
            extend_str(&mut m, endpoint);
            extend_str(&mut m, "：");
            extend_str(&mut m, error.as_str());
            ProviderTestResult { ok: false, status: 0, latency_ms, message: string_of(&m), suggest_chat: false }
        },
    }
}

} // verus!
