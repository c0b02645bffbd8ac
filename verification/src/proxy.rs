//! The local proxy between Codex and chat-only providers. Codex speaks the
//! OpenAI Responses API; chat-only providers speak Chat Completions. A Responses request is
//! turned into a Chat Completions request, and the provider's (non-streaming)
//! answer into the sequence of Responses stream events that Codex expects.
use vstd::prelude::*;

use crate::json::{
    find_key, arr, arr1, items_view, jget, jget_array, jget_str, jget_u64, jset, jset_then_jget, lemma_array_view,
    lemma_object_view, member, members_view, obj, obj1, obj2, obj3, obj4, obj5, obj6, Json, JsonV,
};
use crate::provider::copy_string;
use crate::text::{
    chars_of, extend_chars, extend_str, hex, hex_exec, string_of, trim_end_char, trim_end_char_exec,
};

verus! {

// ---------------------------------------------------------------------------
// Small builders
// ---------------------------------------------------------------------------

pub open spec fn jstr(s: Seq<char>) -> JsonV {
    JsonV::Str(s)
}

fn str_json(s: &String) -> (r: Json)
    ensures
        r@ == JsonV::Str(s@),
{
    Json::Str(copy_string(s))
}

fn opt_str_or_empty(s: Option<&String>) -> (r: Json)
    ensures
        r@ == JsonV::Str(
            match s {
                Some(x) => x@,
                None => Seq::empty(),
            },
        ),
{
    match s {
        Some(x) => str_json(x),
        None => Json::Str(String::new()),
    }
}

/// `value.get(key).and_then(Value::as_str)`.
fn get_str<'a>(v: &'a Json, key: &str) -> (r: Option<&'a String>)
    ensures
        match r {
            Some(s) => jget_str(v@, key@) == Some(s@),
            None => jget_str(v@, key@) is None,
        },
{
    match v.get(key) {
        Some(x) => x.as_str(),
        None => None,
    }
}

/// `value.get(key).and_then(Value::as_array)`.
fn get_array<'a>(v: &'a Json, key: &str) -> (r: Option<&'a Vec<Json>>)
    ensures
        match r {
            Some(a) => jget_array(v@, key@) == Some(items_view(a@)),
            None => jget_array(v@, key@) is None,
        },
{
    match v.get(key) {
        Some(x) => x.as_array(),
        None => None,
    }
}

// ---------------------------------------------------------------------------
// Requests: Responses -> Chat Completions
// ---------------------------------------------------------------------------

/// The concatenated `text` of the parts that have one.
pub open spec fn parts_text(parts: Seq<JsonV>) -> Seq<char>
    decreases parts.len(),
{
    if parts.len() == 0 {
        Seq::empty()
    } else {
        parts_text(parts.drop_last()) + match jget_str(parts.last(), "text"@) {
            Some(t) => t,
            None => Seq::empty(),
        }
    }
}

/// Message content as plain text: a string as it is, a list of parts as the
/// concatenation of their texts, anything else as nothing.
pub open spec fn content_text(content: Option<JsonV>) -> Seq<char> {
    match content {
        Some(JsonV::Str(t)) => t,
        Some(JsonV::Array(parts)) => parts_text(parts),
        _ => Seq::empty(),
    }
}

/// A tool result as plain text.
pub open spec fn output_text(output: Option<JsonV>) -> Seq<char> {
    match output {
        Some(JsonV::Str(t)) => t,
        Some(other) => content_text(Some(other)),
        None => Seq::empty(),
    }
}

pub open spec fn str_or_empty(s: Option<Seq<char>>) -> Seq<char> {
    match s {
        Some(t) => t,
        None => Seq::empty(),
    }
}

/// The chat message an input item becomes, if any: a function call becomes
/// an assistant message with one tool call, a function result a tool message,
/// and an item with a role a message with that role and its text.
pub open spec fn input_message(item: JsonV) -> Option<JsonV> {
    let kind = jget_str(item, "type"@);
    if kind == Some("function_call"@) {
        Some(
            JsonV::Object(
                seq![
                    ("role"@, jstr("assistant"@)),
                    ("content"@, JsonV::Null),
                    (
                        "tool_calls"@,
                        JsonV::Array(
                            seq![
                                JsonV::Object(
                                    seq![
                                        ("id"@, jstr(str_or_empty(jget_str(item, "call_id"@)))),
                                        ("type"@, jstr("function"@)),
                                        (
                                            "function"@,
                                            JsonV::Object(
                                                seq![
                                                    ("name"@, jstr(str_or_empty(jget_str(item, "name"@)))),
                                                    (
                                                        "arguments"@,
                                                        jstr(str_or_empty(jget_str(item, "arguments"@))),
                                                    ),
                                                ],
                                            ),
                                        ),
                                    ],
                                ),
                            ],
                        ),
                    ),
                ],
            ),
        )
    } else if kind == Some("function_call_output"@) {
        Some(
            JsonV::Object(
                seq![
                    ("role"@, jstr("tool"@)),
                    ("tool_call_id"@, jstr(str_or_empty(jget_str(item, "call_id"@)))),
                    ("content"@, jstr(output_text(jget(item, "output"@)))),
                ],
            ),
        )
    } else {
        match jget_str(item, "role"@) {
            Some(role) => Some(
                JsonV::Object(
                    seq![("role"@, jstr(role)), ("content"@, jstr(content_text(jget(item, "content"@))))],
                ),
            ),
            None => None,
        }
    }
}

/// The chat messages of a list of input items, in order.
pub open spec fn input_messages(items: Seq<JsonV>) -> Seq<JsonV>
    decreases items.len(),
{
    if items.len() == 0 {
        Seq::empty()
    } else {
        let before = input_messages(items.drop_last());
        match input_message(items.last()) {
            Some(m) => before.push(m),
            None => before,
        }
    }
}

/// A Responses tool in Chat form: only function tools; those already nested
/// under `function` stay as they are; flat ones are nested; one without a
/// name is dropped.
pub open spec fn converted_tool(tool: JsonV) -> Option<JsonV> {
    if jget_str(tool, "type"@) != Some("function"@) {
        None
    } else if jget(tool, "function"@) is Some {
        Some(tool)
    } else {
        match jget(tool, "name"@) {
            None => None,
            Some(name) => {
                let f0 = JsonV::Object(seq![("name"@, name)]);
                let f1 = match jget(tool, "description"@) {
                    Some(d) => jset(f0, "description"@, d),
                    None => f0,
                };
                let f2 = match jget(tool, "parameters"@) {
                    Some(p) => jset(f1, "parameters"@, p),
                    None => f1,
                };
                Some(JsonV::Object(seq![("type"@, jstr("function"@)), ("function"@, f2)]))
            },
        }
    }
}

pub open spec fn converted_tools(tools: Seq<JsonV>) -> Seq<JsonV>
    decreases tools.len(),
{
    if tools.len() == 0 {
        Seq::empty()
    } else {
        let before = converted_tools(tools.drop_last());
        match converted_tool(tools.last()) {
            Some(t) => before.push(t),
            None => before,
        }
    }
}

/// The messages of the chat request: the instructions as a system message
/// (when not empty), then the input items, or the input text as one user
/// message.
pub open spec fn chat_messages(request: JsonV) -> Seq<JsonV> {
    let system = match jget_str(request, "instructions"@) {
        Some(ins) => if ins.len() > 0 {
            seq![JsonV::Object(seq![("role"@, jstr("system"@)), ("content"@, jstr(ins))])]
        } else {
            Seq::empty()
        },
        None => Seq::empty(),
    };
    let rest = match jget_array(request, "input"@) {
        Some(items) => input_messages(items),
        None => match jget_str(request, "input"@) {
            Some(text) => seq![JsonV::Object(seq![("role"@, jstr("user"@)), ("content"@, jstr(text))])],
            None => Seq::empty(),
        },
    };
    system + rest
}

/// `chat[key] = request[key]` when the request has that member.
pub open spec fn copy_member(chat: JsonV, request: JsonV, from: Seq<char>, to: Seq<char>) -> JsonV {
    match jget(request, from) {
        Some(v) => jset(chat, to, v),
        None => chat,
    }
}

/// The request's model (or null), its messages, and no streaming.
pub open spec fn chat_base(request: JsonV) -> JsonV {
    JsonV::Object(
        seq![
            (
                "model"@,
                match jget(request, "model"@) {
                    Some(m) => m,
                    None => JsonV::Null,
                },
            ),
            ("messages"@, JsonV::Array(chat_messages(request))),
            ("stream"@, JsonV::Bool(false)),
        ],
    )
}

/// The Chat Completions request for a Responses request.
pub open spec fn chat_request(request: JsonV) -> JsonV {
    let base = chat_base(request);
    let with_tools = match jget_array(request, "tools"@) {
        Some(tools) => if converted_tools(tools).len() > 0 {
            jset(base, "tools"@, JsonV::Array(converted_tools(tools)))
        } else {
            base
        },
        None => base,
    };
    let c1 = copy_member(with_tools, request, "tool_choice"@, "tool_choice"@);
    let c2 = copy_member(c1, request, "temperature"@, "temperature"@);
    let c3 = copy_member(c2, request, "top_p"@, "top_p"@);
    copy_member(c3, request, "max_output_tokens"@, "max_tokens"@)
}

/// Message content as plain text.
pub fn content_to_text(content: Option<&Json>) -> (r: String)
    ensures
        r@ == content_text(
            match content {
                Some(c) => Some(c@),
                None => None,
            },
        ),
{
    match content {
        Some(Json::Str(t)) => copy_string(t),
        Some(Json::Array(parts)) => {
            proof {
                lemma_array_view(*parts);
            }
            let ghost pv = items_view(parts@);
            let mut out: Vec<char> = Vec::new();
            let mut i: usize = 0;
            assert(pv.take(0) =~= Seq::<JsonV>::empty());
            while i < parts.len()
                invariant
                    i <= parts.len(),
                    pv == items_view(parts@),
                    out@ == parts_text(pv.take(i as int)),
                decreases parts.len() - i,
            {
                assert(pv.take(i + 1).drop_last() == pv.take(i as int));
                assert(pv.take(i + 1).last() == parts@[i as int]@);
                match get_str(&parts[i], "text") {
                    Some(t) => {
                        let tc = chars_of(t.as_str());
                        extend_chars(&mut out, &tc);
                    },
                    None => {
                        assert(out@ =~= out@ + Seq::<char>::empty());
                    },
                }
                i = i + 1;
            }
            assert(pv.take(parts.len() as int) == pv);
            string_of(&out)
        },
        _ => String::new(),
    }
}

/// A tool result as plain text.
pub fn output_to_text(output: Option<&Json>) -> (r: String)
    ensures
        r@ == output_text(
            match output {
                Some(c) => Some(c@),
                None => None,
            },
        ),
{
    match output {
        Some(Json::Str(t)) => copy_string(t),
        Some(other) => content_to_text(Some(other)),
        None => String::new(),
    }
}

/// The chat message for one input item, if any.
pub fn input_item_message(item: &Json) -> (r: Option<Json>)
    ensures
        match r {
            Some(m) => input_message(item@) == Some(m@),
            None => input_message(item@) is None,
        },
{
    let kind = get_str(item, "type");
    let is_call = match kind {
        Some(k) => crate::text::str_eq(k.as_str(), "function_call"),
        None => false,
    };
    let is_output = match kind {
        Some(k) => crate::text::str_eq(k.as_str(), "function_call_output"),
        None => false,
    };
    if is_call {
        let function = obj2(
            "name",
            opt_str_or_empty(get_str(item, "name")),
            "arguments",
            opt_str_or_empty(get_str(item, "arguments")),
        );
        let call = obj3(
            "id",
            opt_str_or_empty(get_str(item, "call_id")),
            "type",
            Json::string("function"),
            "function",
            function,
        );
        Some(obj3("role", Json::string("assistant"), "content", Json::Null, "tool_calls", arr1(call)))
    } else if is_output {
        Some(
            obj3(
                "role",
                Json::string("tool"),
                "tool_call_id",
                opt_str_or_empty(get_str(item, "call_id")),
                "content",
                Json::Str(output_to_text(item.get("output"))),
            ),
        )
    } else {
        match get_str(item, "role") {
            Some(role) => Some(
                obj2("role", str_json(role), "content", Json::Str(content_to_text(item.get("content")))),
            ),
            None => None,
        }
    }
}


/// A Responses tool in Chat form, if it is a function tool.
pub fn convert_tool(tool: &Json) -> (r: Option<Json>)
    ensures
        match r {
            Some(t) => converted_tool(tool@) == Some(t@),
            None => converted_tool(tool@) is None,
        },
{
    let is_function = match get_str(tool, "type") {
        Some(k) => crate::text::str_eq(k.as_str(), "function"),
        None => false,
    };
    if !is_function {
        return None;
    }
    if tool.get("function").is_some() {
        return Some(tool.deep_clone());
    }
    let name = match tool.get("name") {
        Some(n) => n.deep_clone(),
        None => return None,
    };
    let mut function = obj1("name", name);
    if let Some(d) = tool.get("description") {
        function.set("description", d.deep_clone());
    }
    if let Some(p) = tool.get("parameters") {
        function.set("parameters", p.deep_clone());
    }
    Some(obj2("type", Json::string("function"), "function", function))
}

/// The function tools of a list, in Chat form.
fn convert_tools(tools: &Vec<Json>) -> (r: Vec<Json>)
    ensures
        items_view(r@) == converted_tools(items_view(tools@)),
{
    let ghost tv = items_view(tools@);
    let mut converted: Vec<Json> = Vec::new();
    let mut i: usize = 0;
    assert(tv.take(0) =~= Seq::<JsonV>::empty());
    assert(items_view(converted@) =~= Seq::<JsonV>::empty());
    while i < tools.len()
        invariant
            i <= tools.len(),
            tv == items_view(tools@),
            items_view(converted@) == converted_tools(tv.take(i as int)),
        decreases tools.len() - i,
    {
        assert(tv.take(i + 1).drop_last() == tv.take(i as int));
        assert(tv.take(i + 1).last() == tools@[i as int]@);
        match convert_tool(&tools[i]) {
            Some(t) => {
                let ghost tw = t@;
                let ghost before = items_view(converted@);
                assert(converted_tools(tv.take(i + 1)) == converted_tools(tv.take(i as int)).push(tw));
                converted.push(t);
                assert(items_view(converted@) =~= before.push(tw));
            },
            None => {
                assert(converted_tools(tv.take(i + 1)) == converted_tools(tv.take(i as int)));
            },
        }
        i = i + 1;
    }
    assert(tv.take(tools.len() as int) == tv);
    converted
}

/// `chat[to] = request[from].clone()` when the request has that member.
fn copy_member_exec(chat: &mut Json, request: &Json, from: &str, to: &str)
    requires
        old(chat)@ is Object,
    ensures
        final(chat)@ == copy_member(old(chat)@, request@, from@, to@),
        final(chat)@ is Object,
{
    if let Some(x) = request.get(from) {
        chat.set(to, x.deep_clone());
    }
}

/// The Chat Completions request for a Responses request: instructions and
/// input become messages, function tools are reshaped, and the tool choice,
/// sampling settings and output limit are carried over. The request is not
/// streamed.
pub fn responses_to_chat(request: &Json) -> (r: Json)
    ensures
        r@ == chat_request(request@),
{
    let mut messages: Vec<Json> = Vec::new();
    let ghost system: Seq<JsonV> = Seq::empty();
    if let Some(ins) = get_str(request, "instructions") {
        if chars_of(ins.as_str()).len() > 0 {
            messages.push(obj2("role", Json::string("system"), "content", str_json(ins)));
            proof {
                system = seq![JsonV::Object(seq![("role"@, jstr("system"@)), ("content"@, jstr(ins@))])];
            }
        }
    }
    assert(items_view(messages@) =~= system);
    if let Some(items) = get_array(request, "input") {
        let ghost iv = items_view(items@);
        let mut i: usize = 0;
        assert(iv.take(0) =~= Seq::<JsonV>::empty());
        while i < items.len()
            invariant
                i <= items.len(),
                iv == items_view(items@),
                items_view(messages@) == system + input_messages(iv.take(i as int)),
            decreases items.len() - i,
        {
            assert(iv.take(i + 1).drop_last() == iv.take(i as int));
            assert(iv.take(i + 1).last() == items@[i as int]@);
            match input_item_message(&items[i]) {
                Some(m) => {
                    let ghost mv = m@;
                    let ghost before = items_view(messages@);
                    assert(input_messages(iv.take(i + 1)) == input_messages(iv.take(i as int)).push(mv));
                    messages.push(m);
                    assert(items_view(messages@) =~= before.push(mv));
                    assert(items_view(messages@) =~= system + input_messages(iv.take(i + 1)));
                },
                None => {
                    assert(input_messages(iv.take(i + 1)) == input_messages(iv.take(i as int)));
                },
            }
            i = i + 1;
        }
        assert(iv.take(items.len() as int) == iv);
    } else if let Some(text) = get_str(request, "input") {
        messages.push(obj2("role", Json::string("user"), "content", str_json(text)));
        assert(items_view(messages@) =~= system + seq![
            JsonV::Object(seq![("role"@, jstr("user"@)), ("content"@, jstr(text@))]),
        ]);
    } else {
        assert(system =~= system + Seq::<JsonV>::empty());
    }
    assert(items_view(messages@) == chat_messages(request@));
    let model = match request.get("model") {
        Some(m) => m.deep_clone(),
        None => Json::Null,
    };
    let ghost modelv = model@;
    assert(modelv == match jget(request@, "model"@) {
        Some(m) => m,
        None => JsonV::Null,
    });
    let mut chat = obj3("model", model, "messages", arr(messages), "stream", Json::Bool(false));
    let ghost base = JsonV::Object(
        seq![("model"@, modelv), ("messages"@, JsonV::Array(chat_messages(request@))), ("stream"@, JsonV::Bool(false))],
    );
    assert(chat@ == base);
    assert(base == chat_base(request@)) by {
        let a = seq![("model"@, modelv), ("messages"@, JsonV::Array(chat_messages(request@))), ("stream"@, JsonV::Bool(false))];
        let b = seq![
            (
                "model"@,
                match jget(request@, "model"@) {
                    Some(m) => m,
                    None => JsonV::Null,
                },
            ),
            ("messages"@, JsonV::Array(chat_messages(request@))),
            ("stream"@, JsonV::Bool(false)),
        ];
        assert(a =~= b);
    }
    let ghost with_tools = match jget_array(request@, "tools"@) {
        Some(tools) => if converted_tools(tools).len() > 0 {
            jset(base, "tools"@, JsonV::Array(converted_tools(tools)))
        } else {
            base
        },
        None => base,
    };
    match get_array(request, "tools") {
        Some(tools) => {
            let converted = convert_tools(tools);
            assert(jget_array(request@, "tools"@) == Some(items_view(tools@)));
            if converted.len() > 0 {
                chat.set("tools", arr(converted));
            }
            assert(chat@ == with_tools);
        },
        None => {
            assert(chat@ == with_tools);
        },
    }
    copy_member_exec(&mut chat, request, "tool_choice", "tool_choice");
    copy_member_exec(&mut chat, request, "temperature", "temperature");
    copy_member_exec(&mut chat, request, "top_p", "top_p");
    copy_member_exec(&mut chat, request, "max_output_tokens", "max_tokens");
    assert(chat@ == copy_member(
        copy_member(
            copy_member(copy_member(with_tools, request@, "tool_choice"@, "tool_choice"@), request@, "temperature"@, "temperature"@),
            request@,
            "top_p"@,
            "top_p"@,
        ),
        request@,
        "max_output_tokens"@,
        "max_tokens"@,
    ));
    chat
}


// ---------------------------------------------------------------------------
// Response synthesis: Chat Completions -> Responses stream events
// ---------------------------------------------------------------------------

/// `SystemTime::now()` as whole seconds since the Unix epoch (0 for a clock
/// set before it). Nothing is claimed of the value: it is the clock's.
#[verifier::external_body]
fn now_secs() -> u64 {
    std::time::SystemTime::now().duration_since(std::time::UNIX_EPOCH).map(|d| d.as_secs()).unwrap_or(0)
}

/// `SystemTime::now()` as nanoseconds since the Unix epoch (0 for a clock set
/// before it), the source of response and item ids. Nothing is claimed of
/// the value: it is the clock's.
#[verifier::external_body]
fn now_nanos() -> u128 {
    std::time::SystemTime::now().duration_since(std::time::UNIX_EPOCH).map(|d| d.as_nanos()).unwrap_or(0)
}

/// `value.and_then(|v| v.get(key)).and_then(Value::as_str)`.
pub open spec fn opt_get_str(v: Option<JsonV>, key: Seq<char>) -> Option<Seq<char>> {
    match v {
        Some(x) => jget_str(x, key),
        None => None,
    }
}

/// The first choice's message of a chat completion.
pub open spec fn reply_message(chat: JsonV) -> Option<JsonV> {
    match jget_array(chat, "choices"@) {
        Some(choices) => if choices.len() > 0 {
            jget(choices[0], "message"@)
        } else {
            None
        },
        None => None,
    }
}

/// The reply's text ("" when it has none).
pub open spec fn reply_text(chat: JsonV) -> Seq<char> {
    str_or_empty(opt_get_str(reply_message(chat), "content"@))
}

/// The reply's tool calls (none when it has none).
pub open spec fn reply_calls(chat: JsonV) -> Seq<JsonV> {
    match reply_message(chat) {
        Some(m) => match jget_array(m, "tool_calls"@) {
            Some(c) => c,
            None => Seq::empty(),
        },
        None => Seq::empty(),
    }
}

pub open spec fn empty_array() -> JsonV {
    JsonV::Array(Seq::empty())
}

/// The `response` object of an event.
pub open spec fn base_response(id: Seq<char>, created: u64, status: Seq<char>, model: Seq<char>, output: Seq<JsonV>) -> JsonV {
    JsonV::Object(
        seq![
            ("id"@, jstr(id)),
            ("object"@, jstr("response"@)),
            ("created_at"@, JsonV::UInt(created)),
            ("status"@, jstr(status)),
            ("model"@, jstr(model)),
            ("output"@, JsonV::Array(output)),
        ],
    )
}

pub open spec fn text_part(text: Seq<char>) -> JsonV {
    JsonV::Object(seq![("type"@, jstr("output_text"@)), ("text"@, jstr(text)), ("annotations"@, empty_array())])
}

/// The finished message item of a text reply.
pub open spec fn text_item(item_id: Seq<char>, text: Seq<char>) -> JsonV {
    JsonV::Object(
        seq![
            ("id"@, jstr(item_id)),
            ("type"@, jstr("message"@)),
            ("status"@, jstr("completed"@)),
            ("role"@, jstr("assistant"@)),
            ("content"@, JsonV::Array(seq![text_part(text)])),
        ],
    )
}

/// The events that stream a text reply as one message item.
pub open spec fn text_events(item_id: Seq<char>, idx: u64, text: Seq<char>) -> Seq<JsonV> {
    seq![
        JsonV::Object(
            seq![
                ("type"@, jstr("response.output_item.added"@)),
                ("output_index"@, JsonV::UInt(idx)),
                (
                    "item"@,
                    JsonV::Object(
                        seq![
                            ("id"@, jstr(item_id)),
                            ("type"@, jstr("message"@)),
                            ("status"@, jstr("in_progress"@)),
                            ("role"@, jstr("assistant"@)),
                            ("content"@, empty_array()),
                        ],
                    ),
                ),
            ],
        ),
        JsonV::Object(
            seq![
                ("type"@, jstr("response.content_part.added"@)),
                ("item_id"@, jstr(item_id)),
                ("output_index"@, JsonV::UInt(idx)),
                ("content_index"@, JsonV::UInt(0)),
                ("part"@, text_part(Seq::empty())),
            ],
        ),
        JsonV::Object(
            seq![
                ("type"@, jstr("response.output_text.delta"@)),
                ("item_id"@, jstr(item_id)),
                ("output_index"@, JsonV::UInt(idx)),
                ("content_index"@, JsonV::UInt(0)),
                ("delta"@, jstr(text)),
            ],
        ),
        JsonV::Object(
            seq![
                ("type"@, jstr("response.output_text.done"@)),
                ("item_id"@, jstr(item_id)),
                ("output_index"@, JsonV::UInt(idx)),
                ("content_index"@, JsonV::UInt(0)),
                ("text"@, jstr(text)),
            ],
        ),
        JsonV::Object(
            seq![
                ("type"@, jstr("response.content_part.done"@)),
                ("item_id"@, jstr(item_id)),
                ("output_index"@, JsonV::UInt(idx)),
                ("content_index"@, JsonV::UInt(0)),
                ("part"@, text_part(text)),
            ],
        ),
        JsonV::Object(
            seq![
                ("type"@, jstr("response.output_item.done"@)),
                ("output_index"@, JsonV::UInt(idx)),
                ("item"@, text_item(item_id, text)),
            ],
        ),
    ]
}

/// The provider's reasoning ("" when it gave none).
pub open spec fn reply_reasoning(chat: JsonV) -> Seq<char> {
    str_or_empty(opt_get_str(reply_message(chat), "reasoning_content"@))
}

pub open spec fn summary_part(text: Seq<char>) -> JsonV {
    JsonV::Object(seq![("type"@, jstr("summary_text"@)), ("text"@, jstr(text))])
}

/// The finished reasoning item: the provider's reasoning as its summary.
pub open spec fn reasoning_item(item_id: Seq<char>, text: Seq<char>) -> JsonV {
    JsonV::Object(
        seq![
            ("id"@, jstr(item_id)),
            ("type"@, jstr("reasoning"@)),
            ("summary"@, JsonV::Array(seq![summary_part(text)])),
        ],
    )
}

/// The events that stream the provider's reasoning as one reasoning item.
pub open spec fn reasoning_events(item_id: Seq<char>, idx: u64, text: Seq<char>) -> Seq<JsonV> {
    seq![
        JsonV::Object(
            seq![
                ("type"@, jstr("response.output_item.added"@)),
                ("output_index"@, JsonV::UInt(idx)),
                (
                    "item"@,
                    JsonV::Object(
                        seq![
                            ("id"@, jstr(item_id)),
                            ("type"@, jstr("reasoning"@)),
                            ("summary"@, empty_array()),
                        ],
                    ),
                ),
            ],
        ),
        JsonV::Object(
            seq![
                ("type"@, jstr("response.reasoning_summary_part.added"@)),
                ("item_id"@, jstr(item_id)),
                ("output_index"@, JsonV::UInt(idx)),
                ("summary_index"@, JsonV::UInt(0)),
                ("part"@, summary_part(Seq::empty())),
            ],
        ),
        JsonV::Object(
            seq![
                ("type"@, jstr("response.reasoning_summary_text.delta"@)),
                ("item_id"@, jstr(item_id)),
                ("output_index"@, JsonV::UInt(idx)),
                ("summary_index"@, JsonV::UInt(0)),
                ("delta"@, jstr(text)),
            ],
        ),
        JsonV::Object(
            seq![
                ("type"@, jstr("response.reasoning_summary_text.done"@)),
                ("item_id"@, jstr(item_id)),
                ("output_index"@, JsonV::UInt(idx)),
                ("summary_index"@, JsonV::UInt(0)),
                ("text"@, jstr(text)),
            ],
        ),
        JsonV::Object(
            seq![
                ("type"@, jstr("response.reasoning_summary_part.done"@)),
                ("item_id"@, jstr(item_id)),
                ("output_index"@, JsonV::UInt(idx)),
                ("summary_index"@, JsonV::UInt(0)),
                ("part"@, summary_part(text)),
            ],
        ),
        JsonV::Object(
            seq![
                ("type"@, jstr("response.output_item.done"@)),
                ("output_index"@, JsonV::UInt(idx)),
                ("item"@, reasoning_item(item_id, text)),
            ],
        ),
    ]
}

/// A function-call item.
pub open spec fn call_item(item_id: Seq<char>, status: Seq<char>, name: Seq<char>, arguments: Seq<char>, call_id: Seq<
    char,
>) -> JsonV {
    JsonV::Object(
        seq![
            ("id"@, jstr(item_id)),
            ("type"@, jstr("function_call"@)),
            ("status"@, jstr(status)),
            ("name"@, jstr(name)),
            ("arguments"@, jstr(arguments)),
            ("call_id"@, jstr(call_id)),
        ],
    )
}

/// The events that stream one tool call as a function-call item.
pub open spec fn call_events(item_id: Seq<char>, idx: u64, name: Seq<char>, arguments: Seq<char>, call_id: Seq<char>) -> Seq<
    JsonV,
> {
    seq![
        JsonV::Object(
            seq![
                ("type"@, jstr("response.output_item.added"@)),
                ("output_index"@, JsonV::UInt(idx)),
                ("item"@, call_item(item_id, "in_progress"@, name, Seq::empty(), call_id)),
            ],
        ),
        JsonV::Object(
            seq![
                ("type"@, jstr("response.function_call_arguments.delta"@)),
                ("item_id"@, jstr(item_id)),
                ("output_index"@, JsonV::UInt(idx)),
                ("delta"@, jstr(arguments)),
            ],
        ),
        JsonV::Object(
            seq![
                ("type"@, jstr("response.function_call_arguments.done"@)),
                ("item_id"@, jstr(item_id)),
                ("output_index"@, JsonV::UInt(idx)),
                ("arguments"@, jstr(arguments)),
            ],
        ),
        JsonV::Object(
            seq![
                ("type"@, jstr("response.output_item.done"@)),
                ("output_index"@, JsonV::UInt(idx)),
                ("item"@, call_item(item_id, "completed"@, name, arguments, call_id)),
            ],
        ),
    ]
}

pub open spec fn call_name(call: JsonV) -> Seq<char> {
    str_or_empty(opt_get_str(jget(call, "function"@), "name"@))
}

pub open spec fn call_arguments(call: JsonV) -> Seq<char> {
    str_or_empty(opt_get_str(jget(call, "function"@), "arguments"@))
}

/// How many id stamps a tool call uses: one for its item, and one more for
/// its call id when the provider gave none.
pub open spec fn call_stamps(call: JsonV) -> nat {
    if jget_str(call, "id"@) is Some {
        1
    } else {
        2
    }
}

pub open spec fn calls_stamps(calls: Seq<JsonV>) -> nat
    decreases calls.len(),
{
    if calls.len() == 0 {
        0
    } else {
        call_stamps(calls[0]) + calls_stamps(calls.drop_first())
    }
}

proof fn lemma_calls_stamps_len(calls: Seq<JsonV>)
    ensures
        calls_stamps(calls) >= calls.len(),
    decreases calls.len(),
{
    if calls.len() > 0 {
        lemma_calls_stamps_len(calls.drop_first());
    }
}

/// The events and finished items of the tool calls, the first at output
/// position `idx`, taking ids from `stamps` starting at `pos`.
pub open spec fn calls_part(calls: Seq<JsonV>, idx: u64, stamps: Seq<u128>, pos: int) -> (Seq<JsonV>, Seq<JsonV>)
    decreases calls.len(),
{
    if calls.len() == 0 {
        (Seq::empty(), Seq::empty())
    } else {
        let c = calls[0];
        let call_id = match jget_str(c, "id"@) {
            Some(id) => id,
            None => "call_"@ + hex(stamps[pos] as nat),
        };
        let item_pos = if jget_str(c, "id"@) is Some {
            pos
        } else {
            pos + 1
        };
        let item_id = "fc_"@ + hex(stamps[item_pos] as nat);
        let rest = calls_part(calls.drop_first(), (idx + 1) as u64, stamps, item_pos + 1);
        (
            call_events(item_id, idx, call_name(c), call_arguments(c), call_id) + rest.0,
            seq![call_item(item_id, "completed"@, call_name(c), call_arguments(c), call_id)] + rest.1,
        )
    }
}

/// How many id stamps the synthesis of a reply uses.
pub open spec fn stamps_needed(chat: JsonV) -> nat {
    1 + (if reply_reasoning(chat).len() > 0 {
        1nat
    } else {
        0nat
    }) + (if reply_text(chat).len() > 0 {
        1nat
    } else {
        0nat
    }) + calls_stamps(reply_calls(chat))
}

/// `usage` in Responses form: input, output and total tokens.
pub open spec fn usage_of(usage: JsonV) -> JsonV {
    let input = match jget_u64(usage, "prompt_tokens"@) {
        Some(n) => n,
        None => 0,
    };
    let output = match jget_u64(usage, "completion_tokens"@) {
        Some(n) => n,
        None => 0,
    };
    let total = match jget_u64(usage, "total_tokens"@) {
        Some(n) => n,
        None => ((input + output) % 0x1_0000_0000_0000_0000) as u64,
    };
    JsonV::Object(
        seq![
            ("input_tokens"@, JsonV::UInt(input)),
            ("output_tokens"@, JsonV::UInt(output)),
            ("total_tokens"@, JsonV::UInt(total)),
        ],
    )
}

/// The Responses stream events for a chat completion: created and
/// in-progress; the provider's reasoning as one reasoning item (when there is
/// reasoning); the text as one message item (when there is text); each tool
/// call as one function-call item; and completed, listing the items and the
/// token usage (when the provider reported it). `stamps` are the clock
/// readings from which the ids are made, in the order they are drawn.
pub open spec fn response_events(chat: JsonV, model: Seq<char>, created: u64, stamps: Seq<u128>) -> Seq<JsonV> {
    let response_id = "resp_"@ + hex(stamps[0] as nat);
    let reasoning = reply_reasoning(chat);
    let has_reasoning = reasoning.len() > 0;
    let rn: u64 = if has_reasoning {
        1
    } else {
        0
    };
    let text = reply_text(chat);
    let has_text = text.len() > 0;
    let tn: u64 = if has_text {
        1
    } else {
        0
    };
    let reasoning_id = "rs_"@ + hex(stamps[1] as nat);
    let text_id = "msg_"@ + hex(stamps[1 + rn] as nat);
    let head = seq![
        JsonV::Object(
            seq![
                ("type"@, jstr("response.created"@)),
                ("response"@, base_response(response_id, created, "in_progress"@, model, Seq::empty())),
            ],
        ),
        JsonV::Object(
            seq![
                ("type"@, jstr("response.in_progress"@)),
                ("response"@, base_response(response_id, created, "in_progress"@, model, Seq::empty())),
            ],
        ),
    ];
    let reasoning_ev = if has_reasoning {
        reasoning_events(reasoning_id, 0, reasoning)
    } else {
        Seq::empty()
    };
    let reasoning_items = if has_reasoning {
        seq![reasoning_item(reasoning_id, reasoning)]
    } else {
        Seq::empty()
    };
    let text_ev = if has_text {
        text_events(text_id, rn, text)
    } else {
        Seq::empty()
    };
    let text_items = if has_text {
        seq![text_item(text_id, text)]
    } else {
        Seq::empty()
    };
    let calls = calls_part(reply_calls(chat), (rn + tn) as u64, stamps, 1 + rn + tn);
    let done0 = base_response(response_id, created, "completed"@, model, reasoning_items + text_items + calls.1);
    let done = match jget(chat, "usage"@) {
        Some(u) => jset(done0, "usage"@, usage_of(u)),
        None => done0,
    };
    head + reasoning_ev + text_ev + calls.0 + seq![
        JsonV::Object(seq![("type"@, jstr("response.completed"@)), ("response"@, done)]),
    ]
}

fn prefixed_hex(prefix: &str, n: u128) -> (r: String)
    ensures
        r@ == prefix@ + hex(n as nat),
{
    let mut out = chars_of(prefix);
    let h = hex_exec(n);
    extend_chars(&mut out, &h);
    string_of(&out)
}

fn empty_array_exec() -> (r: Json)
    ensures
        r@ == empty_array(),
{
    let v: Vec<Json> = Vec::new();
    let r = arr(v);
    assert(items_view(v@) =~= Seq::<JsonV>::empty());
    r
}

fn base_response_exec(id: &String, created: u64, status: &str, model: &str, output: Vec<Json>) -> (r: Json)
    ensures
        r@ == base_response(id@, created, status@, model@, items_view(output@)),
{
    obj6(
        "id",
        str_json(id),
        "object",
        Json::string("response"),
        "created_at",
        Json::UInt(created),
        "status",
        Json::string(status),
        "model",
        Json::string(model),
        "output",
        arr(output),
    )
}

fn text_part_exec(text: &String) -> (r: Json)
    ensures
        r@ == text_part(text@),
{
    obj3("type", Json::string("output_text"), "text", str_json(text), "annotations", empty_array_exec())
}

fn text_item_exec(item_id: &String, text: &String) -> (r: Json)
    ensures
        r@ == text_item(item_id@, text@),
{
    obj5(
        "id",
        str_json(item_id),
        "type",
        Json::string("message"),
        "status",
        Json::string("completed"),
        "role",
        Json::string("assistant"),
        "content",
        arr1(text_part_exec(text)),
    )
}

fn text_events_exec(item_id: &String, idx: u64, text: &String) -> (r: Vec<Json>)
    ensures
        items_view(r@) == text_events(item_id@, idx, text@),
{
    let e1 = obj3(
        "type",
        Json::string("response.output_item.added"),
        "output_index",
        Json::UInt(idx),
        "item",
        obj5(
            "id",
            str_json(item_id),
            "type",
            Json::string("message"),
            "status",
            Json::string("in_progress"),
            "role",
            Json::string("assistant"),
            "content",
            empty_array_exec(),
        ),
    );
    let empty = String::new();
    let e2 = obj5(
        "type",
        Json::string("response.content_part.added"),
        "item_id",
        str_json(item_id),
        "output_index",
        Json::UInt(idx),
        "content_index",
        Json::UInt(0),
        "part",
        text_part_exec(&empty),
    );
    let e3 = obj5(
        "type",
        Json::string("response.output_text.delta"),
        "item_id",
        str_json(item_id),
        "output_index",
        Json::UInt(idx),
        "content_index",
        Json::UInt(0),
        "delta",
        str_json(text),
    );
    let e4 = obj5(
        "type",
        Json::string("response.output_text.done"),
        "item_id",
        str_json(item_id),
        "output_index",
        Json::UInt(idx),
        "content_index",
        Json::UInt(0),
        "text",
        str_json(text),
    );
    let e5 = obj5(
        "type",
        Json::string("response.content_part.done"),
        "item_id",
        str_json(item_id),
        "output_index",
        Json::UInt(idx),
        "content_index",
        Json::UInt(0),
        "part",
        text_part_exec(text),
    );
    let e6 = obj3(
        "type",
        Json::string("response.output_item.done"),
        "output_index",
        Json::UInt(idx),
        "item",
        text_item_exec(item_id, text),
    );
    let ghost w = seq![e1@, e2@, e3@, e4@, e5@, e6@];
    let mut v: Vec<Json> = Vec::new();
    v.push(e1);
    v.push(e2);
    v.push(e3);
    v.push(e4);
    v.push(e5);
    v.push(e6);
    assert(items_view(v@) =~= w);
    assert(w =~= text_events(item_id@, idx, text@));
    v
}

fn summary_part_exec(text: &String) -> (r: Json)
    ensures
        r@ == summary_part(text@),
{
    obj2("type", Json::string("summary_text"), "text", str_json(text))
}

fn reasoning_item_exec(item_id: &String, text: &String) -> (r: Json)
    ensures
        r@ == reasoning_item(item_id@, text@),
{
    obj3("id", str_json(item_id), "type", Json::string("reasoning"), "summary", arr1(summary_part_exec(text)))
}

fn reasoning_events_exec(item_id: &String, idx: u64, text: &String) -> (r: Vec<Json>)
    ensures
        items_view(r@) == reasoning_events(item_id@, idx, text@),
{
    let e1 = obj3(
        "type",
        Json::string("response.output_item.added"),
        "output_index",
        Json::UInt(idx),
        "item",
        obj3("id", str_json(item_id), "type", Json::string("reasoning"), "summary", empty_array_exec()),
    );
    let empty = String::new();
    let e2 = obj5(
        "type",
        Json::string("response.reasoning_summary_part.added"),
        "item_id",
        str_json(item_id),
        "output_index",
        Json::UInt(idx),
        "summary_index",
        Json::UInt(0),
        "part",
        summary_part_exec(&empty),
    );
    let e3 = obj5(
        "type",
        Json::string("response.reasoning_summary_text.delta"),
        "item_id",
        str_json(item_id),
        "output_index",
        Json::UInt(idx),
        "summary_index",
        Json::UInt(0),
        "delta",
        str_json(text),
    );
    let e4 = obj5(
        "type",
        Json::string("response.reasoning_summary_text.done"),
        "item_id",
        str_json(item_id),
        "output_index",
        Json::UInt(idx),
        "summary_index",
        Json::UInt(0),
        "text",
        str_json(text),
    );
    let e5 = obj5(
        "type",
        Json::string("response.reasoning_summary_part.done"),
        "item_id",
        str_json(item_id),
        "output_index",
        Json::UInt(idx),
        "summary_index",
        Json::UInt(0),
        "part",
        summary_part_exec(text),
    );
    let e6 = obj3(
        "type",
        Json::string("response.output_item.done"),
        "output_index",
        Json::UInt(idx),
        "item",
        reasoning_item_exec(item_id, text),
    );
    let ghost w = seq![e1@, e2@, e3@, e4@, e5@, e6@];
    let mut v: Vec<Json> = Vec::new();
    v.push(e1);
    v.push(e2);
    v.push(e3);
    v.push(e4);
    v.push(e5);
    v.push(e6);
    assert(items_view(v@) =~= w);
    assert(w =~= reasoning_events(item_id@, idx, text@));
    v
}

fn call_item_exec(item_id: &String, status: &str, name: &String, arguments: &String, call_id: &String) -> (r: Json)
    ensures
        r@ == call_item(item_id@, status@, name@, arguments@, call_id@),
{
    obj6(
        "id",
        str_json(item_id),
        "type",
        Json::string("function_call"),
        "status",
        Json::string(status),
        "name",
        str_json(name),
        "arguments",
        str_json(arguments),
        "call_id",
        str_json(call_id),
    )
}

fn call_events_exec(item_id: &String, idx: u64, name: &String, arguments: &String, call_id: &String) -> (r: Vec<
    Json,
>)
    ensures
        items_view(r@) == call_events(item_id@, idx, name@, arguments@, call_id@),
{
    let empty = String::new();
    let e1 = obj3(
        "type",
        Json::string("response.output_item.added"),
        "output_index",
        Json::UInt(idx),
        "item",
        call_item_exec(item_id, "in_progress", name, &empty, call_id),
    );
    let e2 = obj4(
        "type",
        Json::string("response.function_call_arguments.delta"),
        "item_id",
        str_json(item_id),
        "output_index",
        Json::UInt(idx),
        "delta",
        str_json(arguments),
    );
    let e3 = obj4(
        "type",
        Json::string("response.function_call_arguments.done"),
        "item_id",
        str_json(item_id),
        "output_index",
        Json::UInt(idx),
        "arguments",
        str_json(arguments),
    );
    let e4 = obj3(
        "type",
        Json::string("response.output_item.done"),
        "output_index",
        Json::UInt(idx),
        "item",
        call_item_exec(item_id, "completed", name, arguments, call_id),
    );
    let ghost w = seq![e1@, e2@, e3@, e4@];
    let mut v: Vec<Json> = Vec::new();
    v.push(e1);
    v.push(e2);
    v.push(e3);
    v.push(e4);
    assert(items_view(v@) =~= w);
    assert(w =~= call_events(item_id@, idx, name@, arguments@, call_id@));
    v
}

/// Token usage in Responses form.
pub fn convert_usage(usage: &Json) -> (r: Json)
    ensures
        r@ == usage_of(usage@),
{
    let input = match usage.get("prompt_tokens") {
        Some(x) => match x.as_u64() {
            Some(n) => n,
            None => 0,
        },
        None => 0,
    };
    let output = match usage.get("completion_tokens") {
        Some(x) => match x.as_u64() {
            Some(n) => n,
            None => 0,
        },
        None => 0,
    };
    let fallback = input.wrapping_add(output);
    let total = match usage.get("total_tokens") {
        Some(x) => match x.as_u64() {
            Some(n) => n,
            None => fallback,
        },
        None => fallback,
    };
    obj3("input_tokens", Json::UInt(input), "output_tokens", Json::UInt(output), "total_tokens", Json::UInt(total))
}

fn opt_get_str_exec<'a>(v: Option<&'a Json>, key: &str) -> (r: Option<&'a String>)
    ensures
        match r {
            Some(s) => opt_get_str(
                match v {
                    Some(x) => Some(x@),
                    None => None,
                },
                key@,
            ) == Some(s@),
            None => opt_get_str(
                match v {
                    Some(x) => Some(x@),
                    None => None,
                },
                key@,
            ) is None,
        },
{
    match v {
        Some(x) => get_str(x, key),
        None => None,
    }
}

fn reply_message_exec(chat: &Json) -> (r: Option<&Json>)
    ensures
        match r {
            Some(m) => reply_message(chat@) == Some(m@),
            None => reply_message(chat@) is None,
        },
{
    match get_array(chat, "choices") {
        Some(choices) => if choices.len() > 0 {
            assert(items_view(choices@)[0] == choices@[0]@);
            choices[0].get("message")
        } else {
            None
        },
        None => None,
    }
}

/// The Responses stream events for a chat completion (see
/// `response_events`), with ids made from the given clock readings.
pub fn chat_to_responses_events_at(chat: &Json, model: &str, created_at: u64, stamps: &Vec<u128>) -> (r: Vec<Json>)
    requires
        stamps.len() >= stamps_needed(chat@),
    ensures
        items_view(r@) == response_events(chat@, model@, created_at, stamps@),
{
    let response_id = prefixed_hex("resp_", stamps[0]);
    let message = reply_message_exec(chat);
    let text = match opt_get_str_exec(message, "content") {
        Some(t) => copy_string(t),
        None => String::new(),
    };
    assert(text@ == reply_text(chat@));
    let empty_calls: Vec<Json> = Vec::new();
    let calls: &Vec<Json> = match message {
        Some(m) => match get_array(m, "tool_calls") {
            Some(c) => c,
            None => &empty_calls,
        },
        None => &empty_calls,
    };
    let ghost cv = items_view(calls@);
    assert(cv =~= reply_calls(chat@));
    let mut events: Vec<Json> = Vec::new();
    let empty1: Vec<Json> = Vec::new();
    let empty2: Vec<Json> = Vec::new();
    assert(items_view(empty1@) =~= Seq::<JsonV>::empty());
    assert(items_view(empty2@) =~= Seq::<JsonV>::empty());
    events.push(
        obj2(
            "type",
            Json::string("response.created"),
            "response",
            base_response_exec(&response_id, created_at, "in_progress", model, empty1),
        ),
    );
    events.push(
        obj2(
            "type",
            Json::string("response.in_progress"),
            "response",
            base_response_exec(&response_id, created_at, "in_progress", model, empty2),
        ),
    );
    let ghost head = items_view(events@);
    let mut output_items: Vec<Json> = Vec::new();
    let reasoning = match opt_get_str_exec(message, "reasoning_content") {
        Some(t) => copy_string(t),
        None => String::new(),
    };
    assert(reasoning@ == reply_reasoning(chat@));
    let has_reasoning = chars_of(reasoning.as_str()).len() > 0;
    let has_text = chars_of(text.as_str()).len() > 0;
    let mut idx: u64 = 0;
    let mut pos: usize = 1;
    if has_reasoning {
        let item_id = prefixed_hex("rs_", stamps[1]);
        let mut re = reasoning_events_exec(&item_id, 0, &reasoning);
        let ghost re_v = items_view(re@);
        events.append(&mut re);
        let ri = reasoning_item_exec(&item_id, &reasoning);
        let ghost ri_v = ri@;
        output_items.push(ri);
        assert(items_view(events@) =~= head + re_v);
        assert(items_view(output_items@) =~= seq![ri_v]);
        idx = 1;
        pos = 2;
    } else {
        assert(items_view(output_items@) =~= Seq::<JsonV>::empty());
        assert(head =~= head + Seq::<JsonV>::empty());
    }
    let ghost mid = items_view(events@);
    let ghost mid_items = items_view(output_items@);
    if has_text {
        let item_id = prefixed_hex("msg_", stamps[pos]);
        let mut te = text_events_exec(&item_id, idx, &text);
        let ghost te_v = items_view(te@);
        events.append(&mut te);
        let ti = text_item_exec(&item_id, &text);
        let ghost ti_v = ti@;
        output_items.push(ti);
        assert(items_view(events@) =~= mid + te_v);
        assert(items_view(output_items@) =~= mid_items + seq![ti_v]);
        idx = idx + 1;
        pos = pos + 1;
    } else {
        assert(mid =~= mid + Seq::<JsonV>::empty());
        assert(mid_items =~= mid_items + Seq::<JsonV>::empty());
    }
    proof {
        lemma_calls_stamps_len(cv);
    }
    let ghost prefix_events = items_view(events@);
    let ghost prefix_items = items_view(output_items@);
    let ghost idx0 = idx;
    let ghost pos0 = pos;
    let mut call_ev: Vec<Json> = Vec::new();
    let mut call_items: Vec<Json> = Vec::new();
    let mut i: usize = 0;
    assert(cv.skip(0) == cv);
    assert(items_view(call_ev@) =~= Seq::<JsonV>::empty());
    assert(items_view(call_items@) =~= Seq::<JsonV>::empty());
    while i < calls.len()
        invariant
            i <= calls.len(),
            cv == items_view(calls@),
            idx == idx0 + i,
            idx0 <= 2,
            idx0 + 1 == pos0,
            pos0 + cv.len() <= stamps.len(),
            pos0 + calls_stamps(cv) <= stamps.len(),
            pos + calls_stamps(cv.skip(i as int)) <= stamps.len(),
            calls_part(cv, idx0, stamps@, pos0 as int) == (
                items_view(call_ev@) + calls_part(cv.skip(i as int), idx, stamps@, pos as int).0,
                items_view(call_items@) + calls_part(cv.skip(i as int), idx, stamps@, pos as int).1,
            ),
        decreases calls.len() - i,
    {
        let ghost rest = cv.skip(i as int);
        let ghost p0 = pos as int;
        assert(rest[0] == calls@[i as int]@);
        assert(rest.drop_first() == cv.skip(i + 1));
        let call = &calls[i];
        let function = call.get("function");
        let name = match opt_get_str_exec(function, "name") {
            Some(n) => copy_string(n),
            None => String::new(),
        };
        let arguments = match opt_get_str_exec(function, "arguments") {
            Some(a) => copy_string(a),
            None => String::new(),
        };
        let call_id = match get_str(call, "id") {
            Some(id) => copy_string(id),
            None => {
                let c = prefixed_hex("call_", stamps[pos]);
                pos = pos + 1;
                c
            },
        };
        let item_id = prefixed_hex("fc_", stamps[pos]);
        let mut ce = call_events_exec(&item_id, idx, &name, &arguments, &call_id);
        let ghost old_ev = items_view(call_ev@);
        let ghost old_items = items_view(call_items@);
        let ghost ce_v = items_view(ce@);
        call_ev.append(&mut ce);
        let it = call_item_exec(&item_id, "completed", &name, &arguments, &call_id);
        let ghost it_v = it@;
        call_items.push(it);
        proof {
            assert(items_view(call_ev@) =~= old_ev + ce_v);
            assert(items_view(call_items@) =~= old_items.push(it_v));
            let nxt = calls_part(cv.skip(i + 1), (idx + 1) as u64, stamps@, pos + 1);
            assert(calls_part(rest, idx, stamps@, p0) == (ce_v + nxt.0, seq![it_v] + nxt.1));
        }
        pos = pos + 1;
        idx = idx + 1;
        i = i + 1;
        proof {
            assert(items_view(call_ev@) + calls_part(cv.skip(i as int), idx, stamps@, pos as int).0 =~= calls_part(cv, idx0, stamps@, pos0 as int).0);
            assert(items_view(call_items@) + calls_part(cv.skip(i as int), idx, stamps@, pos as int).1 =~= calls_part(cv, idx0, stamps@, pos0 as int).1);
        }
    }
    assert(cv.skip(calls.len() as int) =~= Seq::<JsonV>::empty());
    let ghost parts = calls_part(cv, idx0, stamps@, pos0 as int);
    assert(items_view(call_ev@) =~= parts.0);
    assert(items_view(call_items@) =~= parts.1);
    let ghost ev_before = items_view(events@);
    let ghost it_before = items_view(output_items@);
    events.append(&mut call_ev);
    output_items.append(&mut call_items);
    assert(items_view(events@) =~= ev_before + parts.0);
    assert(items_view(output_items@) =~= it_before + parts.1);
    let mut completed = base_response_exec(&response_id, created_at, "completed", model, output_items);
    if let Some(u) = chat.get("usage") {
        completed.set("usage", convert_usage(u));
    }
    events.push(obj2("type", Json::string("response.completed"), "response", completed));
    events
}


fn stamps_needed_exec(chat: &Json) -> (r: u128)
    ensures
        r == stamps_needed(chat@),
{
    let message = reply_message_exec(chat);
    let text_len = match opt_get_str_exec(message, "content") {
        Some(t) => chars_of(t.as_str()).len(),
        None => 0,
    };
    let reasoning_len = match opt_get_str_exec(message, "reasoning_content") {
        Some(t) => chars_of(t.as_str()).len(),
        None => 0,
    };
    let empty_calls: Vec<Json> = Vec::new();
    let calls: &Vec<Json> = match message {
        Some(m) => match get_array(m, "tool_calls") {
            Some(c) => c,
            None => &empty_calls,
        },
        None => &empty_calls,
    };
    let ghost cv = items_view(calls@);
    assert(cv =~= reply_calls(chat@));
    let mut n: u128 = 0;
    let mut i: usize = calls.len();
    assert(cv.skip(cv.len() as int) =~= Seq::<JsonV>::empty());
    while i > 0
        invariant
            i <= calls.len(),
            cv == items_view(calls@),
            n == calls_stamps(cv.skip(i as int)),
            n <= 2 * (calls.len() - i),
        decreases i,
    {
        let ghost rest = cv.skip(i - 1);
        assert(rest[0] == calls@[i - 1]@);
        assert(rest.drop_first() == cv.skip(i as int));
        let has_id = get_str(&calls[i - 1], "id").is_some();
        n = n + if has_id {
            1
        } else {
            2
        };
        i = i - 1;
    }
    assert(cv.skip(0) == cv);
    1 + (if reasoning_len > 0 {
        1
    } else {
        0
    }) + (if text_len > 0 {
        1
    } else {
        0
    }) + n
}

/// The Responses stream events for a chat completion, with ids made from the
/// clock. Whatever the clock reads, the events are those of
/// `response_events` for some creation time and id stamps.
pub fn chat_to_responses_events(chat: &Json, model: &str) -> (r: Vec<Json>)
    ensures
        exists|created: u64, stamps: Seq<u128>|
            stamps.len() >= stamps_needed(chat@) && items_view(r@) == response_events(chat@, model@, created, stamps),
{
    let needed = stamps_needed_exec(chat);
    let first = now_nanos();
    let created_at = now_secs();
    let mut stamps: Vec<u128> = Vec::new();
    stamps.push(first);
    while (stamps.len() as u128) < needed
        invariant
            needed == stamps_needed(chat@),
            stamps.len() >= 1,
        decreases needed - stamps.len(),
    {
        stamps.push(now_nanos());
    }
    let r = chat_to_responses_events_at(chat, model, created_at, &stamps);
    assert(stamps@.len() >= stamps_needed(chat@) && items_view(r@) == response_events(chat@, model@, created_at, stamps@));
    r
}

// ---------------------------------------------------------------------------
// Forwarding
// ---------------------------------------------------------------------------

/// The model sent upstream: the provider's configured model, or the model
/// Codex asked for when none is configured ("unknown" without either).
pub open spec fn effective_model_of(configured: Seq<char>, request: JsonV) -> Seq<char> {
    if configured.len() == 0 {
        match jget_str(request, "model"@) {
            Some(m) => m,
            None => "unknown"@,
        }
    } else {
        configured
    }
}

/// The upstream Chat Completions endpoint for a base URL.
pub open spec fn chat_endpoint_of(base_url: Seq<char>) -> Seq<char> {
    trim_end_char(base_url, '/') + "/chat/completions"@
}

pub fn chat_endpoint(base_url: &str) -> (r: String)
    ensures
        r@ == chat_endpoint_of(base_url@),
{
    let mut out = trim_end_char_exec(&chars_of(base_url), '/');
    extend_str(&mut out, "/chat/completions");
    string_of(&out)
}

/// What is forwarded for a Responses request to a provider whose configured
/// model is `configured`: the Chat request with its model forced, and that
/// model.
pub fn forward_request(request: &Json, configured: &str) -> (r: (Json, String))
    ensures
        r.1@ == effective_model_of(configured@, request@),
        r.0@ == jset(chat_request(request@), "model"@, JsonV::Str(effective_model_of(configured@, request@))),
{
    let mut chat = responses_to_chat(request);
    let model = if chars_of(configured).len() == 0 {
        match get_str(request, "model") {
            Some(m) => copy_string(m),
            None => string_of(&chars_of("unknown")),
        }
    } else {
        string_of(&chars_of(configured))
    };
    chat.set("model", str_json(&model));
    (chat, model)
}

/// The body of an error reply: `{"error": {"message": ...}}`.
pub fn error_body(message: &str) -> (r: Json)
    ensures
        r@ == JsonV::Object(seq![("error"@, JsonV::Object(seq![("message"@, JsonV::Str(message@))]))]),
{
    obj1("error", obj1("message", Json::string(message)))
}

// ---------------------------------------------------------------------------
// Laws
// ---------------------------------------------------------------------------

proof fn lemma_copy_member_keeps(chat: JsonV, request: JsonV, from: Seq<char>, to: Seq<char>, key: Seq<char>)
    requires
        chat is Object,
        to != key,
    ensures
        copy_member(chat, request, from, to) is Object,
        jget(copy_member(chat, request, from, to), key) == jget(chat, key),
{
    if let Some(v) = jget(request, from) {
        crate::json::jset_then_jget(chat, to, v, key);
    }
}

/// The proxy asks the upstream for one complete reply, never for a stream,
/// and always names the model it settled on; a provider with a configured
/// model always gets that model, whatever Codex asked for.
pub proof fn forwarded_request_is_plain(request: JsonV, configured: Seq<char>)
    ensures
        jget(
            jset(chat_request(request), "model"@, JsonV::Str(effective_model_of(configured, request))),
            "stream"@,
        ) == Some(JsonV::Bool(false)),
        jget(
            jset(chat_request(request), "model"@, JsonV::Str(effective_model_of(configured, request))),
            "model"@,
        ) == Some(JsonV::Str(effective_model_of(configured, request))),
        configured.len() > 0 ==> effective_model_of(configured, request) == configured,
{
    reveal_strlit("model");
    reveal_strlit("messages");
    reveal_strlit("stream");
    reveal_strlit("tools");
    reveal_strlit("tool_choice");
    reveal_strlit("temperature");
    reveal_strlit("top_p");
    reveal_strlit("max_tokens");
    let base = chat_base(request);
    let bm = match base {
        JsonV::Object(m) => m,
        _ => Seq::empty(),
    };
    assert("model"@.len() == 5 && "messages"@.len() == 8 && "stream"@.len() == 6);
    assert(bm.len() == 3);
    assert(bm[0].0 != "stream"@ && bm[1].0 != "stream"@ && bm[2].0 == "stream"@);
    assert(bm.drop_first()[0].0 != "stream"@);
    assert(bm.drop_first().drop_first()[0].0 == "stream"@);
    assert(find_key(bm.drop_first().drop_first(), "stream"@) == 0);
    assert(find_key(bm.drop_first(), "stream"@) == 1);
    assert(find_key(bm, "stream"@) == 2);
    assert(jget(base, "stream"@) == Some(JsonV::Bool(false)));
    let with_tools = match jget_array(request, "tools"@) {
        Some(tools) => if converted_tools(tools).len() > 0 {
            jset(base, "tools"@, JsonV::Array(converted_tools(tools)))
        } else {
            base
        },
        None => base,
    };
    if let Some(tools) = jget_array(request, "tools"@) {
        crate::json::jset_then_jget(base, "tools"@, JsonV::Array(converted_tools(tools)), "stream"@);
    }
    assert(jget(with_tools, "stream"@) == Some(JsonV::Bool(false)));
    lemma_copy_member_keeps(with_tools, request, "tool_choice"@, "tool_choice"@, "stream"@);
    let c1 = copy_member(with_tools, request, "tool_choice"@, "tool_choice"@);
    lemma_copy_member_keeps(c1, request, "temperature"@, "temperature"@, "stream"@);
    let c2 = copy_member(c1, request, "temperature"@, "temperature"@);
    lemma_copy_member_keeps(c2, request, "top_p"@, "top_p"@, "stream"@);
    let c3 = copy_member(c2, request, "top_p"@, "top_p"@);
    lemma_copy_member_keeps(c3, request, "max_output_tokens"@, "max_tokens"@, "stream"@);
    let chat = chat_request(request);
    assert(jget(chat, "stream"@) == Some(JsonV::Bool(false)));
    crate::json::jset_then_jget(chat, "model"@, JsonV::Str(effective_model_of(configured, request)), "stream"@);
}

/// Codex always sees a whole response: the events open with
/// `response.created` and `response.in_progress` and close with
/// `response.completed`, whose response is marked completed.
pub proof fn events_open_and_close(chat: JsonV, model: Seq<char>, created: u64, stamps: Seq<u128>)
    ensures
        ({
            let ev = response_events(chat, model, created, stamps);
            &&& ev.len() >= 3
            &&& jget_str(ev[0], "type"@) == Some("response.created"@)
            &&& jget_str(ev[1], "type"@) == Some("response.in_progress"@)
            &&& jget_str(ev.last(), "type"@) == Some("response.completed"@)
        }),
{
    reveal_strlit("type");
    let ev = response_events(chat, model, created, stamps);
    assert(ev[0] == JsonV::Object(
        seq![
            ("type"@, jstr("response.created"@)),
            ("response"@, base_response("resp_"@ + hex(stamps[0] as nat), created, "in_progress"@, model, Seq::empty())),
        ],
    ));
}


proof fn lemma_find_key_at(m: Seq<(Seq<char>, JsonV)>, key: Seq<char>, i: int)
    requires
        0 <= i < m.len(),
        m[i].0 == key,
        forall|j: int| 0 <= j < i ==> m[j].0 != key,
    ensures
        find_key(m, key) == i,
    decreases i,
{
    if i > 0 {
        assert(m[0].0 != key);
        lemma_find_key_at(m.drop_first(), key, i - 1);
    }
}

proof fn lemma_response_output(id: Seq<char>, created: u64, status: Seq<char>, model: Seq<char>, out: Seq<JsonV>)
    ensures
        jget(base_response(id, created, status, model, out), "output"@) == Some(JsonV::Array(out)),
{
    reveal_strlit("id");
    reveal_strlit("object");
    reveal_strlit("created_at");
    reveal_strlit("status");
    reveal_strlit("model");
    reveal_strlit("output");
    let k = "output"@;
    let m0 = seq![
        ("id"@, jstr(id)),
        ("object"@, jstr("response"@)),
        ("created_at"@, JsonV::UInt(created)),
        ("status"@, jstr(status)),
        ("model"@, jstr(model)),
        ("output"@, JsonV::Array(out)),
    ];
    let m1 = m0.drop_first();
    let m2 = m1.drop_first();
    let m3 = m2.drop_first();
    let m4 = m3.drop_first();
    let m5 = m4.drop_first();
    assert(m0[0].0 != k) by {
        assert(m0[0].0.len() != k.len());
    }
    assert(m1[0].0 != k) by {
        assert(m1[0].0[1] != k[1]);
    }
    assert(m2[0].0 != k) by {
        assert(m2[0].0.len() != k.len());
    }
    assert(m3[0].0 != k) by {
        assert(m3[0].0[0] != k[0]);
    }
    assert(m4[0].0 != k) by {
        assert(m4[0].0.len() != k.len());
    }
    assert(m5[0].0 == k);
    assert(find_key(m5, k) == 0);
    assert(find_key(m4, k) == 1);
    assert(find_key(m3, k) == 2);
    assert(find_key(m2, k) == 3);
    assert(find_key(m1, k) == 4);
    assert(find_key(m0, k) == 5);
}

/// The provider's reasoning reaches Codex: when the reply holds reasoning,
/// it is streamed first, as the summary of a reasoning item, and the
/// completed response lists that item first among its output.
pub proof fn reasoning_reaches_codex(chat: JsonV, model: Seq<char>, created: u64, stamps: Seq<u128>)
    requires
        reply_reasoning(chat).len() > 0,
    ensures
        ({
            let ev = response_events(chat, model, created, stamps);
            let item = reasoning_item("rs_"@ + hex(stamps[1] as nat), reply_reasoning(chat));
            &&& ev.len() >= 9
            &&& jget_str(ev[4], "type"@) == Some("response.reasoning_summary_text.delta"@)
            &&& jget_str(ev[4], "delta"@) == Some(reply_reasoning(chat))
            &&& jget(ev[7], "item"@) == Some(item)
            &&& (jget(ev.last(), "response"@) matches Some(done) && jget_array(done, "output"@) matches Some(out)
                && out.len() >= 1 && out[0] == item)
        }),
{
    reveal_strlit("type");
    reveal_strlit("item_id");
    reveal_strlit("output_index");
    reveal_strlit("summary_index");
    reveal_strlit("delta");
    reveal_strlit("item");
    reveal_strlit("response");
    reveal_strlit("usage");
    reveal_strlit("output");
    reveal_with_fuel(find_key, 5);
    let ev = response_events(chat, model, created, stamps);
    let r = reply_reasoning(chat);
    let rid = "rs_"@ + hex(stamps[1] as nat);
    let rev = reasoning_events(rid, 0, r);
    assert(ev[4] == rev[2]);
    assert(ev[7] == rev[5]);
    let text = reply_text(chat);
    let tn: u64 = if text.len() > 0 {
        1
    } else {
        0
    };
    let text_id = "msg_"@ + hex(stamps[2int] as nat);
    let text_items = if text.len() > 0 {
        seq![text_item(text_id, text)]
    } else {
        Seq::empty()
    };
    let calls = calls_part(reply_calls(chat), (1 + tn) as u64, stamps, 1 + 1 + tn);
    let out = seq![reasoning_item(rid, r)] + text_items + calls.1;
    let response_id = "resp_"@ + hex(stamps[0] as nat);
    let done0 = base_response(response_id, created, "completed"@, model, out);
    lemma_response_output(response_id, created, "completed"@, model, out);
    let done = match jget(chat, "usage"@) {
        Some(u) => jset(done0, "usage"@, usage_of(u)),
        None => done0,
    };
    assert("output"@ != "usage"@) by {
        assert("output"@.len() != "usage"@.len());
    }
    if let Some(u) = jget(chat, "usage"@) {
        jset_then_jget(done0, "usage"@, usage_of(u), "output"@);
        assert(jget(done, "output"@) == jget(done0, "output"@));
    }
    assert(ev == seq![
        JsonV::Object(
            seq![
                ("type"@, jstr("response.created"@)),
                ("response"@, base_response(response_id, created, "in_progress"@, model, Seq::empty())),
            ],
        ),
        JsonV::Object(
            seq![
                ("type"@, jstr("response.in_progress"@)),
                ("response"@, base_response(response_id, created, "in_progress"@, model, Seq::empty())),
            ],
        ),
    ] + rev + (if text.len() > 0 { text_events(text_id, 1, text) } else { Seq::empty() }) + calls.0 + seq![
        JsonV::Object(seq![("type"@, jstr("response.completed"@)), ("response"@, done)]),
    ]);
    assert(jget(done, "output"@) == Some(JsonV::Array(out)));
    assert(ev.last() == JsonV::Object(seq![("type"@, jstr("response.completed"@)), ("response"@, done)]));
    assert(out[0] == reasoning_item(rid, r));
    assert(ev.len() >= 9);
    assert(jget_str(ev[4], "type"@) == Some("response.reasoning_summary_text.delta"@));
    reveal_strlit("summary_index");
    if let JsonV::Object(m) = ev[4] {
        assert(m[0].0.len() != "delta"@.len() && m[1].0.len() != "delta"@.len());
        assert(m[2].0.len() != "delta"@.len() && m[3].0.len() != "delta"@.len());
        lemma_find_key_at(m, "delta"@, 4);
    }
    if let JsonV::Object(m) = ev[7] {
        assert(m[0].0[0] != "item"@[0]);
        assert(m[1].0.len() != "item"@.len());
        lemma_find_key_at(m, "item"@, 2);
    }
    assert(jget_str(ev[4], "delta"@) == Some(r));
    assert(jget(ev[7], "item"@) == Some(reasoning_item(rid, r)));
    assert(jget(ev.last(), "response"@) == Some(done));
}

/// The call id a tool call is answered under: its own id when it has one.
pub open spec fn keeps_call_id(call: JsonV, item: JsonV) -> bool {
    exists|item_id: Seq<char>, call_id: Seq<char>|
        item == call_item(item_id, "completed"@, call_name(call), call_arguments(call), call_id) && (jget_str(
            call,
            "id"@,
        ) matches Some(id) ==> call_id == id)
}

/// Every tool call of a reply becomes one completed function-call item of
/// the response, in order, with the call's name and arguments and, when the
/// provider gave the call an id, that id.
pub proof fn tool_calls_become_items(calls: Seq<JsonV>, idx: u64, stamps: Seq<u128>, pos: int)
    ensures
        calls_part(calls, idx, stamps, pos).1.len() == calls.len(),
        forall|i: int| 0 <= i < calls.len() ==> keeps_call_id(calls[i], #[trigger] calls_part(calls, idx, stamps, pos).1[i]),
    decreases calls.len(),
{
    if calls.len() > 0 {
        let c = calls[0];
        let call_id = match jget_str(c, "id"@) {
            Some(id) => id,
            None => "call_"@ + hex(stamps[pos] as nat),
        };
        let item_pos = if jget_str(c, "id"@) is Some {
            pos
        } else {
            pos + 1
        };
        let item_id = "fc_"@ + hex(stamps[item_pos] as nat);
        tool_calls_become_items(calls.drop_first(), (idx + 1) as u64, stamps, item_pos + 1);
        let items = calls_part(calls, idx, stamps, pos).1;
        let rest = calls_part(calls.drop_first(), (idx + 1) as u64, stamps, item_pos + 1).1;
        assert(items == seq![call_item(item_id, "completed"@, call_name(c), call_arguments(c), call_id)] + rest);
        assert forall|i: int| 0 <= i < calls.len() implies keeps_call_id(calls[i], #[trigger] items[i]) by {
            if i == 0 {
                assert(items[0] == call_item(item_id, "completed"@, call_name(c), call_arguments(c), call_id));
            } else {
                assert(items[i] == rest[i - 1]);
                assert(calls[i] == calls.drop_first()[i - 1]);
            }
        }
    }
}

} // verus!
