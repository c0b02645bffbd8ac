use refill::json::Json;
use refill::proxy::{
    chat_endpoint, chat_to_responses_events, chat_to_responses_events_at, content_to_text, convert_tool,
    convert_usage, error_body, forward_request, output_to_text, responses_to_chat,
};

fn s(v: &str) -> Json {
    Json::Str(v.to_string())
}

fn obj(members: Vec<(&str, Json)>) -> Json {
    Json::Object(members.into_iter().map(|(k, v)| (k.to_string(), v)).collect())
}

fn at<'a>(v: &'a Json, key: &str) -> &'a Json {
    v.get(key).expect("member present")
}

fn idx(v: &Json, i: usize) -> &Json {
    &v.as_array().expect("array")[i]
}

fn text(v: &Json) -> &str {
    v.as_str().expect("string").as_str()
}

fn types(events: &[Json]) -> Vec<String> {
    events.iter().map(|e| text(at(e, "type")).to_string()).collect()
}

#[test]
fn translates_messages_and_instructions() {
    let request = obj(vec![
        ("model", s("deepseek-chat")),
        ("instructions", s("be nice")),
        (
            "input",
            Json::Array(vec![obj(vec![
                ("type", s("message")),
                ("role", s("user")),
                ("content", Json::Array(vec![obj(vec![("type", s("input_text")), ("text", s("hi"))])])),
            ])]),
        ),
    ]);
    let chat = responses_to_chat(&request);
    assert_eq!(text(at(&chat, "model")), "deepseek-chat");
    let messages = at(&chat, "messages");
    assert_eq!(text(at(idx(messages, 0), "role")), "system");
    assert_eq!(text(at(idx(messages, 0), "content")), "be nice");
    assert_eq!(text(at(idx(messages, 1), "role")), "user");
    assert_eq!(text(at(idx(messages, 1), "content")), "hi");
    assert!(matches!(at(&chat, "stream"), Json::Bool(false)));
}

#[test]
fn translates_function_call_round_trip() {
    let request = obj(vec![(
        "input",
        Json::Array(vec![
            obj(vec![
                ("type", s("function_call")),
                ("call_id", s("c1")),
                ("name", s("shell")),
                ("arguments", s("{\"cmd\":\"ls\"}")),
            ]),
            obj(vec![("type", s("function_call_output")), ("call_id", s("c1")), ("output", s("file.txt"))]),
        ]),
    )]);
    let chat = responses_to_chat(&request);
    let messages = at(&chat, "messages");
    let call = idx(at(idx(messages, 0), "tool_calls"), 0);
    assert_eq!(text(at(call, "id")), "c1");
    assert_eq!(text(at(at(call, "function"), "name")), "shell");
    assert_eq!(text(at(idx(messages, 1), "role")), "tool");
    assert_eq!(text(at(idx(messages, 1), "tool_call_id")), "c1");
    assert_eq!(text(at(idx(messages, 1), "content")), "file.txt");
}

#[test]
fn converts_responses_tool_format() {
    let tool = obj(vec![
        ("type", s("function")),
        ("name", s("shell")),
        ("description", s("run")),
        ("parameters", obj(vec![("type", s("object"))])),
    ]);
    let converted = convert_tool(&tool).unwrap();
    assert_eq!(text(at(&converted, "type")), "function");
    assert_eq!(text(at(at(&converted, "function"), "name")), "shell");
    assert_eq!(text(at(at(&converted, "function"), "description")), "run");
}

#[test]
fn synthesizes_text_event_sequence() {
    let chat = obj(vec![
        (
            "choices",
            Json::Array(vec![obj(vec![(
                "message",
                obj(vec![("role", s("assistant")), ("content", s("Hello world"))]),
            )])]),
        ),
        (
            "usage",
            obj(vec![
                ("prompt_tokens", Json::UInt(3)),
                ("completion_tokens", Json::UInt(2)),
                ("total_tokens", Json::UInt(5)),
            ]),
        ),
    ]);
    let events = chat_to_responses_events(&chat, "deepseek-chat");
    let types = types(&events);
    assert_eq!(types.first().map(String::as_str), Some("response.created"));
    assert!(types.iter().any(|t| t == "response.output_text.delta"));
    assert!(types.iter().any(|t| t == "response.output_item.done"));
    assert_eq!(types.last().map(String::as_str), Some("response.completed"));

    let delta = events.iter().find(|e| text(at(e, "type")) == "response.output_text.delta").unwrap();
    assert_eq!(text(at(delta, "delta")), "Hello world");

    let completed = events.last().unwrap();
    let response = at(completed, "response");
    assert_eq!(text(at(response, "status")), "completed");
    assert_eq!(text(at(idx(at(idx(at(response, "output"), 0), "content"), 0), "text")), "Hello world");
    assert_eq!(at(at(response, "usage"), "input_tokens").as_u64(), Some(3));
}

#[test]
fn synthesizes_tool_call_events() {
    let chat = obj(vec![(
        "choices",
        Json::Array(vec![obj(vec![(
            "message",
            obj(vec![
                ("role", s("assistant")),
                ("content", Json::Null),
                (
                    "tool_calls",
                    Json::Array(vec![obj(vec![
                        ("id", s("call_1")),
                        ("type", s("function")),
                        ("function", obj(vec![("name", s("shell")), ("arguments", s("{\"cmd\":\"ls\"}"))])),
                    ])]),
                ),
            ]),
        )])]),
    )]);
    let events = chat_to_responses_events(&chat, "deepseek-chat");
    let types = types(&events);
    assert!(types.iter().any(|t| t == "response.function_call_arguments.done"));
    let done = events.iter().find(|e| text(at(e, "type")) == "response.output_item.done").unwrap();
    assert_eq!(text(at(at(done, "item"), "type")), "function_call");
    assert_eq!(text(at(at(done, "item"), "name")), "shell");
    assert_eq!(text(at(at(done, "item"), "call_id")), "call_1");
}

#[test]
fn event_ids_come_from_the_stamps() {
    let chat = obj(vec![(
        "choices",
        Json::Array(vec![obj(vec![("message", obj(vec![("content", s("hi"))]))])]),
    )]);
    let events = chat_to_responses_events_at(&chat, "m", 1700000000, &vec![0xab, 0xcd]);
    assert_eq!(events.len(), 9);
    let created = at(&events[0], "response");
    assert_eq!(text(at(created, "id")), "resp_ab");
    assert_eq!(at(created, "created_at").as_u64(), Some(1700000000));
    assert_eq!(text(at(created, "status")), "in_progress");
    assert_eq!(text(at(at(&events[2], "item"), "id")), "msg_cd");
    let last = at(&events[8], "response");
    assert!(last.get("usage").is_none());
}

#[test]
fn tool_calls_without_ids_get_generated_ones() {
    let chat = obj(vec![(
        "choices",
        Json::Array(vec![obj(vec![(
            "message",
            obj(vec![(
                "tool_calls",
                Json::Array(vec![obj(vec![("function", obj(vec![("name", s("f"))]))])]),
            )]),
        )])]),
    )]);
    let events = chat_to_responses_events_at(&chat, "m", 0, &vec![1, 2, 3]);
    let added = events.iter().find(|e| text(at(e, "type")) == "response.output_item.added").unwrap();
    let item = at(added, "item");
    assert_eq!(text(at(item, "call_id")), "call_2");
    assert_eq!(text(at(item, "id")), "fc_3");
    assert_eq!(text(at(item, "arguments")), "");
}

#[test]
fn usage_is_renamed_and_totalled() {
    let u = convert_usage(&obj(vec![("prompt_tokens", Json::UInt(7)), ("completion_tokens", Json::UInt(5))]));
    assert_eq!(at(&u, "input_tokens").as_u64(), Some(7));
    assert_eq!(at(&u, "output_tokens").as_u64(), Some(5));
    assert_eq!(at(&u, "total_tokens").as_u64(), Some(12));
    let u = convert_usage(&obj(vec![("total_tokens", Json::UInt(9))]));
    assert_eq!(at(&u, "input_tokens").as_u64(), Some(0));
    assert_eq!(at(&u, "total_tokens").as_u64(), Some(9));
}

#[test]
fn content_and_output_become_text() {
    let parts = Json::Array(vec![
        obj(vec![("type", s("input_text")), ("text", s("a"))]),
        obj(vec![("type", s("input_image"))]),
        obj(vec![("type", s("output_text")), ("text", s("b"))]),
    ]);
    assert_eq!(content_to_text(Some(&parts)), "ab");
    assert_eq!(content_to_text(Some(&s("plain"))), "plain");
    assert_eq!(content_to_text(None), "");
    assert_eq!(output_to_text(Some(&s("out"))), "out");
    assert_eq!(output_to_text(None), "");
}

#[test]
fn forwarding_forces_the_configured_model() {
    let request = obj(vec![("model", s("gpt-5.5")), ("input", s("hi"))]);
    let (body, model) = forward_request(&request, "deepseek-chat");
    assert_eq!(model, "deepseek-chat");
    assert_eq!(text(at(&body, "model")), "deepseek-chat");
    assert!(matches!(at(&body, "stream"), Json::Bool(false)));
    let (_, model) = forward_request(&request, "");
    assert_eq!(model, "gpt-5.5");
    let (_, model) = forward_request(&obj(vec![]), "");
    assert_eq!(model, "unknown");
}

#[test]
fn endpoints_and_errors() {
    assert_eq!(chat_endpoint("https://api.deepseek.com/v1//"), "https://api.deepseek.com/v1/chat/completions");
    let e = error_body("boom");
    assert_eq!(text(at(at(&e, "error"), "message")), "boom");
}

#[test]
fn reasoning_is_streamed_as_a_reasoning_item() {
    let chat = obj(vec![(
        "choices",
        Json::Array(vec![obj(vec![(
            "message",
            obj(vec![("role", s("assistant")), ("content", s("Hi")), ("reasoning_content", s("think first"))]),
        )])]),
    )]);
    let events = chat_to_responses_events_at(&chat, "m", 7, &vec![1, 2, 3]);
    let types = types(&events);
    assert_eq!(
        types,
        vec![
            "response.created",
            "response.in_progress",
            "response.output_item.added",
            "response.reasoning_summary_part.added",
            "response.reasoning_summary_text.delta",
            "response.reasoning_summary_text.done",
            "response.reasoning_summary_part.done",
            "response.output_item.done",
            "response.output_item.added",
            "response.content_part.added",
            "response.output_text.delta",
            "response.output_text.done",
            "response.content_part.done",
            "response.output_item.done",
            "response.completed",
        ]
    );
    assert_eq!(text(at(&events[4], "delta")), "think first");
    let response = at(events.last().unwrap(), "response");
    let first = idx(at(response, "output"), 0);
    assert_eq!(text(at(first, "type")), "reasoning");
    assert_eq!(text(at(first, "id")), "rs_2");
    assert_eq!(text(at(idx(at(first, "summary"), 0), "text")), "think first");
    let second = idx(at(response, "output"), 1);
    assert_eq!(text(at(second, "id")), "msg_3");
    assert_eq!(at(&events[8], "output_index").as_u64(), Some(1));

    let only = obj(vec![(
        "choices",
        Json::Array(vec![obj(vec![("message", obj(vec![("reasoning_content", s("R"))]))])]),
    )]);
    let events = chat_to_responses_events(&only, "m");
    assert_eq!(events.len(), 9);
    let response = at(events.last().unwrap(), "response");
    assert_eq!(text(at(idx(at(idx(at(response, "output"), 0), "summary"), 0), "text")), "R");
}
