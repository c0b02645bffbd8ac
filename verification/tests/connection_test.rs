use refill::connection::{brief, connection_result, needs_stored_key, plan_connection_test, ProbeOutcome, ProviderTestInput};

fn input(key: Option<&str>, base: &str, wire: &str) -> ProviderTestInput {
    ProviderTestInput {
        profile_id: None,
        base_url: base.to_string(),
        model: " deepseek-chat ".to_string(),
        api_key: key.map(str::to_string),
        wire_api: wire.to_string(),
    }
}

#[test]
fn connection_test_requests() {
    let p = plan_connection_test(&input(Some(" sk-1 "), "https://api.deepseek.com/", "chat"), None).ok().unwrap();
    assert_eq!(p.key, "sk-1");
    assert_eq!(p.endpoint, "https://api.deepseek.com/chat/completions");
    assert!(p.is_chat);
    assert_eq!(p.body.get("model").and_then(|m| m.as_str()).unwrap(), "deepseek-chat");
    assert_eq!(p.body.get("max_tokens").and_then(|m| m.as_u64()), Some(1));
    let p = plan_connection_test(&input(Some("  "), "https://x", "responses"), Some("stored".to_string())).ok().unwrap();
    assert_eq!(p.key, "stored");
    assert_eq!(p.endpoint, "https://x/responses");
    assert_eq!(p.body.get("max_output_tokens").and_then(|m| m.as_u64()), Some(16));
    assert_eq!(
        plan_connection_test(&input(None, "https://x", "chat"), None).err(),
        Some("请填写 API Key 后再测试。".to_string())
    );
    assert_eq!(plan_connection_test(&input(Some("k"), " / ", "chat"), None).err(), Some("请填写 Base URL。".to_string()));
}

#[test]
fn connection_test_reports() {
    let ok = connection_result("https://x/responses", false, 42, ProbeOutcome::Responded { status: 200, reason: "OK".to_string(), body: String::new() });
    assert!(ok.ok);
    assert_eq!(ok.message, "连接成功 · https://x/responses · 42ms");
    let missing = connection_result("https://x/responses", false, 1, ProbeOutcome::Responded { status: 404, reason: "Not Found".to_string(), body: String::new() });
    assert!(!missing.ok && missing.suggest_chat);
    assert_eq!(missing.message, "该服务没有 /responses 接口，应使用 Chat Completions（本地代理）。");
    let chat404 = connection_result("https://x/chat/completions", true, 1, ProbeOutcome::Responded { status: 404, reason: "Not Found".to_string(), body: " nope ".to_string() });
    assert!(!chat404.suggest_chat);
    assert_eq!(chat404.message, "404 Not Found · nope");
    let down = connection_result("https://x", true, 7, ProbeOutcome::Failed { error: "timed out".to_string() });
    assert_eq!((down.ok, down.status, down.message.as_str()), (false, 0, "无法连接 https://x：timed out"));
    let long = "x".repeat(250);
    assert_eq!(brief(&long), format!("{}…", "x".repeat(200)));
    assert_eq!(brief("  short  "), "short");
}

#[test]
fn stored_key_only_without_a_typed_one() {

    assert!(!needs_stored_key(&input(Some(" sk "), "b", "chat")));
    assert!(needs_stored_key(&input(Some("   "), "b", "chat")));
    assert!(needs_stored_key(&input(None, "b", "chat")));
}
