use refill::account::{profile_labels, provider_account_info, suggested_profile_id, AccountInfo};
use refill::claims::{account_info_from_claims, jwt_payload, token_payload};
use refill::json::Json;
use refill::paths::{join_path, ProfileStore};
use refill::provider::ApiProviderConfig;
use refill::slug::{slugify, unique_candidate};
use refill::usage::{
    history_key, in_window, newest_snapshot_between, next_activation_after, parse_date, periods_to_forget,
    reset_text, snapshots_between, usage_label,
};

fn info(name: Option<&str>, email: Option<&str>, plan: Option<&str>, id: Option<&str>, until: Option<&str>) -> AccountInfo {
    AccountInfo {
        name: name.map(str::to_string),
        email: email.map(str::to_string),
        plan: plan.map(str::to_string),
        account_id: id.map(str::to_string),
        subscription_until: until.map(str::to_string),
    }
}

fn obj(members: Vec<(&str, Json)>) -> Json {
    Json::Object(members.into_iter().map(|(k, v)| (k.to_string(), v)).collect())
}

fn s(v: &str) -> Json {
    Json::Str(v.to_string())
}

#[test]
fn account_titles() {
    assert_eq!(info(Some("Ann"), Some("a@x.com"), None, None, None).title(), "a@x.com");
    assert_eq!(info(Some("Ann"), None, None, Some("id"), None).title(), "Ann");
    assert_eq!(info(None, None, None, Some("0123456789abc"), None).title(), "Account 01234567");
    assert_eq!(info(None, None, None, Some("abc"), None).title(), "Account abc");
    assert_eq!(info(None, None, None, None, None).title(), "Unknown account");
}

#[test]
fn account_subtitles() {
    assert_eq!(info(Some("Ann"), Some("a@x.com"), None, None, None).subtitle(), "Ann");
    assert_eq!(info(Some("a@x.com"), Some("a@x.com"), None, None, None).subtitle(), "ChatGPT 账号");
    assert_eq!(info(Some(""), None, None, None, None).subtitle(), "ChatGPT 账号");
    assert_eq!(info(None, None, None, None, None).subtitle(), "ChatGPT 账号");
}

#[test]
fn plan_names() {
    assert_eq!(info(None, None, Some("plus"), None, Some("2026-07-15T00:00:00Z")).plan_display(), "Plus 至 07-15");
    assert_eq!(info(None, None, Some("PLUS"), None, Some("short")).plan_display(), "PLUS");
    assert_eq!(info(None, None, Some("pro"), None, None).plan_display(), "Pro");
    assert_eq!(info(None, None, Some("ärger"), None, None).plan_display(), "Ärger");
    assert_eq!(info(None, None, Some(""), None, None).plan_display(), "Unknown");
    assert_eq!(info(None, None, None, None, None).plan_display(), "Unknown");
}

#[test]
fn accounts_match_by_id_then_email() {
    let a = info(None, Some("A@X.com"), None, Some("id-1"), None);
    assert!(a.matches(&info(None, Some("other"), None, Some("id-1"), None)));
    assert!(!a.matches(&info(None, Some("a@x.com"), None, Some("id-2"), None)));
    let b = info(None, Some("A@X.com"), None, None, None);
    assert!(b.matches(&info(None, Some("a@x.COM"), None, Some("id-9"), None)));
    assert!(!info(None, Some(""), None, Some(""), None).matches(&info(None, Some(""), None, Some(""), None)));
    // An account with an id or an email is recognised as itself.
    assert!(a.matches(&a));
    assert!(b.matches(&b));
}

fn provider() -> ApiProviderConfig {
    ApiProviderConfig {
        id: "deepseek".to_string(),
        name: "DeepSeek".to_string(),
        base_url: "https://api.deepseek.com/v1/".to_string(),
        model: "deepseek-chat".to_string(),
        provider_id: "switcher-deepseek".to_string(),
        wire_api: "chat".to_string(),
        created_at: String::new(),
    }
}

#[test]
fn profile_card_labels() {
    let p = provider();
    let l = profile_labels(&provider_account_info(&p), Some(&p));
    assert_eq!(l.kind, "api");
    assert_eq!(l.title, "DeepSeek");
    assert_eq!(l.subtitle, "deepseek-chat · api.deepseek.com/v1");
    assert_eq!(l.primary_pill, "Chat · 本地代理");
    let a = info(Some("Ann"), Some("a@x.com"), Some("team"), None, None);
    let l = profile_labels(&a, None);
    assert_eq!(l.kind, "official");
    assert_eq!(l.title, "a@x.com");
    assert_eq!(l.subtitle, "Ann");
    assert_eq!(l.primary_pill, "Team");
}

#[test]
fn provider_profiles_read_as_api_accounts() {
    let i = provider_account_info(&provider());
    assert_eq!(i.name.as_deref(), Some("DeepSeek"));
    assert_eq!(i.plan.as_deref(), Some("api"));
    assert_eq!(i.account_id.as_deref(), Some("switcher-deepseek"));
    assert!(i.email.is_none());
}

#[test]
fn saved_accounts_get_fresh_names() {
    let a = info(None, Some("Ann.Lee@Example.com"), Some("Plus"), None, None);
    assert_eq!(suggested_profile_id(&a, &Vec::new()), "ann-lee-example-com-plus");
    let taken = vec!["ann-lee-example-com-plus".to_string()];
    assert_eq!(suggested_profile_id(&a, &taken), "ann-lee-example-com-plus-2");
    assert_eq!(suggested_profile_id(&info(None, None, None, None, None), &Vec::new()), "codex-account");
}

#[test]
fn slugs() {
    assert_eq!(slugify("  Deep--Seek__v2 ", "x"), "deep-seek-v2");
    assert_eq!(slugify("日本", "api-provider"), "api-provider");
    assert_eq!(slugify("ÉCOLE", "x"), "cole");
    let taken = vec!["a".to_string(), "a-2".to_string(), "a-3".to_string()];
    assert_eq!(unique_candidate("a", &taken), "a-4");
    assert_eq!(unique_candidate("b", &taken), "b");
}

#[test]
fn jwt_payloads_are_decoded() {
    // {"name":"Ann"} in URL-safe base64 without padding.
    let token = "header.eyJuYW1lIjoiQW5uIn0.signature";
    assert_eq!(jwt_payload(token), Some(b"{\"name\":\"Ann\"}".to_vec()));
    assert_eq!(jwt_payload("no-dots"), None);
    assert_eq!(jwt_payload("a.!!!.c"), None);
    let auth = obj(vec![("tokens", obj(vec![("id_token", s(token)), ("account_id", s("acc-1"))]))]);
    assert_eq!(token_payload(&auth, "id_token"), Some(b"{\"name\":\"Ann\"}".to_vec()));
    assert_eq!(token_payload(&auth, "access_token"), None);
}

#[test]
fn account_facts_from_claims() {
    let auth = obj(vec![("tokens", obj(vec![("account_id", s(""))]))]);
    let id = obj(vec![
        ("name", s("")),
        ("email", s("ann@x.com")),
        (
            "https://api.openai.com/auth",
            obj(vec![
                ("chatgpt_plan_type", s("plus")),
                ("chatgpt_account_id", s("acc-9")),
                ("chatgpt_subscription_active_until", s("2026-07-15T00:00:00Z")),
            ]),
        ),
    ]);
    let access = obj(vec![("name", s("Ann"))]);
    let i = account_info_from_claims(&auth, Some(&id), Some(&access));
    assert_eq!(i.name.as_deref(), Some("Ann"));
    assert_eq!(i.email.as_deref(), Some("ann@x.com"));
    assert_eq!(i.plan.as_deref(), Some("plus"));
    assert_eq!(i.account_id.as_deref(), Some("acc-9"));
    assert_eq!(i.subscription_until.as_deref(), Some("2026-07-15T00:00:00Z"));
    let none = account_info_from_claims(&Json::Null, None, None);
    assert!(none.name.is_none() && none.email.is_none() && none.plan.is_none() && none.account_id.is_none());
}

#[test]
fn window_labels_and_reset_texts() {
    assert_eq!(usage_label(10080), "7d");
    assert_eq!(usage_label(20000), "7d");
    assert_eq!(usage_label(2880), "2d");
    assert_eq!(usage_label(300), "5h");
    assert_eq!(usage_label(45), "45m");
    assert_eq!(reset_text(false, false, 0, "10:00"), "重置时间未知");
    assert_eq!(reset_text(true, true, 0, "10:00"), "预计已恢复");
    assert_eq!(reset_text(true, false, 2 * 86400 + 5, "10:00"), "2天后 · 10:00");
    assert_eq!(reset_text(true, false, 7200, "10:00"), "2小时后 · 10:00");
    assert_eq!(reset_text(true, false, 150, "10:00"), "2分钟后 · 10:00");
    assert_eq!(reset_text(true, false, 59, "10:00"), "即将 · 10:00");
    assert_eq!(history_key("primary", 1779876038), "primary#1779876038");
    assert_eq!(history_key("secondary", -5), "secondary#-5");
}

#[test]
fn dates_and_windows() {
    let d = parse_date("2026-05-27T01:00:00Z").unwrap();
    assert_eq!(d, (1779843600, 0));
    assert_eq!(parse_date("2026-05-27T03:00:00+02:00"), Some((1779843600, 0)));
    assert_eq!(parse_date("not a date"), None);
    let start = parse_date("2026-05-27T02:00:00Z");
    let end = parse_date("2026-05-27T04:00:00Z");
    assert!(!in_window("2026-05-27T01:00:00Z", start, end));
    assert!(in_window("2026-05-27T02:00:00Z", start, end));
    assert!(!in_window("2026-05-27T04:00:00Z", start, end));
    assert!(!in_window("garbage", None, None));
    let ts: Vec<String> = ["2026-05-27T01:00:00Z", "2026-05-27T02:00:00Z", "x", "2026-05-27T03:00:00Z", "2026-05-27T04:00:00Z"]
        .iter()
        .map(|t| t.to_string())
        .collect();
    assert_eq!(snapshots_between(&ts, start, end), vec![1, 3]);
    assert_eq!(newest_snapshot_between(&ts, start, end), Some(3));
    assert_eq!(newest_snapshot_between(&ts, None, None), Some(4));
    assert_eq!(newest_snapshot_between(&ts, end, start), None);
}

#[test]
fn next_activation() {
    let dates = vec![Some((10, 0)), None, Some((30, 0)), Some((20, 5)), Some((5, 0))];
    assert_eq!(next_activation_after(&dates, (10, 0)), Some((20, 5)));
    assert_eq!(next_activation_after(&dates, (30, 0)), None);
}

#[test]
fn history_keeps_the_newest_periods() {
    let few: Vec<(String, i64)> = (0..80).map(|i| (format!("p{i}"), i)).collect();
    assert!(periods_to_forget(&few).is_empty());
    let many: Vec<(String, i64)> = (0..83).map(|i| (format!("p{i:02}"), i)).collect();
    assert_eq!(periods_to_forget(&many), vec!["p02".to_string(), "p01".to_string(), "p00".to_string()]);
}

#[test]
fn profile_paths() {
    let store = ProfileStore::new("/Users/ann".to_string());
    assert_eq!(store.codex_home(), "/Users/ann/.codex");
    assert_eq!(store.profile_root(), "/Users/ann/.codex-profiles");
    assert_eq!(store.shared_history_root(), "/Users/ann/.codex-profiles/_shared-history");
    assert_eq!(store.shared_sessions(), "/Users/ann/.codex-profiles/_shared-history/sessions");
    assert_eq!(store.shared_session_index(), "/Users/ann/.codex-profiles/_shared-history/session_index.jsonl");
    assert_eq!(store.shared_desktop_state(), "/Users/ann/.codex-profiles/_shared-history/desktop-state");
    assert_eq!(store.shared_workspace_state(), "/Users/ann/.codex-profiles/_shared-history/workspaces.json");
    assert_eq!(store.profile_url("work"), "/Users/ann/.codex-profiles/work");
    assert_eq!(join_path("/", "x"), "/x");
    assert_eq!(join_path("", "x"), "x");
    assert_eq!(join_path("/a", "/b"), "/b");
}

#[test]
fn labels_that_would_cut_a_character_are_refused() {
    let plain = AccountInfo { name: None, email: None, plan: Some("plus".into()), account_id: Some("abcdefghij".into()), subscription_until: Some("2026-05-27T00:00:00Z".into()) };
    assert!(plain.labels_can_be_cut());
    let wide_id = AccountInfo { name: None, email: None, plan: None, account_id: Some("abcdefgé12".into()), subscription_until: None };
    assert!(!wide_id.labels_can_be_cut());
    let short_wide = AccountInfo { name: None, email: None, plan: None, account_id: Some("ééé".into()), subscription_until: None };
    assert!(short_wide.labels_can_be_cut());
    let wide_date = AccountInfo { name: None, email: Some("a@b".into()), plan: Some("Plus".into()), account_id: None, subscription_until: Some("2026é-05-27".into()) };
    assert!(!wide_date.labels_can_be_cut());
    let named = AccountInfo { name: Some("n".into()), email: None, plan: None, account_id: Some("abcdefgé12".into()), subscription_until: None };
    assert!(named.labels_can_be_cut());
}
