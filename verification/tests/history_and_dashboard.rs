use refill::usage::history_key;
use refill::sharing::{history_link_action, LinkAction};
use refill::sharing::{aligns_threads, desktop_state_first, desktop_state_link, StateFirst};
use refill::usage::{is_session_backup, usage_lookup_next, usage_lookup_start, UsageLookup, UsageSource};
use refill::dashboard::{delete_provider_check, log_file_name, login_script, rotated_file_name, should_rotate, LogKind};
use refill::dashboard::{
    active_label, is_active_profile, is_desktop_ready, is_profile_directory, is_state_database, key_status,
    profiles_order, provider_upstream, proxy_log_tail, AppSettings, ProfileFiles, ProfileRank,
};
use refill::account::AccountInfo;
use refill::json::Json;
use refill::provider::ApiProviderConfig;
use refill::sharing::{checkpoint_sqlite, hydrate_plan, profile_name};
use refill::paths::ProfileStore;
use refill::summary::{usage_line, usage_record, usage_summary, UsageRecord};
use refill::workspace::{
    align_threads_sql, apply_workspace, merge_session_index, merge_threads_sql, merge_workspace, sqlite_state_base_name, string_array,
    unique, workspace_state, WorkspaceState,
};

fn strings(v: &[&str]) -> Vec<String> {
    v.iter().map(|s| s.to_string()).collect()
}

fn rec(p: &str, m: &str, i: u64, o: u64) -> UsageRecord {
    UsageRecord { provider: p.to_string(), model: m.to_string(), input: i, output: o }
}

#[test]
fn usage_summary_groups_and_orders() {
    let records = vec![
        rec("switcher-a", "m1", 10, 1),
        rec("switcher-b", "m9", 100, 2),
        rec("switcher-a", "m2", 50, 3),
        rec("switcher-a", "m1", 5, 4),
        rec("", "", 0, 0),
    ];
    let names = vec![
        ("switcher-a".to_string(), "Old A".to_string()),
        ("switcher-a".to_string(), "Provider A".to_string()),
    ];
    let s = usage_summary(&records, &names);
    assert_eq!((s.total_requests, s.total_input_tokens, s.total_output_tokens), (5, 165, 10));
    assert_eq!(s.providers.len(), 3);
    let b = &s.providers[0];
    assert_eq!((b.provider_id.as_str(), b.name.as_str()), ("switcher-b", "switcher-b"));
    assert_eq!((b.requests, b.input_tokens, b.output_tokens), (1, 100, 2));
    let a = &s.providers[1];
    assert_eq!((a.provider_id.as_str(), a.name.as_str()), ("switcher-a", "Provider A"));
    assert_eq!((a.requests, a.input_tokens, a.output_tokens), (3, 65, 8));
    assert_eq!(a.models.len(), 2);
    assert_eq!((a.models[0].model.as_str(), a.models[0].requests, a.models[0].input_tokens), ("m2", 1, 50));
    assert_eq!((a.models[1].model.as_str(), a.models[1].requests, a.models[1].input_tokens, a.models[1].output_tokens), ("m1", 2, 15, 5));
    assert_eq!(s.providers[2].provider_id, "");
    // The totals are the sums of the entries.
    let sum: u64 = s.providers.iter().map(|p| p.input_tokens).sum();
    assert_eq!(sum, s.total_input_tokens);
}

#[test]
fn usage_ties_are_ordered_by_name() {
    let records = vec![rec("z", "b", 7, 0), rec("y", "a", 7, 0), rec("y", "c", 0, 0)];
    let s = usage_summary(&records, &Vec::new());
    assert_eq!(s.providers[0].provider_id, "y");
    assert_eq!(s.providers[1].provider_id, "z");
    assert_eq!(s.providers[0].models[0].model, "a");
    assert_eq!(s.providers[0].models[1].model, "c");
}

#[test]
fn usage_lines_read_back() {
    let line = usage_line("2026-01-01T00:00:00Z", "switcher-a", "m1", 12, 34);
    let r = usage_record(&line);
    assert_eq!((r.provider.as_str(), r.model.as_str(), r.input, r.output), ("switcher-a", "m1", 12, 34));
    let partial = usage_record(&Json::Object(vec![("input".to_string(), Json::Str("x".to_string()))]));
    assert_eq!((partial.provider.as_str(), partial.model.as_str(), partial.input, partial.output), ("", "", 0, 0));
}

#[test]
fn settings_default() {
    let s = AppSettings::default();
    assert_eq!(s.refresh_interval_seconds, 60);
    assert!(s.share_history);
    assert_eq!(s.codex_app_name, "Codex");
}

fn rank(active: bool, kind: &str, title: &str) -> ProfileRank {
    ProfileRank { is_active: active, kind: kind.to_string(), title: title.to_string() }
}

#[test]
fn cards_are_ordered() {
    let ranks = vec![
        rank(false, "official", "zed@x.com"),
        rank(false, "api", "DeepSeek"),
        rank(true, "official", "bob@x.com"),
        rank(false, "official", "Amy@x.com"),
        rank(false, "api", "deepseek"),
    ];
    assert_eq!(profiles_order(&ranks), vec![2, 1, 4, 3, 0]);
}

#[test]
fn active_profile_and_label() {
    let me = AccountInfo { name: None, email: Some("a@x.com".to_string()), plan: None, account_id: None, subscription_until: None };
    let active = "work".to_string();
    assert!(is_active_profile("work", Some(&active), true, &me, None));
    assert!(!is_active_profile("home", Some(&active), false, &me, None));
    assert!(is_active_profile("home", None, false, &me, Some(&me)));
    assert!(!is_active_profile("home", None, true, &me, Some(&me)));
    let cards = vec![(false, "A".to_string()), (true, "B".to_string()), (true, "C".to_string())];
    assert_eq!(active_label(&cards, None), "B");
    let current = "Current".to_string();
    assert_eq!(active_label(&[(false, "A".to_string())].to_vec(), Some(&current)), "Current");
    assert_eq!(active_label(&Vec::new(), None), "未连接");
}

#[test]
fn profile_directories_and_readiness() {
    assert!(is_profile_directory("work", true, false));
    assert!(is_profile_directory("deepseek", false, true));
    assert!(!is_profile_directory("empty", false, false));
    assert!(!is_profile_directory(".hidden", true, false));
    assert!(!is_profile_directory("_shared-history", true, true));
    let mut f = ProfileFiles { is_provider: true, key_exists: true, auth: false, config: true, computer_use: false, global_state: true };
    assert!(is_desktop_ready(&f));
    f.key_exists = false;
    assert!(!is_desktop_ready(&f));
    let g = ProfileFiles { is_provider: false, key_exists: false, auth: true, config: true, computer_use: true, global_state: true };
    assert!(is_desktop_ready(&g));
    assert!(!is_desktop_ready(&ProfileFiles { computer_use: false, ..g }));
    assert_eq!(key_status(true), "exists");
    assert_eq!(key_status(false), "missing");
    assert!(is_state_database("state_5.sqlite"));
    assert!(!is_state_database("state_5.sqlite-wal"));
    assert!(!is_state_database("goals_1.sqlite"));
}

fn provider(id: &str, base: &str, model: &str) -> ApiProviderConfig {
    ApiProviderConfig {
        id: id.to_string(),
        name: id.to_string(),
        base_url: base.to_string(),
        model: model.to_string(),
        provider_id: format!("switcher-{id}"),
        wire_api: "chat".to_string(),
        created_at: String::new(),
    }
}

#[test]
fn upstreams_and_log_tail() {
    let ps = vec![provider("a", "https://a", "ma"), provider("b", "https://b", "mb"), provider("b", "https://b2", "mb2")];
    assert_eq!(provider_upstream(&ps, "switcher-b"), Some(("https://b".to_string(), "mb".to_string())));
    assert_eq!(provider_upstream(&ps, "switcher-c"), None);
    assert_eq!(proxy_log_tail("l1\nl2\nl3\n", 2), strings(&["l2", "l3"]));
    assert_eq!(proxy_log_tail("l1\r\nl2", 5), strings(&["l1", "l2"]));
    assert_eq!(proxy_log_tail("", 5), Vec::<String>::new());
}

#[test]
fn preparing_a_profile() {
    let active = "work".to_string();
    assert_eq!(hydrate_plan("x", false, true, Some(&active), true).err(), Some("profile 不存在：x".to_string()));
    let p = hydrate_plan("work", true, true, Some(&active), false).ok().unwrap();
    assert!(p.copy_items.is_empty() && p.folders.is_empty());
    assert_eq!(
        hydrate_plan("home", true, true, Some(&active), false).err(),
        Some("找不到可用于初始化 Desktop profile 的 ~/.codex。".to_string())
    );
    let p = hydrate_plan("home", true, false, None, true).ok().unwrap();
    assert_eq!(p.copy_items.len(), 17);
    assert_eq!(p.copy_items[0], ".codex-global-state.json");
    assert_eq!(p.copy_items[16], "version.json");
    assert_eq!(p.folders, strings(&["sessions", "log", "shell_snapshots"]));
}

#[test]
fn profile_names_and_backups() {
    assert_eq!(profile_name("/h/.codex-profiles/work"), "work");
    assert_eq!(profile_name("/h/.codex-profiles/work/"), "work");
    assert_eq!(profile_name("/h/work/."), "work");
    assert_eq!(profile_name("/h/.."), "profile");
    assert_eq!(profile_name("/"), "profile");
    assert_eq!(profile_name(""), "profile");
    let store = ProfileStore::new("/h".to_string());
    assert_eq!(store.backup_path("work-sessions", 1700000000), "/h/.codex-profiles/_shared-history/backups/work-sessions-1700000000");
    assert_eq!(checkpoint_sqlite("/p/state_5.sqlite", true, false), Some(strings(&["/p/state_5.sqlite", "PRAGMA wal_checkpoint(TRUNCATE);"])));
    assert_eq!(checkpoint_sqlite("/p/state_5.sqlite", true, true), None);
    assert_eq!(checkpoint_sqlite("/p/state_5.sqlite", false, false), None);
}

fn ws(saved: &[&str], order: &[&str], active: &[&str]) -> WorkspaceState {
    WorkspaceState {
        saved_workspace_roots: strings(saved),
        project_order: strings(order),
        active_workspace_roots: strings(active),
    }
}

#[test]
fn workspaces_merge_without_loss() {
    assert_eq!(unique(&strings(&["a", "", "b", "a", "c", "b"])), strings(&["a", "b", "c"]));
    let m = merge_workspace(ws(&["/a", "/b"], &["/c"], &[]), ws(&["/b", "/d"], &["/e", "/a"], &["/d"]));
    assert_eq!(m.saved_workspace_roots, strings(&["/a", "/b", "/d", "/c", "/e"]));
    assert_eq!(m.project_order, strings(&["/c", "/e", "/a", "/b", "/d"]));
    assert_eq!(m.active_workspace_roots, strings(&["/d"]));
    assert!(ws(&[], &[], &[]).is_empty());
    assert!(!m.is_empty());
}

fn obj(members: Vec<(&str, Json)>) -> Json {
    Json::Object(members.into_iter().map(|(k, v)| (k.to_string(), v)).collect())
}

fn str_array(v: &[&str]) -> Json {
    Json::Array(v.iter().map(|s| Json::Str(s.to_string())).collect())
}

#[test]
fn desktop_state_workspaces() {
    let global = obj(vec![
        ("electron-saved-workspace-roots", Json::Array(vec![Json::Str("/a".to_string()), Json::UInt(3)])),
        ("project-order", str_array(&["/b"])),
        ("other", Json::Bool(true)),
    ]);
    let w = workspace_state(&global);
    assert_eq!(w.saved_workspace_roots, strings(&["/a"]));
    assert_eq!(w.project_order, strings(&["/b"]));
    assert!(w.active_workspace_roots.is_empty());
    assert!(string_array(None).is_empty());
    let mut g = global;
    apply_workspace(&mut g, &ws(&["/x"], &["/y"], &[]));
    let saved = string_array(g.get("electron-saved-workspace-roots"));
    assert_eq!(saved, strings(&["/x"]));
    assert!(g.get("active-workspace-roots").is_none());
    assert!(matches!(g.get("other"), Some(Json::Bool(true))));
    let mut empty = Json::Null;
    apply_workspace(&mut empty, &ws(&[], &[], &["/z"]));
    assert_eq!(string_array(empty.get("active-workspace-roots")), strings(&["/z"]));
}

#[test]
fn session_index_merge_appends_missing_lines() {
    assert_eq!(merge_session_index("a\nb", "b\nc\nc\n"), "a\nb\nc\n");
    assert_eq!(merge_session_index("", "x\n"), "x\n");
    assert_eq!(merge_session_index("a\n", "a\n"), "a\n");
}

#[test]
fn sqlite_names_and_sql() {
    assert_eq!(sqlite_state_base_name("state_5.sqlite-wal"), Some("state_5.sqlite".to_string()));
    assert_eq!(sqlite_state_base_name("goals_1.sqlite"), Some("goals_1.sqlite".to_string()));
    assert_eq!(sqlite_state_base_name("other.sqlite"), None);
    assert_eq!(sqlite_state_base_name("state_5.db"), None);
    assert_eq!(
        merge_threads_sql("/p/it's.sqlite"),
        "ATTACH DATABASE '/p/it''s.sqlite' AS incoming; INSERT OR REPLACE INTO main.threads SELECT * FROM incoming.threads; DETACH DATABASE incoming; PRAGMA wal_checkpoint(TRUNCATE);"
    );
}

#[test]
fn profile_bookkeeping_paths() {
    assert_eq!(refill::paths::history_path("/h/p"), "/h/p/.codex-switcher/usage_history.json");
    assert_eq!(refill::paths::activation_path("/h/p"), "/h/p/.codex-switcher/activated_at.txt");
}

#[test]
fn history_links() {
    assert!(matches!(history_link_action(true, true, "/h/p/work", "sessions"), LinkAction::Keep));
    assert!(matches!(history_link_action(false, true, "/h/p/work", "sessions"), LinkAction::Relink));
    match history_link_action(false, false, "/h/p/work", "session-index") {
        LinkAction::BackupThenLink { label } => assert_eq!(label, "work-session-index"),
        _ => panic!("expected a backup"),
    }
}

#[test]
fn desktop_state_sharing_decisions() {
    assert!(matches!(desktop_state_first("state_5.sqlite", false), StateFirst::CopyMissing));
    assert!(matches!(desktop_state_first("state_5.sqlite", true), StateFirst::MergeThreads));
    assert!(matches!(desktop_state_first("goals_1.sqlite", true), StateFirst::Nothing));
    assert_eq!(desktop_state_link(&StateFirst::MergeThreads, false, true, false), None);
    assert_eq!(desktop_state_link(&StateFirst::MergeThreads, true, true, false), Some(true));
    assert_eq!(desktop_state_link(&StateFirst::CopyMissing, false, false, false), None);
    assert_eq!(desktop_state_link(&StateFirst::CopyMissing, false, true, true), Some(false));
}

#[test]
fn latest_usage_lookup_order() {
    assert!(matches!(usage_lookup_start(true), UsageLookup::Look(UsageSource::Live)));
    assert!(matches!(usage_lookup_start(false), UsageLookup::Look(UsageSource::Cache)));
    assert!(matches!(usage_lookup_next(UsageSource::Live, true, true, true), UsageLookup::Found { cache_it: true }));
    assert!(matches!(usage_lookup_next(UsageSource::Live, false, true, true), UsageLookup::Look(UsageSource::Cache)));
    assert!(matches!(usage_lookup_next(UsageSource::Cache, true, false, true), UsageLookup::Found { cache_it: false }));
    assert!(matches!(
        usage_lookup_next(UsageSource::Cache, false, false, true),
        UsageLookup::Look(UsageSource::ActivationWindow { open_ended: false })
    ));
    assert!(matches!(usage_lookup_next(UsageSource::Cache, false, false, false), UsageLookup::Look(UsageSource::Backup)));
    assert!(matches!(
        usage_lookup_next(UsageSource::ActivationWindow { open_ended: true }, false, true, true),
        UsageLookup::Look(UsageSource::Backup)
    ));
    assert!(matches!(usage_lookup_next(UsageSource::Backup, false, false, false), UsageLookup::NotFound));
    assert!(is_session_backup("work-sessions-1700000000", "work"));
    assert!(!is_session_backup("work-session-index-1700000000", "work"));
}

#[test]
fn commands_checks_and_scripts() {
    let active = "deepseek".to_string();
    assert_eq!(delete_provider_check("deepseek", Some(&active)).err(), Some("不能删除当前正在使用的 API profile。".to_string()));
    assert!(delete_provider_check("kimi", Some(&active)).is_ok());
    assert!(delete_provider_check("kimi", None).is_ok());
    assert_eq!(
        login_script("/opt/it's/codex-as", 1700000000),
        "tell application \"Terminal\"\n  activate\n  do script \"'/opt/it'\\''s/codex-as' --login 'login-1700000000'\"\nend tell"
    );
}

#[test]
fn missing_profiles_are_named() {
    assert_eq!(refill::dashboard::missing_profile_message("work"), "profile 不存在：work");
}

#[test]
fn json_members_read_back_what_was_written() {
    let mut v = Json::Object(vec![("a".to_string(), Json::UInt(1)), ("b".to_string(), Json::Bool(true))]);
    v.set("a", Json::Str("x".to_string()));
    v.set("c", Json::Null);
    assert_eq!(v.get("a").and_then(|x| x.as_str()).map(String::as_str), Some("x"));
    assert!(matches!(v.get("b"), Some(Json::Bool(true))));
    assert!(matches!(v.get("c"), Some(Json::Null)));
    let mut n = Json::Null;
    n.set("k", Json::UInt(7));
    assert_eq!(n.get("k").and_then(|x| x.as_u64()), Some(7));
}

#[test]
fn history_keys_differ_per_period() {
    assert_ne!(history_key("primary", 5), history_key("primary", -5));
    assert_ne!(history_key("primary", 12), history_key("primary", 1));
}

#[test]
fn slugs_are_safe_directory_names() {
    for name in ["../../etc", "a/b", "..", ".", "--x--", "Ünïcödé!"] {
        let s = refill::slug::slugify(name, "api-provider");
        assert!(!s.is_empty());
        assert!(s.chars().all(|c| c.is_ascii_alphanumeric() || c == '-'), "{s}");
        assert!(!s.starts_with('-') && !s.ends_with('-') && !s.contains("--"), "{s}");
    }
}

#[test]
fn session_index_keeps_what_was_there() {
    let before = "x\ny";
    let after = merge_session_index(before, "z\nx\n");
    assert!(after.starts_with(before));
    assert_eq!(after, "x\ny\nz\n");
}

#[test]
fn active_profile_follows_the_codex_link() {
    let store = ProfileStore::new("/home/u".to_string());
    assert_eq!(store.active_profile_id("/home/u/.codex-profiles/work"), Some("work".to_string()));
    assert_eq!(store.active_profile_id(".codex-profiles/work"), Some("work".to_string()));
    assert_eq!(store.active_profile_id("/home/u/.codex-profiles/work/"), Some("work".to_string()));
    assert_eq!(store.active_profile_id("/home/u//.codex-profiles/./team/a"), Some("team/a".to_string()));
    assert_eq!(store.active_profile_id("/home/u/.codex-profiles"), Some(String::new()));
    assert_eq!(store.active_profile_id("/elsewhere/work"), None);
    assert_eq!(store.active_profile_id("/home/u/.codex-profiles-old/work"), None);
    let link = store.profile_url("openai-plus-ann");
    assert_eq!(store.active_profile_id(&link), Some("openai-plus-ann".to_string()));
}

#[test]
fn threads_are_aligned_to_the_profile_provider() {
    assert_eq!(
        align_threads_sql(None),
        "UPDATE threads SET model_provider = 'openai' WHERE model_provider != 'openai'; PRAGMA wal_checkpoint(TRUNCATE);"
    );
    assert_eq!(
        align_threads_sql(Some("o'neil")),
        "UPDATE threads SET model_provider = 'o''neil' WHERE model_provider != 'o''neil'; PRAGMA wal_checkpoint(TRUNCATE);"
    );
}

#[test]
fn logs_are_moved_aside_at_their_limit() {
    assert!(!should_rotate(&LogKind::Proxy, None));
    assert!(!should_rotate(&LogKind::Proxy, Some(1024 * 1024 - 1)));
    assert!(should_rotate(&LogKind::Proxy, Some(1024 * 1024)));
    assert!(!should_rotate(&LogKind::Usage, Some(1024 * 1024)));
    assert!(should_rotate(&LogKind::Usage, Some(4 * 1024 * 1024)));
    assert_eq!(log_file_name(&LogKind::Usage), "usage.jsonl");
    assert_eq!(rotated_file_name(&LogKind::Proxy), "proxy.log.1");
}

#[test]
fn merging_and_deduplicating_twice_changes_nothing() {
    let once = merge_session_index("a\n", "b\na\nc");
    assert_eq!(once, "a\nb\nc\n");
    assert_eq!(merge_session_index(&once, "b\na\nc"), once);
    let values = strings(&["x", "", "y", "x", "z", "y"]);
    let u = unique(&values);
    assert_eq!(u, strings(&["x", "y", "z"]));
    assert_eq!(unique(&u), u);
}

#[test]
fn slugs_settle() {
    for name in ["My DeepSeek!", "ÄBC Provider", "--x--", "KIMI k2"] {
        let s = refill::slug::slugify(name, "api-provider");
        assert_eq!(refill::slug::slugify(&s, "api-provider"), s);
        assert!(s.chars().all(|c| c.is_ascii_lowercase() || c.is_ascii_digit() || c == '-'), "{s}");
    }
    assert_eq!(refill::slug::slugify("My DeepSeek!", "api-provider"), "my-deepseek");
    assert_eq!(refill::slug::slugify("!!!", "api-provider"), "api-provider");
}

#[test]
fn only_existing_state_databases_get_their_threads_aligned() {
    assert!(aligns_threads("state_5.sqlite", true));
    assert!(!aligns_threads("state_5.sqlite", false));
    assert!(!aligns_threads("logs_1.sqlite", true));
}

#[test]
fn a_key_reads_as_its_first_member() {
    let mut v = Json::Object(vec![("a".to_string(), Json::UInt(1)), ("b".to_string(), Json::UInt(2))]);
    v.set("c", Json::UInt(3));
    v.set("a", Json::UInt(4));
    assert_eq!(v.get("a").and_then(|x| x.as_u64()), Some(4));
    assert_eq!(v.get("c").and_then(|x| x.as_u64()), Some(3));
    match &v {
        Json::Object(m) => assert_eq!(m.len(), 3),
        _ => panic!("object"),
    }
}
