use refill::provider::{
    default_wire_api, normalized_base_url, normalized_wire_api, provider_validation, upstream_url,
    ApiProviderConfig, ProviderInput, ProviderStore, ProviderUpdateInput,
};
use refill::toml::{extract_project_config, preserve_unmanaged_config, toml_bare_key, toml_escape};

#[test]
fn preserves_codex_sections_strips_managed() {
    let existing = r#"model_provider = "switcher-deepseek"
model = "gpt-5.5"
model_reasoning_effort = "medium"

notify = ["x", "turn-ended"]

[model_providers.switcher-deepseek]
name = "DeepSeek"
base_url = "https://api.deepseek.com/v1"
wire_api = "responses"
requires_openai_auth = false

[model_providers.switcher-deepseek.auth]
command = "/usr/bin/security"
args = ["a"]

[projects."/Users/cgx/Documents/Switcher"]
trust_level = "trusted"

[mcp_servers.node_repl]
command = "/x/node_repl"
"#;
    let kept = preserve_unmanaged_config(existing, "switcher-deepseek");
    // Managed root keys and the provider tables are gone.
    assert!(!kept.contains("model_provider ="));
    assert!(!kept.contains("model_reasoning_effort"));
    assert!(!kept.contains("[model_providers.switcher-deepseek]"));
    assert!(!kept.contains("base_url ="));
    assert!(!kept.contains("[model_providers.switcher-deepseek.auth]"));
    // Codex's own sections survive.
    assert!(kept.contains("notify = [\"x\", \"turn-ended\"]"));
    assert!(kept.contains("[projects.\"/Users/cgx/Documents/Switcher\"]"));
    assert!(kept.contains("[mcp_servers.node_repl]"));
    assert!(kept.contains("command = \"/x/node_repl\""));
}

#[test]
fn preserved_config_starts_at_first_kept_line() {
    let kept = preserve_unmanaged_config("model = \"x\"\n\n\n[tui]\nnotifications = true\n", "p");
    assert_eq!(kept, "[tui]\nnotifications = true");
}

#[test]
fn other_providers_tables_are_kept() {
    let kept = preserve_unmanaged_config("[model_providers.other]\nname = \"o\"\n[model_providers.p]\nname = \"p\"\n", "p");
    assert_eq!(kept, "[model_providers.other]\nname = \"o\"");
}

#[test]
fn managed_keys_inside_other_tables_are_kept() {
    let kept = preserve_unmanaged_config("[profiles.fast]\nmodel = \"o3\"\n", "p");
    assert_eq!(kept, "[profiles.fast]\nmodel = \"o3\"");
}

#[test]
fn project_trust_is_carried_over() {
    let template = "model = \"m\"\n[projects.\"/a\"]\ntrust_level = \"trusted\"\n[tui]\nx = 1\n[projects.\"/b\"]\ntrust_level = \"untrusted\"\n";
    assert_eq!(
        extract_project_config(template),
        "[projects.\"/a\"]\ntrust_level = \"trusted\"\n[projects.\"/b\"]\ntrust_level = \"untrusted\""
    );
    assert_eq!(extract_project_config("model = \"m\"\n"), "");
}

#[test]
fn toml_quoting() {
    assert_eq!(toml_escape("a\"b\\c"), "a\\\"b\\\\c");
    assert_eq!(toml_bare_key("switcher-deepseek_1"), "switcher-deepseek_1");
    assert_eq!(toml_bare_key("a.b"), "\"a.b\"");
    assert_eq!(toml_bare_key("say \"hi\""), "\"say \\\"hi\\\"\"");
}

#[test]
fn base_url_and_protocol_are_normalised() {
    assert_eq!(normalized_base_url("  https://api.example.com/v1///  "), "https://api.example.com/v1");
    assert_eq!(normalized_wire_api(Some(" chat ")), "chat");
    assert_eq!(normalized_wire_api(Some("Chat")), "responses");
    assert_eq!(normalized_wire_api(None), "responses");
    assert_eq!(default_wire_api(), "responses");
}

#[test]
fn chat_providers_point_at_the_local_proxy() {
    assert_eq!(upstream_url("switcher-deepseek"), "http://127.0.0.1:8765/v1/switcher-deepseek");
}

fn config(wire: &str) -> ApiProviderConfig {
    ApiProviderConfig {
        id: "deepseek".to_string(),
        name: "DeepSeek".to_string(),
        base_url: "https://api.deepseek.com/v1".to_string(),
        model: "deepseek-chat".to_string(),
        provider_id: "switcher-deepseek".to_string(),
        wire_api: wire.to_string(),
        created_at: "2026-01-01T00:00:00+00:00".to_string(),
    }
}

#[test]
fn keychain_service_names_the_provider() {
    assert_eq!(config("chat").keychain_service(), "local.codex.account-switcher.switcher-deepseek");
}

#[test]
fn codex_config_for_a_chat_provider() {
    let store = ProviderStore;
    let text = store.codex_config(&config("chat"), None, Some("[projects.\"/a\"]\ntrust_level = \"trusted\"\n".to_string()));
    let expected = "model_provider = \"switcher-deepseek\"\nmodel = \"deepseek-chat\"\nmodel_reasoning_effort = \"medium\"\n\n[model_providers.switcher-deepseek]\nname = \"DeepSeek\"\nbase_url = \"http://127.0.0.1:8765/v1/switcher-deepseek\"\nwire_api = \"responses\"\nrequires_openai_auth = false\n\n[model_providers.switcher-deepseek.auth]\ncommand = \"/usr/bin/security\"\nargs = [\"find-generic-password\", \"-w\", \"-s\", \"local.codex.account-switcher.switcher-deepseek\"]\n\n[projects.\"/a\"]\ntrust_level = \"trusted\"\n";
    assert_eq!(text, expected);
}

#[test]
fn codex_config_keeps_existing_sections_over_the_template() {
    let store = ProviderStore;
    let text = store.codex_config(
        &config("responses"),
        Some("model = \"old\"\n[tui]\nx = 1\n".to_string()),
        Some("[projects.\"/a\"]\n".to_string()),
    );
    assert!(text.contains("base_url = \"https://api.deepseek.com/v1\""));
    assert!(text.ends_with("\n\n[tui]\nx = 1\n"));
    assert!(!text.contains("projects"));
}

#[test]
fn create_provider_picks_a_free_directory() {
    let store = ProviderStore;
    let input = ProviderInput {
        name: "  Deep Seek!  ".to_string(),
        base_url: "https://api.deepseek.com/v1/".to_string(),
        model: " deepseek-chat ".to_string(),
        api_key: "sk".to_string(),
        wire_api: Some("chat".to_string()),
    };
    let existing = vec!["deep-seek".to_string(), "deep-seek-2".to_string()];
    let c = store.create_provider(&existing, &input, "2026-01-01T00:00:00Z".to_string());
    assert_eq!(c.id, "deep-seek-3");
    assert_eq!(c.provider_id, "switcher-deep-seek-3");
    assert_eq!(c.name, "Deep Seek!");
    assert_eq!(c.base_url, "https://api.deepseek.com/v1");
    assert_eq!(c.model, "deepseek-chat");
    assert_eq!(c.wire_api, "chat");
    assert_eq!(c.created_at, "2026-01-01T00:00:00Z");
}

#[test]
fn create_provider_without_a_name() {
    let store = ProviderStore;
    let input = ProviderInput {
        name: "   ".to_string(),
        base_url: "u".to_string(),
        model: "m".to_string(),
        api_key: "k".to_string(),
        wire_api: None,
    };
    let c = store.create_provider(&Vec::new(), &input, String::new());
    assert_eq!(c.id, "api-provider");
    assert_eq!(c.wire_api, "responses");
}

#[test]
fn update_provider_keeps_identity() {
    let store = ProviderStore;
    let input = ProviderUpdateInput {
        name: " New ".to_string(),
        base_url: "https://x/".to_string(),
        model: "m2".to_string(),
        api_key: Some("  sk-new ".to_string()),
        wire_api: None,
    };
    let u = store.update_provider(Some(config("chat")), input).unwrap();
    assert_eq!(u.config.id, "deepseek");
    assert_eq!(u.config.provider_id, "switcher-deepseek");
    assert_eq!(u.config.name, "New");
    assert_eq!(u.config.base_url, "https://x");
    assert_eq!(u.config.wire_api, "chat");
    assert_eq!(u.new_key, Some("sk-new".to_string()));

    let blank = ProviderUpdateInput {
        name: "n".to_string(),
        base_url: "b".to_string(),
        model: "m".to_string(),
        api_key: Some("   ".to_string()),
        wire_api: Some("responses".to_string()),
    };
    let u = store.update_provider(Some(config("chat")), blank).unwrap();
    assert_eq!(u.new_key, None);
    assert_eq!(u.config.wire_api, "responses");
}

#[test]
fn update_provider_needs_a_provider() {
    let store = ProviderStore;
    let input = ProviderUpdateInput {
        name: "n".to_string(),
        base_url: "b".to_string(),
        model: "m".to_string(),
        api_key: None,
        wire_api: None,
    };
    assert_eq!(store.update_provider(None, input).err(), Some("不是 API provider profile".to_string()));
}

#[test]
fn keys_read_back_trimmed() {
    let store = ProviderStore;
    assert_eq!(store.read_key(Some(" sk-1 \n".to_string())), Some("sk-1".to_string()));
    assert_eq!(store.read_key(Some("  ".to_string())), None);
    assert_eq!(store.read_key(None), None);
    assert!(store.key_exists(&Ok(String::new())));
    assert!(!store.key_exists(&Err("not found".to_string())));
}

#[test]
fn keychain_commands() {
    let store = ProviderStore;
    let c = config("chat");
    assert_eq!(
        store.key_lookup_args(&c),
        vec!["find-generic-password", "-w", "-s", "local.codex.account-switcher.switcher-deepseek"]
    );
    assert_eq!(
        store.write_key(" sk-1 ", &c).unwrap(),
        vec![
            "add-generic-password",
            "-U",
            "-s",
            "local.codex.account-switcher.switcher-deepseek",
            "-a",
            "switcher-deepseek",
            "-w",
            "sk-1"
        ]
    );
    assert_eq!(store.write_key("  ", &c).err(), Some("API key 不能为空。".to_string()));
    assert_eq!(store.delete_key(&c), vec!["delete-generic-password", "-s", "local.codex.account-switcher.switcher-deepseek"]);
}

#[test]
fn provider_config_path_is_inside_the_profile() {
    assert_eq!(
        ProviderStore::provider_config_path("/h/.codex-profiles/deepseek"),
        "/h/.codex-profiles/deepseek/.codex-switcher/provider.json"
    );
    assert_eq!(ProviderStore::provider_config_path("/h/p/"), "/h/p/.codex-switcher/provider.json");
}

#[test]
fn validation_messages() {
    let v = provider_validation(false, true, true);
    assert!(!v.ok);
    assert_eq!(v.message, "不是 API provider");
    let v = provider_validation(true, true, true);
    assert!(v.ok);
    assert_eq!(v.message, "Keychain ready");
    let v = provider_validation(true, true, false);
    assert!(!v.ok);
    assert_eq!(v.message, "Keychain 缺少 API key");
    let v = provider_validation(true, false, true);
    assert!(!v.ok);
    assert_eq!(v.message, "Keychain ready");
}

#[test]
fn preserving_twice_keeps_the_same_text() {
    let content = "model = \"x\"\n\n[model_providers.switcher-a]\nname = \"A\"\n[projects.\"/a\"]\ntrust_level = \"trusted\"\n[tui]\nnotify = true";
    let once = preserve_unmanaged_config(content, "switcher-a");
    assert_eq!(once, "[projects.\"/a\"]\ntrust_level = \"trusted\"\n[tui]\nnotify = true");
    assert_eq!(preserve_unmanaged_config(&once, "switcher-a"), once);
}
