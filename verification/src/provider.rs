//! Third-party API providers: their stored configuration, how user input is
//! normalised into it, and the Codex configuration a provider profile gets.
use vstd::prelude::*;

use crate::paths::{join_path, path_join};
use crate::slug::{candidate, first_free, name_views, slug_of, slugify, unique_candidate};
use crate::text::{
    chars_of, decimal, extend_chars, extend_str, int_text_exec, str_eq, string_of, trim,
    trim_end, trim_end_char, trim_end_char_exec, trim_exec, unicode_lowercase,
};
use crate::workspace::strs;
use crate::toml::{
    extract_project_config, preserve_unmanaged_config, preserved_config, project_sections,
    toml_bare_key, toml_escape, toml_escaped, toml_key, auth_table, escape_char,
};

verus! {

/// The port of the local proxy.
pub const PORT: u16 = 8765;

/// A provider as the dashboard shows it.
pub struct ApiProvider {
    pub id: String,
    pub name: String,
    pub base_url: String,
    pub model: String,
    pub provider_id: String,
    pub wire_api: String,
    pub key_status: String,
    pub created_at: String,
}

/// A provider as it is stored in its profile (`provider.json`).
pub struct ApiProviderConfig {
    pub id: String,
    pub name: String,
    pub base_url: String,
    pub model: String,
    pub provider_id: String,
    /// `"responses"`: the upstream speaks the Responses API itself;
    /// `"chat"`: it only speaks Chat Completions and is reached through the
    /// local proxy.
    pub wire_api: String,
    pub created_at: String,
}

/// What the user enters to add a provider.
pub struct ProviderInput {
    pub name: String,
    pub base_url: String,
    pub model: String,
    pub api_key: String,
    pub wire_api: Option<String>,
}

/// What the user enters to edit a provider; no key keeps the stored one.
pub struct ProviderUpdateInput {
    pub name: String,
    pub base_url: String,
    pub model: String,
    pub api_key: Option<String>,
    pub wire_api: Option<String>,
}

/// The answer to "is this provider profile usable?".
pub struct ProviderValidation {
    pub ok: bool,
    pub message: String,
}

/// The provider part of the profile store.
pub struct ProviderStore;

/// An edited provider, and the key to store when a new one was entered.
pub struct ProviderUpdate {
    pub config: ApiProviderConfig,
    pub new_key: Option<String>,
}

/// The protocol recorded when a provider file names none.
pub fn default_wire_api() -> (r: String)
    ensures
        r@ == "responses"@,
{
    let v = chars_of("responses");
    string_of(&v)
}

/// The keychain service under which a provider's key is stored.
pub open spec fn keychain_service_of(provider_id: Seq<char>) -> Seq<char> {
    "local.codex.account-switcher."@ + provider_id
}

impl ApiProviderConfig {
    pub fn keychain_service(&self) -> (r: String)
        ensures
            r@ == keychain_service_of(self.provider_id@),
    {
        let mut out = chars_of("local.codex.account-switcher.");
        extend_str(&mut out, self.provider_id.as_str());
        string_of(&out)
    }
}

/// A base URL without surrounding whitespace and without trailing `/`.
pub open spec fn normalized_url(s: Seq<char>) -> Seq<char> {
    trim_end_char(trim(s), '/')
}

pub fn normalized_base_url(value: &str) -> (r: String)
    ensures
        r@ == normalized_url(value@),
{
    let v = chars_of(value);
    let t = trim_exec(&v);
    let u = trim_end_char_exec(&t, '/');
    string_of(&u)
}

/// `"chat"` only when asked for (ignoring surrounding whitespace).
pub open spec fn normalized_wire(value: Option<Seq<char>>) -> Seq<char> {
    match value {
        Some(v) => if trim(v) == "chat"@ {
            "chat"@
        } else {
            "responses"@
        },
        None => "responses"@,
    }
}

pub fn normalized_wire_api(value: Option<&str>) -> (r: String)
    ensures
        r@ == normalized_wire(
            match value {
                Some(v) => Some(v@),
                None => None,
            },
        ),
{
    match value {
        Some(v) => {
            let t = trim_exec(&chars_of(v));
            let chat = chars_of("chat");
            if crate::text::chars_eq(&t, &chat) {
                string_of(&chat)
            } else {
                default_wire_api()
            }
        },
        None => default_wire_api(),
    }
}

/// The proxy address a chat-only provider's Codex config points at.
pub open spec fn upstream_url_of(provider_id: Seq<char>) -> Seq<char> {
    "http://127.0.0.1:"@ + decimal(PORT as nat) + "/v1/"@ + provider_id
}

/// The base URL written into a chat provider's `config.toml`.
pub fn upstream_url(provider_id: &str) -> (r: String)
    ensures
        r@ == upstream_url_of(provider_id@),
{
    let mut out = chars_of("http://127.0.0.1:");
    let port = int_text_exec(PORT as i64);
    assert(port@ == decimal(PORT as nat));
    extend_chars(&mut out, &port);
    extend_str(&mut out, "/v1/");
    extend_str(&mut out, provider_id);
    string_of(&out)
}

/// The slug of a provider's name (of `api-provider` for a blank name).
pub open spec fn provider_slug(name: Seq<char>) -> Seq<char> {
    let source = if trim(name).len() == 0 {
        "api-provider"@
    } else {
        name
    };
    slug_of(unicode_lowercase(source), "api-provider"@)
}

/// The directory name for a new provider: the slug of its name, made unique
/// among `existing`.
pub open spec fn provider_dir_name(name: Seq<char>, existing: Seq<Seq<char>>, id: Seq<char>) -> bool {
    exists|k: nat| first_free(provider_slug(name), existing, k) && id == candidate(provider_slug(name), k)
}

/// Copies a string so that the copy's view is known.
pub fn copy_string(s: &String) -> (r: String)
    ensures
        r@ == s@,
{
    s.clone()
}

/// Copies an optional string so that the copy's view is known.
pub fn copy_opt_string(s: &Option<String>) -> (r: Option<String>)
    ensures
        match (r, *s) {
            (Some(a), Some(b)) => a@ == b@,
            (None, None) => true,
            _ => false,
        },
{
    match s {
        Some(v) => Some(v.clone()),
        None => None,
    }
}

/// The arguments of the keychain tool that look up a provider's key.
pub open spec fn key_lookup_of(provider_id: Seq<char>) -> Seq<Seq<char>> {
    seq!["find-generic-password"@, "-w"@, "-s"@, keychain_service_of(provider_id)]
}

/// The config text that a provider profile gets.
pub open spec fn codex_config_of(
    provider_id: Seq<char>,
    model: Seq<char>,
    name: Seq<char>,
    base_url: Seq<char>,
    preserved: Seq<char>,
) -> Seq<char> {
    "model_provider = \""@ + toml_escaped(provider_id) + "\"\nmodel = \""@ + toml_escaped(model)
        + "\"\nmodel_reasoning_effort = \"medium\"\n\n[model_providers."@ + toml_key(provider_id)
        + "]\nname = \""@ + toml_escaped(name) + "\"\nbase_url = \""@ + toml_escaped(base_url)
        + "\"\nwire_api = \"responses\"\nrequires_openai_auth = false\n\n[model_providers."@
        + toml_key(provider_id)
        + ".auth]\ncommand = \"/usr/bin/security\"\nargs = [\"find-generic-password\", \"-w\", \"-s\", \""@
        + toml_escaped(keychain_service_of(provider_id)) + "\"]\n\n"@ + trim_end(preserved) + "\n"@
}

/// What writing the config again keeps: the unmanaged part of an existing config, else
/// the project tables of the template's config, else nothing.
pub open spec fn kept_config(
    provider_id: Seq<char>,
    existing: Option<Seq<char>>,
    template: Option<Seq<char>>,
) -> Seq<char> {
    match existing {
        Some(text) => preserved_config(text, provider_id),
        None => match template {
            Some(t) => project_sections(t),
            None => Seq::empty(),
        },
    }
}

/// The base URL that Codex is given: the proxy for chat-only providers.
pub open spec fn effective_base_url(wire_api: Seq<char>, provider_id: Seq<char>, base_url: Seq<char>) -> Seq<char> {
    if wire_api == "chat"@ {
        upstream_url_of(provider_id)
    } else {
        base_url
    }
}

pub open spec fn opt_view(s: Option<String>) -> Option<Seq<char>> {
    match s {
        Some(v) => Some(v@),
        None => None,
    }
}

impl ProviderStore {
    /// `<profile>/.codex-switcher/provider.json`
    pub fn provider_config_path(profile_dir: &str) -> (r: String)
        ensures
            r@ == path_join(path_join(profile_dir@, ".codex-switcher"@), "provider.json"@),
    {
        let dir = join_path(profile_dir, ".codex-switcher");
        join_path(dir.as_str(), "provider.json")
    }

    /// The configuration of a new provider. `existing` are the names already
    /// present in the profile root; `created_at` is the creation time.
    pub fn create_provider(&self, existing: &Vec<String>, input: &ProviderInput, created_at: String) -> (r:
        ApiProviderConfig)
        requires
            existing.len() < usize::MAX,
        ensures
            provider_dir_name(input.name@, name_views(existing@), r.id@),
            r.provider_id@ == "switcher-"@ + r.id@,
            r.name@ == trim(input.name@),
            r.base_url@ == normalized_url(input.base_url@),
            r.model@ == trim(input.model@),
            r.wire_api@ == normalized_wire(opt_view(input.wire_api)),
            r.created_at@ == created_at@,
    {
        let name_chars = chars_of(input.name.as_str());
        let trimmed_name = trim_exec(&name_chars);
        let slug = if trimmed_name.len() == 0 {
            slugify("api-provider", "api-provider")
        } else {
            slugify(input.name.as_str(), "api-provider")
        };
        assert(slug@ == provider_slug(input.name@));
        let id = unique_candidate(slug.as_str(), existing);
        proof {
            let k = choose|k: nat| first_free(slug@, name_views(existing@), k) && id@ == candidate(slug@, k);
            assert(first_free(slug@, name_views(existing@), k) && id@ == candidate(slug@, k));
        }
        let mut pid = chars_of("switcher-");
        extend_str(&mut pid, id.as_str());
        let wire = match &input.wire_api {
            Some(w) => normalized_wire_api(Some(w.as_str())),
            None => normalized_wire_api(None),
        };
        let model = trim_exec(&chars_of(input.model.as_str()));
        ApiProviderConfig {
            id,
            name: string_of(&trimmed_name),
            base_url: normalized_base_url(input.base_url.as_str()),
            model: string_of(&model),
            provider_id: string_of(&pid),
            wire_api: wire,
            created_at,
        }
    }

    /// An edited provider: fails when the profile holds no provider; keeps the
    /// id, provider id, creation time and (unless a new one is chosen) the
    /// protocol; takes a new key only when one was typed.
    pub fn update_provider(&self, current: Option<ApiProviderConfig>, input: ProviderUpdateInput) -> (r:
        Result<ProviderUpdate, String>)
        ensures
            current is None <==> r is Err,
            r matches Err(e) ==> e@ == "不是 API provider profile"@,
            r matches Ok(u) ==> {
                let c = current->0;
                &&& u.config.id@ == c.id@
                &&& u.config.name@ == trim(input.name@)
                &&& u.config.base_url@ == normalized_url(input.base_url@)
                &&& u.config.model@ == trim(input.model@)
                &&& u.config.provider_id@ == c.provider_id@
                &&& u.config.wire_api@ == normalized_wire(
                    match input.wire_api {
                        Some(w) => Some(w@),
                        None => Some(c.wire_api@),
                    },
                )
                &&& u.config.created_at@ == c.created_at@
                &&& match input.api_key {
                    Some(k) => if trim(k@).len() == 0 {
                        u.new_key is None
                    } else {
                        u.new_key matches Some(n) && n@ == trim(k@)
                    },
                    None => u.new_key is None,
                }
            },
    {
        let current = match current {
            Some(c) => c,
            None => {
                let e = chars_of("不是 API provider profile");
                return Err(string_of(&e));
            },
        };
        let wire = match &input.wire_api {
            Some(w) => normalized_wire_api(Some(w.as_str())),
            None => normalized_wire_api(Some(current.wire_api.as_str())),
        };
        let new_key = match &input.api_key {
            Some(k) => {
                let t = trim_exec(&chars_of(k.as_str()));
                if t.len() == 0 {
                    None
                } else {
                    Some(string_of(&t))
                }
            },
            None => None,
        };
        let name = trim_exec(&chars_of(input.name.as_str()));
        let model = trim_exec(&chars_of(input.model.as_str()));
        Ok(
            ProviderUpdate {
                config: ApiProviderConfig {
                    id: current.id,
                    name: string_of(&name),
                    base_url: normalized_base_url(input.base_url.as_str()),
                    model: string_of(&model),
                    provider_id: current.provider_id,
                    wire_api: wire,
                    created_at: current.created_at,
                },
                new_key,
            },
        )
    }

    /// The key as read back from the keychain: trimmed, and none when blank or
    /// when the lookup failed.
    pub fn read_key(&self, lookup: Option<String>) -> (r: Option<String>)
        ensures
            match lookup {
                Some(out) => if trim(out@).len() == 0 {
                    r is None
                } else {
                    r matches Some(k) && k@ == trim(out@)
                },
                None => r is None,
            },
    {
        match lookup {
            Some(out) => {
                let t = trim_exec(&chars_of(out.as_str()));
                if t.len() == 0 {
                    None
                } else {
                    Some(string_of(&t))
                }
            },
            None => None,
        }
    }

    /// Whether the keychain holds a key for the provider: the lookup
    /// command succeeded, whatever it printed.
    pub fn key_exists(&self, lookup: &Result<String, String>) -> (r: bool)
        ensures
            r == lookup is Ok,
    {
        lookup.is_ok()
    }

    /// The arguments of the keychain tool that print a provider's key.
    pub fn key_lookup_args(&self, config: &ApiProviderConfig) -> (r: Vec<String>)
        ensures
            strs(r@) == key_lookup_of(config.provider_id@),
    {
        let mut r: Vec<String> = Vec::new();
        r.push(string_of(&chars_of("find-generic-password")));
        r.push(string_of(&chars_of("-w")));
        r.push(string_of(&chars_of("-s")));
        r.push(config.keychain_service());
        assert(strs(r@) =~= seq!["find-generic-password"@, "-w"@, "-s"@, keychain_service_of(config.provider_id@)]);
        r
    }

    /// The arguments of the keychain tool that store `api_key` for a
    /// provider, trimmed; a blank key is refused.
    pub fn write_key(&self, api_key: &str, config: &ApiProviderConfig) -> (r: Result<Vec<String>, String>)
        ensures
            trim(api_key@).len() == 0 <==> r is Err,
            r matches Err(e) ==> e@ == "API key 不能为空。"@,
            r matches Ok(args) ==> strs(args@) == seq![
                "add-generic-password"@,
                "-U"@,
                "-s"@,
                keychain_service_of(config.provider_id@),
                "-a"@,
                config.provider_id@,
                "-w"@,
                trim(api_key@),
            ],
    {
        let key = trim_exec(&chars_of(api_key));
        if key.len() == 0 {
            return Err(string_of(&chars_of("API key 不能为空。")));
        }
        let mut r: Vec<String> = Vec::new();
        r.push(string_of(&chars_of("add-generic-password")));
        r.push(string_of(&chars_of("-U")));
        r.push(string_of(&chars_of("-s")));
        r.push(config.keychain_service());
        r.push(string_of(&chars_of("-a")));
        r.push(copy_string(&config.provider_id));
        r.push(string_of(&chars_of("-w")));
        r.push(string_of(&key));
        assert(strs(r@) =~= seq![
            "add-generic-password"@,
            "-U"@,
            "-s"@,
            keychain_service_of(config.provider_id@),
            "-a"@,
            config.provider_id@,
            "-w"@,
            trim(api_key@),
        ]);
        Ok(r)
    }

    /// The arguments of the keychain tool that delete a provider's key.
    pub fn delete_key(&self, config: &ApiProviderConfig) -> (r: Vec<String>)
        ensures
            strs(r@) == seq!["delete-generic-password"@, "-s"@, keychain_service_of(config.provider_id@)],
    {
        let mut r: Vec<String> = Vec::new();
        r.push(string_of(&chars_of("delete-generic-password")));
        r.push(string_of(&chars_of("-s")));
        r.push(config.keychain_service());
        assert(strs(r@) =~= seq!["delete-generic-password"@, "-s"@, keychain_service_of(config.provider_id@)]);
        r
    }

    /// The `config.toml` text for a provider profile. `existing` is the text
    /// of the profile's current config when it has one; `template` that of the
    /// config of the profile it is created from, if any.
    pub fn codex_config(&self, config: &ApiProviderConfig, existing: Option<String>, template: Option<String>) -> (r:
        String)
        ensures
            r@ == codex_config_of(
                config.provider_id@,
                config.model@,
                config.name@,
                effective_base_url(config.wire_api@, config.provider_id@, config.base_url@),
                kept_config(config.provider_id@, opt_view(existing), opt_view(template)),
            ),
    {
        let pid = config.provider_id.as_str();
        let preserved = match &existing {
            Some(text) => preserve_unmanaged_config(text.as_str(), pid),
            None => match &template {
                Some(t) => extract_project_config(t.as_str()),
                None => String::new(),
            },
        };
        let base = if str_eq(config.wire_api.as_str(), "chat") {
            upstream_url(pid)
        } else {
            copy_string(&config.base_url)
        };
        let key = toml_bare_key(pid);
        let service = config.keychain_service();
        let mut out = chars_of("model_provider = \"");
        extend_str(&mut out, toml_escape(pid).as_str());
        extend_str(&mut out, "\"\nmodel = \"");
        extend_str(&mut out, toml_escape(config.model.as_str()).as_str());
        extend_str(&mut out, "\"\nmodel_reasoning_effort = \"medium\"\n\n[model_providers.");
        extend_str(&mut out, key.as_str());
        extend_str(&mut out, "]\nname = \"");
        extend_str(&mut out, toml_escape(config.name.as_str()).as_str());
        extend_str(&mut out, "\"\nbase_url = \"");
        extend_str(&mut out, toml_escape(base.as_str()).as_str());
        extend_str(&mut out, "\"\nwire_api = \"responses\"\nrequires_openai_auth = false\n\n[model_providers.");
        extend_str(&mut out, key.as_str());
        extend_str(
            &mut out,
            ".auth]\ncommand = \"/usr/bin/security\"\nargs = [\"find-generic-password\", \"-w\", \"-s\", \"",
        );
        extend_str(&mut out, toml_escape(service.as_str()).as_str());
        extend_str(&mut out, "\"]\n\n");
        let p = chars_of(preserved.as_str());
        let pe = crate::text::trim_end_exec(&p);
        extend_chars(&mut out, &pe);
        extend_str(&mut out, "\n");
        string_of(&out)
    }
}

/// Whether a provider profile is usable: a provider file, a config and a key.
pub fn provider_validation(is_provider: bool, config_exists: bool, key_ready: bool) -> (r: ProviderValidation)
    ensures
        r.ok == (is_provider && config_exists && key_ready),
        !is_provider ==> r.message@ == "不是 API provider"@,
        is_provider && key_ready ==> r.message@ == "Keychain ready"@,
        is_provider && !key_ready ==> r.message@ == "Keychain 缺少 API key"@,
{
    if !is_provider {
        return ProviderValidation { ok: false, message: string_of(&chars_of("不是 API provider")) };
    }
    ProviderValidation {
        ok: config_exists && key_ready,
        message: if key_ready {
            string_of(&chars_of("Keychain ready"))
        } else {
            string_of(&chars_of("Keychain 缺少 API key"))
        },
    }
}


/// A new provider profile gets a directory of its own inside the profile
/// root: its name is not among the names already there, and it is made of
/// ASCII letters, digits and single dashes (so it holds no `/` and is
/// neither `.` nor `..`).
pub proof fn new_provider_dir_is_fresh_and_safe(name: Seq<char>, existing: Seq<Seq<char>>, id: Seq<char>)
    requires
        provider_dir_name(name, existing, id),
    ensures
        !existing.contains(id),
        crate::slug::slug_shaped(id),
{
    let slug = provider_slug(name);
    let k = choose|k: nat| first_free(slug, existing, k) && id == candidate(slug, k);
    let source = if trim(name).len() == 0 {
        "api-provider"@
    } else {
        name
    };
    crate::slug::slug_is_shaped(unicode_lowercase(source), "api-provider"@);
    reveal_strlit("api-provider");
    let f = "api-provider"@;
    assert(f.len() == 12);
    assert forall|i: int| 0 <= i < f.len() implies crate::text::is_ascii_alnum(#[trigger] f[i]) || f[i] == '-' by {}
    assert forall|i: int| 0 <= i < f.len() - 1 implies !(#[trigger] f[i] == '-' && f[i + 1] == '-') by {}
    assert(crate::slug::slug_shaped(f));
    crate::slug::candidates_are_shaped(slug, k);
}


/// A provider that only speaks Chat Completions is reached through the
/// local proxy: Codex is pointed at `http://127.0.0.1:8765/v1/<provider id>`;
/// any other provider at its own base URL.
pub proof fn chat_providers_use_the_proxy(wire_api: Seq<char>, provider_id: Seq<char>, base_url: Seq<char>)
    ensures
        wire_api == "chat"@ ==> effective_base_url(wire_api, provider_id, base_url) == "http://127.0.0.1:8765/v1/"@
            + provider_id,
        wire_api != "chat"@ ==> effective_base_url(wire_api, provider_id, base_url) == base_url,
{
    reveal_strlit("http://127.0.0.1:");
    reveal_strlit("/v1/");
    reveal_strlit("http://127.0.0.1:8765/v1/");
    reveal_with_fuel(decimal, 5);
    assert(decimal(8765) =~= seq!['8', '7', '6', '5']);
    assert("http://127.0.0.1:"@ + decimal(PORT as nat) + "/v1/"@ =~= "http://127.0.0.1:8765/v1/"@);
}

/// A basic TOML string.
pub open spec fn toml_quoted(s: Seq<char>) -> Seq<char> {
    "\""@ + toml_escaped(s) + "\""@
}

/// The items of a TOML array of strings, separated by `, `.
pub open spec fn toml_list_items(s: Seq<Seq<char>>) -> Seq<char>
    decreases s.len(),
{
    if s.len() == 0 {
        Seq::empty()
    } else if s.len() == 1 {
        toml_quoted(s[0])
    } else {
        toml_list_items(s.drop_last()) + ", "@ + toml_quoted(s.last())
    }
}

/// Text without `\` and `"` needs no escaping.
proof fn lemma_escaped_plain(s: Seq<char>)
    requires
        forall|i: int| 0 <= i < s.len() ==> #[trigger] s[i] != '\\' && s[i] != '"',
    ensures
        toml_escaped(s) == s,
    decreases s.len(),
{
    if s.len() > 0 {
        lemma_escaped_plain(s.drop_last());
        assert(s[s.len() - 1] != '\\' && s[s.len() - 1] != '"');
        assert(s.drop_last() + escape_char(s.last()) =~= s);
    }
}

/// The API key never goes into `config.toml`: the text is made from the
/// provider's settings and the kept text alone, and the only credential it
/// names is its last table, the keychain lookup that Codex runs to read the
/// key, with the very arguments the application looks the key up with.
pub proof fn config_names_only_the_key_lookup(
    provider_id: Seq<char>,
    model: Seq<char>,
    name: Seq<char>,
    base_url: Seq<char>,
    preserved: Seq<char>,
)
    ensures
        exists|head: Seq<char>|
            codex_config_of(provider_id, model, name, base_url, preserved) == head + auth_table(provider_id)
                + "\ncommand = \"/usr/bin/security\"\nargs = ["@ + toml_list_items(key_lookup_of(provider_id))
                + "]\n\n"@ + trim_end(preserved) + "\n"@,
{
    reveal_strlit("find-generic-password");
    reveal_strlit("-w");
    reveal_strlit("-s");
    reveal_strlit("\"");
    reveal_strlit(", ");
    reveal_strlit("[model_providers.");
    reveal_strlit(".auth]");
    reveal_strlit("\ncommand = \"/usr/bin/security\"\nargs = [");
    reveal_strlit("]\n\n");
    reveal_strlit(".auth]\ncommand = \"/usr/bin/security\"\nargs = [\"find-generic-password\", \"-w\", \"-s\", \"");
    reveal_strlit("\"]\n\n");
    let a = "find-generic-password"@;
    let b = "-w"@;
    let c = "-s"@;
    assert forall|i: int| 0 <= i < a.len() implies #[trigger] a[i] != '\\' && a[i] != '"' by {}
    assert forall|i: int| 0 <= i < b.len() implies #[trigger] b[i] != '\\' && b[i] != '"' by {}
    assert forall|i: int| 0 <= i < c.len() implies #[trigger] c[i] != '\\' && c[i] != '"' by {}
    lemma_escaped_plain(a);
    lemma_escaped_plain(b);
    lemma_escaped_plain(c);
    let l = key_lookup_of(provider_id);
    let svc = keychain_service_of(provider_id);
    assert(l.drop_last() =~= seq![a, b, c]);
    assert(seq![a, b, c].drop_last() =~= seq![a, b]);
    assert(seq![a, b].drop_last() =~= seq![a]);
    assert(toml_list_items(seq![a]) == toml_quoted(a));
    assert(toml_list_items(seq![a, b]) == toml_list_items(seq![a]) + ", "@ + toml_quoted(b));
    assert(toml_list_items(seq![a, b, c]) == toml_list_items(seq![a, b]) + ", "@ + toml_quoted(c));
    assert(toml_list_items(l) == toml_list_items(seq![a, b, c]) + ", "@ + toml_quoted(svc));
    reveal_strlit("\"find-generic-password\", \"-w\", \"-s\", \"");
    assert(toml_list_items(l) =~= "\"find-generic-password\", \"-w\", \"-s\", \""@ + toml_escaped(svc) + "\""@);
    reveal_strlit("model_provider = \"");
    reveal_strlit("\"\nmodel = \"");
    reveal_strlit("\"\nmodel_reasoning_effort = \"medium\"\n\n[model_providers.");
    reveal_strlit("]\nname = \"");
    reveal_strlit("\"\nbase_url = \"");
    reveal_strlit("\"\nwire_api = \"responses\"\nrequires_openai_auth = false\n\n[model_providers.");
    reveal_strlit("\"\nwire_api = \"responses\"\nrequires_openai_auth = false\n\n");
    reveal_strlit("\n");
    let text = codex_config_of(provider_id, model, name, base_url, preserved);
    let head = "model_provider = \""@ + toml_escaped(provider_id) + "\"\nmodel = \""@ + toml_escaped(model)
        + "\"\nmodel_reasoning_effort = \"medium\"\n\n[model_providers."@ + toml_key(provider_id)
        + "]\nname = \""@ + toml_escaped(name) + "\"\nbase_url = \""@ + toml_escaped(base_url)
        + "\"\nwire_api = \"responses\"\nrequires_openai_auth = false\n\n"@;
    let tail = auth_table(provider_id) + "\ncommand = \"/usr/bin/security\"\nargs = ["@ + toml_list_items(l) + "]\n\n"@
        + trim_end(preserved) + "\n"@;
    assert(text =~= head + tail);
    assert(text =~= head + auth_table(provider_id) + "\ncommand = \"/usr/bin/security\"\nargs = ["@ + toml_list_items(l)
        + "]\n\n"@ + trim_end(preserved) + "\n"@);
}

} // verus!
