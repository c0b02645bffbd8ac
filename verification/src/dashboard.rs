//! What the dashboard shows of the profiles: their order, which one is
//! active, which directories count as profiles, readiness, and the tail of
//! the proxy log; and the application settings.
use vstd::prelude::*;

use crate::account::{accounts_match, opt_seq, AccountInfo};
use crate::order::{is_sorted_order, key_before, lists, seq_less, sort_order, SortKey};
use crate::provider::{copy_string, ApiProviderConfig};
use crate::text::{chars_of, has_prefix, has_suffix, lines, lines_exec, slice_chars, starts_with_str, str_eq, string_of, to_lowercase, unicode_lowercase, views};
use crate::workspace::strs;

verus! {

/// The application settings.
pub struct AppSettings {
    pub refresh_interval_seconds: u64,
    pub share_history: bool,
    pub codex_app_name: String,
}

impl Default for AppSettings {
    /// Refresh every minute, share history, and drive the app called "Codex".
    fn default() -> (r: Self)
        ensures
            r.refresh_interval_seconds == 60,
            r.share_history,
            r.codex_app_name@ == "Codex"@,
    {
        AppSettings { refresh_interval_seconds: 60, share_history: true, codex_app_name: string_of(&chars_of("Codex")) }
    }
}

/// What orders a profile card: whether it is active, its kind and its title.
pub struct ProfileRank {
    pub is_active: bool,
    pub kind: String,
    pub title: String,
}

/// Card `i` comes before card `j`: active cards first, then by kind, then by
/// lowercased title; cards alike keep their order.
pub open spec fn profile_before(r: Seq<ProfileRank>, i: int, j: int) -> bool {
    let a = r[i];
    let b = r[j];
    let la = unicode_lowercase(a.title@);
    let lb = unicode_lowercase(b.title@);
    if a.is_active != b.is_active {
        a.is_active
    } else if a.kind@ != b.kind@ {
        seq_less(a.kind@, b.kind@)
    } else if la != lb {
        seq_less(la, lb)
    } else {
        i < j
    }
}

/// The order in which the cards are shown: each position once, sorted by
/// `profile_before`.
pub fn profiles_order(ranks: &Vec<ProfileRank>) -> (r: Vec<usize>)
    ensures
        r@.len() == ranks@.len(),
        forall|a: int| 0 <= a < r@.len() ==> #[trigger] r@[a] < ranks@.len(),
        forall|j: int| 0 <= j < ranks@.len() ==> #[trigger] lists(r@, j),
        forall|a: int, b: int| 0 <= a < b < r@.len() ==> profile_before(ranks@, #[trigger] r@[a] as int, #[trigger] r@[b] as int),
{
    let mut keys: Vec<SortKey> = Vec::new();
    let mut i: usize = 0;
    while i < ranks.len()
        invariant
            i <= ranks@.len(),
            keys@.len() == i,
            forall|u: int|
                0 <= u < i ==> (#[trigger] keys@[u]).rank == (if ranks@[u].is_active { 0int } else { 1int })
                    && keys@[u].first@ == ranks@[u].kind@ && keys@[u].second@ == unicode_lowercase(ranks@[u].title@),
        decreases ranks@.len() - i,
    {
        let r = &ranks[i];
        let lowered = to_lowercase(r.title.as_str());
        keys.push(
            SortKey {
                rank: if r.is_active { 0 } else { 1 },
                first: chars_of(r.kind.as_str()),
                second: chars_of(lowered.as_str()),
            },
        );
        i = i + 1;
    }
    let order = sort_order(&keys);
    proof {
        assert forall|a: int, b: int| 0 <= a < b < order@.len() implies profile_before(
            ranks@,
            #[trigger] order@[a] as int,
            #[trigger] order@[b] as int,
        ) by {
            assert(key_before(keys@, order@[a] as int, order@[b] as int));
        }
    }
    order
}

/// A card is active when its id is the one `~/.codex` links to, or when it
/// is an account profile whose account is the one in an unsaved `~/.codex`.
pub open spec fn is_active_of(id: Seq<char>, active: Option<Seq<char>>, is_provider: bool, info: AccountInfo, current: Option<AccountInfo>) -> bool {
    active == Some(id) || (!is_provider && match current {
        Some(c) => accounts_match(opt_seq(info.account_id), opt_seq(info.email), opt_seq(c.account_id), opt_seq(c.email)),
        None => false,
    })
}

/// Whether the profile `id` is the active one (see `is_active_of`).
pub fn is_active_profile(id: &str, active: Option<&String>, is_provider: bool, info: &AccountInfo, current: Option<&AccountInfo>) -> (r: bool)
    ensures
        r == is_active_of(
            id@,
            match active {
                Some(a) => Some(a@),
                None => None,
            },
            is_provider,
            *info,
            match current {
                Some(c) => Some(*c),
                None => None,
            },
        ),
{
    let by_link = match active {
        Some(a) => str_eq(a.as_str(), id),
        None => false,
    };
    if by_link {
        return true;
    }
    if is_provider {
        return false;
    }
    match current {
        Some(c) => info.matches(c),
        None => false,
    }
}

/// The label of the active account: the title of the first active card,
/// else that of the unsaved current account, else "未连接".
pub open spec fn active_label_of(cards: Seq<(bool, Seq<char>)>, current: Option<Seq<char>>) -> Seq<char>
    decreases cards.len(),
{
    if cards.len() == 0 {
        match current {
            Some(t) => t,
            None => "未连接"@,
        }
    } else if cards[0].0 {
        cards[0].1
    } else {
        active_label_of(cards.drop_first(), current)
    }
}

pub open spec fn card_views(cards: Seq<(bool, String)>) -> Seq<(bool, Seq<char>)> {
    Seq::new(cards.len(), |i: int| (cards[i].0, cards[i].1@))
}

/// The label of the active account (see `active_label_of`); `cards` pairs
/// each card's activity with its title, in display order.
pub fn active_label(cards: &Vec<(bool, String)>, current: Option<&String>) -> (r: String)
    ensures
        r@ == active_label_of(
            card_views(cards@),
            match current {
                Some(t) => Some(t@),
                None => None,
            },
        ),
{
    let ghost cv = card_views(cards@);
    let ghost cur = match current {
        Some(t) => Some(t@),
        None => None,
    };
    let mut i: usize = 0;
    assert(cv.skip(0) =~= cv);
    while i < cards.len()
        invariant
            i <= cards@.len(),
            cv == card_views(cards@),
            cur == match current {
                Some(t) => Some(t@),
                None => None,
            },
            active_label_of(cv, cur) == active_label_of(cv.skip(i as int), cur),
        decreases cards@.len() - i,
    {
        assert(cv.skip(i as int).drop_first() =~= cv.skip(i + 1));
        assert(cv.skip(i as int)[0] == cv[i as int]);
        assert(cv[i as int] == (cards@[i as int].0, cards@[i as int].1@));
        if cards[i].0 {
            assert(active_label_of(cv.skip(i as int), cur) == cards@[i as int].1@);
            return copy_string(&cards[i].1);
        }
        i = i + 1;
    }
    match current {
        Some(t) => copy_string(t),
        None => string_of(&chars_of("未连接")),
    }
}

/// A directory of the profile root is a profile when its name does not
/// start with `.`, it is not the shared history, and it holds an account
/// (`auth.json`) or a provider.
pub open spec fn is_profile_directory_of(name: Seq<char>, has_auth: bool, is_provider: bool) -> bool {
    !has_prefix(name, "."@) && name != "_shared-history"@ && (has_auth || is_provider)
}

pub fn is_profile_directory(name: &str, has_auth: bool, is_provider: bool) -> (r: bool)
    ensures
        r == is_profile_directory_of(name@, has_auth, is_provider),
{
    let c = chars_of(name);
    !starts_with_str(&c, ".") && !str_eq(name, "_shared-history") && (has_auth || is_provider)
}

/// What a profile directory holds, as far as readiness goes.
pub struct ProfileFiles {
    pub is_provider: bool,
    pub key_exists: bool,
    pub auth: bool,
    pub config: bool,
    pub computer_use: bool,
    pub global_state: bool,
}

/// A provider profile is ready with its config, its global state and its
/// key; an account profile with its auth, config, computer-use folder and
/// global state.
pub open spec fn is_ready_of(f: ProfileFiles) -> bool {
    if f.is_provider {
        f.config && f.global_state && f.key_exists
    } else {
        f.auth && f.config && f.computer_use && f.global_state
    }
}

pub fn is_desktop_ready(f: &ProfileFiles) -> (r: bool)
    ensures
        r == is_ready_of(*f),
{
    if f.is_provider {
        f.config && f.global_state && f.key_exists
    } else {
        f.auth && f.config && f.computer_use && f.global_state
    }
}

/// The key status a provider card shows.
pub fn key_status(exists: bool) -> (r: String)
    ensures
        r@ == (if exists { "exists"@ } else { "missing"@ }),
{
    if exists {
        string_of(&chars_of("exists"))
    } else {
        string_of(&chars_of("missing"))
    }
}

/// A file of a profile directory that holds Codex Desktop state:
/// `state_*.sqlite`.
pub open spec fn is_state_database_of(name: Seq<char>) -> bool {
    has_prefix(name, "state_"@) && has_suffix(name, ".sqlite"@)
}

pub fn is_state_database(name: &str) -> (r: bool)
    ensures
        r == is_state_database_of(name@),
{
    let c = chars_of(name);
    starts_with_str(&c, "state_") && crate::text::ends_with(&c, &chars_of(".sqlite"))
}

/// The first provider with id `provider_id`, as (base URL, model).
pub open spec fn upstream_of(providers: Seq<ApiProviderConfig>, provider_id: Seq<char>) -> Option<(Seq<char>, Seq<char>)>
    decreases providers.len(),
{
    if providers.len() == 0 {
        None
    } else if providers[0].provider_id@ == provider_id {
        Some((providers[0].base_url@, providers[0].model@))
    } else {
        upstream_of(providers.drop_first(), provider_id)
    }
}

/// Where the proxy forwards the requests for `provider_id`: the base URL and
/// model of the first provider profile with that id.
pub fn provider_upstream(providers: &Vec<ApiProviderConfig>, provider_id: &str) -> (r: Option<(String, String)>)
    ensures
        match r {
            Some((b, m)) => upstream_of(providers@, provider_id@) == Some((b@, m@)),
            None => upstream_of(providers@, provider_id@) is None,
        },
{
    let ghost pv = providers@;
    let mut i: usize = 0;
    assert(pv.skip(0) =~= pv);
    while i < providers.len()
        invariant
            i <= pv.len(),
            pv == providers@,
            upstream_of(pv, provider_id@) == upstream_of(pv.skip(i as int), provider_id@),
        decreases pv.len() - i,
    {
        assert(pv.skip(i as int).drop_first() =~= pv.skip(i + 1));
        let p = &providers[i];
        if str_eq(p.provider_id.as_str(), provider_id) {
            return Some((copy_string(&p.base_url), copy_string(&p.model)));
        }
        i = i + 1;
    }
    None
}

/// The last `limit` lines of the proxy log, oldest first.
pub open spec fn log_tail_of(content: Seq<char>, limit: nat) -> Seq<Seq<char>> {
    let ls = lines(content);
    if ls.len() <= limit {
        ls
    } else {
        ls.skip(ls.len() - limit)
    }
}

/// The logs kept in the shared history.
pub enum LogKind {
    /// `proxy.log`: one line per request through the local proxy.
    Proxy,
    /// `usage.jsonl`: one record per request with its token counts.
    Usage,
}

/// The file name of a log.
pub open spec fn log_name(kind: LogKind) -> Seq<char> {
    match kind {
        LogKind::Proxy => "proxy.log"@,
        LogKind::Usage => "usage.jsonl"@,
    }
}

/// The size at which a log is moved aside: 1 MiB for the proxy log, 4 MiB
/// for the usage records.
pub open spec fn log_limit(kind: LogKind) -> u64 {
    match kind {
        LogKind::Proxy => 1048576,
        LogKind::Usage => 4194304,
    }
}

pub fn log_file_name(kind: &LogKind) -> (r: String)
    ensures
        r@ == log_name(*kind),
{
    match kind {
        LogKind::Proxy => string_of(&chars_of("proxy.log")),
        LogKind::Usage => string_of(&chars_of("usage.jsonl")),
    }
}

/// Where a log goes when it is moved aside: its name with `.1` appended.
pub fn rotated_file_name(kind: &LogKind) -> (r: String)
    ensures
        r@ == log_name(*kind) + ".1"@,
{
    let mut out = chars_of(log_file_name(kind).as_str());
    let tail = chars_of(".1");
    crate::text::extend_chars(&mut out, &tail);
    string_of(&out)
}

/// Whether a log of `size` bytes (`None` when it cannot be read) is moved
/// aside before the next line is appended: when it has reached its limit.
pub fn should_rotate(kind: &LogKind, size: Option<u64>) -> (r: bool)
    ensures
        r == (size matches Some(n) && n >= log_limit(*kind)),
{
    let limit: u64 = match kind {
        LogKind::Proxy => 1048576,
        LogKind::Usage => 4194304,
    };
    match size {
        Some(n) => n >= limit,
        None => false,
    }
}

pub fn proxy_log_tail(content: &str, limit: usize) -> (r: Vec<String>)
    ensures
        strs(r@) == log_tail_of(content@, limit as nat),
{
    let ls = lines_exec(&chars_of(content));
    let start: usize = if ls.len() > limit {
        ls.len() - limit
    } else {
        0
    };
    let mut r: Vec<String> = Vec::new();
    let mut i: usize = start;
    while i < ls.len()
        invariant
            start <= i <= ls@.len(),
            views(ls@) == lines(content@),
            start == (if ls@.len() > limit { ls@.len() - limit } else { 0 }),
            strs(r@) == views(ls@).subrange(start as int, i as int),
        decreases ls@.len() - i,
    {
        let line = string_of(&ls[i]);
        let ghost before = r@;
        r.push(line);
        assert(views(ls@)[i as int] == ls@[i as int]@);
        assert(strs(r@) =~= strs(before).push(line@));
        assert(strs(r@) =~= views(ls@).subrange(start as int, i + 1));
        i = i + 1;
    }
    assert(views(ls@).subrange(start as int, ls@.len() as int) =~= log_tail_of(content@, limit as nat));
    r
}

/// In the order of the cards, no inactive card comes before an active one,
/// and among cards alike in activity and kind the titles are in order.
pub proof fn active_cards_come_first(ranks: Seq<ProfileRank>, order: Seq<usize>, a: int, b: int)
    requires
        forall|x: int| 0 <= x < order.len() ==> #[trigger] order[x] < ranks.len(),
        forall|x: int, y: int| 0 <= x < y < order.len() ==> profile_before(ranks, #[trigger] order[x] as int, #[trigger] order[y] as int),
        0 <= a < b < order.len(),
    ensures
        ranks[order[b] as int].is_active ==> ranks[order[a] as int].is_active,
        ranks[order[a] as int].is_active == ranks[order[b] as int].is_active && ranks[order[a] as int].kind@
            == ranks[order[b] as int].kind@ ==> !seq_less(
            unicode_lowercase(ranks[order[b] as int].title@),
            unicode_lowercase(ranks[order[a] as int].title@),
        ),
{
    assert(profile_before(ranks, order[a] as int, order[b] as int));
    let la = unicode_lowercase(ranks[order[a] as int].title@);
    let lb = unicode_lowercase(ranks[order[b] as int].title@);
    let ra = ranks[order[a] as int];
    let rb = ranks[order[b] as int];
    if la != lb {
        if ra.is_active == rb.is_active && ra.kind@ == rb.kind@ {
            crate::order::lemma_seq_less_asymmetric(la, lb);
        }
    } else {
        crate::order::lemma_seq_less_irreflexive(la);
    }
}


// ---------------------------------------------------------------------------
// Commands
// ---------------------------------------------------------------------------

/// A provider profile may be deleted unless `~/.codex` links to it.
pub fn delete_provider_check(profile_id: &str, active: Option<&String>) -> (r: Result<(), String>)
    ensures
        (active matches Some(a) && a@ == profile_id@) ==> (r matches Err(e) && e@ == "不能删除当前正在使用的 API profile。"@),
        !(active matches Some(a) && a@ == profile_id@) ==> r is Ok,
{
    match active {
        Some(a) => {
            if str_eq(a.as_str(), profile_id) {
                return Err(string_of(&chars_of("不能删除当前正在使用的 API profile。")));
            }
        },
        None => {},
    }
    Ok(())
}

/// `s` with every `c` replaced by `with`.
pub open spec fn replace_char(s: Seq<char>, c: char, with: Seq<char>) -> Seq<char>
    decreases s.len(),
{
    if s.len() == 0 {
        s
    } else {
        replace_char(s.drop_last(), c, with) + (if s.last() == c {
            with
        } else {
            seq![s.last()]
        })
    }
}

fn replace_char_exec(s: &str, c: char, with: &str) -> (r: String)
    ensures
        r@ == replace_char(s@, c, with@),
{
    let v = chars_of(s);
    let mut out: Vec<char> = Vec::new();
    let mut i: usize = 0;
    assert(v@.take(0) =~= Seq::<char>::empty());
    while i < v.len()
        invariant
            i <= v@.len(),
            v@ == s@,
            out@ == replace_char(v@.take(i as int), c, with@),
        decreases v@.len() - i,
    {
        assert(v@.take(i + 1).drop_last() =~= v@.take(i as int));
        if v[i] == c {
            crate::text::extend_str(&mut out, with);
        } else {
            out.push(v[i]);
        }
        i = i + 1;
    }
    assert(v@.take(v@.len() as int) =~= v@);
    string_of(&out)
}

/// The AppleScript that opens Terminal on a login: it runs `script` (single
/// quoted) with `--login login-<timestamp>`, the command's double quotes
/// escaped for AppleScript.
pub open spec fn login_script_of(script: Seq<char>, timestamp: int) -> Seq<char> {
    let command = "'"@ + replace_char(script, '\'', "'\\''"@) + "' --login 'login-"@ + crate::text::int_text(timestamp)
        + "'"@;
    "tell application \"Terminal\"\n  activate\n  do script \""@ + replace_char(command, '"', "\\\""@)
        + "\"\nend tell"@
}

pub fn login_script(script: &str, timestamp: i64) -> (r: String)
    ensures
        r@ == login_script_of(script@, timestamp as int),
{
    let mut command = chars_of("'");
    crate::text::extend_str(&mut command, replace_char_exec(script, '\'', "'\\''").as_str());
    crate::text::extend_str(&mut command, "' --login 'login-");
    let t = crate::text::int_text_exec(timestamp);
    crate::text::extend_chars(&mut command, &t);
    crate::text::extend_str(&mut command, "'");
    let command = string_of(&command);
    let mut out = chars_of("tell application \"Terminal\"\n  activate\n  do script \"");
    crate::text::extend_str(&mut out, replace_char_exec(command.as_str(), '"', "\\\"").as_str());
    crate::text::extend_str(&mut out, "\"\nend tell");
    string_of(&out)
}


/// The error for a profile that does not exist.
pub fn missing_profile_message(profile_id: &str) -> (r: String)
    ensures
        r@ == "profile 不存在："@ + profile_id@,
{
    let mut m = chars_of("profile 不存在：");
    crate::text::extend_str(&mut m, profile_id);
    string_of(&m)
}

} // verus!
