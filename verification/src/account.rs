//! Official ChatGPT accounts: what is known of one, how it is titled and
//! matched, and the labels of a profile card.
use vstd::prelude::*;

use crate::provider::{copy_opt_string, copy_string, ApiProviderConfig};
use crate::slug::{candidate, first_free, name_views, slug_of, slugify, unique_candidate};
use crate::text::{
    boundary_at, char_index_at_byte, char_to_uppercase, chars_of, eq_ignore_ascii_case,
    eq_ignore_ascii_case_exec, extend_chars, extend_str, is_char_boundary, lemma_boundary_unique,
    slice_chars, str_eq, string_of, to_lowercase, trim_end_char, trim_end_char_exec,
    unicode_lowercase, unicode_uppercase, utf8_len,
};

verus! {

/// What the login tokens say about an account.
pub struct AccountInfo {
    pub name: Option<String>,
    pub email: Option<String>,
    pub plan: Option<String>,
    pub account_id: Option<String>,
    pub subscription_until: Option<String>,
}

/// Where a profile's files stand, as the dashboard reports it.
pub struct ProfileDiagnostics {
    pub profile_path: String,
    pub codex_home_path: String,
    pub sessions_shared: bool,
    pub session_index_shared: bool,
    pub desktop_state_shared: bool,
    pub workspace_shared: bool,
    pub config_exists: bool,
    pub auth_exists: bool,
    pub keychain_ready: bool,
}

/// The texts of a profile card.
pub struct ProfileLabels {
    pub kind: String,
    pub title: String,
    pub subtitle: String,
    pub primary_pill: String,
}

pub open spec fn opt_seq(s: Option<String>) -> Option<Seq<char>> {
    match s {
        Some(v) => Some(v@),
        None => None,
    }
}

/// The characters of `s` that lie between byte offsets `from` and `to`
/// (`&s[from..to]`), where both are character boundaries.
pub open spec fn byte_range(s: Seq<char>, from: nat, to: nat) -> Seq<char> {
    let i = choose|i: int| boundary_at(s, from, i);
    let j = choose|j: int| boundary_at(s, to, j);
    s.subrange(i, j)
}

pub open spec fn min_nat(a: nat, b: nat) -> nat {
    if a <= b {
        a
    } else {
        b
    }
}

/// `&id[..id.len().min(8)]` can be taken: the 8th byte is not inside a character.
pub open spec fn short_id_ok(id: Seq<char>) -> bool {
    utf8_len(id) <= 8 || is_char_boundary(id, 8)
}

/// The first eight bytes of an account id.
pub open spec fn short_id(id: Seq<char>) -> Seq<char> {
    byte_range(id, 0, min_nat(8, utf8_len(id)))
}

/// The title of an account: its email, else its name, else a short form of
/// its id, else "Unknown account".
pub open spec fn title_of(email: Option<Seq<char>>, name: Option<Seq<char>>, account_id: Option<Seq<char>>) -> Seq<
    char,
> {
    match email {
        Some(e) => e,
        None => match name {
            Some(n) => n,
            None => match account_id {
                Some(id) => "Account "@ + short_id(id),
                None => "Unknown account"@,
            },
        },
    }
}

/// The subtitle: the name when it is set and differs from the email.
pub open spec fn subtitle_of(name: Option<Seq<char>>, email: Option<Seq<char>>) -> Seq<char> {
    match name {
        Some(n) => if email != Some(n) && n.len() > 0 {
            n
        } else {
            "ChatGPT 账号"@
        },
        None => "ChatGPT 账号"@,
    }
}

/// A Plus plan with a known end date shows that date (`&until[5..10]`, the
/// month and day of an ISO date).
pub open spec fn shows_plus_until(plan: Seq<char>, until: Option<Seq<char>>) -> bool {
    eq_ignore_ascii_case(plan, "plus"@) && until is Some && utf8_len(until->0) >= 10
}

/// The date part of a Plus plan can be cut out of the end date.
pub open spec fn plan_display_ok(plan: Option<Seq<char>>, until: Option<Seq<char>>) -> bool {
    plan matches Some(p) && shows_plus_until(p, until) ==> is_char_boundary(until->0, 5)
        && is_char_boundary(until->0, 10)
}

/// The plan as shown: "Plus 至 MM-DD" for Plus with an end date; otherwise the
/// plan with its first character uppercased; "Unknown" when there is none.
pub open spec fn plan_display_of(plan: Option<Seq<char>>, until: Option<Seq<char>>) -> Seq<char> {
    match plan {
        None => "Unknown"@,
        Some(p) => if shows_plus_until(p, until) {
            "Plus 至 "@ + byte_range(until->0, 5, 10)
        } else if p.len() == 0 {
            "Unknown"@
        } else {
            unicode_uppercase(p[0]) + p.drop_first()
        },
    }
}

/// Two accounts are the same: by account id when this one has a non-empty
/// id and the other has one; else by email, ignoring ASCII case, when this
/// one has a non-empty email and the other has one.
pub open spec fn accounts_match(
    id: Option<Seq<char>>,
    email: Option<Seq<char>>,
    other_id: Option<Seq<char>>,
    other_email: Option<Seq<char>>,
) -> bool {
    if id is Some && other_id is Some && id->0.len() > 0 {
        id->0 == other_id->0
    } else if email is Some && other_email is Some && email->0.len() > 0 {
        eq_ignore_ascii_case(email->0, other_email->0)
    } else {
        false
    }
}

/// The characters of `s` between byte offsets `from` and `to`.
fn byte_slice(v: &[char], from: usize, to: usize) -> (r: Vec<char>)
    requires
        from <= to,
        is_char_boundary(v@, from as nat),
        is_char_boundary(v@, to as nat),
    ensures
        r@ == byte_range(v@, from as nat, to as nat),
{
    let i = char_index_at_byte(v, from);
    let j = char_index_at_byte(v, to);
    let i = match i {
        Some(i) => i,
        None => 0,
    };
    let j = match j {
        Some(j) => j,
        None => 0,
    };
    proof {
        let ci = choose|x: int| boundary_at(v@, from as nat, x);
        let cj = choose|x: int| boundary_at(v@, to as nat, x);
        lemma_boundary_unique(v@, from as nat, i as int, ci);
        lemma_boundary_unique(v@, to as nat, j as int, cj);
        if i > j {
            crate::text::lemma_utf8_len_take_mono(v@, j as int, i as int);
        }
    }
    slice_chars(v, i, j)
}

impl AccountInfo {
    /// The account's title.
    pub fn title(&self) -> (r: String)
        requires
            self.email is None && self.name is None && self.account_id is Some ==> short_id_ok(
                self.account_id->0@,
            ),
        ensures
            r@ == title_of(opt_seq(self.email), opt_seq(self.name), opt_seq(self.account_id)),
    {
        if let Some(email) = &self.email {
            return copy_string(email);
        }
        if let Some(name) = &self.name {
            return copy_string(name);
        }
        if let Some(id) = &self.account_id {
            let v = chars_of(id.as_str());
            let short = match char_index_at_byte(&v, 8) {
                Some(k) => {
                    proof {
                        assert(v@.take(v@.len() as int) == v@);
                        if (k as int) < v@.len() {
                            crate::text::lemma_utf8_len_take_mono(v@, k as int, v@.len() as int);
                        }
                        assert(min_nat(8, utf8_len(v@)) == 8);
                    }
                    slice_chars(&v, 0, k)
                },
                None => {
                    proof {
                        assert(v@.take(v@.len() as int) == v@);
                        assert(boundary_at(v@, utf8_len(v@), v@.len() as int));
                        assert(min_nat(8, utf8_len(v@)) == utf8_len(v@));
                    }
                    slice_chars(&v, 0, v.len())
                },
            };
            proof {
                let m = min_nat(8, utf8_len(v@));
                assert(boundary_at(v@, m, short@.len() as int));
                assert(boundary_at(v@, 0, 0));
                let ci = choose|x: int| boundary_at(v@, 0, x);
                let cj = choose|x: int| boundary_at(v@, m, x);
                lemma_boundary_unique(v@, 0, 0, ci);
                lemma_boundary_unique(v@, m, short@.len() as int, cj);
                assert(short@ =~= v@.subrange(ci, cj));
            }
            let mut out = chars_of("Account ");
            extend_chars(&mut out, &short);
            return string_of(&out);
        }
        string_of(&chars_of("Unknown account"))
    }

    /// The account's subtitle. The account id is not shown.
    pub fn subtitle(&self) -> (r: String)
        ensures
            r@ == subtitle_of(opt_seq(self.name), opt_seq(self.email)),
    {
        if let Some(name) = &self.name {
            let same_as_email = match &self.email {
                Some(e) => str_eq(name.as_str(), e.as_str()),
                None => false,
            };
            if !same_as_email && chars_of(name.as_str()).len() > 0 {
                return copy_string(name);
            }
        }
        string_of(&chars_of("ChatGPT 账号"))
    }

    /// Whether the labels of this account can be cut out as the card shows
    /// them: a Plus end date is cut at bytes 5 and 10, and an id that stands
    /// in for the title at byte 8; cutting inside a character is refused.
    pub fn labels_can_be_cut(&self) -> (r: bool)
        ensures
            r == (plan_display_ok(opt_seq(self.plan), opt_seq(self.subscription_until)) && (self.email is None
                && self.name is None && self.account_id is Some ==> short_id_ok(self.account_id->0@))),
    {
        let plan_ok = match (&self.plan, &self.subscription_until) {
            (Some(plan), Some(until)) => {
                let u = chars_of(until.as_str());
                if eq_ignore_ascii_case_exec(plan.as_str(), "plus") && utf8_len_at_least(&u, 10) {
                    char_index_at_byte(&u, 5).is_some() && char_index_at_byte(&u, 10).is_some()
                } else {
                    true
                }
            },
            _ => true,
        };
        let id_ok = match (&self.email, &self.name, &self.account_id) {
            (None, None, Some(id)) => {
                let v = chars_of(id.as_str());
                if utf8_len_at_least(&v, 9) {
                    char_index_at_byte(&v, 8).is_some()
                } else {
                    true
                }
            },
            _ => true,
        };
        plan_ok && id_ok
    }

    /// The plan as the profile card shows it.
    pub fn plan_display(&self) -> (r: String)
        requires
            plan_display_ok(opt_seq(self.plan), opt_seq(self.subscription_until)),
        ensures
            r@ == plan_display_of(opt_seq(self.plan), opt_seq(self.subscription_until)),
    {
        let plan = match &self.plan {
            Some(p) => p,
            None => return string_of(&chars_of("Unknown")),
        };
        if eq_ignore_ascii_case_exec(plan.as_str(), "plus") {
            if let Some(until) = &self.subscription_until {
                let u = chars_of(until.as_str());
                if utf8_len_at_least(&u, 10) {
                    let part = byte_slice(&u, 5, 10);
                    let mut out = chars_of("Plus 至 ");
                    extend_chars(&mut out, &part);
                    return string_of(&out);
                }
            }
        }
        let p = chars_of(plan.as_str());
        if p.len() == 0 {
            return string_of(&chars_of("Unknown"));
        }
        let first = char_to_uppercase(p[0]);
        let mut out = chars_of(first.as_str());
        let rest = slice_chars(&p, 1, p.len());
        extend_chars(&mut out, &rest);
        assert(rest@ =~= p@.drop_first());
        string_of(&out)
    }

    /// Whether `other` is the same account.
    pub fn matches(&self, other: &AccountInfo) -> (r: bool)
        ensures
            r == accounts_match(
                opt_seq(self.account_id),
                opt_seq(self.email),
                opt_seq(other.account_id),
                opt_seq(other.email),
            ),
    {
        if let (Some(left), Some(right)) = (&self.account_id, &other.account_id) {
            if chars_of(left.as_str()).len() > 0 {
                return str_eq(left.as_str(), right.as_str());
            }
        }
        if let (Some(left), Some(right)) = (&self.email, &other.email) {
            if chars_of(left.as_str()).len() > 0 {
                return eq_ignore_ascii_case_exec(left.as_str(), right.as_str());
            }
        }
        false
    }
}

/// Whether a character sequence takes at least `n` bytes in UTF-8.
fn utf8_len_at_least(v: &[char], n: usize) -> (r: bool)
    requires
        n <= usize::MAX - 4,
    ensures
        r == (utf8_len(v@) >= n),
{
    let mut i: usize = 0;
    let mut m: usize = 0;
    assert(v@.take(0) =~= Seq::<char>::empty());
    while i < v.len() && m < n
        invariant
            i <= v.len(),
            n <= usize::MAX - 4,
            m == utf8_len(v@.take(i as int)),
            m < n + 4,
        decreases v.len() - i,
    {
        assert(v@.take(i + 1).drop_last() == v@.take(i as int));
        m = m + crate::text::char_width_exec(v[i]);
        i = i + 1;
    }
    proof {
        if i == v.len() {
            assert(v@.take(i as int) == v@);
        } else {
            crate::text::lemma_utf8_len_take_mono(v@, i as int, v@.len() as int);
            assert(v@.take(v@.len() as int) == v@);
        }
    }
    m >= n
}


// ---------------------------------------------------------------------------
// Profile cards
// ---------------------------------------------------------------------------

/// Index of the first `//` in `s`, or `s.len()` when there is none.
pub open spec fn first_double_slash(s: Seq<char>) -> int
    decreases s.len(),
{
    if s.len() < 2 {
        s.len() as int
    } else if s[0] == '/' && s[1] == '/' {
        0
    } else {
        1 + first_double_slash(s.drop_first())
    }
}

/// `s.split("//").last()`: what follows the last separator found scanning
/// from the left.
pub open spec fn after_last_separator(s: Seq<char>) -> Seq<char>
    decreases s.len(),
{
    let i = first_double_slash(s);
    if 0 <= i && i + 2 <= s.len() {
        after_last_separator(s.skip(i + 2))
    } else {
        s
    }
}

proof fn lemma_first_double_slash(s: Seq<char>, k: int)
    requires
        0 <= k <= s.len(),
        forall|j: int| 0 <= j < k && j + 1 < s.len() ==> !(#[trigger] s[j] == '/' && s[j + 1] == '/'),
    ensures
        k + 1 < s.len() && s[k] == '/' && s[k + 1] == '/' ==> first_double_slash(s) == k,
        !(k + 1 < s.len()) ==> first_double_slash(s) >= s.len() - 1 && !(0 <= first_double_slash(s)
            && first_double_slash(s) + 2 <= s.len()),
    decreases k,
{
    if k > 0 && s.len() >= 2 {
        let t = s.drop_first();
        assert forall|j: int| 0 <= j < k - 1 && j + 1 < t.len() implies !(#[trigger] t[j] == '/' && t[j + 1] == '/') by {
            assert(t[j] == s[j + 1] && t[j + 1] == s[j + 2]);
        }
        lemma_first_double_slash(t, k - 1);
        assert(!(s[0] == '/' && s[1] == '/'));
    }
}

/// The host part of a base URL: after the scheme separator, without a
/// trailing `/`.
pub open spec fn url_host(base_url: Seq<char>) -> Seq<char> {
    trim_end_char(after_last_separator(base_url), '/')
}

fn after_last_separator_exec(v: &[char]) -> (r: Vec<char>)
    ensures
        r@ == after_last_separator(v@),
{
    let mut start: usize = 0;
    let mut i: usize = 0;
    assert(v@.skip(0) == v@);
    while i < v.len() && v.len() - i > 1
        invariant
            start <= i <= v.len(),
            after_last_separator(v@) == after_last_separator(v@.skip(start as int)),
            forall|j: int| start <= j < i && j + 1 < v.len() ==> !(#[trigger] v@[j] == '/' && v@[j + 1] == '/'),
        decreases v.len() - i,
    {
        if v[i] == '/' && v[i + 1] == '/' {
            let ghost t = v@.skip(start as int);
            proof {
                assert forall|j: int| 0 <= j < i - start && j + 1 < t.len() implies !(#[trigger] t[j] == '/' && t[j
                    + 1] == '/') by {
                    assert(t[j] == v@[start + j] && t[j + 1] == v@[start + j + 1]);
                }
                lemma_first_double_slash(t, i - start);
                assert(t.skip(i - start + 2) =~= v@.skip(i + 2));
            }
            start = i + 2;
            i = i + 2;
        } else {
            i = i + 1;
        }
    }
    proof {
        let t = v@.skip(start as int);
        assert forall|j: int| 0 <= j < t.len() && j + 1 < t.len() implies !(#[trigger] t[j] == '/' && t[j + 1]
            == '/') by {
            assert(t[j] == v@[start + j] && t[j + 1] == v@[start + j + 1]);
        }
        lemma_first_double_slash(t, t.len() as int);
    }
    slice_chars(v, start, v.len())
}

/// The labels of a profile card: for a provider its name, model and host, and
/// its protocol; for an account its title, subtitle and plan.
pub open spec fn labels_ok(info: AccountInfo, provider: Option<ApiProviderConfig>, r: ProfileLabels) -> bool {
    match provider {
        Some(p) => {
            &&& r.kind@ == "api"@
            &&& r.title@ == p.name@
            &&& r.subtitle@ == p.model@ + " · "@ + url_host(p.base_url@)
            &&& r.primary_pill@ == (if p.wire_api@ == "chat"@ {
                "Chat · 本地代理"@
            } else {
                "Responses API"@
            })
        },
        None => {
            &&& r.kind@ == "official"@
            &&& r.title@ == title_of(opt_seq(info.email), opt_seq(info.name), opt_seq(info.account_id))
            &&& r.subtitle@ == subtitle_of(opt_seq(info.name), opt_seq(info.email))
            &&& r.primary_pill@ == plan_display_of(opt_seq(info.plan), opt_seq(info.subscription_until))
        },
    }
}

/// The labels of a profile card.
pub fn profile_labels(info: &AccountInfo, provider: Option<&ApiProviderConfig>) -> (r: ProfileLabels)
    requires
        provider is None ==> plan_display_ok(opt_seq(info.plan), opt_seq(info.subscription_until)),
        provider is None ==> (info.email is None && info.name is None && info.account_id is Some
            ==> short_id_ok(info.account_id->0@)),
    ensures
        labels_ok(
            *info,
            match provider {
                Some(p) => Some(*p),
                None => None,
            },
            r,
        ),
{
    match provider {
        Some(p) => {
            let host0 = after_last_separator_exec(&chars_of(p.base_url.as_str()));
            let host = trim_end_char_exec(&host0, '/');
            let mut sub = chars_of(p.model.as_str());
            extend_str(&mut sub, " · ");
            extend_chars(&mut sub, &host);
            let pill = if str_eq(p.wire_api.as_str(), "chat") {
                string_of(&chars_of("Chat · 本地代理"))
            } else {
                string_of(&chars_of("Responses API"))
            };
            ProfileLabels {
                kind: string_of(&chars_of("api")),
                title: copy_string(&p.name),
                subtitle: string_of(&sub),
                primary_pill: pill,
            }
        },
        None => ProfileLabels {
            kind: string_of(&chars_of("official")),
            title: info.title(),
            subtitle: info.subtitle(),
            primary_pill: info.plan_display(),
        },
    }
}

/// The account facts recorded for a provider profile.
pub fn provider_account_info(p: &ApiProviderConfig) -> (r: AccountInfo)
    ensures
        opt_seq(r.name) == Some(p.name@),
        r.email is None,
        opt_seq(r.plan) == Some("api"@),
        opt_seq(r.account_id) == Some(p.provider_id@),
        r.subscription_until is None,
{
    AccountInfo {
        name: Some(copy_string(&p.name)),
        email: None,
        plan: Some(string_of(&chars_of("api"))),
        account_id: Some(copy_string(&p.provider_id)),
        subscription_until: None,
    }
}

/// The slug base for saving an account: its email, else name, else id.
pub open spec fn account_slug(info: AccountInfo) -> Seq<char> {
    let base = match opt_seq(info.email) {
        Some(e) => e,
        None => match opt_seq(info.name) {
            Some(n) => n,
            None => match opt_seq(info.account_id) {
                Some(i) => i,
                None => "codex-account"@,
            },
        },
    };
    let slug = slug_of(unicode_lowercase(base), "codex-account"@);
    match opt_seq(info.plan) {
        Some(p) => if p.len() > 0 {
            slug + "-"@ + unicode_lowercase(p)
        } else {
            slug
        },
        None => slug,
    }
}

/// The directory name under which the current account is saved: the slug of
/// its email (else name, else id), followed by its lowercased plan, made
/// unique among `existing`.
pub fn suggested_profile_id(info: &AccountInfo, existing: &Vec<String>) -> (r: String)
    requires
        existing.len() < usize::MAX,
    ensures
        exists|k: nat| first_free(account_slug(*info), name_views(existing@), k) && r@ == candidate(
            account_slug(*info),
            k,
        ),
{
    let base: &str = match &info.email {
        Some(e) => e.as_str(),
        None => match &info.name {
            Some(n) => n.as_str(),
            None => match &info.account_id {
                Some(i) => i.as_str(),
                None => "codex-account",
            },
        },
    };
    let slug = slugify(base, "codex-account");
    let mut out = chars_of(slug.as_str());
    if let Some(plan) = &info.plan {
        if chars_of(plan.as_str()).len() > 0 {
            out.push('-');
            let lowered = to_lowercase(plan.as_str());
            extend_str(&mut out, lowered.as_str());
            proof {
                reveal_strlit("-");
            }
            assert(out@ =~= slug@ + "-"@ + unicode_lowercase(plan@));
        }
    }
    let full = string_of(&out);
    assert(full@ == account_slug(*info));
    unique_candidate(full.as_str(), existing)
}


/// An account with an id or an email is recognised as itself, so that the
/// account in an unsaved `~/.codex` is matched by the profile saved from it.
pub proof fn account_matches_itself(id: Option<Seq<char>>, email: Option<Seq<char>>)
    requires
        (id matches Some(i) && i.len() > 0) || (email matches Some(e) && e.len() > 0),
    ensures
        accounts_match(id, email, id, email),
{
}

} // verus!
