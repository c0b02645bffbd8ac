//! What an official account's login (`auth.json`) tells about it: the
//! payloads of its JWT tokens, and the account facts read from their claims.
use vstd::prelude::*;

use crate::account::AccountInfo;
use crate::json::{jget, Json, JsonV};
use crate::provider::copy_string;
use crate::text::{chars_of, find_char, find_char_exec, lemma_find_char, slice_chars, string_of};

verus! {

/// The bytes that URL-safe base64 without padding decodes to, if valid.
pub uninterp spec fn base64_url_decoded(s: Seq<char>) -> Option<Seq<u8>>;

/// `base64`'s `URL_SAFE_NO_PAD.decode`. Only the name of the result is
/// claimed (none when the input is not valid base64); decoding is the crate's.
#[verifier::external_body]
fn decode_base64_url(input: &str) -> (r: Option<Vec<u8>>)
    ensures
        match r {
            Some(v) => base64_url_decoded(input@) == Some(v@),
            None => base64_url_decoded(input@) is None,
        },
{
    base64::Engine::decode(&base64::engine::general_purpose::URL_SAFE_NO_PAD, input).ok()
}

/// The second `.`-separated part of a token (`token.split('.').nth(1)`).
pub open spec fn payload_segment(token: Seq<char>) -> Option<Seq<char>> {
    let i = find_char(token, '.');
    if i >= token.len() {
        None
    } else {
        let rest = token.skip(i + 1);
        Some(rest.take(find_char(rest, '.')))
    }
}

/// The payload of a JWT: its second part, base64-decoded.
pub open spec fn jwt_payload_of(token: Seq<char>) -> Option<Seq<u8>> {
    match payload_segment(token) {
        Some(seg) => base64_url_decoded(seg),
        None => None,
    }
}

/// The payload bytes of a JWT, when it has a payload part that decodes.
pub fn jwt_payload(token: &str) -> (r: Option<Vec<u8>>)
    ensures
        match r {
            Some(v) => jwt_payload_of(token@) == Some(v@),
            None => jwt_payload_of(token@) is None,
        },
{
    let v = chars_of(token);
    proof {
        lemma_find_char(v@, '.');
    }
    let i = find_char_exec(&v, '.');
    if i >= v.len() {
        return None;
    }
    let rest = slice_chars(&v, i + 1, v.len());
    assert(rest@ =~= v@.skip(i + 1));
    proof {
        lemma_find_char(rest@, '.');
    }
    let j = find_char_exec(&rest, '.');
    let seg = slice_chars(&rest, 0, j);
    assert(seg@ =~= rest@.take(j as int));
    let s = string_of(&seg);
    decode_base64_url(s.as_str())
}

/// The payload of one of the login's tokens (`tokens.<which>`).
pub open spec fn token_payload_of(auth: JsonV, which: Seq<char>) -> Option<Seq<u8>> {
    match jget(auth, "tokens"@) {
        Some(tokens) => match jget(tokens, which) {
            Some(JsonV::Str(t)) => jwt_payload_of(t),
            _ => None,
        },
        None => None,
    }
}

/// The payload bytes of the token `which` (`id_token`, `access_token`) of a
/// parsed `auth.json`.
pub fn token_payload(auth: &Json, which: &str) -> (r: Option<Vec<u8>>)
    ensures
        match r {
            Some(v) => token_payload_of(auth@, which@) == Some(v@),
            None => token_payload_of(auth@, which@) is None,
        },
{
    let tokens = match auth.get("tokens") {
        Some(t) => t,
        None => return None,
    };
    match tokens.get(which) {
        Some(t) => match t.as_str() {
            Some(s) => jwt_payload(s.as_str()),
            None => None,
        },
        None => None,
    }
}

/// `v.and_then(|v| v.get(key))`.
pub open spec fn oget(v: Option<JsonV>, key: Seq<char>) -> Option<JsonV> {
    match v {
        Some(x) => jget(x, key),
        None => None,
    }
}

/// The first of the candidates that is a non-empty string.
pub open spec fn first_string_of(vals: Seq<Option<JsonV>>) -> Option<Seq<char>>
    decreases vals.len(),
{
    if vals.len() == 0 {
        None
    } else {
        match vals[0] {
            Some(JsonV::Str(s)) => if s.len() > 0 {
                Some(s)
            } else {
                first_string_of(vals.drop_first())
            },
            _ => first_string_of(vals.drop_first()),
        }
    }
}

fn oget_exec<'a>(v: Option<&'a Json>, key: &str) -> (r: Option<&'a Json>)
    ensures
        match r {
            Some(x) => oget(
                match v {
                    Some(y) => Some(y@),
                    None => None,
                },
                key@,
            ) == Some(x@),
            None => oget(
                match v {
                    Some(y) => Some(y@),
                    None => None,
                },
                key@,
            ) is None,
        },
{
    match v {
        Some(x) => x.get(key),
        None => None,
    }
}

pub open spec fn opt_view(v: Option<&Json>) -> Option<JsonV> {
    match v {
        Some(x) => Some(x@),
        None => None,
    }
}

fn first_string(vals: &Vec<Option<&Json>>) -> (r: Option<String>)
    ensures
        match r {
            Some(s) => first_string_of(vals@.map_values(|v: Option<&Json>| opt_view(v))) == Some(s@),
            None => first_string_of(vals@.map_values(|v: Option<&Json>| opt_view(v))) is None,
        },
{
    let ghost vv = vals@.map_values(|v: Option<&Json>| opt_view(v));
    let mut i: usize = 0;
    assert(vv.skip(0) =~= vv);
    while i < vals.len()
        invariant
            i <= vals.len(),
            vv == vals@.map_values(|v: Option<&Json>| opt_view(v)),
            first_string_of(vv) == first_string_of(vv.skip(i as int)),
        decreases vals.len() - i,
    {
        assert(vv.skip(i as int)[0] == opt_view(vals@[i as int]));
        assert(vv.skip(i as int).drop_first() =~= vv.skip(i + 1));
        if let Some(v) = vals[i] {
            if let Some(s) = v.as_str() {
                if chars_of(s.as_str()).len() > 0 {
                    return Some(copy_string(s));
                }
            }
        }
        i = i + 1;
    }
    None
}

pub open spec fn auth_claims_of(id: Option<JsonV>, access: Option<JsonV>) -> Option<JsonV> {
    match oget(id, "https://api.openai.com/auth"@) {
        Some(c) => Some(c),
        None => oget(access, "https://api.openai.com/auth"@),
    }
}

pub open spec fn opt_seq(s: Option<String>) -> Option<Seq<char>> {
    match s {
        Some(v) => Some(v@),
        None => None,
    }
}

/// The account facts of a login: `auth` is the parsed `auth.json`, `id` and
/// `access` the parsed payloads of its id and access tokens, when they could
/// be read. Each fact is the first non-empty string among its sources.
pub open spec fn claims_ok(auth: JsonV, id: Option<JsonV>, access: Option<JsonV>, r: AccountInfo) -> bool {
    let tokens = jget(auth, "tokens"@);
    let claims = auth_claims_of(id, access);
    let profile = oget(access, "https://api.openai.com/profile"@);
    &&& opt_seq(r.name) == first_string_of(seq![oget(id, "name"@), oget(access, "name"@)])
    &&& opt_seq(r.email) == first_string_of(seq![oget(id, "email"@), oget(profile, "email"@)])
    &&& opt_seq(r.plan) == first_string_of(seq![oget(claims, "chatgpt_plan_type"@), oget(claims, "plan_type"@)])
    &&& opt_seq(r.account_id) == first_string_of(
        seq![
            oget(tokens, "account_id"@),
            oget(claims, "chatgpt_account_id"@),
            oget(claims, "account_id"@),
        ],
    )
    &&& opt_seq(r.subscription_until) == first_string_of(seq![oget(claims, "chatgpt_subscription_active_until"@)])
}

/// The account facts of a login.
pub fn account_info_from_claims(auth: &Json, id: Option<&Json>, access: Option<&Json>) -> (r: AccountInfo)
    ensures
        claims_ok(auth@, opt_view(id), opt_view(access), r),
{
    let tokens = auth.get("tokens");
    let claims = match oget_exec(id, "https://api.openai.com/auth") {
        Some(c) => Some(c),
        None => oget_exec(access, "https://api.openai.com/auth"),
    };
    let profile = oget_exec(access, "https://api.openai.com/profile");
    let name_src = vec![oget_exec(id, "name"), oget_exec(access, "name")];
    let email_src = vec![oget_exec(id, "email"), oget_exec(profile, "email")];
    let plan_src = vec![oget_exec(claims, "chatgpt_plan_type"), oget_exec(claims, "plan_type")];
    let id_src = vec![
        oget_exec(tokens, "account_id"),
        oget_exec(claims, "chatgpt_account_id"),
        oget_exec(claims, "account_id"),
    ];
    let until_src = vec![oget_exec(claims, "chatgpt_subscription_active_until")];
    proof {
        assert(name_src@.map_values(|v: Option<&Json>| opt_view(v)) =~= seq![
            oget(opt_view(id), "name"@),
            oget(opt_view(access), "name"@),
        ]);
        assert(email_src@.map_values(|v: Option<&Json>| opt_view(v)) =~= seq![
            oget(opt_view(id), "email"@),
            oget(oget(opt_view(access), "https://api.openai.com/profile"@), "email"@),
        ]);
        let cl = auth_claims_of(opt_view(id), opt_view(access));
        assert(opt_view(claims) == cl);
        assert(plan_src@.map_values(|v: Option<&Json>| opt_view(v)) =~= seq![
            oget(cl, "chatgpt_plan_type"@),
            oget(cl, "plan_type"@),
        ]);
        assert(id_src@.map_values(|v: Option<&Json>| opt_view(v)) =~= seq![
            oget(jget(auth@, "tokens"@), "account_id"@),
            oget(cl, "chatgpt_account_id"@),
            oget(cl, "account_id"@),
        ]);
        assert(until_src@.map_values(|v: Option<&Json>| opt_view(v)) =~= seq![
            oget(cl, "chatgpt_subscription_active_until"@),
        ]);
    }
    AccountInfo {
        name: first_string(&name_src),
        email: first_string(&email_src),
        plan: first_string(&plan_src),
        account_id: first_string(&id_src),
        subscription_until: first_string(&until_src),
    }
}

} // verus!
