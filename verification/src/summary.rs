//! The cost dashboard: recorded requests of API providers added up per
//! provider and per model, heaviest first.
use vstd::prelude::*;

use crate::json::{Json, JsonV};
use crate::order::{is_sorted_order, key_before, seq_less, sort_order, SortKey};
use crate::provider::copy_string;
use crate::text::{chars_eq, chars_of, slice_chars, string_of};

verus! {

/// One recorded request: provider id, model, input and output tokens.
pub struct UsageRecord {
    pub provider: String,
    pub model: String,
    pub input: u64,
    pub output: u64,
}

/// The usage of one model of a provider.
pub struct ModelUsage {
    pub model: String,
    pub requests: u64,
    pub input_tokens: u64,
    pub output_tokens: u64,
}

/// The usage of one provider.
pub struct ProviderUsage {
    pub provider_id: String,
    pub name: String,
    pub requests: u64,
    pub input_tokens: u64,
    pub output_tokens: u64,
    pub models: Vec<ModelUsage>,
}

/// The usage of all providers.
pub struct UsageSummary {
    pub total_requests: u64,
    pub total_input_tokens: u64,
    pub total_output_tokens: u64,
    pub providers: Vec<ProviderUsage>,
}

pub type RecV = (Seq<char>, Seq<char>, u64, u64);

pub open spec fn rec_view(r: UsageRecord) -> RecV {
    (r.provider@, r.model@, r.input, r.output)
}

pub open spec fn recs_view(rs: Seq<UsageRecord>) -> Seq<RecV> {
    Seq::new(rs.len(), |i: int| rec_view(rs[i]))
}

/// Requests, input and output tokens of the records of provider `p`.
pub open spec fn agg_p(rs: Seq<RecV>, p: Seq<char>) -> (nat, nat, nat)
    decreases rs.len(),
{
    if rs.len() == 0 {
        (0, 0, 0)
    } else {
        let a = agg_p(rs.drop_last(), p);
        let r = rs.last();
        if r.0 == p {
            (a.0 + 1, a.1 + r.2 as nat, a.2 + r.3 as nat)
        } else {
            a
        }
    }
}

/// Requests, input and output tokens of the records of model `m` of provider `p`.
pub open spec fn agg_pm(rs: Seq<RecV>, p: Seq<char>, m: Seq<char>) -> (nat, nat, nat)
    decreases rs.len(),
{
    if rs.len() == 0 {
        (0, 0, 0)
    } else {
        let a = agg_pm(rs.drop_last(), p, m);
        let r = rs.last();
        if r.0 == p && r.1 == m {
            (a.0 + 1, a.1 + r.2 as nat, a.2 + r.3 as nat)
        } else {
            a
        }
    }
}

/// Requests, input and output tokens of all records.
pub open spec fn agg_all(rs: Seq<RecV>) -> (nat, nat, nat)
    decreases rs.len(),
{
    if rs.len() == 0 {
        (0, 0, 0)
    } else {
        let a = agg_all(rs.drop_last());
        let r = rs.last();
        (a.0 + 1, a.1 + r.2 as nat, a.2 + r.3 as nat)
    }
}

proof fn lemma_agg_bounds(rs: Seq<RecV>, p: Seq<char>, m: Seq<char>)
    ensures
        agg_pm(rs, p, m).0 <= agg_p(rs, p).0 <= agg_all(rs).0,
        agg_pm(rs, p, m).1 <= agg_p(rs, p).1 <= agg_all(rs).1,
        agg_pm(rs, p, m).2 <= agg_p(rs, p).2 <= agg_all(rs).2,
        agg_all(rs).0 == rs.len(),
    decreases rs.len(),
{
    if rs.len() > 0 {
        lemma_agg_bounds(rs.drop_last(), p, m);
    }
}

proof fn lemma_agg_zero(rs: Seq<RecV>, p: Seq<char>, m: Seq<char>)
    ensures
        agg_p(rs, p).0 == 0 ==> agg_p(rs, p) == (0nat, 0nat, 0nat),
        agg_pm(rs, p, m).0 == 0 ==> agg_pm(rs, p, m) == (0nat, 0nat, 0nat),
    decreases rs.len(),
{
    if rs.len() > 0 {
        lemma_agg_zero(rs.drop_last(), p, m);
    }
}

proof fn lemma_agg_all_prefix(rs: Seq<RecV>, i: int)
    requires
        0 <= i <= rs.len(),
    ensures
        agg_all(rs.take(i)).1 <= agg_all(rs).1,
        agg_all(rs.take(i)).2 <= agg_all(rs).2,
    decreases rs.len() - i,
{
    if i < rs.len() {
        lemma_agg_all_prefix(rs, i + 1);
        assert(rs.take(i + 1).drop_last() == rs.take(i));
    } else {
        assert(rs.take(i) == rs);
    }
}

/// The display name of a provider: the last name recorded for its id among
/// the provider profiles, else the id itself.
pub open spec fn name_of(names: Seq<(Seq<char>, Seq<char>)>, id: Seq<char>) -> Seq<char>
    decreases names.len(),
{
    if names.len() == 0 {
        id
    } else if names.last().0 == id {
        names.last().1
    } else {
        name_of(names.drop_last(), id)
    }
}

pub open spec fn names_view(names: Seq<(String, String)>) -> Seq<(Seq<char>, Seq<char>)> {
    Seq::new(names.len(), |i: int| (names[i].0@, names[i].1@))
}

/// The models `ms` of provider `id`: one entry per model with records of
/// that provider, with its totals, ordered by input tokens (most first) and
/// then by name.
pub open spec fn models_ok(rs: Seq<RecV>, id: Seq<char>, ms: Seq<ModelUsage>) -> bool {
    &&& forall|m: Seq<char>| agg_pm(rs, id, m).0 > 0 <==> exists|j: int| 0 <= j < ms.len() && (#[trigger] ms[j]).model@ == m
    &&& forall|j: int|
        0 <= j < ms.len() ==> ((#[trigger] ms[j]).requests as nat, ms[j].input_tokens as nat, ms[j].output_tokens as nat)
            == agg_pm(rs, id, ms[j].model@)
    &&& forall|a: int, b: int|
        0 <= a < b < ms.len() ==> (#[trigger] ms[a]).input_tokens > (#[trigger] ms[b]).input_tokens || (
        ms[a].input_tokens == ms[b].input_tokens && seq_less(ms[a].model@, ms[b].model@))
}

/// One provider entry: its name, its totals and its models.
pub open spec fn provider_ok(rs: Seq<RecV>, names: Seq<(Seq<char>, Seq<char>)>, pu: ProviderUsage) -> bool {
    let id = pu.provider_id@;
    &&& pu.name@ == name_of(names, id)
    &&& (pu.requests as nat, pu.input_tokens as nat, pu.output_tokens as nat) == agg_p(rs, id)
    &&& models_ok(rs, id, pu.models@)
}

/// The summary of `rs`: totals of all records; one entry per provider that
/// occurs, with its name and its totals, ordered by input tokens (most
/// first) and then by id; and within each, one entry per model that occurs,
/// with its totals, ordered the same way.
pub open spec fn summary_ok(rs: Seq<RecV>, names: Seq<(Seq<char>, Seq<char>)>, s: UsageSummary) -> bool {
    let ps = s.providers@;
    &&& s.total_requests == agg_all(rs).0
    &&& s.total_input_tokens == agg_all(rs).1
    &&& s.total_output_tokens == agg_all(rs).2
    &&& forall|p: Seq<char>| agg_p(rs, p).0 > 0 <==> exists|i: int| 0 <= i < ps.len() && (#[trigger] ps[i]).provider_id@ == p
    &&& forall|i: int| 0 <= i < ps.len() ==> provider_ok(rs, names, #[trigger] ps[i])
    &&& forall|a: int, b: int|
        0 <= a < b < ps.len() ==> (#[trigger] ps[a]).input_tokens > (#[trigger] ps[b]).input_tokens || (
        ps[a].input_tokens == ps[b].input_tokens && seq_less(ps[a].provider_id@, ps[b].provider_id@))
}

/// One record of the usage log: its provider, model and token counts
/// (empty strings and zeros where missing).
pub fn usage_record(record: &Json) -> (r: UsageRecord)
    ensures
        r.provider@ == crate::proxy::str_or_empty(crate::json::jget_str(record@, "provider"@)),
        r.model@ == crate::proxy::str_or_empty(crate::json::jget_str(record@, "model"@)),
        r.input == (match crate::json::jget_u64(record@, "input"@) {
            Some(n) => n,
            None => 0,
        }),
        r.output == (match crate::json::jget_u64(record@, "output"@) {
            Some(n) => n,
            None => 0,
        }),
{
    let provider = match record.get("provider") {
        Some(v) => match v.as_str() {
            Some(s) => copy_string(s),
            None => String::new(),
        },
        None => String::new(),
    };
    let model = match record.get("model") {
        Some(v) => match v.as_str() {
            Some(s) => copy_string(s),
            None => String::new(),
        },
        None => String::new(),
    };
    let input = match record.get("input") {
        Some(v) => match v.as_u64() {
            Some(n) => n,
            None => 0,
        },
        None => 0,
    };
    let output = match record.get("output") {
        Some(v) => match v.as_u64() {
            Some(n) => n,
            None => 0,
        },
        None => 0,
    };
    UsageRecord { provider, model, input, output }
}


/// The usage log line for one forwarded request.
pub open spec fn usage_line_of(ts: Seq<char>, provider: Seq<char>, model: Seq<char>, input: u64, output: u64) -> JsonV {
    JsonV::Object(
        seq![
            ("ts"@, JsonV::Str(ts)),
            ("provider"@, JsonV::Str(provider)),
            ("model"@, JsonV::Str(model)),
            ("input"@, JsonV::UInt(input)),
            ("output"@, JsonV::UInt(output)),
        ],
    )
}

/// The record appended to the usage log for one forwarded request, at time
/// `ts`.
pub fn usage_line(ts: &str, provider_id: &str, model: &str, input_tokens: u64, output_tokens: u64) -> (r: Json)
    ensures
        r@ == usage_line_of(ts@, provider_id@, model@, input_tokens, output_tokens),
{
    crate::json::obj5(
        "ts",
        Json::string(ts),
        "provider",
        Json::string(provider_id),
        "model",
        Json::string(model),
        "input",
        Json::UInt(input_tokens),
        "output",
        Json::UInt(output_tokens),
    )
}

/// What is recorded is what is read back: the record read from a usage line
/// has the provider, model and token counts that were written.
pub proof fn usage_line_reads_back(ts: Seq<char>, provider: Seq<char>, model: Seq<char>, input: u64, output: u64)
    ensures
        ({
            let v = usage_line_of(ts, provider, model, input, output);
            &&& crate::proxy::str_or_empty(crate::json::jget_str(v, "provider"@)) == provider
            &&& crate::proxy::str_or_empty(crate::json::jget_str(v, "model"@)) == model
            &&& crate::json::jget_u64(v, "input"@) == Some(input)
            &&& crate::json::jget_u64(v, "output"@) == Some(output)
        }),
{
    reveal_strlit("ts");
    reveal_strlit("provider");
    reveal_strlit("model");
    reveal_strlit("input");
    reveal_strlit("output");
    let v = usage_line_of(ts, provider, model, input, output);
    let m = seq![
        ("ts"@, JsonV::Str(ts)),
        ("provider"@, JsonV::Str(provider)),
        ("model"@, JsonV::Str(model)),
        ("input"@, JsonV::UInt(input)),
        ("output"@, JsonV::UInt(output)),
    ];
    assert(m.drop_first()[0].0 == "provider"@);
    assert("ts"@.len() == 2 && "provider"@.len() == 8 && "model"@.len() == 5 && "input"@.len() == 5 && "output"@.len() == 6);
    assert("model"@[0] != "input"@[0]);
    assert(m[0].0 != "provider"@);
    assert(m[0].0 != "model"@ && m[1].0 != "model"@);
    assert(m[0].0 != "input"@ && m[1].0 != "input"@ && m[2].0 != "input"@);
    assert(m[0].0 != "output"@ && m[1].0 != "output"@ && m[2].0 != "output"@ && m[3].0 != "output"@);
    crate::json::lemma_find_key(m, "provider"@);
    crate::json::lemma_find_key(m, "model"@);
    crate::json::lemma_find_key(m, "input"@);
    crate::json::lemma_find_key(m, "output"@);
}

/// The per-provider and per-model totals of the first `n` records, as the
/// grouping loop keeps them.
pub open spec fn groups_ok(
    rv: Seq<RecV>,
    ids: Seq<Vec<char>>,
    stats: Seq<(u64, u64, u64)>,
    mg: Seq<(usize, Vec<char>, u64, u64, u64)>,
) -> bool {
    &&& stats.len() == ids.len()
    &&& forall|a: int, b: int| 0 <= a < b < ids.len() ==> (#[trigger] ids[a])@ != (#[trigger] ids[b])@
    &&& forall|g: int|
        0 <= g < ids.len() ==> ((#[trigger] stats[g]).0 as nat, stats[g].1 as nat, stats[g].2 as nat) == agg_p(rv, ids[g]@)
    &&& forall|g: int| 0 <= g < ids.len() ==> (#[trigger] stats[g]).0 > 0
    &&& forall|p: Seq<char>| #[trigger] agg_p(rv, p).0 > 0 ==> exists|g: int| 0 <= g < ids.len() && (#[trigger] ids[g])@ == p
    &&& forall|k: int| 0 <= k < mg.len() ==> (#[trigger] mg[k]).0 < ids.len()
    &&& forall|k: int|
        0 <= k < mg.len() ==> ((#[trigger] mg[k]).2 as nat, mg[k].3 as nat, mg[k].4 as nat) == agg_pm(
            rv,
            ids[mg[k].0 as int]@,
            mg[k].1@,
        )
    &&& forall|k: int| 0 <= k < mg.len() ==> (#[trigger] mg[k]).2 > 0
    &&& forall|p: Seq<char>, m: Seq<char>|
        #[trigger] agg_pm(rv, p, m).0 > 0 ==> exists|k: int|
            0 <= k < mg.len() && ids[(#[trigger] mg[k]).0 as int]@ == p && mg[k].1@ == m
    &&& forall|a: int, b: int|
        0 <= a < b < mg.len() ==> (#[trigger] mg[a]).0 != (#[trigger] mg[b]).0 || mg[a].1@ != mg[b].1@
}

fn find_id(ids: &Vec<Vec<char>>, p: &Vec<char>) -> (r: usize)
    ensures
        r <= ids.len(),
        r < ids.len() ==> ids@[r as int]@ == p@,
        forall|j: int| 0 <= j < r ==> (#[trigger] ids@[j])@ != p@,
{
    let mut k: usize = 0;
    while k < ids.len()
        invariant
            k <= ids.len(),
            forall|j: int| 0 <= j < k ==> (#[trigger] ids@[j])@ != p@,
        decreases ids.len() - k,
    {
        if chars_eq(&ids[k], p) {
            return k;
        }
        k = k + 1;
    }
    k
}

fn find_model(mg: &Vec<(usize, Vec<char>, u64, u64, u64)>, g: usize, m: &Vec<char>) -> (r: usize)
    ensures
        r <= mg.len(),
        r < mg.len() ==> mg@[r as int].0 == g && mg@[r as int].1@ == m@,
        forall|j: int| 0 <= j < r ==> (#[trigger] mg@[j]).0 != g || mg@[j].1@ != m@,
{
    let mut k: usize = 0;
    while k < mg.len()
        invariant
            k <= mg.len(),
            forall|j: int| 0 <= j < k ==> (#[trigger] mg@[j]).0 != g || mg@[j].1@ != m@,
        decreases mg.len() - k,
    {
        if mg[k].0 == g && chars_eq(&mg[k].1, m) {
            return k;
        }
        k = k + 1;
    }
    k
}

/// Totals per provider and per model of the records, in order of first
/// appearance.
fn group_records(records: &Vec<UsageRecord>) -> (r: (Vec<Vec<char>>, Vec<(u64, u64, u64)>, Vec<(usize, Vec<char>, u64, u64, u64)>))
    requires
        agg_all(recs_view(records@)).1 <= u64::MAX,
        agg_all(recs_view(records@)).2 <= u64::MAX,
    ensures
        groups_ok(recs_view(records@), r.0@, r.1@, r.2@),
{
    let ghost rv = recs_view(records@);
    let mut ids: Vec<Vec<char>> = Vec::new();
    let mut stats: Vec<(u64, u64, u64)> = Vec::new();
    let mut mg: Vec<(usize, Vec<char>, u64, u64, u64)> = Vec::new();
    let mut i: usize = 0;
    assert(rv.take(0) =~= Seq::<RecV>::empty());
    while i < records.len()
        invariant
            i <= records.len(),
            rv == recs_view(records@),
            agg_all(rv).1 <= u64::MAX,
            agg_all(rv).2 <= u64::MAX,
            groups_ok(rv.take(i as int), ids@, stats@, mg@),
        decreases records.len() - i,
    {
        let ghost pre = rv.take(i as int);
        let ghost post = rv.take(i + 1);
        let rec = &records[i];
        let ghost r = rec_view(*rec);
        assert(post.drop_last() == pre);
        assert(post.last() == r);
        let p = chars_of(rec.provider.as_str());
        let m = chars_of(rec.model.as_str());
        proof {
            lemma_agg_bounds(post, p@, m@);
            lemma_agg_all_prefix(rv, i + 1);
            assert forall|q: Seq<char>| q != p@ implies agg_p(post, q) == agg_p(pre, q) by {}
            assert forall|q: Seq<char>, n: Seq<char>| !(q == p@ && n == m@) implies agg_pm(post, q, n) == agg_pm(pre, q, n) by {}
        }
        let ghost ids0 = ids@;
        let ghost stats0 = stats@;
        let ghost mg0 = mg@;
        let k = find_id(&ids, &p);
        let g: usize;
        if k < ids.len() {
            let st = stats[k];
            proof {
                assert(ids0[k as int]@ == p@);
                assert(((stats0[k as int]).0 as nat, stats0[k as int].1 as nat, stats0[k as int].2 as nat) == agg_p(pre, ids0[k as int]@));
            }
            stats.set(k, (st.0 + 1, st.1 + rec.input, st.2 + rec.output));
            g = k;
            proof {
                assert((stats@[g as int].0 as nat, stats@[g as int].1 as nat, stats@[g as int].2 as nat) == agg_p(post, p@));
            }
        } else {
            proof {
                if agg_p(pre, p@).0 > 0 {
                    let gg = choose|gg: int| 0 <= gg < ids0.len() && (#[trigger] ids0[gg])@ == p@;
                    assert(ids0[gg]@ != p@);
                }
                lemma_agg_zero(pre, p@, m@);
            }
            ids.push(p);
            stats.push((1, rec.input, rec.output));
            g = k;
            proof {
                assert((stats@[g as int].0 as nat, stats@[g as int].1 as nat, stats@[g as int].2 as nat) == agg_p(post, p@));
            }
        }
        let ghost ids1 = ids@;
        let ghost stats1 = stats@;
        proof {
            assert(ids1[g as int]@ == rec.provider@);
            assert forall|a: int, b: int| 0 <= a < b < ids1.len() implies (#[trigger] ids1[a])@ != (#[trigger] ids1[b])@ by {
                if b == ids0.len() {
                    assert(ids1[a] == ids0[a]);
                }
            }
            assert forall|gg: int| 0 <= gg < ids1.len() implies ((#[trigger] stats1[gg]).0 as nat, stats1[gg].1 as nat, stats1[gg].2 as nat) == agg_p(post, ids1[gg]@) && stats1[gg].0 > 0 by {
                if gg != g {
                    assert(ids1[gg] == ids0[gg]);
                    assert(ids0[gg]@ != p@);
                }
            }
            assert forall|q: Seq<char>| #[trigger] agg_p(post, q).0 > 0 implies exists|gg: int| 0 <= gg < ids1.len() && (#[trigger] ids1[gg])@ == q by {
                if q == p@ {
                    assert(ids1[g as int]@ == q);
                } else {
                    assert(agg_p(pre, q).0 > 0);
                    let gg = choose|gg: int| 0 <= gg < ids0.len() && (#[trigger] ids0[gg])@ == q;
                    assert(ids1[gg] == ids0[gg]);
                }
            }
        }
        let mk = find_model(&mg, g, &m);
        if mk < mg.len() {
            let e = &mg[mk];
            proof {
                assert(((mg0[mk as int]).2 as nat, mg0[mk as int].3 as nat, mg0[mk as int].4 as nat) == agg_pm(pre, ids0[mg0[mk as int].0 as int]@, mg0[mk as int].1@));
                assert(ids0[g as int]@ == p@);
            }
            let upd = (e.0, slice_chars(&e.1, 0, e.1.len()), e.2 + 1, e.3 + rec.input, e.4 + rec.output);
            assert(upd.1@ =~= mg0[mk as int].1@);
            mg.set(mk, upd);
            proof {
                assert((mg@[mk as int].2 as nat, mg@[mk as int].3 as nat, mg@[mk as int].4 as nat) == agg_pm(post, p@, m@));
            }
        } else {
            proof {
                if agg_pm(pre, p@, m@).0 > 0 {
                    let kk = choose|kk: int| 0 <= kk < mg0.len() && ids0[(#[trigger] mg0[kk]).0 as int]@ == p@ && mg0[kk].1@ == m@;
                    if mg0[kk].0 != g {
                        assert(ids1[mg0[kk].0 as int] == ids0[mg0[kk].0 as int]);
                        assert(ids1[g as int]@ == p@);
                    }
                }
                lemma_agg_zero(pre, p@, m@);
            }
            mg.push((g, m, 1, rec.input, rec.output));
            proof {
                assert((mg@[mk as int].2 as nat, mg@[mk as int].3 as nat, mg@[mk as int].4 as nat) == agg_pm(post, p@, m@));
            }
        }
        proof {
            let mg1 = mg@;
            assert forall|kk: int| 0 <= kk < mg1.len() implies (#[trigger] mg1[kk]).0 < ids1.len() by {
                if kk != mk {
                    assert(mg1[kk] == mg0[kk]);
                }
            }
            assert forall|kk: int| 0 <= kk < mg1.len() implies ((#[trigger] mg1[kk]).2 as nat, mg1[kk].3 as nat, mg1[kk].4 as nat) == agg_pm(post, ids1[mg1[kk].0 as int]@, mg1[kk].1@) && mg1[kk].2 > 0 by {
                if kk != mk {
                    assert(mg1[kk] == mg0[kk]);
                    assert(ids1[mg0[kk].0 as int] == ids0[mg0[kk].0 as int]);
                    if ids0[mg0[kk].0 as int]@ == p@ {
                        assert(mg0[kk].0 == g);
                    }
                }
            }
            assert forall|q: Seq<char>, n: Seq<char>| #[trigger] agg_pm(post, q, n).0 > 0 implies exists|kk: int| 0 <= kk < mg1.len() && ids1[(#[trigger] mg1[kk]).0 as int]@ == q && mg1[kk].1@ == n by {
                if q == p@ && n == m@ {
                    assert(ids1[mg1[mk as int].0 as int]@ == q && mg1[mk as int].1@ == n);
                } else {
                    assert(agg_pm(pre, q, n).0 > 0);
                    let kk = choose|kk: int| 0 <= kk < mg0.len() && ids0[(#[trigger] mg0[kk]).0 as int]@ == q && mg0[kk].1@ == n;
                    assert(mg1[kk] == mg0[kk]);
                    assert(ids1[mg0[kk].0 as int] == ids0[mg0[kk].0 as int]);
                }
            }
            assert forall|a: int, b: int| 0 <= a < b < mg1.len() implies (#[trigger] mg1[a]).0 != (#[trigger] mg1[b]).0 || mg1[a].1@ != mg1[b].1@ by {
                if b == mg0.len() {
                    assert(mg1[a] == mg0[a]);
                } else if a == mk {
                    assert(mg1[b] == mg0[b]);
                } else if b == mk {
                    assert(mg1[a] == mg0[a]);
                } else {
                    assert(mg1[a] == mg0[a] && mg1[b] == mg0[b]);
                }
            }
        }
        i = i + 1;
    }
    assert(rv.take(records.len() as int) == rv);
    (ids, stats, mg)
}

/// Totals of requests, input and output tokens of all records.
fn total_usage(records: &Vec<UsageRecord>) -> (t: (u64, u64, u64))
    requires
        agg_all(recs_view(records@)).1 <= u64::MAX,
        agg_all(recs_view(records@)).2 <= u64::MAX,
    ensures
        (t.0 as nat, t.1 as nat, t.2 as nat) == agg_all(recs_view(records@)),
{
    let ghost rv = recs_view(records@);
    let mut t: (u64, u64, u64) = (0, 0, 0);
    let mut i: usize = 0;
    assert(rv.take(0) =~= Seq::<RecV>::empty());
    while i < records.len()
        invariant
            i <= records.len(),
            rv == recs_view(records@),
            agg_all(rv).1 <= u64::MAX,
            agg_all(rv).2 <= u64::MAX,
            (t.0 as nat, t.1 as nat, t.2 as nat) == agg_all(rv.take(i as int)),
        decreases records.len() - i,
    {
        proof {
            let post = rv.take(i + 1);
            assert(post.drop_last() == rv.take(i as int));
            lemma_agg_bounds(post, Seq::empty(), Seq::empty());
            lemma_agg_all_prefix(rv, i + 1);
        }
        t = (t.0 + 1, t.1 + records[i].input, t.2 + records[i].output);
        i = i + 1;
    }
    assert(rv.take(records.len() as int) == rv);
    t
}

/// Model entry `u` is entry `e` of the grouping table, of provider group `g`.
pub open spec fn entry_of(u: ModelUsage, e: (usize, Vec<char>, u64, u64, u64), g: usize) -> bool {
    &&& e.0 == g
    &&& u.model@ == e.1@
    &&& u.requests == e.2
    &&& u.input_tokens == e.3
    &&& u.output_tokens == e.4
}

/// Model entry `u` is one of the entries of group `g` of the table.
pub open spec fn from_table(mg: Seq<(usize, Vec<char>, u64, u64, u64)>, g: usize, u: ModelUsage) -> bool {
    exists|k: int| 0 <= k < mg.len() && #[trigger] entry_of(u, mg[k], g)
}

/// `ms` holds the entries of group `g` of the table, heaviest first, then by name.
pub open spec fn models_of(mg: Seq<(usize, Vec<char>, u64, u64, u64)>, g: usize, ms: Seq<ModelUsage>) -> bool {
    &&& forall|j: int| 0 <= j < ms.len() ==> from_table(mg, g, #[trigger] ms[j])
    &&& forall|k: int| 0 <= k < mg.len() && (#[trigger] mg[k]).0 == g ==> exists|j: int| 0 <= j < ms.len() && #[trigger] entry_of(ms[j], mg[k], g)
    &&& forall|a: int, b: int|
        0 <= a < b < ms.len() ==> (#[trigger] ms[a]).input_tokens > (#[trigger] ms[b]).input_tokens || (
        ms[a].input_tokens == ms[b].input_tokens && seq_less(ms[a].model@, ms[b].model@))
}

/// The model entries of provider group `g`, heaviest first, then by name.
fn group_models(mg: &Vec<(usize, Vec<char>, u64, u64, u64)>, g: usize) -> (ms: Vec<ModelUsage>)
    requires
        forall|a: int, b: int| 0 <= a < b < mg@.len() ==> (#[trigger] mg@[a]).0 != (#[trigger] mg@[b]).0 || mg@[a].1@ != mg@[b].1@,
    ensures
        models_of(mg@, g, ms@),
{
    let mut sel: Vec<usize> = Vec::new();
    let mut k: usize = 0;
    while k < mg.len()
        invariant
            k <= mg.len(),
            forall|t: int| 0 <= t < sel@.len() ==> #[trigger] sel@[t] < k && mg@[sel@[t] as int].0 == g,
            forall|t1: int, t2: int| 0 <= t1 < t2 < sel@.len() ==> #[trigger] sel@[t1] < #[trigger] sel@[t2],
            forall|kk: int| 0 <= kk < k && (#[trigger] mg@[kk]).0 == g ==> exists|t: int| 0 <= t < sel@.len() && sel@[t] == kk,
        decreases mg.len() - k,
    {
        if mg[k].0 == g {
            let ghost old_sel = sel@;
            sel.push(k);
            proof {
                assert forall|kk: int| 0 <= kk < k + 1 && (#[trigger] mg@[kk]).0 == g implies exists|t: int| 0 <= t < sel@.len() && sel@[t] == kk by {
                    if kk == k {
                        assert(sel@[old_sel.len() as int] == kk);
                    } else {
                        let t = choose|t: int| 0 <= t < old_sel.len() && old_sel[t] == kk;
                        assert(sel@[t] == kk);
                    }
                }
            }
        }
        k = k + 1;
    }
    let mut keys: Vec<SortKey> = Vec::new();
    let mut t: usize = 0;
    while t < sel.len()
        invariant
            t <= sel@.len(),
            keys@.len() == t,
            forall|t: int| 0 <= t < sel@.len() ==> #[trigger] sel@[t] < mg@.len(),
            forall|u: int|
                0 <= u < t ==> (#[trigger] keys@[u]).rank == -(mg@[sel@[u] as int].3 as int) && keys@[u].first@ == mg@[sel@[u] as int].1@
                    && keys@[u].second@ == Seq::<char>::empty(),
        decreases sel@.len() - t,
    {
        let e = &mg[sel[t]];
        let first = slice_chars(&e.1, 0, e.1.len());
        assert(first@ =~= e.1@);
        keys.push(SortKey { rank: -(e.3 as i128), first, second: Vec::new() });
        t = t + 1;
    }
    let order = sort_order(&keys);
    let mut ms: Vec<ModelUsage> = Vec::new();
    let mut a: usize = 0;
    while a < order.len()
        invariant
            a <= order@.len(),
            ms@.len() == a,
            is_sorted_order(keys@, order@),
            keys@.len() == sel@.len(),
            forall|t: int| 0 <= t < sel@.len() ==> #[trigger] sel@[t] < mg@.len(),
            forall|u: int| 0 <= u < a ==> #[trigger] entry_of(ms@[u], mg@[sel@[order@[u] as int] as int], g),
            forall|t: int| 0 <= t < sel@.len() ==> mg@[#[trigger] sel@[t] as int].0 == g,
        decreases order@.len() - a,
    {
        let kk = sel[order[a]];
        let e = &mg[kk];
        ms.push(ModelUsage { model: string_of(&e.1), requests: e.2, input_tokens: e.3, output_tokens: e.4 });
        a = a + 1;
    }
    proof {
        let msv = ms@;
        let mgv = mg@;
        assert forall|j: int| 0 <= j < msv.len() implies from_table(mgv, g, #[trigger] msv[j]) by {
            let k = sel@[order@[j] as int] as int;
            assert(entry_of(msv[j], mgv[k], g));
        }
        assert forall|k: int| 0 <= k < mgv.len() && (#[trigger] mgv[k]).0 == g implies exists|j: int| 0 <= j < msv.len() && #[trigger] entry_of(msv[j], mgv[k], g) by {
            let t = choose|t: int| 0 <= t < sel@.len() && sel@[t] == k;
            assert(crate::order::lists(order@, t));
            let j = choose|j: int| 0 <= j < order@.len() && #[trigger] order@[j] == t;
            assert(entry_of(msv[j], mgv[k], g));
        }
        assert forall|x: int, y: int| 0 <= x < y < msv.len() implies (#[trigger] msv[x]).input_tokens > (#[trigger] msv[y]).input_tokens || (
            msv[x].input_tokens == msv[y].input_tokens && seq_less(msv[x].model@, msv[y].model@)) by {
            let tx = order@[x] as int;
            let ty = order@[y] as int;
            assert(key_before(keys@, tx, ty));
            assert(entry_of(msv[x], mgv[sel@[tx] as int], g));
            assert(entry_of(msv[y], mgv[sel@[ty] as int], g));
            if tx == ty {
                assert(!key_before(keys@, tx, ty));
            }
            if tx < ty {
                assert(sel@[tx] < sel@[ty]);
            } else {
                assert(sel@[ty] < sel@[tx]);
            }
        }
    }
    ms
}

/// The display name recorded last for provider `id`, else `id` itself.
fn provider_name(names: &Vec<(String, String)>, id: &String) -> (r: String)
    ensures
        r@ == name_of(names_view(names@), id@),
{
    let ghost nv = names_view(names@);
    let mut i: usize = names.len();
    assert(nv.take(names.len() as int) == nv);
    while i > 0
        invariant
            i <= names@.len(),
            nv == names_view(names@),
            name_of(nv, id@) == name_of(nv.take(i as int), id@),
        decreases i,
    {
        i = i - 1;
        assert(nv.take(i + 1).drop_last() == nv.take(i as int));
        if crate::text::str_eq(names[i].0.as_str(), id.as_str()) {
            return copy_string(&names[i].1);
        }
    }
    copy_string(id)
}

proof fn lemma_provider_ok(
    rv: Seq<RecV>,
    names: Seq<(Seq<char>, Seq<char>)>,
    ids: Seq<Vec<char>>,
    stats: Seq<(u64, u64, u64)>,
    mg: Seq<(usize, Vec<char>, u64, u64, u64)>,
    g: usize,
    pu: ProviderUsage,
)
    requires
        groups_ok(rv, ids, stats, mg),
        g < ids.len(),
        pu.provider_id@ == ids[g as int]@,
        pu.name@ == name_of(names, ids[g as int]@),
        (pu.requests, pu.input_tokens, pu.output_tokens) == stats[g as int],
        models_of(mg, g, pu.models@),
    ensures
        provider_ok(rv, names, pu),
{
    let id = ids[g as int]@;
    let ms = pu.models@;
    assert(((stats[g as int]).0 as nat, stats[g as int].1 as nat, stats[g as int].2 as nat) == agg_p(rv, ids[g as int]@));
    assert forall|m: Seq<char>| agg_pm(rv, id, m).0 > 0 implies exists|j: int| 0 <= j < ms.len() && (#[trigger] ms[j]).model@ == m by {
        let k = choose|k: int| 0 <= k < mg.len() && ids[(#[trigger] mg[k]).0 as int]@ == id && mg[k].1@ == m;
        if mg[k].0 != g {
            let h = mg[k].0 as int;
            let gi = g as int;
            if h < gi {
                assert(ids[h]@ != ids[gi]@);
            } else {
                assert(ids[gi]@ != ids[h]@);
            }
        }
        let j = choose|j: int| 0 <= j < ms.len() && #[trigger] entry_of(ms[j], mg[k], g);
        assert(ms[j].model@ == m);
    }
    assert forall|j: int| 0 <= j < ms.len() implies ((#[trigger] ms[j]).requests as nat, ms[j].input_tokens as nat, ms[j].output_tokens as nat)
        == agg_pm(rv, id, ms[j].model@) && agg_pm(rv, id, ms[j].model@).0 > 0 by {
        assert(from_table(mg, g, ms[j]));
        let k = choose|k: int| 0 <= k < mg.len() && #[trigger] entry_of(ms[j], mg[k], g);
        assert((mg[k].2 as nat, mg[k].3 as nat, mg[k].4 as nat) == agg_pm(rv, ids[mg[k].0 as int]@, mg[k].1@));
        assert(mg[k].2 > 0);
    }
}

/// Requests and tokens of the recorded records `records`, added up per
/// provider and per model. `names` pairs provider ids with display names,
/// as read from the provider profiles; where an id occurs more than once
/// the last pair counts.
pub fn usage_summary(records: &Vec<UsageRecord>, names: &Vec<(String, String)>) -> (s: UsageSummary)
    requires
        agg_all(recs_view(records@)).1 <= u64::MAX,
        agg_all(recs_view(records@)).2 <= u64::MAX,
    ensures
        summary_ok(recs_view(records@), names_view(names@), s),
{
    let ghost rv = recs_view(records@);
    let ghost nv = names_view(names@);
    let (ids, stats, mg) = group_records(records);
    let totals = total_usage(records);
    let mut keys: Vec<SortKey> = Vec::new();
    let mut g: usize = 0;
    while g < ids.len()
        invariant
            g <= ids@.len(),
            keys@.len() == g,
            stats@.len() == ids@.len(),
            forall|u: int|
                0 <= u < g ==> (#[trigger] keys@[u]).rank == -(stats@[u].1 as int) && keys@[u].first@ == ids@[u]@
                    && keys@[u].second@ == Seq::<char>::empty(),
        decreases ids@.len() - g,
    {
        let first = slice_chars(&ids[g], 0, ids[g].len());
        assert(first@ =~= ids@[g as int]@);
        keys.push(SortKey { rank: -(stats[g].1 as i128), first, second: Vec::new() });
        g = g + 1;
    }
    let order = sort_order(&keys);
    let mut providers: Vec<ProviderUsage> = Vec::new();
    let mut a: usize = 0;
    while a < order.len()
        invariant
            a <= order@.len(),
            providers@.len() == a,
            is_sorted_order(keys@, order@),
            keys@.len() == ids@.len(),
            rv == recs_view(records@),
            nv == names_view(names@),
            groups_ok(rv, ids@, stats@, mg@),
            forall|u: int|
                0 <= u < a ==> (#[trigger] providers@[u]).provider_id@ == ids@[order@[u] as int]@
                    && providers@[u].input_tokens == stats@[order@[u] as int].1 && provider_ok(rv, nv, providers@[u]),
        decreases order@.len() - a,
    {
        let g = order[a];
        let provider_id = string_of(&ids[g]);
        let name = provider_name(names, &provider_id);
        let models = group_models(&mg, g);
        let st = stats[g];
        let pu = ProviderUsage {
            provider_id,
            name,
            requests: st.0,
            input_tokens: st.1,
            output_tokens: st.2,
            models,
        };
        proof {
            lemma_provider_ok(rv, nv, ids@, stats@, mg@, g, pu);
        }
        providers.push(pu);
        a = a + 1;
    }
    let s = UsageSummary {
        total_requests: totals.0,
        total_input_tokens: totals.1,
        total_output_tokens: totals.2,
        providers,
    };
    proof {
        let ps = s.providers@;
        assert forall|p: Seq<char>| agg_p(rv, p).0 > 0 implies exists|i: int| 0 <= i < ps.len() && (#[trigger] ps[i]).provider_id@ == p by {
            let g = choose|g: int| 0 <= g < ids@.len() && (#[trigger] ids@[g])@ == p;
            assert(crate::order::lists(order@, g));
            let i = choose|i: int| 0 <= i < order@.len() && #[trigger] order@[i] == g;
            assert(ps[i].provider_id@ == p);
        }
        assert forall|i: int| 0 <= i < ps.len() implies agg_p(rv, (#[trigger] ps[i]).provider_id@).0 > 0 by {
            let g = order@[i] as int;
            assert(((stats@[g]).0 as nat, stats@[g].1 as nat, stats@[g].2 as nat) == agg_p(rv, ids@[g]@));
        }
        assert forall|x: int, y: int| 0 <= x < y < ps.len() implies (#[trigger] ps[x]).input_tokens > (#[trigger] ps[y]).input_tokens || (
            ps[x].input_tokens == ps[y].input_tokens && seq_less(ps[x].provider_id@, ps[y].provider_id@)) by {
            let gx = order@[x] as int;
            let gy = order@[y] as int;
            assert(key_before(keys@, gx, gy));
            if gx < gy {
                assert(ids@[gx]@ != ids@[gy]@);
            } else if gy < gx {
                assert(ids@[gy]@ != ids@[gx]@);
            }
        }
    }
    s
}

// ---------------------------------------------------------------------------
// Totals add up
// ---------------------------------------------------------------------------

pub open spec fn add3(a: (nat, nat, nat), b: (nat, nat, nat)) -> (nat, nat, nat) {
    (a.0 + b.0, a.1 + b.1, a.2 + b.2)
}

/// The totals of a list of provider entries, added up.
pub open spec fn providers_total(ps: Seq<ProviderUsage>) -> (nat, nat, nat)
    decreases ps.len(),
{
    if ps.len() == 0 {
        (0, 0, 0)
    } else {
        add3(providers_total(ps.drop_last()), (ps.last().requests as nat, ps.last().input_tokens as nat, ps.last().output_tokens as nat))
    }
}

/// The totals of a list of model entries, added up.
pub open spec fn models_total(ms: Seq<ModelUsage>) -> (nat, nat, nat)
    decreases ms.len(),
{
    if ms.len() == 0 {
        (0, 0, 0)
    } else {
        add3(models_total(ms.drop_last()), (ms.last().requests as nat, ms.last().input_tokens as nat, ms.last().output_tokens as nat))
    }
}

spec fn sum_p(rs: Seq<RecV>, ids: Seq<Seq<char>>) -> (nat, nat, nat)
    decreases ids.len(),
{
    if ids.len() == 0 {
        (0, 0, 0)
    } else {
        add3(sum_p(rs, ids.drop_last()), agg_p(rs, ids.last()))
    }
}

spec fn sum_pm(rs: Seq<RecV>, p: Seq<char>, ms: Seq<Seq<char>>) -> (nat, nat, nat)
    decreases ms.len(),
{
    if ms.len() == 0 {
        (0, 0, 0)
    } else {
        add3(sum_pm(rs, p, ms.drop_last()), agg_pm(rs, p, ms.last()))
    }
}

spec fn distinct(ids: Seq<Seq<char>>) -> bool {
    forall|a: int, b: int| 0 <= a < b < ids.len() ==> ids[a] != ids[b]
}

/// Adding one record to the log adds it to the one entry among `ids` that
/// is its provider.
proof fn lemma_sum_p_step(rs: Seq<RecV>, r: RecV, ids: Seq<Seq<char>>)
    requires
        distinct(ids),
    ensures
        sum_p(rs.push(r), ids) == (if ids.contains(r.0) {
            add3(sum_p(rs, ids), (1nat, r.2 as nat, r.3 as nat))
        } else {
            sum_p(rs, ids)
        }),
    decreases ids.len(),
{
    let post = rs.push(r);
    assert(post.drop_last() == rs);
    if ids.len() > 0 {
        let front = ids.drop_last();
        assert(distinct(front));
        lemma_sum_p_step(rs, r, front);
        if ids.last() == r.0 {
            assert(ids.contains(r.0));
            if front.contains(r.0) {
                let a = choose|a: int| 0 <= a < front.len() && front[a] == r.0;
                assert(ids[a] == ids[ids.len() - 1]);
            }
        } else {
            if ids.contains(r.0) {
                let a = choose|a: int| 0 <= a < ids.len() && ids[a] == r.0;
                assert(front[a] == r.0);
            }
            if front.contains(r.0) {
                let a = choose|a: int| 0 <= a < front.len() && front[a] == r.0;
                assert(ids[a] == r.0);
            }
        }
    }
}

proof fn lemma_sum_pm_step(rs: Seq<RecV>, r: RecV, p: Seq<char>, ms: Seq<Seq<char>>)
    requires
        distinct(ms),
    ensures
        sum_pm(rs.push(r), p, ms) == (if r.0 == p && ms.contains(r.1) {
            add3(sum_pm(rs, p, ms), (1nat, r.2 as nat, r.3 as nat))
        } else {
            sum_pm(rs, p, ms)
        }),
    decreases ms.len(),
{
    let post = rs.push(r);
    assert(post.drop_last() == rs);
    if ms.len() > 0 {
        let front = ms.drop_last();
        assert(distinct(front));
        lemma_sum_pm_step(rs, r, p, front);
        if ms.last() == r.1 {
            assert(ms.contains(r.1));
            if front.contains(r.1) {
                let a = choose|a: int| 0 <= a < front.len() && front[a] == r.1;
                assert(ms[a] == ms[ms.len() - 1]);
            }
        } else {
            if ms.contains(r.1) {
                let a = choose|a: int| 0 <= a < ms.len() && ms[a] == r.1;
                assert(front[a] == r.1);
            }
            if front.contains(r.1) {
                let a = choose|a: int| 0 <= a < front.len() && front[a] == r.1;
                assert(ms[a] == r.1);
            }
        }
    }
}

/// Over distinct ids that include every provider of the log, the
/// per-provider totals add up to the totals of the log.
proof fn lemma_sum_p_all(rs: Seq<RecV>, ids: Seq<Seq<char>>)
    requires
        distinct(ids),
        forall|p: Seq<char>| agg_p(rs, p).0 > 0 ==> ids.contains(p),
    ensures
        sum_p(rs, ids) == agg_all(rs),
    decreases rs.len(),
{
    if rs.len() == 0 {
        lemma_sum_p_zero(rs, ids);
    } else {
        let front = rs.drop_last();
        let r = rs.last();
        assert(front.push(r) == rs);
        assert forall|p: Seq<char>| agg_p(front, p).0 > 0 implies ids.contains(p) by {
            assert(agg_p(rs, p).0 >= agg_p(front, p).0);
        }
        lemma_sum_p_all(front, ids);
        assert(agg_p(rs, r.0).0 > 0);
        lemma_sum_p_step(front, r, ids);
    }
}

proof fn lemma_sum_p_zero(rs: Seq<RecV>, ids: Seq<Seq<char>>)
    requires
        rs.len() == 0,
    ensures
        sum_p(rs, ids) == (0nat, 0nat, 0nat),
    decreases ids.len(),
{
    if ids.len() > 0 {
        lemma_sum_p_zero(rs, ids.drop_last());
    }
}

proof fn lemma_sum_pm_zero(rs: Seq<RecV>, p: Seq<char>, ms: Seq<Seq<char>>)
    requires
        rs.len() == 0,
    ensures
        sum_pm(rs, p, ms) == (0nat, 0nat, 0nat),
    decreases ms.len(),
{
    if ms.len() > 0 {
        lemma_sum_pm_zero(rs, p, ms.drop_last());
    }
}

/// Over distinct models that include every model of provider `p` in the
/// log, the per-model totals add up to the totals of `p`.
proof fn lemma_sum_pm_all(rs: Seq<RecV>, p: Seq<char>, ms: Seq<Seq<char>>)
    requires
        distinct(ms),
        forall|m: Seq<char>| agg_pm(rs, p, m).0 > 0 ==> ms.contains(m),
    ensures
        sum_pm(rs, p, ms) == agg_p(rs, p),
    decreases rs.len(),
{
    if rs.len() == 0 {
        lemma_sum_pm_zero(rs, p, ms);
    } else {
        let front = rs.drop_last();
        let r = rs.last();
        assert(front.push(r) == rs);
        assert forall|m: Seq<char>| agg_pm(front, p, m).0 > 0 implies ms.contains(m) by {
            assert(agg_pm(rs, p, m).0 >= agg_pm(front, p, m).0);
        }
        lemma_sum_pm_all(front, p, ms);
        if r.0 == p {
            assert(agg_pm(rs, p, r.1).0 > 0);
        }
        lemma_sum_pm_step(front, r, p, ms);
    }
}

proof fn lemma_providers_total(rs: Seq<RecV>, ps: Seq<ProviderUsage>)
    requires
        forall|i: int| 0 <= i < ps.len() ==> (
            (#[trigger] ps[i]).requests as nat, ps[i].input_tokens as nat, ps[i].output_tokens as nat) == agg_p(rs, ps[i].provider_id@),
    ensures
        providers_total(ps) == sum_p(rs, Seq::new(ps.len(), |i: int| ps[i].provider_id@)),
    decreases ps.len(),
{
    let ids = Seq::new(ps.len(), |i: int| ps[i].provider_id@);
    if ps.len() > 0 {
        let front = ps.drop_last();
        assert forall|i: int| 0 <= i < front.len() implies (
            (#[trigger] front[i]).requests as nat, front[i].input_tokens as nat, front[i].output_tokens as nat) == agg_p(rs, front[i].provider_id@) by {
            assert(front[i] == ps[i]);
        }
        lemma_providers_total(rs, front);
        assert(ids.drop_last() =~= Seq::new(front.len(), |i: int| front[i].provider_id@));
        assert(ps.last() == ps[ps.len() - 1]);
    }
}

proof fn lemma_models_total(rs: Seq<RecV>, p: Seq<char>, ms: Seq<ModelUsage>)
    requires
        forall|j: int| 0 <= j < ms.len() ==> (
            (#[trigger] ms[j]).requests as nat, ms[j].input_tokens as nat, ms[j].output_tokens as nat) == agg_pm(rs, p, ms[j].model@),
    ensures
        models_total(ms) == sum_pm(rs, p, Seq::new(ms.len(), |j: int| ms[j].model@)),
    decreases ms.len(),
{
    let names = Seq::new(ms.len(), |j: int| ms[j].model@);
    if ms.len() > 0 {
        let front = ms.drop_last();
        assert forall|j: int| 0 <= j < front.len() implies (
            (#[trigger] front[j]).requests as nat, front[j].input_tokens as nat, front[j].output_tokens as nat) == agg_pm(rs, p, front[j].model@) by {
            assert(front[j] == ms[j]);
        }
        lemma_models_total(rs, p, front);
        assert(names.drop_last() =~= Seq::new(front.len(), |j: int| front[j].model@));
        assert(ms.last() == ms[ms.len() - 1]);
    }
}

/// The dashboard adds up: the totals are the sums of the provider entries,
/// and each provider's totals are the sums of its model entries. Every
/// record is counted once, in one provider and one model.
pub proof fn summary_totals_add_up(rs: Seq<RecV>, names: Seq<(Seq<char>, Seq<char>)>, s: UsageSummary)
    requires
        summary_ok(rs, names, s),
    ensures
        providers_total(s.providers@) == (s.total_requests as nat, s.total_input_tokens as nat, s.total_output_tokens as nat),
        forall|i: int|
            0 <= i < s.providers@.len() ==> models_total((#[trigger] s.providers@[i]).models@) == (
                s.providers@[i].requests as nat,
                s.providers@[i].input_tokens as nat,
                s.providers@[i].output_tokens as nat,
            ),
        s.total_requests == rs.len(),
{
    let ps = s.providers@;
    let ids = Seq::new(ps.len(), |i: int| ps[i].provider_id@);
    lemma_agg_bounds(rs, Seq::empty(), Seq::empty());
    assert forall|i: int| 0 <= i < ps.len() implies (
        (#[trigger] ps[i]).requests as nat, ps[i].input_tokens as nat, ps[i].output_tokens as nat) == agg_p(rs, ps[i].provider_id@) by {
        assert(provider_ok(rs, names, ps[i]));
    }
    lemma_providers_total(rs, ps);
    assert forall|a: int, b: int| 0 <= a < b < ids.len() implies ids[a] != ids[b] by {
        assert(provider_ok(rs, names, ps[a]));
        assert(provider_ok(rs, names, ps[b]));
        if ids[a] == ids[b] {
            crate::order::lemma_seq_less_irreflexive(ids[a]);
        }
    }
    assert forall|p: Seq<char>| agg_p(rs, p).0 > 0 implies ids.contains(p) by {
        let i = choose|i: int| 0 <= i < ps.len() && (#[trigger] ps[i]).provider_id@ == p;
        assert(ids[i] == p);
    }
    lemma_sum_p_all(rs, ids);
    assert forall|i: int| 0 <= i < ps.len() implies models_total((#[trigger] ps[i]).models@) == (
        ps[i].requests as nat,
        ps[i].input_tokens as nat,
        ps[i].output_tokens as nat,
    ) by {
        let pu = ps[i];
        assert(provider_ok(rs, names, pu));
        let id = pu.provider_id@;
        let ms = pu.models@;
        let mnames = Seq::new(ms.len(), |j: int| ms[j].model@);
        lemma_models_total(rs, id, ms);
        assert forall|a: int, b: int| 0 <= a < b < mnames.len() implies mnames[a] != mnames[b] by {
            if mnames[a] == mnames[b] {
                crate::order::lemma_seq_less_irreflexive(mnames[a]);
            }
        }
        assert forall|m: Seq<char>| agg_pm(rs, id, m).0 > 0 implies mnames.contains(m) by {
            let j = choose|j: int| 0 <= j < ms.len() && (#[trigger] ms[j]).model@ == m;
            assert(mnames[j] == m);
        }
        lemma_sum_pm_all(rs, id, mnames);
    }
}

} // verus!
