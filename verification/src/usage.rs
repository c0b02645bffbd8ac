//! Plan usage of official accounts: window labels, reset texts, the keys of
//! the per-period history, which snapshots belong to an account's active
//! time, and which history periods are kept.
use vstd::prelude::*;

use crate::order::{is_sorted_order, sort_order, SortKey};
use crate::text::{chars_of, decimal, extend_chars, extend_str, int_text, int_text_exec, string_of};

verus! {

/// The label of a rate-limit window of `minutes`: "7d" for a week or more,
/// else whole days, hours or minutes.
pub open spec fn usage_label_of(minutes: int) -> Seq<char> {
    if minutes >= 10080 {
        "7d"@
    } else if minutes >= 1440 {
        decimal((minutes / 1440) as nat) + "d"@
    } else if minutes >= 60 {
        decimal((minutes / 60) as nat) + "h"@
    } else {
        int_text(minutes) + "m"@
    }
}

pub fn usage_label(minutes: i64) -> (r: String)
    ensures
        r@ == usage_label_of(minutes as int),
{
    if minutes >= 10080 {
        string_of(&chars_of("7d"))
    } else if minutes >= 1440 {
        let mut out = int_text_exec(minutes / 1440);
        extend_str(&mut out, "d");
        string_of(&out)
    } else if minutes >= 60 {
        let mut out = int_text_exec(minutes / 60);
        extend_str(&mut out, "h");
        string_of(&out)
    } else {
        let mut out = int_text_exec(minutes);
        extend_str(&mut out, "m");
        string_of(&out)
    }
}

/// How long until a reset, `diff` seconds away: whole days, else hours, else
/// minutes, else "soon".
pub open spec fn relative_text(diff: int) -> Seq<char> {
    if diff >= 86400 {
        decimal((diff / 86400) as nat) + "天后"@
    } else if diff >= 3600 {
        decimal((diff / 3600) as nat) + "小时后"@
    } else if diff >= 60 {
        decimal((diff / 60) as nat) + "分钟后"@
    } else {
        "即将"@
    }
}

/// The reset text of a window: unknown without a reset time; "probably
/// recovered" once the reset has passed; otherwise how long until it and the
/// local time of day at which it happens.
pub open spec fn reset_text_of(known: bool, is_reset: bool, diff: int, local_time: Seq<char>) -> Seq<char> {
    if !known {
        "重置时间未知"@
    } else if is_reset {
        "预计已恢复"@
    } else {
        relative_text(diff) + " · "@ + local_time
    }
}

/// The reset text of a window. `reset_known` tells whether the window has a
/// valid reset time; `diff_seconds` is the whole seconds from now until it;
/// `local_time` is its local time of day (`HH:MM`).
pub fn reset_text(reset_known: bool, is_reset: bool, diff_seconds: i64, local_time: &str) -> (r: String)
    ensures
        r@ == reset_text_of(reset_known, is_reset, diff_seconds as int, local_time@),
{
    if !reset_known {
        return string_of(&chars_of("重置时间未知"));
    }
    if is_reset {
        return string_of(&chars_of("预计已恢复"));
    }
    let mut out = if diff_seconds >= 86400 {
        let mut o = int_text_exec(diff_seconds / 86400);
        extend_str(&mut o, "天后");
        o
    } else if diff_seconds >= 3600 {
        let mut o = int_text_exec(diff_seconds / 3600);
        extend_str(&mut o, "小时后");
        o
    } else if diff_seconds >= 60 {
        let mut o = int_text_exec(diff_seconds / 60);
        extend_str(&mut o, "分钟后");
        o
    } else {
        chars_of("即将")
    };
    extend_str(&mut out, " · ");
    extend_str(&mut out, local_time);
    string_of(&out)
}

/// The history key of a window period: its kind and its reset time.
pub open spec fn history_key_of(kind: Seq<char>, resets_at: int) -> Seq<char> {
    kind + "#"@ + int_text(resets_at)
}

pub fn history_key(kind: &str, resets_at: i64) -> (r: String)
    ensures
        r@ == history_key_of(kind@, resets_at as int),
{
    let mut out = chars_of(kind);
    extend_str(&mut out, "#");
    let n = int_text_exec(resets_at);
    extend_chars(&mut out, &n);
    string_of(&out)
}

// ---------------------------------------------------------------------------
// Dates
// ---------------------------------------------------------------------------

/// A point in time: whole seconds since the Unix epoch and nanoseconds.
pub type Instant = (i64, u32);

/// The instant an RFC 3339 date denotes, if it is one.
pub uninterp spec fn rfc3339_instant(s: Seq<char>) -> Option<(i64, u32)>;

/// `chrono::DateTime::parse_from_rfc3339`, taken to UTC and read as seconds
/// and nanoseconds. Only the name of the result is claimed: RFC 3339 parsing
/// is chrono's.
#[verifier::external_body]
pub fn parse_date(value: &str) -> (r: Option<Instant>)
    ensures
        r == rfc3339_instant(value@),
{
    chrono::DateTime::parse_from_rfc3339(value).ok().map(|d| (d.timestamp(), d.timestamp_subsec_nanos()))
}

/// `a < b` for instants.
pub open spec fn instant_before(a: Instant, b: Instant) -> bool {
    a.0 < b.0 || (a.0 == b.0 && a.1 < b.1)
}

/// A date string lies in `[start, end)`; one that is no date lies nowhere.
pub open spec fn in_window_of(timestamp: Seq<char>, start: Option<Instant>, end: Option<Instant>) -> bool {
    match rfc3339_instant(timestamp) {
        None => false,
        Some(d) => (match start {
            Some(s) => !instant_before(d, s),
            None => true,
        }) && (match end {
            Some(e) => instant_before(d, e),
            None => true,
        }),
    }
}

fn instant_before_exec(a: Instant, b: Instant) -> (r: bool)
    ensures
        r == instant_before(a, b),
{
    a.0 < b.0 || (a.0 == b.0 && a.1 < b.1)
}

/// Whether a snapshot taken at `timestamp` falls in `[start, end)`.
pub fn in_window(timestamp: &str, start: Option<Instant>, end: Option<Instant>) -> (r: bool)
    ensures
        r == in_window_of(timestamp@, start, end),
{
    let d = match parse_date(timestamp) {
        Some(d) => d,
        None => return false,
    };
    if let Some(s) = start {
        if instant_before_exec(d, s) {
            return false;
        }
    }
    if let Some(e) = end {
        if !instant_before_exec(d, e) {
            return false;
        }
    }
    true
}

/// The positions of the snapshots (given by their timestamps) that fall in
/// `[start, end)`, in order.
pub open spec fn window_positions(ts: Seq<Seq<char>>, start: Option<Instant>, end: Option<Instant>) -> Seq<usize>
    decreases ts.len(),
{
    if ts.len() == 0 {
        Seq::empty()
    } else {
        let before = window_positions(ts.drop_last(), start, end);
        if in_window_of(ts.last(), start, end) {
            before.push((ts.len() - 1) as usize)
        } else {
            before
        }
    }
}

pub open spec fn strs(v: Seq<String>) -> Seq<Seq<char>> {
    Seq::new(v.len(), |i: int| v[i]@)
}

/// The snapshots, given by their timestamps, that fall in `[start, end)`.
pub fn snapshots_between(timestamps: &Vec<String>, start: Option<Instant>, end: Option<Instant>) -> (r: Vec<usize>)
    ensures
        r@ == window_positions(strs(timestamps@), start, end),
{
    let ghost tv = strs(timestamps@);
    let mut out: Vec<usize> = Vec::new();
    let mut i: usize = 0;
    assert(tv.take(0) =~= Seq::<Seq<char>>::empty());
    while i < timestamps.len()
        invariant
            i <= timestamps.len(),
            tv == strs(timestamps@),
            out@ == window_positions(tv.take(i as int), start, end),
        decreases timestamps.len() - i,
    {
        assert(tv.take(i + 1).drop_last() == tv.take(i as int));
        assert(tv.take(i + 1).last() == timestamps@[i as int]@);
        if in_window(timestamps[i].as_str(), start, end) {
            out.push(i);
        }
        i = i + 1;
    }
    assert(tv.take(timestamps.len() as int) == tv);
    out
}

/// The newest of the snapshots in `[start, end)`: the one with the greatest
/// timestamp text, the last of equal ones.
pub open spec fn newest_of(ts: Seq<Seq<char>>, start: Option<Instant>, end: Option<Instant>) -> Option<usize>
    decreases ts.len(),
{
    if ts.len() == 0 {
        None
    } else {
        let before = newest_of(ts.drop_last(), start, end);
        let i = (ts.len() - 1) as usize;
        if !in_window_of(ts.last(), start, end) {
            before
        } else {
            match before {
                Some(b) => if crate::order::seq_less(ts.last(), ts[b as int]) {
                    before
                } else {
                    Some(i)
                },
                None => Some(i),
            }
        }
    }
}

proof fn lemma_newest_in_range(ts: Seq<Seq<char>>, start: Option<Instant>, end: Option<Instant>)
    ensures
        newest_of(ts, start, end) matches Some(b) ==> b < ts.len(),
    decreases ts.len(),
{
    if ts.len() > 0 {
        lemma_newest_in_range(ts.drop_last(), start, end);
    }
}

/// The newest snapshot in `[start, end)`, given the snapshots' timestamps.
pub fn newest_snapshot_between(timestamps: &Vec<String>, start: Option<Instant>, end: Option<Instant>) -> (r:
    Option<usize>)
    ensures
        r == newest_of(strs(timestamps@), start, end),
{
    let ghost tv = strs(timestamps@);
    let mut best: Option<usize> = None;
    let mut i: usize = 0;
    assert(tv.take(0) =~= Seq::<Seq<char>>::empty());
    while i < timestamps.len()
        invariant
            i <= timestamps.len(),
            tv == strs(timestamps@),
            best == newest_of(tv.take(i as int), start, end),
            best matches Some(b) ==> b < i,
        decreases timestamps.len() - i,
    {
        let ghost pre = tv.take(i + 1);
        assert(pre.drop_last() == tv.take(i as int));
        assert(pre.last() == timestamps@[i as int]@);
        if in_window(timestamps[i].as_str(), start, end) {
            match best {
                Some(b) => {
                    assert(pre[b as int] == timestamps@[b as int]@);
                    let cur = chars_of(timestamps[i].as_str());
                    let old = chars_of(timestamps[b].as_str());
                    if !crate::order::chars_less(&cur, &old) {
                        best = Some(i);
                    }
                },
                None => {
                    best = Some(i);
                },
            }
        }
        i = i + 1;
    }
    assert(tv.take(timestamps.len() as int) == tv);
    best
}

/// The earliest of the given activation dates that is later than `after`.
pub open spec fn earliest_after(dates: Seq<Option<Instant>>, after: Instant) -> Option<Instant>
    decreases dates.len(),
{
    if dates.len() == 0 {
        None
    } else {
        let before = earliest_after(dates.drop_last(), after);
        match dates.last() {
            Some(d) => if instant_before(after, d) {
                match before {
                    Some(b) => if instant_before(d, b) {
                        Some(d)
                    } else {
                        Some(b)
                    },
                    None => Some(d),
                }
            } else {
                before
            },
            None => before,
        }
    }
}

/// When the account that was activated at `after` stopped being active: the
/// first later activation of any profile.
pub fn next_activation_after(dates: &Vec<Option<Instant>>, after: Instant) -> (r: Option<Instant>)
    ensures
        r == earliest_after(dates@, after),
{
    let mut best: Option<Instant> = None;
    let mut i: usize = 0;
    assert(dates@.take(0) =~= Seq::<Option<Instant>>::empty());
    while i < dates.len()
        invariant
            i <= dates.len(),
            best == earliest_after(dates@.take(i as int), after),
        decreases dates.len() - i,
    {
        assert(dates@.take(i + 1).drop_last() == dates@.take(i as int));
        if let Some(d) = dates[i] {
            if instant_before_exec(after, d) {
                best = match best {
                    Some(b) => if instant_before_exec(d, b) {
                        Some(d)
                    } else {
                        Some(b)
                    },
                    None => Some(d),
                };
            }
        }
        i = i + 1;
    }
    assert(dates@.take(dates.len() as int) == dates@);
    best
}

// ---------------------------------------------------------------------------
// History retention
// ---------------------------------------------------------------------------

/// At most this many window periods are kept per account.
pub const HISTORY_LIMIT: usize = 80;

/// Sort keys putting later resets first, ties in key order.
pub open spec fn retention_keys_ok(periods: Seq<(String, i64)>, keys: Seq<SortKey>) -> bool {
    keys.len() == periods.len() && forall|i: int|
        0 <= i < keys.len() ==> (#[trigger] keys[i]).rank == -(periods[i].1 as int) && keys[i].first@
            == periods[i].0@ && keys[i].second@ == Seq::<char>::empty()
}

/// The periods to forget: with more than `HISTORY_LIMIT` periods (given in
/// key order with their reset times), all but the newest `HISTORY_LIMIT`,
/// later resets counting as newer and equal ones in key order.
pub fn periods_to_forget(periods: &Vec<(String, i64)>) -> (r: Vec<String>)
    ensures
        periods.len() <= HISTORY_LIMIT ==> r.len() == 0,
        periods.len() > HISTORY_LIMIT ==> exists|keys: Seq<SortKey>, order: Seq<usize>|
            retention_keys_ok(periods@, keys) && is_sorted_order(keys, order) && strs(r@) == Seq::new(
                (order.len() - HISTORY_LIMIT) as nat,
                |i: int| periods@[order[i + HISTORY_LIMIT] as int].0@,
            ),
{
    let mut out: Vec<String> = Vec::new();
    if periods.len() <= HISTORY_LIMIT {
        return out;
    }
    let mut keys: Vec<SortKey> = Vec::new();
    let mut i: usize = 0;
    while i < periods.len()
        invariant
            i <= periods.len(),
            keys@.len() == i,
            forall|j: int|
                0 <= j < i ==> (#[trigger] keys@[j]).rank == -(periods@[j].1 as int) && keys@[j].first@
                    == periods@[j].0@ && keys@[j].second@ == Seq::<char>::empty(),
        decreases periods.len() - i,
    {
        let rank: i128 = -(periods[i].1 as i128);
        keys.push(SortKey { rank, first: chars_of(periods[i].0.as_str()), second: Vec::new() });
        i = i + 1;
    }
    let order = sort_order(&keys);
    let mut j: usize = HISTORY_LIMIT;
    while j < order.len()
        invariant
            HISTORY_LIMIT <= j <= order.len(),
            order@.len() == periods@.len(),
            forall|a: int| 0 <= a < order@.len() ==> #[trigger] order@[a] < periods@.len(),
            out@.len() == j - HISTORY_LIMIT,
            forall|a: int|
                0 <= a < out@.len() ==> (#[trigger] out@[a])@ == periods@[order@[a + HISTORY_LIMIT] as int].0@,
        decreases order.len() - j,
    {
        out.push(string_of(&chars_of(periods[order[j]].0.as_str())));
        j = j + 1;
    }
    assert(strs(out@) =~= Seq::new(
        (order@.len() - HISTORY_LIMIT) as nat,
        |i: int| periods@[order@[i + HISTORY_LIMIT] as int].0@,
    ));
    out
}


// ---------------------------------------------------------------------------
// Finding the latest snapshot of a profile
// ---------------------------------------------------------------------------

/// Where the latest usage snapshot of an account profile is looked for.
#[derive(Clone, Copy)]
pub enum UsageSource {
    /// The shared history since the profile was activated; only for the
    /// profile `~/.codex` links to.
    Live,
    /// The snapshot cached in the profile.
    Cache,
    /// The shared history from the profile's activation on: until the next
    /// profile was activated, or open-ended for the active profile.
    ActivationWindow { open_ended: bool },
    /// The profile's backed-up sessions.
    Backup,
}

/// The next move of the lookup.
#[derive(Clone, Copy)]
pub enum UsageLookup {
    /// Look in this place next.
    Look(UsageSource),
    /// The snapshot just found is the answer; it is written to the cache
    /// unless it came from there.
    Found { cache_it: bool },
    /// There is none.
    NotFound,
}

/// The first place looked in: the live history for the active profile,
/// the cache for the others.
pub open spec fn usage_first_of(is_active: bool) -> UsageLookup {
    if is_active {
        UsageLookup::Look(UsageSource::Live)
    } else {
        UsageLookup::Look(UsageSource::Cache)
    }
}

/// The move after looking in `source`: a find ends the lookup; otherwise
/// the live history is followed by the cache, the cache by the activation
/// window (when the profile records an activation) or the backups, the
/// activation window by the backups, and the backups by nothing.
pub open spec fn usage_next_of(source: UsageSource, found: bool, is_active: bool, has_activation: bool) -> UsageLookup {
    if found {
        UsageLookup::Found { cache_it: !(source is Cache) }
    } else {
        match source {
            UsageSource::Live => UsageLookup::Look(UsageSource::Cache),
            UsageSource::Cache => if has_activation {
                UsageLookup::Look(UsageSource::ActivationWindow { open_ended: is_active })
            } else {
                UsageLookup::Look(UsageSource::Backup)
            },
            UsageSource::ActivationWindow { .. } => UsageLookup::Look(UsageSource::Backup),
            UsageSource::Backup => UsageLookup::NotFound,
        }
    }
}

pub fn usage_lookup_start(is_active: bool) -> (r: UsageLookup)
    ensures
        r == usage_first_of(is_active),
{
    if is_active {
        UsageLookup::Look(UsageSource::Live)
    } else {
        UsageLookup::Look(UsageSource::Cache)
    }
}

/// The move after looking in `source` (see `usage_next_of`);
/// `has_activation` tells whether the profile records an activation time.
pub fn usage_lookup_next(source: UsageSource, found: bool, is_active: bool, has_activation: bool) -> (r: UsageLookup)
    ensures
        r == usage_next_of(source, found, is_active, has_activation),
{
    if found {
        return UsageLookup::Found { cache_it: !matches!(source, UsageSource::Cache) };
    }
    match source {
        UsageSource::Live => UsageLookup::Look(UsageSource::Cache),
        UsageSource::Cache => {
            if has_activation {
                UsageLookup::Look(UsageSource::ActivationWindow { open_ended: is_active })
            } else {
                UsageLookup::Look(UsageSource::Backup)
            }
        },
        UsageSource::ActivationWindow { .. } => UsageLookup::Look(UsageSource::Backup),
        UsageSource::Backup => UsageLookup::NotFound,
    }
}

/// The backups of a profile's sessions are named `<id>-sessions-<time>`.
pub open spec fn is_session_backup_of(name: Seq<char>, profile_id: Seq<char>) -> bool {
    crate::text::has_prefix(name, profile_id + "-sessions-"@)
}

pub fn is_session_backup(name: &str, profile_id: &str) -> (r: bool)
    ensures
        r == is_session_backup_of(name@, profile_id@),
{
    let mut prefix = chars_of(profile_id);
    extend_str(&mut prefix, "-sessions-");
    crate::text::starts_with(&chars_of(name), &prefix)
}


/// Each reset period of a window kind gets an entry of its own: different
/// reset times give different history keys.
pub proof fn history_keys_are_distinct(kind: Seq<char>, a: int, b: int)
    requires
        a != b,
    ensures
        history_key_of(kind, a) != history_key_of(kind, b),
{
    let ka = history_key_of(kind, a);
    let kb = history_key_of(kind, b);
    if ka == kb {
        let off = kind.len() + 1;
        assert(ka.skip(off as int) =~= int_text(a)) by {
            reveal_strlit("#");
        }
        assert(kb.skip(off as int) =~= int_text(b)) by {
            reveal_strlit("#");
        }
        let ta = int_text(a);
        let tb = int_text(b);
        assert(ta == tb);
        if a < 0 && b < 0 {
            assert(ta.drop_first() =~= decimal((-a) as nat));
            assert(tb.drop_first() =~= decimal((-b) as nat));
            crate::text::lemma_decimal_injective((-a) as nat, (-b) as nat);
        } else if a >= 0 && b >= 0 {
            crate::text::lemma_decimal_injective(a as nat, b as nat);
        } else if a < 0 {
            crate::text::lemma_decimal_digits(b as nat);
            assert(ta[0] == '-');
            assert(tb[0] == decimal(b as nat)[0]);
        } else {
            crate::text::lemma_decimal_digits(a as nat);
            assert(tb[0] == '-');
            assert(ta[0] == decimal(a as nat)[0]);
        }
    }
}


/// The history keeps the `HISTORY_LIMIT` newest periods: with more, exactly
/// the surplus is forgotten, and no kept period resets earlier than a
/// forgotten one.
pub proof fn retention_keeps_the_newest(periods: Seq<(String, i64)>, keys: Seq<SortKey>, order: Seq<usize>, kept: int, gone: int)
    requires
        periods.len() > HISTORY_LIMIT,
        retention_keys_ok(periods, keys),
        is_sorted_order(keys, order),
        0 <= kept < HISTORY_LIMIT <= gone < order.len(),
    ensures
        order.len() - HISTORY_LIMIT == periods.len() - HISTORY_LIMIT,
        periods[order[kept] as int].1 >= periods[order[gone] as int].1,
{
    assert(crate::order::key_before(keys, order[kept] as int, order[gone] as int));
}

} // verus!
