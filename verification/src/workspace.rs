//! Desktop state shared between profiles: the merged list of workspaces and
//! projects, the merged session index, which SQLite state files are shared,
//! and the SQL run on them.
use vstd::prelude::*;

use crate::json::{items_view, jget, jset, settable, Json, JsonV};
use crate::provider::copy_string;
use crate::text::{
    chars_eq, chars_of, ends_with, extend_chars, extend_str, has_prefix, has_suffix, join_lines,
    lines, lines_exec, lines_fold, slice_chars, starts_with_str, strip_cr, string_of, views, ends_in_cr,
    lemma_lines_fold_word, lemma_lines_have_no_break,
};

verus! {

/// The workspace lists of Codex's desktop state.
pub struct WorkspaceState {
    pub saved_workspace_roots: Vec<String>,
    pub project_order: Vec<String>,
    pub active_workspace_roots: Vec<String>,
}

/// The views of a list of strings.
pub open spec fn strs(v: Seq<String>) -> Seq<Seq<char>> {
    Seq::new(v.len(), |i: int| v[i]@)
}

impl WorkspaceState {
    /// All three lists are empty.
    pub fn is_empty(&self) -> (r: bool)
        ensures
            r == (self.saved_workspace_roots.len() == 0 && self.project_order.len() == 0
                && self.active_workspace_roots.len() == 0),
    {
        self.saved_workspace_roots.len() == 0 && self.project_order.len() == 0
            && self.active_workspace_roots.len() == 0
    }
}

// ---------------------------------------------------------------------------
// Merging lists
// ---------------------------------------------------------------------------

/// The non-empty values in order of first occurrence, each once.
pub open spec fn unique_values(s: Seq<Seq<char>>) -> Seq<Seq<char>>
    decreases s.len(),
{
    if s.len() == 0 {
        Seq::empty()
    } else {
        let before = unique_values(s.drop_last());
        if s.last().len() == 0 || before.contains(s.last()) {
            before
        } else {
            before.push(s.last())
        }
    }
}

fn copy_strings(v: &Vec<String>) -> (r: Vec<String>)
    ensures
        strs(r@) == strs(v@),
{
    let mut out: Vec<String> = Vec::new();
    let mut i: usize = 0;
    while i < v.len()
        invariant
            i <= v.len(),
            out@.len() == i,
            strs(out@) == strs(v@).take(i as int),
        decreases v.len() - i,
    {
        let c = copy_string(&v[i]);
        let ghost before = out@;
        out.push(c);
        assert forall|j: int| 0 <= j < i + 1 implies #[trigger] strs(out@)[j] == strs(v@).take(i + 1)[j] by {
            if j < i {
                assert(out@[j] == before[j]);
                assert(strs(before)[j] == strs(v@).take(i as int)[j]);
            }
        }
        assert(strs(out@) =~= strs(v@).take(i + 1));
        i = i + 1;
    }
    assert(strs(v@).take(v.len() as int) =~= strs(v@));
    out
}

fn contains_str(v: &Vec<String>, s: &String) -> (r: bool)
    ensures
        r == strs(v@).contains(s@),
{
    let sc = chars_of(s.as_str());
    let mut i: usize = 0;
    while i < v.len()
        invariant
            i <= v.len(),
            sc@ == s@,
            forall|j: int| 0 <= j < i ==> strs(v@)[j] != s@,
        decreases v.len() - i,
    {
        if chars_eq(&chars_of(v[i].as_str()), &sc) {
            assert(strs(v@)[i as int] == s@);
            return true;
        }
        i = i + 1;
    }
    false
}

/// The non-empty values of `values`, each once, in order of first occurrence.
pub fn unique(values: &Vec<String>) -> (r: Vec<String>)
    ensures
        strs(r@) == unique_values(strs(values@)),
{
    let ghost sv = strs(values@);
    let mut out: Vec<String> = Vec::new();
    let mut i: usize = 0;
    assert(sv.take(0) =~= Seq::<Seq<char>>::empty());
    assert(strs(out@) =~= Seq::<Seq<char>>::empty());
    while i < values.len()
        invariant
            i <= values.len(),
            sv == strs(values@),
            strs(out@) == unique_values(sv.take(i as int)),
        decreases values.len() - i,
    {
        assert(sv.take(i + 1).drop_last() == sv.take(i as int));
        assert(sv.take(i + 1).last() == values@[i as int]@);
        let v = &values[i];
        if chars_of(v.as_str()).len() > 0 && !contains_str(&out, v) {
            let ghost before = strs(out@);
            out.push(copy_string(v));
            assert(strs(out@) =~= before.push(v@));
        }
        i = i + 1;
    }
    assert(sv.take(values.len() as int) == sv);
    out
}

fn append_copies(out: &mut Vec<String>, v: &Vec<String>)
    ensures
        strs(final(out)@) == strs(old(out)@) + strs(v@),
{
    let mut c = copy_strings(v);
    let ghost before = strs(out@);
    out.append(&mut c);
    assert(strs(out@) =~= before + strs(v@));
}

/// `preferred` merged with `fallback`: saved roots are the saved roots and
/// project entries of both, preferred first; the project order is both
/// orders followed by the saved roots; active roots are the preferred ones
/// unless there are none. Lists hold no empty or repeated entries.
pub open spec fn merged_saved(p: WorkspaceState, f: WorkspaceState) -> Seq<Seq<char>> {
    unique_values(
        strs(p.saved_workspace_roots@) + strs(f.saved_workspace_roots@) + strs(p.project_order@) + strs(
            f.project_order@,
        ),
    )
}

pub open spec fn merged_order(p: WorkspaceState, f: WorkspaceState) -> Seq<Seq<char>> {
    unique_values(strs(p.project_order@) + strs(f.project_order@) + merged_saved(p, f))
}

pub open spec fn merged_active(p: WorkspaceState, f: WorkspaceState) -> Seq<Seq<char>> {
    if p.active_workspace_roots.len() == 0 {
        strs(f.active_workspace_roots@)
    } else {
        strs(p.active_workspace_roots@)
    }
}

/// Merges two workspace states, `preferred` first.
pub fn merge_workspace(preferred: WorkspaceState, fallback: WorkspaceState) -> (r: WorkspaceState)
    ensures
        strs(r.saved_workspace_roots@) == merged_saved(preferred, fallback),
        strs(r.project_order@) == merged_order(preferred, fallback),
        strs(r.active_workspace_roots@) == merged_active(preferred, fallback),
{
    let mut all: Vec<String> = Vec::new();
    append_copies(&mut all, &preferred.saved_workspace_roots);
    append_copies(&mut all, &fallback.saved_workspace_roots);
    append_copies(&mut all, &preferred.project_order);
    append_copies(&mut all, &fallback.project_order);
    assert(strs(all@) =~= strs(preferred.saved_workspace_roots@) + strs(fallback.saved_workspace_roots@) + strs(
        preferred.project_order@,
    ) + strs(fallback.project_order@));
    let saved = unique(&all);
    let mut order_all: Vec<String> = Vec::new();
    append_copies(&mut order_all, &preferred.project_order);
    append_copies(&mut order_all, &fallback.project_order);
    append_copies(&mut order_all, &saved);
    let order = unique(&order_all);
    let active = if preferred.active_workspace_roots.len() == 0 {
        fallback.active_workspace_roots
    } else {
        preferred.active_workspace_roots
    };
    WorkspaceState { saved_workspace_roots: saved, project_order: order, active_workspace_roots: active }
}

// ---------------------------------------------------------------------------
// The desktop state file
// ---------------------------------------------------------------------------

/// The strings of a JSON array (others skipped); nothing when it is no array.
pub open spec fn string_items(items: Seq<JsonV>) -> Seq<Seq<char>>
    decreases items.len(),
{
    if items.len() == 0 {
        Seq::empty()
    } else {
        let before = string_items(items.drop_last());
        match items.last() {
            JsonV::Str(s) => before.push(s),
            _ => before,
        }
    }
}

pub open spec fn string_array_of(v: Option<JsonV>) -> Seq<Seq<char>> {
    match v {
        Some(JsonV::Array(items)) => string_items(items),
        _ => Seq::empty(),
    }
}

/// The strings of an optional JSON array.
pub fn string_array(value: Option<&Json>) -> (r: Vec<String>)
    ensures
        strs(r@) == string_array_of(
            match value {
                Some(v) => Some(v@),
                None => None,
            },
        ),
{
    let mut out: Vec<String> = Vec::new();
    assert(strs(out@) =~= Seq::<Seq<char>>::empty());
    match value {
        Some(v) => match v.as_array() {
            Some(items) => {
                let ghost iv = items_view(items@);
                let mut i: usize = 0;
                assert(iv.take(0) =~= Seq::<JsonV>::empty());
                while i < items.len()
                    invariant
                        i <= items.len(),
                        iv == items_view(items@),
                        strs(out@) == string_items(iv.take(i as int)),
                    decreases items.len() - i,
                {
                    assert(iv.take(i + 1).drop_last() == iv.take(i as int));
                    assert(iv.take(i + 1).last() == items@[i as int]@);
                    match items[i].as_str() {
                        Some(s) => {
                            let ghost before = strs(out@);
                            out.push(copy_string(s));
                            assert(strs(out@) =~= before.push(s@));
                        },
                        None => {},
                    }
                    i = i + 1;
                }
                assert(iv.take(items.len() as int) == iv);
                out
            },
            None => out,
        },
        None => out,
    }
}

/// The workspace lists recorded in a profile's desktop state.
pub fn workspace_state(global: &Json) -> (r: WorkspaceState)
    ensures
        strs(r.saved_workspace_roots@) == string_array_of(jget(global@, "electron-saved-workspace-roots"@)),
        strs(r.project_order@) == string_array_of(jget(global@, "project-order"@)),
        strs(r.active_workspace_roots@) == string_array_of(jget(global@, "active-workspace-roots"@)),
{
    WorkspaceState {
        saved_workspace_roots: string_array(global.get("electron-saved-workspace-roots")),
        project_order: string_array(global.get("project-order")),
        active_workspace_roots: string_array(global.get("active-workspace-roots")),
    }
}

pub open spec fn str_array(s: Seq<Seq<char>>) -> JsonV {
    JsonV::Array(Seq::new(s.len(), |i: int| JsonV::Str(s[i])))
}

fn strings_json(v: &Vec<String>) -> (r: Json)
    ensures
        r@ == str_array(strs(v@)),
{
    let mut out: Vec<Json> = Vec::new();
    let mut i: usize = 0;
    while i < v.len()
        invariant
            i <= v.len(),
            out@.len() == i,
            items_view(out@) == str_array_items(strs(v@).take(i as int)),
        decreases v.len() - i,
    {
        let ghost before = out@;
        out.push(Json::Str(copy_string(&v[i])));
        assert forall|j: int| 0 <= j < i + 1 implies #[trigger] items_view(out@)[j] == str_array_items(
            strs(v@).take(i + 1),
        )[j] by {
            if j < i {
                assert(out@[j] == before[j]);
                assert(items_view(before)[j] == str_array_items(strs(v@).take(i as int))[j]);
            }
        }
        assert(items_view(out@) =~= str_array_items(strs(v@).take(i + 1)));
        i = i + 1;
    }
    assert(strs(v@).take(v.len() as int) =~= strs(v@));
    proof {
        crate::json::lemma_array_view(out);
        assert(items_view(out@) =~= str_array_items(strs(v@)));
    }
    Json::Array(out)
}

pub open spec fn str_array_items(s: Seq<Seq<char>>) -> Seq<JsonV> {
    Seq::new(s.len(), |i: int| JsonV::Str(s[i]))
}

/// A profile's desktop state with the shared workspace lists written in: the
/// saved roots and project order always, the active roots when there are any.
pub open spec fn applied_state(global: JsonV, merged: WorkspaceState) -> JsonV {
    let a = jset(global, "electron-saved-workspace-roots"@, str_array(strs(merged.saved_workspace_roots@)));
    let b = jset(a, "project-order"@, str_array(strs(merged.project_order@)));
    if merged.active_workspace_roots.len() > 0 {
        jset(b, "active-workspace-roots"@, str_array(strs(merged.active_workspace_roots@)))
    } else {
        b
    }
}

/// Writes the merged workspace lists into a profile's desktop state.
pub fn apply_workspace(global: &mut Json, merged: &WorkspaceState)
    requires
        settable(old(global)@),
    ensures
        final(global)@ == applied_state(old(global)@, *merged),
{
    global.set("electron-saved-workspace-roots", strings_json(&merged.saved_workspace_roots));
    global.set("project-order", strings_json(&merged.project_order));
    if merged.active_workspace_roots.len() > 0 {
        global.set("active-workspace-roots", strings_json(&merged.active_workspace_roots));
    }
}

// ---------------------------------------------------------------------------
// Session index
// ---------------------------------------------------------------------------

/// Appending the lines of the incoming index that the merged text does not
/// hold yet, each on a line of its own.
pub open spec fn index_merge(existing: Seq<char>, incoming: Seq<Seq<char>>) -> (Seq<char>, Seq<Seq<char>>)
    decreases incoming.len(),
{
    if incoming.len() == 0 {
        (existing, lines(existing))
    } else {
        let (merged, seen) = index_merge(existing, incoming.drop_last());
        let line = incoming.last();
        if seen.contains(line) {
            (merged, seen)
        } else {
            let sep = if merged.len() > 0 && merged.last() != '\n' {
                seq!['\n']
            } else {
                Seq::empty()
            };
            (merged + sep + line + seq!['\n'], seen.push(line))
        }
    }
}

/// The session index after merging `incoming` into `existing`.
pub open spec fn merged_index(existing: Seq<char>, incoming: Seq<char>) -> Seq<char> {
    index_merge(existing, lines(incoming)).0
}

fn contains_line(seen: &Vec<Vec<char>>, line: &Vec<char>) -> (r: bool)
    ensures
        r == views(seen@).contains(line@),
{
    let mut i: usize = 0;
    while i < seen.len()
        invariant
            i <= seen.len(),
            forall|j: int| 0 <= j < i ==> views(seen@)[j] != line@,
        decreases seen.len() - i,
    {
        if chars_eq(&seen[i], line) {
            assert(views(seen@)[i as int] == line@);
            return true;
        }
        i = i + 1;
    }
    false
}

/// The shared session index after merging a profile's own index into it:
/// the shared text, then each line of the profile's index that it lacks.
pub fn merge_session_index(existing: &str, incoming: &str) -> (r: String)
    ensures
        r@ == merged_index(existing@, incoming@),
{
    let ec = chars_of(existing);
    let mut seen = lines_exec(&ec);
    let mut merged = slice_chars(&ec, 0, ec.len());
    assert(merged@ =~= existing@);
    let inc = lines_exec(&chars_of(incoming));
    let ghost iv = views(inc@);
    let mut i: usize = 0;
    assert(iv.take(0) =~= Seq::<Seq<char>>::empty());
    while i < inc.len()
        invariant
            i <= inc.len(),
            iv == views(inc@),
            iv == lines(incoming@),
            (merged@, views(seen@)) == index_merge(existing@, iv.take(i as int)),
        decreases inc.len() - i,
    {
        assert(iv.take(i + 1).drop_last() == iv.take(i as int));
        assert(iv.take(i + 1).last() == inc@[i as int]@);
        let line = &inc[i];
        if !contains_line(&seen, line) {
            if merged.len() > 0 && merged[merged.len() - 1] != '\n' {
                merged.push('\n');
            }
            extend_chars(&mut merged, line);
            merged.push('\n');
            let copy = slice_chars(line, 0, line.len());
            assert(copy@ =~= line@);
            let ghost before = views(seen@);
            seen.push(copy);
            assert(views(seen@) =~= before.push(line@));
        }
        i = i + 1;
    }
    assert(iv.take(inc.len() as int) == iv);
    string_of(&merged)
}

// ---------------------------------------------------------------------------
// SQLite state files and statements
// ---------------------------------------------------------------------------

/// The state database a file belongs to: `state_*` and `goals_*` files ending
/// in `.sqlite`, or in `.sqlite-wal` / `.sqlite-shm` (named by the database).
pub open spec fn sqlite_base_name(name: Seq<char>) -> Option<Seq<char>> {
    if !(has_prefix(name, "state_"@) || has_prefix(name, "goals_"@)) {
        None
    } else {
        let base = if has_suffix(name, "-wal"@) || has_suffix(name, "-shm"@) {
            name.take(name.len() - 4)
        } else {
            name
        };
        if has_suffix(base, ".sqlite"@) {
            Some(base)
        } else {
            None
        }
    }
}

/// The state database named by a file name in a profile, if it is one.
pub fn sqlite_state_base_name(name: &str) -> (r: Option<String>)
    ensures
        match r {
            Some(b) => sqlite_base_name(name@) == Some(b@),
            None => sqlite_base_name(name@) is None,
        },
{
    let v = chars_of(name);
    if !(starts_with_str(&v, "state_") || starts_with_str(&v, "goals_")) {
        return None;
    }
    let wal = chars_of("-wal");
    let shm = chars_of("-shm");
    let base = if ends_with(&v, &wal) || ends_with(&v, &shm) {
        proof {
            reveal_strlit("-wal");
            reveal_strlit("-shm");
        }
        slice_chars(&v, 0, v.len() - 4)
    } else {
        slice_chars(&v, 0, v.len())
    };
    assert(base@ =~= (if has_suffix(v@, "-wal"@) || has_suffix(v@, "-shm"@) {
        v@.take(v@.len() - 4)
    } else {
        v@
    }));
    if ends_with(&base, &chars_of(".sqlite")) {
        Some(string_of(&base))
    } else {
        None
    }
}

/// A string literal for SQL: each `'` doubled.
pub open spec fn sql_quoted(s: Seq<char>) -> Seq<char>
    decreases s.len(),
{
    if s.len() == 0 {
        Seq::empty()
    } else {
        sql_quoted(s.drop_last()) + if s.last() == '\'' {
            seq!['\'', '\'']
        } else {
            seq![s.last()]
        }
    }
}

fn sql_quote_into(out: &mut Vec<char>, s: &str)
    ensures
        final(out)@ == old(out)@ + sql_quoted(s@),
{
    let v = chars_of(s);
    let mut i: usize = 0;
    assert(v@.take(0) =~= Seq::<char>::empty());
    while i < v.len()
        invariant
            i <= v.len(),
            v@ == s@,
            out@ == old(out)@ + sql_quoted(v@.take(i as int)),
        decreases v.len() - i,
    {
        assert(v@.take(i + 1).drop_last() == v@.take(i as int));
        if v[i] == '\'' {
            out.push('\'');
            out.push('\'');
        } else {
            out.push(v[i]);
        }
        i = i + 1;
    }
    assert(v@.take(v.len() as int) == v@);
}

/// The statement that copies the threads of another state database into
/// this one, then checkpoints it.
pub open spec fn merge_threads_sql_of(source: Seq<char>) -> Seq<char> {
    "ATTACH DATABASE '"@ + sql_quoted(source)
        + "' AS incoming; INSERT OR REPLACE INTO main.threads SELECT * FROM incoming.threads; DETACH DATABASE incoming; PRAGMA wal_checkpoint(TRUNCATE);"@
}

pub fn merge_threads_sql(source: &str) -> (r: String)
    ensures
        r@ == merge_threads_sql_of(source@),
{
    let mut out = chars_of("ATTACH DATABASE '");
    sql_quote_into(&mut out, source);
    extend_str(
        &mut out,
        "' AS incoming; INSERT OR REPLACE INTO main.threads SELECT * FROM incoming.threads; DETACH DATABASE incoming; PRAGMA wal_checkpoint(TRUNCATE);",
    );
    string_of(&out)
}

/// The provider that history threads are recorded under: the profile's
/// provider, or `openai` for an official account.
pub open spec fn thread_provider_of(provider_id: Option<Seq<char>>) -> Seq<char> {
    match provider_id {
        Some(p) => p,
        None => "openai"@,
    }
}

/// The statement that records every thread under one provider, so that the
/// history shows under whichever account is active, then checkpoints.
pub open spec fn align_threads_sql_of(provider_id: Option<Seq<char>>) -> Seq<char> {
    let q = sql_quoted(thread_provider_of(provider_id));
    "UPDATE threads SET model_provider = '"@ + q + "' WHERE model_provider != '"@ + q
        + "'; PRAGMA wal_checkpoint(TRUNCATE);"@
}

pub fn align_threads_sql(provider_id: Option<&str>) -> (r: String)
    ensures
        r@ == align_threads_sql_of(
            match provider_id {
                Some(p) => Some(p@),
                None => None,
            },
        ),
{
    let p = match provider_id {
        Some(p) => p,
        None => "openai",
    };
    let mut out = chars_of("UPDATE threads SET model_provider = '");
    sql_quote_into(&mut out, p);
    extend_str(&mut out, "' WHERE model_provider != '");
    sql_quote_into(&mut out, p);
    extend_str(&mut out, "'; PRAGMA wal_checkpoint(TRUNCATE);");
    string_of(&out)
}

// ---------------------------------------------------------------------------
// Laws
// ---------------------------------------------------------------------------

/// `unique` keeps each non-empty value exactly once: the result holds no
/// empty string, no value twice, and exactly the non-empty values of the
/// input.
pub proof fn unique_values_law(s: Seq<Seq<char>>)
    ensures
        forall|a: int, b: int| 0 <= a < b < unique_values(s).len() ==> unique_values(s)[a] != unique_values(s)[b],
        forall|a: int| 0 <= a < unique_values(s).len() ==> (#[trigger] unique_values(s)[a]).len() > 0,
        forall|x: Seq<char>| unique_values(s).contains(x) <==> (x.len() > 0 && s.contains(x)),
    decreases s.len(),
{
    if s.len() > 0 {
        let front = s.drop_last();
        unique_values_law(front);
        let before = unique_values(front);
        let u = unique_values(s);
        assert forall|x: Seq<char>| u.contains(x) <==> (x.len() > 0 && s.contains(x)) by {
            if s.contains(x) && x.len() > 0 {
                let i = choose|i: int| 0 <= i < s.len() && s[i] == x;
                if i < s.len() - 1 {
                    assert(front[i] == x);
                    assert(front.contains(x));
                    assert(before.contains(x));
                    let j = choose|j: int| 0 <= j < before.len() && before[j] == x;
                    if !(s.last().len() == 0 || before.contains(s.last())) {
                        assert(u[j] == before[j]);
                    } else {
                        assert(u == before);
                    }
                    assert(u.contains(x));
                } else {
                    if !(s.last().len() == 0 || before.contains(s.last())) {
                        assert(u[before.len() as int] == x);
                    }
                }
            }
            if u.contains(x) {
                let j = choose|j: int| 0 <= j < u.len() && u[j] == x;
                if j < before.len() {
                    if !(s.last().len() == 0 || before.contains(s.last())) {
                        assert(u[j] == before[j]);
                    } else {
                        assert(u == before);
                    }
                    assert(before[j] == x);
                    assert(before.contains(x));
                    assert(front.contains(x));
                    let i = choose|i: int| 0 <= i < front.len() && front[i] == x;
                    assert(s[i] == front[i]);
                    assert(s.contains(x));
                } else {
                    assert(s[s.len() - 1] == x);
                }
            }
        }
        if !(s.last().len() == 0 || before.contains(s.last())) {
            assert forall|a: int, b: int| 0 <= a < b < u.len() implies u[a] != u[b] by {
                if b == before.len() {
                    assert(u[a] == before[a]);
                    assert(before.contains(before[a]));
                } else {
                    assert(u[a] == before[a] && u[b] == before[b]);
                }
            }
            assert forall|a: int| 0 <= a < u.len() implies (#[trigger] u[a]).len() > 0 by {
                if a < before.len() {
                    assert(u[a] == before[a]);
                }
            }
        }
    }
}

/// `f` places the entries of `u` at increasing positions of `s`.
pub open spec fn embeds(u: Seq<Seq<char>>, s: Seq<Seq<char>>, f: Seq<int>) -> bool {
    &&& f.len() == u.len()
    &&& forall|i: int| 0 <= i < f.len() ==> 0 <= #[trigger] f[i] < s.len() && s[f[i]] == u[i]
    &&& forall|i: int, j: int| 0 <= i < j < f.len() ==> #[trigger] f[i] < #[trigger] f[j]
}

/// `u` is `s` with some entries left out.
pub open spec fn is_subsequence(u: Seq<Seq<char>>, s: Seq<Seq<char>>) -> bool {
    exists|f: Seq<int>| embeds(u, s, f)
}

/// The positions of `s` whose values `unique` keeps.
spec fn kept_positions(s: Seq<Seq<char>>) -> Seq<int>
    decreases s.len(),
{
    if s.len() == 0 {
        Seq::empty()
    } else {
        let before = unique_values(s.drop_last());
        let p = kept_positions(s.drop_last());
        if s.last().len() == 0 || before.contains(s.last()) {
            p
        } else {
            p.push(s.len() - 1)
        }
    }
}

proof fn lemma_kept_positions(s: Seq<Seq<char>>)
    ensures
        embeds(unique_values(s), s, kept_positions(s)),
    decreases s.len(),
{
    if s.len() > 0 {
        let front = s.drop_last();
        lemma_kept_positions(front);
        let p = kept_positions(front);
        let f = kept_positions(s);
        let u = unique_values(s);
        assert forall|i: int| 0 <= i < f.len() implies 0 <= #[trigger] f[i] < s.len() && s[f[i]] == u[i] by {
            if i < p.len() {
                assert(f[i] == p[i]);
                assert(s[p[i]] == front[p[i]]);
            }
        }
        assert forall|i: int, j: int| 0 <= i < j < f.len() implies #[trigger] f[i] < #[trigger] f[j] by {
            if j < p.len() {
                assert(f[i] == p[i] && f[j] == p[j]);
            } else {
                assert(f[i] == p[i]);
            }
        }
    }
}

/// A list without empty entries and without repeats is its own `unique`.
proof fn lemma_unique_of_distinct(t: Seq<Seq<char>>)
    requires
        forall|a: int, b: int| 0 <= a < b < t.len() ==> t[a] != t[b],
        forall|a: int| 0 <= a < t.len() ==> (#[trigger] t[a]).len() > 0,
    ensures
        unique_values(t) == t,
    decreases t.len(),
{
    if t.len() > 0 {
        let front = t.drop_last();
        lemma_unique_of_distinct(front);
        assert(t.last().len() > 0);
        assert(!front.contains(t.last())) by {
            if front.contains(t.last()) {
                let a = choose|a: int| 0 <= a < front.len() && front[a] == t.last();
                assert(t[a] == t[t.len() - 1]);
            }
        }
        assert(front.push(t.last()) =~= t);
    }
}

/// `unique` only leaves values out, keeping the others in the order they
/// came, and applying it again changes nothing.
pub proof fn unique_keeps_order_and_settles(s: Seq<Seq<char>>)
    ensures
        is_subsequence(unique_values(s), s),
        unique_values(unique_values(s)) == unique_values(s),
{
    lemma_kept_positions(s);
    unique_values_law(s);
    lemma_unique_of_distinct(unique_values(s));
}

/// Merging workspace states loses nothing: every non-empty saved root and
/// project entry of either side is among the merged saved roots, every
/// saved root is in the merged project order, and neither list holds an
/// entry twice.
pub proof fn merge_keeps_every_workspace(p: WorkspaceState, f: WorkspaceState, x: Seq<char>)
    requires
        x.len() > 0,
        strs(p.saved_workspace_roots@).contains(x) || strs(f.saved_workspace_roots@).contains(x) || strs(
            p.project_order@,
        ).contains(x) || strs(f.project_order@).contains(x),
    ensures
        merged_saved(p, f).contains(x),
        merged_order(p, f).contains(x),
        forall|a: int, b: int| 0 <= a < b < merged_saved(p, f).len() ==> merged_saved(p, f)[a] != merged_saved(p, f)[b],
        forall|a: int, b: int| 0 <= a < b < merged_order(p, f).len() ==> merged_order(p, f)[a] != merged_order(p, f)[b],
{
    let ps = strs(p.saved_workspace_roots@);
    let fs = strs(f.saved_workspace_roots@);
    let po = strs(p.project_order@);
    let fo = strs(f.project_order@);
    let all = ps + fs + po + fo;
    assert(all.contains(x)) by {
        if ps.contains(x) {
            let i = choose|i: int| 0 <= i < ps.len() && ps[i] == x;
            assert(all[i] == x);
        } else if fs.contains(x) {
            let i = choose|i: int| 0 <= i < fs.len() && fs[i] == x;
            assert(all[ps.len() + i] == x);
        } else if po.contains(x) {
            let i = choose|i: int| 0 <= i < po.len() && po[i] == x;
            assert(all[ps.len() + fs.len() + i] == x);
        } else {
            let i = choose|i: int| 0 <= i < fo.len() && fo[i] == x;
            assert(all[ps.len() + fs.len() + po.len() + i] == x);
        }
    }
    unique_values_law(all);
    let saved = merged_saved(p, f);
    let order_all = po + fo + saved;
    assert(saved.contains(x));
    let i = choose|i: int| 0 <= i < saved.len() && saved[i] == x;
    assert(order_all[po.len() + fo.len() + i] == x);
    assert(order_all.contains(x));
    unique_values_law(order_all);
}

/// Merging a profile's session index into the shared one only appends: the
/// shared index before the merge is the start of the shared index after it.
pub proof fn session_index_only_grows(existing: Seq<char>, incoming: Seq<Seq<char>>)
    ensures
        existing.is_prefix_of(index_merge(existing, incoming).0),
    decreases incoming.len(),
{
    if incoming.len() > 0 {
        session_index_only_grows(existing, incoming.drop_last());
        let (merged, seen) = index_merge(existing, incoming.drop_last());
        let line = incoming.last();
        if !seen.contains(line) {
            let sep = if merged.len() > 0 && merged.last() != '\n' {
                seq!['\n']
            } else {
                Seq::empty()
            };
            let next = merged + sep + line + seq!['\n'];
            assert(next.take(merged.len() as int) =~= merged);
            assert(existing.is_prefix_of(next)) by {
                assert(next.take(existing.len() as int) =~= merged.take(existing.len() as int));
            }
        }
    }
}

/// Appending a line keeps the lines already there (but a last line that
/// ends in a carriage return) and adds the new one.
proof fn lemma_append_line(m: Seq<char>, line: Seq<char>, x: Seq<char>)
    requires
        !line.contains('\n'),
        lines(m).contains(x) && !ends_in_cr(x) || x == line && !ends_in_cr(line),
    ensures
        ({
            let sep = if m.len() > 0 && m.last() != '\n' {
                seq!['\n']
            } else {
                Seq::empty()
            };
            lines(m + sep + line + seq!['\n']).contains(x)
        }),
{
    let (d, c) = lines_fold(m);
    let nl = seq!['\n'];
    let e = Seq::<char>::empty();
    let sep = if m.len() > 0 && m.last() != '\n' {
        nl
    } else {
        e
    };
    let m2 = m + sep;
    let d2 = if m.len() > 0 && m.last() != '\n' {
        d.push(strip_cr(c))
    } else {
        d
    };
    if m.len() > 0 && m.last() != '\n' {
        assert((m + nl).drop_last() =~= m);
        assert(lines_fold(m2) == (d2, e));
        assert(c.len() > 0) by {
            let (d0, c0) = lines_fold(m.drop_last());
            assert(c == c0.push(m.last()));
        }
        assert(lines(m) == d.push(c));
    } else {
        assert(m2 =~= m);
        if m.len() > 0 {
            assert(c.len() == 0);
        } else {
            assert(lines_fold(m) == (Seq::<Seq<char>>::empty(), e));
        }
        assert(c =~= e);
        assert(lines(m) == d);
    }
    lemma_lines_fold_word(m2, line);
    assert(e + line =~= line);
    let m3 = m2 + line;
    let full = m3 + nl;
    assert(full.drop_last() =~= m3);
    assert(lines_fold(full) == (d2.push(strip_cr(line)), e));
    assert(lines(full) == d2.push(strip_cr(line)));
    assert(m + sep + line + nl =~= full);
    if x == line && !ends_in_cr(line) {
        assert(lines(full)[d2.len() as int] == x);
    } else {
        let j = choose|j: int| 0 <= j < lines(m).len() && lines(m)[j] == x;
        if j < d.len() {
            assert(lines(full)[j] == x);
        } else {
            assert(x == c);
            assert(strip_cr(c) == c);
            assert(lines(full)[d.len() as int] == x);
        }
    }
}

/// Along the merge, every line of the incoming index seen so far that does
/// not end in a carriage return of its own is a line of the merged text.
proof fn lemma_index_merge_covers(existing: Seq<char>, incoming: Seq<Seq<char>>)
    requires
        forall|j: int| 0 <= j < incoming.len() ==> !(#[trigger] incoming[j]).contains('\n'),
    ensures
        forall|x: Seq<char>| #[trigger] index_merge(existing, incoming).1.contains(x) && !ends_in_cr(x) ==> lines(
            index_merge(existing, incoming).0,
        ).contains(x),
        forall|j: int| 0 <= j < incoming.len() ==> index_merge(existing, incoming).1.contains(#[trigger] incoming[j]),
    decreases incoming.len(),
{
    if incoming.len() > 0 {
        let front = incoming.drop_last();
        lemma_index_merge_covers(existing, front);
        let (m, seen) = index_merge(existing, front);
        let line = incoming.last();
        assert(!line.contains('\n')) by {
            assert(line == incoming[incoming.len() - 1]);
        }
        assert forall|j: int| 0 <= j < incoming.len() implies index_merge(existing, incoming).1.contains(
            #[trigger] incoming[j],
        ) by {
            if j < front.len() {
                assert(incoming[j] == front[j]);
                assert(seen.contains(front[j]));
                if !seen.contains(line) {
                    let k = choose|k: int| 0 <= k < seen.len() && seen[k] == front[j];
                    assert(seen.push(line)[k] == front[j]);
                }
            } else {
                if !seen.contains(line) {
                    assert(seen.push(line)[seen.len() as int] == line);
                }
            }
        }
        if !seen.contains(line) {
            assert forall|x: Seq<char>| #[trigger] index_merge(existing, incoming).1.contains(x) && !ends_in_cr(
                x,
            ) implies lines(index_merge(existing, incoming).0).contains(x) by {
                let k = choose|k: int| 0 <= k < seen.push(line).len() && seen.push(line)[k] == x;
                if k < seen.len() {
                    assert(seen.contains(x));
                    lemma_append_line(m, line, x);
                } else {
                    lemma_append_line(m, line, x);
                }
            }
        }
    } else {
        assert forall|x: Seq<char>| #[trigger] index_merge(existing, incoming).1.contains(x) && !ends_in_cr(
            x,
        ) implies lines(index_merge(existing, incoming).0).contains(x) by {}
    }
}

/// Merging lines that the text already holds changes nothing.
proof fn lemma_index_merge_known(m: Seq<char>, incoming: Seq<Seq<char>>)
    requires
        forall|j: int| 0 <= j < incoming.len() ==> lines(m).contains(#[trigger] incoming[j]),
    ensures
        index_merge(m, incoming) == (m, lines(m)),
    decreases incoming.len(),
{
    if incoming.len() > 0 {
        let front = incoming.drop_last();
        assert forall|j: int| 0 <= j < front.len() implies lines(m).contains(#[trigger] front[j]) by {
            assert(front[j] == incoming[j]);
        }
        lemma_index_merge_known(m, front);
        assert(lines(m).contains(incoming[incoming.len() - 1]));
    }
}

/// Merging a profile's session index a second time changes nothing, when
/// none of its lines ends in a carriage return of its own.
pub proof fn session_index_merge_settles(existing: Seq<char>, incoming: Seq<char>)
    requires
        forall|j: int| 0 <= j < lines(incoming).len() ==> !ends_in_cr(#[trigger] lines(incoming)[j]),
    ensures
        merged_index(merged_index(existing, incoming), incoming) == merged_index(existing, incoming),
{
    let inc = lines(incoming);
    lemma_lines_have_no_break(incoming);
    lemma_index_merge_covers(existing, inc);
    let m = merged_index(existing, incoming);
    assert forall|j: int| 0 <= j < inc.len() implies lines(m).contains(#[trigger] inc[j]) by {
        assert(index_merge(existing, inc).1.contains(inc[j]));
        assert(!ends_in_cr(inc[j]));
    }
    lemma_index_merge_known(m, inc);
}

/// What `unique` keeps of a list's start begins what it keeps of the whole.
proof fn lemma_unique_prefix(a: Seq<Seq<char>>, b: Seq<Seq<char>>)
    ensures
        unique_values(a).is_prefix_of(unique_values(a + b)),
    decreases b.len(),
{
    if b.len() == 0 {
        assert(a + b =~= a);
    } else {
        lemma_unique_prefix(a, b.drop_last());
        assert((a + b).drop_last() =~= a + b.drop_last());
        let u = unique_values(a + b.drop_last());
        let w = unique_values(a + b);
        assert(w == u || w == u.push((a + b).last()));
        assert(u.is_prefix_of(w)) by {
            assert(w.take(u.len() as int) =~= u);
        }
        assert(unique_values(a).is_prefix_of(w)) by {
            assert(w.take(unique_values(a).len() as int) =~= u.take(unique_values(a).len() as int));
        }
    }
}

/// Merging two workspace states: the active roots are the preferred
/// state's when it has any, the fallback's otherwise; the saved roots and
/// the project order begin with the preferred state's own (each once, in its
/// order), and hold nothing but the non-empty roots and projects of either
/// state.
pub proof fn merge_prefers_the_preferred(p: WorkspaceState, f: WorkspaceState, x: Seq<char>)
    ensures
        p.active_workspace_roots.len() > 0 ==> merged_active(p, f) == strs(p.active_workspace_roots@),
        p.active_workspace_roots.len() == 0 ==> merged_active(p, f) == strs(f.active_workspace_roots@),
        unique_values(strs(p.saved_workspace_roots@)).is_prefix_of(merged_saved(p, f)),
        unique_values(strs(p.project_order@)).is_prefix_of(merged_order(p, f)),
        merged_saved(p, f).contains(x) ==> x.len() > 0 && (strs(p.saved_workspace_roots@).contains(x) || strs(
            f.saved_workspace_roots@,
        ).contains(x) || strs(p.project_order@).contains(x) || strs(f.project_order@).contains(x)),
        merged_order(p, f).contains(x) ==> x.len() > 0 && (strs(p.saved_workspace_roots@).contains(x) || strs(
            f.saved_workspace_roots@,
        ).contains(x) || strs(p.project_order@).contains(x) || strs(f.project_order@).contains(x)),
{
    let ps = strs(p.saved_workspace_roots@);
    let fs = strs(f.saved_workspace_roots@);
    let po = strs(p.project_order@);
    let fo = strs(f.project_order@);
    let all = ps + fs + po + fo;
    assert(all =~= ps + (fs + po + fo));
    lemma_unique_prefix(ps, fs + po + fo);
    let saved = merged_saved(p, f);
    let ord = po + fo + saved;
    assert(ord =~= po + (fo + saved));
    lemma_unique_prefix(po, fo + saved);
    unique_values_law(all);
    unique_values_law(ord);
    if saved.contains(x) {
        assert(all.contains(x));
        let i = choose|i: int| 0 <= i < all.len() && all[i] == x;
        if i < ps.len() {
            assert(ps[i] == x);
        } else if i < ps.len() + fs.len() {
            assert(fs[i - ps.len()] == x);
        } else if i < ps.len() + fs.len() + po.len() {
            assert(po[i - ps.len() - fs.len()] == x);
        } else {
            assert(fo[i - ps.len() - fs.len() - po.len()] == x);
        }
    }
    if merged_order(p, f).contains(x) {
        assert(ord.contains(x));
        let i = choose|i: int| 0 <= i < ord.len() && ord[i] == x;
        if i < po.len() {
            assert(po[i] == x);
        } else if i < po.len() + fo.len() {
            assert(fo[i - po.len()] == x);
        } else {
            assert(saved[i - po.len() - fo.len()] == x);
            assert(saved.contains(x));
            assert(all.contains(x));
            let k = choose|k: int| 0 <= k < all.len() && all[k] == x;
            if k < ps.len() {
                assert(ps[k] == x);
            } else if k < ps.len() + fs.len() {
                assert(fs[k - ps.len()] == x);
            } else if k < ps.len() + fs.len() + po.len() {
                assert(po[k - ps.len() - fs.len()] == x);
            } else {
                assert(fo[k - ps.len() - fs.len() - po.len()] == x);
            }
        }
    }
}

} // verus!
