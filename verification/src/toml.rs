//! The Codex `config.toml` that a provider profile gets: quoting of values and
//! keys, what of an existing file survives when it is written again, what a new profile takes
//! over from a template, and the text that is written.
use vstd::prelude::*;

use crate::text::{
    chars_eq, chars_of, extend_chars, extend_str, find_char, find_char_exec, has_prefix,
    is_ascii_alnum, is_ascii_alnum_exec, is_ws, join_lines, join_lines_exec, lemma_find_char, lines,
    lines_exec, slice_chars, starts_with_str, string_of, trim, trim_end, trim_exec, trim_start,
    trim_start_exec, views, ends_in_cr, has_suffix, lines_fold, strip_cr, lemma_lines_fold_word,
    lemma_lines_have_no_break,
};

verus! {

// ---------------------------------------------------------------------------
// Quoting
// ---------------------------------------------------------------------------

/// One character inside a basic TOML string: `\` and `"` get a backslash.
pub open spec fn escape_char(c: char) -> Seq<char> {
    if c == '\\' {
        seq!['\\', '\\']
    } else if c == '"' {
        seq!['\\', '"']
    } else {
        seq![c]
    }
}

/// `value.replace('\\', "\\\\").replace('"', "\\\"")`.
pub open spec fn toml_escaped(s: Seq<char>) -> Seq<char>
    decreases s.len(),
{
    if s.len() == 0 {
        Seq::empty()
    } else {
        toml_escaped(s.drop_last()) + escape_char(s.last())
    }
}

fn escape_into(out: &mut Vec<char>, v: &[char])
    ensures
        final(out)@ == old(out)@ + toml_escaped(v@),
{
    let mut i: usize = 0;
    assert(v@.take(0) =~= Seq::<char>::empty());
    while i < v.len()
        invariant
            i <= v.len(),
            out@ == old(out)@ + toml_escaped(v@.take(i as int)),
        decreases v.len() - i,
    {
        let c = v[i];
        assert(v@.take(i + 1).drop_last() == v@.take(i as int));
        if c == '\\' {
            out.push('\\');
            out.push('\\');
        } else if c == '"' {
            out.push('\\');
            out.push('"');
        } else {
            out.push(c);
        }
        i = i + 1;
    }
    assert(v@.take(v.len() as int) == v@);
}

/// Escapes a value for a double-quoted TOML string.
pub fn toml_escape(value: &str) -> (r: String)
    ensures
        r@ == toml_escaped(value@),
{
    let v = chars_of(value);
    let mut out: Vec<char> = Vec::new();
    escape_into(&mut out, &v);
    string_of(&out)
}

/// A key that TOML accepts without quotes.
pub open spec fn is_bare_key(s: Seq<char>) -> bool {
    forall|i: int| 0 <= i < s.len() ==> is_ascii_alnum(#[trigger] s[i]) || s[i] == '_' || s[i] == '-'
}

/// A TOML key for `s`: bare when it may be, quoted otherwise.
pub open spec fn toml_key(s: Seq<char>) -> Seq<char> {
    if is_bare_key(s) {
        s
    } else {
        seq!['"'] + toml_escaped(s) + seq!['"']
    }
}

fn bare_key_exec(v: &[char]) -> (r: bool)
    ensures
        r == is_bare_key(v@),
{
    let mut i: usize = 0;
    while i < v.len()
        invariant
            i <= v.len(),
            forall|j: int| 0 <= j < i ==> is_ascii_alnum(#[trigger] v@[j]) || v@[j] == '_' || v@[j] == '-',
        decreases v.len() - i,
    {
        let c = v[i];
        if !(is_ascii_alnum_exec(c) || c == '_' || c == '-') {
            return false;
        }
        i = i + 1;
    }
    true
}

fn key_into(out: &mut Vec<char>, v: &[char])
    ensures
        final(out)@ == old(out)@ + toml_key(v@),
{
    if bare_key_exec(v) {
        extend_chars(out, v);
    } else {
        out.push('"');
        escape_into(out, v);
        out.push('"');
        assert(out@ =~= old(out)@ + toml_key(v@));
    }
}

/// The key under which a provider's table is written.
pub fn toml_bare_key(value: &str) -> (r: String)
    ensures
        r@ == toml_key(value@),
{
    let v = chars_of(value);
    let mut out: Vec<char> = Vec::new();
    key_into(&mut out, &v);
    assert(out@ =~= toml_key(v@));
    string_of(&out)
}

// ---------------------------------------------------------------------------
// Keeping what Codex wrote
// ---------------------------------------------------------------------------

/// `[model_providers.<key>]`
pub open spec fn provider_table(provider_id: Seq<char>) -> Seq<char> {
    "[model_providers."@ + toml_key(provider_id) + "]"@
}

/// `[model_providers.<key>.auth]`
pub open spec fn auth_table(provider_id: Seq<char>) -> Seq<char> {
    "[model_providers."@ + toml_key(provider_id) + ".auth]"@
}

/// A table header line: it starts with `[` once leading whitespace is dropped.
pub open spec fn is_header_line(line: Seq<char>) -> bool {
    has_prefix(trim_start(line), "["@)
}

/// The key of a `key = value` line: the text before the first `=`, trimmed.
pub open spec fn line_key(line: Seq<char>) -> Seq<char> {
    let t = trim_start(line);
    trim(t.take(find_char(t, '=')))
}

/// The root keys that are rewritten on every save.
pub open spec fn is_managed_root_key(k: Seq<char>) -> bool {
    k == "model_provider"@ || k == "model"@ || k == "model_reasoning_effort"@
}

/// Walking the lines: what is kept so far, whether no header was seen yet,
/// and whether the current table is one that is rewritten.
pub open spec fn preserve_step(
    state: (Seq<Seq<char>>, bool, bool),
    line: Seq<char>,
    provider_id: Seq<char>,
) -> (Seq<Seq<char>>, bool, bool) {
    let (keep, in_root, skipping) = state;
    if is_header_line(line) {
        let header = trim(line);
        let skip = header == provider_table(provider_id) || header == auth_table(provider_id);
        (if skip { keep } else { keep.push(line) }, false, skip)
    } else if skipping {
        state
    } else if in_root && is_managed_root_key(line_key(line)) {
        state
    } else {
        (keep.push(line), in_root, skipping)
    }
}

pub open spec fn preserve_fold(ls: Seq<Seq<char>>, provider_id: Seq<char>) -> (Seq<Seq<char>>, bool, bool)
    decreases ls.len(),
{
    if ls.len() == 0 {
        (Seq::empty(), true, false)
    } else {
        preserve_step(preserve_fold(ls.drop_last(), provider_id), ls.last(), provider_id)
    }
}

/// Drops the blank lines at the start.
pub open spec fn drop_leading_blank(ls: Seq<Seq<char>>) -> Seq<Seq<char>>
    decreases ls.len(),
{
    if ls.len() > 0 && trim(ls[0]).len() == 0 {
        drop_leading_blank(ls.drop_first())
    } else {
        ls
    }
}

/// The lines of an existing config that are kept when it is written again.
pub open spec fn preserved_lines(content: Seq<char>, provider_id: Seq<char>) -> Seq<Seq<char>> {
    drop_leading_blank(preserve_fold(lines(content), provider_id).0)
}

/// The text of an existing config that is kept when it is written again.
pub open spec fn preserved_config(content: Seq<char>, provider_id: Seq<char>) -> Seq<char> {
    join_lines(preserved_lines(content, provider_id))
}

fn is_managed_root_key_exec(k: &[char]) -> (r: bool)
    ensures
        r == is_managed_root_key(k@),
{
    let a = chars_of("model_provider");
    let b = chars_of("model");
    let c = chars_of("model_reasoning_effort");
    chars_eq(k, &a) || chars_eq(k, &b) || chars_eq(k, &c)
}

fn line_key_exec(line: &[char]) -> (r: Vec<char>)
    ensures
        r@ == line_key(line@),
{
    let t = trim_start_exec(line);
    let end = find_char_exec(&t, '=');
    proof {
        lemma_find_char(t@, '=');
    }
    let head = slice_chars(&t, 0, end);
    assert(head@ == t@.take(end as int));
    trim_exec(&head)
}

fn table_header(provider_id: &[char], suffix: &str) -> (r: Vec<char>)
    ensures
        r@ == "[model_providers."@ + toml_key(provider_id@) + suffix@,
{
    let mut out: Vec<char> = Vec::new();
    extend_str(&mut out, "[model_providers.");
    key_into(&mut out, provider_id);
    extend_str(&mut out, suffix);
    out
}

fn drop_leading_blank_exec(ls: &Vec<Vec<char>>) -> (r: Vec<Vec<char>>)
    ensures
        views(r@) == drop_leading_blank(views(ls@)),
{
    let mut i: usize = 0;
    assert(views(ls@).skip(0) == views(ls@));
    while i < ls.len() && trim_exec(&ls[i]).len() == 0
        invariant
            i <= ls.len(),
            drop_leading_blank(views(ls@)) == drop_leading_blank(views(ls@).skip(i as int)),
        decreases ls.len() - i,
    {
        assert(views(ls@).skip(i as int).drop_first() == views(ls@).skip(i + 1));
        i = i + 1;
    }
    let mut r: Vec<Vec<char>> = Vec::new();
    let mut j: usize = i;
    while j < ls.len()
        invariant
            i <= j <= ls.len(),
            views(r@) == views(ls@).subrange(i as int, j as int),
        decreases ls.len() - j,
    {
        let line = slice_chars(&ls[j], 0, ls[j].len());
        assert(line@ =~= ls@[j as int]@);
        proof {
            assert(views(ls@)[j as int] == ls@[j as int]@);
            assert(views(ls@).subrange(i as int, j + 1) =~= views(ls@).subrange(i as int, j as int).push(line@));
            assert(views(r@.push(line)) =~= views(r@).push(line@));
        }
        r.push(line);
        j = j + 1;
    }
    assert(views(ls@).subrange(i as int, ls.len() as int) == views(ls@).skip(i as int));
    r
}

/// The part of an existing `config.toml` that is kept when it is written again: everything
/// except the root `model_provider`, `model` and `model_reasoning_effort` keys
/// and the provider's own `[model_providers.<id>]` and `.auth` tables, with
/// blank lines at the start dropped.
pub fn preserve_unmanaged_config(content: &str, provider_id: &str) -> (r: String)
    ensures
        r@ == preserved_config(content@, provider_id@),
{
    let cv = chars_of(content);
    let pv = chars_of(provider_id);
    let pt = table_header(&pv, "]");
    let at = table_header(&pv, ".auth]");
    let ls = lines_exec(&cv);
    let ghost lv = views(ls@);
    let mut keep: Vec<Vec<char>> = Vec::new();
    let mut in_root = true;
    let mut skipping = false;
    let mut i: usize = 0;
    assert(lv.take(0) =~= Seq::<Seq<char>>::empty());
    while i < ls.len()
        invariant
            i <= ls.len(),
            lv == views(ls@),
            lv == lines(content@),
            pt@ == provider_table(provider_id@),
            at@ == auth_table(provider_id@),
            (views(keep@), in_root, skipping) == preserve_fold(lv.take(i as int), provider_id@),
        decreases ls.len() - i,
    {
        assert(lv.take(i + 1).drop_last() == lv.take(i as int));
        assert(lv.take(i + 1).last() == ls@[i as int]@);
        let line = &ls[i];
        let t = trim_start_exec(line);
        if starts_with_str(&t, "[") {
            let header = trim_exec(line);
            let skip = chars_eq(&header, &pt) || chars_eq(&header, &at);
            in_root = false;
            skipping = skip;
            if !skip {
                let copy = slice_chars(line, 0, line.len());
                assert(copy@ =~= line@);
                proof {
                    assert(views(keep@.push(copy)) =~= views(keep@).push(line@));
                }
                keep.push(copy);
            }
        } else if skipping {
        } else if in_root && is_managed_root_key_exec(&line_key_exec(line)) {
        } else {
            let copy = slice_chars(line, 0, line.len());
            assert(copy@ =~= line@);
            proof {
                assert(views(keep@.push(copy)) =~= views(keep@).push(line@));
            }
            keep.push(copy);
        }
        i = i + 1;
    }
    assert(lv.take(ls.len() as int) == lv);
    let kept = drop_leading_blank_exec(&keep);
    let text = join_lines_exec(&kept);
    string_of(&text)
}

// ---------------------------------------------------------------------------
// Project trust carried over from a template
// ---------------------------------------------------------------------------

pub open spec fn project_step(state: (Seq<Seq<char>>, bool), line: Seq<char>) -> (Seq<Seq<char>>, bool) {
    let (keep, copying) = state;
    let now = if has_prefix(line, "[projects."@) {
        true
    } else if copying && has_prefix(line, "["@) {
        false
    } else {
        copying
    };
    (if now { keep.push(line) } else { keep }, now)
}

pub open spec fn project_fold(ls: Seq<Seq<char>>) -> (Seq<Seq<char>>, bool)
    decreases ls.len(),
{
    if ls.len() == 0 {
        (Seq::empty(), false)
    } else {
        project_step(project_fold(ls.drop_last()), ls.last())
    }
}

/// The `[projects.*]` tables of a config, each with the lines under it.
pub open spec fn project_sections(content: Seq<char>) -> Seq<char> {
    join_lines(project_fold(lines(content)).0)
}

/// The `[projects.*]` tables of a template's `config.toml` text, which carry
/// the user's project trust settings into a new profile.
pub fn extract_project_config(content: &str) -> (r: String)
    ensures
        r@ == project_sections(content@),
{
    let cv = chars_of(content);
    let ls = lines_exec(&cv);
    let ghost lv = views(ls@);
    let mut keep: Vec<Vec<char>> = Vec::new();
    let mut copying = false;
    let mut i: usize = 0;
    assert(lv.take(0) =~= Seq::<Seq<char>>::empty());
    while i < ls.len()
        invariant
            i <= ls.len(),
            lv == views(ls@),
            lv == lines(content@),
            (views(keep@), copying) == project_fold(lv.take(i as int)),
        decreases ls.len() - i,
    {
        assert(lv.take(i + 1).drop_last() == lv.take(i as int));
        assert(lv.take(i + 1).last() == ls@[i as int]@);
        let line = &ls[i];
        if starts_with_str(line, "[projects.") {
            copying = true;
        } else if copying && starts_with_str(line, "[") && !starts_with_str(line, "[projects.") {
            copying = false;
        }
        if copying {
            let copy = slice_chars(line, 0, line.len());
            assert(copy@ =~= line@);
            proof {
                assert(views(keep@.push(copy)) =~= views(keep@).push(line@));
            }
            keep.push(copy);
        }
        i = i + 1;
    }
    assert(lv.take(ls.len() as int) == lv);
    let text = join_lines_exec(&keep);
    string_of(&text)
}

// ---------------------------------------------------------------------------
// Laws
// ---------------------------------------------------------------------------

/// The header is one of the two tables that are written afresh each time.
pub open spec fn is_managed_table(header: Seq<char>, provider_id: Seq<char>) -> bool {
    header == provider_table(provider_id) || header == auth_table(provider_id)
}

proof fn lemma_preserve_fold(ls: Seq<Seq<char>>, provider_id: Seq<char>)
    ensures
        forall|j: int|
            0 <= j < preserve_fold(ls, provider_id).0.len() ==> !(is_header_line(
                #[trigger] preserve_fold(ls, provider_id).0[j],
            ) && is_managed_table(trim(preserve_fold(ls, provider_id).0[j]), provider_id)),
        forall|i: int|
            0 <= i < ls.len() && is_header_line(#[trigger] ls[i]) && !is_managed_table(trim(ls[i]), provider_id)
                ==> preserve_fold(ls, provider_id).0.contains(ls[i]),
    decreases ls.len(),
{
    if ls.len() > 0 {
        let front = ls.drop_last();
        lemma_preserve_fold(front, provider_id);
        let before = preserve_fold(front, provider_id).0;
        let after = preserve_fold(ls, provider_id).0;
        assert(after == before || after == before.push(ls.last()));
        assert forall|j: int| 0 <= j < after.len() implies !(is_header_line(#[trigger] after[j]) && is_managed_table(
            trim(after[j]),
            provider_id,
        )) by {
            if j < before.len() {
                assert(after[j] == before[j]);
            }
        }
        assert forall|i: int|
            0 <= i < ls.len() && is_header_line(#[trigger] ls[i]) && !is_managed_table(trim(ls[i]), provider_id)
                implies after.contains(ls[i]) by {
            if i < ls.len() - 1 {
                assert(front[i] == ls[i]);
                assert(before.contains(ls[i]));
                let j = choose|j: int| 0 <= j < before.len() && before[j] == ls[i];
                assert(after[j] == before[j]);
            } else {
                assert(after[after.len() - 1] == ls[i]);
            }
        }
    }
}

proof fn lemma_drop_leading_blank(ls: Seq<Seq<char>>) -> (n: int)
    ensures
        0 <= n <= ls.len(),
        drop_leading_blank(ls) == ls.skip(n),
        forall|j: int| 0 <= j < n ==> trim(#[trigger] ls[j]).len() == 0,
    decreases ls.len(),
{
    if ls.len() > 0 && trim(ls[0]).len() == 0 {
        let n = lemma_drop_leading_blank(ls.drop_first());
        assert(ls.drop_first().skip(n) =~= ls.skip(n + 1));
        assert forall|j: int| 0 <= j < n + 1 implies trim(#[trigger] ls[j]).len() == 0 by {
            if j > 0 {
                assert(ls[j] == ls.drop_first()[j - 1]);
            }
        }
        n + 1
    } else {
        assert(ls.skip(0) =~= ls);
        0
    }
}

proof fn lemma_trim_end_keeps_first(t: Seq<char>)
    requires
        t.len() > 0,
        !is_ws(t[0]),
    ensures
        trim_end(t).len() > 0,
    decreases t.len(),
{
    if t.len() > 1 && is_ws(t.last()) {
        assert(t.drop_last()[0] == t[0]);
        lemma_trim_end_keeps_first(t.drop_last());
    }
}

proof fn lemma_header_not_blank(line: Seq<char>)
    requires
        is_header_line(line),
    ensures
        trim(line).len() > 0,
{
    reveal_strlit("[");
    let t = trim_start(line);
    assert("["@.len() == 1 && "["@[0] == '[');
    assert(t.take(1)[0] == t[0]);
    assert(t[0] == '[');
    lemma_trim_end_keeps_first(t);
}

/// Rewriting a provider's config drops its own tables and keeps every
/// other table: no line of what survives is the header of
/// `[model_providers.<id>]` or `[model_providers.<id>.auth]`, and every other
/// table header of the old config survives.
pub proof fn preserve_drops_only_managed_tables(content: Seq<char>, provider_id: Seq<char>)
    ensures
        forall|j: int|
            0 <= j < preserved_lines(content, provider_id).len() ==> !(is_header_line(
                #[trigger] preserved_lines(content, provider_id)[j],
            ) && is_managed_table(trim(preserved_lines(content, provider_id)[j]), provider_id)),
        forall|i: int|
            0 <= i < lines(content).len() && is_header_line(#[trigger] lines(content)[i]) && !is_managed_table(
                trim(lines(content)[i]),
                provider_id,
            ) ==> preserved_lines(content, provider_id).contains(lines(content)[i]),
{
    let ls = lines(content);
    lemma_preserve_fold(ls, provider_id);
    let kept = preserve_fold(ls, provider_id).0;
    let n = lemma_drop_leading_blank(kept);
    let out = preserved_lines(content, provider_id);
    assert(out == kept.skip(n));
    assert forall|j: int| 0 <= j < out.len() implies !(is_header_line(#[trigger] out[j]) && is_managed_table(
        trim(out[j]),
        provider_id,
    )) by {
        assert(out[j] == kept[j + n]);
    }
    assert forall|i: int|
        0 <= i < ls.len() && is_header_line(#[trigger] ls[i]) && !is_managed_table(trim(ls[i]), provider_id)
            implies out.contains(ls[i]) by {
        assert(kept.contains(ls[i]));
        let j = choose|j: int| 0 <= j < kept.len() && kept[j] == ls[i];
        lemma_header_not_blank(ls[i]);
        if j < n {
            assert(trim(kept[j]).len() == 0);
        }
        assert(out[j - n] == kept[j]);
    }
}

/// Some line of `ls` is a table header.
pub open spec fn has_header(ls: Seq<Seq<char>>) -> bool {
    exists|i: int| 0 <= i < ls.len() && is_header_line(#[trigger] ls[i])
}

/// Line `i` of `ls` survives being preserved: it is not the header of a
/// rewritten table, and it is no rewritten root key before the first header.
pub open spec fn settled_at(ls: Seq<Seq<char>>, i: int, provider_id: Seq<char>) -> bool {
    &&& is_header_line(ls[i]) ==> !is_managed_table(trim(ls[i]), provider_id)
    &&& !is_header_line(ls[i]) && !has_header(ls.take(i)) ==> !is_managed_root_key(line_key(ls[i]))
}

pub open spec fn settled(ls: Seq<Seq<char>>, provider_id: Seq<char>) -> bool {
    forall|i: int| 0 <= i < ls.len() ==> #[trigger] settled_at(ls, i, provider_id)
}

/// Lines that all survive are kept as they are.
proof fn lemma_settled_fold(ls: Seq<Seq<char>>, provider_id: Seq<char>)
    requires
        settled(ls, provider_id),
    ensures
        preserve_fold(ls, provider_id) == (ls, !has_header(ls), false),
    decreases ls.len(),
{
    if ls.len() > 0 {
        let front = ls.drop_last();
        assert forall|i: int| 0 <= i < front.len() implies #[trigger] settled_at(front, i, provider_id) by {
            assert(settled_at(ls, i, provider_id));
            assert(front[i] == ls[i]);
            assert(front.take(i) =~= ls.take(i));
        }
        lemma_settled_fold(front, provider_id);
        let l = ls.last();
        assert(settled_at(ls, ls.len() - 1, provider_id));
        assert(ls.take(ls.len() - 1) =~= front);
        assert(front.push(l) =~= ls);
        if is_header_line(l) {
            assert(has_header(ls)) by {
                assert(is_header_line(ls[ls.len() - 1]));
            }
        } else {
            assert(has_header(ls) == has_header(front)) by {
                if has_header(ls) {
                    let i = choose|i: int| 0 <= i < ls.len() && is_header_line(#[trigger] ls[i]);
                    assert(front[i] == ls[i]);
                }
                if has_header(front) {
                    let i = choose|i: int| 0 <= i < front.len() && is_header_line(#[trigger] front[i]);
                    assert(front[i] == ls[i]);
                }
            }
        }
    }
}

/// What a first pass keeps survives a second one; the state records whether
/// a header was kept.
proof fn lemma_fold_settles(ls: Seq<Seq<char>>, provider_id: Seq<char>)
    ensures
        ({
            let (keep, in_root, skipping) = preserve_fold(ls, provider_id);
            &&& settled(keep, provider_id)
            &&& in_root ==> !skipping && !has_header(keep)
            &&& !in_root && !skipping ==> has_header(keep)
            &&& forall|j: int| 0 <= j < keep.len() ==> ls.contains(#[trigger] keep[j])
        }),
    decreases ls.len(),
{
    if ls.len() > 0 {
        let front = ls.drop_last();
        lemma_fold_settles(front, provider_id);
        let (keep, in_root, skipping) = preserve_fold(front, provider_id);
        let l = ls.last();
        let (keep2, r2, s2) = preserve_fold(ls, provider_id);
        assert forall|j: int| 0 <= j < keep2.len() implies ls.contains(#[trigger] keep2[j]) by {
            if j < keep.len() {
                assert(keep2[j] == keep[j]);
                assert(front.contains(keep[j]));
                let i = choose|i: int| 0 <= i < front.len() && front[i] == keep[j];
                assert(ls[i] == front[i]);
            } else {
                assert(keep2[j] == l);
                assert(ls[ls.len() - 1] == l);
            }
        }
        if keep2 == keep.push(l) {
            assert forall|i: int| 0 <= i < keep2.len() implies #[trigger] settled_at(keep2, i, provider_id) by {
                if i < keep.len() {
                    assert(settled_at(keep, i, provider_id));
                    assert(keep2[i] == keep[i]);
                    assert(keep2.take(i) =~= keep.take(i));
                } else {
                    assert(keep2.take(i) =~= keep);
                }
            }
            if is_header_line(l) {
                assert(is_header_line(keep2[keep.len() as int]));
            } else {
                assert(has_header(keep2) == has_header(keep)) by {
                    if has_header(keep2) {
                        let i = choose|i: int| 0 <= i < keep2.len() && is_header_line(#[trigger] keep2[i]);
                        assert(keep2[i] == keep[i]);
                    }
                    if has_header(keep) {
                        let i = choose|i: int| 0 <= i < keep.len() && is_header_line(#[trigger] keep[i]);
                        assert(keep2[i] == keep[i]);
                    }
                }
            }
        }
    } else {
        assert(!has_header(Seq::<Seq<char>>::empty()));
    }
}

/// Leading blank lines can go without unsettling the rest.
proof fn lemma_settled_skip_blank(ls: Seq<Seq<char>>, n: int, provider_id: Seq<char>)
    requires
        settled(ls, provider_id),
        0 <= n <= ls.len(),
        forall|j: int| 0 <= j < n ==> trim(#[trigger] ls[j]).len() == 0,
    ensures
        settled(ls.skip(n), provider_id),
{
    let t = ls.skip(n);
    assert forall|i: int| 0 <= i < t.len() implies #[trigger] settled_at(t, i, provider_id) by {
        assert(settled_at(ls, i + n, provider_id));
        assert(t[i] == ls[i + n]);
        if has_header(ls.take(i + n)) {
            let k = choose|k: int| 0 <= k < ls.take(i + n).len() && is_header_line(#[trigger] ls.take(i + n)[k]);
            if k < n {
                assert(ls.take(i + n)[k] == ls[k]);
                assert(trim(ls[k]).len() == 0);
                lemma_header_not_blank(ls[k]);
            } else {
                assert(t.take(i)[k - n] == ls.take(i + n)[k]);
                assert(has_header(t.take(i)));
            }
        }
    }
}

/// The text of lines joined by line breaks reads back as those lines, when
/// none holds a line break, none but the last ends in a carriage return,
/// and the last is not empty.
proof fn lemma_lines_of_join(ls: Seq<Seq<char>>)
    requires
        forall|j: int| 0 <= j < ls.len() ==> !(#[trigger] ls[j]).contains('\n'),
        forall|j: int| 0 <= j < ls.len() - 1 ==> !ends_in_cr(#[trigger] ls[j]),
    ensures
        ls.len() > 0 ==> lines_fold(join_lines(ls)) == (ls.drop_last(), ls.last()),
        ls.len() == 0 || ls.last().len() > 0 ==> lines(join_lines(ls)) == ls,
    decreases ls.len(),
{
    let e = Seq::<char>::empty();
    if ls.len() == 0 {
        assert(lines_fold(e) == (Seq::<Seq<char>>::empty(), e));
        assert(lines(join_lines(ls)) =~= ls);
    } else if ls.len() == 1 {
        assert(!ls[0].contains('\n'));
        lemma_lines_fold_word(e, ls[0]);
        assert(e + ls[0] =~= ls[0]);
        assert(lines_fold(e) == (Seq::<Seq<char>>::empty(), e));
        assert(ls.drop_last() =~= Seq::<Seq<char>>::empty());
        assert(seq![ls[0]] =~= ls);
    } else {
        let front = ls.drop_last();
        assert forall|j: int| 0 <= j < front.len() implies !(#[trigger] front[j]).contains('\n') by {
            assert(front[j] == ls[j]);
        }
        assert forall|j: int| 0 <= j < front.len() - 1 implies !ends_in_cr(#[trigger] front[j]) by {
            assert(front[j] == ls[j]);
        }
        lemma_lines_of_join(front);
        let jf = join_lines(front);
        let nl = seq!['\n'];
        assert((jf + nl).drop_last() =~= jf);
        assert(!ends_in_cr(front.last())) by {
            assert(front.last() == ls[ls.len() - 2]);
        }
        assert(strip_cr(front.last()) == front.last());
        assert(front.drop_last().push(front.last()) =~= front);
        assert(lines_fold(jf + nl) == (front, e));
        assert(!ls.last().contains('\n')) by {
            assert(ls.last() == ls[ls.len() - 1]);
        }
        lemma_lines_fold_word(jf + nl, ls.last());
        assert(e + ls.last() =~= ls.last());
        assert(join_lines(ls) == jf + nl + ls.last());
        assert(front.push(ls.last()) =~= ls);
    }
}

/// Preserving a config a second time changes nothing, when the kept text
/// does not end in a line break and no kept line but the last ends in a
/// carriage return of its own.
pub proof fn preserving_twice_changes_nothing(content: Seq<char>, provider_id: Seq<char>)
    requires
        !has_suffix(preserved_config(content, provider_id), "\n"@),
        forall|j: int|
            0 <= j < preserved_lines(content, provider_id).len() - 1 ==> !ends_in_cr(
                #[trigger] preserved_lines(content, provider_id)[j],
            ),
    ensures
        preserved_config(preserved_config(content, provider_id), provider_id) == preserved_config(content, provider_id),
{
    reveal_strlit("\n");
    let ls = lines(content);
    lemma_fold_settles(ls, provider_id);
    let kept = preserve_fold(ls, provider_id).0;
    let n = lemma_drop_leading_blank(kept);
    let out = preserved_lines(content, provider_id);
    assert(out == kept.skip(n));
    lemma_settled_skip_blank(kept, n, provider_id);
    lemma_lines_have_no_break(content);
    assert forall|j: int| 0 <= j < out.len() implies !(#[trigger] out[j]).contains('\n') by {
        assert(out[j] == kept[j + n]);
        assert(ls.contains(kept[j + n]));
    }
    let text = preserved_config(content, provider_id);
    lemma_drop_leading_blank_first(kept);
    if out.len() > 0 {
        assert(out.last().len() > 0) by {
            if out.last().len() == 0 {
                if out.len() == 1 {
                    assert(trim(out[0]) =~= Seq::<char>::empty());
                } else {
                    assert(text == join_lines(out.drop_last()) + seq!['\n'] + out.last());
                    assert(text.skip(text.len() - 1) =~= "\n"@);
                }
            }
        }
    }
    lemma_lines_of_join(out);
    assert(lines(text) == out);
    lemma_settled_fold(out, provider_id);
    if out.len() > 0 {
        assert(trim(out[0]).len() > 0);
    }
    assert(drop_leading_blank(out) == out);
}

/// After dropping the blank lines at the start, the first line is not blank.
proof fn lemma_drop_leading_blank_first(ls: Seq<Seq<char>>)
    ensures
        drop_leading_blank(ls).len() > 0 ==> trim(drop_leading_blank(ls)[0]).len() > 0,
    decreases ls.len(),
{
    if ls.len() > 0 && trim(ls[0]).len() == 0 {
        lemma_drop_leading_blank_first(ls.drop_first());
    }
}

/// Line `i` lies in a `[projects.*]` table: the last line up to it that
/// starts with `[` starts with `[projects.`.
pub open spec fn in_projects_table(ls: Seq<Seq<char>>, i: int) -> bool {
    exists|j: int|
        0 <= j <= i && has_prefix(#[trigger] ls[j], "[projects."@) && forall|k: int|
            j < k <= i ==> !has_prefix(#[trigger] ls[k], "["@)
}

/// The lines among the first `n` of `ls` that lie in a `[projects.*]` table,
/// in order.
pub open spec fn lines_in_projects(ls: Seq<Seq<char>>, n: int) -> Seq<Seq<char>>
    decreases n,
{
    if n <= 0 {
        Seq::empty()
    } else if in_projects_table(ls, n - 1) {
        lines_in_projects(ls, n - 1).push(ls[n - 1])
    } else {
        lines_in_projects(ls, n - 1)
    }
}

proof fn lemma_project_fold_lines(ls: Seq<Seq<char>>, n: int)
    requires
        0 <= n <= ls.len(),
    ensures
        project_fold(ls.take(n)).0 == lines_in_projects(ls, n),
        n > 0 ==> project_fold(ls.take(n)).1 == in_projects_table(ls, n - 1),
        n == 0 ==> !project_fold(ls.take(n)).1,
    decreases n,
{
    if n > 0 {
        lemma_project_fold_lines(ls, n - 1);
        assert(ls.take(n).drop_last() =~= ls.take(n - 1));
        assert(ls.take(n).last() == ls[n - 1]);
        let line = ls[n - 1];
        let i = n - 1;
        if has_prefix(line, "[projects."@) {
            assert(in_projects_table(ls, i));
        } else if has_prefix(line, "["@) {
            assert(!in_projects_table(ls, i)) by {
                if in_projects_table(ls, i) {
                    let j = choose|j: int|
                        0 <= j <= i && has_prefix(#[trigger] ls[j], "[projects."@) && forall|k: int|
                            j < k <= i ==> !has_prefix(#[trigger] ls[k], "["@);
                    assert(j != i);
                }
            }
        } else {
            if n > 1 {
                assert(in_projects_table(ls, i) == in_projects_table(ls, i - 1)) by {
                    if in_projects_table(ls, i) {
                        let j = choose|j: int|
                            0 <= j <= i && has_prefix(#[trigger] ls[j], "[projects."@) && forall|k: int|
                                j < k <= i ==> !has_prefix(#[trigger] ls[k], "["@);
                        assert(j != i);
                        assert(forall|k: int| j < k <= i - 1 ==> !has_prefix(#[trigger] ls[k], "["@));
                    }
                    if in_projects_table(ls, i - 1) {
                        let j = choose|j: int|
                            0 <= j <= i - 1 && has_prefix(#[trigger] ls[j], "[projects."@) && forall|k: int|
                                j < k <= i - 1 ==> !has_prefix(#[trigger] ls[k], "["@);
                        assert(forall|k: int| j < k <= i ==> !has_prefix(#[trigger] ls[k], "["@));
                    }
                }
            } else {
                assert(!in_projects_table(ls, 0)) by {
                    if in_projects_table(ls, 0) {
                        let j = choose|j: int|
                            0 <= j <= 0 && has_prefix(#[trigger] ls[j], "[projects."@) && forall|k: int|
                                j < k <= 0 ==> !has_prefix(#[trigger] ls[k], "["@);
                        assert(j == 0);
                    }
                }
            }
        }
    }
}

/// The project tables carried over from a template are exactly its lines
/// that lie in a `[projects.*]` table (from a `[projects.` header down to
/// the next header that is not one), in order, joined by line breaks.
pub proof fn project_tables_are_carried_whole(content: Seq<char>)
    ensures
        project_sections(content) == join_lines(lines_in_projects(lines(content), lines(content).len() as int)),
{
    let ls = lines(content);
    lemma_project_fold_lines(ls, ls.len() as int);
    assert(ls.take(ls.len() as int) =~= ls);
}

} // verus!
