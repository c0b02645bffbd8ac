//! Directory names for new profiles: a slug of a display name, made unique
//! among the names already present by a `-2`, `-3`, ... suffix.
use vstd::prelude::*;
use vstd::set_lib::lemma_len_subset;

use crate::text::{
    chars_eq, chars_of, decimal, decimal_exec, extend_chars, is_ascii_alnum, is_ascii_alnum_exec,
    lemma_decimal_value, string_of, to_lowercase, trim_char, trim_char_exec, trim_end_char, trim_start_char,
    unicode_lowercase, is_ascii_upper, is_slug_char,
};

verus! {

/// Each character of a lowercased name: ASCII letters and digits stay,
/// everything else becomes `-`.
pub open spec fn slug_map(s: Seq<char>) -> Seq<char> {
    s.map_values(|c: char| if is_ascii_alnum(c) { c } else { '-' })
}

/// Runs of `-` shrink to a single `-`.
pub open spec fn collapse_dashes(s: Seq<char>) -> Seq<char>
    decreases s.len(),
{
    if s.len() == 0 {
        s
    } else {
        let rest = collapse_dashes(s.drop_last());
        if s.last() == '-' && rest.len() > 0 && rest.last() == '-' {
            rest
        } else {
            rest.push(s.last())
        }
    }
}

/// The slug of an already lowercased name, or `fallback` when nothing is left.
pub open spec fn slug_of(lowered: Seq<char>, fallback: Seq<char>) -> Seq<char> {
    let s = trim_char(collapse_dashes(slug_map(lowered)), '-');
    if s.len() == 0 {
        fallback
    } else {
        s
    }
}

/// The slug of `lowered` (a name that has been lowercased already).
pub fn slug_from_lowercase(lowered: &str, fallback: &str) -> (r: String)
    ensures
        r@ == slug_of(lowered@, fallback@),
{
    let v = chars_of(lowered);
    let mut out: Vec<char> = Vec::new();
    let mut i: usize = 0;
    assert(v@.take(0) =~= Seq::<char>::empty());
    assert(slug_map(v@.take(0)) =~= Seq::<char>::empty());
    while i < v.len()
        invariant
            i <= v.len(),
            v@ == lowered@,
            out@ == collapse_dashes(slug_map(v@.take(i as int))),
        decreases v.len() - i,
    {
        let c = if is_ascii_alnum_exec(v[i]) {
            v[i]
        } else {
            '-'
        };
        assert(slug_map(v@.take(i + 1)).drop_last() =~= slug_map(v@.take(i as int)));
        assert(slug_map(v@.take(i + 1)).last() == c);
        if !(c == '-' && out.len() > 0 && out[out.len() - 1] == '-') {
            out.push(c);
        }
        i = i + 1;
    }
    assert(v@.take(v.len() as int) == v@);
    let t = trim_char_exec(&out, '-');
    if t.len() == 0 {
        let f = chars_of(fallback);
        string_of(&f)
    } else {
        string_of(&t)
    }
}

/// A slug of `value`: lowercased, with every run of characters other than
/// ASCII letters and digits turned into one `-`, without `-` at either end;
/// `fallback` when that leaves nothing. Unless it is the fallback, a slug is
/// made of ASCII small letters, digits and single dashes, and it is the
/// fallback whenever the lowercased value holds no ASCII letter or digit.
pub fn slugify(value: &str, fallback: &str) -> (r: String)
    ensures
        r@ == slug_of(unicode_lowercase(value@), fallback@),
        r@ == fallback@ || lower_slug(r@),
        (forall|i: int|
            0 <= i < unicode_lowercase(value@).len() ==> !is_ascii_alnum(#[trigger] unicode_lowercase(value@)[i]))
            ==> r@ == fallback@,
{
    let lowered = to_lowercase(value);
    let r = slug_from_lowercase(lowered.as_str(), fallback);
    proof {
        slug_is_shaped(lowered@, fallback@);
        slug_keeps_case(lowered@, fallback@);
        slug_of_nothing(lowered@, fallback@);
    }
    r
}

// ---------------------------------------------------------------------------
// Fresh names
// ---------------------------------------------------------------------------

/// The `k`-th name tried for `slug`: the slug itself first, then `slug-2`,
/// `slug-3`, and so on.
pub open spec fn candidate(slug: Seq<char>, k: nat) -> Seq<char> {
    if k <= 1 {
        slug
    } else {
        slug + "-"@ + decimal(k)
    }
}

/// The views of a list of names.
pub open spec fn name_views(names: Seq<String>) -> Seq<Seq<char>> {
    names.map_values(|s: String| s@)
}

/// The first candidate for `slug` that is not among `taken`.
pub open spec fn first_free(slug: Seq<char>, taken: Seq<Seq<char>>, k: nat) -> bool {
    k >= 1 && !taken.contains(candidate(slug, k)) && forall|j: nat| 1 <= j < k ==> taken.contains(
        #[trigger] candidate(slug, j),
    )
}

proof fn lemma_candidates_distinct(slug: Seq<char>, a: nat, b: nat)
    requires
        1 <= a,
        1 <= b,
        a != b,
    ensures
        candidate(slug, a) != candidate(slug, b),
{
    lemma_decimal_value(a);
    lemma_decimal_value(b);
    let ca = candidate(slug, a);
    let cb = candidate(slug, b);
    if a > 1 && b > 1 {
        if ca == cb {
            let off: int = (slug.len() + "-"@.len()) as int;
            assert(ca.skip(off) =~= decimal(a));
            assert(cb.skip(off) =~= decimal(b));
        }
    } else {
        assert(ca.len() != cb.len());
    }
}

/// Pigeonhole: `taken` cannot hold more distinct candidates than it has entries.
proof fn lemma_candidates_bound(slug: Seq<char>, taken: Seq<Seq<char>>, k: nat)
    requires
        forall|j: nat| 1 <= j <= k ==> taken.contains(#[trigger] candidate(slug, j)),
    ensures
        k <= taken.len(),
{
    let cands = Seq::new(k, |i: int| candidate(slug, (i + 1) as nat));
    assert(cands.no_duplicates()) by {
        assert forall|i: int, j: int| 0 <= i < cands.len() && 0 <= j < cands.len() && i != j implies cands[i]
            != cands[j] by {
            lemma_candidates_distinct(slug, (i + 1) as nat, (j + 1) as nat);
        }
    }
    cands.unique_seq_to_set();
    taken.lemma_cardinality_of_set();
    vstd::seq_lib::seq_to_set_is_finite(taken);
    assert(cands.to_set().subset_of(taken.to_set())) by {
        assert forall|x: Seq<char>| cands.to_set().contains(x) implies taken.to_set().contains(x) by {
            let i = choose|i: int| 0 <= i < cands.len() && cands[i] == x;
            assert(taken.contains(candidate(slug, (i + 1) as nat)));
        }
    }
    lemma_len_subset(cands.to_set(), taken.to_set());
}

fn contains_name(taken: &Vec<String>, name: &[char]) -> (r: bool)
    ensures
        r == name_views(taken@).contains(name@),
{
    let mut i: usize = 0;
    while i < taken.len()
        invariant
            i <= taken.len(),
            forall|j: int| 0 <= j < i ==> name_views(taken@)[j] != name@,
        decreases taken.len() - i,
    {
        let t = chars_of(taken[i].as_str());
        if chars_eq(&t, name) {
            assert(name_views(taken@)[i as int] == name@);
            return true;
        }
        i = i + 1;
    }
    proof {
        if name_views(taken@).contains(name@) {
            let j = choose|j: int| 0 <= j < name_views(taken@).len() && name_views(taken@)[j] == name@;
            assert(false);
        }
    }
    false
}

fn candidate_exec(slug: &[char], k: usize) -> (r: Vec<char>)
    requires
        k >= 1,
    ensures
        r@ == candidate(slug@, k as nat),
{
    let mut out: Vec<char> = Vec::new();
    extend_chars(&mut out, slug);
    if k > 1 {
        out.push('-');
        let d = decimal_exec(k as u64);
        extend_chars(&mut out, &d);
        proof {
            reveal_strlit("-");
        }
        assert(out@ =~= slug@ + "-"@ + decimal(k as nat));
    }
    out
}

/// The first of `slug`, `slug-2`, `slug-3`, ... that is not in `taken`.
pub fn unique_candidate(slug: &str, taken: &Vec<String>) -> (r: String)
    requires
        taken.len() < usize::MAX,
    ensures
        exists|k: nat| first_free(slug@, name_views(taken@), k) && r@ == candidate(slug@, k),
{
    let sv = chars_of(slug);
    let ghost tv = name_views(taken@);
    let mut k: usize = 1;
    loop
        invariant
            1 <= k <= taken.len() + 1,
            taken.len() < usize::MAX,
            sv@ == slug@,
            tv == name_views(taken@),
            tv.len() == taken.len(),
            forall|j: nat| 1 <= j < k ==> tv.contains(#[trigger] candidate(slug@, j)),
        decreases taken.len() + 1 - k,
    {
        let cand = candidate_exec(&sv, k);
        if !contains_name(taken, &cand) {
            assert(first_free(slug@, tv, k as nat));
            return string_of(&cand);
        }
        proof {
            assert forall|j: nat| 1 <= j <= k implies tv.contains(#[trigger] candidate(slug@, j)) by {
                if j < k {
                }
            }
            lemma_candidates_bound(slug@, tv, k as nat);
        }
        k = k + 1;
    }
}

// ---------------------------------------------------------------------------
// What slugs look like
// ---------------------------------------------------------------------------

/// A name made of ASCII letters, digits and single dashes, with no dash at
/// either end: safe as a directory name.
pub open spec fn slug_shaped(s: Seq<char>) -> bool {
    &&& s.len() > 0
    &&& forall|i: int| 0 <= i < s.len() ==> is_ascii_alnum(#[trigger] s[i]) || s[i] == '-'
    &&& forall|i: int| 0 <= i < s.len() - 1 ==> !(#[trigger] s[i] == '-' && s[i + 1] == '-')
    &&& s[0] != '-'
    &&& s.last() != '-'
}

/// Made of ASCII letters, digits and dashes, with no two dashes in a row.
spec fn dash_clean(s: Seq<char>) -> bool {
    &&& forall|i: int| 0 <= i < s.len() ==> is_ascii_alnum(#[trigger] s[i]) || s[i] == '-'
    &&& forall|i: int| 0 <= i < s.len() - 1 ==> !(#[trigger] s[i] == '-' && s[i + 1] == '-')
}

proof fn lemma_collapse_clean(s: Seq<char>)
    requires
        forall|i: int| 0 <= i < s.len() ==> is_ascii_alnum(#[trigger] s[i]) || s[i] == '-',
    ensures
        dash_clean(collapse_dashes(s)),
    decreases s.len(),
{
    if s.len() > 0 {
        let rest = collapse_dashes(s.drop_last());
        assert forall|i: int| 0 <= i < s.drop_last().len() implies is_ascii_alnum(#[trigger] s.drop_last()[i])
            || s.drop_last()[i] == '-' by {
            assert(s.drop_last()[i] == s[i]);
        }
        lemma_collapse_clean(s.drop_last());
        let r = collapse_dashes(s);
        if !(s.last() == '-' && rest.len() > 0 && rest.last() == '-') {
            assert(r == rest.push(s.last()));
            assert forall|i: int| 0 <= i < r.len() - 1 implies !(#[trigger] r[i] == '-' && r[i + 1] == '-') by {
                if i < rest.len() - 1 {
                    assert(r[i] == rest[i] && r[i + 1] == rest[i + 1]);
                } else {
                    assert(r[i] == rest.last());
                }
            }
            assert forall|i: int| 0 <= i < r.len() implies is_ascii_alnum(#[trigger] r[i]) || r[i] == '-' by {
                if i < rest.len() {
                    assert(r[i] == rest[i]);
                }
            }
        }
    }
}

proof fn lemma_trim_start_char(s: Seq<char>, c: char) -> (k: int)
    ensures
        0 <= k <= s.len(),
        trim_start_char(s, c) == s.skip(k),
        trim_start_char(s, c).len() > 0 ==> trim_start_char(s, c)[0] != c,
    decreases s.len(),
{
    if s.len() > 0 && s[0] == c {
        let k = lemma_trim_start_char(s.drop_first(), c);
        assert(s.drop_first().skip(k) =~= s.skip(k + 1));
        k + 1
    } else {
        assert(s.skip(0) =~= s);
        0
    }
}

proof fn lemma_trim_end_char(s: Seq<char>, c: char) -> (k: int)
    ensures
        0 <= k <= s.len(),
        trim_end_char(s, c) == s.take(k),
        trim_end_char(s, c).len() > 0 ==> trim_end_char(s, c).last() != c,
    decreases s.len(),
{
    if s.len() > 0 && s.last() == c {
        let k = lemma_trim_end_char(s.drop_last(), c);
        assert(s.drop_last().take(k) =~= s.take(k));
        k
    } else {
        assert(s.take(s.len() as int) =~= s);
        s.len() as int
    }
}

/// Every slug is the fallback or a name of ASCII letters, digits and single
/// dashes without a dash at either end; in particular it never holds a `/`.
pub proof fn slug_is_shaped(lowered: Seq<char>, fallback: Seq<char>)
    ensures
        slug_of(lowered, fallback) == fallback || slug_shaped(slug_of(lowered, fallback)),
{
    let m = slug_map(lowered);
    assert forall|i: int| 0 <= i < m.len() implies is_ascii_alnum(#[trigger] m[i]) || m[i] == '-' by {}
    lemma_collapse_clean(m);
    let c = collapse_dashes(m);
    let a = lemma_trim_start_char(c, '-');
    let t1 = trim_start_char(c, '-');
    let b = lemma_trim_end_char(t1, '-');
    let t = trim_char(c, '-');
    assert(t == t1.take(b));
    if t.len() > 0 {
        assert(t[0] == t1[0]);
        assert forall|i: int| 0 <= i < t.len() implies is_ascii_alnum(#[trigger] t[i]) || t[i] == '-' by {
            assert(t[i] == c[i + a]);
        }
        assert forall|i: int| 0 <= i < t.len() - 1 implies !(#[trigger] t[i] == '-' && t[i + 1] == '-') by {
            assert(t[i] == c[i + a]);
            assert(t[i + 1] == c[i + 1 + a]);
        }
    }
}

/// Numbering keeps a slug-shaped name slug-shaped: `slug-2`, `slug-3`, ...
/// are names of ASCII letters, digits and single dashes too.
pub proof fn candidates_are_shaped(slug: Seq<char>, k: nat)
    requires
        slug_shaped(slug),
    ensures
        slug_shaped(candidate(slug, k)),
{
    if k > 1 {
        crate::text::lemma_decimal_digits(k);
        reveal_strlit("-");
        let d = decimal(k);
        let r = candidate(slug, k);
        assert(r =~= slug + seq!['-'] + d);
        assert forall|i: int| 0 <= i < r.len() implies is_ascii_alnum(#[trigger] r[i]) || r[i] == '-' by {
            if i < slug.len() {
                assert(r[i] == slug[i]);
            } else if i > slug.len() {
                assert(r[i] == d[i - slug.len() - 1]);
            }
        }
        assert forall|i: int| 0 <= i < r.len() - 1 implies !(#[trigger] r[i] == '-' && r[i + 1] == '-') by {
            if i < slug.len() - 1 {
                assert(r[i] == slug[i] && r[i + 1] == slug[i + 1]);
            } else if i == slug.len() - 1 {
                assert(r[i] == slug.last());
            } else if i == slug.len() {
                assert(r[i + 1] == d[0]);
            } else {
                assert(r[i] == d[i - slug.len() - 1]);
            }
        }
        assert(r.last() == d.last());
        assert(d.last() == d[d.len() - 1]);
    }
}

/// A slug made only of ASCII small letters, digits and single dashes.
pub open spec fn lower_slug(s: Seq<char>) -> bool {
    slug_shaped(s) && forall|i: int| 0 <= i < s.len() ==> is_slug_char(#[trigger] s[i])
}

/// Every character of a slug other than the fallback comes from the name
/// or is a `-`; a name without ASCII capitals gives a slug without them.
proof fn slug_keeps_case(lowered: Seq<char>, fallback: Seq<char>)
    requires
        forall|i: int| 0 <= i < lowered.len() ==> !is_ascii_upper(#[trigger] lowered[i]),
    ensures
        slug_of(lowered, fallback) == fallback || lower_slug(slug_of(lowered, fallback)),
{
    slug_is_shaped(lowered, fallback);
    let m = slug_map(lowered);
    assert forall|i: int| 0 <= i < m.len() implies is_slug_char(#[trigger] m[i]) by {
        assert(!is_ascii_upper(lowered[i]));
    }
    lemma_collapse_keeps(m);
    let c = collapse_dashes(m);
    let a = lemma_trim_start_char(c, '-');
    let t1 = trim_start_char(c, '-');
    let b = lemma_trim_end_char(t1, '-');
    let t = trim_char(c, '-');
    assert(t == t1.take(b));
    assert forall|i: int| 0 <= i < t.len() implies is_slug_char(#[trigger] t[i]) by {
        assert(t[i] == c[i + a]);
    }
}

proof fn lemma_collapse_keeps(s: Seq<char>)
    requires
        forall|i: int| 0 <= i < s.len() ==> is_slug_char(#[trigger] s[i]),
    ensures
        forall|i: int| 0 <= i < collapse_dashes(s).len() ==> is_slug_char(#[trigger] collapse_dashes(s)[i]),
    decreases s.len(),
{
    if s.len() > 0 {
        assert forall|i: int| 0 <= i < s.drop_last().len() implies is_slug_char(#[trigger] s.drop_last()[i]) by {
            assert(s.drop_last()[i] == s[i]);
        }
        lemma_collapse_keeps(s.drop_last());
        let rest = collapse_dashes(s.drop_last());
        let r = collapse_dashes(s);
        assert forall|i: int| 0 <= i < r.len() implies is_slug_char(#[trigger] r[i]) by {
            if i < rest.len() {
                assert(r[i] == rest[i]);
            } else {
                assert(r[i] == s[s.len() - 1]);
            }
        }
    }
}

/// A name without an ASCII letter or digit gets the fallback.
pub proof fn slug_of_nothing(lowered: Seq<char>, fallback: Seq<char>)
    ensures
        (forall|i: int| 0 <= i < lowered.len() ==> !is_ascii_alnum(#[trigger] lowered[i])) ==> slug_of(
            lowered,
            fallback,
        ) == fallback,
{
    if forall|i: int| 0 <= i < lowered.len() ==> !is_ascii_alnum(#[trigger] lowered[i]) {
        slug_is_shaped(lowered, fallback);
        let m = slug_map(lowered);
        lemma_collapse_clean(m);
        let c = collapse_dashes(m);
        lemma_collapse_only_dashes(m);
        let a = lemma_trim_start_char(c, '-');
        let t1 = trim_start_char(c, '-');
        if t1.len() > 0 {
            assert(t1[0] == c[a]);
        }
        let b = lemma_trim_end_char(t1, '-');
        assert(trim_char(c, '-') == t1.take(b));
    }
}

proof fn lemma_collapse_only_dashes(s: Seq<char>)
    requires
        forall|i: int| 0 <= i < s.len() ==> #[trigger] s[i] == '-',
    ensures
        forall|i: int| 0 <= i < collapse_dashes(s).len() ==> #[trigger] collapse_dashes(s)[i] == '-',
    decreases s.len(),
{
    if s.len() > 0 {
        assert forall|i: int| 0 <= i < s.drop_last().len() implies #[trigger] s.drop_last()[i] == '-' by {
            assert(s.drop_last()[i] == s[i]);
        }
        lemma_collapse_only_dashes(s.drop_last());
        let rest = collapse_dashes(s.drop_last());
        let r = collapse_dashes(s);
        assert forall|i: int| 0 <= i < r.len() implies #[trigger] r[i] == '-' by {
            if i < rest.len() {
                assert(r[i] == rest[i]);
            } else {
                assert(r[i] == s[s.len() - 1]);
            }
        }
    }
}

/// Collapsing dashes leaves text without doubled dashes as it is.
proof fn lemma_collapse_clean_fixed(s: Seq<char>)
    requires
        forall|i: int| 0 <= i < s.len() - 1 ==> !(#[trigger] s[i] == '-' && s[i + 1] == '-'),
    ensures
        collapse_dashes(s) == s,
    decreases s.len(),
{
    if s.len() > 0 {
        let f = s.drop_last();
        assert forall|i: int| 0 <= i < f.len() - 1 implies !(#[trigger] f[i] == '-' && f[i + 1] == '-') by {
            assert(f[i] == s[i] && f[i + 1] == s[i + 1]);
        }
        lemma_collapse_clean_fixed(f);
        if s.len() > 1 {
            assert(!(s[s.len() - 2] == '-' && s[s.len() - 1] == '-'));
        }
        assert(f.push(s.last()) =~= s);
    }
}

/// A slug is its own slug: slugging a slug again gives it back.
pub proof fn slug_of_a_slug(s: Seq<char>, fallback: Seq<char>)
    requires
        slug_shaped(s),
    ensures
        slug_of(s, fallback) == s,
{
    assert(slug_map(s) =~= s);
    lemma_collapse_clean_fixed(s);
    assert(trim_start_char(s, '-') == s);
    assert(trim_end_char(s, '-') == s);
}

} // verus!
