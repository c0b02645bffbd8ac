//! Character-level text helpers: a model of the `str` operations the rest of
//! the library relies on (trimming, splitting into lines, joining, prefixes,
//! ASCII case folding, decimal rendering, UTF-8 widths), with executable
//! versions proved against that model.
use vstd::prelude::*;

verus! {

// ---------------------------------------------------------------------------
// Trusted std calls
// ---------------------------------------------------------------------------

/// `String::push`: appends one character to a string.
#[verifier::external_body]
pub(crate) fn push_char(s: &mut String, c: char)
    ensures
        final(s)@ == old(s)@.push(c),
{
    s.push(c);
}

/// What `str::to_lowercase` returns for a string: Unicode full lowercase mapping.
pub uninterp spec fn unicode_lowercase(s: Seq<char>) -> Seq<char>;

/// An ASCII capital letter.
pub open spec fn is_ascii_upper(c: char) -> bool {
    'A' <= c && c <= 'Z'
}

/// A character that lowercasing leaves alone and that slugs are made of:
/// an ASCII small letter, a digit or `-`.
pub open spec fn is_slug_char(c: char) -> bool {
    ('a' <= c && c <= 'z') || ('0' <= c && c <= '9') || c == '-'
}

/// `str::to_lowercase`. The result is named: the Unicode lowercase mapping is
/// defined by tables in std. Two facts of std's documentation ("the lowercase
/// equivalent ... according to the Unicode Derived Core Property Lowercase")
/// are claimed: no ASCII capital is left, and text of ASCII small letters,
/// digits and `-` comes back unchanged. Nothing else is claimed.
#[verifier::external_body]
pub(crate) fn to_lowercase(s: &str) -> (r: String)
    ensures
        r@ == unicode_lowercase(s@),
        forall|i: int| 0 <= i < r@.len() ==> !is_ascii_upper(#[trigger] r@[i]),
        (forall|i: int| 0 <= i < s@.len() ==> is_slug_char(#[trigger] s@[i])) ==> r@ == s@,
{
    s.to_lowercase()
}

/// What `char::to_uppercase` yields for a character, as a string.
pub uninterp spec fn unicode_uppercase(c: char) -> Seq<char>;

/// `char::to_uppercase`, collected into a string. Only the name of the result
/// is claimed; the mapping lives in std's Unicode tables.
#[verifier::external_body]
pub(crate) fn char_to_uppercase(c: char) -> (r: String)
    ensures
        r@ == unicode_uppercase(c),
{
    c.to_uppercase().collect()
}

// ---------------------------------------------------------------------------
// Conversions between strings and character vectors
// ---------------------------------------------------------------------------

/// The characters of `s`, in order.
pub fn chars_of(s: &str) -> (r: Vec<char>)
    ensures
        r@ == s@,
{
    let mut r: Vec<char> = Vec::new();
    for c in it: s.chars()
        invariant
            r@ == it.seq().take(it.index() as int),
            it.seq() == s@,
    {
        r.push(c);
    }
    r
}

/// The string made of `v`'s characters.
pub fn string_of(v: &[char]) -> (r: String)
    ensures
        r@ == v@,
{
    let mut r = String::new();
    let mut i: usize = 0;
    while i < v.len()
        invariant
            i <= v.len(),
            r@ == v@.take(i as int),
        decreases v.len() - i,
    {
        push_char(&mut r, v[i]);
        assert(v@.take(i + 1) == v@.take(i as int).push(v@[i as int]));
        i = i + 1;
    }
    assert(v@.take(v.len() as int) == v@);
    r
}

/// Appends the characters of `tail` to `v`.
pub fn extend_chars(v: &mut Vec<char>, tail: &[char])
    ensures
        final(v)@ == old(v)@ + tail@,
{
    let mut i: usize = 0;
    while i < tail.len()
        invariant
            i <= tail.len(),
            v@ == old(v)@ + tail@.take(i as int),
        decreases tail.len() - i,
    {
        v.push(tail[i]);
        assert(tail@.take(i + 1) == tail@.take(i as int).push(tail@[i as int]));
        i = i + 1;
    }
    assert(tail@.take(tail.len() as int) == tail@);
}

/// Appends the characters of `s` to `v`.
pub fn extend_str(v: &mut Vec<char>, s: &str)
    ensures
        final(v)@ == old(v)@ + s@,
{
    let cs = chars_of(s);
    extend_chars(v, &cs);
}

/// The characters `v[lo..hi]`.
pub fn slice_chars(v: &[char], lo: usize, hi: usize) -> (r: Vec<char>)
    requires
        lo <= hi <= v.len(),
    ensures
        r@ == v@.subrange(lo as int, hi as int),
{
    let mut r: Vec<char> = Vec::new();
    let mut i: usize = lo;
    while i < hi
        invariant
            lo <= i <= hi <= v.len(),
            r@ == v@.subrange(lo as int, i as int),
        decreases hi - i,
    {
        r.push(v[i]);
        assert(v@.subrange(lo as int, i + 1) == v@.subrange(lo as int, i as int).push(v@[i as int]));
        i = i + 1;
    }
    r
}

/// Whether two character sequences are equal.
pub fn chars_eq(a: &[char], b: &[char]) -> (r: bool)
    ensures
        r == (a@ == b@),
{
    if a.len() != b.len() {
        return false;
    }
    let mut i: usize = 0;
    while i < a.len()
        invariant
            i <= a.len() == b.len(),
            forall|j: int| 0 <= j < i ==> a@[j] == b@[j],
        decreases a.len() - i,
    {
        if a[i] != b[i] {
            return false;
        }
        i = i + 1;
    }
    assert(a@ =~= b@);
    true
}

/// Whether `s` is equal to `t`.
pub fn str_eq(s: &str, t: &str) -> (r: bool)
    ensures
        r == (s@ == t@),
{
    let a = chars_of(s);
    let b = chars_of(t);
    chars_eq(&a, &b)
}

// ---------------------------------------------------------------------------
// Prefixes and searching
// ---------------------------------------------------------------------------

/// `s` starts with `p`.
pub open spec fn has_prefix(s: Seq<char>, p: Seq<char>) -> bool {
    p.len() <= s.len() && s.take(p.len() as int) == p
}

/// `s` ends with `p`.
pub open spec fn has_suffix(s: Seq<char>, p: Seq<char>) -> bool {
    p.len() <= s.len() && s.skip(s.len() - p.len()) == p
}

pub fn starts_with(v: &[char], p: &[char]) -> (r: bool)
    ensures
        r == has_prefix(v@, p@),
{
    if p.len() > v.len() {
        return false;
    }
    let mut i: usize = 0;
    while i < p.len()
        invariant
            i <= p.len() <= v.len(),
            forall|j: int| 0 <= j < i ==> v@[j] == p@[j],
        decreases p.len() - i,
    {
        if v[i] != p[i] {
            assert(v@.take(p.len() as int)[i as int] != p@[i as int]);
            return false;
        }
        i = i + 1;
    }
    assert(v@.take(p.len() as int) =~= p@);
    true
}

pub fn starts_with_str(v: &[char], p: &str) -> (r: bool)
    ensures
        r == has_prefix(v@, p@),
{
    let pc = chars_of(p);
    starts_with(v, &pc)
}

pub fn ends_with(v: &[char], p: &[char]) -> (r: bool)
    ensures
        r == has_suffix(v@, p@),
{
    if p.len() > v.len() {
        return false;
    }
    let off = v.len() - p.len();
    let mut i: usize = 0;
    while i < p.len()
        invariant
            i <= p.len() <= v.len(),
            off == v.len() - p.len(),
            forall|j: int| 0 <= j < i ==> v@[off + j] == p@[j],
        decreases p.len() - i,
    {
        if v[off + i] != p[i] {
            assert(v@.skip(off as int)[i as int] != p@[i as int]);
            return false;
        }
        i = i + 1;
    }
    assert(v@.skip(off as int) =~= p@);
    true
}

/// Index of the first occurrence of `c` in `s`, or `s.len()` when absent.
pub open spec fn find_char(s: Seq<char>, c: char) -> int
    decreases s.len(),
{
    if s.len() == 0 {
        0
    } else if s[0] == c {
        0
    } else {
        1 + find_char(s.drop_first(), c)
    }
}

pub proof fn lemma_find_char(s: Seq<char>, c: char)
    ensures
        0 <= find_char(s, c) <= s.len(),
        forall|j: int| 0 <= j < find_char(s, c) ==> s[j] != c,
        find_char(s, c) < s.len() ==> s[find_char(s, c)] == c,
        find_char(s, c) == s.len() <==> !s.contains(c),
    decreases s.len(),
{
    if s.len() > 0 && s[0] != c {
        lemma_find_char(s.drop_first(), c);
        assert forall|j: int| 0 <= j < find_char(s, c) implies s[j] != c by {
            if j > 0 {
                assert(s[j] == s.drop_first()[j - 1]);
            }
        }
        if !s.contains(c) {
            assert(!s.drop_first().contains(c)) by {
                if s.drop_first().contains(c) {
                    let k = choose|k: int| 0 <= k < s.drop_first().len() && s.drop_first()[k] == c;
                    assert(s[k + 1] == c);
                }
            }
        } else {
            let k = choose|k: int| 0 <= k < s.len() && s[k] == c;
            assert(s.drop_first()[k - 1] == c);
        }
    } else if s.len() > 0 {
        assert(s.contains(c)) by {
            assert(s[0] == c);
        }
    }
}

/// Index of the first `c` in `v`, or `v.len()` when there is none.
pub fn find_char_exec(v: &[char], c: char) -> (r: usize)
    ensures
        r == find_char(v@, c),
{
    proof {
        lemma_find_char(v@, c);
    }
    let mut i: usize = 0;
    while i < v.len()
        invariant
            i <= v.len(),
            0 <= find_char(v@, c) <= v@.len(),
            forall|j: int| 0 <= j < find_char(v@, c) ==> v@[j] != c,
            find_char(v@, c) < v@.len() ==> v@[find_char(v@, c)] == c,
            forall|j: int| 0 <= j < i ==> v@[j] != c,
        decreases v.len() - i,
    {
        if v[i] == c {
            return i;
        }
        i = i + 1;
    }
    i
}

// ---------------------------------------------------------------------------
// Whitespace and trimming
// ---------------------------------------------------------------------------

/// The Unicode `White_Space` property, as `char::is_whitespace` tests it.
pub open spec fn is_ws(c: char) -> bool {
    let u = c as u32;
    (0x09 <= u && u <= 0x0d) || u == 0x20 || u == 0x85 || u == 0xa0 || u == 0x1680
        || (0x2000 <= u && u <= 0x200a) || u == 0x2028 || u == 0x2029 || u == 0x202f
        || u == 0x205f || u == 0x3000
}

pub fn is_ws_exec(c: char) -> (r: bool)
    ensures
        r == is_ws(c),
{
    let u = c as u32;
    (0x09 <= u && u <= 0x0d) || u == 0x20 || u == 0x85 || u == 0xa0 || u == 0x1680
        || (0x2000 <= u && u <= 0x200a) || u == 0x2028 || u == 0x2029 || u == 0x202f
        || u == 0x205f || u == 0x3000
}

/// `str::trim_start`.
pub open spec fn trim_start(s: Seq<char>) -> Seq<char>
    decreases s.len(),
{
    if s.len() > 0 && is_ws(s[0]) {
        trim_start(s.drop_first())
    } else {
        s
    }
}

/// `str::trim_end`.
pub open spec fn trim_end(s: Seq<char>) -> Seq<char>
    decreases s.len(),
{
    if s.len() > 0 && is_ws(s.last()) {
        trim_end(s.drop_last())
    } else {
        s
    }
}

/// `str::trim`.
pub open spec fn trim(s: Seq<char>) -> Seq<char> {
    trim_end(trim_start(s))
}

/// `str::trim_start_matches` with a single character.
pub open spec fn trim_start_char(s: Seq<char>, c: char) -> Seq<char>
    decreases s.len(),
{
    if s.len() > 0 && s[0] == c {
        trim_start_char(s.drop_first(), c)
    } else {
        s
    }
}

/// `str::trim_end_matches` with a single character.
pub open spec fn trim_end_char(s: Seq<char>, c: char) -> Seq<char>
    decreases s.len(),
{
    if s.len() > 0 && s.last() == c {
        trim_end_char(s.drop_last(), c)
    } else {
        s
    }
}

/// `str::trim_matches` with a single character.
pub open spec fn trim_char(s: Seq<char>, c: char) -> Seq<char> {
    trim_end_char(trim_start_char(s, c), c)
}

pub fn trim_start_exec(v: &[char]) -> (r: Vec<char>)
    ensures
        r@ == trim_start(v@),
{
    let mut i: usize = 0;
    assert(v@.skip(0) == v@);
    while i < v.len() && is_ws_exec(v[i])
        invariant
            i <= v.len(),
            trim_start(v@) == trim_start(v@.skip(i as int)),
        decreases v.len() - i,
    {
        assert(v@.skip(i as int).drop_first() == v@.skip(i + 1));
        i = i + 1;
    }
    slice_chars(v, i, v.len())
}

pub fn trim_end_exec(v: &[char]) -> (r: Vec<char>)
    ensures
        r@ == trim_end(v@),
{
    let mut j: usize = v.len();
    assert(v@.take(j as int) == v@);
    while j > 0 && is_ws_exec(v[j - 1])
        invariant
            j <= v.len(),
            trim_end(v@) == trim_end(v@.take(j as int)),
        decreases j,
    {
        assert(v@.take(j as int).drop_last() == v@.take(j - 1));
        j = j - 1;
    }
    slice_chars(v, 0, j)
}

pub fn trim_exec(v: &[char]) -> (r: Vec<char>)
    ensures
        r@ == trim(v@),
{
    let s = trim_start_exec(v);
    trim_end_exec(&s)
}

pub fn trim_start_char_exec(v: &[char], c: char) -> (r: Vec<char>)
    ensures
        r@ == trim_start_char(v@, c),
{
    let mut i: usize = 0;
    assert(v@.skip(0) == v@);
    while i < v.len() && v[i] == c
        invariant
            i <= v.len(),
            trim_start_char(v@, c) == trim_start_char(v@.skip(i as int), c),
        decreases v.len() - i,
    {
        assert(v@.skip(i as int).drop_first() == v@.skip(i + 1));
        i = i + 1;
    }
    slice_chars(v, i, v.len())
}

pub fn trim_end_char_exec(v: &[char], c: char) -> (r: Vec<char>)
    ensures
        r@ == trim_end_char(v@, c),
{
    let mut j: usize = v.len();
    assert(v@.take(j as int) == v@);
    while j > 0 && v[j - 1] == c
        invariant
            j <= v.len(),
            trim_end_char(v@, c) == trim_end_char(v@.take(j as int), c),
        decreases j,
    {
        assert(v@.take(j as int).drop_last() == v@.take(j - 1));
        j = j - 1;
    }
    slice_chars(v, 0, j)
}

pub fn trim_char_exec(v: &[char], c: char) -> (r: Vec<char>)
    ensures
        r@ == trim_char(v@, c),
{
    let s = trim_start_char_exec(v, c);
    trim_end_char_exec(&s, c)
}

// ---------------------------------------------------------------------------
// Lines
// ---------------------------------------------------------------------------

/// A line terminated by `\n` loses one trailing `\r`.
pub open spec fn strip_cr(l: Seq<char>) -> Seq<char> {
    if l.len() > 0 && l.last() == '\r' {
        l.drop_last()
    } else {
        l
    }
}

/// Reading `s` left to right: the finished lines and the line in progress.
pub open spec fn lines_fold(s: Seq<char>) -> (Seq<Seq<char>>, Seq<char>)
    decreases s.len(),
{
    if s.len() == 0 {
        (Seq::empty(), Seq::empty())
    } else {
        let (done, cur) = lines_fold(s.drop_last());
        if s.last() == '\n' {
            (done.push(strip_cr(cur)), Seq::empty())
        } else {
            (done, cur.push(s.last()))
        }
    }
}

/// `str::lines`: split at `\n` (dropping a `\r` before it); a final line
/// ending is optional and yields no empty last line.
pub open spec fn lines(s: Seq<char>) -> Seq<Seq<char>> {
    let (done, cur) = lines_fold(s);
    if cur.len() > 0 {
        done.push(cur)
    } else {
        done
    }
}

/// A line that ends in a carriage return of its own.
pub open spec fn ends_in_cr(line: Seq<char>) -> bool {
    line.len() > 0 && line.last() == '\r'
}

/// Text without a line break only extends the line in progress.
pub proof fn lemma_lines_fold_word(s: Seq<char>, w: Seq<char>)
    requires
        !w.contains('\n'),
    ensures
        lines_fold(s + w) == (lines_fold(s).0, lines_fold(s).1 + w),
    decreases w.len(),
{
    if w.len() == 0 {
        assert(s + w =~= s);
        assert(lines_fold(s).1 + w =~= lines_fold(s).1);
    } else {
        let u = w.drop_last();
        assert(!u.contains('\n')) by {
            if u.contains('\n') {
                let i = choose|i: int| 0 <= i < u.len() && u[i] == '\n';
                assert(w[i] == '\n');
            }
        }
        lemma_lines_fold_word(s, u);
        assert((s + w).drop_last() =~= s + u);
        assert(w.last() != '\n') by {
            if w.last() == '\n' {
                assert(w[w.len() - 1] == '\n');
            }
        }
        assert((lines_fold(s).1 + u).push(w.last()) =~= lines_fold(s).1 + w);
    }
}

/// No line holds a line break.
pub proof fn lemma_lines_have_no_break(s: Seq<char>)
    ensures
        forall|j: int| 0 <= j < lines_fold(s).0.len() ==> !(#[trigger] lines_fold(s).0[j]).contains('\n'),
        !lines_fold(s).1.contains('\n'),
        forall|j: int| 0 <= j < lines(s).len() ==> !(#[trigger] lines(s)[j]).contains('\n'),
    decreases s.len(),
{
    if s.len() > 0 {
        lemma_lines_have_no_break(s.drop_last());
        let (d, c) = lines_fold(s.drop_last());
        assert(!strip_cr(c).contains('\n')) by {
            if strip_cr(c).contains('\n') {
                let i = choose|i: int| 0 <= i < strip_cr(c).len() && strip_cr(c)[i] == '\n';
                assert(c[i] == '\n');
            }
        }
        if s.last() != '\n' {
            assert(!c.push(s.last()).contains('\n')) by {
                if c.push(s.last()).contains('\n') {
                    let i = choose|i: int| 0 <= i < c.push(s.last()).len() && c.push(s.last())[i] == '\n';
                    if i < c.len() {
                        assert(c[i] == '\n');
                    }
                }
            }
        } else {
            assert forall|j: int| 0 <= j < d.push(strip_cr(c)).len() implies !(#[trigger] d.push(
                strip_cr(c),
            )[j]).contains('\n') by {
                if j < d.len() {
                    assert(d.push(strip_cr(c))[j] == d[j]);
                }
            }
        }
    } else {
        assert(!Seq::<char>::empty().contains('\n'));
    }
    let (d, c) = lines_fold(s);
    assert forall|j: int| 0 <= j < lines(s).len() implies !(#[trigger] lines(s)[j]).contains('\n') by {
        if j < d.len() {
            assert(lines(s)[j] == d[j]);
        }
    }
}

/// The views of a vector of character vectors.
pub open spec fn views(v: Seq<Vec<char>>) -> Seq<Seq<char>> {
    v.map_values(|l: Vec<char>| l@)
}

pub fn lines_exec(v: &[char]) -> (r: Vec<Vec<char>>)
    ensures
        views(r@) == lines(v@),
{
    let mut done: Vec<Vec<char>> = Vec::new();
    let mut cur: Vec<char> = Vec::new();
    let mut i: usize = 0;
    assert(v@.take(0) =~= Seq::<char>::empty());
    while i < v.len()
        invariant
            i <= v.len(),
            (views(done@), cur@) == lines_fold(v@.take(i as int)),
        decreases v.len() - i,
    {
        let c = v[i];
        assert(v@.take(i + 1).drop_last() == v@.take(i as int));
        if c == '\n' {
            let mut line = cur;
            if line.len() > 0 && line[line.len() - 1] == '\r' {
                line.pop();
            }
            proof {
                assert(views(done@.push(line))
                    =~= views(done@).push(line@));
            }
            done.push(line);
            cur = Vec::new();
        } else {
            cur.push(c);
        }
        i = i + 1;
    }
    assert(v@.take(v.len() as int) == v@);
    if cur.len() > 0 {
        proof {
            assert(views(done@.push(cur)) =~= views(done@).push(cur@));
        }
        done.push(cur);
    }
    done
}

/// `lines.join("\n")`.
pub open spec fn join_lines(ls: Seq<Seq<char>>) -> Seq<char>
    decreases ls.len(),
{
    if ls.len() == 0 {
        Seq::empty()
    } else if ls.len() == 1 {
        ls[0]
    } else {
        join_lines(ls.drop_last()) + seq!['\n'] + ls.last()
    }
}

pub fn join_lines_exec(ls: &Vec<Vec<char>>) -> (r: Vec<char>)
    ensures
        r@ == join_lines(views(ls@)),
{
    let mut r: Vec<char> = Vec::new();
    let mut i: usize = 0;
    while i < ls.len()
        invariant
            i <= ls.len(),
            r@ == join_lines(views(ls@).take(i as int)),
        decreases ls.len() - i,
    {
        let ghost before = views(ls@).take(i as int);
        assert(views(ls@).take(i + 1).drop_last() == before);
        if i > 0 {
            r.push('\n');
        }
        extend_chars(&mut r, &ls[i]);
        proof {
            if i == 0 {
                assert(r@ == views(ls@).take(1)[0]);
            }
        }
        i = i + 1;
    }
    assert(views(ls@).take(ls.len() as int) == views(ls@));
    r
}

// ---------------------------------------------------------------------------
// ASCII case folding
// ---------------------------------------------------------------------------

/// `char::to_ascii_lowercase`.
pub open spec fn ascii_lower(c: char) -> char {
    if 'A' <= c && c <= 'Z' {
        ((c as u32) + 32) as char
    } else {
        c
    }
}

pub fn ascii_lower_exec(c: char) -> (r: char)
    ensures
        r == ascii_lower(c),
{
    if 'A' <= c && c <= 'Z' {
        let u = (c as u32) + 32;
        assert(0x61 <= u <= 0x7a);
        char_from_ascii(u)
    } else {
        c
    }
}

/// The character with an ASCII code point.
fn char_from_ascii(u: u32) -> (r: char)
    requires
        u < 128,
    ensures
        r == u as char,
{
    let b = u as u8;
    b as char
}

/// `str::eq_ignore_ascii_case`. Over UTF-8 bytes it compares ASCII letters
/// case-insensitively and every other byte exactly; since ASCII bytes never
/// occur inside a multi-byte character, this is the same as comparing the
/// characters one by one after ASCII lowercasing.
pub open spec fn eq_ignore_ascii_case(s: Seq<char>, t: Seq<char>) -> bool {
    s.len() == t.len() && forall|i: int| 0 <= i < s.len() ==> ascii_lower(s[i]) == ascii_lower(t[i])
}

pub fn eq_ignore_ascii_case_exec(s: &str, t: &str) -> (r: bool)
    ensures
        r == eq_ignore_ascii_case(s@, t@),
{
    let a = chars_of(s);
    let b = chars_of(t);
    if a.len() != b.len() {
        return false;
    }
    let mut i: usize = 0;
    while i < a.len()
        invariant
            i <= a.len() == b.len(),
            a@ == s@,
            b@ == t@,
            forall|j: int| 0 <= j < i ==> ascii_lower(a@[j]) == ascii_lower(b@[j]),
        decreases a.len() - i,
    {
        if ascii_lower_exec(a[i]) != ascii_lower_exec(b[i]) {
            return false;
        }
        i = i + 1;
    }
    true
}

/// `c.is_ascii_alphanumeric()`.
pub open spec fn is_ascii_alnum(c: char) -> bool {
    ('a' <= c && c <= 'z') || ('A' <= c && c <= 'Z') || ('0' <= c && c <= '9')
}

pub fn is_ascii_alnum_exec(c: char) -> (r: bool)
    ensures
        r == is_ascii_alnum(c),
{
    ('a' <= c && c <= 'z') || ('A' <= c && c <= 'Z') || ('0' <= c && c <= '9')
}

// ---------------------------------------------------------------------------
// Decimal rendering
// ---------------------------------------------------------------------------

pub open spec fn digit_char(d: nat) -> char {
    ((48 + d) as u32) as char
}

/// The decimal digits of `n`, as `format!("{}", n)` writes them.
pub open spec fn decimal(n: nat) -> Seq<char>
    decreases n,
{
    if n < 10 {
        seq![digit_char(n)]
    } else {
        decimal(n / 10).push(digit_char(n % 10))
    }
}

/// `format!("{}", i)` for a signed integer.
pub open spec fn int_text(i: int) -> Seq<char> {
    if i < 0 {
        seq!['-'] + decimal((-i) as nat)
    } else {
        decimal(i as nat)
    }
}

fn digit_exec(d: u64) -> (r: char)
    requires
        d < 10,
    ensures
        r == digit_char(d as nat),
{
    char_from_ascii((48 + d) as u32)
}

/// The decimal digits of `n`.
pub fn decimal_exec(n: u64) -> (r: Vec<char>)
    ensures
        r@ == decimal(n as nat),
    decreases n,
{
    if n < 10 {
        let mut r = Vec::new();
        r.push(digit_exec(n));
        r
    } else {
        let mut r = decimal_exec(n / 10);
        r.push(digit_exec(n % 10));
        r
    }
}

/// `format!("{}", i)`.
pub fn int_text_exec(i: i64) -> (r: Vec<char>)
    ensures
        r@ == int_text(i as int),
{
    if i < 0 {
        let mag: u64 = if i == i64::MIN {
            9223372036854775808u64
        } else {
            (-i) as u64
        };
        let d = decimal_exec(mag);
        let mut r: Vec<char> = Vec::new();
        r.push('-');
        extend_chars(&mut r, &d);
        r
    } else {
        decimal_exec(i as u64)
    }
}

/// Reads back a string of decimal digits.
pub open spec fn digits_value(s: Seq<char>) -> int
    decreases s.len(),
{
    if s.len() == 0 {
        0
    } else {
        digits_value(s.drop_last()) * 10 + ((s.last() as u32) - 48)
    }
}

/// Decimal rendering loses nothing: the digits read back as the number.
pub proof fn lemma_decimal_value(n: nat)
    ensures
        digits_value(decimal(n)) == n,
        decimal(n).len() >= 1,
    decreases n,
{
    let d = decimal(n);
    if n >= 10 {
        lemma_decimal_value(n / 10);
        assert(d.drop_last() == decimal(n / 10));
        assert(d.last() == digit_char(n % 10));
        assert((digit_char(n % 10) as u32) == 48 + n % 10);
        assert(digits_value(d) == digits_value(d.drop_last()) * 10 + ((d.last() as u32) - 48));
        assert(n == (n / 10) * 10 + n % 10) by (nonlinear_arith);
    } else {
        assert(d.drop_last() =~= Seq::<char>::empty());
        assert((digit_char(n) as u32) == 48 + n);
        assert(digits_value(d) == digits_value(d.drop_last()) * 10 + ((d.last() as u32) - 48));
    }
}

/// A decimal rendering is a non-empty run of digits.
pub proof fn lemma_decimal_digits(n: nat)
    ensures
        decimal(n).len() >= 1,
        forall|i: int| 0 <= i < decimal(n).len() ==> '0' <= #[trigger] decimal(n)[i] <= '9',
    decreases n,
{
    lemma_decimal_value(n);
    if n >= 10 {
        lemma_decimal_digits(n / 10);
        let d = decimal(n);
        assert forall|i: int| 0 <= i < d.len() implies '0' <= #[trigger] d[i] <= '9' by {
            if i < d.len() - 1 {
                assert(d[i] == decimal(n / 10)[i]);
            } else {
                assert((digit_char(n % 10) as u32) == 48 + n % 10);
            }
        }
    } else {
        assert((digit_char(n) as u32) == 48 + n);
    }
}

/// Different numbers have different decimal renderings.
pub proof fn lemma_decimal_injective(a: nat, b: nat)
    ensures
        decimal(a) == decimal(b) ==> a == b,
{
    lemma_decimal_value(a);
    lemma_decimal_value(b);
}

// ---------------------------------------------------------------------------
// UTF-8 widths
// ---------------------------------------------------------------------------

/// `char::len_utf8`.
pub open spec fn char_width(c: char) -> nat {
    let u = c as u32;
    if u < 0x80 {
        1
    } else if u < 0x800 {
        2
    } else if u < 0x10000 {
        3
    } else {
        4
    }
}

/// The UTF-8 byte length of a character sequence (`str::len`).
pub open spec fn utf8_len(s: Seq<char>) -> nat
    decreases s.len(),
{
    if s.len() == 0 {
        0
    } else {
        utf8_len(s.drop_last()) + char_width(s.last())
    }
}

pub fn char_width_exec(c: char) -> (r: usize)
    ensures
        r == char_width(c),
{
    let u = c as u32;
    if u < 0x80 {
        1
    } else if u < 0x800 {
        2
    } else if u < 0x10000 {
        3
    } else {
        4
    }
}

/// Byte offset `b` falls between two characters of `s` at character index `k`.
pub open spec fn boundary_at(s: Seq<char>, b: nat, k: int) -> bool {
    0 <= k <= s.len() && utf8_len(s.take(k)) == b
}

/// `s.is_char_boundary(b)`.
pub open spec fn is_char_boundary(s: Seq<char>, b: nat) -> bool {
    exists|k: int| boundary_at(s, b, k)
}

pub proof fn lemma_utf8_len_take_mono(s: Seq<char>, j: int, k: int)
    requires
        0 <= j < k <= s.len(),
    ensures
        utf8_len(s.take(j)) < utf8_len(s.take(k)),
    decreases k - j,
{
    assert(s.take(k).drop_last() == s.take(k - 1));
    if j < k - 1 {
        lemma_utf8_len_take_mono(s, j, k - 1);
    }
}

/// Byte boundaries name at most one character index.
pub proof fn lemma_boundary_unique(s: Seq<char>, b: nat, j: int, k: int)
    requires
        boundary_at(s, b, j),
        boundary_at(s, b, k),
    ensures
        j == k,
{
    if j < k {
        lemma_utf8_len_take_mono(s, j, k);
    } else if k < j {
        lemma_utf8_len_take_mono(s, k, j);
    }
}

/// The character index at byte offset `b`, when `b` is a character boundary.
pub fn char_index_at_byte(v: &[char], b: usize) -> (r: Option<usize>)
    ensures
        r matches Some(k) ==> boundary_at(v@, b as nat, k as int),
        r is None ==> !is_char_boundary(v@, b as nat),
{
    let mut k: usize = 0;
    let mut bytes: usize = 0;
    assert(v@.take(0) =~= Seq::<char>::empty());
    while k < v.len() && bytes < b
        invariant
            k <= v.len(),
            bytes == utf8_len(v@.take(k as int)),
            forall|j: int| 0 <= j < k ==> utf8_len(#[trigger] v@.take(j)) < b,
        decreases v.len() - k,
    {
        assert(v@.take(k + 1).drop_last() == v@.take(k as int));
        let w = char_width_exec(v[k]);
        match bytes.checked_add(w) {
            Some(n) => {
                bytes = n;
                k = k + 1;
            },
            None => {
                proof {
                    assert forall|j: int| !boundary_at(v@, b as nat, j) by {
                        if boundary_at(v@, b as nat, j) && j > k + 1 {
                            lemma_utf8_len_take_mono(v@, k + 1, j);
                        }
                    }
                }
                return None;
            },
        }
    }
    if bytes == b {
        Some(k)
    } else {
        proof {
            assert forall|j: int| !boundary_at(v@, b as nat, j) by {
                if boundary_at(v@, b as nat, j) {
                    if j < k {
                    } else if j > k {
                        lemma_utf8_len_take_mono(v@, k as int, j);
                        if k < v.len() {
                        }
                    }
                }
            }
        }
        None
    }
}


// ---------------------------------------------------------------------------
// Hexadecimal rendering
// ---------------------------------------------------------------------------

pub open spec fn hex_digit(d: nat) -> char {
    if d < 10 {
        ((48 + d) as u32) as char
    } else {
        ((87 + d) as u32) as char
    }
}

/// The lowercase hexadecimal digits of `n`, as `format!("{:x}", n)` writes them.
pub open spec fn hex(n: nat) -> Seq<char>
    decreases n,
{
    if n < 16 {
        seq![hex_digit(n)]
    } else {
        hex(n / 16).push(hex_digit(n % 16))
    }
}

fn hex_digit_exec(d: u128) -> (r: char)
    requires
        d < 16,
    ensures
        r == hex_digit(d as nat),
{
    if d < 10 {
        char_from_ascii((48 + d) as u32)
    } else {
        char_from_ascii((87 + d) as u32)
    }
}

/// The lowercase hexadecimal digits of `n`.
pub fn hex_exec(n: u128) -> (r: Vec<char>)
    ensures
        r@ == hex(n as nat),
    decreases n,
{
    if n < 16 {
        let mut r = Vec::new();
        r.push(hex_digit_exec(n));
        r
    } else {
        let mut r = hex_exec(n / 16);
        r.push(hex_digit_exec(n % 16));
        r
    }
}

} // verus!
