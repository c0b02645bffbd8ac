//! Where the profiles and their shared history live, relative to the home
//! directory. Paths are strings joined the way `Path::join` joins a relative
//! component on Unix.
use vstd::prelude::*;

use crate::text::{chars_eq, chars_of, extend_chars, has_prefix, slice_chars, starts_with_str, string_of, views};

verus! {

/// `Path::new(dir).join(name)` on Unix: an absolute `name` replaces `dir`;
/// otherwise a `/` separates the two unless `dir` is empty or ends in `/`.
pub open spec fn path_join(dir: Seq<char>, name: Seq<char>) -> Seq<char> {
    if has_prefix(name, "/"@) {
        name
    } else if dir.len() == 0 {
        name
    } else if dir.last() == '/' {
        dir + name
    } else {
        dir + seq!['/'] + name
    }
}

/// Joins a relative or absolute path component onto a directory.
pub fn join_path(dir: &str, name: &str) -> (r: String)
    ensures
        r@ == path_join(dir@, name@),
{
    let d = chars_of(dir);
    let n = chars_of(name);
    if starts_with_str(&n, "/") || d.len() == 0 {
        return string_of(&n);
    }
    let mut out = slice_chars(&d, 0, d.len());
    assert(out@ =~= d@);
    if d[d.len() - 1] != '/' {
        out.push('/');
    }
    extend_chars(&mut out, &n);
    string_of(&out)
}

/// A component of a path that names something: not empty, not `.`.
pub open spec fn names_something(part: Seq<char>) -> bool {
    part.len() > 0 && part != "."@
}

/// Reading a path left to right: its finished components and the one in
/// progress. Separators repeat freely and `.` components vanish.
pub open spec fn parts_fold(p: Seq<char>) -> (Seq<Seq<char>>, Seq<char>)
    decreases p.len(),
{
    if p.len() == 0 {
        (Seq::empty(), Seq::empty())
    } else {
        let (done, cur) = parts_fold(p.drop_last());
        if p.last() == '/' {
            (if names_something(cur) { done.push(cur) } else { done }, Seq::empty())
        } else {
            (done, cur.push(p.last()))
        }
    }
}

/// The components of a path, as `Path::components` yields them on Unix,
/// without the root and without `.`.
pub open spec fn path_parts(p: Seq<char>) -> Seq<Seq<char>> {
    let (done, cur) = parts_fold(p);
    if names_something(cur) {
        done.push(cur)
    } else {
        done
    }
}

pub fn is_dot(v: &Vec<char>) -> (r: bool)
    ensures
        r == (v@ == "."@),
{
    let d = chars_of(".");
    chars_eq(v, &d)
}

pub fn path_parts_exec(v: &[char]) -> (r: Vec<Vec<char>>)
    ensures
        views(r@) == path_parts(v@),
{
    let mut done: Vec<Vec<char>> = Vec::new();
    let mut cur: Vec<char> = Vec::new();
    let mut i: usize = 0;
    assert(v@.take(0) =~= Seq::<char>::empty());
    while i < v.len()
        invariant
            i <= v.len(),
            (views(done@), cur@) == parts_fold(v@.take(i as int)),
        decreases v.len() - i,
    {
        let c = v[i];
        assert(v@.take(i + 1).drop_last() == v@.take(i as int));
        if c == '/' {
            if cur.len() > 0 && !is_dot(&cur) {
                proof {
                    assert(views(done@.push(cur)) =~= views(done@).push(cur@));
                }
                done.push(cur);
            }
            cur = Vec::new();
        } else {
            cur.push(c);
        }
        i = i + 1;
    }
    assert(v@.take(v.len() as int) == v@);
    if cur.len() > 0 && !is_dot(&cur) {
        proof {
            assert(views(done@.push(cur)) =~= views(done@).push(cur@));
        }
        done.push(cur);
    }
    done
}

/// How `Path::components` sees the start of a path on Unix: the root `/`
/// (1), a `.` component that it keeps, in a relative path that is `.` or
/// starts with `./` (2), or neither (0).
pub open spec fn path_head(p: Seq<char>) -> int {
    if has_prefix(p, "/"@) {
        1
    } else if p == "."@ || has_prefix(p, "./"@) {
        2
    } else {
        0
    }
}

/// The text of a path after its head.
pub open spec fn path_body(p: Seq<char>) -> Seq<char> {
    if path_head(p) == 0 {
        p
    } else {
        p.skip(1)
    }
}

/// The text that is left of a path body once `k` more components are read,
/// reading on from the component `cur` in progress: the separator after the
/// last of them goes with it, and empty and `.` components on the way are
/// skipped.
pub open spec fn after_parts(s: Seq<char>, k: nat, cur: Seq<char>) -> Seq<char>
    decreases s.len(),
{
    if k == 0 || s.len() == 0 {
        s
    } else if s[0] == '/' {
        after_parts(s.skip(1), if names_something(cur) { (k - 1) as nat } else { k }, Seq::empty())
    } else {
        after_parts(s.skip(1), k, cur.push(s[0]))
    }
}

/// `s` without the empty and `.` components at its start.
pub open spec fn trim_front_noise(s: Seq<char>) -> Seq<char>
    decreases s.len(),
{
    if s.len() == 0 {
        s
    } else if s[0] == '/' || (s[0] == '.' && (s.len() == 1 || s[1] == '/')) {
        trim_front_noise(s.skip(1))
    } else {
        s
    }
}

/// `s` without the empty and `.` components at its end.
pub open spec fn trim_back_noise(s: Seq<char>) -> Seq<char>
    decreases s.len(),
{
    if s.len() == 0 {
        s
    } else if s.last() == '/' || (s.last() == '.' && (s.len() == 1 || s[s.len() - 2] == '/')) {
        trim_back_noise(s.drop_last())
    } else {
        s
    }
}

/// `Path::strip_prefix(p, base)` on Unix, where `base` has a component:
/// `Some` when the components of `base` begin those of `p`, with the rest of
/// `p`'s text, as `Path::to_string_lossy` shows it, trimmed of empty and `.`
/// components at both ends.
pub open spec fn strip_path_prefix(p: Seq<char>, base: Seq<char>) -> Option<Seq<char>> {
    let bp = path_parts(base);
    let pp = path_parts(p);
    if path_head(p) == path_head(base) && bp.len() <= pp.len() && pp.take(bp.len() as int) == bp {
        Some(trim_back_noise(trim_front_noise(after_parts(path_body(p), bp.len(), Seq::empty()))))
    } else {
        None
    }
}

fn path_head_exec(v: &[char]) -> (r: u8)
    ensures
        r == path_head(v@),
{
    if starts_with_str(v, "/") {
        1
    } else if starts_with_str(v, "./") {
        2
    } else if v.len() == 1 && v[0] == '.' {
        proof {
            reveal_strlit(".");
        }
        assert(v@ =~= "."@);
        2
    } else {
        proof {
            reveal_strlit(".");
        }
        0
    }
}

fn after_parts_exec(v: &[char], start: usize, k: usize) -> (r: Vec<char>)
    requires
        start <= v.len(),
    ensures
        r@ == after_parts(v@.skip(start as int), k as nat, Seq::empty()),
{
    let mut i: usize = start;
    let mut left: usize = k;
    let mut cur: Vec<char> = Vec::new();
    while left > 0 && i < v.len()
        invariant
            start <= i <= v.len(),
            after_parts(v@.skip(start as int), k as nat, Seq::empty()) == after_parts(
                v@.skip(i as int),
                left as nat,
                cur@,
            ),
        decreases v.len() - i,
    {
        let c = v[i];
        assert(v@.skip(i as int)[0] == c);
        assert(v@.skip(i as int).skip(1) =~= v@.skip(i + 1));
        if c == '/' {
            if cur.len() > 0 && !is_dot(&cur) {
                left = left - 1;
            }
            cur = Vec::new();
        } else {
            cur.push(c);
        }
        i = i + 1;
    }
    slice_chars(v, i, v.len())
}

fn trim_noise_exec(v: &[char]) -> (r: Vec<char>)
    ensures
        r@ == trim_back_noise(trim_front_noise(v@)),
{
    let mut lo: usize = 0;
    assert(v@.skip(0) =~= v@);
    while lo < v.len() && (v[lo] == '/' || (v[lo] == '.' && (lo + 1 == v.len() || v[lo + 1] == '/')))
        invariant
            lo <= v.len(),
            trim_front_noise(v@) == trim_front_noise(v@.skip(lo as int)),
        decreases v.len() - lo,
    {
        assert(v@.skip(lo as int).skip(1) =~= v@.skip(lo + 1));
        lo = lo + 1;
    }
    let mut hi: usize = v.len();
    assert(v@.skip(lo as int) =~= v@.subrange(lo as int, hi as int));
    assert(trim_front_noise(v@.skip(lo as int)) == v@.skip(lo as int));
    while hi > lo && (v[hi - 1] == '/' || (v[hi - 1] == '.' && (hi - 1 == lo || v[hi - 2] == '/')))
        invariant
            lo <= hi <= v.len(),
            trim_back_noise(trim_front_noise(v@)) == trim_back_noise(v@.subrange(lo as int, hi as int)),
        decreases hi,
    {
        assert(v@.subrange(lo as int, hi as int).drop_last() =~= v@.subrange(lo as int, hi - 1));
        hi = hi - 1;
    }
    slice_chars(v, lo, hi)
}

/// The profile store, rooted at the user's home directory.
pub struct ProfileStore {
    pub home: String,
}

impl ProfileStore {
    pub fn new(home: String) -> (r: ProfileStore)
        ensures
            r.home@ == home@,
    {
        ProfileStore { home }
    }

    /// `~/.codex`: where Codex reads its state; a link to the active profile.
    pub fn codex_home(&self) -> (r: String)
        ensures
            r@ == path_join(self.home@, ".codex"@),
    {
        join_path(self.home.as_str(), ".codex")
    }

    /// `~/.codex-profiles`: one directory per profile.
    pub fn profile_root(&self) -> (r: String)
        ensures
            r@ == path_join(self.home@, ".codex-profiles"@),
    {
        join_path(self.home.as_str(), ".codex-profiles")
    }

    /// `~/.codex-profiles/_shared-history`.
    pub fn shared_history_root(&self) -> (r: String)
        ensures
            r@ == path_join(path_join(self.home@, ".codex-profiles"@), "_shared-history"@),
    {
        let root = self.profile_root();
        join_path(root.as_str(), "_shared-history")
    }

    /// The sessions directory that every profile links to.
    pub fn shared_sessions(&self) -> (r: String)
        ensures
            r@ == path_join(
                path_join(path_join(self.home@, ".codex-profiles"@), "_shared-history"@),
                "sessions"@,
            ),
    {
        let root = self.shared_history_root();
        join_path(root.as_str(), "sessions")
    }

    /// The session index that every profile links to.
    pub fn shared_session_index(&self) -> (r: String)
        ensures
            r@ == path_join(
                path_join(path_join(self.home@, ".codex-profiles"@), "_shared-history"@),
                "session_index.jsonl"@,
            ),
    {
        let root = self.shared_history_root();
        join_path(root.as_str(), "session_index.jsonl")
    }

    /// The directory of shared desktop SQLite state.
    pub fn shared_desktop_state(&self) -> (r: String)
        ensures
            r@ == path_join(
                path_join(path_join(self.home@, ".codex-profiles"@), "_shared-history"@),
                "desktop-state"@,
            ),
    {
        let root = self.shared_history_root();
        join_path(root.as_str(), "desktop-state")
    }

    /// The merged workspace list shared by all profiles.
    pub fn shared_workspace_state(&self) -> (r: String)
        ensures
            r@ == path_join(
                path_join(path_join(self.home@, ".codex-profiles"@), "_shared-history"@),
                "workspaces.json"@,
            ),
    {
        let root = self.shared_history_root();
        join_path(root.as_str(), "workspaces.json")
    }

    /// The profile `~/.codex` links to, given the target that the link holds:
    /// the target, taken from the home directory when it is relative, with the
    /// profile root stripped off its front; `None` when it does not lie under
    /// the root.
    pub fn active_profile_id(&self, link_target: &str) -> (r: Option<String>)
        ensures
            match strip_path_prefix(path_join(self.home@, link_target@), path_join(self.home@, ".codex-profiles"@)) {
                Some(rest) => r matches Some(id) && id@ == rest,
                None => r is None,
            },
    {
        let resolved = join_path(self.home.as_str(), link_target);
        let root = self.profile_root();
        let p = chars_of(resolved.as_str());
        let b = chars_of(root.as_str());
        let hp = path_head_exec(&p);
        let hb = path_head_exec(&b);
        if hp != hb {
            return None;
        }
        let pp = path_parts_exec(&p);
        let bp = path_parts_exec(&b);
        if bp.len() > pp.len() {
            return None;
        }
        let mut i: usize = 0;
        while i < bp.len()
            invariant
                i <= bp.len() <= pp.len(),
                forall|j: int| 0 <= j < i ==> #[trigger] pp@[j]@ == bp@[j]@,
                views(pp@) == path_parts(p@),
                views(bp@) == path_parts(b@),
                p@ == path_join(self.home@, link_target@),
                b@ == path_join(self.home@, ".codex-profiles"@),
                path_head(p@) == path_head(b@),
            decreases bp.len() - i,
        {
            if !chars_eq(&pp[i], &bp[i]) {
                assert(views(pp@)[i as int] == pp@[i as int]@);
                assert(views(bp@)[i as int] == bp@[i as int]@);
                assert(views(pp@).take(bp.len() as int)[i as int] != views(bp@)[i as int]);
                assert(views(pp@).take(bp.len() as int) != views(bp@));
                return None;
            }
            i = i + 1;
        }
        assert(views(pp@).take(bp.len() as int) =~= views(bp@));
        let start: usize = if hp == 0 {
            0
        } else {
            1
        };
        assert(p@.skip(0) =~= p@);
        proof {
            reveal_strlit("/");
            reveal_strlit("./");
            reveal_strlit(".");
        }
        let rest = after_parts_exec(&p, start, bp.len());
        let t = trim_noise_exec(&rest);
        Some(string_of(&t))
    }

    /// The directory of the profile `id`.
    pub fn profile_url(&self, id: &str) -> (r: String)
        ensures
            r@ == path_join(path_join(self.home@, ".codex-profiles"@), id@),
    {
        let root = self.profile_root();
        join_path(root.as_str(), id)
    }
}

/// `<profile>/.codex-switcher/usage_history.json`: the per-period usage
/// history of an account.
pub fn history_path(profile_dir: &str) -> (r: String)
    ensures
        r@ == path_join(path_join(profile_dir@, ".codex-switcher"@), "usage_history.json"@),
{
    let dir = join_path(profile_dir, ".codex-switcher");
    join_path(dir.as_str(), "usage_history.json")
}

/// `<profile>/.codex-switcher/activated_at.txt`: when the profile was last
/// switched to.
pub fn activation_path(profile_dir: &str) -> (r: String)
    ensures
        r@ == path_join(path_join(profile_dir@, ".codex-switcher"@), "activated_at.txt"@),
{
    let dir = join_path(profile_dir, ".codex-switcher");
    join_path(dir.as_str(), "activated_at.txt")
}

// ---------------------------------------------------------------------------
// Reading back the link to a profile
// ---------------------------------------------------------------------------

/// Reading `s` front to back from the component `cur` in progress: how many
/// components that name something it finishes, and the one in progress at
/// its end.
pub open spec fn read_front(s: Seq<char>, cur: Seq<char>) -> (nat, Seq<char>)
    decreases s.len(),
{
    if s.len() == 0 {
        (0, cur)
    } else if s[0] == '/' {
        let (m, c) = read_front(s.skip(1), Seq::empty());
        (m + if names_something(cur) { 1nat } else { 0nat }, c)
    } else {
        read_front(s.skip(1), cur.push(s[0]))
    }
}

/// Text without a separator only extends the component in progress.
proof fn lemma_parts_fold_word(s: Seq<char>, t: Seq<char>)
    requires
        !t.contains('/'),
    ensures
        parts_fold(s + t) == (parts_fold(s).0, parts_fold(s).1 + t),
    decreases t.len(),
{
    if t.len() == 0 {
        assert(s + t =~= s);
        assert(parts_fold(s).1 + t =~= parts_fold(s).1);
    } else {
        let u = t.drop_last();
        assert(!u.contains('/')) by {
            if u.contains('/') {
                let i = choose|i: int| 0 <= i < u.len() && u[i] == '/';
                assert(t[i] == '/');
            }
        }
        lemma_parts_fold_word(s, u);
        assert((s + t).drop_last() =~= s + u);
        assert((s + t).last() == t.last());
        assert(t.last() != '/') by {
            if t.last() == '/' {
                assert(t[t.len() - 1] == '/');
            }
        }
        assert((parts_fold(s).1 + u).push(t.last()) =~= parts_fold(s).1 + t);
    }
}

/// After a separator, the components of what follows are read afresh.
proof fn lemma_parts_fold_concat(x: Seq<char>, y: Seq<char>)
    requires
        parts_fold(x).1.len() == 0,
    ensures
        parts_fold(x + y) == (parts_fold(x).0 + parts_fold(y).0, parts_fold(y).1),
    decreases y.len(),
{
    if y.len() == 0 {
        assert(x + y =~= x);
        assert(parts_fold(x).0 + parts_fold(y).0 =~= parts_fold(x).0);
        assert(parts_fold(x).1 =~= parts_fold(y).1);
    } else {
        let u = y.drop_last();
        lemma_parts_fold_concat(x, u);
        assert((x + y).drop_last() =~= x + u);
        assert((x + y).last() == y.last());
        let (d, c) = parts_fold(u);
        assert((parts_fold(x).0 + d).push(c) =~= parts_fold(x).0 + d.push(c));
    }
}

/// Reading front to back finds the components that `parts_fold` finds.
proof fn lemma_read_front(s: Seq<char>, cur: Seq<char>)
    requires
        !cur.contains('/'),
    ensures
        read_front(s, cur) == (parts_fold(cur + s).0.len(), parts_fold(cur + s).1),
    decreases s.len(),
{
    let e = Seq::<char>::empty();
    lemma_parts_fold_word(e, cur);
    assert(e + cur =~= cur);
    if s.len() == 0 {
        assert(cur + s =~= cur);
    } else if s[0] == '/' {
        let rest = s.skip(1);
        lemma_read_front(rest, e);
        assert(e + rest =~= rest);
        let x = cur.push('/');
        assert(x.drop_last() =~= cur);
        lemma_parts_fold_concat(x, rest);
        assert(cur + s =~= x + rest);
    } else {
        let c2 = cur.push(s[0]);
        assert(!c2.contains('/')) by {
            if c2.contains('/') {
                let i = choose|i: int| 0 <= i < c2.len() && c2[i] == '/';
                if i < cur.len() {
                    assert(cur[i] == '/');
                }
            }
        }
        lemma_read_front(s.skip(1), c2);
        assert(c2 + s.skip(1) =~= cur + s);
    }
}

/// Components read before the `k`-th one is finished only count down `k`.
proof fn lemma_after_parts_split(s: Seq<char>, t: Seq<char>, k: nat, cur: Seq<char>)
    requires
        read_front(s, cur).0 < k,
    ensures
        after_parts(s + t, k, cur) == after_parts(
            t,
            (k - read_front(s, cur).0) as nat,
            read_front(s, cur).1,
        ),
    decreases s.len(),
{
    if s.len() == 0 {
        assert(s + t =~= t);
    } else {
        assert((s + t)[0] == s[0]);
        assert((s + t).skip(1) =~= s.skip(1) + t);
        if s[0] == '/' {
            let k2: nat = if names_something(cur) { (k - 1) as nat } else { k };
            lemma_after_parts_split(s.skip(1), t, k2, Seq::empty());
        } else {
            lemma_after_parts_split(s.skip(1), t, k, cur.push(s[0]));
        }
    }
}

/// A profile id names one directory entry: it is not empty or `.`, and holds
/// no separator.
pub open spec fn is_entry_name(id: Seq<char>) -> bool {
    names_something(id) && !id.contains('/')
}

/// The profile root: it starts at `/`, does not end in a separator, and the
/// body after its `/` has the same components, the last of them
/// `.codex-profiles` and still in progress at its end.
proof fn lemma_profile_root(home: Seq<char>)
    requires
        has_prefix(home, "/"@),
    ensures
        ({
            let root = path_join(home, ".codex-profiles"@);
            &&& root.len() >= 1
            &&& root[0] == '/'
            &&& root.last() != '/'
            &&& parts_fold(root.skip(1)).1 == ".codex-profiles"@
            &&& parts_fold(root) == parts_fold(root.skip(1))
        }),
{
    reveal_strlit("/");
    reveal_strlit(".codex-profiles");
    let name = ".codex-profiles"@;
    let e = Seq::<char>::empty();
    assert(home.len() >= 1 && home[0] == '/') by {
        assert(home.take(1)[0] == home[0]);
    }
    assert(!has_prefix(name, "/"@)) by {
        assert(name.take(1)[0] == '.');
    }
    assert(!name.contains('/')) by {
        if name.contains('/') {
            let i = choose|i: int| 0 <= i < name.len() && name[i] == '/';
        }
    }
    let x: Seq<char> = if home.last() == '/' { home } else { home + seq!['/'] };
    let root = path_join(home, name);
    assert(root =~= x + name);
    let body = root.skip(1);
    let xs = x.skip(1);
    assert(body =~= xs + name);
    assert(parts_fold(e) == (Seq::<Seq<char>>::empty(), e));
    lemma_parts_fold_word(e, name);
    assert(e + name =~= name);
    assert(parts_fold(name).1 == name);
    if xs.len() == 0 {
        assert(body =~= e + name);
    } else {
        assert(xs.last() == '/');
        assert(parts_fold(xs).1.len() == 0) by {
            assert(xs.drop_last() + seq!['/'] =~= xs);
        }
        lemma_parts_fold_concat(xs, name);
    }
    let slash = seq!['/'];
    assert(slash.drop_last() =~= e);
    assert(parts_fold(e) == (Seq::<Seq<char>>::empty(), e));
    assert(parts_fold(slash) == (Seq::<Seq<char>>::empty(), e));
    lemma_parts_fold_concat(slash, body);
    assert(Seq::<Seq<char>>::empty() + parts_fold(body).0 =~= parts_fold(body).0);
    assert(root =~= slash + body);
    assert(root.len() >= 1 && root[0] == '/');
    assert(root.last() == name.last());
    assert(root.last() != '/');
    assert(parts_fold(body).1 == name);
    assert(parts_fold(root) == parts_fold(body));
}

/// A profile id is left as it is by trimming empty and `.` components, and
/// is not an absolute path.
proof fn lemma_entry_name(id: Seq<char>)
    requires
        is_entry_name(id),
    ensures
        trim_back_noise(trim_front_noise(id)) == id,
        !has_prefix(id, "/"@),
{
    reveal_strlit("/");
    reveal_strlit(".");
    assert(!has_prefix(id, "/"@)) by {
        if has_prefix(id, "/"@) {
            assert(id.take(1)[0] == id[0]);
            assert(id.contains('/'));
        }
    }
    assert(id[0] != '/') by {
        if id[0] == '/' {
            assert(id.contains('/'));
        }
    }
    assert(trim_front_noise(id) == id) by {
        if id[0] == '.' && id.len() > 1 {
            assert(id[1] != '/') by {
                if id[1] == '/' {
                    assert(id.contains('/'));
                }
            }
        }
        if id[0] == '.' && id.len() == 1 {
            assert(id =~= "."@);
        }
    }
    assert(trim_back_noise(id) == id) by {
        assert(id.last() != '/') by {
            if id.last() == '/' {
                assert(id.contains('/'));
            }
        }
        if id.last() == '.' && id.len() > 1 {
            assert(id[id.len() - 2] != '/') by {
                if id[id.len() - 2] == '/' {
                    assert(id.contains('/'));
                }
            }
        }
        if id.last() == '.' && id.len() == 1 {
            assert(id =~= "."@);
        }
    }
}

/// Below a root, the entry `id` adds one component.
proof fn lemma_entry_parts(root: Seq<char>, id: Seq<char>)
    requires
        is_entry_name(id),
    ensures
        path_parts(root + seq!['/'] + id) == path_parts(root).push(id),
{
    let e = Seq::<char>::empty();
    let rs = root.push('/');
    assert(rs.drop_last() =~= root);
    assert(parts_fold(rs) == (path_parts(root), e));
    lemma_parts_fold_word(rs, id);
    assert(rs + id =~= root + seq!['/'] + id);
    assert(e + id =~= id);
}

/// Linking `~/.codex` to the directory of profile `id` makes `id` the active
/// profile: the profile read back from the link is the one it was made for.
pub proof fn linked_profile_reads_back(home: Seq<char>, id: Seq<char>)
    requires
        has_prefix(home, "/"@),
        is_entry_name(id),
    ensures
        strip_path_prefix(
            path_join(home, path_join(path_join(home, ".codex-profiles"@), id)),
            path_join(home, ".codex-profiles"@),
        ) == Some(id),
{
    reveal_strlit("/");
    reveal_strlit("./");
    reveal_strlit(".");
    let e = Seq::<char>::empty();
    let root = path_join(home, ".codex-profiles"@);
    lemma_profile_root(home);
    lemma_entry_name(id);
    let url = path_join(root, id);
    assert(url =~= root + seq!['/'] + id);
    assert(url[0] == '/');
    assert(url.take(1) =~= "/"@);
    assert(root.take(1) =~= "/"@);
    assert(path_join(home, url) == url);
    lemma_entry_parts(root, id);
    let k = path_parts(root).len();
    assert(path_parts(url).take(k as int) =~= path_parts(root));
    // Reading the body of the target stops right after the root.
    let body = root.skip(1);
    let tail = seq!['/'] + id;
    assert(path_body(url) =~= body + tail);
    lemma_read_front(body, e);
    assert(e + body =~= body);
    reveal_strlit(".codex-profiles");
    assert(names_something(".codex-profiles"@));
    assert(path_parts(root) == parts_fold(body).0.push(".codex-profiles"@));
    assert(read_front(body, e).0 + 1 == k);
    lemma_after_parts_split(body, tail, k, e);
    assert(tail.skip(1) =~= id);
    assert(after_parts(id, 0, e) == id);
    assert(tail.len() > 0 && tail[0] == '/');
    assert(after_parts(tail, 1, ".codex-profiles"@) == after_parts(id, 0, e));
    assert(after_parts(path_body(url), k, e) == id);
}

} // verus!
