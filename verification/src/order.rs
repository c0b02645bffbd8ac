//! Ordering: strings compared as `String`'s `<` compares them (code point by
//! code point), and a stable sort by a key of a number and two strings.
use vstd::prelude::*;

verus! {

/// `a < b` for strings: the first differing character decides, and a proper
/// prefix comes first.
pub open spec fn seq_less(a: Seq<char>, b: Seq<char>) -> bool
    decreases a.len(),
{
    if a.len() == 0 {
        b.len() > 0
    } else if b.len() == 0 {
        false
    } else if a[0] != b[0] {
        a[0] < b[0]
    } else {
        seq_less(a.drop_first(), b.drop_first())
    }
}

pub proof fn lemma_seq_less_irreflexive(a: Seq<char>)
    ensures
        !seq_less(a, a),
    decreases a.len(),
{
    if a.len() > 0 {
        lemma_seq_less_irreflexive(a.drop_first());
    }
}

pub proof fn lemma_seq_less_transitive(a: Seq<char>, b: Seq<char>, c: Seq<char>)
    requires
        seq_less(a, b),
        seq_less(b, c),
    ensures
        seq_less(a, c),
    decreases a.len(),
{
    if a.len() > 0 && b.len() > 0 && c.len() > 0 {
        if a[0] == b[0] && b[0] == c[0] {
            lemma_seq_less_transitive(a.drop_first(), b.drop_first(), c.drop_first());
        }
    }
}

pub proof fn lemma_seq_less_total(a: Seq<char>, b: Seq<char>)
    ensures
        a == b || seq_less(a, b) || seq_less(b, a),
    decreases a.len(),
{
    if a.len() > 0 && b.len() > 0 {
        if a[0] == b[0] {
            lemma_seq_less_total(a.drop_first(), b.drop_first());
            if a.drop_first() == b.drop_first() {
                assert(a.drop_first().len() == b.drop_first().len());
                assert(a.len() == b.len());
                assert forall|k: int| 0 <= k < a.len() implies a[k] == b[k] by {
                    if k > 0 {
                        assert(a[k] == a.drop_first()[k - 1]);
                        assert(b[k] == b.drop_first()[k - 1]);
                    }
                }
                assert(a =~= b);
            }
        }
    } else if a.len() == 0 && b.len() == 0 {
        assert(a =~= b);
    }
}

pub proof fn lemma_seq_less_asymmetric(a: Seq<char>, b: Seq<char>)
    requires
        seq_less(a, b),
    ensures
        !seq_less(b, a),
{
    if seq_less(b, a) {
        lemma_seq_less_transitive(a, b, a);
        lemma_seq_less_irreflexive(a);
    }
}

/// Whether `a < b`.
pub fn chars_less(a: &[char], b: &[char]) -> (r: bool)
    ensures
        r == seq_less(a@, b@),
{
    let mut i: usize = 0;
    assert(a@.skip(0) =~= a@);
    assert(b@.skip(0) =~= b@);
    while i < a.len() && i < b.len()
        invariant
            i <= a.len(),
            i <= b.len(),
            seq_less(a@, b@) == seq_less(a@.skip(i as int), b@.skip(i as int)),
        decreases a.len() - i,
    {
        if a[i] != b[i] {
            return a[i] < b[i];
        }
        assert(a@.skip(i as int).drop_first() =~= a@.skip(i + 1));
        assert(b@.skip(i as int).drop_first() =~= b@.skip(i + 1));
        i = i + 1;
    }
    i == a.len() && i < b.len()
}

/// A sort key: a number, then two strings, compared in that order.
pub struct SortKey {
    pub rank: i128,
    pub first: Vec<char>,
    pub second: Vec<char>,
}

/// The key of item `i` comes strictly before that of item `j`; equal keys
/// keep their order of appearance.
pub open spec fn key_before(k: Seq<SortKey>, i: int, j: int) -> bool {
    let a = k[i];
    let b = k[j];
    if a.rank != b.rank {
        a.rank < b.rank
    } else if a.first@ != b.first@ {
        seq_less(a.first@, b.first@)
    } else if a.second@ != b.second@ {
        seq_less(a.second@, b.second@)
    } else {
        i < j
    }
}

proof fn lemma_key_before_total(k: Seq<SortKey>, i: int, j: int)
    requires
        i != j,
    ensures
        key_before(k, i, j) || key_before(k, j, i),
{
    lemma_seq_less_total(k[i].first@, k[j].first@);
    lemma_seq_less_total(k[i].second@, k[j].second@);
}

proof fn lemma_key_before_transitive(k: Seq<SortKey>, i: int, j: int, l: int)
    requires
        key_before(k, i, j),
        key_before(k, j, l),
    ensures
        key_before(k, i, l),
{
    let a = k[i];
    let b = k[j];
    let c = k[l];
    if a.rank == b.rank && b.rank == c.rank {
        if a.first@ != b.first@ && b.first@ != c.first@ {
            lemma_seq_less_transitive(a.first@, b.first@, c.first@);
            if a.first@ == c.first@ {
                lemma_seq_less_irreflexive(a.first@);
            }
        } else if a.first@ == b.first@ && b.first@ == c.first@ {
            if a.second@ != b.second@ && b.second@ != c.second@ {
                lemma_seq_less_transitive(a.second@, b.second@, c.second@);
                if a.second@ == c.second@ {
                    lemma_seq_less_irreflexive(a.second@);
                }
            }
        }
    }
}

fn key_before_exec(keys: &Vec<SortKey>, i: usize, j: usize) -> (r: bool)
    requires
        i < keys.len(),
        j < keys.len(),
    ensures
        r == key_before(keys@, i as int, j as int),
{
    let a = &keys[i];
    let b = &keys[j];
    if a.rank != b.rank {
        return a.rank < b.rank;
    }
    let fl = crate::text::chars_eq(&a.first, &b.first);
    if !fl {
        return chars_less(&a.first, &b.first);
    }
    let sl = crate::text::chars_eq(&a.second, &b.second);
    if !sl {
        return chars_less(&a.second, &b.second);
    }
    i < j
}

/// `order` lists each of `0..n` once, in the order of `key_before`.
pub open spec fn is_sorted_order(k: Seq<SortKey>, order: Seq<usize>) -> bool {
    &&& order.len() == k.len()
    &&& forall|a: int| 0 <= a < order.len() ==> #[trigger] order[a] < k.len()
    &&& forall|a: int, b: int|
        0 <= a < b < order.len() ==> key_before(k, #[trigger] order[a] as int, #[trigger] order[b] as int)
    &&& forall|j: int| 0 <= j < k.len() ==> #[trigger] lists(order, j)
}

/// Position `j` occurs in `order`.
pub open spec fn lists(order: Seq<usize>, j: int) -> bool {
    exists|a: int| 0 <= a < order.len() && #[trigger] order[a] == j
}

/// The positions `0..keys.len()` in key order, equal keys in their order of
/// appearance (a stable sort).
pub fn sort_order(keys: &Vec<SortKey>) -> (r: Vec<usize>)
    ensures
        is_sorted_order(keys@, r@),
{
    let mut r: Vec<usize> = Vec::new();
    let mut i: usize = 0;
    while i < keys.len()
        invariant
            i <= keys.len(),
            r@.len() == i,
            forall|a: int| 0 <= a < r@.len() ==> #[trigger] r@[a] < i,
            forall|a: int, b: int|
                0 <= a < b < r@.len() ==> key_before(keys@, #[trigger] r@[a] as int, #[trigger] r@[b] as int),
            forall|j: int| 0 <= j < i ==> #[trigger] lists(r@, j),
        decreases keys.len() - i,
    {
        let mut p: usize = 0;
        while p < r.len() && key_before_exec(keys, r[p], i)
            invariant
                p <= r@.len(),
                r@.len() == i,
                i < keys.len(),
                forall|a: int| 0 <= a < r@.len() ==> #[trigger] r@[a] < i,
                forall|a: int| 0 <= a < p ==> key_before(keys@, #[trigger] r@[a] as int, i as int),
            decreases r@.len() - p,
        {
            p = p + 1;
        }
        let ghost old_r = r@;
        proof {
            if p < old_r.len() {
                assert(!key_before(keys@, old_r[p as int] as int, i as int));
                lemma_key_before_total(keys@, old_r[p as int] as int, i as int);
                assert forall|b: int| p <= b < old_r.len() implies key_before(keys@, i as int, #[trigger] old_r[b] as int) by {
                    if b > p {
                        lemma_key_before_transitive(keys@, i as int, old_r[p as int] as int, old_r[b] as int);
                    }
                }
            }
        }
        r.insert(p, i);
        proof {
            assert forall|j: int| 0 <= j < i + 1 implies #[trigger] lists(r@, j) by {
                if j == i {
                    assert(r@[p as int] == j);
                } else {
                    assert(lists(old_r, j));
                    let a0 = choose|a: int| 0 <= a < old_r.len() && #[trigger] old_r[a] == j;
                    if a0 < p {
                        assert(r@[a0] == j);
                    } else {
                        assert(r@[a0 + 1] == j);
                    }
                }
            }
            assert forall|a: int| 0 <= a < r@.len() implies #[trigger] r@[a] < i + 1 by {
                if a < p {
                    assert(r@[a] == old_r[a]);
                } else if a > p {
                    assert(r@[a] == old_r[a - 1]);
                }
            }
            assert forall|a: int, b: int| 0 <= a < b < r@.len() implies key_before(keys@, #[trigger] r@[a] as int,
                #[trigger] r@[b] as int) by {
                if b < p {
                    assert(r@[a] == old_r[a] && r@[b] == old_r[b]);
                } else if b == p {
                    assert(r@[a] == old_r[a]);
                } else if a < p {
                    assert(r@[a] == old_r[a] && r@[b] == old_r[b - 1]);
                    if a == p {
                    }
                } else if a == p {
                    assert(r@[b] == old_r[b - 1]);
                } else {
                    assert(r@[a] == old_r[a - 1] && r@[b] == old_r[b - 1]);
                }
            }
        }
        i = i + 1;
    }
    r
}

} // verus!
