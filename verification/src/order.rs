//! Bytewise lexicographic order on paths, and insertion into a sorted,
//! duplicate-free vector. The pending change set is kept in this canonical
//! order so that a flushed `FilesChanged` action lists its paths
//! deterministically.

use vstd::prelude::*;

verus! {

/// Strict lexicographic (bytewise) order on byte sequences.
pub open spec fn lex_lt(a: Seq<u8>, b: Seq<u8>) -> bool
    decreases a.len(),
{
    if b.len() == 0 {
        false
    } else if a.len() == 0 {
        true
    } else if a[0] < b[0] {
        true
    } else if a[0] > b[0] {
        false
    } else {
        lex_lt(a.skip(1), b.skip(1))
    }
}

/// A sequence that is strictly increasing under `lex_lt`. Such a sequence
/// holds no duplicates, and any finite set of byte strings has exactly one
/// such arrangement.
pub open spec fn sorted_unique(s: Seq<Seq<u8>>) -> bool {
    forall|i: int, j: int| 0 <= i < j < s.len() ==> lex_lt(s[i], s[j])
}

pub proof fn lemma_lex_lt_irreflexive(a: Seq<u8>)
    ensures
        !lex_lt(a, a),
    decreases a.len(),
{
    if a.len() > 0 {
        lemma_lex_lt_irreflexive(a.skip(1));
    }
}

/// Two byte strings neither of which precedes the other are equal.
pub proof fn lemma_lex_lt_connected(a: Seq<u8>, b: Seq<u8>)
    requires
        !lex_lt(a, b),
        !lex_lt(b, a),
    ensures
        a == b,
    decreases a.len(),
{
    if a.len() == 0 || b.len() == 0 {
        assert(a =~= b);
    } else {
        assert(a[0] == b[0]);
        lemma_lex_lt_connected(a.skip(1), b.skip(1));
        assert forall|i: int| 0 <= i < a.len() implies a[i] == b[i] by {
            if i > 0 {
                assert(a[i] == a.skip(1)[i - 1]);
                assert(b[i] == b.skip(1)[i - 1]);
            }
        }
        assert(a =~= b);
    }
}

pub proof fn lemma_lex_lt_transitive(a: Seq<u8>, b: Seq<u8>, c: Seq<u8>)
    requires
        lex_lt(a, b),
        lex_lt(b, c),
    ensures
        lex_lt(a, c),
    decreases a.len(),
{
    assert(b.len() > 0);
    assert(c.len() > 0);
    if a.len() > 0 {
        if a[0] == b[0] && b[0] == c[0] {
            lemma_lex_lt_transitive(a.skip(1), b.skip(1), c.skip(1));
        }
    }
}

/// Determinism of the flushed order: a finite set of byte strings has
/// exactly one sorted, duplicate-free arrangement, so the list a flush
/// emits is determined by the pending set alone.
pub proof fn lemma_sorted_unique_arrangement(s: Seq<Seq<u8>>, t: Seq<Seq<u8>>)
    requires
        sorted_unique(s),
        sorted_unique(t),
        s.to_set() == t.to_set(),
    ensures
        s == t,
    decreases s.len(),
{
    if s.len() == 0 {
        if t.len() > 0 {
            assert(t.to_set().contains(t[0]));
            assert(s.contains(t[0]));
        }
        assert(s =~= t);
    } else {
        assert(s.to_set().contains(s[0]));
        assert(t.contains(s[0]));
        let j = choose|j: int| 0 <= j < t.len() && t[j] == s[0];
        assert(t.to_set().contains(t[0]));
        assert(s.contains(t[0]));
        let i = choose|i: int| 0 <= i < s.len() && s[i] == t[0];
        if j > 0 {
            assert(lex_lt(t[0], t[j]));
            if i == 0 {
                lemma_lex_lt_irreflexive(s[0]);
            } else {
                assert(lex_lt(s[0], s[i]));
                lemma_lex_lt_transitive(t[0], s[0], t[0]);
                lemma_lex_lt_irreflexive(t[0]);
            }
        }
        assert(t[0] == s[0]);
        let st = s.skip(1);
        let tt = t.skip(1);
        assert forall|x: int, y: int| 0 <= x < y < st.len() implies lex_lt(st[x], st[y]) by {
            assert(st[x] == s[x + 1]);
            assert(st[y] == s[y + 1]);
        }
        assert forall|x: int, y: int| 0 <= x < y < tt.len() implies lex_lt(tt[x], tt[y]) by {
            assert(tt[x] == t[x + 1]);
            assert(tt[y] == t[y + 1]);
        }
        assert forall|e: Seq<u8>| st.to_set().contains(e) == tt.to_set().contains(e) by {
            if st.contains(e) {
                let k = choose|k: int| 0 <= k < st.len() && st[k] == e;
                assert(s[k + 1] == e);
                assert(lex_lt(s[0], s[k + 1]));
                if e == t[0] {
                    lemma_lex_lt_irreflexive(s[0]);
                }
                assert(s.to_set().contains(e));
                assert(t.contains(e));
                let l = choose|l: int| 0 <= l < t.len() && t[l] == e;
                assert(l > 0);
                assert(tt[l - 1] == e);
                assert(tt.contains(e));
            }
            if tt.contains(e) {
                let k = choose|k: int| 0 <= k < tt.len() && tt[k] == e;
                assert(t[k + 1] == e);
                assert(lex_lt(t[0], t[k + 1]));
                if e == s[0] {
                    lemma_lex_lt_irreflexive(t[0]);
                }
                assert(t.to_set().contains(e));
                assert(s.contains(e));
                let l = choose|l: int| 0 <= l < s.len() && s[l] == e;
                assert(l > 0);
                assert(st[l - 1] == e);
                assert(st.contains(e));
            }
        }
        assert(st.to_set() =~= tt.to_set());
        lemma_sorted_unique_arrangement(st, tt);
        assert forall|k: int| 0 <= k < s.len() implies s[k] == t[k] by {
            if k > 0 {
                assert(s[k] == st[k - 1]);
                assert(t[k] == tt[k - 1]);
            }
        }
        assert(s =~= t);
    }
}

/// Decides `lex_lt` on byte vectors.
pub fn bytes_lt(a: &Vec<u8>, b: &Vec<u8>) -> (r: bool)
    ensures
        r == lex_lt(a@, b@),
{
    let n: usize = if a.len() < b.len() {
        a.len()
    } else {
        b.len()
    };
    proof {
        assert(a@.skip(0) =~= a@);
        assert(b@.skip(0) =~= b@);
    }
    let mut i: usize = 0;
    while i < n
        invariant
            i <= n,
            n <= a@.len(),
            n <= b@.len(),
            n == if a@.len() < b@.len() {
                a@.len()
            } else {
                b@.len()
            },
            lex_lt(a@, b@) == lex_lt(a@.skip(i as int), b@.skip(i as int)),
        decreases n - i,
    {
        proof {
            assert(a@.skip(i as int)[0] == a@[i as int]);
            assert(b@.skip(i as int)[0] == b@[i as int]);
        }
        if a[i] < b[i] {
            return true;
        }
        if a[i] > b[i] {
            return false;
        }
        proof {
            assert(a@.skip(i as int).skip(1) =~= a@.skip(i as int + 1));
            assert(b@.skip(i as int).skip(1) =~= b@.skip(i as int + 1));
        }
        i = i + 1;
    }
    proof {
        if a@.len() < b@.len() {
            assert(a@.skip(i as int).len() == 0);
            assert(b@.skip(i as int).len() > 0);
        } else {
            assert(b@.skip(i as int).len() == 0);
        }
    }
    a.len() < b.len()
}

/// Index of the first entry not lexicographically below `item`; `v.len()`
/// when every entry is below it.
fn lower_bound(v: &Vec<Vec<u8>>, item: &Vec<u8>) -> (idx: usize)
    ensures
        idx <= v@.len(),
        forall|k: int| 0 <= k < idx ==> lex_lt(v.deep_view()[k], item@),
        idx < v@.len() ==> !lex_lt(v.deep_view()[idx as int], item@),
{
    let mut i: usize = 0;
    while i < v.len()
        invariant
            i <= v@.len(),
            forall|k: int| 0 <= k < i ==> lex_lt(v.deep_view()[k], item@),
        decreases v@.len() - i,
    {
        proof {
            assert(v.deep_view()[i as int] == v@[i as int]@);
        }
        if !bytes_lt(&v[i], item) {
            return i;
        }
        i = i + 1;
    }
    i
}

/// Inserts `item` into a sorted, duplicate-free vector, keeping it sorted;
/// inserting an already-present item leaves the vector unchanged.
pub fn insert_sorted(v: &mut Vec<Vec<u8>>, item: Vec<u8>)
    requires
        sorted_unique(old(v).deep_view()),
    ensures
        sorted_unique(final(v).deep_view()),
        final(v).deep_view().to_set() == old(v).deep_view().to_set().insert(item@),
{
    let ghost s0: Seq<Seq<u8>> = v.deep_view();
    let idx = lower_bound(v, &item);
    if idx < v.len() {
        let below = bytes_lt(&item, &v[idx]);
        proof {
            assert(s0[idx as int] == v@[idx as int]@);
        }
        if !below {
            proof {
                lemma_lex_lt_connected(s0[idx as int], item@);
                assert(s0.to_set().contains(item@)) by {
                    assert(s0[idx as int] == item@);
                }
                assert(s0.to_set() =~= s0.to_set().insert(item@));
            }
            return ;
        }
        proof {
            assert(lex_lt(item@, s0[idx as int]));
        }
    }
    let ghost at: int = idx as int;
    v.insert(idx, item);
    proof {
        let s1 = v.deep_view();
        assert forall|k: int| 0 <= k < s1.len() implies s1[k] == s0.insert(at, item@)[k] by {
            assert(s1[k] == v@[k]@);
            if k < at {
                assert(v@[k] == old(v)@[k]);
            } else if k == at {
                assert(v@[k] == item);
            } else {
                assert(v@[k] == old(v)@[k - 1]);
            }
        }
        assert(s1 =~= s0.insert(at, item@));
        // Each entry before the insertion point is below `item`; each entry at
        // or after it is above `item`.
        assert forall|k: int| at <= k < s0.len() implies lex_lt(item@, s0[k]) by {
            if k > at {
                lemma_lex_lt_transitive(item@, s0[at], s0[k]);
            }
        }
        assert forall|i: int, j: int| 0 <= i < j < s1.len() implies lex_lt(s1[i], s1[j]) by {
            if i < at && j < at {
                assert(lex_lt(s0[i], s0[j]));
            } else if i < at && j == at {
                assert(lex_lt(s0[i], item@));
            } else if i < at && j > at {
                lemma_lex_lt_transitive(s0[i], item@, s0[j - 1]);
            } else if i == at {
                assert(lex_lt(item@, s0[j - 1]));
            } else {
                assert(lex_lt(s0[i - 1], s0[j - 1]));
            }
        }
        assert forall|e: Seq<u8>|
            s1.to_set().contains(e) == s0.to_set().insert(item@).contains(e) by {
            if s1.contains(e) {
                let k = choose|k: int| 0 <= k < s1.len() && s1[k] == e;
                if k < at {
                    assert(s0[k] == e);
                } else if k == at {
                } else {
                    assert(s0[k - 1] == e);
                }
                assert(s0.to_set().insert(item@).contains(e));
            }
            if s0.contains(e) {
                let k = choose|k: int| 0 <= k < s0.len() && s0[k] == e;
                if k < at {
                    assert(s1[k] == e);
                } else {
                    assert(s1[k + 1] == e);
                }
                assert(s1.contains(e));
            }
            if e == item@ {
                assert(s1[at] == e);
                assert(s1.contains(e));
            }
        }
        assert(s1.to_set() =~= s0.to_set().insert(item@));
    }
}

} // verus!
