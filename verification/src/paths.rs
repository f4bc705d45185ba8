//! Scoping of observed paths to the watched base directory.
//!
//! Paths are modelled as byte strings. An event path is relevant only when it
//! lies under the absolute base directory; its remainder is brought into a
//! canonical relative form — no leading separator, no doubled separator, no
//! leading `.` component — before it is handed to the ignore rules and
//! recorded in the pending change set. The canonical form is what the
//! rule matcher accepts for every rule set (see `filter::query_rules`).

use vstd::prelude::*;

verus! {

/// The path separator byte, `/`.
pub const SLASH: u8 = 47;

/// The byte `.`.
pub const DOT: u8 = 46;

/// An absolute path: non-empty and rooted at the separator.
pub open spec fn is_absolute(p: Seq<u8>) -> bool {
    p.len() > 0 && p[0] == SLASH
}

/// No two adjacent separator bytes.
pub open spec fn no_adjacent_slashes(s: Seq<u8>) -> bool {
    forall|i: int| 0 <= i && i + 1 < s.len() ==> !((#[trigger] s[i]) == SLASH && s[i + 1] == SLASH)
}

/// A canonical relative path: it does not start with a separator or a `./`
/// component and holds no doubled separator.
pub open spec fn clean_rel(s: Seq<u8>) -> bool {
    &&& s.len() == 0 || s[0] != SLASH
    &&& no_adjacent_slashes(s)
    &&& !(s.len() >= 2 && s[0] == DOT && s[1] == SLASH)
}

/// Collapses every run of separator bytes to a single separator.
pub open spec fn collapse_slashes(s: Seq<u8>) -> Seq<u8>
    decreases s.len(),
{
    if s.len() == 0 {
        Seq::empty()
    } else if s.len() >= 2 && s[0] == SLASH && s[1] == SLASH {
        collapse_slashes(s.skip(1))
    } else {
        seq![s[0]] + collapse_slashes(s.skip(1))
    }
}

/// Drops leading separators and leading `./` components.
pub open spec fn strip_dot_components(s: Seq<u8>) -> Seq<u8>
    decreases s.len(),
{
    if s.len() > 0 && s[0] == SLASH {
        strip_dot_components(s.skip(1))
    } else if s.len() >= 2 && s[0] == DOT && s[1] == SLASH {
        strip_dot_components(s.skip(2))
    } else {
        s
    }
}

/// The canonical relative form of the remainder behind the base directory.
pub open spec fn canonical_rel(r: Seq<u8>) -> Seq<u8> {
    strip_dot_components(collapse_slashes(r))
}

/// Whether `path` names the base directory itself or something under it:
/// `base` is a prefix of `path` and the two meet at a component boundary.
pub open spec fn base_covers(base: Seq<u8>, path: Seq<u8>) -> bool {
    &&& path.len() >= base.len()
    &&& path.subrange(0, base.len() as int) == base
    &&& (path.len() == base.len() || path[base.len() as int] == SLASH || (base.len() > 0
        && base[base.len() - 1] == SLASH))
}

/// The canonical path relative to the base directory, or `None` for a path
/// outside it.
pub open spec fn strip_rel(base: Seq<u8>, path: Seq<u8>) -> Option<Seq<u8>> {
    if base_covers(base, path) {
        Some(canonical_rel(path.skip(base.len() as int)))
    } else {
        None
    }
}

/// Collapsing keeps the first byte and emptiness, and leaves no doubled
/// separator.
proof fn lemma_collapse_props(s: Seq<u8>)
    ensures
        no_adjacent_slashes(collapse_slashes(s)),
        collapse_slashes(s).len() > 0 <==> s.len() > 0,
        s.len() > 0 ==> collapse_slashes(s)[0] == s[0],
    decreases s.len(),
{
    if s.len() == 0 {
    } else if s.len() >= 2 && s[0] == SLASH && s[1] == SLASH {
        lemma_collapse_props(s.skip(1));
        assert(s.skip(1)[0] == s[1]);
    } else {
        lemma_collapse_props(s.skip(1));
        let rest = collapse_slashes(s.skip(1));
        let r = collapse_slashes(s);
        assert(r == seq![s[0]] + rest);
        assert forall|i: int| 0 <= i && i + 1 < r.len() implies !((#[trigger] r[i]) == SLASH
            && r[i + 1] == SLASH) by {
            if i == 0 {
                assert(r[0] == s[0]);
                assert(r[1] == rest[0]);
                if s[0] == SLASH {
                    // the head of `s` is not a doubled separator here
                    assert(s.skip(1).len() > 0);
                    assert(s.skip(1)[0] == s[1]);
                    assert(rest[0] == s[1]);
                }
            } else {
                assert(r[i] == rest[i - 1]);
                assert(r[i + 1] == rest[i]);
            }
        }
    }
}

proof fn lemma_no_adjacent_skip(s: Seq<u8>, n: int)
    requires
        no_adjacent_slashes(s),
        0 <= n <= s.len(),
    ensures
        no_adjacent_slashes(s.skip(n)),
{
    assert forall|i: int| 0 <= i && i + 1 < s.skip(n).len() implies !((#[trigger] s.skip(n)[i])
        == SLASH && s.skip(n)[i + 1] == SLASH) by {
        assert(s.skip(n)[i] == s[i + n]);
        assert(s.skip(n)[i + 1] == s[i + n + 1]);
    }
}

/// Stripping leading separators and `./` components from a sequence without
/// doubled separators yields a canonical relative path.
proof fn lemma_strip_dot_clean(s: Seq<u8>)
    requires
        no_adjacent_slashes(s),
    ensures
        clean_rel(strip_dot_components(s)),
    decreases s.len(),
{
    if s.len() > 0 && s[0] == SLASH {
        lemma_no_adjacent_skip(s, 1);
        lemma_strip_dot_clean(s.skip(1));
    } else if s.len() >= 2 && s[0] == DOT && s[1] == SLASH {
        lemma_no_adjacent_skip(s, 2);
        lemma_strip_dot_clean(s.skip(2));
    }
}

/// The canonical relative form is clean: it starts with neither a separator
/// nor a `./` component and holds no doubled separator.
pub proof fn lemma_canonical_rel_clean(r: Seq<u8>)
    ensures
        clean_rel(canonical_rel(r)),
{
    lemma_collapse_props(r);
    lemma_strip_dot_clean(collapse_slashes(r));
}

/// Start of the canonical suffix of a collapsed remainder: past the leading
/// separators and `./` components.
fn normal_start(v: &Vec<u8>) -> (d: usize)
    ensures
        d <= v@.len(),
        strip_dot_components(v@) == v@.skip(d as int),
{
    proof {
        assert(v@.skip(0) =~= v@);
    }
    let mut d: usize = 0;
    loop
        invariant
            d <= v@.len(),
            strip_dot_components(v@) == strip_dot_components(v@.skip(d as int)),
        decreases v@.len() - d,
    {
        proof {
            if d < v@.len() {
                assert(v@.skip(d as int)[0] == v@[d as int]);
                assert(v@.skip(d as int).skip(1) =~= v@.skip(d as int + 1));
            }
            if d + 1 < v@.len() {
                assert(v@.skip(d as int)[1] == v@[d as int + 1]);
                assert(v@.skip(d as int).skip(2) =~= v@.skip(d as int + 2));
            }
        }
        if d < v.len() && v[d] == SLASH {
            d = d + 1;
        } else if d < v.len() && v[d] == DOT && d + 1 < v.len() && v[d + 1] == SLASH {
            d = d + 2;
        } else {
            proof {
                assert(strip_dot_components(v@.skip(d as int)) == v@.skip(d as int));
            }
            return d;
        }
    }
}

/// Computes `strip_rel`: the canonical relative form of `path` under `base`,
/// or `None` when `path` lies outside the base directory.
pub fn relative_to_base(base: &Vec<u8>, path: &Vec<u8>) -> (r: Option<Vec<u8>>)
    ensures
        match r {
            Some(rel) => strip_rel(base@, path@) == Some(rel@),
            None => strip_rel(base@, path@) is None,
        },
{
    if path.len() < base.len() {
        proof {
            assert(!base_covers(base@, path@));
        }
        return None;
    }
    let mut i: usize = 0;
    while i < base.len()
        invariant
            i <= base@.len(),
            base@.len() <= path@.len(),
            forall|k: int| 0 <= k < i ==> path@[k] == base@[k],
        decreases base@.len() - i,
    {
        if path[i] != base[i] {
            proof {
                assert(path@.subrange(0, base@.len() as int)[i as int] == path@[i as int]);
                assert(!base_covers(base@, path@));
            }
            return None;
        }
        i = i + 1;
    }
    proof {
        assert(path@.subrange(0, base@.len() as int) =~= base@);
    }
    let boundary: bool = if path.len() == base.len() {
        true
    } else if path[base.len()] == SLASH {
        true
    } else if base.len() > 0 && base[base.len() - 1] == SLASH {
        true
    } else {
        false
    };
    if !boundary {
        proof {
            assert(!base_covers(base@, path@));
        }
        return None;
    }
    let ghost rem = path@.skip(base@.len() as int);
    let mut collapsed: Vec<u8> = Vec::new();
    proof {
        assert(collapsed@ + collapse_slashes(rem) =~= collapse_slashes(rem));
    }
    let mut k: usize = base.len();
    while k < path.len()
        invariant
            base@.len() <= k <= path@.len(),
            rem == path@.skip(base@.len() as int),
            collapse_slashes(rem) == collapsed@ + collapse_slashes(path@.skip(k as int)),
        decreases path@.len() - k,
    {
        proof {
            assert(path@.skip(k as int)[0] == path@[k as int]);
            if k + 1 < path@.len() {
                assert(path@.skip(k as int)[1] == path@[k as int + 1]);
            }
            assert(path@.skip(k as int).skip(1) =~= path@.skip(k as int + 1));
        }
        let doubled = k + 1 < path.len() && path[k] == SLASH && path[k + 1] == SLASH;
        if doubled {
            proof {
                assert(collapse_slashes(path@.skip(k as int)) == collapse_slashes(
                    path@.skip(k as int + 1),
                ));
            }
        } else {
            let ghost c0 = collapsed@;
            collapsed.push(path[k]);
            proof {
                assert(collapse_slashes(path@.skip(k as int)) == seq![path@[k as int]]
                    + collapse_slashes(path@.skip(k as int + 1)));
                assert(collapsed@ + collapse_slashes(path@.skip(k as int + 1)) =~= c0
                    + collapse_slashes(path@.skip(k as int)));
            }
        }
        k = k + 1;
    }
    proof {
        assert(path@.skip(k as int) =~= Seq::<u8>::empty());
        assert(collapsed@ + collapse_slashes(path@.skip(k as int)) =~= collapsed@);
        assert(collapsed@ == collapse_slashes(rem));
    }
    let d = normal_start(&collapsed);
    let mut rel: Vec<u8> = Vec::new();
    proof {
        assert(Seq::<u8>::empty() =~= collapsed@.subrange(d as int, d as int));
    }
    let mut t: usize = d;
    while t < collapsed.len()
        invariant
            d <= t <= collapsed@.len(),
            rel@ == collapsed@.subrange(d as int, t as int),
        decreases collapsed@.len() - t,
    {
        rel.push(collapsed[t]);
        proof {
            assert(rel@ =~= collapsed@.subrange(d as int, t as int + 1));
        }
        t = t + 1;
    }
    proof {
        assert(rel@ =~= collapsed@.skip(d as int));
        assert(rel@ == canonical_rel(rem));
    }
    Some(rel)
}

} // verus!
