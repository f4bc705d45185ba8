//! The aggregator's laws, proved over its model: what a burst of observed
//! paths accumulates, idempotence of recording, the priority of a custom
//! trigger, self-inhibition, and the filtering out of ignored and
//! out-of-base paths.

use crate::aggregator::{add_spec, clear_spec, take_state_spec, AggregatorModel};
use crate::filter::verdict_of;
use crate::paths::strip_rel;
use vstd::prelude::*;

verus! {

/// The model after a burst: a sequence of `add` steps, one per path.
pub open spec fn add_all(m: AggregatorModel, paths: Seq<Seq<u8>>) -> AggregatorModel
    decreases paths.len(),
{
    if paths.len() == 0 {
        m
    } else {
        add_all(add_spec(m, paths[0]), paths.skip(1))
    }
}

/// The relative forms of a burst's paths.
pub open spec fn rels_of(base: Seq<u8>, paths: Seq<Seq<u8>>) -> Seq<Seq<u8>> {
    paths.map_values(|p: Seq<u8>| strip_rel(base, p)->0)
}

/// A burst of paths that all lie under the base directory and that the
/// ignore rules let through lands whole in the pending set: with inhibition
/// off, the set afterwards is exactly the old set plus the paths' relative
/// forms, and no custom trigger appears or disappears. Together with
/// `take_current_action`'s contract, the next flush after a burst that left
/// anything pending is a `FilesChanged` listing exactly these relative
/// paths, deduplicated and in canonical order; after an empty burst from an
/// empty state it is `Nothing`.
pub proof fn lemma_burst_collects(m: AggregatorModel, paths: Seq<Seq<u8>>)
    requires
        !m.inhibited,
        forall|i: int| 0 <= i < paths.len() ==> (#[trigger] strip_rel(m.base, paths[i])) is Some,
        forall|i: int|
            0 <= i < paths.len() ==> !((#[trigger] verdict_of(
                m.rules,
                strip_rel(m.base, paths[i])->0,
            )) is Ignored),
    ensures
        add_all(m, paths).base == m.base,
        add_all(m, paths).rules == m.rules,
        add_all(m, paths).custom == m.custom,
        !add_all(m, paths).inhibited,
        add_all(m, paths).pending == m.pending.union(rels_of(m.base, paths).to_set()),
    decreases paths.len(),
{
    if paths.len() == 0 {
        assert(m.pending.union(rels_of(m.base, paths).to_set()) =~= m.pending);
    } else {
        let p0 = paths[0];
        assert(strip_rel(m.base, p0) is Some);
        let r0 = strip_rel(m.base, p0)->0;
        let m1 = add_spec(m, p0);
        assert(m1.pending == m.pending.insert(r0));
        let tail = paths.skip(1);
        assert forall|i: int|
            0 <= i < tail.len() implies (#[trigger] strip_rel(m1.base, tail[i])) is Some by {
            assert(tail[i] == paths[i + 1]);
        }
        assert forall|i: int|
            0 <= i < tail.len() implies !((#[trigger] verdict_of(
            m1.rules,
            strip_rel(m1.base, tail[i])->0,
        )) is Ignored) by {
            assert(tail[i] == paths[i + 1]);
        }
        lemma_burst_collects(m1, tail);
        let rs = rels_of(m.base, paths);
        let rst = rels_of(m1.base, tail);
        assert forall|e: Seq<u8>|
            rs.to_set().contains(e) == rst.to_set().insert(r0).contains(e) by {
            if rs.contains(e) {
                let k = choose|k: int| 0 <= k < rs.len() && rs[k] == e;
                if k == 0 {
                    assert(e == r0);
                } else {
                    assert(tail[k - 1] == paths[k]);
                    assert(rst[k - 1] == e);
                    assert(rst.contains(e));
                }
            }
            if rst.contains(e) {
                let k = choose|k: int| 0 <= k < rst.len() && rst[k] == e;
                assert(tail[k] == paths[k + 1]);
                assert(rs[k + 1] == e);
                assert(rs.contains(e));
            }
            if e == r0 {
                assert(rs[0] == e);
                assert(rs.contains(e));
            }
        }
        assert(rs.to_set() =~= rst.to_set().insert(r0));
        assert(m.pending.insert(r0).union(rst.to_set()) =~= m.pending.union(rs.to_set()));
    }
}

/// Idempotence: adding the same path twice yields the same state — in
/// particular the same pending set — as adding it once.
pub proof fn lemma_add_idempotent(m: AggregatorModel, path: Seq<u8>)
    ensures
        add_spec(add_spec(m, path), path) == add_spec(m, path),
{
    let m1 = add_spec(m, path);
    if strip_rel(m.base, path) is Some {
        let rel = strip_rel(m.base, path)->0;
        if !(verdict_of(m.rules, rel) is Ignored) && !m.inhibited {
            assert(m1.pending.insert(rel) =~= m1.pending);
        }
    }
}

/// Priority: with a custom reason pending, the tick takes it — the action
/// is `Custom`, by `take_current_action`'s contract — and the accumulated
/// change set is discarded with it, so the next tick, absent new changes,
/// takes nothing and leaves the state alone.
pub proof fn lemma_custom_priority(m: AggregatorModel)
    requires
        m.custom is Some,
    ensures
        take_state_spec(m).custom is None,
        take_state_spec(m).pending == Set::<Seq<u8>>::empty(),
        take_state_spec(take_state_spec(m)) == take_state_spec(m),
{
}

/// Self-inhibition: while the flag is set — as it is right after any
/// non-`Nothing` action — every observed path is discarded: no burst
/// changes the state at all.
pub proof fn lemma_inhibition_discards(m: AggregatorModel, paths: Seq<Seq<u8>>)
    requires
        m.inhibited,
    ensures
        add_all(m, paths) == m,
    decreases paths.len(),
{
    if paths.len() > 0 {
        assert(add_spec(m, paths[0]) == m);
        lemma_inhibition_discards(m, paths.skip(1));
    }
}

/// After `clear_inhibition`, recording works normally again: a path under
/// the base directory that the rules let through goes back into the
/// pending set.
pub proof fn lemma_clear_restores(m: AggregatorModel, path: Seq<u8>)
    requires
        strip_rel(m.base, path) is Some,
        !(verdict_of(m.rules, strip_rel(m.base, path)->0) is Ignored),
    ensures
        add_spec(clear_spec(m), path).pending == m.pending.insert(strip_rel(m.base, path)->0),
{
}

/// Ignore filtering: a relative path the rules reject is never recorded —
/// if it is not pending, no burst makes it pending, so it never appears in
/// a flushed `FilesChanged` action.
pub proof fn lemma_ignored_never_pending(m: AggregatorModel, paths: Seq<Seq<u8>>, rel: Seq<u8>)
    requires
        verdict_of(m.rules, rel) is Ignored,
        !m.pending.contains(rel),
    ensures
        !add_all(m, paths).pending.contains(rel),
    decreases paths.len(),
{
    if paths.len() > 0 {
        let m1 = add_spec(m, paths[0]);
        assert(!m1.pending.contains(rel));
        lemma_ignored_never_pending(m1, paths.skip(1), rel);
    }
}

/// An out-of-base-directory path is dropped: its `add` step changes
/// nothing, so it never appears in any action.
pub proof fn lemma_outside_dropped(m: AggregatorModel, path: Seq<u8>)
    requires
        strip_rel(m.base, path) is None,
    ensures
        add_spec(m, path) == m,
{
}

} // verus!
