//! Merging what a model changed on a private copy of the lanes into the lanes
//! as they are now.
use vstd::prelude::*;

use crate::lanes::{
    distinct_ids, find_lane, has_lane, lemma_position, position, same_lane, safe_interactions,
    valid_registry, well_formed_lane, LaneCreateError, LaneRegistry, LaneView, RegistryView,
    MAX_LANE_COUNT,
};
use crate::relay::results::lemma_filter_push;

verus! {

/// Selects the lanes that neither registry knows.
pub open spec fn new_to_both(base: Seq<LaneView>, current: Seq<LaneView>) -> spec_fn(
    LaneView,
) -> bool {
    |l: LaneView| !has_lane(base, l.id) && !has_lane(current, l.id)
}

/// The current lanes with one proposed lane merged in: a new one is added, a
/// changed one replaces the current one only where that is still as it was.
pub open spec fn merged_one(
    base: Seq<LaneView>,
    current: Seq<LaneView>,
    l: LaneView,
) -> Seq<LaneView> {
    let b = position(base, l.id);
    let c = position(current, l.id);
    if b >= base.len() {
        if c >= current.len() {
            current.push(l)
        } else {
            current
        }
    } else if c < current.len() && current[c] == base[b] {
        current.update(c, l)
    } else {
        current
    }
}

/// The current lanes with the first `n` proposed lanes merged in.
pub open spec fn merged_lanes(
    base: Seq<LaneView>,
    proposed: Seq<LaneView>,
    current: Seq<LaneView>,
    n: int,
) -> Seq<LaneView>
    decreases n,
{
    if n <= 0 || n > proposed.len() {
        current
    } else {
        merged_one(base, merged_lanes(base, proposed, current, n - 1), proposed[n - 1])
    }
}

/// Whether the proposed new lanes do not all fit.
pub open spec fn merge_overflows(base: RegistryView, proposed: RegistryView, current: RegistryView)
    -> bool {
    current.lanes.len() + proposed.lanes.filter(new_to_both(base.lanes, current.lanes)).len()
        > MAX_LANE_COUNT
}

/// The registry after the merge. The proposed selection is taken only where the
/// revision is still the one that the model saw.
pub open spec fn merged(
    base: RegistryView,
    proposed: RegistryView,
    current: RegistryView,
    same_revision: bool,
) -> RegistryView {
    let lanes = merged_lanes(
        base.lanes,
        proposed.lanes,
        current.lanes,
        proposed.lanes.len() as int,
    );
    if same_revision {
        RegistryView { lanes, active_id: proposed.active_id, previous_id: proposed.previous_id }
    } else {
        RegistryView { lanes, ..current }
    }
}

/// Merges what a model changed on a copy of `base` into the current registry,
/// all of it or nothing.
pub fn merge_model_registry(
    base: &LaneRegistry,
    proposed: &LaneRegistry,
    current: &mut LaneRegistry,
    base_revision: u64,
    current_revision: u64,
) -> (r: Result<(), LaneCreateError>)
    ensures
        r == (if merge_overflows(base@, proposed@, old(current)@) {
            Err::<(), LaneCreateError>(LaneCreateError::CapacityReached)
        } else {
            Ok(())
        }),
        final(current)@ == (if r is Ok {
            merged(base@, proposed@, old(current)@, base_revision == current_revision)
        } else {
            old(current)@
        }),
{
    let ghost b = base@.lanes;
    let ghost p = proposed@.lanes;
    let ghost start = current@.lanes;
    let ghost f = new_to_both(b, start);
    let mut additions: usize = 0;
    proof {
        reveal(Seq::filter);
        assert(p.take(0).filter(f).len() == 0);
    }
    for i in 0..proposed.lanes.len()
        invariant
            current@ == old(current)@,
            b == base@.lanes,
            p == proposed@.lanes,
            start == current@.lanes,
            f == new_to_both(b, start),
            additions == p.take(i as int).filter(f).len(),
            additions <= i,
    {
        assert(p[i as int] == proposed.lanes@[i as int]@);
        proof {
            lemma_filter_push(p, f, i as int);
        }
        let id = proposed.lanes[i].id.as_str();
        if !base.knows(id) && !current.knows(id) {
            additions = additions + 1;
        }
    }
    assert(p.take(p.len() as int) =~= p);
    if current.lanes.len() > MAX_LANE_COUNT || additions > MAX_LANE_COUNT - current.lanes.len() {
        return Err(LaneCreateError::CapacityReached);
    }
    for i in 0..proposed.lanes.len()
        invariant
            b == base@.lanes,
            p == proposed@.lanes,
            current@ == (RegistryView {
                lanes: merged_lanes(b, p, start, i as int),
                ..old(current)@
            }),
    {
        let l = &proposed.lanes[i];
        assert(p[i as int] == l@);
        let ghost before = current@.lanes;
        let x: usize = find_lane(&base.lanes, l.id.as_str());
        let y: usize = find_lane(&current.lanes, l.id.as_str());
        if x == base.lanes.len() {
            if y == current.lanes.len() {
                current.lanes.push(l.clone());
                assert(current@.lanes =~= before.push(l@));
            }
        } else if y < current.lanes.len() {
            assert(b[x as int] == base.lanes@[x as int]@);
            assert(before[y as int] == current.lanes@[y as int]@);
            if same_lane(&current.lanes[y], &base.lanes[x]) {
                current.lanes.set(y, l.clone());
                assert(current@.lanes =~= before.update(y as int, l@));
            }
        }
        assert(current@.lanes == merged_one(b, before, l@));
    }
    if base_revision == current_revision {
        current.active_id = proposed.active_id.clone();
        current.previous_id = proposed.previous_id.clone();
    }
    Ok(())
}

// ---- what a merge keeps ---------------------------------------------------------

proof fn lemma_merged_one(base: Seq<LaneView>, current: Seq<LaneView>, l: LaneView)
    ensures
        ({
            let w = merged_one(base, current, l);
            &&& current.len() <= w.len() <= current.len() + 1
            &&& forall|i: int| 0 <= i < current.len() ==> (#[trigger] w[i]).id == current[i].id
            &&& forall|i: int|
                0 <= i < current.len() && current[i] != w[i] ==> current[i] == base[position(
                    base,
                    (#[trigger] w[i]).id,
                )] && has_lane(base, w[i].id)
            &&& forall|i: int| current.len() <= i < w.len() ==> #[trigger] w[i] == l
            &&& forall|i: int|
                0 <= i < w.len() ==> #[trigger] w[i] == l || (i < current.len() && w[i]
                    == current[i])
            &&& distinct_ids(current) ==> distinct_ids(w)
            &&& !has_lane(base, l.id) ==> has_lane(w, l.id)
        }),
{
    lemma_position(base, l.id);
    lemma_position(current, l.id);
    let w = merged_one(base, current, l);
    if !has_lane(base, l.id) {
        if has_lane(current, l.id) {
            let i = choose|i: int| 0 <= i < current.len() && (#[trigger] current[i]).id == l.id;
            assert(w[i].id == l.id);
        } else {
            assert(w[current.len() as int].id == l.id);
        }
    }
}

/// A lane that someone else changed meanwhile is never overwritten, no lane is
/// lost, and every lane that the model created is there.
pub proof fn law_merge_keeps_concurrent_changes(
    base: Seq<LaneView>,
    proposed: Seq<LaneView>,
    current: Seq<LaneView>,
    n: int,
)
    requires
        0 <= n <= proposed.len(),
        distinct_ids(proposed),
        distinct_ids(current),
    ensures
        ({
            let w = merged_lanes(base, proposed, current, n);
            &&& current.len() <= w.len() <= current.len() + n
            &&& distinct_ids(w)
            &&& forall|i: int| 0 <= i < current.len() ==> (#[trigger] w[i]).id == current[i].id
            &&& forall|i: int|
                0 <= i < current.len() && !(has_lane(base, current[i].id) && current[i]
                    == base[position(base, current[i].id)]) ==> #[trigger] w[i] == current[i]
            &&& forall|i: int|
                0 <= i < w.len() ==> (i < current.len() && #[trigger] w[i] == current[i])
                    || exists|k: int| 0 <= k < n && proposed[k] == w[i]
            &&& forall|k: int|
                0 <= k < n && !has_lane(base, (#[trigger] proposed[k]).id) ==> has_lane(
                    w,
                    proposed[k].id,
                )
        }),
    decreases n,
{
    let w = merged_lanes(base, proposed, current, n);
    if n > 0 {
        law_merge_keeps_concurrent_changes(base, proposed, current, n - 1);
        let v = merged_lanes(base, proposed, current, n - 1);
        let l = proposed[n - 1];
        lemma_merged_one(base, v, l);
        assert forall|i: int| 0 <= i < current.len() implies (#[trigger] w[i]).id
            == current[i].id by {
            assert(v[i].id == current[i].id);
        }
        assert forall|i: int|
            0 <= i < current.len() && !(has_lane(base, current[i].id) && current[i]
                == base[position(base, current[i].id)]) implies #[trigger] w[i] == current[i] by {
            assert(v[i] == current[i]);
        }
        assert forall|i: int| 0 <= i < w.len() implies (i < current.len() && #[trigger] w[i]
            == current[i]) || exists|k: int| 0 <= k < n && proposed[k] == w[i] by {
            if w[i] == l {
                assert(proposed[n - 1] == w[i]);
            } else {
                assert(w[i] == v[i]);
                if !(i < current.len() && v[i] == current[i]) {
                    let k = choose|k: int| 0 <= k < n - 1 && proposed[k] == v[i];
                    assert(proposed[k] == w[i]);
                }
            }
        }
        assert forall|k: int|
            0 <= k < n && !has_lane(base, (#[trigger] proposed[k]).id) implies has_lane(
            w,
            proposed[k].id,
        ) by {
            if k < n - 1 {
                assert(has_lane(v, proposed[k].id));
                let i = choose|i: int| 0 <= i < v.len() && (#[trigger] v[i]).id == proposed[k].id;
                assert(w[i].id == v[i].id);
            }
        }
    }
}

/// What the model changed on a lane that is still as the model saw it is taken
/// over.
pub proof fn law_merge_takes_the_models_changes(
    base: Seq<LaneView>,
    proposed: Seq<LaneView>,
    current: Seq<LaneView>,
    n: int,
    b: int,
    i: int,
    k: int,
)
    requires
        0 <= n <= proposed.len(),
        distinct_ids(base),
        distinct_ids(proposed),
        distinct_ids(current),
        0 <= b < base.len(),
        0 <= i < current.len(),
        0 <= k < proposed.len(),
        current[i] == base[b],
        proposed[k].id == base[b].id,
    ensures
        merged_lanes(base, proposed, current, n)[i] == (if k < n {
            proposed[k]
        } else {
            current[i]
        }),
    decreases n,
{
    if n > 0 {
        law_merge_takes_the_models_changes(base, proposed, current, n - 1, b, i, k);
        law_merge_keeps_concurrent_changes(base, proposed, current, n - 1);
        let v = merged_lanes(base, proposed, current, n - 1);
        let l = proposed[n - 1];
        lemma_position(base, l.id);
        lemma_position(v, l.id);
        let c = position(v, l.id);
        assert(v[i].id == current[i].id);
        if k == n - 1 {
            assert(has_lane(v, l.id));
            if c < i {
                assert(v[c].id != v[i].id);
            }
            let x = position(base, l.id);
            assert(has_lane(base, l.id));
            if x < b {
                assert(base[x].id != base[b].id);
            }
        } else {
            if k < n - 1 {
                assert(proposed[k].id != proposed[n - 1].id);
            } else {
                assert(proposed[n - 1].id != proposed[k].id);
            }
            assert(c != i);
        }
    }
}

/// The selection of the model is taken at the revision that it saw, and at no
/// other.
pub proof fn law_merge_takes_the_selection(
    base: RegistryView,
    proposed: RegistryView,
    current: RegistryView,
)
    ensures
        merged(base, proposed, current, true).active_id == proposed.active_id,
        merged(base, proposed, current, true).previous_id == proposed.previous_id,
        merged(base, proposed, current, false).active_id == current.active_id,
        merged(base, proposed, current, false).previous_id == current.previous_id,
        merged(base, proposed, current, true).lanes == merged(
            base,
            proposed,
            current,
            false,
        ).lanes,
{
}

proof fn lemma_merged_len(
    base: Seq<LaneView>,
    proposed: Seq<LaneView>,
    current: Seq<LaneView>,
    n: int,
)
    requires
        0 <= n <= proposed.len(),
        distinct_ids(proposed),
        distinct_ids(current),
    ensures
        merged_lanes(base, proposed, current, n).len() == current.len() + proposed.take(n).filter(
            new_to_both(base, current),
        ).len(),
    decreases n,
{
    let f = new_to_both(base, current);
    if n == 0 {
        reveal(Seq::filter);
        assert(proposed.take(0).filter(f).len() == 0);
    } else {
        lemma_merged_len(base, proposed, current, n - 1);
        law_merge_keeps_concurrent_changes(base, proposed, current, n - 1);
        lemma_filter_push(proposed, f, n - 1);
        let v = merged_lanes(base, proposed, current, n - 1);
        let l = proposed[n - 1];
        lemma_position(base, l.id);
        lemma_position(v, l.id);
        assert(has_lane(v, l.id) == has_lane(current, l.id)) by {
            if has_lane(current, l.id) {
                let i = choose|i: int| 0 <= i < current.len() && (#[trigger] current[i]).id == l.id;
                assert(v[i].id == l.id);
            }
            if has_lane(v, l.id) {
                let i = choose|i: int| 0 <= i < v.len() && (#[trigger] v[i]).id == l.id;
                if i < current.len() {
                    assert(current[i].id == l.id);
                } else {
                    let k = choose|k: int| 0 <= k < n - 1 && proposed[k] == v[i];
                    assert(proposed[k].id != proposed[n - 1].id);
                }
            }
        }
    }
}

/// A merge of valid registries that fits leaves a valid registry, as long as no
/// lane was deleted since the model began; lanes are never deleted.
pub proof fn law_merge_keeps_validity(
    base: RegistryView,
    proposed: RegistryView,
    current: RegistryView,
    same_revision: bool,
)
    requires
        valid_registry(proposed),
        valid_registry(current),
        !merge_overflows(base, proposed, current),
        forall|i: int|
            0 <= i < base.lanes.len() ==> has_lane(current.lanes, (#[trigger] base.lanes[i]).id),
    ensures
        valid_registry(merged(base, proposed, current, same_revision)),
{
    let n = proposed.lanes.len() as int;
    let w = merged_lanes(base.lanes, proposed.lanes, current.lanes, n);
    law_merge_keeps_concurrent_changes(base.lanes, proposed.lanes, current.lanes, n);
    lemma_merged_len(base.lanes, proposed.lanes, current.lanes, n);
    assert(proposed.lanes.take(n) =~= proposed.lanes);
    assert forall|i: int| 0 <= i < w.len() implies well_formed_lane(#[trigger] w[i])
        && safe_interactions(w[i]) by {
        if i < current.lanes.len() && w[i] == current.lanes[i] {
            assert(well_formed_lane(current.lanes[i]));
        } else {
            let k = choose|k: int| 0 <= k < n && proposed.lanes[k] == w[i];
            assert(well_formed_lane(proposed.lanes[k]));
        }
    }
    assert forall|id: Seq<char>| has_lane(current.lanes, id) implies has_lane(w, id) by {
        let i = choose|i: int|
            0 <= i < current.lanes.len() && (#[trigger] current.lanes[i]).id == id;
        assert(w[i].id == id);
    }
    assert forall|id: Seq<char>| has_lane(proposed.lanes, id) implies has_lane(w, id) by {
        let k = choose|k: int|
            0 <= k < proposed.lanes.len() && (#[trigger] proposed.lanes[k]).id == id;
        if has_lane(base.lanes, id) {
            let i = choose|i: int| 0 <= i < base.lanes.len() && (#[trigger] base.lanes[i]).id == id;
            assert(has_lane(current.lanes, base.lanes[i].id));
        } else {
            assert(has_lane(w, proposed.lanes[k].id));
        }
    }
}

} // verus!
